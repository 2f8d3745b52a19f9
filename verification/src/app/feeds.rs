//! Opening feeds and documents, what was read, and moving through the lists.
use vstd::prelude::*;

use crate::app::appearance::{down, last_row, row_down, row_up, up};
use crate::app::matching::{joined_url, web_url};
use crate::app::reading::{home_place, links_with_home};
use crate::app::state::{opt_source, App, Focus, Mode, SpecApp};
use crate::model::{
    copy_opt, documents_view, opt_view, publications_view, Document, ImageSource,
    PublishingPlatform, SpecDocument, SpecImage, SpecImageSource, SpecPublication,
};
use crate::prefs::LayoutKind;
use crate::text::{join2, lemma_strings_view_push, owned, same, strings_view};
use crate::worker::{SpecCommand, ToWorker};

verus! {

// --- Feeds ------------------------------------------------------------------------

impl SpecApp {
    /// A feed's post list is shown, empty until its documents come.
    #[verifier::opaque]
    pub open spec fn feed_shown(self, uri: Seq<char>, name: Seq<char>) -> SpecApp {
        SpecApp {
            list_title: name,
            open_pub: Some(uri),
            docs: Seq::empty(),
            doc_sel: 0,
            loading: true,
            ..self
        }
    }

    /// The post list has the focus: in the two-pane layout in place of the sidebar, in
    /// the others as a pane of its own.
    #[verifier::opaque]
    pub open spec fn posts_focused(self) -> SpecApp {
        SpecApp {
            mode: if self.layout == LayoutKind::TwoPane {
                Mode::DocList
            } else {
                Mode::Browse
            },
            focus: Focus::Posts,
            ..self
        }
    }

    /// The selected feed opens, in its own layout.
    #[verifier::opaque]
    pub open spec fn feed_opened(self) -> SpecApp {
        if self.feed_sel < self.feeds.len() {
            let p = self.feeds[self.feed_sel as int];
            self.feed_shown(p.uri, p.name).with_appearance().posts_focused().sending(
                SpecCommand::OpenFeed(p.uri),
            )
        } else {
            self
        }
    }

    /// A feed is asked for anew.
    #[verifier::opaque]
    pub open spec fn refreshing(self, uri: Seq<char>, name: Seq<char>) -> SpecApp {
        SpecApp {
            open_pub: Some(uri),
            loading: true,
            status: "refreshing "@ + name + "…"@,
            commands: self.commands.push(SpecCommand::Refresh(uri)),
            ..self
        }
    }

    /// The selected feed is asked for anew.
    #[verifier::opaque]
    pub open spec fn feed_refreshed(self) -> SpecApp {
        if self.feed_sel < self.feeds.len() {
            let p = self.feeds[self.feed_sel as int];
            self.refreshing(p.uri, p.name)
        } else {
            self
        }
    }

    /// The selected feed is unfollowed, if the feed list has the focus.
    #[verifier::opaque]
    pub open spec fn feed_unfollowed(self) -> SpecApp {
        if self.focus == Focus::Sidebar && self.feed_sel < self.feeds.len() {
            let p = self.feeds[self.feed_sel as int];
            SpecApp {
                status: "unfollowed "@ + p.name,
                commands: self.commands.push(SpecCommand::Unfollow(p.uri)),
                ..self
            }
        } else {
            self
        }
    }

    /// Signed in, the account is signed out; else a handle is asked for.
    #[verifier::opaque]
    pub open spec fn account_toggled(self) -> SpecApp {
        if self.account is Some {
            self.signing_out()
        } else {
            self.prompting(Mode::SignIn)
        }
    }

    /// The account is signed out.
    #[verifier::opaque]
    pub open spec fn signing_out(self) -> SpecApp {
        SpecApp {
            status: "logging out…"@,
            commands: self.commands.push(SpecCommand::Logout),
            ..self
        }
    }

    /// A prompt opens with nothing typed.
    #[verifier::opaque]
    pub open spec fn prompting(self, mode: Mode) -> SpecApp {
        SpecApp { mode, input: Seq::empty(), ..self }
    }
}

impl App {
    fn selected_feed(&self) -> (r: Option<(String, String)>)
        ensures
            match r {
                Some(p) => {
                    &&& self@.feed_sel < self@.feeds.len()
                    &&& p.0@ == self@.feeds[self@.feed_sel as int].uri
                    &&& p.1@ == self@.feeds[self@.feed_sel as int].name
                },
                None => self@.feed_sel >= self@.feeds.len(),
            },
    {
        assert(publications_view(self.feeds@).len() == self.feeds@.len());
        if self.feed_sel < self.feeds.len() {
            assert(publications_view(self.feeds@)[self.feed_sel as int]
                == self.feeds@[self.feed_sel as int]@);
            let p = &self.feeds[self.feed_sel];
            Some((p.uri.clone(), p.name.clone()))
        } else {
            None
        }
    }

    fn show_feed(&mut self, uri: &str, name: String)
        ensures
            final(self)@ == old(self)@.feed_shown(uri@, name@),
            old(self)@.wf() ==> final(self)@.wf(),
    {
        proof {
            reveal(SpecApp::feed_shown);
        }
        self.list_title = name;
        self.open_pub = Some(owned(uri));
        self.docs = Vec::new();
        self.doc_sel = 0;
        self.loading = true;
        assert(documents_view(self.docs@) =~= Seq::empty());
    }

    fn focus_posts(&mut self)
        ensures
            final(self)@ == old(self)@.posts_focused(),
            old(self)@.wf() ==> final(self)@.wf(),
    {
        proof {
            reveal(SpecApp::posts_focused);
        }
        self.mode = if self.layout == LayoutKind::TwoPane {
            Mode::DocList
        } else {
            Mode::Browse
        };
        self.focus = Focus::Posts;
    }

    pub(crate) fn open_feed(&mut self)
        ensures
            final(self)@ == old(self)@.feed_opened(),
            old(self)@.wf() ==> final(self)@.wf(),
    {
        proof {
            reveal(SpecApp::feed_opened);
        }
        if let Some((uri, name)) = self.selected_feed() {
            self.show_feed(uri.as_str(), name);
            self.recompute_appearance();
            self.focus_posts();
            self.send(ToWorker::OpenFeed(uri));
        }
    }

    fn refresh_feed(&mut self, uri: String, name: String)
        ensures
            final(self)@ == old(self)@.refreshing(uri@, name@),
            old(self)@.wf() ==> final(self)@.wf(),
    {
        proof {
            reveal(SpecApp::refreshing);
        }
        self.open_pub = Some(uri.clone());
        self.loading = true;
        let mut status = join2("refreshing ", name.as_str());
        status.push_str("…");
        self.status = status;
        self.send(ToWorker::Refresh(uri));
    }

    pub(crate) fn refresh_current_feed(&mut self)
        ensures
            final(self)@ == old(self)@.feed_refreshed(),
            old(self)@.wf() ==> final(self)@.wf(),
    {
        proof {
            reveal(SpecApp::feed_refreshed);
        }
        if let Some((uri, name)) = self.selected_feed() {
            self.refresh_feed(uri, name);
        }
    }

    pub(crate) fn unfollow_current_feed(&mut self)
        ensures
            final(self)@ == old(self)@.feed_unfollowed(),
            old(self)@.wf() ==> final(self)@.wf(),
    {
        proof {
            reveal(SpecApp::feed_unfollowed);
        }
        if self.focus == Focus::Sidebar {
            if let Some((uri, name)) = self.selected_feed() {
                self.status = join2("unfollowed ", name.as_str());
                self.send(ToWorker::Unfollow(uri));
            }
        }
    }

    pub(crate) fn sign_out(&mut self)
        ensures
            final(self)@ == old(self)@.signing_out(),
            old(self)@.wf() ==> final(self)@.wf(),
    {
        proof {
            reveal(SpecApp::signing_out);
        }
        self.status = owned("logging out…");
        self.send(ToWorker::Logout);
    }

    pub(crate) fn enter_input(&mut self, mode: Mode)
        ensures
            final(self)@ == old(self)@.prompting(mode),
            old(self)@.wf() ==> final(self)@.wf(),
    {
        proof {
            reveal(SpecApp::prompting);
        }
        self.mode = mode;
        self.input = String::new();
    }

    pub(crate) fn toggle_account(&mut self)
        ensures
            final(self)@ == old(self)@.account_toggled(),
            old(self)@.wf() ==> final(self)@.wf(),
    {
        proof {
            reveal(SpecApp::account_toggled);
        }
        if self.account.is_some() {
            self.sign_out();
        } else {
            self.enter_input(Mode::SignIn);
        }
    }
}

// --- Documents --------------------------------------------------------------------

/// What a document's title is shown as.
pub open spec fn shown_title(title: Seq<char>) -> Seq<char> {
    if title.len() == 0 {
        "(untitled)"@
    } else {
        title
    }
}

/// Where an optional image comes from.
pub open spec fn source_of(o: Option<SpecImage>) -> Option<SpecImageSource> {
    match o {
        Some(i) => Some(i.source),
        None => None,
    }
}

impl SpecApp {
    /// A document's metadata is shown, without a body, and the reader has the focus.
    #[verifier::opaque]
    pub open spec fn doc_shown(self, d: SpecDocument) -> SpecApp {
        SpecApp {
            reading_title: shown_title(d.title),
            reading_uri: Some(d.uri),
            reading_platform: d.publishing_platform,
            reading_description: d.description,
            reading_cover: source_of(d.cover_image),
            reading: None,
            links: links_with_home(Seq::empty(), d.publishing_platform),
            attribution_link: home_place(0, d.publishing_platform),
            focused_link: None,
            attribution_visible: false,
            link_rects: Seq::empty(),
            scroll: 0,
            loading: true,
            mode: Mode::Browse,
            focus: Focus::Reader,
            ..self
        }
    }

    /// The cover of the document is asked for.
    #[verifier::opaque]
    pub open spec fn wanting_cover(self) -> SpecApp {
        match self.reading_cover {
            Some(s) => self.wanting(s),
            None => self,
        }
    }

    /// The selected document opens.
    #[verifier::opaque]
    pub open spec fn doc_opened(self) -> SpecApp {
        if self.doc_sel < self.docs.len() {
            let d = self.docs[self.doc_sel as int];
            self.doc_shown(d).wanting_cover().sending(SpecCommand::OpenDoc(d.uri))
        } else {
            self
        }
    }

    /// A document counts as read: it is marked, and one less is unread in the open feed.
    /// One that was read already changes nothing.
    #[verifier::opaque]
    pub open spec fn read_noted(self, uri: Seq<char>) -> SpecApp {
        if self.read_uris.contains(uri) {
            self
        } else {
            SpecApp {
                read_uris: self.read_uris.insert(uri),
                unread_counts: match self.open_pub {
                    Some(p) => if self.unread_counts.dom().contains(p) {
                        self.unread_counts.insert(p, row_up(self.unread_counts[p]))
                    } else {
                        self.unread_counts
                    },
                    None => self.unread_counts,
                },
                ..self
            }
        }
    }

    /// The open document is marked read.
    #[verifier::opaque]
    pub open spec fn marked_read(self) -> SpecApp {
        match self.reading_uri {
            Some(uri) => self.sending(SpecCommand::SetRead(uri, true)).read_noted(uri).saying(
                "marked read"@,
            ),
            None => self,
        }
    }

    /// Older posts of the open feed are asked for.
    #[verifier::opaque]
    pub open spec fn older_wanted(self) -> SpecApp {
        match self.open_pub {
            Some(uri) => SpecApp {
                status: "loading older…"@,
                commands: self.commands.push(SpecCommand::LoadOlder(uri)),
                ..self
            },
            None => self,
        }
    }

    /// A post is selected.
    #[verifier::opaque]
    pub open spec fn post_at(self, row: usize) -> SpecApp {
        SpecApp { doc_sel: row, ..self }
    }

    /// A feed is selected.
    #[verifier::opaque]
    pub open spec fn feed_at(self, row: usize) -> SpecApp {
        SpecApp { feed_sel: row, ..self }
    }

    /// The reader is scrolled to a row.
    #[verifier::opaque]
    pub open spec fn scrolled(self, row: u16) -> SpecApp {
        SpecApp { scroll: row, ..self }
    }

    /// One post down; at the last, older posts are asked for.
    #[verifier::opaque]
    pub open spec fn post_down(self) -> SpecApp {
        if self.doc_sel + 1 >= self.docs.len() {
            self.older_wanted()
        } else {
            self.post_at((self.doc_sel + 1) as usize)
        }
    }

    /// The address of a post: its publication's, joined with its path.
    pub open spec fn doc_url(self, d: SpecDocument) -> Option<Seq<char>> {
        match feed_url(self.feeds, d.publication, 0) {
            Some(base) => match d.path {
                Some(path) => if path.len() > 0 {
                    Some(joined_url(base, path))
                } else {
                    Some(base)
                },
                None => Some(base),
            },
            None => None,
        }
    }

    /// The selected post opens in the browser.
    #[verifier::opaque]
    pub open spec fn post_browsed(self) -> SpecApp {
        if self.doc_sel < self.docs.len() {
            match self.doc_url(self.docs[self.doc_sel as int]) {
                Some(url) => self.link_opened(url),
                None => SpecApp { status: "no web URL for this post"@, ..self },
            }
        } else {
            SpecApp { status: "no web URL for this post"@, ..self }
        }
    }
}

/// The address of the first feed with a URI, from `i` on.
pub open spec fn feed_url(feeds: Seq<SpecPublication>, uri: Seq<char>, i: int) -> Option<Seq<char>>
    decreases feeds.len() - i,
{
    if i < 0 || i >= feeds.len() {
        None
    } else if feeds[i].uri == uri {
        Some(feeds[i].url)
    } else {
        feed_url(feeds, uri, i + 1)
    }
}

/// Noting a document as read again changes nothing.
pub proof fn law_reading_twice_counts_once(a: SpecApp, uri: Seq<char>)
    ensures
        a.read_noted(uri).read_noted(uri) == a.read_noted(uri),
        a.read_noted(uri).read_uris.contains(uri),
{
    reveal(SpecApp::read_noted);
}

fn home_links(platform: Option<PublishingPlatform>) -> (r: (Vec<String>, Option<usize>))
    ensures
        strings_view(r.0@) == links_with_home(Seq::empty(), platform),
        r.0@.len() == links_with_home(Seq::empty(), platform).len(),
        r.1 == home_place(0, platform),
        r.1 matches Some(i) ==> i < r.0@.len(),
{
    let mut links: Vec<String> = Vec::new();
    assert(strings_view(links@) =~= Seq::empty());
    match platform {
        Some(p) => {
            let home = owned(p.homepage());
            proof {
                lemma_strings_view_push(links@, home);
            }
            links.push(home);
            (links, Some(0))
        },
        None => (links, None),
    }
}

fn title_of(d: &Document) -> (r: String)
    ensures
        r@ == shown_title(d@.title),
{
    if d.title.as_str().is_empty() {
        owned("(untitled)")
    } else {
        d.title.clone()
    }
}

fn cover_of(d: &Document) -> (r: Option<ImageSource>)
    ensures
        opt_source(r) == source_of(d@.cover_image),
{
    match &d.cover_image {
        Some(i) => Some(i.source.clone()),
        None => None,
    }
}

impl App {
    fn selected_doc(&self) -> (r: Option<Document>)
        ensures
            match r {
                Some(d) => {
                    &&& self@.doc_sel < self@.docs.len()
                    &&& d@ == self@.docs[self@.doc_sel as int]
                },
                None => self@.doc_sel >= self@.docs.len(),
            },
    {
        assert(documents_view(self.docs@).len() == self.docs@.len());
        if self.doc_sel < self.docs.len() {
            assert(documents_view(self.docs@)[self.doc_sel as int]
                == self.docs@[self.doc_sel as int]@);
            Some(self.docs[self.doc_sel].clone())
        } else {
            None
        }
    }

    fn show_doc(&mut self, d: &Document)
        ensures
            final(self)@ == old(self)@.doc_shown(d@),
            old(self)@.wf() ==> final(self)@.wf(),
    {
        proof {
            reveal(SpecApp::doc_shown);
        }
        let (links, home) = home_links(d.publishing_platform);
        let description = copy_opt(&d.description);
        self.reading_title = title_of(d);
        self.reading_uri = Some(d.uri.clone());
        self.reading_platform = d.publishing_platform;
        self.reading_description = description;
        self.reading_cover = cover_of(d);
        self.reading = None;
        self.links = links;
        self.attribution_link = home;
        self.focused_link = None;
        self.attribution_visible = false;
        self.link_rects = Vec::new();
        self.scroll = 0;
        self.loading = true;
        self.mode = Mode::Browse;
        self.focus = Focus::Reader;
    }

    fn request_cover(&mut self)
        ensures
            final(self)@ == old(self)@.wanting_cover(),
            old(self)@.wf() ==> final(self)@.wf(),
    {
        proof {
            reveal(SpecApp::wanting_cover);
        }
        let cover = match &self.reading_cover {
            Some(s) => Some(s.clone()),
            None => None,
        };
        if let Some(s) = cover {
            self.request_image(s);
        }
    }

    pub(crate) fn open_doc(&mut self)
        ensures
            final(self)@ == old(self)@.doc_opened(),
            old(self)@.wf() ==> final(self)@.wf(),
    {
        proof {
            reveal(SpecApp::doc_opened);
        }
        if let Some(d) = self.selected_doc() {
            self.show_doc(&d);
            self.request_cover();
            self.send(ToWorker::OpenDoc(d.uri));
        }
    }

    /// Count a document as read, without waiting for the worker.
    pub(crate) fn note_read(&mut self, uri: &str)
        ensures
            final(self)@ == old(self)@.read_noted(uri@),
            old(self)@.wf() ==> final(self)@.wf(),
    {
        proof {
            reveal(SpecApp::read_noted);
        }
        if self.read_uris.contains_key(uri) {
            return ;
        }
        let ghost read = self.read_uris@.dom();
        self.read_uris.insert(owned(uri), ());
        assert(self.read_uris@.dom() =~= read.insert(uri@));
        let pub_uri = copy_opt(&self.open_pub);
        if let Some(p) = pub_uri {
            let count = match self.unread_counts.get(p.as_str()) {
                Some(n) => Some(*n),
                None => None,
            };
            if let Some(n) = count {
                self.unread_counts.insert(p, up(n));
            }
        }
    }

    pub(crate) fn mark_read(&mut self)
        ensures
            final(self)@ == old(self)@.marked_read(),
            old(self)@.wf() ==> final(self)@.wf(),
    {
        proof {
            reveal(SpecApp::marked_read);
        }
        let current = copy_opt(&self.reading_uri);
        if let Some(uri) = current {
            self.send(ToWorker::SetRead(uri.clone(), true));
            self.note_read(uri.as_str());
            self.status = owned("marked read");
        }
    }

    fn load_older_current(&mut self)
        ensures
            final(self)@ == old(self)@.older_wanted(),
            old(self)@.wf() ==> final(self)@.wf(),
    {
        proof {
            reveal(SpecApp::older_wanted);
        }
        let current = copy_opt(&self.open_pub);
        if let Some(uri) = current {
            self.status = owned("loading older…");
            self.send(ToWorker::LoadOlder(uri));
        }
    }

    pub(crate) fn select_post(&mut self, row: usize)
        ensures
            final(self)@ == old(self)@.post_at(row),
            old(self)@.wf() ==> final(self)@.wf(),
    {
        proof {
            reveal(SpecApp::post_at);
        }
        self.doc_sel = row;
    }

    pub(crate) fn select_feed(&mut self, row: usize)
        ensures
            final(self)@ == old(self)@.feed_at(row),
            old(self)@.wf() ==> final(self)@.wf(),
    {
        proof {
            reveal(SpecApp::feed_at);
        }
        self.feed_sel = row;
    }

    pub(crate) fn scroll_to(&mut self, row: u16)
        ensures
            final(self)@ == old(self)@.scrolled(row),
            old(self)@.wf() ==> final(self)@.wf(),
    {
        proof {
            reveal(SpecApp::scrolled);
        }
        self.scroll = row;
    }

    pub(crate) fn posts_down(&mut self)
        ensures
            final(self)@ == old(self)@.post_down(),
            old(self)@.wf() ==> final(self)@.wf(),
    {
        proof {
            reveal(SpecApp::post_down);
        }
        assert(documents_view(self.docs@).len() == self.docs@.len());
        if self.docs.len() == 0 || self.doc_sel >= self.docs.len() - 1 {
            self.load_older_current();
        } else {
            self.select_post(self.doc_sel + 1);
        }
    }

    fn base_url(&self, uri: &str) -> (r: Option<String>)
        ensures
            opt_view(r) == feed_url(self@.feeds, uri@, 0),
    {
        let ghost all = publications_view(self.feeds@);
        let mut i: usize = 0;
        while i < self.feeds.len()
            invariant
                i <= self.feeds@.len(),
                all == publications_view(self.feeds@),
                all.len() == self.feeds@.len(),
                feed_url(all, uri@, 0) == feed_url(all, uri@, i as int),
            decreases self.feeds@.len() - i,
        {
            assert(all[i as int] == self.feeds@[i as int]@);
            if same(self.feeds[i].uri.as_str(), uri) {
                return Some(self.feeds[i].url.clone());
            }
            i = i + 1;
        }
        None
    }

    fn post_url(&self, d: &Document) -> (r: Option<String>)
        ensures
            opt_view(r) == self@.doc_url(d@),
    {
        match self.base_url(d.publication.as_str()) {
            Some(base) => match &d.path {
                Some(path) => if path.as_str().is_empty() {
                    Some(base)
                } else {
                    Some(web_url(base.as_str(), path.as_str()))
                },
                None => Some(base),
            },
            None => None,
        }
    }

    pub(crate) fn open_in_browser(&mut self)
        ensures
            final(self)@ == old(self)@.post_browsed(),
            old(self)@.wf() ==> final(self)@.wf(),
    {
        proof {
            reveal(SpecApp::post_browsed);
        }
        let url = match self.selected_doc() {
            Some(d) => self.post_url(&d),
            None => None,
        };
        match url {
            Some(u) => self.open_link(u.as_str()),
            None => self.status = owned("no web URL for this post"),
        }
    }
}

// --- Moving -----------------------------------------------------------------------

/// A row further down by `n`; rows end at the largest number.
pub open spec fn scroll_down(row: u16, n: int) -> u16 {
    if row + n <= u16::MAX {
        (row + n) as u16
    } else {
        u16::MAX
    }
}

/// A row further up by `n`, or the first.
pub open spec fn scroll_up(row: u16, n: int) -> u16 {
    if row >= n {
        (row - n) as u16
    } else {
        0
    }
}

impl SpecApp {
    /// One row down in the focused pane.
    #[verifier::opaque]
    pub open spec fn moved_down(self) -> SpecApp {
        match self.focus {
            Focus::Sidebar => self.feed_at(
                row_down(self.feed_sel, last_row(self.feeds.len()) as usize),
            ),
            Focus::Posts => self.post_down(),
            Focus::Reader => self.scrolled(scroll_down(self.scroll, 1)),
        }
    }

    /// One row up in the focused pane.
    #[verifier::opaque]
    pub open spec fn moved_up(self) -> SpecApp {
        match self.focus {
            Focus::Sidebar => self.feed_at(row_up(self.feed_sel)),
            Focus::Posts => self.post_at(row_up(self.doc_sel)),
            Focus::Reader => self.scrolled(scroll_up(self.scroll, 1)),
        }
    }

    /// The first row of the focused pane.
    #[verifier::opaque]
    pub open spec fn at_top(self) -> SpecApp {
        match self.focus {
            Focus::Sidebar => self.feed_at(0),
            Focus::Posts => self.post_at(0),
            Focus::Reader => self.scrolled(0),
        }
    }

    /// The last row of the focused list; the reader stays.
    #[verifier::opaque]
    pub open spec fn at_bottom(self) -> SpecApp {
        match self.focus {
            Focus::Sidebar => self.feed_at(last_row(self.feeds.len()) as usize),
            Focus::Posts => self.post_at(last_row(self.docs.len()) as usize),
            Focus::Reader => self,
        }
    }
}

pub(crate) fn last_of(n: usize) -> (r: usize)
    ensures
        r == last_row(n as nat),
{
    if n > 0 {
        n - 1
    } else {
        0
    }
}

impl App {
    pub(crate) fn move_down(&mut self)
        ensures
            final(self)@ == old(self)@.moved_down(),
            old(self)@.wf() ==> final(self)@.wf(),
    {
        proof {
            reveal(SpecApp::moved_down);
        }
        assert(publications_view(self.feeds@).len() == self.feeds@.len());
        match self.focus {
            Focus::Sidebar => self.select_feed(down(self.feed_sel, last_of(self.feeds.len()))),
            Focus::Posts => self.posts_down(),
            Focus::Reader => self.scroll_to(self.scroll.saturating_add(1)),
        }
    }

    pub(crate) fn move_up(&mut self)
        ensures
            final(self)@ == old(self)@.moved_up(),
            old(self)@.wf() ==> final(self)@.wf(),
    {
        proof {
            reveal(SpecApp::moved_up);
        }
        match self.focus {
            Focus::Sidebar => self.select_feed(up(self.feed_sel)),
            Focus::Posts => self.select_post(up(self.doc_sel)),
            Focus::Reader => self.scroll_to(self.scroll.saturating_sub(1)),
        }
    }

    pub(crate) fn go_top(&mut self)
        ensures
            final(self)@ == old(self)@.at_top(),
            old(self)@.wf() ==> final(self)@.wf(),
    {
        proof {
            reveal(SpecApp::at_top);
        }
        match self.focus {
            Focus::Sidebar => self.select_feed(0),
            Focus::Posts => self.select_post(0),
            Focus::Reader => self.scroll_to(0),
        }
    }

    pub(crate) fn go_bottom(&mut self)
        ensures
            final(self)@ == old(self)@.at_bottom(),
            old(self)@.wf() ==> final(self)@.wf(),
    {
        proof {
            reveal(SpecApp::at_bottom);
        }
        assert(publications_view(self.feeds@).len() == self.feeds@.len());
        assert(documents_view(self.docs@).len() == self.docs@.len());
        match self.focus {
            Focus::Sidebar => self.select_feed(last_of(self.feeds.len())),
            Focus::Posts => self.select_post(last_of(self.docs.len())),
            Focus::Reader => {},
        }
    }
}

} // verus!
