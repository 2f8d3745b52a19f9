//! Feeds and documents: opening them, their links and images, and what was read.
use vstd::prelude::*;

use crate::app::content::{
    block_images, block_links, collect_image_sources, collect_links, image_key, source_key,
    sources_view,
};
use crate::app::geometry::{find_link_rect, in_rect, link_rect_at};
use crate::app::state::{App, Focus, SpecApp};
use crate::model::{opt_view, ImageSource, PublishingPlatform, RichDoc, SpecBlock, SpecImageSource};
use crate::text::{decimal, decimal_of, join2, lemma_strings_view_push, owned, strings_view};
use crate::worker::{SpecCommand, ToWorker};

verus! {

// --- Images -----------------------------------------------------------------------

impl SpecApp {
    /// An image is asked for, unless images are off or it is there already.
    #[verifier::opaque]
    pub open spec fn wanting(self, source: SpecImageSource) -> SpecApp {
        let key = source_key(source);
        if self.show_images && !self.images.dom().contains(key) {
            SpecApp {
                commands: self.commands.push(SpecCommand::LoadImage { key, source }),
                ..self
            }
        } else {
            self
        }
    }

    /// Images are asked for, one after the other.
    pub open spec fn wanting_all(self, sources: Seq<SpecImageSource>) -> SpecApp
        decreases sources.len(),
    {
        if sources.len() == 0 {
            self
        } else {
            self.wanting_all(sources.drop_last()).wanting(sources.last())
        }
    }

    /// The images of the open document and its cover are asked for.
    #[verifier::opaque]
    pub open spec fn wanting_current(self) -> SpecApp {
        let a = match self.reading {
            Some(body) => self.wanting_all(block_images(body)),
            None => self,
        };
        match self.reading_cover {
            Some(source) => a.wanting(source),
            None => a,
        }
    }

    /// Images are shown, or not.
    #[verifier::opaque]
    pub open spec fn images_switched(self, on: bool) -> SpecApp {
        SpecApp {
            show_images: on,
            commands: self.commands.push(SpecCommand::SetShowImages(on)),
            status: if on {
                "images: on"@
            } else {
                "images: off (text-only)"@
            },
            ..self
        }
    }

    /// Images are turned on or off; turned on, those of the open document are asked for.
    #[verifier::opaque]
    pub open spec fn images_toggled(self) -> SpecApp {
        if self.show_images {
            self.images_switched(false)
        } else {
            self.images_switched(true).wanting_current()
        }
    }
}

impl App {
    pub(crate) fn request_image(&mut self, source: ImageSource)
        ensures
            final(self)@ == old(self)@.wanting(source@),
            old(self)@.wf() ==> final(self)@.wf(),
    {
        proof {
            reveal(SpecApp::wanting);
        }
        if !self.show_images {
            return ;
        }
        let key = image_key(&source);
        if !self.images.contains_key(key.as_str()) {
            self.send(ToWorker::LoadImage { key, source });
        }
    }

    /// Ask for every image of a document that is not there yet.
    pub(crate) fn request_body_images(&mut self, body: &RichDoc)
        ensures
            final(self)@ == old(self)@.wanting_all(block_images(body@)),
            old(self)@.wf() ==> final(self)@.wf(),
    {
        let mut sources: Vec<ImageSource> = Vec::new();
        assert(sources_view(sources@) =~= Seq::empty());
        collect_image_sources(&body.blocks, &mut sources);
        let ghost all = sources_view(sources@);
        let ghost start = self@;
        assert(all =~= block_images(body@));
        let mut i: usize = 0;
        assert(all.take(0) =~= Seq::empty());
        while i < sources.len()
            invariant
                i <= sources@.len(),
                all == sources_view(sources@),
                self@ == start.wanting_all(all.take(i as int)),
                start.wf() ==> self@.wf(),
            decreases sources@.len() - i,
        {
            self.request_image(sources[i].clone());
            assert(all.take(i + 1).drop_last() =~= all.take(i as int));
            i = i + 1;
        }
        assert(all.take(all.len() as int) =~= all);
    }

    /// Ask for the images of the open document and its cover.
    pub(crate) fn request_current_images(&mut self)
        ensures
            final(self)@ == old(self)@.wanting_current(),
            old(self)@.wf() ==> final(self)@.wf(),
    {
        proof {
            reveal(SpecApp::wanting_current);
        }
        let cover = match &self.reading_cover {
            Some(s) => Some(s.clone()),
            None => None,
        };
        let body = match &self.reading {
            Some(b) => Some(b.clone()),
            None => None,
        };
        if let Some(b) = body {
            self.request_body_images(&b);
        }
        if let Some(s) = cover {
            self.request_image(s);
        }
    }

    fn switch_images(&mut self, on: bool)
        ensures
            final(self)@ == old(self)@.images_switched(on),
            old(self)@.wf() ==> final(self)@.wf(),
    {
        proof {
            reveal(SpecApp::images_switched);
        }
        self.show_images = on;
        self.send(ToWorker::SetShowImages(on));
        self.status = if on {
            owned("images: on")
        } else {
            owned("images: off (text-only)")
        };
    }

    pub(crate) fn toggle_images(&mut self)
        ensures
            final(self)@ == old(self)@.images_toggled(),
            old(self)@.wf() ==> final(self)@.wf(),
    {
        proof {
            reveal(SpecApp::images_toggled);
        }
        if self.show_images {
            self.switch_images(false);
        } else {
            self.switch_images(true);
            self.request_current_images();
        }
    }
}

// --- Links ------------------------------------------------------------------------

/// The links of a document with its platform's home page after them.
pub open spec fn links_with_home(
    links: Seq<Seq<char>>,
    platform: Option<PublishingPlatform>,
) -> Seq<Seq<char>> {
    match platform {
        Some(p) => links.push(p.spec_homepage()),
        None => links,
    }
}

/// The place of the platform's home page among the links.
pub open spec fn home_place(n: nat, platform: Option<PublishingPlatform>) -> Option<usize> {
    match platform {
        Some(_) => Some(n as usize),
        None => None,
    }
}

/// A number that is less than a bound.
pub open spec fn below(o: Option<usize>, n: nat) -> Option<usize> {
    match o {
        Some(i) => if i < n {
            Some(i)
        } else {
            None
        },
        None => None,
    }
}

/// `(i + delta)` around a ring of `n`.
pub open spec fn around(i: int, delta: int, n: int) -> int {
    (i + delta) % n
}

impl SpecApp {
    /// The links are made anew from a body, in reading order, the platform's home page
    /// last. The focus stays where it was only if it is to.
    #[verifier::opaque]
    pub open spec fn links_rebuilt(self, body: Seq<SpecBlock>, preserve_focus: bool) -> SpecApp {
        let links = links_with_home(block_links(body), self.reading_platform);
        SpecApp {
            links,
            attribution_link: home_place(block_links(body).len(), self.reading_platform),
            focused_link: if preserve_focus {
                below(self.focused_link, links.len())
            } else {
                None
            },
            attribution_visible: false,
            link_rects: Seq::empty(),
            reader_stale: true,
            ..self
        }
    }

    /// How many links can be stepped through: not the border's, unless it was drawn.
    pub open spec fn navigable_links(self) -> int {
        match self.attribution_link {
            Some(i) => if self.attribution_visible {
                self.links.len() as int
            } else {
                i as int
            },
            None => self.links.len() as int,
        }
    }

    /// The link that a step leads to: from nowhere the first, or the last when stepping
    /// back.
    pub open spec fn next_link(self, delta: int) -> int {
        let n = self.navigable_links();
        match self.focused_link {
            Some(i) => if i < n {
                around(i as int, delta, n)
            } else if delta < 0 {
                n - 1
            } else {
                0
            },
            None => if delta < 0 {
                n - 1
            } else {
                0
            },
        }
    }

    /// What the status line says of a focused link.
    pub open spec fn link_status(self, next: usize) -> Seq<char> {
        "link "@ + decimal((next + 1) as nat) + "/"@ + decimal(self.navigable_links() as nat)
            + ": "@ + self.links[next as int]
    }

    /// A link has the focus, and comes into view unless it is the border's.
    #[verifier::opaque]
    pub open spec fn link_focused(self, next: usize) -> SpecApp {
        SpecApp {
            focused_link: Some(next),
            scroll_to_focused: self.attribution_link != Some(next),
            focus: Focus::Reader,
            status: self.link_status(next),
            ..self
        }
    }

    /// The focus steps to another link.
    #[verifier::opaque]
    pub open spec fn link_stepped(self, delta: int) -> SpecApp {
        if self.navigable_links() == 0 {
            SpecApp { status: "no links in this post"@, ..self }
        } else {
            self.link_focused(self.next_link(delta) as usize)
        }
    }

    /// A link opens in the browser.
    #[verifier::opaque]
    pub open spec fn link_opened(self, href: Seq<char>) -> SpecApp {
        SpecApp { status: "opening "@ + href, to_open: self.to_open.push(href), ..self }
    }

    /// The focused link opens. The border's does not while it is not drawn.
    #[verifier::opaque]
    pub open spec fn focused_link_opened(self) -> SpecApp {
        match self.focused_link {
            Some(i) => if self.attribution_link == Some(i) && !self.attribution_visible {
                self
            } else if i < self.links.len() {
                self.link_opened(self.links[i as int])
            } else if self.links.len() > 0 {
                SpecApp { status: "press n to focus a link, then Enter"@, ..self }
            } else {
                self
            },
            None => if self.links.len() > 0 {
                SpecApp { status: "press n to focus a link, then Enter"@, ..self }
            } else {
                self
            },
        }
    }

    /// The link at a point of the screen: the border's, or one whose footprint lies
    /// there.
    pub open spec fn link_under(self, col: int, row: int) -> Option<Seq<char>> {
        let r = self.rects.reader;
        if self.rects.attribution.covers(col, row) {
            match self.attribution_link {
                Some(i) => if i < self.links.len() {
                    Some(self.links[i as int])
                } else {
                    None
                },
                None => None,
            }
        } else if r.covers_inside(col, row) {
            match link_rect_at(self.link_rects, 0, col - r.x - 1, row - r.y - 1 + self.scroll) {
                Some(i) => if i < self.links.len() {
                    Some(self.links[i as int])
                } else {
                    None
                },
                None => None,
            }
        } else {
            None
        }
    }
}

fn gather_links(body: &RichDoc, platform: Option<PublishingPlatform>) -> (r: (
    Vec<String>,
    Option<usize>,
))
    ensures
        strings_view(r.0@) == links_with_home(block_links(body@), platform),
        r.0@.len() == links_with_home(block_links(body@), platform).len(),
        r.1 == home_place(block_links(body@).len(), platform),
        r.1 matches Some(i) ==> i < r.0@.len(),
{
    let mut links: Vec<String> = Vec::new();
    assert(strings_view(links@) =~= Seq::empty());
    collect_links(&body.blocks, &mut links);
    assert(strings_view(links@) =~= block_links(body@));
    assert(strings_view(links@).len() == links@.len());
    let n: usize = links.len();
    match platform {
        Some(p) => {
            let home = owned(p.homepage());
            proof {
                lemma_strings_view_push(links@, home);
            }
            links.push(home);
            (links, Some(n))
        },
        None => (links, None),
    }
}

fn keep_below(o: Option<usize>, n: usize) -> (r: Option<usize>)
    ensures
        r == below(o, n as nat),
{
    match o {
        Some(i) => if i < n {
            Some(i)
        } else {
            None
        },
        None => None,
    }
}

fn step_around(i: usize, delta: i32, n: usize) -> (r: usize)
    requires
        i < n,
    ensures
        r == around(i as int, delta as int, n as int),
        r < n,
{
    if delta >= 0 {
        let x: u128 = i as u128 + delta as u128;
        (x % (n as u128)) as usize
    } else {
        let back: u128 = (-(delta as i64)) as u128;
        let short: u128 = back % (n as u128);
        let x: u128 = i as u128 + n as u128 - short;
        proof {
            let q = back as int / n as int;
            vstd::arithmetic::div_mod::lemma_fundamental_div_mod(back as int, n as int);
            assert(x as int == (i - back) + n * (q + 1)) by (nonlinear_arith)
                requires
                    back as int == n as int * q + short as int,
                    x as int == i as int + n as int - short as int,
            ;
            vstd::arithmetic::div_mod::lemma_mod_multiples_vanish(q + 1, i - back, n as int);
            assert(i - back == i + delta);
        }
        (x % (n as u128)) as usize
    }
}

impl App {
    /// Make the links anew from a body, the platform's home page last.
    pub fn rebuild_links(&mut self, body: &RichDoc, preserve_focus: bool)
        ensures
            final(self)@ == old(self)@.links_rebuilt(body@, preserve_focus),
            old(self)@.wf() ==> final(self)@.wf(),
    {
        proof {
            reveal(SpecApp::links_rebuilt);
        }
        let (links, home) = gather_links(body, self.reading_platform);
        let focused = if preserve_focus {
            keep_below(self.focused_link, links.len())
        } else {
            None
        };
        self.links = links;
        self.attribution_link = home;
        self.focused_link = focused;
        self.attribution_visible = false;
        self.link_rects = Vec::new();
        self.reader_stale = true;
    }

    fn navigable_link_count(&self) -> (n: usize)
        ensures
            n == self@.navigable_links(),
    {
        assert(strings_view(self.links@).len() == self.links@.len());
        match self.attribution_link {
            Some(i) => if self.attribution_visible {
                self.links.len()
            } else {
                i
            },
            None => self.links.len(),
        }
    }

    fn link_after(&self, delta: i32) -> (next: usize)
        requires
            self@.wf(),
            self@.navigable_links() > 0,
        ensures
            next == self@.next_link(delta as int),
            next < self@.links.len(),
    {
        assert(strings_view(self.links@).len() == self.links@.len());
        let n: usize = self.navigable_link_count();
        match self.focused_link {
            Some(i) => if i < n {
                step_around(i, delta, n)
            } else if delta < 0 {
                n - 1
            } else {
                0
            },
            None => if delta < 0 {
                n - 1
            } else {
                0
            },
        }
    }

    fn describe_link(&self, next: usize) -> (r: String)
        requires
            next < self@.links.len(),
        ensures
            r@ == self@.link_status(next),
    {
        assert(strings_view(self.links@).len() == self.links@.len());
        assert(strings_view(self.links@)[next as int] == self.links@[next as int]@);
        let mut status = owned("link ");
        assert(next < self.links.len());
        let place = decimal_of((next + 1) as u64);
        status.push_str(place.as_str());
        status.push_str("/");
        let count = decimal_of(self.navigable_link_count() as u64);
        status.push_str(count.as_str());
        status.push_str(": ");
        status.push_str(self.links[next].as_str());
        status
    }

    fn put_link_focus(&mut self, next: usize)
        requires
            next < old(self)@.links.len(),
        ensures
            final(self)@ == old(self)@.link_focused(next),
            old(self)@.wf() ==> final(self)@.wf(),
    {
        proof {
            reveal(SpecApp::link_focused);
        }
        let status = self.describe_link(next);
        self.scroll_to_focused = match self.attribution_link {
            Some(i) => i != next,
            None => true,
        };
        self.focused_link = Some(next);
        self.focus = Focus::Reader;
        self.status = status;
    }

    /// Step the focus to another link, around the ends, and into view.
    pub fn focus_link(&mut self, delta: i32)
        requires
            old(self)@.wf(),
        ensures
            final(self)@ == old(self)@.link_stepped(delta as int),
            final(self)@.wf(),
    {
        proof {
            reveal(SpecApp::link_stepped);
        }
        if self.navigable_link_count() == 0 {
            self.status = owned("no links in this post");
        } else {
            let next: usize = self.link_after(delta);
            self.put_link_focus(next);
        }
    }

    pub(crate) fn open_link(&mut self, href: &str)
        ensures
            final(self)@ == old(self)@.link_opened(href@),
            old(self)@.wf() ==> final(self)@.wf(),
    {
        proof {
            reveal(SpecApp::link_opened);
        }
        self.status = join2("opening ", href);
        self.open_url(owned(href));
    }

    /// Open the focused link.
    pub fn open_focused_link(&mut self)
        ensures
            final(self)@ == old(self)@.focused_link_opened(),
            old(self)@.wf() ==> final(self)@.wf(),
    {
        proof {
            reveal(SpecApp::focused_link_opened);
        }
        assert(strings_view(self.links@).len() == self.links@.len());
        let mut chosen: Option<String> = None;
        if let Some(i) = self.focused_link {
            if let Some(home) = self.attribution_link {
                if home == i && !self.attribution_visible {
                    return ;
                }
            }
            if i < self.links.len() {
                assert(strings_view(self.links@)[i as int] == self.links@[i as int]@);
                chosen = Some(self.links[i].clone());
            }
        }
        match chosen {
            Some(href) => self.open_link(href.as_str()),
            None => if self.links.len() > 0 {
                self.status = owned("press n to focus a link, then Enter");
            },
        }
    }

    /// The link at a point of the screen.
    pub fn link_at(&self, col: u16, row: u16) -> (r: Option<String>)
        ensures
            opt_view(r) == self@.link_under(col as int, row as int),
    {
        assert(strings_view(self.links@).len() == self.links@.len());
        let place: Option<usize> = if in_rect(self.rects.attribution, col, row) {
            self.attribution_link
        } else {
            let r = self.rects.reader;
            if col > r.x && row > r.y && col < r.right().saturating_sub(1) && row
                < r.bottom().saturating_sub(1) {
                let vcol: u32 = (col - r.x - 1) as u32;
                let vrow: u32 = (row - r.y - 1) as u32 + self.scroll as u32;
                find_link_rect(&self.link_rects, vcol, vrow)
            } else {
                None
            }
        };
        match place {
            Some(i) => if i < self.links.len() {
                assert(strings_view(self.links@)[i as int] == self.links@[i as int]@);
                Some(self.links[i].clone())
            } else {
                None
            },
            None => None,
        }
    }
}

} // verus!
