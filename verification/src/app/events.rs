//! Folding the worker's results into the state.
use vstd::prelude::*;

use crate::account::{opt_account, Account, SpecAccount};
use crate::app::appearance::last_row;
use crate::app::content::{block_images, source_key};
use crate::app::feeds::last_of;
use crate::app::state::{
    choices_view, stored_images, App, Mode, SpecApp, SpecStoredImage, StoredImage,
};
use crate::memstore::{pairs_map, pairs_view};
use crate::model::{
    documents_view, lemma_blocks_push, one_inline, publications_view, same_block, same_blocks,
    Block, Document, Inline, Publication, PublishingPlatform, RichDoc, SpecBlock, SpecDocument,
    SpecImageSource, SpecInline, SpecPublication,
};
use crate::table::Table;
use crate::text::{decimal, decimal_of, join2, owned, same, strings_view, trim, trimmed};
use crate::worker::{
    counts_view, DecodedImage, FromWorker, SpecCommand, SpecDecoded, SpecEvent, ToWorker,
};

verus! {

/// A count one higher, around the end.
pub open spec fn bumped(v: u64) -> u64 {
    if v < u64::MAX {
        (v + 1) as u64
    } else {
        0
    }
}

fn bump(v: u64) -> (r: u64)
    ensures
        r == bumped(v),
{
    if v < u64::MAX {
        v + 1
    } else {
        0
    }
}

/// The lesser of a selection and the last row.
pub open spec fn clamped(sel: usize, len: nat) -> usize {
    if sel <= last_row(len) {
        sel
    } else {
        last_row(len) as usize
    }
}

fn clamp_sel(sel: usize, len: usize) -> (r: usize)
    ensures
        r == clamped(sel, len as nat),
{
    let last: usize = last_of(len);
    if sel <= last {
        sel
    } else {
        last
    }
}

/// The paragraph that follows a post without a text of its own.
pub open spec fn stub_hint() -> SpecBlock {
    SpecBlock::Paragraph(
        seq![
            SpecInline::Text(
                "— No full text in this post; press o to open it in your browser."@,
            ),
        ],
    )
}

/// Every publication chosen.
pub open spec fn all_chosen(s: Seq<(Seq<char>, Seq<char>)>) -> Seq<(Seq<char>, Seq<char>, bool)> {
    s.map_values(|p: (Seq<char>, Seq<char>)| (p.0, p.1, true))
}

impl SpecApp {
    /// The feeds and their unread counts arrived.
    #[verifier::opaque]
    pub open spec fn feeds_arrived(
        self,
        feeds: Seq<SpecPublication>,
        unread: Seq<(Seq<char>, usize)>,
    ) -> SpecApp {
        SpecApp {
            feeds,
            unread_counts: pairs_map(unread),
            feed_sel: clamped(self.feed_sel, feeds.len()),
            loading: false,
            status: if feeds.len() == 0 {
                "No feeds yet — press a to add a blog by handle"@
            } else {
                decimal(feeds.len()) + " feed(s)"@
            },
            ..self
        }
    }

    /// A feed's documents arrived. Those of a feed that is not open are dropped.
    #[verifier::opaque]
    pub open spec fn docs_arrived(
        self,
        publication: Seq<char>,
        docs: Seq<SpecDocument>,
        read_uris: Seq<Seq<char>>,
        has_older: bool,
    ) -> SpecApp {
        if self.open_pub == Some(publication) {
            SpecApp {
                docs,
                read_uris: read_uris.to_set(),
                has_older,
                doc_sel: clamped(self.doc_sel, docs.len()),
                loading: false,
                ..self
            }
        } else {
            self
        }
    }

    /// A body that is nothing but the open document's description.
    pub open spec fn is_stub(self, body: Seq<SpecBlock>) -> bool {
        match self.reading_description {
            Some(d) => trimmed(d).len() > 0 && body.len() == 1 && body[0]
                == SpecBlock::Paragraph(seq![SpecInline::Text(d)]),
            None => false,
        }
    }

    /// What is shown of a body: a stub is followed by a hint.
    pub open spec fn shown_body(self, body: Seq<SpecBlock>) -> Seq<SpecBlock> {
        if self.is_stub(body) {
            body.push(stub_hint())
        } else {
            body
        }
    }

    /// The platform of the open document is known.
    #[verifier::opaque]
    pub open spec fn platform_set(self, platform: Option<PublishingPlatform>) -> SpecApp {
        SpecApp { reading_platform: platform, ..self }
    }

    /// A body is shown from its top.
    #[verifier::opaque]
    pub open spec fn body_set(self, body: Seq<SpecBlock>) -> SpecApp {
        SpecApp {
            reading: Some(body),
            scroll: 0,
            reading_version: bumped(self.reading_version),
            ..self
        }
    }

    /// A body is shown: a new one with its links and images from the top; of the same
    /// body, only a change of platform changes the links.
    #[verifier::opaque]
    pub open spec fn body_arrived(
        self,
        body: Seq<SpecBlock>,
        platform: Option<PublishingPlatform>,
    ) -> SpecApp {
        let a = self.platform_set(platform);
        if self.reading != Some(body) {
            a.wanting_all(block_images(body)).links_rebuilt(body, false).body_set(body)
        } else if self.reading_platform != platform {
            a.links_rebuilt(body, true)
        } else {
            a
        }
    }

    /// A document that came from the cache is asked for anew, once in a session.
    #[verifier::opaque]
    pub open spec fn freshening(self, uri: Seq<char>) -> SpecApp {
        if self.freshened.contains(uri) {
            self
        } else {
            SpecApp {
                freshened: self.freshened.insert(uri),
                commands: self.commands.push(SpecCommand::FreshenDoc(uri)),
                ..self
            }
        }
    }

    /// Nothing is being waited for.
    #[verifier::opaque]
    pub open spec fn settled(self) -> SpecApp {
        SpecApp { loading: false, ..self }
    }

    /// A document arrived. One that is not open is dropped.
    #[verifier::opaque]
    pub open spec fn doc_arrived(
        self,
        uri: Seq<char>,
        body: Seq<SpecBlock>,
        platform: Option<PublishingPlatform>,
        from_cache: bool,
    ) -> SpecApp {
        if self.reading_uri == Some(uri) || self.reading_uri is None {
            let a = self.body_arrived(self.shown_body(body), platform).read_noted(uri);
            if from_cache {
                a.freshening(uri).settled()
            } else {
                a.settled()
            }
        } else {
            self.settled()
        }
    }

    /// An image arrived.
    #[verifier::opaque]
    pub open spec fn image_arrived(self, key: Seq<char>, image: SpecDecoded) -> SpecApp {
        SpecApp {
            images_version: bumped(self.images_version),
            images: self.images.insert(
                key,
                SpecStoredImage { image, width: image.width, height: image.height },
            ),
            ..self
        }
    }

    /// Search results arrived.
    #[verifier::opaque]
    pub open spec fn results_arrived(self, docs: Seq<SpecDocument>) -> SpecApp {
        SpecApp {
            docs,
            doc_sel: 0,
            list_title: "Search: "@ + self.input,
            mode: Mode::DocList,
            loading: false,
            status: decimal(docs.len()) + " result(s)"@,
            ..self
        }
    }

    /// Whether images are shown is known.
    #[verifier::opaque]
    pub open spec fn images_set(self, on: bool) -> SpecApp {
        let a = SpecApp { show_images: on, ..self };
        if on {
            a.wanting_current()
        } else {
            a
        }
    }

    /// The account signed in or out.
    #[verifier::opaque]
    pub open spec fn account_arrived(self, account: Option<SpecAccount>) -> SpecApp {
        SpecApp {
            status: match account {
                Some(a) => "logged in as @"@ + a.handle,
                None => "logged out"@,
            },
            account,
            ..self
        }
    }

    /// Local follows that the account lacks arrived: they are asked about, if any.
    #[verifier::opaque]
    pub open spec fn diff_arrived(self, local_only: Seq<(Seq<char>, Seq<char>)>) -> SpecApp {
        SpecApp {
            sync_prompt: local_only,
            mode: if local_only.len() == 0 {
                self.mode
            } else {
                Mode::SyncPrompt
            },
            ..self
        }
    }

    /// Publications to choose from arrived, all of them chosen.
    #[verifier::opaque]
    pub open spec fn choices_arrived(self, candidates: Seq<(Seq<char>, Seq<char>)>) -> SpecApp {
        SpecApp {
            publication_choices: all_chosen(candidates),
            menu_sel: 0,
            mode: Mode::PublicationPicker,
            loading: false,
            ..self
        }
    }

    /// The worker failed at something.
    #[verifier::opaque]
    pub open spec fn error_arrived(self, e: Seq<char>) -> SpecApp {
        SpecApp { loading: false, status: "⚠ "@ + e, ..self }
    }

    /// The worker said something.
    #[verifier::opaque]
    pub open spec fn status_arrived(self, s: Seq<char>) -> SpecApp {
        SpecApp { status: s, ..self }
    }

    /// A result of the worker is folded in.
    pub open spec fn applied(self, e: SpecEvent) -> SpecApp {
        match e {
            SpecEvent::Feeds { feeds, unread } => self.feeds_arrived(feeds, unread),
            SpecEvent::Docs { publication, docs, read_uris, has_older } => self.docs_arrived(
                publication,
                docs,
                read_uris,
                has_older,
            ),
            SpecEvent::Doc { uri, body, publishing_platform, from_cache } => self.doc_arrived(
                uri,
                body,
                publishing_platform,
                from_cache,
            ),
            SpecEvent::Image { key, image } => self.image_arrived(key, image),
            SpecEvent::Results(docs) => self.results_arrived(docs),
            SpecEvent::ShowImages(on) => self.images_set(on),
            SpecEvent::Account(account) => self.account_arrived(account),
            SpecEvent::SyncDiff { local_only } => self.diff_arrived(local_only),
            SpecEvent::ChoosePublications { candidates } => self.choices_arrived(candidates),
            SpecEvent::Status(s) => self.status_arrived(s),
            SpecEvent::Error(e) => self.error_arrived(e),
        }
    }
}

fn count_table(unread: &Vec<(String, usize)>) -> (r: Table<usize>)
    ensures
        r@ == pairs_map(counts_view(unread@)),
{
    let ghost all = counts_view(unread@);
    let mut t: Table<usize> = Table::new();
    let mut i: usize = 0;
    assert(all.take(0) =~= Seq::empty());
    while i < unread.len()
        invariant
            i <= unread@.len(),
            all == counts_view(unread@),
            t@ == pairs_map(all.take(i as int)),
        decreases unread@.len() - i,
    {
        t.insert(unread[i].0.clone(), unread[i].1);
        assert(all.take(i + 1).drop_last() =~= all.take(i as int));
        i = i + 1;
    }
    assert(all.take(all.len() as int) =~= all);
    t
}

fn name_table(names: &Vec<String>) -> (r: Table<()>)
    ensures
        r@.dom() == strings_view(names@).to_set(),
{
    let ghost all = strings_view(names@);
    let mut t: Table<()> = Table::new();
    let mut i: usize = 0;
    assert(t@.dom() =~= all.take(0).to_set());
    while i < names.len()
        invariant
            i <= names@.len(),
            all == strings_view(names@),
            t@.dom() == all.take(i as int).to_set(),
        decreases names@.len() - i,
    {
        let ghost before = t@.dom();
        t.insert(names[i].clone(), ());
        proof {
            let a = all.take(i as int);
            let b = all.take(i + 1);
            assert(b =~= a.push(all[i as int]));
            assert(t@.dom() =~= before.insert(all[i as int]));
            assert forall|k: Seq<char>| #[trigger] b.to_set().contains(k) <==> a.to_set().insert(
                all[i as int],
            ).contains(k) by {
                if b.contains(k) {
                    let j = choose|j: int| 0 <= j < b.len() && b[j] == k;
                    if j < i {
                        assert(a[j] == k);
                    }
                }
                if a.contains(k) {
                    let j = choose|j: int| 0 <= j < a.len() && a[j] == k;
                    assert(b[j] == k);
                }
                assert(b[i as int] == all[i as int]);
            }
            assert(b.to_set() =~= a.to_set().insert(all[i as int]));
        }
        i = i + 1;
    }
    assert(all.take(all.len() as int) =~= all);
    t
}

fn choose_all(candidates: &Vec<(String, String)>) -> (r: Vec<(String, String, bool)>)
    ensures
        choices_view(r@) == all_chosen(pairs_view(candidates@)),
{
    let mut out: Vec<(String, String, bool)> = Vec::new();
    let mut i: usize = 0;
    while i < candidates.len()
        invariant
            i <= candidates@.len(),
            out@.len() == i,
            forall|k: int|
                0 <= k < i ==> (#[trigger] out@[k]).0@ == candidates@[k].0@ && out@[k].1@
                    == candidates@[k].1@ && out@[k].2,
        decreases candidates@.len() - i,
    {
        out.push((candidates[i].0.clone(), candidates[i].1.clone(), true));
        i = i + 1;
    }
    assert(choices_view(out@) =~= all_chosen(pairs_view(candidates@)));
    out
}

fn counted(n: usize, what: &str) -> (r: String)
    ensures
        r@ == decimal(n as nat) + what@,
{
    let mut s = decimal_of(n as u64);
    s.push_str(what);
    s
}

fn text_paragraph(s: &str) -> (r: Block)
    ensures
        r@ == SpecBlock::Paragraph(seq![SpecInline::Text(s@)]),
{
    Block::Paragraph(one_inline(Inline::Text(owned(s))))
}

impl App {
    fn take_feeds(&mut self, feeds: Vec<Publication>, unread: Vec<(String, usize)>)
        ensures
            final(self)@ == old(self)@.feeds_arrived(
                publications_view(feeds@),
                counts_view(unread@),
            ),
            old(self)@.wf() ==> final(self)@.wf(),
    {
        proof {
            reveal(SpecApp::feeds_arrived);
        }
        assert(publications_view(feeds@).len() == feeds@.len());
        let n: usize = feeds.len();
        let status = if n == 0 {
            owned("No feeds yet — press a to add a blog by handle")
        } else {
            counted(n, " feed(s)")
        };
        self.feeds = feeds;
        self.unread_counts = count_table(&unread);
        self.feed_sel = clamp_sel(self.feed_sel, n);
        self.loading = false;
        self.status = status;
    }

    fn is_open_pub(&self, uri: &str) -> (r: bool)
        ensures
            r == (self@.open_pub == Some(uri@)),
    {
        match &self.open_pub {
            Some(p) => same(p.as_str(), uri),
            None => false,
        }
    }

    fn take_docs(
        &mut self,
        publication: &str,
        docs: Vec<Document>,
        read_uris: Vec<String>,
        has_older: bool,
    )
        ensures
            final(self)@ == old(self)@.docs_arrived(
                publication@,
                documents_view(docs@),
                strings_view(read_uris@),
                has_older,
            ),
            old(self)@.wf() ==> final(self)@.wf(),
    {
        proof {
            reveal(SpecApp::docs_arrived);
        }
        assert(documents_view(docs@).len() == docs@.len());
        if self.is_open_pub(publication) {
            self.doc_sel = clamp_sel(self.doc_sel, docs.len());
            self.docs = docs;
            self.read_uris = name_table(&read_uris);
            self.has_older = has_older;
            self.loading = false;
        }
    }

    /// Whether a body is nothing but the open document's description.
    fn is_description_stub(&self, body: &RichDoc) -> (r: bool)
        ensures
            r == self@.is_stub(body@),
    {
        match &self.reading_description {
            Some(d) => {
                let t = trim(d.as_str());
                if t.as_str().is_empty() {
                    return false;
                }
                proof {
                    crate::model::lemma_blocks_view(body.blocks@);
                }
                if body.blocks.len() != 1 {
                    return false;
                }
                let wanted = text_paragraph(d.as_str());
                same_block(&body.blocks[0], &wanted)
            },
            None => false,
        }
    }

    fn with_hint(&self, body: RichDoc) -> (r: RichDoc)
        ensures
            r@ == self@.shown_body(body@),
    {
        if self.is_description_stub(&body) {
            let mut blocks = body.blocks;
            let hint = text_paragraph(
                "— No full text in this post; press o to open it in your browser.",
            );
            proof {
                lemma_blocks_push(blocks@, hint);
            }
            blocks.push(hint);
            RichDoc { blocks }
        } else {
            body
        }
    }

    fn put_platform(&mut self, platform: Option<PublishingPlatform>)
        ensures
            final(self)@ == old(self)@.platform_set(platform),
            old(self)@.wf() ==> final(self)@.wf(),
    {
        proof {
            reveal(SpecApp::platform_set);
        }
        self.reading_platform = platform;
    }

    fn put_body(&mut self, body: RichDoc)
        ensures
            final(self)@ == old(self)@.body_set(body@),
            old(self)@.wf() ==> final(self)@.wf(),
    {
        proof {
            reveal(SpecApp::body_set);
        }
        self.reading = Some(body);
        self.scroll = 0;
        self.reading_version = bump(self.reading_version);
    }

    fn is_reading_body(&self, body: &RichDoc) -> (r: bool)
        ensures
            r == (self@.reading == Some(body@)),
    {
        match &self.reading {
            Some(b) => same_blocks(&b.blocks, &body.blocks),
            None => false,
        }
    }

    fn take_body(&mut self, body: RichDoc, platform: Option<PublishingPlatform>)
        ensures
            final(self)@ == old(self)@.body_arrived(body@, platform),
            old(self)@.wf() ==> final(self)@.wf(),
    {
        proof {
            reveal(SpecApp::body_arrived);
        }
        let changed = !self.is_reading_body(&body);
        let moved = self.reading_platform != platform;
        self.put_platform(platform);
        if changed {
            self.request_body_images(&body);
            self.rebuild_links(&body, false);
            self.put_body(body);
        } else if moved {
            self.rebuild_links(&body, true);
        }
    }

    fn freshen(&mut self, uri: String)
        ensures
            final(self)@ == old(self)@.freshening(uri@),
            old(self)@.wf() ==> final(self)@.wf(),
    {
        proof {
            reveal(SpecApp::freshening);
        }
        if self.freshened.contains_key(uri.as_str()) {
            return ;
        }
        let ghost before = self.freshened@.dom();
        self.freshened.insert(uri.clone(), ());
        assert(self.freshened@.dom() =~= before.insert(uri@));
        self.send(ToWorker::FreshenDoc(uri));
    }

    fn settle(&mut self)
        ensures
            final(self)@ == old(self)@.settled(),
            old(self)@.wf() ==> final(self)@.wf(),
    {
        proof {
            reveal(SpecApp::settled);
        }
        self.loading = false;
    }

    fn awaits_doc(&self, uri: &str) -> (r: bool)
        ensures
            r == (self@.reading_uri == Some(uri@) || self@.reading_uri is None),
    {
        match &self.reading_uri {
            Some(u) => same(u.as_str(), uri),
            None => true,
        }
    }

    fn take_doc(
        &mut self,
        uri: String,
        body: RichDoc,
        platform: Option<PublishingPlatform>,
        from_cache: bool,
    )
        ensures
            final(self)@ == old(self)@.doc_arrived(uri@, body@, platform, from_cache),
            old(self)@.wf() ==> final(self)@.wf(),
    {
        proof {
            reveal(SpecApp::doc_arrived);
        }
        if self.awaits_doc(uri.as_str()) {
            let shown = self.with_hint(body);
            self.take_body(shown, platform);
            self.note_read(uri.as_str());
            if from_cache {
                self.freshen(uri);
            }
        }
        self.settle();
    }

    fn take_image(&mut self, key: String, image: DecodedImage)
        ensures
            final(self)@ == old(self)@.image_arrived(key@, image@),
            old(self)@.wf() ==> final(self)@.wf(),
    {
        proof {
            reveal(SpecApp::image_arrived);
        }
        let ghost before = self.images@;
        let width = image.width;
        let height = image.height;
        let stored = StoredImage { image, width, height };
        let ghost v = stored@;
        self.images_version = bump(self.images_version);
        self.images.insert(key, stored);
        assert(stored_images(self.images@) =~= stored_images(before).insert(key@, v));
    }

    fn take_results(&mut self, docs: Vec<Document>)
        ensures
            final(self)@ == old(self)@.results_arrived(documents_view(docs@)),
            old(self)@.wf() ==> final(self)@.wf(),
    {
        proof {
            reveal(SpecApp::results_arrived);
        }
        assert(documents_view(docs@).len() == docs@.len());
        let n: usize = docs.len();
        self.docs = docs;
        self.doc_sel = 0;
        self.list_title = join2("Search: ", self.input.as_str());
        self.mode = Mode::DocList;
        self.loading = false;
        self.status = counted(n, " result(s)");
    }

    fn take_show_images(&mut self, on: bool)
        ensures
            final(self)@ == old(self)@.images_set(on),
            old(self)@.wf() ==> final(self)@.wf(),
    {
        proof {
            reveal(SpecApp::images_set);
        }
        self.show_images = on;
        if on {
            self.request_current_images();
        }
    }

    fn take_account(&mut self, account: Option<Account>)
        ensures
            final(self)@ == old(self)@.account_arrived(opt_account(account)),
            old(self)@.wf() ==> final(self)@.wf(),
    {
        proof {
            reveal(SpecApp::account_arrived);
        }
        let status = match &account {
            Some(a) => join2("logged in as @", a.handle.as_str()),
            None => owned("logged out"),
        };
        self.status = status;
        self.account = account;
    }

    fn take_diff(&mut self, local_only: Vec<(String, String)>)
        ensures
            final(self)@ == old(self)@.diff_arrived(pairs_view(local_only@)),
            old(self)@.wf() ==> final(self)@.wf(),
    {
        proof {
            reveal(SpecApp::diff_arrived);
        }
        assert(pairs_view(local_only@).len() == local_only@.len());
        let mode = if local_only.len() > 0 {
            Mode::SyncPrompt
        } else {
            self.mode
        };
        self.mode = mode;
        self.sync_prompt = local_only;
    }

    fn take_choices(&mut self, candidates: Vec<(String, String)>)
        ensures
            final(self)@ == old(self)@.choices_arrived(pairs_view(candidates@)),
            old(self)@.wf() ==> final(self)@.wf(),
    {
        proof {
            reveal(SpecApp::choices_arrived);
        }
        self.publication_choices = choose_all(&candidates);
        self.menu_sel = 0;
        self.mode = Mode::PublicationPicker;
        self.loading = false;
    }

    fn take_error(&mut self, e: &str)
        ensures
            final(self)@ == old(self)@.error_arrived(e@),
            old(self)@.wf() ==> final(self)@.wf(),
    {
        proof {
            reveal(SpecApp::error_arrived);
        }
        self.loading = false;
        self.status = join2("⚠ ", e);
    }

    fn take_status(&mut self, s: String)
        ensures
            final(self)@ == old(self)@.status_arrived(s@),
            old(self)@.wf() ==> final(self)@.wf(),
    {
        proof {
            reveal(SpecApp::status_arrived);
        }
        self.status = s;
    }

    /// Fold a result of the worker in.
    pub fn apply(&mut self, evt: FromWorker)
        ensures
            final(self)@ == old(self)@.applied(evt@),
            old(self)@.wf() ==> final(self)@.wf(),
    {
        match evt {
            FromWorker::Feeds { feeds, unread } => self.take_feeds(feeds, unread),
            FromWorker::Docs { publication, docs, read_uris, has_older } => self.take_docs(
                publication.as_str(),
                docs,
                read_uris,
                has_older,
            ),
            FromWorker::Doc { uri, body, publishing_platform, from_cache } => self.take_doc(
                uri,
                body,
                publishing_platform,
                from_cache,
            ),
            FromWorker::Image { key, image } => self.take_image(key, image),
            FromWorker::Results(results) => self.take_results(results),
            FromWorker::ShowImages(on) => self.take_show_images(on),
            FromWorker::Account(account) => self.take_account(account),
            FromWorker::SyncDiff { local_only } => self.take_diff(local_only),
            FromWorker::ChoosePublications { candidates } => self.take_choices(candidates),
            FromWorker::Status(s) => self.take_status(s),
            FromWorker::Error(e) => self.take_error(e.as_str()),
        }
    }
}

// --- Laws -------------------------------------------------------------------------

/// A late result for a feed that is not open changes nothing.
pub proof fn law_late_documents_are_dropped(
    a: SpecApp,
    publication: Seq<char>,
    docs: Seq<SpecDocument>,
    read_uris: Seq<Seq<char>>,
    has_older: bool,
)
    requires
        a.open_pub != Some(publication),
    ensures
        a.applied(SpecEvent::Docs { publication, docs, read_uris, has_older }) == a,
{
    reveal(SpecApp::docs_arrived);
}

/// A document is asked for anew at most once in a session.
pub proof fn law_freshened_once(a: SpecApp, uri: Seq<char>)
    ensures
        a.freshening(uri).freshening(uri) == a.freshening(uri),
        a.freshening(uri).freshened.contains(uri),
{
    reveal(SpecApp::freshening);
}

/// How often a document was asked for anew.
pub open spec fn freshens(commands: Seq<SpecCommand>, uri: Seq<char>) -> nat
    decreases commands.len(),
{
    if commands.len() == 0 {
        0
    } else {
        freshens(commands.drop_last(), uri) + (if commands.last() == SpecCommand::FreshenDoc(uri) {
            1nat
        } else {
            0
        })
    }
}

/// A body of a document as it arrives: its blocks, its platform, and whether it came from
/// the cache.
pub type Arrival = (Seq<SpecBlock>, Option<PublishingPlatform>, bool);

/// Bodies of one document arrive, one after the other.
pub open spec fn all_arrived(a: SpecApp, uri: Seq<char>, arrivals: Seq<Arrival>) -> SpecApp
    decreases arrivals.len(),
{
    if arrivals.len() == 0 {
        a
    } else {
        let last = arrivals.last();
        all_arrived(a, uri, arrivals.drop_last()).applied(
            SpecEvent::Doc {
                uri,
                body: last.0,
                publishing_platform: last.1,
                from_cache: last.2,
            },
        )
    }
}

/// Some body came from the cache.
pub open spec fn any_cached(arrivals: Seq<Arrival>) -> bool
    decreases arrivals.len(),
{
    arrivals.len() > 0 && (any_cached(arrivals.drop_last()) || arrivals.last().2)
}

proof fn lemma_wanting_freshens(a: SpecApp, sources: Seq<SpecImageSource>, uri: Seq<char>)
    ensures
        ({
            let b = a.wanting_all(sources);
            &&& freshens(b.commands, uri) == freshens(a.commands, uri)
            &&& b.freshened == a.freshened
            &&& b.reading_uri == a.reading_uri
        }),
    decreases sources.len(),
{
    reveal(SpecApp::wanting);
    if sources.len() > 0 {
        lemma_wanting_freshens(a, sources.drop_last(), uri);
        let b = a.wanting_all(sources.drop_last());
        let c = SpecCommand::LoadImage {
            key: source_key(sources.last()),
            source: sources.last(),
        };
        assert(b.commands.push(c).drop_last() =~= b.commands);
    }
}

/// While a document is open, however often and in whatever form its body arrives, it is
/// asked for anew once if some body came from the cache, by the first that did, and else
/// never.
pub proof fn law_an_open_document_is_freshened_once(
    a: SpecApp,
    uri: Seq<char>,
    arrivals: Seq<Arrival>,
)
    requires
        a.reading_uri == Some(uri),
        !a.freshened.contains(uri),
    ensures
        ({
            let b = all_arrived(a, uri, arrivals);
            &&& b.reading_uri == Some(uri)
            &&& b.freshened.contains(uri) <==> any_cached(arrivals)
            &&& freshens(b.commands, uri) == freshens(a.commands, uri) + (if any_cached(arrivals) {
                1nat
            } else {
                0
            })
        }),
    decreases arrivals.len(),
{
    if arrivals.len() > 0 {
        law_an_open_document_is_freshened_once(a, uri, arrivals.drop_last());
        let b = all_arrived(a, uri, arrivals.drop_last());
        let last = arrivals.last();
        reveal(SpecApp::doc_arrived);
        reveal(SpecApp::body_arrived);
        reveal(SpecApp::platform_set);
        reveal(SpecApp::body_set);
        reveal(SpecApp::links_rebuilt);
        reveal(SpecApp::read_noted);
        reveal(SpecApp::freshening);
        reveal(SpecApp::settled);
        let body = b.shown_body(last.0);
        lemma_wanting_freshens(b.platform_set(last.1), block_images(body), uri);
        let c = b.body_arrived(body, last.1).read_noted(uri);
        assert(c.freshened == b.freshened && c.reading_uri == b.reading_uri);
        assert(freshens(c.commands, uri) == freshens(b.commands, uri));
        assert(c.commands.push(SpecCommand::FreshenDoc(uri)).drop_last() =~= c.commands);
    }
}

/// A body that is shown already keeps its place: only the links can change, with the
/// platform.
pub proof fn law_same_body_keeps_its_place(
    a: SpecApp,
    body: Seq<SpecBlock>,
    platform: Option<PublishingPlatform>,
)
    requires
        a.reading == Some(body),
    ensures
        a.body_arrived(body, platform).reading == a.reading,
        a.body_arrived(body, platform).scroll == a.scroll,
        a.body_arrived(body, platform).reading_version == a.reading_version,
        a.body_arrived(body, platform).commands == a.commands,
        a.body_arrived(body, platform).reading_platform == platform,
{
    reveal(SpecApp::body_arrived);
    reveal(SpecApp::platform_set);
    reveal(SpecApp::links_rebuilt);
}

/// The border's link comes last, after every link of the body.
pub proof fn law_home_page_is_the_last_link(
    a: SpecApp,
    body: Seq<SpecBlock>,
    platform: PublishingPlatform,
    preserve: bool,
)
    requires
        a.reading_platform == Some(platform),
        crate::app::content::block_links(body).len() < usize::MAX,
    ensures
        ({
            let b = a.links_rebuilt(body, preserve);
            &&& b.attribution_link == Some((b.links.len() - 1) as usize)
            &&& b.links.last() == platform.spec_homepage()
            &&& b.links.drop_last() == crate::app::content::block_links(body)
        }),
{
    reveal(SpecApp::links_rebuilt);
    let b = a.links_rebuilt(body, preserve);
    assert(b.links.drop_last() =~= crate::app::content::block_links(body));
}

} // verus!
