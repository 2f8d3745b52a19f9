//! Fetching a feed's documents.
use vstd::prelude::*;

use crate::atp::Transport;
use crate::auth_provider::AuthProvider;
use crate::model::{documents_view, opt_view, Document, SpecBlock, SpecDocument};
use crate::read::{
    doc_page_fetched, doc_page_result, law_windows_join, list_documents, list_documents_window,
    opt_str, window_read, Identity, SpecDocPage, SpecIdentity, SpecReadError,
};
use crate::store::{lookup, FrontendStore, Store, StoreState};
use crate::text::same;
use crate::worker::tasks::{cache_held, WorkError, Worker};

verus! {

// --- Documents into the cache -----------------------------------------------------

/// The body that is held of a document.
pub open spec fn held_body(s: StoreState, uri: Seq<char>) -> Option<Seq<SpecBlock>> {
    match lookup(s.documents, uri) {
        Some(d) => d.body,
        None => None,
    }
}

/// With listed documents put in one after the other. A listing brings no bodies; those that
/// are held stay.
pub open spec fn with_documents(s: StoreState, docs: Seq<SpecDocument>) -> StoreState
    decreases docs.len(),
{
    if docs.len() == 0 {
        s
    } else {
        let before = with_documents(s, docs.drop_last());
        before.with_document(docs.last(), held_body(before, docs.last().uri))
    }
}

/// What was opened stays readable: listing documents drops none, and takes from none its
/// body or its read state.
pub proof fn law_listing_keeps_what_was_opened(
    s: StoreState,
    docs: Seq<SpecDocument>,
    uri: Seq<char>,
)
    ensures
        s.documents.dom().contains(uri) ==> with_documents(s, docs).documents.dom().contains(uri),
        held_body(with_documents(s, docs), uri) == held_body(s, uri),
        with_documents(s, docs).is_read(uri) == s.is_read(uri),
    decreases docs.len(),
{
    if docs.len() > 0 {
        law_listing_keeps_what_was_opened(s, docs.drop_last(), uri);
    }
}

/// The first document of a publication, from `i` on: the newest, where the list is
/// newest first.
pub open spec fn newest_of(docs: Seq<SpecDocument>, publication: Seq<char>, i: int) -> Option<
    Seq<char>,
>
    decreases docs.len() - i,
{
    if i < 0 || i >= docs.len() {
        None
    } else if docs[i].publication == publication {
        Some(docs[i].uri)
    } else {
        newest_of(docs, publication, i + 1)
    }
}

/// With the newest document of a publication noted, if there is one.
pub open spec fn watermarked(
    s: StoreState,
    publication: Seq<char>,
    docs: Seq<SpecDocument>,
) -> StoreState {
    match newest_of(docs, publication, 0) {
        Some(uri) => s.with_sync_cursor(publication, uri),
        None => s,
    }
}

impl<T: Transport, S: FrontendStore, A: AuthProvider> Worker<T, S, A> {
    /// Nothing but the cache differs.
    pub open spec fn same_but_store(&self, other: &Self) -> bool {
        &&& self.same_world(other)
        &&& self.account == other.account
        &&& self.events == other.events
    }

    pub(crate) fn store_documents(&mut self, docs: &Vec<Document>) -> (r: Result<
        (),
        WorkError<S::Error>,
    >)
        ensures
            S::reliable() ==> cache_held(r),
            final(self).same_but_store(old(self)),
            r is Ok ==> final(self).state() == with_documents(
                old(self).state(),
                documents_view(docs@),
            ),
            r matches Err(e) ==> e is Store,
    {
        let ghost all = documents_view(docs@);
        let ghost s = self.state();
        let mut i: usize = 0;
        assert(all.take(0) =~= Seq::empty());
        while i < docs.len()
            invariant
                i <= docs@.len(),
                all == documents_view(docs@),
                all.len() == docs@.len(),
                self.same_but_store(old(self)),
                self.state() == with_documents(s, all.take(i as int)),
            decreases docs@.len() - i,
        {
            assert(all[i as int] == docs@[i as int]@);
            assert(all.take(i + 1).drop_last() =~= all.take(i as int));
            let held = match self.store.document(docs[i].uri.as_str()) {
                Ok(Some(d)) => d.body,
                Ok(None) => None,
                Err(e) => return Err(WorkError::Store(e)),
            };
            let body = match &held {
                Some(b) => Some(b),
                None => None,
            };
            match self.store.upsert_document(&docs[i], body) {
                Ok(_) => {},
                Err(e) => return Err(WorkError::Store(e)),
            }
            i = i + 1;
        }
        assert(all.take(all.len() as int) =~= all);
        Ok(())
    }

    /// Note the newest document of a publication, by a list that is newest first.
    pub(crate) fn record_watermark(&mut self, pub_uri: &str, docs: &Vec<Document>) -> (r: Result<
        (),
        WorkError<S::Error>,
    >)
        ensures
            S::reliable() ==> cache_held(r),
            final(self).same_but_store(old(self)),
            r is Ok ==> final(self).state() == watermarked(
                old(self).state(),
                pub_uri@,
                documents_view(docs@),
            ),
            r matches Err(e) ==> e is Store,
    {
        let ghost all = documents_view(docs@);
        let mut i: usize = 0;
        while i < docs.len()
            invariant
                i <= docs@.len(),
                all == documents_view(docs@),
                all.len() == docs@.len(),
                *self == *old(self),
                newest_of(all, pub_uri@, 0) == newest_of(all, pub_uri@, i as int),
            decreases docs@.len() - i,
        {
            assert(all[i as int] == docs@[i as int]@);
            if same(docs[i].publication.as_str(), pub_uri) {
                return match self.store.set_sync_cursor(pub_uri, docs[i].uri.as_str()) {
                    Ok(_) => Ok(()),
                    Err(e) => Err(WorkError::Store(e)),
                };
            }
            i = i + 1;
        }
        Ok(())
    }
}

// --- The incremental refresh ------------------------------------------------------

/// How far a walk through a repository's documents has come.
pub struct Scan {
    pub state: StoreState,
    /// The newest document of the publication that was seen.
    pub newest: Option<Seq<char>>,
    /// The page held a document that the cache lacked.
    pub had_new: bool,
    /// The page reached the document that was newest last time.
    pub reached: bool,
}

/// A page's first `n` documents are looked at: those that the cache lacks go in, until
/// the document that was newest last time.
pub open spec fn scanned(
    start: Scan,
    docs: Seq<SpecDocument>,
    mark: Option<Seq<char>>,
    publication: Seq<char>,
    n: int,
) -> Scan
    decreases n,
{
    if n <= 0 || n > docs.len() {
        start
    } else {
        let p = scanned(start, docs, mark, publication, n - 1);
        let d = docs[n - 1];
        let newest = if p.newest is None && d.publication == publication {
            Some(d.uri)
        } else {
            p.newest
        };
        if p.reached {
            p
        } else if mark == Some(d.uri) {
            Scan { newest, reached: true, ..p }
        } else if p.state.documents.dom().contains(d.uri) {
            Scan { newest, ..p }
        } else {
            Scan { newest, state: p.state.with_document(d, None), had_new: true, ..p }
        }
    }
}

/// Where a page starts from.
pub open spec fn page_start(p: Scan) -> Scan {
    Scan { had_new: false, reached: false, ..p }
}

/// The first `n` pages are looked at.
pub open spec fn pages_scanned(
    s: StoreState,
    pages: Seq<SpecDocPage>,
    mark: Option<Seq<char>>,
    publication: Seq<char>,
    n: int,
) -> Scan
    decreases n,
{
    if n <= 0 || n > pages.len() {
        Scan { state: s, newest: None, had_new: false, reached: false }
    } else {
        let p = pages_scanned(s, pages, mark, publication, n - 1);
        scanned(
            page_start(p),
            pages[n - 1].0,
            mark,
            publication,
            pages[n - 1].0.len() as int,
        )
    }
}

/// The walk goes on after the first `n` pages: the last of them held something new, did
/// not reach the mark, and has a successor.
pub open spec fn walk_goes_on(
    s: StoreState,
    pages: Seq<SpecDocPage>,
    mark: Option<Seq<char>>,
    publication: Seq<char>,
    n: int,
) -> bool {
    let p = pages_scanned(s, pages, mark, publication, n);
    n > 0 ==> pages[n - 1].0.len() > 0 && !p.reached && p.had_new && pages[n - 1].1 is Some
}

/// The cursor that page `k` is asked for with.
pub open spec fn walk_cursor(pages: Seq<SpecDocPage>, k: int) -> Option<Seq<char>> {
    if k <= 0 || k > pages.len() {
        None
    } else {
        pages[k - 1].1
    }
}

/// The pages were asked for one after the other, each because the walk went on.
pub open spec fn walk_asked<T: Transport>(
    t: T,
    repo: SpecIdentity,
    s: StoreState,
    pages: Seq<SpecDocPage>,
    mark: Option<Seq<char>>,
    publication: Seq<char>,
) -> bool {
    forall|k: int|
        0 <= k < pages.len() ==> {
            &&& doc_page_fetched(
                t,
                repo,
                walk_cursor(pages, k),
                Ok::<SpecDocPage, SpecReadError>(#[trigger] pages[k]),
            )
            &&& walk_goes_on(s, pages, mark, publication, k)
        }
}

/// What the walk leaves: the new documents, and the newest of the publication noted.
pub open spec fn walk_result(
    s: StoreState,
    pages: Seq<SpecDocPage>,
    mark: Option<Seq<char>>,
    publication: Seq<char>,
) -> StoreState {
    let p = pages_scanned(s, pages, mark, publication, pages.len() as int);
    match p.newest {
        Some(uri) => p.state.with_sync_cursor(publication, uri),
        None => p.state,
    }
}

/// A walk ended with `r`, and left the cache like this.
pub open spec fn walk_done<T: Transport, E>(
    t: T,
    repo: SpecIdentity,
    s: StoreState,
    after: StoreState,
    publication: Seq<char>,
    pages: Seq<SpecDocPage>,
    r: Result<(), WorkError<E>>,
) -> bool {
    let mark = lookup(s.sync_cursors, publication);
    let n = pages.len() as int;
    &&& walk_asked(t, repo, s, pages, mark, publication)
    &&& match r {
        Ok(_) => {
            &&& after == walk_result(s, pages, mark, publication)
            &&& n > 0
            &&& !walk_goes_on(s, pages, mark, publication, n) || n == u64::MAX
        },
        Err(WorkError::Read(e)) => {
            &&& doc_page_fetched(
                t,
                repo,
                walk_cursor(pages, n),
                Err::<SpecDocPage, SpecReadError>(e@),
            )
            &&& walk_goes_on(s, pages, mark, publication, n)
            &&& after == pages_scanned(s, pages, mark, publication, n).state
        },
        Err(WorkError::Store(_)) => true,
        Err(WorkError::Message(_)) => false,
    }
}

/// Adding a page does not change what the earlier pages came to.
proof fn lemma_pages_scanned_push(
    s: StoreState,
    pages: Seq<SpecDocPage>,
    page: SpecDocPage,
    mark: Option<Seq<char>>,
    publication: Seq<char>,
    n: int,
)
    requires
        0 <= n <= pages.len(),
    ensures
        pages_scanned(s, pages.push(page), mark, publication, n) == pages_scanned(
            s,
            pages,
            mark,
            publication,
            n,
        ),
    decreases n,
{
    if n > 0 {
        lemma_pages_scanned_push(s, pages, page, mark, publication, n - 1);
        assert(pages.push(page)[n - 1] == pages[n - 1]);
    }
}

proof fn lemma_walk_asked_push<T: Transport>(
    t: T,
    repo: SpecIdentity,
    s: StoreState,
    pages: Seq<SpecDocPage>,
    page: SpecDocPage,
    mark: Option<Seq<char>>,
    publication: Seq<char>,
)
    requires
        walk_asked(t, repo, s, pages, mark, publication),
        walk_goes_on(s, pages, mark, publication, pages.len() as int),
        doc_page_fetched(
            t,
            repo,
            walk_cursor(pages, pages.len() as int),
            Ok::<SpecDocPage, SpecReadError>(page),
        ),
    ensures
        walk_asked(t, repo, s, pages.push(page), mark, publication),
{
    let more = pages.push(page);
    assert forall|k: int| 0 <= k < more.len() implies {
        &&& doc_page_fetched(
            t,
            repo,
            walk_cursor(more, k),
            Ok::<SpecDocPage, SpecReadError>(#[trigger] more[k]),
        )
        &&& walk_goes_on(s, more, mark, publication, k)
    } by {
        lemma_pages_scanned_push(s, pages, page, mark, publication, k);
        if k > 0 {
            assert(more[k - 1] == pages[k - 1]);
        }
        if k < pages.len() {
            assert(more[k] == pages[k]);
            assert(walk_cursor(more, k) == walk_cursor(pages, k));
        } else {
            assert(walk_cursor(more, k) == walk_cursor(pages, k));
        }
    }
}

/// How a page turned out, beside what the cache holds.
pub struct PageScan {
    pub newest: Option<String>,
    pub had_new: bool,
    pub reached: bool,
}

impl<T: Transport, S: FrontendStore, A: AuthProvider> Worker<T, S, A> {
    /// Look at one page of documents.
    fn scan_page(
        &mut self,
        docs: &Vec<Document>,
        mark: &Option<String>,
        pub_uri: &str,
        newest: Option<String>,
    ) -> (r: Result<PageScan, WorkError<S::Error>>)
        ensures
            S::reliable() ==> cache_held(r),
            final(self).same_but_store(old(self)),
            r matches Ok(p) ==> scanned(
                (Scan {
                    state: old(self).state(),
                    newest: opt_view(newest),
                    had_new: false,
                    reached: false,
                }),
                documents_view(docs@),
                opt_view(*mark),
                pub_uri@,
                docs@.len() as int,
            ) == (Scan {
                state: final(self).state(),
                newest: opt_view(p.newest),
                had_new: p.had_new,
                reached: p.reached,
            }),
            r matches Err(e) ==> e is Store,
    {
        let ghost all = documents_view(docs@);
        let ghost start = Scan {
            state: self.state(),
            newest: opt_view(newest),
            had_new: false,
            reached: false,
        };
        let mut newest = newest;
        let mut had_new = false;
        let mut reached = false;
        let mut i: usize = 0;
        while i < docs.len()
            invariant
                i <= docs@.len(),
                all == documents_view(docs@),
                all.len() == docs@.len(),
                self.same_but_store(old(self)),
                scanned(start, all, opt_view(*mark), pub_uri@, i as int) == (Scan {
                    state: self.state(),
                    newest: opt_view(newest),
                    had_new,
                    reached,
                }),
            decreases docs@.len() - i,
        {
            assert(all[i as int] == docs@[i as int]@);
            if !reached {
                let d = &docs[i];
                if newest.is_none() && same(d.publication.as_str(), pub_uri) {
                    newest = Some(d.uri.clone());
                }
                let at_mark = match mark {
                    Some(m) => same(m.as_str(), d.uri.as_str()),
                    None => false,
                };
                if at_mark {
                    reached = true;
                } else {
                    match self.store.document(d.uri.as_str()) {
                        Ok(Some(_)) => {},
                        Ok(None) => match self.store.upsert_document(d, None) {
                            Ok(_) => {
                                had_new = true;
                            },
                            Err(e) => return Err(WorkError::Store(e)),
                        },
                        Err(e) => return Err(WorkError::Store(e)),
                    }
                }
            }
            i = i + 1;
        }
        Ok(PageScan { newest, had_new, reached })
    }

    fn note_newest(&mut self, pub_uri: &str, newest: &Option<String>) -> (r: Result<
        (),
        WorkError<S::Error>,
    >)
        ensures
            S::reliable() ==> cache_held(r),
            final(self).same_but_store(old(self)),
            r is Ok ==> final(self).state() == (match opt_view(*newest) {
                Some(uri) => old(self).state().with_sync_cursor(pub_uri@, uri),
                None => old(self).state(),
            }),
            r matches Err(e) ==> e is Store,
    {
        match newest {
            Some(uri) => match self.store.set_sync_cursor(pub_uri, uri.as_str()) {
                Ok(_) => Ok(()),
                Err(e) => Err(WorkError::Store(e)),
            },
            None => Ok(()),
        }
    }

    /// Walk a repository's documents from the newest on, putting those that the cache
    /// lacks in, until a page has nothing new or reaches what was newest last time.
    pub(crate) fn fetch_new_documents(&mut self, repo: &Identity, pub_uri: &str) -> (r: Result<
        (),
        WorkError<S::Error>,
    >)
        ensures
            S::reliable() ==> cache_held(r),
            final(self).same_but_store(old(self)),
            exists|pages: Seq<SpecDocPage>| #[trigger]
                walk_done(
                    old(self).transport,
                    repo@,
                    old(self).state(),
                    final(self).state(),
                    pub_uri@,
                    pages,
                    r,
                ),
    {
        let ghost s = self.state();
        let ghost world = self.transport;
        let ghost mut pages: Seq<SpecDocPage> = Seq::empty();
        let mark = match self.store.sync_cursor(pub_uri) {
            Ok(m) => m,
            Err(e) => {
                assert(walk_done::<T, S::Error>(
                    world,
                    repo@,
                    s,
                    self.state(),
                    pub_uri@,
                    pages,
                    Err(WorkError::Store(e)),
                ));
                return Err(WorkError::Store(e));
            },
        };
        let ghost wm = opt_view(mark);
        let mut cursor: Option<String> = None;
        let mut newest: Option<String> = None;
        let mut asked: u64 = 0;
        loop
            invariant
                self.same_but_store(old(self)),
                world == self.transport,
                world == old(self).transport,
                s == old(self).state(),
                wm == opt_view(mark),
                wm == lookup(s.sync_cursors, pub_uri@),
                asked == pages.len(),
                asked < u64::MAX,
                walk_asked(world, repo@, s, pages, wm, pub_uri@),
                walk_goes_on(s, pages, wm, pub_uri@, pages.len() as int),
                opt_view(cursor) == walk_cursor(pages, pages.len() as int),
                self.state() == pages_scanned(s, pages, wm, pub_uri@, pages.len() as int).state,
                opt_view(newest) == pages_scanned(
                    s,
                    pages,
                    wm,
                    pub_uri@,
                    pages.len() as int,
                ).newest,
            decreases u64::MAX - asked,
        {
            let page = match &cursor {
                Some(c) => list_documents(&self.transport, repo, Some(c.as_str())),
                None => list_documents(&self.transport, repo, None),
            };
            assert(doc_page_fetched(
                world,
                repo@,
                walk_cursor(pages, pages.len() as int),
                doc_page_result(page),
            ));
            let (docs, next) = match page {
                Ok(p) => p,
                Err(e) => {
                    assert(walk_done::<T, S::Error>(
                        world,
                        repo@,
                        s,
                        self.state(),
                        pub_uri@,
                        pages,
                        Err(WorkError::Read(e)),
                    ));
                    return Err(WorkError::Read(e));
                },
            };
            let ghost got: SpecDocPage = (documents_view(docs@), opt_view(next));
            let ghost had = pages;
            proof {
                lemma_walk_asked_push(world, repo@, s, pages, got, wm, pub_uri@);
                lemma_pages_scanned_push(s, pages, got, wm, pub_uri@, pages.len() as int);
                pages = pages.push(got);
                assert(pages.last() == got);
            }
            let scan = match self.scan_page(&docs, &mark, pub_uri, newest) {
                Ok(p) => p,
                Err(e) => {
                    assert(walk_done::<T, S::Error>(
                        world,
                        repo@,
                        s,
                        self.state(),
                        pub_uri@,
                        pages,
                        Err(e),
                    ));
                    return Err(e);
                },
            };
            asked = asked + 1;
            newest = scan.newest;
            let ghost p = pages_scanned(s, pages, wm, pub_uri@, pages.len() as int);
            proof {
                assert(page_start(pages_scanned(s, had, wm, pub_uri@, had.len() as int)).state
                    == pages_scanned(s, had, wm, pub_uri@, had.len() as int).state);
                assert(p.state == self.state());
                assert(p.newest == opt_view(newest));
                assert(p.had_new == scan.had_new && p.reached == scan.reached);
            }
            let done = docs.len() == 0 || scan.reached || !scan.had_new || next.is_none() || asked
                == u64::MAX;
            if done {
                let ghost walked = self.state();
                let r = self.note_newest(pub_uri, &newest);
                assert(walk_done(world, repo@, s, self.state(), pub_uri@, pages, r));
                return r;
            }
            cursor = next;
        }
    }
}

// --- Windows ----------------------------------------------------------------------

/// How many pages are fetched at once: of the newest documents when a feed is first
/// fetched, and of older ones whenever they are asked for.
pub const WINDOW_PAGES: u32 = 2;

/// It is noted where the older documents of a repository continue: nowhere, if there are
/// none.
pub open spec fn older_noted(s: StoreState, did: Seq<char>, cursor: Option<Seq<char>>) -> StoreState {
    s.with_older_cursor(
        did,
        match cursor {
            Some(c) => c,
            None => Seq::empty(),
        },
    )
}

/// A window of documents is kept, and where the older ones continue.
pub open spec fn window_kept(s: StoreState, did: Seq<char>, page: SpecDocPage) -> StoreState {
    older_noted(with_documents(s, page.0), did, page.1)
}

/// `r` is what keeping a window came to, the cache aside.
pub open spec fn window_taken<E>(
    s: StoreState,
    after: StoreState,
    did: Seq<char>,
    page: Result<SpecDocPage, SpecReadError>,
    r: Result<Seq<SpecDocument>, WorkError<E>>,
) -> bool {
    match (r, page) {
        (Ok(docs), Ok(page)) => docs == page.0 && after == window_kept(s, did, page),
        (Err(WorkError::Read(e)), Err(f)) => e@ == f && after == s,
        (Err(WorkError::Store(_)), Ok(_)) => true,
        _ => false,
    }
}

/// Documents by their views, or an error.
pub open spec fn taken_view<E>(r: Result<Vec<Document>, WorkError<E>>) -> Result<
    Seq<SpecDocument>,
    WorkError<E>,
> {
    match r {
        Ok(docs) => Ok(documents_view(docs@)),
        Err(e) => Err(e),
    }
}

impl<T: Transport, S: FrontendStore, A: AuthProvider> Worker<T, S, A> {
    /// Fetch a window of a repository's documents from `cursor` on and keep it.
    pub(crate) fn take_window(&mut self, repo: &Identity, cursor: Option<&str>) -> (r: Result<
        Vec<Document>,
        WorkError<S::Error>,
    >)
        ensures
            S::reliable() ==> cache_held(r),
            final(self).same_but_store(old(self)),
            exists|page: Result<SpecDocPage, SpecReadError>|
                {
                    &&& #[trigger] window_read(
                        old(self).transport,
                        repo@,
                        opt_str(cursor),
                        WINDOW_PAGES,
                        page,
                    )
                    &&& window_taken(
                        old(self).state(),
                        final(self).state(),
                        repo@.did,
                        page,
                        taken_view(r),
                    )
                },
    {
        let ghost t = self.transport;
        let got = list_documents_window(&self.transport, repo, cursor, WINDOW_PAGES);
        let ghost page = doc_page_result(got);
        assert(window_read(t, repo@, opt_str(cursor), WINDOW_PAGES, page));
        let (docs, next) = match got {
            Ok(page) => page,
            Err(e) => return Err(WorkError::Read(e)),
        };
        match self.store_documents(&docs) {
            Ok(_) => {},
            Err(e) => return Err(e),
        }
        let at: String = match next {
            Some(c) => c,
            None => String::new(),
        };
        match self.store.set_older_cursor(repo.did.as_str(), at.as_str()) {
            Ok(_) => Ok(docs),
            Err(e) => Err(WorkError::Store(e)),
        }
    }
}

proof fn lemma_with_documents_join(s: StoreState, a: Seq<SpecDocument>, b: Seq<SpecDocument>)
    ensures
        with_documents(with_documents(s, a), b) == with_documents(s, a + b),
    decreases b.len(),
{
    if b.len() == 0 {
        assert(a + b =~= a);
    } else {
        lemma_with_documents_join(s, a, b.drop_last());
        assert((a + b).drop_last() =~= a + b.drop_last());
    }
}

proof fn lemma_older_cursor_apart(
    s: StoreState,
    docs: Seq<SpecDocument>,
    did: Seq<char>,
    cursor: Seq<char>,
)
    ensures
        with_documents(s.with_older_cursor(did, cursor), docs) == with_documents(
            s,
            docs,
        ).with_older_cursor(did, cursor),
        with_documents(s, docs).older_cursors == s.older_cursors,
    decreases docs.len(),
{
    if docs.len() > 0 {
        lemma_older_cursor_apart(s, docs.drop_last(), did, cursor);
    }
}

/// Older documents continue where the newest window ended: the two windows together keep
/// what one window of twice the size keeps, and note where it ends.
pub proof fn law_older_documents_continue_the_newest<T: Transport>(
    t: T,
    repo: SpecIdentity,
    s: StoreState,
    newest: Seq<SpecDocument>,
    at: Seq<char>,
    older: Seq<SpecDocument>,
    rest: Option<Seq<char>>,
)
    requires
        window_read(t, repo, None, WINDOW_PAGES, Ok((newest, Some(at)))),
        window_read(t, repo, Some(at), WINDOW_PAGES, Ok((older, rest))),
    ensures
        window_read(t, repo, None, (2 * WINDOW_PAGES) as u32, Ok((newest + older, rest))),
        window_kept(
            window_kept(s, repo.did, (newest, Some(at))),
            repo.did,
            (older, rest),
        ) == window_kept(s, repo.did, (newest + older, rest)),
{
    law_windows_join(t, repo, None, WINDOW_PAGES, WINDOW_PAGES, newest, at, older, rest);
    let kept = with_documents(s, newest);
    lemma_with_documents_join(s, newest, older);
    lemma_older_cursor_apart(kept, older, repo.did, at);
    let end = match rest {
        Some(c) => c,
        None => Seq::empty(),
    };
    let both = with_documents(s, newest + older);
    assert(both.older_cursors.insert(repo.did, at).insert(repo.did, end)
        =~= both.older_cursors.insert(repo.did, end));
}

} // verus!
