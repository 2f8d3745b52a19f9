//! Feeds: what a refresh brings into the cache, and what it leaves alone.
use vstd::prelude::*;

use crate::atp::Transport;
use crate::model::SpecDocument;
use crate::read::{SpecDocPage, SpecIdentity};
use crate::store::{lookup, SpecStoredDoc, StoreState};
use crate::worker::feeds::{
    newest_of, page_start, pages_scanned, scanned, walk_done, walk_goes_on, watermarked,
    window_kept, with_documents, Scan,
};
use crate::worker::tasks::WorkError;

verus! {

// --- One page ---------------------------------------------------------------------

/// Neither the document at `i` nor one before it on the page is the one that was newest last
/// time.
pub open spec fn above_mark(docs: Seq<SpecDocument>, mark: Option<Seq<char>>, i: int) -> bool {
    forall|j: int| 0 <= j <= i ==> mark != Some((#[trigger] docs[j]).uri)
}

/// A document as it is kept when it is first listed.
pub open spec fn fresh(d: SpecDocument) -> SpecStoredDoc {
    SpecStoredDoc { meta: d, body: None, read: false }
}

/// Nothing but documents differs.
pub open spec fn only_documents(s: StoreState, after: StoreState) -> bool {
    after == (StoreState { documents: after.documents, ..s })
}

/// Whatever was held is held as it was.
pub open spec fn keeps_documents(s: StoreState, after: StoreState) -> bool {
    forall|uri: Seq<char>| #[trigger]
        s.documents.dom().contains(uri) ==> after.documents.dom().contains(uri)
            && after.documents[uri] == s.documents[uri]
}

/// What is held now and was not stands among the first `n` documents of the page, above the
/// mark.
pub open spec fn came_from(
    s: StoreState,
    after: StoreState,
    docs: Seq<SpecDocument>,
    mark: Option<Seq<char>>,
    n: int,
) -> bool {
    forall|uri: Seq<char>| #[trigger]
        after.documents.dom().contains(uri) && !s.documents.dom().contains(uri) ==> exists|i: int|
            0 <= i < n && after.documents[uri] == fresh(#[trigger] docs[i]) && docs[i].uri == uri
                && above_mark(docs, mark, i)
}

proof fn lemma_scanned(
    start: Scan,
    docs: Seq<SpecDocument>,
    mark: Option<Seq<char>>,
    publication: Seq<char>,
    n: int,
)
    requires
        0 <= n <= docs.len(),
        !start.reached,
    ensures
        ({
            let p = scanned(start, docs, mark, publication, n);
            &&& p.reached == !above_mark(docs, mark, n - 1)
            &&& only_documents(start.state, p.state)
            &&& keeps_documents(start.state, p.state)
            &&& came_from(start.state, p.state, docs, mark, n)
            &&& forall|i: int|
                0 <= i < n && above_mark(docs, mark, i) ==> p.state.documents.dom().contains(
                    (#[trigger] docs[i]).uri,
                )
            &&& p.had_new ==> start.had_new || exists|i: int|
                0 <= i < n && above_mark(docs, mark, i) && !start.state.documents.dom().contains(
                    (#[trigger] docs[i]).uri,
                )
            &&& start.had_new ==> p.had_new
            &&& forall|i: int|
                0 <= i < n && above_mark(docs, mark, i) && !start.state.documents.dom().contains(
                    (#[trigger] docs[i]).uri,
                ) ==> p.had_new
            &&& start.newest is Some ==> p.newest == start.newest
            &&& start.newest is None && p.newest is Some ==> exists|i: int|
                {
                    &&& 0 <= i < n
                    &&& p.newest == Some((#[trigger] docs[i]).uri)
                    &&& docs[i].publication == publication
                    &&& above_mark(docs, mark, i - 1)
                    &&& forall|j: int|
                        0 <= j < i ==> (#[trigger] docs[j]).publication != publication
                }
            &&& p.newest is None ==> forall|i: int|
                0 <= i < n && above_mark(docs, mark, i - 1) ==> (#[trigger] docs[i]).publication
                    != publication
        }),
    decreases n,
{
    if n > 0 {
        lemma_scanned(start, docs, mark, publication, n - 1);
        let q = scanned(start, docs, mark, publication, n - 1);
        let p = scanned(start, docs, mark, publication, n);
        let d = docs[n - 1];
        assert(above_mark(docs, mark, n - 1) == (above_mark(docs, mark, n - 2) && mark != Some(
            d.uri,
        )));
        if q.reached {
            assert(p == q);
            assert forall|i: int| 0 <= i < n && #[trigger] above_mark(docs, mark, i) implies i < n
                - 1 by {
                if i == n - 1 {
                    assert(above_mark(docs, mark, n - 2));
                }
            }
        } else if mark == Some(d.uri) {
            assert forall|i: int| 0 <= i < n && #[trigger] above_mark(docs, mark, i) implies i < n
                - 1 by {}
        } else if q.state.documents.dom().contains(d.uri) {
            if !start.state.documents.dom().contains(d.uri) {
                let i = choose|i: int|
                    0 <= i < n - 1 && q.state.documents[d.uri] == fresh(#[trigger] docs[i])
                        && docs[i].uri == d.uri && above_mark(docs, mark, i);
                assert(p.had_new);
            }
        } else {
            assert(p.state.documents[d.uri] == fresh(d));
            assert(above_mark(docs, mark, n - 1));
            assert(docs[n - 1].uri == d.uri);
            assert(!start.state.documents.dom().contains(d.uri));
        }
        if start.newest is None && p.newest is Some && q.newest is None {
            assert(docs[n - 1].publication == publication);
            assert(above_mark(docs, mark, n - 2));
            assert forall|j: int| 0 <= j < n - 1 implies (#[trigger] docs[j]).publication
                != publication by {
                assert(above_mark(docs, mark, j - 1));
            }
        }
    }
}

// --- A walk -----------------------------------------------------------------------

/// The document at `i` of page `k` was listed, and neither it nor one before it on its page is
/// the one that was newest last time.
pub open spec fn listed_new(
    pages: Seq<SpecDocPage>,
    mark: Option<Seq<char>>,
    k: int,
    i: int,
) -> bool {
    0 <= k < pages.len() && 0 <= i < pages[k].0.len() && above_mark(pages[k].0, mark, i)
}

/// What is held now and was not was listed on one of the first `n` pages.
pub open spec fn came_from_pages(
    s: StoreState,
    after: StoreState,
    pages: Seq<SpecDocPage>,
    mark: Option<Seq<char>>,
    n: int,
) -> bool {
    forall|uri: Seq<char>| #[trigger]
        after.documents.dom().contains(uri) && !s.documents.dom().contains(uri) ==> exists|
            k: int,
            i: int,
        |
            k < n && #[trigger] listed_new(pages, mark, k, i) && after.documents[uri] == fresh(
                pages[k].0[i],
            ) && pages[k].0[i].uri == uri
}

/// `uri` is the first document of the publication that the pages list, and none of it stands
/// before.
pub open spec fn first_listed(
    pages: Seq<SpecDocPage>,
    mark: Option<Seq<char>>,
    publication: Seq<char>,
    k: int,
    i: int,
    uri: Seq<char>,
) -> bool {
    &&& 0 <= k < pages.len()
    &&& 0 <= i < pages[k].0.len()
    &&& pages[k].0[i].uri == uri
    &&& pages[k].0[i].publication == publication
    &&& above_mark(pages[k].0, mark, i - 1)
    &&& forall|j: int| 0 <= j < i ==> (#[trigger] pages[k].0[j]).publication != publication
    &&& forall|h: int, j: int|
        h < k && #[trigger] listed_new(pages, mark, h, j) ==> pages[h].0[j].publication
            != publication
}

proof fn lemma_pages(
    s: StoreState,
    pages: Seq<SpecDocPage>,
    mark: Option<Seq<char>>,
    publication: Seq<char>,
    n: int,
)
    requires
        0 <= n <= pages.len(),
    ensures
        ({
            let p = pages_scanned(s, pages, mark, publication, n);
            &&& only_documents(s, p.state)
            &&& keeps_documents(s, p.state)
            &&& came_from_pages(s, p.state, pages, mark, n)
            &&& forall|k: int, i: int|
                k < n && #[trigger] listed_new(pages, mark, k, i)
                    ==> p.state.documents.dom().contains(pages[k].0[i].uri)
            &&& p.newest is Some ==> exists|k: int, i: int|
                k < n && #[trigger] first_listed(pages, mark, publication, k, i, p.newest->0)
            &&& p.newest is None ==> forall|k: int, i: int|
                k < n && #[trigger] listed_new(pages, mark, k, i) ==> pages[k].0[i].publication
                    != publication
            &&& n > 0 ==> p.reached == !above_mark(pages[n - 1].0, mark, pages[n - 1].0.len() - 1)
            &&& n > 0 && p.had_new ==> exists|i: int|
                #[trigger] listed_new(pages, mark, n - 1, i) && !s.documents.dom().contains(
                    pages[n - 1].0[i].uri,
                )
            &&& n > 0 && !p.had_new ==> forall|i: int| #[trigger]
                listed_new(pages, mark, n - 1, i) ==> pages_scanned(
                    s,
                    pages,
                    mark,
                    publication,
                    n - 1,
                ).state.documents.dom().contains(pages[n - 1].0[i].uri)
        }),
    decreases n,
{
    if n > 0 {
        lemma_pages(s, pages, mark, publication, n - 1);
        let q = pages_scanned(s, pages, mark, publication, n - 1);
        let docs = pages[n - 1].0;
        let start = page_start(q);
        let p = pages_scanned(s, pages, mark, publication, n);
        lemma_scanned(start, docs, mark, publication, docs.len() as int);
        assert(start.state == q.state && start.newest == q.newest);
        assert forall|uri: Seq<char>| #[trigger]
            p.state.documents.dom().contains(uri) && !s.documents.dom().contains(
                uri,
            ) implies exists|k: int, i: int|
            k < n && #[trigger] listed_new(pages, mark, k, i) && p.state.documents[uri] == fresh(
                pages[k].0[i],
            ) && pages[k].0[i].uri == uri by {
            if q.state.documents.dom().contains(uri) {
                let (k, i) = choose|k: int, i: int|
                    k < n - 1 && #[trigger] listed_new(pages, mark, k, i)
                        && q.state.documents[uri] == fresh(pages[k].0[i]) && pages[k].0[i].uri
                        == uri;
                assert(listed_new(pages, mark, k, i));
            } else {
                let i = choose|i: int|
                    0 <= i < docs.len() && p.state.documents[uri] == fresh(#[trigger] docs[i])
                        && docs[i].uri == uri && above_mark(docs, mark, i);
                assert(listed_new(pages, mark, n - 1, i));
            }
        }
        assert forall|k: int, i: int|
            k < n && #[trigger] listed_new(
                pages,
                mark,
                k,
                i,
            ) implies p.state.documents.dom().contains(pages[k].0[i].uri) by {
            if k == n - 1 {
                assert(p.state.documents.dom().contains(docs[i].uri));
            } else {
                assert(q.state.documents.dom().contains(pages[k].0[i].uri));
            }
        }
        if p.newest is Some {
            if q.newest is Some {
                let (k, i) = choose|k: int, i: int|
                    k < n - 1 && #[trigger] first_listed(
                        pages,
                        mark,
                        publication,
                        k,
                        i,
                        q.newest->0,
                    );
                assert(first_listed(pages, mark, publication, k, i, p.newest->0));
            } else {
                let i = choose|i: int|
                    {
                        &&& 0 <= i < docs.len()
                        &&& p.newest == Some((#[trigger] docs[i]).uri)
                        &&& docs[i].publication == publication
                        &&& above_mark(docs, mark, i - 1)
                        &&& forall|j: int|
                            0 <= j < i ==> (#[trigger] docs[j]).publication != publication
                    };
                assert(first_listed(pages, mark, publication, n - 1, i, p.newest->0));
            }
        } else {
            assert forall|k: int, i: int|
                k < n && #[trigger] listed_new(
                    pages,
                    mark,
                    k,
                    i,
                ) implies pages[k].0[i].publication != publication by {
                if k == n - 1 {
                    assert(above_mark(docs, mark, i - 1));
                    assert(docs[i].publication != publication);
                }
            }
        }
        if p.had_new {
            let i = choose|i: int|
                0 <= i < docs.len() && above_mark(docs, mark, i)
                    && !start.state.documents.dom().contains((#[trigger] docs[i]).uri);
            assert(listed_new(pages, mark, n - 1, i));
            assert(!s.documents.dom().contains(docs[i].uri));
        } else {
            assert forall|i: int| #[trigger] listed_new(
                pages,
                mark,
                n - 1,
                i,
            ) implies q.state.documents.dom().contains(pages[n - 1].0[i].uri) by {
                assert(docs[i] == pages[n - 1].0[i]);
            }
        }
    }
}

/// A refresh brings in what is new and leaves the rest alone. Every document that was listed
/// before the one that was newest last time is held afterwards; one that is new to the cache
/// is held as it was listed; one that was there is as it was; and nothing else came or went.
pub proof fn law_a_refresh_brings_what_is_new<T: Transport, E>(
    t: T,
    repo: SpecIdentity,
    s: StoreState,
    after: StoreState,
    publication: Seq<char>,
    pages: Seq<SpecDocPage>,
    mark: Option<Seq<char>>,
)
    requires
        mark == lookup(s.sync_cursors, publication),
        walk_done(t, repo, s, after, publication, pages, Ok::<(), WorkError<E>>(())),
    ensures
        forall|k: int, i: int| #[trigger]
            listed_new(pages, mark, k, i) ==> after.documents.dom().contains(
                pages[k].0[i].uri,
            ),
        keeps_documents(s, after),
        came_from_pages(s, after, pages, mark, pages.len() as int),
        after.publications == s.publications,
        after.blobs == s.blobs,
        after.follows == s.follows,
        after.older_cursors == s.older_cursors,
        after.show_images == s.show_images,
        forall|other: Seq<char>|
            other != publication ==> #[trigger] lookup(after.sync_cursors, other) == lookup(
                s.sync_cursors,
                other,
            ),
{
    lemma_pages(s, pages, mark, publication, pages.len() as int);
}

/// What is noted as newest after a refresh is the first document of the publication that was
/// listed, and it is held, unless it is the one that was newest before. Where none was listed
/// the note stays.
pub proof fn law_a_refresh_notes_the_newest<T: Transport, E>(
    t: T,
    repo: SpecIdentity,
    s: StoreState,
    after: StoreState,
    publication: Seq<char>,
    pages: Seq<SpecDocPage>,
    mark: Option<Seq<char>>,
)
    requires
        mark == lookup(s.sync_cursors, publication),
        walk_done(t, repo, s, after, publication, pages, Ok::<(), WorkError<E>>(())),
    ensures
        ({
            ||| {
                &&& lookup(after.sync_cursors, publication) == mark
                &&& forall|k: int, i: int| #[trigger]
                    listed_new(pages, mark, k, i) ==> pages[k].0[i].publication != publication
            }
            ||| exists|uri: Seq<char>, k: int, i: int|
                {
                    &&& #[trigger] first_listed(pages, mark, publication, k, i, uri)
                    &&& lookup(after.sync_cursors, publication) == Some(uri)
                    &&& mark == Some(uri) || after.documents.dom().contains(uri)
                }
        }),
{
    let n = pages.len() as int;
    lemma_pages(s, pages, mark, publication, n);
    let p = pages_scanned(s, pages, mark, publication, n);
    if p.newest is Some {
        let uri = p.newest->0;
        let (k, i) = choose|k: int, i: int|
            k < n && #[trigger] first_listed(pages, mark, publication, k, i, uri);
        assert(first_listed(pages, mark, publication, k, i, uri));
        if mark != Some(uri) {
            assert(above_mark(pages[k].0, mark, i));
            assert(listed_new(pages, mark, k, i));
        }
    }
}

/// A refresh looks as far as it has to. It goes on after a page only where the page held
/// something that was not in the cache and did not reach what was newest last time; it ends at
/// a page that reaches that, holds nothing new, is empty, or is the last.
pub proof fn law_a_refresh_looks_as_far_as_it_has_to<T: Transport, E>(
    t: T,
    repo: SpecIdentity,
    s: StoreState,
    after: StoreState,
    publication: Seq<char>,
    pages: Seq<SpecDocPage>,
    mark: Option<Seq<char>>,
)
    requires
        mark == lookup(s.sync_cursors, publication),
        walk_done(t, repo, s, after, publication, pages, Ok::<(), WorkError<E>>(())),
        pages.len() < u64::MAX,
    ensures
        pages.len() > 0,
        forall|k: int|
            0 <= k < pages.len() - 1 ==> {
                &&& (#[trigger] pages[k]).1 is Some
                &&& above_mark(pages[k].0, mark, pages[k].0.len() - 1)
                &&& exists|i: int| #[trigger]
                    listed_new(pages, mark, k, i) && !s.documents.dom().contains(
                        pages[k].0[i].uri,
                    )
            },
        ({
            let last = pages.last();
            ||| last.0.len() == 0
            ||| last.1 is None
            ||| !above_mark(last.0, mark, last.0.len() - 1)
            ||| forall|i: int| #[trigger]
                listed_new(pages, mark, pages.len() - 1, i) ==> s.documents.dom().contains(
                    last.0[i].uri,
                ) || exists|k: int, j: int|
                    k < pages.len() - 1 && #[trigger] listed_new(pages, mark, k, j)
                        && pages[k].0[j].uri == last.0[i].uri
        }),
{
    let n = pages.len() as int;
    assert forall|k: int| 0 <= k < n - 1 implies {
        &&& (#[trigger] pages[k]).1 is Some
        &&& above_mark(pages[k].0, mark, pages[k].0.len() - 1)
        &&& exists|i: int| #[trigger]
            listed_new(pages, mark, k, i) && !s.documents.dom().contains(pages[k].0[i].uri)
    } by {
        assert(pages[k + 1] == pages[k + 1]);
        assert(walk_goes_on(s, pages, mark, publication, k + 1));
        lemma_pages(s, pages, mark, publication, k + 1);
    }
    lemma_pages(s, pages, mark, publication, n);
    lemma_pages(s, pages, mark, publication, n - 1);
    let p = pages_scanned(s, pages, mark, publication, n);
    let q = pages_scanned(s, pages, mark, publication, n - 1);
    if !p.had_new {
        assert forall|i: int| #[trigger] listed_new(
            pages,
            mark,
            n - 1,
            i,
        ) implies s.documents.dom().contains(pages.last().0[i].uri) || exists|k: int, j: int|
            k < n - 1 && #[trigger] listed_new(pages, mark, k, j) && pages[k].0[j].uri
                == pages.last().0[i].uri by {
            let uri = pages[n - 1].0[i].uri;
            assert(q.state.documents.dom().contains(uri));
        }
    }
}

// --- Windows ----------------------------------------------------------------------

/// The last listing of a document stands at `i`.
pub open spec fn listed_last(docs: Seq<SpecDocument>, uri: Seq<char>, i: int) -> bool {
    &&& 0 <= i < docs.len()
    &&& docs[i].uri == uri
    &&& forall|j: int| i < j < docs.len() ==> (#[trigger] docs[j]).uri != uri
}

/// A document is not listed.
pub open spec fn unlisted(docs: Seq<SpecDocument>, uri: Seq<char>) -> bool {
    forall|j: int| 0 <= j < docs.len() ==> (#[trigger] docs[j]).uri != uri
}

/// Every document of a window is held afterwards, as it was listed last, with the body and
/// the mark it had; nothing that the window does not list is touched.
pub proof fn law_a_window_is_held(
    s: StoreState,
    did: Seq<char>,
    page: SpecDocPage,
    uri: Seq<char>,
    i: int,
)
    ensures
        ({
            let after = window_kept(s, did, page);
            &&& listed_last(page.0, uri, i) ==> lookup(after.documents, uri) == Some(
                SpecStoredDoc {
                    meta: page.0[i],
                    body: match lookup(s.documents, uri) {
                        Some(d) => d.body,
                        None => None,
                    },
                    read: s.is_read(uri),
                },
            )
            &&& unlisted(page.0, uri) ==> lookup(after.documents, uri) == lookup(s.documents, uri)
            &&& lookup(after.older_cursors, did) == Some(
                match page.1 {
                    Some(c) => c,
                    None => Seq::empty(),
                },
            )
            &&& after.follows == s.follows
            &&& after.publications == s.publications
            &&& after.sync_cursors == s.sync_cursors
            &&& after.blobs == s.blobs
        }),
{
    lemma_listed(s, page.0, uri, i);
}

proof fn lemma_listed(s: StoreState, docs: Seq<SpecDocument>, uri: Seq<char>, i: int)
    ensures
        ({
            let after = with_documents(s, docs);
            &&& listed_last(docs, uri, i) ==> lookup(after.documents, uri) == Some(
                SpecStoredDoc {
                    meta: docs[i],
                    body: match lookup(s.documents, uri) {
                        Some(d) => d.body,
                        None => None,
                    },
                    read: s.is_read(uri),
                },
            )
            &&& unlisted(docs, uri) ==> lookup(after.documents, uri) == lookup(s.documents, uri)
            &&& after.follows == s.follows
            &&& after.publications == s.publications
            &&& after.sync_cursors == s.sync_cursors
            &&& after.older_cursors == s.older_cursors
            &&& after.blobs == s.blobs
        }),
    decreases docs.len(),
{
    if docs.len() > 0 {
        let rest = docs.drop_last();
        lemma_listed(s, rest, uri, i);
        crate::worker::feeds::law_listing_keeps_what_was_opened(s, rest, uri);
        let last = docs[docs.len() - 1];
        assert(last == docs.last());
        if listed_last(docs, uri, i) && i < docs.len() - 1 {
            assert(last.uri != uri);
            assert(listed_last(rest, uri, i)) by {
                assert forall|j: int| i < j < rest.len() implies (#[trigger] rest[j]).uri
                    != uri by {
                    assert(docs[j].uri != uri);
                }
            }
        }
        if unlisted(docs, uri) {
            assert(last.uri != uri);
            assert(unlisted(rest, uri)) by {
                assert forall|j: int| 0 <= j < rest.len() implies (#[trigger] rest[j]).uri
                    != uri by {
                    assert(docs[j].uri != uri);
                }
            }
        }
    }
}

/// The first fetch of a feed notes the first listed document of the publication as its
/// newest, and nothing where none was listed.
pub proof fn law_the_first_fetch_notes_the_newest(
    s: StoreState,
    publication: Seq<char>,
    docs: Seq<SpecDocument>,
    i: int,
)
    ensures
        0 <= i < docs.len() && docs[i].publication == publication && (forall|j: int|
            0 <= j < i ==> (#[trigger] docs[j]).publication != publication) ==> lookup(
            watermarked(s, publication, docs).sync_cursors,
            publication,
        ) == Some(docs[i].uri),
        (forall|j: int| 0 <= j < docs.len() ==> (#[trigger] docs[j]).publication != publication)
            ==> watermarked(s, publication, docs) == s,
        watermarked(s, publication, docs).documents == s.documents,
        watermarked(s, publication, docs).follows == s.follows,
{
    lemma_newest(docs, publication, 0);
}

proof fn lemma_newest(docs: Seq<SpecDocument>, publication: Seq<char>, i: int)
    requires
        0 <= i <= docs.len(),
    ensures
        match newest_of(docs, publication, i) {
            Some(uri) => exists|k: int|
                {
                    &&& i <= k < docs.len()
                    &&& (#[trigger] docs[k]).uri == uri
                    &&& docs[k].publication == publication
                    &&& forall|j: int|
                        i <= j < k ==> (#[trigger] docs[j]).publication != publication
                },
            None => forall|j: int|
                i <= j < docs.len() ==> (#[trigger] docs[j]).publication != publication,
        },
    decreases docs.len() - i,
{
    if i < docs.len() && docs[i].publication != publication {
        lemma_newest(docs, publication, i + 1);
    }
}

} // verus!
