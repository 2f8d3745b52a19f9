//! What the command line prints: a repository's publications as they are fetched and
//! cached, and what the cache holds.
use vstd::prelude::*;

use crate::atp::{parsed_at_uri, AtUri, SpecAtUri, Transport};
use crate::decode::Registry;
use crate::model::{
    documents_view, lemma_documents_push, publications_view, Document, Publication, RichDoc,
    SpecBlock, SpecDocument, SpecPublication, SpecSubscription, Subscription,
};
use crate::print::{print_doc, printed_all};
use crate::read::{
    doc_page_fetched, doc_page_result, document_fetched, get_document, get_publication,
    identity_resolved, list_documents, list_publications, list_subscriptions, publication_fetched,
    publication_result, publications_listed, read_result, resolve_identity, subscriptions_listed,
    Identity, SpecIdentity, SpecRead, SpecReadError,
};
use crate::store::{are_documents, lookup, newest_first, Store, StoreState};
use crate::text::{decimal, decimal_of, owned, same};
use crate::ui::chrome::{shown_title, title_or_untitled};
use crate::worker::tasks::{cache_held, WorkError};

verus! {

// --- Sections ---------------------------------------------------------------------

/// A document in a list.
pub open spec fn bullet(d: SpecDocument) -> Seq<char> {
    "   • "@ + shown_title(d.title) + "  ["@ + d.published_at + "]\n"@
}

/// Documents in a list.
pub open spec fn bullets(docs: Seq<SpecDocument>) -> Seq<char>
    decreases docs.len(),
{
    if docs.len() == 0 {
        Seq::empty()
    } else {
        bullets(docs.drop_last()) + bullet(docs.last())
    }
}

/// A document that is shown whole.
pub open spec fn reading_text(title: Seq<char>, body: Seq<SpecBlock>) -> Seq<char> {
    "\n   ┌─ reading: "@ + shown_title(title) + "\n"@ + printed_all(body, 1) + "   └─\n"@
}

/// A publication's heading.
pub open spec fn heading(p: SpecPublication) -> Seq<char> {
    "══ "@ + p.name + " · "@ + p.url + "\n"@
}

/// The documents of a publication among those of its repository.
pub open spec fn own_documents(docs: Seq<SpecDocument>, uri: Seq<char>) -> Seq<SpecDocument>
    decreases docs.len(),
{
    if docs.len() == 0 {
        Seq::empty()
    } else if docs.last().publication == uri {
        own_documents(docs.drop_last(), uri).push(docs.last())
    } else {
        own_documents(docs.drop_last(), uri)
    }
}

fn push_bullets(docs: &Vec<Document>, out: &mut String)
    ensures
        final(out)@ == old(out)@ + bullets(documents_view(docs@)),
{
    let ghost all = documents_view(docs@);
    let ghost start = out@;
    let mut i: usize = 0;
    assert(all.take(0) =~= Seq::empty());
    assert(start + Seq::<char>::empty() =~= start);
    assert(all.len() == docs@.len());
    while i < docs.len()
        invariant
            i <= docs@.len(),
            all == documents_view(docs@),
            all.len() == docs@.len(),
            out@ == start + bullets(all.take(i as int)),
        decreases docs@.len() - i,
    {
        out.push_str("   • ");
        out.push_str(title_or_untitled(docs[i].title.as_str()));
        out.push_str("  [");
        out.push_str(docs[i].published_at.as_str());
        out.push_str("]\n");
        assert(all.take(i + 1).drop_last() =~= all.take(i as int));
        assert(all.take(i + 1).last() == docs@[i as int]@);
        assert(out@ =~= start + bullets(all.take(i + 1)));
        i = i + 1;
    }
    assert(all.take(all.len() as int) =~= all);
}

fn push_heading(p: &Publication, out: &mut String)
    ensures
        final(out)@ == old(out)@ + heading(p@),
{
    let ghost start = out@;
    out.push_str("══ ");
    out.push_str(p.name.as_str());
    out.push_str(" · ");
    out.push_str(p.url.as_str());
    out.push_str("\n");
    assert(out@ =~= start + heading(p@));
}

fn push_reading(title: &str, body: &RichDoc, out: &mut String)
    ensures
        final(out)@ == old(out)@ + reading_text(title@, body@),
{
    let ghost start = out@;
    let text = print_doc(&body.blocks);
    out.push_str("\n   ┌─ reading: ");
    out.push_str(title_or_untitled(title));
    out.push_str("\n");
    out.push_str(text.as_str());
    out.push_str("   └─\n");
    assert(out@ =~= start + reading_text(title@, body@));
}

fn pick_own(docs: &Vec<Document>, uri: &str) -> (r: Vec<Document>)
    ensures
        documents_view(r@) == own_documents(documents_view(docs@), uri@),
{
    broadcast use lemma_documents_push;

    let ghost all = documents_view(docs@);
    let mut out: Vec<Document> = Vec::new();
    let mut i: usize = 0;
    assert(all.take(0) =~= Seq::empty());
    assert(documents_view(out@) =~= Seq::empty());
    assert(all.len() == docs@.len());
    while i < docs.len()
        invariant
            i <= docs@.len(),
            all == documents_view(docs@),
            all.len() == docs@.len(),
            documents_view(out@) == own_documents(all.take(i as int), uri@),
        decreases docs@.len() - i,
    {
        broadcast use lemma_documents_push;

        assert(all.take(i + 1).drop_last() =~= all.take(i as int));
        assert(all.take(i + 1).last() == docs@[i as int]@);
        if same(docs[i].publication.as_str(), uri) {
            out.push(docs[i].clone());
        }
        i = i + 1;
    }
    assert(all.take(all.len() as int) =~= all);
    out
}

// --- Fetching ---------------------------------------------------------------------

/// What was fetched for a publication: its record, its repository, a page of the
/// repository's documents, and the first of its own read whole.
pub struct Fetched {
    pub publication: SpecPublication,
    pub repo: SpecIdentity,
    pub docs: Seq<SpecDocument>,
    pub cursor: Option<Seq<char>>,
    pub reading: Option<SpecRead>,
}

/// The publication's own documents on the page.
pub open spec fn listed(f: Fetched) -> Seq<SpecDocument> {
    own_documents(f.docs, f.publication.uri)
}

/// The first of them was read, if there is one.
pub open spec fn first_was_read<T: Transport>(t: T, f: Fetched) -> bool {
    if listed(f).len() == 0 {
        f.reading is None
    } else {
        &&& f.reading is Some
        &&& parsed_at_uri(listed(f)[0].uri) is Some
        &&& document_fetched(
            t,
            parsed_at_uri(listed(f)[0].uri)->0,
            f.repo.pds,
            Ok(f.reading->0),
        )
    }
}

/// `f` holds a publication, its repository, and a page of its documents.
pub open spec fn is_listed<T: Transport>(t: T, uri: SpecAtUri, f: Fetched) -> bool {
    &&& publication_fetched(t, uri, Ok((f.publication, f.repo)))
    &&& doc_page_fetched(t, f.repo, None, Ok((f.docs, f.cursor)))
}

/// `f` is what fetching a publication came to.
pub open spec fn is_fetched<T: Transport>(t: T, uri: SpecAtUri, f: Fetched) -> bool {
    &&& is_listed(t, uri, f)
    &&& first_was_read(t, f)
}

/// How many documents there are.
pub open spec fn count_line(own: nat, more: bool, total: nat) -> Seq<char> {
    "   "@ + decimal(own) + " document(s)"@ + (if more {
        ", more…"@
    } else {
        Seq::empty()
    }) + " ("@ + decimal(total) + " in repo)\n"@
}

/// What is printed of a publication's record.
pub open spec fn record_text(p: SpecPublication) -> Seq<char> {
    heading(p) + "   "@ + p.uri + "\n"@
}

/// What is printed of a publication and its documents.
pub open spec fn listed_text(f: Fetched) -> Seq<char> {
    record_text(f.publication) + count_line(listed(f).len(), f.cursor is Some, f.docs.len())
        + bullets(listed(f))
}

/// What is printed for a publication.
pub open spec fn fetched_text(f: Fetched) -> Seq<char> {
    listed_text(f) + (match f.reading {
        Some((meta, body)) => reading_text(meta.title, body),
        None => Seq::empty(),
    }) + "\n"@
}

/// The cache with documents put in, without bodies.
pub open spec fn with_documents(s: StoreState, docs: Seq<SpecDocument>) -> StoreState
    decreases docs.len(),
{
    if docs.len() == 0 {
        s
    } else {
        with_documents(s, docs.drop_last()).with_document(docs.last(), None)
    }
}

/// The cache once a publication and its documents were listed.
pub open spec fn listed_state(s: StoreState, f: Fetched) -> StoreState {
    with_documents(s.with_publication(f.publication), f.docs)
}

/// The cache once a publication was fetched.
pub open spec fn fetched_state(s: StoreState, f: Fetched) -> StoreState {
    match f.reading {
        Some((meta, body)) => listed_state(s, f).with_document(meta, Some(body)),
        None => listed_state(s, f),
    }
}

/// Where fetching a publication stopped short.
pub enum Halt {
    /// Its record was not had.
    Unreached(SpecReadError),
    /// The documents of its repository were not listed.
    Unlisted { publication: SpecPublication, repo: SpecIdentity, why: SpecReadError },
    /// The URI of its first document does not parse.
    Malformed(Fetched),
    /// Its first document was not had.
    Unread { f: Fetched, why: SpecReadError },
}

/// `h` is where fetching a publication stopped short.
pub open spec fn is_halt<T: Transport>(t: T, uri: SpecAtUri, h: Halt) -> bool {
    match h {
        Halt::Unreached(why) => publication_fetched(t, uri, Err(why)),
        Halt::Unlisted { publication, repo, why } => {
            &&& publication_fetched(t, uri, Ok((publication, repo)))
            &&& doc_page_fetched(t, repo, None, Err(why))
        },
        Halt::Malformed(f) => {
            &&& is_listed(t, uri, f)
            &&& listed(f).len() > 0
            &&& parsed_at_uri(listed(f)[0].uri) is None
        },
        Halt::Unread { f, why } => {
            &&& is_listed(t, uri, f)
            &&& listed(f).len() > 0
            &&& parsed_at_uri(listed(f)[0].uri) matches Some(doc) && document_fetched(
                t,
                doc,
                f.repo.pds,
                Err(why),
            )
        },
    }
}

/// What was printed for the publication by then.
pub open spec fn halt_text(h: Halt) -> Seq<char> {
    match h {
        Halt::Unreached(_) => Seq::empty(),
        Halt::Unlisted { publication, .. } => record_text(publication),
        Halt::Malformed(f) => listed_text(f),
        Halt::Unread { f, .. } => listed_text(f),
    }
}

/// The cache by then.
pub open spec fn halt_state(s: StoreState, h: Halt) -> StoreState {
    match h {
        Halt::Unreached(_) => s,
        Halt::Unlisted { publication, .. } => s.with_publication(publication),
        Halt::Malformed(f) => listed_state(s, f),
        Halt::Unread { f, .. } => listed_state(s, f),
    }
}

/// What is said of a document whose URI does not parse.
pub open spec fn malformed() -> Seq<char> {
    "document has a malformed AT-URI"@
}

/// `e` says why fetching a publication stopped short.
pub open spec fn is_halt_error<E>(h: Halt, e: WorkError<E>) -> bool {
    match h {
        Halt::Unreached(why) => e matches WorkError::Read(x) && x@ == why,
        Halt::Unlisted { why, .. } => e matches WorkError::Read(x) && x@ == why,
        Halt::Malformed(_) => e matches WorkError::Message(m) && m@ == malformed(),
        Halt::Unread { why, .. } => e matches WorkError::Read(x) && x@ == why,
    }
}

fn cache_documents<S: Store>(docs: &Vec<Document>, cache: &mut S) -> (r: Result<
    (),
    WorkError<S::Error>,
>)
    ensures
        S::reliable() ==> cache_held(r),
        r is Ok ==> final(cache).state() == with_documents(
            old(cache).state(),
            documents_view(docs@),
        ),
        r matches Err(e) ==> e is Store,
{
    let ghost all = documents_view(docs@);
    let ghost start = cache.state();
    let mut i: usize = 0;
    assert(all.take(0) =~= Seq::empty());
    assert(all.len() == docs@.len());
    while i < docs.len()
        invariant
            i <= docs@.len(),
            all == documents_view(docs@),
            all.len() == docs@.len(),
            cache.state() == with_documents(start, all.take(i as int)),
        decreases docs@.len() - i,
    {
        assert(all.take(i + 1).drop_last() =~= all.take(i as int));
        assert(all.take(i + 1).last() == docs@[i as int]@);
        match cache.upsert_document(&docs[i], None) {
            Ok(()) => {},
            Err(e) => return Err(WorkError::Store(e)),
        }
        i = i + 1;
    }
    assert(all.take(all.len() as int) =~= all);
    Ok(())
}

fn push_counts(own: usize, more: bool, total: usize, out: &mut String)
    ensures
        final(out)@ == old(out)@ + count_line(own as nat, more, total as nat),
{
    let ghost start = out@;
    let n = decimal_of(own as u64);
    let all = decimal_of(total as u64);
    out.push_str("   ");
    out.push_str(n.as_str());
    out.push_str(" document(s)");
    if more {
        out.push_str(", more…");
    }
    out.push_str(" (");
    out.push_str(all.as_str());
    out.push_str(" in repo)\n");
    assert(out@ =~= start + count_line(own as nat, more, total as nat));
}

fn push_record(p: &Publication, out: &mut String)
    ensures
        final(out)@ == old(out)@ + record_text(p@),
{
    let ghost start = out@;
    push_heading(p, out);
    out.push_str("   ");
    out.push_str(p.uri.as_str());
    out.push_str("\n");
    assert(out@ =~= start + record_text(p@));
}

fn push_listed(own: &Vec<Document>, more: bool, total: usize, out: &mut String)
    ensures
        final(out)@ == old(out)@ + count_line(own@.len(), more, total as nat) + bullets(
            documents_view(own@),
        ),
{
    push_counts(own.len(), more, total, out);
    push_bullets(own, out);
}

proof fn lemma_texts_join(a: Seq<char>, b: Seq<char>, c: Seq<char>, d: Seq<char>, e: Seq<char>)
    ensures
        a + b + c == a + (b + c),
        a + b + c + d == a + (b + c + d),
        a + b + c + d + e == a + (b + c + d + e),
{
    assert(a + b + c =~= a + (b + c));
    assert(a + b + c + d =~= a + (b + c + d));
    assert(a + b + c + d + e =~= a + (b + c + d + e));
}

proof fn lemma_prefix(a: Seq<char>, b: Seq<char>)
    ensures
        a.is_prefix_of(a),
        a.is_prefix_of(a + b),
{
    assert(a.subrange(0, a.len() as int) =~= a);
    assert((a + b).subrange(0, a.len() as int) =~= a);
}

proof fn lemma_prefix_of_prefix(a: Seq<char>, b: Seq<char>, c: Seq<char>)
    requires
        a.is_prefix_of(b),
        b.is_prefix_of(c),
    ensures
        a.is_prefix_of(c),
{
    assert forall|i: int| 0 <= i < a.len() implies a[i] == c[i] by {
        assert(b.subrange(0, a.len() as int)[i] == b[i]);
        assert(c.subrange(0, b.len() as int)[i] == c[i]);
    }
    assert(c.subrange(0, a.len() as int) =~= a);
}

/// A publication was fetched, kept and printed.
pub open spec fn publication_shown<T: Transport>(
    t: T,
    uri: SpecAtUri,
    s: StoreState,
    after: StoreState,
    printed: Seq<char>,
    printed_after: Seq<char>,
) -> bool {
    exists|f: Fetched|
        {
            &&& #[trigger] is_fetched(t, uri, f)
            &&& after == fetched_state(s, f)
            &&& printed_after == printed + fetched_text(f)
        }
}

/// Fetching a publication stopped short, as `e` says; what had come is kept and printed.
pub open spec fn publication_halted<T: Transport, E>(
    t: T,
    uri: SpecAtUri,
    s: StoreState,
    after: StoreState,
    printed: Seq<char>,
    printed_after: Seq<char>,
    e: WorkError<E>,
) -> bool {
    exists|h: Halt|
        {
            &&& #[trigger] is_halt(t, uri, h)
            &&& is_halt_error(h, e)
            &&& after == halt_state(s, h)
            &&& printed_after == printed + halt_text(h)
        }
}

/// A publication and its documents were listed: `repo` is its repository, and `own` are its
/// documents.
spec fn is_listing<T: Transport>(
    t: T,
    uri: SpecAtUri,
    f: Fetched,
    repo: SpecIdentity,
    own: Seq<SpecDocument>,
) -> bool {
    &&& is_listed(t, uri, f)
    &&& f.reading is None
    &&& f.repo == repo
    &&& listed(f) == own
}

/// A publication and its documents were listed, kept and printed.
spec fn publication_listed<T: Transport>(
    t: T,
    uri: SpecAtUri,
    s: StoreState,
    after: StoreState,
    printed: Seq<char>,
    printed_after: Seq<char>,
    repo: SpecIdentity,
    own: Seq<SpecDocument>,
) -> bool {
    exists|f: Fetched|
        {
            &&& #[trigger] is_listing(t, uri, f, repo, own)
            &&& after == listed_state(s, f)
            &&& printed_after == printed + listed_text(f)
        }
}

/// Fetch a publication and a page of its repository's documents, put them in the cache, and
/// print what came; its repository, and its documents.
fn list_publication<T: Transport, S: Store>(
    t: &T,
    cache: &mut S,
    uri: &AtUri,
    out: &mut String,
) -> (r: Result<(Identity, Vec<Document>), WorkError<S::Error>>)
    ensures
        S::reliable() ==> cache_held(r),
        match r {
            Ok((repo, own)) => publication_listed(
                *t,
                uri@,
                old(cache).state(),
                final(cache).state(),
                old(out)@,
                final(out)@,
                repo@,
                documents_view(own@),
            ),
            Err(WorkError::Store(_)) => old(out)@.is_prefix_of(final(out)@),
            Err(e) => publication_halted(
                *t,
                uri@,
                old(cache).state(),
                final(cache).state(),
                old(out)@,
                final(out)@,
                e,
            ),
        },
{
    let ghost start = out@;
    let ghost before = cache.state();
    let got = get_publication(t, uri);
    let ghost got_view = publication_result(got);
    assert(publication_fetched(*t, uri@, got_view));
    let (publication, repo) = match got {
        Ok(pair) => pair,
        Err(e) => {
            let r = WorkError::Read(e);
            proof {
                let h = Halt::Unreached(e@);
                assert(is_halt(*t, uri@, h));
                assert(start =~= start + halt_text(h));
                assert(publication_halted(*t, uri@, before, before, start, start, r));
            }
            return Err(r);
        },
    };
    match cache.upsert_publication(&publication) {
        Ok(()) => {},
        Err(e) => {
            proof {
                lemma_prefix(start, Seq::empty());
            }
            return Err(WorkError::Store(e));
        },
    }
    push_record(&publication, out);
    let page = list_documents(t, &repo, None);
    let ghost page_view = doc_page_result(page);
    assert(doc_page_fetched(*t, repo@, None, page_view));
    let (docs, cursor) = match page {
        Ok(pair) => pair,
        Err(e) => {
            let r = WorkError::Read(e);
            proof {
                let h = Halt::Unlisted { publication: publication@, repo: repo@, why: e@ };
                assert(is_halt(*t, uri@, h));
                assert(publication_halted(*t, uri@, before, cache.state(), start, out@, r));
            }
            return Err(r);
        },
    };
    match cache_documents(&docs, cache) {
        Ok(()) => {},
        Err(e) => {
            proof {
                lemma_prefix(start, record_text(publication@));
            }
            return Err(e);
        },
    }
    let own = pick_own(&docs, publication.uri.as_str());
    assert(documents_view(own@).len() == own@.len());
    assert(documents_view(docs@).len() == docs@.len());
    push_listed(&own, cursor.is_some(), docs.len(), out);
    proof {
        let f = Fetched {
            publication: publication@,
            repo: repo@,
            docs: documents_view(docs@),
            cursor: crate::model::opt_view(cursor),
            reading: None,
        };
        assert(is_listing(*t, uri@, f, repo@, documents_view(own@)));
        lemma_texts_join(
            start,
            record_text(publication@),
            count_line(own@.len(), f.cursor is Some, f.docs.len()),
            bullets(documents_view(own@)),
            Seq::empty(),
        );
        assert(publication_listed(
            *t,
            uri@,
            before,
            cache.state(),
            start,
            out@,
            repo@,
            documents_view(own@),
        ));
    }
    Ok((repo, own))
}

/// Fetch a publication, put it and its documents in the cache, read the first of them
/// whole, and print what came. What was printed before an error stays printed.
pub fn fetch_publication<T: Transport, S: Store>(
    t: &T,
    registry: &Registry,
    cache: &mut S,
    uri: &AtUri,
    out: &mut String,
) -> (r: Result<(), WorkError<S::Error>>)
    ensures
        S::reliable() ==> cache_held(r),
        match r {
            Ok(_) => publication_shown(
                *t,
                uri@,
                old(cache).state(),
                final(cache).state(),
                old(out)@,
                final(out)@,
            ),
            Err(WorkError::Store(_)) => old(out)@.is_prefix_of(final(out)@),
            Err(e) => publication_halted(
                *t,
                uri@,
                old(cache).state(),
                final(cache).state(),
                old(out)@,
                final(out)@,
                e,
            ),
        },
{
    let ghost start = out@;
    let ghost before = cache.state();
    let (repo, own) = match list_publication(t, cache, uri, out) {
        Ok(pair) => pair,
        Err(e) => return Err(e),
    };
    let ghost mut f = choose|f: Fetched|
        {
            &&& #[trigger] is_listing(*t, uri@, f, repo@, documents_view(own@))
            &&& cache.state() == listed_state(before, f)
            &&& out@ == start + listed_text(f)
        };
    let ghost held = cache.state();
    let ghost shown = listed_text(f);
    let ghost mut reading: Seq<char> = Seq::empty();
    assert(documents_view(own@).len() == own@.len());
    assert(out@ =~= start + shown + reading);
    if own.len() > 0 {
        assert(documents_view(own@)[0] == own@[0]@);
        let doc_uri = match AtUri::parse(own[0].uri.as_str()) {
            Some(u) => u,
            None => {
                let r = WorkError::Message(owned("document has a malformed AT-URI"));
                assert(is_halt(*t, uri@, Halt::Malformed(f)));
                assert(publication_halted(*t, uri@, before, held, start, out@, r));
                return Err(r);
            },
        };
        let read = get_document(t, registry, &doc_uri, repo.pds.as_str());
        let ghost read_view = read_result(read);
        assert(document_fetched(*t, doc_uri@, repo@.pds, read_view));
        let (meta, body) = match read {
            Ok(pair) => pair,
            Err(e) => {
                let r = WorkError::Read(e);
                assert(is_halt(*t, uri@, Halt::Unread { f, why: e@ }));
                assert(publication_halted(*t, uri@, before, held, start, out@, r));
                return Err(r);
            },
        };
        match cache.upsert_document(&meta, Some(&body)) {
            Ok(()) => {},
            Err(e) => {
                proof {
                    lemma_prefix(start, shown);
                }
                return Err(WorkError::Store(e));
            },
        }
        push_reading(meta.title.as_str(), &body, out);
        proof {
            reading = reading_text(meta@.title, body@);
            f = Fetched { reading: Some((meta@, body@)), ..f };
        }
    }
    out.push_str("\n");
    proof {
        assert(listed_text(f) == shown);
        assert(is_fetched(*t, uri@, f));
        lemma_texts_join(start, shown, reading, "\n"@, Seq::empty());
        assert(publication_shown(*t, uri@, before, cache.state(), start, out@));
    }
    Ok(())
}

/// The URIs that parse, in order.
pub open spec fn parsed_uris(s: Seq<Seq<char>>) -> Seq<SpecAtUri>
    decreases s.len(),
{
    if s.len() == 0 {
        Seq::empty()
    } else {
        match parsed_at_uri(s.last()) {
            Some(u) => parsed_uris(s.drop_last()).push(u),
            None => parsed_uris(s.drop_last()),
        }
    }
}

/// URIs by their views.
pub open spec fn uris_view(s: Seq<AtUri>) -> Seq<SpecAtUri> {
    s.map_values(|u: AtUri| u@)
}

/// The publications that subscriptions name.
pub open spec fn subscribed(s: Seq<SpecSubscription>) -> Seq<Seq<char>> {
    s.map_values(|x: SpecSubscription| x.publication)
}

/// The URIs of publications.
pub open spec fn own_uris(s: Seq<SpecPublication>) -> Seq<Seq<char>> {
    s.map_values(|x: SpecPublication| x.uri)
}

/// What a repository has to show: the publications it subscribes to or, where there are
/// none, its own.
pub open spec fn is_choice<T: Transport>(t: T, reader: SpecIdentity, c: Choice) -> bool {
    &&& subscriptions_listed(t, reader, Ok(c.subscriptions))
    &&& c.subscriptions.len() == 0 ==> publications_listed(t, reader, Ok(c.own))
}

/// The publications that a repository subscribes to, and its own.
pub struct Choice {
    pub subscriptions: Seq<SpecSubscription>,
    pub own: Seq<SpecPublication>,
}

impl Choice {
    /// The publications to show.
    pub open spec fn targets(self) -> Seq<SpecAtUri> {
        if self.subscriptions.len() == 0 {
            parsed_uris(own_uris(self.own))
        } else {
            parsed_uris(subscribed(self.subscriptions))
        }
    }

    /// What is said of them.
    pub open spec fn text(self) -> Seq<char> {
        if self.subscriptions.len() == 0 {
            "no subscriptions — showing this repo's own publication(s):\n\n"@
        } else {
            decimal(self.subscriptions.len()) + " subscription(s):\n\n"@
        }
    }
}

/// What is printed of who was resolved.
pub open spec fn resolved_text(target: Seq<char>, who: SpecIdentity) -> Seq<char> {
    "resolved "@ + target + "\n  did: "@ + who.did + "\n  pds: "@ + who.pds + "\n\n"@
}

/// What is printed for some publications.
pub open spec fn fetched_texts(fs: Seq<Fetched>) -> Seq<char>
    decreases fs.len(),
{
    if fs.len() == 0 {
        Seq::empty()
    } else {
        fetched_texts(fs.drop_last()) + fetched_text(fs.last())
    }
}

/// The cache once some publications were fetched.
pub open spec fn fetched_states(s: StoreState, fs: Seq<Fetched>) -> StoreState
    decreases fs.len(),
{
    if fs.len() == 0 {
        s
    } else {
        fetched_state(fetched_states(s, fs.drop_last()), fs.last())
    }
}

/// `fs` is what fetching some publications came to, one after the other.
pub open spec fn are_fetched<T: Transport>(t: T, uris: Seq<SpecAtUri>, fs: Seq<Fetched>) -> bool {
    &&& fs.len() == uris.len()
    &&& forall|i: int| 0 <= i < fs.len() ==> is_fetched(t, uris[i], #[trigger] fs[i])
}

/// Everything was fetched: `who` is the repository, `c` what it has to show, and `fs` what
/// came of that.
pub open spec fn all_fetched<T: Transport>(
    t: T,
    target: Seq<char>,
    who: SpecIdentity,
    c: Choice,
    fs: Seq<Fetched>,
) -> bool {
    &&& identity_resolved(t, target, Ok(who))
    &&& is_choice(t, who, c)
    &&& are_fetched(t, c.targets(), fs)
}

fn parse_subscribed(v: &Vec<Subscription>) -> (r: Vec<AtUri>)
    ensures
        uris_view(r@) == parsed_uris(subscribed(crate::read::subscriptions_view(v@))),
{
    let ghost all = subscribed(crate::read::subscriptions_view(v@));
    let mut out: Vec<AtUri> = Vec::new();
    let mut i: usize = 0;
    assert(all.take(0) =~= Seq::empty());
    assert(uris_view(out@) =~= Seq::empty());
    assert(all.len() == v@.len());
    while i < v.len()
        invariant
            i <= v@.len(),
            all == subscribed(crate::read::subscriptions_view(v@)),
            all.len() == v@.len(),
            uris_view(out@) == parsed_uris(all.take(i as int)),
        decreases v@.len() - i,
    {
        let ghost before = uris_view(out@);
        assert(all.take(i + 1).drop_last() =~= all.take(i as int));
        assert(all.take(i + 1).last() == v@[i as int].publication@);
        if let Some(u) = AtUri::parse(v[i].publication.as_str()) {
            out.push(u);
            assert(uris_view(out@) =~= before.push(u@));
        }
        i = i + 1;
    }
    assert(all.take(all.len() as int) =~= all);
    out
}

fn parse_own(v: &Vec<Publication>) -> (r: Vec<AtUri>)
    ensures
        uris_view(r@) == parsed_uris(own_uris(publications_view(v@))),
{
    let ghost all = own_uris(publications_view(v@));
    let mut out: Vec<AtUri> = Vec::new();
    let mut i: usize = 0;
    assert(all.take(0) =~= Seq::empty());
    assert(uris_view(out@) =~= Seq::empty());
    assert(all.len() == v@.len());
    while i < v.len()
        invariant
            i <= v@.len(),
            all == own_uris(publications_view(v@)),
            all.len() == v@.len(),
            uris_view(out@) == parsed_uris(all.take(i as int)),
        decreases v@.len() - i,
    {
        let ghost before = uris_view(out@);
        assert(all.take(i + 1).drop_last() =~= all.take(i as int));
        assert(all.take(i + 1).last() == v@[i as int].uri@);
        if let Some(u) = AtUri::parse(v[i].uri.as_str()) {
            out.push(u);
            assert(uris_view(out@) =~= before.push(u@));
        }
        i = i + 1;
    }
    assert(all.take(all.len() as int) =~= all);
    out
}

/// Listing what a repository has to show stopped short, and `printed` was printed by then:
/// nothing where its subscriptions were not listed, and that there are none where its own
/// publications were not.
pub open spec fn listing_failed<T: Transport>(
    t: T,
    reader: SpecIdentity,
    why: SpecReadError,
    printed: Seq<char>,
) -> bool {
    ||| subscriptions_listed(t, reader, Err(why)) && printed == Seq::<char>::empty()
    ||| subscriptions_listed(t, reader, Ok(Seq::empty())) && publications_listed(
        t,
        reader,
        Err(why),
    ) && printed == "no subscriptions — showing this repo's own publication(s):\n\n"@
}

/// What a repository has to show was listed, and how much it is printed.
spec fn targets_shown<T: Transport>(
    t: T,
    reader: SpecIdentity,
    uris: Seq<SpecAtUri>,
    printed: Seq<char>,
    printed_after: Seq<char>,
) -> bool {
    exists|c: Choice|
        {
            &&& #[trigger] is_choice(t, reader, c)
            &&& uris == c.targets()
            &&& printed_after == printed + c.text()
        }
}

/// Listing what a repository has to show stopped short.
spec fn targets_stopped<T: Transport>(
    t: T,
    reader: SpecIdentity,
    why: SpecReadError,
    printed: Seq<char>,
    printed_after: Seq<char>,
) -> bool {
    exists|more: Seq<char>|
        #[trigger] listing_failed(t, reader, why, more) && printed_after == printed + more
}

/// Where fetching a repository stopped short.
pub enum Stop {
    /// It was not resolved.
    Unresolved(SpecReadError),
    /// What it has to show was not listed.
    Unlisted { who: SpecIdentity, why: SpecReadError, printed: Seq<char> },
    /// Of the publications that it has to show, `fs` were fetched, and the next was not.
    Halted { who: SpecIdentity, c: Choice, fs: Seq<Fetched>, h: Halt },
}

/// `fs` is what came of the first of some publications, and `h` is where the next stopped
/// short.
pub open spec fn are_halted<T: Transport>(
    t: T,
    uris: Seq<SpecAtUri>,
    fs: Seq<Fetched>,
    h: Halt,
) -> bool {
    &&& fs.len() < uris.len()
    &&& are_fetched(t, uris.take(fs.len() as int), fs)
    &&& is_halt(t, uris[fs.len() as int], h)
}

/// `x` is where fetching a repository stopped short.
pub open spec fn is_stop<T: Transport>(t: T, target: Seq<char>, x: Stop) -> bool {
    match x {
        Stop::Unresolved(why) => identity_resolved(t, target, Err(why)),
        Stop::Unlisted { who, why, printed } => {
            &&& identity_resolved(t, target, Ok(who))
            &&& listing_failed(t, who, why, printed)
        },
        Stop::Halted { who, c, fs, h } => {
            &&& identity_resolved(t, target, Ok(who))
            &&& is_choice(t, who, c)
            &&& are_halted(t, c.targets(), fs, h)
        },
    }
}

/// What was printed by then.
pub open spec fn stop_text(target: Seq<char>, x: Stop) -> Seq<char> {
    match x {
        Stop::Unresolved(_) => Seq::empty(),
        Stop::Unlisted { who, printed, .. } => resolved_text(target, who) + printed,
        Stop::Halted { who, c, fs, h } => resolved_text(target, who) + c.text() + fetched_texts(fs)
            + halt_text(h),
    }
}

/// The cache by then.
pub open spec fn stop_state(s: StoreState, x: Stop) -> StoreState {
    match x {
        Stop::Halted { fs, h, .. } => halt_state(fetched_states(s, fs), h),
        _ => s,
    }
}

/// `e` says why fetching a repository stopped short.
pub open spec fn is_stop_error<E>(x: Stop, e: WorkError<E>) -> bool {
    match x {
        Stop::Unresolved(why) => e matches WorkError::Read(f) && f@ == why,
        Stop::Unlisted { why, .. } => e matches WorkError::Read(f) && f@ == why,
        Stop::Halted { h, .. } => is_halt_error(h, e),
    }
}

/// List what a repository has to show, and print how much it is.
fn fetch_targets<T: Transport, E>(t: &T, reader: &Identity, out: &mut String) -> (r: Result<
    Vec<AtUri>,
    WorkError<E>,
>)
    ensures
        match r {
            Ok(uris) => targets_shown(*t, reader@, uris_view(uris@), old(out)@, final(out)@),
            Err(WorkError::Read(e)) => targets_stopped(*t, reader@, e@, old(out)@, final(out)@),
            Err(_) => false,
        },
{
    let ghost start = out@;
    let subs = match list_subscriptions(t, reader) {
        Ok(subs) => subs,
        Err(e) => {
            proof {
                assert(listing_failed(*t, reader@, e@, Seq::empty()));
                assert(start =~= start + Seq::<char>::empty());
                assert(targets_stopped(*t, reader@, e@, start, start));
            }
            return Err(WorkError::Read(e));
        },
    };
    let ghost mut c = Choice {
        subscriptions: crate::read::subscriptions_view(subs@),
        own: Seq::empty(),
    };
    assert(c.subscriptions.len() == subs@.len());
    let uris: Vec<AtUri> = if subs.len() == 0 {
        out.push_str("no subscriptions — showing this repo's own publication(s):\n\n");
        let own = match list_publications(t, reader) {
            Ok(own) => own,
            Err(e) => {
                proof {
                    assert(c.subscriptions =~= Seq::empty());
                    assert(listing_failed(*t, reader@, e@, c.text()));
                    assert(targets_stopped(*t, reader@, e@, start, out@));
                }
                return Err(WorkError::Read(e));
            },
        };
        proof {
            c = Choice { own: publications_view(own@), ..c };
        }
        parse_own(&own)
    } else {
        let n = decimal_of(subs.len() as u64);
        out.push_str(n.as_str());
        out.push_str(" subscription(s):\n\n");
        parse_subscribed(&subs)
    };
    assert(is_choice(*t, reader@, c));
    assert(out@ =~= start + c.text());
    assert(targets_shown(*t, reader@, uris_view(uris@), start, out@));
    Ok(uris)
}

/// Publications were fetched, kept and printed.
spec fn publications_shown<T: Transport>(
    t: T,
    uris: Seq<SpecAtUri>,
    s: StoreState,
    after: StoreState,
    printed: Seq<char>,
    printed_after: Seq<char>,
) -> bool {
    exists|fs: Seq<Fetched>|
        {
            &&& #[trigger] are_fetched(t, uris, fs)
            &&& after == fetched_states(s, fs)
            &&& printed_after == printed + fetched_texts(fs)
        }
}

/// Fetching publications stopped short, as `e` says; what had come is kept and printed.
spec fn publications_halted<T: Transport, E>(
    t: T,
    uris: Seq<SpecAtUri>,
    s: StoreState,
    after: StoreState,
    printed: Seq<char>,
    printed_after: Seq<char>,
    e: WorkError<E>,
) -> bool {
    exists|fs: Seq<Fetched>, h: Halt|
        {
            &&& #[trigger] are_halted(t, uris, fs, h)
            &&& is_halt_error(h, e)
            &&& after == halt_state(fetched_states(s, fs), h)
            &&& printed_after == printed + fetched_texts(fs) + halt_text(h)
        }
}

/// Fetch publications one after the other.
fn fetch_all<T: Transport, S: Store>(
    t: &T,
    registry: &Registry,
    cache: &mut S,
    uris: &Vec<AtUri>,
    out: &mut String,
) -> (r: Result<(), WorkError<S::Error>>)
    ensures
        S::reliable() ==> cache_held(r),
        match r {
            Ok(_) => publications_shown(
                *t,
                uris_view(uris@),
                old(cache).state(),
                final(cache).state(),
                old(out)@,
                final(out)@,
            ),
            Err(WorkError::Store(_)) => old(out)@.is_prefix_of(final(out)@),
            Err(e) => publications_halted(
                *t,
                uris_view(uris@),
                old(cache).state(),
                final(cache).state(),
                old(out)@,
                final(out)@,
                e,
            ),
        },
{
    let ghost start = out@;
    let ghost before = cache.state();
    let ghost all = uris_view(uris@);
    let ghost mut fs: Seq<Fetched> = Seq::empty();
    let mut i: usize = 0;
    assert(start + fetched_texts(fs) =~= start);
    assert(all.len() == uris@.len());
    while i < uris.len()
        invariant
            i <= uris@.len(),
            start == old(out)@,
            before == old(cache).state(),
            all == uris_view(uris@),
            all.len() == uris@.len(),
            fs.len() == i,
            forall|k: int| 0 <= k < i ==> is_fetched(*t, all[k], #[trigger] fs[k]),
            out@ == start + fetched_texts(fs),
            cache.state() == fetched_states(before, fs),
        decreases uris@.len() - i,
    {
        let ghost at = out@;
        let ghost held = cache.state();
        let done = fetch_publication(t, registry, cache, &uris[i], out);
        assert(all[i as int] == uris@[i as int]@);
        match done {
            Ok(_) => {},
            Err(e) => {
                proof {
                    if !(e is Store) {
                        let h = choose|h: Halt|
                            {
                                &&& #[trigger] is_halt(*t, uris@[i as int]@, h)
                                &&& is_halt_error(h, e)
                                &&& cache.state() == halt_state(held, h)
                                &&& out@ == at + halt_text(h)
                            };
                        assert(are_halted(*t, all, fs, h));
                        assert(publications_halted(
                            *t,
                            all,
                            before,
                            cache.state(),
                            start,
                            out@,
                            e,
                        ));
                    } else {
                        lemma_prefix(start, fetched_texts(fs));
                        lemma_prefix_of_prefix(start, at, out@);
                    }
                }
                return Err(e);
            },
        }
        proof {
            let f = choose|f: Fetched|
                {
                    &&& #[trigger] is_fetched(*t, uris@[i as int]@, f)
                    &&& cache.state() == fetched_state(held, f)
                    &&& out@ == at + fetched_text(f)
                };
            let more = fs.push(f);
            assert(more.drop_last() =~= fs);
            assert(out@ =~= start + fetched_texts(more));
            fs = more;
        }
        i = i + 1;
    }
    assert(are_fetched(*t, all, fs));
    assert(publications_shown(*t, all, before, cache.state(), start, out@));
    Ok(())
}

/// A repository was resolved, and the publications that it has to show were fetched, kept
/// and printed.
pub open spec fn repository_shown<T: Transport>(
    t: T,
    target: Seq<char>,
    s: StoreState,
    after: StoreState,
    printed: Seq<char>,
    printed_after: Seq<char>,
) -> bool {
    exists|who: SpecIdentity, c: Choice, fs: Seq<Fetched>|
        {
            &&& #[trigger] all_fetched(t, target, who, c, fs)
            &&& after == fetched_states(s, fs)
            &&& printed_after == printed + resolved_text(target, who) + c.text() + fetched_texts(fs)
        }
}

/// Fetching a repository stopped short, as `e` says; what had come is kept and printed.
pub open spec fn repository_stopped<T: Transport, E>(
    t: T,
    target: Seq<char>,
    s: StoreState,
    after: StoreState,
    printed: Seq<char>,
    printed_after: Seq<char>,
    e: WorkError<E>,
) -> bool {
    exists|x: Stop|
        {
            &&& #[trigger] is_stop(t, target, x)
            &&& is_stop_error(x, e)
            &&& after == stop_state(s, x)
            &&& printed_after == printed + stop_text(target, x)
        }
}

fn push_resolved(target: &str, who: &Identity, out: &mut String)
    ensures
        final(out)@ == old(out)@ + resolved_text(target@, who@),
{
    let ghost start = out@;
    out.push_str("resolved ");
    out.push_str(target);
    out.push_str("\n  did: ");
    out.push_str(who.did.as_str());
    out.push_str("\n  pds: ");
    out.push_str(who.pds.as_str());
    out.push_str("\n\n");
    assert(out@ =~= start + resolved_text(target@, who@));
}

/// Resolve a repository, fetch the publications it subscribes to, or its own, into the
/// cache, and print what came. What was printed before an error stays printed.
pub fn run_fetch<T: Transport, S: Store>(
    t: &T,
    registry: &Registry,
    cache: &mut S,
    target: &str,
    out: &mut String,
) -> (r: Result<(), WorkError<S::Error>>)
    ensures
        S::reliable() ==> cache_held(r),
        match r {
            Ok(_) => repository_shown(
                *t,
                target@,
                old(cache).state(),
                final(cache).state(),
                old(out)@,
                final(out)@,
            ),
            Err(WorkError::Store(_)) => old(out)@.is_prefix_of(final(out)@),
            Err(e) => repository_stopped(
                *t,
                target@,
                old(cache).state(),
                final(cache).state(),
                old(out)@,
                final(out)@,
                e,
            ),
        },
{
    let ghost start = out@;
    let ghost held = cache.state();
    let reader = match resolve_identity(t, target) {
        Ok(who) => who,
        Err(e) => {
            let r = WorkError::Read(e);
            proof {
                let x = Stop::Unresolved(e@);
                assert(is_stop(*t, target@, x));
                assert(start =~= start + stop_text(target@, x));
                assert(repository_stopped(*t, target@, held, held, start, start, r));
            }
            return Err(r);
        },
    };
    let ghost who = reader@;
    assert(identity_resolved(*t, target@, Ok(who)));
    push_resolved(target, &reader, out);
    let ghost first = out@;
    let listing: Result<Vec<AtUri>, WorkError<S::Error>> = fetch_targets(t, &reader, out);
    let uris = match listing {
        Ok(uris) => uris,
        Err(e) => {
            proof {
                let why = e->Read_0@;
                let printed = choose|printed: Seq<char>|
                    {
                        &&& #[trigger] listing_failed(*t, who, why, printed)
                        &&& out@ == first + printed
                    };
                let x = Stop::Unlisted { who, why, printed };
                lemma_texts_join(
                    start,
                    resolved_text(target@, who),
                    printed,
                    Seq::empty(),
                    Seq::empty(),
                );
                assert(is_stop(*t, target@, x));
                assert(repository_stopped(*t, target@, held, held, start, out@, e));
            }
            return Err(e);
        },
    };
    let ghost second = out@;
    let ghost c = choose|c: Choice|
        {
            &&& #[trigger] is_choice(*t, who, c)
            &&& uris_view(uris@) == c.targets()
            &&& second == first + c.text()
        };
    let done = fetch_all(t, registry, cache, &uris, out);
    match done {
        Ok(_) => {},
        Err(e) => {
            proof {
                if !(e is Store) {
                    let (fs, h) = choose|fs: Seq<Fetched>, h: Halt|
                        {
                            &&& #[trigger] are_halted(*t, uris_view(uris@), fs, h)
                            &&& is_halt_error(h, e)
                            &&& cache.state() == halt_state(fetched_states(held, fs), h)
                            &&& out@ == second + fetched_texts(fs) + halt_text(h)
                        };
                    let x = Stop::Halted { who, c, fs, h };
                    lemma_texts_join(
                        start,
                        resolved_text(target@, who),
                        c.text(),
                        fetched_texts(fs),
                        halt_text(h),
                    );
                    assert(is_stop(*t, target@, x));
                    assert(repository_stopped(
                        *t,
                        target@,
                        held,
                        cache.state(),
                        start,
                        out@,
                        e,
                    ));
                } else {
                    lemma_prefix(start, resolved_text(target@, who));
                    lemma_prefix(first, c.text());
                    lemma_prefix_of_prefix(start, first, second);
                    lemma_prefix_of_prefix(start, second, out@);
                }
            }
            return Err(e);
        },
    }
    proof {
        let fs = choose|fs: Seq<Fetched>|
            {
                &&& #[trigger] are_fetched(*t, uris_view(uris@), fs)
                &&& cache.state() == fetched_states(held, fs)
                &&& out@ == second + fetched_texts(fs)
            };
        assert(all_fetched(*t, target@, who, c, fs));
        assert(repository_shown(*t, target@, held, cache.state(), start, out@));
    }
    Ok(())
}

// --- The cache --------------------------------------------------------------------

/// What is printed for a publication that the cache holds: its documents and, whole, the
/// first whose body is at hand.
pub open spec fn cached_text(
    p: SpecPublication,
    docs: Seq<SpecDocument>,
    reading: Option<SpecRead>,
) -> Seq<char> {
    heading(p) + "   "@ + decimal(docs.len()) + " document(s)\n"@ + bullets(docs) + (match reading {
        Some((meta, body)) => reading_text(meta.title, body),
        None => Seq::empty(),
    }) + "\n"@
}

/// A document and the body that the cache holds of it.
pub open spec fn is_held(s: StoreState, uri: Seq<char>, read: SpecRead) -> bool {
    &&& s.documents.dom().contains(uri)
    &&& s.documents[uri].meta == read.0
    &&& s.documents[uri].body == Some(read.1)
}

/// The first of some documents whose body the cache holds.
pub open spec fn first_held(s: StoreState, docs: Seq<SpecDocument>) -> Option<SpecRead>
    decreases docs.len(),
{
    if docs.len() == 0 {
        None
    } else {
        match first_held(s, docs.drop_last()) {
            Some(read) => Some(read),
            None => match lookup(s.documents, docs.last().uri) {
                Some(d) => match d.body {
                    Some(body) => Some((d.meta, body)),
                    None => None,
                },
                None => None,
            },
        }
    }
}

/// `docs` are a publication's documents, newest first, and `reading` is the first of them
/// with a body; where the cache can fail, it may be a later one or none.
pub open spec fn is_section<S: Store>(
    cache: S,
    p: SpecPublication,
    docs: Seq<SpecDocument>,
    reading: Option<SpecRead>,
) -> bool {
    let s = cache.state();
    &&& newest_first(docs)
    &&& are_documents(s, s.of_publication(p.uri), docs)
    &&& S::reliable() ==> reading == first_held(s, docs)
    &&& reading matches Some(read) ==> exists|i: int|
        0 <= i < docs.len() && is_held(s, (#[trigger] docs[i]).uri, read)
}

/// `text` is what is printed for a publication.
pub open spec fn is_cached_text<S: Store>(cache: S, p: SpecPublication, text: Seq<char>) -> bool {
    exists|docs: Seq<SpecDocument>, reading: Option<SpecRead>|
        #[trigger] is_section(cache, p, docs, reading) && text == cached_text(p, docs, reading)
}

proof fn lemma_first_held_stays(s: StoreState, docs: Seq<SpecDocument>, n: int)
    requires
        0 <= n <= docs.len(),
        first_held(s, docs.take(n)) is Some,
    ensures
        first_held(s, docs) == first_held(s, docs.take(n)),
    decreases docs.len() - n,
{
    if n < docs.len() {
        assert(docs.take(n + 1).drop_last() =~= docs.take(n));
        lemma_first_held_stays(s, docs, n + 1);
    } else {
        assert(docs.take(n) =~= docs);
    }
}

/// The first document whose body the cache hands out. One that the cache fails on is
/// passed over.
fn first_body<S: Store>(cache: &S, docs: &Vec<Document>) -> (r: Option<(Document, RichDoc)>)
    ensures
        S::reliable() ==> (match r {
            Some((meta, body)) => Some((meta@, body@)),
            None => None,
        }) == first_held(cache.state(), documents_view(docs@)),
        r matches Some((meta, body)) ==> exists|i: int|
            0 <= i < docs@.len() && is_held(
                cache.state(),
                documents_view(docs@)[i].uri,
                (meta@, body@),
            ),
{
    let ghost all = documents_view(docs@);
    let mut i: usize = 0;
    assert(all.take(0).len() == 0);
    assert(all.len() == docs@.len());
    while i < docs.len()
        invariant
            i <= docs@.len(),
            all == documents_view(docs@),
            all.len() == docs@.len(),
            S::reliable() ==> first_held(cache.state(), all.take(i as int)) is None,
        decreases docs@.len() - i,
    {
        assert(documents_view(docs@)[i as int] == docs@[i as int]@);
        assert(all.take(i + 1).drop_last() =~= all.take(i as int));
        assert(all.take(i + 1).last() == docs@[i as int]@);
        match cache.document(docs[i].uri.as_str()) {
            Ok(Some(stored)) => {
                assert(lookup(cache.state().documents, docs@[i as int].uri@) == Some(stored@));
                match stored.body {
                    Some(body) => {
                        let meta = stored.meta;
                        assert(is_held(
                            cache.state(),
                            documents_view(docs@)[i as int].uri,
                            (meta@, body@),
                        ));
                        proof {
                            if S::reliable() {
                                lemma_first_held_stays(cache.state(), all, i + 1);
                            }
                        }
                        return Some((meta, body));
                    },
                    None => {},
                }
            },
            _ => {},
        }
        i = i + 1;
    }
    assert(all.take(all.len() as int) =~= all);
    None
}

/// Print a publication that the cache holds.
pub fn print_cached<S: Store>(cache: &S, p: &Publication, out: &mut String) -> (r: Result<
    (),
    S::Error,
>)
    ensures
        old(out)@.is_prefix_of(final(out)@),
        S::reliable() ==> r is Ok,
        r is Ok ==> exists|text: Seq<char>|
            #[trigger] is_cached_text(*cache, p@, text) && final(out)@ == old(out)@ + text,
{
    let ghost start = out@;
    push_heading(p, out);
    let docs = match cache.documents_for(p.uri.as_str()) {
        Ok(docs) => docs,
        Err(e) => return Err(e),
    };
    let ghost all = documents_view(docs@);
    assert(all.len() == docs@.len());
    let n = decimal_of(docs.len() as u64);
    out.push_str("   ");
    out.push_str(n.as_str());
    out.push_str(" document(s)\n");
    push_bullets(&docs, out);
    let ghost mut reading: Option<SpecRead> = None;
    if let Some((meta, body)) = first_body(cache, &docs) {
        push_reading(meta.title.as_str(), &body, out);
        proof {
            reading = Some((meta@, body@));
            let i = choose|i: int|
                0 <= i < docs@.len() && is_held(
                    cache.state(),
                    documents_view(docs@)[i].uri,
                    (meta@, body@),
                );
            assert(is_held(cache.state(), all[i].uri, reading->0));
        }
    }
    out.push_str("\n");
    proof {
        let text = cached_text(p@, all, reading);
        assert(out@ =~= start + text);
        assert(is_section(*cache, p@, all, reading));
        assert(is_cached_text(*cache, p@, text));
    }
    Ok(())
}

/// Texts one after the other.
pub open spec fn all_texts(texts: Seq<Seq<char>>) -> Seq<char>
    decreases texts.len(),
{
    if texts.len() == 0 {
        Seq::empty()
    } else {
        all_texts(texts.drop_last()) + texts.last()
    }
}

/// `texts` are what is printed for publications.
pub open spec fn are_cached_texts<S: Store>(
    cache: S,
    ps: Seq<SpecPublication>,
    texts: Seq<Seq<char>>,
) -> bool {
    &&& texts.len() == ps.len()
    &&& forall|i: int| 0 <= i < ps.len() ==> is_cached_text(cache, ps[i], #[trigger] texts[i])
}

/// Print what the cache holds of some publications; `place` says where it lies. Without
/// publications, say how to get some.
pub fn run_cached<S: Store>(
    cache: &S,
    publications: &Vec<Publication>,
    place: &str,
    out: &mut String,
) -> (r: Result<(), S::Error>)
    ensures
        old(out)@.is_prefix_of(final(out)@),
        S::reliable() ==> r is Ok,
        publications@.len() == 0 ==> r is Ok && final(out)@ == old(out)@
            + "cache is empty — run `sr fetch <handle|did>` first.\n"@,
        publications@.len() > 0 && r is Ok ==> exists|texts: Seq<Seq<char>>|
            #[trigger] are_cached_texts(
                *cache,
                publications_view(publications@),
                texts,
            ) && final(out)@ == old(out)@ + "cache: "@ + place@ + "\n\n"@ + all_texts(texts),
{
    let ghost start = out@;
    if publications.len() == 0 {
        out.push_str("cache is empty — run `sr fetch <handle|did>` first.\n");
        return Ok(());
    }
    out.push_str("cache: ");
    out.push_str(place);
    out.push_str("\n\n");
    let ghost intro = out@;
    let ghost all = publications_view(publications@);
    let ghost mut texts: Seq<Seq<char>> = Seq::empty();
    let mut i: usize = 0;
    assert(all.len() == publications@.len());
    assert(intro + all_texts(texts) =~= intro);
    while i < publications.len()
        invariant
            i <= publications@.len(),
            all == publications_view(publications@),
            all.len() == publications@.len(),
            start == old(out)@,
            start.is_prefix_of(intro),
            texts.len() == i,
            forall|k: int|
                0 <= k < i ==> is_cached_text(*cache, all[k], #[trigger] texts[k]),
            out@ == intro + all_texts(texts),
        decreases publications@.len() - i,
    {
        let ghost at = out@;
        let done = print_cached(cache, &publications[i], out);
        assert(start.is_prefix_of(out@)) by {
            assert(intro.is_prefix_of(at));
        }
        if done.is_err() {
            return done;
        }
        proof {
            let text = choose|text: Seq<char>|
                #[trigger] is_cached_text(*cache, publications@[i as int]@, text) && out@
                    == at + text;
            assert(all[i as int] == publications@[i as int]@);
            let more = texts.push(text);
            assert(more.drop_last() =~= texts);
            assert(out@ =~= intro + all_texts(more));
            texts = more;
        }
        i = i + 1;
    }
    assert(are_cached_texts(*cache, all, texts));
    Ok(())
}

} // verus!
