//! Following: what is followed, what is listed, and what an account brings along.
use vstd::prelude::*;

use crate::atp::Transport;
use crate::auth_provider::AuthProvider;
use crate::laws::feeds::{law_a_window_is_held, listed_last};
use crate::model::{SpecDocument, SpecPublication, SpecSubscription};
use crate::read::SpecIdentity;
use crate::store::{enumerates, lookup, FrontendStore, SpecStoredDoc, StoreState};
use crate::text::rfind_before;
use crate::worker::accounts::{all_marked, all_taken_in, blog_added};
use crate::worker::feeds::{watermarked, window_kept, with_documents};
use crate::worker::follows::Written;
use crate::worker::session::{
    all_imported, brought_together, imported, reconciled, remote_of, Import,
};
use crate::worker::tasks::{
    held_documents, held_publications, is_feed, is_found, is_home, WorkError, Worker,
};
use crate::worker::SpecEvent;

verus! {

// --- Lists ------------------------------------------------------------------------

/// A publication is followed, and held as it is.
pub open spec fn is_followed(s: StoreState, p: SpecPublication) -> bool {
    exists|uri: Seq<char>| #[trigger]
        s.follows.dom().contains(uri) && s.publications.dom().contains(uri) && s.publications[uri]
            == p
}

/// The feed list holds the followed publications that are known, and only those.
pub proof fn law_the_feed_list_is_what_is_followed(
    s: StoreState,
    feeds: Seq<SpecPublication>,
    unread: Seq<(Seq<char>, usize)>,
)
    requires
        is_home(s, SpecEvent::Feeds { feeds, unread }),
    ensures
        forall|uri: Seq<char>| #[trigger]
            s.follows.dom().contains(uri) && s.publications.dom().contains(uri) ==> feeds.contains(
                s.publications[uri],
            ),
        forall|i: int|
            0 <= i < feeds.len() ==> #[trigger] is_followed(s, feeds[i]),
        unread.len() == feeds.len(),
{
    let keys = choose|keys: Seq<Seq<char>>| #[trigger]
        enumerates(keys, s.follows.dom()) && feeds == held_publications(s, keys);
    assert forall|uri: Seq<char>| #[trigger]
        s.follows.dom().contains(uri) && s.publications.dom().contains(uri) implies feeds.contains(
        s.publications[uri],
    ) by {
        assert(keys.contains(uri));
        lemma_held_has(s, keys, uri);
    }
    assert forall|i: int| 0 <= i < feeds.len() implies #[trigger] is_followed(s, feeds[i]) by {
        lemma_held_from(s, keys, i);
        let uri = choose|uri: Seq<char>| #[trigger]
            keys.contains(uri) && s.publications.dom().contains(uri) && s.publications[uri]
                == feeds[i];
        assert(s.follows.dom().contains(uri));
    }
}

proof fn lemma_held_has(s: StoreState, keys: Seq<Seq<char>>, uri: Seq<char>)
    requires
        keys.contains(uri),
        s.publications.dom().contains(uri),
    ensures
        held_publications(s, keys).contains(s.publications[uri]),
    decreases keys.len(),
{
    let k = choose|k: int| 0 <= k < keys.len() && keys[k] == uri;
    let rest = keys.drop_last();
    let all = held_publications(s, keys);
    if k < rest.len() {
        assert(rest[k] == uri);
        lemma_held_has(s, rest, uri);
        let prior = held_publications(s, rest);
        let j = choose|j: int| 0 <= j < prior.len() && prior[j] == s.publications[uri];
        assert(all[j] == s.publications[uri]);
    } else {
        assert(all[all.len() - 1] == s.publications[uri]);
    }
}

proof fn lemma_held_from(s: StoreState, keys: Seq<Seq<char>>, i: int)
    requires
        0 <= i < held_publications(s, keys).len(),
    ensures
        exists|uri: Seq<char>| #[trigger]
            keys.contains(uri) && s.publications.dom().contains(uri) && s.publications[uri]
                == held_publications(s, keys)[i],
    decreases keys.len(),
{
    let rest = keys.drop_last();
    let prior = held_publications(s, rest);
    if i < prior.len() {
        lemma_held_from(s, rest, i);
        let uri = choose|uri: Seq<char>| #[trigger]
            rest.contains(uri) && s.publications.dom().contains(uri) && s.publications[uri]
                == prior[i];
        let k = choose|k: int| 0 <= k < rest.len() && rest[k] == uri;
        assert(keys[k] == uri);
        assert(keys.contains(uri));
    } else {
        assert(keys[keys.len() - 1] == keys.last());
        assert(keys.contains(keys.last()));
    }
}

/// The unread count of a feed is the number of its documents that were not read.
pub proof fn law_unread_posts_are_counted(
    s: StoreState,
    feeds: Seq<SpecPublication>,
    unread: Seq<(Seq<char>, usize)>,
    i: int,
)
    requires
        is_home(s, SpecEvent::Feeds { feeds, unread }),
        0 <= i < feeds.len(),
    ensures
        unread[i].0 == feeds[i].uri,
        exists|keys: Seq<Seq<char>>|
            {
                &&& keys.no_duplicates()
                &&& keys.len() == unread[i].1
                &&& forall|k: Seq<char>| #[trigger]
                    keys.contains(k) <==> s.documents.dom().contains(k)
                        && s.documents[k].meta.publication == feeds[i].uri && !s.documents[k].read
            },
{
    let set = s.of_publication_read(feeds[i].uri, false);
    assert(unread[i].0 == feeds[i].uri);
    let keys = choose|keys: Seq<Seq<char>>| #[trigger]
        enumerates(keys, set) && unread[i].1 as nat == keys.len();
    assert forall|k: Seq<char>| #[trigger] keys.contains(k) <==> s.documents.dom().contains(k)
        && s.documents[k].meta.publication == feeds[i].uri && !s.documents[k].read by {
        assert(set.contains(k) <==> s.documents.dom().contains(k)
            && s.documents[k].meta.publication == feeds[i].uri && s.documents[k].read == false);
    }
}

/// A feed lists the documents of its publication, each of them, and no other; which of them
/// were read is said of each.
pub proof fn law_a_feed_lists_its_posts(
    s: StoreState,
    publication: Seq<char>,
    docs: Seq<SpecDocument>,
    read_uris: Seq<Seq<char>>,
    has_older: bool,
)
    requires
        s.keyed(),
        is_feed(s, publication, SpecEvent::Docs { publication, docs, read_uris, has_older }),
    ensures
        forall|uri: Seq<char>| #[trigger]
            s.documents.dom().contains(uri) && s.documents[uri].meta.publication == publication
                ==> docs.contains(s.documents[uri].meta) && (read_uris.contains(uri)
                == s.documents[uri].read),
        forall|i: int|
            0 <= i < docs.len() ==> {
                &&& (#[trigger] docs[i]).publication == publication
                &&& s.documents.dom().contains(docs[i].uri)
                &&& s.documents[docs[i].uri].meta == docs[i]
            },
{
    let set = s.of_publication(publication);
    let keys = choose|keys: Seq<Seq<char>>|
        {
            &&& #[trigger] enumerates(keys, set)
            &&& docs.len() == keys.len()
            &&& forall|i: int|
                0 <= i < docs.len() ==> #[trigger] docs[i] == s.documents[keys[i]].meta
        };
    let read = s.of_publication_read(publication, true);
    let rkeys = choose|keys: Seq<Seq<char>>|
        {
            &&& #[trigger] enumerates(keys, read)
            &&& read_uris.len() == keys.len()
            &&& forall|i: int|
                0 <= i < read_uris.len() ==> #[trigger] read_uris[i]
                    == s.documents[keys[i]].meta.uri
        };
    assert forall|uri: Seq<char>| #[trigger]
        s.documents.dom().contains(uri) && s.documents[uri].meta.publication
            == publication implies docs.contains(s.documents[uri].meta) && (read_uris.contains(uri)
        == s.documents[uri].read) by {
        assert(set.contains(uri));
        assert(keys.contains(uri));
        let k = choose|k: int| 0 <= k < keys.len() && keys[k] == uri;
        assert(docs[k] == s.documents[uri].meta);
        if s.documents[uri].read {
            assert(read.contains(uri));
            assert(rkeys.contains(uri));
            let r = choose|r: int| 0 <= r < rkeys.len() && rkeys[r] == uri;
            assert(read_uris[r] == uri);
        }
        if read_uris.contains(uri) {
            let r = choose|r: int| 0 <= r < read_uris.len() && read_uris[r] == uri;
            assert(rkeys.contains(rkeys[r]));
            assert(read.contains(rkeys[r]));
            assert(s.documents[rkeys[r]].meta.uri == rkeys[r]);
        }
    }
    assert forall|i: int| 0 <= i < docs.len() implies {
        &&& (#[trigger] docs[i]).publication == publication
        &&& s.documents.dom().contains(docs[i].uri)
        &&& s.documents[docs[i].uri].meta == docs[i]
    } by {
        assert(keys.contains(keys[i]));
        assert(set.contains(keys[i]));
        assert(s.documents[keys[i]].meta.uri == keys[i]);
    }
}

/// A document is held and found by a query.
pub open spec fn is_match(s: StoreState, query: Seq<char>, d: SpecDocument) -> bool {
    exists|uri: Seq<char>| #[trigger]
        s.documents.dom().contains(uri) && s.found(query).contains(uri) && s.documents[uri].meta
            == d
}

/// A search lists the documents whose text has every word of the query, each once, and no
/// other.
pub proof fn law_a_search_lists_what_matches(
    s: StoreState,
    query: Seq<char>,
    docs: Seq<SpecDocument>,
)
    requires
        is_found(s, query, SpecEvent::Results(docs)),
    ensures
        forall|uri: Seq<char>| #[trigger]
            s.documents.dom().contains(uri) && s.found(query).contains(uri) ==> docs.contains(
                s.documents[uri].meta,
            ),
        forall|i: int|
            0 <= i < docs.len() ==> #[trigger] is_match(s, query, docs[i]),
{
    let keys = choose|keys: Seq<Seq<char>>| #[trigger]
        enumerates(keys, s.found(query)) && docs == held_documents(s, keys);
    assert forall|uri: Seq<char>| #[trigger]
        s.documents.dom().contains(uri) && s.found(query).contains(uri) implies docs.contains(
        s.documents[uri].meta,
    ) by {
        assert(keys.contains(uri));
        lemma_docs_has(s, keys, uri);
    }
    assert forall|i: int| 0 <= i < docs.len() implies #[trigger] is_match(s, query, docs[i]) by {
        lemma_docs_from(s, keys, i);
        let uri = choose|uri: Seq<char>| #[trigger]
            keys.contains(uri) && s.documents.dom().contains(uri) && s.documents[uri].meta
                == docs[i];
        assert(s.documents.dom().contains(uri));
    }
}

proof fn lemma_docs_has(s: StoreState, keys: Seq<Seq<char>>, uri: Seq<char>)
    requires
        keys.contains(uri),
        s.documents.dom().contains(uri),
    ensures
        held_documents(s, keys).contains(s.documents[uri].meta),
    decreases keys.len(),
{
    let k = choose|k: int| 0 <= k < keys.len() && keys[k] == uri;
    let rest = keys.drop_last();
    let all = held_documents(s, keys);
    if k < rest.len() {
        assert(rest[k] == uri);
        lemma_docs_has(s, rest, uri);
        let prior = held_documents(s, rest);
        let j = choose|j: int| 0 <= j < prior.len() && prior[j] == s.documents[uri].meta;
        assert(all[j] == s.documents[uri].meta);
    } else {
        assert(all[all.len() - 1] == s.documents[uri].meta);
    }
}

proof fn lemma_docs_from(s: StoreState, keys: Seq<Seq<char>>, i: int)
    requires
        0 <= i < held_documents(s, keys).len(),
    ensures
        exists|uri: Seq<char>| #[trigger]
            keys.contains(uri) && s.documents.dom().contains(uri) && s.documents[uri].meta
                == held_documents(s, keys)[i],
    decreases keys.len(),
{
    let rest = keys.drop_last();
    let prior = held_documents(s, rest);
    if i < prior.len() {
        lemma_docs_from(s, rest, i);
        let uri = choose|uri: Seq<char>| #[trigger]
            rest.contains(uri) && s.documents.dom().contains(uri) && s.documents[uri].meta
                == prior[i];
        let k = choose|k: int| 0 <= k < rest.len() && rest[k] == uri;
        assert(keys[k] == uri);
        assert(keys.contains(uri));
    } else {
        assert(keys[keys.len() - 1] == keys.last());
        assert(keys.contains(keys.last()));
    }
}

// --- Keeping ----------------------------------------------------------------------

/// Nothing that was held is gone, and no body or mark is lost.
pub open spec fn keeps_reading(s: StoreState, after: StoreState) -> bool {
    &&& forall|uri: Seq<char>| #[trigger]
        s.documents.dom().contains(uri) ==> {
            &&& after.documents.dom().contains(uri)
            &&& after.documents[uri].body == s.documents[uri].body
            &&& after.documents[uri].read == s.documents[uri].read
        }
    &&& forall|uri: Seq<char>| #[trigger]
        s.publications.dom().contains(uri) ==> after.publications.dom().contains(uri)
    &&& after.blobs == s.blobs
    &&& after.show_images == s.show_images
}

proof fn lemma_keeps_documents(s: StoreState, docs: Seq<SpecDocument>)
    ensures
        keeps_reading(s, with_documents(s, docs)),
        with_documents(s, docs).follows == s.follows,
        with_documents(s, docs).publications == s.publications,
    decreases docs.len(),
{
    if docs.len() > 0 {
        lemma_keeps_documents(s, docs.drop_last());
    }
}

proof fn lemma_keeps_import(s: StoreState, publication: Seq<char>, i: Import)
    ensures
        keeps_reading(s, imported(s, publication, i)),
        imported(s, publication, i).follows == s.follows,
{
    if let Import::Kept { found, page } = i {
        lemma_keeps_documents(s.with_publication(found.0), page.0);
    }
}

proof fn lemma_keeps_imports(
    s: StoreState,
    entries: Seq<(Seq<char>, Seq<char>)>,
    imports: Seq<Import>,
)
    ensures
        keeps_reading(s, all_imported(s, entries, imports)),
    decreases entries.len(),
{
    if entries.len() > 0 {
        lemma_keeps_imports(s, entries.drop_last(), imports.drop_last());
        let before = all_imported(s, entries.drop_last(), imports.drop_last());
        lemma_keeps_import(before, entries.last().0, imports.last());
    }
}

// --- An account's subscriptions ---------------------------------------------------

/// The key of a subscription is the last part of its record's URI; the last record of a
/// publication counts.
pub proof fn law_subscriptions_are_keyed(
    subs: Seq<SpecSubscription>,
    i: int,
    collection: Seq<char>,
    rkey: Seq<char>,
)
    requires
        0 <= i < subs.len(),
        forall|j: int| i < j < subs.len() ==> (#[trigger] subs[j]).publication
            != subs[i].publication,
        subs[i].uri == collection + seq!['/'] + rkey,
        !rkey.contains('/'),
    ensures
        lookup(remote_of(subs), subs[i].publication) == Some(rkey),
    decreases subs.len(),
{
    let keyed = crate::worker::session::keyed_subscriptions(subs);
    let uri = subs[i].uri;
    assert forall|j: int| collection.len() < j < uri.len() implies uri[j] != '/' by {
        assert(uri[j] == rkey[j - collection.len() - 1]);
    }
    lemma_rfind(uri, collection.len() as int, uri.len() as int);
    assert(uri.subrange(collection.len() as int + 1, uri.len() as int) =~= rkey);
    assert(keyed[i] == (subs[i].publication, rkey));
    assert forall|j: int| i < j < keyed.len() implies (#[trigger] keyed[j]).0 != keyed[i].0 by {
        assert(subs[j].publication != subs[i].publication);
    }
    lemma_last_pair(keyed, i);
}

proof fn lemma_rfind(s: Seq<char>, at: int, end: int)
    requires
        0 <= at < end <= s.len(),
        s[at] == '/',
        forall|i: int| at < i < end ==> s[i] != '/',
    ensures
        rfind_before(s, end, '/') == Some(at),
    decreases end,
{
    if end - 1 > at {
        lemma_rfind(s, at, end - 1);
    }
}

proof fn lemma_last_pair(s: Seq<(Seq<char>, Seq<char>)>, i: int)
    requires
        0 <= i < s.len(),
        forall|j: int| i < j < s.len() ==> (#[trigger] s[j]).0 != s[i].0,
    ensures
        crate::memstore::pairs_map(s).dom().contains(s[i].0),
        crate::memstore::pairs_map(s)[s[i].0] == s[i].1,
    decreases s.len(),
{
    if i < s.len() - 1 {
        let t = s.drop_last();
        assert(s[s.len() - 1].0 != s[i].0);
        assert forall|j: int| i < j < t.len() implies (#[trigger] t[j]).0 != t[i].0 by {
            assert(s[j].0 != s[i].0);
        }
        lemma_last_pair(t, i);
    }
}

/// The follows that an account lacks.
pub open spec fn account_lacks(
    s: StoreState,
    remote: Map<Seq<char>, Seq<char>>,
    uri: Seq<char>,
) -> bool {
    s.follows.dom().contains(uri) && !remote.dom().contains(uri)
}

/// Bringing follows together with an account's subscriptions unfollows nothing and forgets
/// nothing: what either had is followed afterwards, a subscription under its record's key.
pub proof fn law_nothing_is_unfollowed<T: Transport>(
    t: T,
    s: StoreState,
    after: StoreState,
    said: Seq<SpecEvent>,
    said_after: Seq<SpecEvent>,
    remote: Map<Seq<char>, Seq<char>>,
    uri: Seq<char>,
)
    requires
        brought_together(t, s, after, said, said_after, remote),
    ensures
        after.follows.dom().contains(uri) <==> s.follows.dom().contains(uri)
            || remote.dom().contains(uri),
        remote.dom().contains(uri) ==> after.follows[uri] == remote[uri],
        account_lacks(s, remote, uri) ==> after.follows[uri] == s.follows[uri],
        keeps_reading(s, after),
{
    let (uris, entries, imports) = choose|
        uris: Seq<Seq<char>>,
        entries: Seq<(Seq<char>, Seq<char>)>,
        imports: Seq<Import>,
    | #[trigger]
        reconciled(s, after, said, said_after, remote, uris, entries, imports)
            && crate::worker::session::are_imports(t, entries, imports);
    lemma_keeps_imports(s, entries, imports);
}

/// A publication is among those asked about.
pub open spec fn is_asked_about(local_only: Seq<(Seq<char>, Seq<char>)>, uri: Seq<char>) -> bool {
    exists|i: int| 0 <= i < local_only.len() && (#[trigger] local_only[i]).0 == uri
}

/// After that the feed list is reported, and then what the account lacks is asked about: all
/// of it, nothing else, and only where there is any.
pub proof fn law_the_rest_is_asked_about<T: Transport>(
    t: T,
    s: StoreState,
    after: StoreState,
    said: Seq<SpecEvent>,
    said_after: Seq<SpecEvent>,
    remote: Map<Seq<char>, Seq<char>>,
    uri: Seq<char>,
)
    requires
        brought_together(t, s, after, said, said_after, remote),
    ensures
        account_lacks(s, remote, uri) ==> said_after.last() is SyncDiff && is_home(
            after,
            said_after[said_after.len() - 2],
        ),
        said_after.last() matches SpecEvent::SyncDiff { local_only } ==> is_asked_about(
            local_only,
            uri,
        ) == account_lacks(s, remote, uri),
        !(said_after.last() is SyncDiff) ==> is_home(after, said_after.last()),
{
    let (uris, entries, imports) = choose|
        uris: Seq<Seq<char>>,
        entries: Seq<(Seq<char>, Seq<char>)>,
        imports: Seq<Import>,
    | #[trigger]
        reconciled(s, after, said, said_after, remote, uris, entries, imports)
            && crate::worker::session::are_imports(t, entries, imports);
    assert(uris.contains(uri) <==> account_lacks(s, remote, uri));
    let local_only = crate::worker::session::named(after.publications, uris);
    if uris.len() > 0 {
        assert(said_after.last() == SpecEvent::SyncDiff { local_only });
        if uris.contains(uri) {
            let i = choose|i: int| 0 <= i < uris.len() && uris[i] == uri;
            assert(local_only[i].0 == uri);
        }
        if is_asked_about(local_only, uri) {
            let i = choose|i: int|
                0 <= i < local_only.len() && (#[trigger] local_only[i]).0 == uri;
            assert(uris[i] == uri);
        }
        assert(is_asked_about(local_only, uri) == account_lacks(s, remote, uri));
    }
}

// --- Adding and dropping a blog ---------------------------------------------------

/// A blog that is added is followed and known, its newest documents are held, and nothing
/// that was there is gone; the feed list is reported last. Where an account is signed in and
/// the record of a new follow could be written, its key is noted.
pub proof fn law_a_blog_is_added<T: Transport>(
    t: T,
    id: SpecIdentity,
    p: SpecPublication,
    page: crate::read::SpecDocPage,
    written: Seq<Written>,
    s: StoreState,
    after: StoreState,
    said: Seq<SpecEvent>,
    said_after: Seq<SpecEvent>,
    target: Seq<char>,
    i: int,
)
    requires
        blog_added(t, id, seq![p], page, written, s, after, said, said_after, target),
        written.len() == 1,
        s.follows.dom().contains(p.uri) ==> written[0] is None,
    ensures
        after.follows.dom().contains(p.uri),
        after.publications.dom().contains(p.uri) && after.publications[p.uri] == p,
        forall|uri: Seq<char>| #[trigger]
            s.follows.dom().contains(uri) ==> after.follows.dom().contains(uri)
                && after.follows[uri] == s.follows[uri],
        forall|uri: Seq<char>| #[trigger]
            after.follows.dom().contains(uri) ==> s.follows.dom().contains(uri) || uri == p.uri,
        0 <= i < page.0.len() ==> after.documents.dom().contains(page.0[i].uri),
        keeps_reading(s, after),
        is_home(after, said_after.last()),
        written[0] matches Some(Ok(rkey)) ==> after.follows[p.uri] == rkey,
{
    let pubs = seq![p];
    let mid = all_taken_in(s, pubs, written);
    assert(pubs.drop_last() =~= Seq::empty());
    assert(all_taken_in(s, pubs.drop_last(), written.drop_last()) == s);
    assert(mid == crate::worker::accounts::taken_in(s, p, written[0]));
    let kept = window_kept(mid, id.did, page);
    lemma_keeps_documents(mid, page.0);
    assert(all_marked(kept, pubs.drop_last(), page.0) == kept);
    assert(after == watermarked(kept, p.uri, page.0));
    if 0 <= i < page.0.len() {
        lemma_last(page.0, page.0[i].uri, i);
        let k = choose|k: int| listed_last(page.0, page.0[i].uri, k);
        law_a_window_is_held(mid, id.did, page, page.0[i].uri, k);
    }
}

proof fn lemma_last(docs: Seq<SpecDocument>, uri: Seq<char>, i: int)
    requires
        0 <= i < docs.len(),
        docs[i].uri == uri,
    ensures
        exists|k: int| listed_last(docs, uri, k),
    decreases docs.len() - i,
{
    if exists|j: int| i < j < docs.len() && (#[trigger] docs[j]).uri == uri {
        let j = choose|j: int| i < j < docs.len() && (#[trigger] docs[j]).uri == uri;
        lemma_last(docs, uri, j);
    } else {
        assert(listed_last(docs, uri, i));
    }
}

/// A blog that is unfollowed is followed no more; every other follow stays, and so does what
/// was read.
pub proof fn law_a_blog_is_dropped<T: Transport, S: FrontendStore, A: AuthProvider>(
    w: Worker<T, S, A>,
    after: Worker<T, S, A>,
    publication: Seq<char>,
)
    requires
        w.unfollowed(&after, publication, Ok::<(), WorkError<S::Error>>(())),
    ensures
        !after.state().follows.dom().contains(publication),
        forall|uri: Seq<char>|
            uri != publication ==> #[trigger] lookup(after.state().follows, uri) == lookup(
                w.state().follows,
                uri,
            ),
        after.state().documents == w.state().documents,
        after.state().publications == w.state().publications,
        is_home(after.state(), after.said().last()),
{
    reveal(Worker::unfollowed);
}

// --- Documents --------------------------------------------------------------------

/// A document that was fetched is held with the body that came, was read, and is reported
/// with that body; no other document is touched.
pub proof fn law_a_fetched_document_is_kept<T: Transport, S: FrontendStore, A: AuthProvider>(
    w: Worker<T, S, A>,
    after: Worker<T, S, A>,
    uri: Seq<char>,
)
    requires
        w.doc_fetched(&after, uri, Ok::<(), WorkError<S::Error>>(())),
    ensures
        after.said().len() == w.said().len() + 1,
        after.said().drop_last() == w.said(),
        after.said().last() matches SpecEvent::Doc { uri: u, body, from_cache, .. } && u == uri
            && !from_cache && exists|meta: SpecDocument| #[trigger]
            lookup(after.state().documents, meta.uri) matches Some(d) && d.meta == meta && d.body
                == Some(body) && (meta.uri == uri ==> d.read),
        after.state().follows == w.state().follows,
{
    reveal(Worker::doc_fetched);
    let read = choose|read: Result<crate::read::SpecRead, crate::read::SpecReadError>| #[trigger]
        crate::worker::docs::document_taken(
            w.transport,
            w.state(),
            after.state(),
            w.said(),
            after.said(),
            uri,
            read,
            Ok::<(), WorkError<S::Error>>(()),
        );
    let (meta, body) = read->Ok_0;
    assert(after.said().drop_last() =~= w.said());
    assert(lookup(after.state().documents, meta.uri) is Some);
}

/// A document whose body is held opens from the cache: it is reported with that body and
/// marked read, and nothing else changes.
pub proof fn law_a_held_document_opens<T: Transport, S: FrontendStore, A: AuthProvider>(
    w: Worker<T, S, A>,
    after: Worker<T, S, A>,
    uri: Seq<char>,
    held: SpecStoredDoc,
)
    requires
        lookup(w.state().documents, uri) == Some(held),
        held.body is Some,
        w.doc_opened(&after, uri, Ok::<(), WorkError<S::Error>>(())),
    ensures
        lookup(after.state().documents, uri) == Some(SpecStoredDoc { read: true, ..held }),
        forall|other: Seq<char>|
            other != uri ==> #[trigger] lookup(after.state().documents, other) == lookup(
                w.state().documents,
                other,
            ),
        after.said() == w.said().push(
            SpecEvent::Doc {
                uri,
                body: held.body->0,
                publishing_platform: held.meta.publishing_platform,
                from_cache: true,
            },
        ),
        after.state().follows == w.state().follows,
        after.state().publications == w.state().publications,
{
    reveal(Worker::doc_opened);
}

/// A follow that is new is written to the account of whoever is signed in, under their DID;
/// one that was there already is not written again, and without an account nothing is.
pub proof fn law_a_new_follow_is_mirrored<A: AuthProvider>(
    auth: A,
    who: Option<crate::account::SpecAccount>,
    s: StoreState,
    p: SpecPublication,
    written: Seq<Written>,
)
    requires
        crate::worker::accounts::all_mirrored(Some(auth), who, s, seq![p], written),
    ensures
        who is Some && !s.follows.dom().contains(p.uri) ==> (written[0] matches Some(reply)
            && auth.created(who->0.did, p.uri, reply)),
        s.follows.dom().contains(p.uri) || who is None ==> written[0] is None,
{
    let pubs = seq![p];
    assert(pubs.drop_last() =~= Seq::empty());
    assert(pubs.last() == p);
    assert(written.last() == written[0]);
    assert(crate::worker::accounts::all_taken_in(s, pubs.drop_last(), written.drop_last()) == s);
}

} // verus!
