//! Bringing the follows together with an account's subscriptions.
use vstd::prelude::*;

use crate::atp::{parsed_at_uri, AtUri, Transport};
use crate::auth_provider::AuthProvider;
use crate::memstore::{pairs_map, pairs_view, strings_map};
use crate::model::{documents_view, SpecDocument, SpecPublication, SpecSubscription, Subscription};
use crate::read::{
    get_publication, identity_resolved, identity_result, list_subscriptions, publication_fetched,
    publication_result, resolve_identity, subscriptions_listed, subscriptions_result,
    subscriptions_view, window_read, SpecDocPage, SpecIdentity, SpecReadError,
};
use crate::store::{enumerates, FrontendStore, Store, StoreState};
use crate::table::Table;
use crate::text::{after_last, join2, owned, strings_view};
use crate::url::rkey_from_uri;
use crate::worker::accounts::said_more;
use crate::worker::feeds::{
    taken_view, watermarked, window_kept, window_taken, with_documents, WINDOW_PAGES,
};
use crate::worker::sync::{
    diff_subscriptions, in_order, keys_of, law_diff_is_a_partition, lists_entries,
};
use crate::worker::tasks::{cache_held, is_home, WorkError, Worker};
use crate::worker::{FromWorker, SpecEvent};

verus! {

/// `text` says what an error is. How a cache describes its own is its affair.
pub open spec fn is_error_text<E>(e: WorkError<E>, text: Seq<char>) -> bool {
    match e {
        WorkError::Store(_) => true,
        WorkError::Read(e) => text == e@.described(),
        WorkError::Message(m) => text == m@,
    }
}

/// An error in words.
pub(crate) fn error_text<S: Store>(e: &WorkError<S::Error>) -> (r: String)
    ensures
        is_error_text(*e, r@),
{
    match e {
        WorkError::Store(e) => S::describe(e),
        WorkError::Read(e) => e.to_string(),
        WorkError::Message(m) => m.clone(),
    }
}

proof fn lemma_more_refl(a: Seq<SpecEvent>)
    ensures
        said_more(a, a),
{
    assert(a.take(a.len() as int) =~= a);
}

proof fn lemma_more_push(a: Seq<SpecEvent>, b: Seq<SpecEvent>, e: SpecEvent)
    requires
        said_more(a, b),
    ensures
        said_more(a, b.push(e)),
{
    assert(b.push(e).take(a.len() as int) =~= b.take(a.len() as int));
}

// --- Importing publications -------------------------------------------------------

/// What importing a publication came to, the cache aside.
pub enum Import {
    /// It and a window of its repository's newest documents were fetched.
    Kept { found: (SpecPublication, SpecIdentity), page: SpecDocPage },
    /// Its URI does not parse.
    Malformed,
    /// It could not be fetched.
    Unreached(SpecReadError),
    /// It was fetched, but its repository's documents could not be listed.
    Unlisted { found: (SpecPublication, SpecIdentity), why: SpecReadError },
}

/// A publication was imported so.
pub open spec fn is_import<T: Transport>(t: T, publication: Seq<char>, i: Import) -> bool {
    match parsed_at_uri(publication) {
        None => i is Malformed,
        Some(uri) => match i {
            Import::Malformed => false,
            Import::Unreached(e) => publication_fetched(
                t,
                uri,
                Err::<(SpecPublication, SpecIdentity), SpecReadError>(e),
            ),
            Import::Unlisted { found, why } => publication_fetched(t, uri, Ok(found))
                && window_read(
                t,
                found.1,
                None,
                WINDOW_PAGES,
                Err::<SpecDocPage, SpecReadError>(why),
            ),
            Import::Kept { found, page } => publication_fetched(t, uri, Ok(found))
                && window_read(
                t,
                found.1,
                None,
                WINDOW_PAGES,
                Ok::<SpecDocPage, SpecReadError>(page),
            ),
        },
    }
}

/// What the cache holds after an import.
pub open spec fn imported(s: StoreState, publication: Seq<char>, i: Import) -> StoreState {
    match i {
        Import::Kept { found, page } => watermarked(
            window_kept(s.with_publication(found.0), found.1.did, page),
            publication,
            page.0,
        ),
        Import::Unlisted { found, .. } => s.with_publication(found.0),
        _ => s,
    }
}

/// Why an import failed, in words; `None` if it did not.
pub open spec fn import_failure(i: Import) -> Option<Seq<char>> {
    match i {
        Import::Kept { .. } => None,
        Import::Malformed => Some("malformed publication AT-URI"@),
        Import::Unreached(e) => Some(e.described()),
        Import::Unlisted { why, .. } => Some(why.described()),
    }
}

/// A result of an import, the cache aside.
pub open spec fn is_import_result<E>(i: Import, r: Result<(), WorkError<E>>) -> bool {
    match r {
        Ok(_) => i is Kept,
        Err(WorkError::Store(_)) => false,
        Err(WorkError::Read(e)) => match i {
            Import::Unreached(f) => f == e@,
            Import::Unlisted { why, .. } => why == e@,
            _ => false,
        },
        Err(WorkError::Message(m)) => i is Malformed && m@ == "malformed publication AT-URI"@,
    }
}

pub(crate) proof fn lemma_with_documents_frame(s: StoreState, docs: Seq<SpecDocument>)
    ensures
        ({
            let t = with_documents(s, docs);
            &&& t.follows == s.follows
            &&& t.blobs == s.blobs
            &&& t.show_images == s.show_images
            &&& t.publications == s.publications
        }),
    decreases docs.len(),
{
    if docs.len() > 0 {
        lemma_with_documents_frame(s, docs.drop_last());
    }
}

/// Nothing but publications, documents and how far they were fetched differ.
pub open spec fn only_documents_differ(s: StoreState, after: StoreState) -> bool {
    &&& after.follows == s.follows
    &&& after.blobs == s.blobs
    &&& after.show_images == s.show_images
}

impl<T: Transport, S: FrontendStore, A: AuthProvider> Worker<T, S, A> {
    /// Fetch a publication and its repository's newest documents into the cache.
    pub(crate) fn cache_publication(&mut self, pub_uri: &str) -> (r: Result<
        (),
        WorkError<S::Error>,
    >)
        ensures
            S::reliable() ==> cache_held(r),
            final(self).same_but_store(old(self)),
            cache_held(r) ==> exists|i: Import|
                {
                    &&& #[trigger] is_import(old(self).transport, pub_uri@, i)
                    &&& is_import_result(i, r)
                    &&& final(self).state() == imported(old(self).state(), pub_uri@, i)
                },
            cache_held(r) ==> only_documents_differ(old(self).state(), final(self).state()),
    {
        let ghost t = self.transport;
        let ghost s = self.state();
        let uri = match AtUri::parse(pub_uri) {
            Some(u) => u,
            None => {
                assert(is_import(t, pub_uri@, Import::Malformed));
                return Err(WorkError::Message(owned("malformed publication AT-URI")));
            },
        };
        let got = get_publication(&self.transport, &uri);
        let ghost f = publication_result(got);
        assert(publication_fetched(t, uri@, f));
        let (publication, repo) = match got {
            Ok(p) => p,
            Err(e) => {
                assert(is_import(t, pub_uri@, Import::Unreached(e@)));
                return Err(WorkError::Read(e));
            },
        };
        let ghost found = (publication@, repo@);
        match self.store.upsert_publication(&publication) {
            Ok(_) => {},
            Err(e) => return Err(WorkError::Store(e)),
        }
        let ghost known = self.state();
        let got = self.take_window(&repo, None);
        let ghost page = choose|page: Result<SpecDocPage, SpecReadError>|
            {
                &&& #[trigger] window_read(t, repo@, None, WINDOW_PAGES, page)
                &&& window_taken(known, self.state(), repo@.did, page, taken_view(got))
            };
        let docs = match got {
            Ok(d) => d,
            Err(e) => {
                proof {
                    if page is Err {
                        assert(is_import(
                            t,
                            pub_uri@,
                            Import::Unlisted { found, why: page->Err_0 },
                        ));
                    }
                }
                return Err(e);
            },
        };
        match self.record_watermark(pub_uri, &docs) {
            Ok(_) => {},
            Err(e) => return Err(e),
        }
        proof {
            lemma_with_documents_frame(s.with_publication(publication@), documents_view(docs@));
            assert(is_import(t, pub_uri@, Import::Kept { found, page: page->Ok_0 }));
        }
        Ok(())
    }
}

// --- Reconciling ------------------------------------------------------------------

/// Subscriptions as publication and record key.
pub open spec fn keyed_subscriptions(s: Seq<SpecSubscription>) -> Seq<(Seq<char>, Seq<char>)> {
    s.map_values(|x: SpecSubscription| (x.publication, after_last(x.uri, '/')))
}

/// The record key of each publication that is subscribed to; of several, the last.
pub open spec fn remote_of(s: Seq<SpecSubscription>) -> Map<Seq<char>, Seq<char>> {
    pairs_map(keyed_subscriptions(s))
}

fn remote_table(subs: &Vec<Subscription>) -> (r: Table<String>)
    ensures
        strings_map(r@) == remote_of(subscriptions_view(subs@)),
{
    let ghost all = keyed_subscriptions(subscriptions_view(subs@));
    let mut t: Table<String> = Table::new();
    let mut i: usize = 0;
    assert(all.take(0) =~= Seq::empty());
    assert(strings_map(t@) =~= Map::empty());
    while i < subs.len()
        invariant
            i <= subs@.len(),
            all == keyed_subscriptions(subscriptions_view(subs@)),
            all.len() == subs@.len(),
            strings_map(t@) == pairs_map(all.take(i as int)),
        decreases subs@.len() - i,
    {
        let ghost before = t@;
        let rkey = rkey_from_uri(subs[i].uri.as_str());
        let key = subs[i].publication.clone();
        proof {
            assert(subscriptions_view(subs@)[i as int] == subs@[i as int]@);
            assert(all[i as int] == (key@, rkey@));
            assert(all.take(i + 1).drop_last() =~= all.take(i as int));
        }
        t.insert(key, rkey);
        assert(strings_map(t@) =~= strings_map(before).insert(key@, rkey@));
        i = i + 1;
    }
    assert(all.take(all.len() as int) =~= all);
    t
}

/// With the record keys of follows set, each followed.
pub open spec fn with_rkeys(
    follows: Map<Seq<char>, Seq<char>>,
    entries: Seq<(Seq<char>, Seq<char>)>,
) -> Map<Seq<char>, Seq<char>>
    decreases entries.len(),
{
    if entries.len() == 0 {
        follows
    } else {
        with_rkeys(follows, entries.drop_last()).insert(entries.last().0, entries.last().1)
    }
}

proof fn lemma_with_rkeys(
    follows: Map<Seq<char>, Seq<char>>,
    entries: Seq<(Seq<char>, Seq<char>)>,
    m: Map<Seq<char>, Seq<char>>,
    k: Seq<char>,
)
    requires
        forall|i: int| 0 <= i < entries.len() ==> (#[trigger] entries[i]).1 == m[entries[i].0],
    ensures
        with_rkeys(follows, entries).dom().contains(k) <==> follows.dom().contains(k) || keys_of(
            entries,
        ).contains(k),
        with_rkeys(follows, entries).dom().contains(k) ==> with_rkeys(follows, entries)[k] == (
        if keys_of(entries).contains(k) {
            m[k]
        } else {
            follows[k]
        }),
    decreases entries.len(),
{
    if entries.len() > 0 {
        let less = entries.drop_last();
        assert forall|i: int| 0 <= i < less.len() implies (#[trigger] less[i]).1
            == m[less[i].0] by {
            assert(less[i] == entries[i]);
        }
        lemma_with_rkeys(follows, less, m, k);
        let all = keys_of(entries);
        let some = keys_of(less);
        assert(all =~= some.push(entries.last().0));
        assert(entries[entries.len() - 1] == entries.last());
        assert(all.contains(k) <==> some.contains(k) || k == entries.last().0) by {
            if all.contains(k) {
                let j = choose|j: int| 0 <= j < all.len() && all[j] == k;
                if j < some.len() {
                    assert(some[j] == k);
                }
            }
            if some.contains(k) {
                let j = choose|j: int| 0 <= j < some.len() && some[j] == k;
                assert(all[j] == k);
            }
            assert(all[some.len() as int] == entries.last().0);
        }
    } else {
        assert(keys_of(entries) =~= Seq::empty());
    }
}

/// Each publication was imported so.
pub open spec fn are_imports<T: Transport>(
    t: T,
    entries: Seq<(Seq<char>, Seq<char>)>,
    imports: Seq<Import>,
) -> bool {
    &&& imports.len() == entries.len()
    &&& forall|i: int|
        0 <= i < imports.len() ==> is_import(t, entries[i].0, #[trigger] imports[i])
}

/// What the cache holds after imports: each publication is followed with its record key,
/// whatever came of fetching it.
pub open spec fn all_imported(
    s: StoreState,
    entries: Seq<(Seq<char>, Seq<char>)>,
    imports: Seq<Import>,
) -> StoreState
    decreases entries.len(),
{
    if entries.len() == 0 {
        s
    } else {
        let (uri, rkey) = entries.last();
        imported(
            all_imported(s, entries.drop_last(), imports.drop_last()),
            uri,
            imports.last(),
        ).with_follow(uri).with_follow_rkey(uri, rkey)
    }
}

/// What is reported of one import: only that it failed.
pub open spec fn import_event(uri: Seq<char>, i: Import) -> Seq<SpecEvent> {
    match import_failure(i) {
        Some(text) => seq![SpecEvent::Status("couldn't import "@ + uri + ": "@ + text)],
        None => Seq::empty(),
    }
}

/// What is reported of imports.
pub open spec fn import_events(
    entries: Seq<(Seq<char>, Seq<char>)>,
    imports: Seq<Import>,
) -> Seq<SpecEvent>
    decreases entries.len(),
{
    if entries.len() == 0 {
        Seq::empty()
    } else {
        import_events(entries.drop_last(), imports.drop_last()) + import_event(
            entries.last().0,
            imports.last(),
        )
    }
}

impl<T: Transport, S: FrontendStore, A: AuthProvider> Worker<T, S, A> {
    /// Import subscriptions that are not followed here. A publication that cannot be
    /// fetched is followed all the same. Whether the cache held.
    fn import_remote(&mut self, entries: &Vec<(String, String)>) -> (r: Result<
        bool,
        WorkError<S::Error>,
    >)
        ensures
            S::reliable() ==> (r matches Ok(held) && held),
            final(self).same_world(old(self)),
            final(self).account == old(self).account,
            said_more(old(self).said(), final(self).said()),
            r matches Ok(true) ==> {
                &&& final(self).state().follows == with_rkeys(
                    old(self).state().follows,
                    pairs_view(entries@),
                )
                &&& final(self).state().blobs == old(self).state().blobs
                &&& final(self).state().show_images == old(self).state().show_images
                &&& exists|imports: Seq<Import>|
                    {
                        &&& #[trigger] are_imports(
                            old(self).transport,
                            pairs_view(entries@),
                            imports,
                        )
                        &&& final(self).state() == all_imported(
                            old(self).state(),
                            pairs_view(entries@),
                            imports,
                        )
                        &&& final(self).said() == old(self).said() + import_events(
                            pairs_view(entries@),
                            imports,
                        )
                    }
            },
            r matches Err(e) ==> e is Store,
    {
        let ghost t = self.transport;
        let ghost mut imports: Seq<Import> = Seq::empty();
        let ghost all = pairs_view(entries@);
        let ghost s = self.state();
        let mut held = true;
        let mut i: usize = 0;
        assert(all.take(0) =~= Seq::empty());
        assert(self.said() + import_events(all.take(0), imports) =~= self.said());
        proof {
            lemma_more_refl(self.said());
        }
        while i < entries.len()
            invariant
                i <= entries@.len(),
                all == pairs_view(entries@),
                all.len() == entries@.len(),
                s == old(self).state(),
                self.same_world(old(self)),
                self.account == old(self).account,
                said_more(old(self).said(), self.said()),
                S::reliable() ==> held,
                t == old(self).transport,
                imports.len() == i,
                held ==> are_imports(t, all.take(i as int), imports),
                held ==> self.state() == all_imported(s, all.take(i as int), imports),
                held ==> self.said() == old(self).said() + import_events(
                    all.take(i as int),
                    imports,
                ),
                held ==> {
                    &&& self.state().follows == with_rkeys(s.follows, all.take(i as int))
                    &&& self.state().blobs == s.blobs
                    &&& self.state().show_images == s.show_images
                },
            decreases entries@.len() - i,
        {
            let uri = entries[i].0.as_str();
            let rkey = entries[i].1.as_str();
            proof {
                assert(all[i as int] == (uri@, rkey@));
                assert(all.take(i + 1).drop_last() =~= all.take(i as int));
            }
            let ghost was = self.state();
            let ghost said = self.said();
            let done = self.cache_publication(uri);
            let ghost import = choose|x: Import|
                {
                    &&& #[trigger] is_import(t, uri@, x)
                    &&& is_import_result(x, done)
                    &&& self.state() == imported(was, uri@, x)
                };
            match done {
                Ok(_) => {
                    assert(said + import_event(uri@, import) =~= said);
                },
                Err(e) => {
                    if let WorkError::Store(_) = &e {
                        held = false;
                    }
                    let text = error_text::<S>(&e);
                    let mut m = join2("couldn't import ", uri);
                    m.push_str(": ");
                    m.push_str(text.as_str());
                    self.send(FromWorker::Status(m));
                    proof {
                        lemma_more_push(old(self).said(), said, self.said().last());
                        assert(said.push(self.said().last()) =~= self.said());
                        if held {
                            assert(import_failure(import) == Some(text@));
                            assert(self.said() =~= said + import_event(uri@, import));
                        }
                    }
                },
            }
            let ghost before = self.state();
            match self.store.follow(uri) {
                Ok(_) => {},
                Err(e) => return Err(WorkError::Store(e)),
            }
            match self.store.set_follow_rkey(uri, rkey) {
                Ok(_) => {},
                Err(e) => return Err(WorkError::Store(e)),
            }
            proof {
                assert(self.state().follows =~= before.follows.insert(uri@, rkey@));
                let less = imports;
                imports = less.push(import);
                assert(imports.drop_last() =~= less);
                if held {
                    let some = all.take(i + 1);
                    assert forall|k: int| 0 <= k < imports.len() implies is_import(
                        t,
                        some[k].0,
                        #[trigger] imports[k],
                    ) by {
                        if k < i {
                            assert(imports[k] == less[k]);
                            assert(some[k] == all.take(i as int)[k]);
                        }
                    }
                    assert(self.said() =~= old(self).said() + import_events(some, imports));
                }
            }
            i = i + 1;
        }
        assert(all.take(all.len() as int) =~= all);
        Ok(held)
    }

    /// Note the record keys of follows.
    fn note_rkeys(&mut self, entries: &Vec<(String, String)>) -> (r: Result<
        (),
        WorkError<S::Error>,
    >)
        ensures
            S::reliable() ==> cache_held(r),
            final(self).same_but_store(old(self)),
            r is Ok ==> final(self).state() == (StoreState {
                follows: with_rkeys(old(self).state().follows, pairs_view(entries@)),
                ..old(self).state()
            }),
            r matches Err(e) ==> e is Store,
    {
        let ghost all = pairs_view(entries@);
        let ghost s = self.state();
        let mut i: usize = 0;
        assert(all.take(0) =~= Seq::empty());
        while i < entries.len()
            invariant
                i <= entries@.len(),
                all == pairs_view(entries@),
                all.len() == entries@.len(),
                self.same_but_store(old(self)),
                self.state() == (StoreState {
                    follows: with_rkeys(s.follows, all.take(i as int)),
                    ..s
                }),
            decreases entries@.len() - i,
        {
            let uri = entries[i].0.as_str();
            let rkey = entries[i].1.as_str();
            proof {
                assert(all[i as int] == (uri@, rkey@));
                assert(all.take(i + 1).drop_last() =~= all.take(i as int));
            }
            match self.store.set_follow_rkey(uri, rkey) {
                Ok(_) => {},
                Err(e) => return Err(WorkError::Store(e)),
            }
            i = i + 1;
        }
        assert(all.take(all.len() as int) =~= all);
        Ok(())
    }
}

/// What a publication is called: its name, or its URI where it is not held.
pub open spec fn called(pubs: Map<Seq<char>, SpecPublication>, uri: Seq<char>) -> Seq<char> {
    if pubs.dom().contains(uri) {
        pubs[uri].name
    } else {
        uri
    }
}

/// Publications with what they are called.
pub open spec fn named(
    pubs: Map<Seq<char>, SpecPublication>,
    uris: Seq<Seq<char>>,
) -> Seq<(Seq<char>, Seq<char>)> {
    uris.map_values(|u: Seq<char>| (u, called(pubs, u)))
}

/// `uris` are the follows that are no subscriptions, in order.
pub open spec fn only_local(
    follows: Map<Seq<char>, Seq<char>>,
    remote: Map<Seq<char>, Seq<char>>,
    uris: Seq<Seq<char>>,
) -> bool {
    &&& in_order(uris)
    &&& forall|k: Seq<char>|
        #[trigger] uris.contains(k) <==> follows.dom().contains(k) && !remote.dom().contains(k)
}

/// `entries` are the subscriptions that are not followed, with their record keys, in order.
pub open spec fn only_remote(
    follows: Map<Seq<char>, Seq<char>>,
    remote: Map<Seq<char>, Seq<char>>,
    entries: Seq<(Seq<char>, Seq<char>)>,
) -> bool {
    lists_entries(
        entries,
        remote,
        Set::new(|k: Seq<char>| remote.dom().contains(k) && !follows.dom().contains(k)),
    )
}

/// Follows and subscriptions were brought together: what is subscribed to and not followed
/// is imported, every subscription is followed with its record key, the other follows
/// stay, the feeds are reported, and the follows that are no subscriptions after them.
pub open spec fn reconciled(
    s: StoreState,
    after: StoreState,
    said: Seq<SpecEvent>,
    said_after: Seq<SpecEvent>,
    remote: Map<Seq<char>, Seq<char>>,
    uris: Seq<Seq<char>>,
    entries: Seq<(Seq<char>, Seq<char>)>,
    imports: Seq<Import>,
) -> bool {
    let n = said_after.len() as int;
    let before = said + import_events(entries, imports);
    &&& only_local(s.follows, remote, uris)
    &&& only_remote(s.follows, remote, entries)
    &&& after == (StoreState {
        follows: s.follows.union_prefer_right(remote),
        ..all_imported(s, entries, imports)
    })
    &&& after.blobs == s.blobs
    &&& after.show_images == s.show_images
    &&& if uris.len() == 0 {
        &&& n == before.len() + 1
        &&& said_after.drop_last() == before
        &&& is_home(after, said_after[n - 1])
    } else {
        &&& n == before.len() + 2
        &&& said_after.take(n - 2) == before
        &&& is_home(after, said_after[n - 2])
        &&& said_after[n - 1] == (SpecEvent::SyncDiff {
            local_only: named(after.publications, uris),
        })
    }
}

/// Follows and subscriptions were brought together, whatever came of the imports.
pub open spec fn brought_together<T: Transport>(
    t: T,
    s: StoreState,
    after: StoreState,
    said: Seq<SpecEvent>,
    said_after: Seq<SpecEvent>,
    remote: Map<Seq<char>, Seq<char>>,
) -> bool {
    exists|
        uris: Seq<Seq<char>>,
        entries: Seq<(Seq<char>, Seq<char>)>,
        imports: Seq<Import>,
    |
        {
            &&& #[trigger] reconciled(
                s,
                after,
                said,
                said_after,
                remote,
                uris,
                entries,
                imports,
            )
            &&& are_imports(t, entries, imports)
        }
}

/// What reconciling came to where the cache held throughout.
pub open spec fn sync_outcome<T: Transport>(
    t: T,
    did: Seq<char>,
    s: StoreState,
    after: StoreState,
    said: Seq<SpecEvent>,
    said_after: Seq<SpecEvent>,
    id: SpecIdentity,
    subs: Seq<SpecSubscription>,
) -> bool {
    &&& identity_resolved(t, did, Ok::<SpecIdentity, SpecReadError>(id))
    &&& subscriptions_listed(t, id, Ok::<Seq<SpecSubscription>, SpecReadError>(subs))
    &&& brought_together(t, s, after, said, said_after, remote_of(subs))
}

/// The account's repository could not be resolved, or its subscriptions not listed.
pub open spec fn sync_failed<T: Transport>(t: T, did: Seq<char>, e: SpecReadError) -> bool {
    ||| identity_resolved(t, did, Err::<SpecIdentity, SpecReadError>(e))
    ||| exists|id: SpecIdentity|
        {
            &&& identity_resolved(t, did, Ok::<SpecIdentity, SpecReadError>(id))
            &&& #[trigger] subscriptions_listed(
                t,
                id,
                Err::<Seq<SpecSubscription>, SpecReadError>(e),
            )
        }
}

/// Follows were brought together with the account's subscriptions, or why not. `true`
/// says that the cache held throughout.
#[verifier::opaque]
pub open spec fn synced<T: Transport, E>(
    t: T,
    did: Seq<char>,
    s: StoreState,
    after: StoreState,
    said: Seq<SpecEvent>,
    said_after: Seq<SpecEvent>,
    r: Result<bool, WorkError<E>>,
) -> bool {
    &&& said_more(said, said_after)
    &&& match r {
        Ok(true) => exists|id: SpecIdentity, subs: Seq<SpecSubscription>| #[trigger]
            sync_outcome(t, did, s, after, said, said_after, id, subs),
        Ok(false) => true,
        Err(WorkError::Store(_)) => true,
        Err(WorkError::Read(e)) => sync_failed(t, did, e@) && after == s && said_after == said,
        Err(WorkError::Message(_)) => false,
    }
}

impl<T: Transport, S: FrontendStore, A: AuthProvider> Worker<T, S, A> {
    fn name_each(&self, uris: &Vec<String>) -> (r: Result<
        Vec<(String, String)>,
        WorkError<S::Error>,
    >)
        ensures
            S::reliable() ==> cache_held(r),
            match r {
                Ok(v) => pairs_view(v@) == named(self.state().publications, strings_view(uris@)),
                Err(e) => e is Store,
            },
    {
        let ghost pubs = self.state().publications;
        let ghost all = strings_view(uris@);
        let mut out: Vec<(String, String)> = Vec::new();
        let mut i: usize = 0;
        while i < uris.len()
            invariant
                i <= uris@.len(),
                all == strings_view(uris@),
                all.len() == uris@.len(),
                pubs == self.state().publications,
                out@.len() == i,
                forall|k: int|
                    0 <= k < i ==> (#[trigger] out@[k]).0@ == all[k] && out@[k].1@ == called(
                        pubs,
                        all[k],
                    ),
            decreases uris@.len() - i,
        {
            assert(all[i as int] == uris@[i as int]@);
            let name = match self.store.publication(uris[i].as_str()) {
                Ok(Some(p)) => p.name,
                Ok(None) => uris[i].clone(),
                Err(e) => return Err(WorkError::Store(e)),
            };
            out.push((uris[i].clone(), name));
            i = i + 1;
        }
        assert(pairs_view(out@) =~= named(pubs, all));
        Ok(out)
    }

    /// Bring the follows together with subscriptions that were read. Whether the cache
    /// held throughout.
    fn reconcile(&mut self, remote: &Table<String>) -> (r: Result<bool, WorkError<S::Error>>)
        ensures
            S::reliable() ==> (r matches Ok(held) && held),
            final(self).same_world(old(self)),
            final(self).account == old(self).account,
            said_more(old(self).said(), final(self).said()),
            r matches Ok(true) ==> brought_together(
                old(self).transport,
                old(self).state(),
                final(self).state(),
                old(self).said(),
                final(self).said(),
                strings_map(remote@),
            ),
            r matches Err(e) ==> e is Store,
    {
        let ghost s = self.state();
        let ghost there = strings_map(remote@);
        proof {
            lemma_more_refl(self.said());
        }
        let local = match self.store.follows() {
            Ok(f) => f,
            Err(e) => return Err(WorkError::Store(e)),
        };
        let ghost here = strings_view(local@);
        assert(enumerates(here, s.follows.dom()));
        let diff = diff_subscriptions(&local, remote);
        let held = match self.import_remote(&diff.remote_only) {
            Ok(h) => h,
            Err(e) => return Err(e),
        };
        let ghost mid = self.state();
        let ghost entries = pairs_view(diff.remote_only@);
        let ghost imports = choose|x: Seq<Import>|
            {
                &&& #[trigger] are_imports(old(self).transport, entries, x)
                &&& self.state() == all_imported(s, entries, x)
                &&& self.said() == old(self).said() + import_events(entries, x)
            };
        match self.note_rkeys(&diff.in_both) {
            Ok(_) => {},
            Err(e) => return Err(e),
        }
        let ghost after = self.state();
        proof {
            if held {
                let a = pairs_view(diff.remote_only@);
                let b = pairs_view(diff.in_both@);
                assert forall|k: Seq<char>| #[trigger] after.follows.dom().contains(k)
                    <==> s.follows.union_prefer_right(there).dom().contains(k) by {
                    law_diff_is_a_partition(here, there, diff, k);
                    lemma_with_rkeys(s.follows, a, there, k);
                    lemma_with_rkeys(mid.follows, b, there, k);
                    assert(here.contains(k) <==> s.follows.dom().contains(k));
                }
                assert forall|k: Seq<char>| #[trigger] after.follows.dom().contains(k) implies
                    after.follows[k] == s.follows.union_prefer_right(there)[k] by {
                    law_diff_is_a_partition(here, there, diff, k);
                    lemma_with_rkeys(s.follows, a, there, k);
                    lemma_with_rkeys(mid.follows, b, there, k);
                    assert(here.contains(k) <==> s.follows.dom().contains(k));
                    assert(mid.follows.dom().contains(k) || keys_of(b).contains(k));
                }
                assert(after.follows =~= s.follows.union_prefer_right(there));
            }
        }
        let local_only = match self.name_each(&diff.local_only) {
            Ok(v) => v,
            Err(e) => return Err(e),
        };
        let ghost uris = strings_view(diff.local_only@);
        proof {
            assert forall|k: Seq<char>| #[trigger] uris.contains(k) <==> s.follows.dom().contains(k)
                && !there.dom().contains(k) by {
                law_diff_is_a_partition(here, there, diff, k);
                assert(here.contains(k) <==> s.follows.dom().contains(k));
            }
        }
        let ghost before = self.said();
        match self.load_home() {
            Ok(_) => {},
            Err(e) => return Err(e),
        }
        let ghost said = self.said();
        proof {
            assert(said =~= before.push(said.last()));
            lemma_more_push(old(self).said(), before, said.last());
        }
        assert(uris.len() == diff.local_only@.len());
        assert(pairs_view(local_only@).len() == local_only@.len());
        if local_only.len() > 0 {
            self.send(FromWorker::SyncDiff { local_only });
            proof {
                assert(self.said() =~= said.push(self.said().last()));
                lemma_more_push(old(self).said(), said, self.said().last());
                let n = self.said().len() as int;
                assert(self.said()[n - 2] == said.last());
                assert(self.said().take(n - 2) =~= before);
            }
        }
        proof {
            if held {
                let set = Set::new(
                    |k: Seq<char>| there.dom().contains(k) && !s.follows.dom().contains(k),
                );
                assert forall|k: Seq<char>| #[trigger] keys_of(entries).contains(k)
                    <==> set.contains(k) by {
                    law_diff_is_a_partition(here, there, diff, k);
                    assert(here.contains(k) <==> s.follows.dom().contains(k));
                }
                assert(only_remote(s.follows, there, entries));
                assert(reconciled(
                    s,
                    self.state(),
                    old(self).said(),
                    self.said(),
                    there,
                    uris,
                    entries,
                    imports,
                ));
            }
        }
        Ok(held)
    }

    /// Bring the follows together with the account's subscriptions. Whether the cache
    /// held throughout.
    pub fn sync_subscriptions(&mut self, did: &str) -> (r: Result<bool, WorkError<S::Error>>)
        ensures
            S::reliable() ==> cache_held(r) && !(r matches Ok(false)),
            final(self).same_world(old(self)),
            final(self).account == old(self).account,
            synced(
                old(self).transport,
                did@,
                old(self).state(),
                final(self).state(),
                old(self).said(),
                final(self).said(),
                r,
            ),
    {
        proof {
            reveal(synced);
        }
        let ghost t = self.transport;
        let ghost s = self.state();
        proof {
            lemma_more_refl(self.said());
        }
        let got = resolve_identity(&self.transport, did);
        let ghost g = identity_result(got);
        assert(identity_resolved(t, did@, g));
        let identity = match got {
            Ok(i) => i,
            Err(e) => return Err(WorkError::Read(e)),
        };
        let listed = list_subscriptions(&self.transport, &identity);
        let ghost l = subscriptions_result(listed);
        assert(subscriptions_listed(t, identity@, l));
        let subs = match listed {
            Ok(v) => v,
            Err(e) => return Err(WorkError::Read(e)),
        };
        let remote = remote_table(&subs);
        let r = self.reconcile(&remote);
        proof {
            if r matches Ok(true) {
                assert(sync_outcome(
                    t,
                    did@,
                    s,
                    self.state(),
                    old(self).said(),
                    self.said(),
                    identity@,
                    subscriptions_view(subs@),
                ));
            }
        }
        r
    }
}

} // verus!
