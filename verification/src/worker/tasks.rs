//! The worker itself, and what it answers from the cache alone.
use vstd::prelude::*;

use crate::account::{opt_account, Account, SpecAccount};
use crate::atp::Transport;
use crate::auth_provider::AuthProvider;
use crate::decode::Registry;
use crate::memstore::strings_map;
use crate::model::{
    documents_view, lemma_documents_push, lemma_publications_push, publications_view, Document,
    Publication, SpecDocument, SpecPublication,
};
use crate::read::{owner_of, did_of, ReadError};
use crate::store::{
    are_documents, are_uris, counts, enumerates, lookup, newest_first, FrontendStore, Store,
    StoreState,
};
use crate::table::Table;
use crate::text::{owned, strings_view};
use crate::worker::{counts_view, events_view, FromWorker, SpecEvent};

verus! {

/// Why a command failed.
#[derive(Debug, PartialEq)]
pub enum WorkError<E> {
    /// The cache failed.
    Store(E),
    /// Reading from the network failed.
    Read(ReadError),
    /// Something else, in words.
    Message(String),
}

/// It is not the cache that failed.
pub open spec fn cache_held<V, E>(r: Result<V, WorkError<E>>) -> bool {
    !(r matches Err(WorkError::Store(_)))
}

/// The worker: a transport, a cache, a decoder, and the signed-in account.
pub struct Worker<T: Transport, S: FrontendStore, A: AuthProvider> {
    pub transport: T,
    pub store: S,
    pub registry: Registry,
    /// Repository servers by DID, so that images do not resolve them again.
    pub pds_cache: Table<String>,
    pub account: Option<Account>,
    /// How to sign in; `None` where that is not possible.
    pub auth: Option<A>,
    /// Results that the shell has not taken yet.
    pub events: Vec<FromWorker>,
}

impl<T: Transport, S: FrontendStore, A: AuthProvider> Worker<T, S, A> {
    /// What the cache holds.
    pub open spec fn state(&self) -> StoreState {
        self.store.state()
    }

    /// The results so far.
    pub open spec fn said(&self) -> Seq<SpecEvent> {
        events_view(self.events@)
    }

    /// Who is signed in.
    pub open spec fn who(&self) -> Option<SpecAccount> {
        opt_account(self.account)
    }

    /// The transport, the decoder and the sign-in are the same.
    pub open spec fn same_seams(&self, other: &Self) -> bool {
        &&& self.transport == other.transport
        &&& self.registry == other.registry
        &&& self.auth == other.auth
    }

    /// The transport, the decoder and the sign-in are the same, and so are the servers that
    /// are known.
    pub open spec fn same_world(&self, other: &Self) -> bool {
        &&& self.same_seams(other)
        &&& self.pds_cache == other.pds_cache
    }

    /// The servers that are known, by DID.
    pub open spec fn servers(&self) -> Map<Seq<char>, Seq<char>> {
        strings_map(self.pds_cache@)
    }

    pub fn new(transport: T, store: S, auth: Option<A>) -> (r: Self)
        ensures
            r.transport == transport,
            r.store == store,
            r.auth == auth,
            r.registry == Registry::standard(),
            r.servers() == Map::<Seq<char>, Seq<char>>::empty(),
            r.who() is None,
            r.said() == Seq::<SpecEvent>::empty(),
    {
        let r = Worker {
            transport,
            store,
            registry: Registry::with_defaults(),
            pds_cache: Table::new(),
            account: None,
            auth,
            events: Vec::new(),
        };
        assert(r.said() =~= Seq::empty());
        assert(r.servers() =~= Map::empty());
        r
    }

    /// Hand the results to the shell.
    pub fn take_events(&mut self) -> (r: Vec<FromWorker>)
        ensures
            events_view(r@) == old(self).said(),
            final(self).said() == Seq::<SpecEvent>::empty(),
            final(self).state() == old(self).state(),
            final(self).who() == old(self).who(),
            final(self).same_world(old(self)),
    {
        let mut out: Vec<FromWorker> = Vec::new();
        core::mem::swap(&mut out, &mut self.events);
        assert(self.said() =~= Seq::empty());
        out
    }

    pub(crate) fn send(&mut self, e: FromWorker)
        ensures
            final(self).said() == old(self).said().push(e@),
            final(self).store == old(self).store,
            final(self).account == old(self).account,
            final(self).same_world(old(self)),
    {
        let ghost before = self.events@;
        self.events.push(e);
        assert(events_view(self.events@) =~= events_view(before).push(e@));
    }
}

// --- The feed list ----------------------------------------------------------------

/// The publications that are held among `keys`, in that order.
pub open spec fn held_publications(s: StoreState, keys: Seq<Seq<char>>) -> Seq<SpecPublication>
    decreases keys.len(),
{
    if keys.len() == 0 {
        Seq::empty()
    } else if s.publications.dom().contains(keys.last()) {
        held_publications(s, keys.drop_last()).push(s.publications[keys.last()])
    } else {
        held_publications(s, keys.drop_last())
    }
}

/// The feed list: the followed publications that are held, with their unread counts.
pub open spec fn is_home(s: StoreState, e: SpecEvent) -> bool {
    match e {
        SpecEvent::Feeds { feeds, unread } => {
            &&& exists|keys: Seq<Seq<char>>| #[trigger]
                enumerates(keys, s.follows.dom()) && feeds == held_publications(s, keys)
            &&& unread.len() == feeds.len()
            &&& forall|i: int|
                0 <= i < unread.len() ==> (#[trigger] unread[i]).0 == feeds[i].uri && counts(
                    s.of_publication_read(feeds[i].uri, false),
                    unread[i].1 as nat,
                )
        },
        _ => false,
    }
}

impl<T: Transport, S: FrontendStore, A: AuthProvider> Worker<T, S, A> {
    fn home(&self) -> (r: Result<FromWorker, WorkError<S::Error>>)
        ensures
            S::reliable() ==> cache_held(r),
            match r {
                Ok(e) => is_home(self.state(), e@),
                Err(e) => e is Store,
            },
    {
        let follows = match self.store.follows() {
            Ok(f) => f,
            Err(e) => return Err(WorkError::Store(e)),
        };
        let ghost keys = strings_view(follows@);
        let ghost s = self.state();
        let mut feeds: Vec<Publication> = Vec::new();
        let mut unread: Vec<(String, usize)> = Vec::new();
        let mut i: usize = 0;
        assert(keys.take(0) =~= Seq::empty());
        assert(publications_view(feeds@) =~= Seq::empty());
        while i < follows.len()
            invariant
                i <= follows@.len(),
                keys == strings_view(follows@),
                keys.len() == follows@.len(),
                s == self.state(),
                publications_view(feeds@) == held_publications(s, keys.take(i as int)),
                unread@.len() == feeds@.len(),
                forall|j: int|
                    0 <= j < unread@.len() ==> (#[trigger] unread@[j]).0@ == feeds@[j]@.uri
                        && counts(
                        s.of_publication_read(feeds@[j]@.uri, false),
                        unread@[j].1 as nat,
                    ),
            decreases follows@.len() - i,
        {
            assert(keys[i as int] == follows@[i as int]@);
            assert(keys.take(i + 1).drop_last() =~= keys.take(i as int));
            match self.store.publication(follows[i].as_str()) {
                Ok(Some(p)) => {
                    match self.store.unread_count(p.uri.as_str()) {
                        Ok(n) => {
                            unread.push((p.uri.clone(), n));
                        },
                        Err(e) => return Err(WorkError::Store(e)),
                    }
                    proof {
                        lemma_publications_push(feeds@, p);
                    }
                    feeds.push(p);
                },
                Ok(None) => {},
                Err(e) => return Err(WorkError::Store(e)),
            }
            i = i + 1;
        }
        assert(keys.take(keys.len() as int) =~= keys);
        let e = FromWorker::Feeds { feeds, unread };
        proof {
            assert(enumerates(keys, s.follows.dom()));
            let f = publications_view(feeds@);
            let u = counts_view(unread@);
            assert forall|j: int| 0 <= j < u.len() implies (#[trigger] u[j]).0 == f[j].uri && counts(
                s.of_publication_read(f[j].uri, false),
                u[j].1 as nat,
            ) by {
                assert(u[j] == (unread@[j].0@, unread@[j].1));
                assert(f[j] == feeds@[j]@);
            }
        }
        Ok(e)
    }

    /// The feeds were reported; only the cache can prevent that.
    pub open spec fn home_loaded(&self, after: &Self, r: Result<(), WorkError<S::Error>>) -> bool {
        &&& after.store == self.store
        &&& after.account == self.account
        &&& after.same_world(self)
        &&& match r {
            Ok(_) => {
                &&& after.said().len() == self.said().len() + 1
                &&& after.said().drop_last() == self.said()
                &&& is_home(after.state(), after.said().last())
            },
            Err(e) => e is Store && after.said() == self.said(),
        }
    }

    /// Report the followed publications, from the cache.
    pub fn load_home(&mut self) -> (r: Result<(), WorkError<S::Error>>)
        ensures
            S::reliable() ==> cache_held(r),
            old(self).home_loaded(final(self), r),
    {
        match self.home() {
            Ok(e) => {
                self.send(e);
                assert(self.said().drop_last() =~= old(self).said());
                Ok(())
            },
            Err(e) => Err(e),
        }
    }
}

// --- The documents of a feed ------------------------------------------------------

/// More documents of a publication's repository can be fetched.
pub open spec fn older_left(s: StoreState, publication: Seq<char>) -> bool {
    match owner_of(publication) {
        Some(did) => lookup(s.older_cursors, did) matches Some(c) && c.len() > 0,
        None => false,
    }
}

/// What is reported of a feed: its documents, newest first, and which were read.
pub open spec fn is_feed(s: StoreState, publication: Seq<char>, e: SpecEvent) -> bool {
    match e {
        SpecEvent::Docs { publication: p, docs, read_uris, has_older } => {
            &&& p == publication
            &&& newest_first(docs)
            &&& are_documents(s, s.of_publication(publication), docs)
            &&& are_uris(s, s.of_publication_read(publication, true), read_uris)
            &&& has_older == older_left(s, publication)
        },
        _ => false,
    }
}

impl<T: Transport, S: FrontendStore, A: AuthProvider> Worker<T, S, A> {
    fn has_older(&self, pub_uri: &str) -> (r: Result<bool, WorkError<S::Error>>)
        ensures
            S::reliable() ==> cache_held(r),
            match r {
                Ok(b) => b == older_left(self.state(), pub_uri@),
                Err(e) => e is Store,
            },
    {
        match did_of(pub_uri) {
            Some(did) => match self.store.older_cursor(did.as_str()) {
                Ok(Some(c)) => Ok(!c.as_str().is_empty()),
                Ok(None) => Ok(false),
                Err(e) => Err(WorkError::Store(e)),
            },
            None => Ok(false),
        }
    }

    pub(crate) fn feed(&self, pub_uri: &str) -> (r: Result<FromWorker, WorkError<S::Error>>)
        ensures
            S::reliable() ==> cache_held(r),
            match r {
                Ok(e) => is_feed(self.state(), pub_uri@, e@),
                Err(e) => e is Store,
            },
    {
        let docs = match self.store.documents_for(pub_uri) {
            Ok(d) => d,
            Err(e) => return Err(WorkError::Store(e)),
        };
        let read_uris = match self.store.read_uris(pub_uri) {
            Ok(u) => u,
            Err(e) => return Err(WorkError::Store(e)),
        };
        let has_older = match self.has_older(pub_uri) {
            Ok(b) => b,
            Err(e) => return Err(e),
        };
        Ok(FromWorker::Docs { publication: owned(pub_uri), docs, read_uris, has_older })
    }

    /// Report a feed's documents, from the cache.
    pub(crate) fn send_feed(&mut self, pub_uri: &str) -> (r: Result<(), WorkError<S::Error>>)
        ensures
            S::reliable() ==> cache_held(r),
            final(self).store == old(self).store,
            final(self).account == old(self).account,
            final(self).same_world(old(self)),
            r is Ok ==> {
                &&& final(self).said().len() == old(self).said().len() + 1
                &&& final(self).said().drop_last() == old(self).said()
                &&& is_feed(final(self).state(), pub_uri@, final(self).said().last())
            },
            r matches Err(e) ==> e is Store && final(self).said() == old(self).said(),
    {
        match self.feed(pub_uri) {
            Ok(e) => {
                self.send(e);
                assert(self.said().drop_last() =~= old(self).said());
                Ok(())
            },
            Err(e) => Err(e),
        }
    }
}

// --- Search -----------------------------------------------------------------------

/// The metadata of the documents that are held among `keys`, in that order.
pub open spec fn held_documents(s: StoreState, keys: Seq<Seq<char>>) -> Seq<SpecDocument>
    decreases keys.len(),
{
    if keys.len() == 0 {
        Seq::empty()
    } else if s.documents.dom().contains(keys.last()) {
        held_documents(s, keys.drop_last()).push(s.documents[keys.last()].meta)
    } else {
        held_documents(s, keys.drop_last())
    }
}

/// What a search reports: the documents that it finds, each once.
pub open spec fn is_found(s: StoreState, query: Seq<char>, e: SpecEvent) -> bool {
    match e {
        SpecEvent::Results(docs) => exists|keys: Seq<Seq<char>>| #[trigger]
            enumerates(keys, s.found(query)) && docs == held_documents(s, keys),
        _ => false,
    }
}

impl<T: Transport, S: FrontendStore, A: AuthProvider> Worker<T, S, A> {
    fn results(&self, query: &str) -> (r: Result<FromWorker, WorkError<S::Error>>)
        ensures
            S::reliable() ==> cache_held(r),
            match r {
                Ok(e) => is_found(self.state(), query@, e@),
                Err(e) => e is Store,
            },
    {
        let uris = match self.store.search(query) {
            Ok(u) => u,
            Err(e) => return Err(WorkError::Store(e)),
        };
        let ghost keys = strings_view(uris@);
        let ghost s = self.state();
        let mut docs: Vec<Document> = Vec::new();
        let mut i: usize = 0;
        assert(keys.take(0) =~= Seq::empty());
        assert(documents_view(docs@) =~= Seq::empty());
        while i < uris.len()
            invariant
                i <= uris@.len(),
                keys == strings_view(uris@),
                keys.len() == uris@.len(),
                s == self.state(),
                documents_view(docs@) == held_documents(s, keys.take(i as int)),
            decreases uris@.len() - i,
        {
            assert(keys[i as int] == uris@[i as int]@);
            assert(keys.take(i + 1).drop_last() =~= keys.take(i as int));
            match self.store.document(uris[i].as_str()) {
                Ok(Some(d)) => {
                    let meta = d.meta;
                    proof {
                        lemma_documents_push(docs@, meta);
                    }
                    docs.push(meta);
                },
                Ok(None) => {},
                Err(e) => return Err(WorkError::Store(e)),
            }
            i = i + 1;
        }
        assert(keys.take(keys.len() as int) =~= keys);
        assert(enumerates(keys, s.found(query@)));
        Ok(FromWorker::Results(docs))
    }

    /// What a search finds was reported; only the cache can prevent that.
    #[verifier::opaque]
    pub open spec fn searched(
        &self,
        after: &Self,
        query: Seq<char>,
        r: Result<(), WorkError<S::Error>>,
    ) -> bool {
        &&& after.store == self.store
        &&& after.account == self.account
        &&& after.same_world(self)
        &&& match r {
            Ok(_) => {
                &&& after.said().len() == self.said().len() + 1
                &&& after.said().drop_last() == self.said()
                &&& is_found(after.state(), query, after.said().last())
            },
            Err(e) => e is Store && after.said() == self.said(),
        }
    }

    /// Report what a search finds in the cache.
    pub fn search(&mut self, query: &str) -> (r: Result<(), WorkError<S::Error>>)
        ensures
            S::reliable() ==> cache_held(r),
            old(self).searched(final(self), query@, r),
    {
        proof {
            reveal(Worker::searched);
        }
        match self.results(query) {
            Ok(e) => {
                self.send(e);
                assert(self.said().drop_last() =~= old(self).said());
                Ok(())
            },
            Err(e) => Err(e),
        }
    }
}

} // verus!
