//! Refreshing a feed, following and unfollowing.
use vstd::prelude::*;

use crate::atp::{parsed_at_uri, AtUri, Transport};
use crate::auth_provider::{text_reply, unit_reply, AuthProvider};
use crate::model::{documents_view, opt_view, SpecPublication};
use crate::read::{
    did_of, get_publication, owner_of, publication_fetched, publication_result, text_result,
    window_read, Identity, SpecDocPage, SpecIdentity, SpecReadError,
};
use crate::store::{lookup, FrontendStore, Store, StoreState};
use crate::text::{join2, owned};
use crate::worker::accounts::{lemma_said_push, said_more};
use crate::worker::docs::{server_known, servers_learned, with_server};
use crate::worker::feeds::{
    taken_view, walk_done, watermarked, window_kept, window_taken, WINDOW_PAGES,
};
use crate::worker::tasks::{cache_held, is_feed, is_home, WorkError, Worker};
use crate::worker::{FromWorker, SpecEvent};

verus! {

// --- Refreshing -------------------------------------------------------------------

/// The first fetch of a feed: a window of the repository's newest documents.
pub open spec fn backfilled<T: Transport, E>(
    t: T,
    repo: SpecIdentity,
    s: StoreState,
    after: StoreState,
    publication: Seq<char>,
    page: Result<SpecDocPage, SpecReadError>,
    r: Result<(), WorkError<E>>,
) -> bool {
    &&& window_read(t, repo, None, WINDOW_PAGES, page)
    &&& match (r, page) {
        (Ok(_), Ok(page)) => after == watermarked(
            window_kept(s, repo.did, page),
            publication,
            page.0,
        ),
        (Err(WorkError::Read(e)), Err(f)) => e@ == f && after == s,
        (Err(WorkError::Store(_)), Ok(_)) => true,
        _ => false,
    }
}

/// Documents were fetched for a publication: the newest if the cache has none, else those
/// that are new.
pub open spec fn documents_fetched<T: Transport, E>(
    t: T,
    repo: SpecIdentity,
    s: StoreState,
    after: StoreState,
    publication: Seq<char>,
    r: Result<(), WorkError<E>>,
) -> bool {
    if s.of_publication(publication) == Set::<Seq<char>>::empty() {
        exists|page: Result<SpecDocPage, SpecReadError>| #[trigger]
            backfilled(t, repo, s, after, publication, page, r)
    } else {
        exists|pages: Seq<SpecDocPage>| #[trigger]
            walk_done(t, repo, s, after, publication, pages, r)
    }
}

/// What a refresh came to before its result was reported.
pub open spec fn refreshed<T: Transport, E>(
    t: T,
    s: StoreState,
    after: StoreState,
    publication: Seq<char>,
    found: Result<(SpecPublication, SpecIdentity), SpecReadError>,
    r: Result<(), WorkError<E>>,
) -> bool {
    match parsed_at_uri(publication) {
        None => (r matches Err(WorkError::Message(m)) && m@ == "malformed publication AT-URI"@)
            && after == s,
        Some(uri) => {
            &&& publication_fetched(t, uri, found)
            &&& match found {
                Err(e) => (r matches Err(WorkError::Read(f)) && f@ == e) && after == s,
                Ok((_, repo)) => documents_fetched(t, repo, s, after, publication, r),
            }
        },
    }
}

/// The cache failed.
pub open spec fn cache_failed<E>(r: Result<(), WorkError<E>>) -> bool {
    r matches Err(WorkError::Store(_))
}

impl<T: Transport, S: FrontendStore, A: AuthProvider> Worker<T, S, A> {
    fn has_documents(&self, pub_uri: &str) -> (r: Result<bool, WorkError<S::Error>>)
        ensures
            S::reliable() ==> cache_held(r),
            match r {
                Ok(b) => b == (self.state().of_publication(pub_uri@) != Set::<Seq<char>>::empty()),
                Err(e) => e is Store,
            },
    {
        match self.store.documents_for(pub_uri) {
            Ok(docs) => {
                proof {
                    let set = self.state().of_publication(pub_uri@);
                    let v = documents_view(docs@);
                    let keys = choose|keys: Seq<Seq<char>>|
                        {
                            &&& #[trigger] crate::store::enumerates(keys, set)
                            &&& v.len() == keys.len()
                            &&& forall|i: int|
                                0 <= i < v.len() ==> #[trigger] v[i]
                                    == self.state().documents[keys[i]].meta
                        };
                    if docs@.len() == 0 {
                        assert forall|k: Seq<char>| !set.contains(k) by {
                            assert(!keys.contains(k));
                        }
                        assert(set =~= Set::empty());
                    } else {
                        assert(keys.contains(keys[0]));
                        assert(set.contains(keys[0]));
                    }
                }
                Ok(docs.len() > 0)
            },
            Err(e) => Err(WorkError::Store(e)),
        }
    }

    fn backfill(&mut self, repo: &Identity, pub_uri: &str) -> (r: Result<(), WorkError<S::Error>>)
        ensures
            S::reliable() ==> cache_held(r),
            final(self).same_but_store(old(self)),
            exists|page: Result<SpecDocPage, SpecReadError>| #[trigger]
                backfilled(
                    old(self).transport,
                    repo@,
                    old(self).state(),
                    final(self).state(),
                    pub_uri@,
                    page,
                    r,
                ),
    {
        let ghost t = self.transport;
        let ghost s = self.state();
        let got = self.take_window(repo, None);
        let ghost page = choose|page: Result<SpecDocPage, SpecReadError>|
            {
                &&& #[trigger] window_read(t, repo@, None, WINDOW_PAGES, page)
                &&& window_taken(s, self.state(), repo@.did, page, taken_view(got))
            };
        let r = match got {
            Ok(docs) => self.record_watermark(pub_uri, &docs),
            Err(e) => Err(e),
        };
        assert(backfilled(t, repo@, s, self.state(), pub_uri@, page, r));
        r
    }

    fn fetch_documents(&mut self, repo: &Identity, pub_uri: &str) -> (r: Result<
        (),
        WorkError<S::Error>,
    >)
        ensures
            S::reliable() ==> cache_held(r),
            final(self).same_but_store(old(self)),
            cache_failed(r) || documents_fetched(
                old(self).transport,
                repo@,
                old(self).state(),
                final(self).state(),
                pub_uri@,
                r,
            ),
    {
        match self.has_documents(pub_uri) {
            Ok(true) => self.fetch_new_documents(repo, pub_uri),
            Ok(false) => self.backfill(repo, pub_uri),
            Err(e) => Err(e),
        }
    }

    fn update_feed(&mut self, pub_uri: &str) -> (r: Result<(), WorkError<S::Error>>)
        ensures
            S::reliable() ==> cache_held(r),
            final(self).same_but_store(old(self)),
            cache_failed(r) || exists|found: Result<(SpecPublication, SpecIdentity), SpecReadError>|
                #[trigger] refreshed(
                    old(self).transport,
                    old(self).state(),
                    final(self).state(),
                    pub_uri@,
                    found,
                    r,
                ),
            parsed_at_uri(pub_uri@) is None ==> (r matches Err(WorkError::Message(m)) && m@
                == "malformed publication AT-URI"@),
    {
        let ghost s = self.state();
        let ghost t = self.transport;
        let uri = match AtUri::parse(pub_uri) {
            Some(u) => u,
            None => {
                let r = Err(WorkError::Message(owned("malformed publication AT-URI")));
                assert(refreshed::<T, S::Error>(
                    t,
                    s,
                    self.state(),
                    pub_uri@,
                    Err(SpecReadError::Parse(Seq::empty())),
                    r,
                ));
                return r;
            },
        };
        let found = get_publication(&self.transport, &uri);
        let ghost f = publication_result(found);
        let r = match found {
            Ok((_, repo)) => self.fetch_documents(&repo, pub_uri),
            Err(e) => Err(WorkError::Read(e)),
        };
        assert(cache_failed(r) || refreshed(t, s, self.state(), pub_uri@, f, r));
        r
    }

    /// A feed's documents were fetched, or why not; then the feed was reported.
    #[verifier::opaque]
    pub open spec fn feed_refreshed(
        &self,
        after: &Self,
        publication: Seq<char>,
        r: Result<(), WorkError<S::Error>>,
    ) -> bool {
        &&& after.same_world(self)
        &&& after.account == self.account
        &&& cache_failed(r) || exists|
            found: Result<(SpecPublication, SpecIdentity), SpecReadError>,
        | #[trigger]
            refreshed(self.transport, self.state(), after.state(), publication, found, r)
        &&& match r {
            Ok(_) => {
                &&& after.said().len() == self.said().len() + 1
                &&& after.said().drop_last() == self.said()
                &&& is_feed(after.state(), publication, after.said().last())
            },
            Err(_) => after.said() == self.said(),
        }
        &&& parsed_at_uri(publication) is None ==> (r matches Err(WorkError::Message(m)) && m@
            == "malformed publication AT-URI"@)
    }

    /// A feed was reported from the cache, if it has documents there, and refreshed.
    #[verifier::opaque]
    pub open spec fn feed_opened(
        &self,
        after: &Self,
        publication: Seq<char>,
        r: Result<(), WorkError<S::Error>>,
    ) -> bool {
        let cached = self.state().of_publication(publication) != Set::<Seq<char>>::empty();
        let said = after.said();
        let n = self.said().len() as int;
        &&& after.same_world(self)
        &&& after.account == self.account
        &&& cache_failed(r) || exists|
            found: Result<(SpecPublication, SpecIdentity), SpecReadError>,
        | #[trigger]
            refreshed(self.transport, self.state(), after.state(), publication, found, r)
        &&& said_more(self.said(), said)
        &&& !cache_failed(r) ==> {
            &&& said.len() == n + (if cached {
                1int
            } else {
                0
            }) + (if r is Ok {
                1int
            } else {
                0
            })
            &&& cached ==> is_feed(self.state(), publication, said[n])
            &&& r is Ok ==> is_feed(after.state(), publication, said.last())
        }
    }

    /// Fetch a feed's documents and report the feed: a window of the newest on the first
    /// fetch, only what is new later on.
    pub fn refresh_docs(&mut self, pub_uri: &str) -> (r: Result<(), WorkError<S::Error>>)
        ensures
            S::reliable() ==> cache_held(r),
            old(self).feed_refreshed(final(self), pub_uri@, r),
    {
        proof {
            reveal(Worker::feed_refreshed);
        }
        let ghost s = self.state();
        let updated = self.update_feed(pub_uri);
        let ghost mid = self.state();
        match updated {
            Ok(_) => {
                let r = self.send_feed(pub_uri);
                proof {
                    if r is Ok {
                        assert(r->Ok_0 == updated->Ok_0);
                        assert(r == updated);
                        let found = choose|
                            found: Result<(SpecPublication, SpecIdentity), SpecReadError>,
                        | #[trigger]
                            refreshed(old(self).transport, s, mid, pub_uri@, found, updated);
                        assert(refreshed(
                            old(self).transport,
                            s,
                            self.state(),
                            pub_uri@,
                            found,
                            r,
                        ));
                    }
                }
                r
            },
            Err(e) => Err(e),
        }
    }

    /// Report a feed from the cache, if it has documents, and refresh it.
    pub fn open_feed(&mut self, pub_uri: &str) -> (r: Result<(), WorkError<S::Error>>)
        ensures
            S::reliable() ==> cache_held(r),
            old(self).feed_opened(final(self), pub_uri@, r),
    {
        proof {
            reveal(Worker::feed_refreshed);
            reveal(Worker::feed_opened);
        }
        let ghost first = self.said();
        assert(first.take(first.len() as int) =~= first);
        match self.has_documents(pub_uri) {
            Ok(true) => match self.send_feed(pub_uri) {
                Ok(_) => {},
                Err(e) => return Err(e),
            },
            Ok(false) => {},
            Err(e) => return Err(e),
        }
        let ghost mid = self.said();
        assert(mid.take(first.len() as int) =~= first);
        let r = self.refresh_docs(pub_uri);
        proof {
            if r is Ok {
                assert(self.said().drop_last() == mid);
                assert(self.said().take(first.len() as int) =~= first) by {
                    assert forall|i: int| 0 <= i < first.len() implies self.said()[i]
                        == first[i] by {
                        assert(self.said().drop_last()[i] == mid[i]);
                        assert(mid.take(first.len() as int)[i] == first[i]);
                    }
                }
                if mid.len() == first.len() + 1 {
                    assert(self.said().drop_last()[first.len() as int] == mid[first.len() as int]);
                    assert(mid.last() == mid[first.len() as int]);
                }
            }
        }
        r
    }
}

// --- Older documents --------------------------------------------------------------

/// Where the older documents of a publication's repository continue, and which repository
/// that is; `None` where none are left to fetch.
pub open spec fn older_at(s: StoreState, publication: Seq<char>) -> Option<
    (Seq<char>, Seq<char>),
> {
    match owner_of(publication) {
        None => None,
        Some(did) => match lookup(s.older_cursors, did) {
            None => None,
            Some(c) => if c.len() == 0 {
                None
            } else {
                Some((did, c))
            },
        },
    }
}

/// What the next window of a repository's older documents came to before it was reported.
pub open spec fn older_taken<T: Transport, E>(
    t: T,
    did: Seq<char>,
    cursor: Seq<char>,
    s: StoreState,
    after: StoreState,
    server: Result<Seq<char>, SpecReadError>,
    page: Result<SpecDocPage, SpecReadError>,
    r: Result<(), WorkError<E>>,
) -> bool {
    match server {
        Err(e) => (r matches Err(WorkError::Read(f)) && f@ == e) && after == s,
        Ok(pds) => {
            &&& window_read(t, SpecIdentity { did, pds }, Some(cursor), WINDOW_PAGES, page)
            &&& match (r, page) {
                (Ok(_), Ok(page)) => after == window_kept(s, did, page),
                (Err(WorkError::Read(e)), Err(f)) => e@ == f && after == s,
                (Err(WorkError::Store(_)), Ok(_)) => true,
                _ => false,
            }
        },
    }
}

/// What the next window of older documents came to, whichever server was asked and whatever
/// it answered.
pub open spec fn older_came<T: Transport, E>(
    t: T,
    known: Map<Seq<char>, Seq<char>>,
    learned: Map<Seq<char>, Seq<char>>,
    did: Seq<char>,
    cursor: Seq<char>,
    s: StoreState,
    after: StoreState,
    r: Result<(), WorkError<E>>,
) -> bool {
    exists|server: Result<Seq<char>, SpecReadError>, page: Result<SpecDocPage, SpecReadError>|
        {
            &&& server_known(t, known, did, server)
            &&& learned == with_server(known, did, server)
            &&& #[trigger] older_taken(t, did, cursor, s, after, server, page, r)
        }
}

impl<T: Transport, S: FrontendStore, A: AuthProvider> Worker<T, S, A> {
    /// The next window of older documents was kept and the feed reported with it, or why
    /// not. Where no older ones are left nothing happens.
    #[verifier::opaque]
    pub open spec fn older_loaded(
        &self,
        after: &Self,
        publication: Seq<char>,
        r: Result<(), WorkError<S::Error>>,
    ) -> bool {
        &&& after.same_seams(self)
        &&& after.account == self.account
        &&& match older_at(self.state(), publication) {
            None => *after == *self && (r is Ok || cache_failed(r)),
            Some((did, cursor)) => {
                &&& servers_learned(self.transport, self.servers(), after.servers(), did)
                &&& cache_failed(r) || older_came(
                    self.transport,
                    self.servers(),
                    after.servers(),
                    did,
                    cursor,
                    self.state(),
                    after.state(),
                    r,
                )
                &&& match r {
                    Ok(_) => {
                        &&& after.said().len() == self.said().len() + 1
                        &&& after.said().drop_last() == self.said()
                        &&& is_feed(after.state(), publication, after.said().last())
                    },
                    Err(_) => after.said() == self.said(),
                }
            },
        }
    }

    fn find_older(&self, pub_uri: &str) -> (r: Result<
        Option<(String, String)>,
        WorkError<S::Error>,
    >)
        ensures
            S::reliable() ==> cache_held(r),
            match r {
                Ok(Some((did, c))) => older_at(self.state(), pub_uri@) == Some((did@, c@)),
                Ok(None) => older_at(self.state(), pub_uri@) is None,
                Err(e) => e is Store,
            },
    {
        match did_of(pub_uri) {
            Some(did) => match self.store.older_cursor(did.as_str()) {
                Ok(Some(c)) => if c.as_str().is_empty() {
                    Ok(None)
                } else {
                    Ok(Some((did, c)))
                },
                Ok(None) => Ok(None),
                Err(e) => Err(WorkError::Store(e)),
            },
            None => Ok(None),
        }
    }

    /// Fetch the next window of older documents of a feed's repository, and report the
    /// feed.
    pub fn load_older(&mut self, pub_uri: &str) -> (r: Result<(), WorkError<S::Error>>)
        ensures
            S::reliable() ==> cache_held(r),
            old(self).older_loaded(final(self), pub_uri@, r),
    {
        proof {
            reveal(Worker::older_loaded);
        }
        let ghost t = self.transport;
        let ghost s = self.state();
        let ghost known = self.servers();
        let (did, cursor) = match self.find_older(pub_uri) {
            Ok(Some(found)) => found,
            Ok(None) => return Ok(()),
            Err(e) => return Err(e),
        };
        let found = self.pds_for(did.as_str());
        let ghost server = text_result(found);
        assert(server_known(t, known, did@, server));
        let ghost learned = self.servers();
        let pds = match found {
            Ok(p) => p,
            Err(e) => {
                let r: Result<(), WorkError<S::Error>> = Err(WorkError::Read(e));
                assert(older_taken(
                    t,
                    did@,
                    cursor@,
                    s,
                    self.state(),
                    server,
                    Err(SpecReadError::Parse(Seq::empty())),
                    r,
                ));
                assert(older_came(t, known, learned, did@, cursor@, s, self.state(), r));
                return r;
            },
        };
        let repo = Identity { did, pds };
        let got = self.take_window(&repo, Some(cursor.as_str()));
        let ghost page = choose|page: Result<SpecDocPage, SpecReadError>|
            {
                &&& #[trigger] window_read(t, repo@, Some(cursor@), WINDOW_PAGES, page)
                &&& window_taken(s, self.state(), repo@.did, page, taken_view(got))
            };
        assert(repo@ == SpecIdentity { did: did@, pds: server->Ok_0 });
        match got {
            Ok(_) => {
                let r = self.send_feed(pub_uri);
                assert(cache_failed(r) || older_taken(
                    t,
                    did@,
                    cursor@,
                    s,
                    self.state(),
                    server,
                    page,
                    r,
                ));
                assert(cache_failed(r) || older_came(
                    t,
                    known,
                    learned,
                    did@,
                    cursor@,
                    s,
                    self.state(),
                    r,
                ));
                r
            },
            Err(e) => {
                let r: Result<(), WorkError<S::Error>> = Err(e);
                assert(older_taken(t, did@, cursor@, s, self.state(), server, page, r));
                assert(older_came(t, known, learned, did@, cursor@, s, self.state(), r));
                r
            },
        }
    }
}

// --- Following --------------------------------------------------------------------

/// What came of writing the record of a new follow: nothing was written, a key, or a
/// message.
pub type Written = Option<Result<Seq<char>, Seq<char>>>;

/// A follow was added, and mirrored as far as `written` says.
pub open spec fn followed(s: StoreState, publication: Seq<char>, written: Written) -> StoreState {
    match written {
        Some(Ok(rkey)) => s.with_follow(publication).with_follow_rkey(publication, rkey),
        _ => s.with_follow(publication),
    }
}

/// What is reported of mirroring a follow: only that it failed.
pub open spec fn follow_events(written: Written) -> Seq<SpecEvent> {
    match written {
        Some(Err(e)) => seq![
            SpecEvent::Status("followed locally; upstream sync failed: "@ + e),
        ],
        _ => Seq::empty(),
    }
}

/// Creating a record was tried, where signing in is possible at all.
pub open spec fn record_tried<A: AuthProvider>(
    auth: Option<A>,
    did: Seq<char>,
    publication: Seq<char>,
    reply: Result<Seq<char>, Seq<char>>,
) -> bool {
    match auth {
        Some(a) => a.created(did, publication, reply),
        None => reply == Err::<Seq<char>, Seq<char>>("auth unavailable"@),
    }
}

impl<T: Transport, S: FrontendStore, A: AuthProvider> Worker<T, S, A> {
    /// `written` is what came of mirroring a follow: tried for a new one while signed
    /// in, and only then.
    pub open spec fn follow_written(&self, publication: Seq<char>, written: Written) -> bool {
        match self.who() {
            Some(a) => if self.state().follows.dom().contains(publication) {
                written is None
            } else {
                written matches Some(reply) && record_tried(
                    self.auth,
                    a.did,
                    publication,
                    reply,
                )
            },
            None => written is None,
        }
    }

    pub(crate) fn create_subscription(&self, did: &str, pub_uri: &str) -> (r: Result<
        String,
        String,
    >)
        ensures
            record_tried(self.auth, did@, pub_uri@, text_reply(r)),
    {
        match &self.auth {
            Some(a) => a.create_subscription(did, pub_uri),
            None => Err(owned("auth unavailable")),
        }
    }

    pub(crate) fn account_did(&self) -> (r: Option<String>)
        ensures
            opt_view(r) == (match self.who() {
                Some(a) => Some(a.did),
                None => None,
            }),
    {
        match &self.account {
            Some(a) => Some(a.did.clone()),
            None => None,
        }
    }

    /// Add a follow, and mirror a new one as a record while signed in.
    pub(crate) fn follow(&mut self, pub_uri: &str) -> (r: Result<(), WorkError<S::Error>>)
        ensures
            S::reliable() ==> cache_held(r),
            final(self).same_world(old(self)),
            final(self).account == old(self).account,
            r is Ok ==> exists|written: Written|
                {
                    &&& #[trigger] old(self).follow_written(pub_uri@, written)
                    &&& final(self).state() == followed(old(self).state(), pub_uri@, written)
                    &&& final(self).said() == old(self).said() + follow_events(written)
                },
            r matches Err(e) ==> e is Store && final(self).said() == old(self).said(),
    {
        let newly = match self.store.is_followed(pub_uri) {
            Ok(b) => !b,
            Err(e) => return Err(WorkError::Store(e)),
        };
        match self.store.follow(pub_uri) {
            Ok(_) => {},
            Err(e) => return Err(WorkError::Store(e)),
        }
        let did = self.account_did();
        let mut done = false;
        if newly {
            if let Some(did) = did {
                let reply = self.create_subscription(did.as_str(), pub_uri);
                let ghost written: Written = Some(text_reply(reply));
                assert(old(self).follow_written(pub_uri@, written));
                match reply {
                    Ok(rkey) => match self.store.set_follow_rkey(pub_uri, rkey.as_str()) {
                        Ok(_) => {
                            assert(self.said() =~= old(self).said() + follow_events(written));
                        },
                        Err(e) => return Err(WorkError::Store(e)),
                    },
                    Err(e) => {
                        let m = join2("followed locally; upstream sync failed: ", e.as_str());
                        self.send(FromWorker::Status(m));
                        assert(self.said() =~= old(self).said() + follow_events(written));
                    },
                }
                done = true;
            }
        }
        if !done {
            let ghost written: Written = None;
            assert(old(self).follow_written(pub_uri@, written));
            assert(self.said() =~= old(self).said() + follow_events(written));
        }
        Ok(())
    }
}

// --- Unfollowing ------------------------------------------------------------------

/// What came of deleting the record of a follow: not tried, done, or a message.
pub type Deleted = Option<Result<(), Seq<char>>>;

/// What is reported of deleting a record: only that it failed.
pub open spec fn unfollow_events(deleted: Deleted) -> Seq<SpecEvent> {
    match deleted {
        Some(Err(e)) => seq![
            SpecEvent::Status("removed locally; upstream delete failed: "@ + e),
        ],
        _ => Seq::empty(),
    }
}

impl<T: Transport, S: FrontendStore, A: AuthProvider> Worker<T, S, A> {
    /// `deleted` is what came of deleting the record of a follow: tried if its key is
    /// known and someone is signed in.
    pub open spec fn record_deleted(&self, publication: Seq<char>, deleted: Deleted) -> bool {
        match (self.who(), self.state().follow_rkey(publication), self.auth) {
            (Some(a), Some(rkey), Some(auth)) => deleted matches Some(reply) && auth.deleted(
                a.did,
                rkey,
                reply,
            ),
            _ => deleted is None,
        }
    }

    fn delete_record(&mut self, pub_uri: &str) -> (r: Result<(), WorkError<S::Error>>)
        ensures
            S::reliable() ==> cache_held(r),
            final(self).same_world(old(self)),
            final(self).account == old(self).account,
            final(self).store == old(self).store,
            r is Ok ==> exists|deleted: Deleted|
                {
                    &&& #[trigger] old(self).record_deleted(pub_uri@, deleted)
                    &&& final(self).said() == old(self).said() + unfollow_events(deleted)
                },
            r is Err ==> cache_failed(r) && final(self).said() == old(self).said(),
    {
        let did = self.account_did();
        let ghost mut deleted: Deleted = None;
        if let Some(did) = did {
            let rkey = match self.store.follow_rkey(pub_uri) {
                Ok(k) => k,
                Err(e) => return Err(WorkError::Store(e)),
            };
            if let Some(rkey) = rkey {
                let reply = match &self.auth {
                    Some(a) => Some(a.delete_subscription(did.as_str(), rkey.as_str())),
                    None => None,
                };
                if let Some(reply) = reply {
                    proof {
                        deleted = Some(unit_reply(reply));
                    }
                    if let Err(e) = reply {
                        let m = join2("removed locally; upstream delete failed: ", e.as_str());
                        self.send(FromWorker::Status(m));
                    }
                }
            }
        }
        assert(old(self).record_deleted(pub_uri@, deleted));
        assert(self.said() =~= old(self).said() + unfollow_events(deleted));
        Ok(())
    }

    /// A follow was dropped, and its record where one is known; then the feeds were
    /// reported. Only the cache can prevent that.
    #[verifier::opaque]
    pub open spec fn unfollowed(
        &self,
        after: &Self,
        publication: Seq<char>,
        r: Result<(), WorkError<S::Error>>,
    ) -> bool {
        &&& after.same_world(self)
        &&& after.account == self.account
        &&& said_more(self.said(), after.said())
        &&& r is Err ==> cache_failed(r)
        &&& r is Ok ==> exists|deleted: Deleted|
            {
                &&& #[trigger] self.record_deleted(publication, deleted)
                &&& after.state() == self.state().without_follow(publication)
                &&& after.said().len() > 0
                &&& after.said().drop_last() == self.said() + unfollow_events(deleted)
                &&& is_home(after.state(), after.said().last())
            }
    }

    /// Drop a follow, and its record where one is known; then report the feeds.
    pub fn unfollow(&mut self, pub_uri: &str) -> (r: Result<(), WorkError<S::Error>>)
        ensures
            S::reliable() ==> cache_held(r),
            old(self).unfollowed(final(self), pub_uri@, r),
    {
        proof {
            reveal(Worker::unfollowed);
        }
        assert(self.said().take(self.said().len() as int) =~= self.said());
        match self.delete_record(pub_uri) {
            Ok(_) => {},
            Err(e) => return Err(e),
        }
        assert(said_more(old(self).said(), self.said())) by {
            assert(self.said().take(old(self).said().len() as int) =~= old(self).said());
        }
        match self.store.unfollow(pub_uri) {
            Ok(_) => {},
            Err(e) => return Err(WorkError::Store(e)),
        }
        let ghost mid = self.said();
        let r = self.load_home();
        proof {
            if r is Ok {
                assert(self.said().drop_last() == mid);
                assert(self.said() =~= mid.push(self.said().last()));
                lemma_said_push(old(self).said(), mid, self.said().last());
            }
        }
        r
    }
}

} // verus!
