//! Signing in and out, and the commands of the screen.
use vstd::prelude::*;

use crate::account::{opt_account, Account, SpecAccount};
use crate::atp::Transport;
use crate::auth_provider::{
    login_reply, restore_reply, text_reply, unit_reply, AuthProvider, LoginOutcome, SpecLogin,
};
use crate::store::{FrontendStore, Store, StoreState};
use crate::text::{decimal, decimal_of, join2, owned, strings_view};
use crate::url::{normalize, normalized};
use crate::worker::accounts::said_more;
use crate::worker::docs::Undecoded;
use crate::worker::follows::record_tried;
use crate::worker::session::{error_text, is_error_text, synced};
use crate::worker::tasks::{cache_held, is_home, WorkError, Worker};
use crate::worker::{FromWorker, SpecCommand, SpecEvent, ToWorker};

verus! {

// --- Subscribing to local follows -------------------------------------------------

/// What creating a record came to.
pub type RecordReply = Result<Seq<char>, Seq<char>>;

/// A record was tried for each publication.
pub open spec fn all_tried<A: AuthProvider>(
    auth: Option<A>,
    did: Seq<char>,
    uris: Seq<Seq<char>>,
    replies: Seq<RecordReply>,
) -> bool {
    &&& replies.len() == uris.len()
    &&& forall|i: int|
        0 <= i < replies.len() ==> record_tried(auth, did, uris[i], #[trigger] replies[i])
}

/// With the keys of the records that were created.
pub open spec fn with_records(
    s: StoreState,
    uris: Seq<Seq<char>>,
    replies: Seq<RecordReply>,
    n: int,
) -> StoreState
    decreases n,
{
    if n <= 0 {
        s
    } else {
        let p = with_records(s, uris, replies, n - 1);
        match replies[n - 1] {
            Ok(rkey) => p.with_follow_rkey(uris[n - 1], rkey),
            Err(_) => p,
        }
    }
}

/// What is said of the records that could not be created.
pub open spec fn record_failures(
    uris: Seq<Seq<char>>,
    replies: Seq<RecordReply>,
    n: int,
) -> Seq<SpecEvent>
    decreases n,
{
    if n <= 0 {
        Seq::empty()
    } else {
        let p = record_failures(uris, replies, n - 1);
        match replies[n - 1] {
            Ok(_) => p,
            Err(e) => p.push(
                SpecEvent::Status("couldn't subscribe to "@ + uris[n - 1] + ": "@ + e),
            ),
        }
    }
}

/// How many records were created.
pub open spec fn created_count(replies: Seq<RecordReply>, n: int) -> nat
    decreases n,
{
    if n <= 0 {
        0
    } else {
        created_count(replies, n - 1) + (if replies[n - 1] is Ok {
            1nat
        } else {
            0
        })
    }
}

/// What is said once every publication was tried.
pub open spec fn subscribed_status(n: nat) -> SpecEvent {
    SpecEvent::Status("subscribed to "@ + decimal(n) + " feed(s)"@)
}

/// Local follows became subscriptions, as far as the replies go.
pub open spec fn local_subscribed(
    s: StoreState,
    after: StoreState,
    said: Seq<SpecEvent>,
    said_after: Seq<SpecEvent>,
    uris: Seq<Seq<char>>,
    replies: Seq<RecordReply>,
) -> bool {
    let n = replies.len() as int;
    &&& after == with_records(s, uris, replies, n)
    &&& said_after.len() > 0
    &&& said_after.drop_last() == (said + record_failures(uris, replies, n)).push(
        subscribed_status(created_count(replies, n)),
    )
    &&& is_home(after, said_after.last())
}

proof fn lemma_replies_push(
    s: StoreState,
    uris: Seq<Seq<char>>,
    replies: Seq<RecordReply>,
    reply: RecordReply,
    n: int,
)
    requires
        0 <= n <= replies.len(),
    ensures
        with_records(s, uris, replies.push(reply), n) == with_records(s, uris, replies, n),
        record_failures(uris, replies.push(reply), n) == record_failures(uris, replies, n),
        created_count(replies.push(reply), n) == created_count(replies, n),
        created_count(replies, n) <= n,
    decreases n,
{
    if n > 0 {
        lemma_replies_push(s, uris, replies, reply, n - 1);
        assert(replies.push(reply)[n - 1] == replies[n - 1]);
    }
}

fn failure_text(uri: &str, e: &str) -> (r: String)
    ensures
        r@ == "couldn't subscribe to "@ + uri@ + ": "@ + e@,
{
    let mut m = join2("couldn't subscribe to ", uri);
    m.push_str(": ");
    m.push_str(e);
    m
}

fn count_text(n: usize) -> (r: String)
    ensures
        r@ == "subscribed to "@ + decimal(n as nat) + " feed(s)"@,
{
    let mut m = owned("subscribed to ");
    let d = decimal_of(n as u64);
    m.push_str(d.as_str());
    m.push_str(" feed(s)");
    m
}

impl<T: Transport, S: FrontendStore, A: AuthProvider> Worker<T, S, A> {
    /// Records were tried for local follows and the feeds reported. Without an account
    /// nothing is tried, and only the cache can prevent it otherwise.
    #[verifier::opaque]
    pub open spec fn locals_subscribed(
        &self,
        after: &Self,
        uris: Seq<Seq<char>>,
        r: Result<(), WorkError<S::Error>>,
    ) -> bool {
        &&& after.same_world(self)
        &&& after.account == self.account
        &&& match self.who() {
            None => {
                &&& r is Ok
                &&& after.state() == self.state()
                &&& after.said() == self.said().push(SpecEvent::Error("not logged in"@))
            },
            Some(a) => match r {
                Ok(_) => exists|replies: Seq<RecordReply>| #[trigger]
                    all_tried(self.auth, a.did, uris, replies) && local_subscribed(
                        self.state(),
                        after.state(),
                        self.said(),
                        after.said(),
                        uris,
                        replies,
                    ),
                Err(e) => e is Store && said_more(self.said(), after.said()),
            },
        }
    }

    /// Write subscription records for local follows, and report the feeds.
    pub fn subscribe_local(&mut self, pub_uris: &Vec<String>) -> (r: Result<
        (),
        WorkError<S::Error>,
    >)
        ensures
            S::reliable() ==> cache_held(r),
            old(self).locals_subscribed(final(self), strings_view(pub_uris@), r),
    {
        proof {
            reveal(Worker::locals_subscribed);
        }
        let did = match self.account_did() {
            Some(d) => d,
            None => {
                self.send(FromWorker::Error(owned("not logged in")));
                return Ok(());
            },
        };
        let ghost uris = strings_view(pub_uris@);
        let ghost s = self.state();
        let ghost said = self.said();
        let ghost mut replies: Seq<RecordReply> = Seq::empty();
        let mut subscribed: usize = 0;
        let mut i: usize = 0;
        assert(said + record_failures(uris, replies, 0) =~= said);
        while i < pub_uris.len()
            invariant
                i <= pub_uris@.len(),
                uris == strings_view(pub_uris@),
                uris.len() == pub_uris@.len(),
                self.same_world(old(self)),
                self.account == old(self).account,
                opt_account(old(self).account) is Some,
                did@ == opt_account(old(self).account)->0.did,
                s == old(self).state(),
                said == old(self).said(),
                replies.len() == i,
                forall|k: int|
                    0 <= k < i ==> record_tried(
                        old(self).auth,
                        did@,
                        uris[k],
                        #[trigger] replies[k],
                    ),
                self.state() == with_records(s, uris, replies, i as int),
                self.said() == said + record_failures(uris, replies, i as int),
                subscribed == created_count(replies, i as int),
                subscribed <= i,
            decreases pub_uris@.len() - i,
        {
            proof {
                reveal(Worker::locals_subscribed);
            }
            assert(said_more(said, self.said())) by {
                assert(self.said().take(said.len() as int) =~= said);
            }
            let uri = pub_uris[i].as_str();
            assert(uris[i as int] == uri@);
            let reply = self.create_subscription(did.as_str(), uri);
            let ghost before = replies;
            proof {
                let v = text_reply(reply);
                lemma_replies_push(s, uris, replies, v, i as int);
                replies = replies.push(v);
                assert(replies[i as int] == v);
                assert forall|k: int| 0 <= k < i + 1 implies record_tried(
                    old(self).auth,
                    did@,
                    uris[k],
                    #[trigger] replies[k],
                ) by {
                    if k < i {
                        assert(replies[k] == before[k]);
                    }
                }
            }
            match reply {
                Ok(rkey) => {
                    match self.store.set_follow_rkey(uri, rkey.as_str()) {
                        Ok(_) => {},
                        Err(e) => return Err(WorkError::Store(e)),
                    }
                    subscribed = subscribed + 1;
                },
                Err(e) => {
                    let ghost had = self.said();
                    self.send(FromWorker::Status(failure_text(uri, e.as_str())));
                    assert(self.said() =~= said + record_failures(uris, replies, i + 1));
                },
            }
            i = i + 1;
        }
        self.send(FromWorker::Status(count_text(subscribed)));
        let ghost last = self.said();
        assert(said_more(said, last)) by {
            assert(last.take(said.len() as int) =~= said);
        }
        let r = self.load_home();
        proof {
            if r is Ok {
                assert(self.said().drop_last() == last);
                assert(all_tried(old(self).auth, did@, uris, replies));
                assert(local_subscribed(s, self.state(), said, self.said(), uris, replies));
            }
        }
        r
    }
}

// --- Signing in and out -----------------------------------------------------------

/// What is reported once the follows were to be reconciled: a failure, after what was
/// said before it.
pub open spec fn is_sync_report<E>(
    said: Seq<SpecEvent>,
    said_after: Seq<SpecEvent>,
    done: Result<bool, WorkError<E>>,
) -> bool {
    match done {
        Ok(_) => said_after == said,
        Err(e) => exists|text: Seq<char>| #[trigger]
            is_error_text(e, text) && said_after == said.push(
                SpecEvent::Error("syncing subscriptions: "@ + text),
            ),
    }
}

impl<T: Transport, S: FrontendStore, A: AuthProvider> Worker<T, S, A> {
    /// Take over an account that was signed in, and say so.
    fn welcome(&mut self, account: &Account)
        ensures
            final(self).same_world(old(self)),
            final(self).store == old(self).store,
            final(self).who() == Some(account@),
            final(self).said() == old(self).said().push(SpecEvent::Account(Some(account@))),
    {
        self.account = Some(account.clone());
        self.send(FromWorker::Account(Some(account.clone())));
    }

    /// Nothing but the results differs.
    pub open spec fn only_said(&self, after: &Self, said: Seq<SpecEvent>) -> bool {
        &&& after.state() == self.state()
        &&& after.who() == self.who()
        &&& after.said() == said
    }

    /// What follows from restoring a session: the account is reported, and for one that
    /// came back the follows are reconciled.
    #[verifier::opaque]
    pub open spec fn session_restored(
        &self,
        after: &Self,
        reply: Result<Option<SpecAccount>, Seq<char>>,
    ) -> bool {
        &&& after.same_world(self)
        &&& match reply {
            Ok(None) => self.only_said(after, self.said().push(SpecEvent::Account(None))),
            Err(e) => self.only_said(
                after,
                self.said().push(SpecEvent::Account(None)).push(
                    SpecEvent::Error("restoring session: "@ + e),
                ),
            ),
            Ok(Some(a)) => {
                &&& after.who() == Some(a)
                &&& exists|said: Seq<SpecEvent>, done: Result<bool, WorkError<S::Error>>|
                    {
                        &&& #[trigger] synced(
                            self.transport,
                            a.did,
                            self.state(),
                            after.state(),
                            self.said().push(SpecEvent::Account(Some(a))),
                            said,
                            done,
                        )
                        &&& S::reliable() ==> cache_held(done) && !(done matches Ok(false))
                        &&& is_sync_report(said, after.said(), done)
                    }
            },
        }
    }

    /// What follows from signing in: an address to go to, a message, or an account that
    /// is taken over and reported before the follows are reconciled.
    #[verifier::opaque]
    pub open spec fn login_answered(
        &self,
        after: &Self,
        reply: Result<SpecLogin, Seq<char>>,
        r: Result<Option<String>, WorkError<S::Error>>,
    ) -> bool {
        &&& after.same_world(self)
        &&& match reply {
            Err(e) => {
                &&& r matches Ok(None)
                &&& self.only_said(
                    after,
                    self.said().push(SpecEvent::Error("log-in failed: "@ + e)),
                )
            },
            Ok(SpecLogin::Redirect(url)) => {
                &&& r matches Ok(Some(to)) && to@ == url
                &&& self.only_said(after, self.said())
            },
            Ok(SpecLogin::Authenticated(a)) => {
                &&& after.who() == Some(a)
                &&& exists|done: Result<bool, WorkError<S::Error>>|
                    {
                        &&& #[trigger] synced(
                            self.transport,
                            a.did,
                            self.state(),
                            after.state(),
                            self.said().push(SpecEvent::Account(Some(a))).push(
                                SpecEvent::Status("logged in as @"@ + a.handle),
                            ),
                            after.said(),
                            done,
                        )
                        &&& S::reliable() ==> cache_held(done) && !(done matches Ok(false))
                        &&& match done {
                            Ok(_) => r matches Ok(None),
                            Err(e) => r == Err::<Option<String>, WorkError<S::Error>>(e),
                        }
                    }
            },
        }
    }

    /// Go on from what restoring a session came to.
    pub fn finish_restore(&mut self, restored: Result<Option<Account>, String>)
        ensures
            old(self).session_restored(final(self), restore_reply(restored)),
    {
        proof {
            reveal(Worker::session_restored);
        }
        match restored {
            Ok(Some(account)) => {
                self.welcome(&account);
                let ghost first = self.said();
                let done = self.sync_subscriptions(account.did.as_str());
                let ghost said = self.said();
                let ghost came = done;
                assert(restore_reply(restored) == Ok::<Option<SpecAccount>, Seq<char>>(
                    Some(account@),
                ));
                assert(first == old(self).said().push(SpecEvent::Account(Some(account@))));
                if let Err(e) = done {
                    let text = error_text::<S>(&e);
                    let m = join2("syncing subscriptions: ", text.as_str());
                    self.send(FromWorker::Error(m));
                    assert(is_error_text(e, text@));
                }
                assert(synced(
                    old(self).transport,
                    account@.did,
                    old(self).state(),
                    self.state(),
                    first,
                    said,
                    came,
                ));
                assert(is_sync_report(said, self.said(), came));
            },
            Ok(None) => {
                self.send(FromWorker::Account(None));
            },
            Err(e) => {
                self.send(FromWorker::Account(None));
                self.send(FromWorker::Error(join2("restoring session: ", e.as_str())));
            },
        }
    }

    /// Restore a kept session at the start, and reconcile the follows.
    pub fn restore_session(&mut self)
        ensures
            match old(self).auth {
                None => old(self).session_restored(
                    final(self),
                    Ok::<Option<SpecAccount>, Seq<char>>(None),
                ),
                Some(a) => exists|reply: Result<Option<SpecAccount>, Seq<char>>| #[trigger]
                    a.restored(reply) && old(self).session_restored(final(self), reply),
            },
    {
        let restored = match &self.auth {
            Some(a) => a.restore(),
            None => Ok(None),
        };
        assert(old(self).auth matches Some(a) ==> a.restored(restore_reply(restored)));
        self.finish_restore(restored);
    }

    /// Go on from what signing in came to. An address in the result is one that the page
    /// has to go to.
    pub fn finish_login(&mut self, outcome: Result<LoginOutcome, String>) -> (r: Result<
        Option<String>,
        WorkError<S::Error>,
    >)
        ensures
            S::reliable() ==> cache_held(r),
            old(self).login_answered(final(self), login_reply(outcome), r),
    {
        proof {
            reveal(Worker::login_answered);
        }
        match outcome {
            Ok(LoginOutcome::Authenticated(account)) => {
                self.welcome(&account);
                let m = join2("logged in as @", account.handle.as_str());
                self.send(FromWorker::Status(m));
                let ghost first = self.said();
                let done = self.sync_subscriptions(account.did.as_str());
                assert(synced(
                    old(self).transport,
                    account@.did,
                    old(self).state(),
                    self.state(),
                    first,
                    self.said(),
                    done,
                ));
                assert(login_reply(outcome) == Ok::<SpecLogin, Seq<char>>(
                    SpecLogin::Authenticated(account@),
                ));
                assert(first == old(self).said().push(SpecEvent::Account(Some(account@))).push(
                    SpecEvent::Status("logged in as @"@ + account@.handle),
                ));
                match done {
                    Ok(_) => Ok(None),
                    Err(e) => Err(e),
                }
            },
            Ok(LoginOutcome::Redirect(url)) => Ok(Some(url)),
            Err(e) => {
                self.send(FromWorker::Error(join2("log-in failed: ", e.as_str())));
                Ok(None)
            },
        }
    }

    /// Signing in was tried with a normalised name, where that is possible at all.
    pub open spec fn login_tried(
        &self,
        after: &Self,
        ident: Seq<char>,
        r: Result<Option<String>, WorkError<S::Error>>,
    ) -> bool {
        match self.auth {
            None => {
                &&& after.same_world(self)
                &&& r matches Ok(None)
                &&& self.only_said(
                    after,
                    self.said().push(SpecEvent::Error("log-in is unavailable"@)),
                )
            },
            Some(a) => exists|reply: Result<SpecLogin, Seq<char>>| #[trigger]
                a.signed(normalized(ident), reply) && self.login_answered(after, reply, r),
        }
    }

    /// Sign in with a handle or DID. An address in the result is one that the page has to
    /// go to.
    pub fn login(&mut self, ident: &str) -> (r: Result<Option<String>, WorkError<S::Error>>)
        ensures
            S::reliable() ==> cache_held(r),
            old(self).login_tried(final(self), ident@, r),
    {
        let name = normalize(ident);
        let outcome = match &self.auth {
            Some(a) => a.login(name.as_str()),
            None => {
                self.send(FromWorker::Error(owned("log-in is unavailable")));
                return Ok(None);
            },
        };
        assert(old(self).auth->0.signed(normalized(ident@), login_reply(outcome)));
        self.finish_login(outcome)
    }

    /// The shell was told to end the session, nobody is signed in any more, whatever the
    /// shell answered, and the cache is as it was.
    pub open spec fn logged_out(&self, after: &Self) -> bool {
        &&& self.auth matches Some(a) ==> exists|reply: Result<(), Seq<char>>| #[trigger]
            a.left(reply)
        &&& after.same_world(self)
        &&& after.store == self.store
        &&& after.who() is None
        &&& after.said() == self.said().push(SpecEvent::Account(None)).push(
            SpecEvent::Status("logged out"@),
        )
    }

    /// Sign out, whatever the server says. The follows stay.
    pub fn logout(&mut self)
        ensures
            old(self).logged_out(final(self)),
    {
        if let Some(a) = &self.auth {
            let reply = a.logout();
            assert(old(self).auth->0.left(unit_reply(reply)));
        }
        self.account = None;
        self.send(FromWorker::Account(None));
        self.send(FromWorker::Status(owned("logged out")));
    }
}

// --- Commands ---------------------------------------------------------------------

/// What became of a command.
pub enum Handled {
    /// It is done.
    Done,
    /// The page has to go to an address to sign in.
    Navigate(String),
    /// The bytes of an image have to be decoded, and the outcome handed to
    /// `Worker::image_decoded`.
    Decode(Undecoded),
    /// It is the shell's: keeping preferences, and ending the program.
    Left(ToWorker),
}

/// The command is the shell's.
pub open spec fn is_left(c: ToWorker) -> bool {
    c is SavePrefs || c is Quit
}

impl<T: Transport, S: FrontendStore, A: AuthProvider> Worker<T, S, A> {
    /// The cache took something over; nothing else differs, and nothing is reported.
    pub open spec fn kept(
        &self,
        after: &Self,
        state: StoreState,
        r: Result<(), WorkError<S::Error>>,
    ) -> bool {
        &&& after.same_but_store(self)
        &&& match r {
            Ok(_) => after.state() == state,
            Err(e) => e is Store,
        }
    }

    fn mark(&mut self, uri: &str, read: bool) -> (r: Result<(), WorkError<S::Error>>)
        ensures
            S::reliable() ==> cache_held(r),
            old(self).kept(final(self), old(self).state().with_read(uri@, read), r),
    {
        match self.store.set_read(uri, read) {
            Ok(_) => Ok(()),
            Err(e) => Err(WorkError::Store(e)),
        }
    }

    fn keep_show_images(&mut self, on: bool) -> (r: Result<(), WorkError<S::Error>>)
        ensures
            S::reliable() ==> cache_held(r),
            old(self).kept(
                final(self),
                (StoreState { show_images: on, ..old(self).state() }),
                r,
            ),
    {
        match self.store.set_show_images(on) {
            Ok(_) => Ok(()),
            Err(e) => Err(WorkError::Store(e)),
        }
    }

    /// Report at the start whether images are shown; they are where the cache cannot say.
    pub fn report_show_images(&mut self)
        ensures
            final(self).same_world(old(self)),
            final(self).store == old(self).store,
            final(self).account == old(self).account,
            final(self).said() == old(self).said().push(
                SpecEvent::ShowImages(old(self).state().show_images),
            ) || !S::reliable() && final(self).said() == old(self).said().push(
                SpecEvent::ShowImages(true),
            ),
    {
        let on = match self.store.show_images() {
            Ok(b) => b,
            Err(_) => true,
        };
        self.send(FromWorker::ShowImages(on));
    }

    /// A command that the worker carries out to its end was carried out: not one of the
    /// shell's, nor signing in or having an image.
    pub open spec fn carried_out(
        &self,
        after: &Self,
        command: SpecCommand,
        r: Result<(), WorkError<S::Error>>,
    ) -> bool {
        match command {
            SpecCommand::LoadHome => self.home_loaded(after, r),
            SpecCommand::AddFeed(input) => self.feed_added(after, input, r),
            SpecCommand::OpenFeed(uri) => self.feed_opened(after, uri, r),
            SpecCommand::OpenDoc(uri) => self.doc_opened(after, uri, r),
            SpecCommand::FreshenDoc(uri) => self.doc_fetched(after, uri, r),
            SpecCommand::Search(query) => self.searched(after, query, r),
            SpecCommand::Refresh(uri) => self.feed_refreshed(after, uri, r),
            SpecCommand::SetRead(uri, read) => self.kept(
                after,
                self.state().with_read(uri, read),
                r,
            ),
            SpecCommand::Unfollow(uri) => self.unfollowed(after, uri, r),
            SpecCommand::SetShowImages(on) => self.kept(
                after,
                StoreState { show_images: on, ..self.state() },
                r,
            ),
            SpecCommand::Logout => r is Ok && self.logged_out(after),
            SpecCommand::SubscribeLocal(uris) => self.locals_subscribed(after, uris, r),
            SpecCommand::FollowPublications(uris) => self.choices_followed(after, uris, r),
            SpecCommand::LoadOlder(uri) => self.older_loaded(after, uri, r),
            _ => false,
        }
    }

    fn carry_out(&mut self, msg: ToWorker) -> (r: Result<(), WorkError<S::Error>>)
        requires
            !is_left(msg),
            !(msg is Login),
            !(msg is LoadImage),
        ensures
            S::reliable() ==> cache_held(r),
            old(self).carried_out(final(self), msg@, r),
    {
        match msg {
            ToWorker::LoadHome => self.load_home(),
            ToWorker::AddFeed(input) => self.add_feed(input.as_str()),
            ToWorker::OpenFeed(uri) => self.open_feed(uri.as_str()),
            ToWorker::OpenDoc(uri) => self.open_doc(uri.as_str()),
            ToWorker::FreshenDoc(uri) => self.fetch_doc(uri.as_str()),
            ToWorker::Search(query) => self.search(query.as_str()),
            ToWorker::Refresh(uri) => self.refresh_docs(uri.as_str()),
            ToWorker::SetRead(uri, read) => self.mark(uri.as_str(), read),
            ToWorker::Unfollow(uri) => self.unfollow(uri.as_str()),
            ToWorker::SetShowImages(on) => self.keep_show_images(on),
            ToWorker::SubscribeLocal(uris) => self.subscribe_local(&uris),
            ToWorker::FollowPublications(uris) => self.follow_publications(&uris),
            ToWorker::LoadOlder(uri) => self.load_older(uri.as_str()),
            _ => {
                self.logout();
                Ok(())
            },
        }
    }

    /// Carry out a command.
    pub fn handle(&mut self, msg: ToWorker) -> (r: Result<Handled, WorkError<S::Error>>)
        ensures
            S::reliable() ==> cache_held(r),
            match (msg, r) {
                (ToWorker::Login(ident), Ok(Handled::Navigate(url))) => old(self).login_tried(
                    final(self),
                    ident@,
                    Ok(Some(url)),
                ),
                (ToWorker::Login(ident), Ok(Handled::Done)) => old(self).login_tried(
                    final(self),
                    ident@,
                    Ok(None),
                ),
                (ToWorker::Login(ident), Err(e)) => old(self).login_tried(
                    final(self),
                    ident@,
                    Err(e),
                ),
                (ToWorker::LoadImage { key, source }, Ok(Handled::Decode(u))) => old(
                    self,
                ).image_loaded(final(self), key@, source@, Ok(u)),
                (ToWorker::LoadImage { key, source }, Err(e)) => old(self).image_loaded(
                    final(self),
                    key@,
                    source@,
                    Err(e),
                ),
                (_, Ok(Handled::Decode(_))) => false,
                (_, Ok(Handled::Left(command))) => is_left(msg) && command == msg && *final(self)
                    == *old(self),
                (_, Ok(Handled::Done)) => !is_left(msg) && old(self).carried_out(
                    final(self),
                    msg@,
                    Ok(()),
                ),
                (_, Err(e)) => !is_left(msg) && old(self).carried_out(final(self), msg@, Err(e)),
                (_, Ok(Handled::Navigate(_))) => false,
            },
    {
        match msg {
            ToWorker::Login(ident) => match self.login(ident.as_str()) {
                Ok(Some(url)) => Ok(Handled::Navigate(url)),
                Ok(None) => Ok(Handled::Done),
                Err(e) => Err(e),
            },
            ToWorker::LoadImage { key, source } => match self.load_image(key, source) {
                Ok(u) => Ok(Handled::Decode(u)),
                Err(e) => Err(e),
            },
            ToWorker::SavePrefs(_) | ToWorker::Quit => Ok(Handled::Left(msg)),
            _ => match self.carry_out(msg) {
                Ok(done) => {
                    assert(done == ());
                    Ok(Handled::Done)
                },
                Err(e) => Err(e),
            },
        }
    }
}

} // verus!
