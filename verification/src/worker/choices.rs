//! Following the publications that were chosen of a repository that holds several.
use vstd::prelude::*;

use crate::account::SpecAccount;
use crate::atp::Transport;
use crate::auth_provider::AuthProvider;
use crate::store::{FrontendStore, StoreState};
use crate::text::{decimal, decimal_of, join2, owned, strings_view};
use crate::worker::accounts::{is_mirrored, said_more};
use crate::worker::follows::{follow_events, followed, Written};
use crate::worker::session::{
    error_text, import_event, import_failure, imported, is_import, is_import_result,
    lemma_with_documents_frame, Import,
};
use crate::worker::tasks::{cache_held, is_home, WorkError, Worker};
use crate::worker::{FromWorker, SpecEvent};

verus! {

/// What came of one chosen publication: of fetching it, and of mirroring its follow.
pub type Pick = (Import, Written);

/// What the cache holds after one chosen publication: it is followed if it could be
/// fetched.
pub open spec fn picked(s: StoreState, uri: Seq<char>, p: Pick) -> StoreState {
    if p.0 is Kept {
        followed(imported(s, uri, p.0), uri, p.1)
    } else {
        imported(s, uri, p.0)
    }
}

/// What the cache holds after chosen publications, one after the other.
pub open spec fn all_picked(s: StoreState, uris: Seq<Seq<char>>, picks: Seq<Pick>) -> StoreState
    decreases uris.len(),
{
    if uris.len() == 0 {
        s
    } else {
        picked(all_picked(s, uris.drop_last(), picks.drop_last()), uris.last(), picks.last())
    }
}

/// One chosen publication was fetched so, and its follow mirrored so.
pub open spec fn is_pick<T: Transport, A: AuthProvider>(
    t: T,
    auth: Option<A>,
    who: Option<SpecAccount>,
    s: StoreState,
    uri: Seq<char>,
    p: Pick,
) -> bool {
    &&& is_import(t, uri, p.0)
    &&& if p.0 is Kept {
        is_mirrored(auth, who, imported(s, uri, p.0), uri, p.1)
    } else {
        p.1 is None
    }
}

/// Each chosen publication was fetched and mirrored in its turn.
pub open spec fn are_picks<T: Transport, A: AuthProvider>(
    t: T,
    auth: Option<A>,
    who: Option<SpecAccount>,
    s: StoreState,
    uris: Seq<Seq<char>>,
    picks: Seq<Pick>,
) -> bool
    decreases uris.len(),
{
    &&& picks.len() == uris.len()
    &&& uris.len() > 0 ==> {
        let before = all_picked(s, uris.drop_last(), picks.drop_last());
        &&& are_picks(t, auth, who, s, uris.drop_last(), picks.drop_last())
        &&& is_pick(t, auth, who, before, uris.last(), picks.last())
    }
}

/// What is reported of chosen publications: what failed.
pub open spec fn pick_events(uris: Seq<Seq<char>>, picks: Seq<Pick>) -> Seq<SpecEvent>
    decreases uris.len(),
{
    if uris.len() == 0 {
        Seq::empty()
    } else {
        pick_events(uris.drop_last(), picks.drop_last()) + if picks.last().0 is Kept {
            follow_events(picks.last().1)
        } else {
            import_event(uris.last(), picks.last().0)
        }
    }
}

/// How many chosen publications could be fetched.
pub open spec fn picks_kept(picks: Seq<Pick>) -> nat
    decreases picks.len(),
{
    if picks.len() == 0 {
        0
    } else {
        picks_kept(picks.drop_last()) + (if picks.last().0 is Kept {
            1nat
        } else {
            0
        })
    }
}

/// What is said after the chosen publications were followed.
pub open spec fn picked_status(n: nat) -> Seq<char> {
    "followed "@ + decimal(n) + " publication(s)"@
}

fn describe_picked(n: usize) -> (r: String)
    ensures
        r@ == picked_status(n as nat),
{
    let mut s = owned("followed ");
    let d = decimal_of(n as u64);
    s.push_str(d.as_str());
    s.push_str(" publication(s)");
    s
}

/// A publication was chosen and could be fetched.
pub open spec fn was_picked(uris: Seq<Seq<char>>, picks: Seq<Pick>, uri: Seq<char>) -> bool {
    exists|i: int| 0 <= i < uris.len() && #[trigger] uris[i] == uri && picks[i].0 is Kept
}

/// Of the publications that were offered, those are followed that were chosen and could be
/// fetched, and no other; what was followed before still is.
pub proof fn law_only_the_chosen_are_followed(
    s: StoreState,
    uris: Seq<Seq<char>>,
    picks: Seq<Pick>,
    uri: Seq<char>,
)
    requires
        picks.len() == uris.len(),
    ensures
        all_picked(s, uris, picks).follows.dom().contains(uri) <==> s.follows.dom().contains(uri)
            || was_picked(uris, picks, uri),
    decreases uris.len(),
{
    if uris.len() > 0 {
        let (less, some) = (uris.drop_last(), picks.drop_last());
        law_only_the_chosen_are_followed(s, less, some, uri);
        let before = all_picked(s, less, some);
        if let Import::Kept { found, page } = picks.last().0 {
            lemma_with_documents_frame(before.with_publication(found.0), page.0);
        }
        assert(imported(before, uris.last(), picks.last().0).follows == before.follows);
        assert(was_picked(uris, picks, uri) <==> was_picked(less, some, uri) || uri == uris.last()
            && picks.last().0 is Kept) by {
            if was_picked(less, some, uri) {
                let i = choose|i: int|
                    0 <= i < less.len() && #[trigger] less[i] == uri && some[i].0 is Kept;
                assert(uris[i] == uri);
            }
            if uri == uris.last() && picks.last().0 is Kept {
                assert(uris[uris.len() - 1] == uri);
            }
            if was_picked(uris, picks, uri) {
                let i = choose|i: int|
                    0 <= i < uris.len() && #[trigger] uris[i] == uri && picks[i].0 is Kept;
                if i < less.len() {
                    assert(less[i] == uri);
                }
            }
        }
    }
}

impl<T: Transport, S: FrontendStore, A: AuthProvider> Worker<T, S, A> {
    /// Fetch one chosen publication and follow it; whether it could be fetched.
    fn pick(&mut self, uri: &str) -> (r: Result<bool, WorkError<S::Error>>)
        ensures
            S::reliable() ==> cache_held(r),
            final(self).same_world(old(self)),
            final(self).account == old(self).account,
            match r {
                Ok(kept) => exists|p: Pick|
                    {
                        &&& #[trigger] is_pick(
                            old(self).transport,
                            old(self).auth,
                            old(self).who(),
                            old(self).state(),
                            uri@,
                            p,
                        )
                        &&& kept == (p.0 is Kept)
                        &&& final(self).state() == picked(old(self).state(), uri@, p)
                        &&& final(self).said() == old(self).said() + (if p.0 is Kept {
                            follow_events(p.1)
                        } else {
                            import_event(uri@, p.0)
                        })
                    },
                Err(e) => e is Store && final(self).said() == old(self).said(),
            },
    {
        let ghost t = self.transport;
        let ghost s = self.state();
        let ghost said = self.said();
        let done = self.cache_publication(uri);
        let ghost import = choose|x: Import|
            {
                &&& #[trigger] is_import(t, uri@, x)
                &&& is_import_result(x, done)
                &&& self.state() == imported(s, uri@, x)
            };
        match done {
            Ok(_) => {
                let ghost there = *self;
                match self.follow(uri) {
                    Ok(_) => {},
                    Err(e) => return Err(e),
                }
                proof {
                    let w = choose|w: Written|
                        {
                            &&& #[trigger] there.follow_written(uri@, w)
                            &&& self.state() == followed(there.state(), uri@, w)
                            &&& self.said() == there.said() + follow_events(w)
                        };
                    let p: Pick = (import, w);
                    assert(is_pick(t, old(self).auth, old(self).who(), s, uri@, p));
                }
                Ok(true)
            },
            Err(e) => {
                if let WorkError::Store(_) = &e {
                    return Err(e);
                }
                let text = error_text::<S>(&e);
                let mut m = join2("couldn't import ", uri);
                m.push_str(": ");
                m.push_str(text.as_str());
                self.send(FromWorker::Status(m));
                proof {
                    let p: Pick = (import, None);
                    assert(import_failure(import) == Some(text@));
                    assert(self.said() =~= said + import_event(uri@, import));
                    assert(is_pick(t, old(self).auth, old(self).who(), s, uri@, p));
                }
                Ok(false)
            },
        }
    }

    /// The chosen publications were followed as far as they could be fetched; then the feeds
    /// were reported. Only the cache can prevent that.
    #[verifier::opaque]
    pub open spec fn choices_followed(
        &self,
        after: &Self,
        uris: Seq<Seq<char>>,
        r: Result<(), WorkError<S::Error>>,
    ) -> bool {
        &&& after.same_world(self)
        &&& after.account == self.account
        &&& match r {
            Ok(_) => exists|picks: Seq<Pick>|
                {
                    &&& #[trigger] are_picks(
                        self.transport,
                        self.auth,
                        self.who(),
                        self.state(),
                        uris,
                        picks,
                    )
                    &&& after.state() == all_picked(self.state(), uris, picks)
                    &&& after.said().len() > 0
                    &&& after.said().drop_last() == (self.said() + pick_events(uris, picks)).push(
                        SpecEvent::Status(picked_status(picks_kept(picks))),
                    )
                    &&& is_home(after.state(), after.said().last())
                },
            Err(e) => e is Store && said_more(self.said(), after.said()),
        }
    }

    /// Follow the publications that were chosen, and fetch the newest documents of each. One
    /// that cannot be fetched is reported and not followed.
    pub fn follow_publications(&mut self, uris: &Vec<String>) -> (r: Result<
        (),
        WorkError<S::Error>,
    >)
        ensures
            S::reliable() ==> cache_held(r),
            old(self).choices_followed(final(self), strings_view(uris@), r),
    {
        proof {
            reveal(Worker::choices_followed);
        }
        let ghost t = self.transport;
        let ghost auth = self.auth;
        let ghost who = self.who();
        let ghost s = self.state();
        let ghost said = self.said();
        let ghost all = strings_view(uris@);
        let ghost mut picks: Seq<Pick> = Seq::empty();
        let mut kept: usize = 0;
        let mut i: usize = 0;
        assert(all.take(0) =~= Seq::empty());
        assert(self.said() =~= said + pick_events(all.take(0), picks));
        while i < uris.len()
            invariant
                i <= uris@.len(),
                all == strings_view(uris@),
                all.len() == uris@.len(),
                self.same_world(old(self)),
                self.account == old(self).account,
                t == old(self).transport,
                auth == old(self).auth,
                who == old(self).who(),
                are_picks(t, auth, who, s, all.take(i as int), picks),
                self.state() == all_picked(s, all.take(i as int), picks),
                self.said() == said + pick_events(all.take(i as int), picks),
                kept == picks_kept(picks),
                kept <= i,
                s == old(self).state(),
                said == old(self).said(),
            decreases uris@.len() - i,
        {
            let ghost before = self.state();
            let ghost was = self.said();
            let ghost some = all.take(i as int);
            assert(said_more(said, was)) by {
                assert(was.take(said.len() as int) =~= said);
            }
            let uri = uris[i].as_str();
            proof {
                assert(all[i as int] == uri@);
                assert(all.take(i + 1).drop_last() =~= some);
                assert(all.take(i + 1).last() == uri@);
            }
            let got = match self.pick(uri) {
                Ok(b) => b,
                Err(e) => {
                    reveal(Worker::choices_followed);
                    return Err(e);
                },
            };
            proof {
                let p = choose|p: Pick|
                    {
                        &&& #[trigger] is_pick(t, auth, who, before, uri@, p)
                        &&& got == (p.0 is Kept)
                        &&& self.state() == picked(before, uri@, p)
                        &&& self.said() == was + (if p.0 is Kept {
                            follow_events(p.1)
                        } else {
                            import_event(uri@, p.0)
                        })
                    };
                let more = picks.push(p);
                assert(more.drop_last() =~= picks);
                assert(self.said() =~= said + pick_events(all.take(i + 1), more));
                picks = more;
            }
            if got {
                kept = kept + 1;
            }
            i = i + 1;
        }
        assert(all.take(all.len() as int) =~= all);
        self.send(FromWorker::Status(describe_picked(kept)));
        assert(said_more(said, self.said())) by {
            assert(self.said().take(said.len() as int) =~= said);
        }
        match self.load_home() {
            Ok(_) => {
                assert(are_picks(t, auth, who, s, all, picks));
                Ok(())
            },
            Err(e) => Err(e),
        }
    }
}

} // verus!
