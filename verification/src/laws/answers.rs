//! Answers: every command is answered by what it asked for, and a start begins with nothing.
use vstd::prelude::*;

use crate::app::appearance::started;
use crate::app::state::{Focus, Mode, SpecApp};
use crate::atp::Transport;
use crate::auth_provider::AuthProvider;
use crate::laws::feeds::listed_last;
use crate::prefs::SpecPrefs;
use crate::read::{window_read, SpecDocPage, SpecIdentity};
use crate::store::{lookup, FrontendStore};
use crate::worker::feeds::WINDOW_PAGES;
use crate::worker::follows::older_at;
use crate::worker::tasks::{is_feed, is_found, is_home, WorkError, Worker};
use crate::worker::{SpecCommand, SpecEvent};

verus! {

/// A command that was carried out is answered: the feeds for the start and for what is no
/// longer followed, a feed's posts for that feed, a post's body for that post, what was found
/// for a search.
pub proof fn law_commands_are_answered<T: Transport, S: FrontendStore, A: AuthProvider>(
    before: Worker<T, S, A>,
    after: Worker<T, S, A>,
    command: SpecCommand,
)
    requires
        before.carried_out(&after, command, Ok::<(), WorkError<S::Error>>(())),
    ensures
        command is LoadHome ==> is_home(after.state(), after.said().last()) && after.state()
            == before.state(),
        command matches SpecCommand::Search(query) ==> is_found(
            after.state(),
            query,
            after.said().last(),
        ) && after.state() == before.state(),
        command matches SpecCommand::OpenFeed(uri) ==> is_feed(
            after.state(),
            uri,
            after.said().last(),
        ),
        command matches SpecCommand::Refresh(uri) ==> is_feed(
            after.state(),
            uri,
            after.said().last(),
        ),
        command matches SpecCommand::Unfollow(uri) ==> is_home(after.state(), after.said().last())
            && !after.state().follows.dom().contains(uri),
        command is FollowPublications ==> is_home(after.state(), after.said().last()),
        command matches SpecCommand::OpenDoc(uri) ==> is_about(after.said().last(), uri),
        command matches SpecCommand::FreshenDoc(uri) ==> is_about(after.said().last(), uri),
{
    reveal(Worker::searched);
    reveal(Worker::feed_opened);
    reveal(Worker::feed_refreshed);
    reveal(Worker::unfollowed);
    reveal(Worker::choices_followed);
    reveal(Worker::doc_opened);
    reveal(Worker::doc_fetched);
}

/// An event is about a post: it brings that post's body.
pub open spec fn is_about(e: SpecEvent, uri: Seq<char>) -> bool {
    e matches SpecEvent::Doc { uri: u, .. } && u == uri
}

/// Older posts: the next window of the repository was read from where the last one ended,
/// every document on it is held, and the place to go on from is the new window's end. Where
/// nothing is left nothing happens.
pub proof fn law_older_posts_are_held<T: Transport, S: FrontendStore, A: AuthProvider>(
    before: Worker<T, S, A>,
    after: Worker<T, S, A>,
    publication: Seq<char>,
)
    requires
        before.carried_out(
            &after,
            SpecCommand::LoadOlder(publication),
            Ok::<(), WorkError<S::Error>>(()),
        ),
    ensures
        older_at(before.state(), publication) is None ==> after.state() == before.state()
            && after.said() == before.said(),
        older_at(before.state(), publication) matches Some((did, cursor)) ==> is_feed(
            after.state(),
            publication,
            after.said().last(),
        ) && exists|pds: Seq<char>, page: SpecDocPage| #[trigger]
            window_read(
                before.transport,
                SpecIdentity { did, pds },
                Some(cursor),
                WINDOW_PAGES,
                Ok(page),
            ) && holds_window(before, after, did, page),
{
    reveal(Worker::older_loaded);
    if let Some((did, cursor)) = older_at(before.state(), publication) {
        let r = Ok::<(), WorkError<S::Error>>(());
        let (server, page) = choose|
            server: Result<Seq<char>, crate::read::SpecReadError>,
            page: Result<SpecDocPage, crate::read::SpecReadError>,
        |
            {
                &&& crate::worker::docs::server_known(
                    before.transport,
                    before.servers(),
                    did,
                    server,
                )
                &&& after.servers() == crate::worker::docs::with_server(
                    before.servers(),
                    did,
                    server,
                )
                &&& #[trigger] crate::worker::follows::older_taken(
                    before.transport,
                    did,
                    cursor,
                    before.state(),
                    after.state(),
                    server,
                    page,
                    r,
                )
            };
        let pds = server->Ok_0;
        let got = page->Ok_0;
        assert(window_read(
            before.transport,
            SpecIdentity { did, pds },
            Some(cursor),
            WINDOW_PAGES,
            Ok(got),
        ));
        assert forall|uri: Seq<char>, i: int| listed_last(got.0, uri, i) implies lookup(
            after.state().documents,
            uri,
        ) is Some by {
            crate::laws::feeds::law_a_window_is_held(before.state(), did, got, uri, i);
        }
        crate::laws::feeds::law_a_window_is_held(before.state(), did, got, Seq::empty(), 0);
        assert(holds_window(before, after, did, got));
    }
}

/// Every document of a window is held, and the place to go on from is its end.
pub open spec fn holds_window<T: Transport, S: FrontendStore, A: AuthProvider>(
    before: Worker<T, S, A>,
    after: Worker<T, S, A>,
    did: Seq<char>,
    page: SpecDocPage,
) -> bool {
    &&& forall|uri: Seq<char>, i: int|
        #[trigger] listed_last(page.0, uri, i) ==> lookup(after.state().documents, uri) is Some
    &&& lookup(after.state().older_cursors, did) == Some(
        match page.1 {
            Some(c) => c,
            None => Seq::empty(),
        },
    )
    &&& after.state().follows == before.state().follows
}

/// A start asks for the feeds and holds nothing; the first one ever asks for a layout.
pub proof fn law_the_start(prefs: SpecPrefs)
    ensures
        ({
            let a = started(prefs);
            &&& a.commands == seq![SpecCommand::LoadHome]
            &&& a.feeds.len() == 0 && a.docs.len() == 0
            &&& a.reading is None && a.account is None
            &&& !a.should_quit
            &&& a.focus == Focus::Sidebar
            &&& a.prefs == prefs
            &&& a.layout == prefs.layout
            &&& prefs.onboarded ==> a.mode == Mode::Browse && !a.onboarding
            &&& !prefs.onboarded ==> a.mode == Mode::LayoutPicker && a.onboarding
        }),
{
    reveal(SpecApp::with_appearance);
    reveal(SpecApp::onboarding_begun);
    reveal(SpecApp::picking_layout);
    assert(started(prefs).commands =~= seq![SpecCommand::LoadHome]);
}

} // verus!
