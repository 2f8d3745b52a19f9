//! The worker: the side that talks to the network and the cache. It turns commands from
//! the screen into results. This module holds the two languages; the work itself is in
//! [`tasks`].
use vstd::prelude::*;

use crate::account::{opt_account, Account, SpecAccount};
use crate::memstore::pairs_view;
use crate::model::{
    documents_view, publications_view, Document, ImageSource, Publication, PublishingPlatform,
    RichDoc, SpecBlock, SpecDocument, SpecImageSource, SpecPublication,
};
use crate::prefs::{Prefs, SpecPrefs};
use crate::text::strings_view;

pub mod accounts;
pub mod choices;
pub mod commands;
pub mod docs;
pub mod feeds;
pub mod follows;
pub mod session;
pub mod sync;
pub mod tasks;

verus! {

/// A decoded image: eight bits each of red, green, blue and alpha, row by row.
#[derive(Debug, PartialEq)]
pub struct DecodedImage {
    pub width: u32,
    pub height: u32,
    pub rgba: Vec<u8>,
}

/// [`DecodedImage`] over sequences.
pub struct SpecDecoded {
    pub width: u32,
    pub height: u32,
    pub rgba: Seq<u8>,
}

impl View for DecodedImage {
    type V = SpecDecoded;

    open spec fn view(&self) -> SpecDecoded {
        SpecDecoded { width: self.width, height: self.height, rgba: self.rgba@ }
    }
}

/// Commands from the screen to the worker.
pub enum ToWorker {
    LoadHome,
    AddFeed(String),
    OpenFeed(String),
    OpenDoc(String),
    Search(String),
    Refresh(String),
    SetRead(String, bool),
    Unfollow(String),
    LoadImage { key: String, source: ImageSource },
    SetShowImages(bool),
    /// Sign in with a handle or DID.
    Login(String),
    /// Sign out: revoke and forget the session.
    Logout,
    /// Write subscription records for these local follows.
    SubscribeLocal(Vec<String>),
    /// Keep the preferences.
    SavePrefs(Prefs),
    /// Follow these publications of a repository that holds several.
    FollowPublications(Vec<String>),
    /// Fetch a document that was served from the cache again.
    FreshenDoc(String),
    /// Fetch the next older window of a feed.
    LoadOlder(String),
    Quit,
}

/// [`ToWorker`] over sequences.
pub enum SpecCommand {
    LoadHome,
    AddFeed(Seq<char>),
    OpenFeed(Seq<char>),
    OpenDoc(Seq<char>),
    Search(Seq<char>),
    Refresh(Seq<char>),
    SetRead(Seq<char>, bool),
    Unfollow(Seq<char>),
    LoadImage { key: Seq<char>, source: SpecImageSource },
    SetShowImages(bool),
    Login(Seq<char>),
    Logout,
    SubscribeLocal(Seq<Seq<char>>),
    SavePrefs(SpecPrefs),
    FollowPublications(Seq<Seq<char>>),
    FreshenDoc(Seq<char>),
    LoadOlder(Seq<char>),
    Quit,
}

impl View for ToWorker {
    type V = SpecCommand;

    open spec fn view(&self) -> SpecCommand {
        match *self {
            ToWorker::LoadHome => SpecCommand::LoadHome,
            ToWorker::AddFeed(s) => SpecCommand::AddFeed(s@),
            ToWorker::OpenFeed(s) => SpecCommand::OpenFeed(s@),
            ToWorker::OpenDoc(s) => SpecCommand::OpenDoc(s@),
            ToWorker::Search(s) => SpecCommand::Search(s@),
            ToWorker::Refresh(s) => SpecCommand::Refresh(s@),
            ToWorker::SetRead(s, b) => SpecCommand::SetRead(s@, b),
            ToWorker::Unfollow(s) => SpecCommand::Unfollow(s@),
            ToWorker::LoadImage { key, source } => SpecCommand::LoadImage {
                key: key@,
                source: source@,
            },
            ToWorker::SetShowImages(b) => SpecCommand::SetShowImages(b),
            ToWorker::Login(s) => SpecCommand::Login(s@),
            ToWorker::Logout => SpecCommand::Logout,
            ToWorker::SubscribeLocal(v) => SpecCommand::SubscribeLocal(strings_view(v@)),
            ToWorker::SavePrefs(p) => SpecCommand::SavePrefs(p@),
            ToWorker::FollowPublications(v) => SpecCommand::FollowPublications(strings_view(v@)),
            ToWorker::FreshenDoc(s) => SpecCommand::FreshenDoc(s@),
            ToWorker::LoadOlder(s) => SpecCommand::LoadOlder(s@),
            ToWorker::Quit => SpecCommand::Quit,
        }
    }
}

/// Commands by their views.
pub open spec fn commands_view(s: Seq<ToWorker>) -> Seq<SpecCommand> {
    s.map_values(|c: ToWorker| c@)
}

/// Results from the worker to the screen.
pub enum FromWorker {
    Feeds { feeds: Vec<Publication>, unread: Vec<(String, usize)> },
    Docs { publication: String, docs: Vec<Document>, read_uris: Vec<String>, has_older: bool },
    Doc {
        uri: String,
        body: RichDoc,
        publishing_platform: Option<PublishingPlatform>,
        from_cache: bool,
    },
    Image { key: String, image: DecodedImage },
    Results(Vec<Document>),
    ShowImages(bool),
    /// The signed-in identity, `None` when signed out.
    Account(Option<Account>),
    /// Follows that the account's subscriptions lack: publication and name.
    SyncDiff { local_only: Vec<(String, String)> },
    /// The publications of a repository that holds several: URI and name.
    ChoosePublications { candidates: Vec<(String, String)> },
    Status(String),
    Error(String),
}

/// [`FromWorker`] over sequences.
pub enum SpecEvent {
    Feeds { feeds: Seq<SpecPublication>, unread: Seq<(Seq<char>, usize)> },
    Docs {
        publication: Seq<char>,
        docs: Seq<SpecDocument>,
        read_uris: Seq<Seq<char>>,
        has_older: bool,
    },
    Doc {
        uri: Seq<char>,
        body: Seq<SpecBlock>,
        publishing_platform: Option<PublishingPlatform>,
        from_cache: bool,
    },
    Image { key: Seq<char>, image: SpecDecoded },
    Results(Seq<SpecDocument>),
    ShowImages(bool),
    Account(Option<SpecAccount>),
    SyncDiff { local_only: Seq<(Seq<char>, Seq<char>)> },
    ChoosePublications { candidates: Seq<(Seq<char>, Seq<char>)> },
    Status(Seq<char>),
    Error(Seq<char>),
}

/// Counts by publication, over sequences.
pub open spec fn counts_view(s: Seq<(String, usize)>) -> Seq<(Seq<char>, usize)> {
    s.map_values(|p: (String, usize)| (p.0@, p.1))
}

impl View for FromWorker {
    type V = SpecEvent;

    open spec fn view(&self) -> SpecEvent {
        match *self {
            FromWorker::Feeds { feeds, unread } => SpecEvent::Feeds {
                feeds: publications_view(feeds@),
                unread: counts_view(unread@),
            },
            FromWorker::Docs { publication, docs, read_uris, has_older } => SpecEvent::Docs {
                publication: publication@,
                docs: documents_view(docs@),
                read_uris: strings_view(read_uris@),
                has_older,
            },
            FromWorker::Doc { uri, body, publishing_platform, from_cache } => SpecEvent::Doc {
                uri: uri@,
                body: body@,
                publishing_platform,
                from_cache,
            },
            FromWorker::Image { key, image } => SpecEvent::Image { key: key@, image: image@ },
            FromWorker::Results(docs) => SpecEvent::Results(documents_view(docs@)),
            FromWorker::ShowImages(b) => SpecEvent::ShowImages(b),
            FromWorker::Account(a) => SpecEvent::Account(opt_account(a)),
            FromWorker::SyncDiff { local_only } => SpecEvent::SyncDiff {
                local_only: pairs_view(local_only@),
            },
            FromWorker::ChoosePublications { candidates } => SpecEvent::ChoosePublications {
                candidates: pairs_view(candidates@),
            },
            FromWorker::Status(s) => SpecEvent::Status(s@),
            FromWorker::Error(s) => SpecEvent::Error(s@),
        }
    }
}

/// Results by their views.
pub open spec fn events_view(s: Seq<FromWorker>) -> Seq<SpecEvent> {
    s.map_values(|e: FromWorker| e@)
}

} // verus!
