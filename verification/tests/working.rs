//! The worker and the printed reports, over a canned network and a cache in memory.
use std::cell::RefCell;
use std::collections::HashMap;

use standard_reader::account::Account;
use standard_reader::atp::Transport;
use standard_reader::auth_provider::{AuthProvider, LoginOutcome};
use standard_reader::decode::Registry;
use standard_reader::memstore::{InitialState, MemStore, NoFault};
use standard_reader::model::{Document, ImageSource, Publication};
use standard_reader::report::{run_cached, run_fetch};
use standard_reader::store::{FrontendStore, Store};
use standard_reader::url::cdn_image_url;
use standard_reader::worker::commands::Handled;
use standard_reader::worker::tasks::{WorkError, Worker};
use standard_reader::worker::{DecodedImage, FromWorker, ToWorker};

/// A URL that is not in the map is not found. Requests are counted.
struct Net {
    routes: HashMap<String, Vec<u8>>,
    asked: RefCell<Vec<String>>,
}

impl Transport for Net {
    fn get(&self, url: &str) -> Result<Vec<u8>, String> {
        self.asked.borrow_mut().push(url.to_string());
        self.routes
            .get(url)
            .cloned()
            .ok_or_else(|| format!("no route for {url}"))
    }

    fn post(&self, _: &str, _: &str, _: &[u8]) -> Result<Vec<u8>, String> {
        Err("no post here".to_string())
    }
}

/// Writes of the account, and what it answers.
struct Desk {
    log: RefCell<Vec<String>>,
    fails: bool,
}

impl AuthProvider for Desk {
    fn restore(&self) -> Result<Option<Account>, String> {
        self.log.borrow_mut().push("restore".into());
        Ok(Some(Account {
            did: DID.into(),
            handle: "half.test".into(),
        }))
    }

    fn login(&self, ident: &str) -> Result<LoginOutcome, String> {
        if self.fails {
            return Err("no sign-in".into());
        }
        Ok(LoginOutcome::Redirect(format!("https://auth.test/{ident}")))
    }

    fn logout(&self) -> Result<(), String> {
        self.log.borrow_mut().push("logout".into());
        if self.fails {
            return Err("unreachable".into());
        }
        Ok(())
    }

    fn create_subscription(&self, did: &str, publication: &str) -> Result<String, String> {
        self.log.borrow_mut().push(format!("create {did} {publication}"));
        Ok("3new".into())
    }

    fn delete_subscription(&self, did: &str, rkey: &str) -> Result<(), String> {
        self.log.borrow_mut().push(format!("delete {did} {rkey}"));
        if self.fails {
            return Err("refused".into());
        }
        Ok(())
    }
}

const DID: &str = "did:plc:abc";
const PUB: &str = "at://did:plc:abc/site.standard.publication/p";
const DOC: &str = "at://did:plc:abc/site.standard.document/1";
const XRPC: &str = "https://pds.test/xrpc/com.atproto.repo.";

fn net() -> Net {
    let pds = r##"{"service":[{"id":"#atproto_pds","serviceEndpoint":"https://pds.test"}]}"##;
    let publication = r#"{"uri":"at://did:plc:abc/site.standard.publication/p","value":{"url":"https://half.test","name":"half baked"}}"#;
    let value = r#""value":{"title":"One","site":"at://did:plc:abc/site.standard.publication/p","publishedAt":"2026-01-01T00:00:00Z","textContent":"body of one"}"#;
    let document = format!(r#"{{"uri":"{DOC}",{value}}}"#);
    let page = format!(r#"{{"records":[{document}]}}"#);
    let record = |collection: &str, rkey: &str| {
        format!("{XRPC}getRecord?repo=did:plc:abc&collection={collection}&rkey={rkey}")
    };
    let list = |collection: &str, limit: u32| {
        format!("{XRPC}listRecords?repo=did:plc:abc&collection={collection}&limit={limit}")
    };
    let mut routes = HashMap::new();
    let mut put = |url: String, body: &str| routes.insert(url, body.as_bytes().to_vec());
    put(format!("https://plc.directory/{DID}"), pds);
    put(record("site.standard.publication", "p"), publication);
    put(record("site.standard.document", "1"), &document);
    put(list("site.standard.document", 50), &page);
    put(
        list("site.standard.graph.subscription", 100),
        r#"{"records":[]}"#,
    );
    put(
        list("site.standard.publication", 100),
        &format!(r#"{{"records":[{publication}]}}"#),
    );
    Net {
        routes,
        asked: RefCell::new(vec![]),
    }
}

fn publication() -> Publication {
    Publication {
        uri: PUB.into(),
        url: "https://half.test".into(),
        name: "half baked".into(),
        description: None,
        icon: None,
    }
}

fn document(rkey: &str, title: &str) -> Document {
    Document {
        uri: format!("at://did:plc:abc/site.standard.document/{rkey}"),
        title: title.into(),
        description: None,
        publication: PUB.into(),
        published_at: "2026-01-01T00:00:00Z".into(),
        updated_at: None,
        publishing_platform: None,
        cover_image: None,
        text_content: None,
        tags: vec![],
        path: None,
    }
}

fn worker(net: Net, auth: Option<Desk>) -> Worker<Net, MemStore, Desk> {
    Worker::new(net, MemStore::new(InitialState::default()), auth)
}

fn desk(fails: bool) -> Desk {
    Desk {
        log: RefCell::new(vec![]),
        fails,
    }
}

fn statuses(events: &[FromWorker]) -> Vec<&str> {
    events
        .iter()
        .filter_map(|e| match e {
            FromWorker::Status(s) => Some(s.as_str()),
            _ => None,
        })
        .collect()
}

#[test]
fn home_lists_feeds_with_their_unread_posts() {
    let mut w = worker(net(), None);
    w.store.upsert_publication(&publication()).unwrap();
    w.store.follow(PUB).unwrap();
    w.store.upsert_document(&document("1", "One"), None).unwrap();
    w.store.upsert_document(&document("2", "Two"), None).unwrap();
    w.store.set_read(DOC, true).unwrap();
    w.load_home().unwrap();
    match &w.take_events()[0] {
        FromWorker::Feeds { feeds, unread } => {
            assert_eq!(*feeds, vec![publication()]);
            assert_eq!(*unread, vec![(PUB.to_string(), 1)]);
        }
        _ => panic!("expected the feeds"),
    }
}

#[test]
fn a_cached_post_opens_without_the_network() {
    let mut w = worker(net(), None);
    w.open_doc(DOC).unwrap();
    let asked = w.transport.asked.borrow().len();
    assert!(asked > 0, "the first opening fetches");
    match &w.take_events()[..] {
        [.., FromWorker::Doc { uri, from_cache, .. }] => {
            assert_eq!(uri, DOC);
            assert!(!*from_cache);
        }
        _ => panic!("expected the post"),
    }
    w.open_doc(DOC).unwrap();
    assert_eq!(w.transport.asked.borrow().len(), asked);
    assert!(matches!(
        &w.take_events()[..],
        [.., FromWorker::Doc { from_cache: true, .. }]
    ));
    assert_eq!(w.store.read_uris(PUB).unwrap(), [DOC]);
}

#[test]
fn search_asks_the_cache() {
    let mut w = worker(net(), None);
    let mut d = document("1", "Sourdough");
    d.text_content = Some("bread".into());
    w.store.upsert_document(&d, None).unwrap();
    w.store.upsert_document(&document("2", "Rye"), None).unwrap();
    w.search("bread").unwrap();
    match &w.take_events()[..] {
        [FromWorker::Results(found)] => assert_eq!(*found, vec![d]),
        _ => panic!("expected results"),
    }
}

fn decode(bytes: &[u8]) -> Result<DecodedImage, String> {
    let rgba = image::load_from_memory(bytes)
        .map_err(|e| e.to_string())?
        .to_rgba8();
    Ok(DecodedImage {
        width: rgba.width(),
        height: rgba.height(),
        rgba: rgba.into_raw(),
    })
}

#[test]
fn an_image_is_fetched_once_and_decoded() {
    // One red pixel.
    let png: &[u8] = &[
        137, 80, 78, 71, 13, 10, 26, 10, 0, 0, 0, 13, 73, 72, 68, 82, 0, 0, 0, 1, 0, 0, 0, 1, 8, 2,
        0, 0, 0, 144, 119, 83, 222, 0, 0, 0, 12, 73, 68, 65, 84, 120, 156, 99, 248, 207, 192, 0, 0,
        3, 1, 1, 0, 201, 254, 146, 239, 0, 0, 0, 0, 73, 69, 78, 68, 174, 66, 96, 130,
    ];
    let mut n = net();
    n.routes.insert("https://i.test/a.png".into(), png.to_vec());
    n.routes
        .insert("https://i.test/bad.png".into(), b"no image".to_vec());
    let mut w = worker(n, None);
    let source = || ImageSource::Url("https://i.test/a.png".into());
    for _ in 0..2 {
        let had = match w.handle(ToWorker::LoadImage {
            key: "k".into(),
            source: source(),
        }) {
            Ok(Handled::Decode(had)) => had,
            _ => panic!("expected bytes to decode"),
        };
        assert_eq!((had.key.as_str(), had.bytes.as_slice()), ("k", png));
        assert!(w.take_events().is_empty());
        let next = w.image_decoded(had.key, &had.source, decode(&had.bytes));
        assert_eq!(next, None);
        match &w.take_events()[..] {
            [FromWorker::Image { key, image }] => {
                assert_eq!(key, "k");
                assert_eq!((image.width, image.height), (1, 1));
                assert_eq!(image.rgba, [255, 0, 0, 255]);
            }
            _ => panic!("expected the image"),
        }
    }
    assert_eq!(*w.transport.asked.borrow(), ["https://i.test/a.png"]);
    let bad = ImageSource::Url("https://i.test/bad.png".into());
    let had = w.load_image("https://i.test/bad.png".into(), bad).unwrap();
    let next = w.image_decoded(had.key, &had.source, decode(&had.bytes));
    assert_eq!(next, None);
    assert!(matches!(
        &w.take_events()[..],
        [FromWorker::Status(s)] if s.starts_with("image decode failed: ")
    ));
    let gone = ImageSource::Url("https://i.test/gone.png".into());
    assert_eq!(
        w.load_image("https://i.test/gone.png".into(), gone),
        Err(WorkError::Message(
            "no route for https://i.test/gone.png".into()
        ))
    );
}

#[test]
fn unfollowing_deletes_the_record_first() {
    let mut w = worker(net(), Some(desk(false)));
    w.store.upsert_publication(&publication()).unwrap();
    w.store.follow(PUB).unwrap();
    w.store.set_follow_rkey(PUB, "3sub").unwrap();
    w.account = Some(Account {
        did: DID.into(),
        handle: "half.test".into(),
    });
    w.unfollow(PUB).unwrap();
    assert_eq!(
        *w.auth.as_ref().unwrap().log.borrow(),
        ["delete did:plc:abc 3sub"]
    );
    assert!(w.store.follows().unwrap().is_empty());
}

#[test]
fn a_redirect_is_handed_back() {
    let mut w = worker(net(), Some(desk(false)));
    assert_eq!(
        w.login("half.test").unwrap(),
        Some("https://auth.test/half.test".to_string())
    );
    let mut w = worker(net(), Some(desk(true)));
    assert_eq!(w.login("half.test").unwrap(), None);
    assert!(matches!(
        &w.take_events()[..],
        [FromWorker::Error(e)] if e == "log-in failed: no sign-in"
    ));
    let mut w = worker(net(), None);
    assert_eq!(w.login("half.test").unwrap(), None);
    assert!(matches!(
        &w.take_events()[..],
        [FromWorker::Error(e)] if e == "log-in is unavailable"
    ));
}

#[test]
fn signing_in_brings_the_follows_together() {
    let mut w = worker(net(), Some(desk(false)));
    w.store.upsert_publication(&publication()).unwrap();
    w.store.follow(PUB).unwrap();
    let account = Account {
        did: DID.into(),
        handle: "half.test".into(),
    };
    let r = w.finish_login(Ok(LoginOutcome::Authenticated(account.clone())));
    assert_eq!(r, Ok(None));
    match &w.take_events()[..] {
        [FromWorker::Account(Some(a)), FromWorker::Status(s), FromWorker::Feeds { .. }, FromWorker::SyncDiff { local_only }] =>
        {
            assert_eq!(*a, account);
            assert_eq!(s, "logged in as @half.test");
            assert_eq!(*local_only, vec![(PUB.to_string(), "half baked".to_string())]);
        }
        _ => panic!("expected the account, a greeting, the feeds and the difference"),
    }
    w.subscribe_local(&vec![PUB.to_string()]).unwrap();
    assert_eq!(
        *w.auth.as_ref().unwrap().log.borrow(),
        [format!("create {DID} {PUB}")]
    );
    assert_eq!(w.store.follow_rkey(PUB).unwrap().as_deref(), Some("3new"));
    w.logout();
    assert!(w.account.is_none());
    assert_eq!(w.store.follows().unwrap(), [PUB]);
}

#[test]
fn a_session_that_cannot_be_restored_is_reported() {
    let mut w = worker(net(), None);
    w.restore_session();
    assert!(matches!(
        &w.take_events()[..],
        [FromWorker::Account(None)]
    ));
    w.finish_restore(Err("expired".into()));
    assert!(matches!(
        &w.take_events()[..],
        [FromWorker::Account(None), FromWorker::Error(e)] if e == "restoring session: expired"
    ));
}

#[test]
fn a_restored_session_brings_the_follows_together() {
    let mut n = net();
    let other = "at://did:plc:abc/site.standard.publication/q";
    n.routes.insert(
        format!("{XRPC}listRecords?repo=did:plc:abc&collection=site.standard.graph.subscription&limit=100"),
        format!(
            r#"{{"records":[{{"uri":"at://did:plc:abc/site.standard.graph.subscription/3sub","value":{{"publication":"{PUB}"}}}}]}}"#
        )
        .into_bytes(),
    );
    let mut w = worker(n, Some(desk(false)));
    w.store.follow(other).unwrap();
    w.restore_session();
    assert_eq!(*w.auth.as_ref().unwrap().log.borrow(), ["restore"]);
    assert_eq!(
        w.account.as_ref().map(|a| a.handle.as_str()),
        Some("half.test")
    );
    assert_eq!(w.store.follow_rkey(PUB).unwrap().as_deref(), Some("3sub"));
    assert!(w.store.publication(PUB).unwrap().is_some());
    let events = w.take_events();
    assert!(matches!(&events[0], FromWorker::Account(Some(_))));
    assert!(matches!(
        events.last(),
        Some(FromWorker::SyncDiff { local_only })
            if *local_only == vec![(other.to_string(), other.to_string())]
    ));
}

#[test]
fn a_restored_session_that_cannot_be_reconciled_is_kept() {
    let mut n = net();
    n.routes.clear();
    let mut w = worker(n, Some(desk(false)));
    w.store.follow(PUB).unwrap();
    w.restore_session();
    assert!(w.account.is_some());
    assert_eq!(w.store.follows().unwrap(), [PUB]);
    assert!(matches!(
        &w.take_events()[..],
        [FromWorker::Account(Some(_)), FromWorker::Error(e)]
            if e.starts_with("syncing subscriptions: ")
    ));
}

#[test]
fn signing_out_tells_the_provider_whatever_it_answers() {
    for fails in [false, true] {
        let mut w = worker(net(), Some(desk(fails)));
        w.account = Some(Account {
            did: DID.into(),
            handle: "half.test".into(),
        });
        w.logout();
        assert_eq!(*w.auth.as_ref().unwrap().log.borrow(), ["logout"]);
        assert!(w.account.is_none());
        assert!(matches!(
            &w.take_events()[..],
            [FromWorker::Account(None), FromWorker::Status(s)] if s == "logged out"
        ));
    }
}

#[test]
fn a_server_is_resolved_once() {
    let mut n = net();
    let blob = |cid: &str| {
        format!("https://pds.test/xrpc/com.atproto.sync.getBlob?did=did:plc:abc&cid={cid}")
    };
    n.routes.insert(blob("c1"), b"one".to_vec());
    n.routes.insert(blob("c2"), b"two".to_vec());
    let mut w = worker(n, None);
    assert!(w.pds_cache.get(DID).is_none());
    for (cid, bytes) in [("c1", "one"), ("c2", "two")] {
        let source = ImageSource::Blob {
            did: DID.into(),
            cid: cid.into(),
        };
        let had = w.load_image(cid.into(), source).unwrap();
        assert_eq!(had.bytes, bytes.as_bytes());
        w.take_events();
        assert_eq!(
            w.pds_cache.get(DID).map(|s| s.as_str()),
            Some("https://pds.test")
        );
    }
    assert_eq!(
        *w.transport.asked.borrow(),
        [
            format!("https://plc.directory/{DID}"),
            blob("c1"),
            blob("c2")
        ]
    );
}

#[test]
fn a_blog_whose_posts_cannot_be_listed_is_followed_all_the_same() {
    let mut n = net();
    n.routes.remove(LIST);
    let mut w = worker(n, Some(desk(false)));
    w.account = Some(Account {
        did: DID.into(),
        handle: "half.test".into(),
    });
    assert!(matches!(w.add_feed(DID), Err(WorkError::Read(_))));
    assert_eq!(w.store.follows().unwrap(), [PUB]);
    assert!(w.store.publication(PUB).unwrap().is_some());
    assert_eq!(w.store.follow_rkey(PUB).unwrap().as_deref(), Some("3new"));
    assert!(w.store.documents_for(PUB).unwrap().is_empty());
    assert!(w.take_events().is_empty());
}

#[test]
fn commands_reach_their_tasks() {
    let mut w = worker(net(), None);
    assert!(matches!(
        w.handle(ToWorker::SetShowImages(false)).unwrap(),
        Handled::Done
    ));
    assert!(!w.store.show_images().unwrap());
    assert!(matches!(
        w.handle(ToWorker::Quit).unwrap(),
        Handled::Left(ToWorker::Quit)
    ));
    assert!(matches!(
        w.handle(ToWorker::OpenDoc("nonsense".into())),
        Err(_)
    ));
}

#[test]
fn adding_a_feed_follows_it_and_lists_its_posts() {
    let mut w = worker(net(), None);
    w.add_feed(DID).unwrap();
    let events = w.take_events();
    assert_eq!(w.store.follows().unwrap().len(), 1);
    assert!(events
        .iter()
        .any(|e| matches!(e, FromWorker::Feeds { feeds, .. } if feeds.len() == 1)));
    assert!(!statuses(&events).is_empty());
    assert_eq!(w.store.documents_for(PUB).unwrap().len(), 1);
}

#[test]
fn a_fetch_prints_what_came() {
    let t = net();
    let mut cache = MemStore::new(InitialState::default());
    let mut out = String::new();
    run_fetch(&t, &Registry::with_defaults(), &mut cache, DID, &mut out).unwrap();
    assert_eq!(
        out,
        format!(
            "resolved {DID}\n  did: {DID}\n  pds: https://pds.test\n\nno subscriptions — showing this repo's own publication(s):\n\n══ half baked · https://half.test\n   {PUB}\n   1 document(s) (1 in repo)\n   • One  [2026-01-01T00:00:00Z]\n\n   ┌─ reading: One\n   body of one\n   └─\n\n"
        )
    );
    assert_eq!(cache.documents_for(PUB).unwrap().len(), 1);

    let mut held = String::new();
    run_cached(&cache, &vec![publication()], "memory", &mut held).unwrap();
    assert_eq!(
        held,
        "cache: memory\n\n══ half baked · https://half.test\n   1 document(s)\n   • One  [2026-01-01T00:00:00Z]\n\n   ┌─ reading: One\n   body of one\n   └─\n\n"
    );
    let mut none = String::new();
    run_cached(&cache, &vec![], "memory", &mut none).unwrap();
    assert_eq!(none, "cache is empty — run `sr fetch <handle|did>` first.\n");
}

#[test]
fn a_fetch_that_fails_says_so() {
    let t = Net {
        routes: HashMap::new(),
        asked: RefCell::new(vec![]),
    };
    let (r, out, cache) = fetch(&t);
    assert!(matches!(r, Err(WorkError::Read(_))));
    assert_eq!(out, "");
    assert!(cache.publication(PUB).unwrap().is_none());
}

fn fetch(t: &Net) -> (Result<(), WorkError<NoFault>>, String, MemStore) {
    let mut cache = MemStore::new(InitialState::default());
    let mut out = String::new();
    let r = run_fetch(t, &Registry::with_defaults(), &mut cache, DID, &mut out);
    (r, out, cache)
}

#[test]
fn a_fetch_keeps_what_came_before_it_stopped() {
    let head = format!("resolved {DID}\n  did: {DID}\n  pds: https://pds.test\n\n");
    let none = "no subscriptions — showing this repo's own publication(s):\n\n";
    let record = format!("══ half baked · https://half.test\n   {PUB}\n");
    let list = |collection: &str, limit: u32| {
        format!("{XRPC}listRecords?repo=did:plc:abc&collection={collection}&limit={limit}")
    };

    // The subscriptions cannot be listed, and then the publications cannot.
    let mut n = net();
    n.routes.remove(&list("site.standard.graph.subscription", 100));
    let (r, out, _) = fetch(&n);
    assert!(matches!(r, Err(WorkError::Read(_))));
    assert_eq!(out, head);
    let mut n = net();
    n.routes.remove(&list("site.standard.publication", 100));
    let (r, out, _) = fetch(&n);
    assert!(matches!(r, Err(WorkError::Read(_))));
    assert_eq!(out, format!("{head}{none}"));

    // The publication cannot be had.
    let mut n = net();
    n.routes.remove(&format!(
        "{XRPC}getRecord?repo=did:plc:abc&collection=site.standard.publication&rkey=p"
    ));
    let (r, out, cache) = fetch(&n);
    assert!(matches!(r, Err(WorkError::Read(_))));
    assert_eq!(out, format!("{head}{none}"));
    assert!(cache.publication(PUB).unwrap().is_none());

    // Its documents cannot be listed.
    let mut n = net();
    n.routes.remove(LIST);
    let (r, out, cache) = fetch(&n);
    assert!(matches!(r, Err(WorkError::Read(_))));
    assert_eq!(out, format!("{head}{none}{record}"));
    assert!(cache.publication(PUB).unwrap().is_some());
    assert!(cache.documents_for(PUB).unwrap().is_empty());

    // The first of them cannot be had.
    let listed = format!("{record}   1 document(s) (1 in repo)\n   • One  [2026-01-01T00:00:00Z]\n");
    let mut n = net();
    n.routes.remove(&format!(
        "{XRPC}getRecord?repo=did:plc:abc&collection=site.standard.document&rkey=1"
    ));
    let (r, out, cache) = fetch(&n);
    assert!(matches!(r, Err(WorkError::Read(_))));
    assert_eq!(out, format!("{head}{none}{listed}"));
    assert_eq!(cache.documents_for(PUB).unwrap().len(), 1);

    // Its URI names no record.
    let mut n = net();
    n.routes.insert(
        LIST.into(),
        format!(
            r#"{{"records":[{{"uri":"at://did:plc:abc/posts","value":{{"title":"One","site":"{PUB}","publishedAt":"2026-01-01T00:00:00Z"}}}}]}}"#
        )
        .into_bytes(),
    );
    let (r, out, cache) = fetch(&n);
    assert_eq!(
        r,
        Err(WorkError::Message(
            "document has a malformed AT-URI".into()
        ))
    );
    assert_eq!(out, format!("{head}{none}{listed}"));
    assert_eq!(cache.documents_for(PUB).unwrap().len(), 1);
}

const LIST: &str = "https://pds.test/xrpc/com.atproto.repo.listRecords?repo=did:plc:abc&collection=site.standard.document&limit=50";

/// Three pages of one post each.
fn paged() -> Net {
    let mut n = net();
    let mut page = |url: String, rkey: &str, cursor: &str| {
        let body = format!(
            r#"{{"records":[{{"uri":"at://did:plc:abc/site.standard.document/{rkey}","value":{{"title":"{rkey}","site":"{PUB}","publishedAt":"2026-01-0{rkey}T00:00:00Z"}}}}]{cursor}}}"#
        );
        n.routes.insert(url, body.into_bytes());
    };
    page(LIST.into(), "3", r#","cursor":"pg2""#);
    page(format!("{LIST}&cursor=pg2"), "2", r#","cursor":"pg3""#);
    page(format!("{LIST}&cursor=pg3"), "1", "");
    n
}

#[test]
fn a_feed_opens_with_a_window_and_older_posts_come_on_demand() {
    let mut w = worker(paged(), None);
    w.open_feed(PUB).unwrap();
    match &w.take_events()[..] {
        [FromWorker::Docs { docs, has_older, .. }] => {
            let titles: Vec<&str> = docs.iter().map(|d| d.title.as_str()).collect();
            assert_eq!(titles, ["3", "2"]);
            assert!(has_older);
        }
        _ => panic!("expected the feed"),
    }
    assert_eq!(w.store.older_cursor(DID).unwrap().as_deref(), Some("pg3"));
    assert!(matches!(
        w.handle(ToWorker::LoadOlder(PUB.into())).unwrap(),
        Handled::Done
    ));
    match &w.take_events()[..] {
        [FromWorker::Docs { docs, has_older, .. }] => {
            let titles: Vec<&str> = docs.iter().map(|d| d.title.as_str()).collect();
            assert_eq!(titles, ["3", "2", "1"]);
            assert!(!has_older);
        }
        _ => panic!("expected the feed"),
    }
    let asked = w.transport.asked.borrow().len();
    w.load_older(PUB).unwrap();
    assert!(w.take_events().is_empty());
    assert_eq!(w.transport.asked.borrow().len(), asked);
}

#[test]
fn several_publications_are_offered_and_the_chosen_followed() {
    let mut n = net();
    let other = "at://did:plc:abc/site.standard.publication/q";
    let (p, q) = (
        format!(r#"{{"uri":"{PUB}","value":{{"url":"https://half.test","name":"half baked"}}}}"#),
        format!(r#"{{"uri":"{other}","value":{{"url":"https://q.test","name":"other"}}}}"#),
    );
    n.routes.insert(
        format!("{XRPC}listRecords?repo=did:plc:abc&collection=site.standard.publication&limit=100"),
        format!(r#"{{"records":[{p},{q}]}}"#).into_bytes(),
    );
    let mut w = worker(n, None);
    w.add_feed(DID).unwrap();
    match &w.take_events()[..] {
        [FromWorker::ChoosePublications { candidates }] => assert_eq!(
            *candidates,
            vec![
                (PUB.to_string(), "half baked".to_string()),
                (other.to_string(), "other".to_string())
            ]
        ),
        _ => panic!("expected a choice"),
    }
    assert!(w.store.follows().unwrap().is_empty());

    w.handle(ToWorker::FollowPublications(vec![PUB.into(), other.into()]))
        .unwrap();
    match &w.take_events()[..] {
        [FromWorker::Status(failed), FromWorker::Status(done), FromWorker::Feeds { feeds, .. }] => {
            assert!(failed.starts_with(&format!("couldn't import {other}: ")));
            assert_eq!(done, "followed 1 publication(s)");
            assert_eq!(feeds.len(), 1);
        }
        _ => panic!("expected what failed, what was done and the feeds"),
    }
    assert_eq!(w.store.follows().unwrap(), [PUB]);
    assert_eq!(w.store.documents_for(PUB).unwrap().len(), 1);
}

fn pixel(byte: u8) -> DecodedImage {
    DecodedImage {
        width: 1,
        height: 1,
        rgba: vec![byte, 2, 3, 4],
    }
}

#[test]
fn a_decoded_image_is_reported_as_it_is() {
    let mut w = worker(net(), None);
    let source = ImageSource::Url("https://i.test/a.png".into());
    assert_eq!(w.image_decoded("k".into(), &source, Ok(pixel(9))), None);
    assert!(matches!(
        &w.take_events()[..],
        [FromWorker::Image { key, image }] if key == "k" && image.rgba == [9, 2, 3, 4]
    ));
    assert_eq!(w.image_decoded("k".into(), &source, Err("torn".into())), None);
    assert!(matches!(
        &w.take_events()[..],
        [FromWorker::Status(s)] if s == "image decode failed: torn"
    ));
}

#[test]
fn bytes_that_do_not_decode_are_asked_for_as_a_jpeg() {
    let source = ImageSource::Blob {
        did: DID.into(),
        cid: "bafa".into(),
    };
    let url = cdn_image_url(&source).unwrap();
    let mut n = net();
    n.routes.insert(url, b"second".to_vec());
    let mut w = worker(n, None);
    let next = w.image_decoded("k".into(), &source, Err("torn".into()));
    assert_eq!(next.as_deref(), Some(&b"second"[..]));
    assert!(w.take_events().is_empty());
    w.image_retried("k".into(), "torn", Ok(pixel(7)));
    w.image_retried("k".into(), "torn", Err("worse".into()));
    assert!(matches!(
        &w.take_events()[..],
        [FromWorker::Image { key, image }, FromWorker::Status(s)]
            if key == "k" && image.rgba[0] == 7 && s == "image decode failed: torn"
    ));

    let mut w = worker(net(), None);
    assert_eq!(w.image_decoded("k".into(), &source, Err("torn".into())), None);
    assert!(matches!(
        &w.take_events()[..],
        [FromWorker::Status(s)] if s == "image decode failed: torn"
    ));
}

#[test]
fn listing_again_keeps_an_opened_body() {
    let mut w = worker(net(), None);
    w.add_feed(DID).unwrap();
    w.open_doc(DOC).unwrap();
    assert!(w.store.document(DOC).unwrap().unwrap().body.is_some());
    w.add_feed(DID).unwrap();
    let held = w.store.document(DOC).unwrap().unwrap();
    assert!(held.body.is_some() && held.read);
}
