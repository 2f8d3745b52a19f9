//! The in-memory store and its persistence.
use standard_reader::browser::Writer;
use standard_reader::memstore::{IndexDto, InitialState, MemStore, StoreOp};
use standard_reader::model::{Block, Document, Inline, Publication, RichDoc};
use standard_reader::persist::{blob_file_key, body_key, PersistOp, QueuedWrite, WriteQueue};
use standard_reader::store::{FrontendStore, Store};
use standard_reader::table::Table;

fn publication() -> Publication {
    Publication {
        uri: "at://did:plc:test/site.standard.publication/main".into(),
        url: "https://x.test".into(),
        name: "X".into(),
        description: None,
        icon: None,
    }
}

fn document(publication: &str) -> Document {
    Document {
        uri: "at://did:plc:test/site.standard.document/post".into(),
        title: "Post".into(),
        description: None,
        publication: publication.into(),
        published_at: "2026-07-20T12:00:00Z".into(),
        updated_at: None,
        publishing_platform: None,
        cover_image: None,
        text_content: Some("offline searchable text".into()),
        tags: vec!["test".into()],
        path: Some("/post".into()),
    }
}

fn doc(uri: &str, pub_uri: &str, published: &str, text: &str) -> Document {
    Document {
        uri: uri.into(),
        title: "t".into(),
        description: None,
        publication: pub_uri.into(),
        published_at: published.into(),
        updated_at: None,
        publishing_platform: None,
        cover_image: None,
        text_content: Some(text.into()),
        tags: vec![],
        path: None,
    }
}

fn body() -> RichDoc {
    RichDoc {
        blocks: vec![Block::Paragraph(vec![Inline::Strong(vec![Inline::Text(
            "offline body".into(),
        )])])],
    }
}

fn fresh_store() -> MemStore {
    MemStore::new(InitialState::default())
}

/// What a shell that keeps every operation would find at the next start.
fn emitted_state(store: &mut MemStore) -> (IndexDto, Table<RichDoc>, Table<Vec<u8>>) {
    let mut index = None;
    let mut bodies = Table::new();
    let mut blobs = Table::new();
    for op in store.take_ops() {
        match op {
            StoreOp::Index(dto) => index = Some(dto),
            StoreOp::Body { key, body } => bodies.insert(key, body),
            StoreOp::Blob { cid, bytes } => blobs.insert(cid, bytes),
        }
    }
    (index.expect("an index snapshot"), bodies, blobs)
}

// --- Hydration --------------------------------------------------------------------

#[test]
fn complete_cache_snapshot_hydrates_offline_state() {
    let mut store = fresh_store();
    let publication = publication();
    let document = document(&publication.uri);
    let body = body();

    store.upsert_publication(&publication).unwrap();
    store.follow(&publication.uri).unwrap();
    store.set_follow_rkey(&publication.uri, "3krkey").unwrap();
    store.upsert_document(&document, Some(&body)).unwrap();
    store.set_read(&document.uri, true).unwrap();
    store.put_blob("bafycid", &[1, 2, 3]).unwrap();
    store.set_sync_cursor(&publication.uri, "newest").unwrap();
    store.set_older_cursor("did:plc:test", "older").unwrap();
    store.set_show_images(false).unwrap();

    let (index, bodies, _) = emitted_state(&mut store);
    // The shell reads blobs back under the names that the snapshot gives.
    let mut blobs = Table::new();
    for cid in index.blob_cids() {
        blobs.insert(cid.clone(), vec![1, 2, 3]);
    }
    let hydrated = MemStore::new(InitialState::from_index(index, &bodies, blobs));

    assert_eq!(
        hydrated.publication(&publication.uri).unwrap(),
        Some(publication)
    );
    assert_eq!(
        hydrated.document(&document.uri).unwrap().unwrap().body,
        Some(body)
    );
    assert!(hydrated.document(&document.uri).unwrap().unwrap().read);
    assert_eq!(hydrated.blob("bafycid").unwrap(), Some(vec![1, 2, 3]));
    assert_eq!(
        hydrated
            .follow_rkey(&document.publication)
            .unwrap()
            .as_deref(),
        Some("3krkey")
    );
    assert_eq!(
        hydrated
            .sync_cursor(&document.publication)
            .unwrap()
            .as_deref(),
        Some("newest")
    );
    assert_eq!(
        hydrated.older_cursor("did:plc:test").unwrap().as_deref(),
        Some("older")
    );
    assert!(!hydrated.show_images().unwrap());
    assert_eq!(
        hydrated.search("offline searchable").unwrap(),
        vec![document.uri]
    );
}

#[test]
fn schema_mismatch_keeps_stable_state_but_invalidates_bodies_and_cursors() {
    let mut store = fresh_store();
    let publication = publication();
    let document = document(&publication.uri);
    store.upsert_publication(&publication).unwrap();
    store.follow(&publication.uri).unwrap();
    store.upsert_document(&document, Some(&body())).unwrap();
    store.set_read(&document.uri, true).unwrap();
    store.put_blob("bafycid", &[9]).unwrap();
    store.set_sync_cursor(&publication.uri, "newest").unwrap();
    store.set_older_cursor("did:plc:test", "older").unwrap();
    store.set_show_images(false).unwrap();

    let (mut index, bodies, _) = emitted_state(&mut store);
    index.schema = "old".into();
    let mut blobs = Table::new();
    blobs.insert("bafycid".into(), vec![9]);
    let initial = InitialState::from_index(index, &bodies, blobs);

    assert_eq!(
        initial.publications.get(&publication.uri),
        Some(&publication)
    );
    assert!(initial.follows.contains_key(&publication.uri));
    assert_eq!(initial.blobs.get("bafycid"), Some(&vec![9]));
    assert!(!initial.show_images);
    assert!(initial.documents.get(&document.uri).unwrap().read);
    assert!(initial.documents.get(&document.uri).unwrap().body.is_none());
    assert_eq!(initial.sync_cursors.len(), 0);
    assert_eq!(initial.older_cursors.len(), 0);
}

#[test]
fn corrupt_or_missing_body_degrades_to_metadata_only() {
    let mut store = fresh_store();
    let document = document(&publication().uri);
    store.upsert_document(&document, Some(&body())).unwrap();
    let (index, _, blobs) = emitted_state(&mut store);
    // A body that does not read is not among those handed in.
    let initial = InitialState::from_index(index, &Table::new(), blobs);
    let stored = initial.documents.get(&document.uri).unwrap();
    assert_eq!(stored.meta, document);
    assert!(stored.body.is_none());
}

#[test]
fn payload_ops_are_emitted_before_referencing_index() {
    let mut store = fresh_store();
    let document = document("at://did:plc:test/site.standard.publication/main");
    store.upsert_document(&document, Some(&body())).unwrap();
    let ops = store.take_ops();
    assert!(matches!(ops[0], StoreOp::Body { .. }));
    assert!(matches!(ops[1], StoreOp::Index(_)));

    store.put_blob("bafycid", &[1]).unwrap();
    let ops = store.take_ops();
    assert!(matches!(ops[0], StoreOp::Blob { .. }));
    assert!(matches!(ops[1], StoreOp::Index(_)));
}

#[test]
fn url_backed_blob_uses_an_opfs_safe_persistence_key() {
    let mut store = fresh_store();
    let url = "https://cdn.example.test/images/header.png?size=full";
    store.put_blob(url, &[1, 2, 3]).unwrap();

    let ops = store.take_ops();
    let StoreOp::Blob { cid, bytes } = &ops[0] else {
        panic!("blob payload must be emitted before its index");
    };
    assert_eq!(*cid, blob_file_key(url));
    assert!(!cid.contains('/'));
    assert_eq!(*bytes, vec![1, 2, 3]);
    assert!(matches!(ops[1], StoreOp::Index(_)));
}

// --- The store --------------------------------------------------------------------

#[test]
fn publication_round_trip() {
    let mut s = fresh_store();
    let p = publication();
    s.upsert_publication(&p).unwrap();
    assert_eq!(s.publication(&p.uri).unwrap().as_ref(), Some(&p));
    assert_eq!(s.publication("at://nope/x/1").unwrap(), None);
}

#[test]
fn document_body_survives_serialization() {
    let mut s = fresh_store();
    let d = doc("at://d/c/1", "at://d/p/1", "2026-01-01", "hello");
    s.upsert_document(&d, Some(&body())).unwrap();
    let stored = s.document(&d.uri).unwrap().unwrap();
    assert_eq!(stored.body.as_ref(), Some(&body()));
    assert!(!stored.read);
}

#[test]
fn documents_for_is_newest_first() {
    let mut s = fresh_store();
    let p = "at://d/p/1";
    s.upsert_document(&doc("at://d/c/old", p, "2025-01-01", "a"), None)
        .unwrap();
    s.upsert_document(&doc("at://d/c/new", p, "2026-01-01", "b"), None)
        .unwrap();
    s.upsert_document(
        &doc("at://d/c/other", "at://d/p/2", "2027-01-01", "c"),
        None,
    )
    .unwrap();
    let uris: Vec<_> = s
        .documents_for(p)
        .unwrap()
        .into_iter()
        .map(|d| d.uri)
        .collect();
    assert_eq!(uris, ["at://d/c/new", "at://d/c/old"]);
}

#[test]
fn set_read_persists_and_survives_reupsert() {
    let mut s = fresh_store();
    let d = doc("at://d/c/1", "at://d/p/1", "2026-01-01", "x");
    s.upsert_document(&d, None).unwrap();
    s.set_read(&d.uri, true).unwrap();
    assert!(s.document(&d.uri).unwrap().unwrap().read);
    s.upsert_document(&d, None).unwrap();
    assert!(s.document(&d.uri).unwrap().unwrap().read);
}

#[test]
fn blob_and_cursor_round_trip() {
    let mut s = fresh_store();
    s.put_blob("bafcid", &[1, 2, 3]).unwrap();
    assert_eq!(s.blob("bafcid").unwrap(), Some(vec![1, 2, 3]));
    assert_eq!(s.blob("missing").unwrap(), None);

    assert_eq!(s.sync_cursor("at://d/p/1").unwrap(), None);
    s.set_sync_cursor("at://d/p/1", "cursor123").unwrap();
    assert_eq!(
        s.sync_cursor("at://d/p/1").unwrap().as_deref(),
        Some("cursor123")
    );
}

#[test]
fn older_cursor_tracks_the_three_fetch_states() {
    let mut s = fresh_store();
    let did = "did:plc:abc";
    assert_eq!(s.older_cursor(did).unwrap(), None);
    s.set_older_cursor(did, "pg3").unwrap();
    assert_eq!(s.older_cursor(did).unwrap().as_deref(), Some("pg3"));
    s.set_older_cursor(did, "").unwrap();
    assert_eq!(s.older_cursor(did).unwrap().as_deref(), Some(""));
    assert_eq!(s.older_cursor("did:plc:other").unwrap(), None);
}

#[test]
fn read_uris_and_unread_count_track_read_state() {
    let mut s = fresh_store();
    let p = "at://d/p/1";
    for i in 1..=3 {
        s.upsert_document(&doc(&format!("at://d/c/{i}"), p, "2026-01-01", "x"), None)
            .unwrap();
    }
    assert_eq!(s.unread_count(p).unwrap(), 3);
    assert!(s.read_uris(p).unwrap().is_empty());

    s.set_read("at://d/c/2", true).unwrap();
    assert_eq!(s.unread_count(p).unwrap(), 2);
    assert_eq!(s.read_uris(p).unwrap(), vec!["at://d/c/2".to_string()]);

    assert_eq!(s.unread_count("at://d/p/other").unwrap(), 0);
}

#[test]
fn follow_list_round_trips() {
    let mut s = fresh_store();
    assert!(s.follows().unwrap().is_empty());
    assert!(!s.is_followed("at://d/p/1").unwrap());

    s.follow("at://d/p/1").unwrap();
    s.follow("at://d/p/2").unwrap();
    assert!(s.is_followed("at://d/p/1").unwrap());
    assert_eq!(s.follows().unwrap().len(), 2);

    s.unfollow("at://d/p/1").unwrap();
    assert!(!s.is_followed("at://d/p/1").unwrap());
    assert_eq!(s.follows().unwrap(), ["at://d/p/2"]);
}

#[test]
fn follow_rkey_round_trips_and_is_preserved() {
    let mut s = fresh_store();
    s.follow("at://d/p/1").unwrap();
    assert_eq!(s.follow_rkey("at://d/p/1").unwrap(), None);
    s.set_follow_rkey("at://d/p/1", "3kabc").unwrap();
    assert_eq!(
        s.follow_rkey("at://d/p/1").unwrap().as_deref(),
        Some("3kabc")
    );
    s.follow("at://d/p/1").unwrap();
    assert_eq!(
        s.follow_rkey("at://d/p/1").unwrap().as_deref(),
        Some("3kabc")
    );
    s.unfollow("at://d/p/1").unwrap();
    assert_eq!(s.follow_rkey("at://d/p/1").unwrap(), None);
    assert!(!s.is_followed("at://d/p/1").unwrap());
}

#[test]
fn show_images_setting_round_trips() {
    let mut s = fresh_store();
    assert!(s.show_images().unwrap(), "defaults to on");
    s.set_show_images(false).unwrap();
    assert!(!s.show_images().unwrap());
    s.set_show_images(true).unwrap();
    assert!(s.show_images().unwrap());
}

#[test]
fn search_has_and_semantics() {
    let mut s = fresh_store();
    s.upsert_document(
        &doc(
            "at://d/c/1",
            "at://d/p/1",
            "2026",
            "bottom surgery is a big change",
        ),
        None,
    )
    .unwrap();
    s.upsert_document(
        &doc(
            "at://d/c/2",
            "at://d/p/1",
            "2026",
            "a lifechanging surgery story",
        ),
        None,
    )
    .unwrap();
    assert_eq!(s.search("surgery").unwrap().len(), 2);
    assert_eq!(s.search("bottom surgery").unwrap(), ["at://d/c/1"]);
    assert!(s.search("nonexistent").unwrap().is_empty());
}

// --- The write queue --------------------------------------------------------------

#[test]
fn body_key_is_stable_and_filesystem_safe() {
    assert_eq!(body_key(""), "cbf29ce484222325");
    let key = body_key("at://did:plc:test/site.standard.document/post");
    assert_eq!(
        key,
        body_key("at://did:plc:test/site.standard.document/post")
    );
    assert_eq!(key.len(), 16);
    assert!(key.bytes().all(|b| b.is_ascii_hexdigit()));
}

#[test]
fn queue_coalesces_snapshots_and_bodies_then_writes_payloads_first() {
    let mut queue = WriteQueue::default();
    queue.push(PersistOp::Index(vec![1]));
    queue.push(PersistOp::Prefs(vec![2]));
    queue.push(PersistOp::Body {
        key: "body".into(),
        bytes: vec![3],
    });
    queue.push(PersistOp::Body {
        key: "body".into(),
        bytes: vec![4],
    });
    queue.push(PersistOp::Blob {
        cid: "cid".into(),
        bytes: vec![5],
    });
    queue.push(PersistOp::Index(vec![6]));
    queue.push(PersistOp::Prefs(vec![7]));

    assert_eq!(
        queue.pop_next(),
        Some(QueuedWrite::Body {
            key: "body".into(),
            bytes: vec![4]
        })
    );
    assert_eq!(
        queue.pop_next(),
        Some(QueuedWrite::Blob {
            cid: "cid".into(),
            bytes: vec![5]
        })
    );
    assert_eq!(queue.pop_next(), Some(QueuedWrite::Index(vec![6])));
    assert_eq!(queue.pop_next(), Some(QueuedWrite::Prefs(vec![7])));
    assert!(queue.pop_next().is_none());
}

#[test]
fn blob_is_deduplicated_only_after_success() {
    let mut queue = WriteQueue::new(vec!["already".to_string()]);
    queue.push(PersistOp::Blob {
        cid: "already".into(),
        bytes: vec![1],
    });
    assert!(queue.is_empty(), "startup-loaded cid is already durable");

    queue.push(PersistOp::Blob {
        cid: "retry".into(),
        bytes: vec![2],
    });
    queue.push(PersistOp::Blob {
        cid: "retry".into(),
        bytes: vec![3],
    });
    let failed = queue.pop_next().unwrap();
    assert_eq!(failed.target().2, &[2]);

    queue.push(PersistOp::Blob {
        cid: "retry".into(),
        bytes: vec![4],
    });
    let succeeded = queue.pop_next().unwrap();
    queue.mark_succeeded(&succeeded);
    queue.push(PersistOp::Blob {
        cid: "retry".into(),
        bytes: vec![5],
    });
    assert!(queue.is_empty(), "successful cid is now write-once");
}

#[test]
fn a_failed_write_is_tried_once_more_and_then_reported() {
    let mut writer = Writer::new(WriteQueue::default());
    assert!(!writer.start(), "nothing is pending");
    writer.push(PersistOp::Index(vec![1]));
    writer.push(PersistOp::Prefs(vec![2]));
    assert!(writer.start());
    assert!(!writer.start(), "one write at a time");
    assert_eq!(writer.current(), Some(&QueuedWrite::Index(vec![1])));
    writer.finish(false);
    assert_eq!(writer.current(), Some(&QueuedWrite::Index(vec![1])));
    assert_eq!(writer.take_notice(), None);
    writer.finish(false);
    assert_eq!(writer.current(), Some(&QueuedWrite::Prefs(vec![2])));
    assert_eq!(
        writer.take_notice().as_deref(),
        Some("offline storage write failed; recent changes may not survive reload")
    );
    writer.finish(true);
    assert_eq!(writer.current(), None);
    assert_eq!(writer.take_notice(), None);
}

#[test]
fn payloads_leave_in_the_order_they_came() {
    let mut queue = WriteQueue::default();
    let body = |key: &str, byte: u8| PersistOp::Body {
        key: key.into(),
        bytes: vec![byte],
    };
    queue.push(PersistOp::Prefs(vec![0]));
    queue.push(body("a", 1));
    queue.push(body("b", 2));
    queue.push(body("a", 3));
    let first = queue.pop_next().unwrap();
    assert_eq!(first.target().2, &[3], "the first body, with its last bytes");
    queue.mark_succeeded(&first);
    queue.push(body("a", 4));
    assert_eq!(queue.pop_next().unwrap().target().2, &[2]);
    assert_eq!(queue.pop_next().unwrap().target().2, &[4]);
    assert_eq!(queue.pop_next(), Some(QueuedWrite::Prefs(vec![0])));
    assert!(queue.is_empty());
}
