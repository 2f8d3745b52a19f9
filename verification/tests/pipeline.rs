//! The way from a handle to a decoded document, across two repositories.
use std::collections::HashMap;

use standard_reader::app::{App, Mode};
use standard_reader::atp::{xrpc, AtUri, Transport};
use standard_reader::decode::Registry;
use standard_reader::json::{parse_json, Json};
use standard_reader::model::{Block, Document, ImageSource, Inline, PublishingPlatform};
use standard_reader::prefs::{LayoutKind, Prefs};
use standard_reader::read::{
    get_document, get_publication, list_documents, list_subscriptions, resolve_identity,
};
use standard_reader::url::percent_decode;
use standard_reader::worker::FromWorker;

const DAVID_DID: &str = "did:plc:xn3l7ogsxym5ixxugidum5dw";
const DAVID_PDS: &str = "https://yapfest.club";
const HALF_DID: &str = "did:plc:xbtmt2zjwlrfegqvch7fboei";
const HALF_PDS: &str = "https://pds.zzstoatzz.io";

struct MockTransport {
    responses: HashMap<String, Vec<u8>>,
}

impl Transport for MockTransport {
    fn get(&self, url: &str) -> Result<Vec<u8>, String> {
        self.responses
            .get(url)
            .cloned()
            .ok_or_else(|| format!("no mock registered for GET {url}"))
    }

    fn post(&self, url: &str, _: &str, _: &[u8]) -> Result<Vec<u8>, String> {
        Err(format!("unexpected POST {url}"))
    }
}

fn plc(pds: &str) -> String {
    format!(r##"{{"service":[{{"id":"#atproto_pds","serviceEndpoint":"{pds}"}}]}}"##)
}

/// A document record with some content.
fn record(did: &str, site: &str, rkey: &str, content: &str) -> String {
    format!(
        r#"{{"uri":"at://{did}/site.standard.document/{rkey}","value":{{"title":"{rkey}","site":"{site}","publishedAt":"2026-01-01T00:00:00Z","content":{content}}}}}"#
    )
}

fn half_pub() -> String {
    format!("at://{HALF_DID}/site.standard.publication/3mbmm4qeiy2to")
}

fn mock() -> MockTransport {
    let mut responses: HashMap<String, Vec<u8>> = HashMap::new();
    let mut put = |url: String, body: String| {
        responses.insert(url, body.into_bytes());
    };
    put(
        "https://david.yapfest.club/.well-known/atproto-did".into(),
        format!("{DAVID_DID}\n"),
    );
    put(xrpc::plc_directory(DAVID_DID), plc(DAVID_PDS));
    put(xrpc::plc_directory(HALF_DID), plc(HALF_PDS));

    // The first page of subscriptions has a cursor; the next is empty.
    let subscriptions = "site.standard.graph.subscription";
    put(
        xrpc::list_records(DAVID_PDS, DAVID_DID, subscriptions, 100, None),
        format!(
            r#"{{"records":[{{"uri":"at://{DAVID_DID}/{subscriptions}/1","value":{{"publication":"{}"}}}}],"cursor":"more"}}"#,
            half_pub()
        ),
    );
    put(
        xrpc::list_records(DAVID_PDS, DAVID_DID, subscriptions, 100, Some("more")),
        r#"{"records":[]}"#.into(),
    );

    put(
        xrpc::get_record(
            HALF_PDS,
            HALF_DID,
            "site.standard.publication",
            "3mbmm4qeiy2to",
        ),
        format!(
            r#"{{"uri":"{}","value":{{"url":"https://half.test","name":"half baked"}}}}"#,
            half_pub()
        ),
    );
    let pckt = r#"{"$type":"blog.pckt.content","items":[{"$type":"blog.pckt.block.text","plaintext":"test"}]}"#;
    let unthread = r#"{"$type":"at.unthread.content","content":"*argues* and **firmly**"}"#;
    let docs: Vec<(&str, &str)> = vec![
        ("3mmrd000000aa", pckt),
        ("3mmrd000000ab", pckt),
        ("3mmrd000000ac", pckt),
        ("3mmrd000000ad", pckt),
        ("3mj5rpb2gnc23", unthread),
    ];
    let mut listed = Vec::new();
    for (rkey, content) in docs {
        let r = record(HALF_DID, &half_pub(), rkey, content);
        put(
            xrpc::get_record(HALF_PDS, HALF_DID, "site.standard.document", rkey),
            r.clone(),
        );
        listed.push(r);
    }
    put(
        xrpc::list_records(HALF_PDS, HALF_DID, "site.standard.document", 50, None),
        format!(r#"{{"records":[{}]}}"#, listed.join(",")),
    );

    let site = format!("at://{DAVID_DID}/site.standard.publication/1");
    let reference = format!(
        r#"{{"$type":"app.greengale.document#contentRef","uri":"at://{DAVID_DID}/app.greengale.document/3mmozgypkle2s"}}"#
    );
    put(
        xrpc::get_record(
            DAVID_PDS,
            DAVID_DID,
            "site.standard.document",
            "3mmozgypkle2s",
        ),
        record(DAVID_DID, &site, "3mmozgypkle2s", &reference),
    );
    put(
        xrpc::get_record(
            DAVID_PDS,
            DAVID_DID,
            "app.greengale.document",
            "3mmozgypkle2s",
        ),
        format!(
            r##"{{"uri":"at://{DAVID_DID}/app.greengale.document/3mmozgypkle2s","value":{{"content":"# BLAH BLAH"}}}}"##
        ),
    );
    let gallery = format!(
        r#"{{"$type":"blog.pckt.content","items":[{{"$type":"blog.pckt.block.gallery","ref":"at://{DAVID_DID}/blog.pckt.gallery/3mmrn4i26e5al"}}]}}"#
    );
    put(
        xrpc::get_record(
            DAVID_PDS,
            DAVID_DID,
            "site.standard.document",
            "3mmrd52hpdakk",
        ),
        record(DAVID_DID, &site, "3mmrd52hpdakk", &gallery),
    );
    let blob = |cid: &str| {
        format!(
            r#"{{"blob":{{"$type":"blob","ref":{{"$link":"{cid}"}},"mimeType":"image/png","size":1}}}}"#
        )
    };
    put(
        xrpc::get_record(DAVID_PDS, DAVID_DID, "blog.pckt.gallery", "3mmrn4i26e5al"),
        format!(
            r#"{{"uri":"at://{DAVID_DID}/blog.pckt.gallery/3mmrn4i26e5al","value":{{"images":[{},{}]}}}}"#,
            blob("bafa"),
            blob("bafb")
        ),
    );
    MockTransport { responses }
}

fn uri(did: &str, rkey: &str) -> AtUri {
    AtUri::parse(&format!("at://{did}/site.standard.document/{rkey}")).unwrap()
}

#[test]
fn resolves_handle_to_identity() {
    let id = resolve_identity(&mock(), "david.yapfest.club").unwrap();
    assert_eq!(id.did, DAVID_DID);
    assert_eq!(id.pds, DAVID_PDS);
}

#[test]
fn full_cross_repo_subscription_flow() {
    let t = mock();
    let registry = Registry::with_defaults();

    let reader = resolve_identity(&t, DAVID_DID).unwrap();
    let subs = list_subscriptions(&t, &reader).unwrap();
    assert_eq!(subs.len(), 1);

    let pub_uri = AtUri::parse(&subs[0].publication).unwrap();
    assert_eq!(pub_uri.did, HALF_DID);

    let (publication, repo) = get_publication(&t, &pub_uri).unwrap();
    assert_eq!(publication.name, "half baked");
    assert_eq!(repo.pds, HALF_PDS);

    let (docs, _cursor) = list_documents(&t, &repo, None).unwrap();
    assert_eq!(docs.len(), 5);

    let pckt_uri = AtUri::parse(&docs[0].uri).unwrap();
    let (meta, body) = get_document(&t, &registry, &pckt_uri, &repo.pds).unwrap();
    assert_eq!(meta.publication, subs[0].publication);
    assert_eq!(meta.publishing_platform, Some(PublishingPlatform::Pckt));
    assert!(!body.blocks.is_empty(), "pckt body should decode to blocks");
}

#[test]
fn read_pipeline_unthread_content_decodes_as_markdown() {
    let t = mock();
    let registry = Registry::with_defaults();
    let doc = uri(HALF_DID, "3mj5rpb2gnc23");
    let (_, body) = get_document(&t, &registry, &doc, HALF_PDS).unwrap();
    assert!(!body.blocks.is_empty());
    let has_emphasis = body.blocks.iter().any(|b| {
        matches!(b, Block::Paragraph(inlines)
            if inlines.iter().any(|i| matches!(i, Inline::Emphasis(_))))
    });
    assert!(
        has_emphasis,
        "unthread markdown should produce formatted inlines"
    );
}

#[test]
fn pckt_gallery_ref_resolves_to_image_grid() {
    let t = mock();
    let registry = Registry::with_defaults();
    let doc = uri(DAVID_DID, "3mmrd52hpdakk");
    let (meta, body) = get_document(&t, &registry, &doc, DAVID_PDS).unwrap();
    assert_eq!(meta.publishing_platform, Some(PublishingPlatform::Pckt));
    let grid = body
        .blocks
        .iter()
        .find_map(|b| match b {
            Block::ImageGrid(images) => Some(images),
            _ => None,
        })
        .expect("the gallery should resolve to a Block::ImageGrid");
    assert_eq!(grid.len(), 2);
    assert!(
        grid.iter()
            .all(|i| matches!(&i.source, ImageSource::Blob { .. })),
        "gallery images are atproto blobs"
    );
    assert!(
        !body
            .blocks
            .iter()
            .any(|b| matches!(b, Block::GalleryRef { .. })),
        "no unresolved GalleryRef should remain"
    );
}

#[test]
fn greengale_two_phase_contentref_fetches_referenced_record() {
    let t = mock();
    let registry = Registry::with_defaults();
    let doc = uri(DAVID_DID, "3mmozgypkle2s");
    let (meta, body) = get_document(&t, &registry, &doc, DAVID_PDS).unwrap();
    assert_eq!(
        meta.publishing_platform,
        Some(PublishingPlatform::GreenGale)
    );
    assert!(body.blocks.iter().any(|b| matches!(
        b,
        Block::Heading { level: 1, content } if content == &[Inline::Text("BLAH BLAH".into())]
    )));
}

// --- What holds of every input, on one --------------------------------------------

#[test]
fn four_steps_lead_through_every_layout() {
    let mut l = LayoutKind::ThreePane;
    let mut seen = vec![];
    for _ in 0..4 {
        seen.push(l);
        l = l.next();
    }
    assert_eq!(l, LayoutKind::ThreePane);
    for k in LayoutKind::ALL {
        assert!(seen.contains(&k));
    }
}

#[test]
fn plain_bytes_mean_themselves() {
    assert_eq!(percent_decode("abc-123"), "abc-123");
    assert_eq!(percent_decode("a%2Fb+c"), "a/b c");
}

#[test]
fn a_member_that_was_set_is_read_back() {
    let value = parse_json(br#"{"a":1,"items":[]}"#).unwrap();
    let value = value.with_member("items", Json::Str("x".into()));
    assert_eq!(value.get_str("items"), Some("x"));
    assert!(value.get("a").is_some());
}

#[test]
fn a_late_list_for_another_feed_is_dropped() {
    let mut app = App::new(Prefs {
        onboarded: true,
        ..Prefs::default()
    });
    app.open_pub = Some("at://p/2".into());
    app.apply(FromWorker::Docs {
        publication: "at://p/1".into(),
        docs: vec![Document {
            uri: "at://d/1".into(),
            title: "t".into(),
            description: None,
            publication: "at://p/1".into(),
            published_at: "2026".into(),
            updated_at: None,
            publishing_platform: None,
            cover_image: None,
            text_content: None,
            tags: vec![],
            path: None,
        }],
        read_uris: vec![],
        has_older: false,
    });
    assert!(app.docs.is_empty());
    assert_eq!(app.mode, Mode::Browse);
}
