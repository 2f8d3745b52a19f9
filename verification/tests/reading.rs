//! Fetching records over a canned transport.
use std::collections::HashMap;

use standard_reader::atp::{xrpc, AtUri, Transport};
use standard_reader::decode::Registry;
use standard_reader::json::{parse_json, Json};
use standard_reader::model::{Block, ImageSource, Inline, PublishingPlatform, RichDoc};
use standard_reader::read::{
    discover_publication_uri, extract_publication_link, get_document, get_publication,
    list_all_documents, list_documents_window, list_subscriptions, or_description, parse_document,
    parse_list, parse_subscription, resolve_did, resolve_identity, Identity, ReadError,
};

/// A URL that is not in the map is not found.
struct MockTransport(HashMap<String, Vec<u8>>);

impl Transport for MockTransport {
    fn get(&self, url: &str) -> Result<Vec<u8>, String> {
        self.0
            .get(url)
            .cloned()
            .ok_or_else(|| format!("no route for {url}"))
    }

    fn post(&self, _: &str, _: &str, _: &[u8]) -> Result<Vec<u8>, String> {
        Err("no post in mock".to_string())
    }
}

fn routes(list: &[(&str, &str)]) -> MockTransport {
    MockTransport(
        list.iter()
            .map(|(url, body)| (url.to_string(), body.as_bytes().to_vec()))
            .collect(),
    )
}

fn json(text: &str) -> Json {
    parse_json(text.as_bytes()).unwrap()
}

fn para(s: &str) -> Block {
    Block::Paragraph(vec![Inline::Text(s.into())])
}

#[test]
fn empty_body_falls_back_to_the_description_blurb() {
    let empty = || RichDoc { blocks: vec![] };
    let body = or_description(empty(), Some("A short blurb."));
    assert_eq!(body.blocks, vec![para("A short blurb.")]);

    let real = RichDoc {
        blocks: vec![para("the actual post")],
    };
    assert_eq!(or_description(real.clone(), Some("blurb")), real);

    assert!(or_description(empty(), None).blocks.is_empty());
    assert!(or_description(empty(), Some("   ")).blocks.is_empty());
}

#[test]
fn parses_subscription_to_cross_repo_publication() {
    let value = json(
        r#"{ "$type": "site.standard.graph.subscription",
             "publication": "at://did:plc:other/site.standard.publication/3abc" }"#,
    );
    let sub = parse_subscription(
        &value,
        "at://did:plc:me/site.standard.graph.subscription/3xyz",
    )
    .unwrap();
    assert_eq!(
        sub.publication,
        "at://did:plc:other/site.standard.publication/3abc"
    );
}

#[test]
fn document_requires_site_and_resolves_cover_blob() {
    let uri = "at://did:plc:abc/site.standard.document/3doc";
    let value = json(
        r#"{ "title": "Hello",
             "site": "at://did:plc:abc/site.standard.publication/3pub",
             "publishedAt": "2026-05-26T00:00:00Z",
             "textContent": "body",
             "coverImage": { "$type": "blob", "ref": { "$link": "bafcover" }, "mimeType": "image/png", "size": 1 } }"#,
    );
    let doc = parse_document(&value, uri).unwrap();
    assert_eq!(
        doc.publication,
        "at://did:plc:abc/site.standard.publication/3pub"
    );
    assert!(matches!(
        doc.cover_image.unwrap().source,
        ImageSource::Blob { ref did, ref cid } if did == "did:plc:abc" && cid == "bafcover"
    ));

    let bad = json(r#"{ "title": "x" }"#);
    assert!(parse_document(&bad, uri).is_none());
}

#[test]
fn list_envelope_keeps_cursor() {
    let bytes = br#"{"records":[{"uri":"at://d/c/1","value":{"publication":"at://x/site.standard.publication/1"}}],"cursor":"next123"}"#;
    let (records, cursor) = parse_list(bytes).unwrap();
    assert_eq!(records.len(), 1);
    assert_eq!(cursor.as_deref(), Some("next123"));
}

// --- Identities -------------------------------------------------------------------

#[test]
fn resolve_did_falls_back_to_dns_when_well_known_is_missing() {
    let t = routes(&[(
        "https://dns.google/resolve?name=_atproto.pfrazee.com&type=TXT",
        r#"{"Answer":[{"name":"_atproto.pfrazee.com.","data":"did=did:plc:ragtjsm2j2vknwkz3zp4oxrd"}]}"#,
    )]);
    let did = resolve_did(&t, "pfrazee.com").unwrap();
    assert_eq!(did, "did:plc:ragtjsm2j2vknwkz3zp4oxrd");
}

#[test]
fn resolve_did_prefers_well_known_and_skips_dns() {
    let t = routes(&[(
        "https://alice.test/.well-known/atproto-did",
        "did:plc:fromwellknown\n",
    )]);
    let did = resolve_did(&t, "alice.test").unwrap();
    assert_eq!(did, "did:plc:fromwellknown");
}

#[test]
fn resolve_did_errors_when_neither_method_resolves() {
    let empty = routes(&[]);
    assert!(resolve_did(&empty, "nobody.test").is_err());
}

#[test]
fn identity_is_the_did_and_its_server() {
    let t = routes(&[
        ("https://alice.test/.well-known/atproto-did", "did:plc:alice"),
        (
            "https://plc.directory/did:plc:alice",
            r##"{"service":[{"id":"#other","serviceEndpoint":"https://no.test"},{"id":"#atproto_pds","serviceEndpoint":"https://pds.test"}]}"##,
        ),
    ]);
    let id = resolve_identity(&t, "alice.test").unwrap();
    assert_eq!((id.did.as_str(), id.pds.as_str()), ("did:plc:alice", "https://pds.test"));
    let same = resolve_identity(&t, "did:plc:alice").unwrap();
    assert_eq!(same.pds, "https://pds.test");
    assert!(resolve_identity(&t, "did:plc:gone").is_err());
}

// --- Listing ----------------------------------------------------------------------

const PAGE: &str = "https://pds.test/xrpc/com.atproto.repo.listRecords?repo=did:plc:abc&collection=site.standard.document&limit=50";

fn repo() -> Identity {
    Identity {
        did: "did:plc:abc".into(),
        pds: "https://pds.test".into(),
    }
}

fn doc_record(rkey: &str, title: &str) -> String {
    format!(
        r#"{{"uri":"at://did:plc:abc/site.standard.document/{rkey}","value":{{"title":"{title}","site":"at://did:plc:abc/site.standard.publication/p","publishedAt":"2026-01-01T00:00:00Z"}}}}"#
    )
}

#[test]
fn list_all_documents_pages_through_the_cursor() {
    let page2 = format!("{PAGE}&cursor=pg2");
    let first = format!(r#"{{"records":[{}],"cursor":"pg2"}}"#, doc_record("1", "One"));
    let second = format!(r#"{{"records":[{}]}}"#, doc_record("2", "Two"));
    let t = routes(&[(PAGE, &first), (&page2, &second)]);
    let docs = list_all_documents(&t, &repo()).unwrap();
    assert_eq!(docs.len(), 2);
    assert_eq!(docs[0].title, "One");
    assert_eq!(docs[1].title, "Two");
}

#[test]
fn paginate_stops_on_an_empty_page_even_with_a_cursor() {
    let page2 = format!("{PAGE}&cursor=pg2");
    let first = format!(r#"{{"records":[{}],"cursor":"pg2"}}"#, doc_record("1", "One"));
    let t = routes(&[(PAGE, &first), (&page2, r#"{"records":[],"cursor":"pg3"}"#)]);
    let docs = list_all_documents(&t, &repo()).unwrap();
    assert_eq!(docs.len(), 1);
}

fn three_pages() -> MockTransport {
    let page2 = format!("{PAGE}&cursor=pg2");
    let page3 = format!("{PAGE}&cursor=pg3");
    let first = format!(r#"{{"records":[{}],"cursor":"pg2"}}"#, doc_record("1", "One"));
    let second = format!(r#"{{"records":[{}],"cursor":"pg3"}}"#, doc_record("2", "Two"));
    let third = format!(r#"{{"records":[{}]}}"#, doc_record("3", "Three"));
    routes(&[(PAGE, &first), (&page2, &second), (&page3, &third)])
}

#[test]
fn window_stops_at_the_page_cap_and_returns_a_resume_cursor() {
    let (docs, resume) = list_documents_window(&three_pages(), &repo(), None, 2).unwrap();
    assert_eq!(docs.len(), 2);
    assert_eq!(docs[0].title, "One");
    assert_eq!(docs[1].title, "Two");
    assert_eq!(resume.as_deref(), Some("pg3"));
}

#[test]
fn window_returns_none_when_the_repo_is_exhausted_within_the_cap() {
    let (docs, resume) = list_documents_window(&three_pages(), &repo(), None, 5).unwrap();
    assert_eq!(docs.len(), 3);
    assert_eq!(resume, None);
}

#[test]
fn window_resumes_from_a_given_cursor() {
    let (docs, resume) = list_documents_window(&three_pages(), &repo(), Some("pg3"), 3).unwrap();
    assert_eq!(docs.len(), 1);
    assert_eq!(docs[0].title, "Three");
    assert_eq!(resume, None);
}

// --- Discovery --------------------------------------------------------------------

#[test]
fn extracts_publication_uri_from_a_discovery_link() {
    let html = r#"<head>
            <link rel="alternate" type="application/rss+xml" href="https://x.leaflet.pub/rss"/>
            <link rel="alternate" href="at://did:plc:rnpkyqnmsw4ipey6eotbdnnf/site.standard.publication/3lyiajoe55c2b"/>
            <link rel="site.standard.publication" href="at://did:plc:rnpkyqnmsw4ipey6eotbdnnf/site.standard.publication/3lyiajoe55c2b"/>
        </head>"#;
    assert_eq!(
        extract_publication_link(html).as_deref(),
        Some("at://did:plc:rnpkyqnmsw4ipey6eotbdnnf/site.standard.publication/3lyiajoe55c2b")
    );
}

#[test]
fn extract_publication_link_ignores_non_publication_links() {
    let html = r#"<link rel="alternate" type="application/json" href="https://x.leaflet.pub/json"/>
            <link rel="icon" href="/favicon.ico"/>"#;
    assert_eq!(extract_publication_link(html), None);
}

#[test]
fn discover_publication_uri_fetches_then_extracts() {
    let t = routes(&[(
        "https://retrobailey.leaflet.pub/",
        r#"<html><head><link rel="site.standard.publication" href="at://did:plc:rnpkyqnmsw4ipey6eotbdnnf/site.standard.publication/3lyiajoe55c2b"/></head></html>"#,
    )]);
    let got = discover_publication_uri(&t, "https://retrobailey.leaflet.pub/").unwrap();
    assert_eq!(
        got.as_deref(),
        Some("at://did:plc:rnpkyqnmsw4ipey6eotbdnnf/site.standard.publication/3lyiajoe55c2b")
    );
}

// --- Whole documents --------------------------------------------------------------

#[test]
fn pckt_externalized_content_blob_is_fetched_and_decoded() {
    let did = "did:plc:beepub";
    let pds = "https://margin.cafe";
    let rkey = "3mbnc7czrc2gr";
    let cid = "bafblockarray";
    let record = format!(
        r#"{{ "uri": "at://{did}/site.standard.document/{rkey}",
              "value": {{
                "$type": "site.standard.document",
                "title": "bee",
                "site": "at://{did}/site.standard.publication/3pub",
                "publishedAt": "2026-01-05T01:33:08Z",
                "textContent": "bee\nline two\nline three",
                "content": {{
                    "$type": "blog.pckt.content",
                    "items": [],
                    "blob": {{ "$type": "blob", "ref": {{ "$link": "{cid}" }}, "mimeType": "text/plain", "size": 114000 }},
                    "references": []
                }}
              }} }}"#
    );
    let blocks = r#"[
        { "$type": "blog.pckt.block.text", "plaintext": "bee" },
        { "$type": "blog.pckt.block.text", "plaintext": "line two" },
        { "$type": "blog.pckt.block.text", "plaintext": "line three" }
    ]"#;
    let t = routes(&[
        (
            &xrpc::get_record(pds, did, "site.standard.document", rkey),
            &record,
        ),
        (&xrpc::get_blob(pds, did, cid), blocks),
    ]);
    let uri = AtUri::parse(&format!("at://{did}/site.standard.document/{rkey}")).unwrap();
    let (meta, body) = get_document(&t, &Registry::with_defaults(), &uri, pds).unwrap();

    assert_eq!(meta.title, "bee");
    let paras = body
        .blocks
        .iter()
        .filter(|b| matches!(b, Block::Paragraph(_)))
        .count();
    assert_eq!(paras, 3, "each text block becomes its own paragraph");
    assert_eq!(body.blocks[0], para("bee"));
}

#[test]
fn referenced_content_is_read_from_the_other_record() {
    let (did, pds) = ("did:plc:abc", "https://pds.test");
    let record = r#"{ "uri": "at://did:plc:abc/site.standard.document/1",
        "value": { "title": "t", "site": "at://did:plc:abc/site.standard.publication/p",
                   "publishedAt": "2026-01-01T00:00:00Z",
                   "content": { "$type": "app.greengale.document#contentRef",
                                "uri": "at://did:plc:abc/app.greengale.document/1" } } }"#;
    let other = r##"{ "uri": "at://did:plc:abc/app.greengale.document/1",
        "value": { "content": "# BLAH BLAH\n\nbody" } }"##;
    let t = routes(&[
        (&xrpc::get_record(pds, did, "site.standard.document", "1"), record),
        (&xrpc::get_record(pds, did, "app.greengale.document", "1"), other),
    ]);
    let uri = AtUri::parse("at://did:plc:abc/site.standard.document/1").unwrap();
    let (meta, body) = get_document(&t, &Registry::with_defaults(), &uri, pds).unwrap();
    assert_eq!(meta.publishing_platform, Some(PublishingPlatform::GreenGale));
    assert_eq!(
        body.blocks[0],
        Block::Heading {
            level: 1,
            content: vec![Inline::Text("BLAH BLAH".into())]
        }
    );
}

#[test]
fn gallery_references_become_image_grids() {
    let (did, pds) = ("did:plc:abc", "https://pds.test");
    let record = r#"{ "uri": "at://did:plc:abc/site.standard.document/1",
        "value": { "title": "t", "site": "at://did:plc:abc/site.standard.publication/p",
                   "publishedAt": "2026-01-01T00:00:00Z",
                   "content": { "$type": "blog.pckt.content",
                                "items": [{ "$type": "blog.pckt.block.gallery",
                                            "ref": "at://did:plc:abc/blog.pckt.gallery/g" }] } } }"#;
    let gallery = r#"{ "uri": "at://did:plc:abc/blog.pckt.gallery/g",
        "value": { "images": [
            { "blob": { "$type": "blob", "ref": { "$link": "bafa" }, "mimeType": "image/png", "size": 1 } },
            { "blob": { "$type": "blob", "ref": { "$link": "bafb" }, "mimeType": "image/png", "size": 1 } } ] } }"#;
    let doc_url = xrpc::get_record(pds, did, "site.standard.document", "1");
    let t = routes(&[
        (&doc_url, record),
        (&xrpc::get_record(pds, did, "blog.pckt.gallery", "g"), gallery),
        (
            &xrpc::plc_directory(did),
            r##"{"service":[{"id":"#atproto_pds","serviceEndpoint":"https://pds.test"}]}"##,
        ),
    ]);
    let uri = AtUri::parse("at://did:plc:abc/site.standard.document/1").unwrap();
    let (meta, body) = get_document(&t, &Registry::with_defaults(), &uri, pds).unwrap();
    assert_eq!(meta.publishing_platform, Some(PublishingPlatform::Pckt));
    assert!(matches!(body.blocks.as_slice(), [Block::ImageGrid(images)] if images.len() == 2));
}

#[test]
fn a_subscription_leads_to_a_publication_elsewhere() {
    let t = routes(&[
        (
            &xrpc::list_records(
                "https://pds.test",
                "did:plc:abc",
                "site.standard.graph.subscription",
                100,
                None,
            ),
            r#"{"records":[{"uri":"at://did:plc:abc/site.standard.graph.subscription/s","value":{"publication":"at://did:plc:other/site.standard.publication/p"}}]}"#,
        ),
        (
            &xrpc::plc_directory("did:plc:other"),
            r##"{"service":[{"id":"#atproto_pds","serviceEndpoint":"https://other.test"}]}"##,
        ),
        (
            &xrpc::get_record("https://other.test", "did:plc:other", "site.standard.publication", "p"),
            r#"{"uri":"at://did:plc:other/site.standard.publication/p","value":{"url":"https://half.test","name":"half baked"}}"#,
        ),
    ]);
    let subs = list_subscriptions(&t, &repo()).unwrap();
    assert_eq!(subs.len(), 1);
    let (publication, home) =
        get_publication(&t, &AtUri::parse(&subs[0].publication).unwrap()).unwrap();
    assert_eq!(publication.name, "half baked");
    assert_eq!(home.pds, "https://other.test");
}

#[test]
fn each_error_says_what_failed() {
    assert_eq!(
        ReadError::Transport("x".into()).to_string(),
        "transport error: x"
    );
    assert_eq!(ReadError::Resolve("x".into()).to_string(), "resolve error: x");
    assert_eq!(ReadError::Parse("x".into()).to_string(), "parse error: x");
    assert_eq!(ReadError::BadUri("x".into()).to_string(), "bad AT-URI: x");
    assert!(matches!(
        list_subscriptions(&routes(&[]), &repo()),
        Err(ReadError::Transport(_))
    ));
    assert!(matches!(parse_list(b"not json"), Err(ReadError::Parse(_))));
    assert!(matches!(
        resolve_did(&routes(&[]), "nobody.test"),
        Err(ReadError::Resolve(_))
    ));
}

#[test]
fn a_page_of_unreadable_records_does_not_end_a_window() {
    let page2 = format!("{PAGE}&cursor=pg2");
    let first = r#"{"records":[{"uri":"at://did:plc:abc/site.standard.document/0","value":{}}],"cursor":"pg2"}"#;
    let second = format!(r#"{{"records":[{}]}}"#, doc_record("2", "Two"));
    let t = routes(&[(PAGE, first), (&page2, &second)]);
    let (docs, resume) = list_documents_window(&t, &repo(), None, 5).unwrap();
    assert_eq!(docs, list_all_documents(&t, &repo()).unwrap());
    assert_eq!(docs.len(), 1);
    assert_eq!(resume, None);
    let (none, resume) = list_documents_window(&t, &repo(), None, 1).unwrap();
    assert!(none.is_empty());
    assert_eq!(resume.as_deref(), Some("pg2"));
}

#[test]
fn two_windows_join_into_one() {
    let t = three_pages();
    let (mut newer, at) = list_documents_window(&t, &repo(), None, 1).unwrap();
    let (older, rest) = list_documents_window(&t, &repo(), at.as_deref(), 2).unwrap();
    newer.extend(older);
    let (all, end) = list_documents_window(&t, &repo(), None, 3).unwrap();
    assert_eq!(newer, all);
    assert_eq!(rest, end);
}

#[test]
fn a_lost_content_blob_falls_back_to_the_text() {
    let (did, pds) = ("did:plc:abc", "https://pds.test");
    let record = r#"{ "uri": "at://did:plc:abc/site.standard.document/1",
        "value": { "title": "t", "site": "at://did:plc:abc/site.standard.publication/p",
                   "publishedAt": "2026-01-01T00:00:00Z", "textContent": "plain words",
                   "content": { "$type": "blog.pckt.content", "items": [],
                                "blob": { "ref": { "$link": "bafgone" } } } } }"#;
    let url = xrpc::get_record(pds, did, "site.standard.document", "1");
    let uri = AtUri::parse("at://did:plc:abc/site.standard.document/1").unwrap();
    let gone = routes(&[(&url, record)]);
    let (meta, body) = get_document(&gone, &Registry::with_defaults(), &uri, pds).unwrap();
    assert_eq!(meta.publishing_platform, Some(PublishingPlatform::Pckt));
    assert_eq!(body.blocks, vec![para("plain words")]);
    let broken = routes(&[(&url, record), (&xrpc::get_blob(pds, did, "bafgone"), "no json")]);
    let (_, body) = get_document(&broken, &Registry::with_defaults(), &uri, pds).unwrap();
    assert_eq!(body.blocks, vec![para("plain words")]);
}
