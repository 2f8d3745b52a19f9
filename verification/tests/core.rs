//! Identifiers, decoders and search.
use standard_reader::atp::{xrpc, AtUri};
use standard_reader::decode::facets::{apply_facets, text_block_inlines, Facet};
use standard_reader::decode::html::Wordpress;
use standard_reader::decode::leaflet::bsky_post_url;
use standard_reader::decode::offprint::parse_css_rgb;
use standard_reader::decode::pckt::gallery_images;
use standard_reader::decode::{
    content_ref, ContentDecoder, DecodeCtx, Markdown, Pckt, Registry, Unthread,
};
use standard_reader::json::{parse_json, Json};
use standard_reader::model::{Block, Image, ImageSource, Inline, PublishingPlatform};
use standard_reader::search::{tokenize, Index};

const CTX: DecodeCtx = DecodeCtx {
    repo_did: "did:plc:test",
};

fn json(text: &str) -> Json {
    parse_json(text.as_bytes()).unwrap()
}

fn text(s: &str) -> Inline {
    Inline::Text(s.into())
}

// --- Identifiers ------------------------------------------------------------------

#[test]
fn parses_record_uri() {
    let u = AtUri::parse(
        "at://did:plc:xn3l7ogsxym5ixxugidum5dw/site.standard.publication/3mmnuz5454lm7",
    )
    .unwrap();
    assert_eq!(u.collection, "site.standard.publication");
    assert_eq!(u.rkey, "3mmnuz5454lm7");
    assert_eq!(
        u.to_string(),
        "at://did:plc:xn3l7ogsxym5ixxugidum5dw/site.standard.publication/3mmnuz5454lm7"
    );
}

#[test]
fn rejects_garbage() {
    assert!(AtUri::parse("https://example.com").is_none());
    assert!(AtUri::parse("at://did:plc:abc/onlytwo").is_none());
}

#[test]
fn builds_blob_url() {
    let url = xrpc::get_blob("https://yapfest.club", "did:plc:abc", "bafkreixyz");
    assert_eq!(
        url,
        "https://yapfest.club/xrpc/com.atproto.sync.getBlob?did=did:plc:abc&cid=bafkreixyz"
    );
}

// --- Dispatch ---------------------------------------------------------------------

#[test]
fn plaintext_fallback_splits_paragraphs() {
    let doc = Registry::with_defaults().decode(None, Some("hello world\n\nsecond para"), &CTX);
    assert_eq!(doc.blocks.len(), 2);
}

#[test]
fn unknown_content_type_falls_back_to_textcontent() {
    let content = json(r#"{ "$type": "com.example.nope", "whatever": 1 }"#);
    let doc = Registry::with_defaults().decode(Some(&content), Some("a\n\nb"), &CTX);
    assert_eq!(doc.blocks.len(), 2);
    assert!(doc.blocks.iter().all(|b| matches!(b, Block::Paragraph(_))));
}

#[test]
fn decode_unthread_content_decodes_as_markdown() {
    let content = json(
        r#"{ "$type": "at.unthread.content", "content": "plain then *emphasis*" }"#,
    );
    let doc = Registry::with_defaults().decode(Some(&content), Some("plain then emphasis"), &CTX);
    assert_eq!(
        doc.blocks,
        vec![Block::Paragraph(vec![
            text("plain then "),
            Inline::Emphasis(vec![text("emphasis")]),
        ])]
    );
}

#[test]
fn pckt_content_decodes_to_paragraphs() {
    let content = json(
        r#"{ "$type": "blog.pckt.content",
             "items": [{ "$type": "blog.pckt.block.text", "plaintext": "test" }] }"#,
    );
    let doc = Registry::with_defaults().decode(Some(&content), Some("test"), &CTX);
    assert_eq!(doc.blocks, vec![Block::Paragraph(vec![text("test")])]);
}

#[test]
fn greengale_contentref_is_recognized_then_body_decodes() {
    let content = json(
        r#"{ "$type": "app.greengale.document#contentRef",
             "uri": "at://did:plc:abc/app.greengale.document/3xyz" }"#,
    );
    let uri = content_ref(&content).expect("should detect contentRef");
    assert_eq!(uri.collection, "app.greengale.document");

    let body = Json::Str("# Heading\n\nbody".into());
    let doc = Registry::with_defaults().decode(Some(&body), None, &CTX);
    assert_eq!(
        doc.blocks[0],
        Block::Heading {
            level: 1,
            content: vec![text("Heading")]
        }
    );
}

#[test]
fn non_ref_content_has_no_content_ref() {
    let content = json(r#"{ "$type": "app.offprint.content", "items": [] }"#);
    assert!(content_ref(&content).is_none());
}

#[test]
fn platforms_are_told_by_the_content_type() {
    let registry = Registry::with_defaults();
    let content = json(r#"{ "$type": "blog.pckt.content", "items": [] }"#);
    assert_eq!(
        registry.publishing_platform(Some(&content)),
        Some(PublishingPlatform::Pckt)
    );
    assert_eq!(registry.publishing_platform(None), None);
}

// --- Facets -----------------------------------------------------------------------

fn bold(start: u64, end: u64) -> String {
    format!(
        r#"{{ "index": {{ "byteStart": {start}, "byteEnd": {end} }},
              "features": [{{ "$type": "app.offprint.richtext.facet#bold" }}] }}"#
    )
}

#[test]
fn splits_into_styled_runs() {
    let block = json(&format!(
        r#"{{ "plaintext": "hello world", "facets": [{}] }}"#,
        bold(0, 5)
    ));
    assert_eq!(
        text_block_inlines(&block),
        vec![Inline::Strong(vec![text("hello")]), text(" world")]
    );
}

#[test]
fn link_facet_keeps_uri() {
    let block = json(
        r#"{ "plaintext": "see offprint",
             "facets": [{
                "index": { "byteStart": 4, "byteEnd": 12 },
                "features": [{ "$type": "pub.leaflet.richtext.facet#link", "uri": "https://offprint.app/" }]
             }] }"#,
    );
    assert_eq!(
        text_block_inlines(&block),
        vec![
            text("see "),
            Inline::Link {
                href: "https://offprint.app/".into(),
                content: vec![text("offprint")]
            },
        ]
    );
}

#[test]
fn multibyte_offsets_are_byte_accurate() {
    let block = json(&format!(
        r#"{{ "plaintext": "café!", "facets": [{}] }}"#,
        bold(0, 5)
    ));
    assert_eq!(
        text_block_inlines(&block),
        vec![Inline::Strong(vec![text("café")]), text("!")]
    );
}

#[test]
fn non_char_boundary_offset_is_skipped_not_panicked() {
    let block = json(&format!(
        r#"{{ "plaintext": "€", "facets": [{}] }}"#,
        bold(0, 1)
    ));
    assert_eq!(text_block_inlines(&block), vec![text("€")]);
}

#[test]
fn nests_multiple_features_on_one_range() {
    let block = json(
        r#"{ "plaintext": "x",
             "facets": [{
                "index": { "byteStart": 0, "byteEnd": 1 },
                "features": [ { "$type": "a#bold" }, { "$type": "a#italic" } ]
             }] }"#,
    );
    assert_eq!(
        text_block_inlines(&block),
        vec![Inline::Strong(vec![Inline::Emphasis(vec![text("x")])])]
    );
}

// --- HTML -------------------------------------------------------------------------

fn wordpress(html: &str) -> Vec<Block> {
    let content = Json::Object(vec![
        ("$type".into(), Json::Str("org.wordpress.html".into())),
        ("html".into(), Json::Str(html.into())),
    ]);
    Wordpress.decode(&content, &CTX).unwrap().blocks
}

#[test]
fn paragraph_with_inline_styles_and_link() {
    let blocks =
        wordpress(r#"<p>Hello <strong>world</strong> &amp; <a href="https://x.test/">x</a>.</p>"#);
    assert_eq!(
        blocks,
        vec![Block::Paragraph(vec![
            text("Hello "),
            Inline::Strong(vec![text("world")]),
            text(" & "),
            Inline::Link {
                href: "https://x.test/".into(),
                content: vec![text("x")]
            },
            text("."),
        ])]
    );
}

#[test]
fn headings_lists_and_rule() {
    let blocks = wordpress("<h2>Title</h2><ul><li>one</li><li>two</li></ul><hr>");
    assert_eq!(blocks.len(), 3);
    assert_eq!(
        blocks[0],
        Block::Heading {
            level: 2,
            content: vec![text("Title")]
        }
    );
    assert!(matches!(&blocks[1], Block::List { ordered: false, items } if items.len() == 2));
    assert_eq!(blocks[2], Block::Rule);
}

#[test]
fn img_becomes_url_image() {
    let blocks = wordpress(r#"<figure><img src="https://img.test/a.png" alt="a pic"></figure>"#);
    assert_eq!(
        blocks,
        vec![Block::Image(Image {
            alt: "a pic".into(),
            source: ImageSource::Url("https://img.test/a.png".into()),
        })]
    );
}

#[test]
fn pre_code_with_language_class() {
    let blocks = wordpress(r#"<pre><code class="language-rust">fn main() {}</code></pre>"#);
    assert_eq!(
        blocks,
        vec![Block::Code {
            lang: Some("rust".into()),
            text: "fn main() {}".into()
        }]
    );
}

#[test]
fn unknown_tags_flatten_not_panic() {
    let blocks = wordpress("<table><tr><td>cell text</td></tr></table>");
    assert_eq!(blocks, vec![Block::Paragraph(vec![text("cell text")])]);
}

// --- Markdown ---------------------------------------------------------------------

fn markdown(md: &str) -> Vec<Block> {
    Markdown
        .decode(&Json::Str(md.into()), &CTX)
        .unwrap()
        .blocks
}

#[test]
fn headings_emphasis_and_strike() {
    let blocks = markdown("# Title\n\nsome **bold** and _it_ and ~~no~~");
    assert_eq!(
        blocks[0],
        Block::Heading {
            level: 1,
            content: vec![text("Title")]
        }
    );
    assert_eq!(
        blocks[1],
        Block::Paragraph(vec![
            text("some "),
            Inline::Strong(vec![text("bold")]),
            text(" and "),
            Inline::Emphasis(vec![text("it")]),
            text(" and "),
            Inline::Strike(vec![text("no")]),
        ])
    );
}

#[test]
fn lists_quote_code_and_image() {
    let blocks = markdown(
        "- one\n- two\n\n> quoted\n\n```rust\nfn x() {}\n```\n\n![cap](https://i.test/a.png)",
    );
    assert!(matches!(&blocks[0], Block::List { ordered: false, items } if items.len() == 2));
    assert_eq!(
        blocks[1],
        Block::Quote(vec![Block::Paragraph(vec![text("quoted")])])
    );
    assert_eq!(
        blocks[2],
        Block::Code {
            lang: Some("rust".into()),
            text: "fn x() {}".into()
        }
    );
    assert_eq!(
        blocks[3],
        Block::Image(Image {
            alt: "cap".into(),
            source: ImageSource::Url("https://i.test/a.png".into()),
        })
    );
}

#[test]
fn images_are_hoisted_to_top_level_blocks() {
    assert!(matches!(
        markdown("![a](https://i.test/a.png)").as_slice(),
        [Block::Image(_)]
    ));
    assert!(matches!(
        markdown("![a](https://i.test/a.png)\n![b](https://i.test/b.png)").as_slice(),
        [Block::ImageGrid(imgs)] if imgs.len() == 2
    ));
    assert!(matches!(
        markdown("see ![a](https://i.test/a.png) here").as_slice(),
        [Block::Paragraph(_), Block::Image(_), Block::Paragraph(_)]
    ));
    assert!(matches!(
        markdown("> Quote\n![a](https://i.test/a.png)").as_slice(),
        [Block::Quote(_), Block::Image(_)]
    ));
}

#[test]
fn markpub_wrapper_is_unwrapped() {
    let content = json(
        r###"{ "$type": "at.markpub.markdown",
             "text": { "$type": "at.markpub.text", "markdown": "## Hi" },
             "flavor": "gfm" }"###,
    );
    let doc = Markdown.decode(&content, &CTX).unwrap();
    assert_eq!(
        doc.blocks,
        vec![Block::Heading {
            level: 2,
            content: vec![text("Hi")]
        }]
    );
}

// --- Other publishers -------------------------------------------------------------

#[test]
fn parses_css_rgb_with_alpha() {
    assert_eq!(parse_css_rgb("rgb(168 85 247 / 0.2)"), Some((168, 85, 247)));
    assert_eq!(parse_css_rgb("rgb(10,20,30)"), Some((10, 20, 30)));
    assert_eq!(parse_css_rgb("nope"), None);
}

#[test]
fn gallery_block_becomes_a_ref_placeholder() {
    let content = json(
        r#"{ "$type": "blog.pckt.content",
             "items": [{ "$type": "blog.pckt.block.gallery",
                         "ref": "at://did:plc:abc/blog.pckt.gallery/3rk" }] }"#,
    );
    let blocks = Pckt.decode(&content, &CTX).unwrap().blocks;
    assert_eq!(
        blocks,
        vec![Block::GalleryRef {
            uri: "at://did:plc:abc/blog.pckt.gallery/3rk".into()
        }]
    );
}

#[test]
fn gallery_block_without_ref_is_skipped() {
    let content = json(
        r#"{ "$type": "blog.pckt.content", "items": [{ "$type": "blog.pckt.block.gallery" }] }"#,
    );
    assert!(Pckt.decode(&content, &CTX).unwrap().blocks.is_empty());
}

#[test]
fn gallery_images_maps_blobs_to_blob_sources() {
    let record = json(
        r#"{ "$type": "blog.pckt.gallery",
             "images": [
                { "src": "blob:bafa", "blob": { "$type": "blob", "ref": { "$link": "bafa" }, "mimeType": "image/png", "size": 1 } },
                { "src": "blob:bafb", "blob": { "$type": "blob", "ref": { "$link": "bafb" }, "mimeType": "image/jpeg", "size": 2 } }
             ],
             "layout": "grid" }"#,
    );
    let images = gallery_images(&record, "did:plc:owner");
    assert_eq!(images.len(), 2);
    assert!(matches!(
        &images[0].source,
        ImageSource::Blob { did, cid } if did == "did:plc:owner" && cid == "bafa"
    ));
    assert!(matches!(
        &images[1].source,
        ImageSource::Blob { did, cid } if did == "did:plc:owner" && cid == "bafb"
    ));
}

#[test]
fn decodes_markdown_body() {
    let content = json(
        r#"{ "$type": "at.unthread.content", "content": "*argues* and **firmly**" }"#,
    );
    assert!(Unthread.handles(&content));
    let blocks = Unthread.decode(&content, &CTX).unwrap().blocks;
    assert_eq!(
        blocks,
        vec![Block::Paragraph(vec![
            Inline::Emphasis(vec![text("argues")]),
            text(" and "),
            Inline::Strong(vec![text("firmly")]),
        ])]
    );
}

#[test]
fn defers_when_content_is_absent_or_wrong_type() {
    assert!(!Unthread.handles(&json(r#"{ "$type": "at.markpub.markdown" }"#)));
    let no_body = json(r#"{ "$type": "at.unthread.content" }"#);
    assert!(Unthread.decode(&no_body, &CTX).is_none());
}

// --- Search -----------------------------------------------------------------------

#[test]
fn and_query_intersects() {
    let mut idx = Index::new();
    idx.insert(1, "bottom surgery is a big change");
    idx.insert(2, "a lifechanging surgery story");
    assert_eq!(idx.query("surgery").len(), 2);
    assert_eq!(idx.query("bottom surgery"), [1].into_iter().collect());
    assert!(idx.query("nonexistent").is_empty());
}

#[test]
fn terms_are_lowercase_words() {
    assert_eq!(tokenize("Über-Café, 2nd!"), vec!["über", "café", "2nd"]);
}

#[test]
fn images_in_spans_and_headings_are_hoisted_too() {
    assert!(matches!(
        markdown("**bold ![a](https://i.test/a.png) text** after").as_slice(),
        [Block::Paragraph(t), Block::Image(_), Block::Paragraph(u)]
            if *t == vec![Inline::Strong(vec![text("bold "), text(" text")])] && *u == vec![text(" after")]
    ));
    assert!(matches!(
        markdown("[![a](https://i.test/a.png)](https://x.test)").as_slice(),
        [Block::Image(_)]
    ));
    assert!(matches!(
        markdown("# Title ![a](https://i.test/a.png)").as_slice(),
        [Block::Heading { content, .. }, Block::Image(_)] if *content == vec![text("Title ")]
    ));
    assert!(matches!(
        markdown("- *one ![a](https://i.test/a.png)*\n- ![b](https://i.test/b.png)").as_slice(),
        [Block::List { items, .. }, Block::ImageGrid(g)] if items.len() == 2 && g.len() == 2
    ));
}

#[test]
fn only_posts_become_post_links() {
    assert_eq!(
        bsky_post_url("at://did:plc:a/app.bsky.feed.post/3k").as_deref(),
        Some("https://bsky.app/profile/did:plc:a/post/3k")
    );
    assert_eq!(bsky_post_url("at://did:plc:a/app.bsky.graph.list/3k"), None);
    assert_eq!(bsky_post_url("at://did:plc:a/app.bsky.feed.post/"), None);
    assert_eq!(bsky_post_url("https://bsky.app"), None);
}

#[test]
fn a_facet_without_kinds_keeps_the_text() {
    let facets = vec![Facet {
        start: 0,
        end: 1,
        kinds: vec![],
    }];
    assert_eq!(apply_facets("x", &facets), vec![text("x")]);
}

#[test]
fn a_space_parts_tokens() {
    let mut both = tokenize("One-two");
    both.extend(tokenize("THREE 4"));
    assert_eq!(tokenize("One-two THREE 4"), both);
    assert_eq!(both, ["one", "two", "three", "4"]);
    assert!(tokenize("İstanbul — ΣΑΣ!").iter().all(|t| !t.is_empty()));
}

#[test]
fn listing_a_document_leaves_other_answers_alone() {
    let mut index = Index::new();
    index.insert(1, "alpha beta");
    let before = index.query("alpha");
    index.insert(2, "Beta gamma");
    assert_eq!(index.query("alpha"), before);
    assert_eq!(index.query("beta").len(), 2);
    assert!(index.query("alpha gamma").is_empty());
    index.insert(2, "alpha");
    assert!(index.query("alpha gamma").contains(&2));
}
