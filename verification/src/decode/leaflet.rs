//! Leaflet, `pub.leaflet.content`: `pages[].blocks[].block`, each block a
//! `pub.leaflet.blocks.*` value.
use vstd::prelude::*;

use crate::decode::blocks::{
    heading_level, heading_level_of, link_paragraph, link_paragraph_of, list_items, list_items_of,
    opt_block_view, plain_paragraph, text_paragraph,
};
use crate::decode::facets::{text_block, text_block_inlines};
use crate::decode::image::{blob_image, blob_image_of};
use crate::decode::{ContentDecoder, DecodeCtx};
use crate::json::{array_view, lemma_array_view, Json, SpecJson};
use crate::model::{
    block_view, blocks_view, lemma_blocks_push, one_block, opt_view, owned_opt, Block,
    PublishingPlatform, RichDoc, SpecBlock, SpecInline,
};
use crate::text::{
    after_prefix, chars_of, find_char, find_from, join2, owned, same, slice_of, strip_prefix,
};

verus! {

/// Decoder of Leaflet documents.
pub struct Leaflet;

/// The web page of a Bluesky post, from its record URI: after `at://`, the text up to
/// the first slash is the author, that up to the second is the collection of posts, and
/// what follows is the key. A URI of another shape is no post's.
pub open spec fn bsky_post_url_of(uri: Seq<char>) -> Option<Seq<char>> {
    match after_prefix(uri, "at://"@) {
        None => None,
        Some(rest) => match find_from(rest, 0, '/') {
            None => None,
            Some(a) => match find_from(rest, a + 1, '/') {
                None => None,
                Some(b) => if a > 0 && rest.subrange(a + 1, b) == "app.bsky.feed.post"@ && b + 1
                    < rest.len() {
                    Some(
                        "https://bsky.app/profile/"@ + rest.subrange(0, a) + "/post/"@
                            + rest.subrange(b + 1, rest.len() as int),
                    )
                } else {
                    None
                },
            },
        },
    }
}

/// The web page of a Bluesky post, from its record URI.
pub fn bsky_post_url(uri: &str) -> (r: Option<String>)
    ensures
        opt_view(r) == bsky_post_url_of(uri@),
{
    let rest = match strip_prefix(uri, "at://") {
        Some(rest) => rest,
        None => return None,
    };
    let v = chars_of(rest.as_str());
    let a: usize = match find_char(&v, 0, '/') {
        Some(a) => a,
        None => return None,
    };
    let b: usize = match find_char(&v, a + 1, '/') {
        Some(b) => b,
        None => return None,
    };
    let collection = slice_of(&v, a + 1, b);
    if a > 0 && same(collection.as_str(), "app.bsky.feed.post") && b + 1 < v.len() {
        let mut url = join2("https://bsky.app/profile/", slice_of(&v, 0, a).as_str());
        url.push_str("/post/");
        url.push_str(slice_of(&v, b + 1, v.len()).as_str());
        Some(url)
    } else {
        None
    }
}

/// What one Leaflet block becomes; `None` if it is of no known type or lacks what its
/// type needs.
pub open spec fn leaflet_block_of(block: SpecJson, did: Seq<char>) -> Option<SpecBlock> {
    match block.get_str("$type"@) {
        None => None,
        Some(ty) => if ty == "pub.leaflet.blocks.text"@ {
            Some(text_paragraph(block))
        } else if ty == "pub.leaflet.blocks.header"@ {
            Some(
                SpecBlock::Heading {
                    level: heading_level_of(block, 1),
                    content: text_block(block),
                },
            )
        } else if ty == "pub.leaflet.blocks.blockquote"@ {
            Some(SpecBlock::Quote(seq![text_paragraph(block)]))
        } else if ty == "pub.leaflet.blocks.code"@ {
            Some(
                SpecBlock::Code {
                    lang: block.get_str("language"@),
                    text: code_text_of(block),
                },
            )
        } else if ty == "pub.leaflet.blocks.image"@ {
            match block.get("image"@) {
                None => None,
                Some(b) => match blob_image_of(b, did, ""@) {
                    Some(i) => Some(SpecBlock::Image(i)),
                    None => None,
                },
            }
        } else if ty == "pub.leaflet.blocks.horizontalRule"@ {
            Some(SpecBlock::Rule)
        } else if ty == "pub.leaflet.blocks.unorderedList"@ {
            Some(SpecBlock::List { ordered: false, items: list_items_of(block) })
        } else if ty == "pub.leaflet.blocks.orderedList"@ {
            Some(SpecBlock::List { ordered: true, items: list_items_of(block) })
        } else if ty == "pub.leaflet.blocks.website"@ {
            match block.get_str("src"@) {
                Some(src) => Some(link_paragraph_of(src, src)),
                None => None,
            }
        } else if ty == "pub.leaflet.blocks.button"@ {
            match block.get_str("url"@) {
                None => None,
                Some(url) => {
                    let text = block.get_str_or("text"@, ""@);
                    Some(
                        link_paragraph_of(
                            url,
                            if text.len() == 0 {
                                url
                            } else {
                                text
                            },
                        ),
                    )
                },
            }
        } else if ty == "pub.leaflet.blocks.bskyPost"@ {
            match block.get("postRef"@) {
                None => None,
                Some(post) => match post.get_str("uri"@) {
                    None => None,
                    Some(uri) => Some(
                        link_paragraph_of(
                            match bsky_post_url_of(uri) {
                                Some(url) => url,
                                None => uri,
                            },
                            "View on Bluesky"@,
                        ),
                    ),
                },
            }
        } else if ty == "pub.leaflet.blocks.standardSitePost"@ {
            match block.get_str("uri"@) {
                Some(uri) => Some(SpecBlock::Paragraph(seq![SpecInline::Text("↪ "@ + uri)])),
                None => None,
            }
        } else if ty == "pub.leaflet.blocks.poll"@ {
            Some(SpecBlock::Paragraph(seq![SpecInline::Text("📊 [poll]"@)]))
        } else {
            None
        },
    }
}

/// The text of a code block: its `plaintext` member, or its `code` if it has no
/// `plaintext`; nothing if that member is not a string.
pub open spec fn code_text_of(block: SpecJson) -> Seq<char> {
    let member = match block.get("plaintext"@) {
        Some(v) => Some(v),
        None => block.get("code"@),
    };
    match member {
        Some(SpecJson::Str(s)) => s,
        _ => ""@,
    }
}

fn code_text(block: &Json) -> (r: String)
    ensures
        r@ == code_text_of(block@),
{
    let member = match block.get("plaintext") {
        Some(v) => Some(v),
        None => block.get("code"),
    };
    match member {
        Some(v) => match v.as_str() {
            Some(s) => owned(s),
            None => owned(""),
        },
        None => owned(""),
    }
}

/// What one Leaflet block becomes.
pub fn leaflet_block(block: &Json, ctx: &DecodeCtx) -> (r: Option<Block>)
    ensures
        opt_block_view(r) == leaflet_block_of(block@, ctx.repo_did@),
{
    let ty = match block.get_str("$type") {
        Some(ty) => ty,
        None => return None,
    };
    if same(ty, "pub.leaflet.blocks.text") {
        Some(Block::Paragraph(text_block_inlines(block)))
    } else if same(ty, "pub.leaflet.blocks.header") {
        Some(
            Block::Heading { level: heading_level(block, 1), content: text_block_inlines(block) },
        )
    } else if same(ty, "pub.leaflet.blocks.blockquote") {
        Some(Block::Quote(one_block(Block::Paragraph(text_block_inlines(block)))))
    } else if same(ty, "pub.leaflet.blocks.code") {
        Some(
            Block::Code { lang: owned_opt(block.get_str("language")), text: code_text(block) },
        )
    } else if same(ty, "pub.leaflet.blocks.image") {
        match block.get("image") {
            None => None,
            Some(b) => match blob_image(b, ctx.repo_did, "") {
                Some(i) => Some(Block::Image(i)),
                None => None,
            },
        }
    } else if same(ty, "pub.leaflet.blocks.horizontalRule") {
        Some(Block::Rule)
    } else if same(ty, "pub.leaflet.blocks.unorderedList") {
        Some(Block::List { ordered: false, items: list_items(block) })
    } else if same(ty, "pub.leaflet.blocks.orderedList") {
        Some(Block::List { ordered: true, items: list_items(block) })
    } else if same(ty, "pub.leaflet.blocks.website") {
        match block.get_str("src") {
            Some(src) => Some(link_paragraph(src, src)),
            None => None,
        }
    } else if same(ty, "pub.leaflet.blocks.button") {
        match block.get_str("url") {
            None => None,
            Some(url) => {
                proof {
                    reveal_strlit("");
                }
                let text = block.get_str_or("text", "");
                if text.is_empty() {
                    Some(link_paragraph(url, url))
                } else {
                    Some(link_paragraph(url, text))
                }
            },
        }
    } else if same(ty, "pub.leaflet.blocks.bskyPost") {
        match block.get("postRef") {
            None => None,
            Some(post) => match post.get_str("uri") {
                None => None,
                Some(uri) => match bsky_post_url(uri) {
                    Some(url) => Some(link_paragraph(url.as_str(), "View on Bluesky")),
                    None => Some(link_paragraph(uri, "View on Bluesky")),
                },
            },
        }
    } else if same(ty, "pub.leaflet.blocks.standardSitePost") {
        match block.get_str("uri") {
            Some(uri) => Some(plain_paragraph(join2("↪ ", uri))),
            None => None,
        }
    } else if same(ty, "pub.leaflet.blocks.poll") {
        Some(plain_paragraph(owned("📊 [poll]")))
    } else {
        None
    }
}

/// `out` with a block appended, if there is one.
pub open spec fn push_opt(out: Seq<SpecBlock>, b: Option<SpecBlock>) -> Seq<SpecBlock> {
    match b {
        Some(b) => out.push(b),
        None => out,
    }
}

/// What the first `n` entries of a page become: each wraps its block under `block`.
pub open spec fn page_blocks(entries: Seq<SpecJson>, did: Seq<char>, n: int) -> Seq<SpecBlock>
    decreases n,
{
    if n <= 0 {
        Seq::empty()
    } else {
        let rest = page_blocks(entries, did, n - 1);
        match entries[n - 1].get("block"@) {
            Some(block) => push_opt(rest, leaflet_block_of(block, did)),
            None => rest,
        }
    }
}

/// What the first `n` pages become, one after the other.
pub open spec fn pages_blocks(pages: Seq<SpecJson>, did: Seq<char>, n: int) -> Seq<SpecBlock>
    decreases n,
{
    if n <= 0 {
        Seq::empty()
    } else {
        let rest = pages_blocks(pages, did, n - 1);
        match pages[n - 1].get_array("blocks"@) {
            Some(entries) => rest + page_blocks(entries, did, entries.len() as int),
            None => rest,
        }
    }
}

/// The body of a Leaflet document; none without a `pages` array.
pub open spec fn leaflet_doc(content: SpecJson, did: Seq<char>) -> Option<Seq<SpecBlock>> {
    match content.get_array("pages"@) {
        Some(pages) => Some(pages_blocks(pages, did, pages.len() as int)),
        None => None,
    }
}

fn decode_page(entries: &Vec<Json>, ctx: &DecodeCtx, out: &mut Vec<Block>)
    ensures
        blocks_view(final(out)@) == blocks_view(old(out)@) + page_blocks(
            array_view(entries@),
            ctx.repo_did@,
            entries@.len() as int,
        ),
{
    let ghost start = blocks_view(out@);
    let ghost all = array_view(entries@);
    let mut i: usize = 0;
    assert(start + Seq::<SpecBlock>::empty() =~= start);
    while i < entries.len()
        invariant
            i <= entries@.len(),
            all == array_view(entries@),
            blocks_view(out@) == start + page_blocks(all, ctx.repo_did@, i as int),
        decreases entries@.len() - i,
    {
        broadcast use {lemma_array_view, lemma_blocks_push};

        let ghost before = page_blocks(all, ctx.repo_did@, i as int);
        if let Some(block) = entries[i].get("block") {
            if let Some(b) = leaflet_block(block, ctx) {
                out.push(b);
                assert((start + before).push(block_view(b)) =~= start + before.push(
                    block_view(b),
                ));
            }
        }
        i = i + 1;
    }
}

impl ContentDecoder for Leaflet {
    open spec fn claims(&self, content: SpecJson) -> bool {
        content.get_str("$type"@) == Some("pub.leaflet.content"@)
    }

    open spec fn decoded(&self, content: SpecJson, did: Seq<char>) -> Option<Seq<SpecBlock>> {
        leaflet_doc(content, did)
    }

    open spec fn platform(&self, content: SpecJson) -> Option<PublishingPlatform> {
        Some(PublishingPlatform::Leaflet)
    }

    fn handles(&self, content: &Json) -> (r: bool) {
        crate::decode::has_type(content, "pub.leaflet.content")
    }

    fn decode(&self, content: &Json, ctx: &DecodeCtx) -> (r: Option<RichDoc>) {
        let pages = match content.get_array("pages") {
            Some(pages) => pages,
            None => return None,
        };
        let ghost all = array_view(pages@);
        let mut blocks: Vec<Block> = Vec::new();
        let mut i: usize = 0;
        while i < pages.len()
            invariant
                i <= pages@.len(),
                all == array_view(pages@),
                blocks_view(blocks@) == pages_blocks(all, ctx.repo_did@, i as int),
            decreases pages@.len() - i,
        {
            broadcast use lemma_array_view;

            if let Some(entries) = pages[i].get_array("blocks") {
                proof {
                    lemma_array_view(entries@);
                }
                decode_page(entries, ctx, &mut blocks);
            }
            i = i + 1;
        }
        proof {
            lemma_array_view(pages@);
        }
        Some(RichDoc { blocks })
    }

    fn publishing_platform(&self, content: &Json) -> (r: Option<PublishingPlatform>) {
        Some(PublishingPlatform::Leaflet)
    }
}

} // verus!
