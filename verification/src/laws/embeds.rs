//! Block formats: links, images, tables and what stands inside other blocks.
use vstd::prelude::*;

use crate::app::content::block_links;
use crate::decode::facets::{flat_text, lemma_flat_one, text_block};
use crate::decode::leaflet::{bsky_post_url_of, leaflet_block_of};
use crate::decode::offprint::{diff_among, grid_among, offprint_block_of, task_item_of, tasks_among};
use crate::decode::pckt::{
    cells_of, gallery_among, gallery_images_of, is_header_row, pckt_block_of, pckt_blocks_of,
    row_cells, table_rows,
};
use crate::json::{member_from, SpecJson};
use crate::laws::blocks::{law_a_text_block_keeps_its_text, named};
use crate::laws::records::{blob_record, lemma_blob_reads_back};
use crate::laws::screen::law_a_link_is_found;
use crate::model::{SpecBlock, SpecImage, SpecImageSource, SpecInline};
use crate::text::{after_prefix, lemma_find_from, matches_at};

verus! {

/// The text of a paragraph.
pub open spec fn paragraph_text(b: SpecBlock) -> Seq<char> {
    match b {
        SpecBlock::Paragraph(c) => flat_text(c),
        _ => Seq::empty(),
    }
}

/// `b` is a paragraph that leads to one address, and says so in a text that ends with a label.
pub open spec fn leads_to(b: SpecBlock, href: Seq<char>, label: Seq<char>) -> bool {
    &&& b is Paragraph
    &&& block_links(seq![b]) == seq![href]
    &&& paragraph_text(b).len() >= label.len()
    &&& paragraph_text(b).subrange(
        paragraph_text(b).len() - label.len(),
        paragraph_text(b).len() as int,
    ) == label
}

proof fn lemma_link(href: Seq<char>, text: Seq<char>)
    ensures
        ({
            let c = seq![SpecInline::Link { href, content: seq![SpecInline::Text(text)] }];
            &&& block_links(seq![SpecBlock::Paragraph(c)]) == seq![href]
            &&& flat_text(c) == text
        }),
{
    let inner = seq![SpecInline::Text(text)];
    let x = SpecInline::Link { href, content: inner };
    let c = seq![x];
    law_a_link_is_found(href, inner, text, 1);
    law_a_link_is_found(href, c, text, 1);
    assert(seq![href] + Seq::<Seq<char>>::empty() =~= seq![href]);
    assert(crate::app::content::inline_links(inner) =~= Seq::empty());
    lemma_flat_one(SpecInline::Text(text));
    lemma_flat_one(x);
}

// --- Leaflet ----------------------------------------------------------------------

/// A website leads to its address, and a button to its own, under its text where it has one.
pub proof fn law_leaflet_links(block: SpecJson, did: Seq<char>, url: Seq<char>, text: Seq<char>)
    ensures
        block.get_str("$type"@) == Some("pub.leaflet.blocks.website"@) && block.get_str("src"@)
            == Some(url) ==> (leaflet_block_of(block, did) matches Some(b) && leads_to(
            b,
            url,
            url,
        )),
        block.get_str("$type"@) == Some("pub.leaflet.blocks.button"@) && block.get_str("url"@)
            == Some(url) && block.get_str("text"@) == Some(text) && text.len() > 0 ==> (
        leaflet_block_of(block, did) matches Some(b) && leads_to(b, url, text)),
        block.get_str("$type"@) == Some("pub.leaflet.blocks.button"@) && block.get_str("url"@)
            == Some(url) && block.get_str("text"@) is None ==> (leaflet_block_of(
            block,
            did,
        ) matches Some(b) && leads_to(b, url, url)),
{
    lemma_leaflet_types();
    reveal_strlit("");
    lemma_link(url, "🔗 "@ + url);
    lemma_link(url, "🔗 "@ + text);
    lemma_tail("🔗 "@, url);
    lemma_tail("🔗 "@, text);
}

proof fn lemma_tail(a: Seq<char>, b: Seq<char>)
    ensures
        (a + b).subrange((a + b).len() - b.len(), (a + b).len() as int) == b,
{
    assert((a + b).subrange((a + b).len() - b.len(), (a + b).len() as int) =~= b);
}

proof fn lemma_leaflet_types()
    ensures
        "pub.leaflet.blocks.website"@.len() == 26,
        "pub.leaflet.blocks.button"@.len() == 25,
        "pub.leaflet.blocks.bskyPost"@.len() == 27,
        "pub.leaflet.blocks.standardSitePost"@.len() == 35,
        "pub.leaflet.blocks.text"@.len() == 23,
        "pub.leaflet.blocks.header"@.len() == 25,
        "pub.leaflet.blocks.header"@[19] == 'h' && "pub.leaflet.blocks.button"@[19] == 'b',
        "pub.leaflet.blocks.blockquote"@.len() == 29,
        "pub.leaflet.blocks.code"@.len() == 23,
        "pub.leaflet.blocks.image"@.len() == 24,
        "pub.leaflet.blocks.horizontalRule"@.len() == 33,
        "pub.leaflet.blocks.unorderedList"@.len() == 32,
        "pub.leaflet.blocks.orderedList"@.len() == 30,
{
    reveal_strlit("pub.leaflet.blocks.website");
    reveal_strlit("pub.leaflet.blocks.button");
    reveal_strlit("pub.leaflet.blocks.bskyPost");
    reveal_strlit("pub.leaflet.blocks.standardSitePost");
    reveal_strlit("pub.leaflet.blocks.text");
    reveal_strlit("pub.leaflet.blocks.header");
    reveal_strlit("pub.leaflet.blocks.blockquote");
    reveal_strlit("pub.leaflet.blocks.code");
    reveal_strlit("pub.leaflet.blocks.image");
    reveal_strlit("pub.leaflet.blocks.horizontalRule");
    reveal_strlit("pub.leaflet.blocks.unorderedList");
    reveal_strlit("pub.leaflet.blocks.orderedList");
}

/// A post on Bluesky is found at its author's profile.
pub proof fn law_bluesky_posts_have_a_page(author: Seq<char>, rkey: Seq<char>)
    requires
        author.len() > 0,
        rkey.len() > 0,
        !author.contains('/'),
    ensures
        bsky_post_url_of("at://"@ + author + "/app.bsky.feed.post/"@ + rkey) == Some(
            "https://bsky.app/profile/"@ + author + "/post/"@ + rkey,
        ),
{
    reveal_strlit("at://");
    reveal_strlit("/app.bsky.feed.post/");
    reveal_strlit("app.bsky.feed.post");
    let uri = "at://"@ + author + "/app.bsky.feed.post/"@ + rkey;
    assert(matches_at(uri, "at://"@, 0)) by {
        assert(uri.subrange(0, 5) =~= "at://"@);
    }
    let rest = uri.subrange(5, uri.len() as int);
    assert(after_prefix(uri, "at://"@) == Some(rest));
    let a = author.len() as int;
    assert(rest =~= author + "/app.bsky.feed.post/"@ + rkey);
    lemma_find_from(rest, 0, '/');
    assert(rest[a] == '/');
    assert forall|j: int| 0 <= j < a implies rest[j] != '/' by {
        assert(rest[j] == author[j]);
        assert(author.contains(author[j]));
    }
    let mid = "/app.bsky.feed.post/"@;
    assert forall|j: int| a < j < a + 19 implies rest[j] != '/' by {
        assert(rest[j] == mid[j - a]);
    }
    assert(rest[a + 19] == mid[19]);
    lemma_find_from(rest, a + 1, '/');
    assert(rest.subrange(a + 1, a + 19) =~= "app.bsky.feed.post"@);
    assert(rest.subrange(0, a) =~= author);
    assert(rest.subrange(a + 20, rest.len() as int) =~= rkey);
}

/// An embedded Bluesky post leads to its page, and an embedded post of another publication
/// names it.
pub proof fn law_leaflet_embeds(
    block: SpecJson,
    did: Seq<char>,
    post: SpecJson,
    uri: Seq<char>,
)
    ensures
        block.get_str("$type"@) == Some("pub.leaflet.blocks.bskyPost"@) && block.get("postRef"@)
            == Some(post) && post.get_str("uri"@) == Some(uri) ==> (leaflet_block_of(
            block,
            did,
        ) matches Some(b) && b is Paragraph && block_links(seq![b]) == seq![
            match bsky_post_url_of(uri) {
                Some(url) => url,
                None => uri,
            },
        ]),
        block.get_str("$type"@) == Some("pub.leaflet.blocks.standardSitePost"@) && block.get_str(
            "uri"@,
        ) == Some(uri) ==> (leaflet_block_of(block, did) matches Some(b) && b is Paragraph
            && paragraph_text(b).len() >= uri.len() && paragraph_text(b).subrange(
            paragraph_text(b).len() - uri.len(),
            paragraph_text(b).len() as int,
        ) == uri),
{
    lemma_leaflet_types();
    let url = match bsky_post_url_of(uri) {
        Some(url) => url,
        None => uri,
    };
    lemma_link(url, "🔗 "@ + "View on Bluesky"@);
    lemma_flat_one(SpecInline::Text("↪ "@ + uri));
    lemma_tail("↪ "@, uri);
}

// --- Images -----------------------------------------------------------------------

/// The entries of a grid: each names a blob under a key.
pub open spec fn blob_entries(key: Seq<char>, cids: Seq<Seq<char>>) -> Seq<SpecJson> {
    cids.map_values(|cid: Seq<char>| SpecJson::Object(seq![(key, blob_record(cid))]))
}

/// The images that blobs of a repository are.
pub open spec fn blob_images(did: Seq<char>, cids: Seq<Seq<char>>) -> Seq<SpecImage> {
    cids.map_values(
        |cid: Seq<char>|
            SpecImage { alt: Seq::empty(), source: SpecImageSource::Blob { did, cid } },
    )
}

proof fn lemma_entry(key: Seq<char>, cids: Seq<Seq<char>>, i: int)
    requires
        0 <= i < cids.len(),
    ensures
        blob_entries(key, cids)[i].get(key) == Some(blob_record(cids[i])),
{
    let m = seq![(key, blob_record(cids[i]))];
    assert(m[0].0 == key);
    assert(member_from(m, key, 0) == Some(blob_record(cids[i])));
}

proof fn lemma_grid(cids: Seq<Seq<char>>, did: Seq<char>, n: int)
    requires
        0 <= n <= cids.len(),
    ensures
        grid_among(blob_entries("image"@, cids), did, n) == blob_images(did, cids.take(n)),
        diff_among(blob_entries("image"@, cids), None, did, n) == blob_images(did, cids.take(n)),
        gallery_among(blob_entries("blob"@, cids), did, n) == blob_images(did, cids.take(n)),
    decreases n,
{
    if n > 0 {
        lemma_grid(cids, did, n - 1);
        lemma_entry("image"@, cids, n - 1);
        lemma_entry("blob"@, cids, n - 1);
        lemma_blob_reads_back(cids[n - 1], did);
        assert(blob_images(did, cids.take(n)) =~= blob_images(did, cids.take(n - 1)).push(
            SpecImage {
                alt: Seq::empty(),
                source: SpecImageSource::Blob { did, cid: cids[n - 1] },
            },
        ));
    } else {
        assert(blob_images(did, cids.take(0)) =~= Seq::empty());
    }
}

/// A grid, a carousel and a gallery show each of their images, in order.
pub proof fn law_grids_show_every_image(
    prefix: Seq<char>,
    block: SpecJson,
    did: Seq<char>,
    cids: Seq<Seq<char>>,
)
    requires
        cids.len() > 0,
    ensures
        (block.get_str("$type"@) == Some(named(prefix, "imageGrid"@)) || block.get_str("$type"@)
            == Some(named(prefix, "imageCarousel"@))) && block.get_array("images"@) == Some(
            blob_entries("image"@, cids),
        ) ==> offprint_block_of(block, did) == Some(SpecBlock::ImageGrid(blob_images(did, cids))),
        block.get_array("images"@) == Some(blob_entries("blob"@, cids)) ==> gallery_images_of(
            block,
            did,
        ) == blob_images(did, cids),
{
    lemma_grid(cids, did, cids.len() as int);
    assert(cids.take(cids.len() as int) =~= cids);
    assert(blob_images(did, cids).len() == cids.len());
    reveal_strlit("imageGrid");
    reveal_strlit("imageCarousel");
    reveal_strlit("text");
    reveal_strlit("heading");
    reveal_strlit("image");
    crate::laws::blocks::lemma_named(prefix, "imageGrid"@);
    crate::laws::blocks::lemma_named(prefix, "imageCarousel"@);
}

// --- Pckt -------------------------------------------------------------------------

/// What stands in a Pckt quote is quoted, and what stands in an item of an unknown kind is
/// shown in its place; a gallery is named.
pub proof fn law_pckt_nests(
    prefix: Seq<char>,
    block: SpecJson,
    did: Seq<char>,
    items: Seq<SpecJson>,
    uri: Seq<char>,
)
    ensures
        block.get_str("$type"@) == Some(named(prefix, "blockquote"@)) && block.get_array(
            "content"@,
        ) == Some(items) ==> pckt_block_of(block, did) == seq![
            SpecBlock::Quote(pckt_blocks_of(items, did)),
        ],
        block.get_str("$type"@) == Some(named(prefix, "listItem"@)) && block.get_array(
            "content"@,
        ) == Some(items) ==> pckt_block_of(block, did) == pckt_blocks_of(items, did),
        block.get_str("$type"@) == Some(named(prefix, "gallery"@)) && block.get_str("ref"@)
            == Some(uri) ==> pckt_block_of(block, did) == seq![SpecBlock::GalleryRef { uri }],
{
    crate::laws::blocks::lemma_type_names();
    reveal_strlit("listItem");
    reveal_strlit("gallery");
    reveal_strlit("taskList");
    crate::laws::blocks::lemma_named(prefix, "blockquote"@);
    crate::laws::blocks::lemma_named(prefix, "listItem"@);
    crate::laws::blocks::lemma_named(prefix, "gallery"@);
    assert("listItem"@[0] == 'l' && "taskList"@[0] == 't' && "gallery"@[0] == 'g');
}

/// Items stand apart: what two lists of them show is what the first shows, followed by what
/// the second shows.
pub proof fn law_pckt_items_stand_apart(a: Seq<SpecJson>, b: Seq<SpecJson>, did: Seq<char>)
    ensures
        pckt_blocks_of(a + b, did) == pckt_blocks_of(a, did) + pckt_blocks_of(b, did),
    decreases b.len(),
{
    if b.len() == 0 {
        assert(a + b =~= a);
        assert(pckt_blocks_of(a, did) + pckt_blocks_of(b, did) =~= pckt_blocks_of(a, did));
    } else {
        law_pckt_items_stand_apart(a, b.drop_last(), did);
        assert((a + b).drop_last() =~= a + b.drop_last());
        assert(pckt_blocks_of(a + b, did) =~= pckt_blocks_of(a, did) + pckt_blocks_of(b, did));
    }
}

/// A table has a row for each of its rows with cells, in order, and a cell for each cell; its
/// first row is the head where it is made of header cells, and no row otherwise is.
pub proof fn law_tables_keep_their_rows(rows: Seq<SpecJson>)
    requires
        forall|i: int| 0 <= i < rows.len() ==> row_cells(#[trigger] rows[i]) is Some,
    ensures
        ({
            let head = rows.len() > 0 && is_header_row(row_cells(rows[0])->0);
            let shift: int = if head {
                1
            } else {
                0
            };
            let made = table_rows(rows, rows.len() as int);
            &&& made.len() == rows.len() - shift
            &&& forall|i: int|
                0 <= i < made.len() ==> (#[trigger] made[i]).len() == row_cells(
                    rows[i + shift],
                )->0.len()
            &&& head ==> crate::decode::pckt::table_head(rows).len() == row_cells(rows[0])->0.len()
            &&& !head ==> crate::decode::pckt::table_head(rows).len() == 0
        }),
{
    lemma_rows(rows, rows.len() as int);
    if rows.len() > 0 {
        assert(row_cells(rows[0]) is Some);
    }
}

proof fn lemma_rows(rows: Seq<SpecJson>, n: int)
    requires
        0 <= n <= rows.len(),
        forall|i: int| 0 <= i < rows.len() ==> row_cells(#[trigger] rows[i]) is Some,
    ensures
        ({
            let head = rows.len() > 0 && is_header_row(row_cells(rows[0])->0);
            let shift: int = if head {
                1
            } else {
                0
            };
            let made = table_rows(rows, n);
            &&& n > 0 ==> made.len() == n - shift
            &&& n == 0 ==> made.len() == 0
            &&& forall|i: int|
                0 <= i < made.len() ==> (#[trigger] made[i]).len() == row_cells(
                    rows[i + shift],
                )->0.len()
        }),
    decreases n,
{
    if n > 0 {
        lemma_rows(rows, n - 1);
        assert(row_cells(rows[n - 1]) is Some);
        assert(cells_of(row_cells(rows[n - 1])->0).len() == row_cells(rows[n - 1])->0.len());
        assert(row_cells(rows[0]) is Some);
    }
}

// --- Offprint ---------------------------------------------------------------------

/// A task is shown with its text, and its mark says whether it is done.
pub proof fn law_tasks_show_their_state(c: SpecJson, content: SpecJson, done: bool)
    requires
        c.get("content"@) == Some(content),
        c.get("checked"@) == Some(SpecJson::Bool(done)),
    ensures
        task_item_of(c).len() == 1,
        task_item_of(c)[0] is Paragraph,
        paragraph_text(task_item_of(c)[0]) == (if done {
            "☑ "@
        } else {
            "☐ "@
        }) + content.get_str_or("plaintext"@, ""@),
{
    let mark = SpecInline::Text(
        if done {
            "☑ "@
        } else {
            "☐ "@
        },
    );
    law_a_text_block_keeps_its_text(content);
    let t = text_block(content);
    lemma_flat_front(mark, t);
}

proof fn lemma_flat_front(x: SpecInline, s: Seq<SpecInline>)
    ensures
        flat_text(seq![x] + s) == crate::decode::facets::flat_inline(x) + flat_text(s),
    decreases s.len(),
{
    let all = seq![x] + s;
    if s.len() == 0 {
        assert(all =~= seq![x]);
        assert(all.drop_last() =~= Seq::empty());
        assert(flat_text(all.drop_last()) =~= Seq::empty());
        assert(flat_text(all) =~= crate::decode::facets::flat_inline(x) + flat_text(s));
    } else {
        lemma_flat_front(x, s.drop_last());
        assert(all.drop_last() =~= seq![x] + s.drop_last());
        assert(flat_text(all) =~= crate::decode::facets::flat_inline(x) + flat_text(s));
    }
}

/// A list of tasks shows each of them, in order.
pub proof fn law_every_task_is_shown(children: Seq<SpecJson>, n: int)
    requires
        0 <= n <= children.len(),
    ensures
        tasks_among(children, n).len() == n,
        forall|i: int|
            0 <= i < n ==> #[trigger] tasks_among(children, n)[i] == task_item_of(children[i]),
    decreases n,
{
    if n > 0 {
        law_every_task_is_shown(children, n - 1);
    }
}

/// A callout keeps its text, and a bookmark or an embed leads to its page.
pub proof fn law_offprint_keeps_text_and_links(
    prefix: Seq<char>,
    block: SpecJson,
    did: Seq<char>,
    href: Seq<char>,
    title: Seq<char>,
)
    ensures
        block.get_str("$type"@) == Some(named(prefix, "callout"@)) ==> (offprint_block_of(
            block,
            did,
        ) matches Some(SpecBlock::Callout { content, .. }) && flat_text(content)
            == block.get_str_or("plaintext"@, ""@)),
        block.get_str("$type"@) == Some(named(prefix, "webEmbed"@)) && block.get_str("href"@)
            == Some(href) && block.get_str("title"@) == Some(title) && title.len() > 0 ==> (
        offprint_block_of(block, did) matches Some(b) && leads_to(b, href, title)),
        block.get_str("$type"@) == Some(named(prefix, "webBookmark"@)) && block.get_str("href"@)
            == Some(href) && block.get_str("title"@) is None && block.get_str("description"@)
            is None ==> (offprint_block_of(block, did) matches Some(b) && leads_to(
            b,
            href,
            href,
        )),
{
    crate::laws::blocks::lemma_type_names();
    reveal_strlit("callout");
    reveal_strlit("webEmbed");
    reveal_strlit("webBookmark");
    reveal_strlit("taskList");
    reveal_strlit("");
    crate::laws::blocks::lemma_named(prefix, "callout"@);
    crate::laws::blocks::lemma_named(prefix, "webEmbed"@);
    crate::laws::blocks::lemma_named(prefix, "webBookmark"@);
    law_a_text_block_keeps_its_text(block);
    lemma_link(href, "🔗 "@ + title);
    lemma_link(href, "🔗 "@ + href);
    lemma_tail("🔗 "@, title);
    lemma_tail("🔗 "@, href);
    assert("webEmbed"@[0] == 'w' && "taskList"@[0] == 't');
}

/// Text of a kind that is not known is shown as a paragraph, and not lost.
pub proof fn law_offprint_keeps_unknown_text(block: SpecJson, did: Seq<char>, t: Seq<char>)
    requires
        block.get("$type"@) is None,
        block.get_str("plaintext"@) == Some(t),
        t.len() > 0,
    ensures
        offprint_block_of(block, did) matches Some(b) && b is Paragraph && paragraph_text(b) == t,
{
    law_a_text_block_keeps_its_text(block);
}

} // verus!
