//! Pckt, `blog.pckt.content`: a nested list of `blog.pckt.block.*`. Containers nest
//! their children under a `content` array, so decoding is recursive.
use vstd::prelude::*;

use crate::decode::blocks::{heading_level, heading_level_of, opt_block_view, text_paragraph};
use crate::decode::facets::{text_block, text_block_inlines};
use crate::decode::image::{blob_image, blob_image_of};
use crate::decode::{ContentDecoder, DecodeCtx};
use crate::json::{array_view, lemma_array_view, lemma_member_smaller, Json, SpecJson};
use crate::model::{
    block_view, blocks_view, cells_view, images_view, inlines_view, items_view,
    lemma_blocks_concat, lemma_cells_push, lemma_images_push, lemma_inlines_concat,
    lemma_inlines_push, lemma_items_push, lemma_rows_push, one_block, owned_opt, rows_view, Block,
    Image, Inline, PublishingPlatform, RichDoc, SpecBlock, SpecImage, SpecInline,
};
use crate::text::{after_last, ends_with, finishes_with, last_segment, owned, same};

verus! {

/// Decoder of Pckt documents.
pub struct Pckt;

// --- Tables -----------------------------------------------------------------------

/// The inlines of the first `n` blocks of a cell on one line, a space between any two
/// that have something before them.
pub open spec fn cell_among(blocks: Seq<SpecJson>, n: int) -> Seq<SpecInline>
    decreases n,
{
    if n <= 0 {
        Seq::empty()
    } else {
        let rest = cell_among(blocks, n - 1);
        (if rest.len() > 0 {
            rest.push(SpecInline::Text(" "@))
        } else {
            rest
        }) + text_block(blocks[n - 1])
    }
}

/// A table cell's blocks flattened to one line.
pub open spec fn cell_inlines_of(cell: SpecJson) -> Seq<SpecInline> {
    match cell.get_array("content"@) {
        Some(blocks) => cell_among(blocks, blocks.len() as int),
        None => Seq::empty(),
    }
}

fn cell_inlines(cell: &Json) -> (r: Vec<Inline>)
    ensures
        inlines_view(r@) == cell_inlines_of(cell@),
{
    let mut out: Vec<Inline> = Vec::new();
    let blocks = match cell.get_array("content") {
        Some(blocks) => blocks,
        None => return out,
    };
    let mut i: usize = 0;
    while i < blocks.len()
        invariant
            i <= blocks@.len(),
            inlines_view(out@) == cell_among(array_view(blocks@), i as int),
        decreases blocks@.len() - i,
    {
        broadcast use {lemma_array_view, lemma_inlines_concat, lemma_inlines_push};

        proof {
            crate::model::lemma_inlines_view(out@);
        }
        if out.len() > 0 {
            out.push(Inline::Text(owned(" ")));
        }
        let mut text = text_block_inlines(&blocks[i]);
        out.append(&mut text);
        i = i + 1;
    }
    proof {
        lemma_array_view(blocks@);
    }
    out
}

/// A cell of a header row.
pub open spec fn is_header_cell(cell: SpecJson) -> bool {
    match cell.get_str("$type"@) {
        Some(ty) => finishes_with(ty, "tableHeader"@),
        None => false,
    }
}

/// The cells of a row, if it has a `content` array.
pub open spec fn row_cells(row: SpecJson) -> Option<Seq<SpecJson>> {
    row.get_array("content"@)
}

/// A row that is made of header cells only, and of at least one.
pub open spec fn is_header_row(cells: Seq<SpecJson>) -> bool {
    cells.len() > 0 && forall|i: int|
        0 <= i < cells.len() ==> is_header_cell(#[trigger] cells[i])
}

/// Each cell on one line.
pub open spec fn cells_of(cells: Seq<SpecJson>) -> Seq<Seq<SpecInline>> {
    cells.map_values(|c: SpecJson| cell_inlines_of(c))
}

/// The header cells of a table: those of its first row, if they are all headers.
pub open spec fn table_head(rows: Seq<SpecJson>) -> Seq<Seq<SpecInline>> {
    if rows.len() == 0 {
        Seq::empty()
    } else {
        match row_cells(rows[0]) {
            Some(cells) => if is_header_row(cells) {
                cells_of(cells)
            } else {
                Seq::empty()
            },
            None => Seq::empty(),
        }
    }
}

/// The body rows among the first `n` rows: all that have cells, but for a header row
/// in first place.
pub open spec fn table_rows(rows: Seq<SpecJson>, n: int) -> Seq<Seq<Seq<SpecInline>>>
    decreases n,
{
    if n <= 0 {
        Seq::empty()
    } else {
        let rest = table_rows(rows, n - 1);
        match row_cells(rows[n - 1]) {
            Some(cells) => if n == 1 && is_header_row(cells) {
                rest
            } else {
                rest.push(cells_of(cells))
            },
            None => rest,
        }
    }
}

/// A table block.
pub open spec fn table_of(item: SpecJson) -> SpecBlock {
    match item.get_array("content"@) {
        Some(rows) => SpecBlock::Table {
            head: table_head(rows),
            rows: table_rows(rows, rows.len() as int),
        },
        None => SpecBlock::Table { head: Seq::empty(), rows: Seq::empty() },
    }
}

/// The cells of a row, and whether they are all headers.
fn read_row(cell_vals: &Vec<Json>) -> (r: (Vec<Vec<Inline>>, bool))
    ensures
        cells_view(r.0@) == cells_of(array_view(cell_vals@)),
        r.1 == is_header_row(array_view(cell_vals@)),
{
    let ghost all = array_view(cell_vals@);
    let mut all_header = cell_vals.len() > 0;
    let mut cells: Vec<Vec<Inline>> = Vec::new();
    let mut i: usize = 0;
    assert(cells_view(cells@) =~= cells_of(all).take(0));
    while i < cell_vals.len()
        invariant
            i <= cell_vals@.len(),
            all == array_view(cell_vals@),
            cells_view(cells@) == cells_of(all).take(i as int),
            all_header == (cell_vals@.len() > 0 && forall|k: int|
                0 <= k < i ==> is_header_cell(#[trigger] all[k])),
        decreases cell_vals@.len() - i,
    {
        broadcast use {lemma_array_view, lemma_cells_push};

        let cell = &cell_vals[i];
        let header = match cell.get_str("$type") {
            Some(ty) => ends_with(ty, "tableHeader"),
            None => false,
        };
        assert(all[i as int] == cell@);
        if !header {
            all_header = false;
        }
        cells.push(cell_inlines(cell));
        assert(cells_of(all).take(i as int).push(cell_inlines_of(cell@)) =~= cells_of(all).take(
            i + 1,
        ));
        i = i + 1;
    }
    proof {
        lemma_array_view(cell_vals@);
        assert(cells_of(all).take(all.len() as int) =~= cells_of(all));
    }
    (cells, all_header)
}

fn table(item: &Json) -> (r: Block)
    ensures
        block_view(r) == table_of(item@),
{
    let mut head: Vec<Vec<Inline>> = Vec::new();
    let mut rows: Vec<Vec<Vec<Inline>>> = Vec::new();
    assert(cells_view(head@) =~= Seq::empty());
    assert(rows_view(rows@) =~= Seq::empty());
    let row_vals = match item.get_array("content") {
        Some(row_vals) => row_vals,
        None => return Block::Table { head, rows },
    };
    let ghost all = array_view(row_vals@);
    proof {
        lemma_array_view(row_vals@);
    }
    let mut i: usize = 0;
    while i < row_vals.len()
        invariant
            i <= row_vals@.len(),
            all == array_view(row_vals@),
            all.len() == row_vals@.len(),
            cells_view(head@) == (if i == 0 {
                Seq::empty()
            } else {
                table_head(all)
            }),
            rows_view(rows@) == table_rows(all, i as int),
        decreases row_vals@.len() - i,
    {
        broadcast use {lemma_array_view, lemma_rows_push};

        if let Some(cell_vals) = row_vals[i].get_array("content") {
            let (cells, all_header) = read_row(cell_vals);
            if i == 0 && all_header {
                head = cells;
            } else {
                rows.push(cells);
            }
        }
        i = i + 1;
    }
    proof {
        lemma_array_view(row_vals@);
    }
    Block::Table { head, rows }
}

// --- Leaves -----------------------------------------------------------------------

/// An image block: blob and alternative text stand under `attrs`.
pub open spec fn image_of(item: SpecJson, did: Seq<char>) -> Option<SpecBlock> {
    match item.get("attrs"@) {
        None => None,
        Some(attrs) => match attrs.get("blob"@) {
            None => None,
            Some(blob) => match blob_image_of(blob, did, attrs.get_str_or("alt"@, ""@)) {
                Some(i) => Some(SpecBlock::Image(i)),
                None => None,
            },
        },
    }
}

fn image(item: &Json, ctx: &DecodeCtx) -> (r: Option<Block>)
    ensures
        opt_block_view(r) == image_of(item@, ctx.repo_did@),
{
    let attrs = match item.get("attrs") {
        Some(attrs) => attrs,
        None => return None,
    };
    let alt = attrs.get_str_or("alt", "");
    match attrs.get("blob") {
        None => None,
        Some(blob) => match blob_image(blob, ctx.repo_did, alt) {
            Some(i) => Some(Block::Image(i)),
            None => None,
        },
    }
}

/// A code block: its `plaintext`, or its `text` if it has no `plaintext`.
pub open spec fn pckt_code_of(item: SpecJson) -> SpecBlock {
    let member = match item.get("plaintext"@) {
        Some(v) => Some(v),
        None => item.get("text"@),
    };
    SpecBlock::Code {
        lang: item.get_str("language"@),
        text: match member {
            Some(SpecJson::Str(s)) => s,
            _ => ""@,
        },
    }
}

fn pckt_code(item: &Json) -> (r: Block)
    ensures
        block_view(r) == pckt_code_of(item@),
{
    let member = match item.get("plaintext") {
        Some(v) => Some(v),
        None => item.get("text"),
    };
    let text = match member {
        Some(v) => match v.as_str() {
            Some(s) => owned(s),
            None => owned(""),
        },
        None => owned(""),
    };
    Block::Code { lang: owned_opt(item.get_str("language")), text }
}

/// The images of the first `n` entries of a gallery record.
pub open spec fn gallery_among(images: Seq<SpecJson>, did: Seq<char>, n: int) -> Seq<SpecImage>
    decreases n,
{
    if n <= 0 {
        Seq::empty()
    } else {
        let rest = gallery_among(images, did, n - 1);
        match images[n - 1].get("blob"@) {
            Some(blob) => match blob_image_of(blob, did, ""@) {
                Some(i) => rest.push(i),
                None => rest,
            },
            None => rest,
        }
    }
}

/// The images of a `blog.pckt.gallery` record in the repository `did`.
pub open spec fn gallery_images_of(record: SpecJson, did: Seq<char>) -> Seq<SpecImage> {
    match record.get_array("images"@) {
        Some(images) => gallery_among(images, did, images.len() as int),
        None => Seq::empty(),
    }
}

/// The images of a `blog.pckt.gallery` record in the repository `did`.
pub fn gallery_images(record: &Json, did: &str) -> (r: Vec<Image>)
    ensures
        images_view(r@) == gallery_images_of(record@, did@),
{
    let mut out: Vec<Image> = Vec::new();
    assert(images_view(out@) =~= Seq::empty());
    let images = match record.get_array("images") {
        Some(images) => images,
        None => return out,
    };
    let mut i: usize = 0;
    while i < images.len()
        invariant
            i <= images@.len(),
            images_view(out@) == gallery_among(array_view(images@), did@, i as int),
        decreases images@.len() - i,
    {
        broadcast use {lemma_array_view, lemma_images_push};

        if let Some(blob) = images[i].get("blob") {
            if let Some(img) = blob_image(blob, did, "") {
                out.push(img);
            }
        }
        i = i + 1;
    }
    proof {
        lemma_array_view(images@);
    }
    out
}

// --- Blocks -----------------------------------------------------------------------

/// A list of at most one block.
pub open spec fn at_most_one(b: Option<SpecBlock>) -> Seq<SpecBlock> {
    match b {
        Some(b) => seq![b],
        None => Seq::empty(),
    }
}

/// What one item becomes, by the part of its `$type` after the last dot: leaves yield
/// one block, and a container of unknown type is replaced by its children.
pub open spec fn pckt_block_of(item: SpecJson, did: Seq<char>) -> Seq<SpecBlock>
    decreases item, 1nat,
{
    match item.get_str("$type"@) {
        None => Seq::empty(),
        Some(ty) => {
            let name = after_last(ty, '.');
            if name == "text"@ {
                seq![text_paragraph(item)]
            } else if name == "heading"@ {
                seq![
                    SpecBlock::Heading {
                        level: heading_level_of(item, 1),
                        content: text_block(item),
                    },
                ]
            } else if name == "blockquote"@ {
                seq![SpecBlock::Quote(pckt_children_of(item, did))]
            } else if name == "codeBlock"@ {
                seq![pckt_code_of(item)]
            } else if name == "bulletList"@ || name == "taskList"@ || name == "orderedList"@ {
                proof {
                    lemma_member_smaller(item, "content"@);
                }
                seq![
                    SpecBlock::List {
                        ordered: name == "orderedList"@,
                        items: match item.get_array("content"@) {
                            Some(entries) => pckt_items_of(entries, did),
                            None => Seq::empty(),
                        },
                    },
                ]
            } else if name == "image"@ {
                at_most_one(image_of(item, did))
            } else if name == "horizontalRule"@ {
                seq![SpecBlock::Rule]
            } else if name == "table"@ {
                seq![table_of(item)]
            } else if name == "gallery"@ {
                match item.get_str("ref"@) {
                    Some(uri) => seq![SpecBlock::GalleryRef { uri }],
                    None => Seq::empty(),
                }
            } else {
                pckt_children_of(item, did)
            }
        },
    }
}

/// What the items under a container's `content` become.
pub open spec fn pckt_children_of(item: SpecJson, did: Seq<char>) -> Seq<SpecBlock>
    decreases item, 0nat,
{
    proof {
        lemma_member_smaller(item, "content"@);
    }
    match item.get_array("content"@) {
        Some(items) => pckt_blocks_of(items, did),
        None => Seq::empty(),
    }
}

/// What a run of items becomes, one after the other.
pub open spec fn pckt_blocks_of(items: Seq<SpecJson>, did: Seq<char>) -> Seq<SpecBlock>
    decreases items, 0nat,
{
    if items.len() == 0 {
        Seq::empty()
    } else {
        pckt_blocks_of(items.drop_last(), did) + pckt_block_of(items.last(), did)
    }
}

/// The items of a list: each entry is a container of blocks.
pub open spec fn pckt_items_of(entries: Seq<SpecJson>, did: Seq<char>) -> Seq<Seq<SpecBlock>>
    decreases entries, 0nat,
{
    if entries.len() == 0 {
        Seq::empty()
    } else {
        pckt_items_of(entries.drop_last(), did).push(pckt_children_of(entries.last(), did))
    }
}

fn blocks(items: &Vec<Json>, ctx: &DecodeCtx) -> (r: Vec<Block>)
    ensures
        blocks_view(r@) == pckt_blocks_of(array_view(items@), ctx.repo_did@),
    decreases array_view(items@), 0nat,
{
    let ghost all = array_view(items@);
    let mut out: Vec<Block> = Vec::new();
    let mut i: usize = 0;
    assert(all.take(0) =~= Seq::empty());
    while i < items.len()
        invariant
            i <= items@.len(),
            all == array_view(items@),
            blocks_view(out@) == pckt_blocks_of(all.take(i as int), ctx.repo_did@),
        decreases items@.len() - i,
    {
        broadcast use {lemma_array_view, lemma_blocks_concat};

        assert(decreases_to!(all => all[i as int]));
        let mut more = block(&items[i], ctx);
        out.append(&mut more);
        assert(all.take(i + 1).drop_last() =~= all.take(i as int));
        i = i + 1;
    }
    proof {
        lemma_array_view(items@);
        assert(all.take(all.len() as int) =~= all);
    }
    out
}

fn child_blocks(item: &Json, ctx: &DecodeCtx) -> (r: Vec<Block>)
    ensures
        blocks_view(r@) == pckt_children_of(item@, ctx.repo_did@),
    decreases item@, 0nat,
{
    proof {
        lemma_member_smaller(item@, "content"@);
    }
    match item.get_array("content") {
        Some(items) => blocks(items, ctx),
        None => Vec::new(),
    }
}

fn list_entries(entries: &Vec<Json>, ctx: &DecodeCtx) -> (r: Vec<Vec<Block>>)
    ensures
        items_view(r@) == pckt_items_of(array_view(entries@), ctx.repo_did@),
    decreases array_view(entries@), 0nat,
{
    let ghost all = array_view(entries@);
    let mut out: Vec<Vec<Block>> = Vec::new();
    let mut i: usize = 0;
    assert(all.take(0) =~= Seq::empty());
    while i < entries.len()
        invariant
            i <= entries@.len(),
            all == array_view(entries@),
            items_view(out@) == pckt_items_of(all.take(i as int), ctx.repo_did@),
        decreases entries@.len() - i,
    {
        broadcast use {lemma_array_view, lemma_items_push};

        assert(decreases_to!(all => all[i as int]));
        out.push(child_blocks(&entries[i], ctx));
        assert(all.take(i + 1).drop_last() =~= all.take(i as int));
        i = i + 1;
    }
    proof {
        lemma_array_view(entries@);
        assert(all.take(all.len() as int) =~= all);
    }
    out
}

/// Decode one item into any number of blocks.
pub fn block(item: &Json, ctx: &DecodeCtx) -> (r: Vec<Block>)
    ensures
        blocks_view(r@) == pckt_block_of(item@, ctx.repo_did@),
    decreases item@, 1nat,
{
    let ty = match item.get_str("$type") {
        Some(ty) => ty,
        None => return Vec::new(),
    };
    let name = last_segment(ty, '.');
    let name = name.as_str();
    if same(name, "text") {
        one_block(Block::Paragraph(text_block_inlines(item)))
    } else if same(name, "heading") {
        one_block(
            Block::Heading { level: heading_level(item, 1), content: text_block_inlines(item) },
        )
    } else if same(name, "blockquote") {
        one_block(Block::Quote(child_blocks(item, ctx)))
    } else if same(name, "codeBlock") {
        one_block(pckt_code(item))
    } else if same(name, "bulletList") || same(name, "taskList") || same(name, "orderedList") {
        proof {
            lemma_member_smaller(item@, "content"@);
        }
        let items = match item.get_array("content") {
            Some(entries) => list_entries(entries, ctx),
            None => Vec::new(),
        };
        one_block(Block::List { ordered: same(name, "orderedList"), items })
    } else if same(name, "image") {
        match image(item, ctx) {
            Some(b) => one_block(b),
            None => Vec::new(),
        }
    } else if same(name, "horizontalRule") {
        one_block(Block::Rule)
    } else if same(name, "table") {
        one_block(table(item))
    } else if same(name, "gallery") {
        match item.get_str("ref") {
            Some(uri) => one_block(Block::GalleryRef { uri: owned(uri) }),
            None => Vec::new(),
        }
    } else {
        child_blocks(item, ctx)
    }
}

/// The body of a Pckt document; none without items, which is how a large document
/// looks whose items were moved to a blob.
pub open spec fn pckt_doc(content: SpecJson, did: Seq<char>) -> Option<Seq<SpecBlock>> {
    match content.get_array("items"@) {
        Some(items) => if items.len() == 0 {
            None
        } else {
            Some(pckt_blocks_of(items, did))
        },
        None => None,
    }
}

/// The CID of the blob that holds the items of a large document: its `items` are
/// empty or absent, and it has a `blob`.
pub open spec fn external_cid_of(content: SpecJson) -> Option<Seq<char>> {
    let inline = match content.get_array("items"@) {
        Some(items) => items.len() > 0,
        None => false,
    };
    if content.get_str("$type"@) != Some("blog.pckt.content"@) || inline {
        None
    } else {
        match content.get("blob"@) {
            None => None,
            Some(blob) => match blob.get("ref"@) {
                None => None,
                Some(r) => r.get_str("$link"@),
            },
        }
    }
}

/// The CID of the blob that holds the items of a large document.
pub fn external_content_cid(content: &Json) -> (r: Option<&str>)
    ensures
        match r {
            Some(cid) => external_cid_of(content@) == Some(cid@),
            None => external_cid_of(content@) is None,
        },
{
    let inline = match content.get_array("items") {
        Some(items) => {
            proof {
                lemma_array_view(items@);
            }
            items.len() > 0
        },
        None => false,
    };
    if !crate::decode::has_type(content, "blog.pckt.content") || inline {
        return None;
    }
    match content.get("blob") {
        None => None,
        Some(blob) => match blob.get("ref") {
            None => None,
            Some(r) => r.get_str("$link"),
        },
    }
}

impl ContentDecoder for Pckt {
    open spec fn claims(&self, content: SpecJson) -> bool {
        content.get_str("$type"@) == Some("blog.pckt.content"@)
    }

    open spec fn decoded(&self, content: SpecJson, did: Seq<char>) -> Option<Seq<SpecBlock>> {
        pckt_doc(content, did)
    }

    open spec fn platform(&self, content: SpecJson) -> Option<PublishingPlatform> {
        Some(PublishingPlatform::Pckt)
    }

    fn handles(&self, content: &Json) -> (r: bool) {
        crate::decode::has_type(content, "blog.pckt.content")
    }

    fn decode(&self, content: &Json, ctx: &DecodeCtx) -> (r: Option<RichDoc>) {
        let items = match content.get_array("items") {
            Some(items) => items,
            None => return None,
        };
        proof {
            lemma_array_view(items@);
        }
        if items.len() == 0 {
            return None;
        }
        Some(RichDoc { blocks: blocks(items, ctx) })
    }

    fn publishing_platform(&self, content: &Json) -> (r: Option<PublishingPlatform>) {
        Some(PublishingPlatform::Pckt)
    }
}

} // verus!
