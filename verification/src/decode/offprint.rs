//! Offprint, `app.offprint.content`: a flat `items` list of `app.offprint.block.*`.
use vstd::prelude::*;

use crate::decode::blocks::{
    heading_level, heading_level_of, list_items, list_items_of, opt_block_view, text_paragraph,
};
use crate::decode::facets::{text_block, text_block_inlines};
use crate::decode::image::{blob_image, blob_image_of};
use crate::decode::{ContentDecoder, DecodeCtx};
use crate::json::{array_view, lemma_array_view, Json, SpecJson};
use crate::model::{
    block_view, blocks_view, images_view, inlines_view, items_view, lemma_blocks_push,
    lemma_images_push, lemma_inlines_concat, lemma_inlines_push, lemma_items_push, one_block,
    one_inline, Block, Image, Inline, PublishingPlatform, RichDoc, SpecBlock, SpecImage, SpecInline,
};
use crate::text::{
    after_last, chars_of, digits_of, digits_value, join2, last_segment, owned, same,
};

verus! {

/// Decoder of Offprint documents.
pub struct Offprint;

// --- Colours ----------------------------------------------------------------------

/// `c` is an ASCII digit.
pub open spec fn is_digit(c: char) -> bool {
    '0' <= c <= '9'
}

/// The maximal runs of digits in `s` from `i` on, where the run in hand began at
/// `start`.
pub open spec fn digit_runs(s: Seq<char>, start: int, i: int) -> Seq<Seq<char>>
    decreases s.len() - i,
{
    if i >= s.len() {
        if start < s.len() {
            seq![s.subrange(start, s.len() as int)]
        } else {
            Seq::empty()
        }
    } else if is_digit(s[i]) {
        digit_runs(s, start, i + 1)
    } else if start < i {
        seq![s.subrange(start, i)] + digit_runs(s, i + 1, i + 1)
    } else {
        digit_runs(s, i + 1, i + 1)
    }
}

/// A colour channel from a run of digits: at most 255, and zero for a run that is no
/// sixteen-bit number.
pub open spec fn channel(run: Seq<char>) -> u8 {
    match digits_value(run, 10) {
        Some(n) => if n > 65535 {
            0
        } else if n > 255 {
            255
        } else {
            n as u8
        },
        None => 0,
    }
}

/// The first three integers of a CSS colour; alpha is ignored.
pub open spec fn css_rgb(s: Seq<char>) -> Option<(u8, u8, u8)> {
    let runs = digit_runs(s, 0, 0);
    if runs.len() >= 3 {
        Some((channel(runs[0]), channel(runs[1]), channel(runs[2])))
    } else {
        None
    }
}

fn read_channel(v: &Vec<char>, from: usize, to: usize) -> (r: u8)
    requires
        from <= to <= v@.len(),
    ensures
        r == channel(v@.subrange(from as int, to as int)),
{
    match digits_of(v, from, to, 10, 65535) {
        None => 0,
        Some(n) => if n > 255 {
            255
        } else {
            n as u8
        },
    }
}

/// Channels by run.
pub open spec fn channels(runs: Seq<Seq<char>>) -> Seq<u8> {
    runs.map_values(|r: Seq<char>| channel(r))
}

/// The RGB channels of a CSS colour like `rgb(168 85 247 / 0.2)` or `rgb(10,20,30)`.
pub fn parse_css_rgb(s: &str) -> (r: Option<(u8, u8, u8)>)
    ensures
        r == css_rgb(s@),
{
    let v = chars_of(s);
    let ghost all = channels(digit_runs(v@, 0, 0));
    let mut nums: Vec<u8> = Vec::new();
    let mut start: usize = 0;
    let mut i: usize = 0;
    assert(nums@ + channels(digit_runs(v@, 0, 0)) =~= all);
    while i < v.len()
        invariant
            start <= i <= v@.len(),
            nums@ + channels(digit_runs(v@, start as int, i as int)) == all,
        decreases v@.len() - i,
    {
        let c = v[i];
        if !('0' <= c && c <= '9') {
            if start < i {
                let ghost before = nums@;
                let n: u8 = read_channel(&v, start, i);
                nums.push(n);
                assert(nums@ + channels(digit_runs(v@, i + 1, i + 1)) =~= before + channels(
                    seq![v@.subrange(start as int, i as int)] + digit_runs(v@, i + 1, i + 1),
                ));
            }
            start = i + 1;
        }
        i = i + 1;
    }
    if start < v.len() {
        let ghost before = nums@;
        let n: u8 = read_channel(&v, start, v.len());
        nums.push(n);
        assert(nums@ =~= before + channels(seq![v@.subrange(start as int, v@.len() as int)]));
    } else {
        assert(nums@ + channels(Seq::<Seq<char>>::empty()) =~= nums@);
    }
    assert(nums@ == all);
    if nums.len() >= 3 {
        Some((nums[0], nums[1], nums[2]))
    } else {
        None
    }
}

// --- Blocks -----------------------------------------------------------------------

/// One item of a task list: the state as a glyph, then the text.
pub open spec fn task_item_of(c: SpecJson) -> Seq<SpecBlock> {
    let checked = match c.get("checked"@) {
        Some(v) => v.as_bool() == Some(true),
        None => false,
    };
    let mark = SpecInline::Text(
        if checked {
            "☑ "@
        } else {
            "☐ "@
        },
    );
    let text = match c.get("content"@) {
        Some(content) => text_block(content),
        None => Seq::empty(),
    };
    seq![SpecBlock::Paragraph(seq![mark] + text)]
}

fn task_item(c: &Json) -> (r: Vec<Block>)
    ensures
        blocks_view(r@) == task_item_of(c@),
{
    broadcast use lemma_inlines_concat;

    let checked = match c.get("checked") {
        Some(v) => match v.as_bool() {
            Some(b) => b,
            None => false,
        },
        None => false,
    };
    let mark = if checked {
        owned("☑ ")
    } else {
        owned("☐ ")
    };
    let mut inlines = one_inline(Inline::Text(mark));
    let ghost first = inlines_view(inlines@);
    match c.get("content") {
        Some(content) => {
            let mut text = text_block_inlines(content);
            inlines.append(&mut text);
        },
        None => {
            assert(first + Seq::<SpecInline>::empty() =~= first);
        },
    }
    one_block(Block::Paragraph(inlines))
}

/// The first `n` items of a task list.
pub open spec fn tasks_among(children: Seq<SpecJson>, n: int) -> Seq<Seq<SpecBlock>>
    decreases n,
{
    if n <= 0 {
        Seq::empty()
    } else {
        tasks_among(children, n - 1).push(task_item_of(children[n - 1]))
    }
}

/// The items of a task list.
pub open spec fn task_items_of(block: SpecJson) -> Seq<Seq<SpecBlock>> {
    match block.get_array("children"@) {
        Some(children) => tasks_among(children, children.len() as int),
        None => Seq::empty(),
    }
}

fn task_items(block: &Json) -> (r: Vec<Vec<Block>>)
    ensures
        items_view(r@) == task_items_of(block@),
{
    let mut out: Vec<Vec<Block>> = Vec::new();
    let children = match block.get_array("children") {
        Some(children) => children,
        None => return out,
    };
    let mut i: usize = 0;
    while i < children.len()
        invariant
            i <= children@.len(),
            items_view(out@) == tasks_among(array_view(children@), i as int),
        decreases children@.len() - i,
    {
        broadcast use {lemma_array_view, lemma_items_push};

        out.push(task_item(&children[i]));
        i = i + 1;
    }
    proof {
        lemma_array_view(children@);
    }
    out
}

/// Paragraphs of the first `n` of `items`.
pub open spec fn paragraphs_among(items: Seq<SpecJson>, n: int) -> Seq<SpecBlock>
    decreases n,
{
    if n <= 0 {
        Seq::empty()
    } else {
        paragraphs_among(items, n - 1).push(text_paragraph(items[n - 1]))
    }
}

/// A quote of the text blocks under `content`.
pub open spec fn blockquote_of(block: SpecJson) -> SpecBlock {
    SpecBlock::Quote(
        match block.get_array("content"@) {
            Some(items) => paragraphs_among(items, items.len() as int),
            None => Seq::empty(),
        },
    )
}

fn blockquote(block: &Json) -> (r: Block)
    ensures
        block_view(r) == blockquote_of(block@),
{
    let mut inner: Vec<Block> = Vec::new();
    let items = match block.get_array("content") {
        Some(items) => items,
        None => return Block::Quote(inner),
    };
    let mut i: usize = 0;
    while i < items.len()
        invariant
            i <= items@.len(),
            blocks_view(inner@) == paragraphs_among(array_view(items@), i as int),
        decreases items@.len() - i,
    {
        broadcast use {lemma_array_view, lemma_blocks_push};

        inner.push(Block::Paragraph(text_block_inlines(&items[i])));
        i = i + 1;
    }
    proof {
        lemma_array_view(items@);
    }
    Block::Quote(inner)
}

/// The string member `key`, unless it is empty.
pub open spec fn filled_str(block: SpecJson, key: Seq<char>) -> Option<Seq<char>> {
    match block.get_str(key) {
        Some(s) => if s.len() == 0 {
            None
        } else {
            Some(s)
        },
        None => None,
    }
}

/// The string member `key`, unless it is empty.
fn get_filled<'a>(block: &'a Json, key: &str) -> (r: Option<&'a str>)
    ensures
        match r {
            Some(s) => filled_str(block@, key@) == Some(s@),
            None => filled_str(block@, key@) is None,
        },
{
    match block.get_str(key) {
        Some(s) => if s.is_empty() {
            None
        } else {
            Some(s)
        },
        None => None,
    }
}

/// A code block: its `code`, or its `plaintext` if it has no `code`.
pub open spec fn code_block_of(block: SpecJson) -> SpecBlock {
    let member = match block.get("code"@) {
        Some(v) => Some(v),
        None => block.get("plaintext"@),
    };
    SpecBlock::Code {
        lang: filled_str(block, "language"@),
        text: match member {
            Some(SpecJson::Str(s)) => s,
            _ => ""@,
        },
    }
}

fn code_block(block: &Json) -> (r: Block)
    ensures
        block_view(r) == code_block_of(block@),
{
    let member = match block.get("code") {
        Some(v) => Some(v),
        None => block.get("plaintext"),
    };
    let text = match member {
        Some(v) => match v.as_str() {
            Some(s) => owned(s),
            None => owned(""),
        },
        None => owned(""),
    };
    let lang = match get_filled(block, "language") {
        Some(s) => Some(owned(s)),
        None => None,
    };
    Block::Code { lang, text }
}

/// An embed or bookmark as a link: labelled by its title, or by its URL without one;
/// with `with_desc`, its description on a line of its own.
pub open spec fn link_block_of(block: SpecJson, with_desc: bool) -> Option<SpecBlock> {
    match block.get_str("href"@) {
        None => None,
        Some(href) => {
            let title = block.get_str_or("title"@, ""@);
            let label = "🔗 "@ + (if title.len() == 0 {
                href
            } else {
                title
            });
            let link = SpecInline::Link { href, content: seq![SpecInline::Text(label)] };
            Some(
                SpecBlock::Paragraph(
                    match filled_str(block, "description"@) {
                        Some(desc) => if with_desc {
                            seq![link, SpecInline::LineBreak, SpecInline::Text(desc)]
                        } else {
                            seq![link]
                        },
                        None => seq![link],
                    },
                ),
            )
        },
    }
}

fn link_block(block: &Json, with_desc: bool) -> (r: Option<Block>)
    ensures
        opt_block_view(r) == link_block_of(block@, with_desc),
{
    broadcast use lemma_inlines_push;

    let href = match block.get_str("href") {
        Some(href) => href,
        None => return None,
    };
    let title = block.get_str_or("title", "");
    let label = if title.is_empty() {
        join2("🔗 ", href)
    } else {
        join2("🔗 ", title)
    };
    let text = one_inline(Inline::Text(label));
    let mut inlines = one_inline(Inline::Link { href: owned(href), content: text });
    let ghost first = inlines_view(inlines@);
    if with_desc {
        if let Some(desc) = get_filled(block, "description") {
            inlines.push(Inline::LineBreak);
            inlines.push(Inline::Text(owned(desc)));
            assert(inlines_view(inlines@) =~= seq![
                first[0],
                SpecInline::LineBreak,
                SpecInline::Text(desc@),
            ]);
        }
    }
    Some(Block::Paragraph(inlines))
}

/// The image of one grid entry.
pub open spec fn entry_image(entry: SpecJson, did: Seq<char>) -> Option<SpecImage> {
    match entry.get("image"@) {
        Some(b) => blob_image_of(b, did, ""@),
        None => None,
    }
}

/// The images of the first `n` entries.
pub open spec fn grid_among(entries: Seq<SpecJson>, did: Seq<char>, n: int) -> Seq<SpecImage>
    decreases n,
{
    if n <= 0 {
        Seq::empty()
    } else {
        let rest = grid_among(entries, did, n - 1);
        match entry_image(entries[n - 1], did) {
            Some(i) => rest.push(i),
            None => rest,
        }
    }
}

/// The images of a grid or carousel.
pub open spec fn grid_images_of(block: SpecJson, did: Seq<char>) -> Seq<SpecImage> {
    match block.get_array("images"@) {
        Some(entries) => grid_among(entries, did, entries.len() as int),
        None => Seq::empty(),
    }
}

fn grid_images(block: &Json, ctx: &DecodeCtx) -> (r: Vec<Image>)
    ensures
        images_view(r@) == grid_images_of(block@, ctx.repo_did@),
{
    let mut out: Vec<Image> = Vec::new();
    assert(images_view(out@) =~= Seq::empty());
    let entries = match block.get_array("images") {
        Some(entries) => entries,
        None => return out,
    };
    let mut i: usize = 0;
    while i < entries.len()
        invariant
            i <= entries@.len(),
            images_view(out@) == grid_among(array_view(entries@), ctx.repo_did@, i as int),
        decreases entries@.len() - i,
    {
        broadcast use {lemma_array_view, lemma_images_push};

        if let Some(b) = entries[i].get("image") {
            if let Some(img) = blob_image(b, ctx.repo_did, "") {
                out.push(img);
            }
        }
        i = i + 1;
    }
    proof {
        lemma_array_view(entries@);
    }
    out
}

/// The label at position `i`: a string that is not empty.
pub open spec fn label_at(labels: Option<Seq<SpecJson>>, i: int) -> Option<Seq<char>> {
    match labels {
        Some(l) => if 0 <= i < l.len() {
            match l[i].as_str() {
                Some(s) => if s.len() == 0 {
                    None
                } else {
                    Some(s)
                },
                None => None,
            }
        } else {
            None
        },
        None => None,
    }
}

/// The images of the first `n` entries of a before/after pair, each with the label
/// at its position as alternative text.
pub open spec fn diff_among(
    entries: Seq<SpecJson>,
    labels: Option<Seq<SpecJson>>,
    did: Seq<char>,
    n: int,
) -> Seq<SpecImage>
    decreases n,
{
    if n <= 0 {
        Seq::empty()
    } else {
        let rest = diff_among(entries, labels, did, n - 1);
        match entry_image(entries[n - 1], did) {
            Some(i) => rest.push(
                match label_at(labels, n - 1) {
                    Some(alt) => SpecImage { alt, ..i },
                    None => i,
                },
            ),
            None => rest,
        }
    }
}

/// The images of a before/after pair.
pub open spec fn diff_images_of(block: SpecJson, did: Seq<char>) -> Seq<SpecImage> {
    match block.get_array("images"@) {
        Some(entries) => diff_among(
            entries,
            block.get_array("labels"@),
            did,
            entries.len() as int,
        ),
        None => Seq::empty(),
    }
}

fn diff_images(block: &Json, ctx: &DecodeCtx) -> (r: Vec<Image>)
    ensures
        images_view(r@) == diff_images_of(block@, ctx.repo_did@),
{
    let mut out: Vec<Image> = Vec::new();
    assert(images_view(out@) =~= Seq::empty());
    let labels = block.get_array("labels");
    let entries = match block.get_array("images") {
        Some(entries) => entries,
        None => return out,
    };
    let ghost named = block@.get_array("labels"@);
    let mut i: usize = 0;
    while i < entries.len()
        invariant
            i <= entries@.len(),
            named == (match labels {
                Some(l) => Some(array_view(l@)),
                None => None,
            }),
            images_view(out@) == diff_among(
                array_view(entries@),
                named,
                ctx.repo_did@,
                i as int,
            ),
        decreases entries@.len() - i,
    {
        broadcast use {lemma_array_view, lemma_images_push};

        if let Some(b) = entries[i].get("image") {
            if let Some(img) = blob_image(b, ctx.repo_did, "") {
                let mut img = img;
                if let Some(l) = labels {
                    if i < l.len() {
                        if let Some(s) = l[i].as_str() {
                            if !s.is_empty() {
                                img.alt = owned(s);
                            }
                        }
                    }
                }
                out.push(img);
            }
        }
        i = i + 1;
    }
    proof {
        lemma_array_view(entries@);
    }
    out
}

/// An aside: emoji badge, tint and text.
pub open spec fn callout_of(block: SpecJson) -> SpecBlock {
    SpecBlock::Callout {
        emoji: filled_str(block, "emoji"@),
        tint: match block.get_str("color"@) {
            Some(c) => css_rgb(c),
            None => None,
        },
        content: text_block(block),
    }
}

fn callout(block: &Json) -> (r: Block)
    ensures
        block_view(r) == callout_of(block@),
{
    let emoji = match get_filled(block, "emoji") {
        Some(s) => Some(owned(s)),
        None => None,
    };
    let tint = match block.get_str("color") {
        Some(c) => parse_css_rgb(c),
        None => None,
    };
    Block::Callout { emoji, tint, content: text_block_inlines(block) }
}

/// A grid of images, unless there are none.
pub open spec fn grid_block(images: Seq<SpecImage>) -> Option<SpecBlock> {
    if images.len() == 0 {
        None
    } else {
        Some(SpecBlock::ImageGrid(images))
    }
}

/// What one item becomes, by the part of its `$type` after the last dot. An item of
/// unknown type is kept for its text, if it has any.
pub open spec fn offprint_block_of(item: SpecJson, did: Seq<char>) -> Option<SpecBlock> {
    let name = match item.get_str("$type"@) {
        Some(ty) => Some(after_last(ty, '.')),
        None => None,
    };
    if name == Some("text"@) {
        Some(text_paragraph(item))
    } else if name == Some("heading"@) {
        Some(SpecBlock::Heading { level: heading_level_of(item, 2), content: text_block(item) })
    } else if name == Some("image"@) {
        match entry_image(item, did) {
            Some(i) => Some(SpecBlock::Image(i)),
            None => None,
        }
    } else if name == Some("imageGrid"@) || name == Some("imageCarousel"@) {
        grid_block(grid_images_of(item, did))
    } else if name == Some("imageDiff"@) {
        grid_block(diff_images_of(item, did))
    } else if name == Some("bulletList"@) {
        Some(SpecBlock::List { ordered: false, items: list_items_of(item) })
    } else if name == Some("orderedList"@) {
        Some(SpecBlock::List { ordered: true, items: list_items_of(item) })
    } else if name == Some("taskList"@) {
        Some(SpecBlock::List { ordered: false, items: task_items_of(item) })
    } else if name == Some("blockquote"@) {
        Some(blockquote_of(item))
    } else if name == Some("codeBlock"@) {
        Some(code_block_of(item))
    } else if name == Some("webEmbed"@) {
        link_block_of(item, false)
    } else if name == Some("webBookmark"@) {
        link_block_of(item, true)
    } else if name == Some("callout"@) {
        Some(callout_of(item))
    } else if name == Some("horizontalRule"@) {
        Some(SpecBlock::Rule)
    } else if filled_str(item, "plaintext"@) is Some {
        Some(text_paragraph(item))
    } else {
        None
    }
}

/// A text paragraph for an item of unknown type, if it has text.
fn unknown_block(item: &Json) -> (r: Option<Block>)
    ensures
        opt_block_view(r) == (if filled_str(item@, "plaintext"@) is Some {
            Some(text_paragraph(item@))
        } else {
            None
        }),
{
    match get_filled(item, "plaintext") {
        Some(_) => Some(Block::Paragraph(text_block_inlines(item))),
        None => None,
    }
}

fn grid_or_none(images: Vec<Image>) -> (r: Option<Block>)
    ensures
        opt_block_view(r) == grid_block(images_view(images@)),
{
    if images.len() == 0 {
        None
    } else {
        Some(Block::ImageGrid(images))
    }
}

/// What one item becomes.
pub fn offprint_block(item: &Json, ctx: &DecodeCtx) -> (r: Option<Block>)
    ensures
        opt_block_view(r) == offprint_block_of(item@, ctx.repo_did@),
{
    let name = match item.get_str("$type") {
        Some(ty) => last_segment(ty, '.'),
        None => return unknown_block(item),
    };
    let name = name.as_str();
    if same(name, "text") {
        Some(Block::Paragraph(text_block_inlines(item)))
    } else if same(name, "heading") {
        Some(
            Block::Heading { level: heading_level(item, 2), content: text_block_inlines(item) },
        )
    } else if same(name, "image") {
        match item.get("image") {
            Some(b) => match blob_image(b, ctx.repo_did, "") {
                Some(i) => Some(Block::Image(i)),
                None => None,
            },
            None => None,
        }
    } else if same(name, "imageGrid") || same(name, "imageCarousel") {
        grid_or_none(grid_images(item, ctx))
    } else if same(name, "imageDiff") {
        grid_or_none(diff_images(item, ctx))
    } else if same(name, "bulletList") {
        Some(Block::List { ordered: false, items: list_items(item) })
    } else if same(name, "orderedList") {
        Some(Block::List { ordered: true, items: list_items(item) })
    } else if same(name, "taskList") {
        Some(Block::List { ordered: false, items: task_items(item) })
    } else if same(name, "blockquote") {
        Some(blockquote(item))
    } else if same(name, "codeBlock") {
        Some(code_block(item))
    } else if same(name, "webEmbed") {
        link_block(item, false)
    } else if same(name, "webBookmark") {
        link_block(item, true)
    } else if same(name, "callout") {
        Some(callout(item))
    } else if same(name, "horizontalRule") {
        Some(Block::Rule)
    } else {
        unknown_block(item)
    }
}

/// What the first `n` items become.
pub open spec fn offprint_among(items: Seq<SpecJson>, did: Seq<char>, n: int) -> Seq<SpecBlock>
    decreases n,
{
    if n <= 0 {
        Seq::empty()
    } else {
        let rest = offprint_among(items, did, n - 1);
        match offprint_block_of(items[n - 1], did) {
            Some(b) => rest.push(b),
            None => rest,
        }
    }
}

/// The body of an Offprint document; none without an `items` array.
pub open spec fn offprint_doc(content: SpecJson, did: Seq<char>) -> Option<Seq<SpecBlock>> {
    match content.get_array("items"@) {
        Some(items) => Some(offprint_among(items, did, items.len() as int)),
        None => None,
    }
}

impl ContentDecoder for Offprint {
    open spec fn claims(&self, content: SpecJson) -> bool {
        content.get_str("$type"@) == Some("app.offprint.content"@)
    }

    open spec fn decoded(&self, content: SpecJson, did: Seq<char>) -> Option<Seq<SpecBlock>> {
        offprint_doc(content, did)
    }

    open spec fn platform(&self, content: SpecJson) -> Option<PublishingPlatform> {
        Some(PublishingPlatform::Offprint)
    }

    fn handles(&self, content: &Json) -> (r: bool) {
        crate::decode::has_type(content, "app.offprint.content")
    }

    fn decode(&self, content: &Json, ctx: &DecodeCtx) -> (r: Option<RichDoc>) {
        let items = match content.get_array("items") {
            Some(items) => items,
            None => return None,
        };
        let mut blocks: Vec<Block> = Vec::new();
        let mut i: usize = 0;
        while i < items.len()
            invariant
                i <= items@.len(),
                blocks_view(blocks@) == offprint_among(
                    array_view(items@),
                    ctx.repo_did@,
                    i as int,
                ),
            decreases items@.len() - i,
        {
            broadcast use {lemma_array_view, lemma_blocks_push};

            if let Some(b) = offprint_block(&items[i], ctx) {
                blocks.push(b);
            }
            i = i + 1;
        }
        proof {
            lemma_array_view(items@);
        }
        Some(RichDoc { blocks })
    }

    fn publishing_platform(&self, content: &Json) -> (r: Option<PublishingPlatform>) {
        Some(PublishingPlatform::Offprint)
    }
}

} // verus!
