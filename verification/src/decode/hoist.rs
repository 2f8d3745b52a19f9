//! Images of flowing text as blocks of their own.
//!
//! Only top-level image blocks are shown as images; one that is nested in a paragraph, a
//! heading, a quote or a list, or in a span of any of these, shows as its alternative text.
//! So every image is lifted to a block of its own, in document order: out of a paragraph
//! to where it stood between runs of text, and out of anything else to after it.
use vstd::prelude::*;

use crate::model::{
    block_view, blocks_view, cells_view, group_model_push, images_view, inline_view, inlines_view,
    items_view, lemma_blocks_concat, lemma_blocks_view, lemma_inlines_concat, lemma_inlines_view,
    lemma_items_view, one_block, rows_view, Block, Image, Inline, SpecBlock, SpecImage, SpecInline,
};
use crate::text::{skip_space, skip_space_back, trim, trimmed, unicode_whitespace};

verus! {

// --- Inlines ----------------------------------------------------------------------

/// Whitespace or a break: nothing that makes a paragraph worth keeping.
pub open spec fn is_filler(x: SpecInline) -> bool {
    match x {
        SpecInline::LineBreak => true,
        SpecInline::Text(t) => trimmed(t).len() == 0,
        _ => false,
    }
}

/// Some inline is more than filler.
pub open spec fn has_real(s: Seq<SpecInline>) -> bool {
    exists|i: int| 0 <= i < s.len() && !is_filler(#[trigger] s[i])
}

/// The images of an inline, in document order: itself, or those of its span.
pub open spec fn inline_images(x: SpecInline) -> Seq<SpecImage>
    decreases x,
{
    match x {
        SpecInline::Image(i) => seq![i],
        SpecInline::Strong(c) => images_in(c),
        SpecInline::Emphasis(c) => images_in(c),
        SpecInline::Strike(c) => images_in(c),
        SpecInline::Underline(c) => images_in(c),
        SpecInline::Highlight(c) => images_in(c),
        SpecInline::Link { href, content } => images_in(content),
        _ => Seq::empty(),
    }
}

/// The images of inlines, in document order.
pub open spec fn images_in(s: Seq<SpecInline>) -> Seq<SpecImage>
    decreases s,
{
    if s.len() == 0 {
        Seq::empty()
    } else {
        images_in(s.drop_last()) + inline_images(s.last())
    }
}

/// A span of the same kind around other inlines.
pub open spec fn respanned(x: SpecInline, c: Seq<SpecInline>) -> SpecInline {
    match x {
        SpecInline::Strong(_) => SpecInline::Strong(c),
        SpecInline::Emphasis(_) => SpecInline::Emphasis(c),
        SpecInline::Strike(_) => SpecInline::Strike(c),
        SpecInline::Underline(_) => SpecInline::Underline(c),
        SpecInline::Highlight(_) => SpecInline::Highlight(c),
        SpecInline::Link { href, content } => SpecInline::Link { href, content: c },
        other => other,
    }
}

/// A span is worth keeping around `rest`, what is left of `c` without its images.
pub open spec fn span_stays(c: Seq<SpecInline>, rest: Seq<SpecInline>) -> bool {
    images_in(c).len() == 0 || has_real(rest)
}

/// What is left of a span without its images: the span, or the filler that it held.
pub open spec fn span_left(x: SpecInline, c: Seq<SpecInline>, rest: Seq<SpecInline>) -> Seq<
    SpecInline,
> {
    if span_stays(c, rest) {
        seq![respanned(x, rest)]
    } else {
        rest
    }
}

/// An inline without its images.
pub open spec fn stripped(x: SpecInline) -> Seq<SpecInline>
    decreases x,
{
    match x {
        SpecInline::Image(_) => Seq::empty(),
        SpecInline::Strong(c) => span_left(x, c, stripped_all(c)),
        SpecInline::Emphasis(c) => span_left(x, c, stripped_all(c)),
        SpecInline::Strike(c) => span_left(x, c, stripped_all(c)),
        SpecInline::Underline(c) => span_left(x, c, stripped_all(c)),
        SpecInline::Highlight(c) => span_left(x, c, stripped_all(c)),
        SpecInline::Link { href, content } => span_left(x, content, stripped_all(content)),
        other => seq![other],
    }
}

/// Inlines without their images.
pub open spec fn stripped_all(s: Seq<SpecInline>) -> Seq<SpecInline>
    decreases s,
{
    if s.len() == 0 {
        Seq::empty()
    } else {
        stripped_all(s.drop_last()) + stripped(s.last())
    }
}

/// The images of table cells, in document order.
pub open spec fn cell_images(s: Seq<Seq<SpecInline>>) -> Seq<SpecImage>
    decreases s.len(),
{
    if s.len() == 0 {
        Seq::empty()
    } else {
        cell_images(s.drop_last()) + images_in(s.last())
    }
}

/// Table cells without their images.
pub open spec fn stripped_cells(s: Seq<Seq<SpecInline>>) -> Seq<Seq<SpecInline>>
    decreases s.len(),
{
    if s.len() == 0 {
        Seq::empty()
    } else {
        stripped_cells(s.drop_last()).push(stripped_all(s.last()))
    }
}

/// The images of table rows, in document order.
pub open spec fn row_images(s: Seq<Seq<Seq<SpecInline>>>) -> Seq<SpecImage>
    decreases s.len(),
{
    if s.len() == 0 {
        Seq::empty()
    } else {
        row_images(s.drop_last()) + cell_images(s.last())
    }
}

/// Table rows without their images.
pub open spec fn stripped_rows(s: Seq<Seq<Seq<SpecInline>>>) -> Seq<Seq<Seq<SpecInline>>>
    decreases s.len(),
{
    if s.len() == 0 {
        Seq::empty()
    } else {
        stripped_rows(s.drop_last()).push(stripped_cells(s.last()))
    }
}

// --- Blocks -----------------------------------------------------------------------

/// A paragraph, unless it would hold nothing but filler.
pub open spec fn real_paragraph(text: Seq<SpecInline>) -> Seq<SpecBlock> {
    if has_real(text) {
        seq![SpecBlock::Paragraph(text)]
    } else {
        Seq::empty()
    }
}

/// Images as a block: one alone, several as a grid.
pub open spec fn image_block(images: Seq<SpecImage>) -> Seq<SpecBlock> {
    if images.len() == 0 {
        Seq::empty()
    } else if images.len() == 1 {
        seq![SpecBlock::Image(images[0])]
    } else {
        seq![SpecBlock::ImageGrid(images)]
    }
}

/// The images of a block, in document order: those it holds at any depth, and itself if it
/// is one.
pub open spec fn lifted_from(b: SpecBlock) -> Seq<SpecImage>
    decreases b,
{
    match b {
        SpecBlock::Image(i) => seq![i],
        SpecBlock::ImageGrid(g) => g,
        SpecBlock::Paragraph(c) => images_in(c),
        SpecBlock::Heading { level, content } => images_in(content),
        SpecBlock::Callout { emoji, tint, content } => images_in(content),
        SpecBlock::Table { head, rows } => cell_images(head) + row_images(rows),
        SpecBlock::Quote(inner) => lifted(inner),
        SpecBlock::List { ordered, items } => lifted_items(items),
        _ => Seq::empty(),
    }
}

/// The images of blocks, in document order.
pub open spec fn lifted(s: Seq<SpecBlock>) -> Seq<SpecImage>
    decreases s,
{
    if s.len() == 0 {
        Seq::empty()
    } else {
        lifted(s.drop_last()) + lifted_from(s.last())
    }
}

/// The images of list items, in document order.
pub open spec fn lifted_items(s: Seq<Seq<SpecBlock>>) -> Seq<SpecImage>
    decreases s,
{
    if s.len() == 0 {
        Seq::empty()
    } else {
        lifted_items(s.drop_last()) + lifted(s.last())
    }
}

/// A block without its images; nothing if nothing is left of it.
pub open spec fn kept_from(b: SpecBlock) -> Seq<SpecBlock>
    decreases b,
{
    match b {
        SpecBlock::Image(_) => Seq::empty(),
        SpecBlock::ImageGrid(_) => Seq::empty(),
        SpecBlock::Paragraph(c) => real_paragraph(stripped_all(c)),
        SpecBlock::Heading { level, content } => if span_stays(content, stripped_all(content)) {
            seq![SpecBlock::Heading { level, content: stripped_all(content) }]
        } else {
            Seq::empty()
        },
        SpecBlock::Callout { emoji, tint, content } => if span_stays(
            content,
            stripped_all(content),
        ) {
            seq![SpecBlock::Callout { emoji, tint, content: stripped_all(content) }]
        } else {
            Seq::empty()
        },
        SpecBlock::Table { head, rows } => seq![
            SpecBlock::Table { head: stripped_cells(head), rows: stripped_rows(rows) },
        ],
        SpecBlock::Quote(inner) => {
            let k = kept(inner);
            if k.len() == 0 {
                Seq::empty()
            } else {
                seq![SpecBlock::Quote(k)]
            }
        },
        SpecBlock::List { ordered, items } => seq![
            SpecBlock::List { ordered, items: kept_items(items) },
        ],
        other => seq![other],
    }
}

/// Blocks without their images.
pub open spec fn kept(s: Seq<SpecBlock>) -> Seq<SpecBlock>
    decreases s,
{
    if s.len() == 0 {
        Seq::empty()
    } else {
        kept(s.drop_last()) + kept_from(s.last())
    }
}

/// List items without their images.
pub open spec fn kept_items(s: Seq<Seq<SpecBlock>>) -> Seq<Seq<SpecBlock>>
    decreases s,
{
    if s.len() == 0 {
        Seq::empty()
    } else {
        kept_items(s.drop_last()).push(kept(s.last()))
    }
}

/// What the next inline of a paragraph completes, when `text` and `imgs` are pending. Text
/// ends a run of images, and an image ends a run of text; a span that holds images gives
/// its text first.
pub open spec fn step_out(x: SpecInline, text: Seq<SpecInline>, imgs: Seq<SpecImage>) -> Seq<
    SpecBlock,
> {
    let ended = if has_real(stripped(x)) {
        image_block(imgs)
    } else {
        Seq::empty()
    };
    ended + if inline_images(x).len() == 0 {
        Seq::empty()
    } else {
        real_paragraph(text + stripped(x))
    }
}

/// The text that is pending after the next inline.
pub open spec fn step_text(x: SpecInline, text: Seq<SpecInline>) -> Seq<SpecInline> {
    if inline_images(x).len() == 0 {
        text + stripped(x)
    } else {
        Seq::empty()
    }
}

/// The images that are pending after the next inline.
pub open spec fn step_images(x: SpecInline, imgs: Seq<SpecImage>) -> Seq<SpecImage> {
    if has_real(stripped(x)) {
        inline_images(x)
    } else {
        imgs + inline_images(x)
    }
}

/// What a paragraph's inlines from `i` on become, when `text` and `imgs` are pending:
/// runs of text become paragraphs and runs of images become image blocks.
pub open spec fn split_from(
    s: Seq<SpecInline>,
    i: int,
    text: Seq<SpecInline>,
    imgs: Seq<SpecImage>,
) -> Seq<SpecBlock>
    decreases s.len() - i,
{
    if i < 0 || i >= s.len() {
        image_block(imgs) + real_paragraph(text)
    } else {
        step_out(s[i], text, imgs) + split_from(
            s,
            i + 1,
            step_text(s[i], text),
            step_images(s[i], imgs),
        )
    }
}

/// What a top-level block becomes: a paragraph is split around its images, and anything
/// else is followed by the images that stood in it.
pub open spec fn hoisted_from(b: SpecBlock) -> Seq<SpecBlock> {
    match b {
        SpecBlock::Paragraph(c) => split_from(c, 0, Seq::empty(), Seq::empty()),
        SpecBlock::Image(_) => seq![b],
        SpecBlock::ImageGrid(_) => seq![b],
        other => kept_from(other) + image_block(lifted_from(other)),
    }
}

/// Blocks with every image lifted to the top level.
pub open spec fn hoisted(s: Seq<SpecBlock>) -> Seq<SpecBlock>
    decreases s.len(),
{
    if s.len() == 0 {
        Seq::empty()
    } else {
        hoisted(s.drop_last()) + hoisted_from(s.last())
    }
}

// --- Taking images out ------------------------------------------------------------

fn filler(x: &Inline) -> (r: bool)
    ensures
        r == is_filler(inline_view(*x)),
{
    match x {
        Inline::LineBreak => true,
        Inline::Text(t) => {
            let left = trim(t.as_str());
            left.as_str().is_empty()
        },
        _ => false,
    }
}

fn any_real(inlines: &Vec<Inline>) -> (r: bool)
    ensures
        r == has_real(inlines_view(inlines@)),
{
    broadcast use lemma_inlines_view;

    let mut i: usize = 0;
    while i < inlines.len()
        invariant
            i <= inlines@.len(),
            forall|k: int| 0 <= k < i ==> is_filler(#[trigger] inlines_view(inlines@)[k]),
        decreases inlines@.len() - i,
    {
        broadcast use lemma_inlines_view;

        if !filler(&inlines[i]) {
            assert(!is_filler(inlines_view(inlines@)[i as int]));
            return true;
        }
        i = i + 1;
    }
    false
}

/// Append a paragraph of `text`, unless it holds nothing but filler.
fn push_real(text: Vec<Inline>, out: &mut Vec<Block>)
    ensures
        blocks_view(final(out)@) == blocks_view(old(out)@) + real_paragraph(
            inlines_view(text@),
        ),
{
    broadcast use group_model_push;

    let ghost before = blocks_view(out@);
    if any_real(&text) {
        out.push(Block::Paragraph(text));
        assert(before.push(SpecBlock::Paragraph(inlines_view(text@))) =~= before + real_paragraph(
            inlines_view(text@),
        ));
    } else {
        assert(before + Seq::<SpecBlock>::empty() =~= before);
    }
}

/// Append images as a block: one alone, several as a grid.
fn push_images(images: Vec<Image>, out: &mut Vec<Block>)
    ensures
        blocks_view(final(out)@) == blocks_view(old(out)@) + image_block(images_view(images@)),
{
    broadcast use group_model_push;

    let ghost before = blocks_view(out@);
    let ghost all = images_view(images@);
    if images.len() == 0 {
        assert(before + Seq::<SpecBlock>::empty() =~= before);
    } else if images.len() == 1 {
        let mut images = images;
        match images.pop() {
            Some(only) => {
                assert(only@ == all[0]);
                out.push(Block::Image(only));
                assert(before.push(SpecBlock::Image(all[0])) =~= before + image_block(all));
            },
            None => {},
        }
    } else {
        out.push(Block::ImageGrid(images));
        assert(before.push(SpecBlock::ImageGrid(all)) =~= before + image_block(all));
    }
}

/// Inlines that hold no image are left as they are.
pub proof fn law_text_without_images_stays(s: Seq<SpecInline>)
    requires
        images_in(s).len() == 0,
    ensures
        stripped_all(s) == s,
    decreases s,
{
    if s.len() > 0 {
        law_text_without_images_stays(s.drop_last());
        lemma_nothing_to_strip_one(s.last());
        assert(stripped_all(s) =~= s);
    } else {
        assert(stripped_all(s) =~= s);
    }
}

proof fn lemma_nothing_to_strip_one(x: SpecInline)
    requires
        inline_images(x).len() == 0,
    ensures
        stripped(x) == seq![x],
    decreases x,
{
    match x {
        SpecInline::Strong(c) => law_text_without_images_stays(c),
        SpecInline::Emphasis(c) => law_text_without_images_stays(c),
        SpecInline::Strike(c) => law_text_without_images_stays(c),
        SpecInline::Underline(c) => law_text_without_images_stays(c),
        SpecInline::Highlight(c) => law_text_without_images_stays(c),
        SpecInline::Link { href, content } => law_text_without_images_stays(content),
        _ => {},
    }
}

/// Append an inline without its images to `out`, and its images to `imgs`.
fn strip_inline(x: Inline, imgs: &mut Vec<Image>, out: &mut Vec<Inline>)
    ensures
        inlines_view(final(out)@) == inlines_view(old(out)@) + stripped(inline_view(x)),
        images_view(final(imgs)@) == images_view(old(imgs)@) + inline_images(inline_view(x)),
    decreases inline_view(x), 0int,
{
    broadcast use {group_model_push, lemma_inlines_concat};

    let ghost v = inline_view(x);
    let ghost had = inlines_view(out@);
    let ghost had_images = images_view(imgs@);
    match x {
        Inline::Image(i) => {
            imgs.push(i);
            assert(had + stripped(v) =~= had);
        },
        Inline::Strong(c) => {
            assert(decreases_to!(v => v->Strong_0));
            let (rest, stays) = strip_span(c, imgs);
            if stays {
                out.push(Inline::Strong(rest));
            } else {
                let mut rest = rest;
                out.append(&mut rest);
            }
        },
        Inline::Emphasis(c) => {
            assert(decreases_to!(v => v->Emphasis_0));
            let (rest, stays) = strip_span(c, imgs);
            if stays {
                out.push(Inline::Emphasis(rest));
            } else {
                let mut rest = rest;
                out.append(&mut rest);
            }
        },
        Inline::Strike(c) => {
            assert(decreases_to!(v => v->Strike_0));
            let (rest, stays) = strip_span(c, imgs);
            if stays {
                out.push(Inline::Strike(rest));
            } else {
                let mut rest = rest;
                out.append(&mut rest);
            }
        },
        Inline::Underline(c) => {
            assert(decreases_to!(v => v->Underline_0));
            let (rest, stays) = strip_span(c, imgs);
            if stays {
                out.push(Inline::Underline(rest));
            } else {
                let mut rest = rest;
                out.append(&mut rest);
            }
        },
        Inline::Highlight(c) => {
            assert(decreases_to!(v => v->Highlight_0));
            let (rest, stays) = strip_span(c, imgs);
            if stays {
                out.push(Inline::Highlight(rest));
            } else {
                let mut rest = rest;
                out.append(&mut rest);
            }
        },
        Inline::Link { href, content } => {
            assert(decreases_to!(v => v->content));
            let (rest, stays) = strip_span(content, imgs);
            if stays {
                out.push(Inline::Link { href, content: rest });
            } else {
                let mut rest = rest;
                out.append(&mut rest);
            }
        },
        other => out.push(other),
    }
    assert(inlines_view(out@) =~= had + stripped(v));
    assert(images_view(imgs@) =~= had_images + inline_images(v));
}

/// The content of a span without its images, and whether the span stays around it.
fn strip_span(c: Vec<Inline>, imgs: &mut Vec<Image>) -> (r: (Vec<Inline>, bool))
    ensures
        inlines_view(r.0@) == stripped_all(inlines_view(c@)),
        r.1 == span_stays(inlines_view(c@), inlines_view(r.0@)),
        images_view(final(imgs)@) == images_view(old(imgs)@) + images_in(inlines_view(c@)),
    decreases inlines_view(c@), 1int,
{
    let before = imgs.len();
    let rest = strip_inlines(c, imgs);
    assert(images_view(imgs@).len() == imgs@.len());
    let stays = imgs.len() == before || any_real(&rest);
    (rest, stays)
}

/// Inlines without their images, which are appended to `imgs`.
fn strip_inlines(inlines: Vec<Inline>, imgs: &mut Vec<Image>) -> (r: Vec<Inline>)
    ensures
        inlines_view(r@) == stripped_all(inlines_view(inlines@)),
        images_view(final(imgs)@) == images_view(old(imgs)@) + images_in(inlines_view(inlines@)),
    decreases inlines_view(inlines@), 0int,
{
    broadcast use {group_model_push, lemma_inlines_view};

    let ghost all = inlines_view(inlines@);
    let ghost start = images_view(imgs@);
    let mut text: Vec<Inline> = Vec::new();
    assert(all.take(0) =~= Seq::empty());
    assert(start + Seq::<SpecImage>::empty() =~= start);
    for inline in it: inlines.into_iter()
        invariant
            all == inlines_view(it.seq()),
            all == inlines_view(inlines@),
            inlines_view(text@) == stripped_all(all.take(it.index() as int)),
            images_view(imgs@) == start + images_in(all.take(it.index() as int)),
    {
        broadcast use {group_model_push, lemma_inlines_view};

        let ghost i = it.index() as int;
        assert(all[i] == inline_view(inline));
        assert(decreases_to!(all => all[i]));
        assert(all.take(i + 1).drop_last() =~= all.take(i));
        let ghost had = images_in(all.take(i));
        strip_inline(inline, imgs, &mut text);
        assert((start + had) + inline_images(all[i]) =~= start + (had + inline_images(all[i])));
    }
    assert(all.take(all.len() as int) =~= all);
    text
}

/// Table cells without their images, which are appended to `imgs`.
fn strip_cells(cells: Vec<Vec<Inline>>, imgs: &mut Vec<Image>) -> (r: Vec<Vec<Inline>>)
    ensures
        cells_view(r@) == stripped_cells(cells_view(cells@)),
        images_view(final(imgs)@) == images_view(old(imgs)@) + cell_images(cells_view(cells@)),
{
    broadcast use group_model_push;

    let ghost all = cells_view(cells@);
    let ghost start = images_view(imgs@);
    let mut left: Vec<Vec<Inline>> = Vec::new();
    assert(all.take(0) =~= Seq::empty());
    assert(cells_view(left@) =~= Seq::empty());
    assert(start + Seq::<SpecImage>::empty() =~= start);
    for cell in it: cells.into_iter()
        invariant
            all == cells_view(it.seq()),
            cells_view(left@) == stripped_cells(all.take(it.index() as int)),
            images_view(imgs@) == start + cell_images(all.take(it.index() as int)),
    {
        broadcast use group_model_push;

        let ghost i = it.index() as int;
        assert(all[i] == inlines_view(cell@));
        assert(all.take(i + 1).drop_last() =~= all.take(i));
        let ghost had = cell_images(all.take(i));
        let text = strip_inlines(cell, imgs);
        left.push(text);
        assert((start + had) + images_in(all[i]) =~= start + (had + images_in(all[i])));
    }
    assert(all.take(all.len() as int) =~= all);
    left
}

/// Table rows without their images, which are appended to `imgs`.
fn strip_rows(rows: Vec<Vec<Vec<Inline>>>, imgs: &mut Vec<Image>) -> (r: Vec<Vec<Vec<Inline>>>)
    ensures
        rows_view(r@) == stripped_rows(rows_view(rows@)),
        images_view(final(imgs)@) == images_view(old(imgs)@) + row_images(rows_view(rows@)),
{
    broadcast use group_model_push;

    let ghost all = rows_view(rows@);
    let ghost start = images_view(imgs@);
    let mut left: Vec<Vec<Vec<Inline>>> = Vec::new();
    assert(all.take(0) =~= Seq::empty());
    assert(rows_view(left@) =~= Seq::empty());
    assert(start + Seq::<SpecImage>::empty() =~= start);
    for row in it: rows.into_iter()
        invariant
            all == rows_view(it.seq()),
            rows_view(left@) == stripped_rows(all.take(it.index() as int)),
            images_view(imgs@) == start + row_images(all.take(it.index() as int)),
    {
        broadcast use group_model_push;

        let ghost i = it.index() as int;
        assert(all[i] == cells_view(row@));
        assert(all.take(i + 1).drop_last() =~= all.take(i));
        let ghost had = row_images(all.take(i));
        let cells = strip_cells(row, imgs);
        left.push(cells);
        assert((start + had) + cell_images(all[i]) =~= start + (had + cell_images(all[i])));
    }
    assert(all.take(all.len() as int) =~= all);
    left
}

/// Append what the next inline of a paragraph completes; what is pending after it.
fn split_step(inline: Inline, text: Vec<Inline>, imgs: Vec<Image>, out: &mut Vec<Block>) -> (r: (
    Vec<Inline>,
    Vec<Image>,
))
    ensures
        blocks_view(final(out)@) == blocks_view(old(out)@) + step_out(
            inline_view(inline),
            inlines_view(text@),
            images_view(imgs@),
        ),
        inlines_view(r.0@) == step_text(inline_view(inline), inlines_view(text@)),
        images_view(r.1@) == step_images(inline_view(inline), images_view(imgs@)),
{
    broadcast use lemma_inlines_concat;

    let ghost x = inline_view(inline);
    let ghost start = blocks_view(out@);
    let ghost pending = inlines_view(text@);
    let ghost waiting = images_view(imgs@);
    let mut text = text;
    let mut imgs = imgs;
    let mut found: Vec<Image> = Vec::new();
    let mut rest: Vec<Inline> = Vec::new();
    assert(images_view(found@) =~= Seq::empty());
    strip_inline(inline, &mut found, &mut rest);
    assert(images_view(found@) =~= inline_images(x));
    assert(inlines_view(rest@) =~= stripped(x));
    let ghost ended = if has_real(stripped(x)) {
        image_block(waiting)
    } else {
        Seq::empty()
    };
    if any_real(&rest) {
        push_images(imgs, out);
        imgs = Vec::new();
        assert(images_view(imgs@) =~= Seq::empty());
    }
    assert(blocks_view(out@) =~= start + ended);
    text.append(&mut rest);
    assert(inlines_view(text@) =~= pending + stripped(x));
    assert(images_view(found@).len() == found@.len());
    if found.len() > 0 {
        push_real(text, out);
        text = Vec::new();
        assert((start + ended) + real_paragraph(pending + stripped(x)) =~= start + (ended
            + real_paragraph(pending + stripped(x))));
    } else {
        assert(ended + Seq::<SpecBlock>::empty() =~= ended);
    }
    imgs.append(&mut found);
    assert(images_view(imgs@) =~= step_images(x, waiting));
    (text, imgs)
}

/// Append what a paragraph becomes.
fn split_paragraph(inlines: Vec<Inline>, out: &mut Vec<Block>)
    ensures
        blocks_view(final(out)@) == blocks_view(old(out)@) + split_from(
            inlines_view(inlines@),
            0,
            Seq::empty(),
            Seq::empty(),
        ),
{
    broadcast use lemma_inlines_view;

    let ghost all = inlines_view(inlines@);
    let ghost goal = blocks_view(out@) + split_from(all, 0, Seq::empty(), Seq::empty());
    let mut text: Vec<Inline> = Vec::new();
    let mut imgs: Vec<Image> = Vec::new();
    assert(images_view(imgs@) =~= Seq::empty());
    for inline in it: inlines.into_iter()
        invariant
            all == inlines_view(it.seq()),
            blocks_view(out@) + split_from(
                all,
                it.index() as int,
                inlines_view(text@),
                images_view(imgs@),
            ) == goal,
    {
        broadcast use lemma_inlines_view;

        let ghost i = it.index() as int;
        let ghost start = blocks_view(out@);
        let ghost done = step_out(all[i], inlines_view(text@), images_view(imgs@));
        assert(all[i] == inline_view(inline));
        let (t, m) = split_step(inline, text, imgs, out);
        text = t;
        imgs = m;
        proof {
            let after = split_from(all, i + 1, inlines_view(text@), images_view(imgs@));
            assert((start + done) + after =~= start + (done + after));
        }
    }
    let ghost start = blocks_view(out@);
    let ghost waiting = images_view(imgs@);
    let ghost pending = inlines_view(text@);
    push_images(imgs, out);
    push_real(text, out);
    assert((start + image_block(waiting)) + real_paragraph(pending) =~= start + (image_block(
        waiting,
    ) + real_paragraph(pending)));
}

/// Take every image out of blocks: what is left, and the images in document
/// order.
pub fn strip_images(blocks: Vec<Block>) -> (r: (Vec<Block>, Vec<Image>))
    ensures
        blocks_view(r.0@) == kept(blocks_view(blocks@)),
        images_view(r.1@) == lifted(blocks_view(blocks@)),
    decreases blocks_view(blocks@),
{
    broadcast use {group_model_push, lemma_blocks_view};

    let ghost all = blocks_view(blocks@);
    let mut left: Vec<Block> = Vec::new();
    let mut imgs: Vec<Image> = Vec::new();
    assert(all.take(0) =~= Seq::empty());
    assert(images_view(imgs@) =~= Seq::empty());
    for block in it: blocks.into_iter()
        invariant
            all == blocks_view(it.seq()),
            all == blocks_view(blocks@),
            blocks_view(left@) == kept(all.take(it.index() as int)),
            images_view(imgs@) == lifted(all.take(it.index() as int)),
    {
        broadcast use {group_model_push, lemma_blocks_view};

        let ghost i = it.index() as int;
        let ghost had_left = blocks_view(left@);
        let ghost had = images_view(imgs@);
        let ghost b = block_view(block);
        assert(all[i] == b);
        assert(decreases_to!(all => all[i]));
        assert(all.take(i + 1).drop_last() =~= all.take(i));
        match block {
            Block::Image(img) => {
                imgs.push(img);
                assert(images_view(imgs@) =~= had + lifted_from(b));
            },
            Block::ImageGrid(grid) => {
                let mut grid = grid;
                imgs.append(&mut grid);
                assert(images_view(imgs@) =~= had + lifted_from(b));
            },
            Block::Paragraph(inlines) => {
                let text = strip_inlines(inlines, &mut imgs);
                push_real(text, &mut left);
            },
            Block::Heading { level, content } => {
                let (text, stays) = strip_span(content, &mut imgs);
                if stays {
                    left.push(Block::Heading { level, content: text });
                }
            },
            Block::Callout { emoji, tint, content } => {
                let (text, stays) = strip_span(content, &mut imgs);
                if stays {
                    left.push(Block::Callout { emoji, tint, content: text });
                }
            },
            Block::Table { head, rows } => {
                let head = strip_cells(head, &mut imgs);
                let rows = strip_rows(rows, &mut imgs);
                left.push(Block::Table { head, rows });
            },
            Block::Quote(inner) => {
                assert(decreases_to!(b => b->Quote_0));
                let (k, found) = strip_images(inner);
                let mut found = found;
                let ghost f = images_view(found@);
                imgs.append(&mut found);
                assert(images_view(imgs@) =~= had + f);
                if k.len() > 0 {
                    let ghost kv = blocks_view(k@);
                    left.push(Block::Quote(k));
                    assert(blocks_view(left@) =~= had_left + seq![SpecBlock::Quote(kv)]);
                }
            },
            Block::List { ordered, items } => {
                assert(decreases_to!(b => b->List_items));
                let (items, found) = strip_items(items);
                let mut found = found;
                let ghost f = images_view(found@);
                imgs.append(&mut found);
                assert(images_view(imgs@) =~= had + f);
                left.push(Block::List { ordered, items });
                assert(blocks_view(left@) =~= had_left + kept_from(b));
            },
            other => {
                left.push(other);
                assert(blocks_view(left@) =~= had_left + kept_from(b));
            },
        }
        assert(images_view(imgs@) =~= had + lifted_from(b));
        assert(blocks_view(left@) =~= had_left + kept_from(b));
    }
    assert(all.take(all.len() as int) =~= all);
    (left, imgs)
}

/// Take every image out of list items.
fn strip_items(items: Vec<Vec<Block>>) -> (r: (Vec<Vec<Block>>, Vec<Image>))
    ensures
        items_view(r.0@) == kept_items(items_view(items@)),
        images_view(r.1@) == lifted_items(items_view(items@)),
    decreases items_view(items@),
{
    broadcast use {group_model_push, lemma_items_view};

    let ghost all = items_view(items@);
    let mut left: Vec<Vec<Block>> = Vec::new();
    let mut imgs: Vec<Image> = Vec::new();
    assert(all.take(0) =~= Seq::empty());
    assert(images_view(imgs@) =~= Seq::empty());
    for item in it: items.into_iter()
        invariant
            all == items_view(it.seq()),
            all == items_view(items@),
            items_view(left@) == kept_items(all.take(it.index() as int)),
            images_view(imgs@) == lifted_items(all.take(it.index() as int)),
    {
        broadcast use {group_model_push, lemma_items_view};

        let ghost i = it.index() as int;
        let ghost had = images_view(imgs@);
        assert(all[i] == blocks_view(item@));
        assert(decreases_to!(all => all[i]));
        assert(all.take(i + 1).drop_last() =~= all.take(i));
        let (k, found) = strip_images(item);
        let mut found = found;
        let ghost f = images_view(found@);
        imgs.append(&mut found);
        assert(images_view(imgs@) =~= had + f);
        left.push(k);
    }
    assert(all.take(all.len() as int) =~= all);
    (left, imgs)
}

/// Lift every image to a top-level block, in document order.
pub fn hoist_images(blocks: Vec<Block>) -> (r: Vec<Block>)
    ensures
        blocks_view(r@) == hoisted(blocks_view(blocks@)),
{
    broadcast use {group_model_push, lemma_blocks_view};

    let ghost all = blocks_view(blocks@);
    let mut out: Vec<Block> = Vec::new();
    assert(all.take(0) =~= Seq::empty());
    for block in it: blocks.into_iter()
        invariant
            all == blocks_view(it.seq()),
            blocks_view(out@) == hoisted(all.take(it.index() as int)),
    {
        broadcast use {group_model_push, lemma_blocks_view, lemma_blocks_concat};

        let ghost i = it.index() as int;
        let ghost had = blocks_view(out@);
        let ghost b = block_view(block);
        assert(all[i] == b);
        assert(all.take(i + 1).drop_last() =~= all.take(i));
        match block {
            Block::Paragraph(inlines) => split_paragraph(inlines, &mut out),
            Block::Image(image) => {
                out.push(Block::Image(image));
                assert(blocks_view(out@) =~= had + seq![b]);
            },
            Block::ImageGrid(grid) => {
                out.push(Block::ImageGrid(grid));
                assert(blocks_view(out@) =~= had + seq![b]);
            },
            other => {
                let (k, imgs) = strip_images(one_block(other));
                proof {
                    lemma_lifted_one(b);
                    lemma_kept_one(b);
                }
                let mut k = k;
                out.append(&mut k);
                assert(blocks_view(out@) =~= had + kept_from(b));
                push_images(imgs, &mut out);
                assert((had + kept_from(b)) + image_block(lifted_from(b)) =~= had + (kept_from(b)
                    + image_block(lifted_from(b))));
            },
        }
    }
    assert(all.take(all.len() as int) =~= all);
    out
}

// --- What hoisting keeps ----------------------------------------------------------

/// What images a block has, it is.
pub open spec fn images_on_top(b: SpecBlock) -> bool {
    b is Image || b is ImageGrid || lifted_from(b).len() == 0
}

/// Every block of a list has its images on top.
pub open spec fn all_on_top(s: Seq<SpecBlock>) -> bool {
    forall|i: int| 0 <= i < s.len() ==> images_on_top(#[trigger] s[i])
}

proof fn lemma_lifted_concat(a: Seq<SpecBlock>, b: Seq<SpecBlock>)
    ensures
        lifted(a + b) == lifted(a) + lifted(b),
    decreases b.len(),
{
    if b.len() == 0 {
        assert(a + b =~= a);
        assert(lifted(a) + Seq::<SpecImage>::empty() =~= lifted(a));
    } else {
        lemma_lifted_concat(a, b.drop_last());
        assert((a + b).drop_last() =~= a + b.drop_last());
        assert((lifted(a) + lifted(b.drop_last())) + lifted_from(b.last()) =~= lifted(a) + (lifted(
            b.drop_last(),
        ) + lifted_from(b.last())));
    }
}

proof fn lemma_lifted_one(b: SpecBlock)
    ensures
        lifted(seq![b]) == lifted_from(b),
{
    assert(seq![b].drop_last() =~= Seq::<SpecBlock>::empty());
    assert(lifted(Seq::<SpecBlock>::empty()) =~= Seq::empty());
    assert(Seq::<SpecImage>::empty() + lifted_from(b) =~= lifted_from(b));
}

proof fn lemma_kept_one(b: SpecBlock)
    ensures
        kept(seq![b]) == kept_from(b),
{
    assert(seq![b].drop_last() =~= Seq::<SpecBlock>::empty());
    assert(kept(Seq::<SpecBlock>::empty()) =~= Seq::empty());
    assert(Seq::<SpecBlock>::empty() + kept_from(b) =~= kept_from(b));
}

proof fn lemma_images_concat(a: Seq<SpecInline>, b: Seq<SpecInline>)
    ensures
        images_in(a + b) == images_in(a) + images_in(b),
    decreases b.len(),
{
    if b.len() == 0 {
        assert(a + b =~= a);
        assert(images_in(a) + Seq::<SpecImage>::empty() =~= images_in(a));
    } else {
        lemma_images_concat(a, b.drop_last());
        assert((a + b).drop_last() =~= a + b.drop_last());
        assert(images_in(a + b) =~= images_in(a) + images_in(b));
    }
}

proof fn lemma_images_one(x: SpecInline)
    ensures
        images_in(seq![x]) == inline_images(x),
{
    assert(seq![x].drop_last() =~= Seq::<SpecInline>::empty());
    assert(images_in(Seq::<SpecInline>::empty()) =~= Seq::empty());
    assert(images_in(seq![x]) =~= inline_images(x));
}

proof fn lemma_stripped_has_none(x: SpecInline)
    ensures
        images_in(stripped(x)).len() == 0,
    decreases x,
{
    match x {
        SpecInline::Image(_) => {},
        SpecInline::Strong(c) => {
            lemma_stripped_all_has_none(c);
            lemma_images_one(respanned(x, stripped_all(c)));
        },
        SpecInline::Emphasis(c) => {
            lemma_stripped_all_has_none(c);
            lemma_images_one(respanned(x, stripped_all(c)));
        },
        SpecInline::Strike(c) => {
            lemma_stripped_all_has_none(c);
            lemma_images_one(respanned(x, stripped_all(c)));
        },
        SpecInline::Underline(c) => {
            lemma_stripped_all_has_none(c);
            lemma_images_one(respanned(x, stripped_all(c)));
        },
        SpecInline::Highlight(c) => {
            lemma_stripped_all_has_none(c);
            lemma_images_one(respanned(x, stripped_all(c)));
        },
        SpecInline::Link { href, content } => {
            lemma_stripped_all_has_none(content);
            lemma_images_one(respanned(x, stripped_all(content)));
        },
        other => lemma_images_one(other),
    }
}

proof fn lemma_stripped_all_has_none(s: Seq<SpecInline>)
    ensures
        images_in(stripped_all(s)).len() == 0,
    decreases s,
{
    if s.len() > 0 {
        lemma_stripped_all_has_none(s.drop_last());
        lemma_stripped_has_none(s.last());
        lemma_images_concat(stripped_all(s.drop_last()), stripped(s.last()));
    }
}

proof fn lemma_stripped_cells_have_none(s: Seq<Seq<SpecInline>>)
    ensures
        cell_images(stripped_cells(s)).len() == 0,
    decreases s.len(),
{
    if s.len() > 0 {
        lemma_stripped_cells_have_none(s.drop_last());
        lemma_stripped_all_has_none(s.last());
        let rest = stripped_cells(s.drop_last());
        assert(rest.push(stripped_all(s.last())).drop_last() =~= rest);
    }
}

proof fn lemma_stripped_rows_have_none(s: Seq<Seq<Seq<SpecInline>>>)
    ensures
        row_images(stripped_rows(s)).len() == 0,
    decreases s.len(),
{
    if s.len() > 0 {
        lemma_stripped_rows_have_none(s.drop_last());
        lemma_stripped_cells_have_none(s.last());
        let rest = stripped_rows(s.drop_last());
        assert(rest.push(stripped_cells(s.last())).drop_last() =~= rest);
    }
}

proof fn lemma_lifted_image_block(images: Seq<SpecImage>)
    ensures
        lifted(image_block(images)) == images,
        all_on_top(image_block(images)),
{
    if images.len() == 0 {
        assert(lifted(image_block(images)) =~= images);
    } else if images.len() == 1 {
        lemma_lifted_one(SpecBlock::Image(images[0]));
        assert(lifted(image_block(images)) =~= images);
    } else {
        lemma_lifted_one(SpecBlock::ImageGrid(images));
    }
}

proof fn lemma_lifted_paragraph(text: Seq<SpecInline>)
    requires
        images_in(text).len() == 0,
    ensures
        lifted(real_paragraph(text)) == Seq::<SpecImage>::empty(),
        all_on_top(real_paragraph(text)),
{
    if has_real(text) {
        lemma_lifted_one(SpecBlock::Paragraph(text));
        assert(images_in(text) =~= Seq::empty());
    }
}

proof fn lemma_kept_from_has_none(b: SpecBlock)
    ensures
        lifted(kept_from(b)) == Seq::<SpecImage>::empty(),
        all_on_top(kept_from(b)),
    decreases b,
{
    match b {
        SpecBlock::Paragraph(c) => {
            lemma_stripped_all_has_none(c);
            lemma_lifted_paragraph(stripped_all(c));
        },
        SpecBlock::Heading { level, content } => {
            lemma_stripped_all_has_none(content);
            lemma_lifted_one(SpecBlock::Heading { level, content: stripped_all(content) });
        },
        SpecBlock::Callout { emoji, tint, content } => {
            lemma_stripped_all_has_none(content);
            lemma_lifted_one(SpecBlock::Callout { emoji, tint, content: stripped_all(content) });
        },
        SpecBlock::Table { head, rows } => {
            lemma_stripped_cells_have_none(head);
            lemma_stripped_rows_have_none(rows);
            lemma_lifted_one(
                SpecBlock::Table { head: stripped_cells(head), rows: stripped_rows(rows) },
            );
        },
        SpecBlock::Quote(inner) => {
            lemma_kept_has_none(inner);
            if kept(inner).len() > 0 {
                lemma_lifted_one(SpecBlock::Quote(kept(inner)));
            }
        },
        SpecBlock::List { ordered, items } => {
            lemma_kept_items_have_none(items);
            lemma_lifted_one(SpecBlock::List { ordered, items: kept_items(items) });
        },
        SpecBlock::Image(_) => {},
        SpecBlock::ImageGrid(_) => {},
        other => {
            lemma_lifted_one(other);
        },
    }
    assert(lifted(kept_from(b)) =~= Seq::<SpecImage>::empty());
}

proof fn lemma_kept_has_none(s: Seq<SpecBlock>)
    ensures
        lifted(kept(s)) == Seq::<SpecImage>::empty(),
    decreases s,
{
    if s.len() > 0 {
        lemma_kept_has_none(s.drop_last());
        lemma_kept_from_has_none(s.last());
        lemma_lifted_concat(kept(s.drop_last()), kept_from(s.last()));
        assert(lifted(kept(s)) =~= Seq::<SpecImage>::empty());
    }
}

proof fn lemma_kept_items_have_none(s: Seq<Seq<SpecBlock>>)
    ensures
        lifted_items(kept_items(s)) == Seq::<SpecImage>::empty(),
    decreases s,
{
    if s.len() > 0 {
        lemma_kept_items_have_none(s.drop_last());
        lemma_kept_has_none(s.last());
        let rest = kept_items(s.drop_last());
        assert(rest.push(kept(s.last())).drop_last() =~= rest);
        assert(lifted_items(kept_items(s)) =~= Seq::<SpecImage>::empty());
    }
}

proof fn lemma_split_keeps(
    s: Seq<SpecInline>,
    i: int,
    text: Seq<SpecInline>,
    imgs: Seq<SpecImage>,
)
    requires
        0 <= i <= s.len(),
        images_in(text).len() == 0,
    ensures
        lifted(split_from(s, i, text, imgs)) == imgs + images_in(s.subrange(i, s.len() as int)),
        all_on_top(split_from(s, i, text, imgs)),
    decreases s.len() - i,
{
    lemma_lifted_image_block(imgs);
    lemma_lifted_paragraph(text);
    if i == s.len() {
        assert(s.subrange(i, s.len() as int) =~= Seq::empty());
        lemma_lifted_concat(image_block(imgs), real_paragraph(text));
        assert(images_in(Seq::<SpecInline>::empty()) =~= Seq::empty());
        assert(lifted(split_from(s, i, text, imgs)) =~= imgs + images_in(
            s.subrange(i, s.len() as int),
        ));
    } else {
        let rest = s.subrange(i + 1, s.len() as int);
        assert(s.subrange(i, s.len() as int) =~= seq![s[i]] + rest);
        lemma_images_concat(seq![s[i]], rest);
        lemma_images_one(s[i]);
        lemma_stripped_has_none(s[i]);
        let more = text + stripped(s[i]);
        lemma_images_concat(text, stripped(s[i]));
        lemma_lifted_paragraph(more);
        assert(images_in(Seq::<SpecInline>::empty()) =~= Seq::empty());
        let ended = if has_real(stripped(s[i])) {
            image_block(imgs)
        } else {
            Seq::empty()
        };
        let run = if inline_images(s[i]).len() == 0 {
            Seq::empty()
        } else {
            real_paragraph(more)
        };
        lemma_lifted_concat(ended, run);
        let done = step_out(s[i], text, imgs);
        assert(done == ended + run);
        assert(lifted(done) + step_images(s[i], imgs) =~= imgs + inline_images(s[i]));
        let (t, m) = (step_text(s[i], text), step_images(s[i], imgs));
        lemma_split_keeps(s, i + 1, t, m);
        lemma_lifted_concat(done, split_from(s, i + 1, t, m));
        assert(lifted(done) + (m + images_in(rest)) =~= imgs + (inline_images(s[i]) + images_in(
            rest,
        )));
    }
}

/// Hoisting loses no image, repeats none and keeps them in document order; afterwards
/// none is nested in another block, however deep.
pub proof fn law_hoisting_keeps_images_in_order(s: Seq<SpecBlock>)
    ensures
        lifted(hoisted(s)) == lifted(s),
        all_on_top(hoisted(s)),
    decreases s.len(),
{
    if s.len() > 0 {
        law_hoisting_keeps_images_in_order(s.drop_last());
        let b = s.last();
        lemma_lifted_concat(hoisted(s.drop_last()), hoisted_from(b));
        match b {
            SpecBlock::Paragraph(c) => {
                assert(images_in(Seq::<SpecInline>::empty()) =~= Seq::empty());
                lemma_split_keeps(c, 0, Seq::empty(), Seq::empty());
                assert(c.subrange(0, c.len() as int) =~= c);
                assert(Seq::<SpecImage>::empty() + images_in(c) =~= images_in(c));
            },
            SpecBlock::Image(_) => lemma_lifted_one(b),
            SpecBlock::ImageGrid(_) => lemma_lifted_one(b),
            other => {
                lemma_kept_from_has_none(other);
                lemma_lifted_image_block(lifted_from(other));
                lemma_lifted_concat(kept_from(other), image_block(lifted_from(other)));
                assert(Seq::<SpecImage>::empty() + lifted_from(other) =~= lifted_from(other));
            },
        }
        assert(lifted(hoisted_from(b)) == lifted_from(b));
    } else {
        assert(lifted(s) =~= Seq::empty());
        assert(lifted(hoisted(s)) =~= Seq::empty());
    }
}

/// The characters of a text other than white space.
pub open spec fn inked(t: Seq<char>) -> Seq<char>
    decreases t.len(),
{
    if t.len() == 0 {
        Seq::empty()
    } else if unicode_whitespace(t.last()) {
        inked(t.drop_last())
    } else {
        inked(t.drop_last()).push(t.last())
    }
}

/// What an inline shows as text, without white space.
pub open spec fn inline_ink(x: SpecInline) -> Seq<char>
    decreases x,
{
    match x {
        SpecInline::Text(t) => inked(t),
        SpecInline::Code(t) => inked(t),
        SpecInline::Strong(c) => ink_in(c),
        SpecInline::Emphasis(c) => ink_in(c),
        SpecInline::Strike(c) => ink_in(c),
        SpecInline::Underline(c) => ink_in(c),
        SpecInline::Highlight(c) => ink_in(c),
        SpecInline::Link { href, content } => ink_in(content),
        SpecInline::Image(_) => Seq::empty(),
        SpecInline::LineBreak => Seq::empty(),
    }
}

/// What inlines show as text, without white space.
pub open spec fn ink_in(s: Seq<SpecInline>) -> Seq<char>
    decreases s,
{
    if s.len() == 0 {
        Seq::empty()
    } else {
        ink_in(s.drop_last()) + inline_ink(s.last())
    }
}

/// What table cells show as text, without white space.
pub open spec fn cell_ink(s: Seq<Seq<SpecInline>>) -> Seq<char>
    decreases s.len(),
{
    if s.len() == 0 {
        Seq::empty()
    } else {
        cell_ink(s.drop_last()) + ink_in(s.last())
    }
}

/// What table rows show as text, without white space.
pub open spec fn row_ink(s: Seq<Seq<Seq<SpecInline>>>) -> Seq<char>
    decreases s.len(),
{
    if s.len() == 0 {
        Seq::empty()
    } else {
        row_ink(s.drop_last()) + cell_ink(s.last())
    }
}

/// What a block shows as text, without white space.
pub open spec fn block_ink(b: SpecBlock) -> Seq<char>
    decreases b,
{
    match b {
        SpecBlock::Paragraph(c) => ink_in(c),
        SpecBlock::Heading { level, content } => ink_in(content),
        SpecBlock::Callout { emoji, tint, content } => ink_in(content),
        SpecBlock::Table { head, rows } => cell_ink(head) + row_ink(rows),
        SpecBlock::Code { lang, text } => inked(text),
        SpecBlock::Quote(inner) => blocks_ink(inner),
        SpecBlock::List { ordered, items } => items_ink(items),
        _ => Seq::empty(),
    }
}

/// What blocks show as text, without white space.
pub open spec fn blocks_ink(s: Seq<SpecBlock>) -> Seq<char>
    decreases s,
{
    if s.len() == 0 {
        Seq::empty()
    } else {
        blocks_ink(s.drop_last()) + block_ink(s.last())
    }
}

/// What list items show as text, without white space.
pub open spec fn items_ink(s: Seq<Seq<SpecBlock>>) -> Seq<char>
    decreases s,
{
    if s.len() == 0 {
        Seq::empty()
    } else {
        items_ink(s.drop_last()) + blocks_ink(s.last())
    }
}

proof fn lemma_space_before(s: Seq<char>, i: int, k: int)
    requires
        0 <= i <= k < skip_space(s, i),
        i <= s.len(),
    ensures
        k < s.len(),
        unicode_whitespace(s[k]),
    decreases s.len() - i,
{
    if i < s.len() && unicode_whitespace(s[i]) && k > i {
        lemma_space_before(s, i + 1, k);
    }
}

proof fn lemma_ends_after(s: Seq<char>, lo: int, j: int)
    requires
        0 <= lo < j <= s.len(),
        !unicode_whitespace(s[lo]),
    ensures
        lo < skip_space_back(s, lo, j) <= j,
    decreases j,
{
    if unicode_whitespace(s[j - 1]) {
        lemma_ends_after(s, lo, j - 1);
    }
}

proof fn lemma_skip_space_stops(s: Seq<char>, i: int)
    requires
        0 <= i <= s.len(),
    ensures
        i <= skip_space(s, i) <= s.len(),
        skip_space(s, i) < s.len() ==> !unicode_whitespace(s[skip_space(s, i)]),
    decreases s.len() - i,
{
    if i < s.len() && unicode_whitespace(s[i]) {
        lemma_skip_space_stops(s, i + 1);
    }
}

proof fn lemma_blank_has_no_ink(t: Seq<char>, n: int)
    requires
        forall|k: int| 0 <= k < t.len() ==> unicode_whitespace(#[trigger] t[k]),
        0 <= n <= t.len(),
    ensures
        inked(t.take(n)) == Seq::<char>::empty(),
    decreases n,
{
    if n > 0 {
        lemma_blank_has_no_ink(t, n - 1);
        assert(t.take(n).drop_last() =~= t.take(n - 1));
        assert(t.take(n).last() == t[n - 1]);
    }
}

proof fn lemma_filler_has_no_ink(x: SpecInline)
    requires
        is_filler(x),
    ensures
        inline_ink(x) == Seq::<char>::empty(),
{
    if let SpecInline::Text(t) = x {
        lemma_skip_space_stops(t, 0);
        let lo = skip_space(t, 0);
        if lo < t.len() {
            lemma_ends_after(t, lo, t.len() as int);
        }
        assert forall|k: int| 0 <= k < t.len() implies unicode_whitespace(#[trigger] t[k]) by {
            lemma_space_before(t, 0, k);
        }
        lemma_blank_has_no_ink(t, t.len() as int);
        assert(t.take(t.len() as int) =~= t);
    }
}

proof fn lemma_no_real_no_ink(s: Seq<SpecInline>)
    requires
        !has_real(s),
    ensures
        ink_in(s) == Seq::<char>::empty(),
    decreases s.len(),
{
    if s.len() > 0 {
        assert(is_filler(s[s.len() - 1]));
        lemma_filler_has_no_ink(s.last());
        assert forall|i: int| 0 <= i < s.len() - 1 implies is_filler(
            #[trigger] s.drop_last()[i],
        ) by {
            assert(is_filler(s[i]));
        }
        lemma_no_real_no_ink(s.drop_last());
        assert(ink_in(s) =~= Seq::<char>::empty());
    }
}

proof fn lemma_ink_concat(a: Seq<SpecInline>, b: Seq<SpecInline>)
    ensures
        ink_in(a + b) == ink_in(a) + ink_in(b),
    decreases b.len(),
{
    if b.len() == 0 {
        assert(a + b =~= a);
        assert(ink_in(a) + Seq::<char>::empty() =~= ink_in(a));
    } else {
        lemma_ink_concat(a, b.drop_last());
        assert((a + b).drop_last() =~= a + b.drop_last());
        assert(ink_in(a + b) =~= ink_in(a) + ink_in(b));
    }
}

proof fn lemma_ink_one(x: SpecInline)
    ensures
        ink_in(seq![x]) == inline_ink(x),
{
    assert(seq![x].drop_last() =~= Seq::<SpecInline>::empty());
    assert(ink_in(Seq::<SpecInline>::empty()) =~= Seq::empty());
    assert(ink_in(seq![x]) =~= inline_ink(x));
}

proof fn lemma_stripped_ink(x: SpecInline)
    ensures
        ink_in(stripped(x)) == inline_ink(x),
    decreases x,
{
    match x {
        SpecInline::Image(_) => {},
        SpecInline::Strong(c) => {
            lemma_stripped_all_ink(c);
            lemma_ink_one(respanned(x, stripped_all(c)));
        },
        SpecInline::Emphasis(c) => {
            lemma_stripped_all_ink(c);
            lemma_ink_one(respanned(x, stripped_all(c)));
        },
        SpecInline::Strike(c) => {
            lemma_stripped_all_ink(c);
            lemma_ink_one(respanned(x, stripped_all(c)));
        },
        SpecInline::Underline(c) => {
            lemma_stripped_all_ink(c);
            lemma_ink_one(respanned(x, stripped_all(c)));
        },
        SpecInline::Highlight(c) => {
            lemma_stripped_all_ink(c);
            lemma_ink_one(respanned(x, stripped_all(c)));
        },
        SpecInline::Link { href, content } => {
            lemma_stripped_all_ink(content);
            lemma_ink_one(respanned(x, stripped_all(content)));
        },
        other => lemma_ink_one(other),
    }
}

proof fn lemma_stripped_all_ink(s: Seq<SpecInline>)
    ensures
        ink_in(stripped_all(s)) == ink_in(s),
    decreases s,
{
    if s.len() > 0 {
        lemma_stripped_all_ink(s.drop_last());
        lemma_stripped_ink(s.last());
        lemma_ink_concat(stripped_all(s.drop_last()), stripped(s.last()));
    }
}

proof fn lemma_stripped_cells_ink(s: Seq<Seq<SpecInline>>)
    ensures
        cell_ink(stripped_cells(s)) == cell_ink(s),
    decreases s.len(),
{
    if s.len() > 0 {
        lemma_stripped_cells_ink(s.drop_last());
        lemma_stripped_all_ink(s.last());
        let rest = stripped_cells(s.drop_last());
        assert(rest.push(stripped_all(s.last())).drop_last() =~= rest);
    }
}

proof fn lemma_stripped_rows_ink(s: Seq<Seq<Seq<SpecInline>>>)
    ensures
        row_ink(stripped_rows(s)) == row_ink(s),
    decreases s.len(),
{
    if s.len() > 0 {
        lemma_stripped_rows_ink(s.drop_last());
        lemma_stripped_cells_ink(s.last());
        let rest = stripped_rows(s.drop_last());
        assert(rest.push(stripped_cells(s.last())).drop_last() =~= rest);
    }
}

proof fn lemma_blocks_ink_concat(a: Seq<SpecBlock>, b: Seq<SpecBlock>)
    ensures
        blocks_ink(a + b) == blocks_ink(a) + blocks_ink(b),
    decreases b.len(),
{
    if b.len() == 0 {
        assert(a + b =~= a);
        assert(blocks_ink(a) + Seq::<char>::empty() =~= blocks_ink(a));
    } else {
        lemma_blocks_ink_concat(a, b.drop_last());
        assert((a + b).drop_last() =~= a + b.drop_last());
        assert(blocks_ink(a + b) =~= blocks_ink(a) + blocks_ink(b));
    }
}

proof fn lemma_blocks_ink_one(b: SpecBlock)
    ensures
        blocks_ink(seq![b]) == block_ink(b),
{
    assert(seq![b].drop_last() =~= Seq::<SpecBlock>::empty());
    assert(blocks_ink(Seq::<SpecBlock>::empty()) =~= Seq::empty());
    assert(blocks_ink(seq![b]) =~= block_ink(b));
}

proof fn lemma_image_block_has_no_ink(images: Seq<SpecImage>)
    ensures
        blocks_ink(image_block(images)) == Seq::<char>::empty(),
{
    if images.len() == 1 {
        lemma_blocks_ink_one(SpecBlock::Image(images[0]));
    } else if images.len() > 1 {
        lemma_blocks_ink_one(SpecBlock::ImageGrid(images));
    }
}

proof fn lemma_paragraph_ink(text: Seq<SpecInline>)
    ensures
        blocks_ink(real_paragraph(text)) == ink_in(text),
{
    if has_real(text) {
        lemma_blocks_ink_one(SpecBlock::Paragraph(text));
    } else {
        lemma_no_real_no_ink(text);
    }
}

proof fn lemma_kept_from_ink(b: SpecBlock)
    ensures
        blocks_ink(kept_from(b)) == block_ink(b),
    decreases b,
{
    match b {
        SpecBlock::Paragraph(c) => {
            lemma_stripped_all_ink(c);
            lemma_paragraph_ink(stripped_all(c));
        },
        SpecBlock::Heading { level, content } => {
            let rest = stripped_all(content);
            lemma_stripped_all_ink(content);
            lemma_blocks_ink_one(SpecBlock::Heading { level, content: rest });
            if !has_real(rest) {
                lemma_no_real_no_ink(rest);
            }
        },
        SpecBlock::Callout { emoji, tint, content } => {
            let rest = stripped_all(content);
            lemma_stripped_all_ink(content);
            lemma_blocks_ink_one(SpecBlock::Callout { emoji, tint, content: rest });
            if !has_real(rest) {
                lemma_no_real_no_ink(rest);
            }
        },
        SpecBlock::Table { head, rows } => {
            lemma_stripped_cells_ink(head);
            lemma_stripped_rows_ink(rows);
            lemma_blocks_ink_one(
                SpecBlock::Table { head: stripped_cells(head), rows: stripped_rows(rows) },
            );
        },
        SpecBlock::Quote(inner) => {
            lemma_kept_ink(inner);
            lemma_blocks_ink_one(SpecBlock::Quote(kept(inner)));
        },
        SpecBlock::List { ordered, items } => {
            lemma_kept_items_ink(items);
            lemma_blocks_ink_one(SpecBlock::List { ordered, items: kept_items(items) });
        },
        SpecBlock::Image(_) => {},
        SpecBlock::ImageGrid(_) => {},
        other => {
            lemma_blocks_ink_one(other);
        },
    }
}

proof fn lemma_kept_ink(s: Seq<SpecBlock>)
    ensures
        blocks_ink(kept(s)) == blocks_ink(s),
    decreases s,
{
    if s.len() > 0 {
        lemma_kept_ink(s.drop_last());
        lemma_kept_from_ink(s.last());
        lemma_blocks_ink_concat(kept(s.drop_last()), kept_from(s.last()));
    }
}

proof fn lemma_kept_items_ink(s: Seq<Seq<SpecBlock>>)
    ensures
        items_ink(kept_items(s)) == items_ink(s),
    decreases s,
{
    if s.len() > 0 {
        lemma_kept_items_ink(s.drop_last());
        lemma_kept_ink(s.last());
        let rest = kept_items(s.drop_last());
        assert(rest.push(kept(s.last())).drop_last() =~= rest);
    }
}

proof fn lemma_split_ink(
    s: Seq<SpecInline>,
    i: int,
    text: Seq<SpecInline>,
    imgs: Seq<SpecImage>,
)
    requires
        0 <= i <= s.len(),
    ensures
        blocks_ink(split_from(s, i, text, imgs)) == ink_in(text) + ink_in(
            s.subrange(i, s.len() as int),
        ),
    decreases s.len() - i,
{
    lemma_image_block_has_no_ink(imgs);
    if i == s.len() {
        assert(s.subrange(i, s.len() as int) =~= Seq::empty());
        lemma_paragraph_ink(text);
        lemma_blocks_ink_concat(image_block(imgs), real_paragraph(text));
        assert(blocks_ink(split_from(s, i, text, imgs)) =~= ink_in(text) + ink_in(
            s.subrange(i, s.len() as int),
        ));
    } else {
        let rest = s.subrange(i + 1, s.len() as int);
        assert(s.subrange(i, s.len() as int) =~= seq![s[i]] + rest);
        lemma_ink_concat(seq![s[i]], rest);
        lemma_ink_one(s[i]);
        lemma_stripped_ink(s[i]);
        let more = text + stripped(s[i]);
        lemma_ink_concat(text, stripped(s[i]));
        lemma_paragraph_ink(more);
        let ended = if has_real(stripped(s[i])) {
            image_block(imgs)
        } else {
            Seq::empty()
        };
        let run = if inline_images(s[i]).len() == 0 {
            Seq::empty()
        } else {
            real_paragraph(more)
        };
        lemma_blocks_ink_concat(ended, run);
        let done = step_out(s[i], text, imgs);
        assert(done == ended + run);
        let (t, m) = (step_text(s[i], text), step_images(s[i], imgs));
        assert(blocks_ink(done) + ink_in(t) =~= ink_in(text) + inline_ink(s[i]));
        lemma_split_ink(s, i + 1, t, m);
        lemma_blocks_ink_concat(done, split_from(s, i + 1, t, m));
        assert(blocks_ink(done) + (ink_in(t) + ink_in(rest)) =~= ink_in(text) + (inline_ink(s[i])
            + ink_in(rest)));
    }
}

/// Hoisting keeps all text that is not white space, in order.
pub proof fn law_hoisting_keeps_text_in_order(s: Seq<SpecBlock>)
    ensures
        blocks_ink(hoisted(s)) == blocks_ink(s),
    decreases s.len(),
{
    if s.len() > 0 {
        law_hoisting_keeps_text_in_order(s.drop_last());
        let b = s.last();
        lemma_blocks_ink_concat(hoisted(s.drop_last()), hoisted_from(b));
        match b {
            SpecBlock::Paragraph(c) => {
                lemma_split_ink(c, 0, Seq::empty(), Seq::empty());
                assert(c.subrange(0, c.len() as int) =~= c);
                assert(Seq::<char>::empty() + ink_in(c) =~= ink_in(c));
            },
            SpecBlock::Image(_) => lemma_blocks_ink_one(b),
            SpecBlock::ImageGrid(_) => lemma_blocks_ink_one(b),
            other => {
                lemma_kept_from_ink(other);
                lemma_image_block_has_no_ink(lifted_from(other));
                lemma_blocks_ink_concat(kept_from(other), image_block(lifted_from(other)));
                assert(block_ink(other) + Seq::<char>::empty() =~= block_ink(other));
            },
        }
        assert(blocks_ink(hoisted_from(b)) == block_ink(b));
    }
}

} // verus!
