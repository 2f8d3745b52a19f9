//! What the reader picks out of a document: its links and its images, in reading order.
use vstd::prelude::*;

use crate::model::{
    block_view, blocks_view, images_view, inline_view, inlines_view, items_view,
    lemma_blocks_view, lemma_inlines_view, lemma_items_view, Block, Image, ImageSource, Inline,
    SpecBlock, SpecImage, SpecImageSource, SpecInline,
};
use crate::text::{lemma_strings_view_push, strings_view};

verus! {

/// The key of an image: the blob's CID, or the URL.
pub open spec fn source_key(s: SpecImageSource) -> Seq<char> {
    match s {
        SpecImageSource::Blob { did: _, cid } => cid,
        SpecImageSource::Url(url) => url,
    }
}

/// The key of an image: the blob's CID, or the URL.
pub fn image_key(source: &ImageSource) -> (r: String)
    ensures
        r@ == source_key(source@),
{
    match source {
        ImageSource::Blob { did: _, cid } => cid.clone(),
        ImageSource::Url(url) => url.clone(),
    }
}

// --- Links ------------------------------------------------------------------------

/// The links of an inline: its own, then those inside it.
pub open spec fn inline_link(x: SpecInline) -> Seq<Seq<char>>
    decreases x,
{
    match x {
        SpecInline::Link { href, content } => seq![href] + inline_links(content),
        SpecInline::Strong(c) => inline_links(c),
        SpecInline::Emphasis(c) => inline_links(c),
        SpecInline::Strike(c) => inline_links(c),
        SpecInline::Underline(c) => inline_links(c),
        SpecInline::Highlight(c) => inline_links(c),
        _ => Seq::empty(),
    }
}

/// The links of inlines, in order.
pub open spec fn inline_links(s: Seq<SpecInline>) -> Seq<Seq<char>>
    decreases s,
{
    if s.len() == 0 {
        Seq::empty()
    } else {
        inline_links(s.drop_last()) + inline_link(s.last())
    }
}

/// The links of a block. A table is drawn as plain text, so it has none.
pub open spec fn block_link(b: SpecBlock) -> Seq<Seq<char>>
    decreases b,
{
    match b {
        SpecBlock::Paragraph(c) => inline_links(c),
        SpecBlock::Heading { level: _, content } => inline_links(content),
        SpecBlock::Callout { emoji: _, tint: _, content } => inline_links(content),
        SpecBlock::Quote(inner) => block_links(inner),
        SpecBlock::List { ordered: _, items } => item_links(items),
        _ => Seq::empty(),
    }
}

/// The links of blocks, in order.
pub open spec fn block_links(s: Seq<SpecBlock>) -> Seq<Seq<char>>
    decreases s,
{
    if s.len() == 0 {
        Seq::empty()
    } else {
        block_links(s.drop_last()) + block_link(s.last())
    }
}

/// The links of list items, in order.
pub open spec fn item_links(s: Seq<Seq<SpecBlock>>) -> Seq<Seq<char>>
    decreases s,
{
    if s.len() == 0 {
        Seq::empty()
    } else {
        item_links(s.drop_last()) + block_links(s.last())
    }
}

fn collect_inline_link(x: &Inline, out: &mut Vec<String>)
    ensures
        strings_view(final(out)@) == strings_view(old(out)@) + inline_link(inline_view(*x)),
    decreases x,
{
    let ghost start = strings_view(out@);
    match x {
        Inline::Link { href, content } => {
            let h = href.clone();
            proof {
                lemma_strings_view_push(out@, h);
            }
            out.push(h);
            collect_inline_links(content, out);
            assert(strings_view(out@) =~= start + inline_link(inline_view(*x)));
        },
        Inline::Strong(c) => collect_inline_links(c, out),
        Inline::Emphasis(c) => collect_inline_links(c, out),
        Inline::Strike(c) => collect_inline_links(c, out),
        Inline::Underline(c) => collect_inline_links(c, out),
        Inline::Highlight(c) => collect_inline_links(c, out),
        _ => {
            assert(start + Seq::<Seq<char>>::empty() =~= start);
        },
    }
}

/// Append the links of inlines, in order.
pub fn collect_inline_links(inlines: &Vec<Inline>, out: &mut Vec<String>)
    ensures
        strings_view(final(out)@) == strings_view(old(out)@) + inline_links(
            inlines_view(inlines@),
        ),
    decreases inlines,
{
    let ghost all = inlines_view(inlines@);
    let ghost start = strings_view(out@);
    let mut i: usize = 0;
    assert(all.take(0) =~= Seq::empty());
    assert(start + Seq::<Seq<char>>::empty() =~= start);
    while i < inlines.len()
        invariant
            i <= inlines@.len(),
            all == inlines_view(inlines@),
            strings_view(out@) == start + inline_links(all.take(i as int)),
        decreases inlines@.len() - i,
    {
        broadcast use lemma_inlines_view;

        collect_inline_link(&inlines[i], out);
        proof {
            assert(all.take(i + 1).drop_last() =~= all.take(i as int));
            assert(strings_view(out@) =~= start + inline_links(all.take(i + 1)));
        }
        i = i + 1;
    }
    proof {
        broadcast use lemma_inlines_view;

        assert(all.take(all.len() as int) =~= all);
    }
}

fn collect_block_link(b: &Block, out: &mut Vec<String>)
    ensures
        strings_view(final(out)@) == strings_view(old(out)@) + block_link(block_view(*b)),
    decreases b,
{
    let ghost start = strings_view(out@);
    match b {
        Block::Paragraph(c) => collect_inline_links(c, out),
        Block::Heading { level: _, content } => collect_inline_links(content, out),
        Block::Callout { emoji: _, tint: _, content } => collect_inline_links(content, out),
        Block::Quote(inner) => collect_links(inner, out),
        Block::List { ordered: _, items } => collect_item_links(items, out),
        _ => {
            assert(start + Seq::<Seq<char>>::empty() =~= start);
        },
    }
}

/// Append the links of blocks, in reading order: what the reader steps through.
pub fn collect_links(blocks: &Vec<Block>, out: &mut Vec<String>)
    ensures
        strings_view(final(out)@) == strings_view(old(out)@) + block_links(blocks_view(blocks@)),
    decreases blocks,
{
    let ghost all = blocks_view(blocks@);
    let ghost start = strings_view(out@);
    let mut i: usize = 0;
    assert(all.take(0) =~= Seq::empty());
    assert(start + Seq::<Seq<char>>::empty() =~= start);
    while i < blocks.len()
        invariant
            i <= blocks@.len(),
            all == blocks_view(blocks@),
            strings_view(out@) == start + block_links(all.take(i as int)),
        decreases blocks@.len() - i,
    {
        broadcast use lemma_blocks_view;

        collect_block_link(&blocks[i], out);
        proof {
            assert(all.take(i + 1).drop_last() =~= all.take(i as int));
            assert(strings_view(out@) =~= start + block_links(all.take(i + 1)));
        }
        i = i + 1;
    }
    proof {
        broadcast use lemma_blocks_view;

        assert(all.take(all.len() as int) =~= all);
    }
}

fn collect_item_links(items: &Vec<Vec<Block>>, out: &mut Vec<String>)
    ensures
        strings_view(final(out)@) == strings_view(old(out)@) + item_links(items_view(items@)),
    decreases items,
{
    let ghost all = items_view(items@);
    let ghost start = strings_view(out@);
    let mut i: usize = 0;
    assert(all.take(0) =~= Seq::empty());
    assert(start + Seq::<Seq<char>>::empty() =~= start);
    while i < items.len()
        invariant
            i <= items@.len(),
            all == items_view(items@),
            strings_view(out@) == start + item_links(all.take(i as int)),
        decreases items@.len() - i,
    {
        broadcast use lemma_items_view;

        collect_links(&items[i], out);
        proof {
            assert(all.take(i + 1).drop_last() =~= all.take(i as int));
            assert(strings_view(out@) =~= start + item_links(all.take(i + 1)));
        }
        i = i + 1;
    }
    proof {
        broadcast use lemma_items_view;

        assert(all.take(all.len() as int) =~= all);
    }
}

// --- Images -----------------------------------------------------------------------

/// Sources by their views.
pub open spec fn sources_view(s: Seq<ImageSource>) -> Seq<SpecImageSource> {
    s.map_values(|x: ImageSource| x@)
}

/// Where images come from.
pub open spec fn sources_of(s: Seq<SpecImage>) -> Seq<SpecImageSource> {
    s.map_values(|i: SpecImage| i.source)
}

/// The images of an inline.
pub open spec fn inline_image(x: SpecInline) -> Seq<SpecImageSource>
    decreases x,
{
    match x {
        SpecInline::Image(i) => seq![i.source],
        SpecInline::Strong(c) => inline_images(c),
        SpecInline::Emphasis(c) => inline_images(c),
        SpecInline::Strike(c) => inline_images(c),
        SpecInline::Underline(c) => inline_images(c),
        SpecInline::Highlight(c) => inline_images(c),
        SpecInline::Link { href: _, content } => inline_images(content),
        _ => Seq::empty(),
    }
}

/// The images of inlines, in order.
pub open spec fn inline_images(s: Seq<SpecInline>) -> Seq<SpecImageSource>
    decreases s,
{
    if s.len() == 0 {
        Seq::empty()
    } else {
        inline_images(s.drop_last()) + inline_image(s.last())
    }
}

/// The images of a block, those inside quotes, lists and text as well.
pub open spec fn block_image(b: SpecBlock) -> Seq<SpecImageSource>
    decreases b,
{
    match b {
        SpecBlock::Image(i) => seq![i.source],
        SpecBlock::ImageGrid(g) => sources_of(g),
        SpecBlock::Quote(inner) => block_images(inner),
        SpecBlock::List { ordered: _, items } => item_images(items),
        SpecBlock::Paragraph(c) => inline_images(c),
        SpecBlock::Heading { level: _, content } => inline_images(content),
        SpecBlock::Callout { emoji: _, tint: _, content } => inline_images(content),
        _ => Seq::empty(),
    }
}

/// The images of blocks, in order.
pub open spec fn block_images(s: Seq<SpecBlock>) -> Seq<SpecImageSource>
    decreases s,
{
    if s.len() == 0 {
        Seq::empty()
    } else {
        block_images(s.drop_last()) + block_image(s.last())
    }
}

/// The images of list items, in order.
pub open spec fn item_images(s: Seq<Seq<SpecBlock>>) -> Seq<SpecImageSource>
    decreases s,
{
    if s.len() == 0 {
        Seq::empty()
    } else {
        item_images(s.drop_last()) + block_images(s.last())
    }
}

fn push_source(out: &mut Vec<ImageSource>, x: ImageSource)
    ensures
        sources_view(final(out)@) == sources_view(old(out)@) + seq![x@],
{
    let ghost before = out@;
    out.push(x);
    assert(sources_view(before.push(x)) =~= sources_view(before) + seq![x@]);
}

fn collect_grid(images: &Vec<Image>, out: &mut Vec<ImageSource>)
    ensures
        sources_view(final(out)@) == sources_view(old(out)@) + sources_of(images_view(images@)),
{
    let ghost all = sources_of(images_view(images@));
    let ghost start = sources_view(out@);
    let mut i: usize = 0;
    assert(start + all.take(0) =~= start);
    while i < images.len()
        invariant
            i <= images@.len(),
            all == sources_of(images_view(images@)),
            sources_view(out@) == start + all.take(i as int),
        decreases images@.len() - i,
    {
        push_source(out, images[i].source.clone());
        assert(start + all.take(i as int) + seq![images@[i as int].source@] =~= start + all.take(
            i + 1,
        ));
        i = i + 1;
    }
    assert(all.take(all.len() as int) =~= all);
}

fn collect_inline_image(x: &Inline, out: &mut Vec<ImageSource>)
    ensures
        sources_view(final(out)@) == sources_view(old(out)@) + inline_image(inline_view(*x)),
    decreases x,
{
    let ghost start = sources_view(out@);
    match x {
        Inline::Image(img) => push_source(out, img.source.clone()),
        Inline::Strong(c) => collect_inline_images(c, out),
        Inline::Emphasis(c) => collect_inline_images(c, out),
        Inline::Strike(c) => collect_inline_images(c, out),
        Inline::Underline(c) => collect_inline_images(c, out),
        Inline::Highlight(c) => collect_inline_images(c, out),
        Inline::Link { href: _, content } => collect_inline_images(content, out),
        _ => {
            assert(start + Seq::<SpecImageSource>::empty() =~= start);
        },
    }
}

/// Append the images of inlines, in order.
pub fn collect_inline_images(inlines: &Vec<Inline>, out: &mut Vec<ImageSource>)
    ensures
        sources_view(final(out)@) == sources_view(old(out)@) + inline_images(
            inlines_view(inlines@),
        ),
    decreases inlines,
{
    let ghost all = inlines_view(inlines@);
    let ghost start = sources_view(out@);
    let mut i: usize = 0;
    assert(all.take(0) =~= Seq::empty());
    assert(start + Seq::<SpecImageSource>::empty() =~= start);
    while i < inlines.len()
        invariant
            i <= inlines@.len(),
            all == inlines_view(inlines@),
            sources_view(out@) == start + inline_images(all.take(i as int)),
        decreases inlines@.len() - i,
    {
        broadcast use lemma_inlines_view;

        collect_inline_image(&inlines[i], out);
        proof {
            assert(all.take(i + 1).drop_last() =~= all.take(i as int));
            assert(sources_view(out@) =~= start + inline_images(all.take(i + 1)));
        }
        i = i + 1;
    }
    proof {
        broadcast use lemma_inlines_view;

        assert(all.take(all.len() as int) =~= all);
    }
}

fn collect_block_image(b: &Block, out: &mut Vec<ImageSource>)
    ensures
        sources_view(final(out)@) == sources_view(old(out)@) + block_image(block_view(*b)),
    decreases b,
{
    let ghost start = sources_view(out@);
    match b {
        Block::Image(img) => push_source(out, img.source.clone()),
        Block::ImageGrid(images) => collect_grid(images, out),
        Block::Quote(inner) => collect_image_sources(inner, out),
        Block::List { ordered: _, items } => collect_item_images(items, out),
        Block::Paragraph(c) => collect_inline_images(c, out),
        Block::Heading { level: _, content } => collect_inline_images(content, out),
        Block::Callout { emoji: _, tint: _, content } => collect_inline_images(content, out),
        _ => {
            assert(start + Seq::<SpecImageSource>::empty() =~= start);
        },
    }
}

/// Append every image source of blocks, in document order.
pub fn collect_image_sources(blocks: &Vec<Block>, out: &mut Vec<ImageSource>)
    ensures
        sources_view(final(out)@) == sources_view(old(out)@) + block_images(
            blocks_view(blocks@),
        ),
    decreases blocks,
{
    let ghost all = blocks_view(blocks@);
    let ghost start = sources_view(out@);
    let mut i: usize = 0;
    assert(all.take(0) =~= Seq::empty());
    assert(start + Seq::<SpecImageSource>::empty() =~= start);
    while i < blocks.len()
        invariant
            i <= blocks@.len(),
            all == blocks_view(blocks@),
            sources_view(out@) == start + block_images(all.take(i as int)),
        decreases blocks@.len() - i,
    {
        broadcast use lemma_blocks_view;

        collect_block_image(&blocks[i], out);
        proof {
            assert(all.take(i + 1).drop_last() =~= all.take(i as int));
            assert(sources_view(out@) =~= start + block_images(all.take(i + 1)));
        }
        i = i + 1;
    }
    proof {
        broadcast use lemma_blocks_view;

        assert(all.take(all.len() as int) =~= all);
    }
}

fn collect_item_images(items: &Vec<Vec<Block>>, out: &mut Vec<ImageSource>)
    ensures
        sources_view(final(out)@) == sources_view(old(out)@) + item_images(items_view(items@)),
    decreases items,
{
    let ghost all = items_view(items@);
    let ghost start = sources_view(out@);
    let mut i: usize = 0;
    assert(all.take(0) =~= Seq::empty());
    assert(start + Seq::<SpecImageSource>::empty() =~= start);
    while i < items.len()
        invariant
            i <= items@.len(),
            all == items_view(items@),
            sources_view(out@) == start + item_images(all.take(i as int)),
        decreases items@.len() - i,
    {
        broadcast use lemma_items_view;

        collect_image_sources(&items[i], out);
        proof {
            assert(all.take(i + 1).drop_last() =~= all.take(i as int));
            assert(sources_view(out@) =~= start + item_images(all.take(i + 1)));
        }
        i = i + 1;
    }
    proof {
        broadcast use lemma_items_view;

        assert(all.take(all.len() as int) =~= all);
    }
}

} // verus!
