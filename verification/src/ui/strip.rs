//! Images inside quotes and lists: finding them, and taking them out, so that the text
//! and the images of such a block can be laid out apart.
use vstd::prelude::*;

use crate::model::{
    block_view, blocks_view, copy_block, copy_inline, images_view, inline_view, inlines_view,
    items_view, lemma_blocks_push, lemma_blocks_view, lemma_images_push, lemma_inlines_push,
    lemma_inlines_view, lemma_items_push, lemma_items_view, Block, Image, Inline, SpecBlock,
    SpecImage, SpecInline,
};
use crate::text::{chars_of, trim, trimmed};

verus! {

// --- Finding images ---------------------------------------------------------------

/// One of some inlines is an image. Those inside other inlines do not count.
pub open spec fn any_image(s: Seq<SpecInline>) -> bool {
    exists|i: int| 0 <= i < s.len() && #[trigger] s[i] is Image
}

/// A block holds an image: it is one, or its inlines or the blocks inside it hold one.
pub open spec fn holds_image(b: SpecBlock) -> bool
    decreases b,
{
    match b {
        SpecBlock::Image(_) => true,
        SpecBlock::ImageGrid(_) => true,
        SpecBlock::Paragraph(c) => any_image(c),
        SpecBlock::Heading { level: _, content } => any_image(content),
        SpecBlock::Quote(inner) => any_holds_image(inner),
        SpecBlock::List { ordered: _, items } => any_item_holds_image(items),
        _ => false,
    }
}

/// One of some blocks holds an image.
pub open spec fn any_holds_image(s: Seq<SpecBlock>) -> bool
    decreases s,
{
    s.len() > 0 && (any_holds_image(s.drop_last()) || holds_image(s.last()))
}

/// One of some items holds an image.
pub open spec fn any_item_holds_image(s: Seq<Seq<SpecBlock>>) -> bool
    decreases s,
{
    s.len() > 0 && (any_item_holds_image(s.drop_last()) || any_holds_image(s.last()))
}

fn has_image(v: &Vec<Inline>) -> (r: bool)
    ensures
        r == any_image(inlines_view(v@)),
{
    broadcast use lemma_inlines_view;

    let mut i: usize = 0;
    while i < v.len()
        invariant
            i <= v@.len(),
            forall|k: int| 0 <= k < i ==> !(#[trigger] inlines_view(v@)[k] is Image),
        decreases v@.len() - i,
    {
        broadcast use lemma_inlines_view;

        assert(inlines_view(v@)[i as int] == inline_view(v@[i as int]));
        if let Inline::Image(_) = &v[i] {
            return true;
        }
        i = i + 1;
    }
    false
}

/// Whether a block holds an image.
pub fn contains_image(block: &Block) -> (r: bool)
    ensures
        r == holds_image(block_view(*block)),
    decreases block,
{
    match block {
        Block::Image(_) => true,
        Block::ImageGrid(_) => true,
        Block::Paragraph(c) => has_image(c),
        Block::Heading { level: _, content } => has_image(content),
        Block::Quote(inner) => some_contains_image(inner),
        Block::List { ordered: _, items } => item_contains_image(items),
        _ => false,
    }
}

fn some_contains_image(v: &Vec<Block>) -> (r: bool)
    ensures
        r == any_holds_image(blocks_view(v@)),
    decreases v,
{
    let ghost all = blocks_view(v@);
    let mut found: bool = false;
    let mut i: usize = 0;
    assert(all.take(0) =~= Seq::empty());
    while i < v.len()
        invariant
            i <= v@.len(),
            all == blocks_view(v@),
            found == any_holds_image(all.take(i as int)),
        decreases v@.len() - i,
    {
        broadcast use lemma_blocks_view;

        if contains_image(&v[i]) {
            found = true;
        }
        assert(all.take(i + 1).drop_last() =~= all.take(i as int));
        i = i + 1;
    }
    proof {
        broadcast use lemma_blocks_view;

        assert(all.take(all.len() as int) =~= all);
    }
    found
}

fn item_contains_image(v: &Vec<Vec<Block>>) -> (r: bool)
    ensures
        r == any_item_holds_image(items_view(v@)),
    decreases v,
{
    let ghost all = items_view(v@);
    let mut found: bool = false;
    let mut i: usize = 0;
    assert(all.take(0) =~= Seq::empty());
    while i < v.len()
        invariant
            i <= v@.len(),
            all == items_view(v@),
            found == any_item_holds_image(all.take(i as int)),
        decreases v@.len() - i,
    {
        broadcast use lemma_items_view;

        if some_contains_image(&v[i]) {
            found = true;
        }
        assert(all.take(i + 1).drop_last() =~= all.take(i as int));
        i = i + 1;
    }
    proof {
        broadcast use lemma_items_view;

        assert(all.take(all.len() as int) =~= all);
    }
    found
}

// --- Taking images out ------------------------------------------------------------

/// Inlines without the images among them.
pub open spec fn without_images(s: Seq<SpecInline>) -> Seq<SpecInline>
    decreases s.len(),
{
    if s.len() == 0 {
        Seq::empty()
    } else if s.last() is Image {
        without_images(s.drop_last())
    } else {
        without_images(s.drop_last()).push(s.last())
    }
}

/// The images among inlines, in order.
pub open spec fn images_among(s: Seq<SpecInline>) -> Seq<SpecImage>
    decreases s.len(),
{
    if s.len() == 0 {
        Seq::empty()
    } else if s.last() is Image {
        images_among(s.drop_last()).push(s.last()->Image_0)
    } else {
        images_among(s.drop_last())
    }
}

/// A block without its images. An image is left as an empty paragraph.
pub open spec fn stripped(b: SpecBlock) -> SpecBlock
    decreases b,
{
    match b {
        SpecBlock::Paragraph(c) => SpecBlock::Paragraph(without_images(c)),
        SpecBlock::Heading { level, content } => SpecBlock::Heading {
            level,
            content: without_images(content),
        },
        SpecBlock::Quote(inner) => SpecBlock::Quote(stripped_all(inner)),
        SpecBlock::List { ordered, items } => SpecBlock::List {
            ordered,
            items: stripped_items(items),
        },
        SpecBlock::Image(_) => SpecBlock::Paragraph(Seq::empty()),
        SpecBlock::ImageGrid(_) => SpecBlock::Paragraph(Seq::empty()),
        other => other,
    }
}

/// Blocks without their images.
pub open spec fn stripped_all(s: Seq<SpecBlock>) -> Seq<SpecBlock>
    decreases s,
{
    if s.len() == 0 {
        Seq::empty()
    } else {
        stripped_all(s.drop_last()).push(stripped(s.last()))
    }
}

/// Items without their images.
pub open spec fn stripped_items(s: Seq<Seq<SpecBlock>>) -> Seq<Seq<SpecBlock>>
    decreases s,
{
    if s.len() == 0 {
        Seq::empty()
    } else {
        stripped_items(s.drop_last()).push(stripped_all(s.last()))
    }
}

/// The images that stripping takes out of a block, in order.
pub open spec fn taken(b: SpecBlock) -> Seq<SpecImage>
    decreases b,
{
    match b {
        SpecBlock::Paragraph(c) => images_among(c),
        SpecBlock::Heading { level: _, content } => images_among(content),
        SpecBlock::Quote(inner) => taken_all(inner),
        SpecBlock::List { ordered: _, items } => taken_items(items),
        SpecBlock::Image(img) => seq![img],
        SpecBlock::ImageGrid(images) => images,
        _ => Seq::empty(),
    }
}

/// The images that stripping takes out of blocks, in order.
pub open spec fn taken_all(s: Seq<SpecBlock>) -> Seq<SpecImage>
    decreases s,
{
    if s.len() == 0 {
        Seq::empty()
    } else {
        taken_all(s.drop_last()) + taken(s.last())
    }
}

/// The images that stripping takes out of items, in order.
pub open spec fn taken_items(s: Seq<Seq<SpecBlock>>) -> Seq<SpecImage>
    decreases s,
{
    if s.len() == 0 {
        Seq::empty()
    } else {
        taken_items(s.drop_last()) + taken_all(s.last())
    }
}

fn push_image(images: &mut Vec<Image>, img: &Image)
    ensures
        images_view(final(images)@) == images_view(old(images)@).push(img@),
{
    let copy = img.clone();
    proof {
        lemma_images_push(images@, copy);
    }
    images.push(copy);
}

fn drain(v: &Vec<Inline>, images: &mut Vec<Image>) -> (r: Vec<Inline>)
    ensures
        inlines_view(r@) == without_images(inlines_view(v@)),
        images_view(final(images)@) == images_view(old(images)@) + images_among(
            inlines_view(v@),
        ),
{
    let ghost all = inlines_view(v@);
    let ghost start = images_view(images@);
    let mut kept: Vec<Inline> = Vec::new();
    let mut i: usize = 0;
    assert(all.take(0) =~= Seq::empty());
    assert(start + Seq::<SpecImage>::empty() =~= start);
    while i < v.len()
        invariant
            i <= v@.len(),
            all == inlines_view(v@),
            inlines_view(kept@) == without_images(all.take(i as int)),
            images_view(images@) == start + images_among(all.take(i as int)),
        decreases v@.len() - i,
    {
        broadcast use {lemma_inlines_view, lemma_inlines_push};

        assert(all.take(i + 1).drop_last() =~= all.take(i as int));
        assert(all.take(i + 1).last() == inline_view(v@[i as int]));
        match &v[i] {
            Inline::Image(img) => {
                push_image(images, img);
                assert(images_view(images@) =~= start + images_among(all.take(i + 1)));
            },
            other => kept.push(copy_inline(other)),
        }
        i = i + 1;
    }
    proof {
        broadcast use lemma_inlines_view;

        assert(all.take(all.len() as int) =~= all);
    }
    kept
}

fn push_all(images: &mut Vec<Image>, more: &Vec<Image>)
    ensures
        images_view(final(images)@) == images_view(old(images)@) + images_view(more@),
{
    let ghost all = images_view(more@);
    let ghost start = images_view(images@);
    let mut i: usize = 0;
    assert(start + all.take(0) =~= start);
    while i < more.len()
        invariant
            i <= more@.len(),
            all == images_view(more@),
            images_view(images@) == start + all.take(i as int),
        decreases more@.len() - i,
    {
        push_image(images, &more[i]);
        assert(images_view(images@) =~= start + all.take(i + 1));
        i = i + 1;
    }
    assert(all.take(all.len() as int) =~= all);
}

fn strip_block(block: &Block, images: &mut Vec<Image>) -> (r: Block)
    ensures
        block_view(r) == stripped(block_view(*block)),
        images_view(final(images)@) == images_view(old(images)@) + taken(block_view(*block)),
    decreases block,
{
    let ghost start = images_view(images@);
    match block {
        Block::Paragraph(c) => Block::Paragraph(drain(c, images)),
        Block::Heading { level, content } => Block::Heading {
            level: *level,
            content: drain(content, images),
        },
        Block::Quote(inner) => Block::Quote(strip_blocks(inner, images)),
        Block::List { ordered, items } => Block::List {
            ordered: *ordered,
            items: strip_items(items, images),
        },
        Block::Image(img) => {
            push_image(images, img);
            assert(images_view(images@) =~= start + seq![img@]);
            Block::Paragraph(Vec::new())
        },
        Block::ImageGrid(grid) => {
            push_all(images, grid);
            Block::Paragraph(Vec::new())
        },
        other => {
            assert(start + Seq::<SpecImage>::empty() =~= start);
            copy_block(other)
        },
    }
}

fn strip_blocks(v: &Vec<Block>, images: &mut Vec<Image>) -> (r: Vec<Block>)
    ensures
        blocks_view(r@) == stripped_all(blocks_view(v@)),
        images_view(final(images)@) == images_view(old(images)@) + taken_all(blocks_view(v@)),
    decreases v,
{
    let ghost all = blocks_view(v@);
    let ghost start = images_view(images@);
    let mut out: Vec<Block> = Vec::new();
    let mut i: usize = 0;
    assert(all.take(0) =~= Seq::empty());
    assert(start + Seq::<SpecImage>::empty() =~= start);
    while i < v.len()
        invariant
            i <= v@.len(),
            all == blocks_view(v@),
            blocks_view(out@) == stripped_all(all.take(i as int)),
            images_view(images@) == start + taken_all(all.take(i as int)),
        decreases v@.len() - i,
    {
        broadcast use {lemma_blocks_view, lemma_blocks_push};

        assert(all.take(i + 1).drop_last() =~= all.take(i as int));
        assert(all.take(i + 1).last() == block_view(v@[i as int]));
        let b = strip_block(&v[i], images);
        out.push(b);
        assert(images_view(images@) =~= start + taken_all(all.take(i + 1)));
        i = i + 1;
    }
    proof {
        broadcast use lemma_blocks_view;

        assert(all.take(all.len() as int) =~= all);
    }
    out
}

fn strip_items(v: &Vec<Vec<Block>>, images: &mut Vec<Image>) -> (r: Vec<Vec<Block>>)
    ensures
        items_view(r@) == stripped_items(items_view(v@)),
        images_view(final(images)@) == images_view(old(images)@) + taken_items(items_view(v@)),
    decreases v,
{
    let ghost all = items_view(v@);
    let ghost start = images_view(images@);
    let mut out: Vec<Vec<Block>> = Vec::new();
    let mut i: usize = 0;
    assert(all.take(0) =~= Seq::empty());
    assert(start + Seq::<SpecImage>::empty() =~= start);
    while i < v.len()
        invariant
            i <= v@.len(),
            all == items_view(v@),
            items_view(out@) == stripped_items(all.take(i as int)),
            images_view(images@) == start + taken_items(all.take(i as int)),
        decreases v@.len() - i,
    {
        broadcast use {lemma_items_view, lemma_items_push};

        assert(all.take(i + 1).drop_last() =~= all.take(i as int));
        assert(all.take(i + 1).last() == blocks_view(v@[i as int]@));
        let item = strip_blocks(&v[i], images);
        out.push(item);
        assert(images_view(images@) =~= start + taken_items(all.take(i + 1)));
        i = i + 1;
    }
    proof {
        broadcast use lemma_items_view;

        assert(all.take(all.len() as int) =~= all);
    }
    out
}

/// A block without its images, and the images, in reading order.
pub fn strip_container_images(block: &Block) -> (r: (Block, Vec<Image>))
    ensures
        block_view(r.0) == stripped(block_view(*block)),
        images_view(r.1@) == taken(block_view(*block)),
{
    let mut images: Vec<Image> = Vec::new();
    let out = strip_block(block, &mut images);
    assert(images_view(Seq::<Image>::empty()) =~= Seq::empty());
    assert(Seq::<SpecImage>::empty() + taken(block_view(*block)) =~= taken(block_view(*block)));
    (out, images)
}

// --- What is left -----------------------------------------------------------------

/// An inline shows something: all do but text that is only space.
pub open spec fn shows(x: SpecInline) -> bool {
    match x {
        SpecInline::Text(t) => trimmed(t).len() > 0,
        _ => true,
    }
}

/// One of some inlines shows something.
pub open spec fn any_shows(s: Seq<SpecInline>) -> bool {
    exists|i: int| 0 <= i < s.len() && shows(#[trigger] s[i])
}

/// A block has something to show.
pub open spec fn has_text(b: SpecBlock) -> bool
    decreases b,
{
    match b {
        SpecBlock::Paragraph(c) => any_shows(c),
        SpecBlock::Heading { level: _, content } => any_shows(content),
        SpecBlock::Quote(inner) => any_has_text(inner),
        SpecBlock::List { ordered: _, items } => any_item_has_text(items),
        _ => true,
    }
}

/// One of some blocks has something to show.
pub open spec fn any_has_text(s: Seq<SpecBlock>) -> bool
    decreases s,
{
    s.len() > 0 && (any_has_text(s.drop_last()) || has_text(s.last()))
}

/// One of some items has something to show.
pub open spec fn any_item_has_text(s: Seq<Seq<SpecBlock>>) -> bool
    decreases s,
{
    s.len() > 0 && (any_item_has_text(s.drop_last()) || any_has_text(s.last()))
}

fn inline_shows(x: &Inline) -> (r: bool)
    ensures
        r == shows(inline_view(*x)),
{
    match x {
        Inline::Text(t) => {
            let bare = trim(t.as_str());
            chars_of(bare.as_str()).len() > 0
        },
        _ => true,
    }
}

fn some_shows(v: &Vec<Inline>) -> (r: bool)
    ensures
        r == any_shows(inlines_view(v@)),
{
    broadcast use lemma_inlines_view;

    let mut i: usize = 0;
    while i < v.len()
        invariant
            i <= v@.len(),
            forall|k: int| 0 <= k < i ==> !shows(#[trigger] inlines_view(v@)[k]),
        decreases v@.len() - i,
    {
        broadcast use lemma_inlines_view;

        assert(inlines_view(v@)[i as int] == inline_view(v@[i as int]));
        if inline_shows(&v[i]) {
            return true;
        }
        i = i + 1;
    }
    false
}

/// Whether a block without its images still has something to show.
pub fn container_has_text(block: &Block) -> (r: bool)
    ensures
        r == has_text(block_view(*block)),
    decreases block,
{
    match block {
        Block::Paragraph(c) => some_shows(c),
        Block::Heading { level: _, content } => some_shows(content),
        Block::Quote(inner) => some_have_text(inner),
        Block::List { ordered: _, items } => items_have_text(items),
        _ => true,
    }
}

fn some_have_text(v: &Vec<Block>) -> (r: bool)
    ensures
        r == any_has_text(blocks_view(v@)),
    decreases v,
{
    let ghost all = blocks_view(v@);
    let mut found: bool = false;
    let mut i: usize = 0;
    assert(all.take(0) =~= Seq::empty());
    while i < v.len()
        invariant
            i <= v@.len(),
            all == blocks_view(v@),
            found == any_has_text(all.take(i as int)),
        decreases v@.len() - i,
    {
        broadcast use lemma_blocks_view;

        if container_has_text(&v[i]) {
            found = true;
        }
        assert(all.take(i + 1).drop_last() =~= all.take(i as int));
        i = i + 1;
    }
    proof {
        broadcast use lemma_blocks_view;

        assert(all.take(all.len() as int) =~= all);
    }
    found
}

fn items_have_text(v: &Vec<Vec<Block>>) -> (r: bool)
    ensures
        r == any_item_has_text(items_view(v@)),
    decreases v,
{
    let ghost all = items_view(v@);
    let mut found: bool = false;
    let mut i: usize = 0;
    assert(all.take(0) =~= Seq::empty());
    while i < v.len()
        invariant
            i <= v@.len(),
            all == items_view(v@),
            found == any_item_has_text(all.take(i as int)),
        decreases v@.len() - i,
    {
        broadcast use lemma_items_view;

        if some_have_text(&v[i]) {
            found = true;
        }
        assert(all.take(i + 1).drop_last() =~= all.take(i as int));
        i = i + 1;
    }
    proof {
        broadcast use lemma_items_view;

        assert(all.take(all.len() as int) =~= all);
    }
    found
}

// --- Laws -------------------------------------------------------------------------

proof fn lemma_without_images(s: Seq<SpecInline>)
    ensures
        !any_image(without_images(s)),
        !any_image(s) ==> without_images(s) == s && images_among(s).len() == 0,
    decreases s.len(),
{
    if s.len() > 0 {
        lemma_without_images(s.drop_last());
        let rest = without_images(s.drop_last());
        if any_image(without_images(s)) {
            let i = choose|i: int|
                0 <= i < without_images(s).len() && #[trigger] without_images(s)[i] is Image;
            if i < rest.len() {
                assert(rest[i] is Image);
            }
        }
        if !any_image(s) {
            assert(s[s.len() - 1] is Image == false);
            if any_image(s.drop_last()) {
                let i = choose|i: int|
                    0 <= i < s.drop_last().len() && #[trigger] s.drop_last()[i] is Image;
                assert(s[i] is Image);
            }
            assert(s.drop_last().push(s.last()) =~= s);
        }
    }
}

/// Nothing that was stripped holds an image.
pub proof fn law_stripping_leaves_no_image(b: SpecBlock)
    ensures
        !holds_image(stripped(b)),
    decreases b,
{
    match b {
        SpecBlock::Paragraph(c) => lemma_without_images(c),
        SpecBlock::Heading { level: _, content } => lemma_without_images(content),
        SpecBlock::Quote(inner) => lemma_all_stripped(inner),
        SpecBlock::List { ordered: _, items } => lemma_items_stripped(items),
        _ => {},
    }
}

proof fn lemma_all_stripped(s: Seq<SpecBlock>)
    ensures
        !any_holds_image(stripped_all(s)),
    decreases s,
{
    if s.len() > 0 {
        lemma_all_stripped(s.drop_last());
        law_stripping_leaves_no_image(s.last());
        assert(stripped_all(s).drop_last() =~= stripped_all(s.drop_last()));
    }
}

proof fn lemma_items_stripped(s: Seq<Seq<SpecBlock>>)
    ensures
        !any_item_holds_image(stripped_items(s)),
    decreases s,
{
    if s.len() > 0 {
        lemma_items_stripped(s.drop_last());
        lemma_all_stripped(s.last());
        assert(stripped_items(s).drop_last() =~= stripped_items(s.drop_last()));
    }
}

/// Stripping a block that holds no image changes nothing and takes nothing.
pub proof fn law_nothing_to_strip(b: SpecBlock)
    requires
        !holds_image(b),
    ensures
        stripped(b) == b,
        taken(b).len() == 0,
    decreases b,
{
    match b {
        SpecBlock::Paragraph(c) => lemma_without_images(c),
        SpecBlock::Heading { level: _, content } => lemma_without_images(content),
        SpecBlock::Quote(inner) => lemma_none_to_strip(inner),
        SpecBlock::List { ordered: _, items } => lemma_no_items_to_strip(items),
        _ => {},
    }
}

proof fn lemma_none_to_strip(s: Seq<SpecBlock>)
    requires
        !any_holds_image(s),
    ensures
        stripped_all(s) == s,
        taken_all(s).len() == 0,
    decreases s,
{
    if s.len() > 0 {
        lemma_none_to_strip(s.drop_last());
        law_nothing_to_strip(s.last());
        assert(s.drop_last().push(s.last()) =~= s);
    } else {
        assert(s =~= Seq::empty());
    }
}

proof fn lemma_no_items_to_strip(s: Seq<Seq<SpecBlock>>)
    requires
        !any_item_holds_image(s),
    ensures
        stripped_items(s) == s,
        taken_items(s).len() == 0,
    decreases s,
{
    if s.len() > 0 {
        lemma_no_items_to_strip(s.drop_last());
        lemma_none_to_strip(s.last());
        assert(s.drop_last().push(s.last()) =~= s);
    } else {
        assert(s =~= Seq::empty());
    }
}

} // verus!
