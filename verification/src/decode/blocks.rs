//! Pieces that the block formats share.
use vstd::prelude::*;

use crate::decode::facets::{text_block, text_block_inlines};
use crate::json::{array_view, lemma_array_view, Json, SpecJson};
use crate::model::{
    block_view, items_view, lemma_items_push, one_block, one_inline, Block, Inline, SpecBlock,
    SpecInline,
};
use crate::text::owned;

verus! {

/// An optional block by its view.
pub open spec fn opt_block_view(o: Option<Block>) -> Option<SpecBlock> {
    match o {
        Some(b) => Some(block_view(b)),
        None => None,
    }
}

/// The `level` of a heading, kept between one and six.
pub open spec fn heading_level_of(block: SpecJson, fallback: u64) -> u8 {
    let n = match block.get_u64("level"@) {
        Some(n) => n,
        None => fallback,
    };
    if n < 1 {
        1
    } else if n > 6 {
        6
    } else {
        n as u8
    }
}

/// The `level` of a heading, kept between one and six.
pub fn heading_level(block: &Json, fallback: u64) -> (r: u8)
    ensures
        r == heading_level_of(block@, fallback),
{
    let n: u64 = match block.get_u64("level") {
        Some(n) => n,
        None => fallback,
    };
    if n < 1 {
        1
    } else if n > 6 {
        6
    } else {
        n as u8
    }
}

/// A paragraph of the text block `content`.
pub open spec fn text_paragraph(content: SpecJson) -> SpecBlock {
    SpecBlock::Paragraph(text_block(content))
}

/// The list items that the first `n` of `children` make: one paragraph for each
/// child that has a `content`.
pub open spec fn items_among(children: Seq<SpecJson>, n: int) -> Seq<Seq<SpecBlock>>
    decreases n,
{
    if n <= 0 {
        Seq::empty()
    } else {
        let rest = items_among(children, n - 1);
        match children[n - 1].get("content"@) {
            Some(content) => rest.push(seq![text_paragraph(content)]),
            None => rest,
        }
    }
}

/// The items of a `{ children: [{ content: <text block> }] }` list.
pub open spec fn list_items_of(block: SpecJson) -> Seq<Seq<SpecBlock>> {
    match block.get_array("children"@) {
        Some(children) => items_among(children, children.len() as int),
        None => Seq::empty(),
    }
}

/// The items of a `{ children: [{ content: <text block> }] }` list.
pub fn list_items(block: &Json) -> (r: Vec<Vec<Block>>)
    ensures
        items_view(r@) == list_items_of(block@),
{
    let mut out: Vec<Vec<Block>> = Vec::new();
    let children = match block.get_array("children") {
        Some(children) => children,
        None => return out,
    };
    let mut i: usize = 0;
    while i < children.len()
        invariant
            i <= children@.len(),
            items_view(out@) == items_among(array_view(children@), i as int),
        decreases children@.len() - i,
    {
        broadcast use {lemma_array_view, lemma_items_push};

        if let Some(content) = children[i].get("content") {
            let paragraph = Block::Paragraph(text_block_inlines(content));
            out.push(one_block(paragraph));
        }
        i = i + 1;
    }
    proof {
        broadcast use lemma_array_view;

        assert(array_view(children@).len() == children@.len());
    }
    out
}

/// A paragraph that holds one link.
pub open spec fn link_paragraph_of(href: Seq<char>, label: Seq<char>) -> SpecBlock {
    SpecBlock::Paragraph(
        seq![SpecInline::Link { href, content: seq![SpecInline::Text("🔗 "@ + label)] }],
    )
}

/// A paragraph that holds one link, marked and labelled.
pub fn link_paragraph(href: &str, label: &str) -> (r: Block)
    ensures
        block_view(r) == link_paragraph_of(href@, label@),
{
    let text = one_inline(Inline::Text(crate::text::join2("🔗 ", label)));
    Block::Paragraph(one_inline(Inline::Link { href: owned(href), content: text }))
}

/// A paragraph of plain text.
pub fn plain_paragraph(text: String) -> (r: Block)
    ensures
        block_view(r) == SpecBlock::Paragraph(seq![SpecInline::Text(text@)]),
{
    Block::Paragraph(one_inline(Inline::Text(text)))
}

} // verus!
