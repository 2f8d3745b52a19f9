//! Laying out a document: text flows together, and what stands alone has its own place.
use vstd::prelude::*;

use crate::app::content::source_key;
use crate::model::{SpecBlock, SpecImage};
use crate::ui::doc::text_rows;
use crate::ui::reader::{flow_of, flow_upto, text_height, Flow, Page, SpecSegment};

verus! {

/// A block that is words and nothing else.
pub open spec fn is_plain(b: SpecBlock) -> bool {
    b is Paragraph || b is Heading || b is Code || b is Table
}

/// Blocks that are words and nothing else.
pub open spec fn all_plain(s: Seq<SpecBlock>) -> bool {
    forall|i: int| 0 <= i < s.len() ==> is_plain(#[trigger] s[i])
}

proof fn lemma_plain_flow(start: Flow, blocks: Seq<SpecBlock>, k: int, n: int, p: Page)
    requires
        0 <= k <= n <= blocks.len(),
        all_plain(blocks.take(n)),
    ensures
        flow_upto(start, blocks, k, p) == (start, 0int),
    decreases k,
{
    if k > 0 {
        lemma_plain_flow(start, blocks, k - 1, n, p);
        assert(blocks.take(n)[k - 1] == blocks[k - 1]);
        assert(is_plain(blocks[k - 1]));
    }
}

/// Words are laid out together, as they are drawn, from the first row.
pub proof fn law_words_flow_together(blocks: Seq<SpecBlock>, p: Page)
    requires
        blocks.len() > 0,
        all_plain(blocks),
    ensures
        flow_of(None, Some(blocks), p).segs == seq![
            SpecSegment::Text {
                text: text_rows(blocks, p.theme),
                top: 0,
                height: text_height(text_rows(blocks, p.theme), p.width),
            },
        ],
{
    let n = blocks.len() as int;
    assert(blocks.take(n) =~= blocks);
    lemma_plain_flow(Flow::blank(), blocks, n, n, p);
    assert(blocks.subrange(0, n) =~= blocks);
    assert(flow_of(None, Some(blocks), p).segs =~= seq![
        SpecSegment::Text {
            text: text_rows(blocks, p.theme),
            top: 0,
            height: text_height(text_rows(blocks, p.theme), p.width),
        },
    ]);
}

/// A block that stands alone whatever is shown.
pub open spec fn stands_apart(b: SpecBlock) -> bool {
    b is Callout || b is Rule
}

/// A callout or a rule parts the words before it from those behind it: three segments, the
/// words of each side whole.
pub proof fn law_what_stands_alone_parts_the_words(
    a: Seq<SpecBlock>,
    b: SpecBlock,
    c: Seq<SpecBlock>,
    p: Page,
)
    requires
        a.len() > 0,
        c.len() > 0,
        all_plain(a),
        all_plain(c),
        stands_apart(b),
    ensures
        ({
            let segs = flow_of(None, Some(a + seq![b] + c), p).segs;
            &&& segs.len() == 3
            &&& segs[0] matches SpecSegment::Text { text, .. } && text == text_rows(a, p.theme)
            &&& segs[2] matches SpecSegment::Text { text, .. } && text == text_rows(c, p.theme)
            &&& (segs[1] is Callout) == (b is Callout)
            &&& b matches SpecBlock::Callout { tint, .. } ==> segs[1]->Callout_tint == tint
        }),
{
    let blocks = a + seq![b] + c;
    let n = a.len() as int;
    let all = blocks.len() as int;
    let start = Flow::blank();
    assert(blocks.take(n) =~= a);
    lemma_plain_flow(start, blocks, n, n, p);
    assert(blocks[n] == b);
    assert(blocks.subrange(0, n) =~= a);
    let parted = start.with_run(a, p).with_own(b, p);
    assert(flow_upto(start, blocks, n + 1, p) == (parted, n + 1));
    lemma_plain_rest(start, blocks, n + 1, all, parted, p);
    assert(blocks.subrange(n + 1, all) =~= c);
}

proof fn lemma_plain_rest(
    start: Flow,
    blocks: Seq<SpecBlock>,
    from: int,
    k: int,
    flow: Flow,
    p: Page,
)
    requires
        0 <= from <= k <= blocks.len(),
        flow_upto(start, blocks, from, p) == (flow, from),
        all_plain(blocks.skip(from)),
    ensures
        flow_upto(start, blocks, k, p) == (flow, from),
    decreases k,
{
    if k > from {
        lemma_plain_rest(start, blocks, from, k - 1, flow, p);
        assert(blocks.skip(from)[k - 1 - from] == blocks[k - 1]);
        assert(is_plain(blocks[k - 1]));
    }
}

/// An image among words has a segment of its own where images are shown, under its key and
/// with its description; where they are not, it flows with the words.
pub proof fn law_an_image_has_its_place(a: Seq<SpecBlock>, image: SpecImage, p: Page)
    requires
        a.len() > 0,
        all_plain(a),
    ensures
        ({
            let blocks = a.push(SpecBlock::Image(image));
            let segs = flow_of(None, Some(blocks), p).segs;
            &&& p.show_images ==> segs.len() == 2 && segs[1].keys() == seq![source_key(image.source)]
                && (segs[0] matches SpecSegment::Text { text, .. } && text == text_rows(a, p.theme))
            &&& !p.show_images ==> segs.len() == 1 && (segs[0] matches SpecSegment::Text {
                text,
                ..
            } && text == text_rows(blocks, p.theme))
        }),
{
    let blocks = a.push(SpecBlock::Image(image));
    let n = a.len() as int;
    let start = Flow::blank();
    assert(blocks.take(n) =~= a);
    lemma_plain_flow(start, blocks, n, n, p);
    assert(blocks[n] == SpecBlock::Image(image));
    assert(blocks.subrange(0, n) =~= a);
    assert(blocks.subrange(0, n + 1) =~= blocks);
    assert(blocks.subrange(n + 1, n + 1) =~= Seq::empty());
}

} // verus!
