//! Markdown: a document reads as it was written.
use vstd::prelude::*;

use crate::decode::facets::{flat_inline, flat_text};
use crate::decode::markdown::{
    built, closed_down, ended, first_word, folded, handled, opened, retop, with_block, with_inline,
    SpecFrame, SpecMdEvent, SpecMdTag,
};
use crate::model::{SpecBlock, SpecImageSource, SpecInline};
use crate::text::{skip_space, unicode_whitespace, word_end};

verus! {

// --- Writing a document -----------------------------------------------------------

/// The events between an opening and a closing one.
pub open spec fn within(tag: SpecMdTag, inner: Seq<SpecMdEvent>) -> Seq<SpecMdEvent> {
    seq![SpecMdEvent::Start(tag)] + inner + seq![SpecMdEvent::End]
}

/// The events of an inline.
pub open spec fn inline_events(x: SpecInline) -> Seq<SpecMdEvent>
    decreases x,
{
    match x {
        SpecInline::Text(t) => seq![SpecMdEvent::Text(t)],
        SpecInline::Code(t) => seq![SpecMdEvent::Code(t)],
        SpecInline::LineBreak => seq![SpecMdEvent::HardBreak],
        SpecInline::Strong(c) => within(SpecMdTag::Strong, inlines_events(c)),
        SpecInline::Emphasis(c) => within(SpecMdTag::Emphasis, inlines_events(c)),
        SpecInline::Strike(c) => within(SpecMdTag::Strikethrough, inlines_events(c)),
        SpecInline::Link { href, content } => within(
            SpecMdTag::Link(href),
            inlines_events(content),
        ),
        SpecInline::Image(i) => within(
            SpecMdTag::Image(
                match i.source {
                    SpecImageSource::Url(url) => url,
                    _ => Seq::empty(),
                },
            ),
            seq![SpecMdEvent::Text(i.alt)],
        ),
        _ => Seq::empty(),
    }
}

/// The events of inlines.
pub open spec fn inlines_events(s: Seq<SpecInline>) -> Seq<SpecMdEvent>
    decreases s,
{
    if s.len() == 0 {
        Seq::empty()
    } else {
        inlines_events(s.drop_last()) + inline_events(s.last())
    }
}

/// The events of a block.
pub open spec fn block_events(b: SpecBlock) -> Seq<SpecMdEvent>
    decreases b,
{
    match b {
        SpecBlock::Paragraph(c) => within(SpecMdTag::Paragraph, inlines_events(c)),
        SpecBlock::Heading { level, content } => within(
            SpecMdTag::Heading(level),
            inlines_events(content),
        ),
        SpecBlock::Quote(bs) => within(SpecMdTag::BlockQuote, blocks_events(bs)),
        SpecBlock::List { ordered, items } => within(
            SpecMdTag::List(
                if ordered {
                    Some(1u64)
                } else {
                    None
                },
            ),
            items_events(items),
        ),
        SpecBlock::Code { lang, text } => within(
            SpecMdTag::CodeBlock(lang),
            seq![SpecMdEvent::Text(text.push('\n'))],
        ),
        SpecBlock::Rule => seq![SpecMdEvent::Rule],
        _ => Seq::empty(),
    }
}

/// The events of blocks.
pub open spec fn blocks_events(s: Seq<SpecBlock>) -> Seq<SpecMdEvent>
    decreases s,
{
    if s.len() == 0 {
        Seq::empty()
    } else {
        blocks_events(s.drop_last()) + block_events(s.last())
    }
}

/// The events of list items.
pub open spec fn items_events(s: Seq<Seq<SpecBlock>>) -> Seq<SpecMdEvent>
    decreases s,
{
    if s.len() == 0 {
        Seq::empty()
    } else {
        items_events(s.drop_last()) + within(SpecMdTag::Item, blocks_events(s.last()))
    }
}

/// Markdown can say this inline: it is neither underlined nor marked, and an image is at an
/// address.
pub open spec fn inline_sayable(x: SpecInline) -> bool
    decreases x,
{
    match x {
        SpecInline::Strong(c) => inlines_sayable(c),
        SpecInline::Emphasis(c) => inlines_sayable(c),
        SpecInline::Strike(c) => inlines_sayable(c),
        SpecInline::Link { href, content } => inlines_sayable(content),
        SpecInline::Image(i) => i.source is Url,
        SpecInline::Underline(_) => false,
        SpecInline::Highlight(_) => false,
        _ => true,
    }
}

/// Markdown can say these inlines.
pub open spec fn inlines_sayable(s: Seq<SpecInline>) -> bool
    decreases s,
{
    s.len() > 0 ==> inlines_sayable(s.drop_last()) && inline_sayable(s.last())
}

/// One word.
pub open spec fn is_word(s: Seq<char>) -> bool {
    s.len() > 0 && forall|i: int| 0 <= i < s.len() ==> !unicode_whitespace(#[trigger] s[i])
}

/// Markdown can say this block; a language is one word.
pub open spec fn block_sayable(b: SpecBlock) -> bool
    decreases b,
{
    match b {
        SpecBlock::Paragraph(c) => inlines_sayable(c),
        SpecBlock::Heading { level, content } => inlines_sayable(content),
        SpecBlock::Quote(bs) => blocks_sayable(bs),
        SpecBlock::List { ordered, items } => items_sayable(items),
        SpecBlock::Code { lang, text } => lang is None || is_word(lang->0),
        SpecBlock::Rule => true,
        _ => false,
    }
}

/// Markdown can say these blocks.
pub open spec fn blocks_sayable(s: Seq<SpecBlock>) -> bool
    decreases s,
{
    s.len() > 0 ==> blocks_sayable(s.drop_last()) && block_sayable(s.last())
}

/// Markdown can say these list items.
pub open spec fn items_sayable(s: Seq<Seq<SpecBlock>>) -> bool
    decreases s,
{
    s.len() > 0 ==> items_sayable(s.drop_last()) && blocks_sayable(s.last())
}

// --- Folding from anywhere --------------------------------------------------------

/// The stack after the first `n` events, from any stack.
spec fn run(stack: Seq<SpecFrame>, events: Seq<SpecMdEvent>, n: int) -> Seq<SpecFrame>
    decreases n,
{
    if n <= 0 {
        stack
    } else {
        handled(run(stack, events, n - 1), events[n - 1])
    }
}

/// The stack after all events.
spec fn after(stack: Seq<SpecFrame>, events: Seq<SpecMdEvent>) -> Seq<SpecFrame> {
    run(stack, events, events.len() as int)
}

proof fn lemma_run_prefix(
    stack: Seq<SpecFrame>,
    a: Seq<SpecMdEvent>,
    b: Seq<SpecMdEvent>,
    n: int,
)
    requires
        0 <= n <= a.len(),
    ensures
        run(stack, a + b, n) == run(stack, a, n),
    decreases n,
{
    if n > 0 {
        lemma_run_prefix(stack, a, b, n - 1);
        assert((a + b)[n - 1] == a[n - 1]);
    }
}

proof fn lemma_run_suffix(
    stack: Seq<SpecFrame>,
    a: Seq<SpecMdEvent>,
    b: Seq<SpecMdEvent>,
    n: int,
)
    requires
        0 <= n <= b.len(),
    ensures
        run(stack, a + b, a.len() + n) == run(after(stack, a), b, n),
    decreases n,
{
    if n > 0 {
        lemma_run_suffix(stack, a, b, n - 1);
        assert((a + b)[a.len() + n - 1] == b[n - 1]);
    } else {
        lemma_run_prefix(stack, a, b, a.len() as int);
    }
}

proof fn lemma_after_join(stack: Seq<SpecFrame>, a: Seq<SpecMdEvent>, b: Seq<SpecMdEvent>)
    ensures
        after(stack, a + b) == after(after(stack, a), b),
{
    lemma_run_suffix(stack, a, b, b.len() as int);
}

proof fn lemma_after_one(stack: Seq<SpecFrame>, e: SpecMdEvent)
    ensures
        after(stack, seq![e]) == handled(stack, e),
{
    let s = seq![e];
    assert(s[0] == e);
    assert(run(stack, s, 0) == stack);
    assert(run(stack, s, 1) == handled(run(stack, s, 0), s[0]));
}

proof fn lemma_within(stack: Seq<SpecFrame>, tag: SpecMdTag, inner: Seq<SpecMdEvent>)
    ensures
        after(stack, within(tag, inner)) == ended(after(stack.push(opened(tag)), inner)),
{
    lemma_after_one(stack, SpecMdEvent::Start(tag));
    lemma_after_join(stack, seq![SpecMdEvent::Start(tag)], inner);
    lemma_after_join(
        stack,
        seq![SpecMdEvent::Start(tag)] + inner,
        seq![SpecMdEvent::End],
    );
    lemma_after_one(after(stack.push(opened(tag)), inner), SpecMdEvent::End);
}

proof fn lemma_folded(events: Seq<SpecMdEvent>, n: int)
    ensures
        folded(events, n) == run(seq![SpecFrame::Root(Seq::empty())], events, n),
    decreases n,
{
    if n > 0 {
        lemma_folded(events, n - 1);
    }
}

// --- Inlines ----------------------------------------------------------------------

/// A container of inlines with more in it.
spec fn taking(f: SpecFrame, more: Seq<SpecInline>) -> SpecFrame {
    match f {
        SpecFrame::Paragraph(c) => SpecFrame::Paragraph(c + more),
        SpecFrame::Heading { level, content } => SpecFrame::Heading {
            level,
            content: content + more,
        },
        SpecFrame::Strong(c) => SpecFrame::Strong(c + more),
        SpecFrame::Emphasis(c) => SpecFrame::Emphasis(c + more),
        SpecFrame::Strike(c) => SpecFrame::Strike(c + more),
        SpecFrame::Link { href, content } => SpecFrame::Link { href, content: content + more },
        _ => f,
    }
}

/// A container of inlines.
spec fn takes_inlines(f: SpecFrame) -> bool {
    f is Paragraph || f is Heading || f is Strong || f is Emphasis || f is Strike || f is Link
}

proof fn lemma_take_one(below: Seq<SpecFrame>, f: SpecFrame, x: SpecInline)
    requires
        takes_inlines(f),
    ensures
        with_inline(below.push(f), x) == below.push(taking(f, seq![x])),
{
    assert(below.push(f).drop_last() =~= below);
    match f {
        SpecFrame::Paragraph(c) => {
            assert(c + seq![x] =~= c.push(x));
        },
        SpecFrame::Heading { level, content } => {
            assert(content + seq![x] =~= content.push(x));
        },
        SpecFrame::Strong(c) => {
            assert(c + seq![x] =~= c.push(x));
        },
        SpecFrame::Emphasis(c) => {
            assert(c + seq![x] =~= c.push(x));
        },
        SpecFrame::Strike(c) => {
            assert(c + seq![x] =~= c.push(x));
        },
        SpecFrame::Link { href, content } => {
            assert(content + seq![x] =~= content.push(x));
        },
        _ => {},
    }
}

proof fn lemma_take_more(f: SpecFrame, a: Seq<SpecInline>, x: SpecInline)
    requires
        takes_inlines(f),
    ensures
        taking(taking(f, a), seq![x]) == taking(f, a.push(x)),
        taking(f, Seq::empty()) == f,
        takes_inlines(taking(f, a)),
{
    match f {
        SpecFrame::Paragraph(c) => {
            assert(c + a + seq![x] =~= c + a.push(x));
            assert(c + Seq::<SpecInline>::empty() =~= c);
        },
        SpecFrame::Heading { level, content } => {
            assert(content + a + seq![x] =~= content + a.push(x));
            assert(content + Seq::<SpecInline>::empty() =~= content);
        },
        SpecFrame::Strong(c) => {
            assert(c + a + seq![x] =~= c + a.push(x));
            assert(c + Seq::<SpecInline>::empty() =~= c);
        },
        SpecFrame::Emphasis(c) => {
            assert(c + a + seq![x] =~= c + a.push(x));
            assert(c + Seq::<SpecInline>::empty() =~= c);
        },
        SpecFrame::Strike(c) => {
            assert(c + a + seq![x] =~= c + a.push(x));
            assert(c + Seq::<SpecInline>::empty() =~= c);
        },
        SpecFrame::Link { href, content } => {
            assert(content + a + seq![x] =~= content + a.push(x));
            assert(content + Seq::<SpecInline>::empty() =~= content);
        },
        _ => {},
    }
}

proof fn lemma_inline_said(below: Seq<SpecFrame>, f: SpecFrame, x: SpecInline)
    requires
        takes_inlines(f),
        inline_sayable(x),
    ensures
        after(below.push(f), inline_events(x)) == below.push(taking(f, seq![x])),
    decreases x, 0nat,
{
    let stack = below.push(f);
    lemma_take_one(below, f, x);
    match x {
        SpecInline::Text(t) => {
            lemma_after_one(stack, SpecMdEvent::Text(t));
        },
        SpecInline::Code(t) => {
            lemma_after_one(stack, SpecMdEvent::Code(t));
        },
        SpecInline::LineBreak => {
            lemma_after_one(stack, SpecMdEvent::HardBreak);
        },
        SpecInline::Strong(c) => {
            lemma_within(stack, SpecMdTag::Strong, inlines_events(c));
            lemma_inlines_said(stack, opened(SpecMdTag::Strong), c);
            assert(Seq::<SpecInline>::empty() + c =~= c);
            assert(stack.push(SpecFrame::Strong(c)).drop_last() =~= stack);
        },
        SpecInline::Emphasis(c) => {
            lemma_within(stack, SpecMdTag::Emphasis, inlines_events(c));
            lemma_inlines_said(stack, opened(SpecMdTag::Emphasis), c);
            assert(Seq::<SpecInline>::empty() + c =~= c);
            assert(stack.push(SpecFrame::Emphasis(c)).drop_last() =~= stack);
        },
        SpecInline::Strike(c) => {
            lemma_within(stack, SpecMdTag::Strikethrough, inlines_events(c));
            lemma_inlines_said(stack, opened(SpecMdTag::Strikethrough), c);
            assert(Seq::<SpecInline>::empty() + c =~= c);
            assert(stack.push(SpecFrame::Strike(c)).drop_last() =~= stack);
        },
        SpecInline::Link { href, content } => {
            lemma_within(stack, SpecMdTag::Link(href), inlines_events(content));
            lemma_inlines_said(stack, opened(SpecMdTag::Link(href)), content);
            assert(Seq::<SpecInline>::empty() + content =~= content);
            assert(stack.push(SpecFrame::Link { href, content }).drop_last() =~= stack);
        },
        SpecInline::Image(i) => {
            let url = i.source->Url_0;
            let text = SpecMdEvent::Text(i.alt);
            lemma_within(stack, SpecMdTag::Image(url), seq![text]);
            let open = stack.push(opened(SpecMdTag::Image(url)));
            lemma_after_one(open, text);
            assert(Seq::<char>::empty() + i.alt =~= i.alt);
            assert(open.drop_last() =~= stack);
            assert(retop(open, SpecFrame::Image { dest: url, alt: i.alt }).drop_last()
                =~= stack);
        },
        _ => {},
    }
}

proof fn lemma_inlines_said(below: Seq<SpecFrame>, f: SpecFrame, s: Seq<SpecInline>)
    requires
        takes_inlines(f),
        inlines_sayable(s),
    ensures
        after(below.push(f), inlines_events(s)) == below.push(taking(f, s)),
    decreases s, 1nat,
{
    if s.len() > 0 {
        let rest = s.drop_last();
        lemma_inlines_said(below, f, rest);
        lemma_after_join(below.push(f), inlines_events(rest), inline_events(s.last()));
        lemma_take_more(f, rest, s.last());
        lemma_inline_said(below, taking(f, rest), s.last());
        assert(rest.push(s.last()) =~= s);
    } else {
        assert(s =~= Seq::empty());
        lemma_take_more(f, s, SpecInline::LineBreak);
    }
}

// --- Blocks -----------------------------------------------------------------------

/// A container of blocks with more in it.
spec fn holding(f: SpecFrame, more: Seq<SpecBlock>) -> SpecFrame {
    match f {
        SpecFrame::Root(b) => SpecFrame::Root(b + more),
        SpecFrame::Quote(b) => SpecFrame::Quote(b + more),
        SpecFrame::Item(b) => SpecFrame::Item(b + more),
        _ => f,
    }
}

/// A container of blocks.
spec fn holds_blocks(f: SpecFrame) -> bool {
    f is Root || f is Quote || f is Item
}

proof fn lemma_hold_one(below: Seq<SpecFrame>, f: SpecFrame, b: SpecBlock)
    requires
        holds_blocks(f),
    ensures
        with_block(below.push(f), b) == below.push(holding(f, seq![b])),
{
    assert(below.push(f).drop_last() =~= below);
    match f {
        SpecFrame::Root(bs) => {
            assert(bs + seq![b] =~= bs.push(b));
        },
        SpecFrame::Quote(bs) => {
            assert(bs + seq![b] =~= bs.push(b));
        },
        SpecFrame::Item(bs) => {
            assert(bs + seq![b] =~= bs.push(b));
        },
        _ => {},
    }
}

proof fn lemma_hold_more(f: SpecFrame, a: Seq<SpecBlock>, b: SpecBlock)
    requires
        holds_blocks(f),
    ensures
        holding(holding(f, a), seq![b]) == holding(f, a.push(b)),
        holding(f, Seq::empty()) == f,
        holds_blocks(holding(f, a)),
{
    match f {
        SpecFrame::Root(bs) => {
            assert(bs + a + seq![b] =~= bs + a.push(b));
            assert(bs + Seq::<SpecBlock>::empty() =~= bs);
        },
        SpecFrame::Quote(bs) => {
            assert(bs + a + seq![b] =~= bs + a.push(b));
            assert(bs + Seq::<SpecBlock>::empty() =~= bs);
        },
        SpecFrame::Item(bs) => {
            assert(bs + a + seq![b] =~= bs + a.push(b));
            assert(bs + Seq::<SpecBlock>::empty() =~= bs);
        },
        _ => {},
    }
}

proof fn lemma_block_said(below: Seq<SpecFrame>, f: SpecFrame, b: SpecBlock)
    requires
        holds_blocks(f),
        block_sayable(b),
    ensures
        after(below.push(f), block_events(b)) == below.push(holding(f, seq![b])),
    decreases b, 0nat,
{
    let stack = below.push(f);
    lemma_hold_one(below, f, b);
    match b {
        SpecBlock::Paragraph(c) => {
            lemma_within(stack, SpecMdTag::Paragraph, inlines_events(c));
            lemma_inlines_said(stack, opened(SpecMdTag::Paragraph), c);
            assert(Seq::<SpecInline>::empty() + c =~= c);
            assert(stack.push(SpecFrame::Paragraph(c)).drop_last() =~= stack);
        },
        SpecBlock::Heading { level, content } => {
            lemma_within(stack, SpecMdTag::Heading(level), inlines_events(content));
            lemma_inlines_said(stack, opened(SpecMdTag::Heading(level)), content);
            assert(Seq::<SpecInline>::empty() + content =~= content);
            assert(stack.push(SpecFrame::Heading { level, content }).drop_last() =~= stack);
        },
        SpecBlock::Quote(bs) => {
            lemma_within(stack, SpecMdTag::BlockQuote, blocks_events(bs));
            lemma_blocks_said(stack, opened(SpecMdTag::BlockQuote), bs);
            assert(Seq::<SpecBlock>::empty() + bs =~= bs);
            assert(stack.push(SpecFrame::Quote(bs)).drop_last() =~= stack);
        },
        SpecBlock::List { ordered, items } => {
            let start = if ordered {
                Some(1u64)
            } else {
                None
            };
            lemma_within(stack, SpecMdTag::List(start), items_events(items));
            lemma_items_said(stack, ordered, items);
            assert(stack.push(SpecFrame::List { ordered, items }).drop_last() =~= stack);
        },
        SpecBlock::Code { lang, text } => {
            let e = SpecMdEvent::Text(text.push('\n'));
            lemma_within(stack, SpecMdTag::CodeBlock(lang), seq![e]);
            let open = stack.push(opened(SpecMdTag::CodeBlock(lang)));
            lemma_after_one(open, e);
            if lang is Some {
                lemma_first_word(lang->0, Seq::empty());
                assert(lang->0 + Seq::<char>::empty() =~= lang->0);
            }
            assert(Seq::<char>::empty() + text.push('\n') =~= text.push('\n'));
            assert(text.push('\n').drop_last() =~= text);
            assert(open.drop_last() =~= stack);
            assert(retop(open, SpecFrame::Code { lang, text: text.push('\n') }).drop_last()
                =~= stack);
        },
        SpecBlock::Rule => {
            lemma_after_one(stack, SpecMdEvent::Rule);
        },
        _ => {},
    }
}

proof fn lemma_blocks_said(below: Seq<SpecFrame>, f: SpecFrame, s: Seq<SpecBlock>)
    requires
        holds_blocks(f),
        blocks_sayable(s),
    ensures
        after(below.push(f), blocks_events(s)) == below.push(holding(f, s)),
    decreases s, 1nat,
{
    if s.len() > 0 {
        let rest = s.drop_last();
        lemma_blocks_said(below, f, rest);
        lemma_after_join(below.push(f), blocks_events(rest), block_events(s.last()));
        lemma_hold_more(f, rest, s.last());
        lemma_block_said(below, holding(f, rest), s.last());
        assert(rest.push(s.last()) =~= s);
    } else {
        assert(s =~= Seq::empty());
        lemma_hold_more(f, s, SpecBlock::Rule);
    }
}

proof fn lemma_items_said(below: Seq<SpecFrame>, ordered: bool, s: Seq<Seq<SpecBlock>>)
    requires
        items_sayable(s),
    ensures
        after(
            below.push(SpecFrame::List { ordered, items: Seq::empty() }),
            items_events(s),
        ) == below.push(SpecFrame::List { ordered, items: s }),
    decreases s, 2nat,
{
    let empty = SpecFrame::List { ordered, items: Seq::empty() };
    if s.len() > 0 {
        let rest = s.drop_last();
        let bs = s.last();
        lemma_items_said(below, ordered, rest);
        lemma_after_join(
            below.push(empty),
            items_events(rest),
            within(SpecMdTag::Item, blocks_events(bs)),
        );
        let stack = below.push(SpecFrame::List { ordered, items: rest });
        lemma_within(stack, SpecMdTag::Item, blocks_events(bs));
        lemma_blocks_said(stack, opened(SpecMdTag::Item), bs);
        assert(Seq::<SpecBlock>::empty() + bs =~= bs);
        assert(stack.push(SpecFrame::Item(bs)).drop_last() =~= stack);
        assert(stack.drop_last() =~= below);
        assert(rest.push(bs) =~= s);
    } else {
        assert(s =~= Seq::empty());
    }
}

/// The language of a code block is the first word of what stands after the fence.
pub proof fn law_the_language_is_the_first_word(lang: Seq<char>, rest: Seq<char>)
    requires
        is_word(lang),
    ensures
        first_word(lang) == Some(lang),
        first_word(lang + seq![' '] + rest) == Some(lang),
{
    lemma_first_word(lang, Seq::empty());
    assert(lang + Seq::<char>::empty() =~= lang);
    lemma_first_word(lang, seq![' '] + rest);
    assert(lang + (seq![' '] + rest) =~= lang + seq![' '] + rest);
}

proof fn lemma_first_word(lang: Seq<char>, rest: Seq<char>)
    requires
        is_word(lang),
        rest.len() == 0 || rest[0] == ' ',
    ensures
        first_word(lang + rest) == Some(lang),
{
    let s = lang + rest;
    assert(!unicode_whitespace(lang[0]));
    assert(s[0] == lang[0]);
    assert(skip_space(s, 0) == 0);
    lemma_word_end(lang, rest, 0);
    assert(s.subrange(0, lang.len() as int) =~= lang);
}

proof fn lemma_word_end(lang: Seq<char>, rest: Seq<char>, i: int)
    requires
        is_word(lang),
        rest.len() == 0 || rest[0] == ' ',
        0 <= i <= lang.len(),
    ensures
        word_end(lang + rest, i) == lang.len(),
    decreases lang.len() - i,
{
    let s = lang + rest;
    if i < lang.len() {
        assert(s[i] == lang[i]);
        assert(!unicode_whitespace(lang[i]));
        lemma_word_end(lang, rest, i + 1);
    } else if rest.len() > 0 {
        assert(s[i] == ' ');
        assert(unicode_whitespace(' '));
    }
}

/// A document is read as it was written: every heading, paragraph, quote, list, code block
/// and rule, with its styles, links and images, in its place and in order.
pub proof fn law_markdown_reads_as_written(s: Seq<SpecBlock>)
    requires
        blocks_sayable(s),
    ensures
        built(blocks_events(s)) == s,
{
    let events = blocks_events(s);
    let root = SpecFrame::Root(Seq::empty());
    let stack = seq![root];
    assert(stack =~= Seq::<SpecFrame>::empty().push(root));
    lemma_blocks_said(Seq::empty(), root, s);
    assert(Seq::<SpecBlock>::empty() + s =~= s);
    lemma_folded(events, events.len() as int);
    let end = Seq::<SpecFrame>::empty().push(SpecFrame::Root(s));
    assert(folded(events, events.len() as int) == end);
    assert(closed_down(end, 0) == end);
}

// --- Breaks -----------------------------------------------------------------------

/// A wrapped line reads as if there were a space in place of the break, wherever the break
/// stands.
pub open spec fn unwrapped(events: Seq<SpecMdEvent>) -> Seq<SpecMdEvent> {
    events.map_values(
        |e: SpecMdEvent|
            match e {
                SpecMdEvent::SoftBreak => SpecMdEvent::Text(seq![' ']),
                _ => e,
            },
    )
}

proof fn lemma_unwrapped(events: Seq<SpecMdEvent>, n: int)
    requires
        0 <= n <= events.len(),
    ensures
        folded(unwrapped(events), n) == folded(events, n),
    decreases n,
{
    reveal_strlit(" ");
    assert(" "@ =~= seq![' ']);
    if n > 0 {
        lemma_unwrapped(events, n - 1);
    }
}

/// A wrapped line reads as if there were a space in place of the break: in any document, at
/// any place.
pub proof fn law_a_soft_break_is_a_space(events: Seq<SpecMdEvent>)
    ensures
        built(events) == built(unwrapped(events)),
{
    lemma_unwrapped(events, events.len() as int);
}

/// What an event in a paragraph reads as: text and code as they are, a wrapped line as a
/// space, a hard break as a line break.
pub open spec fn event_text(e: SpecMdEvent) -> Seq<char> {
    match e {
        SpecMdEvent::Text(t) => t,
        SpecMdEvent::Code(t) => t,
        SpecMdEvent::SoftBreak => seq![' '],
        SpecMdEvent::HardBreak => seq!['\n'],
        _ => Seq::empty(),
    }
}

/// What events read as, in order.
pub open spec fn events_text(events: Seq<SpecMdEvent>) -> Seq<char>
    decreases events.len(),
{
    if events.len() == 0 {
        Seq::empty()
    } else {
        events_text(events.drop_last()) + event_text(events.last())
    }
}

/// The event stands in a paragraph for itself.
pub open spec fn is_leaf(e: SpecMdEvent) -> bool {
    e is Text || e is Code || e is SoftBreak || e is HardBreak
}

/// The events are all of that kind.
pub open spec fn are_leaves(events: Seq<SpecMdEvent>) -> bool {
    forall|i: int| 0 <= i < events.len() ==> is_leaf(#[trigger] events[i])
}

/// The inlines that leaves come to.
spec fn leaf_inlines(events: Seq<SpecMdEvent>) -> Seq<SpecInline> {
    events.map_values(
        |e: SpecMdEvent|
            match e {
                SpecMdEvent::Text(t) => SpecInline::Text(t),
                SpecMdEvent::Code(t) => SpecInline::Code(t),
                SpecMdEvent::SoftBreak => SpecInline::Text(" "@),
                _ => SpecInline::LineBreak,
            },
    )
}

proof fn lemma_leaves(below: Seq<SpecFrame>, f: SpecFrame, events: Seq<SpecMdEvent>)
    requires
        takes_inlines(f),
        are_leaves(events),
    ensures
        after(below.push(f), events) == below.push(taking(f, leaf_inlines(events))),
        flat_text(leaf_inlines(events)) == events_text(events),
    decreases events.len(),
{
    reveal_strlit(" ");
    if events.len() > 0 {
        let rest = events.drop_last();
        let e = events.last();
        let x = leaf_inlines(events).last();
        assert(are_leaves(rest)) by {
            assert forall|i: int| 0 <= i < rest.len() implies is_leaf(#[trigger] rest[i]) by {
                assert(rest[i] == events[i]);
            }
        }
        assert(is_leaf(events[events.len() - 1]));
        lemma_leaves(below, f, rest);
        assert(leaf_inlines(events) =~= leaf_inlines(rest).push(x));
        assert(leaf_inlines(events).drop_last() =~= leaf_inlines(rest));
        lemma_after_join(below.push(f), rest, seq![e]);
        assert(rest + seq![e] =~= events);
        lemma_take_more(f, leaf_inlines(rest), x);
        let g = taking(f, leaf_inlines(rest));
        lemma_after_one(below.push(g), e);
        lemma_take_one(below, g, x);
        assert(" "@ =~= seq![' ']);
        assert(flat_inline(x) == event_text(e));
    } else {
        assert(leaf_inlines(events) =~= Seq::empty());
        assert(events =~= Seq::empty());
        lemma_take_more(f, Seq::empty(), SpecInline::LineBreak);
    }
}

/// The text of a paragraph is the text of what stands in it, in order, with a space for each
/// wrapped line: nothing is dropped and no two words are glued together. A heading is read
/// alike.
pub proof fn law_a_paragraph_reads_in_order(body: Seq<SpecMdEvent>, level: u8)
    requires
        are_leaves(body),
    ensures
        ({
            let p = built(within(SpecMdTag::Paragraph, body));
            let h = built(within(SpecMdTag::Heading(level), body));
            &&& p.len() == 1
            &&& p[0] matches SpecBlock::Paragraph(c) && flat_text(c) == events_text(body)
            &&& h.len() == 1
            &&& h[0] matches SpecBlock::Heading { level: l, content } && l == level && flat_text(
                content,
            ) == events_text(body)
        }),
{
    let root = SpecFrame::Root(Seq::empty());
    let none = Seq::<SpecFrame>::empty();
    let stack = none.push(root);
    assert(stack =~= seq![root]);
    let inner = leaf_inlines(body);
    assert(Seq::<SpecInline>::empty() + inner =~= inner);
    let tag = SpecMdTag::Paragraph;
    lemma_within(stack, tag, body);
    lemma_leaves(stack, opened(tag), body);
    assert(stack.push(SpecFrame::Paragraph(inner)).drop_last() =~= stack);
    lemma_hold_one(none, root, SpecBlock::Paragraph(inner));
    lemma_folded(within(tag, body), within(tag, body).len() as int);
    let done = seq![SpecBlock::Paragraph(inner)];
    assert(Seq::<SpecBlock>::empty() + done =~= done);
    assert(closed_down(none.push(SpecFrame::Root(done)), 0) == none.push(SpecFrame::Root(done)));
    let tag = SpecMdTag::Heading(level);
    lemma_within(stack, tag, body);
    lemma_leaves(stack, opened(tag), body);
    assert(stack.push(SpecFrame::Heading { level, content: inner }).drop_last() =~= stack);
    lemma_hold_one(none, root, SpecBlock::Heading { level, content: inner });
    lemma_folded(within(tag, body), within(tag, body).len() as int);
    let done = seq![SpecBlock::Heading { level, content: inner }];
    assert(Seq::<SpecBlock>::empty() + done =~= done);
    assert(closed_down(none.push(SpecFrame::Root(done)), 0) == none.push(SpecFrame::Root(done)));
}

} // verus!
