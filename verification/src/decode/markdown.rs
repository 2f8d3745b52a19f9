//! Markdown: a bare string `content`, or an `at.markpub.markdown` wrapper whose text
//! stands at `text.markdown`.
//!
//! `pulldown-cmark` turns the text into a flat stream of events; a small stack of open
//! containers folds the stream into blocks, and every image is then lifted to a block
//! of its own.
use pulldown_cmark::{CodeBlockKind, Event, Options, Parser, Tag};
use vstd::prelude::*;

use crate::decode::hoist::{hoist_images, hoisted};
use crate::decode::image::{url_image, url_image_of};
use crate::decode::{ContentDecoder, DecodeCtx};
use crate::json::{Json, SpecJson};
use crate::model::{
    block_view, blocks_view, group_model_push, inline_view, inlines_view, items_view, one_inline,
    opt_view, Block, Image, Inline, PublishingPlatform, RichDoc, SpecBlock, SpecInline,
};
use crate::text::{chars_of, is_whitespace, owned, skip_space, slice_of, word_end};

verus! {

// --- Events -----------------------------------------------------------------------

/// What an opening event opens.
#[derive(Debug, PartialEq)]
pub enum MdTag {
    Paragraph,
    Heading(u8),
    BlockQuote,
    /// The info string of a fenced block; `None` for an indented one.
    CodeBlock(Option<String>),
    /// The first number of an ordered list.
    List(Option<u64>),
    Item,
    Strong,
    Emphasis,
    Strikethrough,
    Link(String),
    Image(String),
    Other,
}

/// [`MdTag`] over character sequences.
pub enum SpecMdTag {
    Paragraph,
    Heading(u8),
    BlockQuote,
    CodeBlock(Option<Seq<char>>),
    List(Option<u64>),
    Item,
    Strong,
    Emphasis,
    Strikethrough,
    Link(Seq<char>),
    Image(Seq<char>),
    Other,
}

impl View for MdTag {
    type V = SpecMdTag;

    open spec fn view(&self) -> SpecMdTag {
        match *self {
            MdTag::Paragraph => SpecMdTag::Paragraph,
            MdTag::Heading(l) => SpecMdTag::Heading(l),
            MdTag::BlockQuote => SpecMdTag::BlockQuote,
            MdTag::CodeBlock(info) => SpecMdTag::CodeBlock(opt_view(info)),
            MdTag::List(n) => SpecMdTag::List(n),
            MdTag::Item => SpecMdTag::Item,
            MdTag::Strong => SpecMdTag::Strong,
            MdTag::Emphasis => SpecMdTag::Emphasis,
            MdTag::Strikethrough => SpecMdTag::Strikethrough,
            MdTag::Link(d) => SpecMdTag::Link(d@),
            MdTag::Image(d) => SpecMdTag::Image(d@),
            MdTag::Other => SpecMdTag::Other,
        }
    }
}

/// One parse event.
#[derive(Debug, PartialEq)]
pub enum MdEvent {
    Start(MdTag),
    End,
    Text(String),
    Code(String),
    SoftBreak,
    HardBreak,
    Rule,
    Other,
}

/// [`MdEvent`] over character sequences.
pub enum SpecMdEvent {
    Start(SpecMdTag),
    End,
    Text(Seq<char>),
    Code(Seq<char>),
    SoftBreak,
    HardBreak,
    Rule,
    Other,
}

impl View for MdEvent {
    type V = SpecMdEvent;

    open spec fn view(&self) -> SpecMdEvent {
        match *self {
            MdEvent::Start(t) => SpecMdEvent::Start(t@),
            MdEvent::End => SpecMdEvent::End,
            MdEvent::Text(t) => SpecMdEvent::Text(t@),
            MdEvent::Code(t) => SpecMdEvent::Code(t@),
            MdEvent::SoftBreak => SpecMdEvent::SoftBreak,
            MdEvent::HardBreak => SpecMdEvent::HardBreak,
            MdEvent::Rule => SpecMdEvent::Rule,
            MdEvent::Other => SpecMdEvent::Other,
        }
    }
}

/// Events by their views.
pub open spec fn events_view(s: Seq<MdEvent>) -> Seq<SpecMdEvent> {
    s.map_values(|e: MdEvent| e@)
}

/// `pulldown_cmark::Event`, one parse event.
#[verifier::external_type_specification]
#[verifier::external_body]
pub struct ExEvent<'a>(Event<'a>);

/// `pulldown_cmark::Tag`, what an opening event opens.
#[verifier::external_type_specification]
#[verifier::external_body]
pub struct ExTag<'a>(Tag<'a>);

/// The events that `pulldown_cmark::Parser::new_ext` yields for a text, with
/// strikethrough as its one extension.
pub uninterp spec fn markdown_events(md: Seq<char>) -> Seq<SpecMdEvent>;

/// What a `pulldown_cmark::Event` holds.
pub uninterp spec fn event_content(e: Event) -> SpecMdEvent;

/// What a `pulldown_cmark::Tag` holds.
pub uninterp spec fn tag_content(t: Tag) -> SpecMdTag;

/// An event with its tag still unopened.
pub enum EventNode<'a> {
    Start(Tag<'a>),
    Plain(MdEvent),
}

/// What an event node holds.
pub open spec fn node_content(n: EventNode) -> SpecMdEvent {
    match n {
        EventNode::Start(t) => SpecMdEvent::Start(tag_content(t)),
        EventNode::Plain(e) => e@,
    }
}

/// What events in a list hold.
pub open spec fn contents(s: Seq<Event>) -> Seq<SpecMdEvent> {
    s.map_values(|e: Event| event_content(e))
}

/// `pulldown_cmark::Parser::new_ext` with `ENABLE_STRIKETHROUGH`, run to its end. The
/// events depend on the text alone. Any text is accepted: the parser gives up on kinds of
/// item that have no event, and those are the undecided ones, which its second pass over a
/// block settles before it walks the block, and those of options that are not set.
#[verifier::external_body]
fn parse_events<'a>(md: &'a str) -> (r: Vec<Event<'a>>)
    ensures
        contents(r@) == markdown_events(md@),
{
    Parser::new_ext(md, Options::ENABLE_STRIKETHROUGH).collect()
}

/// The variants of `pulldown_cmark::Event` told apart; the kinds that the reader does
/// not render are all `Other`.
#[verifier::external_body]
fn open_event<'a>(e: Event<'a>) -> (r: EventNode<'a>)
    ensures
        node_content(r) == event_content(e),
{
    match e {
        Event::Start(t) => EventNode::Start(t),
        Event::End(_) => EventNode::Plain(MdEvent::End),
        Event::Text(t) => EventNode::Plain(MdEvent::Text(t.into_string())),
        Event::Code(t) => EventNode::Plain(MdEvent::Code(t.into_string())),
        Event::SoftBreak => EventNode::Plain(MdEvent::SoftBreak),
        Event::HardBreak => EventNode::Plain(MdEvent::HardBreak),
        Event::Rule => EventNode::Plain(MdEvent::Rule),
        _ => EventNode::Plain(MdEvent::Other),
    }
}

/// The variants of `pulldown_cmark::Tag` told apart, a heading's level as a number; the
/// kinds that the reader does not render are all `Other`.
#[verifier::external_body]
fn open_tag<'a>(t: Tag<'a>) -> (r: MdTag)
    ensures
        r@ == tag_content(t),
{
    match t {
        Tag::Paragraph => MdTag::Paragraph,
        Tag::Heading { level, .. } => MdTag::Heading(level as u8),
        Tag::BlockQuote(_) => MdTag::BlockQuote,
        Tag::CodeBlock(CodeBlockKind::Fenced(i)) => MdTag::CodeBlock(Some(i.into_string())),
        Tag::CodeBlock(CodeBlockKind::Indented) => MdTag::CodeBlock(None),
        Tag::List(start) => MdTag::List(start),
        Tag::Item => MdTag::Item,
        Tag::Strong => MdTag::Strong,
        Tag::Emphasis => MdTag::Emphasis,
        Tag::Strikethrough => MdTag::Strikethrough,
        Tag::Link { dest_url, .. } => MdTag::Link(dest_url.into_string()),
        Tag::Image { dest_url, .. } => MdTag::Image(dest_url.into_string()),
        _ => MdTag::Other,
    }
}

/// The events of a Markdown text.
pub fn markdown_stream(md: &str) -> (r: Vec<MdEvent>)
    ensures
        events_view(r@) == markdown_events(md@),
{
    let events = parse_events(md);
    let ghost all = contents(events@);
    let mut out: Vec<MdEvent> = Vec::new();
    assert(events_view(out@) =~= all.take(0));
    for e in it: events.into_iter()
        invariant
            contents(it.seq()) == all,
            events_view(out@) == all.take(it.index() as int),
    {
        let ghost before = out@;
        assert(all[it.index() as int] == event_content(e));
        let event = match open_event(e) {
            EventNode::Start(t) => MdEvent::Start(open_tag(t)),
            EventNode::Plain(p) => p,
        };
        let ghost seen = event@;
        out.push(event);
        assert(events_view(out@) =~= events_view(before).push(seen));
        assert(all.take(it.index() as int).push(seen) =~= all.take(it.index() + 1));
    }
    assert(all.take(all.len() as int) =~= all);
    out
}

// --- The stack of open containers -------------------------------------------------

/// An open container: block containers collect blocks, inline containers collect
/// inlines, leaves collect text.
pub enum Frame {
    Root(Vec<Block>),
    Quote(Vec<Block>),
    Item(Vec<Block>),
    List { ordered: bool, items: Vec<Vec<Block>> },
    Paragraph(Vec<Inline>),
    Heading { level: u8, content: Vec<Inline> },
    Code { lang: Option<String>, text: String },
    Strong(Vec<Inline>),
    Emphasis(Vec<Inline>),
    Strike(Vec<Inline>),
    Link { href: String, content: Vec<Inline> },
    Image { dest: String, alt: String },
}

/// [`Frame`] over sequences.
pub enum SpecFrame {
    Root(Seq<SpecBlock>),
    Quote(Seq<SpecBlock>),
    Item(Seq<SpecBlock>),
    List { ordered: bool, items: Seq<Seq<SpecBlock>> },
    Paragraph(Seq<SpecInline>),
    Heading { level: u8, content: Seq<SpecInline> },
    Code { lang: Option<Seq<char>>, text: Seq<char> },
    Strong(Seq<SpecInline>),
    Emphasis(Seq<SpecInline>),
    Strike(Seq<SpecInline>),
    Link { href: Seq<char>, content: Seq<SpecInline> },
    Image { dest: Seq<char>, alt: Seq<char> },
}

impl View for Frame {
    type V = SpecFrame;

    open spec fn view(&self) -> SpecFrame {
        match *self {
            Frame::Root(b) => SpecFrame::Root(blocks_view(b@)),
            Frame::Quote(b) => SpecFrame::Quote(blocks_view(b@)),
            Frame::Item(b) => SpecFrame::Item(blocks_view(b@)),
            Frame::List { ordered, items } => SpecFrame::List {
                ordered,
                items: items_view(items@),
            },
            Frame::Paragraph(c) => SpecFrame::Paragraph(inlines_view(c@)),
            Frame::Heading { level, content } => SpecFrame::Heading {
                level,
                content: inlines_view(content@),
            },
            Frame::Code { lang, text } => SpecFrame::Code { lang: opt_view(lang), text: text@ },
            Frame::Strong(c) => SpecFrame::Strong(inlines_view(c@)),
            Frame::Emphasis(c) => SpecFrame::Emphasis(inlines_view(c@)),
            Frame::Strike(c) => SpecFrame::Strike(inlines_view(c@)),
            Frame::Link { href, content } => SpecFrame::Link {
                href: href@,
                content: inlines_view(content@),
            },
            Frame::Image { dest, alt } => SpecFrame::Image { dest: dest@, alt: alt@ },
        }
    }
}

/// A stack by its views.
pub open spec fn stack_view(s: Seq<Frame>) -> Seq<SpecFrame> {
    s.map_values(|f: Frame| f@)
}

/// The stack with its top replaced.
pub open spec fn retop(stack: Seq<SpecFrame>, top: SpecFrame) -> Seq<SpecFrame> {
    stack.drop_last().push(top)
}

/// The stack after a block is complete: an open block container takes it; elsewhere it
/// is dropped.
pub open spec fn with_block(stack: Seq<SpecFrame>, b: SpecBlock) -> Seq<SpecFrame> {
    if stack.len() == 0 {
        stack
    } else {
        match stack.last() {
            SpecFrame::Root(bs) => retop(stack, SpecFrame::Root(bs.push(b))),
            SpecFrame::Quote(bs) => retop(stack, SpecFrame::Quote(bs.push(b))),
            SpecFrame::Item(bs) => retop(stack, SpecFrame::Item(bs.push(b))),
            _ => stack,
        }
    }
}

/// The stack after an inline is complete: an open inline container takes it; elsewhere
/// it becomes a paragraph.
pub open spec fn with_inline(stack: Seq<SpecFrame>, x: SpecInline) -> Seq<SpecFrame> {
    let loose = with_block(stack, SpecBlock::Paragraph(seq![x]));
    if stack.len() == 0 {
        loose
    } else {
        match stack.last() {
            SpecFrame::Paragraph(c) => retop(stack, SpecFrame::Paragraph(c.push(x))),
            SpecFrame::Heading { level, content } => retop(
                stack,
                SpecFrame::Heading { level, content: content.push(x) },
            ),
            SpecFrame::Strong(c) => retop(stack, SpecFrame::Strong(c.push(x))),
            SpecFrame::Emphasis(c) => retop(stack, SpecFrame::Emphasis(c.push(x))),
            SpecFrame::Strike(c) => retop(stack, SpecFrame::Strike(c.push(x))),
            SpecFrame::Link { href, content } => retop(
                stack,
                SpecFrame::Link { href, content: content.push(x) },
            ),
            _ => loose,
        }
    }
}

/// The stack after a list item is complete: an open list takes it.
pub open spec fn with_item(stack: Seq<SpecFrame>, item: Seq<SpecBlock>) -> Seq<SpecFrame> {
    if stack.len() == 0 {
        stack
    } else {
        match stack.last() {
            SpecFrame::List { ordered, items } => retop(
                stack,
                SpecFrame::List { ordered, items: items.push(item) },
            ),
            _ => stack,
        }
    }
}

/// The stack after text: an open code block or image takes it as it is.
pub open spec fn with_text(stack: Seq<SpecFrame>, t: Seq<char>) -> Seq<SpecFrame> {
    let inline = with_inline(stack, SpecInline::Text(t));
    if stack.len() == 0 {
        inline
    } else {
        match stack.last() {
            SpecFrame::Code { lang, text } => retop(
                stack,
                SpecFrame::Code { lang, text: text + t },
            ),
            SpecFrame::Image { dest, alt } => retop(stack, SpecFrame::Image { dest, alt: alt + t }),
            _ => inline,
        }
    }
}

/// The first word of an info string, if it has one.
pub open spec fn first_word(info: Seq<char>) -> Option<Seq<char>> {
    let a = skip_space(info, 0);
    let b = word_end(info, a);
    if a < b {
        Some(info.subrange(a, b))
    } else {
        None
    }
}

/// The empty container that a tag opens.
pub open spec fn opened(tag: SpecMdTag) -> SpecFrame {
    match tag {
        SpecMdTag::Paragraph => SpecFrame::Paragraph(Seq::empty()),
        SpecMdTag::Heading(level) => SpecFrame::Heading { level, content: Seq::empty() },
        SpecMdTag::BlockQuote => SpecFrame::Quote(Seq::empty()),
        SpecMdTag::CodeBlock(info) => SpecFrame::Code {
            lang: match info {
                Some(i) => first_word(i),
                None => None,
            },
            text: Seq::empty(),
        },
        SpecMdTag::List(start) => SpecFrame::List { ordered: start is Some, items: Seq::empty() },
        SpecMdTag::Item => SpecFrame::Item(Seq::empty()),
        SpecMdTag::Strong => SpecFrame::Strong(Seq::empty()),
        SpecMdTag::Emphasis => SpecFrame::Emphasis(Seq::empty()),
        SpecMdTag::Strikethrough => SpecFrame::Strike(Seq::empty()),
        SpecMdTag::Link(href) => SpecFrame::Link { href, content: Seq::empty() },
        SpecMdTag::Image(dest) => SpecFrame::Image { dest, alt: Seq::empty() },
        SpecMdTag::Other => SpecFrame::Paragraph(Seq::empty()),
    }
}

/// `s` without a newline at its end.
pub open spec fn without_newline(s: Seq<char>) -> Seq<char> {
    if s.len() > 0 && s.last() == '\n' {
        s.drop_last()
    } else {
        s
    }
}

/// The stack after its top is closed: what was open becomes a block, an inline or an
/// item of what is below. The root is never closed.
pub open spec fn ended(stack: Seq<SpecFrame>) -> Seq<SpecFrame> {
    if stack.len() == 0 {
        stack
    } else {
        let below = stack.drop_last();
        match stack.last() {
            SpecFrame::Root(_) => stack,
            SpecFrame::Paragraph(c) => with_block(below, SpecBlock::Paragraph(c)),
            SpecFrame::Heading { level, content } => with_block(
                below,
                SpecBlock::Heading { level, content },
            ),
            SpecFrame::Quote(bs) => with_block(below, SpecBlock::Quote(bs)),
            SpecFrame::Code { lang, text } => with_block(
                below,
                SpecBlock::Code { lang, text: without_newline(text) },
            ),
            SpecFrame::List { ordered, items } => with_block(
                below,
                SpecBlock::List { ordered, items },
            ),
            SpecFrame::Item(bs) => with_item(below, bs),
            SpecFrame::Strong(c) => with_inline(below, SpecInline::Strong(c)),
            SpecFrame::Emphasis(c) => with_inline(below, SpecInline::Emphasis(c)),
            SpecFrame::Strike(c) => with_inline(below, SpecInline::Strike(c)),
            SpecFrame::Link { href, content } => with_inline(
                below,
                SpecInline::Link { href, content },
            ),
            SpecFrame::Image { dest, alt } => with_inline(
                below,
                SpecInline::Image(url_image_of(dest, alt)),
            ),
        }
    }
}

/// The stack after one event.
pub open spec fn handled(stack: Seq<SpecFrame>, e: SpecMdEvent) -> Seq<SpecFrame> {
    match e {
        SpecMdEvent::Start(tag) => stack.push(opened(tag)),
        SpecMdEvent::End => ended(stack),
        SpecMdEvent::Text(t) => with_text(stack, t),
        SpecMdEvent::Code(t) => with_inline(stack, SpecInline::Code(t)),
        SpecMdEvent::SoftBreak => with_text(stack, " "@),
        SpecMdEvent::HardBreak => with_inline(stack, SpecInline::LineBreak),
        SpecMdEvent::Rule => with_block(stack, SpecBlock::Rule),
        SpecMdEvent::Other => stack,
    }
}

/// The stack after the first `n` events, from an empty root.
pub open spec fn folded(events: Seq<SpecMdEvent>, n: int) -> Seq<SpecFrame>
    decreases n,
{
    if n <= 0 {
        seq![SpecFrame::Root(Seq::empty())]
    } else {
        handled(folded(events, n - 1), events[n - 1])
    }
}

/// The stack with its top closed `n` times.
pub open spec fn closed_down(stack: Seq<SpecFrame>, n: nat) -> Seq<SpecFrame>
    decreases n,
{
    if n == 0 {
        stack
    } else {
        closed_down(ended(stack), (n - 1) as nat)
    }
}

/// The blocks of a root.
pub open spec fn root_blocks(stack: Seq<SpecFrame>) -> Seq<SpecBlock> {
    match stack.last() {
        SpecFrame::Root(bs) => bs,
        _ => Seq::empty(),
    }
}

/// The blocks that a stream of events folds into; what it leaves open is closed.
pub open spec fn built(events: Seq<SpecMdEvent>) -> Seq<SpecBlock> {
    let stack = folded(events, events.len() as int);
    root_blocks(closed_down(stack, (stack.len() - 1) as nat))
}

/// The stack as it always is: a root, and above it anything but roots.
pub open spec fn rooted(stack: Seq<SpecFrame>) -> bool {
    &&& stack.len() > 0
    &&& stack[0] is Root
    &&& forall|i: int| 0 < i < stack.len() ==> !(#[trigger] stack[i] is Root)
}

/// The stack of open containers.
pub struct Builder {
    stack: Vec<Frame>,
}

impl Builder {
    /// The open containers, outermost first.
    pub closed spec fn frames(&self) -> Seq<SpecFrame> {
        stack_view(self.stack@)
    }

    /// A builder with nothing open but the root.
    pub fn new() -> (r: Self)
        ensures
            r.frames() == folded(Seq::empty(), 0),
            rooted(r.frames()),
    {
        let mut stack: Vec<Frame> = Vec::new();
        stack.push(Frame::Root(Vec::new()));
        assert(stack_view(stack@) =~= seq![SpecFrame::Root(Seq::empty())]);
        Builder { stack }
    }

    fn push_block(&mut self, block: Block)
        ensures
            final(self).frames() == with_block(old(self).frames(), block_view(block)),
            final(self).frames().len() == old(self).frames().len(),
            rooted(old(self).frames()) ==> rooted(final(self).frames()),
    {
        broadcast use group_model_push;

        let ghost before = self.stack@;
        match self.stack.pop() {
            None => {},
            Some(Frame::Root(b)) => {
                let mut b = b;
                b.push(block);
                self.stack.push(Frame::Root(b));
            },
            Some(Frame::Quote(b)) => {
                let mut b = b;
                b.push(block);
                self.stack.push(Frame::Quote(b));
            },
            Some(Frame::Item(b)) => {
                let mut b = b;
                b.push(block);
                self.stack.push(Frame::Item(b));
            },
            Some(other) => {
                self.stack.push(other);
                assert(self.stack@ =~= before);
            },
        }
        assert(self.frames() =~= with_block(stack_view(before), block_view(block)));
    }

    fn push_item(&mut self, blocks: Vec<Block>)
        ensures
            final(self).frames() == with_item(old(self).frames(), blocks_view(blocks@)),
            final(self).frames().len() == old(self).frames().len(),
            rooted(old(self).frames()) ==> rooted(final(self).frames()),
    {
        broadcast use group_model_push;

        let ghost before = self.stack@;
        match self.stack.pop() {
            None => {},
            Some(Frame::List { ordered, items }) => {
                let mut items = items;
                items.push(blocks);
                self.stack.push(Frame::List { ordered, items });
            },
            Some(other) => {
                self.stack.push(other);
                assert(self.stack@ =~= before);
            },
        }
        assert(self.frames() =~= with_item(stack_view(before), blocks_view(blocks@)));
    }

    fn push_inline(&mut self, inline: Inline)
        ensures
            final(self).frames() == with_inline(old(self).frames(), inline_view(inline)),
            final(self).frames().len() == old(self).frames().len(),
            rooted(old(self).frames()) ==> rooted(final(self).frames()),
    {
        broadcast use group_model_push;

        let ghost before = self.stack@;
        match self.stack.pop() {
            None => {
                assert(self.frames() =~= stack_view(before));
            },
            Some(Frame::Paragraph(c)) => {
                let mut c = c;
                c.push(inline);
                self.stack.push(Frame::Paragraph(c));
            },
            Some(Frame::Heading { level, content }) => {
                let mut content = content;
                content.push(inline);
                self.stack.push(Frame::Heading { level, content });
            },
            Some(Frame::Strong(c)) => {
                let mut c = c;
                c.push(inline);
                self.stack.push(Frame::Strong(c));
            },
            Some(Frame::Emphasis(c)) => {
                let mut c = c;
                c.push(inline);
                self.stack.push(Frame::Emphasis(c));
            },
            Some(Frame::Strike(c)) => {
                let mut c = c;
                c.push(inline);
                self.stack.push(Frame::Strike(c));
            },
            Some(Frame::Link { href, content }) => {
                let mut content = content;
                content.push(inline);
                self.stack.push(Frame::Link { href, content });
            },
            Some(other) => {
                self.stack.push(other);
                assert(self.stack@ =~= before);
                let paragraph = one_inline(inline);
                self.push_block(Block::Paragraph(paragraph));
            },
        }
        assert(self.frames() =~= with_inline(stack_view(before), inline_view(inline)));
    }

    fn text(&mut self, s: &str)
        ensures
            final(self).frames() == with_text(old(self).frames(), s@),
            final(self).frames().len() == old(self).frames().len(),
            rooted(old(self).frames()) ==> rooted(final(self).frames()),
    {
        let ghost before = self.stack@;
        match self.stack.pop() {
            None => {
                assert(self.frames() =~= stack_view(before));
            },
            Some(Frame::Code { lang, text }) => {
                let mut text = text;
                text.push_str(s);
                self.stack.push(Frame::Code { lang, text });
            },
            Some(Frame::Image { dest, alt }) => {
                let mut alt = alt;
                alt.push_str(s);
                self.stack.push(Frame::Image { dest, alt });
            },
            Some(other) => {
                self.stack.push(other);
                assert(self.stack@ =~= before);
                self.push_inline(Inline::Text(owned(s)));
            },
        }
        assert(self.frames() =~= with_text(stack_view(before), s@));
    }

    fn start(&mut self, tag: MdTag)
        ensures
            final(self).frames() == old(self).frames().push(opened(tag@)),
            rooted(old(self).frames()) ==> rooted(final(self).frames()),
    {
        let ghost before = self.stack@;
        let frame = match tag {
            MdTag::Paragraph => Frame::Paragraph(Vec::new()),
            MdTag::Heading(level) => Frame::Heading { level, content: Vec::new() },
            MdTag::BlockQuote => Frame::Quote(Vec::new()),
            MdTag::CodeBlock(info) => Frame::Code {
                lang: match info {
                    Some(i) => code_lang(i.as_str()),
                    None => None,
                },
                text: String::new(),
            },
            MdTag::List(start) => Frame::List { ordered: start.is_some(), items: Vec::new() },
            MdTag::Item => Frame::Item(Vec::new()),
            MdTag::Strong => Frame::Strong(Vec::new()),
            MdTag::Emphasis => Frame::Emphasis(Vec::new()),
            MdTag::Strikethrough => Frame::Strike(Vec::new()),
            MdTag::Link(href) => Frame::Link { href, content: Vec::new() },
            MdTag::Image(dest) => Frame::Image { dest, alt: String::new() },
            MdTag::Other => Frame::Paragraph(Vec::new()),
        };
        self.stack.push(frame);
        assert(self.frames() =~= stack_view(before).push(opened(tag@)));
    }

    fn end(&mut self)
        ensures
            final(self).frames() == ended(old(self).frames()),
            rooted(old(self).frames()) ==> rooted(final(self).frames()),
            old(self).frames().len() > 0 && !(old(self).frames().last() is Root)
                ==> final(self).frames().len() == old(self).frames().len() - 1,
    {
        let ghost before = self.stack@;
        let frame = match self.stack.pop() {
            None => {
                assert(self.frames() =~= stack_view(before));
                return ;
            },
            Some(frame) => frame,
        };
        assert(stack_view(self.stack@) =~= stack_view(before).drop_last());
        match frame {
            Frame::Paragraph(content) => self.push_block(Block::Paragraph(content)),
            Frame::Heading { level, content } => self.push_block(Block::Heading { level, content }),
            Frame::Quote(blocks) => self.push_block(Block::Quote(blocks)),
            Frame::Code { lang, text } => {
                let text = strip_newline(text);
                self.push_block(Block::Code { lang, text });
            },
            Frame::List { ordered, items } => self.push_block(Block::List { ordered, items }),
            Frame::Item(blocks) => self.push_item(blocks),
            Frame::Strong(content) => self.push_inline(Inline::Strong(content)),
            Frame::Emphasis(content) => self.push_inline(Inline::Emphasis(content)),
            Frame::Strike(content) => self.push_inline(Inline::Strike(content)),
            Frame::Link { href, content } => self.push_inline(Inline::Link { href, content }),
            Frame::Image { dest, alt } => self.push_inline(
                Inline::Image(url_image(dest.as_str(), alt.as_str())),
            ),
            Frame::Root(blocks) => {
                self.stack.push(Frame::Root(blocks));
                assert(self.stack@ =~= before);
            },
        }
    }

    /// Take one event in.
    pub fn handle(&mut self, event: MdEvent)
        ensures
            final(self).frames() == handled(old(self).frames(), event@),
            rooted(old(self).frames()) ==> rooted(final(self).frames()),
    {
        match event {
            MdEvent::Start(tag) => self.start(tag),
            MdEvent::End => self.end(),
            MdEvent::Text(t) => self.text(t.as_str()),
            MdEvent::Code(t) => self.push_inline(Inline::Code(t)),
            MdEvent::SoftBreak => self.text(" "),
            MdEvent::HardBreak => self.push_inline(Inline::LineBreak),
            MdEvent::Rule => self.push_block(Block::Rule),
            MdEvent::Other => {},
        }
    }

    /// Close what is open and hand out the root's blocks.
    pub fn finish(self) -> (r: Vec<Block>)
        requires
            rooted(self.frames()),
        ensures
            blocks_view(r@) == root_blocks(
                closed_down(self.frames(), (self.frames().len() - 1) as nat),
            ),
    {
        let mut this = self;
        let ghost whole = self.frames();
        while this.stack.len() > 1
            invariant
                this.frames().len() == this.stack@.len(),
                rooted(this.frames()),
                closed_down(this.frames(), (this.frames().len() - 1) as nat) == closed_down(
                    whole,
                    (whole.len() - 1) as nat,
                ),
            decreases this.stack@.len(),
        {
            assert(!(this.frames().last() is Root));
            this.end();
        }
        assert(this.frames().last() == this.stack@.last()@);
        match this.stack.pop() {
            Some(Frame::Root(blocks)) => blocks,
            _ => Vec::new(),
        }
    }
}

/// The first word of an info string.
fn code_lang(info: &str) -> (r: Option<String>)
    ensures
        opt_view(r) == first_word(info@),
{
    let v = chars_of(info);
    let mut a: usize = 0;
    while a < v.len() && is_whitespace(v[a])
        invariant
            a <= v@.len(),
            skip_space(v@, 0) == skip_space(v@, a as int),
        decreases v@.len() - a,
    {
        a = a + 1;
    }
    let mut b: usize = a;
    while b < v.len() && !is_whitespace(v[b])
        invariant
            a <= b <= v@.len(),
            word_end(v@, a as int) == word_end(v@, b as int),
        decreases v@.len() - b,
    {
        b = b + 1;
    }
    if a < b {
        Some(slice_of(&v, a, b))
    } else {
        None
    }
}

/// `s` without a newline at its end.
fn strip_newline(s: String) -> (r: String)
    ensures
        r@ == without_newline(s@),
{
    let v = chars_of(s.as_str());
    if v.len() > 0 && v[v.len() - 1] == '\n' {
        let r = slice_of(&v, 0, v.len() - 1);
        assert(v@.subrange(0, v@.len() - 1) =~= v@.drop_last());
        r
    } else {
        s
    }
}

/// The blocks that a stream of events folds into.
pub fn build(events: Vec<MdEvent>) -> (r: Vec<Block>)
    ensures
        blocks_view(r@) == built(events_view(events@)),
{
    let ghost all = events_view(events@);
    let mut builder = Builder::new();
    for e in it: events.into_iter()
        invariant
            all == events_view(it.seq()),
            rooted(builder.frames()),
            builder.frames() == folded(all, it.index() as int),
    {
        assert(all[it.index() as int] == e@);
        builder.handle(e);
    }
    builder.finish()
}

// --- Documents --------------------------------------------------------------------

/// The document that a stream of events stands for.
pub open spec fn markdown_doc(events: Seq<SpecMdEvent>) -> Seq<SpecBlock> {
    hoisted(built(events))
}

/// The document that a stream of events stands for.
pub fn from_events(events: Vec<MdEvent>) -> (r: RichDoc)
    ensures
        r@ == markdown_doc(events_view(events@)),
{
    RichDoc { blocks: hoist_images(build(events)) }
}

/// Parse a Markdown text into a document.
pub fn from_markdown(md: &str) -> (r: RichDoc)
    ensures
        r@ == markdown_doc(markdown_events(md@)),
{
    from_events(markdown_stream(md))
}

/// The Markdown text of a value: a bare string, or a wrapper's `text.markdown`.
pub open spec fn markdown_text(content: SpecJson) -> Option<Seq<char>> {
    match content {
        SpecJson::Str(s) => Some(s),
        _ => match content.get("text"@) {
            Some(t) => t.get_str("markdown"@),
            None => None,
        },
    }
}

/// Decoder of Markdown documents.
pub struct Markdown;

impl ContentDecoder for Markdown {
    open spec fn claims(&self, content: SpecJson) -> bool {
        content is Str || content.get_str("$type"@) == Some("at.markpub.markdown"@)
    }

    open spec fn decoded(&self, content: SpecJson, did: Seq<char>) -> Option<Seq<SpecBlock>> {
        match markdown_text(content) {
            Some(md) => Some(markdown_doc(markdown_events(md))),
            None => None,
        }
    }

    open spec fn platform(&self, content: SpecJson) -> Option<PublishingPlatform> {
        None
    }

    fn handles(&self, content: &Json) -> (r: bool) {
        content.is_string() || crate::decode::has_type(content, "at.markpub.markdown")
    }

    fn decode(&self, content: &Json, ctx: &DecodeCtx) -> (r: Option<RichDoc>) {
        let md = match content.as_str() {
            Some(s) => s,
            None => match content.get("text") {
                None => return None,
                Some(t) => match t.get_str("markdown") {
                    None => return None,
                    Some(s) => s,
                },
            },
        };
        Some(from_markdown(md))
    }

    fn publishing_platform(&self, content: &Json) -> (r: Option<PublishingPlatform>) {
        None
    }
}

} // verus!
