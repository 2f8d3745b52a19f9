//! A document as styled lines of text. The reader wraps and scrolls the result. Images
//! and callouts at the top level get segments of their own there; what stands here for
//! them is how they look inside a quote or a list.
use vstd::prelude::*;

use super::theme::{Color, TextStyle, Theme};
use crate::model::{
    block_view, blocks_view, cells_view, images_view, inline_view, inlines_view, items_view,
    lemma_blocks_view, lemma_inlines_view, lemma_items_view, opt_view, rows_view, Block, Image,
    Inline, SpecBlock, SpecImage, SpecInline,
};
use crate::text::{
    chars_of, decimal, decimal_of, join2, lines_of, owned, pad_right, padded, repeat_char,
    repeated, slice_of, strings_view, text_lines,
};

verus! {

// --- Styled text ------------------------------------------------------------------

/// A run of text in one style.
#[derive(PartialEq, Eq, Debug)]
pub struct Span {
    pub content: String,
    pub style: TextStyle,
}

/// [`Span`] over sequences.
pub struct SpecSpan {
    pub content: Seq<char>,
    pub style: TextStyle,
}

impl View for Span {
    type V = SpecSpan;

    open spec fn view(&self) -> SpecSpan {
        SpecSpan { content: self.content@, style: self.style }
    }
}

impl Clone for Span {
    fn clone(&self) -> (r: Self)
        ensures
            r@ == self@,
    {
        Span { content: self.content.clone(), style: self.style }
    }
}

/// Spans by their views.
pub open spec fn spans_view(s: Seq<Span>) -> Seq<SpecSpan> {
    s.map_values(|x: Span| x@)
}

/// One line of text: its spans, and a style under theirs.
#[derive(PartialEq, Eq, Debug)]
pub struct Line {
    pub style: TextStyle,
    pub spans: Vec<Span>,
}

/// [`Line`] over sequences.
pub struct SpecLine {
    pub style: TextStyle,
    pub spans: Seq<SpecSpan>,
}

impl View for Line {
    type V = SpecLine;

    open spec fn view(&self) -> SpecLine {
        SpecLine { style: self.style, spans: spans_view(self.spans@) }
    }
}

/// A copy of spans.
pub fn copy_spans(v: &Vec<Span>) -> (r: Vec<Span>)
    ensures
        spans_view(r@) == spans_view(v@),
{
    let mut out: Vec<Span> = Vec::new();
    let mut i: usize = 0;
    while i < v.len()
        invariant
            i <= v@.len(),
            out@.len() == i,
            forall|k: int| 0 <= k < i ==> (#[trigger] out@[k])@ == v@[k]@,
        decreases v@.len() - i,
    {
        out.push(v[i].clone());
        i = i + 1;
    }
    assert(spans_view(out@) =~= spans_view(v@));
    out
}

impl Clone for Line {
    fn clone(&self) -> (r: Self)
        ensures
            r@ == self@,
    {
        Line { style: self.style, spans: copy_spans(&self.spans) }
    }
}

/// Lines by their views.
pub open spec fn lines_view(s: Seq<Line>) -> Seq<SpecLine> {
    s.map_values(|x: Line| x@)
}

/// Appending a line appends its view.
pub broadcast proof fn lemma_lines_push(s: Seq<Line>, x: Line)
    ensures
        #[trigger] lines_view(s.push(x)) == lines_view(s).push(x@),
{
    assert(lines_view(s.push(x)) =~= lines_view(s).push(x@));
}

/// Appending a span appends its view.
pub broadcast proof fn lemma_spans_push(s: Seq<Span>, x: Span)
    ensures
        #[trigger] spans_view(s.push(x)) == spans_view(s).push(x@),
{
    assert(spans_view(s.push(x)) =~= spans_view(s).push(x@));
}

/// A line of spans without a style of its own.
pub open spec fn bare_line(spans: Seq<SpecSpan>) -> SpecLine {
    SpecLine { style: TextStyle::unstyled(), spans }
}

/// A line in one style: a text's lines, one span each, side by side.
pub open spec fn line_in(text: Seq<char>, style: TextStyle) -> SpecLine {
    SpecLine {
        style,
        spans: text_lines(text).map_values(
            |l: Seq<char>| SpecSpan { content: l, style: TextStyle::unstyled() },
        ),
    }
}

impl Line {
    /// A line of spans without a style of its own.
    pub fn from(spans: Vec<Span>) -> (r: Line)
        ensures
            r@ == bare_line(spans_view(spans@)),
    {
        Line { style: TextStyle::new(), spans }
    }

    /// A line in one style.
    pub fn styled(text: &str, style: TextStyle) -> (r: Line)
        ensures
            r@ == line_in(text@, style),
    {
        let parts = lines_of(text);
        let ghost all = text_lines(text@);
        let mut spans: Vec<Span> = Vec::new();
        let mut i: usize = 0;
        assert(strings_view(parts@).len() == parts@.len());
        while i < parts.len()
            invariant
                i <= parts@.len(),
                all == strings_view(parts@),
                spans@.len() == i,
                forall|k: int|
                    0 <= k < i ==> (#[trigger] spans@[k])@ == (SpecSpan {
                        content: all[k],
                        style: TextStyle::unstyled(),
                    }),
            decreases parts@.len() - i,
        {
            spans.push(Span { content: parts[i].clone(), style: TextStyle::new() });
            i = i + 1;
        }
        assert(spans_view(spans@) =~= line_in(text@, style).spans);
        Line { style, spans }
    }

    /// The line with a span before its others.
    pub fn prefix(&mut self, span: Span)
        ensures
            final(self)@ == with_prefix(old(self)@, span@),
    {
        let ghost before = spans_view(self.spans@);
        self.spans.insert(0, span);
        assert(spans_view(self.spans@) =~= seq![span@] + before);
    }
}

/// A line with a span before its others.
pub open spec fn with_prefix(l: SpecLine, span: SpecSpan) -> SpecLine {
    SpecLine { style: l.style, spans: seq![span] + l.spans }
}

/// A span by its text and style.
pub fn span(content: &str, style: TextStyle) -> (r: Span)
    ensures
        r@ == (SpecSpan { content: content@, style }),
{
    Span { content: owned(content), style }
}

// --- Inline content ---------------------------------------------------------------

/// The text of inlines without their styles.
pub open spec fn plain_text(x: SpecInline) -> Seq<char>
    decreases x,
{
    match x {
        SpecInline::Text(t) => t,
        SpecInline::Code(t) => t,
        SpecInline::Strong(c) => plain_texts(c),
        SpecInline::Emphasis(c) => plain_texts(c),
        SpecInline::Strike(c) => plain_texts(c),
        SpecInline::Underline(c) => plain_texts(c),
        SpecInline::Highlight(c) => plain_texts(c),
        SpecInline::Link { href: _, content } => plain_texts(content),
        SpecInline::Image(img) => img.alt,
        SpecInline::LineBreak => seq![' '],
    }
}

/// The text of inlines, in order.
pub open spec fn plain_texts(s: Seq<SpecInline>) -> Seq<char>
    decreases s,
{
    if s.len() == 0 {
        Seq::empty()
    } else {
        plain_texts(s.drop_last()) + plain_text(s.last())
    }
}

fn push_plain(x: &Inline, out: &mut String)
    ensures
        final(out)@ == old(out)@ + plain_text(inline_view(*x)),
    decreases x,
{
    match x {
        Inline::Text(t) => out.push_str(t.as_str()),
        Inline::Code(t) => out.push_str(t.as_str()),
        Inline::Strong(c) => push_plain_all(c, out),
        Inline::Emphasis(c) => push_plain_all(c, out),
        Inline::Strike(c) => push_plain_all(c, out),
        Inline::Underline(c) => push_plain_all(c, out),
        Inline::Highlight(c) => push_plain_all(c, out),
        Inline::Link { href: _, content } => push_plain_all(content, out),
        Inline::Image(img) => out.push_str(img.alt.as_str()),
        Inline::LineBreak => {
            let ghost before = out@;
            out.push(' ');
            assert(out@ =~= before + seq![' ']);
        },
    }
}

fn push_plain_all(v: &Vec<Inline>, out: &mut String)
    ensures
        final(out)@ == old(out)@ + plain_texts(inlines_view(v@)),
    decreases v,
{
    let ghost all = inlines_view(v@);
    let ghost start = out@;
    let mut i: usize = 0;
    assert(all.take(0) =~= Seq::empty());
    assert(start + Seq::<char>::empty() =~= start);
    while i < v.len()
        invariant
            i <= v@.len(),
            all == inlines_view(v@),
            out@ == start + plain_texts(all.take(i as int)),
        decreases v@.len() - i,
    {
        broadcast use lemma_inlines_view;

        push_plain(&v[i], out);
        assert(all.take(i + 1).drop_last() =~= all.take(i as int));
        assert(out@ =~= start + plain_texts(all.take(i + 1)));
        i = i + 1;
    }
    proof {
        broadcast use lemma_inlines_view;

        assert(all.take(all.len() as int) =~= all);
    }
}

/// The text of inlines without their styles: what a table's cell shows.
pub fn inline_text(inlines: &Vec<Inline>) -> (r: String)
    ensures
        r@ == plain_texts(inlines_view(inlines@)),
{
    let mut out = String::new();
    push_plain_all(inlines, &mut out);
    assert(Seq::<char>::empty() + plain_texts(inlines_view(inlines@)) =~= plain_texts(
        inlines_view(inlines@),
    ));
    out
}

/// The style of a link on top of another.
pub open spec fn link_style(base: TextStyle, t: Theme) -> TextStyle {
    TextStyle { fg: Some(t.accent), underlined: true, ..base }
}

/// The style of highlighted text on top of another.
pub open spec fn mark_style(base: TextStyle, t: Theme) -> TextStyle {
    TextStyle { fg: Some(t.bg), bg: Some(t.accent2), ..base }
}

/// The spans of an inline. A line break inside other inlines is a space.
pub open spec fn inline_spans(x: SpecInline, base: TextStyle, t: Theme) -> Seq<SpecSpan>
    decreases x,
{
    match x {
        SpecInline::Text(s) => seq![SpecSpan { content: s, style: base }],
        SpecInline::Strong(c) => run_spans(c, TextStyle { bold: true, ..base }, t),
        SpecInline::Emphasis(c) => run_spans(c, TextStyle { italic: true, ..base }, t),
        SpecInline::Strike(c) => run_spans(c, TextStyle { crossed_out: true, ..base }, t),
        SpecInline::Underline(c) => run_spans(c, TextStyle { underlined: true, ..base }, t),
        SpecInline::Highlight(c) => run_spans(c, mark_style(base, t), t),
        SpecInline::Code(s) => seq![SpecSpan { content: s, style: t.spec_code_inline() }],
        SpecInline::Link { href: _, content } => run_spans(content, link_style(base, t), t),
        SpecInline::Image(img) => seq![
            SpecSpan { content: "🖼 "@ + img.alt, style: t.spec_dim() },
        ],
        SpecInline::LineBreak => seq![
            SpecSpan { content: " "@, style: TextStyle::unstyled() },
        ],
    }
}

/// The spans of inlines, in order.
pub open spec fn run_spans(s: Seq<SpecInline>, base: TextStyle, t: Theme) -> Seq<SpecSpan>
    decreases s,
{
    if s.len() == 0 {
        Seq::empty()
    } else {
        run_spans(s.drop_last(), base, t) + inline_spans(s.last(), base, t)
    }
}

fn push_span(out: &mut Vec<Span>, content: &str, style: TextStyle)
    ensures
        spans_view(final(out)@) == spans_view(old(out)@) + seq![
            SpecSpan { content: content@, style },
        ],
{
    let ghost before = spans_view(out@);
    out.push(span(content, style));
    assert(spans_view(out@) =~= before + seq![SpecSpan { content: content@, style }]);
}

fn spans_into(x: &Inline, base: TextStyle, theme: &Theme, out: &mut Vec<Span>)
    ensures
        spans_view(final(out)@) == spans_view(old(out)@) + inline_spans(
            inline_view(*x),
            base,
            *theme,
        ),
    decreases x,
{
    match x {
        Inline::Text(t) => push_span(out, t.as_str(), base),
        Inline::Strong(c) => run(c, TextStyle { bold: true, ..base }, theme, out),
        Inline::Emphasis(c) => run(c, TextStyle { italic: true, ..base }, theme, out),
        Inline::Strike(c) => run(c, TextStyle { crossed_out: true, ..base }, theme, out),
        Inline::Underline(c) => run(c, TextStyle { underlined: true, ..base }, theme, out),
        Inline::Highlight(c) => run(
            c,
            TextStyle { fg: Some(theme.bg), bg: Some(theme.accent2), ..base },
            theme,
            out,
        ),
        Inline::Code(t) => push_span(out, t.as_str(), theme.code_inline()),
        Inline::Link { href: _, content } => run(
            content,
            TextStyle { fg: Some(theme.accent), underlined: true, ..base },
            theme,
            out,
        ),
        Inline::Image(img) => {
            let text = join2("🖼 ", img.alt.as_str());
            push_span(out, text.as_str(), theme.dim_style())
        },
        Inline::LineBreak => push_span(out, " ", TextStyle::new()),
    }
}

fn run(v: &Vec<Inline>, base: TextStyle, theme: &Theme, out: &mut Vec<Span>)
    ensures
        spans_view(final(out)@) == spans_view(old(out)@) + run_spans(
            inlines_view(v@),
            base,
            *theme,
        ),
    decreases v,
{
    let ghost all = inlines_view(v@);
    let ghost start = spans_view(out@);
    let mut i: usize = 0;
    assert(all.take(0) =~= Seq::empty());
    assert(start + Seq::<SpecSpan>::empty() =~= start);
    while i < v.len()
        invariant
            i <= v@.len(),
            all == inlines_view(v@),
            spans_view(out@) == start + run_spans(all.take(i as int), base, *theme),
        decreases v@.len() - i,
    {
        broadcast use lemma_inlines_view;

        spans_into(&v[i], base, theme, out);
        assert(all.take(i + 1).drop_last() =~= all.take(i as int));
        assert(spans_view(out@) =~= start + run_spans(all.take(i + 1), base, *theme));
        i = i + 1;
    }
    proof {
        broadcast use lemma_inlines_view;

        assert(all.take(all.len() as int) =~= all);
    }
}

/// The lines of inlines: a break among them ends a line.
pub open spec fn inline_rows(s: Seq<SpecInline>, base: TextStyle, t: Theme) -> Seq<SpecLine>
    decreases s.len(),
{
    if s.len() == 0 {
        seq![bare_line(Seq::empty())]
    } else {
        let before = inline_rows(s.drop_last(), base, t);
        if s.last() is LineBreak {
            before.push(bare_line(Seq::empty()))
        } else {
            before.drop_last().push(
                bare_line(before.last().spans + inline_spans(s.last(), base, t)),
            )
        }
    }
}

/// The lines of inlines: a break among them ends a line.
pub fn inline_lines(inlines: &Vec<Inline>, base: TextStyle, theme: &Theme) -> (r: Vec<Line>)
    ensures
        lines_view(r@) == inline_rows(inlines_view(inlines@), base, *theme),
{
    broadcast use lemma_lines_push;

    let ghost all = inlines_view(inlines@);
    let mut done: Vec<Line> = Vec::new();
    let mut cur: Vec<Span> = Vec::new();
    let mut i: usize = 0;
    assert(all.take(0) =~= Seq::empty());
    assert(spans_view(cur@) =~= Seq::empty());
    assert(lines_view(done@).push(bare_line(spans_view(cur@))) =~= inline_rows(
        all.take(0),
        base,
        *theme,
    ));
    while i < inlines.len()
        invariant
            i <= inlines@.len(),
            all == inlines_view(inlines@),
            lines_view(done@).push(bare_line(spans_view(cur@))) == inline_rows(
                all.take(i as int),
                base,
                *theme,
            ),
        decreases inlines@.len() - i,
    {
        broadcast use {lemma_inlines_view, lemma_lines_push};

        let ghost before = inline_rows(all.take(i as int), base, *theme);
        let ghost rows = lines_view(done@);
        assert(before.drop_last() =~= rows);
        assert(before.last() == bare_line(spans_view(cur@)));
        assert(all.take(i + 1).drop_last() =~= all.take(i as int));
        assert(all.take(i + 1).last() == inline_view(inlines@[i as int]));
        if let Inline::LineBreak = &inlines[i] {
            let mut line: Vec<Span> = Vec::new();
            std::mem::swap(&mut line, &mut cur);
            done.push(Line::from(line));
            assert(spans_view(cur@) =~= Seq::empty());
            assert(lines_view(done@) =~= before);
        } else {
            spans_into(&inlines[i], base, theme, &mut cur);
        }
        i = i + 1;
    }
    proof {
        broadcast use lemma_inlines_view;

        assert(all.take(all.len() as int) =~= all);
    }
    done.push(Line::from(cur));
    done
}

// --- Tables -----------------------------------------------------------------------

/// No column is wider than this.
pub const MAX_COL: usize = 28;

/// The texts of a row's cells.
pub open spec fn row_texts(cells: Seq<Seq<SpecInline>>) -> Seq<Seq<char>> {
    cells.map_values(|c: Seq<SpecInline>| plain_texts(c))
}

/// The texts of a table, its header first where it has one.
pub open spec fn table_texts(
    head: Seq<Seq<SpecInline>>,
    rows: Seq<Seq<Seq<SpecInline>>>,
) -> Seq<Seq<Seq<char>>> {
    let body = rows.map_values(|r: Seq<Seq<SpecInline>>| row_texts(r));
    if head.len() == 0 {
        body
    } else {
        seq![row_texts(head)] + body
    }
}

/// The length of the longest row.
pub open spec fn column_count(grid: Seq<Seq<Seq<char>>>) -> nat
    decreases grid.len(),
{
    if grid.len() == 0 {
        0
    } else {
        let before = column_count(grid.drop_last());
        if grid.last().len() > before {
            grid.last().len()
        } else {
            before
        }
    }
}

/// The width of column `i`: that of its widest cell, at least 1 and at most
/// [`MAX_COL`].
pub open spec fn column_width(grid: Seq<Seq<Seq<char>>>, i: int) -> nat
    decreases grid.len(),
{
    if grid.len() == 0 {
        1
    } else {
        let before = column_width(grid.drop_last(), i);
        let own: nat = if i < grid.last().len() {
            if grid.last()[i].len() < MAX_COL {
                grid.last()[i].len()
            } else {
                MAX_COL as nat
            }
        } else {
            0
        };
        if own > before {
            own
        } else {
            before
        }
    }
}

/// The widths of a table's columns.
pub open spec fn column_widths(grid: Seq<Seq<Seq<char>>>) -> Seq<nat> {
    Seq::new(column_count(grid), |i: int| column_width(grid, i))
}

/// Text cut to a width, with an ellipsis for what is cut.
pub open spec fn truncated(s: Seq<char>, width: nat) -> Seq<char> {
    if s.len() <= width {
        s
    } else if width == 0 {
        Seq::empty()
    } else {
        s.take(width - 1) + "…"@
    }
}

/// Text cut to a width, with an ellipsis for what is cut.
pub fn truncate(s: &str, width: usize) -> (r: String)
    ensures
        r@ == truncated(s@, width as nat),
{
    let v = chars_of(s);
    if v.len() <= width {
        owned(s)
    } else if width == 0 {
        String::new()
    } else {
        let kept = slice_of(&v, 0, width - 1);
        assert(kept@ =~= s@.take(width - 1));
        join2(kept.as_str(), "…")
    }
}

/// The first `k` columns of a border, after its corner.
pub open spec fn border_upto(
    widths: Seq<nat>,
    k: int,
    mid: Seq<char>,
    right: Seq<char>,
) -> Seq<char>
    decreases k,
{
    if k <= 0 {
        Seq::empty()
    } else {
        border_upto(widths, k - 1, mid, right) + repeated('─', widths[k - 1] + 2) + (if k
            < widths.len() {
            mid
        } else {
            right
        })
    }
}

/// A horizontal border.
pub open spec fn border_text(
    widths: Seq<nat>,
    left: Seq<char>,
    mid: Seq<char>,
    right: Seq<char>,
) -> Seq<char> {
    left + border_upto(widths, widths.len() as int, mid, right)
}

/// Widths as numbers.
pub open spec fn nats(s: Seq<usize>) -> Seq<nat> {
    s.map_values(|w: usize| w as nat)
}

fn border(widths: &Vec<usize>, left: &str, mid: &str, right: &str) -> (r: String)
    requires
        forall|i: int| 0 <= i < widths@.len() ==> #[trigger] widths@[i] <= MAX_COL,
    ensures
        r@ == border_text(nats(widths@), left@, mid@, right@),
{
    let ghost ws = nats(widths@);
    let mut s = owned(left);
    let mut i: usize = 0;
    assert(left@ + border_upto(ws, 0, mid@, right@) =~= left@);
    while i < widths.len()
        invariant
            i <= widths@.len(),
            ws == nats(widths@),
            forall|i: int| 0 <= i < widths@.len() ==> #[trigger] widths@[i] <= MAX_COL,
            s@ == left@ + border_upto(ws, i as int, mid@, right@),
        decreases widths@.len() - i,
    {
        let dashes = repeat_char('─', widths[i] + 2);
        let last = if i + 1 < widths.len() {
            mid
        } else {
            right
        };
        s.push_str(dashes.as_str());
        s.push_str(last);
        assert(ws[i as int] == widths@[i as int] as nat);
        assert(s@ =~= left@ + border_upto(ws, i + 1, mid@, right@));
        i = i + 1;
    }
    s
}

/// The text of a cell, which a short row may lack.
pub open spec fn cell_text(cells: Seq<Seq<char>>, i: int) -> Seq<char> {
    if i < cells.len() {
        cells[i]
    } else {
        Seq::empty()
    }
}

/// The spans of a row's first `k` columns.
pub open spec fn row_upto(
    cells: Seq<Seq<char>>,
    widths: Seq<nat>,
    k: int,
    cell: TextStyle,
    edge: TextStyle,
) -> Seq<SpecSpan>
    decreases k,
{
    if k <= 0 {
        Seq::empty()
    } else {
        row_upto(cells, widths, k - 1, cell, edge) + seq![
            SpecSpan { content: "│ "@, style: edge },
            SpecSpan {
                content: padded(truncated(cell_text(cells, k - 1), widths[k - 1]), widths[k - 1]),
                style: cell,
            },
            SpecSpan { content: " "@, style: TextStyle::unstyled() },
        ]
    }
}

/// A row of a table.
pub open spec fn row_of(
    cells: Seq<Seq<char>>,
    widths: Seq<nat>,
    cell: TextStyle,
    edge: TextStyle,
) -> SpecLine {
    bare_line(
        row_upto(cells, widths, widths.len() as int, cell, edge).push(
            SpecSpan { content: "│"@, style: edge },
        ),
    )
}

fn row_line(cells: &Vec<String>, widths: &Vec<usize>, cell: TextStyle, edge: TextStyle) -> (r: Line)
    ensures
        r@ == row_of(strings_view(cells@), nats(widths@), cell, edge),
{
    broadcast use lemma_spans_push;

    let ghost ws = nats(widths@);
    let ghost texts = strings_view(cells@);
    let mut spans: Vec<Span> = Vec::new();
    let mut i: usize = 0;
    assert(spans_view(spans@) =~= row_upto(texts, ws, 0, cell, edge));
    while i < widths.len()
        invariant
            i <= widths@.len(),
            ws == nats(widths@),
            texts == strings_view(cells@),
            spans_view(spans@) == row_upto(texts, ws, i as int, cell, edge),
        decreases widths@.len() - i,
    {
        broadcast use lemma_spans_push;

        let text = if i < cells.len() {
            cells[i].as_str()
        } else {
            ""
        };
        proof {
            reveal_strlit("");
        }
        assert(text@ =~= cell_text(texts, i as int));
        let short = truncate(text, widths[i]);
        let full = pad_right(short.as_str(), widths[i]);
        assert(ws[i as int] == widths@[i as int] as nat);
        spans.push(span("│ ", edge));
        spans.push(Span { content: full, style: cell });
        spans.push(span(" ", TextStyle::new()));
        assert(spans_view(spans@) =~= row_upto(texts, ws, i + 1, cell, edge));
        i = i + 1;
    }
    spans.push(span("│", edge));
    Line::from(spans)
}

/// A table drawn with box characters, its cells as plain text. One without columns
/// shows nothing.
pub open spec fn table_rows(
    head: Seq<Seq<SpecInline>>,
    rows: Seq<Seq<Seq<SpecInline>>>,
    t: Theme,
) -> Seq<SpecLine> {
    let grid = table_texts(head, rows);
    let widths = column_widths(grid);
    let edge = TextStyle::in_color(t.border);
    if widths.len() == 0 {
        Seq::empty()
    } else {
        let top = line_in(border_text(widths, "┌"@, "┬"@, "┐"@), edge);
        let middle = line_in(border_text(widths, "├"@, "┼"@, "┤"@), edge);
        let bottom = line_in(border_text(widths, "└"@, "┴"@, "┘"@), edge);
        let heading = if head.len() == 0 {
            Seq::empty()
        } else {
            seq![row_of(row_texts(head), widths, t.spec_heading(), edge), middle]
        };
        seq![top] + heading + rows.map_values(
            |r: Seq<Seq<SpecInline>>| row_of(row_texts(r), widths, t.spec_body(), edge),
        ) + seq![bottom]
    }
}

/// Rows of texts.
pub open spec fn grid_view(s: Seq<Vec<String>>) -> Seq<Seq<Seq<char>>> {
    s.map_values(|r: Vec<String>| strings_view(r@))
}

fn cell_texts(cells: &Vec<Vec<Inline>>) -> (r: Vec<String>)
    ensures
        strings_view(r@) == row_texts(cells_view(cells@)),
{
    let mut out: Vec<String> = Vec::new();
    let mut i: usize = 0;
    while i < cells.len()
        invariant
            i <= cells@.len(),
            out@.len() == i,
            forall|k: int|
                0 <= k < i ==> (#[trigger] out@[k])@ == plain_texts(inlines_view(cells@[k]@)),
        decreases cells@.len() - i,
    {
        out.push(inline_text(&cells[i]));
        i = i + 1;
    }
    assert(strings_view(out@) =~= row_texts(cells_view(cells@)));
    out
}

fn table_grid(head: &Vec<Vec<Inline>>, rows: &Vec<Vec<Vec<Inline>>>) -> (r: Vec<Vec<String>>)
    ensures
        grid_view(r@) == table_texts(cells_view(head@), rows_view(rows@)),
{
    let ghost want = table_texts(cells_view(head@), rows_view(rows@));
    let mut grid: Vec<Vec<String>> = Vec::new();
    if head.len() > 0 {
        grid.push(cell_texts(head));
    }
    let ghost from = grid@.len();
    let mut i: usize = 0;
    while i < rows.len()
        invariant
            i <= rows@.len(),
            from <= 1,
            from == (if head@.len() == 0 {
                0int
            } else {
                1int
            }),
            want == table_texts(cells_view(head@), rows_view(rows@)),
            grid@.len() == from + i,
            forall|k: int| 0 <= k < from + i ==> strings_view((#[trigger] grid@[k])@) == want[k],
        decreases rows@.len() - i,
    {
        assert(rows_view(rows@)[i as int] == cells_view(rows@[i as int]@));
        assert(want[from + i] == row_texts(cells_view(rows@[i as int]@)));
        grid.push(cell_texts(&rows[i]));
        i = i + 1;
    }
    assert(grid_view(grid@) =~= want);
    grid
}

fn widths_of(grid: &Vec<Vec<String>>) -> (r: Vec<usize>)
    ensures
        nats(r@) == column_widths(grid_view(grid@)),
        forall|i: int| 0 <= i < r@.len() ==> #[trigger] r@[i] <= MAX_COL,
{
    let ghost all = grid_view(grid@);
    let mut columns: usize = 0;
    let mut i: usize = 0;
    assert(all.take(0) =~= Seq::empty());
    while i < grid.len()
        invariant
            i <= grid@.len(),
            all == grid_view(grid@),
            columns == column_count(all.take(i as int)),
        decreases grid@.len() - i,
    {
        assert(all.take(i + 1).drop_last() =~= all.take(i as int));
        assert(all.take(i + 1).last() == strings_view(grid@[i as int]@));
        if grid[i].len() > columns {
            columns = grid[i].len();
        }
        i = i + 1;
    }
    assert(all.take(all.len() as int) =~= all);
    let mut out: Vec<usize> = Vec::new();
    let mut c: usize = 0;
    while c < columns
        invariant
            c <= columns,
            all == grid_view(grid@),
            out@.len() == c,
            forall|k: int|
                0 <= k < c ==> #[trigger] out@[k] == column_width(all, k) && out@[k] <= MAX_COL,
        decreases columns - c,
    {
        let w = width_of(grid, c);
        out.push(w);
        c = c + 1;
    }
    assert(nats(out@) =~= column_widths(all));
    out
}

fn width_of(grid: &Vec<Vec<String>>, c: usize) -> (r: usize)
    ensures
        r == column_width(grid_view(grid@), c as int),
        r <= MAX_COL,
{
    let ghost all = grid_view(grid@);
    let mut widest: usize = 1;
    let mut i: usize = 0;
    assert(all.take(0) =~= Seq::empty());
    while i < grid.len()
        invariant
            i <= grid@.len(),
            all == grid_view(grid@),
            widest <= MAX_COL,
            widest == column_width(all.take(i as int), c as int),
        decreases grid@.len() - i,
    {
        assert(all.take(i + 1).drop_last() =~= all.take(i as int));
        assert(all.take(i + 1).last() == strings_view(grid@[i as int]@));
        if c < grid[i].len() {
            let n: usize = chars_of(grid[i][c].as_str()).len();
            let own: usize = if n < MAX_COL {
                n
            } else {
                MAX_COL
            };
            if own > widest {
                widest = own;
            }
        }
        i = i + 1;
    }
    assert(all.take(all.len() as int) =~= all);
    widest
}

/// A table drawn with box characters.
pub fn table_lines(
    head: &Vec<Vec<Inline>>,
    rows: &Vec<Vec<Vec<Inline>>>,
    theme: &Theme,
) -> (r: Vec<Line>)
    ensures
        lines_view(r@) == table_rows(cells_view(head@), rows_view(rows@), *theme),
{
    broadcast use lemma_lines_push;

    let ghost want = table_rows(cells_view(head@), rows_view(rows@), *theme);
    let grid = table_grid(head, rows);
    let widths = widths_of(&grid);
    let ghost ws = nats(widths@);
    let ghost gv = grid_view(grid@);
    assert(ws.len() == widths@.len());
    assert(gv.len() == grid@.len());
    assert(cells_view(head@).len() == head@.len());
    let edge = TextStyle::fg(theme.border);
    let mut out: Vec<Line> = Vec::new();
    if widths.len() == 0 {
        assert(lines_view(out@) =~= want);
        return out;
    }
    let top = border(&widths, "┌", "┬", "┐");
    out.push(Line::styled(top.as_str(), edge));
    let mut from: usize = 0;
    if head.len() > 0 {
        assert(gv[0] == row_texts(cells_view(head@)));
        out.push(row_line(&grid[0], &widths, theme.heading(), edge));
        let middle = border(&widths, "├", "┼", "┤");
        out.push(Line::styled(middle.as_str(), edge));
        from = 1;
    }
    let ghost start = lines_view(out@);
    let ghost body = rows_view(rows@).map_values(
        |r: Seq<Seq<SpecInline>>| row_of(row_texts(r), ws, theme.spec_body(), edge),
    );
    assert(start =~= want.take(start.len() as int));
    let mut i: usize = from;
    assert(start + body.take(0) =~= start);
    while i < grid.len()
        invariant
            from <= i <= grid@.len(),
            grid@.len() == from + rows@.len(),
            gv == grid_view(grid@),
            ws == nats(widths@),
            gv == table_texts(cells_view(head@), rows_view(rows@)),
            from == (if cells_view(head@).len() == 0 {
                0int
            } else {
                1int
            }),
            body == rows_view(rows@).map_values(
                |r: Seq<Seq<SpecInline>>| row_of(row_texts(r), ws, theme.spec_body(), edge),
            ),
            lines_view(out@) == start + body.take(i - from),
        decreases grid@.len() - i,
    {
        broadcast use lemma_lines_push;

        assert(gv[i as int] == strings_view(grid@[i as int]@));
        assert(gv[i as int] == row_texts(rows_view(rows@)[i - from]));
        out.push(row_line(&grid[i], &widths, theme.body(), edge));
        assert(lines_view(out@) =~= start + body.take(i + 1 - from));
        i = i + 1;
    }
    assert(body.take(body.len() as int) =~= body);
    let bottom = border(&widths, "└", "┴", "┘");
    out.push(Line::styled(bottom.as_str(), edge));
    assert(lines_view(out@) =~= want);
    out
}

// --- Blocks -----------------------------------------------------------------------

/// Lines with a span before each: one before the first, another before the others.
pub open spec fn prefixed(
    lines: Seq<SpecLine>,
    first: SpecSpan,
    rest: SpecSpan,
) -> Seq<SpecLine> {
    Seq::new(
        lines.len(),
        |i: int|
            with_prefix(
                lines[i],
                if i == 0 {
                    first
                } else {
                    rest
                },
            ),
    )
}

/// The line that stands for an image.
pub open spec fn image_row(alt: Seq<char>, t: Theme) -> SpecLine {
    line_in(
        "🖼  "@ + (if alt.len() == 0 {
            "(image)"@
        } else {
            alt
        }),
        t.spec_dim(),
    )
}

/// The marker of item `i` of a list, counted from 0.
pub open spec fn item_marker(ordered: bool, i: nat) -> Seq<char> {
    if ordered {
        decimal(i + 1) + ". "@
    } else {
        "• "@
    }
}

/// The colour of a callout's bar.
pub open spec fn bar_color(tint: Option<(u8, u8, u8)>, t: Theme) -> Color {
    match tint {
        Some((r, g, b)) => Color::Rgb(r, g, b),
        None => t.accent2,
    }
}

/// The lines of a code block.
pub open spec fn code_rows(lang: Option<Seq<char>>, text: Seq<char>, t: Theme) -> Seq<SpecLine> {
    let label = match lang {
        Some(l) => l,
        None => Seq::empty(),
    };
    seq![line_in("```"@ + label, t.spec_dim())] + text_lines(text).map_values(
        |l: Seq<char>| line_in(l, t.spec_code_block()),
    ) + seq![line_in("```"@, t.spec_dim())]
}

/// The lines of a callout: a bar before each, and its emoji on the first.
pub open spec fn callout_rows(
    emoji: Option<Seq<char>>,
    tint: Option<(u8, u8, u8)>,
    content: Seq<SpecInline>,
    t: Theme,
) -> Seq<SpecLine> {
    let bar = SpecSpan { content: "▌ "@, style: TextStyle::in_color(bar_color(tint, t)) };
    prefixed(badged(inline_rows(content, t.spec_body(), t), emoji, t), bar, bar)
}

/// Lines with an emoji before the first.
pub open spec fn badged(lines: Seq<SpecLine>, emoji: Option<Seq<char>>, t: Theme) -> Seq<
    SpecLine,
> {
    match emoji {
        Some(e) => lines.update(
            0,
            with_prefix(lines[0], SpecSpan { content: e + " "@, style: t.spec_body() }),
        ),
        None => lines,
    }
}

/// The lines of a block.
pub open spec fn block_rows(b: SpecBlock, t: Theme) -> Seq<SpecLine>
    decreases b,
{
    match b {
        SpecBlock::Heading { level, content } => {
            let lines = inline_rows(content, t.spec_heading(), t);
            let hash = SpecSpan {
                content: repeated('#', level as nat) + " "@,
                style: t.spec_dim(),
            };
            lines.update(0, with_prefix(lines[0], hash))
        },
        SpecBlock::Paragraph(content) => inline_rows(content, t.spec_body(), t),
        SpecBlock::Quote(inner) => {
            let bar = SpecSpan { content: "▍ "@, style: TextStyle::in_color(t.accent2) };
            prefixed(blocks_rows(inner, t), bar, bar)
        },
        SpecBlock::List { ordered, items } => items_rows(ordered, items, t),
        SpecBlock::Code { lang, text } => code_rows(lang, text, t),
        SpecBlock::Image(img) => seq![image_row(img.alt, t)],
        SpecBlock::ImageGrid(images) => images.map_values(|i: SpecImage| image_row(i.alt, t)),
        SpecBlock::Table { head, rows } => table_rows(head, rows, t),
        SpecBlock::Callout { emoji, tint, content } => callout_rows(emoji, tint, content, t),
        SpecBlock::Rule => seq![line_in(repeated('─', 48), TextStyle::in_color(t.border))],
        SpecBlock::GalleryRef { uri: _ } => seq![line_in("🖼  (gallery)"@, t.spec_dim())],
    }
}

/// The lines of blocks, one after the other.
pub open spec fn blocks_rows(s: Seq<SpecBlock>, t: Theme) -> Seq<SpecLine>
    decreases s,
{
    if s.len() == 0 {
        Seq::empty()
    } else {
        blocks_rows(s.drop_last(), t) + block_rows(s.last(), t)
    }
}

/// The lines of list items, each with its marker before its first line.
pub open spec fn items_rows(ordered: bool, s: Seq<Seq<SpecBlock>>, t: Theme) -> Seq<SpecLine>
    decreases s,
{
    if s.len() == 0 {
        Seq::empty()
    } else {
        items_rows(ordered, s.drop_last(), t) + prefixed(
            blocks_rows(s.last(), t),
            SpecSpan {
                content: item_marker(ordered, (s.len() - 1) as nat),
                style: t.spec_accent(),
            },
            SpecSpan { content: "  "@, style: t.spec_accent() },
        )
    }
}

/// The lines of a run of blocks, a blank line between two of them.
pub open spec fn text_rows(s: Seq<SpecBlock>, t: Theme) -> Seq<SpecLine>
    decreases s.len(),
{
    if s.len() == 0 {
        Seq::empty()
    } else {
        let before = text_rows(s.drop_last(), t);
        let gap = if s.len() > 1 {
            before.push(bare_line(Seq::empty()))
        } else {
            before
        };
        gap + block_rows(s.last(), t)
    }
}

/// Inline content always has a line.
pub proof fn lemma_inline_rows_not_empty(s: Seq<SpecInline>, base: TextStyle, t: Theme)
    ensures
        inline_rows(s, base, t).len() > 0,
    decreases s.len(),
{
    if s.len() > 0 {
        lemma_inline_rows_not_empty(s.drop_last(), base, t);
    }
}

fn append_lines(out: &mut Vec<Line>, more: Vec<Line>)
    ensures
        lines_view(final(out)@) == lines_view(old(out)@) + lines_view(more@),
{
    let ghost before = out@;
    let ghost extra = more@;
    let mut rest = more;
    out.append(&mut rest);
    assert(lines_view(out@) =~= lines_view(before) + lines_view(extra));
}

fn prefix_lines(lines: Vec<Line>, first: &Span, rest: &Span) -> (r: Vec<Line>)
    ensures
        lines_view(r@) == prefixed(lines_view(lines@), first@, rest@),
{
    let mut out: Vec<Line> = Vec::new();
    let mut i: usize = 0;
    while i < lines.len()
        invariant
            i <= lines@.len(),
            out@.len() == i,
            forall|k: int|
                0 <= k < i ==> (#[trigger] out@[k])@ == prefixed(
                    lines_view(lines@),
                    first@,
                    rest@,
                )[k],
        decreases lines@.len() - i,
    {
        let mut line = lines[i].clone();
        if i == 0 {
            line.prefix(first.clone());
        } else {
            line.prefix(rest.clone());
        }
        assert(lines_view(lines@)[i as int] == lines@[i as int]@);
        out.push(line);
        i = i + 1;
    }
    assert(lines_view(out@) =~= prefixed(lines_view(lines@), first@, rest@));
    out
}

/// Put a span before the first of some lines.
pub fn prefix_first(lines: &mut Vec<Line>, span: Span)
    requires
        old(lines)@.len() > 0,
    ensures
        lines_view(final(lines)@) == lines_view(old(lines)@).update(
            0,
            with_prefix(lines_view(old(lines)@)[0], span@),
        ),
{
    let ghost before = lines_view(lines@);
    let mut first = lines[0].clone();
    assert(first@ == before[0]);
    first.prefix(span);
    lines.set(0, first);
    assert(lines_view(lines@) =~= before.update(0, with_prefix(before[0], span@)));
}

fn image_line(alt: &str, theme: &Theme) -> (r: Line)
    ensures
        r@ == image_row(alt@, *theme),
{
    let v = chars_of(alt);
    let label = if v.len() == 0 {
        "(image)"
    } else {
        alt
    };
    let text = join2("🖼  ", label);
    Line::styled(text.as_str(), theme.dim_style())
}

fn grid_lines(images: &Vec<Image>, theme: &Theme) -> (r: Vec<Line>)
    ensures
        lines_view(r@) == images_view(images@).map_values(|i: SpecImage| image_row(i.alt, *theme)),
{
    let ghost want = images_view(images@).map_values(|i: SpecImage| image_row(i.alt, *theme));
    let mut out: Vec<Line> = Vec::new();
    let mut i: usize = 0;
    while i < images.len()
        invariant
            i <= images@.len(),
            want == images_view(images@).map_values(|i: SpecImage| image_row(i.alt, *theme)),
            out@.len() == i,
            forall|k: int| 0 <= k < i ==> (#[trigger] out@[k])@ == want[k],
        decreases images@.len() - i,
    {
        assert(images_view(images@)[i as int] == images@[i as int]@);
        out.push(image_line(images[i].alt.as_str(), theme));
        i = i + 1;
    }
    assert(lines_view(out@) =~= want);
    out
}

fn code_lines(lang: &Option<String>, text: &str, theme: &Theme) -> (r: Vec<Line>)
    ensures
        lines_view(r@) == code_rows(opt_view(*lang), text@, *theme),
{
    broadcast use lemma_lines_push;

    let ghost want = code_rows(opt_view(*lang), text@, *theme);
    let mut open = owned("```");
    if let Some(l) = lang {
        open.push_str(l.as_str());
    }
    assert(open@ =~= "```"@ + (match opt_view(*lang) {
        Some(l) => l,
        None => Seq::empty(),
    }));
    let mut out: Vec<Line> = Vec::new();
    out.push(Line::styled(open.as_str(), theme.dim_style()));
    let parts = lines_of(text);
    assert(strings_view(parts@).len() == parts@.len());
    let mut i: usize = 0;
    assert(lines_view(out@) =~= want.take(1));
    while i < parts.len()
        invariant
            i <= parts@.len(),
            strings_view(parts@) == text_lines(text@),
            strings_view(parts@).len() == parts@.len(),
            want == code_rows(opt_view(*lang), text@, *theme),
            lines_view(out@) == want.take(1 + i),
        decreases parts@.len() - i,
    {
        broadcast use lemma_lines_push;

        assert(strings_view(parts@)[i as int] == parts@[i as int]@);
        out.push(Line::styled(parts[i].as_str(), theme.code_block()));
        assert(lines_view(out@) =~= want.take(2 + i));
        i = i + 1;
    }
    out.push(Line::styled("```", theme.dim_style()));
    assert(lines_view(out@) =~= want);
    out
}

/// Inline content with its emoji before it: the text of a callout.
pub fn badge_lines(content: &Vec<Inline>, emoji: &Option<String>, theme: &Theme) -> (r: Vec<Line>)
    ensures
        lines_view(r@) == badged(
            inline_rows(inlines_view(content@), theme.spec_body(), *theme),
            opt_view(*emoji),
            *theme,
        ),
        r@.len() > 0,
{
    proof {
        lemma_inline_rows_not_empty(inlines_view(content@), theme.spec_body(), *theme);
    }
    let mut lines = inline_lines(content, theme.body(), theme);
    assert(lines_view(lines@).len() == lines@.len());
    if let Some(e) = emoji {
        let text = join2(e.as_str(), " ");
        prefix_first(&mut lines, Span { content: text, style: theme.body() });
        assert(lines_view(lines@).len() == lines@.len());
    }
    lines
}

fn callout_lines(
    emoji: &Option<String>,
    tint: Option<(u8, u8, u8)>,
    content: &Vec<Inline>,
    theme: &Theme,
) -> (r: Vec<Line>)
    ensures
        lines_view(r@) == callout_rows(opt_view(*emoji), tint, inlines_view(content@), *theme),
{
    let color = match tint {
        Some((r, g, b)) => Color::Rgb(r, g, b),
        None => theme.accent2,
    };
    let bar = span("▌ ", TextStyle::fg(color));
    let lines = badge_lines(content, emoji, theme);
    prefix_lines(lines, &bar, &bar)
}

fn heading_lines(level: u8, content: &Vec<Inline>, theme: &Theme) -> (r: Vec<Line>)
    ensures
        lines_view(r@) == block_rows(
            SpecBlock::Heading { level, content: inlines_view(content@) },
            *theme,
        ),
{
    proof {
        lemma_inline_rows_not_empty(inlines_view(content@), theme.spec_heading(), *theme);
    }
    let mut lines = inline_lines(content, theme.heading(), theme);
    assert(lines_view(lines@).len() == lines@.len());
    let hashes = repeat_char('#', level as usize);
    let text = join2(hashes.as_str(), " ");
    prefix_first(&mut lines, Span { content: text, style: theme.dim_style() });
    lines
}

fn one_line(line: Line) -> (r: Vec<Line>)
    ensures
        lines_view(r@) == seq![line@],
{
    let mut out: Vec<Line> = Vec::new();
    out.push(line);
    assert(lines_view(out@) =~= seq![line@]);
    out
}

/// The lines of a block.
pub fn block_lines(block: &Block, theme: &Theme) -> (r: Vec<Line>)
    ensures
        lines_view(r@) == block_rows(block_view(*block), *theme),
    decreases block,
{
    match block {
        Block::Heading { level, content } => heading_lines(*level, content, theme),
        Block::Paragraph(content) => inline_lines(content, theme.body(), theme),
        Block::Quote(inner) => {
            let bar = span("▍ ", TextStyle::fg(theme.accent2));
            prefix_lines(run_lines(inner, theme), &bar, &bar)
        },
        Block::List { ordered, items } => item_lines(*ordered, items, theme),
        Block::Code { lang, text } => code_lines(lang, text.as_str(), theme),
        Block::Image(img) => one_line(image_line(img.alt.as_str(), theme)),
        Block::ImageGrid(images) => grid_lines(images, theme),
        Block::Table { head, rows } => table_lines(head, rows, theme),
        Block::Callout { emoji, tint, content } => callout_lines(emoji, *tint, content, theme),
        Block::Rule => {
            let text = repeat_char('─', 48);
            one_line(Line::styled(text.as_str(), TextStyle::fg(theme.border)))
        },
        Block::GalleryRef { uri: _ } => one_line(
            Line::styled("🖼  (gallery)", theme.dim_style()),
        ),
    }
}

fn run_lines(blocks: &Vec<Block>, theme: &Theme) -> (r: Vec<Line>)
    ensures
        lines_view(r@) == blocks_rows(blocks_view(blocks@), *theme),
    decreases blocks,
{
    let ghost all = blocks_view(blocks@);
    let mut out: Vec<Line> = Vec::new();
    let mut i: usize = 0;
    assert(all.take(0) =~= Seq::empty());
    assert(lines_view(out@) =~= Seq::empty());
    while i < blocks.len()
        invariant
            i <= blocks@.len(),
            all == blocks_view(blocks@),
            lines_view(out@) == blocks_rows(all.take(i as int), *theme),
        decreases blocks@.len() - i,
    {
        broadcast use lemma_blocks_view;

        let lines = block_lines(&blocks[i], theme);
        append_lines(&mut out, lines);
        assert(all.take(i + 1).drop_last() =~= all.take(i as int));
        i = i + 1;
    }
    proof {
        broadcast use lemma_blocks_view;

        assert(all.take(all.len() as int) =~= all);
    }
    out
}

fn item_lines(ordered: bool, items: &Vec<Vec<Block>>, theme: &Theme) -> (r: Vec<Line>)
    ensures
        lines_view(r@) == items_rows(ordered, items_view(items@), *theme),
    decreases items,
{
    let ghost all = items_view(items@);
    let mut out: Vec<Line> = Vec::new();
    let mut i: usize = 0;
    assert(all.take(0) =~= Seq::empty());
    assert(lines_view(out@) =~= Seq::empty());
    while i < items.len()
        invariant
            i <= items@.len(),
            all == items_view(items@),
            lines_view(out@) == items_rows(ordered, all.take(i as int), *theme),
        decreases items@.len() - i,
    {
        broadcast use lemma_items_view;

        let marker = marker_of(ordered, i as u64);
        let first = Span { content: marker, style: theme.accent_style() };
        let rest = span("  ", theme.accent_style());
        let inner = run_lines(&items[i], theme);
        append_lines(&mut out, prefix_lines(inner, &first, &rest));
        assert(all.take(i + 1).drop_last() =~= all.take(i as int));
        i = i + 1;
    }
    proof {
        broadcast use lemma_items_view;

        assert(all.take(all.len() as int) =~= all);
    }
    out
}

fn marker_of(ordered: bool, i: u64) -> (r: String)
    requires
        i < u64::MAX,
    ensures
        r@ == item_marker(ordered, i as nat),
{
    if ordered {
        let n = decimal_of(i + 1);
        join2(n.as_str(), ". ")
    } else {
        owned("• ")
    }
}

/// The lines of a run of blocks, a blank line between two of them.
pub fn blocks_to_text(blocks: &Vec<Block>, theme: &Theme) -> (r: Vec<Line>)
    ensures
        lines_view(r@) == text_rows(blocks_view(blocks@), *theme),
{
    proof {
        lemma_blocks_view(blocks@);
        assert(blocks_view(blocks@).subrange(0, blocks@.len() as int) =~= blocks_view(blocks@));
    }
    range_to_text(blocks, 0, blocks.len(), theme)
}

/// The lines of the blocks from one place to another, a blank line between two of them.
pub fn range_to_text(blocks: &Vec<Block>, from: usize, to: usize, theme: &Theme) -> (r: Vec<Line>)
    requires
        from <= to <= blocks@.len(),
    ensures
        lines_view(r@) == text_rows(blocks_view(blocks@).subrange(from as int, to as int), *theme),
{
    broadcast use lemma_lines_push;

    let ghost all = blocks_view(blocks@);
    let mut out: Vec<Line> = Vec::new();
    let mut i: usize = from;
    proof {
        lemma_blocks_view(blocks@);
    }
    assert(all.subrange(from as int, from as int) =~= Seq::empty());
    assert(lines_view(out@) =~= Seq::empty());
    while i < to
        invariant
            from <= i <= to <= blocks@.len(),
            all == blocks_view(blocks@),
            lines_view(out@) == text_rows(all.subrange(from as int, i as int), *theme),
        decreases to - i,
    {
        broadcast use {lemma_blocks_view, lemma_lines_push};

        if i > from {
            out.push(Line::from(Vec::new()));
        }
        assert(spans_view(Seq::<Span>::empty()) =~= Seq::empty());
        let lines = block_lines(&blocks[i], theme);
        append_lines(&mut out, lines);
        assert(all.subrange(from as int, i + 1).drop_last() =~= all.subrange(from as int, i as int));
        i = i + 1;
    }
    out
}

} // verus!
