//! Drawing a document: what it says is what the lines show.
use vstd::prelude::*;

use crate::laws::words::law_the_last_line_may_be_open;
use crate::model::{SpecBlock, SpecImage, SpecInline};
use crate::text::{decimal, padded, repeated, text_lines};
use crate::ui::doc::{
    bare_line, block_rows, blocks_rows, border_text, border_upto, cell_text, code_rows,
    column_count, column_width, column_widths, inline_rows, inline_spans,
    lemma_inline_rows_not_empty, line_in, plain_texts, prefixed, row_of, row_texts, row_upto,
    run_spans, table_texts, text_rows, truncated, SpecLine, SpecSpan, MAX_COL,
};
use crate::ui::theme::{TextStyle, Theme};

verus! {

// --- What is seen -----------------------------------------------------------------

/// The text of spans side by side.
pub open spec fn spans_text(s: Seq<SpecSpan>) -> Seq<char>
    decreases s.len(),
{
    if s.len() == 0 {
        Seq::empty()
    } else {
        spans_text(s.drop_last()) + s.last().content
    }
}

/// The text of a line.
pub open spec fn line_text(l: SpecLine) -> Seq<char> {
    spans_text(l.spans)
}

/// The texts of lines.
pub open spec fn line_texts(s: Seq<SpecLine>) -> Seq<Seq<char>> {
    s.map_values(|l: SpecLine| line_text(l))
}

/// Lines with a text before each: one before the first, another before the others.
pub open spec fn after_marks(lines: Seq<Seq<char>>, first: Seq<char>, rest: Seq<char>) -> Seq<
    Seq<char>,
> {
    Seq::new(
        lines.len(),
        |i: int|
            (if i == 0 {
                first
            } else {
                rest
            }) + lines[i],
    )
}

/// What a reader sees of an inline.
pub open spec fn seen(x: SpecInline) -> Seq<char>
    decreases x,
{
    match x {
        SpecInline::Text(t) => t,
        SpecInline::Code(t) => t,
        SpecInline::Image(i) => "🖼 "@ + i.alt,
        SpecInline::LineBreak => " "@,
        SpecInline::Strong(c) => all_seen(c),
        SpecInline::Emphasis(c) => all_seen(c),
        SpecInline::Strike(c) => all_seen(c),
        SpecInline::Underline(c) => all_seen(c),
        SpecInline::Highlight(c) => all_seen(c),
        SpecInline::Link { href, content } => all_seen(content),
    }
}

/// What a reader sees of inlines side by side.
pub open spec fn all_seen(s: Seq<SpecInline>) -> Seq<char>
    decreases s,
{
    if s.len() == 0 {
        Seq::empty()
    } else {
        all_seen(s.drop_last()) + seen(s.last())
    }
}

pub proof fn lemma_spans_join(a: Seq<SpecSpan>, b: Seq<SpecSpan>)
    ensures
        spans_text(a + b) == spans_text(a) + spans_text(b),
    decreases b.len(),
{
    if b.len() == 0 {
        assert(a + b =~= a);
        assert(spans_text(a) + spans_text(b) =~= spans_text(a));
    } else {
        lemma_spans_join(a, b.drop_last());
        assert((a + b).drop_last() =~= a + b.drop_last());
        assert(spans_text(a + b) =~= spans_text(a) + spans_text(b));
    }
}

pub proof fn lemma_one_span(x: SpecSpan)
    ensures
        spans_text(seq![x]) == x.content,
{
    assert(seq![x].drop_last() =~= Seq::empty());
    assert(spans_text(Seq::<SpecSpan>::empty()) =~= Seq::empty());
    assert(spans_text(seq![x]) =~= x.content);
}

proof fn lemma_prefix_text(l: SpecLine, x: SpecSpan)
    ensures
        line_text(crate::ui::doc::with_prefix(l, x)) == x.content + line_text(l),
{
    lemma_spans_join(seq![x], l.spans);
    lemma_one_span(x);
}

proof fn lemma_prefixed_texts(lines: Seq<SpecLine>, first: SpecSpan, rest: SpecSpan)
    ensures
        line_texts(prefixed(lines, first, rest)) == after_marks(
            line_texts(lines),
            first.content,
            rest.content,
        ),
{
    let got = prefixed(lines, first, rest);
    assert forall|i: int| 0 <= i < lines.len() implies #[trigger] line_texts(got)[i]
        == after_marks(line_texts(lines), first.content, rest.content)[i] by {
        lemma_prefix_text(
            lines[i],
            if i == 0 {
                first
            } else {
                rest
            },
        );
    }
    assert(line_texts(got) =~= after_marks(line_texts(lines), first.content, rest.content));
}

// --- Inlines ----------------------------------------------------------------------

/// The spans of inlines show what the inlines say, whatever their style.
pub proof fn law_styles_change_no_text(s: Seq<SpecInline>, base: TextStyle, t: Theme)
    ensures
        spans_text(run_spans(s, base, t)) == all_seen(s),
    decreases s, 1int,
{
    if s.len() > 0 {
        law_styles_change_no_text(s.drop_last(), base, t);
        lemma_seen(s.last(), base, t);
        lemma_spans_join(run_spans(s.drop_last(), base, t), inline_spans(s.last(), base, t));
    }
}

proof fn lemma_seen(x: SpecInline, base: TextStyle, t: Theme)
    ensures
        spans_text(inline_spans(x, base, t)) == seen(x),
    decreases x, 0int,
{
    match x {
        SpecInline::Strong(c) => {
            law_styles_change_no_text(c, TextStyle { bold: true, ..base }, t);
        },
        SpecInline::Emphasis(c) => {
            law_styles_change_no_text(c, TextStyle { italic: true, ..base }, t);
        },
        SpecInline::Strike(c) => {
            law_styles_change_no_text(c, TextStyle { crossed_out: true, ..base }, t);
        },
        SpecInline::Underline(c) => {
            law_styles_change_no_text(c, TextStyle { underlined: true, ..base }, t);
        },
        SpecInline::Highlight(c) => {
            law_styles_change_no_text(c, crate::ui::doc::mark_style(base, t), t);
        },
        SpecInline::Link { href, content } => {
            law_styles_change_no_text(content, crate::ui::doc::link_style(base, t), t);
        },
        _ => {
            let spans = inline_spans(x, base, t);
            assert(spans =~= seq![spans[0]]);
            lemma_one_span(spans[0]);
        },
    }
}

/// Inlines that are words, in whatever style.
pub open spec fn only_words(x: SpecInline) -> bool
    decreases x,
{
    match x {
        SpecInline::Text(_) => true,
        SpecInline::Strong(c) => all_words(c),
        SpecInline::Emphasis(c) => all_words(c),
        SpecInline::Strike(c) => all_words(c),
        SpecInline::Underline(c) => all_words(c),
        SpecInline::Highlight(c) => all_words(c),
        SpecInline::Link { href, content } => all_words(content),
        _ => false,
    }
}

/// Inlines that are words, in whatever style.
pub open spec fn all_words(s: Seq<SpecInline>) -> bool
    decreases s,
{
    if s.len() == 0 {
        true
    } else {
        all_words(s.drop_last()) && only_words(s.last())
    }
}

/// A style has every modifier that another has.
pub open spec fn wears(style: TextStyle, base: TextStyle) -> bool {
    &&& base.bold ==> style.bold
    &&& base.italic ==> style.italic
    &&& base.underlined ==> style.underlined
    &&& base.crossed_out ==> style.crossed_out
}

/// Every span has the modifiers of a style.
pub open spec fn all_wear(s: Seq<SpecSpan>, base: TextStyle) -> bool {
    forall|i: int| 0 <= i < s.len() ==> wears((#[trigger] s[i]).style, base)
}

/// Words keep the modifiers that they stand in.
pub proof fn law_modifiers_add_up(s: Seq<SpecInline>, base: TextStyle, t: Theme)
    requires
        all_words(s),
    ensures
        all_wear(run_spans(s, base, t), base),
    decreases s, 1int,
{
    if s.len() > 0 {
        law_modifiers_add_up(s.drop_last(), base, t);
        law_each_style_shows(s.last(), base, t);
    }
}

/// Strong words are bold, emphasized ones italic, struck ones crossed out, underlined ones
/// and links underlined, on top of what they stand in.
pub proof fn law_each_style_shows(x: SpecInline, base: TextStyle, t: Theme)
    requires
        only_words(x),
    ensures
        all_wear(inline_spans(x, base, t), base),
        x is Strong ==> all_wear(inline_spans(x, base, t), TextStyle { bold: true, ..base }),
        x is Emphasis ==> all_wear(inline_spans(x, base, t), TextStyle { italic: true, ..base }),
        x is Strike ==> all_wear(
            inline_spans(x, base, t),
            TextStyle { crossed_out: true, ..base },
        ),
        x is Underline || x is Link ==> all_wear(
            inline_spans(x, base, t),
            TextStyle { underlined: true, ..base },
        ),
    decreases x, 0int,
{
    match x {
        SpecInline::Strong(c) => {
            law_modifiers_add_up(c, TextStyle { bold: true, ..base }, t);
        },
        SpecInline::Emphasis(c) => {
            law_modifiers_add_up(c, TextStyle { italic: true, ..base }, t);
        },
        SpecInline::Strike(c) => {
            law_modifiers_add_up(c, TextStyle { crossed_out: true, ..base }, t);
        },
        SpecInline::Underline(c) => {
            law_modifiers_add_up(c, TextStyle { underlined: true, ..base }, t);
        },
        SpecInline::Highlight(c) => {
            law_modifiers_add_up(c, crate::ui::doc::mark_style(base, t), t);
        },
        SpecInline::Link { href, content } => {
            law_modifiers_add_up(content, crate::ui::doc::link_style(base, t), t);
        },
        _ => {},
    }
}

/// Plain text is in the style it is given, a link's in the accent colour.
pub proof fn law_text_has_its_style(text: Seq<char>, href: Seq<char>, base: TextStyle, t: Theme)
    ensures
        run_spans(seq![SpecInline::Text(text)], base, t) == seq![
            SpecSpan { content: text, style: base },
        ],
        run_spans(
            seq![SpecInline::Link { href, content: seq![SpecInline::Text(text)] }],
            base,
            t,
        ) == seq![
            SpecSpan {
                content: text,
                style: TextStyle { fg: Some(t.accent), underlined: true, ..base },
            },
        ],
{
    lemma_one_run(SpecInline::Text(text), base, t);
    lemma_one_run(SpecInline::Text(text), crate::ui::doc::link_style(base, t), t);
    lemma_one_run(SpecInline::Link { href, content: seq![SpecInline::Text(text)] }, base, t);
}

proof fn lemma_one_run(x: SpecInline, base: TextStyle, t: Theme)
    ensures
        run_spans(seq![x], base, t) == inline_spans(x, base, t),
{
    assert(seq![x].drop_last() =~= Seq::empty());
    assert(seq![x].last() == x);
    assert(run_spans(Seq::<SpecInline>::empty(), base, t) =~= Seq::empty());
    assert(run_spans(seq![x], base, t) =~= inline_spans(x, base, t));
}

/// Inlines without a break are one line that says what they say.
pub proof fn law_a_line_shows_its_text(s: Seq<SpecInline>, base: TextStyle, t: Theme)
    requires
        forall|i: int| 0 <= i < s.len() ==> !(#[trigger] s[i] is LineBreak),
    ensures
        line_texts(inline_rows(s, base, t)) == seq![all_seen(s)],
        inline_rows(s, base, t).len() == 1,
    decreases s.len(),
{
    if s.len() > 0 {
        let before = s.drop_last();
        assert forall|i: int| 0 <= i < before.len() implies !(#[trigger] before[i] is LineBreak) by {
            assert(before[i] == s[i]);
        }
        law_a_line_shows_its_text(before, base, t);
        let row = inline_rows(before, base, t);
        assert(line_texts(row)[0] == line_text(row[0]));
        lemma_seen(s.last(), base, t);
        lemma_spans_join(row[0].spans, inline_spans(s.last(), base, t));
        assert(s[s.len() - 1] == s.last());
    }
    assert(line_texts(inline_rows(s, base, t)) =~= seq![all_seen(s)]);
}

/// A break ends a line: what stands before it and what stands after it are drawn as if each
/// stood alone.
pub proof fn law_a_break_ends_a_line(
    a: Seq<SpecInline>,
    b: Seq<SpecInline>,
    base: TextStyle,
    t: Theme,
)
    ensures
        inline_rows(a + seq![SpecInline::LineBreak] + b, base, t) == inline_rows(a, base, t)
            + inline_rows(b, base, t),
    decreases b.len(),
{
    let s = a + seq![SpecInline::LineBreak] + b;
    if b.len() == 0 {
        assert(s.drop_last() =~= a);
        assert(s.last() is LineBreak);
        assert(inline_rows(s, base, t) =~= inline_rows(a, base, t) + inline_rows(b, base, t));
    } else {
        law_a_break_ends_a_line(a, b.drop_last(), base, t);
        lemma_inline_rows_not_empty(b.drop_last(), base, t);
        assert(s.drop_last() =~= a + seq![SpecInline::LineBreak] + b.drop_last());
        assert(s.last() == b.last());
        let before = inline_rows(s.drop_last(), base, t);
        let own = inline_rows(b.drop_last(), base, t);
        assert(before.last() == own.last());
        assert(inline_rows(s, base, t) =~= inline_rows(a, base, t) + inline_rows(b, base, t));
    }
}

// --- Blocks -----------------------------------------------------------------------

/// A heading is drawn as a paragraph is, after as many `#` as its level.
pub proof fn law_a_heading_shows_its_level(level: u8, content: Seq<SpecInline>, t: Theme)
    ensures
        line_texts(block_rows(SpecBlock::Heading { level, content }, t)) == ({
            let lines = line_texts(block_rows(SpecBlock::Paragraph(content), t));
            lines.update(0, Seq::new(level as nat, |i: int| '#') + " "@ + lines[0])
        }),
{
    let heading = inline_rows(content, t.spec_heading(), t);
    let body = inline_rows(content, t.spec_body(), t);
    lemma_inline_rows_not_empty(content, t.spec_heading(), t);
    lemma_rows_say_the_same(content, t.spec_heading(), t.spec_body(), t);
    let hash = SpecSpan { content: repeated('#', level as nat) + " "@, style: t.spec_dim() };
    lemma_prefix_text(heading[0], hash);
    assert(repeated('#', level as nat) =~= Seq::new(level as nat, |i: int| '#'));
    assert(line_texts(heading)[0] == line_text(heading[0]));
    let got = block_rows(SpecBlock::Heading { level, content }, t);
    let want = line_texts(body).update(
        0,
        Seq::new(level as nat, |i: int| '#') + " "@ + line_texts(body)[0],
    );
    assert forall|i: int| 0 <= i < want.len() implies line_texts(got)[i] == want[i] by {
        assert(line_texts(heading)[i] == line_text(heading[i]));
    }
    assert(line_texts(got) =~= want);
}

/// The style of inlines changes nothing in what their lines say.
pub proof fn lemma_rows_say_the_same(
    s: Seq<SpecInline>,
    one: TextStyle,
    other: TextStyle,
    t: Theme,
)
    ensures
        line_texts(inline_rows(s, one, t)) == line_texts(inline_rows(s, other, t)),
    decreases s.len(),
{
    if s.len() > 0 {
        lemma_rows_say_the_same(s.drop_last(), one, other, t);
        let a = inline_rows(s.drop_last(), one, t);
        let b = inline_rows(s.drop_last(), other, t);
        lemma_inline_rows_not_empty(s.drop_last(), one, t);
        lemma_inline_rows_not_empty(s.drop_last(), other, t);
        assert(a.len() == line_texts(a).len() && b.len() == line_texts(b).len());
        assert forall|i: int| 0 <= i < a.len() implies line_text(#[trigger] a[i]) == line_text(
            b[i],
        ) by {
            assert(line_texts(a)[i] == line_texts(b)[i]);
        }
        lemma_seen(s.last(), one, t);
        lemma_seen(s.last(), other, t);
        lemma_spans_join(a.last().spans, inline_spans(s.last(), one, t));
        lemma_spans_join(b.last().spans, inline_spans(s.last(), other, t));
    }
    assert(line_texts(inline_rows(s, one, t)) =~= line_texts(inline_rows(s, other, t)));
}

/// A quote is what it holds, behind a bar.
pub proof fn law_a_quote_stands_behind_a_bar(inner: Seq<SpecBlock>, t: Theme)
    ensures
        line_texts(block_rows(SpecBlock::Quote(inner), t)) == after_marks(
            line_texts(blocks_rows(inner, t)),
            "▍ "@,
            "▍ "@,
        ),
{
    let bar = SpecSpan { content: "▍ "@, style: TextStyle::in_color(t.accent2) };
    lemma_prefixed_texts(blocks_rows(inner, t), bar, bar);
}

/// A list's items stand one below the other, each behind its bullet or its number, counted
/// from one.
pub proof fn law_items_are_marked(ordered: bool, items: Seq<Seq<SpecBlock>>, t: Theme)
    requires
        items.len() > 0,
    ensures
        line_texts(block_rows(SpecBlock::List { ordered, items }, t)) == line_texts(
            block_rows(SpecBlock::List { ordered, items: items.drop_last() }, t),
        ) + after_marks(
            line_texts(blocks_rows(items.last(), t)),
            if ordered {
                decimal(items.len()) + ". "@
            } else {
                "• "@
            },
            "  "@,
        ),
{
    let n = (items.len() - 1) as nat;
    let first = SpecSpan {
        content: crate::ui::doc::item_marker(ordered, n),
        style: t.spec_accent(),
    };
    let rest = SpecSpan { content: "  "@, style: t.spec_accent() };
    lemma_prefixed_texts(blocks_rows(items.last(), t), first, rest);
    let list = SpecBlock::List { ordered, items };
    let before = SpecBlock::List { ordered, items: items.drop_last() };
    assert(block_rows(list, t) == crate::ui::doc::items_rows(ordered, items, t));
    assert(block_rows(before, t) == crate::ui::doc::items_rows(ordered, items.drop_last(), t));
    assert(line_texts(block_rows(list, t)) =~= line_texts(block_rows(before, t)) + line_texts(
        prefixed(blocks_rows(items.last(), t), first, rest),
    ));
}

proof fn lemma_line_in(text: Seq<char>, style: TextStyle)
    requires
        !text.contains('\n'),
    ensures
        line_text(line_in(text, style)) == text,
{
    if text.len() > 0 {
        law_the_last_line_may_be_open(text);
        let l = line_in(text, style);
        assert(l.spans =~= seq![SpecSpan { content: text, style: TextStyle::unstyled() }]);
        lemma_one_span(SpecSpan { content: text, style: TextStyle::unstyled() });
    } else {
        assert(line_in(text, style).spans =~= Seq::empty());
        assert(text =~= Seq::empty());
    }
}

proof fn lemma_no_feeds(s: Seq<char>, from: int, i: int)
    requires
        0 <= from,
        0 <= i < crate::text::lines_from(s, from).len(),
    ensures
        !crate::text::lines_from(s, from)[i].contains('\n'),
    decreases s.len() - from,
{
    crate::text::lemma_find_from(
        s,
        if from <= s.len() {
            from
        } else {
            s.len() as int
        },
        '\n',
    );
    let all = crate::text::lines_from(s, from);
    match crate::text::find_from(s, from, '\n') {
        Some(k) => {
            if i > 0 {
                lemma_no_feeds(s, k + 1, i - 1);
            } else {
                let own = s.subrange(from, k);
                assert forall|j: int| 0 <= j < all[0].len() implies all[0][j] != '\n' by {
                    assert(all[0][j] == own[j]);
                    assert(own[j] == s[from + j]);
                }
            }
        },
        None => {
            assert forall|j: int| 0 <= j < all[0].len() implies all[0][j] != '\n' by {
                assert(all[0][j] == s[from + j]);
            }
        },
    }
}

/// A code block shows its code line by line, between two fences, the language on the first.
pub proof fn law_code_is_shown_line_by_line(lang: Option<Seq<char>>, text: Seq<char>, t: Theme)
    requires
        lang matches Some(l) ==> !l.contains('\n'),
    ensures
        line_texts(block_rows(SpecBlock::Code { lang, text }, t)) == seq![
            "```"@ + (match lang {
                Some(l) => l,
                None => Seq::empty(),
            }),
        ] + text_lines(text) + seq!["```"@],
{
    reveal_strlit("```");
    let rows = code_rows(lang, text, t);
    let label = match lang {
        Some(l) => l,
        None => Seq::empty(),
    };
    let opening = "```"@ + label;
    assert forall|i: int| 0 <= i < opening.len() implies opening[i] != '\n' by {
        if i >= 3 {
            assert(opening[i] == label[i - 3]);
            assert(label.contains(label[i - 3]));
        }
    }
    lemma_line_in(opening, t.spec_dim());
    lemma_line_in("```"@, t.spec_dim());
    let lines = text_lines(text);
    let n = lines.len() as int;
    let want = seq![opening] + lines + seq!["```"@];
    assert forall|i: int| 0 <= i < want.len() implies line_texts(rows)[i] == want[i] by {
        if 1 <= i <= n {
            lemma_no_feeds(text, 0, i - 1);
            lemma_line_in(lines[i - 1], t.spec_code_block());
            assert(rows[i] == line_in(lines[i - 1], t.spec_code_block()));
        }
    }
    assert(line_texts(rows) =~= want);
}

/// An image stands in its text by its description, and every image of a grid does.
pub proof fn law_images_are_described(images: Seq<SpecImage>, i: int, t: Theme)
    requires
        0 <= i < images.len(),
        images[i].alt.len() > 0,
        !images[i].alt.contains('\n'),
    ensures
        line_texts(block_rows(SpecBlock::Image(images[i]), t)) == seq!["🖼  "@ + images[i].alt],
        block_rows(SpecBlock::ImageGrid(images), t).len() == images.len(),
        block_rows(SpecBlock::ImageGrid(images), t)[i] == block_rows(
            SpecBlock::Image(images[i]),
            t,
        )[0],
{
    let alt = images[i].alt;
    let text = "🖼  "@ + alt;
    reveal_strlit("🖼  ");
    assert forall|k: int| 0 <= k < text.len() implies text[k] != '\n' by {
        if k >= "🖼  "@.len() {
            assert(text[k] == alt[k - "🖼  "@.len()]);
            assert(alt.contains(alt[k - "🖼  "@.len()]));
        }
    }
    lemma_line_in(text, t.spec_dim());
    assert(line_texts(block_rows(SpecBlock::Image(images[i]), t)) =~= seq![text]);
}

/// A document is drawn block by block, with a blank line between two.
pub proof fn law_blocks_are_drawn_in_order(a: Seq<SpecBlock>, b: Seq<SpecBlock>, t: Theme)
    requires
        a.len() > 0,
        b.len() > 0,
    ensures
        text_rows(a + b, t) == text_rows(a, t) + seq![bare_line(Seq::empty())] + text_rows(b, t),
    decreases b.len(),
{
    let s = a + b;
    assert(s.last() == b.last());
    assert(s.drop_last() =~= a + b.drop_last());
    if b.len() == 1 {
        assert(b.drop_last() =~= Seq::empty());
        assert(a + b.drop_last() =~= a);
        assert(text_rows(b.drop_last(), t) =~= Seq::empty());
        assert(text_rows(b, t) =~= block_rows(b.last(), t));
    } else {
        law_blocks_are_drawn_in_order(a, b.drop_last(), t);
    }
    assert(text_rows(s, t) =~= text_rows(a, t) + seq![bare_line(Seq::empty())] + text_rows(b, t));
}

/// A document of one block is drawn as that block, and one without blocks not at all.
pub proof fn law_one_block_is_drawn(b: SpecBlock, t: Theme)
    ensures
        text_rows(seq![b], t) == block_rows(b, t),
        text_rows(Seq::empty(), t).len() == 0,
        blocks_rows(seq![b], t) == block_rows(b, t),
{
    let s = seq![b];
    assert(s.drop_last() =~= Seq::empty());
    assert(text_rows(Seq::<SpecBlock>::empty(), t) =~= Seq::empty());
    assert(text_rows(s, t) =~= block_rows(b, t));
    assert(blocks_rows(Seq::<SpecBlock>::empty(), t) =~= Seq::empty());
    assert(blocks_rows(s, t) =~= block_rows(b, t));
}

// --- Tables -----------------------------------------------------------------------

/// The columns' widths together, with what stands between them.
pub open spec fn width_upto(widths: Seq<nat>, k: int) -> int
    decreases k,
{
    if k <= 0 {
        0
    } else {
        width_upto(widths, k - 1) + widths[k - 1] + 3
    }
}

proof fn lemma_border_len(widths: Seq<nat>, k: int, mid: Seq<char>, right: Seq<char>)
    requires
        0 <= k <= widths.len(),
        mid.len() == 1,
        right.len() == 1,
    ensures
        border_upto(widths, k, mid, right).len() == width_upto(widths, k),
    decreases k,
{
    if k > 0 {
        lemma_border_len(widths, k - 1, mid, right);
    }
}

proof fn lemma_row_len(
    cells: Seq<Seq<char>>,
    widths: Seq<nat>,
    k: int,
    cell: TextStyle,
    edge: TextStyle,
)
    requires
        0 <= k <= widths.len(),
    ensures
        spans_text(row_upto(cells, widths, k, cell, edge)).len() == width_upto(widths, k),
    decreases k,
{
    if k > 0 {
        lemma_row_len(cells, widths, k - 1, cell, edge);
        reveal_strlit("│ ");
        reveal_strlit(" ");
        reveal_strlit("…");
        let a = SpecSpan { content: "│ "@, style: edge };
        let b = SpecSpan {
            content: padded(truncated(cell_text(cells, k - 1), widths[k - 1]), widths[k - 1]),
            style: cell,
        };
        let c = SpecSpan { content: " "@, style: TextStyle::unstyled() };
        let own = seq![a, b, c];
        assert(own =~= seq![a] + seq![b] + seq![c]);
        lemma_spans_join(seq![a] + seq![b], seq![c]);
        lemma_spans_join(seq![a], seq![b]);
        lemma_one_span(a);
        lemma_one_span(b);
        lemma_one_span(c);
        lemma_spans_join(row_upto(cells, widths, k - 1, cell, edge), own);
        assert(b.content.len() == widths[k - 1]);
    }
}

/// Every row of a table is as wide as its borders, so its columns stand below each other.
pub proof fn law_tables_are_aligned(
    cells: Seq<Seq<char>>,
    widths: Seq<nat>,
    cell: TextStyle,
    edge: TextStyle,
)
    requires
        widths.len() > 0,
    ensures
        line_text(row_of(cells, widths, cell, edge)).len() == border_text(
            widths,
            "┌"@,
            "┬"@,
            "┐"@,
        ).len(),
        border_text(widths, "┌"@, "┬"@, "┐"@).len() == border_text(
            widths,
            "├"@,
            "┼"@,
            "┤"@,
        ).len(),
        border_text(widths, "┌"@, "┬"@, "┐"@).len() == border_text(
            widths,
            "└"@,
            "┴"@,
            "┘"@,
        ).len(),
{
    reveal_strlit("┌");
    reveal_strlit("┬");
    reveal_strlit("┐");
    reveal_strlit("├");
    reveal_strlit("┼");
    reveal_strlit("┤");
    reveal_strlit("└");
    reveal_strlit("┴");
    reveal_strlit("┘");
    reveal_strlit("│");
    let n = widths.len() as int;
    lemma_border_len(widths, n, "┬"@, "┐"@);
    lemma_border_len(widths, n, "┼"@, "┤"@);
    lemma_border_len(widths, n, "┴"@, "┘"@);
    lemma_row_len(cells, widths, n, cell, edge);
    let last = SpecSpan { content: "│"@, style: edge };
    let before = row_upto(cells, widths, n, cell, edge);
    assert(before.push(last) =~= before + seq![last]);
    lemma_spans_join(before, seq![last]);
    lemma_one_span(last);
}

proof fn lemma_widths_hold(grid: Seq<Seq<Seq<char>>>, r: int, i: int)
    requires
        0 <= r < grid.len(),
        0 <= i < grid[r].len(),
    ensures
        i < column_count(grid),
        grid[r][i].len() <= MAX_COL ==> grid[r][i].len() <= column_width(grid, i),
    decreases grid.len(),
{
    if r < grid.len() - 1 {
        assert(grid.drop_last()[r] == grid[r]);
        lemma_widths_hold(grid.drop_last(), r, i);
    } else {
        assert(grid.last() == grid[r]);
    }
}

/// A cell of up to 28 characters is shown whole, in its own column.
pub proof fn law_cells_are_shown(
    head: Seq<Seq<SpecInline>>,
    rows: Seq<Seq<Seq<SpecInline>>>,
    r: int,
    i: int,
)
    requires
        0 <= r < rows.len(),
        0 <= i < rows[r].len(),
        plain_texts(rows[r][i]).len() <= MAX_COL,
    ensures
        ({
            let widths = column_widths(table_texts(head, rows));
            &&& i < widths.len()
            &&& truncated(cell_text(row_texts(rows[r]), i), widths[i]) == plain_texts(rows[r][i])
        }),
{
    let grid = table_texts(head, rows);
    let k = if head.len() == 0 {
        r
    } else {
        r + 1
    };
    assert(grid[k] == row_texts(rows[r]));
    lemma_widths_hold(grid, k, i);
}

/// A table shows a line for each of its rows, in order, between its borders.
pub proof fn law_every_row_is_shown(
    head: Seq<Seq<SpecInline>>,
    rows: Seq<Seq<Seq<SpecInline>>>,
    r: int,
    t: Theme,
)
    requires
        0 <= r < rows.len(),
        rows[r].len() > 0,
    ensures
        ({
            let widths = column_widths(table_texts(head, rows));
            let lines = block_rows(SpecBlock::Table { head, rows }, t);
            let first: int = if head.len() == 0 {
                1
            } else {
                3
            };
            &&& lines.len() == first + rows.len() + 1
            &&& lines[first + r] == row_of(
                row_texts(rows[r]),
                widths,
                t.spec_body(),
                TextStyle::in_color(t.border),
            )
            &&& head.len() > 0 ==> lines[1] == row_of(
                row_texts(head),
                widths,
                t.spec_heading(),
                TextStyle::in_color(t.border),
            )
        }),
{
    let grid = table_texts(head, rows);
    let k = if head.len() == 0 {
        r
    } else {
        r + 1
    };
    assert(grid[k] == row_texts(rows[r]));
    lemma_widths_hold(grid, k, 0);
}

/// Cells show the words of their inlines, in order, whatever their style.
pub proof fn law_cells_say_their_words(s: Seq<SpecInline>)
    requires
        all_words(s),
    ensures
        plain_texts(s) == all_seen(s),
    decreases s, 1int,
{
    if s.len() > 0 {
        law_cells_say_their_words(s.drop_last());
        lemma_plain_word(s.last());
    }
}

proof fn lemma_plain_word(x: SpecInline)
    requires
        only_words(x),
    ensures
        crate::ui::doc::plain_text(x) == seen(x),
    decreases x, 0int,
{
    match x {
        SpecInline::Strong(c) => law_cells_say_their_words(c),
        SpecInline::Emphasis(c) => law_cells_say_their_words(c),
        SpecInline::Strike(c) => law_cells_say_their_words(c),
        SpecInline::Underline(c) => law_cells_say_their_words(c),
        SpecInline::Highlight(c) => law_cells_say_their_words(c),
        SpecInline::Link { href, content } => law_cells_say_their_words(content),
        _ => {},
    }
}

/// A callout shows what a paragraph would, behind a bar, and its emoji before the first word.
pub proof fn law_a_callout_stands_behind_its_bar(
    emoji: Option<Seq<char>>,
    tint: Option<(u8, u8, u8)>,
    content: Seq<SpecInline>,
    t: Theme,
)
    ensures
        ({
            let lines = line_texts(block_rows(SpecBlock::Paragraph(content), t));
            let badge = match emoji {
                Some(e) => e + " "@,
                None => Seq::empty(),
            };
            line_texts(block_rows(SpecBlock::Callout { emoji, tint, content }, t)) == after_marks(
                lines,
                "▌ "@ + badge,
                "▌ "@,
            )
        }),
{
    let rows = inline_rows(content, t.spec_body(), t);
    lemma_inline_rows_not_empty(content, t.spec_body(), t);
    let lines = line_texts(rows);
    let badged = crate::ui::doc::badged(rows, emoji, t);
    let bar = SpecSpan {
        content: "▌ "@,
        style: TextStyle::in_color(crate::ui::doc::bar_color(tint, t)),
    };
    lemma_prefixed_texts(badged, bar, bar);
    let badge = match emoji {
        Some(e) => e + " "@,
        None => Seq::empty(),
    };
    if let Some(e) = emoji {
        lemma_prefix_text(rows[0], SpecSpan { content: e + " "@, style: t.spec_body() });
    }
    let got = after_marks(line_texts(badged), "▌ "@, "▌ "@);
    let want = after_marks(lines, "▌ "@ + badge, "▌ "@);
    assert forall|i: int| 0 <= i < want.len() implies got[i] == want[i] by {
        assert(lines[i] == line_text(rows[i]));
        assert(line_texts(badged)[i] == line_text(badged[i]));
        if i == 0 {
            assert(line_text(badged[0]) =~= badge + lines[0]);
            assert("▌ "@ + (badge + lines[0]) =~= "▌ "@ + badge + lines[0]);
        }
    }
    assert(got =~= want);
}

} // verus!
