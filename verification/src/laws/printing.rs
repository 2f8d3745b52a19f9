//! Printing a document: everything that it says is in the text, in order.
use vstd::prelude::*;

use crate::model::{SpecBlock, SpecImage, SpecInline};
use crate::print::{
    flat, flats, image_line_text, image_mark, item_flats, list_lines, marked, marked_all, pad_of,
    padded_line, padded_lines, printed, printed_all, printed_quote, row_text, table_lines,
};
use crate::text::{joined, text_lines};

verus! {

// --- Standing in order ------------------------------------------------------------

/// Texts stand in another one after the other.
pub open spec fn stand_in(parts: Seq<Seq<char>>, out: Seq<char>) -> bool
    decreases parts.len(),
{
    if parts.len() == 0 {
        true
    } else {
        exists|a: Seq<char>, b: Seq<char>|
            out == #[trigger] (a + parts.last() + b) && stand_in(parts.drop_last(), a)
    }
}

pub proof fn lemma_more_after(parts: Seq<Seq<char>>, x: Seq<char>, y: Seq<char>)
    requires
        stand_in(parts, x),
    ensures
        stand_in(parts, x + y),
{
    if parts.len() > 0 {
        let (a, b) = choose|a: Seq<char>, b: Seq<char>|
            x == #[trigger] (a + parts.last() + b) && stand_in(parts.drop_last(), a);
        assert(x + y =~= a + parts.last() + (b + y));
    }
}

pub proof fn lemma_join(p: Seq<Seq<char>>, x: Seq<char>, q: Seq<Seq<char>>, y: Seq<char>)
    requires
        stand_in(p, x),
        stand_in(q, y),
    ensures
        stand_in(p + q, x + y),
    decreases q.len(),
{
    if q.len() == 0 {
        assert(p + q =~= p);
        lemma_more_after(p, x, y);
    } else {
        let (a, b) = choose|a: Seq<char>, b: Seq<char>|
            y == #[trigger] (a + q.last() + b) && stand_in(q.drop_last(), a);
        lemma_join(p, x, q.drop_last(), a);
        assert((p + q).drop_last() =~= p + q.drop_last());
        assert((p + q).last() == q.last());
        assert(x + y =~= (x + a) + q.last() + b);
    }
}

pub proof fn lemma_around(before: Seq<char>, p: Seq<Seq<char>>, x: Seq<char>, after: Seq<char>)
    requires
        stand_in(p, x),
    ensures
        stand_in(p, before + x + after),
{
    let none = Seq::<Seq<char>>::empty();
    lemma_join(none, before, p, x);
    assert(none + p =~= p);
    lemma_more_after(p, before + x, after);
}

pub proof fn lemma_itself(t: Seq<char>)
    ensures
        stand_in(seq![t], t),
{
    let none = Seq::<char>::empty();
    assert(seq![t].last() == t);
    assert(t =~= none + t + none);
    assert(stand_in(seq![t].drop_last(), none));
}

// --- What is said -----------------------------------------------------------------

/// What an inline says: its texts, where it leads to, what it shows.
pub open spec fn said(x: SpecInline) -> Seq<Seq<char>>
    decreases x,
{
    match x {
        SpecInline::Text(t) => seq![t],
        SpecInline::Code(t) => seq![t],
        SpecInline::Image(i) => seq![i.alt],
        SpecInline::LineBreak => Seq::empty(),
        SpecInline::Strong(c) => all_said(c),
        SpecInline::Emphasis(c) => all_said(c),
        SpecInline::Strike(c) => all_said(c),
        SpecInline::Underline(c) => all_said(c),
        SpecInline::Highlight(c) => all_said(c),
        SpecInline::Link { href, content } => all_said(content) + seq![href],
    }
}

/// What inlines say.
pub open spec fn all_said(s: Seq<SpecInline>) -> Seq<Seq<char>>
    decreases s,
{
    if s.len() == 0 {
        Seq::empty()
    } else {
        all_said(s.drop_last()) + said(s.last())
    }
}

/// What the cells of a row say.
pub open spec fn cells_said(cells: Seq<Seq<SpecInline>>) -> Seq<Seq<char>>
    decreases cells.len(),
{
    if cells.len() == 0 {
        Seq::empty()
    } else {
        cells_said(cells.drop_last()) + all_said(cells.last())
    }
}

/// What the rows of a table say.
pub open spec fn rows_said(rows: Seq<Seq<Seq<SpecInline>>>) -> Seq<Seq<char>>
    decreases rows.len(),
{
    if rows.len() == 0 {
        Seq::empty()
    } else {
        rows_said(rows.drop_last()) + cells_said(rows.last())
    }
}

/// What images say.
pub open spec fn alts(images: Seq<SpecImage>) -> Seq<Seq<char>> {
    images.map_values(|i: SpecImage| i.alt)
}

/// What a block says, but for what code says line by line.
pub open spec fn block_said(b: SpecBlock) -> Seq<Seq<char>>
    decreases b,
{
    match b {
        SpecBlock::Paragraph(c) => all_said(c),
        SpecBlock::Heading { level, content } => all_said(content),
        SpecBlock::Quote(inner) => blocks_said(inner),
        SpecBlock::List { ordered, items } => items_said(items),
        SpecBlock::Code { lang, text } => Seq::empty(),
        SpecBlock::Image(i) => seq![i.alt],
        SpecBlock::ImageGrid(images) => alts(images),
        SpecBlock::Callout { emoji, tint, content } => all_said(content),
        SpecBlock::GalleryRef { uri } => Seq::empty(),
        SpecBlock::Table { head, rows } => if head.len() == 0 {
            rows_said(rows)
        } else {
            cells_said(head) + rows_said(rows)
        },
        SpecBlock::Rule => Seq::empty(),
    }
}

/// What blocks say.
pub open spec fn blocks_said(s: Seq<SpecBlock>) -> Seq<Seq<char>>
    decreases s,
{
    if s.len() == 0 {
        Seq::empty()
    } else {
        blocks_said(s.drop_last()) + block_said(s.last())
    }
}

/// What list items say.
pub open spec fn items_said(s: Seq<Seq<SpecBlock>>) -> Seq<Seq<char>>
    decreases s,
{
    if s.len() == 0 {
        Seq::empty()
    } else {
        items_said(s.drop_last()) + blocks_said(s.last())
    }
}

// --- It is printed ----------------------------------------------------------------

proof fn lemma_inline(x: SpecInline)
    ensures
        stand_in(said(x), marked(x)),
    decreases x, 0int,
{
    let none = Seq::<char>::empty();
    match x {
        SpecInline::Text(t) => {
            lemma_itself(t);
        },
        SpecInline::Code(t) => {
            lemma_itself(t);
            lemma_around("`"@, seq![t], t, "`"@);
        },
        SpecInline::Image(i) => {
            lemma_itself(i.alt);
            lemma_around("🖼 "@, seq![i.alt], i.alt, none);
            assert("🖼 "@ + i.alt + none =~= "🖼 "@ + i.alt);
        },
        SpecInline::LineBreak => {},
        SpecInline::Strong(c) => {
            law_marks_keep_what_is_said(c);
            lemma_around("**"@, all_said(c), marked_all(c), "**"@);
        },
        SpecInline::Emphasis(c) => {
            law_marks_keep_what_is_said(c);
            lemma_around("_"@, all_said(c), marked_all(c), "_"@);
        },
        SpecInline::Strike(c) => {
            law_marks_keep_what_is_said(c);
            lemma_around("~~"@, all_said(c), marked_all(c), "~~"@);
        },
        SpecInline::Underline(c) => {
            law_marks_keep_what_is_said(c);
            lemma_around("__"@, all_said(c), marked_all(c), "__"@);
        },
        SpecInline::Highlight(c) => {
            law_marks_keep_what_is_said(c);
            lemma_around("=="@, all_said(c), marked_all(c), "=="@);
        },
        SpecInline::Link { href, content } => {
            law_marks_keep_what_is_said(content);
            lemma_around("["@, all_said(content), marked_all(content), "]("@);
            lemma_itself(href);
            lemma_join(
                all_said(content),
                "["@ + marked_all(content) + "]("@,
                seq![href],
                href,
            );
            lemma_more_after(
                all_said(content) + seq![href],
                "["@ + marked_all(content) + "]("@ + href,
                ")"@,
            );
        },
    }
}

/// Marked inlines hold what they say, in order, links with where they lead to.
pub proof fn law_marks_keep_what_is_said(s: Seq<SpecInline>)
    ensures
        stand_in(all_said(s), marked_all(s)),
    decreases s, 1int,
{
    if s.len() > 0 {
        law_marks_keep_what_is_said(s.drop_last());
        lemma_inline(s.last());
        lemma_join(
            all_said(s.drop_last()),
            marked_all(s.drop_last()),
            said(s.last()),
            marked(s.last()),
        );
    }
}

proof fn lemma_joined_last(p: Seq<Seq<char>>, parts: Seq<Seq<char>>, sep: Seq<char>, q: Seq<
    Seq<char>,
>)
    requires
        parts.len() > 0,
        stand_in(p, joined(parts.drop_last(), sep)),
        stand_in(q, parts.last()),
    ensures
        stand_in(p + q, joined(parts, sep)),
{
    if parts.len() == 1 {
        assert(parts.drop_last().len() == 0);
        lemma_join(p, joined(parts.drop_last(), sep), q, parts.last());
        assert(joined(parts.drop_last(), sep) + parts.last() =~= parts[0]);
    } else {
        lemma_more_after(p, joined(parts.drop_last(), sep), sep);
        lemma_join(p, joined(parts.drop_last(), sep) + sep, q, parts.last());
    }
}

proof fn lemma_row(cells: Seq<Seq<SpecInline>>)
    ensures
        stand_in(cells_said(cells), row_text(cells)),
    decreases cells.len(),
{
    if cells.len() > 0 {
        lemma_row(cells.drop_last());
        let texts = cells.map_values(|c: Seq<SpecInline>| marked_all(c));
        assert(texts.drop_last() =~= cells.drop_last().map_values(
            |c: Seq<SpecInline>| marked_all(c),
        ));
        law_marks_keep_what_is_said(cells.last());
        lemma_joined_last(cells_said(cells.drop_last()), texts, " | "@, all_said(cells.last()));
    }
}

proof fn lemma_line(p: Seq<Seq<char>>, pad: Seq<char>, text: Seq<char>)
    requires
        stand_in(p, text),
    ensures
        stand_in(p, padded_line(pad, text)),
{
    lemma_around(pad, p, text, "\n"@);
}

proof fn lemma_lines_last(p: Seq<Seq<char>>, pad: Seq<char>, lines: Seq<Seq<char>>, q: Seq<
    Seq<char>,
>)
    requires
        lines.len() > 0,
        stand_in(p, padded_lines(pad, lines.drop_last())),
        stand_in(q, lines.last()),
    ensures
        stand_in(p + q, padded_lines(pad, lines)),
{
    lemma_line(q, pad, lines.last());
    lemma_join(p, padded_lines(pad, lines.drop_last()), q, padded_line(pad, lines.last()));
}

proof fn lemma_rows(pad: Seq<char>, rows: Seq<Seq<Seq<SpecInline>>>)
    ensures
        stand_in(
            rows_said(rows),
            padded_lines(pad, rows.map_values(|r: Seq<Seq<SpecInline>>| row_text(r))),
        ),
    decreases rows.len(),
{
    if rows.len() > 0 {
        lemma_rows(pad, rows.drop_last());
        let lines = rows.map_values(|r: Seq<Seq<SpecInline>>| row_text(r));
        assert(lines.drop_last() =~= rows.drop_last().map_values(
            |r: Seq<Seq<SpecInline>>| row_text(r),
        ));
        lemma_row(rows.last());
        lemma_lines_last(rows_said(rows.drop_last()), pad, lines, cells_said(rows.last()));
    }
}

proof fn lemma_lines_join(pad: Seq<char>, a: Seq<Seq<char>>, b: Seq<Seq<char>>)
    ensures
        padded_lines(pad, a + b) == padded_lines(pad, a) + padded_lines(pad, b),
    decreases b.len(),
{
    if b.len() == 0 {
        assert(a + b =~= a);
        assert(padded_lines(pad, a) + padded_lines(pad, b) =~= padded_lines(pad, a));
    } else {
        lemma_lines_join(pad, a, b.drop_last());
        assert((a + b).drop_last() =~= a + b.drop_last());
        assert(padded_lines(pad, a + b) =~= padded_lines(pad, a) + padded_lines(pad, b));
    }
}

proof fn lemma_grid(pad: Seq<char>, images: Seq<SpecImage>)
    ensures
        stand_in(
            alts(images),
            padded_lines(pad, images.map_values(|i: SpecImage| image_line_text(i))),
        ),
    decreases images.len(),
{
    if images.len() > 0 {
        lemma_grid(pad, images.drop_last());
        let lines = images.map_values(|i: SpecImage| image_line_text(i));
        assert(lines.drop_last() =~= images.drop_last().map_values(
            |i: SpecImage| image_line_text(i),
        ));
        lemma_image(images.last());
        lemma_lines_last(alts(images.drop_last()), pad, lines, seq![images.last().alt]);
        assert(alts(images.drop_last()) + seq![images.last().alt] =~= alts(images));
    }
}

proof fn lemma_image(i: SpecImage)
    ensures
        stand_in(seq![i.alt], image_line_text(i)),
        stand_in(seq![i.alt], image_mark(i)),
{
    lemma_itself(i.alt);
    let source = crate::print::source_text(i.source);
    lemma_around("🖼  "@, seq![i.alt], i.alt, " ("@ + source + ")"@);
    assert(image_line_text(i) =~= "🖼  "@ + i.alt + (" ("@ + source + ")"@));
    lemma_around("["@, seq![i.alt], i.alt, "]"@);
}

proof fn lemma_flat_grid(images: Seq<SpecImage>)
    ensures
        stand_in(
            alts(images),
            joined(images.map_values(|i: SpecImage| image_mark(i)), " "@),
        ),
    decreases images.len(),
{
    if images.len() > 0 {
        lemma_flat_grid(images.drop_last());
        let marks = images.map_values(|i: SpecImage| image_mark(i));
        assert(marks.drop_last() =~= images.drop_last().map_values(|i: SpecImage| image_mark(i)));
        lemma_image(images.last());
        lemma_joined_last(alts(images.drop_last()), marks, " "@, seq![images.last().alt]);
        assert(alts(images.drop_last()) + seq![images.last().alt] =~= alts(images));
    }
}

proof fn lemma_flat_table(head: Seq<Seq<SpecInline>>, rows: Seq<Seq<Seq<SpecInline>>>)
    ensures
        stand_in(cells_said(head) + rows_said(rows), joined(table_lines(head, rows), " / "@)),
    decreases rows.len(),
{
    let lines = table_lines(head, rows);
    if rows.len() == 0 {
        assert(lines =~= seq![row_text(head)]);
        lemma_row(head);
        assert(cells_said(head) + rows_said(rows) =~= cells_said(head));
    } else {
        lemma_flat_table(head, rows.drop_last());
        assert(lines.drop_last() =~= table_lines(head, rows.drop_last()));
        lemma_row(rows.last());
        lemma_joined_last(
            cells_said(head) + rows_said(rows.drop_last()),
            lines,
            " / "@,
            cells_said(rows.last()),
        );
        assert(cells_said(head) + rows_said(rows) =~= cells_said(head) + rows_said(
            rows.drop_last(),
        ) + cells_said(rows.last()));
    }
}

proof fn lemma_flat(b: SpecBlock)
    ensures
        stand_in(block_said(b), flat(b)),
    decreases b, 0int,
{
    match b {
        SpecBlock::Paragraph(c) => {
            law_marks_keep_what_is_said(c);
        },
        SpecBlock::Heading { level, content } => {
            law_marks_keep_what_is_said(content);
        },
        SpecBlock::Quote(inner) => {
            lemma_flats(inner);
        },
        SpecBlock::List { ordered, items } => {
            lemma_item_flats(items);
        },
        SpecBlock::Image(i) => {
            lemma_image(i);
        },
        SpecBlock::ImageGrid(images) => {
            lemma_flat_grid(images);
        },
        SpecBlock::Callout { emoji, tint, content } => {
            law_marks_keep_what_is_said(content);
            let none = Seq::<char>::empty();
            let before = crate::print::emoji_or(emoji) + " "@;
            lemma_around(before, all_said(content), marked_all(content), none);
            assert(before + marked_all(content) + none =~= before + marked_all(content));
        },
        SpecBlock::Table { head, rows } => {
            lemma_flat_table(head, rows);
            if head.len() == 0 {
                assert(cells_said(head) + rows_said(rows) =~= rows_said(rows));
            }
        },
        _ => {},
    }
}

proof fn lemma_flats(s: Seq<SpecBlock>)
    ensures
        stand_in(blocks_said(s), joined(flats(s), " "@)),
    decreases s, 1int,
{
    if s.len() > 0 {
        lemma_flats(s.drop_last());
        lemma_flat(s.last());
        assert(flats(s).drop_last() =~= flats(s.drop_last()));
        lemma_joined_last(blocks_said(s.drop_last()), flats(s), " "@, block_said(s.last()));
    }
}

proof fn lemma_flats_onto(before: Seq<Seq<char>>, p: Seq<Seq<char>>, s: Seq<SpecBlock>)
    requires
        stand_in(p, joined(before, " "@)),
    ensures
        stand_in(p + blocks_said(s), joined(before + flats(s), " "@)),
    decreases s, 1int,
{
    if s.len() == 0 {
        assert(before + flats(s) =~= before);
        assert(p + blocks_said(s) =~= p);
    } else {
        lemma_flats_onto(before, p, s.drop_last());
        lemma_flat(s.last());
        let all = before + flats(s);
        assert(all.drop_last() =~= before + flats(s.drop_last()));
        assert(all.last() == flat(s.last()));
        lemma_joined_last(p + blocks_said(s.drop_last()), all, " "@, block_said(s.last()));
        assert(p + blocks_said(s) =~= p + blocks_said(s.drop_last()) + block_said(s.last()));
    }
}

proof fn lemma_item_flats(s: Seq<Seq<SpecBlock>>)
    ensures
        stand_in(items_said(s), joined(item_flats(s), " "@)),
    decreases s, 2int,
{
    if s.len() > 0 {
        lemma_item_flats(s.drop_last());
        lemma_flats_onto(item_flats(s.drop_last()), items_said(s.drop_last()), s.last());
    }
}

proof fn lemma_list(pad: Seq<char>, ordered: bool, items: Seq<Seq<SpecBlock>>)
    ensures
        stand_in(items_said(items), padded_lines(pad, list_lines(ordered, items))),
    decreases items.len(),
{
    if items.len() > 0 {
        lemma_list(pad, ordered, items.drop_last());
        let lines = list_lines(ordered, items);
        assert(lines.drop_last() =~= list_lines(ordered, items.drop_last()));
        lemma_flats(items.last());
        let before = crate::print::list_marker(ordered, (items.len() - 1) as nat) + " "@;
        let none = Seq::<char>::empty();
        let text = joined(flats(items.last()), " "@);
        lemma_around(before, blocks_said(items.last()), text, none);
        assert(before + text + none =~= lines.last());
        lemma_lines_last(items_said(items.drop_last()), pad, lines, blocks_said(items.last()));
    }
}

/// A printed block holds what it says, in order.
pub proof fn law_a_printed_block_says_it_all(b: SpecBlock, indent: nat)
    ensures
        stand_in(block_said(b), printed(b, indent)),
    decreases b, 0int,
{
    let pad = pad_of(indent);
    let none = Seq::<char>::empty();
    match b {
        SpecBlock::Paragraph(c) => {
            law_marks_keep_what_is_said(c);
            lemma_line(all_said(c), pad, marked_all(c));
        },
        SpecBlock::Heading { level, content } => {
            law_marks_keep_what_is_said(content);
            let before = crate::text::repeated('#', level as nat) + " "@;
            lemma_around(before, all_said(content), marked_all(content), none);
            assert(before + marked_all(content) + none =~= before + marked_all(content));
            lemma_line(all_said(content), pad, before + marked_all(content));
        },
        SpecBlock::Quote(inner) => {
            lemma_quote(inner, pad);
        },
        SpecBlock::List { ordered, items } => {
            lemma_list(pad, ordered, items);
        },
        SpecBlock::Image(i) => {
            lemma_image(i);
            lemma_line(seq![i.alt], pad, image_line_text(i));
        },
        SpecBlock::ImageGrid(images) => {
            lemma_grid(pad, images);
        },
        SpecBlock::Callout { emoji, tint, content } => {
            law_marks_keep_what_is_said(content);
            let before = crate::print::emoji_or(emoji) + " "@;
            lemma_around(before, all_said(content), marked_all(content), none);
            assert(before + marked_all(content) + none =~= before + marked_all(content));
            lemma_line(all_said(content), pad, before + marked_all(content));
        },
        SpecBlock::Table { head, rows } => {
            lemma_rows(pad, rows);
            let lines = rows.map_values(|r: Seq<Seq<SpecInline>>| row_text(r));
            if head.len() == 0 {
                assert(table_lines(head, rows).skip(1) =~= lines);
            } else {
                lemma_row(head);
                lemma_lines_join(pad, seq![row_text(head)], lines);
                assert(seq![row_text(head)].drop_last() =~= Seq::empty());
                assert(stand_in(Seq::empty(), padded_lines(pad, seq![row_text(head)].drop_last())));
                lemma_lines_last(Seq::empty(), pad, seq![row_text(head)], cells_said(head));
                assert(Seq::<Seq<char>>::empty() + cells_said(head) =~= cells_said(head));
                lemma_join(
                    cells_said(head),
                    padded_lines(pad, seq![row_text(head)]),
                    rows_said(rows),
                    padded_lines(pad, lines),
                );
            }
        },
        _ => {},
    }
}

proof fn lemma_quote(s: Seq<SpecBlock>, pad: Seq<char>)
    ensures
        stand_in(blocks_said(s), printed_quote(s, pad)),
    decreases s, 1int,
{
    if s.len() > 0 {
        lemma_quote(s.drop_last(), pad);
        law_a_printed_block_says_it_all(s.last(), 0);
        lemma_more_after(blocks_said(s.drop_last()), printed_quote(s.drop_last(), pad), pad);
        lemma_more_after(
            blocks_said(s.drop_last()),
            printed_quote(s.drop_last(), pad) + pad,
            "│ "@,
        );
        lemma_join(
            blocks_said(s.drop_last()),
            printed_quote(s.drop_last(), pad) + pad + "│ "@,
            block_said(s.last()),
            printed(s.last(), 0),
        );
    }
}

/// A printed document holds what its blocks say, in order.
pub proof fn law_a_printed_document_says_it_all(s: Seq<SpecBlock>, indent: nat)
    ensures
        stand_in(blocks_said(s), printed_all(s, indent)),
    decreases s.len(),
{
    if s.len() > 0 {
        law_a_printed_document_says_it_all(s.drop_last(), indent);
        law_a_printed_block_says_it_all(s.last(), indent);
        lemma_join(
            blocks_said(s.drop_last()),
            printed_all(s.drop_last(), indent),
            block_said(s.last()),
            printed(s.last(), indent),
        );
    }
}

proof fn lemma_code_lines(pad: Seq<char>, lines: Seq<Seq<char>>)
    ensures
        stand_in(lines, padded_lines(pad, lines)),
    decreases lines.len(),
{
    if lines.len() > 0 {
        lemma_code_lines(pad, lines.drop_last());
        lemma_itself(lines.last());
        lemma_lines_last(lines.drop_last(), pad, lines, seq![lines.last()]);
        assert(lines.drop_last() + seq![lines.last()] =~= lines);
    }
}

/// Printed code holds its lines, in order.
pub proof fn law_printed_code_holds_its_lines(
    lang: Option<Seq<char>>,
    text: Seq<char>,
    indent: nat,
)
    ensures
        stand_in(text_lines(text), printed(SpecBlock::Code { lang, text }, indent)),
{
    let pad = pad_of(indent);
    lemma_code_lines(pad, text_lines(text));
    lemma_around(
        padded_line(pad, "```"@ + crate::print::lang_or(lang)),
        text_lines(text),
        padded_lines(pad, text_lines(text)),
        padded_line(pad, "```"@),
    );
}

} // verus!
