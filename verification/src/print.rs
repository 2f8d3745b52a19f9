//! A document as plain text for the command line, in a Markdown-like notation.
use vstd::prelude::*;

use crate::model::{
    block_view, blocks_view, cells_view, images_view, inline_view, inlines_view, items_view,
    lemma_blocks_view, lemma_inlines_view, lemma_items_view, opt_view, rows_view, Block, Image,
    ImageSource, Inline, SpecBlock, SpecImage, SpecImageSource, SpecInline,
};
use crate::text::{
    decimal, decimal_of, join, join2, joined, lemma_strings_view_push, lines_of, owned,
    repeat_char, repeated, strings_view, text_lines,
};

verus! {

// --- Inlines ----------------------------------------------------------------------

/// An inline between its marks.
pub open spec fn marked(x: SpecInline) -> Seq<char>
    decreases x,
{
    match x {
        SpecInline::Text(t) => t,
        SpecInline::Strong(c) => "**"@ + marked_all(c) + "**"@,
        SpecInline::Emphasis(c) => "_"@ + marked_all(c) + "_"@,
        SpecInline::Strike(c) => "~~"@ + marked_all(c) + "~~"@,
        SpecInline::Underline(c) => "__"@ + marked_all(c) + "__"@,
        SpecInline::Highlight(c) => "=="@ + marked_all(c) + "=="@,
        SpecInline::Code(t) => "`"@ + t + "`"@,
        SpecInline::Link { href, content } => "["@ + marked_all(content) + "]("@ + href + ")"@,
        SpecInline::Image(img) => "🖼 "@ + img.alt,
        SpecInline::LineBreak => " "@,
    }
}

/// Inlines between their marks, in order.
pub open spec fn marked_all(s: Seq<SpecInline>) -> Seq<char>
    decreases s,
{
    if s.len() == 0 {
        Seq::empty()
    } else {
        marked_all(s.drop_last()) + marked(s.last())
    }
}

fn between(mark: &str, c: &Vec<Inline>) -> (r: String)
    ensures
        r@ == mark@ + marked_all(inlines_view(c@)) + mark@,
    decreases c, 1int,
{
    let mut out = owned(mark);
    let inner = inlines(c);
    out.push_str(inner.as_str());
    out.push_str(mark);
    out
}

fn inline_marked(x: &Inline) -> (r: String)
    ensures
        r@ == marked(inline_view(*x)),
    decreases x, 2int,
{
    match x {
        Inline::Text(t) => t.clone(),
        Inline::Strong(c) => between("**", c),
        Inline::Emphasis(c) => between("_", c),
        Inline::Strike(c) => between("~~", c),
        Inline::Underline(c) => between("__", c),
        Inline::Highlight(c) => between("==", c),
        Inline::Code(t) => {
            let head = join2("`", t.as_str());
            join2(head.as_str(), "`")
        },
        Inline::Link { href, content } => {
            let mut out = owned("[");
            let inner = inlines(content);
            out.push_str(inner.as_str());
            out.push_str("](");
            out.push_str(href.as_str());
            out.push_str(")");
            out
        },
        Inline::Image(img) => join2("🖼 ", img.alt.as_str()),
        Inline::LineBreak => owned(" "),
    }
}

/// Inlines between their marks, in order.
pub fn inlines(spans: &Vec<Inline>) -> (r: String)
    ensures
        r@ == marked_all(inlines_view(spans@)),
    decreases spans, 0int,
{
    let ghost all = inlines_view(spans@);
    let mut out = String::new();
    let mut i: usize = 0;
    assert(all.take(0) =~= Seq::empty());
    while i < spans.len()
        invariant
            i <= spans@.len(),
            all == inlines_view(spans@),
            out@ == marked_all(all.take(i as int)),
        decreases spans@.len() - i,
    {
        broadcast use lemma_inlines_view;

        let one = inline_marked(&spans[i]);
        out.push_str(one.as_str());
        assert(all.take(i + 1).drop_last() =~= all.take(i as int));
        i = i + 1;
    }
    proof {
        broadcast use lemma_inlines_view;

        assert(all.take(all.len() as int) =~= all);
    }
    out
}

// --- Blocks on one line -----------------------------------------------------------

/// The cells of a row, a bar between them.
pub open spec fn row_text(cells: Seq<Seq<SpecInline>>) -> Seq<char> {
    joined(cells.map_values(|c: Seq<SpecInline>| marked_all(c)), " | "@)
}

/// The rows of a table with its header first.
pub open spec fn table_lines(
    head: Seq<Seq<SpecInline>>,
    rows: Seq<Seq<Seq<SpecInline>>>,
) -> Seq<Seq<char>> {
    seq![row_text(head)] + rows.map_values(|r: Seq<Seq<SpecInline>>| row_text(r))
}

/// A callout's emoji, or what stands for none.
pub open spec fn emoji_or(emoji: Option<Seq<char>>) -> Seq<char> {
    match emoji {
        Some(e) => e,
        None => "›"@,
    }
}

/// An image on one line.
pub open spec fn image_mark(i: SpecImage) -> Seq<char> {
    "["@ + i.alt + "]"@
}

/// A block on one line.
pub open spec fn flat(b: SpecBlock) -> Seq<char>
    decreases b,
{
    match b {
        SpecBlock::Paragraph(c) => marked_all(c),
        SpecBlock::Heading { level: _, content } => marked_all(content),
        SpecBlock::Code { lang: _, text } => text,
        SpecBlock::Quote(inner) => joined(flats(inner), " "@),
        SpecBlock::List { ordered: _, items } => joined(item_flats(items), " "@),
        SpecBlock::Image(img) => image_mark(img),
        SpecBlock::ImageGrid(images) => joined(
            images.map_values(|i: SpecImage| image_mark(i)),
            " "@,
        ),
        SpecBlock::Table { head, rows } => joined(table_lines(head, rows), " / "@),
        SpecBlock::Callout { emoji, tint: _, content } => emoji_or(emoji) + " "@ + marked_all(
            content,
        ),
        SpecBlock::Rule => "───"@,
        SpecBlock::GalleryRef { uri: _ } => "[gallery]"@,
    }
}

/// Blocks on one line each.
pub open spec fn flats(s: Seq<SpecBlock>) -> Seq<Seq<char>>
    decreases s,
{
    if s.len() == 0 {
        Seq::empty()
    } else {
        flats(s.drop_last()).push(flat(s.last()))
    }
}

/// The blocks of items on one line each.
pub open spec fn item_flats(s: Seq<Seq<SpecBlock>>) -> Seq<Seq<char>>
    decreases s,
{
    if s.len() == 0 {
        Seq::empty()
    } else {
        item_flats(s.drop_last()) + flats(s.last())
    }
}

fn row_line(cells: &Vec<Vec<Inline>>) -> (r: String)
    ensures
        r@ == row_text(cells_view(cells@)),
{
    let mut parts: Vec<String> = Vec::new();
    let mut i: usize = 0;
    while i < cells.len()
        invariant
            i <= cells@.len(),
            parts@.len() == i,
            forall|k: int|
                0 <= k < i ==> (#[trigger] parts@[k])@ == marked_all(inlines_view(cells@[k]@)),
        decreases cells@.len() - i,
    {
        parts.push(inlines(&cells[i]));
        i = i + 1;
    }
    assert(strings_view(parts@) =~= cells_view(cells@).map_values(
        |c: Seq<SpecInline>| marked_all(c),
    ));
    join(&parts, " | ")
}

fn table_text(head: &Vec<Vec<Inline>>, rows: &Vec<Vec<Vec<Inline>>>) -> (r: String)
    ensures
        r@ == joined(table_lines(cells_view(head@), rows_view(rows@)), " / "@),
{
    let ghost want = table_lines(cells_view(head@), rows_view(rows@));
    let mut parts: Vec<String> = Vec::new();
    parts.push(row_line(head));
    let mut i: usize = 0;
    while i < rows.len()
        invariant
            i <= rows@.len(),
            want == table_lines(cells_view(head@), rows_view(rows@)),
            parts@.len() == 1 + i,
            forall|k: int| 0 <= k < 1 + i ==> (#[trigger] parts@[k])@ == want[k],
        decreases rows@.len() - i,
    {
        assert(rows_view(rows@)[i as int] == cells_view(rows@[i as int]@));
        parts.push(row_line(&rows[i]));
        i = i + 1;
    }
    assert(strings_view(parts@) =~= want);
    join(&parts, " / ")
}

fn bracketed(alt: &str) -> (r: String)
    ensures
        r@ == "["@ + alt@ + "]"@,
{
    let head = join2("[", alt);
    join2(head.as_str(), "]")
}

fn grid_text(images: &Vec<Image>) -> (r: String)
    ensures
        r@ == joined(images_view(images@).map_values(|i: SpecImage| image_mark(i)), " "@),
{
    let ghost want = images_view(images@).map_values(|i: SpecImage| image_mark(i));
    let mut parts: Vec<String> = Vec::new();
    let mut i: usize = 0;
    while i < images.len()
        invariant
            i <= images@.len(),
            want == images_view(images@).map_values(|i: SpecImage| image_mark(i)),
            parts@.len() == i,
            forall|k: int| 0 <= k < i ==> (#[trigger] parts@[k])@ == want[k],
        decreases images@.len() - i,
    {
        assert(images_view(images@)[i as int] == images@[i as int]@);
        parts.push(bracketed(images[i].alt.as_str()));
        i = i + 1;
    }
    assert(strings_view(parts@) =~= want);
    join(&parts, " ")
}

fn callout_text(emoji: &Option<String>, content: &Vec<Inline>) -> (r: String)
    ensures
        r@ == emoji_or(opt_view(*emoji)) + " "@ + marked_all(inlines_view(content@)),
{
    let mut out = match emoji {
        Some(e) => e.clone(),
        None => owned("›"),
    };
    let inner = inlines(content);
    out.push_str(" ");
    out.push_str(inner.as_str());
    out
}

/// A block on one line.
pub fn block_text(block: &Block) -> (r: String)
    ensures
        r@ == flat(block_view(*block)),
    decreases block,
{
    match block {
        Block::Paragraph(c) => inlines(c),
        Block::Heading { level: _, content } => inlines(content),
        Block::Code { lang: _, text } => text.clone(),
        Block::Quote(inner) => {
            let mut parts: Vec<String> = Vec::new();
            push_flats(inner, &mut parts);
            assert(strings_view(Seq::<String>::empty()) =~= Seq::empty());
            assert(Seq::<Seq<char>>::empty() + flats(blocks_view(inner@)) =~= flats(
                blocks_view(inner@),
            ));
            join(&parts, " ")
        },
        Block::List { ordered: _, items } => {
            let mut parts: Vec<String> = Vec::new();
            push_item_flats(items, &mut parts);
            assert(strings_view(Seq::<String>::empty()) =~= Seq::empty());
            assert(Seq::<Seq<char>>::empty() + item_flats(items_view(items@)) =~= item_flats(
                items_view(items@),
            ));
            join(&parts, " ")
        },
        Block::Image(img) => bracketed(img.alt.as_str()),
        Block::ImageGrid(images) => grid_text(images),
        Block::Table { head, rows } => table_text(head, rows),
        Block::Callout { emoji, tint: _, content } => callout_text(emoji, content),
        Block::Rule => owned("───"),
        Block::GalleryRef { uri: _ } => owned("[gallery]"),
    }
}

fn push_flats(v: &Vec<Block>, out: &mut Vec<String>)
    ensures
        strings_view(final(out)@) == strings_view(old(out)@) + flats(blocks_view(v@)),
    decreases v,
{
    let ghost all = blocks_view(v@);
    let ghost start = strings_view(out@);
    let mut i: usize = 0;
    assert(all.take(0) =~= Seq::empty());
    assert(start + Seq::<Seq<char>>::empty() =~= start);
    while i < v.len()
        invariant
            i <= v@.len(),
            all == blocks_view(v@),
            strings_view(out@) == start + flats(all.take(i as int)),
        decreases v@.len() - i,
    {
        broadcast use {lemma_blocks_view, lemma_strings_view_push};

        out.push(block_text(&v[i]));
        assert(all.take(i + 1).drop_last() =~= all.take(i as int));
        assert(strings_view(out@) =~= start + flats(all.take(i + 1)));
        i = i + 1;
    }
    proof {
        broadcast use lemma_blocks_view;

        assert(all.take(all.len() as int) =~= all);
    }
}

fn push_item_flats(v: &Vec<Vec<Block>>, out: &mut Vec<String>)
    ensures
        strings_view(final(out)@) == strings_view(old(out)@) + item_flats(items_view(v@)),
    decreases v,
{
    let ghost all = items_view(v@);
    let ghost start = strings_view(out@);
    let mut i: usize = 0;
    assert(all.take(0) =~= Seq::empty());
    assert(start + Seq::<Seq<char>>::empty() =~= start);
    while i < v.len()
        invariant
            i <= v@.len(),
            all == items_view(v@),
            strings_view(out@) == start + item_flats(all.take(i as int)),
        decreases v@.len() - i,
    {
        broadcast use lemma_items_view;

        push_flats(&v[i], out);
        assert(all.take(i + 1).drop_last() =~= all.take(i as int));
        assert(strings_view(out@) =~= start + item_flats(all.take(i + 1)));
        i = i + 1;
    }
    proof {
        broadcast use lemma_items_view;

        assert(all.take(all.len() as int) =~= all);
    }
}

// --- Blocks on lines of their own -------------------------------------------------

/// Text as Rust's debug format writes it: between quotes, with escapes.
pub uninterp spec fn debug_text(s: Seq<char>) -> Seq<char>;

/// The `Debug` format of std's `str`, which depends on the text alone.
#[verifier::external_body]
pub(crate) fn quoted(s: &str) -> (r: String)
    ensures
        r@ == debug_text(s@),
{
    format!("{s:?}")
}

/// An image's source as the debug format writes it.
pub open spec fn source_text(s: SpecImageSource) -> Seq<char> {
    match s {
        SpecImageSource::Url(u) => "Url("@ + debug_text(u) + ")"@,
        SpecImageSource::Blob { did, cid } => "Blob { did: "@ + debug_text(did) + ", cid: "@
            + debug_text(cid) + " }"@,
    }
}

fn source_debug(s: &ImageSource) -> (r: String)
    ensures
        r@ == source_text(s@),
{
    match s {
        ImageSource::Url(u) => {
            let inner = quoted(u.as_str());
            let head = join2("Url(", inner.as_str());
            join2(head.as_str(), ")")
        },
        ImageSource::Blob { did, cid } => {
            let d = quoted(did.as_str());
            let c = quoted(cid.as_str());
            let mut out = join2("Blob { did: ", d.as_str());
            out.push_str(", cid: ");
            out.push_str(c.as_str());
            out.push_str(" }");
            out
        },
    }
}

/// The indent of a line.
pub open spec fn pad_of(indent: nat) -> Seq<char> {
    repeated(' ', 3 * indent)
}

/// An indented line.
pub open spec fn padded_line(pad: Seq<char>, text: Seq<char>) -> Seq<char> {
    pad + text + "\n"@
}

/// Indented lines.
pub open spec fn padded_lines(pad: Seq<char>, lines: Seq<Seq<char>>) -> Seq<char>
    decreases lines.len(),
{
    if lines.len() == 0 {
        Seq::empty()
    } else {
        padded_lines(pad, lines.drop_last()) + padded_line(pad, lines.last())
    }
}

/// The line of an image.
pub open spec fn image_line_text(i: SpecImage) -> Seq<char> {
    "🖼  "@ + i.alt + " ("@ + source_text(i.source) + ")"@
}

/// The marker of item `i` of a list, counted from 0.
pub open spec fn list_marker(ordered: bool, i: nat) -> Seq<char> {
    if ordered {
        decimal(i + 1) + "."@
    } else {
        "•"@
    }
}

/// The lines of a list: one for each item.
pub open spec fn list_lines(ordered: bool, items: Seq<Seq<SpecBlock>>) -> Seq<Seq<char>> {
    Seq::new(
        items.len(),
        |i: int| list_marker(ordered, i as nat) + " "@ + joined(flats(items[i]), " "@),
    )
}

/// A code block's label.
pub open spec fn lang_or(lang: Option<Seq<char>>) -> Seq<char> {
    match lang {
        Some(l) => l,
        None => Seq::empty(),
    }
}

/// A block on lines of its own, indented.
pub open spec fn printed(b: SpecBlock, indent: nat) -> Seq<char>
    decreases b,
{
    let pad = pad_of(indent);
    match b {
        SpecBlock::Heading { level, content } => padded_line(
            pad,
            repeated('#', level as nat) + " "@ + marked_all(content),
        ),
        SpecBlock::Paragraph(content) => padded_line(pad, marked_all(content)),
        SpecBlock::Quote(inner) => printed_quote(inner, pad),
        SpecBlock::List { ordered, items } => padded_lines(pad, list_lines(ordered, items)),
        SpecBlock::Code { lang, text } => padded_line(pad, "```"@ + lang_or(lang)) + padded_lines(
            pad,
            text_lines(text),
        ) + padded_line(pad, "```"@),
        SpecBlock::Image(img) => padded_line(pad, image_line_text(img)),
        SpecBlock::ImageGrid(images) => padded_lines(
            pad,
            images.map_values(|i: SpecImage| image_line_text(i)),
        ),
        SpecBlock::Table { head, rows } => padded_lines(
            pad,
            if head.len() == 0 {
                table_lines(head, rows).skip(1)
            } else {
                table_lines(head, rows)
            },
        ),
        SpecBlock::Callout { emoji, tint: _, content } => padded_line(
            pad,
            emoji_or(emoji) + " "@ + marked_all(content),
        ),
        SpecBlock::Rule => padded_line(pad, "───"@),
        SpecBlock::GalleryRef { uri } => padded_line(pad, "[gallery: "@ + uri + "]"@),
    }
}

/// The blocks of a quote, each behind a bar.
pub open spec fn printed_quote(s: Seq<SpecBlock>, pad: Seq<char>) -> Seq<char>
    decreases s,
{
    if s.len() == 0 {
        Seq::empty()
    } else {
        printed_quote(s.drop_last(), pad) + pad + "│ "@ + printed(s.last(), 0)
    }
}

/// Blocks on lines of their own, one after the other.
pub open spec fn printed_all(s: Seq<SpecBlock>, indent: nat) -> Seq<char>
    decreases s.len(),
{
    if s.len() == 0 {
        Seq::empty()
    } else {
        printed_all(s.drop_last(), indent) + printed(s.last(), indent)
    }
}

fn line(pad: &str, text: &str) -> (r: String)
    ensures
        r@ == padded_line(pad@, text@),
{
    let head = join2(pad, text);
    join2(head.as_str(), "\n")
}

fn lines(pad: &str, v: &Vec<String>) -> (r: String)
    ensures
        r@ == padded_lines(pad@, strings_view(v@)),
{
    let ghost all = strings_view(v@);
    let mut out = String::new();
    let mut i: usize = 0;
    assert(all.take(0) =~= Seq::empty());
    assert(all.len() == v@.len());
    while i < v.len()
        invariant
            i <= v@.len(),
            all == strings_view(v@),
            all.len() == v@.len(),
            out@ == padded_lines(pad@, all.take(i as int)),
        decreases v@.len() - i,
    {
        let one = line(pad, v[i].as_str());
        out.push_str(one.as_str());
        assert(all.take(i + 1).drop_last() =~= all.take(i as int));
        assert(all.take(i + 1).last() == v@[i as int]@);
        i = i + 1;
    }
    assert(all.take(all.len() as int) =~= all);
    out
}

fn image_text(img: &Image) -> (r: String)
    ensures
        r@ == image_line_text(img@),
{
    let source = source_debug(&img.source);
    let mut out = join2("🖼  ", img.alt.as_str());
    out.push_str(" (");
    out.push_str(source.as_str());
    out.push_str(")");
    out
}

fn image_texts(images: &Vec<Image>) -> (r: Vec<String>)
    ensures
        strings_view(r@) == images_view(images@).map_values(|i: SpecImage| image_line_text(i)),
{
    let ghost want = images_view(images@).map_values(|i: SpecImage| image_line_text(i));
    let mut out: Vec<String> = Vec::new();
    let mut i: usize = 0;
    while i < images.len()
        invariant
            i <= images@.len(),
            want == images_view(images@).map_values(|i: SpecImage| image_line_text(i)),
            out@.len() == i,
            forall|k: int| 0 <= k < i ==> (#[trigger] out@[k])@ == want[k],
        decreases images@.len() - i,
    {
        assert(images_view(images@)[i as int] == images@[i as int]@);
        out.push(image_text(&images[i]));
        i = i + 1;
    }
    assert(strings_view(out@) =~= want);
    out
}

fn list_texts(ordered: bool, items: &Vec<Vec<Block>>) -> (r: Vec<String>)
    ensures
        strings_view(r@) == list_lines(ordered, items_view(items@)),
{
    let ghost want = list_lines(ordered, items_view(items@));
    proof {
        lemma_items_view(items@);
    }
    let mut out: Vec<String> = Vec::new();
    let mut i: usize = 0;
    while i < items.len()
        invariant
            i <= items@.len(),
            want == list_lines(ordered, items_view(items@)),
            items_view(items@).len() == items@.len(),
            out@.len() == i,
            forall|k: int| 0 <= k < i ==> (#[trigger] out@[k])@ == want[k],
        decreases items@.len() - i,
    {
        broadcast use lemma_items_view;

        let mut parts: Vec<String> = Vec::new();
        push_flats(&items[i], &mut parts);
        assert(strings_view(Seq::<String>::empty()) =~= Seq::empty());
        assert(Seq::<Seq<char>>::empty() + flats(blocks_view(items@[i as int]@)) =~= flats(
            blocks_view(items@[i as int]@),
        ));
        let text = join(&parts, " ");
        let mut one = if ordered {
            let n = decimal_of(i as u64 + 1);
            join2(n.as_str(), ".")
        } else {
            owned("•")
        };
        one.push_str(" ");
        one.push_str(text.as_str());
        assert(one@ =~= want[i as int]);
        out.push(one);
        i = i + 1;
    }
    assert(strings_view(out@) =~= want);
    out
}

fn row_texts(head: &Vec<Vec<Inline>>, rows: &Vec<Vec<Vec<Inline>>>) -> (r: Vec<String>)
    ensures
        strings_view(r@) == (if head@.len() == 0 {
            table_lines(cells_view(head@), rows_view(rows@)).skip(1)
        } else {
            table_lines(cells_view(head@), rows_view(rows@))
        }),
{
    let ghost all = table_lines(cells_view(head@), rows_view(rows@));
    let mut out: Vec<String> = Vec::new();
    if head.len() > 0 {
        out.push(row_line(head));
    }
    let ghost from = out@.len();
    let ghost want = all.skip(1 - from);
    let mut i: usize = 0;
    while i < rows.len()
        invariant
            i <= rows@.len(),
            from <= 1,
            all == table_lines(cells_view(head@), rows_view(rows@)),
            want == all.skip(1 - from),
            out@.len() == from + i,
            forall|k: int| 0 <= k < from + i ==> (#[trigger] out@[k])@ == want[k],
        decreases rows@.len() - i,
    {
        assert(rows_view(rows@)[i as int] == cells_view(rows@[i as int]@));
        assert(want[from + i] == all[1 + i]);
        out.push(row_line(&rows[i]));
        i = i + 1;
    }
    assert(strings_view(out@) =~= want);
    assert(all.skip(0) =~= all);
    out
}

fn code_text(pad: &str, lang: &Option<String>, text: &str) -> (r: String)
    ensures
        r@ == padded_line(pad@, "```"@ + lang_or(opt_view(*lang))) + padded_lines(
            pad@,
            text_lines(text@),
        ) + padded_line(pad@, "```"@),
{
    let mut open = owned("```");
    if let Some(l) = lang {
        open.push_str(l.as_str());
    }
    assert(open@ =~= "```"@ + lang_or(opt_view(*lang)));
    let mut out = line(pad, open.as_str());
    let body = lines(pad, &lines_of(text));
    out.push_str(body.as_str());
    let close = line(pad, "```");
    out.push_str(close.as_str());
    out
}

/// A block on lines of its own, indented by three columns for each step.
pub fn print_block(block: &Block, indent: usize) -> (r: String)
    requires
        3 * indent <= usize::MAX,
    ensures
        r@ == printed(block_view(*block), indent as nat),
    decreases block,
{
    let pad = repeat_char(' ', 3 * indent);
    match block {
        Block::Heading { level, content } => {
            let mut text = repeat_char('#', *level as usize);
            let inner = inlines(content);
            text.push_str(" ");
            text.push_str(inner.as_str());
            line(pad.as_str(), text.as_str())
        },
        Block::Paragraph(content) => {
            let text = inlines(content);
            line(pad.as_str(), text.as_str())
        },
        Block::Quote(inner) => print_quote(inner, pad.as_str()),
        Block::List { ordered, items } => lines(pad.as_str(), &list_texts(*ordered, items)),
        Block::Code { lang, text } => code_text(pad.as_str(), lang, text.as_str()),
        Block::Image(img) => {
            let text = image_text(img);
            line(pad.as_str(), text.as_str())
        },
        Block::ImageGrid(images) => lines(pad.as_str(), &image_texts(images)),
        Block::Table { head, rows } => {
            assert(cells_view(head@).len() == head@.len());
            lines(pad.as_str(), &row_texts(head, rows))
        },
        Block::Callout { emoji, tint: _, content } => {
            let text = callout_text(emoji, content);
            line(pad.as_str(), text.as_str())
        },
        Block::Rule => line(pad.as_str(), "───"),
        Block::GalleryRef { uri } => {
            let head = join2("[gallery: ", uri.as_str());
            let text = join2(head.as_str(), "]");
            line(pad.as_str(), text.as_str())
        },
    }
}

fn print_quote(v: &Vec<Block>, pad: &str) -> (r: String)
    ensures
        r@ == printed_quote(blocks_view(v@), pad@),
    decreases v,
{
    let ghost all = blocks_view(v@);
    let mut out = String::new();
    let mut i: usize = 0;
    assert(all.take(0) =~= Seq::empty());
    while i < v.len()
        invariant
            i <= v@.len(),
            all == blocks_view(v@),
            out@ == printed_quote(all.take(i as int), pad@),
        decreases v@.len() - i,
    {
        broadcast use lemma_blocks_view;

        let one = print_block(&v[i], 0);
        out.push_str(pad);
        out.push_str("│ ");
        out.push_str(one.as_str());
        assert(all.take(i + 1).drop_last() =~= all.take(i as int));
        assert(out@ =~= printed_quote(all.take(i + 1), pad@));
        i = i + 1;
    }
    proof {
        broadcast use lemma_blocks_view;

        assert(all.take(all.len() as int) =~= all);
    }
    out
}

/// A document's blocks on lines of their own.
pub fn print_doc(blocks: &Vec<Block>) -> (r: String)
    ensures
        r@ == printed_all(blocks_view(blocks@), 1),
{
    let ghost all = blocks_view(blocks@);
    let mut out = String::new();
    let mut i: usize = 0;
    assert(all.take(0) =~= Seq::empty());
    while i < blocks.len()
        invariant
            i <= blocks@.len(),
            all == blocks_view(blocks@),
            out@ == printed_all(all.take(i as int), 1),
        decreases blocks@.len() - i,
    {
        broadcast use lemma_blocks_view;

        let one = print_block(&blocks[i], 1);
        out.push_str(one.as_str());
        assert(all.take(i + 1).drop_last() =~= all.take(i as int));
        i = i + 1;
    }
    proof {
        broadcast use lemma_blocks_view;

        assert(all.take(all.len() as int) =~= all);
    }
    out
}

} // verus!
