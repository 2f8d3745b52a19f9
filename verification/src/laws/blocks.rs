//! Block formats: a document reads as it was written, in each of them.
use vstd::prelude::*;

use crate::decode::blocks::{items_among, text_paragraph};
use crate::decode::facets::{
    facets_of, flat_text, kind_of, law_facets_keep_the_text, sorted_by_start, text_block,
};
use crate::decode::leaflet::{leaflet_block_of, leaflet_doc, page_blocks, pages_blocks};
use crate::decode::offprint::{offprint_among, offprint_block_of, offprint_doc, paragraphs_among};
use crate::decode::pckt::{
    pckt_block_of, pckt_blocks_of, pckt_children_of, pckt_doc, pckt_items_of,
};
use crate::json::{member_from, SpecJson};
use crate::laws::records::{
    blob_record, lemma_blob_reads_back, lemma_member_push, put, put_opt, Members,
};
use crate::model::{SpecBlock, SpecImage, SpecImageSource, SpecInline};
use crate::text::{after_last, byte_len, lemma_byte_slice_ends, rfind_before};

verus! {

// --- Pieces of a document ---------------------------------------------------------

/// A piece of a document, as an author has it in mind.
pub enum Piece {
    Text(Seq<char>),
    Heading { level: u8, text: Seq<char> },
    Quote(Seq<char>),
    Code { lang: Option<Seq<char>>, text: Seq<char> },
    Rule,
    List { ordered: bool, items: Seq<Seq<char>> },
    Image { cid: Seq<char> },
}

/// Text without styles.
pub open spec fn words(t: Seq<char>) -> Seq<SpecInline> {
    if t.len() == 0 {
        Seq::empty()
    } else {
        seq![SpecInline::Text(t)]
    }
}

/// A paragraph of plain text.
pub open spec fn paragraph(t: Seq<char>) -> SpecBlock {
    SpecBlock::Paragraph(words(t))
}

/// How the reader shows a piece: headings keep their level, code its language, a list its
/// items, and an image is the blob of the document's repository.
pub open spec fn shown(p: Piece, did: Seq<char>) -> SpecBlock {
    match p {
        Piece::Text(t) => paragraph(t),
        Piece::Heading { level, text } => SpecBlock::Heading { level, content: words(text) },
        Piece::Quote(t) => SpecBlock::Quote(seq![paragraph(t)]),
        Piece::Code { lang, text } => SpecBlock::Code { lang, text },
        Piece::Rule => SpecBlock::Rule,
        Piece::List { ordered, items } => SpecBlock::List {
            ordered,
            items: items.map_values(|t: Seq<char>| seq![paragraph(t)]),
        },
        Piece::Image { cid } => SpecBlock::Image(
            SpecImage { alt: Seq::empty(), source: SpecImageSource::Blob { did, cid } },
        ),
    }
}

/// How the reader shows pieces: one block for each, in order.
pub open spec fn shown_all(s: Seq<Piece>, did: Seq<char>) -> Seq<SpecBlock> {
    s.map_values(|p: Piece| shown(p, did))
}

/// A heading's level is one to six, and a language is not empty.
pub open spec fn sound(p: Piece) -> bool {
    match p {
        Piece::Heading { level, .. } => 1 <= level <= 6,
        Piece::Code { lang: Some(l), .. } => l.len() > 0,
        _ => true,
    }
}

/// Every piece is sound.
pub open spec fn all_sound(s: Seq<Piece>) -> bool {
    forall|i: int| 0 <= i < s.len() ==> sound(#[trigger] s[i])
}

// --- Text -------------------------------------------------------------------------

proof fn lemma_plain(v: SpecJson, t: Seq<char>)
    requires
        v.get_str("plaintext"@) == Some(t),
        v.get("facets"@) is None,
    ensures
        text_block(v) == words(t),
{
    let none = facets_of(v, |j: SpecJson| kind_of(j));
    assert(none.len() == 0);
    assert(sorted_by_start(none) =~= Seq::empty());
    lemma_byte_slice_ends(t, 0);
    if t.len() == 0 {
        assert(byte_len(t) == 0) by {
            vstd::utf8::encode_utf8_decode_utf8(t);
            reveal_with_fuel(vstd::utf8::encode_utf8, 2);
        }
    } else {
        if byte_len(t) == 0 {
            lemma_byte_slice_ends(t, 0);
            assert(false);
        }
    }
    assert(text_block(v) =~= words(t));
}

/// Whatever the styles of a text block, its text is there, whole and in order.
pub proof fn law_a_text_block_keeps_its_text(block: SpecJson)
    ensures
        flat_text(text_block(block)) == block.get_str_or("plaintext"@, ""@),
{
    law_facets_keep_the_text(
        block.get_str_or("plaintext"@, ""@),
        facets_of(block, |j: SpecJson| kind_of(j)),
    );
}

proof fn lemma_names()
    ensures
        "$type"@.len() == 5,
        "plaintext"@.len() == 9,
        "facets"@.len() == 6,
        "level"@.len() == 5 && "level"@[0] == 'l' && "$type"@[0] == '$',
        "children"@.len() == 8 && "language"@.len() == 8,
        "children"@[0] == 'c' && "language"@[0] == 'l',
        "content"@.len() == 7,
        "image"@.len() == 5 && "image"@[0] == 'i',
        "block"@.len() == 5 && "block"@[0] == 'b',
        "blocks"@.len() == 6 && "blocks"@[0] == 'b' && "facets"@[0] == 'f',
        "pages"@.len() == 5 && "pages"@[0] == 'p',
        "items"@.len() == 5 && "items"@[0] == 'i' && "items"@[1] == 't' && "image"@[1] == 'm',
        "attrs"@.len() == 5 && "attrs"@[0] == 'a',
        "code"@.len() == 4 && "text"@.len() == 4 && "blob"@.len() == 4,
        "code"@[0] == 'c' && "text"@[0] == 't' && "blob"@[0] == 'b',
        "alt"@.len() == 3,
{
    reveal_strlit("$type");
    reveal_strlit("plaintext");
    reveal_strlit("facets");
    reveal_strlit("level");
    reveal_strlit("children");
    reveal_strlit("language");
    reveal_strlit("content");
    reveal_strlit("image");
    reveal_strlit("block");
    reveal_strlit("blocks");
    reveal_strlit("pages");
    reveal_strlit("items");
    reveal_strlit("attrs");
    reveal_strlit("code");
    reveal_strlit("text");
    reveal_strlit("blob");
    reveal_strlit("alt");
}

/// A value of a type.
pub open spec fn typed(ty: Seq<char>) -> Members {
    put(Seq::empty(), "$type"@, ty)
}

/// A text block without a type.
pub open spec fn text_value(t: Seq<char>) -> SpecJson {
    SpecJson::Object(put(Seq::empty(), "plaintext"@, t))
}

/// The entries of a list: each wraps a text block under `content`.
pub open spec fn list_entries(items: Seq<Seq<char>>) -> Seq<SpecJson> {
    items.map_values(
        |t: Seq<char>| SpecJson::Object(seq![("content"@, text_value(t))]),
    )
}

proof fn lemma_list_entries(items: Seq<Seq<char>>, n: int)
    requires
        0 <= n <= items.len(),
    ensures
        items_among(list_entries(items), n) == items.take(n).map_values(
            |t: Seq<char>| seq![paragraph(t)],
        ),
    decreases n,
{
    let f = |t: Seq<char>| seq![paragraph(t)];
    if n > 0 {
        lemma_list_entries(items, n - 1);
        lemma_names();
        let t = items[n - 1];
        let inner = put(Seq::empty(), "plaintext"@, t);
        assert(inner[0].0 == "plaintext"@);
        assert(member_from(inner, "plaintext"@, 0) == Some(SpecJson::Str(t)));
        assert(member_from(inner, "facets"@, 0) is None) by {
            assert(member_from(inner, "facets"@, 1) is None);
        }
        lemma_plain(text_value(t), t);
        let m = seq![("content"@, text_value(t))];
        assert(list_entries(items)[n - 1] == SpecJson::Object(m));
        assert(m[0].0 == "content"@);
        assert(member_from(m, "content"@, 0) == Some(text_value(t)));
        assert(items.take(n) =~= items.take(n - 1).push(t));
        assert(items.take(n).map_values(f) =~= items.take(n - 1).map_values(f).push(
            seq![paragraph(t)],
        ));
    } else {
        assert(items.take(0).map_values(f) =~= Seq::empty());
    }
}

// --- Leaflet ----------------------------------------------------------------------

/// A piece as a Leaflet block.
pub open spec fn leaflet_piece(p: Piece) -> SpecJson {
    SpecJson::Object(
        match p {
            Piece::Text(t) => put(typed("pub.leaflet.blocks.text"@), "plaintext"@, t),
            Piece::Heading { level, text } => put(
                typed("pub.leaflet.blocks.header"@),
                "plaintext"@,
                text,
            ).push(("level"@, SpecJson::Uint(level as u64))),
            Piece::Quote(t) => put(typed("pub.leaflet.blocks.blockquote"@), "plaintext"@, t),
            Piece::Code { lang, text } => put_opt(
                put(typed("pub.leaflet.blocks.code"@), "plaintext"@, text),
                "language"@,
                lang,
            ),
            Piece::Rule => typed("pub.leaflet.blocks.horizontalRule"@),
            Piece::List { ordered, items } => typed(
                if ordered {
                    "pub.leaflet.blocks.orderedList"@
                } else {
                    "pub.leaflet.blocks.unorderedList"@
                },
            ).push(("children"@, SpecJson::Array(list_entries(items)))),
            Piece::Image { cid } => typed("pub.leaflet.blocks.image"@).push(
                ("image"@, blob_record(cid)),
            ),
        },
    )
}

/// The entries of a Leaflet page.
pub open spec fn leaflet_entries(s: Seq<Piece>) -> Seq<SpecJson> {
    s.map_values(|p: Piece| SpecJson::Object(seq![("block"@, leaflet_piece(p))]))
}

/// The pages of a Leaflet document.
pub open spec fn leaflet_pages(pages: Seq<Seq<Piece>>) -> Seq<SpecJson> {
    pages.map_values(
        |s: Seq<Piece>|
            SpecJson::Object(seq![("blocks"@, SpecJson::Array(leaflet_entries(s)))]),
    )
}

/// A Leaflet document.
pub open spec fn leaflet_content(pages: Seq<Seq<Piece>>) -> SpecJson {
    SpecJson::Object(
        typed("pub.leaflet.content"@).push(("pages"@, SpecJson::Array(leaflet_pages(pages)))),
    )
}

/// The pieces of all pages, one page after the other.
pub open spec fn joined(pages: Seq<Seq<Piece>>) -> Seq<Piece>
    decreases pages.len(),
{
    if pages.len() == 0 {
        Seq::empty()
    } else {
        joined(pages.drop_last()) + pages.last()
    }
}

proof fn lemma_leaflet_types()
    ensures
        "pub.leaflet.blocks.text"@.len() == 23,
        "pub.leaflet.blocks.header"@.len() == 25,
        "pub.leaflet.blocks.blockquote"@.len() == 29,
        "pub.leaflet.blocks.code"@.len() == 23,
        "pub.leaflet.blocks.code"@[19] == 'c' && "pub.leaflet.blocks.text"@[19] == 't',
        "pub.leaflet.blocks.image"@.len() == 24,
        "pub.leaflet.blocks.horizontalRule"@.len() == 33,
        "pub.leaflet.blocks.unorderedList"@.len() == 32,
        "pub.leaflet.blocks.orderedList"@.len() == 30,
{
    reveal_strlit("pub.leaflet.blocks.text");
    reveal_strlit("pub.leaflet.blocks.header");
    reveal_strlit("pub.leaflet.blocks.blockquote");
    reveal_strlit("pub.leaflet.blocks.code");
    reveal_strlit("pub.leaflet.blocks.image");
    reveal_strlit("pub.leaflet.blocks.horizontalRule");
    reveal_strlit("pub.leaflet.blocks.unorderedList");
    reveal_strlit("pub.leaflet.blocks.orderedList");
}

proof fn lemma_leaflet_piece(p: Piece, did: Seq<char>)
    requires
        sound(p),
    ensures
        leaflet_block_of(leaflet_piece(p), did) == Some(shown(p, did)),
{
    broadcast use lemma_member_push;

    lemma_names();
    lemma_leaflet_types();
    let v = leaflet_piece(p);
    match p {
        Piece::Text(t) => {
            lemma_plain(v, t);
        },
        Piece::Heading { level, text } => {
            lemma_plain(v, text);
            assert(v.get_u64("level"@) == Some(level as u64));
        },
        Piece::Quote(t) => {
            lemma_plain(v, t);
            assert(leaflet_block_of(v, did) == Some(
                SpecBlock::Quote(seq![text_paragraph(v)]),
            ));
        },
        Piece::Code { lang, text } => {
            assert(v.get("plaintext"@) == Some(SpecJson::Str(text)));
            assert(v.get_str("language"@) == lang);
        },
        Piece::Rule => {},
        Piece::List { ordered, items } => {
            lemma_list_entries(items, items.len() as int);
            assert(items.take(items.len() as int) =~= items);
            assert(v.get_array("children"@) == Some(list_entries(items)));
            assert(v.get_str("$type"@) == Some(
                if ordered {
                    "pub.leaflet.blocks.orderedList"@
                } else {
                    "pub.leaflet.blocks.unorderedList"@
                },
            ));
        },
        Piece::Image { cid } => {
            lemma_blob_reads_back(cid, did);
            assert(v.get("image"@) == Some(blob_record(cid)));
        },
    }
}

proof fn lemma_leaflet_page(s: Seq<Piece>, did: Seq<char>, n: int)
    requires
        all_sound(s),
        0 <= n <= s.len(),
    ensures
        page_blocks(leaflet_entries(s), did, n) == shown_all(s.take(n), did),
    decreases n,
{
    if n > 0 {
        lemma_leaflet_page(s, did, n - 1);
        let p = s[n - 1];
        lemma_leaflet_piece(p, did);
        let m = seq![("block"@, leaflet_piece(p))];
        assert(leaflet_entries(s)[n - 1] == SpecJson::Object(m));
        assert(m[0].0 == "block"@);
        assert(member_from(m, "block"@, 0) == Some(leaflet_piece(p)));
        assert(shown_all(s.take(n), did) =~= shown_all(s.take(n - 1), did).push(shown(p, did)));
    } else {
        assert(shown_all(s.take(0), did) =~= Seq::empty());
    }
}

proof fn lemma_leaflet_pages(pages: Seq<Seq<Piece>>, did: Seq<char>, n: int)
    requires
        forall|i: int| 0 <= i < pages.len() ==> all_sound(#[trigger] pages[i]),
        0 <= n <= pages.len(),
    ensures
        pages_blocks(leaflet_pages(pages), did, n) == shown_all(joined(pages.take(n)), did),
    decreases n,
{
    if n > 0 {
        lemma_leaflet_pages(pages, did, n - 1);
        let s = pages[n - 1];
        lemma_leaflet_page(s, did, s.len() as int);
        assert(s.take(s.len() as int) =~= s);
        let m = seq![("blocks"@, SpecJson::Array(leaflet_entries(s)))];
        assert(leaflet_pages(pages)[n - 1] == SpecJson::Object(m));
        assert(m[0].0 == "blocks"@);
        assert(member_from(m, "blocks"@, 0) == Some(SpecJson::Array(leaflet_entries(s))));
        assert(leaflet_entries(s).len() == s.len());
        assert(pages.take(n).drop_last() =~= pages.take(n - 1));
        assert(pages.take(n).last() == s);
        assert(shown_all(joined(pages.take(n)), did) =~= shown_all(joined(pages.take(n - 1)), did)
            + shown_all(s, did));
    } else {
        assert(shown_all(joined(pages.take(0)), did) =~= Seq::empty());
    }
}

/// A Leaflet document reads as it was written: every piece of every page, in order, and
/// nothing else.
pub proof fn law_leaflet_reads_as_written(pages: Seq<Seq<Piece>>, did: Seq<char>)
    requires
        forall|i: int| 0 <= i < pages.len() ==> all_sound(#[trigger] pages[i]),
    ensures
        leaflet_doc(leaflet_content(pages), did) == Some(shown_all(joined(pages), did)),
{
    broadcast use lemma_member_push;

    lemma_names();
    lemma_leaflet_pages(pages, did, pages.len() as int);
    assert(pages.take(pages.len() as int) =~= pages);
    assert(leaflet_content(pages).get_array("pages"@) == Some(leaflet_pages(pages)));
}

/// A block of text: plain, a heading or a quote.
pub open spec fn is_leaflet_text(block: SpecJson) -> bool {
    let ty = block.get_str("$type"@);
    ||| ty == Some("pub.leaflet.blocks.text"@)
    ||| ty == Some("pub.leaflet.blocks.header"@)
    ||| ty == Some("pub.leaflet.blocks.blockquote"@)
}

/// The text of a paragraph, a heading, or a quoted paragraph.
pub open spec fn text_in(b: SpecBlock) -> Option<Seq<char>> {
    match b {
        SpecBlock::Paragraph(c) => Some(flat_text(c)),
        SpecBlock::Heading { content, .. } => Some(flat_text(content)),
        SpecBlock::Quote(bs) => if bs.len() == 1 {
            match bs[0] {
                SpecBlock::Paragraph(c) => Some(flat_text(c)),
                _ => None,
            }
        } else {
            None
        },
        _ => None,
    }
}

/// `b` is the block that shows a block of text: of its kind, and with its text.
pub open spec fn shows_text(block: SpecJson, b: SpecBlock) -> bool {
    &&& text_in(b) == Some(block.get_str_or("plaintext"@, ""@))
    &&& block.get_str("$type"@) == Some("pub.leaflet.blocks.text"@) ==> b is Paragraph
    &&& block.get_str("$type"@) == Some("pub.leaflet.blocks.header"@) ==> b is Heading
    &&& block.get_str("$type"@) == Some("pub.leaflet.blocks.blockquote"@) ==> b is Quote
}

proof fn lemma_leaflet_text(block: SpecJson, did: Seq<char>)
    requires
        is_leaflet_text(block),
    ensures
        leaflet_block_of(block, did) matches Some(b) && shows_text(block, b),
{
    lemma_leaflet_types();
    law_a_text_block_keeps_its_text(block);
}

/// No text of a Leaflet page is lost, whatever its styles: a page of text blocks reads as
/// that many blocks, each of its kind and with its text, in order.
pub proof fn law_leaflet_keeps_text(entries: Seq<SpecJson>, did: Seq<char>)
    requires
        forall|i: int|
            0 <= i < entries.len() ==> ((#[trigger] entries[i]).get("block"@) matches Some(b)
                && is_leaflet_text(b)),
    ensures
        page_blocks(entries, did, entries.len() as int).len() == entries.len(),
        forall|i: int|
            0 <= i < entries.len() ==> shows_text(
                (#[trigger] entries[i]).get("block"@)->0,
                page_blocks(entries, did, entries.len() as int)[i],
            ),
{
    lemma_leaflet_texts(entries, did, entries.len() as int);
}

proof fn lemma_leaflet_texts(entries: Seq<SpecJson>, did: Seq<char>, n: int)
    requires
        0 <= n <= entries.len(),
        forall|i: int|
            0 <= i < entries.len() ==> ((#[trigger] entries[i]).get("block"@) matches Some(b)
                && is_leaflet_text(b)),
    ensures
        page_blocks(entries, did, n).len() == n,
        forall|i: int|
            0 <= i < n ==> shows_text(
                (#[trigger] entries[i]).get("block"@)->0,
                page_blocks(entries, did, n)[i],
            ),
    decreases n,
{
    if n > 0 {
        lemma_leaflet_texts(entries, did, n - 1);
        assert(entries[n - 1].get("block"@) is Some);
        lemma_leaflet_text(entries[n - 1].get("block"@)->0, did);
    }
}

/// What a page shows is what its first entries show, followed by what the rest shows: an
/// entry neither hides nor moves another.
pub proof fn law_leaflet_entries_stand_apart(a: Seq<SpecJson>, b: Seq<SpecJson>, did: Seq<char>)
    ensures
        page_blocks(a + b, did, (a + b).len() as int) == page_blocks(a, did, a.len() as int)
            + page_blocks(b, did, b.len() as int),
    decreases b.len(),
{
    lemma_entries_before(a, b, did, a.len() as int);
    lemma_entries_after(a, b, did, b.len() as int);
}

proof fn lemma_entries_before(a: Seq<SpecJson>, b: Seq<SpecJson>, did: Seq<char>, n: int)
    requires
        0 <= n <= a.len(),
    ensures
        page_blocks(a + b, did, n) == page_blocks(a, did, n),
    decreases n,
{
    if n > 0 {
        lemma_entries_before(a, b, did, n - 1);
        assert((a + b)[n - 1] == a[n - 1]);
    }
}

proof fn lemma_entries_after(a: Seq<SpecJson>, b: Seq<SpecJson>, did: Seq<char>, n: int)
    requires
        0 <= n <= b.len(),
    ensures
        page_blocks(a + b, did, a.len() + n) == page_blocks(a, did, a.len() as int) + page_blocks(
            b,
            did,
            n,
        ),
    decreases n,
{
    let head = page_blocks(a, did, a.len() as int);
    if n > 0 {
        lemma_entries_after(a, b, did, n - 1);
        assert((a + b)[a.len() + n - 1] == b[n - 1]);
        let rest = page_blocks(b, did, n - 1);
        assert forall|x: SpecBlock| (head + rest).push(x) == head + (#[trigger] rest.push(x)) by {
            assert((head + rest).push(x) =~= head + rest.push(x));
        }
    } else {
        lemma_entries_before(a, b, did, a.len() as int);
        assert(head + Seq::<SpecBlock>::empty() =~= head);
    }
}

// --- Offprint ---------------------------------------------------------------------

/// The name of a type: what follows the last dot.
pub open spec fn named(prefix: Seq<char>, name: Seq<char>) -> Seq<char> {
    prefix + "."@ + name
}

pub proof fn lemma_named(prefix: Seq<char>, name: Seq<char>)
    requires
        !name.contains('.'),
    ensures
        after_last(named(prefix, name), '.') == name,
{
    reveal_strlit(".");
    let s = named(prefix, name);
    lemma_rfind(s, prefix.len() as int, s.len() as int);
    assert(s.subrange(prefix.len() as int + 1, s.len() as int) =~= name);
}

proof fn lemma_rfind(s: Seq<char>, at: int, end: int)
    requires
        0 <= at < end <= s.len(),
        s[at] == '.',
        forall|i: int| at < i < end ==> s[i] != '.',
    ensures
        rfind_before(s, end, '.') == Some(at),
    decreases end,
{
    if end - 1 > at {
        lemma_rfind(s, at, end - 1);
    }
}

pub proof fn lemma_type_names()
    ensures
        "text"@.len() == 4 && !"text"@.contains('.'),
        "heading"@.len() == 7 && !"heading"@.contains('.'),
        "image"@.len() == 5 && !"image"@.contains('.'),
        "bulletList"@.len() == 10 && !"bulletList"@.contains('.'),
        "orderedList"@.len() == 11 && !"orderedList"@.contains('.'),
        "blockquote"@.len() == 10 && !"blockquote"@.contains('.'),
        "bulletList"@[1] == 'u' && "blockquote"@[1] == 'l',
        "codeBlock"@.len() == 9 && !"codeBlock"@.contains('.'),
        "horizontalRule"@.len() == 14 && !"horizontalRule"@.contains('.'),
        "imageGrid"@.len() == 9 && "imageGrid"@[0] == 'i' && "codeBlock"@[0] == 'c',
        "imageCarousel"@.len() == 13,
        "imageDiff"@.len() == 9 && "imageDiff"@[0] == 'i',
        "taskList"@.len() == 8,
        "webEmbed"@.len() == 8,
        "webBookmark"@.len() == 11 && "webBookmark"@[0] == 'w' && "orderedList"@[0] == 'o',
        "callout"@.len() == 7 && "callout"@[0] == 'c' && "heading"@[0] == 'h',
        "table"@.len() == 5,
        "gallery"@.len() == 7,
        "listItem"@.len() == 8,
{
    reveal_strlit("text");
    reveal_strlit("heading");
    reveal_strlit("image");
    reveal_strlit("bulletList");
    reveal_strlit("orderedList");
    reveal_strlit("blockquote");
    reveal_strlit("codeBlock");
    reveal_strlit("horizontalRule");
    reveal_strlit("imageGrid");
    reveal_strlit("imageCarousel");
    reveal_strlit("imageDiff");
    reveal_strlit("taskList");
    reveal_strlit("webEmbed");
    reveal_strlit("webBookmark");
    reveal_strlit("callout");
    reveal_strlit("table");
    reveal_strlit("gallery");
    reveal_strlit("listItem");
}

/// A piece as an Offprint item.
pub open spec fn offprint_piece(prefix: Seq<char>, p: Piece) -> SpecJson {
    SpecJson::Object(
        match p {
            Piece::Text(t) => put(typed(named(prefix, "text"@)), "plaintext"@, t),
            Piece::Heading { level, text } => put(
                typed(named(prefix, "heading"@)),
                "plaintext"@,
                text,
            ).push(("level"@, SpecJson::Uint(level as u64))),
            Piece::Quote(t) => typed(named(prefix, "blockquote"@)).push(
                ("content"@, SpecJson::Array(seq![text_value(t)])),
            ),
            Piece::Code { lang, text } => put_opt(
                put(typed(named(prefix, "codeBlock"@)), "code"@, text),
                "language"@,
                lang,
            ),
            Piece::Rule => typed(named(prefix, "horizontalRule"@)),
            Piece::List { ordered, items } => typed(
                named(
                    prefix,
                    if ordered {
                        "orderedList"@
                    } else {
                        "bulletList"@
                    },
                ),
            ).push(("children"@, SpecJson::Array(list_entries(items)))),
            Piece::Image { cid } => typed(named(prefix, "image"@)).push(
                ("image"@, blob_record(cid)),
            ),
        },
    )
}

/// The items of an Offprint document.
pub open spec fn offprint_items(prefix: Seq<char>, s: Seq<Piece>) -> Seq<SpecJson> {
    s.map_values(|p: Piece| offprint_piece(prefix, p))
}

/// An Offprint document.
pub open spec fn offprint_content(prefix: Seq<char>, s: Seq<Piece>) -> SpecJson {
    SpecJson::Object(
        typed("app.offprint.content"@).push(
            ("items"@, SpecJson::Array(offprint_items(prefix, s))),
        ),
    )
}

proof fn lemma_text_value(t: Seq<char>)
    ensures
        text_block(text_value(t)) == words(t),
{
    broadcast use lemma_member_push;

    lemma_names();
    lemma_plain(text_value(t), t);
}

proof fn lemma_offprint_piece(prefix: Seq<char>, p: Piece, did: Seq<char>)
    requires
        sound(p),
    ensures
        offprint_block_of(offprint_piece(prefix, p), did) == Some(shown(p, did)),
{
    broadcast use lemma_member_push;

    lemma_names();
    lemma_type_names();
    let v = offprint_piece(prefix, p);
    match p {
        Piece::Text(t) => {
            lemma_named(prefix, "text"@);
            lemma_plain(v, t);
        },
        Piece::Heading { level, text } => {
            lemma_named(prefix, "heading"@);
            lemma_plain(v, text);
            assert(v.get_u64("level"@) == Some(level as u64));
        },
        Piece::Quote(t) => {
            lemma_named(prefix, "blockquote"@);
            let items = seq![text_value(t)];
            assert(v.get_array("content"@) == Some(items));
            lemma_text_value(t);
            reveal_with_fuel(paragraphs_among, 2);
            assert(paragraphs_among(items, 1) =~= seq![paragraph(t)]);
        },
        Piece::Code { lang, text } => {
            lemma_named(prefix, "codeBlock"@);
            assert(v.get("code"@) == Some(SpecJson::Str(text)));
            assert(v.get_str("language"@) == lang);
        },
        Piece::Rule => {
            lemma_named(prefix, "horizontalRule"@);
        },
        Piece::List { ordered, items } => {
            lemma_named(prefix, "bulletList"@);
            lemma_named(prefix, "orderedList"@);
            lemma_list_entries(items, items.len() as int);
            assert(items.take(items.len() as int) =~= items);
            assert(v.get_array("children"@) == Some(list_entries(items)));
        },
        Piece::Image { cid } => {
            lemma_named(prefix, "image"@);
            lemma_blob_reads_back(cid, did);
            assert(v.get("image"@) == Some(blob_record(cid)));
        },
    }
}

proof fn lemma_offprint_items(prefix: Seq<char>, s: Seq<Piece>, did: Seq<char>, n: int)
    requires
        all_sound(s),
        0 <= n <= s.len(),
    ensures
        offprint_among(offprint_items(prefix, s), did, n) == shown_all(s.take(n), did),
    decreases n,
{
    if n > 0 {
        lemma_offprint_items(prefix, s, did, n - 1);
        lemma_offprint_piece(prefix, s[n - 1], did);
        assert(shown_all(s.take(n), did) =~= shown_all(s.take(n - 1), did).push(
            shown(s[n - 1], did),
        ));
    } else {
        assert(shown_all(s.take(0), did) =~= Seq::empty());
    }
}

/// An Offprint document reads as it was written: every piece, in order, and nothing else.
pub proof fn law_offprint_reads_as_written(prefix: Seq<char>, s: Seq<Piece>, did: Seq<char>)
    requires
        all_sound(s),
    ensures
        offprint_doc(offprint_content(prefix, s), did) == Some(shown_all(s, did)),
{
    broadcast use lemma_member_push;

    lemma_names();
    lemma_offprint_items(prefix, s, did, s.len() as int);
    assert(s.take(s.len() as int) =~= s);
    assert(offprint_content(prefix, s).get_array("items"@) == Some(offprint_items(prefix, s)));
}

// --- Pckt -------------------------------------------------------------------------

/// A text as a Pckt item.
pub open spec fn pckt_text(prefix: Seq<char>, t: Seq<char>) -> SpecJson {
    SpecJson::Object(put(typed(named(prefix, "text"@)), "plaintext"@, t))
}

/// The entries of a Pckt list: each holds a text.
pub open spec fn pckt_entries(prefix: Seq<char>, items: Seq<Seq<char>>) -> Seq<SpecJson> {
    items.map_values(
        |t: Seq<char>|
            SpecJson::Object(
                typed(named(prefix, "listItem"@)).push(
                    ("content"@, SpecJson::Array(seq![pckt_text(prefix, t)])),
                ),
            ),
    )
}

/// A piece as a Pckt item.
pub open spec fn pckt_piece(prefix: Seq<char>, p: Piece) -> SpecJson {
    match p {
        Piece::Text(t) => pckt_text(prefix, t),
        _ => SpecJson::Object(
            match p {
                Piece::Text(t) => put(typed(named(prefix, "text"@)), "plaintext"@, t),
                Piece::Heading { level, text } => put(
                    typed(named(prefix, "heading"@)),
                    "plaintext"@,
                    text,
                ).push(("level"@, SpecJson::Uint(level as u64))),
                Piece::Quote(t) => typed(named(prefix, "blockquote"@)).push(
                    ("content"@, SpecJson::Array(seq![pckt_text(prefix, t)])),
                ),
                Piece::Code { lang, text } => put_opt(
                    put(typed(named(prefix, "codeBlock"@)), "plaintext"@, text),
                    "language"@,
                    lang,
                ),
                Piece::Rule => typed(named(prefix, "horizontalRule"@)),
                Piece::List { ordered, items } => typed(
                    named(
                        prefix,
                        if ordered {
                            "orderedList"@
                        } else {
                            "bulletList"@
                        },
                    ),
                ).push(("content"@, SpecJson::Array(pckt_entries(prefix, items)))),
                Piece::Image { cid } => typed(named(prefix, "image"@)).push(
                    ("attrs"@, SpecJson::Object(seq![("blob"@, blob_record(cid))])),
                ),
            },
        ),
    }
}

/// The items of a Pckt document.
pub open spec fn pckt_pieces(prefix: Seq<char>, s: Seq<Piece>) -> Seq<SpecJson> {
    s.map_values(|p: Piece| pckt_piece(prefix, p))
}

/// A Pckt document.
pub open spec fn pckt_content(prefix: Seq<char>, s: Seq<Piece>) -> SpecJson {
    SpecJson::Object(
        typed("blog.pckt.content"@).push(("items"@, SpecJson::Array(pckt_pieces(prefix, s)))),
    )
}

proof fn lemma_pckt_text(prefix: Seq<char>, t: Seq<char>, did: Seq<char>)
    ensures
        pckt_block_of(pckt_text(prefix, t), did) == seq![paragraph(t)],
        pckt_blocks_of(seq![pckt_text(prefix, t)], did) == seq![paragraph(t)],
{
    broadcast use lemma_member_push;

    lemma_names();
    lemma_type_names();
    lemma_named(prefix, "text"@);
    let v = pckt_text(prefix, t);
    lemma_plain(v, t);
    assert(v.get_str("$type"@) == Some(named(prefix, "text"@)));
    assert(pckt_block_of(v, did) =~= seq![paragraph(t)]);
    let one = seq![v];
    assert(one.drop_last() =~= Seq::empty());
    assert(pckt_blocks_of(one.drop_last(), did) =~= Seq::empty());
    assert(pckt_blocks_of(one, did) =~= seq![paragraph(t)]);
}

proof fn lemma_pckt_entries(prefix: Seq<char>, items: Seq<Seq<char>>, did: Seq<char>)
    ensures
        pckt_items_of(pckt_entries(prefix, items), did) == items.map_values(
            |t: Seq<char>| seq![paragraph(t)],
        ),
    decreases items.len(),
{
    broadcast use lemma_member_push;

    let f = |t: Seq<char>| seq![paragraph(t)];
    if items.len() > 0 {
        let rest = items.drop_last();
        lemma_pckt_entries(prefix, rest, did);
        lemma_names();
        let t = items.last();
        lemma_pckt_text(prefix, t, did);
        let all = pckt_entries(prefix, items);
        assert(all.drop_last() =~= pckt_entries(prefix, rest));
        assert(all.last().get_array("content"@) == Some(seq![pckt_text(prefix, t)]));
        assert(pckt_children_of(all.last(), did) == seq![paragraph(t)]);
        assert(items.map_values(f) =~= rest.map_values(f).push(seq![paragraph(t)]));
    } else {
        assert(items.map_values(f) =~= Seq::empty());
    }
}

proof fn lemma_pckt_piece(prefix: Seq<char>, p: Piece, did: Seq<char>)
    requires
        sound(p),
    ensures
        pckt_block_of(pckt_piece(prefix, p), did) == seq![shown(p, did)],
{
    broadcast use lemma_member_push;

    lemma_names();
    lemma_type_names();
    let v = pckt_piece(prefix, p);
    match p {
        Piece::Text(t) => {
            lemma_pckt_text(prefix, t, did);
        },
        Piece::Heading { level, text } => {
            lemma_named(prefix, "heading"@);
            lemma_plain(v, text);
            assert(v.get_u64("level"@) == Some(level as u64));
        },
        Piece::Quote(t) => {
            lemma_named(prefix, "blockquote"@);
            lemma_pckt_text(prefix, t, did);
            assert(v.get_array("content"@) == Some(seq![pckt_text(prefix, t)]));
            assert(pckt_children_of(v, did) == seq![paragraph(t)]);
        },
        Piece::Code { lang, text } => {
            lemma_named(prefix, "codeBlock"@);
            assert(v.get("plaintext"@) == Some(SpecJson::Str(text)));
            assert(v.get_str("language"@) == lang);
        },
        Piece::Rule => {
            lemma_named(prefix, "horizontalRule"@);
        },
        Piece::List { ordered, items } => {
            lemma_named(prefix, "bulletList"@);
            lemma_named(prefix, "orderedList"@);
            lemma_pckt_entries(prefix, items, did);
            assert(v.get_array("content"@) == Some(pckt_entries(prefix, items)));
        },
        Piece::Image { cid } => {
            lemma_named(prefix, "image"@);
            lemma_blob_reads_back(cid, did);
            let m = seq![("blob"@, blob_record(cid))];
            assert(m[0].0 == "blob"@);
            assert(member_from(m, "blob"@, 0) == Some(blob_record(cid)));
            assert(member_from(m, "alt"@, 0) is None) by {
                assert(member_from(m, "alt"@, 1) is None);
            }
            assert(v.get("attrs"@) == Some(SpecJson::Object(m)));
        },
    }
    assert(pckt_block_of(v, did) =~= seq![shown(p, did)]);
}

proof fn lemma_pckt_pieces(prefix: Seq<char>, s: Seq<Piece>, did: Seq<char>)
    requires
        all_sound(s),
    ensures
        pckt_blocks_of(pckt_pieces(prefix, s), did) == shown_all(s, did),
    decreases s.len(),
{
    if s.len() > 0 {
        let rest = s.drop_last();
        assert(all_sound(rest)) by {
            assert forall|i: int| 0 <= i < rest.len() implies sound(#[trigger] rest[i]) by {
                assert(rest[i] == s[i]);
            }
        }
        lemma_pckt_pieces(prefix, rest, did);
        assert(s.last() == s[s.len() - 1]);
        lemma_pckt_piece(prefix, s.last(), did);
        assert(pckt_pieces(prefix, s).drop_last() =~= pckt_pieces(prefix, rest));
        assert(shown_all(s, did) =~= shown_all(rest, did) + seq![shown(s.last(), did)]);
    } else {
        assert(shown_all(s, did) =~= Seq::empty());
        assert(pckt_pieces(prefix, s) =~= Seq::empty());
    }
}

/// A Pckt document reads as it was written: every piece, in order, and nothing else.
pub proof fn law_pckt_reads_as_written(prefix: Seq<char>, s: Seq<Piece>, did: Seq<char>)
    requires
        all_sound(s),
        s.len() > 0,
    ensures
        pckt_doc(pckt_content(prefix, s), did) == Some(shown_all(s, did)),
{
    broadcast use lemma_member_push;

    lemma_names();
    lemma_pckt_pieces(prefix, s, did);
    assert(pckt_content(prefix, s).get_array("items"@) == Some(pckt_pieces(prefix, s)));
    assert(pckt_pieces(prefix, s).len() == s.len());
}

} // verus!
