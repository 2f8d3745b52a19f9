//! Styles: a range of a text is shown in the style that is asked for it, and the rest plainly.
use vstd::prelude::*;
use vstd::utf8::{
    encode_scalar, encode_utf8, encode_utf8_decode_utf8, encode_utf8_first_scalar,
    encode_utf8_valid_utf8, is_char_boundary,
};

use crate::decode::facets::{
    applies, facet_of, facets_among, facets_of, kind_of, kinds_among, lemma_flat_one, runs,
    sorted_by_start, text_block, wrapped, SpecFacet, SpecFacetKind,
};
use crate::json::SpecJson;
use crate::laws::blocks::words;
use crate::laws::records::{lemma_member_push, put};
use crate::model::SpecInline;
use crate::text::{after_last, at_boundary, byte_len, byte_slice, lemma_byte_slice_ends, rfind_before};

verus! {

// --- Bytes ------------------------------------------------------------------------

proof fn lemma_encode_join(a: Seq<char>, b: Seq<char>)
    ensures
        encode_utf8(a + b) == encode_utf8(a) + encode_utf8(b),
        byte_len(a + b) == byte_len(a) + byte_len(b),
    decreases a.len(),
{
    if a.len() == 0 {
        assert(a + b =~= b);
        assert(encode_utf8(a) + encode_utf8(b) =~= encode_utf8(b));
    } else {
        lemma_encode_join(a.drop_first(), b);
        assert((a + b).drop_first() =~= a.drop_first() + b);
        assert((a + b)[0] == a[0]);
        assert(encode_utf8(a + b) =~= encode_utf8(a) + encode_utf8(b));
    }
}

proof fn lemma_boundary(a: Seq<char>, b: Seq<char>)
    ensures
        at_boundary(a + b, byte_len(a)),
    decreases a.len(),
{
    let s = a + b;
    let bytes = encode_utf8(s);
    encode_utf8_valid_utf8(s);
    lemma_encode_join(a, b);
    if a.len() > 0 {
        lemma_boundary(a.drop_first(), b);
        assert(s.drop_first() =~= a.drop_first() + b);
        assert(s[0] == a[0]);
        encode_utf8_first_scalar(s);
        lemma_encode_join(a.drop_first(), b);
        encode_utf8_valid_utf8(s.drop_first());
        assert(encode_utf8(a) == encode_scalar(a[0] as u32) + encode_utf8(a.drop_first()));
        let n = encode_scalar(a[0] as u32).len() as int;
        assert(vstd::utf8::pop_first_scalar(bytes) =~= encode_utf8(s.drop_first()));
        assert(byte_len(a) == n + byte_len(a.drop_first()));
        assert(is_char_boundary(vstd::utf8::pop_first_scalar(bytes), byte_len(a) - n));
        assert(is_char_boundary(bytes, byte_len(a)));
    }
}

pub proof fn lemma_slice(a: Seq<char>, b: Seq<char>, c: Seq<char>)
    ensures
        byte_slice(a + b + c, byte_len(a), byte_len(a + b)) == b,
        byte_slice(a + b + c, 0, byte_len(a)) == a,
        byte_slice(a + b + c, byte_len(a + b), byte_len(a + b + c)) == c,
        at_boundary(a + b + c, byte_len(a)),
        at_boundary(a + b + c, byte_len(a + b)),
        byte_len(a + b) == byte_len(a) + byte_len(b),
        byte_len(a + b + c) == byte_len(a) + byte_len(b) + byte_len(c),
        byte_len(a) == 0 <==> a.len() == 0,
        byte_len(c) == 0 <==> c.len() == 0,
{
    lemma_encode_join(a, b);
    lemma_encode_join(a + b, c);
    lemma_boundary(a + b, c);
    lemma_boundary(a, b + c);
    assert(a + (b + c) =~= a + b + c);
    let bytes = encode_utf8(a + b + c);
    assert(bytes.subrange(byte_len(a), byte_len(a + b)) =~= encode_utf8(b));
    assert(bytes.subrange(0, byte_len(a)) =~= encode_utf8(a));
    assert(bytes.subrange(byte_len(a + b), byte_len(a + b + c)) =~= encode_utf8(c));
    encode_utf8_decode_utf8(a);
    encode_utf8_decode_utf8(b);
    encode_utf8_decode_utf8(c);
    lemma_empty(a);
    lemma_empty(c);
}

proof fn lemma_empty(t: Seq<char>)
    ensures
        byte_len(t) == 0 <==> t.len() == 0,
{
    lemma_byte_slice_ends(t, 0);
    if t.len() == 0 {
        assert(encode_utf8(t) =~= Seq::empty());
    }
}

// --- Writing styles ---------------------------------------------------------------

/// What a range of text can be.
pub enum Manner {
    Bold,
    Italic,
    Strikethrough,
    Underline,
    Highlight,
    Code,
    Link(Seq<char>),
    Mention(Seq<char>),
}

/// A feature as a facet names it: its type ends with a word after the hash.
pub open spec fn feature(prefix: Seq<char>, style: Manner) -> SpecJson {
    let ty = |name: Seq<char>| put(Seq::empty(), "$type"@, prefix + "#"@ + name);
    SpecJson::Object(
        match style {
            Manner::Bold => ty("bold"@),
            Manner::Italic => ty("italic"@),
            Manner::Strikethrough => ty("strikethrough"@),
            Manner::Underline => ty("underline"@),
            Manner::Highlight => ty("highlight"@),
            Manner::Code => ty("code"@),
            Manner::Link(href) => put(ty("link"@), "uri"@, href),
            Manner::Mention(did) => put(ty("mention"@), "did"@, did),
        },
    )
}

/// Text in a style; who is mentioned is linked to their profile.
pub open spec fn in_style(style: Manner, t: Seq<char>) -> SpecInline {
    let plain = seq![SpecInline::Text(t)];
    match style {
        Manner::Bold => SpecInline::Strong(plain),
        Manner::Italic => SpecInline::Emphasis(plain),
        Manner::Strikethrough => SpecInline::Strike(plain),
        Manner::Underline => SpecInline::Underline(plain),
        Manner::Highlight => SpecInline::Highlight(plain),
        Manner::Code => SpecInline::Code(t),
        Manner::Link(href) => SpecInline::Link { href, content: plain },
        Manner::Mention(did) => SpecInline::Link {
            href: "https://bsky.app/profile/"@ + did,
            content: plain,
        },
    }
}

/// A facet over a range of bytes.
pub open spec fn facet(start: u64, end: u64, one: SpecJson) -> SpecJson {
    SpecJson::Object(
        Seq::empty().push(
            (
                "index"@,
                SpecJson::Object(
                    Seq::empty().push(("byteStart"@, SpecJson::Uint(start))).push(
                        ("byteEnd"@, SpecJson::Uint(end)),
                    ),
                ),
            ),
        ).push(("features"@, SpecJson::Array(seq![one]))),
    )
}

/// A text block with one facet.
pub open spec fn styled_block(t: Seq<char>, one: SpecJson) -> SpecJson {
    SpecJson::Object(
        put(Seq::empty(), "plaintext"@, t).push(("facets"@, SpecJson::Array(seq![one]))),
    )
}

proof fn lemma_feature(prefix: Seq<char>, style: Manner)
    ensures
        kind_of(feature(prefix, style)) == Some(
            match style {
                Manner::Bold => SpecFacetKind::Strong,
                Manner::Italic => SpecFacetKind::Emphasis,
                Manner::Strikethrough => SpecFacetKind::Strike,
                Manner::Underline => SpecFacetKind::Underline,
                Manner::Highlight => SpecFacetKind::Highlight,
                Manner::Code => SpecFacetKind::Code,
                Manner::Link(href) => SpecFacetKind::Link(href),
                Manner::Mention(did) => SpecFacetKind::Link("https://bsky.app/profile/"@ + did),
            },
        ),
{
    broadcast use lemma_member_push;

    reveal_strlit("$type");
    reveal_strlit("uri");
    reveal_strlit("did");
    reveal_strlit("bold");
    reveal_strlit("italic");
    reveal_strlit("strikethrough");
    reveal_strlit("strike");
    reveal_strlit("underline");
    reveal_strlit("highlight");
    reveal_strlit("code");
    reveal_strlit("link");
    reveal_strlit("webMention");
    reveal_strlit("mention");
    let name = match style {
        Manner::Bold => "bold"@,
        Manner::Italic => "italic"@,
        Manner::Strikethrough => "strikethrough"@,
        Manner::Underline => "underline"@,
        Manner::Highlight => "highlight"@,
        Manner::Code => "code"@,
        Manner::Link(_) => "link"@,
        Manner::Mention(_) => "mention"@,
    };
    assert(!name.contains('#'));
    lemma_hash(prefix, name);
    assert("$type"@.len() == 5 && "uri"@.len() == 3 && "did"@.len() == 3);
    let v = feature(prefix, style);
    assert(v.get_str("$type"@) == Some(prefix + "#"@ + name));
    if let Manner::Link(href) = style {
        assert(v.get_str("uri"@) == Some(href));
    }
    if let Manner::Mention(did) = style {
        assert(v.get_str("did"@) == Some(did));
    }
    assert("bold"@[0] == 'b' && "code"@[0] == 'c' && "link"@[0] == 'l');
    assert("italic"@[0] == 'i' && "strike"@[0] == 's');
    assert("underline"@[0] == 'u' && "highlight"@[0] == 'h');
}

proof fn lemma_hash(prefix: Seq<char>, name: Seq<char>)
    requires
        !name.contains('#'),
    ensures
        after_last(prefix + "#"@ + name, '#') == name,
{
    reveal_strlit("#");
    let s = prefix + "#"@ + name;
    assert forall|i: int| prefix.len() < i < s.len() implies s[i] != '#' by {
        assert(s[i] == name[i - prefix.len() - 1]);
    }
    lemma_rfind(s, prefix.len() as int, s.len() as int);
    assert(s.subrange(prefix.len() as int + 1, s.len() as int) =~= name);
}

proof fn lemma_rfind(s: Seq<char>, at: int, end: int)
    requires
        0 <= at < end <= s.len(),
        s[at] == '#',
        forall|i: int| at < i < end ==> s[i] != '#',
    ensures
        rfind_before(s, end, '#') == Some(at),
    decreases end,
{
    if end - 1 > at {
        lemma_rfind(s, at, end - 1);
    }
}

proof fn lemma_one_facet(v: SpecJson, start: u64, end: u64, one: SpecJson, kind: SpecFacetKind)
    requires
        v.get_array("facets"@) == Some(seq![facet(start, end, one)]),
        kind_of(one) == Some(kind),
        start <= usize::MAX,
        end <= usize::MAX,
    ensures
        facets_of(v, |j: SpecJson| kind_of(j)) == seq![
            SpecFacet { start: start as usize, end: end as usize, kinds: seq![kind] },
        ],
{
    broadcast use lemma_member_push;

    let classify = |j: SpecJson| kind_of(j);
    reveal_strlit("index");
    reveal_strlit("features");
    reveal_strlit("byteStart");
    reveal_strlit("byteEnd");
    assert("index"@.len() == 5 && "features"@.len() == 8);
    assert("byteStart"@.len() == 9 && "byteEnd"@.len() == 7);
    let f = facet(start, end, one);
    let features = seq![one];
    let index = SpecJson::Object(
        Seq::empty().push(("byteStart"@, SpecJson::Uint(start))).push(
            ("byteEnd"@, SpecJson::Uint(end)),
        ),
    );
    assert(f.get("index"@) == Some(index));
    assert(index.get_u64("byteStart"@) == Some(start));
    assert(index.get_u64("byteEnd"@) == Some(end));
    assert(f.get_array("features"@) == Some(features));
    reveal_with_fuel(kinds_among, 2);
    reveal_with_fuel(facets_among, 2);
    assert(classify(features[0]) == Some(kind));
    assert(kinds_among(features, classify, 1) =~= seq![kind]);
    let made = SpecFacet { start: start as usize, end: end as usize, kinds: seq![kind] };
    assert(facet_of(f, classify) == Some(made));
    let fs = seq![f];
    assert(facets_among(fs, classify, 1) =~= seq![made]);
}

/// A range of a text is shown in the style that its facet asks for; what stands before and
/// after it is shown plainly, and nothing is lost.
pub proof fn law_a_range_is_styled(
    before: Seq<char>,
    t: Seq<char>,
    rest: Seq<char>,
    prefix: Seq<char>,
    style: Manner,
    start: u64,
    end: u64,
)
    requires
        byte_len(before + t + rest) <= usize::MAX,
        start == byte_len(before),
        end == byte_len(before + t),
    ensures
        text_block(
            styled_block(before + t + rest, facet(start, end, feature(prefix, style))),
        ) == words(before) + seq![in_style(style, t)] + words(rest),
{
    broadcast use lemma_member_push;

    lemma_feature(prefix, style);
    lemma_slice(before, t, rest);
    let text = before + t + rest;
    let one = feature(prefix, style);
    let kind = kind_of(one)->0;
    let v = styled_block(text, facet(start, end, one));
    reveal_strlit("plaintext");
    reveal_strlit("facets");
    assert("plaintext"@.len() == 9 && "facets"@.len() == 6);
    assert(v.get_array("facets"@) == Some(seq![facet(start, end, one)]));
    assert(v.get_str("plaintext"@) == Some(text));
    lemma_one_facet(v, start, end, one, kind);
    let f = SpecFacet { start: start as usize, end: end as usize, kinds: seq![kind] };
    let fs = seq![f];
    assert(fs.drop_last() =~= Seq::empty());
    assert(sorted_by_start(fs.drop_last()) =~= Seq::empty());
    assert(sorted_by_start(fs) =~= fs);
    assert(applies(text, f, 0));
    let kinds = seq![kind];
    assert(kinds.subrange(1, 1) =~= Seq::empty());
    assert(wrapped(t, kinds.subrange(1, 1)) == SpecInline::Text(t));
    reveal_with_fuel(wrapped, 3);
    let plain = seq![SpecInline::Text(t)];
    lemma_flat_one(SpecInline::Text(t));
    assert(wrapped(t, kinds) == in_style(style, t));
    let tail = runs(text, fs, 1, end as int);
    assert(tail =~= words(rest));
    let head = if start > 0 {
        seq![SpecInline::Text(byte_slice(text, 0, start as int))]
    } else {
        Seq::empty()
    };
    assert(head =~= words(before));
    assert(runs(text, fs, 0, 0) =~= head.push(wrapped(t, kinds)) + tail);
    assert(text_block(v) =~= words(before) + seq![in_style(style, t)] + words(rest));
}

/// Two ranges of a text are each shown in their own style, in whatever order their facets
/// stand; what stands around and between them is shown plainly.
pub proof fn law_two_ranges_are_styled(
    a: Seq<char>,
    x: Seq<char>,
    b: Seq<char>,
    y: Seq<char>,
    c: Seq<char>,
    one: SpecFacet,
    two: SpecFacet,
)
    requires
        x.len() > 0,
        one.start == byte_len(a),
        one.end == byte_len(a + x),
        two.start == byte_len(a + x + b),
        two.end == byte_len(a + x + b + y),
    ensures
        ({
            let text = a + x + b + y + c;
            let shown = words(a) + seq![wrapped(x, one.kinds)] + words(b) + seq![
                wrapped(y, two.kinds),
            ] + words(c);
            &&& crate::decode::facets::faceted(text, seq![one, two]) == shown
            &&& crate::decode::facets::faceted(text, seq![two, one]) == shown
        }),
{
    let text = a + x + b + y + c;
    lemma_slice(a, x, b + y + c);
    lemma_slice(a + x, b, y + c);
    lemma_slice(a + x + b, y, c);
    assert(a + x + (b + y + c) =~= text);
    assert(a + x + b + (y + c) =~= text);
    lemma_empty(x);
    lemma_empty(b);
    lemma_sorted_two(one, two);
    let fs = seq![one, two];
    assert(applies(text, one, 0));
    assert(applies(text, two, one.end as int));
    let tail = runs(text, fs, 2, two.end as int);
    assert(tail =~= words(c));
    let mid = runs(text, fs, 1, one.end as int);
    let between = if two.start > one.end {
        seq![SpecInline::Text(byte_slice(text, one.end as int, two.start as int))]
    } else {
        Seq::empty()
    };
    assert(between =~= words(b));
    assert(mid =~= words(b) + seq![wrapped(y, two.kinds)] + words(c));
    let head = if one.start > 0 {
        seq![SpecInline::Text(byte_slice(text, 0, one.start as int))]
    } else {
        Seq::empty()
    };
    assert(head =~= words(a));
    assert(runs(text, fs, 0, 0) =~= words(a) + seq![wrapped(x, one.kinds)] + words(b) + seq![
        wrapped(y, two.kinds),
    ] + words(c));
}

proof fn lemma_sorted_two(one: SpecFacet, two: SpecFacet)
    requires
        one.start < two.start,
    ensures
        sorted_by_start(seq![one, two]) == seq![one, two],
        sorted_by_start(seq![two, one]) == seq![one, two],
{
    let none = Seq::<SpecFacet>::empty();
    assert(sorted_by_start(none) =~= none);
    assert(seq![one].drop_last() =~= none);
    assert(seq![two].drop_last() =~= none);
    assert(sorted_by_start(seq![one]) =~= seq![one]);
    assert(sorted_by_start(seq![two]) =~= seq![two]);
    assert(seq![one, two].drop_last() =~= seq![one]);
    assert(seq![two, one].drop_last() =~= seq![two]);
    assert(sorted_by_start(seq![one, two]) =~= seq![one, two]);
    assert(crate::decode::facets::insert_by_start(none, one) =~= seq![one]);
    assert(sorted_by_start(seq![two, one]) =~= seq![one, two]);
}

} // verus!
