//! HTML: a document reads as it was written.
use vstd::prelude::*;

use crate::decode::html::{
    block_from, code_lang_from, decoded_from, decoded_text, entity_at, entity_text, flushed,
    has_words, heading_of, html_doc, inline_children_of, inlines_from, inner_text, is_block_tag,
    li_items, named_entity, walked, SpecHtml,
};
use crate::model::{SpecBlock, SpecImageSource, SpecInline};
use crate::text::{find_from, lemma_find_from, word_after};

verus! {

// --- Entities ---------------------------------------------------------------------

/// The name under which a character is spelled out, where it has one.
pub open spec fn entity_name(c: char) -> Option<Seq<char>> {
    match c {
        '&' => Some("amp"@),
        '<' => Some("lt"@),
        '>' => Some("gt"@),
        '"' => Some("quot"@),
        '\'' => Some("apos"@),
        '\u{a0}' => Some("nbsp"@),
        '—' => Some("mdash"@),
        '–' => Some("ndash"@),
        '…' => Some("hellip"@),
        '“' => Some("ldquo"@),
        '”' => Some("rdquo"@),
        '‘' => Some("lsquo"@),
        '’' => Some("rsquo"@),
        '©' => Some("copy"@),
        '®' => Some("reg"@),
        '™' => Some("trade"@),
        _ => None,
    }
}

/// A character as HTML writes it.
pub open spec fn char_spelled(c: char) -> Seq<char> {
    match entity_name(c) {
        Some(name) => seq!['&'] + name + seq![';'],
        None => seq![c],
    }
}

/// Text as HTML writes it.
pub open spec fn spelled(t: Seq<char>) -> Seq<char>
    decreases t.len(),
{
    if t.len() == 0 {
        Seq::empty()
    } else {
        char_spelled(t[0]) + spelled(t.drop_first())
    }
}

#[verifier::rlimit(60)]
proof fn lemma_entity_names(c: char)
    ensures
        entity_name(c) matches Some(name) ==> 0 < name.len() <= 6 && vstd::utf8::is_ascii_chars(
            name,
        ) && (forall|i: int|
            0 <= i < name.len() ==> (#[trigger] name[i]) != ';' && name[i] != '&' && name[i]
                != '#'),
{
    reveal_strlit("amp");
    reveal_strlit("lt");
    reveal_strlit("gt");
    reveal_strlit("quot");
    reveal_strlit("apos");
    reveal_strlit("nbsp");
    reveal_strlit("mdash");
    reveal_strlit("ndash");
    reveal_strlit("hellip");
    reveal_strlit("ldquo");
    reveal_strlit("rdquo");
    reveal_strlit("lsquo");
    reveal_strlit("rsquo");
    reveal_strlit("copy");
    reveal_strlit("reg");
    reveal_strlit("trade");
}

#[verifier::rlimit(60)]
proof fn lemma_named(c: char)
    ensures
        entity_name(c) matches Some(name) ==> named_entity(name) == Some(seq![c]),
{
    reveal_strlit("amp");
    reveal_strlit("lt");
    reveal_strlit("gt");
    reveal_strlit("quot");
    reveal_strlit("apos");
    reveal_strlit("nbsp");
    reveal_strlit("mdash");
    reveal_strlit("ndash");
    reveal_strlit("hellip");
    reveal_strlit("ldquo");
    reveal_strlit("rdquo");
    reveal_strlit("lsquo");
    reveal_strlit("rsquo");
    reveal_strlit("copy");
    reveal_strlit("reg");
    reveal_strlit("trade");
    reveal_strlit("&");
    reveal_strlit("<");
    reveal_strlit(">");
    reveal_strlit("\"");
    reveal_strlit("'");
    reveal_strlit("\u{a0}");
    reveal_strlit("—");
    reveal_strlit("–");
    reveal_strlit("…");
    reveal_strlit("“");
    reveal_strlit("”");
    reveal_strlit("‘");
    reveal_strlit("’");
    reveal_strlit("©");
    reveal_strlit("®");
    reveal_strlit("™");
    assert("amp"@.len() == 3 && "lt"@.len() == 2 && "gt"@.len() == 2 && "quot"@.len() == 4);
    assert("apos"@.len() == 4 && "nbsp"@.len() == 4 && "mdash"@.len() == 5);
    assert("ndash"@.len() == 5 && "hellip"@.len() == 6 && "ldquo"@.len() == 5);
    assert("rdquo"@.len() == 5 && "lsquo"@.len() == 5 && "rsquo"@.len() == 5);
    assert("copy"@.len() == 4 && "reg"@.len() == 3 && "trade"@.len() == 5);
    assert("amp"@[0] == 'a' && "lt"@[0] == 'l' && "gt"@[0] == 'g' && "quot"@[0] == 'q');
    assert("apos"@[0] == 'a' && "nbsp"@[0] == 'n' && "mdash"@[0] == 'm' && "ndash"@[0] == 'n');
    assert("ldquo"@[0] == 'l' && "rdquo"@[0] == 'r' && "lsquo"@[0] == 'l');
    assert("ldquo"@[1] == 'd' && "rdquo"@[1] == 'd' && "lsquo"@[1] == 's' && "rsquo"@[1] == 's');
    assert("rsquo"@[0] == 'r' && "copy"@[0] == 'c' && "reg"@[0] == 'r' && "trade"@[0] == 't');
    if let Some(name) = entity_name(c) {
        assert(named_entity(name) is Some);
        assert(named_entity(name)->0 =~= seq![c]);
    }
}

pub proof fn lemma_find_on(s: Seq<char>, k: int, i: int, c: char)
    requires
        0 <= k <= s.len(),
        0 <= i <= s.len() - k,
    ensures
        find_from(s, k + i, c) == (match find_from(s.subrange(k, s.len() as int), i, c) {
            Some(j) => Some(k + j),
            None => None,
        }),
    decreases s.len() - k - i,
{
    let rest = s.subrange(k, s.len() as int);
    if i < rest.len() {
        assert(rest[i] == s[k + i]);
        if rest[i] != c {
            lemma_find_on(s, k, i + 1, c);
        }
    }
}

proof fn lemma_decoded_on(s: Seq<char>, k: int, i: int)
    requires
        0 <= k <= s.len(),
        0 <= i <= s.len() - k,
    ensures
        decoded_from(s, k + i) == decoded_from(s.subrange(k, s.len() as int), i),
    decreases s.len() - k - i,
{
    let rest = s.subrange(k, s.len() as int);
    if i < rest.len() {
        assert(rest[i] == s[k + i]);
        if rest[i] != '&' {
            lemma_decoded_on(s, k, i + 1);
        } else {
            lemma_find_on(s, k, i + 1, ';');
            lemma_find_from(rest, i + 1, ';');
            match find_from(rest, i + 1, ';') {
                Some(semi) => {
                    assert(rest.subrange(i + 1, semi) =~= s.subrange(k + i + 1, k + semi));
                    lemma_decoded_on(s, k, semi + 1);
                },
                None => {},
            }
            lemma_decoded_on(s, k, i + 1);
        }
    }
}

/// One spelled character and what follows it are read one after the other.
pub proof fn law_a_spelled_character_reads_back(c: char, rest: Seq<char>)
    ensures
        decoded_text(char_spelled(c) + rest) == seq![c] + decoded_text(rest),
{
    lemma_entity_names(c);
    lemma_named(c);
    let s = char_spelled(c) + rest;
    let n = char_spelled(c).len() as int;
    assert(s.subrange(n, s.len() as int) =~= rest);
    lemma_decoded_on(s, n, 0);
    match entity_name(c) {
        Some(name) => {
            lemma_find_from(s, 1, ';');
            assert(s[0] == '&' && s[n - 1] == ';');
            assert forall|j: int| 1 <= j < n - 1 implies s[j] != ';' by {
                assert(s[j] == name[j - 1]);
            }
            assert(find_from(s, 1, ';') == Some(n - 1));
            assert(s.subrange(1, n - 1) =~= name);
            vstd::utf8::is_ascii_chars_encode_utf8(name);
            lemma_find_from(name, 0, '&');
            assert(entity_text(name) == Some(seq![c]));
            assert(entity_at(s, 0) == Some((seq![c], n)));
        },
        None => {
            assert(s[0] == c);
        },
    }
}

/// Text reads as it was before it was spelled out.
pub proof fn law_spelled_text_reads_back(t: Seq<char>)
    ensures
        decoded_text(spelled(t)) == t,
    decreases t.len(),
{
    if t.len() > 0 {
        law_a_spelled_character_reads_back(t[0], spelled(t.drop_first()));
        law_spelled_text_reads_back(t.drop_first());
        assert(seq![t[0]] + t.drop_first() =~= t);
    } else {
        assert(decoded_from(spelled(t), 0) =~= t);
    }
}

// --- Trees ------------------------------------------------------------------------

/// A bare tag.
pub open spec fn tag(name: Seq<char>, children: Seq<SpecHtml>) -> SpecHtml {
    SpecHtml::Tag { name, href: None, src: None, alt: None, class: None, children }
}

/// A node writes an inline.
pub open spec fn says(n: SpecHtml, x: SpecInline) -> bool
    decreases n,
{
    match (n, x) {
        (SpecHtml::Raw(raw), SpecInline::Text(t)) => t.len() > 0 && raw == spelled(t),
        (SpecHtml::Tag { name, href, src, alt, class, children }, SpecInline::Strong(c)) => (name
            == "strong"@ || name == "b"@) && says_all(children, c),
        (SpecHtml::Tag { name, href, src, alt, class, children }, SpecInline::Emphasis(c)) => (name
            == "em"@ || name == "i"@) && says_all(children, c),
        (SpecHtml::Tag { name, href, src, alt, class, children }, SpecInline::Strike(c)) => (name
            == "del"@ || name == "s"@ || name == "strike"@) && says_all(children, c),
        (SpecHtml::Tag { name, href, src, alt, class, children }, SpecInline::Code(t)) => name
            == "code"@ && inner_text(children) == spelled(t),
        (
            SpecHtml::Tag { name, href, src, alt, class, children },
            SpecInline::Link { href: to, content },
        ) => name == "a"@ && href == Some(to) && says_all(children, content),
        (SpecHtml::Tag { name, href, src, alt, class, children }, SpecInline::Image(i)) => name
            == "img"@ && src is Some && i.source == SpecImageSource::Url(src->0) && i.alt == (
        match alt {
            Some(a) => a,
            None => Seq::empty(),
        }),
        (SpecHtml::Tag { name, href, src, alt, class, children }, SpecInline::LineBreak) => name
            == "br"@,
        _ => false,
    }
}

/// Nodes write inlines one by one.
pub open spec fn says_all(s: Seq<SpecHtml>, c: Seq<SpecInline>) -> bool
    decreases s,
{
    if s.len() == 0 || c.len() == 0 {
        s.len() == 0 && c.len() == 0
    } else {
        says_all(s.drop_last(), c.drop_last()) && says(s.last(), c.last())
    }
}

/// The heading tags.
pub open spec fn heading_name(level: int) -> Seq<char> {
    if level == 1 {
        "h1"@
    } else if level == 2 {
        "h2"@
    } else if level == 3 {
        "h3"@
    } else if level == 4 {
        "h4"@
    } else if level == 5 {
        "h5"@
    } else {
        "h6"@
    }
}

/// A code block's only child: its code, with the language in its class.
pub open spec fn is_code(children: Seq<SpecHtml>, lang: Option<Seq<char>>) -> bool {
    children.len() == 1 && (match children[0] {
        SpecHtml::Tag { name, href, src, alt, class, children } => name == "code"@ && (match lang {
            Some(l) => class == Some("language-"@ + l) && l.len() > 0 && !spaced(l),
            None => class is None,
        }),
        _ => false,
    })
}

/// Some character is whitespace.
pub open spec fn spaced(s: Seq<char>) -> bool {
    exists|i: int| 0 <= i < s.len() && crate::text::unicode_whitespace(#[trigger] s[i])
}

/// A node writes a block.
pub open spec fn writes(n: SpecHtml, b: SpecBlock) -> bool
    decreases n,
{
    match n {
        SpecHtml::Tag { name, href, src, alt, class, children } => match b {
            SpecBlock::Paragraph(c) => name == "p"@ && has_words(c) && says_all(children, c),
            SpecBlock::Heading { level, content } => 1 <= level <= 6 && name == heading_name(
                level as int,
            ) && says_all(children, content),
            SpecBlock::Quote(inner) => name == "blockquote"@ && writes_all(children, inner),
            SpecBlock::List { ordered, items } => name == (if ordered {
                "ol"@
            } else {
                "ul"@
            }) && writes_items(children, items),
            SpecBlock::Code { lang, text } => name == "pre"@ && is_code(children, lang)
                && inner_text(children) == spelled(text),
            SpecBlock::Image(i) => name == "img"@ && src is Some && i.source
                == SpecImageSource::Url(src->0) && i.alt == (match alt {
                Some(a) => a,
                None => Seq::empty(),
            }),
            SpecBlock::Rule => name == "hr"@,
            _ => false,
        },
        _ => false,
    }
}

/// Nodes write blocks one by one.
pub open spec fn writes_all(s: Seq<SpecHtml>, b: Seq<SpecBlock>) -> bool
    decreases s,
{
    if s.len() == 0 || b.len() == 0 {
        s.len() == 0 && b.len() == 0
    } else {
        writes_all(s.drop_last(), b.drop_last()) && writes(s.last(), b.last())
    }
}

/// List items write lists of blocks one by one.
pub open spec fn writes_items(s: Seq<SpecHtml>, items: Seq<Seq<SpecBlock>>) -> bool
    decreases s,
{
    if s.len() == 0 || items.len() == 0 {
        s.len() == 0 && items.len() == 0
    } else {
        writes_items(s.drop_last(), items.drop_last()) && (match s.last() {
            SpecHtml::Tag { name, href, src, alt, class, children } => name == "li"@ && writes_all(
                children,
                items.last(),
            ),
            _ => false,
        })
    }
}

#[verifier::rlimit(40)]
proof fn lemma_inline_names()
    ensures
        "strong"@.len() == 6,
        "b"@.len() == 1 && "b"@[0] == 'b',
        "em"@.len() == 2 && "em"@[0] == 'e',
        "i"@.len() == 1 && "i"@[0] == 'i',
        "del"@.len() == 3 && "del"@[0] == 'd',
        "s"@.len() == 1 && "s"@[0] == 's',
        "strike"@.len() == 6 && "strike"@[3] == 'i',
        "strong"@[3] == 'o',
        "code"@.len() == 4,
        "a"@.len() == 1 && "a"@[0] == 'a',
        "br"@.len() == 2 && "br"@[0] == 'b',
        "img"@.len() == 3 && "img"@[0] == 'i',
{
    reveal_strlit("strong");
    reveal_strlit("b");
    reveal_strlit("em");
    reveal_strlit("i");
    reveal_strlit("del");
    reveal_strlit("s");
    reveal_strlit("strike");
    reveal_strlit("code");
    reveal_strlit("a");
    reveal_strlit("br");
    reveal_strlit("img");
}

proof fn lemma_block_names()
    ensures
        "p"@.len() == 1,
        "h1"@.len() == 2 && "h1"@[0] == 'h' && "h1"@[1] == '1',
        "h2"@.len() == 2 && "h2"@[0] == 'h' && "h2"@[1] == '2',
        "h3"@.len() == 2 && "h3"@[0] == 'h' && "h3"@[1] == '3',
        "h4"@.len() == 2 && "h4"@[0] == 'h' && "h4"@[1] == '4',
        "h5"@.len() == 2 && "h5"@[0] == 'h' && "h5"@[1] == '5',
        "h6"@.len() == 2 && "h6"@[0] == 'h' && "h6"@[1] == '6',
        "ul"@.len() == 2 && "ul"@[0] == 'u',
        "ol"@.len() == 2 && "ol"@[0] == 'o',
        "hr"@.len() == 2 && "hr"@[0] == 'h' && "hr"@[1] == 'r',
        "blockquote"@.len() == 10,
        "pre"@.len() == 3 && "pre"@[0] == 'p',
        "img"@.len() == 3 && "img"@[0] == 'i',
{
    reveal_strlit("p");
    reveal_strlit("h1");
    reveal_strlit("h2");
    reveal_strlit("h3");
    reveal_strlit("h4");
    reveal_strlit("h5");
    reveal_strlit("h6");
    reveal_strlit("ul");
    reveal_strlit("ol");
    reveal_strlit("hr");
    reveal_strlit("blockquote");
    reveal_strlit("pre");
    reveal_strlit("img");
}

/// A written inline reads as itself.
#[verifier::rlimit(60)]
pub proof fn law_inlines_read_as_written(n: SpecHtml, x: SpecInline)
    requires
        says(n, x),
    ensures
        inlines_from(n) == seq![x],
    decreases n, 0int,
{
    lemma_inline_names();
    match n {
        SpecHtml::Raw(raw) => {
            law_spelled_text_reads_back(x->Text_0);
            assert(inlines_from(n) =~= seq![x]);
        },
        SpecHtml::Tag { name, href, src, alt, class, children } => {
            match x {
                SpecInline::Strong(c) => {
                    lemma_inlines(children, c);
                },
                SpecInline::Emphasis(c) => {
                    lemma_inlines(children, c);
                },
                SpecInline::Strike(c) => {
                    lemma_inlines(children, c);
                },
                SpecInline::Code(t) => {
                    law_spelled_text_reads_back(t);
                },
                SpecInline::Link { href: to, content } => {
                    lemma_inlines(children, content);
                },
                _ => {},
            }
        },
        _ => {},
    }
}

proof fn lemma_inlines(s: Seq<SpecHtml>, c: Seq<SpecInline>)
    requires
        says_all(s, c),
    ensures
        inline_children_of(s) == c,
    decreases s, 1int,
{
    if s.len() > 0 {
        lemma_inlines(s.drop_last(), c.drop_last());
        law_inlines_read_as_written(s.last(), c.last());
        assert(c.drop_last() + seq![c.last()] =~= c);
    } else {
        assert(inline_children_of(s) =~= c);
    }
}

proof fn lemma_word_end_on(s: Seq<char>, i: int)
    requires
        0 <= i <= s.len(),
        !spaced(s),
    ensures
        crate::text::word_end(s, i) == s.len(),
    decreases s.len() - i,
{
    if i < s.len() {
        assert(!crate::text::unicode_whitespace(s[i]));
        lemma_word_end_on(s, i + 1);
    }
}

proof fn lemma_language(l: Seq<char>)
    requires
        l.len() > 0,
        !spaced(l),
    ensures
        word_after("language-"@ + l, "language-"@, 0) == Some(l),
{
    reveal_strlit("language-");
    let c = "language-"@ + l;
    assert forall|i: int| 0 <= i < c.len() implies !crate::text::unicode_whitespace(
        #[trigger] c[i],
    ) by {
        if i >= 9 {
            assert(c[i] == l[i - 9]);
        }
    }
    lemma_word_end_on(c, 0);
    assert(c.subrange(0, c.len() as int) =~= c);
    assert(c.subrange(0, 9) =~= "language-"@);
    assert(c.subrange(9, c.len() as int) =~= l);
}

proof fn lemma_code(children: Seq<SpecHtml>, lang: Option<Seq<char>>)
    requires
        is_code(children, lang),
    ensures
        code_lang_from(children, 0) == lang,
{
    match lang {
        Some(l) => {
            lemma_language(l);
        },
        None => {},
    }
}

/// A written block reads as itself.
#[verifier::rlimit(60)]
proof fn lemma_block(n: SpecHtml, b: SpecBlock)
    requires
        writes(n, b),
    ensures
        block_from(n) == seq![b],
        n matches SpecHtml::Tag { name, .. } && is_block_tag(name),
    decreases n, 0int,
{
    lemma_block_names();
    match n {
        SpecHtml::Tag { name, href, src, alt, class, children } => {
            match b {
                SpecBlock::Paragraph(c) => {
                    lemma_inlines(children, c);
                },
                SpecBlock::Heading { level, content } => {
                    lemma_inlines(children, content);
                    assert(heading_of(name) == Some(level));
                },
                SpecBlock::Quote(inner) => {
                    lemma_blocks(children, inner);
                },
                SpecBlock::List { ordered, items } => {
                    lemma_items(children, items);
                },
                SpecBlock::Code { lang, text } => {
                    lemma_code(children, lang);
                    law_spelled_text_reads_back(text);
                },
                _ => {},
            }
            assert(block_from(n) =~= seq![b]);
        },
        _ => {},
    }
}

proof fn lemma_blocks(s: Seq<SpecHtml>, b: Seq<SpecBlock>)
    requires
        writes_all(s, b),
    ensures
        walked(s, 0, Seq::empty()) == b,
    decreases s, 2int,
{
    lemma_same_count(s, b);
    lemma_walk(s, b, 0);
    assert(b.skip(0) =~= b);
}

proof fn lemma_same_count(s: Seq<SpecHtml>, b: Seq<SpecBlock>)
    requires
        writes_all(s, b),
    ensures
        s.len() == b.len(),
        forall|i: int| 0 <= i < s.len() ==> writes(#[trigger] s[i], b[i]),
    decreases s.len(),
{
    if s.len() > 0 {
        lemma_same_count(s.drop_last(), b.drop_last());
        assert forall|i: int| 0 <= i < s.len() implies writes(#[trigger] s[i], b[i]) by {
            if i < s.len() - 1 {
                assert(s.drop_last()[i] == s[i] && b.drop_last()[i] == b[i]);
            }
        }
    }
}

proof fn lemma_walk(s: Seq<SpecHtml>, b: Seq<SpecBlock>, i: int)
    requires
        0 <= i <= s.len(),
        s.len() == b.len(),
        forall|i: int| 0 <= i < s.len() ==> writes(#[trigger] s[i], b[i]),
    ensures
        walked(s, i, Seq::empty()) == b.skip(i),
    decreases s, 1int, s.len() - i,
{
    let none = Seq::<SpecInline>::empty();
    assert(!has_words(none));
    if i < s.len() {
        assert(writes(s[i], b[i]));
        lemma_block(s[i], b[i]);
        lemma_walk(s, b, i + 1);
        assert(flushed(none) + seq![b[i]] + b.skip(i + 1) =~= b.skip(i));
    } else {
        assert(walked(s, i, none) =~= b.skip(i));
    }
}

proof fn lemma_items(s: Seq<SpecHtml>, items: Seq<Seq<SpecBlock>>)
    requires
        writes_items(s, items),
    ensures
        li_items(s) == items,
    decreases s, 1int,
{
    if s.len() > 0 {
        lemma_items(s.drop_last(), items.drop_last());
        match s.last() {
            SpecHtml::Tag { name, href, src, alt, class, children } => {
                lemma_blocks(children, items.last());
            },
            _ => {},
        }
        assert(items.drop_last().push(items.last()) =~= items);
    } else {
        assert(li_items(s) =~= items);
    }
}

/// Blocks that are written one after the other read as those blocks.
pub proof fn law_html_reads_as_written(s: Seq<SpecHtml>, b: Seq<SpecBlock>)
    requires
        writes_all(s, b),
    ensures
        html_doc(s) == b,
{
    lemma_blocks(s, b);
}

/// Text that stands outside of any block is a paragraph of its own.
pub proof fn law_loose_text_is_a_paragraph(s: Seq<SpecHtml>, c: Seq<SpecInline>)
    requires
        says_all(s, c),
        has_words(c),
        forall|i: int| 0 <= i < s.len() ==> !(#[trigger] s[i] matches SpecHtml::Tag { name, .. }
            && is_block_tag(name)),
    ensures
        html_doc(s) == seq![SpecBlock::Paragraph(c)],
{
    lemma_inlines(s, c);
    lemma_loose(s, 0, Seq::empty());
    assert(s.skip(0) =~= s);
    assert(Seq::<SpecInline>::empty() + c =~= c);
}

proof fn lemma_inlines_first(s: Seq<SpecHtml>)
    requires
        s.len() > 0,
    ensures
        inline_children_of(s) == inlines_from(s[0]) + inline_children_of(s.drop_first()),
    decreases s.len(),
{
    if s.len() == 1 {
        assert(s.drop_last() =~= Seq::empty());
        assert(s.drop_first() =~= Seq::empty());
        assert(inline_children_of(s) =~= inlines_from(s[0]) + inline_children_of(s.drop_first()));
    } else {
        lemma_inlines_first(s.drop_last());
        assert(s.drop_last().drop_first() =~= s.drop_first().drop_last());
        assert(inline_children_of(s) =~= inlines_from(s[0]) + inline_children_of(s.drop_first()));
    }
}

proof fn lemma_loose(s: Seq<SpecHtml>, i: int, buf: Seq<SpecInline>)
    requires
        0 <= i <= s.len(),
        forall|i: int| 0 <= i < s.len() ==> !(#[trigger] s[i] matches SpecHtml::Tag { name, .. }
            && is_block_tag(name)),
    ensures
        walked(s, i, buf) == flushed(buf + inline_children_of(s.skip(i))),
    decreases s.len() - i,
{
    if i < s.len() {
        lemma_loose(s, i + 1, buf + inlines_from(s[i]));
        lemma_inlines_first(s.skip(i));
        assert(s.skip(i).drop_first() =~= s.skip(i + 1));
        assert(buf + inlines_from(s[i]) + inline_children_of(s.skip(i + 1)) =~= buf
            + inline_children_of(s.skip(i)));
    } else {
        assert(s.skip(i) =~= Seq::empty());
        assert(buf + inline_children_of(s.skip(i)) =~= buf);
    }
}

/// A `div` and its like add nothing: they read as what they hold.
pub proof fn law_containers_are_looked_through(name: Seq<char>, children: Seq<SpecHtml>)
    requires
        name == "div"@ || name == "section"@ || name == "article"@ || name == "main"@ || name
            == "figure"@,
    ensures
        html_doc(seq![tag(name, children)]) == html_doc(children),
{
    lemma_block_names();
    reveal_strlit("div");
    reveal_strlit("section");
    reveal_strlit("article");
    reveal_strlit("main");
    reveal_strlit("figure");
    assert("div"@.len() == 3 && "div"@[0] == 'd' && "section"@.len() == 7);
    assert("article"@.len() == 7 && "main"@.len() == 4 && "figure"@.len() == 6);
    let n = tag(name, children);
    let s = seq![n];
    let none = Seq::<SpecInline>::empty();
    assert(!has_words(none));
    assert(s[0] == n);
    assert(walked(s, 1, none) =~= Seq::empty());
    assert(block_from(n) == html_doc(children));
    assert(walked(s, 0, none) == flushed(none) + block_from(n) + walked(s, 1, none));
    assert(html_doc(s) =~= html_doc(children));
}

/// Markup that has no counterpart is left out, and its text stays.
pub proof fn law_unknown_markup_keeps_its_text(name: Seq<char>, children: Seq<SpecHtml>)
    requires
        name == "span"@ || name == "u"@ || name == "mark"@ || name == "small"@ || name == "sup"@
            || name == "cite"@,
    ensures
        inlines_from(tag(name, children)) == inline_children_of(children),
{
    lemma_inline_names();
    reveal_strlit("span");
    reveal_strlit("u");
    reveal_strlit("mark");
    reveal_strlit("small");
    reveal_strlit("sup");
    reveal_strlit("cite");
    assert("span"@.len() == 4 && "span"@[0] == 's' && "u"@.len() == 1 && "u"@[0] == 'u');
    assert("mark"@.len() == 4 && "mark"@[0] == 'm' && "small"@.len() == 5);
    assert("sup"@.len() == 3 && "sup"@[0] == 's' && "cite"@.len() == 4 && "cite"@[1] == 'i');
    reveal_strlit("code");
    assert("code"@[0] == 'c' && "code"@[1] == 'o');
}

} // verus!
