//! Discovery: a page that names its publication is found by it.
use vstd::prelude::*;

use crate::laws::media::{lemma_found, lemma_pieces_by_on, lemma_sub_on};
use crate::read::{
    attr_value, is_publication_link, link_from, publication_link, tag_part,
};
use crate::text::{
    begins_with, find_from, find_sub_from, has_sub, lemma_find_from, matches_at, pieces_by,
};

verus! {

/// A link tag up to the end of its address: what stands before the address, and the address
/// in quotes.
pub open spec fn linked(mid: Seq<char>, quote: char, uri: Seq<char>) -> Seq<char> {
    mid + "href="@ + seq![quote] + uri + seq![quote]
}

/// Text that stands inside a tag.
pub open spec fn inside_a_tag(s: Seq<char>) -> bool {
    !s.contains('<') && !s.contains('>')
}

proof fn lemma_inside(mid: Seq<char>, quote: char, uri: Seq<char>, j: int)
    requires
        inside_a_tag(mid),
        inside_a_tag(uri),
        quote == '"' || quote == '\'',
        0 <= j < linked(mid, quote, uri).len(),
    ensures
        linked(mid, quote, uri)[j] != '<',
        linked(mid, quote, uri)[j] != '>',
{
    reveal_strlit("href=");
    let core = linked(mid, quote, uri);
    let n = mid.len() as int;
    if j < n {
        assert(core[j] == mid[j]);
        assert(mid.contains(mid[j]));
    } else if n + 6 <= j < n + 6 + uri.len() {
        assert(core[j] == uri[j - n - 6]);
        assert(uri.contains(uri[j - n - 6]));
    }
}

proof fn lemma_href(mid: Seq<char>, quote: char, uri: Seq<char>, more: Seq<char>)
    requires
        !mid.contains('h'),
        !uri.contains(quote),
        quote == '"' || quote == '\'',
    ensures
        attr_value(linked(mid, quote, uri) + more, "href"@) == Some(uri),
{
    reveal_strlit("href=");
    reveal_strlit("href");
    reveal_strlit("=");
    let s = linked(mid, quote, uri) + more;
    let key = "href"@ + "="@;
    assert(key =~= "href="@);
    let n = mid.len() as int;
    assert(matches_at(s, key, n)) by {
        assert(s.subrange(n, n + 5) =~= key);
    }
    assert forall|j: int| 0 <= j < n implies !matches_at(s, key, j) by {
        if matches_at(s, key, j) {
            assert(s.subrange(j, j + 5)[0] == s[j]);
            assert(s[j] == mid[j]);
            assert(mid.contains(mid[j]));
        }
    }
    lemma_found(s, key, 0, n);
    let q = n + 5;
    assert(s[q] == quote);
    let end = q + 1 + uri.len();
    lemma_find_from(s, q + 1, quote);
    assert(s[end] == quote);
    assert forall|j: int| q + 1 <= j < end implies s[j] != quote by {
        assert(s[j] == uri[j - q - 1]);
        assert(uri.contains(uri[j - q - 1]));
    }
    assert(find_from(s, q + 1, quote) == Some(end));
    assert(s.subrange(q + 1, end) =~= uri);
}

/// The first link of a page that names a publication record is what the page is found by,
/// whatever stands before it, behind it and in the tag before its address.
pub proof fn law_a_page_names_its_publication(
    before: Seq<char>,
    mid: Seq<char>,
    quote: char,
    uri: Seq<char>,
    tail: Seq<char>,
)
    requires
        !before.contains('<'),
        inside_a_tag(mid),
        !mid.contains('h'),
        quote == '"' || quote == '\'',
        inside_a_tag(uri),
        !uri.contains(quote),
        begins_with(uri, "at://"@),
        has_sub(uri, "site.standard.publication"@),
    ensures
        publication_link(before + "<link"@ + linked(mid, quote, uri) + tail) == Some(uri),
{
    reveal_strlit("<link");
    let pat = "<link"@;
    let core = linked(mid, quote, uri);
    let html = before + pat + core + tail;
    let n = before.len() as int;
    assert(matches_at(html, pat, n)) by {
        assert(html.subrange(n, n + 5) =~= pat);
    }
    assert forall|j: int| 0 <= j < n implies !matches_at(html, pat, j) by {
        if matches_at(html, pat, j) {
            assert(html.subrange(j, j + 5)[0] == html[j]);
            assert(html[j] == before[j]);
            assert(before.contains(before[j]));
        }
    }
    lemma_found(html, pat, 0, n);
    let rest = core + tail;
    lemma_pieces_by_on(html, pat, n + 5, 0);
    assert(html.subrange(n + 5, html.len() as int) =~= rest);
    let frags = pieces_by(html, pat, 0);
    let after = pieces_by(rest, pat, 0);
    assert(frags == seq![html.subrange(0, n)] + after);
    // The first fragment behind the tag's name holds the tag whole.
    lemma_sub_on(rest, pat, 0, 0);
    assert(rest.subrange(0, rest.len() as int) =~= rest);
    let end: int = match find_sub_from(rest, pat, 0) {
        Some(i) => i,
        None => rest.len() as int,
    };
    lemma_first_at(rest, pat, 0);
    assert(end >= core.len()) by {
        if end < core.len() {
            assert(rest.subrange(end, end + 5)[0] == rest[end]);
            assert(rest[end] == core[end]);
            lemma_inside(mid, quote, uri, end);
        }
    }
    let frag = after[0];
    assert(frag =~= core + rest.subrange(core.len() as int, end));
    assert(frags[1] == frag);
    lemma_find_from(frag, 0, '>');
    let close: int = match find_from(frag, 0, '>') {
        Some(i) => i,
        None => frag.len() as int,
    };
    assert(close >= core.len()) by {
        if close < core.len() {
            assert(frag[close] == core[close]);
            lemma_inside(mid, quote, uri, close);
        }
    }
    assert(tag_part(frag) =~= core + frag.subrange(core.len() as int, close));
    lemma_href(mid, quote, uri, frag.subrange(core.len() as int, close));
    assert(is_publication_link(uri));
    assert(link_from(frags, 1) == Some(uri));
}

proof fn lemma_first_at(s: Seq<char>, pat: Seq<char>, from: int)
    requires
        0 <= from,
    ensures
        find_sub_from(s, pat, from) matches Some(i) ==> from <= i && matches_at(s, pat, i),
    decreases s.len() + 1 - from,
{
    if from <= s.len() && !matches_at(s, pat, from) {
        lemma_first_at(s, pat, from + 1);
    }
}

} // verus!
