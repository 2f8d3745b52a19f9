//! The palette's filter, and the address of a post.
use vstd::prelude::*;

use crate::text::{
    ascii_lower, begins_with, chars_of, is_whitespace, starts_with, trim_end_char,
    unicode_whitespace, without_trailing,
};

verus! {

fn to_ascii_lower(c: char) -> (r: char)
    ensures
        r == ascii_lower(c),
{
    if 'A' <= c && c <= 'Z' {
        let b: u8 = c as u8;
        (b + 32) as char
    } else {
        c
    }
}

/// The characters of a query that count: no white space, in small letters.
pub open spec fn query_chars(s: Seq<char>) -> Seq<char>
    decreases s.len(),
{
    if s.len() == 0 {
        Seq::empty()
    } else if unicode_whitespace(s.last()) {
        query_chars(s.drop_last())
    } else {
        query_chars(s.drop_last()).push(ascii_lower(s.last()))
    }
}

/// `q` from `i` on occurs in `c` from `j` on, in order but with gaps, whatever the case
/// of ASCII letters in `c`.
pub open spec fn subsequence(q: Seq<char>, i: int, c: Seq<char>, j: int) -> bool
    decreases c.len() - j,
{
    if i < 0 || i >= q.len() {
        true
    } else if j < 0 || j >= c.len() {
        false
    } else if ascii_lower(c[j]) == q[i] {
        subsequence(q, i + 1, c, j + 1)
    } else {
        subsequence(q, i, c, j + 1)
    }
}

/// The palette's filter accepts a candidate.
pub open spec fn fuzzy_match(query: Seq<char>, candidate: Seq<char>) -> bool {
    subsequence(query_chars(query), 0, candidate, 0)
}

/// Case-insensitive match of the query's characters, in order, with gaps.
pub fn fuzzy(query: &str, candidate: &str) -> (r: bool)
    ensures
        r == fuzzy_match(query@, candidate@),
{
    let raw = chars_of(query);
    let mut q: Vec<char> = Vec::new();
    let mut k: usize = 0;
    assert(query@.take(0) =~= Seq::empty());
    while k < raw.len()
        invariant
            k <= raw@.len(),
            raw@ == query@,
            q@ == query_chars(query@.take(k as int)),
        decreases raw@.len() - k,
    {
        assert(query@.take(k + 1).drop_last() =~= query@.take(k as int));
        if !is_whitespace(raw[k]) {
            q.push(to_ascii_lower(raw[k]));
        }
        k = k + 1;
    }
    assert(query@.take(query@.len() as int) =~= query@);
    let c = chars_of(candidate);
    let mut i: usize = 0;
    let mut j: usize = 0;
    while i < q.len() && j < c.len()
        invariant
            i <= q@.len(),
            j <= c@.len(),
            fuzzy_match(query@, candidate@) == subsequence(q@, i as int, c@, j as int),
        decreases c@.len() - j,
    {
        if to_ascii_lower(c[j]) == q[i] {
            i = i + 1;
        }
        j = j + 1;
    }
    i >= q.len()
}

proof fn lemma_subsequence_is_an_embedding(q: Seq<char>, i: int, c: Seq<char>, j: int, at: Seq<int>)
    requires
        0 <= i <= q.len(),
        0 <= j <= c.len(),
        at.len() == q.len(),
        forall|k: int| i <= k < q.len() ==> j <= #[trigger] at[k] < c.len() && ascii_lower(c[at[k]])
            == q[k],
        forall|k: int, l: int| i <= k < l < q.len() ==> at[k] < at[l],
    ensures
        subsequence(q, i, c, j),
    decreases c.len() - j,
{
    if i < q.len() {
        assert(j <= at[i]);
        if ascii_lower(c[j]) == q[i] {
            assert forall|k: int| i + 1 <= k < q.len() implies j + 1 <= #[trigger] at[k]
                < c.len() && ascii_lower(c[at[k]]) == q[k] by {
                assert(at[i] < at[k]);
            }
            lemma_subsequence_is_an_embedding(q, i + 1, c, j + 1, at);
        } else {
            assert(at[i] != j);
            assert forall|k: int| i <= k < q.len() implies j + 1 <= #[trigger] at[k] < c.len()
                && ascii_lower(c[at[k]]) == q[k] by {
                if k > i {
                    assert(at[i] < at[k]);
                }
            }
            lemma_subsequence_is_an_embedding(q, i, c, j + 1, at);
        }
    }
}

/// `at` are places in `c`, from left to right, where the characters of `q` stand.
pub open spec fn is_embedding(q: Seq<char>, c: Seq<char>, at: Seq<int>) -> bool {
    &&& at.len() == q.len()
    &&& forall|k: int|
        0 <= k < at.len() ==> 0 <= #[trigger] at[k] < c.len() && ascii_lower(c[at[k]]) == q[k]
    &&& forall|k: int, l: int| 0 <= k < l < at.len() ==> at[k] < at[l]
}

/// The places where the characters of `q` from `i` on stand first.
proof fn lemma_places_of(q: Seq<char>, i: int, c: Seq<char>, j: int) -> (at: Seq<int>)
    requires
        0 <= i <= q.len(),
        0 <= j <= c.len(),
        subsequence(q, i, c, j),
    ensures
        at.len() == q.len() - i,
        forall|k: int|
            0 <= k < at.len() ==> j <= #[trigger] at[k] < c.len() && ascii_lower(c[at[k]]) == q[i
                + k],
        forall|k: int, l: int| 0 <= k < l < at.len() ==> at[k] < at[l],
    decreases c.len() - j,
{
    if i >= q.len() {
        Seq::empty()
    } else if ascii_lower(c[j]) == q[i] {
        let rest = lemma_places_of(q, i + 1, c, j + 1);
        let at = seq![j] + rest;
        assert forall|k: int| 0 <= k < at.len() implies j <= #[trigger] at[k] < c.len()
            && ascii_lower(c[at[k]]) == q[i + k] by {
            if k > 0 {
                assert(at[k] == rest[k - 1]);
            }
        }
        assert forall|k: int, l: int| 0 <= k < l < at.len() implies at[k] < at[l] by {
            assert(at[l] == rest[l - 1]);
            if k > 0 {
                assert(at[k] == rest[k - 1]);
            }
        }
        at
    } else {
        lemma_places_of(q, i, c, j + 1)
    }
}

/// The filter accepts a candidate exactly if the query's characters occur in it in order.
pub proof fn law_fuzzy_finds_every_embedding(query: Seq<char>, candidate: Seq<char>)
    ensures
        fuzzy_match(query, candidate) <==> exists|at: Seq<int>|
            is_embedding(query_chars(query), candidate, at),
{
    let q = query_chars(query);
    if fuzzy_match(query, candidate) {
        let at = lemma_places_of(q, 0, candidate, 0);
        assert(is_embedding(q, candidate, at));
    }
    if exists|at: Seq<int>| is_embedding(q, candidate, at) {
        let at = choose|at: Seq<int>| is_embedding(q, candidate, at);
        lemma_subsequence_is_an_embedding(q, 0, candidate, 0, at);
    }
}

/// A publication's address joined with a path: one slash between them.
pub open spec fn joined_url(base: Seq<char>, path: Seq<char>) -> Seq<char> {
    if begins_with(path, "/"@) {
        without_trailing(base, '/') + path
    } else {
        without_trailing(base, '/') + "/"@ + path
    }
}

/// Join a publication's address with a document's path.
pub fn web_url(base: &str, path: &str) -> (r: String)
    ensures
        r@ == joined_url(base@, path@),
{
    let mut out = trim_end_char(base, '/');
    if !starts_with(path, "/") {
        out.push_str("/");
    }
    out.push_str(path);
    out
}

} // verus!
