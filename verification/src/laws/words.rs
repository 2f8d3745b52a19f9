//! Text: what is put together comes apart again.
use vstd::prelude::*;

use crate::laws::html::lemma_find_on;
use crate::text::{
    decimal, digit_char, digit_value, digits_value, find_from, joined, lemma_find_from, lines_from,
    padded, pieces, pieces_from, skip_space, skip_space_back, text_lines, trimmed, uint_value,
    text_less, unicode_whitespace, without_return, without_trailing, skip_char_back,
};

verus! {

// --- Lines ------------------------------------------------------------------------

/// A line with its end: a line feed, or a carriage return and a line feed.
pub open spec fn ended(line: Seq<char>, with_return: bool) -> Seq<char> {
    if with_return {
        line + seq!['\r', '\n']
    } else {
        line + seq!['\n']
    }
}

/// Lines one after the other, each with its end.
pub open spec fn lined(lines: Seq<(Seq<char>, bool)>) -> Seq<char>
    decreases lines.len(),
{
    if lines.len() == 0 {
        Seq::empty()
    } else {
        ended(lines[0].0, lines[0].1) + lined(lines.drop_first())
    }
}

/// A line holds no line feed, and no carriage return at its end.
pub open spec fn is_line(line: Seq<char>) -> bool {
    !line.contains('\n') && (line.len() > 0 ==> line.last() != '\r')
}

proof fn lemma_lines_on(s: Seq<char>, k: int, i: int)
    requires
        0 <= k <= s.len(),
        0 <= i <= s.len() - k,
    ensures
        lines_from(s, k + i) == lines_from(s.subrange(k, s.len() as int), i),
    decreases s.len() - k - i,
{
    let rest = s.subrange(k, s.len() as int);
    if i < rest.len() {
        lemma_find_on(s, k, i, '\n');
        lemma_find_from(rest, i, '\n');
        match find_from(rest, i, '\n') {
            Some(j) => {
                assert(rest.subrange(i, j) =~= s.subrange(k + i, k + j));
                lemma_lines_on(s, k, j + 1);
            },
            None => {
                assert(rest.skip(i) =~= s.skip(k + i));
            },
        }
    }
}

proof fn lemma_first_line(line: Seq<char>, with_return: bool, rest: Seq<char>)
    requires
        is_line(line),
    ensures
        text_lines(ended(line, with_return) + rest) == seq![line] + text_lines(rest),
{
    let s = ended(line, with_return) + rest;
    let n = ended(line, with_return).len() as int;
    lemma_find_from(s, 0, '\n');
    assert(s[n - 1] == '\n');
    assert forall|j: int| 0 <= j < n - 1 implies s[j] != '\n' by {
        if j < line.len() {
            assert(s[j] == line[j]);
            assert(line.contains(line[j]));
        }
    }
    assert(find_from(s, 0, '\n') == Some(n - 1));
    let own = s.subrange(0, n - 1);
    if with_return {
        assert(own.drop_last() =~= line);
        assert(own.last() == '\r');
    } else {
        assert(own =~= line);
    }
    assert(without_return(own) =~= line);
    lemma_lines_on(s, n, 0);
    assert(s.subrange(n, s.len() as int) =~= rest);
}

/// The lines of a text are those that it was put together from, however they end.
pub proof fn law_lines_read_back(lines: Seq<(Seq<char>, bool)>)
    requires
        forall|i: int| 0 <= i < lines.len() ==> is_line((#[trigger] lines[i]).0),
    ensures
        text_lines(lined(lines)) == lines.map_values(|l: (Seq<char>, bool)| l.0),
    decreases lines.len(),
{
    let texts = lines.map_values(|l: (Seq<char>, bool)| l.0);
    if lines.len() > 0 {
        let rest = lines.drop_first();
        assert forall|i: int| 0 <= i < rest.len() implies is_line((#[trigger] rest[i]).0) by {
            assert(rest[i] == lines[i + 1]);
        }
        law_lines_read_back(rest);
        assert(is_line(lines[0].0));
        lemma_first_line(lines[0].0, lines[0].1, lined(rest));
        assert(seq![lines[0].0] + rest.map_values(|l: (Seq<char>, bool)| l.0) =~= texts);
    } else {
        assert(text_lines(lined(lines)) =~= texts);
    }
}

/// The end of the last line may be missing.
pub proof fn law_the_last_line_may_be_open(line: Seq<char>)
    requires
        line.len() > 0,
        !line.contains('\n'),
    ensures
        text_lines(line) == seq![line],
{
    lemma_find_from(line, 0, '\n');
    if let Some(i) = find_from(line, 0, '\n') {
        assert(line.contains(line[i]));
    }
    assert(line.skip(0) =~= line);
}

// --- Pieces -----------------------------------------------------------------------

proof fn lemma_pieces_on(s: Seq<char>, c: char, k: int, start: int, from: int)
    requires
        0 <= k <= s.len(),
        0 <= start <= from <= s.len() - k,
    ensures
        pieces_from(s, c, k + start, k + from) == pieces_from(
            s.subrange(k, s.len() as int),
            c,
            start,
            from,
        ),
    decreases s.len() - k - from,
{
    let rest = s.subrange(k, s.len() as int);
    if from < rest.len() {
        assert(rest[from] == s[k + from]);
        if rest[from] == c {
            assert(rest.subrange(start, from) =~= s.subrange(k + start, k + from));
            lemma_pieces_on(s, c, k, from + 1, from + 1);
        } else {
            lemma_pieces_on(s, c, k, start, from + 1);
        }
    } else {
        assert(rest.subrange(start, rest.len() as int) =~= s.subrange(k + start, s.len() as int));
    }
}

proof fn lemma_piece_runs(s: Seq<char>, c: char, from: int, end: int)
    requires
        0 <= from <= end <= s.len(),
        forall|j: int| from <= j < end ==> s[j] != c,
    ensures
        pieces_from(s, c, 0, from) == pieces_from(s, c, 0, end),
    decreases end - from,
{
    if from < end {
        lemma_piece_runs(s, c, from + 1, end);
    }
}

/// A part and a separator before a text are its first piece.
pub proof fn law_the_first_piece(part: Seq<char>, c: char, rest: Seq<char>)
    requires
        !part.contains(c),
    ensures
        pieces(part + seq![c] + rest, c) == seq![part] + pieces(rest, c),
        pieces(part, c) == seq![part],
{
    let s = part + seq![c] + rest;
    let n = part.len() as int;
    assert forall|j: int| 0 <= j < n implies s[j] != c && part[j] != c by {
        assert(s[j] == part[j]);
        assert(part.contains(part[j]));
    }
    lemma_piece_runs(s, c, 0, n);
    lemma_piece_runs(part, c, 0, n);
    assert(part.subrange(0, n) =~= part);
    assert(s[n] == c);
    assert(s.subrange(0, n) =~= part);
    lemma_pieces_on(s, c, n + 1, 0, 0);
    assert(s.subrange(n + 1, s.len() as int) =~= rest);
}

pub proof fn lemma_joined_first(parts: Seq<Seq<char>>, sep: Seq<char>)
    requires
        parts.len() > 1,
    ensures
        joined(parts, sep) == parts[0] + sep + joined(parts.drop_first(), sep),
    decreases parts.len(),
{
    if parts.len() == 2 {
        assert(parts.drop_last().len() == 1);
        assert(parts.drop_last()[0] == parts[0]);
        assert(parts.drop_first()[0] == parts[1]);
        assert(joined(parts.drop_last(), sep) == parts[0]);
        assert(joined(parts.drop_first(), sep) == parts[1]);
    } else {
        lemma_joined_first(parts.drop_last(), sep);
        assert(parts.drop_last().drop_first() =~= parts.drop_first().drop_last());
        assert(parts.drop_first().last() == parts.last());
        assert(joined(parts, sep) =~= parts[0] + sep + joined(parts.drop_first(), sep));
    }
}

/// Parts that are joined by a character come apart there.
pub proof fn law_pieces_read_back(parts: Seq<Seq<char>>, c: char)
    requires
        parts.len() > 0,
        forall|i: int| 0 <= i < parts.len() ==> !(#[trigger] parts[i]).contains(c),
    ensures
        pieces(joined(parts, seq![c]), c) == parts,
    decreases parts.len(),
{
    assert(!parts[0].contains(c));
    if parts.len() == 1 {
        law_the_first_piece(parts[0], c, Seq::empty());
        assert(seq![parts[0]] =~= parts);
    } else {
        let rest = parts.drop_first();
        assert forall|i: int| 0 <= i < rest.len() implies !(#[trigger] rest[i]).contains(c) by {
            assert(rest[i] == parts[i + 1]);
        }
        law_pieces_read_back(rest, c);
        lemma_joined_first(parts, seq![c]);
        law_the_first_piece(parts[0], c, joined(rest, seq![c]));
        assert(seq![parts[0]] + rest =~= parts);
    }
}

// --- Numbers ----------------------------------------------------------------------

pub proof fn lemma_digits_read_back(n: nat)
    ensures
        digits_value(decimal(n), 10) == Some(n),
        decimal(n).len() > 0,
        '0' <= decimal(n)[0] <= '9',
    decreases n,
{
    let s = decimal(n);
    if n < 10 {
        assert(s.drop_last() =~= Seq::empty());
        assert(digit_value(digit_char(n), 10) == Some(n));
        assert(digits_value(s.drop_last(), 10) == Some(0nat));
    } else {
        lemma_digits_read_back(n / 10);
        assert(s.drop_last() =~= decimal(n / 10));
        assert(digit_value(digit_char(n % 10), 10) == Some(n % 10));
        assert(s[0] == decimal(n / 10)[0]);
    }
}

/// A number reads as it was written.
pub proof fn law_numbers_read_back(n: nat, max: nat)
    requires
        n <= max,
    ensures
        uint_value(decimal(n), 10, max) == Some(n),
{
    lemma_digits_read_back(n);
}

// --- Spaces -----------------------------------------------------------------------

proof fn lemma_skip(s: Seq<char>, i: int, n: int)
    requires
        0 <= i <= n <= s.len(),
        forall|j: int| i <= j < n ==> unicode_whitespace(#[trigger] s[j]),
        n < s.len() ==> !unicode_whitespace(s[n]),
    ensures
        skip_space(s, i) == n,
    decreases n - i,
{
    if i < n {
        assert(unicode_whitespace(s[i]));
        lemma_skip(s, i + 1, n);
    }
}

proof fn lemma_skip_back(s: Seq<char>, lo: int, n: int, j: int)
    requires
        0 <= lo <= n <= j <= s.len(),
        forall|k: int| n <= k < j ==> unicode_whitespace(#[trigger] s[k]),
        lo < n ==> !unicode_whitespace(s[n - 1]),
    ensures
        skip_space_back(s, lo, j) == n,
    decreases j,
{
    if n < j {
        assert(unicode_whitespace(s[j - 1]));
        lemma_skip_back(s, lo, n, j - 1);
    }
}

/// Every character is whitespace.
pub open spec fn is_space(s: Seq<char>) -> bool {
    forall|i: int| 0 <= i < s.len() ==> unicode_whitespace(#[trigger] s[i])
}

/// Trimming takes away what whitespace stands around a text, and nothing else.
pub proof fn law_trimming(before: Seq<char>, s: Seq<char>, after: Seq<char>)
    requires
        is_space(before),
        is_space(after),
        s.len() > 0 ==> !unicode_whitespace(s[0]) && !unicode_whitespace(s.last()),
    ensures
        trimmed(before + s + after) == s,
{
    let all = before + s + after;
    let a = before.len() as int;
    let b = a + s.len();
    assert forall|j: int| 0 <= j < a implies unicode_whitespace(#[trigger] all[j]) by {
        assert(all[j] == before[j]);
    }
    assert forall|j: int| b <= j < all.len() implies unicode_whitespace(#[trigger] all[j]) by {
        assert(all[j] == after[j - b]);
    }
    if s.len() > 0 {
        assert(all[a] == s[0]);
        assert(all[b - 1] == s.last());
        lemma_skip(all, 0, a);
        lemma_skip_back(all, a, b, all.len() as int);
    } else {
        lemma_skip(all, 0, all.len() as int);
        assert(skip_space_back(all, all.len() as int, all.len() as int) == all.len());
    }
    assert(trimmed(all) =~= s);
}

proof fn lemma_skip_char_back(s: Seq<char>, c: char, n: int, j: int)
    requires
        0 <= n <= j <= s.len(),
        forall|k: int| n <= k < j ==> #[trigger] s[k] == c,
        0 < n ==> s[n - 1] != c,
    ensures
        skip_char_back(s, c, 0, j) == n,
    decreases j,
{
    if n < j {
        assert(s[j - 1] == c);
        lemma_skip_char_back(s, c, n, j - 1);
    }
}

/// What is cut off at the end of a text is every one of that character there.
pub proof fn law_trailing_characters(s: Seq<char>, c: char, n: nat)
    requires
        s.len() > 0 ==> s.last() != c,
    ensures
        without_trailing(s + Seq::new(n, |i: int| c), c) == s,
{
    let all = s + Seq::new(n, |i: int| c);
    if s.len() > 0 {
        assert(all[s.len() - 1] == s.last());
    }
    lemma_skip_char_back(all, c, s.len() as int, all.len() as int);
    assert(without_trailing(all, c) =~= s);
}

/// A padded text begins as it was, is followed by spaces only, and is at least as wide as
/// asked for.
pub proof fn law_padding(s: Seq<char>, w: nat)
    ensures
        padded(s, w).take(s.len() as int) == s,
        padded(s, w).len() == (if s.len() < w {
            w
        } else {
            s.len()
        }),
        forall|i: int| s.len() <= i < padded(s, w).len() ==> #[trigger] padded(s, w)[i] == ' ',
{
    assert(padded(s, w).take(s.len() as int) =~= s);
}

// --- Order ------------------------------------------------------------------------

/// Texts are ordered by the first character in which they differ, and a beginning comes
/// before what goes on.
pub proof fn law_texts_in_order(p: Seq<char>, a: char, b: char, s: Seq<char>, t: Seq<char>)
    ensures
        a < b ==> text_less(p + seq![a] + s, p + seq![b] + t),
        text_less(p, p + seq![b] + t),
        !text_less(p, p),
    decreases p.len(),
{
    let x = p + seq![a] + s;
    let y = p + seq![b] + t;
    if p.len() > 0 {
        let q = p.drop_first();
        law_texts_in_order(q, a, b, s, t);
        assert(p.subrange(1, p.len() as int) =~= q);
        assert(x.subrange(1, x.len() as int) =~= q + seq![a] + s);
        assert(y.subrange(1, y.len() as int) =~= q + seq![b] + t);
        assert(x[0] == p[0] && y[0] == p[0]);
    } else {
        assert(x[0] == a && y[0] == b);
    }
}

} // verus!
