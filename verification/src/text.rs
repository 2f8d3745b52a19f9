//! Strings as sequences of characters: the small vocabulary that every other
//! module is written in.
use vstd::prelude::*;
use vstd::string::StringSliceAdditionalSpecFns;
use vstd::utf8::*;

verus! {

// --- What std does with strings ---------------------------------------------------

/// `String::push` appends one character.
pub assume_specification[ String::push ](s: &mut String, c: char)
    ensures
        final(s)@ == old(s)@.push(c),
;

/// `String::push_str` appends the characters of its argument.
pub assume_specification[ String::push_str ](s: &mut String, t: &str)
    ensures
        final(s)@ == old(s)@ + t@,
;

/// Whether two strings hold the same characters: UTF-8 encodes different ones differently.
pub(crate) fn same(a: &str, b: &str) -> (r: bool)
    ensures
        r == (a@ == b@),
{
    let x = a.as_bytes();
    let y = b.as_bytes();
    if x.len() != y.len() {
        return false;
    }
    let mut i: usize = 0;
    while i < x.len()
        invariant
            i <= x@.len(),
            x@.len() == y@.len(),
            x@ == vstd::utf8::encode_utf8(a@),
            y@ == vstd::utf8::encode_utf8(b@),
            forall|k: int| 0 <= k < i ==> x@[k] == y@[k],
        decreases x@.len() - i,
    {
        if x[i] != y[i] {
            return false;
        }
        i = i + 1;
    }
    proof {
        assert(x@ =~= y@);
        vstd::utf8::encode_utf8_decode_utf8(a@);
        vstd::utf8::encode_utf8_decode_utf8(b@);
    }
    true
}

/// A letter or digit of ASCII.
pub open spec fn ascii_alphanumeric(c: char) -> bool {
    ('a' <= c <= 'z') || ('A' <= c <= 'Z') || ('0' <= c <= '9')
}

/// A character of ASCII.
pub open spec fn is_ascii_char(c: char) -> bool {
    (c as u32) < 128
}

/// What `char::is_alphanumeric` answers beyond ASCII: the Unicode properties behind it
/// are not restated here.
pub uninterp spec fn wide_alphanumeric(c: char) -> bool;

/// A letter or digit: in ASCII the usual ones, beyond it what Unicode says.
pub open spec fn unicode_alphanumeric(c: char) -> bool {
    if is_ascii_char(c) {
        ascii_alphanumeric(c)
    } else {
        wide_alphanumeric(c)
    }
}

/// `char::is_alphanumeric`, whose answer depends on the character alone: among the
/// characters of ASCII it is true of letters and digits.
#[verifier::external_body]
pub(crate) fn is_alphanumeric(c: char) -> (r: bool)
    ensures
        r == (if is_ascii_char(c) {
            ascii_alphanumeric(c)
        } else {
            wide_alphanumeric(c)
        }),
{
    c.is_alphanumeric()
}

/// The characters with the Unicode `White_Space` property.
pub open spec fn unicode_whitespace(c: char) -> bool {
    let u = c as u32;
    ||| 0x9 <= u <= 0xd
    ||| u == 0x20
    ||| u == 0x85
    ||| u == 0xa0
    ||| u == 0x1680
    ||| 0x2000 <= u <= 0x200a
    ||| u == 0x2028
    ||| u == 0x2029
    ||| u == 0x202f
    ||| u == 0x205f
    ||| u == 0x3000
}

/// Whether a character is white space.
pub(crate) fn is_whitespace(c: char) -> (r: bool)
    ensures
        r == unicode_whitespace(c),
{
    let u: u32 = c as u32;
    (0x9 <= u && u <= 0xd) || u == 0x20 || u == 0x85 || u == 0xa0 || u == 0x1680 || (0x2000 <= u && u
        <= 0x200a) || u == 0x2028 || u == 0x2029 || u == 0x202f || u == 0x205f || u == 0x3000
}

/// What `str::to_lowercase` returns for a string that is not all ASCII.
pub uninterp spec fn wide_lowercase(s: Seq<char>) -> Seq<char>;

/// Every character is one of ASCII.
pub open spec fn is_ascii_text(s: Seq<char>) -> bool {
    forall|i: int| 0 <= i < s.len() ==> is_ascii_char(#[trigger] s[i])
}

/// A character of ASCII in lower case.
pub open spec fn ascii_lower(c: char) -> char {
    if 'A' <= c <= 'Z' {
        ((c as u32) + 32) as char
    } else {
        c
    }
}

/// A text in lower case: in ASCII letter by letter, beyond it as Unicode says.
pub open spec fn unicode_lowercase(s: Seq<char>) -> Seq<char> {
    if is_ascii_text(s) {
        s.map_values(|c: char| ascii_lower(c))
    } else {
        wide_lowercase(s)
    }
}

/// `str::to_lowercase`, whose result depends on the characters alone: a text of ASCII
/// has its letters `A` to `Z` replaced by `a` to `z`. Every character becomes one or more,
/// so only an empty text becomes an empty one.
#[verifier::external_body]
pub(crate) fn to_lowercase(s: &str) -> (r: String)
    ensures
        r@ == (if is_ascii_text(s@) {
            s@.map_values(|c: char| ascii_lower(c))
        } else {
            wide_lowercase(s@)
        }),
        s@.len() > 0 ==> r@.len() > 0,
{
    s.to_lowercase()
}

/// What `String::from_utf8_lossy` reads from bytes: the text, with the replacement
/// character where they are no UTF-8.
pub uninterp spec fn lossy_text(bytes: Seq<u8>) -> Seq<char>;

/// `String::from_utf8_lossy`, whose result depends on the bytes alone.
#[verifier::external_body]
pub(crate) fn text_of_bytes(bytes: &[u8]) -> (r: String)
    ensures
        r@ == lossy_text(bytes@),
{
    String::from_utf8_lossy(bytes).into_owned()
}

/// `u` is the code of a character.
pub open spec fn is_char_code(u: u32) -> bool {
    u <= 0xd7ff || 0xe000 <= u <= 0x10ffff
}

/// `char::from_u32`: the character with this code, if there is one.
#[verifier::external_body]
pub(crate) fn char_of_code(u: u32) -> (r: Option<char>)
    ensures
        match r {
            Some(c) => is_char_code(u) && c as u32 == u,
            None => !is_char_code(u),
        },
{
    char::from_u32(u)
}

// --- Characters in and out --------------------------------------------------------

/// The characters of `s`, one element each.
pub fn chars_of(s: &str) -> (v: Vec<char>)
    ensures
        v@ == s@,
{
    let mut v: Vec<char> = Vec::new();
    for c in it: s.chars()
        invariant
            v@ == it.seq().take(it.index() as int),
            it.seq() == s@,
    {
        v.push(c);
        assert(it.seq().take(it.index() + 1) =~= it.seq().take(it.index() as int).push(c));
    }
    assert(s@.take(s@.len() as int) =~= s@);
    v
}

/// The characters `from..to` of `v` as a string.
pub fn slice_of(v: &Vec<char>, from: usize, to: usize) -> (s: String)
    requires
        from <= to <= v@.len(),
    ensures
        s@ == v@.subrange(from as int, to as int),
{
    let mut s = String::new();
    let mut i: usize = from;
    assert(v@.subrange(from as int, from as int) =~= Seq::<char>::empty());
    while i < to
        invariant
            from <= i <= to <= v@.len(),
            s@ == v@.subrange(from as int, i as int),
        decreases to - i,
    {
        s.push(v[i]);
        assert(v@.subrange(from as int, i as int).push(v@[i as int]) =~= v@.subrange(
            from as int,
            i + 1,
        ));
        i = i + 1;
    }
    s
}

/// A new string holding the characters of `s`.
pub fn owned(s: &str) -> (r: String)
    ensures
        r@ == s@,
{
    let mut r = String::new();
    r.push_str(s);
    assert(Seq::<char>::empty() + s@ =~= s@);
    r
}

/// `a` followed by `b`.
pub fn join2(a: &str, b: &str) -> (r: String)
    ensures
        r@ == a@ + b@,
{
    let mut r = owned(a);
    r.push_str(b);
    r
}

// --- Searching --------------------------------------------------------------------

/// The first position at or after `from` that holds `c`.
pub open spec fn find_from(s: Seq<char>, from: int, c: char) -> Option<int>
    decreases s.len() - from,
{
    if from < 0 || from >= s.len() {
        None
    } else if s[from] == c {
        Some(from)
    } else {
        find_from(s, from + 1, c)
    }
}

/// `find_from` names the first occurrence: nothing before it matches.
pub proof fn lemma_find_from(s: Seq<char>, from: int, c: char)
    requires
        0 <= from <= s.len(),
    ensures
        match find_from(s, from, c) {
            Some(i) => from <= i < s.len() && s[i] == c && (forall|j: int|
                from <= j < i ==> s[j] != c),
            None => forall|j: int| from <= j < s.len() ==> s[j] != c,
        },
    decreases s.len() - from,
{
    if from < s.len() && s[from] != c {
        lemma_find_from(s, from + 1, c);
    }
}

/// Position of the first `c` at or after `from`.
pub fn find_char(v: &Vec<char>, from: usize, c: char) -> (r: Option<usize>)
    requires
        from <= v@.len(),
    ensures
        match r {
            Some(i) => find_from(v@, from as int, c) == Some(i as int) && from <= i < v.len()
                && v@[i as int] == c,
            None => find_from(v@, from as int, c) is None,
        },
{
    let mut i: usize = from;
    while i < v.len()
        invariant
            from <= i <= v@.len(),
            find_from(v@, from as int, c) == find_from(v@, i as int, c),
        decreases v@.len() - i,
    {
        if v[i] == c {
            return Some(i);
        }
        i = i + 1;
    }
    None
}

/// `pat` stands in `s` at position `i`.
pub open spec fn matches_at(s: Seq<char>, pat: Seq<char>, i: int) -> bool {
    0 <= i && i + pat.len() <= s.len() && s.subrange(i, i + pat.len()) == pat
}

/// `s` begins with `pat`.
pub open spec fn begins_with(s: Seq<char>, pat: Seq<char>) -> bool {
    matches_at(s, pat, 0)
}

/// `s` ends with `pat`.
pub open spec fn finishes_with(s: Seq<char>, pat: Seq<char>) -> bool {
    matches_at(s, pat, s.len() - pat.len())
}

/// Whether `pat` stands in `v` at position `i`.
pub fn chars_match_at(v: &Vec<char>, pat: &Vec<char>, i: usize) -> (r: bool)
    requires
        i <= v@.len(),
    ensures
        r == matches_at(v@, pat@, i as int),
{
    if v.len() - i < pat.len() {
        return false;
    }
    let mut k: usize = 0;
    while k < pat.len()
        invariant
            k <= pat@.len(),
            i + pat@.len() <= v.len(),
            forall|j: int| 0 <= j < k ==> v@[i + j] == pat@[j],
        decreases pat@.len() - k,
    {
        if v[i + k] != pat[k] {
            assert(v@.subrange(i as int, i + pat@.len())[k as int] != pat@[k as int]);
            return false;
        }
        k = k + 1;
    }
    assert(v@.subrange(i as int, i + pat@.len()) =~= pat@);
    true
}

/// Whether `s` begins with `pat`.
pub fn starts_with(s: &str, pat: &str) -> (r: bool)
    ensures
        r == begins_with(s@, pat@),
{
    let v = chars_of(s);
    let p = chars_of(pat);
    chars_match_at(&v, &p, 0)
}

/// Whether `s` ends with `pat`.
pub fn ends_with(s: &str, pat: &str) -> (r: bool)
    ensures
        r == finishes_with(s@, pat@),
{
    let v = chars_of(s);
    let p = chars_of(pat);
    if v.len() < p.len() {
        return false;
    }
    chars_match_at(&v, &p, v.len() - p.len())
}

/// What is left of `s` after the prefix `pat`, if it has that prefix.
pub open spec fn after_prefix(s: Seq<char>, pat: Seq<char>) -> Option<Seq<char>> {
    if begins_with(s, pat) {
        Some(s.subrange(pat.len() as int, s.len() as int))
    } else {
        None
    }
}

/// What is left of `s` after the prefix `pat`.
pub fn strip_prefix(s: &str, pat: &str) -> (r: Option<String>)
    ensures
        match r {
            Some(t) => after_prefix(s@, pat@) == Some(t@),
            None => after_prefix(s@, pat@) is None,
        },
{
    let v = chars_of(s);
    let p = chars_of(pat);
    if chars_match_at(&v, &p, 0) {
        Some(slice_of(&v, p.len(), v.len()))
    } else {
        None
    }
}

/// The first position at or after `from` where `pat` stands in `s`.
pub open spec fn find_sub_from(s: Seq<char>, pat: Seq<char>, from: int) -> Option<int>
    decreases s.len() + 1 - from,
{
    if from < 0 || from > s.len() {
        None
    } else if matches_at(s, pat, from) {
        Some(from)
    } else {
        find_sub_from(s, pat, from + 1)
    }
}

/// Whether `pat` occurs anywhere in `s`.
pub open spec fn has_sub(s: Seq<char>, pat: Seq<char>) -> bool {
    find_sub_from(s, pat, 0) is Some
}

/// Position of the first `pat` at or after `from`.
pub fn find_chars(v: &Vec<char>, pat: &Vec<char>, from: usize) -> (r: Option<usize>)
    requires
        from <= v@.len(),
    ensures
        match r {
            Some(i) => find_sub_from(v@, pat@, from as int) == Some(i as int) && from <= i && i
                + pat@.len() <= v.len(),
            None => find_sub_from(v@, pat@, from as int) is None,
        },
{
    let mut i: usize = from;
    loop
        invariant
            from <= i <= v@.len(),
            find_sub_from(v@, pat@, from as int) == find_sub_from(v@, pat@, i as int),
        decreases v@.len() - i,
    {
        if chars_match_at(v, pat, i) {
            return Some(i);
        }
        if i == v.len() {
            assert(find_sub_from(v@, pat@, i + 1) is None);
            return None;
        }
        i = i + 1;
    }
}

/// Whether `pat` occurs anywhere in `s`.
pub fn contains(s: &str, pat: &str) -> (r: bool)
    ensures
        r == has_sub(s@, pat@),
{
    let v = chars_of(s);
    let p = chars_of(pat);
    match find_chars(&v, &p, 0) {
        Some(_) => true,
        None => false,
    }
}

// --- Trimming ---------------------------------------------------------------------

/// Where the leading whitespace of `s` from `i` on ends.
pub open spec fn skip_space(s: Seq<char>, i: int) -> int
    decreases s.len() - i,
{
    if 0 <= i < s.len() && unicode_whitespace(s[i]) {
        skip_space(s, i + 1)
    } else {
        i
    }
}

/// Where the trailing whitespace of `s` before `j` begins, not before `lo`.
pub open spec fn skip_space_back(s: Seq<char>, lo: int, j: int) -> int
    decreases j,
{
    if 0 <= lo < j <= s.len() && unicode_whitespace(s[j - 1]) {
        skip_space_back(s, lo, j - 1)
    } else {
        j
    }
}

/// `s` without the whitespace at its two ends.
pub open spec fn trimmed(s: Seq<char>) -> Seq<char> {
    let lo = skip_space(s, 0);
    s.subrange(lo, skip_space_back(s, lo, s.len() as int))
}

/// `s` without the whitespace at its two ends.
pub fn trim(s: &str) -> (r: String)
    ensures
        r@ == trimmed(s@),
{
    let v = chars_of(s);
    let mut lo: usize = 0;
    while lo < v.len() && is_whitespace(v[lo])
        invariant
            lo <= v@.len(),
            skip_space(v@, 0) == skip_space(v@, lo as int),
        decreases v@.len() - lo,
    {
        lo = lo + 1;
    }
    let mut hi: usize = v.len();
    while lo < hi && is_whitespace(v[hi - 1])
        invariant
            lo <= hi <= v@.len(),
            skip_space_back(v@, lo as int, v@.len() as int) == skip_space_back(
                v@,
                lo as int,
                hi as int,
            ),
        decreases hi,
    {
        hi = hi - 1;
    }
    slice_of(&v, lo, hi)
}

/// The first whitespace-free word at or after `i` that begins with `pat`, without
/// `pat`.
pub open spec fn word_after(s: Seq<char>, pat: Seq<char>, i: int) -> Option<Seq<char>>
    decreases s.len() - i,
{
    if i < 0 || i >= s.len() {
        None
    } else if unicode_whitespace(s[i]) {
        word_after(s, pat, i + 1)
    } else {
        let end = word_end(s, i);
        if end <= i || end > s.len() {
            None
        } else {
            match after_prefix(s.subrange(i, end), pat) {
                Some(rest) => Some(rest),
                None => word_after(s, pat, end),
            }
        }
    }
}

/// Where the run without whitespace from `i` on ends.
pub open spec fn word_end(s: Seq<char>, i: int) -> int
    decreases s.len() - i,
{
    if 0 <= i < s.len() && !unicode_whitespace(s[i]) {
        word_end(s, i + 1)
    } else {
        i
    }
}

/// The first whitespace-free word that begins with `pat`, without `pat`.
pub fn find_word_after(s: &str, pat: &str) -> (r: Option<String>)
    ensures
        match r {
            Some(t) => word_after(s@, pat@, 0) == Some(t@),
            None => word_after(s@, pat@, 0) is None,
        },
{
    let v = chars_of(s);
    let mut i: usize = 0;
    while i < v.len()
        invariant
            i <= v@.len(),
            v@ == s@,
            word_after(v@, pat@, 0) == word_after(v@, pat@, i as int),
        decreases v@.len() - i,
    {
        if is_whitespace(v[i]) {
            i = i + 1;
        } else {
            let mut end: usize = i + 1;
            while end < v.len() && !is_whitespace(v[end])
                invariant
                    i < end <= v@.len(),
                    word_end(v@, i as int) == word_end(v@, end as int),
                decreases v@.len() - end,
            {
                end = end + 1;
            }
            let word = slice_of(&v, i, end);
            if let Some(rest) = strip_prefix(word.as_str(), pat) {
                return Some(rest);
            }
            i = end;
        }
    }
    None
}

/// Where the run of `c` before `j` begins, not before `lo`.
pub open spec fn skip_char_back(s: Seq<char>, c: char, lo: int, j: int) -> int
    decreases j,
{
    if 0 <= lo < j <= s.len() && s[j - 1] == c {
        skip_char_back(s, c, lo, j - 1)
    } else {
        j
    }
}

/// Where the run of `c` from `i` on ends.
pub open spec fn skip_char(s: Seq<char>, c: char, i: int) -> int
    decreases s.len() - i,
{
    if 0 <= i < s.len() && s[i] == c {
        skip_char(s, c, i + 1)
    } else {
        i
    }
}

/// `s` without the `c` at its end.
pub open spec fn without_trailing(s: Seq<char>, c: char) -> Seq<char> {
    s.subrange(0, skip_char_back(s, c, 0, s.len() as int))
}

/// `s` without the `c` at its two ends.
pub open spec fn without_around(s: Seq<char>, c: char) -> Seq<char> {
    let lo = skip_char(s, c, 0);
    s.subrange(lo, skip_char_back(s, c, lo, s.len() as int))
}

/// `s` without the `c` at its end.
pub fn trim_end_char(s: &str, c: char) -> (r: String)
    ensures
        r@ == without_trailing(s@, c),
{
    let v = chars_of(s);
    let mut hi: usize = v.len();
    while 0 < hi && v[hi - 1] == c
        invariant
            hi <= v@.len(),
            skip_char_back(v@, c, 0, v@.len() as int) == skip_char_back(v@, c, 0, hi as int),
        decreases hi,
    {
        hi = hi - 1;
    }
    slice_of(&v, 0, hi)
}

/// `s` without the `c` at its two ends.
pub fn trim_char(s: &str, c: char) -> (r: String)
    ensures
        r@ == without_around(s@, c),
{
    let v = chars_of(s);
    let mut lo: usize = 0;
    while lo < v.len() && v[lo] == c
        invariant
            lo <= v@.len(),
            skip_char(v@, c, 0) == skip_char(v@, c, lo as int),
        decreases v@.len() - lo,
    {
        lo = lo + 1;
    }
    let mut hi: usize = v.len();
    while lo < hi && v[hi - 1] == c
        invariant
            lo <= hi <= v@.len(),
            skip_char_back(v@, c, lo as int, v@.len() as int) == skip_char_back(
                v@,
                c,
                lo as int,
                hi as int,
            ),
        decreases hi,
    {
        hi = hi - 1;
    }
    slice_of(&v, lo, hi)
}

/// `s` with every `a` turned into `b`.
pub open spec fn swapped(s: Seq<char>, a: char, b: char) -> Seq<char> {
    s.map_values(
        |c: char|
            if c == a {
                b
            } else {
                c
            },
    )
}

/// `s` with every `a` turned into `b`.
pub fn replace_char(s: &str, a: char, b: char) -> (r: String)
    ensures
        r@ == swapped(s@, a, b),
{
    let v = chars_of(s);
    let mut out = String::new();
    let mut i: usize = 0;
    assert(swapped(v@, a, b).take(0) =~= Seq::empty());
    while i < v.len()
        invariant
            i <= v@.len(),
            out@ == swapped(v@, a, b).take(i as int),
        decreases v@.len() - i,
    {
        if v[i] == a {
            out.push(b);
        } else {
            out.push(v[i]);
        }
        assert(out@ =~= swapped(v@, a, b).take(i + 1));
        i = i + 1;
    }
    assert(swapped(v@, a, b).take(v@.len() as int) =~= swapped(v@, a, b));
    out
}

// --- Splitting --------------------------------------------------------------------

/// Whether a list holds a string.
pub fn list_contains(v: &Vec<String>, s: &str) -> (r: bool)
    ensures
        r == strings_view(v@).contains(s@),
{
    let mut i: usize = 0;
    while i < v.len()
        invariant
            i <= v@.len(),
            forall|k: int| 0 <= k < i ==> (#[trigger] strings_view(v@)[k]) != s@,
        decreases v@.len() - i,
    {
        assert(strings_view(v@)[i as int] == v@[i as int]@);
        if same(v[i].as_str(), s) {
            return true;
        }
        i = i + 1;
    }
    assert(strings_view(v@).len() == v@.len());
    false
}

/// The pieces of `s` from `from` on between occurrences of `c`; `start` is where
/// the piece in hand began.
pub open spec fn pieces_from(s: Seq<char>, c: char, start: int, from: int) -> Seq<Seq<char>>
    decreases s.len() - from,
{
    if from < 0 || from >= s.len() {
        seq![s.subrange(start, s.len() as int)]
    } else if s[from] == c {
        seq![s.subrange(start, from)] + pieces_from(s, c, from + 1, from + 1)
    } else {
        pieces_from(s, c, start, from + 1)
    }
}

/// The pieces of `s` between occurrences of `c`: one more piece than there are
/// occurrences.
pub open spec fn pieces(s: Seq<char>, c: char) -> Seq<Seq<char>> {
    pieces_from(s, c, 0, 0)
}

/// Strings by their characters.
pub open spec fn strings_view(v: Seq<String>) -> Seq<Seq<char>> {
    v.map_values(|s: String| s@)
}

/// Appending to a list of strings appends to its view.
pub broadcast proof fn lemma_strings_view_push(v: Seq<String>, s: String)
    ensures
        #[trigger] strings_view(v.push(s)) == strings_view(v).push(s@),
{
    assert(strings_view(v.push(s)) =~= strings_view(v).push(s@));
}

/// The pieces of `s` between occurrences of `c`.
pub fn split_char(s: &str, c: char) -> (r: Vec<String>)
    ensures
        strings_view(r@) == pieces(s@, c),
{
    broadcast use lemma_strings_view_push;

    let v = chars_of(s);
    let mut out: Vec<String> = Vec::new();
    let mut start: usize = 0;
    let mut i: usize = 0;
    assert(strings_view(out@) =~= Seq::empty());
    assert(strings_view(out@) + pieces_from(v@, c, 0, 0) =~= pieces_from(v@, c, 0, 0));
    while i < v.len()
        invariant
            start <= i <= v@.len(),
            strings_view(out@) + pieces_from(v@, c, start as int, i as int) == pieces(v@, c),
        decreases v@.len() - i,
    {
        if v[i] == c {
            let ghost before = strings_view(out@);
            let piece = slice_of(&v, start, i);
            out.push(piece);
            assert(strings_view(out@) + pieces_from(v@, c, i + 1, i + 1) =~= before + (seq![
                v@.subrange(start as int, i as int),
            ] + pieces_from(v@, c, i + 1, i + 1)));
            start = i + 1;
        }
        i = i + 1;
    }
    let ghost before = strings_view(out@);
    let piece = slice_of(&v, start, v.len());
    out.push(piece);
    assert(strings_view(out@) =~= before + seq![v@.subrange(start as int, v@.len() as int)]);
    out
}

/// The pieces of `s` from `from` on between occurrences of `pat`, found from left to
/// right.
pub open spec fn pieces_by(s: Seq<char>, pat: Seq<char>, from: int) -> Seq<Seq<char>>
    decreases s.len() - from,
{
    match find_sub_from(s, pat, from) {
        Some(i) => if 0 <= from <= i && i + pat.len() <= s.len() && pat.len() > 0 {
            seq![s.subrange(from, i)] + pieces_by(s, pat, i + pat.len())
        } else {
            seq![s.subrange(from, s.len() as int)]
        },
        None => seq![s.subrange(from, s.len() as int)],
    }
}

/// The pieces of `s` between occurrences of `pat`.
pub fn split_str(s: &str, pat: &str) -> (r: Vec<String>)
    requires
        pat@.len() > 0,
    ensures
        strings_view(r@) == pieces_by(s@, pat@, 0),
{
    broadcast use lemma_strings_view_push;

    let v = chars_of(s);
    let p = chars_of(pat);
    let mut out: Vec<String> = Vec::new();
    let mut from: usize = 0;
    assert(strings_view(out@) + pieces_by(v@, p@, 0) =~= pieces_by(v@, p@, 0));
    loop
        invariant
            from <= v@.len(),
            p@.len() > 0,
            v@ == s@,
            p@ == pat@,
            strings_view(out@) + pieces_by(v@, p@, from as int) == pieces_by(v@, p@, 0),
        decreases v@.len() - from,
    {
        broadcast use lemma_strings_view_push;

        let ghost before = strings_view(out@);
        match find_chars(&v, &p, from) {
            Some(i) => {
                out.push(slice_of(&v, from, i));
                assert(strings_view(out@) + pieces_by(v@, p@, i + p@.len()) =~= before + (seq![
                    v@.subrange(from as int, i as int),
                ] + pieces_by(v@, p@, i + p@.len())));
                from = i + p.len();
            },
            None => {
                out.push(slice_of(&v, from, v.len()));
                assert(strings_view(out@) =~= before + seq![
                    v@.subrange(from as int, v@.len() as int),
                ]);
                return out;
            },
        }
    }
}

/// The last position before `to` that holds `c`.
pub open spec fn rfind_before(s: Seq<char>, to: int, c: char) -> Option<int>
    decreases to,
{
    if to <= 0 || to > s.len() {
        None
    } else if s[to - 1] == c {
        Some(to - 1)
    } else {
        rfind_before(s, to - 1, c)
    }
}

/// What follows the last `c` in `s`; all of `s` if there is none.
pub open spec fn after_last(s: Seq<char>, c: char) -> Seq<char> {
    match rfind_before(s, s.len() as int, c) {
        Some(i) => s.subrange(i + 1, s.len() as int),
        None => s,
    }
}

/// What follows the last `c` in `s`.
pub fn last_segment(s: &str, c: char) -> (r: String)
    ensures
        r@ == after_last(s@, c),
{
    let v = chars_of(s);
    let mut i: usize = v.len();
    while i > 0
        invariant
            i <= v@.len(),
            v@ == s@,
            rfind_before(v@, v@.len() as int, c) == rfind_before(v@, i as int, c),
        decreases i,
    {
        if v[i - 1] == c {
            return slice_of(&v, i, v.len());
        }
        i = i - 1;
    }
    owned(s)
}

// --- Building text ----------------------------------------------------------------

/// A character `n` times.
pub open spec fn repeated(c: char, n: nat) -> Seq<char> {
    Seq::new(n, |i: int| c)
}

/// A character `n` times.
pub fn repeat_char(c: char, n: usize) -> (r: String)
    ensures
        r@ == repeated(c, n as nat),
{
    let mut out = String::new();
    let mut i: usize = 0;
    while i < n
        invariant
            i <= n,
            out@ == repeated(c, i as nat),
        decreases n - i,
    {
        out.push(c);
        i = i + 1;
        assert(out@ =~= repeated(c, i as nat));
    }
    assert(out@ =~= repeated(c, n as nat));
    out
}

/// Text filled up with spaces on its right to a width in characters.
pub open spec fn padded(s: Seq<char>, w: nat) -> Seq<char> {
    if s.len() >= w {
        s
    } else {
        s + repeated(' ', (w - s.len()) as nat)
    }
}

/// Text filled up with spaces on its left to a width in characters.
pub open spec fn padded_left(s: Seq<char>, w: nat) -> Seq<char> {
    if s.len() >= w {
        s
    } else {
        repeated(' ', (w - s.len()) as nat) + s
    }
}

/// Text filled up with spaces on its right to a width in characters.
pub fn pad_right(s: &str, w: usize) -> (r: String)
    ensures
        r@ == padded(s@, w as nat),
{
    let n: usize = chars_of(s).len();
    if n >= w {
        owned(s)
    } else {
        let fill = repeat_char(' ', w - n);
        join2(s, fill.as_str())
    }
}

/// Text filled up with spaces on its left to a width in characters.
pub fn pad_left(s: &str, w: usize) -> (r: String)
    ensures
        r@ == padded_left(s@, w as nat),
{
    let n: usize = chars_of(s).len();
    if n >= w {
        owned(s)
    } else {
        let fill = repeat_char(' ', w - n);
        join2(fill.as_str(), s)
    }
}

/// Texts one after the other, a separator between them.
pub open spec fn joined(parts: Seq<Seq<char>>, sep: Seq<char>) -> Seq<char>
    decreases parts.len(),
{
    if parts.len() == 0 {
        Seq::empty()
    } else if parts.len() == 1 {
        parts[0]
    } else {
        joined(parts.drop_last(), sep) + sep + parts.last()
    }
}

/// Texts one after the other, a separator between them.
pub fn join(parts: &Vec<String>, sep: &str) -> (r: String)
    ensures
        r@ == joined(strings_view(parts@), sep@),
{
    let ghost all = strings_view(parts@);
    let mut out = String::new();
    let mut i: usize = 0;
    assert(all.take(0) =~= Seq::empty());
    while i < parts.len()
        invariant
            i <= parts@.len(),
            all == strings_view(parts@),
            out@ == joined(all.take(i as int), sep@),
        decreases parts@.len() - i,
    {
        if i > 0 {
            out.push_str(sep);
        }
        out.push_str(parts[i].as_str());
        assert(all.take(i + 1).drop_last() =~= all.take(i as int));
        assert(all.take(i + 1).last() == parts@[i as int]@);
        assert(out@ =~= joined(all.take(i + 1), sep@));
        i = i + 1;
    }
    assert(all.take(all.len() as int) =~= all);
    out
}

/// A line without the carriage return before its line feed.
pub open spec fn without_return(s: Seq<char>) -> Seq<char> {
    if s.len() > 0 && s.last() == '\r' {
        s.drop_last()
    } else {
        s
    }
}

/// The lines of a text from `start` on. A line ends with a line feed, or a carriage
/// return and a line feed; the end of the last one may be missing.
pub open spec fn lines_from(s: Seq<char>, start: int) -> Seq<Seq<char>>
    decreases s.len() - start,
{
    if start < 0 || start >= s.len() {
        Seq::empty()
    } else {
        match find_from(s, start, '\n') {
            Some(i) => if start <= i < s.len() {
                seq![without_return(s.subrange(start, i))] + lines_from(s, i + 1)
            } else {
                Seq::empty()
            },
            None => seq![s.skip(start)],
        }
    }
}

/// The lines of a text.
pub open spec fn text_lines(s: Seq<char>) -> Seq<Seq<char>> {
    lines_from(s, 0)
}

/// The lines of a text.
pub fn lines_of(s: &str) -> (r: Vec<String>)
    ensures
        strings_view(r@) == text_lines(s@),
{
    broadcast use lemma_strings_view_push;

    let v = chars_of(s);
    let mut out: Vec<String> = Vec::new();
    let mut start: usize = 0;
    while start < v.len()
        invariant
            start <= v@.len(),
            v@ == s@,
            strings_view(out@) + lines_from(v@, start as int) == text_lines(v@),
        decreases v@.len() - start,
    {
        broadcast use lemma_strings_view_push;

        let ghost before = strings_view(out@);
        proof {
            lemma_find_from(v@, start as int, '\n');
        }
        match find_char(&v, start, '\n') {
            Some(i) => {
                let end: usize = if i > start && v[i - 1] == '\r' {
                    i - 1
                } else {
                    i
                };
                let line = slice_of(&v, start, end);
                assert(line@ =~= without_return(v@.subrange(start as int, i as int)));
                out.push(line);
                assert(before + (seq![line@] + lines_from(v@, i + 1)) =~= before.push(line@)
                    + lines_from(v@, i + 1));
                start = i + 1;
            },
            None => {
                let line = slice_of(&v, start, v.len());
                assert(line@ =~= v@.skip(start as int));
                out.push(line);
                assert(before + seq![line@] =~= before.push(line@));
                assert(strings_view(out@) =~= text_lines(v@));
                return out;
            },
        }
    }
    assert(lines_from(v@, start as int) =~= Seq::empty());
    assert(strings_view(out@) =~= text_lines(v@));
    out
}

// --- Order ------------------------------------------------------------------------

/// `a` comes before `b` in the order of strings: character by character, a prefix
/// first. (Comparing UTF-8 byte by byte gives the same order.)
pub open spec fn text_less(a: Seq<char>, b: Seq<char>) -> bool
    decreases a.len(),
{
    if b.len() == 0 {
        false
    } else if a.len() == 0 {
        true
    } else if a[0] != b[0] {
        a[0] < b[0]
    } else {
        text_less(a.subrange(1, a.len() as int), b.subrange(1, b.len() as int))
    }
}

/// Of two strings, at most one comes before the other.
pub proof fn lemma_text_less_asym(a: Seq<char>, b: Seq<char>)
    ensures
        text_less(a, b) ==> !text_less(b, a),
    decreases a.len(),
{
    if a.len() > 0 && b.len() > 0 && a[0] == b[0] {
        lemma_text_less_asym(a.subrange(1, a.len() as int), b.subrange(1, b.len() as int));
    }
}

/// Not coming before is transitive.
pub proof fn lemma_text_not_less_trans(a: Seq<char>, b: Seq<char>, c: Seq<char>)
    requires
        !text_less(a, b),
        !text_less(b, c),
    ensures
        !text_less(a, c),
    decreases a.len(),
{
    if a.len() > 0 && b.len() > 0 && c.len() > 0 && a[0] == b[0] && b[0] == c[0] {
        lemma_text_not_less_trans(
            a.subrange(1, a.len() as int),
            b.subrange(1, b.len() as int),
            c.subrange(1, c.len() as int),
        );
    }
}

/// Whether `a` comes before `b`.
pub fn comes_before(a: &str, b: &str) -> (r: bool)
    ensures
        r == text_less(a@, b@),
{
    let x = chars_of(a);
    let y = chars_of(b);
    let mut i: usize = 0;
    assert(x@.subrange(0, x@.len() as int) =~= x@);
    assert(y@.subrange(0, y@.len() as int) =~= y@);
    while i < x.len() && i < y.len()
        invariant
            i <= x@.len(),
            i <= y@.len(),
            x@ == a@,
            y@ == b@,
            text_less(x@, y@) == text_less(
                x@.subrange(i as int, x@.len() as int),
                y@.subrange(i as int, y@.len() as int),
            ),
        decreases x@.len() - i,
    {
        let ghost xs = x@.subrange(i as int, x@.len() as int);
        let ghost ys = y@.subrange(i as int, y@.len() as int);
        if x[i] != y[i] {
            return x[i] < y[i];
        }
        assert(xs.subrange(1, xs.len() as int) =~= x@.subrange(i + 1, x@.len() as int));
        assert(ys.subrange(1, ys.len() as int) =~= y@.subrange(i + 1, y@.len() as int));
        i = i + 1;
    }
    i < y.len()
}

// --- Numbers ----------------------------------------------------------------------

/// The decimal digit `d`.
pub open spec fn digit_char(d: nat) -> char {
    (('0' as nat) + d) as char
}

/// `n` written in decimal.
pub open spec fn decimal(n: nat) -> Seq<char>
    decreases n,
{
    if n < 10 {
        seq![digit_char(n)]
    } else {
        decimal(n / 10).push(digit_char(n % 10))
    }
}

/// The character of a decimal digit.
fn digit_of(d: u64) -> (c: char)
    requires
        d < 10,
    ensures
        c == digit_char(d as nat),
{
    let b: u8 = 48 + d as u8;
    b as char
}

/// `n` written in decimal.
pub fn decimal_of(n: u64) -> (s: String)
    ensures
        s@ == decimal(n as nat),
    decreases n,
{
    if n < 10 {
        let mut s = String::new();
        s.push(digit_of(n));
        assert(Seq::<char>::empty().push(digit_char(n as nat)) =~= seq![digit_char(n as nat)]);
        s
    } else {
        let mut s = decimal_of(n / 10);
        s.push(digit_of(n % 10));
        s
    }
}

/// The lower-case hexadecimal digit `d`.
pub open spec fn hex_char(d: nat) -> char {
    if d < 10 {
        (('0' as nat) + d) as char
    } else {
        (('a' as nat) + (d - 10)) as char
    }
}

/// The last `n` hexadecimal digits of `h`.
pub open spec fn hex_digits(h: nat, n: nat) -> Seq<char>
    decreases n,
{
    if n == 0 {
        Seq::empty()
    } else {
        hex_digits(h / 16, (n - 1) as nat).push(hex_char(h % 16))
    }
}

/// The lower-case hexadecimal digit `d`.
pub fn hex_char_of(d: u64) -> (c: char)
    requires
        d < 16,
    ensures
        c == hex_char(d as nat),
{
    let b: u8 = if d < 10 {
        48 + d as u8
    } else {
        97 + (d - 10) as u8
    };
    b as char
}

/// The last `n` hexadecimal digits of `h`.
pub fn hex_of(h: u64, n: usize) -> (s: String)
    ensures
        s@ == hex_digits(h as nat, n as nat),
    decreases n,
{
    if n == 0 {
        String::new()
    } else {
        let mut s = hex_of(h / 16, n - 1);
        s.push(hex_char_of(h % 16));
        s
    }
}

/// As many digits as asked for, and each a hexadecimal digit.
pub proof fn lemma_hex_digits(h: nat, n: nat)
    ensures
        hex_digits(h, n).len() == n,
        forall|i: int|
            0 <= i < n ==> ('0' <= #[trigger] hex_digits(h, n)[i] <= '9' || 'a' <= hex_digits(
                h,
                n,
            )[i] <= 'f'),
    decreases n,
{
    if n > 0 {
        lemma_hex_digits(h / 16, (n - 1) as nat);
    }
}

/// The value of `c` as a digit in `radix` (at most sixteen).
pub open spec fn digit_value(c: char, radix: nat) -> Option<nat> {
    let d = if '0' <= c <= '9' {
        (c as nat - '0' as nat) as nat
    } else if 'a' <= c <= 'f' {
        (c as nat - 'a' as nat + 10) as nat
    } else if 'A' <= c <= 'F' {
        (c as nat - 'A' as nat + 10) as nat
    } else {
        16
    };
    if d < radix {
        Some(d)
    } else {
        None
    }
}

/// The value of a string of digits; the empty string is zero.
pub open spec fn digits_value(s: Seq<char>, radix: nat) -> Option<nat>
    decreases s.len(),
{
    if s.len() == 0 {
        Some(0)
    } else {
        match (digits_value(s.drop_last(), radix), digit_value(s.last(), radix)) {
            (Some(n), Some(d)) => Some(n * radix + d),
            _ => None,
        }
    }
}

/// The unsigned number that `s` spells: an optional `+`, then at least one digit, and
/// no more than `max`.
pub open spec fn uint_value(s: Seq<char>, radix: nat, max: nat) -> Option<nat> {
    let body = if s.len() > 0 && s[0] == '+' {
        s.subrange(1, s.len() as int)
    } else {
        s
    };
    if body.len() == 0 {
        None
    } else {
        match digits_value(body, radix) {
            Some(n) => if n <= max {
                Some(n)
            } else {
                None
            },
            None => None,
        }
    }
}

/// The value of `c` as a digit in `radix`.
pub fn digit_in(c: char, radix: u64) -> (r: Option<u64>)
    requires
        radix <= 16,
    ensures
        match r {
            Some(d) => digit_value(c, radix as nat) == Some(d as nat) && d < radix,
            None => digit_value(c, radix as nat) is None,
        },
{
    let code: u64 = c as u64;
    let d: u64 = if '0' <= c && c <= '9' {
        code - 48
    } else if 'a' <= c && c <= 'f' {
        code - 97 + 10
    } else if 'A' <= c && c <= 'F' {
        code - 65 + 10
    } else {
        16
    };
    if d < radix {
        Some(d)
    } else {
        None
    }
}

proof fn lemma_digits_grow(s: Seq<char>, i: int, radix: nat, max: nat)
    requires
        0 <= i <= s.len(),
        1 <= radix,
        digits_value(s.take(i), radix) matches Some(n) ==> n > max,
    ensures
        digits_value(s, radix) matches Some(n) ==> n > max,
    decreases s.len() - i,
{
    if i == s.len() {
        assert(s.take(i) =~= s);
    } else {
        assert(s.take(i + 1).drop_last() =~= s.take(i));
        if let Some(n) = digits_value(s.take(i), radix) {
            assert(n * radix >= n) by (nonlinear_arith)
                requires
                    radix >= 1,
            ;
        }
        lemma_digits_grow(s, i + 1, radix, max);
    }
}

/// The value of the digits `from..to` of `v`, if they are digits and it is no more
/// than `max`.
pub fn digits_of(v: &Vec<char>, from: usize, to: usize, radix: u64, max: u64) -> (r: Option<u64>)
    requires
        from <= to <= v@.len(),
        2 <= radix <= 16,
        max <= 0xffff_ffff,
    ensures
        match r {
            Some(n) => digits_value(v@.subrange(from as int, to as int), radix as nat) == Some(
                n as nat,
            ) && n <= max,
            None => digits_value(v@.subrange(from as int, to as int), radix as nat) matches Some(
                n,
            ) ==> n > max,
        },
{
    let ghost s = v@.subrange(from as int, to as int);
    let mut acc: u64 = 0;
    let mut i: usize = from;
    assert(s.take(0) =~= Seq::<char>::empty());
    while i < to
        invariant
            from <= i <= to <= v@.len(),
            s == v@.subrange(from as int, to as int),
            2 <= radix <= 16,
            acc <= max <= 0xffff_ffff,
            digits_value(s.take(i - from), radix as nat) == Some(acc as nat),
        decreases to - i,
    {
        assert(s.take(i - from + 1).drop_last() =~= s.take(i - from));
        assert(s.take(i - from + 1).last() == v@[i as int]);
        match digit_in(v[i], radix) {
            None => {
                proof {
                    lemma_digits_grow(s, i - from + 1, radix as nat, max as nat);
                }
                return None;
            },
            Some(d) => {
                assert(acc * radix <= 0xffff_ffff * 16) by (nonlinear_arith)
                    requires
                        acc <= 0xffff_ffff,
                        radix <= 16,
                ;
                let next: u64 = acc * radix + d;
                if next > max {
                    proof {
                        lemma_digits_grow(s, i - from + 1, radix as nat, max as nat);
                    }
                    return None;
                }
                acc = next;
            },
        }
        i = i + 1;
    }
    assert(s.take(to - from) =~= s);
    Some(acc)
}

/// The unsigned number that `from..to` of `v` spells.
pub fn uint_of(v: &Vec<char>, from: usize, to: usize, radix: u64, max: u64) -> (r: Option<u64>)
    requires
        from <= to <= v@.len(),
        2 <= radix <= 16,
        max <= 0xffff_ffff,
    ensures
        match r {
            Some(n) => uint_value(
                v@.subrange(from as int, to as int),
                radix as nat,
                max as nat,
            ) == Some(n as nat),
            None => uint_value(
                v@.subrange(from as int, to as int),
                radix as nat,
                max as nat,
            ) is None,
        },
{
    let start: usize = if from < to && v[from] == '+' {
        from + 1
    } else {
        from
    };
    proof {
        let s = v@.subrange(from as int, to as int);
        if from < to && v@[from as int] == '+' {
            assert(s.subrange(1, s.len() as int) =~= v@.subrange(start as int, to as int));
        }
    }
    if start == to {
        return None;
    }
    digits_of(v, start, to, radix, max)
}

// --- Byte offsets -----------------------------------------------------------------

/// The length of `s` in bytes of UTF-8.
pub open spec fn byte_len(s: Seq<char>) -> int {
    encode_utf8(s).len() as int
}

/// Byte offset `i` of `s` falls between characters.
pub open spec fn at_boundary(s: Seq<char>, i: int) -> bool {
    is_char_boundary(encode_utf8(s), i)
}

/// The characters of `s` in the byte range `a..b`.
pub open spec fn byte_slice(s: Seq<char>, a: int, b: int) -> Seq<char> {
    decode_utf8(encode_utf8(s).subrange(a, b))
}

/// A boundary of `s` is a boundary of the part of `s` up to a later boundary.
proof fn lemma_boundary_in_prefix(s: Seq<char>, a: int, b: int)
    requires
        0 <= a <= b <= byte_len(s),
        at_boundary(s, a),
        at_boundary(s, b),
    ensures
        valid_utf8(encode_utf8(s).subrange(0, b)),
        is_char_boundary(encode_utf8(s).subrange(0, b), a),
{
    let bytes = encode_utf8(s);
    encode_utf8_valid_utf8(s);
    valid_utf8_split(bytes, b);
    let head = bytes.subrange(0, b);
    if a == b {
        is_char_boundary_start_end_of_seq(head);
    } else {
        is_char_boundary_iff_not_is_continuation_byte(bytes, a);
        is_char_boundary_iff_not_is_continuation_byte(head, a);
    }
}

/// Two adjoining byte ranges hold what the range that spans them holds.
pub proof fn lemma_byte_slices_join(s: Seq<char>, a: int, m: int, b: int)
    requires
        0 <= a <= m <= b <= byte_len(s),
        at_boundary(s, a),
        at_boundary(s, m),
        at_boundary(s, b),
    ensures
        byte_slice(s, a, m) + byte_slice(s, m, b) == byte_slice(s, a, b),
{
    let bytes = encode_utf8(s);
    lemma_boundary_in_prefix(s, a, b);
    let head = bytes.subrange(0, b);
    valid_utf8_split(head, a);
    let span = head.subrange(a, b);
    assert(span =~= bytes.subrange(a, b));
    assert(is_char_boundary(span, m - a)) by {
        if m == b {
            is_char_boundary_start_end_of_seq(span);
        } else {
            encode_utf8_valid_utf8(s);
            is_char_boundary_iff_not_is_continuation_byte(bytes, m);
            is_char_boundary_iff_not_is_continuation_byte(span, m - a);
        }
    }
    decode_utf8_split(span, m - a);
    assert(span.subrange(0, m - a) =~= bytes.subrange(a, m));
    assert(span.subrange(m - a, b - a) =~= bytes.subrange(m, b));
}

/// The whole byte range holds the whole string, and an empty range nothing.
pub proof fn lemma_byte_slice_ends(s: Seq<char>, a: int)
    requires
        0 <= a <= byte_len(s),
    ensures
        at_boundary(s, 0),
        at_boundary(s, byte_len(s)),
        byte_slice(s, 0, byte_len(s)) == s,
        byte_slice(s, a, a) == Seq::<char>::empty(),
{
    let bytes = encode_utf8(s);
    encode_utf8_valid_utf8(s);
    encode_utf8_decode_utf8(s);
    is_char_boundary_start_end_of_seq(bytes);
    assert(bytes.subrange(0, bytes.len() as int) =~= bytes);
    assert(bytes.subrange(a, a) =~= Seq::<u8>::empty());
}

/// A text has a boundary at its start.
pub proof fn lemma_boundary_at_start(s: Seq<char>)
    ensures
        at_boundary(s, 0),
{
    encode_utf8_valid_utf8(s);
    is_char_boundary_start_end_of_seq(encode_utf8(s));
}

/// The length of `s` in bytes.
pub fn byte_count(s: &str) -> (n: usize)
    ensures
        n == byte_len(s@),
{
    s.as_bytes().len()
}

/// The characters of `s` in the byte range `a..b`.
pub fn slice_bytes(s: &str, a: usize, b: usize) -> (r: String)
    requires
        a <= b <= byte_len(s@),
        at_boundary(s@, a as int),
        at_boundary(s@, b as int),
    ensures
        r@ == byte_slice(s@, a as int, b as int),
{
    let (head, _) = s.split_at(b);
    proof {
        lemma_boundary_in_prefix(s@, a as int, b as int);
    }
    let (_, part) = head.split_at(a);
    proof {
        encode_utf8_decode_utf8(part@);
        assert(part.spec_bytes() =~= encode_utf8(s@).subrange(a as int, b as int));
    }
    owned(part)
}

} // verus!
