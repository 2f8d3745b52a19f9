//! Sessions: who is signed in, what is kept of it, and what a server's replies say.
use vstd::prelude::*;

use crate::account::SpecAccount;
use crate::auth::{
    accepted, alive, refusal, restore_step_is, txt_of, txt_records_of, txts_among, RestoreStep,
    SpecReturn, SpecSnapshot, AUTH_SCHEMA,
};
use crate::auth_provider::{ascii_space, ascii_word_end, ascii_words};
use crate::browser::{header_of, headers_of};
use crate::json::{member_from, SpecJson};
use crate::laws::accounts::lemma_cut;
use crate::laws::records::{lemma_member_push, put, Members};
use crate::laws::repositories::{answer, dns_reply, lemma_unquoted};
use crate::laws::words::{is_space, law_trimming};
use crate::text::{text_less, unicode_whitespace};

verus! {

// --- Who is signed in -------------------------------------------------------------

proof fn lemma_order_is_total(a: Seq<char>, b: Seq<char>)
    requires
        !text_less(a, b),
        !text_less(b, a),
    ensures
        a == b,
    decreases a.len(),
{
    if a.len() > 0 && b.len() > 0 {
        let x = a.subrange(1, a.len() as int);
        let y = b.subrange(1, b.len() as int);
        lemma_order_is_total(x, y);
        assert(a =~= seq![a[0]] + x);
        assert(b =~= seq![b[0]] + y);
    } else {
        assert(a =~= b);
    }
}

/// There is one answer to who is signed in: the account that is kept, and without one the
/// session that comes first.
pub proof fn law_one_account_is_signed_in(
    s: SpecSnapshot,
    a: Option<SpecAccount>,
    b: Option<SpecAccount>,
)
    requires
        s.has_account(a),
        s.has_account(b),
    ensures
        a == b,
        s.account is Some ==> a == s.account,
        a is None <==> s.account is None && (forall|k: Seq<char>|
            !(#[trigger] s.sessions.dom().contains(k))),
{
    match (a, b) {
        (Some(x), Some(y)) => {
            if s.account is None {
                assert(s.sessions.dom().contains(x.did));
                assert(s.sessions.dom().contains(y.did));
                lemma_order_is_total(x.did, y.did);
            }
        },
        (Some(x), None) => {
            assert(s.sessions.dom().contains(x.did));
        },
        (None, Some(y)) => {
            assert(s.sessions.dom().contains(y.did));
        },
        (None, None) => {},
    }
}

/// What was kept is there again: the account, the sessions, and each sign-in that is still
/// good; what another version kept is not.
pub proof fn law_sessions_are_kept(s: SpecSnapshot, now: u64, key: Seq<char>)
    ensures
        s.schema == AUTH_SCHEMA ==> accepted(Some(s), now).account == s.account && accepted(
            Some(s),
            now,
        ).sessions == s.sessions && (accepted(Some(s), now).states.dom().contains(key)
            <==> s.states.dom().contains(key) && alive(s.states[key].created_at_ms, now)),
        s.schema != AUTH_SCHEMA ==> accepted(Some(s), now) == accepted(None, now),
        accepted(None, now).account is None,
        !accepted(None, now).sessions.dom().contains(key),
        !accepted(None, now).states.dom().contains(key),
{
}

/// A sign-in that comes back is gone on with before anything that is kept, and one that was
/// refused is given up with the server's words.
pub proof fn law_a_return_comes_first(
    callback: SpecReturn,
    kept: SpecSnapshot,
    step: RestoreStep,
)
    requires
        restore_step_is(Some(callback), kept, step),
    ensures
        callback matches SpecReturn::Success(p) ==> (step matches RestoreStep::Exchange(q) && q@
            == p),
        callback matches SpecReturn::Error { state, error, description } ==> (
        step matches RestoreStep::Fail { discard, message } && crate::model::opt_view(discard)
            == state && message@.take(error.len() as int) == error),
{
    if let SpecReturn::Error { state, error, description } = callback {
        assert(refusal(error, description).take(error.len() as int) =~= error);
    }
}

// --- Replies ----------------------------------------------------------------------

/// The text records of a DNS reply are its answers without their quotes, in order.
pub proof fn law_text_records_are_read(texts: Seq<Seq<char>>, quotes: nat)
    requires
        forall|i: int|
            0 <= i < texts.len() ==> (#[trigger] texts[i]).len() > 0 && texts[i][0] != '"'
                && texts[i].last() != '"',
    ensures
        ({
            let q = Seq::new(quotes, |i: int| '"');
            txt_records_of(dns_reply(texts.map_values(|t: Seq<char>| q + t + q))) == texts
        }),
{
    broadcast use lemma_member_push;

    let q = Seq::new(quotes, |i: int| '"');
    let data = texts.map_values(|t: Seq<char>| q + t + q);
    let all = data.map_values(|d: Seq<char>| answer(d));
    let m: Members = Seq::empty().push(("Answer"@, SpecJson::Array(all)));
    assert(member_from(m, "Answer"@, 0) == Some(SpecJson::Array(all)));
    lemma_texts(texts, quotes, all, texts.len() as int);
    assert(texts.take(texts.len() as int) =~= texts);
}

proof fn lemma_texts(texts: Seq<Seq<char>>, quotes: nat, all: Seq<SpecJson>, n: int)
    requires
        0 <= n <= texts.len(),
        all.len() == texts.len(),
        forall|i: int|
            0 <= i < texts.len() ==> (#[trigger] texts[i]).len() > 0 && texts[i][0] != '"'
                && texts[i].last() != '"',
        forall|i: int|
            0 <= i < all.len() ==> #[trigger] all[i] == answer(
                Seq::new(quotes, |i: int| '"') + texts[i] + Seq::new(quotes, |i: int| '"'),
            ),
    ensures
        txts_among(all, n) == texts.take(n),
    decreases n,
{
    broadcast use lemma_member_push;

    if n > 0 {
        lemma_texts(texts, quotes, all, n - 1);
        let q = Seq::new(quotes, |i: int| '"');
        let t = texts[n - 1];
        lemma_unquoted(t, quotes);
        let one = put(Seq::empty(), "data"@, q + t + q);
        assert(member_from(one, "data"@, 0) == Some(SpecJson::Str(q + t + q)));
        assert(all[n - 1] == answer(q + t + q));
        assert(txt_of(all[n - 1]) == Some(t));
        assert(texts.take(n) =~= texts.take(n - 1).push(t));
    } else {
        assert(texts.take(0) =~= Seq::empty());
    }
}

/// A header's line gives its name and its value, whatever space stands around the colon.
pub proof fn law_a_header_is_read(
    name: Seq<char>,
    value: Seq<char>,
    a: Seq<char>,
    b: Seq<char>,
    c: Seq<char>,
    d: Seq<char>,
)
    requires
        is_space(a),
        is_space(b),
        is_space(c),
        is_space(d),
        name.len() > 0 ==> !unicode_whitespace(name[0]) && !unicode_whitespace(name.last()),
        value.len() > 0 ==> !unicode_whitespace(value[0]) && !unicode_whitespace(value.last()),
        !name.contains(':'),
    ensures
        header_of((a + name + b) + seq![':'] + (c + value + d)) == Some((name, value)),
{
    let left = a + name + b;
    assert forall|i: int| 0 <= i < left.len() implies left[i] != ':' by {
        if i < a.len() {
            assert(left[i] == a[i]);
        } else if i < a.len() + name.len() {
            assert(left[i] == name[i - a.len()]);
            assert(name.contains(name[i - a.len()]));
        } else {
            assert(left[i] == b[i - a.len() - name.len()]);
        }
    }
    lemma_cut(left, ':', c + value + d);
    law_trimming(a, name, b);
    law_trimming(c, value, d);
}

/// Headers are read line by line, and a line that is none is passed over.
pub proof fn law_headers_are_read_in_order(lines: Seq<Seq<char>>)
    ensures
        headers_of(lines) == lines.filter_map(|l: Seq<char>| header_of(l)),
    decreases lines.len(),
{
    let all = lines.filter_map(|l: Seq<char>| header_of(l));
    if lines.len() > 0 {
        law_headers_are_read_in_order(lines.drop_last());
        let before = headers_of(lines.drop_last());
        match header_of(lines.last()) {
            Some(h) => {
                assert(before.push(h) =~= before + seq![h]);
            },
            None => {},
        }
    } else {
        assert(headers_of(lines) =~= all);
    }
}

// --- Scopes -----------------------------------------------------------------------

/// A word: something, without white space.
pub open spec fn is_word(w: Seq<char>) -> bool {
    w.len() > 0 && (forall|i: int| 0 <= i < w.len() ==> !ascii_space(#[trigger] w[i]))
}

/// Words with a space behind each.
pub open spec fn worded(words: Seq<Seq<char>>) -> Seq<char>
    decreases words.len(),
{
    if words.len() == 0 {
        Seq::empty()
    } else {
        words[0] + seq![' '] + worded(words.drop_first())
    }
}

proof fn lemma_end(s: Seq<char>, i: int, n: int)
    requires
        0 <= i <= n < s.len(),
        forall|k: int| i <= k < n ==> !ascii_space(#[trigger] s[k]),
        ascii_space(s[n]),
    ensures
        ascii_word_end(s, i) == n,
    decreases n - i,
{
    if i < n {
        assert(!ascii_space(s[i]));
        lemma_end(s, i + 1, n);
    }
}

proof fn lemma_end_on(s: Seq<char>, k: int, i: int)
    requires
        0 <= k <= s.len(),
        0 <= i <= s.len() - k,
    ensures
        ascii_word_end(s, k + i) == k + ascii_word_end(s.subrange(k, s.len() as int), i),
        i <= ascii_word_end(s.subrange(k, s.len() as int), i) <= s.len() - k,
    decreases s.len() - k - i,
{
    let rest = s.subrange(k, s.len() as int);
    if i < rest.len() {
        assert(rest[i] == s[k + i]);
        if !ascii_space(rest[i]) {
            lemma_end_on(s, k, i + 1);
        }
    }
}

proof fn lemma_words_on(s: Seq<char>, k: int, i: int)
    requires
        0 <= k <= s.len(),
        0 <= i <= s.len() - k,
    ensures
        ascii_words(s, k + i) == ascii_words(s.subrange(k, s.len() as int), i),
    decreases s.len() - k - i,
{
    let rest = s.subrange(k, s.len() as int);
    if i < rest.len() {
        assert(rest[i] == s[k + i]);
        if ascii_space(rest[i]) {
            lemma_words_on(s, k, i + 1);
        } else {
            lemma_end_on(s, k, i);
            lemma_end_on(s, k, i + 1);
            let end = ascii_word_end(rest, i);
            assert(end == ascii_word_end(rest, i + 1));
            assert(rest.subrange(i, end) =~= s.subrange(k + i, k + end));
            lemma_words_on(s, k, end);
        }
    }
}

/// The words of a grant are those that it was put together from.
pub proof fn law_scopes_are_read(words: Seq<Seq<char>>)
    requires
        forall|i: int| 0 <= i < words.len() ==> is_word(#[trigger] words[i]),
    ensures
        ascii_words(worded(words), 0) == words,
    decreases words.len(),
{
    let s = worded(words);
    if words.len() > 0 {
        let w = words[0];
        let n = w.len() as int;
        let rest = words.drop_first();
        assert(is_word(w));
        assert forall|i: int| 0 <= i < rest.len() implies is_word(#[trigger] rest[i]) by {
            assert(rest[i] == words[i + 1]);
        }
        law_scopes_are_read(rest);
        assert(s[n] == ' ');
        assert forall|k: int| 0 <= k < n implies !ascii_space(#[trigger] s[k]) by {
            assert(s[k] == w[k]);
        }
        assert(!ascii_space(s[0]));
        lemma_end(s, 0, n);
        assert(s.subrange(0, n) =~= w);
        lemma_words_on(s, n + 1, 0);
        assert(s.subrange(n + 1, s.len() as int) =~= worded(rest));
        assert(ascii_words(s, n) == ascii_words(s, n + 1));
        assert(seq![w] + rest =~= words);
    } else {
        assert(ascii_words(s, 0) =~= words);
    }
}

} // verus!
