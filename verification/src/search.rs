//! A tiny inverted index over plaintext: tokenize, map each term to document
//! ids, intersect.
use vstd::prelude::*;
use std::collections::BTreeSet;

use crate::text::{
    ascii_lower, chars_of, is_alphanumeric, is_ascii_char, is_ascii_text, lemma_strings_view_push,
    same, slice_of, strings_view, to_lowercase, unicode_alphanumeric, unicode_lowercase,
};

verus! {

/// The maximal alphanumeric runs of `s` from `i` on, where the run in hand began
/// at `start`.
pub open spec fn words_from(s: Seq<char>, start: int, i: int) -> Seq<Seq<char>>
    decreases s.len() - i,
{
    if i >= s.len() {
        if start < s.len() {
            seq![s.subrange(start, s.len() as int)]
        } else {
            Seq::empty()
        }
    } else if unicode_alphanumeric(s[i]) {
        words_from(s, start, i + 1)
    } else if start < i {
        seq![s.subrange(start, i)] + words_from(s, i + 1, i + 1)
    } else {
        words_from(s, i + 1, i + 1)
    }
}

/// The maximal alphanumeric runs of `s`.
pub open spec fn words(s: Seq<char>) -> Seq<Seq<char>> {
    words_from(s, 0, 0)
}

/// The search terms of `s`: its words in lower case.
pub open spec fn terms(s: Seq<char>) -> Seq<Seq<char>> {
    words(s).map_values(|w: Seq<char>| unicode_lowercase(w))
}

/// The words of a text.
fn split_words(text: &str) -> (r: Vec<String>)
    ensures
        strings_view(r@) == words(text@),
{
    broadcast use lemma_strings_view_push;

    let v = chars_of(text);
    let mut out: Vec<String> = Vec::new();
    let mut start: usize = 0;
    let mut i: usize = 0;
    assert(strings_view(out@) + words_from(v@, 0, 0) =~= words(v@));
    while i < v.len()
        invariant
            start <= i <= v@.len(),
            strings_view(out@) + words_from(v@, start as int, i as int) == words(v@),
        decreases v@.len() - i,
    {
        broadcast use lemma_strings_view_push;

        if !is_alphanumeric(v[i]) {
            if start < i {
                let ghost before = strings_view(out@);
                out.push(slice_of(&v, start, i));
                assert(strings_view(out@) + words_from(v@, i + 1, i + 1) =~= before + (seq![
                    v@.subrange(start as int, i as int),
                ] + words_from(v@, i + 1, i + 1)));
            }
            start = i + 1;
        }
        i = i + 1;
    }
    if start < v.len() {
        let ghost before = strings_view(out@);
        out.push(slice_of(&v, start, v.len()));
        assert(strings_view(out@) =~= before + seq![v@.subrange(start as int, v@.len() as int)]);
    } else {
        assert(strings_view(out@) + Seq::<Seq<char>>::empty() =~= strings_view(out@));
    }
    out
}

/// Lower-case alphanumeric tokens, none of them empty.
pub fn tokenize(text: &str) -> (r: Vec<String>)
    ensures
        strings_view(r@) == terms(text@),
        forall|k: int| 0 <= k < r@.len() ==> (#[trigger] r@[k])@.len() > 0,
{
    let found = split_words(text);
    proof {
        lemma_words_from(text@, 0, 0);
    }
    let mut out: Vec<String> = Vec::new();
    let mut i: usize = 0;
    while i < found.len()
        invariant
            i <= found@.len(),
            out@.len() == i,
            strings_view(found@) == words(text@),
            forall|k: int| 0 <= k < words(text@).len() ==> is_word(#[trigger] words(text@)[k]),
            forall|k: int|
                0 <= k < i ==> (#[trigger] out@[k])@ == unicode_lowercase(
                    strings_view(found@)[k],
                ) && out@[k]@.len() > 0,
        decreases found@.len() - i,
    {
        assert(words(text@)[i as int] == found@[i as int]@);
        out.push(to_lowercase(found[i].as_str()));
        i = i + 1;
    }
    assert(strings_view(out@) =~= terms(text@));
    out
}

/// Term to document-id index. Document ids are the caller's.
#[derive(Debug)]
pub struct Index {
    postings: Vec<(String, Vec<u64>)>,
}

/// The position of the first entry for `term` at or after `i`.
spec fn entry_from(p: Seq<(String, Vec<u64>)>, term: Seq<char>, i: int) -> Option<int>
    decreases p.len() - i,
{
    if i < 0 || i >= p.len() {
        None
    } else if p[i].0@ == term {
        Some(i)
    } else {
        entry_from(p, term, i + 1)
    }
}

/// The documents listed for `term`.
spec fn listed(p: Seq<(String, Vec<u64>)>, term: Seq<char>) -> Set<u64> {
    match entry_from(p, term, 0) {
        Some(i) => p[i].1@.to_set(),
        None => Set::empty(),
    }
}

proof fn lemma_entry_from(p: Seq<(String, Vec<u64>)>, term: Seq<char>, i: int)
    requires
        0 <= i <= p.len(),
    ensures
        match entry_from(p, term, i) {
            Some(k) => i <= k < p.len() && p[k].0@ == term,
            None => true,
        },
    decreases p.len() - i,
{
    if i < p.len() && p[i].0@ != term {
        lemma_entry_from(p, term, i + 1);
    }
}

/// Changing the ids of one entry, or appending an entry for a term that has none,
/// leaves the positions of the entries before it alone.
proof fn lemma_entry_same(
    p: Seq<(String, Vec<u64>)>,
    q: Seq<(String, Vec<u64>)>,
    term: Seq<char>,
    i: int,
)
    requires
        0 <= i <= p.len() <= q.len(),
        forall|k: int| 0 <= k < p.len() ==> (#[trigger] q[k]).0@ == p[k].0@,
        forall|k: int| p.len() <= k < q.len() ==> (#[trigger] q[k]).0@ != term,
    ensures
        entry_from(q, term, i) == entry_from(p, term, i),
    decreases p.len() - i,
{
    if i < p.len() {
        lemma_entry_same(p, q, term, i + 1);
    } else {
        lemma_entry_none(q, term, i);
    }
}

proof fn lemma_entry_none(q: Seq<(String, Vec<u64>)>, term: Seq<char>, i: int)
    requires
        0 <= i <= q.len(),
        forall|k: int| i <= k < q.len() ==> (#[trigger] q[k]).0@ != term,
    ensures
        entry_from(q, term, i) is None,
    decreases q.len() - i,
{
    if i < q.len() {
        lemma_entry_none(q, term, i + 1);
    }
}

proof fn lemma_entry_appended(
    p: Seq<(String, Vec<u64>)>,
    x: (String, Vec<u64>),
    i: int,
)
    requires
        0 <= i <= p.len(),
        entry_from(p, x.0@, i) is None,
    ensures
        entry_from(p.push(x), x.0@, i) == Some(p.len() as int),
    decreases p.len() - i,
{
    if i < p.len() {
        lemma_entry_appended(p, x, i + 1);
    }
}

impl Index {
    /// The documents that hold `term`.
    pub closed spec fn docs(&self, term: Seq<char>) -> Set<u64> {
        listed(self.postings@, term)
    }

    /// The documents that hold every term of `query`; none if it has no term.
    pub open spec fn hits(&self, query: Seq<char>) -> Set<u64> {
        Set::new(
            |id: u64|
                terms(query).len() > 0 && forall|i: int|
                    0 <= i < terms(query).len() ==> self.docs(#[trigger] terms(query)[i]).contains(
                        id,
                    ),
        )
    }

    /// An index that lists nothing.
    pub fn new() -> (r: Self)
        ensures
            forall|term: Seq<char>| #[trigger] r.docs(term) == Set::<u64>::empty(),
    {
        Index { postings: Vec::new() }
    }

    fn position(&self, term: &str) -> (r: Option<usize>)
        ensures
            match r {
                Some(i) => entry_from(self.postings@, term@, 0) == Some(i as int) && i
                    < self.postings@.len(),
                None => entry_from(self.postings@, term@, 0) is None,
            },
    {
        let mut i: usize = 0;
        while i < self.postings.len()
            invariant
                i <= self.postings@.len(),
                entry_from(self.postings@, term@, 0) == entry_from(
                    self.postings@,
                    term@,
                    i as int,
                ),
            decreases self.postings@.len() - i,
        {
            if same(self.postings[i].0.as_str(), term) {
                return Some(i);
            }
            i = i + 1;
        }
        None
    }

    /// List `doc_id` for one term.
    fn post(&mut self, doc_id: u64, term: String)
        ensures
            forall|t: Seq<char>| #[trigger]
                final(self).docs(t) == (if t == term@ {
                    old(self).docs(t).insert(doc_id)
                } else {
                    old(self).docs(t)
                }),
    {
        let ghost before = self.postings@;
        match self.position(term.as_str()) {
            Some(i) => {
                let mut ids: Vec<u64> = Vec::new();
                let mut k: usize = 0;
                while k < self.postings[i].1.len()
                    invariant
                        i < self.postings@.len(),
                        k <= self.postings@[i as int].1@.len(),
                        ids@ == self.postings@[i as int].1@.take(k as int),
                        self.postings@ == before,
                    decreases self.postings@[i as int].1@.len() - k,
                {
                    ids.push(self.postings[i].1[k]);
                    assert(before[i as int].1@.take(k as int).push(before[i as int].1@[k as int])
                        =~= before[i as int].1@.take(k + 1));
                    k = k + 1;
                }
                assert(ids@ =~= before[i as int].1@);
                let ghost held = ids@;
                ids.push(doc_id);
                self.postings.set(i, (term, ids));
                proof {
                    let after = self.postings@;
                    assert(held.push(doc_id).to_set() =~= held.to_set().insert(doc_id)) by {
                        assert forall|x: u64| #[trigger]
                            held.push(doc_id).to_set().contains(x) == held.to_set().insert(
                                doc_id,
                            ).contains(x) by {
                            if held.contains(x) {
                                let j = choose|j: int| 0 <= j < held.len() && held[j] == x;
                                assert(held.push(doc_id)[j] == x);
                            }
                            assert(held.push(doc_id)[held.len() as int] == doc_id);
                        }
                    }
                    lemma_entry_from(before, term@, 0);
                    assert forall|t: Seq<char>| #[trigger] listed(after, t) == (if t == term@ {
                        listed(before, t).insert(doc_id)
                    } else {
                        listed(before, t)
                    }) by {
                        lemma_entry_same(before, after, t, 0);
                        lemma_entry_from(before, t, 0);
                    }
                }
            },
            None => {
                let mut ids: Vec<u64> = Vec::new();
                ids.push(doc_id);
                proof {
                    assert(ids@.to_set() =~= Set::<u64>::empty().insert(doc_id)) by {
                        assert(ids@[0] == doc_id);
                    }
                }
                let ghost entry = (term, ids);
                self.postings.push((term, ids));
                proof {
                    let after = self.postings@;
                    assert(after == before.push(entry));
                    assert forall|t: Seq<char>| #[trigger] listed(after, t) == (if t == term@ {
                        listed(before, t).insert(doc_id)
                    } else {
                        listed(before, t)
                    }) by {
                        if t == term@ {
                            lemma_entry_appended(before, entry, 0);
                        } else {
                            lemma_entry_same(before, after, t, 0);
                            lemma_entry_from(before, t, 0);
                        }
                    }
                }
            },
        }
    }

    /// List `doc_id` for every term of `text`.
    pub fn insert(&mut self, doc_id: u64, text: &str)
        ensures
            forall|t: Seq<char>| #[trigger]
                final(self).docs(t) == (if terms(text@).contains(t) {
                    old(self).docs(t).insert(doc_id)
                } else {
                    old(self).docs(t)
                }),
    {
        let found = tokenize(text);
        let ghost all = terms(text@);
        let mut i: usize = 0;
        while i < found.len()
            invariant
                i <= found@.len(),
                strings_view(found@) == all,
                forall|t: Seq<char>| #[trigger]
                    self.docs(t) == (if all.take(i as int).contains(t) {
                        old(self).docs(t).insert(doc_id)
                    } else {
                        old(self).docs(t)
                    }),
            decreases found@.len() - i,
        {
            let ghost mid = *self;
            let term = found[i].clone();
            assert(term@ == all[i as int]);
            self.post(doc_id, term);
            proof {
                let now = all.take(i + 1);
                let then = all.take(i as int);
                assert(now =~= then.push(all[i as int]));
                assert forall|t: Seq<char>| #[trigger] self.docs(t) == (if now.contains(t) {
                    old(self).docs(t).insert(doc_id)
                } else {
                    old(self).docs(t)
                }) by {
                    assert(now[i as int] == all[i as int]);
                    if then.contains(t) {
                        let j = choose|j: int| 0 <= j < then.len() && then[j] == t;
                        assert(now[j] == t);
                    }
                    let _ = mid.docs(t);
                    assert(self.docs(t) =~= (if now.contains(t) {
                        old(self).docs(t).insert(doc_id)
                    } else {
                        old(self).docs(t)
                    }));
                }
            }
            i = i + 1;
        }
        assert(all.take(all.len() as int) =~= all);
    }

    /// Documents that match every term of the query.
    pub fn query(&self, query: &str) -> (r: BTreeSet<u64>)
        ensures
            r@ == self.hits(query@),
    {
        let found = tokenize(query);
        let ghost all = terms(query@);
        assert(strings_view(found@) == all);
        let mut r: BTreeSet<u64> = BTreeSet::new();
        if found.len() == 0 {
            assert(r@ =~= self.hits(query@));
            return r;
        }
        assert(found@[0]@ == all[0]);
        match self.position(found[0].as_str()) {
            None => {
                assert(!self.hits(query@).contains(0) && self.docs(all[0]) =~= Set::empty());
                assert(r@ =~= self.hits(query@));
                return r;
            },
            Some(p) => {
                let mut k: usize = 0;
                let ghost ids = self.postings@[p as int].1@;
                assert(self.docs(all[0]) == ids.to_set());
                while k < self.postings[p].1.len()
                    invariant
                        p < self.postings@.len(),
                        ids == self.postings@[p as int].1@,
                        k <= ids.len(),
                        strings_view(found@) == all,
                        all == terms(query@),
                        all.len() > 0,
                        forall|id: u64|
                            r@.contains(id) <==> ids.take(k as int).contains(id) && self.hits(
                                query@,
                            ).contains(id),
                    decreases ids.len() - k,
                {
                    let id: u64 = self.postings[p].1[k];
                    let ghost before = r@;
                    if self.holds_all(&found, id) {
                        r.insert(id);
                    }
                    proof {
                        let now = ids.take(k + 1);
                        assert(now =~= ids.take(k as int).push(id));
                        assert(self.hits(query@).contains(id) <==> forall|i: int|
                            0 <= i < all.len() ==> self.docs(#[trigger] all[i]).contains(id));
                        assert forall|x: u64|
                            r@.contains(x) <==> now.contains(x) && self.hits(query@).contains(
                                x,
                            ) by {
                            assert(now[k as int] == id);
                            if ids.take(k as int).contains(x) {
                                let j = choose|j: int|
                                    0 <= j < k && ids.take(k as int)[j] == x;
                                assert(now[j] == x);
                            }
                        }
                    }
                    k = k + 1;
                }
                proof {
                    assert(ids.take(ids.len() as int) =~= ids);
                    assert forall|id: u64| r@.contains(id) == self.hits(query@).contains(id) by {
                        if self.hits(query@).contains(id) {
                            assert(self.docs(all[0]).contains(id));
                        }
                    }
                    assert(r@ =~= self.hits(query@));
                }
                r
            },
        }
    }

    /// Whether `id` is listed for every one of `found`.
    fn holds_all(&self, found: &Vec<String>, id: u64) -> (r: bool)
        ensures
            r == (forall|i: int|
                0 <= i < found@.len() ==> self.docs(#[trigger] strings_view(found@)[i]).contains(
                    id,
                )),
    {
        let mut i: usize = 0;
        while i < found.len()
            invariant
                i <= found@.len(),
                forall|k: int|
                    0 <= k < i ==> self.docs(#[trigger] strings_view(found@)[k]).contains(id),
            decreases found@.len() - i,
        {
            assert(strings_view(found@)[i as int] == found@[i as int]@);
            if !self.holds(found[i].as_str(), id) {
                return false;
            }
            i = i + 1;
        }
        true
    }

    /// Whether `id` is listed for `term`.
    fn holds(&self, term: &str, id: u64) -> (r: bool)
        ensures
            r == self.docs(term@).contains(id),
    {
        match self.position(term) {
            None => false,
            Some(p) => {
                let ghost ids = self.postings@[p as int].1@;
                let mut k: usize = 0;
                while k < self.postings[p].1.len()
                    invariant
                        p < self.postings@.len(),
                        ids == self.postings@[p as int].1@,
                        k <= ids.len(),
                        forall|j: int| 0 <= j < k ==> ids[j] != id,
                        self.docs(term@) == ids.to_set(),
                    decreases ids.len() - k,
                {
                    if self.postings[p].1[k] == id {
                        assert(ids.contains(id));
                        return true;
                    }
                    k = k + 1;
                }
                false
            },
        }
    }
}

/// A query finds what it should: a document whose text holds every term of the
/// query is found once it has been inserted, and inserting never loses a hit.
pub proof fn law_inserted_documents_are_found(
    before: Index,
    after: Index,
    doc_id: u64,
    text: Seq<char>,
    query: Seq<char>,
)
    requires
        forall|t: Seq<char>| #[trigger]
            after.docs(t) == (if terms(text).contains(t) {
                before.docs(t).insert(doc_id)
            } else {
                before.docs(t)
            }),
    ensures
        before.hits(query).subset_of(after.hits(query)),
        terms(query).len() > 0 && (forall|i: int|
            0 <= i < terms(query).len() ==> terms(text).contains(#[trigger] terms(query)[i]))
            ==> after.hits(query).contains(doc_id),
{
}

/// AND semantics: the hits of a query are hits of each of its terms, and a query
/// without terms has none.
pub proof fn law_query_intersects(index: Index, query: Seq<char>)
    ensures
        forall|i: int|
            0 <= i < terms(query).len() ==> index.hits(query).subset_of(
                #[trigger] index.docs(terms(query)[i]),
            ),
        terms(query).len() == 0 ==> index.hits(query) == Set::<u64>::empty(),
{
    if terms(query).len() == 0 {
        assert(index.hits(query) =~= Set::<u64>::empty());
    }
    assert forall|i: int| 0 <= i < terms(query).len() implies index.hits(query).subset_of(
        #[trigger] index.docs(terms(query)[i]),
    ) by {
        assert forall|id: u64| index.hits(query).contains(id) implies index.docs(
            terms(query)[i],
        ).contains(id) by {
            let _ = terms(query)[i];
        }
    }
}

// --- Laws -------------------------------------------------------------------------

/// Words one after the other.
pub open spec fn joined(w: Seq<Seq<char>>) -> Seq<char>
    decreases w.len(),
{
    if w.len() == 0 {
        Seq::empty()
    } else {
        w[0] + joined(w.subrange(1, w.len() as int))
    }
}

/// The letters and digits of `s` from `i` on.
pub open spec fn alphanumerics(s: Seq<char>, i: int) -> Seq<char>
    decreases s.len() - i,
{
    if i < 0 || i >= s.len() {
        Seq::empty()
    } else if unicode_alphanumeric(s[i]) {
        seq![s[i]] + alphanumerics(s, i + 1)
    } else {
        alphanumerics(s, i + 1)
    }
}

/// A word: at least one character, and letters and digits only.
pub open spec fn is_word(w: Seq<char>) -> bool {
    w.len() > 0 && forall|k: int| 0 <= k < w.len() ==> unicode_alphanumeric(#[trigger] w[k])
}

proof fn lemma_words_from(s: Seq<char>, start: int, i: int)
    requires
        0 <= start <= i <= s.len(),
        forall|k: int| start <= k < i ==> unicode_alphanumeric(#[trigger] s[k]),
    ensures
        forall|k: int|
            0 <= k < words_from(s, start, i).len() ==> is_word(
                #[trigger] words_from(s, start, i)[k],
            ),
        joined(words_from(s, start, i)) == s.subrange(start, i) + alphanumerics(s, i),
    decreases s.len() - i,
{
    let w = words_from(s, start, i);
    if i >= s.len() {
        if start < s.len() {
            assert(is_word(w[0]));
            assert(w.subrange(1, 1) =~= Seq::empty());
            assert(joined(w.subrange(1, 1)) =~= Seq::empty());
        }
        assert(joined(w) =~= s.subrange(start, i) + alphanumerics(s, i));
    } else if unicode_alphanumeric(s[i]) {
        lemma_words_from(s, start, i + 1);
        assert(s.subrange(start, i + 1) =~= s.subrange(start, i).push(s[i]));
        assert(joined(w) =~= s.subrange(start, i) + alphanumerics(s, i));
    } else {
        lemma_words_from(s, i + 1, i + 1);
        let rest = words_from(s, i + 1, i + 1);
        assert(s.subrange(i + 1, i + 1) =~= Seq::empty());
        if start < i {
            assert(is_word(s.subrange(start, i))) by {
                assert forall|k: int| 0 <= k < i - start implies unicode_alphanumeric(
                    #[trigger] s.subrange(start, i)[k],
                ) by {
                    assert(unicode_alphanumeric(s[start + k]));
                }
            }
            assert forall|k: int| 0 <= k < w.len() implies is_word(#[trigger] w[k]) by {
                if k > 0 {
                    assert(w[k] == rest[k - 1]);
                }
            }
            assert(w.subrange(1, w.len() as int) =~= rest);
        }
        assert(joined(w) =~= s.subrange(start, i) + alphanumerics(s, i));
    }
}

/// The words of a text are runs of letters and digits, none of them empty, and together
/// they are all its letters and digits in order; its tokens are the words in lower case.
pub proof fn law_words_are_the_alphanumeric_runs(s: Seq<char>)
    ensures
        forall|k: int| 0 <= k < words(s).len() ==> is_word(#[trigger] words(s)[k]),
        joined(words(s)) == alphanumerics(s, 0),
        terms(s).len() == words(s).len(),
        forall|k: int|
            0 <= k < terms(s).len() ==> #[trigger] terms(s)[k] == unicode_lowercase(words(s)[k]),
{
    lemma_words_from(s, 0, 0);
    assert(s.subrange(0, 0) + alphanumerics(s, 0) =~= alphanumerics(s, 0));
}

proof fn lemma_words_shift(a: Seq<char>, b: Seq<char>, start: int, i: int)
    requires
        0 <= start <= i <= b.len(),
    ensures
        words_from(a + b, a.len() + start, a.len() + i) == words_from(b, start, i),
    decreases b.len() - i,
{
    let s = a + b;
    let n = a.len() as int;
    if i >= b.len() {
        if start < b.len() {
            assert(s.subrange(n + start, s.len() as int) =~= b.subrange(start, b.len() as int));
        }
    } else {
        assert(s[n + i] == b[i]);
        if unicode_alphanumeric(b[i]) {
            lemma_words_shift(a, b, start, i + 1);
        } else {
            lemma_words_shift(a, b, i + 1, i + 1);
            if start < i {
                assert(s.subrange(n + start, n + i) =~= b.subrange(start, i));
            }
        }
    }
}

proof fn lemma_words_split(a: Seq<char>, b: Seq<char>, start: int, i: int)
    requires
        0 <= start <= i <= a.len(),
    ensures
        words_from(a + seq![' '] + b, start, i) == words_from(a, start, i) + words(b),
    decreases a.len() - i,
{
    let s = a + seq![' '] + b;
    if i >= a.len() {
        assert(s[i] == ' ');
        lemma_words_shift(a + seq![' '], b, 0, 0);
        if start < i {
            assert(s.subrange(start, i) =~= a.subrange(start, i));
        } else {
            assert(Seq::<Seq<char>>::empty() + words(b) =~= words(b));
        }
    } else {
        assert(s[i] == a[i]);
        if unicode_alphanumeric(a[i]) {
            lemma_words_split(a, b, start, i + 1);
        } else {
            lemma_words_split(a, b, i + 1, i + 1);
            if start < i {
                assert(s.subrange(start, i) =~= a.subrange(start, i));
                let w = seq![a.subrange(start, i)];
                assert((w + words_from(a, i + 1, i + 1)) + words(b) =~= w + (words_from(
                    a,
                    i + 1,
                    i + 1,
                ) + words(b)));
            }
        }
    }
}

/// A space parts tokens: those of two texts with a space between are those of the one, then
/// those of the other.
pub proof fn law_a_space_parts_tokens(a: Seq<char>, b: Seq<char>)
    ensures
        terms(a + seq![' '] + b) == terms(a) + terms(b),
{
    lemma_words_split(a, b, 0, 0);
    assert(terms(a + seq![' '] + b) =~= terms(a) + terms(b));
}

proof fn lemma_one_word(w: Seq<char>, i: int)
    requires
        is_word(w),
        0 <= i <= w.len(),
    ensures
        words_from(w, 0, i) == seq![w],
    decreases w.len() - i,
{
    if i < w.len() {
        lemma_one_word(w, i + 1);
    } else {
        assert(w.subrange(0, w.len() as int) =~= w);
    }
}

proof fn lemma_ascii_part(s: Seq<char>, a: int, b: int)
    requires
        is_ascii_text(s),
        0 <= a <= b <= s.len(),
    ensures
        is_ascii_text(s.subrange(a, b)),
{
    assert forall|k: int| 0 <= k < b - a implies is_ascii_char(#[trigger] s.subrange(a, b)[k]) by {
        assert(is_ascii_char(s[a + k]));
    }
}

proof fn lemma_ascii_words(s: Seq<char>, start: int, i: int)
    requires
        is_ascii_text(s),
        0 <= start <= i <= s.len(),
    ensures
        forall|k: int|
            0 <= k < words_from(s, start, i).len() ==> is_ascii_text(
                #[trigger] words_from(s, start, i)[k],
            ),
    decreases s.len() - i,
{
    let w = words_from(s, start, i);
    lemma_ascii_part(s, start, i);
    if i >= s.len() {
        assert forall|k: int| 0 <= k < w.len() implies is_ascii_text(#[trigger] w[k]) by {
            assert(w[k] == s.subrange(start, i));
        }
    } else if unicode_alphanumeric(s[i]) {
        lemma_ascii_words(s, start, i + 1);
        let more = words_from(s, start, i + 1);
        assert(w == more);
        assert forall|k: int| 0 <= k < w.len() implies is_ascii_text(#[trigger] w[k]) by {
            assert(is_ascii_text(more[k]));
        }
    } else {
        lemma_ascii_words(s, i + 1, i + 1);
        let rest = words_from(s, i + 1, i + 1);
        assert forall|k: int| 0 <= k < w.len() implies is_ascii_text(#[trigger] w[k]) by {
            if start >= i {
                assert(w[k] == rest[k]);
            } else if k > 0 {
                assert(w[k] == rest[k - 1]);
            } else {
                assert(w[k] == s.subrange(start, i));
            }
        }
    }
}

/// A token of an ASCII text is not empty, and is its own only token.
pub proof fn law_ascii_tokens_stand_for_themselves(s: Seq<char>, k: int)
    requires
        is_ascii_text(s),
        0 <= k < terms(s).len(),
    ensures
        terms(s)[k].len() > 0,
        terms(terms(s)[k]) == seq![terms(s)[k]],
{
    lemma_words_from(s, 0, 0);
    lemma_ascii_words(s, 0, 0);
    let w = words(s)[k];
    let t = terms(s)[k];
    assert(is_word(w) && is_ascii_text(w));
    assert forall|j: int| 0 <= j < t.len() implies unicode_alphanumeric(#[trigger] t[j])
        && is_ascii_char(t[j]) && ascii_lower(t[j]) == t[j] by {
        let c = w[j];
        assert(unicode_alphanumeric(c) && is_ascii_char(c));
        assert(t[j] == ascii_lower(c));
        if 'A' <= c <= 'Z' {
            assert('a' <= t[j] <= 'z');
        }
    }
    assert(is_word(t) && is_ascii_text(t));
    lemma_one_word(t, 0);
    assert(unicode_lowercase(t) =~= t);
    assert(terms(t) =~= seq![t]);
}

/// Listing a document changes no query's answer on other documents. It answers a query if
/// the query has a term and each term is one of its text or one that it was listed for.
pub proof fn law_listing_adds_one_document(
    before: Index,
    after: Index,
    doc_id: u64,
    text: Seq<char>,
    query: Seq<char>,
    other: u64,
)
    requires
        other != doc_id,
        forall|t: Seq<char>| #[trigger]
            after.docs(t) == (if terms(text).contains(t) {
                before.docs(t).insert(doc_id)
            } else {
                before.docs(t)
            }),
    ensures
        after.hits(query).contains(other) <==> before.hits(query).contains(other),
        after.hits(query).contains(doc_id) <==> terms(query).len() > 0 && forall|k: int|
            0 <= k < terms(query).len() ==> terms(text).contains(#[trigger] terms(query)[k])
                || before.docs(terms(query)[k]).contains(doc_id),
        is_ascii_text(query) ==> (after.hits(query).contains(doc_id) <==> terms(query).len() > 0
            && forall|k: int|
            0 <= k < terms(query).len() ==> terms(text).contains(#[trigger] terms(query)[k])
                || before.hits(terms(query)[k]).contains(doc_id)),
{
    let q = terms(query);
    assert forall|k: int| 0 <= k < q.len() implies (after.docs(#[trigger] q[k]).contains(other)
        <==> before.docs(q[k]).contains(other)) && (after.docs(q[k]).contains(doc_id)
        <==> terms(text).contains(q[k]) || before.docs(q[k]).contains(doc_id)) by {}
    if is_ascii_text(query) {
        assert forall|k: int| 0 <= k < q.len() implies (before.hits(#[trigger] q[k]).contains(
            doc_id,
        ) <==> before.docs(q[k]).contains(doc_id)) by {
            law_ascii_tokens_stand_for_themselves(query, k);
            let one = terms(q[k]);
            assert(one.len() == 1 && one[0] == q[k]);
        }
    }
}

} // verus!
