//! How the local follows and an account's subscriptions differ.
use vstd::prelude::*;

use crate::memstore::{
    lemma_fresh_key, lemma_insert_key, lemma_take_contains, pairs_view, strings_map,
};
use crate::table::Table;
use crate::text::{
    comes_before, lemma_text_less_asym, lemma_text_not_less_trans, list_contains, strings_view,
    text_less,
};

verus! {

/// How the local follows and an account's subscriptions differ.
#[derive(Debug, PartialEq, Eq)]
pub struct SubscriptionDiff {
    /// Subscribed to but not followed here: publication and record key.
    pub remote_only: Vec<(String, String)>,
    /// Followed in both places: publication and record key.
    pub in_both: Vec<(String, String)>,
    /// Followed here only. Whether it is an addition or a leftover, only the reader
    /// knows.
    pub local_only: Vec<String>,
}

/// Texts in order.
pub open spec fn in_order(s: Seq<Seq<char>>) -> bool {
    forall|i: int, j: int| 0 <= i < j < s.len() ==> !text_less(s[j], s[i])
}

/// The keys of pairs.
pub open spec fn keys_of(s: Seq<(Seq<char>, Seq<char>)>) -> Seq<Seq<char>> {
    s.map_values(|p: (Seq<char>, Seq<char>)| p.0)
}

/// `pairs` are the entries of `m` whose keys are in the set, in order, each once.
pub open spec fn lists_entries(
    pairs: Seq<(Seq<char>, Seq<char>)>,
    m: Map<Seq<char>, Seq<char>>,
    set: Set<Seq<char>>,
) -> bool {
    &&& in_order(keys_of(pairs))
    &&& keys_of(pairs).no_duplicates()
    &&& forall|k: Seq<char>| #[trigger] keys_of(pairs).contains(k) <==> set.contains(k)
    &&& forall|i: int| 0 <= i < pairs.len() ==> (#[trigger] pairs[i]).1 == m[pairs[i].0]
}

/// The subscriptions that are, or are not, followed here.
pub open spec fn remote_keys(
    local: Seq<Seq<char>>,
    remote: Map<Seq<char>, Seq<char>>,
    followed: bool,
) -> Set<Seq<char>> {
    Set::new(|k: Seq<char>| remote.dom().contains(k) && local.contains(k) == followed)
}

/// The local follows that are no subscriptions.
pub open spec fn unsubscribed(
    local: Seq<Seq<char>>,
    remote: Map<Seq<char>, Seq<char>>,
) -> Seq<Seq<char>> {
    local.filter(|k: Seq<char>| !remote.dom().contains(k))
}

/// The difference is the right one.
pub open spec fn is_diff(
    local: Seq<Seq<char>>,
    remote: Map<Seq<char>, Seq<char>>,
    d: SubscriptionDiff,
) -> bool {
    &&& lists_entries(pairs_view(d.remote_only@), remote, remote_keys(local, remote, false))
    &&& lists_entries(pairs_view(d.in_both@), remote, remote_keys(local, remote, true))
    &&& in_order(strings_view(d.local_only@))
    &&& strings_view(d.local_only@).to_multiset() == unsubscribed(local, remote).to_multiset()
}

proof fn lemma_insert_in_order(s: Seq<Seq<char>>, x: Seq<char>, p: int)
    requires
        in_order(s),
        0 <= p <= s.len(),
        p > 0 ==> !text_less(x, s[p - 1]),
        forall|k: int| p <= k < s.len() ==> text_less(x, #[trigger] s[k]),
    ensures
        in_order(s.insert(p, x)),
{
    let t = s.insert(p, x);
    assert forall|i: int, j: int| 0 <= i < j < t.len() implies !text_less(t[j], t[i]) by {
        if j < p {
            assert(t[i] == s[i] && t[j] == s[j]);
        } else if j == p {
            assert(t[i] == s[i]);
            if i < p - 1 {
                lemma_text_not_less_trans(x, s[p - 1], s[i]);
            }
        } else {
            assert(t[j] == s[j - 1]);
            if i == p {
                lemma_text_less_asym(x, s[j - 1]);
            } else if i < p {
                assert(t[i] == s[i]);
            } else {
                assert(t[i] == s[i - 1]);
            }
        }
    }
}

fn insert_pair(out: &mut Vec<(String, String)>, key: String, value: String)
    requires
        in_order(keys_of(pairs_view(old(out)@))),
        keys_of(pairs_view(old(out)@)).no_duplicates(),
        !keys_of(pairs_view(old(out)@)).contains(key@),
    ensures
        in_order(keys_of(pairs_view(final(out)@))),
        keys_of(pairs_view(final(out)@)).no_duplicates(),
        forall|k: Seq<char>|
            #[trigger] keys_of(pairs_view(final(out)@)).contains(k) <==> keys_of(
                pairs_view(old(out)@),
            ).contains(k) || k == key@,
        forall|m: Map<Seq<char>, Seq<char>>|
            #![trigger m.dom()]
            m[key@] == value@ && (forall|i: int|
                0 <= i < old(out)@.len() ==> (#[trigger] pairs_view(old(out)@)[i]).1
                    == m[pairs_view(old(out)@)[i].0]) ==> (forall|i: int|
                0 <= i < final(out)@.len() ==> (#[trigger] pairs_view(final(out)@)[i]).1
                    == m[pairs_view(final(out)@)[i].0]),
{
    let ghost before = pairs_view(out@);
    let ghost keys = keys_of(before);
    let ghost k = key@;
    let ghost v = value@;
    let mut p: usize = out.len();
    while p > 0 && comes_before(key.as_str(), out[p - 1].0.as_str())
        invariant
            p <= out@.len(),
            k == key@,
            before == pairs_view(out@),
            keys == keys_of(before),
            keys.len() == out@.len(),
            forall|i: int| 0 <= i < out@.len() ==> #[trigger] keys[i] == out@[i].0@,
            forall|i: int| p <= i < out@.len() ==> text_less(k, #[trigger] keys[i]),
        decreases p,
    {
        assert(keys[p - 1] == out@[p - 1].0@);
        p = p - 1;
    }
    assert(p > 0 ==> keys[p - 1] == out@[p - 1].0@);
    out.insert(p, (key, value));
    proof {
        let after = pairs_view(out@);
        assert(after =~= before.insert(p as int, (k, v)));
        assert(keys_of(after) =~= keys.insert(p as int, k));
        lemma_insert_in_order(keys, k, p as int);
        lemma_insert_key(keys, k, p as int);
        assert forall|m: Map<Seq<char>, Seq<char>>|
            #![trigger m.dom()]
            m[k] == v && (forall|i: int|
                0 <= i < before.len() ==> (#[trigger] before[i]).1 == m[before[i].0]) implies (
        forall|i: int| 0 <= i < after.len() ==> (#[trigger] after[i]).1 == m[after[i].0]) by {
            assert forall|i: int| 0 <= i < after.len() implies (#[trigger] after[i]).1
                == m[after[i].0] by {
                if i < p {
                    assert(after[i] == before[i]);
                } else if i > p {
                    assert(after[i] == before[i - 1]);
                }
            }
        }
    }
}

fn insert_text(out: &mut Vec<String>, x: String)
    requires
        in_order(strings_view(old(out)@)),
    ensures
        in_order(strings_view(final(out)@)),
        strings_view(final(out)@).to_multiset() == strings_view(old(out)@).to_multiset().insert(
            x@,
        ),
{
    broadcast use vstd::seq_lib::group_to_multiset_ensures;

    let ghost before = strings_view(out@);
    let ghost v = x@;
    let mut p: usize = out.len();
    while p > 0 && comes_before(x.as_str(), out[p - 1].as_str())
        invariant
            p <= out@.len(),
            v == x@,
            before == strings_view(out@),
            before.len() == out@.len(),
            forall|i: int| 0 <= i < out@.len() ==> #[trigger] before[i] == out@[i]@,
            forall|i: int| p <= i < out@.len() ==> text_less(v, #[trigger] before[i]),
        decreases p,
    {
        assert(before[p - 1] == out@[p - 1]@);
        p = p - 1;
    }
    assert(p > 0 ==> before[p - 1] == out@[p - 1]@);
    out.insert(p, x);
    proof {
        assert(strings_view(out@) =~= before.insert(p as int, v));
        lemma_insert_in_order(before, v, p as int);
        vstd::seq_lib::to_multiset_insert(before, p as int, v);
    }
}

/// Part the follows and the subscriptions (publication to record key) from each other,
/// each list in order.
pub fn diff_subscriptions(local: &Vec<String>, remote: &Table<String>) -> (r: SubscriptionDiff)
    ensures
        is_diff(strings_view(local@), strings_map(remote@), r),
{
    let ghost here = strings_view(local@);
    let ghost there = strings_map(remote@);
    let mut remote_only: Vec<(String, String)> = Vec::new();
    let mut in_both: Vec<(String, String)> = Vec::new();
    let n: usize = remote.len();
    let ghost order = remote.order();
    let mut i: usize = 0;
    while i < n
        invariant
            n == order.len(),
            order == remote.order(),
            order.no_duplicates(),
            i <= n,
            here == strings_view(local@),
            there == strings_map(remote@),
            forall|k: Seq<char>| #[trigger] remote@.dom().contains(k) <==> order.contains(k),
            in_order(keys_of(pairs_view(remote_only@))),
            keys_of(pairs_view(remote_only@)).no_duplicates(),
            forall|k: Seq<char>|
                #[trigger] keys_of(pairs_view(remote_only@)).contains(k) <==> order.take(
                    i as int,
                ).contains(k) && !here.contains(k),
            forall|j: int|
                0 <= j < remote_only@.len() ==> (#[trigger] pairs_view(remote_only@)[j]).1
                    == there[pairs_view(remote_only@)[j].0],
            in_order(keys_of(pairs_view(in_both@))),
            keys_of(pairs_view(in_both@)).no_duplicates(),
            forall|k: Seq<char>|
                #[trigger] keys_of(pairs_view(in_both@)).contains(k) <==> order.take(
                    i as int,
                ).contains(k) && here.contains(k),
            forall|j: int|
                0 <= j < in_both@.len() ==> (#[trigger] pairs_view(in_both@)[j]).1
                    == there[pairs_view(in_both@)[j].0],
        decreases n - i,
    {
        let ghost key = order[i as int];
        proof {
            lemma_fresh_key(order, i as int);
            lemma_take_contains(order, i as int);
            assert(order.contains(key));
            assert(there.dom().contains(key));
        }
        let uri = remote.key_at(i).clone();
        let rkey = remote.value_at(i).clone();
        if list_contains(local, uri.as_str()) {
            insert_pair(&mut in_both, uri, rkey);
        } else {
            insert_pair(&mut remote_only, uri, rkey);
        }
        i = i + 1;
    }
    assert(order.take(n as int) =~= order);
    let mut local_only: Vec<String> = Vec::new();
    let mut j: usize = 0;
    proof {
        assert(strings_view(local_only@) =~= Seq::empty());
        assert(unsubscribed(here.take(0), there) =~= Seq::empty()) by {
            reveal(Seq::filter);
        }
    }
    while j < local.len()
        invariant
            j <= local@.len(),
            here == strings_view(local@),
            here.len() == local@.len(),
            there == strings_map(remote@),
            in_order(strings_view(local_only@)),
            strings_view(local_only@).to_multiset() == unsubscribed(
                here.take(j as int),
                there,
            ).to_multiset(),
        decreases local@.len() - j,
    {
        broadcast use vstd::seq_lib::group_to_multiset_ensures;

        let ghost x = here[j as int];
        assert(x == local@[j as int]@);
        proof {
            let a = here.take(j as int);
            let b = here.take(j + 1);
            assert(b.drop_last() =~= a);
            assert(b.last() == x);
            reveal(Seq::filter);
            let keep = |k: Seq<char>| !there.dom().contains(k);
            assert(unsubscribed(b, there) == (if keep(x) {
                unsubscribed(a, there).push(x)
            } else {
                unsubscribed(a, there)
            }));
        }
        if !remote.contains_key(local[j].as_str()) {
            insert_text(&mut local_only, local[j].clone());
        }
        j = j + 1;
    }
    assert(here.take(here.len() as int) =~= here);
    let d = SubscriptionDiff { remote_only, in_both, local_only };
    proof {
        assert forall|k: Seq<char>| #[trigger] keys_of(pairs_view(d.remote_only@)).contains(k)
            <==> remote_keys(here, there, false).contains(k) by {
            assert(remote@.dom().contains(k) <==> order.contains(k));
        }
        assert forall|k: Seq<char>| #[trigger] keys_of(pairs_view(d.in_both@)).contains(k)
            <==> remote_keys(here, there, true).contains(k) by {
            assert(remote@.dom().contains(k) <==> order.contains(k));
        }
    }
    d
}

/// Every publication that is followed or subscribed to is in exactly one of the lists.
pub proof fn law_diff_is_a_partition(
    local: Seq<Seq<char>>,
    remote: Map<Seq<char>, Seq<char>>,
    d: SubscriptionDiff,
    k: Seq<char>,
)
    requires
        is_diff(local, remote, d),
    ensures
        keys_of(pairs_view(d.remote_only@)).contains(k) <==> remote.dom().contains(k)
            && !local.contains(k),
        keys_of(pairs_view(d.in_both@)).contains(k) <==> remote.dom().contains(k)
            && local.contains(k),
        strings_view(d.local_only@).contains(k) <==> local.contains(k) && !remote.dom().contains(
            k,
        ),
{
    broadcast use vstd::seq_lib::group_to_multiset_ensures;

    assert(remote_keys(local, remote, false).contains(k) <==> keys_of(
        pairs_view(d.remote_only@),
    ).contains(k));
    assert(remote_keys(local, remote, true).contains(k) <==> keys_of(
        pairs_view(d.in_both@),
    ).contains(k));
    let keep = |x: Seq<char>| !remote.dom().contains(x);
    lemma_filter_contains(local, keep, k);
    let a = strings_view(d.local_only@);
    let b = unsubscribed(local, remote);
    assert(a.to_multiset().count(k) > 0 <==> a.contains(k));
    assert(b.to_multiset().count(k) > 0 <==> b.contains(k));
}

proof fn lemma_filter_contains(s: Seq<Seq<char>>, keep: spec_fn(Seq<char>) -> bool, k: Seq<char>)
    ensures
        s.filter(keep).contains(k) <==> s.contains(k) && keep(k),
    decreases s.len(),
{
    reveal(Seq::filter);
    if s.len() > 0 {
        let t = s.drop_last();
        lemma_filter_contains(t, keep, k);
        let f = t.filter(keep);
        if s.contains(k) {
            let i = choose|i: int| 0 <= i < s.len() && s[i] == k;
            if i < t.len() {
                assert(t[i] == k);
            }
        }
        if t.contains(k) {
            let i = choose|i: int| 0 <= i < t.len() && t[i] == k;
            assert(s[i] == k);
        }
        assert(s[s.len() - 1] == s.last());
        if keep(s.last()) {
            assert(s.filter(keep) =~= f.push(s.last()));
            if f.contains(k) {
                let i = choose|i: int| 0 <= i < f.len() && f[i] == k;
                assert(s.filter(keep)[i] == k);
            }
            assert(s.filter(keep)[f.len() as int] == s.last());
            if s.filter(keep).contains(k) {
                let i = choose|i: int| 0 <= i < s.filter(keep).len() && s.filter(keep)[i] == k;
                if i < f.len() {
                    assert(f[i] == k);
                }
            }
        }
    }
}

} // verus!
