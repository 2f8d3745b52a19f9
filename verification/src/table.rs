//! A small table keyed by strings: each key at most once, entries in the order in
//! which their keys were first put in.
use vstd::prelude::*;

use crate::text::same;

verus! {

/// A table from strings to values.
#[derive(Debug)]
pub struct Table<V> {
    entries: Vec<(String, V)>,
}

/// The keys of entries.
spec fn keys_of<V>(s: Seq<(String, V)>) -> Seq<Seq<char>> {
    s.map_values(|e: (String, V)| e.0@)
}

/// What entries map a key to.
spec fn map_of<V>(s: Seq<(String, V)>) -> Map<Seq<char>, V> {
    Map::new(
        |k: Seq<char>| keys_of(s).contains(k),
        |k: Seq<char>| s[keys_of(s).index_of(k)].1,
    )
}

proof fn lemma_map_at<V>(s: Seq<(String, V)>, i: int)
    requires
        keys_of(s).no_duplicates(),
        0 <= i < s.len(),
    ensures
        keys_of(s)[i] == s[i].0@,
        map_of(s).dom().contains(s[i].0@),
        map_of(s)[s[i].0@] == s[i].1,
{
    let keys = keys_of(s);
    assert(keys[i] == s[i].0@);
    assert(keys.contains(keys[i]));
    let j = keys.index_of(keys[i]);
    assert(keys[j] == keys[i] && 0 <= j < keys.len());
    assert(j == i);
}

proof fn lemma_map_absent<V>(s: Seq<(String, V)>, key: Seq<char>)
    requires
        forall|i: int| 0 <= i < s.len() ==> (#[trigger] s[i]).0@ != key,
    ensures
        !map_of(s).dom().contains(key),
        !keys_of(s).contains(key),
{
    if keys_of(s).contains(key) {
        let i = choose|i: int| 0 <= i < keys_of(s).len() && keys_of(s)[i] == key;
        assert(s[i].0@ == key);
    }
}

/// `order` without the key `k`.
pub open spec fn order_without(order: Seq<Seq<char>>, k: Seq<char>) -> Seq<Seq<char>> {
    if order.contains(k) {
        order.remove(order.index_of(k))
    } else {
        order
    }
}

impl<V> View for Table<V> {
    type V = Map<Seq<char>, V>;

    closed spec fn view(&self) -> Map<Seq<char>, V> {
        map_of(self.entries@)
    }
}

impl<V> Table<V> {
    #[verifier::type_invariant]
    spec fn distinct(self) -> bool {
        keys_of(self.entries@).no_duplicates()
    }

    /// The keys in order.
    pub closed spec fn order(&self) -> Seq<Seq<char>> {
        keys_of(self.entries@)
    }

    /// An empty table.
    pub fn new() -> (r: Self)
        ensures
            r@ == Map::<Seq<char>, V>::empty(),
            r.order() == Seq::<Seq<char>>::empty(),
    {
        let entries: Vec<(String, V)> = Vec::new();
        assert(keys_of(entries@) =~= Seq::empty());
        assert(map_of(entries@) =~= Map::<Seq<char>, V>::empty());
        Table { entries }
    }

    /// The number of entries. The order lists every key, and each once.
    pub fn len(&self) -> (n: usize)
        ensures
            n == self.order().len(),
            self.order().no_duplicates(),
            forall|k: Seq<char>| #[trigger]
                self@.dom().contains(k) <==> self.order().contains(k),
    {
        proof {
            use_type_invariant(self);
        }
        self.entries.len()
    }

    fn position(&self, key: &str) -> (r: Option<usize>)
        ensures
            match r {
                Some(i) => i < self.entries@.len() && self.entries@[i as int].0@ == key@,
                None => forall|i: int|
                    0 <= i < self.entries@.len() ==> (#[trigger] self.entries@[i]).0@ != key@,
            },
    {
        let mut i: usize = 0;
        while i < self.entries.len()
            invariant
                i <= self.entries@.len(),
                forall|k: int| 0 <= k < i ==> (#[trigger] self.entries@[k]).0@ != key@,
            decreases self.entries@.len() - i,
        {
            if same(self.entries[i].0.as_str(), key) {
                return Some(i);
            }
            i = i + 1;
        }
        None
    }

    /// What `key` maps to.
    pub fn get(&self, key: &str) -> (r: Option<&V>)
        ensures
            match r {
                Some(v) => self@.dom().contains(key@) && *v == self@[key@],
                None => !self@.dom().contains(key@),
            },
    {
        proof {
            use_type_invariant(self);
        }
        match self.position(key) {
            Some(i) => {
                proof {
                    lemma_map_at(self.entries@, i as int);
                }
                Some(&self.entries[i].1)
            },
            None => {
                proof {
                    lemma_map_absent(self.entries@, key@);
                }
                None
            },
        }
    }

    /// Whether `key` is in the table.
    pub fn contains_key(&self, key: &str) -> (r: bool)
        ensures
            r == self@.dom().contains(key@),
    {
        match self.get(key) {
            Some(_) => true,
            None => false,
        }
    }

    /// The key at position `i`.
    pub fn key_at(&self, i: usize) -> (r: &String)
        requires
            i < self.order().len(),
        ensures
            r@ == self.order()[i as int],
            self@.dom().contains(r@),
    {
        proof {
            use_type_invariant(self);
            lemma_map_at(self.entries@, i as int);
        }
        &self.entries[i].0
    }

    /// The value at position `i`.
    pub fn value_at(&self, i: usize) -> (r: &V)
        requires
            i < self.order().len(),
        ensures
            self@.dom().contains(self.order()[i as int]),
            *r == self@[self.order()[i as int]],
    {
        proof {
            use_type_invariant(self);
            lemma_map_at(self.entries@, i as int);
        }
        &self.entries[i].1
    }

    /// Map `key` to `value`.
    pub fn insert(&mut self, key: String, value: V)
        ensures
            final(self)@ == old(self)@.insert(key@, value),
            final(self).order() == (if old(self)@.dom().contains(key@) {
                old(self).order()
            } else {
                old(self).order().push(key@)
            }),
    {
        proof {
            use_type_invariant(&*self);
        }
        let ghost before = self.entries@;
        let at = self.position(key.as_str());
        let mut entries: Vec<(String, V)> = Vec::new();
        core::mem::swap(&mut entries, &mut self.entries);
        match at {
            Some(i) => {
                entries.set(i, (key, value));
                proof {
                    let after = entries@;
                    lemma_map_at(before, i as int);
                    assert(keys_of(after) =~= keys_of(before));
                    assert forall|k: Seq<char>| map_of(before).insert(key@, value).dom().contains(
                        k,
                    ) implies #[trigger] map_of(after)[k] == map_of(before).insert(
                        key@,
                        value,
                    )[k] by {
                        let j = keys_of(after).index_of(k);
                        assert(keys_of(after).contains(k));
                        assert(after[j].0@ == keys_of(after)[j]);
                        if j != i {
                            assert(k != key@);
                        }
                    }
                    assert(map_of(after) =~= map_of(before).insert(key@, value));
                }
            },
            None => {
                proof {
                    lemma_map_absent(before, key@);
                }
                entries.push((key, value));
                proof {
                    let after = entries@;
                    assert(keys_of(after) =~= keys_of(before).push(key@));
                    assert(keys_of(after).no_duplicates()) by {
                        assert forall|i: int, j: int|
                            0 <= i < after.len() && 0 <= j < after.len() && i != j implies keys_of(
                            after,
                        )[i] != keys_of(after)[j] by {
                            if i < before.len() {
                                assert(keys_of(before)[i] == before[i].0@);
                            }
                            if j < before.len() {
                                assert(keys_of(before)[j] == before[j].0@);
                            }
                        }
                    }
                    assert forall|k: Seq<char>| #[trigger]
                        map_of(after).dom().contains(k) == map_of(before).insert(
                            key@,
                            value,
                        ).dom().contains(k) by {
                        if keys_of(before).contains(k) {
                            let j = keys_of(before).index_of(k);
                            assert(keys_of(after)[j] == k);
                        }
                        assert(keys_of(after)[before.len() as int] == key@);
                        if keys_of(after).contains(k) {
                            let j = keys_of(after).index_of(k);
                            if j < before.len() {
                                assert(keys_of(before)[j] == k);
                            }
                        }
                    }
                    assert forall|k: Seq<char>| map_of(after).dom().contains(k) implies #[trigger]
                    map_of(after)[k] == map_of(before).insert(key@, value)[k] by {
                        let j = keys_of(after).index_of(k);
                        assert(keys_of(after)[j] == after[j].0@);
                        if j < before.len() {
                            lemma_map_at(before, j);
                            assert(before[j].0@ == k);
                        } else {
                            assert(k == key@);
                        }
                    }
                    assert(map_of(after) =~= map_of(before).insert(key@, value));
                }
            },
        }
        self.entries = entries;
    }

    /// Take `key` out.
    pub fn remove(&mut self, key: &str) -> (r: Option<V>)
        ensures
            final(self)@ == old(self)@.remove(key@),
            final(self).order() == order_without(old(self).order(), key@),
            match r {
                Some(v) => old(self)@.dom().contains(key@) && v == old(self)@[key@],
                None => !old(self)@.dom().contains(key@),
            },
    {
        proof {
            use_type_invariant(&*self);
        }
        let ghost before = self.entries@;
        match self.position(key) {
            None => {
                proof {
                    lemma_map_absent(before, key@);
                    assert(map_of(before) =~= map_of(before).remove(key@));
                }
                None
            },
            Some(i) => {
                let mut entries: Vec<(String, V)> = Vec::new();
                core::mem::swap(&mut entries, &mut self.entries);
                let gone = entries.remove(i);
                proof {
                    let after = entries@;
                    lemma_map_at(before, i as int);
                    let keys = keys_of(before);
                    assert(keys.contains(key@));
                    assert(keys.index_of(key@) == i);
                    assert(keys_of(after) =~= keys.remove(i as int));
                    assert forall|a: int, b: int|
                        0 <= a < after.len() && 0 <= b < after.len() && a != b implies keys_of(
                        after,
                    )[a] != keys_of(after)[b] by {
                        let a2 = if a < i {
                            a
                        } else {
                            a + 1
                        };
                        let b2 = if b < i {
                            b
                        } else {
                            b + 1
                        };
                        assert(keys_of(after)[a] == keys[a2]);
                        assert(keys_of(after)[b] == keys[b2]);
                    }
                    assert forall|k: Seq<char>| #[trigger]
                        map_of(after).dom().contains(k) == map_of(before).remove(
                            key@,
                        ).dom().contains(k) by {
                        if keys_of(after).contains(k) {
                            let a = keys_of(after).index_of(k);
                            let a2 = if a < i {
                                a
                            } else {
                                a + 1
                            };
                            assert(keys[a2] == k);
                        }
                        if keys.contains(k) && k != key@ {
                            let a = keys.index_of(k);
                            let a2 = if a < i {
                                a
                            } else {
                                a - 1
                            };
                            assert(keys_of(after)[a2] == k);
                        }
                    }
                    assert forall|k: Seq<char>| map_of(after).dom().contains(k) implies #[trigger]
                    map_of(after)[k] == map_of(before)[k] by {
                        let a = keys_of(after).index_of(k);
                        let a2 = if a < i {
                            a
                        } else {
                            a + 1
                        };
                        assert(keys_of(after)[a] == after[a].0@);
                        lemma_map_at(before, a2);
                        assert(before[a2].0@ == k);
                    }
                    assert(map_of(after) =~= map_of(before).remove(key@));
                }
                self.entries = entries;
                Some(gone.1)
            },
        }
    }
}

} // verus!
