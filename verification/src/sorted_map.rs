//! A map from strings to values, kept as a vector ordered by key.
//!
//! Lookups search by halves; walking the entries by index visits the keys in
//! the order of strings, so everything derived from a walk is deterministic.

use vstd::prelude::*;
use crate::text::{compare, lemma_text_less_asymmetric, lemma_text_less_transitive, text_less, TextOrder};

verus! {

/// Whether each key comes strictly before all later ones.
pub open spec fn strictly_ordered(keys: Seq<Seq<char>>) -> bool {
    forall|i: int, j: int| 0 <= i < j < keys.len() ==> text_less(#[trigger] keys[i], #[trigger] keys[j])
}

/// A finite map keyed by strings.
pub struct SortedMap<V> {
    entries: Vec<(String, V)>,
}

impl<V> View for SortedMap<V> {
    type V = Map<Seq<char>, V>;

    closed spec fn view(&self) -> Map<Seq<char>, V> {
        Map::new(
            |k: Seq<char>| exists|i: int| 0 <= i < self.entries.len() && self.entries[i].0@ == k,
            |k: Seq<char>| self.entries[self.slot(k)].1,
        )
    }
}

impl<V> SortedMap<V> {
    /// An index at which `k` is stored, where there is one.
    closed spec fn slot(&self, k: Seq<char>) -> int {
        choose|i: int| 0 <= i < self.entries.len() && self.entries[i].0@ == k
    }

    /// The keys, in the order in which they are stored.
    pub closed spec fn keys(&self) -> Seq<Seq<char>> {
        Seq::new(self.entries.len() as nat, |i: int| self.entries[i].0@)
    }

    /// The values, each at the index of its key.
    pub closed spec fn values(&self) -> Seq<V> {
        Seq::new(self.entries.len() as nat, |i: int| self.entries[i].1)
    }

    /// The keys are stored in strictly increasing order.
    pub closed spec fn wf(&self) -> bool {
        strictly_ordered(self.keys())
    }

    /// How the stored sequence and the map stand to each other.
    pub proof fn lemma_entries(&self)
        requires
            self.wf(),
        ensures
            self.keys().len() == self.values().len(),
            strictly_ordered(self.keys()),
            forall|i: int| 0 <= i < self.keys().len() ==> self@.contains_key(#[trigger] self.keys()[i]),
            forall|i: int| 0 <= i < self.keys().len() ==> self@[#[trigger] self.keys()[i]] == self.values()[i],
            forall|k: Seq<char>| #[trigger] self@.contains_key(k) ==> self.keys().contains(k),
            self@.dom().finite(),
            self@.dom().len() == self.keys().len(),
    {
        let keys = self.keys();
        assert forall|i: int| 0 <= i < keys.len() implies self@.contains_key(#[trigger] keys[i]) && self@[keys[i]]
            == self.values()[i] by {
            let k = keys[i];
            assert(0 <= i < self.entries.len() && self.entries[i].0@ == k);
            assert(self@.dom().contains(k));
            let j = self.slot(k);
            assert(0 <= j < self.entries.len() && self.entries[j].0@ == k);
            assert(self@[k] == self.entries[j].1);
            assert(self.values()[i] == self.entries[i].1);
            if j != i {
                assert(keys[j] == k);
                lemma_text_less_asymmetric(k, k);
                if j < i {
                    assert(text_less(keys[j], keys[i]));
                } else {
                    assert(text_less(keys[i], keys[j]));
                }
            }
        }
        assert forall|k: Seq<char>| #[trigger] self@.contains_key(k) implies keys.contains(k) by {
            let j = self.slot(k);
            assert(keys[j] == k);
        }
        assert(keys.no_duplicates()) by {
            assert forall|i: int, j: int| 0 <= i < keys.len() && 0 <= j < keys.len() && i != j implies keys[i]
                != keys[j] by {
                lemma_text_less_asymmetric(keys[i], keys[j]);
                if i < j {
                    assert(text_less(keys[i], keys[j]));
                } else {
                    assert(text_less(keys[j], keys[i]));
                }
            }
        }
        assert(self@.dom() =~= keys.to_set()) by {
            assert forall|k: Seq<char>| keys.to_set().contains(k) implies self@.dom().contains(k) by {
                let i = choose|i: int| 0 <= i < keys.len() && keys[i] == k;
                assert(self@.contains_key(keys[i]));
            }
        }
        keys.unique_seq_to_set();
        vstd::seq_lib::seq_to_set_is_finite(keys);
    }

    /// The empty map.
    pub fn new() -> (m: Self)
        ensures
            m.wf(),
            m@ == Map::<Seq<char>, V>::empty(),
            m.keys().len() == 0,
    {
        let m = SortedMap { entries: Vec::new() };
        assert(m@ =~= Map::<Seq<char>, V>::empty());
        m
    }

    /// The number of entries.
    pub fn len(&self) -> (n: usize)
        ensures
            n == self.keys().len(),
    {
        self.entries.len()
    }

    /// The key stored at index `i`.
    pub fn key_at(&self, i: usize) -> (k: &String)
        requires
            i < self.keys().len(),
        ensures
            k@ == self.keys()[i as int],
    {
        &self.entries[i].0
    }

    /// The value stored at index `i`.
    pub fn value_at(&self, i: usize) -> (v: &V)
        requires
            i < self.keys().len(),
        ensures
            *v == self.values()[i as int],
    {
        &self.entries[i].1
    }

    /// Where `key` is stored, or else where it would have to be put.
    fn position(&self, key: &str) -> (r: (bool, usize))
        requires
            self.wf(),
        ensures
            r.1 <= self.keys().len(),
            r.0 ==> r.1 < self.keys().len() && self.keys()[r.1 as int] == key@,
            !r.0 ==> !self.keys().contains(key@),
            forall|i: int| 0 <= i < r.1 ==> text_less(#[trigger] self.keys()[i], key@),
            forall|i: int| r.1 <= i < self.keys().len() && !(r.0 && i == r.1) ==> text_less(key@, #[trigger] self.keys()[i]),
    {
        let ghost keys = self.keys();
        let mut lo: usize = 0;
        let mut hi: usize = self.entries.len();
        while lo < hi
            invariant
                keys == self.keys(),
                strictly_ordered(keys),
                lo <= hi <= keys.len(),
                keys.len() == self.entries.len(),
                forall|i: int| 0 <= i < lo ==> text_less(#[trigger] keys[i], key@),
                forall|i: int| hi <= i < keys.len() ==> text_less(key@, #[trigger] keys[i]),
            decreases hi - lo,
        {
            let mid: usize = lo + (hi - lo) / 2;
            assert(keys[mid as int] == self.entries[mid as int].0@);
            match compare(self.entries[mid].0.as_str(), key) {
                TextOrder::Same => {
                    proof {
                        assert forall|i: int| 0 <= i < mid implies text_less(#[trigger] keys[i], key@) by {
                            assert(text_less(keys[i], keys[mid as int]));
                        }
                        assert forall|i: int| mid < i < keys.len() implies text_less(key@, #[trigger] keys[i]) by {
                            assert(text_less(keys[mid as int], keys[i]));
                        }
                    }
                    return (true, mid);
                },
                TextOrder::Before => {
                    proof {
                        assert forall|i: int| 0 <= i < mid + 1 implies text_less(#[trigger] keys[i], key@) by {
                            if i < mid {
                                assert(text_less(keys[i], keys[mid as int]));
                                lemma_text_less_transitive(keys[i], keys[mid as int], key@);
                            }
                        }
                    }
                    lo = mid + 1;
                },
                TextOrder::After => {
                    proof {
                        assert forall|i: int| mid <= i < keys.len() implies text_less(key@, #[trigger] keys[i]) by {
                            if mid < i {
                                assert(text_less(keys[mid as int], keys[i]));
                                lemma_text_less_transitive(key@, keys[mid as int], keys[i]);
                            }
                        }
                    }
                    hi = mid;
                },
            }
        }
        proof {
            assert forall|i: int| 0 <= i < keys.len() implies keys[i] != key@ by {
                lemma_text_less_asymmetric(key@, key@);
            }
        }
        (false, lo)
    }

    /// Whether `key` has an entry.
    pub fn contains_key(&self, key: &str) -> (r: bool)
        requires
            self.wf(),
        ensures
            r == self@.contains_key(key@),
    {
        proof {
            self.lemma_entries();
        }
        let (found, _) = self.position(key);
        found
    }

    /// The value stored under `key`, if there is one.
    pub fn get(&self, key: &str) -> (r: Option<&V>)
        requires
            self.wf(),
        ensures
            r matches Some(v) ==> self@.contains_key(key@) && *v == self@[key@],
            r is None ==> !self@.contains_key(key@),
    {
        proof {
            self.lemma_entries();
        }
        let (found, i) = self.position(key);
        if found {
            Some(&self.entries[i].1)
        } else {
            None
        }
    }

    /// Stores `value` under `key`, replacing what was stored there before.
    pub fn insert(&mut self, key: String, value: V)
        requires
            old(self).wf(),
        ensures
            final(self).wf(),
            final(self)@ == old(self)@.insert(key@, value),
    {
        proof {
            self.lemma_entries();
        }
        let ghost before = *self;
        let (found, i) = self.position(key.as_str());
        if found {
            self.entries.set(i, (key, value));
            proof {
                assert(self.keys() =~= before.keys());
            }
        } else {
            self.entries.insert(i, (key, value));
            proof {
                let keys = self.keys();
                assert(keys =~= before.keys().insert(i as int, key@));
                assert forall|a: int, b: int| 0 <= a < b < keys.len() implies text_less(
                    #[trigger] keys[a],
                    #[trigger] keys[b],
                ) by {
                    let x = if a < i { a } else { a - 1 };
                    let y = if b < i { b } else { b - 1 };
                    if a == i {
                        assert(keys[b] == before.keys()[y]);
                    } else if b == i {
                        assert(keys[a] == before.keys()[x]);
                    } else {
                        assert(keys[a] == before.keys()[x]);
                        assert(keys[b] == before.keys()[y]);
                    }
                }
            }
        }
        proof {
            self.lemma_entries();
            let after = *self;
            assert(after.values()[i as int] == value);
            assert(after.keys()[i as int] == key@);
            assert forall|k: Seq<char>| after@.contains_key(k) <==> before@.insert(key@, value).contains_key(
                k,
            ) by {
                if after@.contains_key(k) {
                    let j = after.keys().index_of(k);
                    if k != key@ {
                        let x = if found || j < i { j } else { j - 1 };
                        assert(before.keys()[x] == k);
                    }
                }
                if before@.contains_key(k) {
                    let j = before.keys().index_of(k);
                    let x = if found || j < i { j } else { j + 1 };
                    assert(after.keys()[x] == k);
                }
            }
            assert forall|k: Seq<char>| after@.contains_key(k) implies after@[k] == before@.insert(key@, value)[k] by {
                let j = after.keys().index_of(k);
                if k != key@ {
                    let x = if found || j < i { j } else { j - 1 };
                    assert(before.keys()[x] == k);
                    assert(before.values()[x] == after.values()[j]);
                } else {
                    lemma_text_less_asymmetric(k, k);
                    if j < i {
                        assert(text_less(after.keys()[j], after.keys()[i as int]));
                    } else if j > i {
                        assert(text_less(after.keys()[i as int], after.keys()[j]));
                    }
                }
            }
            assert(after@ =~= before@.insert(key@, value));
        }
    }
    /// Takes the entry of `key` out of the map and returns its value, if it had one.
    pub fn remove(&mut self, key: &str) -> (r: Option<V>)
        requires
            old(self).wf(),
        ensures
            final(self).wf(),
            final(self)@ == old(self)@.remove(key@),
            r is Some <==> old(self)@.contains_key(key@),
            r matches Some(v) ==> v == old(self)@[key@],
    {
        proof {
            self.lemma_entries();
        }
        let ghost before = *self;
        let (found, i) = self.position(key);
        if !found {
            assert(self@ =~= before@.remove(key@));
            return None;
        }
        let (_, value) = self.entries.remove(i);
        proof {
            let keys = self.keys();
            assert(keys =~= before.keys().remove(i as int));
            assert forall|a: int, b: int| 0 <= a < b < keys.len() implies text_less(
                #[trigger] keys[a],
                #[trigger] keys[b],
            ) by {
                let x = if a < i { a } else { a + 1 };
                let y = if b < i { b } else { b + 1 };
                assert(keys[a] == before.keys()[x]);
                assert(keys[b] == before.keys()[y]);
            }
            self.lemma_entries();
            let after = *self;
            assert forall|k: Seq<char>| after@.contains_key(k) <==> before@.remove(key@).contains_key(k) by {
                if after@.contains_key(k) {
                    let j = after.keys().index_of(k);
                    let x = if j < i { j } else { j + 1 };
                    assert(before.keys()[x] == k);
                    lemma_text_less_asymmetric(k, k);
                    if x < i {
                        assert(text_less(before.keys()[x], before.keys()[i as int]));
                    } else {
                        assert(text_less(before.keys()[i as int], before.keys()[x]));
                    }
                }
                if before@.contains_key(k) && k != key@ {
                    let j = before.keys().index_of(k);
                    let x = if j < i { j } else { j - 1 };
                    assert(after.keys()[x] == k);
                }
            }
            assert forall|k: Seq<char>| after@.contains_key(k) implies after@[k] == before@.remove(key@)[k] by {
                let j = after.keys().index_of(k);
                let x = if j < i { j } else { j + 1 };
                assert(before.keys()[x] == k);
                assert(before.values()[x] == after.values()[j]);
            }
            assert(after@ =~= before@.remove(key@));
            assert(before.values()[i as int] == value);
        }
        Some(value)
    }
}

} // verus!
