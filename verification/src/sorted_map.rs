//! A map from `u64` keys to owned values, kept as a vector sorted by key:
//! inserting overwrites the entry with the same key, and iteration yields the
//! entries in strictly ascending key order.

use vstd::prelude::*;
use vstd::map::*;

verus! {

pub open spec fn keys_sorted<V>(s: Seq<(u64, V)>) -> bool {
    forall|i: int, j: int| 0 <= i < j < s.len() ==> s[i].0 < s[j].0
}

pub open spec fn has_key<V>(s: Seq<(u64, V)>, k: u64) -> bool {
    exists|i: int| 0 <= i < s.len() && s[i].0 == k
}

pub open spec fn key_index<V>(s: Seq<(u64, V)>, k: u64) -> int {
    choose|i: int| 0 <= i < s.len() && s[i].0 == k
}

/// The mapping that a sequence of key/value entries stands for, each value
/// taken at its view.
pub open spec fn entries_map<V: View>(s: Seq<(u64, V)>) -> Map<u64, V::V> {
    Map::new(|k: u64| has_key(s, k), |k: u64| s[key_index(s, k)].1@)
}

proof fn lemma_unique_key<V>(s: Seq<(u64, V)>, i: int, j: int)
    requires
        keys_sorted(s),
        0 <= i < s.len(),
        0 <= j < s.len(),
        s[i].0 == s[j].0,
    ensures
        i == j,
{
    if i < j {
        assert(s[i].0 < s[j].0);
    }
    if j < i {
        assert(s[j].0 < s[i].0);
    }
}

pub struct SortedMap<V> {
    entries: Vec<(u64, V)>,
}

impl<V: View> SortedMap<V> {
    pub closed spec fn wf(self) -> bool {
        keys_sorted(self.entries@)
    }

    pub fn new() -> (r: SortedMap<V>)
        ensures
            r.wf(),
            r@ == Map::<u64, V::V>::empty(),
    {
        let t = SortedMap { entries: Vec::new() };
        proof {
            assert_maps_equal!(entries_map(t.entries@), Map::<u64, V::V>::empty(), k => {
                assert(!has_key(t.entries@, k));
            });
        }
        t
    }

    /// Insert, overwriting any earlier entry with the same key.
    pub fn insert(&mut self, key: u64, value: V)
        requires
            old(self).wf(),
        ensures
            final(self).wf(),
            final(self)@ == old(self)@.insert(key, value@),
    {
        let ghost s0 = self.entries@;
        let mut p: usize = 0;
        while p < self.entries.len() && self.entries[p].0 < key
            invariant
                0 <= p <= self.entries@.len(),
                self.entries@ == s0,
                forall|i: int| 0 <= i < p ==> s0[i].0 < key,
            decreases self.entries@.len() - p,
        {
            p = p + 1;
        }
        if p < self.entries.len() && self.entries[p].0 == key {
            let ghost v_spec = value@;
            self.entries.set(p, (key, value));
            proof {
                let s1 = self.entries@;
                assert(s1 =~= s0.update(p as int, (key, value)));
                assert forall|i: int, j: int| 0 <= i < j < s1.len() implies s1[i].0 < s1[j].0 by {
                    assert(s0[i].0 < s0[j].0);
                }
                assert_maps_equal!(entries_map(s1), entries_map(s0).insert(key, v_spec), k => {
                    if k == key {
                        assert(s1[p as int].0 == key);
                        assert(has_key(s1, key));
                        lemma_unique_key(s1, key_index(s1, k), p as int);
                    } else {
                        if has_key(s0, k) {
                            let i = key_index(s0, k);
                            assert(s0[i].0 == k);
                            assert(i != p);
                            assert(s1[i].0 == k);
                            assert(has_key(s1, k));
                            lemma_unique_key(s1, key_index(s1, k), i);
                        }
                        if has_key(s1, k) {
                            let i = key_index(s1, k);
                            assert(s1[i].0 == k);
                            assert(i != p);
                            assert(s0[i].0 == k);
                            assert(has_key(s0, k));
                        }
                    }
                });
            }
        } else {
            proof {
                assert(forall|i: int| p <= i < s0.len() ==> key < s0[i].0);
            }
            let ghost v_spec = value@;
            self.entries.insert(p, (key, value));
            proof {
                let s1 = self.entries@;
                assert(s1 == s0.insert(p as int, (key, value)));
                assert(s1.len() == s0.len() + 1);
                assert(forall|i: int| 0 <= i < p ==> s1[i] == s0[i]);
                assert(forall|i: int| p < i < s1.len() ==> s1[i] == s0[i - 1]);
                assert forall|i: int, j: int| 0 <= i < j < s1.len() implies s1[i].0 < s1[j].0 by {
                    if i < p && j > p {
                        assert(s0[i].0 < key);
                        assert(key < s0[j - 1].0);
                    }
                }
                assert_maps_equal!(entries_map(s1), entries_map(s0).insert(key, v_spec), k => {
                    if k == key {
                        assert(s1[p as int].0 == key);
                        assert(has_key(s1, key));
                        lemma_unique_key(s1, key_index(s1, k), p as int);
                    } else {
                        if has_key(s0, k) {
                            let i = key_index(s0, k);
                            assert(s0[i].0 == k);
                            if i < p {
                                assert(s1[i].0 == k);
                            } else {
                                assert(s1[i + 1].0 == k);
                            }
                            assert(has_key(s1, k));
                            let i1 = key_index(s1, k);
                            assert(s1[i1].0 == k);
                            if i < p {
                                lemma_unique_key(s1, i1, i);
                            } else {
                                lemma_unique_key(s1, i1, i + 1);
                            }
                        }
                        if has_key(s1, k) {
                            let i = key_index(s1, k);
                            assert(s1[i].0 == k);
                            assert(i != p);
                            if i < p {
                                assert(s0[i].0 == k);
                            } else {
                                assert(s0[i - 1].0 == k);
                            }
                            assert(has_key(s0, k));
                        }
                    }
                });
            }
        }
    }

    /// Remove the entry with the key, if any.
    pub fn remove(&mut self, key: u64)
        requires
            old(self).wf(),
        ensures
            final(self).wf(),
            final(self)@ == old(self)@.remove(key),
    {
        let ghost s0 = self.entries@;
        let mut p: usize = 0;
        while p < self.entries.len() && self.entries[p].0 < key
            invariant
                0 <= p <= self.entries@.len(),
                self.entries@ == s0,
                forall|i: int| 0 <= i < p ==> s0[i].0 < key,
            decreases self.entries@.len() - p,
        {
            p = p + 1;
        }
        if p < self.entries.len() && self.entries[p].0 == key {
            self.entries.remove(p);
            proof {
                let s1 = self.entries@;
                assert(s1 == s0.remove(p as int));
                assert(forall|i: int| 0 <= i < p ==> s1[i] == s0[i]);
                assert(forall|i: int| p <= i < s1.len() ==> s1[i] == s0[i + 1]);
                assert forall|i: int, j: int| 0 <= i < j < s1.len() implies s1[i].0 < s1[j].0 by {
                    if i < p && j >= p {
                        assert(s0[i].0 < s0[j + 1].0);
                    }
                }
                assert_maps_equal!(entries_map(s1), entries_map(s0).remove(key), k => {
                    if k == key {
                        if has_key(s1, k) {
                            let i = key_index(s1, k);
                            assert(s1[i].0 == k);
                            if i < p {
                                lemma_unique_key(s0, i, p as int);
                            } else {
                                lemma_unique_key(s0, i + 1, p as int);
                            }
                        }
                    } else {
                        if has_key(s0, k) {
                            let i = key_index(s0, k);
                            assert(s0[i].0 == k);
                            assert(i != p);
                            if i < p {
                                assert(s1[i].0 == k);
                            } else {
                                assert(s1[i - 1].0 == k);
                            }
                            assert(has_key(s1, k));
                            let i1 = key_index(s1, k);
                            assert(s1[i1].0 == k);
                            if i < p {
                                lemma_unique_key(s1, i1, i);
                            } else {
                                lemma_unique_key(s1, i1, i - 1);
                            }
                        }
                        if has_key(s1, k) {
                            let i = key_index(s1, k);
                            assert(s1[i].0 == k);
                            if i < p {
                                assert(s0[i].0 == k);
                            } else {
                                assert(s0[i + 1].0 == k);
                            }
                            assert(has_key(s0, k));
                        }
                    }
                });
            }
        } else {
            proof {
                assert(forall|i: int| p <= i < s0.len() ==> key < s0[i].0);
                assert(!has_key(s0, key)) by {
                    if has_key(s0, key) {
                        let i = key_index(s0, key);
                        assert(s0[i].0 == key);
                    }
                }
                assert_maps_equal!(entries_map(s0), entries_map(s0).remove(key), k => {});
            }
        }
    }

    /// The entries in strictly ascending key order; each stands for one
    /// key/value pair of the map, and every key of the map appears.
    pub fn entries(&self) -> (r: &Vec<(u64, V)>)
        requires
            self.wf(),
        ensures
            forall|i: int, j: int| 0 <= i < j < r@.len() ==> r@[i].0 < r@[j].0,
            forall|i: int|
                0 <= i < r@.len() ==> self@.contains_key(r@[i].0) && self@[r@[i].0] == r@[i].1@,
            forall|k: u64| self@.contains_key(k) ==> has_key(r@, k),
    {
        proof {
            assert forall|i: int| 0 <= i < self.entries@.len() implies self@.contains_key(
                self.entries@[i].0,
            ) && self@[self.entries@[i].0] == self.entries@[i].1@ by {
                assert(has_key(self.entries@, self.entries@[i].0));
                lemma_unique_key(self.entries@, key_index(self.entries@, self.entries@[i].0), i);
            }
        }
        &self.entries
    }
}

impl<V: View> View for SortedMap<V> {
    type V = Map<u64, V::V>;

    closed spec fn view(&self) -> Map<u64, V::V> {
        entries_map(self.entries@)
    }
}

} // verus!
