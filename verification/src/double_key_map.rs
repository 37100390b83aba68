//! A map whose entries can be found by either of two keys.

use std::collections::HashMap;
use std::hash::Hash;
use vstd::prelude::*;

verus! {

broadcast use vstd::std_specs::hash::group_hash_axioms;

/// Entries `(k1, k2, v)` in which no `k1` and no `k2` occurs twice.
#[verifier::reject_recursive_types(K1)]
#[verifier::reject_recursive_types(K2)]
pub struct DoubleKeyMap<K1, K2, V> {
    data: Vec<(K1, K2, V)>,
    map1: HashMap<K1, usize>,
    map2: HashMap<K2, usize>,
}

impl<K1, K2, V> DoubleKeyMap<K1, K2, V> {
    /// The entries, found by their first key.
    pub closed spec fn by1(&self) -> Map<K1, (K2, V)> {
        Map::new(
            |k1: K1| self.map1@.contains_key(k1),
            |k1: K1| (self.data@[self.map1@[k1] as int].1, self.data@[self.map1@[k1] as int].2),
        )
    }

    /// The entries, found by their second key.
    pub closed spec fn by2(&self) -> Map<K2, (K1, V)> {
        Map::new(
            |k2: K2| self.map2@.contains_key(k2),
            |k2: K2| (self.data@[self.map2@[k2] as int].0, self.data@[self.map2@[k2] as int].2),
        )
    }

    /// The entries but for the one under the second key `k2`, found by their first key.
    pub open spec fn by1_without(&self, k2: K2) -> Map<K1, (K2, V)> {
        if self.by2().contains_key(k2) {
            self.by1().remove(self.by2()[k2].0)
        } else {
            self.by1()
        }
    }

    /// The entries but for the one under the first key `k1`, found by their second key.
    pub open spec fn by2_without(&self, k1: K1) -> Map<K2, (K1, V)> {
        if self.by1().contains_key(k1) {
            self.by2().remove(self.by1()[k1].0)
        } else {
            self.by2()
        }
    }

    /// Both indexes point at exactly the entries of `data`.
    closed spec fn indexed(&self) -> bool {
        &&& forall|i: int|
            #![trigger self.data@[i]]
            0 <= i < self.data@.len() ==> {
                &&& self.map1@.contains_key(self.data@[i].0)
                &&& self.map1@[self.data@[i].0] == i
                &&& self.map2@.contains_key(self.data@[i].1)
                &&& self.map2@[self.data@[i].1] == i
            }
        &&& forall|k1: K1| #[trigger]
            self.map1@.contains_key(k1) ==> {
                &&& self.map1@[k1] < self.data@.len()
                &&& self.data@[self.map1@[k1] as int].0 == k1
            }
        &&& forall|k2: K2| #[trigger]
            self.map2@.contains_key(k2) ==> {
                &&& self.map2@[k2] < self.data@.len()
                &&& self.data@[self.map2@[k2] as int].1 == k2
            }
    }

    /// The map is in a valid state: both keys hash lawfully and both indexes match the entries.
    pub closed spec fn wf(&self) -> bool {
        &&& vstd::std_specs::hash::obeys_key_model::<K1>()
        &&& vstd::std_specs::hash::obeys_key_model::<K2>()
        &&& self.indexed()
    }

    /// Every entry is found under both of its keys, with the same value.
    pub proof fn lemma_keys_agree(&self)
        requires
            self.wf(),
        ensures
            forall|k1: K1| #[trigger]
                self.by1().contains_key(k1) ==> {
                    let (k2, v) = self.by1()[k1];
                    self.by2().contains_key(k2) && self.by2()[k2] == (k1, v)
                },
            forall|k2: K2| #[trigger]
                self.by2().contains_key(k2) ==> {
                    let (k1, v) = self.by2()[k2];
                    self.by1().contains_key(k1) && self.by1()[k1] == (k2, v)
                },
    {
    }

    /// Taking out an entry right after adding it, under keys that were free, undoes the addition.
    pub proof fn lemma_remove_undoes_insert(&self, k1: K1, k2: K2, v: V)
        requires
            self.wf(),
            !self.by1().contains_key(k1),
            !self.by2().contains_key(k2),
        ensures
            self.by1_without(k2).insert(k1, (k2, v)).remove(k1) == self.by1(),
            self.by2_without(k1).insert(k2, (k1, v)).remove(k2) == self.by2(),
    {
        assert(self.by1_without(k2).insert(k1, (k2, v)).remove(k1) =~= self.by1());
        assert(self.by2_without(k1).insert(k2, (k1, v)).remove(k2) =~= self.by2());
    }

    /// Adding an entry takes away those that have one of its keys, and leaves every other entry under
    /// both of its keys, with its value.
    pub proof fn lemma_insert_keeps_others(&self, after: &Self, k1: K1, k2: K2, v: V)
        requires
            self.wf(),
            after.by1() == self.by1_without(k2).insert(k1, (k2, v)),
            after.by2() == self.by2_without(k1).insert(k2, (k1, v)),
        ensures
            after.by1().contains_key(k1),
            after.by1()[k1] == (k2, v),
            after.by2().contains_key(k2),
            after.by2()[k2] == (k1, v),
            forall|other: K1|
                other != k1 ==> (#[trigger] after.by1().contains_key(other)
                    <==> self.by1().contains_key(other) && self.by1()[other].0 != k2),
            forall|other: K1|
                other != k1 && after.by1().contains_key(other) ==> #[trigger] after.by1()[other]
                    == self.by1()[other],
            forall|other: K2|
                other != k2 ==> (#[trigger] after.by2().contains_key(other)
                    <==> self.by2().contains_key(other) && self.by2()[other].0 != k1),
            forall|other: K2|
                other != k2 && after.by2().contains_key(other) ==> #[trigger] after.by2()[other]
                    == self.by2()[other],
    {
        self.lemma_keys_agree();
    }

    /// A map without entries.
    pub fn new() -> (res: Self)
        ensures
            vstd::std_specs::hash::obeys_key_model::<K1>()
                && vstd::std_specs::hash::obeys_key_model::<K2>() ==> res.wf(),
            res.by1() == Map::<K1, (K2, V)>::empty(),
            res.by2() == Map::<K2, (K1, V)>::empty(),
    {
        let res = Self { data: Vec::new(), map1: HashMap::new(), map2: HashMap::new() };
        assert(res.by1() =~= Map::<K1, (K2, V)>::empty());
        assert(res.by2() =~= Map::<K2, (K1, V)>::empty());
        res
    }

    /// The entry under the first key `key`, if there is one.
    pub fn get1(&self, key: &K1) -> (res: Option<(&K1, &K2, &V)>) where K1: Hash + Eq
        requires
            self.wf(),
        ensures
            match res {
                Some((k1, k2, v)) => self.by1().contains_key(*key) && *k1 == *key
                    && self.by1()[*key] == (*k2, *v),
                None => !self.by1().contains_key(*key),
            },
    {
        let idx: usize = match self.map1.get(key) {
            Some(idx) => *idx,
            None => return None,
        };
        let entry = &self.data[idx];
        Some((&entry.0, &entry.1, &entry.2))
    }

    /// The entry under the second key `key`, if there is one.
    pub fn get2(&self, key: &K2) -> (res: Option<(&K1, &K2, &V)>) where K2: Hash + Eq
        requires
            self.wf(),
        ensures
            match res {
                Some((k1, k2, v)) => self.by2().contains_key(*key) && *k2 == *key
                    && self.by2()[*key] == (*k1, *v),
                None => !self.by2().contains_key(*key),
            },
    {
        let idx: usize = match self.map2.get(key) {
            Some(idx) => *idx,
            None => return None,
        };
        let entry = &self.data[idx];
        Some((&entry.0, &entry.1, &entry.2))
    }

    /// The entry under the first key `key`, with access to its value.
    pub fn get1_mut(&mut self, key: &K1) -> (res: Option<(&K1, &K2, &mut V)>) where K1: Hash + Eq
        requires
            old(self).wf(),
        ensures
            final(self).wf(),
            match res {
                Some((k1, k2, v)) => {
                    &&& old(self).by1().contains_key(*key)
                    &&& *k1 == *key
                    &&& old(self).by1()[*key] == (*k2, *v)
                    &&& final(self).by1() == old(self).by1().insert(*key, (*k2, *final(v)))
                    &&& final(self).by2() == old(self).by2().insert(*k2, (*key, *final(v)))
                },
                None => !old(self).by1().contains_key(*key) && *final(self) == *old(self),
            },
    {
        let idx: usize = match self.map1.get(key) {
            Some(idx) => *idx,
            None => return None,
        };
        let entry = &mut self.data[idx];
        Some((&entry.0, &entry.1, &mut entry.2))
    }

    /// The entry under the second key `key`, with access to its value.
    pub fn get2_mut(&mut self, key: &K2) -> (res: Option<(&K1, &K2, &mut V)>) where K2: Hash + Eq
        requires
            old(self).wf(),
        ensures
            final(self).wf(),
            match res {
                Some((k1, k2, v)) => {
                    &&& old(self).by2().contains_key(*key)
                    &&& *k2 == *key
                    &&& old(self).by2()[*key] == (*k1, *v)
                    &&& final(self).by1() == old(self).by1().insert(*k1, (*key, *final(v)))
                    &&& final(self).by2() == old(self).by2().insert(*key, (*k1, *final(v)))
                },
                None => !old(self).by2().contains_key(*key) && *final(self) == *old(self),
            },
    {
        let idx: usize = match self.map2.get(key) {
            Some(idx) => *idx,
            None => return None,
        };
        let entry = &mut self.data[idx];
        Some((&entry.0, &entry.1, &mut entry.2))
    }
}

impl<K1: Copy + Hash + Eq, K2: Copy + Hash + Eq, V> DoubleKeyMap<K1, K2, V> {
    /// Takes entry `idx` out, once its keys have left both indexes.
    ///
    /// The last entry moves into the gap, so the indexes are pointed at its new place.
    fn take_entry(&mut self, idx: usize) -> (res: (K1, K2, V))
        requires
            old(self).wf(),
            idx < old(self).data@.len(),
        ensures
            final(self).wf(),
            res == old(self).data@[idx as int],
            final(self).by1() == old(self).by1().remove(res.0),
            final(self).by2() == old(self).by2().remove(res.1),
    {
        let res = self.data.swap_remove(idx);
        self.map1.remove(&res.0);
        self.map2.remove(&res.1);
        if idx < self.data.len() {
            let k1 = self.data[idx].0;
            let k2 = self.data[idx].1;
            self.map1.insert(k1, idx);
            self.map2.insert(k2, idx);
        }
        proof {
            let old_data = old(self).data@;
            assert forall|i: int| 0 <= i < self.data@.len() implies {
                &&& self.map1@.contains_key((#[trigger] self.data@[i]).0)
                &&& self.map1@[self.data@[i].0] == i
                &&& self.map2@.contains_key(self.data@[i].1)
                &&& self.map2@[self.data@[i].1] == i
            } by {
                let j: int = if i == idx { old_data.len() - 1 } else { i };
                assert(self.data@[i] == old_data[j]);
                assert(j != idx);
                assert(old(self).map1@[old_data[idx as int].0] == idx);
                assert(old(self).map2@[old_data[idx as int].1] == idx);
                if idx < self.data@.len() {
                    assert(self.data@[idx as int] == old_data[old_data.len() - 1]);
                }
            }
            assert forall|k1: K1| #[trigger] self.map1@.contains_key(k1) implies {
                &&& self.map1@[k1] < self.data@.len()
                &&& self.data@[self.map1@[k1] as int].0 == k1
                &&& old(self).map1@.contains_key(k1)
                &&& k1 != res.0
                &&& self.by1()[k1] == old(self).by1()[k1]
            } by {
                if idx < self.data@.len() {
                    assert(self.data@[idx as int] == old_data[old_data.len() - 1]);
                }
                let j = old(self).map1@[k1];
                assert(old_data[j as int].0 == k1);
            }
            assert forall|k2: K2| #[trigger] self.map2@.contains_key(k2) implies {
                &&& self.map2@[k2] < self.data@.len()
                &&& self.data@[self.map2@[k2] as int].1 == k2
                &&& old(self).map2@.contains_key(k2)
                &&& k2 != res.1
                &&& self.by2()[k2] == old(self).by2()[k2]
            } by {
                if idx < self.data@.len() {
                    assert(self.data@[idx as int] == old_data[old_data.len() - 1]);
                }
                let j = old(self).map2@[k2];
                assert(old_data[j as int].1 == k2);
            }
            assert(self.by1() =~= old(self).by1().remove(res.0));
            assert(self.by2() =~= old(self).by2().remove(res.1));
        }
        res
    }

    /// Takes out the entry under the first key `key`, if there is one.
    pub fn remove1(&mut self, key: &K1) -> (res: Option<(K1, K2, V)>)
        requires
            old(self).wf(),
        ensures
            final(self).wf(),
            match res {
                Some((k1, k2, v)) => {
                    &&& old(self).by1().contains_key(*key)
                    &&& k1 == *key
                    &&& old(self).by1()[*key] == (k2, v)
                    &&& final(self).by1() == old(self).by1().remove(*key)
                    &&& final(self).by2() == old(self).by2().remove(k2)
                },
                None => !old(self).by1().contains_key(*key) && *final(self) == *old(self),
            },
    {
        let idx: usize = match self.map1.get(key) {
            Some(idx) => *idx,
            None => return None,
        };
        Some(self.take_entry(idx))
    }

    /// Takes out the entry under the second key `key`, if there is one.
    pub fn remove2(&mut self, key: &K2) -> (res: Option<(K1, K2, V)>)
        requires
            old(self).wf(),
        ensures
            final(self).wf(),
            match res {
                Some((k1, k2, v)) => {
                    &&& old(self).by2().contains_key(*key)
                    &&& k2 == *key
                    &&& old(self).by2()[*key] == (k1, v)
                    &&& final(self).by1() == old(self).by1().remove(k1)
                    &&& final(self).by2() == old(self).by2().remove(*key)
                },
                None => !old(self).by2().contains_key(*key) && *final(self) == *old(self),
            },
    {
        let idx: usize = match self.map2.get(key) {
            Some(idx) => *idx,
            None => return None,
        };
        Some(self.take_entry(idx))
    }

    /// Adds the entry `(k1, k2, v)`, in place of the entry under `k1` and of the one under `k2`.
    pub fn insert(&mut self, k1: K1, k2: K2, v: V)
        requires
            old(self).wf(),
        ensures
            final(self).wf(),
            final(self).by1() == old(self).by1_without(k2).insert(k1, (k2, v)),
            final(self).by2() == old(self).by2_without(k1).insert(k2, (k1, v)),
    {
        self.remove1(&k1);
        self.remove2(&k2);
        let ghost cleared = *self;
        let idx = self.data.len();
        self.data.push((k1, k2, v));
        self.map1.insert(k1, idx);
        self.map2.insert(k2, idx);
        proof {
            old(self).lemma_keys_agree();
            assert(self.indexed()) by {
                assert forall|i: int| 0 <= i < self.data@.len() implies {
                    &&& self.map1@.contains_key((#[trigger] self.data@[i]).0)
                    &&& self.map1@[self.data@[i].0] == i
                    &&& self.map2@.contains_key(self.data@[i].1)
                    &&& self.map2@[self.data@[i].1] == i
                } by {
                    if i < idx {
                        assert(self.data@[i] == cleared.data@[i]);
                        assert(cleared.by1().contains_key(cleared.data@[i].0));
                        assert(cleared.by2().contains_key(cleared.data@[i].1));
                    }
                }
            }
            assert(self.by1() =~= old(self).by1_without(k2).insert(k1, (k2, v))) by {
                assert forall|k: K1| #[trigger] self.map1@.contains_key(k) && k != k1 implies
                    self.by1()[k] == cleared.by1()[k] by {}
                assert(self.by1() =~= cleared.by1().insert(k1, (k2, v)));
            }
            assert(self.by2() =~= old(self).by2_without(k1).insert(k2, (k1, v))) by {
                assert forall|k: K2| #[trigger] self.map2@.contains_key(k) && k != k2 implies
                    self.by2()[k] == cleared.by2()[k] by {}
                assert(self.by2() =~= cleared.by2().insert(k2, (k1, v)));
            }
        }
    }
}

impl<K1, K2, V> Default for DoubleKeyMap<K1, K2, V> {
    fn default() -> (res: Self)
        ensures
            vstd::std_specs::hash::obeys_key_model::<K1>()
                && vstd::std_specs::hash::obeys_key_model::<K2>() ==> res.wf(),
            res.by1() == Map::<K1, (K2, V)>::empty(),
            res.by2() == Map::<K2, (K1, V)>::empty(),
    {
        Self::new()
    }
}

} // verus!
