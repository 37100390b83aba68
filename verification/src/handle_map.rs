//! A map from connections, kept by the number of each.

use crate::handle::ConnectionHandle;
use std::collections::HashMap;
use std::hash::Hash;
use vstd::prelude::*;

verus! {

broadcast use vstd::std_specs::hash::group_hash_axioms;

/// The keys of `map`, in the order in which it is walked.
pub fn map_keys<K: Copy + Eq + Hash, V>(map: &HashMap<K, V>) -> (res: Vec<K>)
    requires
        vstd::std_specs::hash::obeys_key_model::<K>(),
    ensures
        res@.no_duplicates(),
        res@.to_set() == map@.dom(),
{
    let mut keys: Vec<K> = Vec::new();
    for key in it: map.keys()
        invariant
            it.seq().no_duplicates(),
            it.seq().unref().to_set() == map@.dom(),
            keys@ == it.seq().take(it.index() as int).unref(),
            it.index() == it.seq().len() ==> keys@ == it.seq().unref(),
    {
        keys.push(*key);
    }
    keys
}

/// A map from connections to values.
pub struct HandleMap<V> {
    values: HashMap<u64, V>,
}

impl<V> View for HandleMap<V> {
    type V = Map<ConnectionHandle, V>;

    closed spec fn view(&self) -> Map<ConnectionHandle, V> {
        Map::new(
            |handle: ConnectionHandle| self.values@.contains_key(handle.number() as u64),
            |handle: ConnectionHandle| self.values@[handle.number() as u64],
        )
    }
}

impl<V> HandleMap<V> {
    pub fn new() -> (res: Self)
        ensures
            res@ == Map::<ConnectionHandle, V>::empty(),
    {
        let res = HandleMap { values: HashMap::new() };
        assert(res@ =~= Map::<ConnectionHandle, V>::empty());
        res
    }

    pub fn insert(&mut self, handle: ConnectionHandle, value: V)
        ensures
            final(self)@ == old(self)@.insert(handle, value),
    {
        self.values.insert(handle.as_u64(), value);
        proof {
            assert forall|other: ConnectionHandle| #[trigger]
                other.number() == handle.number() implies other == handle by {
                ConnectionHandle::lemma_number_injective(other, handle);
            }
            assert(self@ =~= old(self)@.insert(handle, value));
        }
    }

    pub fn remove(&mut self, handle: &ConnectionHandle) -> (res: Option<V>)
        ensures
            final(self)@ == old(self)@.remove(*handle),
            match res {
                Some(value) => old(self)@.contains_key(*handle) && value == old(self)@[*handle],
                None => !old(self)@.contains_key(*handle),
            },
    {
        let key: u64 = handle.as_u64();
        let res = self.values.remove(&key);
        proof {
            assert forall|other: ConnectionHandle| #[trigger]
                other.number() == handle.number() implies other == *handle by {
                ConnectionHandle::lemma_number_injective(other, *handle);
            }
            assert(self@ =~= old(self)@.remove(*handle));
        }
        res
    }

    pub fn get(&self, handle: &ConnectionHandle) -> (res: Option<&V>)
        ensures
            match res {
                Some(value) => self@.contains_key(*handle) && *value == self@[*handle],
                None => !self@.contains_key(*handle),
            },
    {
        let key: u64 = handle.as_u64();
        self.values.get(&key)
    }

    /// The connections in the map, in the order in which it is walked.
    pub fn handles(&self) -> (res: Vec<ConnectionHandle>)
        ensures
            res@.no_duplicates(),
            res@.to_set() == self@.dom(),
    {
        let keys: Vec<u64> = map_keys(&self.values);
        let mut handles: Vec<ConnectionHandle> = Vec::new();
        let mut i: usize = 0;
        while i < keys.len()
            invariant
                i <= keys@.len(),
                handles@.len() == i,
                forall|j: int|
                    0 <= j < i ==> (#[trigger] handles@[j]).number() == keys@[j],
            decreases keys@.len() - i,
        {
            handles.push(ConnectionHandle::from_u64(keys[i]));
            i = i + 1;
        }
        proof {
            assert forall|handle: ConnectionHandle| #[trigger]
                handles@.to_set().contains(handle) <==> self@.dom().contains(handle) by {
                if self@.dom().contains(handle) {
                    assert(keys@.to_set().contains(handle.number() as u64));
                    let j = choose|j: int| 0 <= j < keys@.len() && keys@[j] == handle.number();
                    ConnectionHandle::lemma_number_injective(handles@[j], handle);
                    assert(handles@.contains(handles@[j]));
                }
                if handles@.contains(handle) {
                    let j = choose|j: int| 0 <= j < handles@.len() && handles@[j] == handle;
                    assert(keys@.to_set().contains(keys@[j]));
                }
            }
            assert(handles@.to_set() =~= self@.dom());
        }
        handles
    }
}

} // verus!
