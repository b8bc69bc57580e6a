//! An in-memory store with reads, writes and removals.

use crate::inmemory::valid_key_type;
use crate::kvstore::{copied_out, lookup};
use std::hash::Hash;
use vstd::hash_map::HashMapWithView;
use vstd::prelude::*;

verus! {

/// A store held in memory by its owner.
#[verifier::reject_recursive_types(K)]
#[verifier::reject_recursive_types(V)]
pub struct HashMapStore<K: View + Hash + Eq + Send, V: Sync + Send> {
    data: HashMapWithView<K, V>,
}

impl<K: View + Hash + Eq + Send, V: Sync + Send> View for HashMapStore<K, V> {
    type V = Map<K::V, V>;

    closed spec fn view(&self) -> Map<K::V, V> {
        self.data@
    }
}

impl<K: View + Hash + Eq + Send, V: Sync + Send> HashMapStore<K, V> {
    /// An empty store.
    pub fn new() -> (r: Self)
        requires
            valid_key_type::<K>(),
        ensures
            r@ == Map::<K::V, V>::empty(),
    {
        HashMapStore { data: HashMapWithView::new() }
    }

    /// Returns a copy of the value stored under `key`, or `None` when there is none.
    pub fn get(&self, key: &K) -> (r: Option<V>)
        where
            V: Clone,
        ensures
            copied_out(lookup(self@, key@), r),
    {
        self.data.get(key).cloned()
    }

    /// Stores `value` under `key`, replacing any earlier value.
    pub fn put(&mut self, key: K, value: V)
        ensures
            final(self)@ == old(self)@.insert(key@, value),
    {
        self.data.insert(key, value);
    }

    /// Removes whatever is stored under `key`; removing an absent key changes nothing.
    pub fn remove(&mut self, key: &K)
        ensures
            final(self)@ == old(self)@.remove(key@),
    {
        let _ = self.data.remove(key);
        assert(self@ =~= old(self)@.remove(key@));
    }
}

} // verus!
