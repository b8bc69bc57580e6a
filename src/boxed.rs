//! Store traits whose operations cannot fail, and an in-memory implementation.

use crate::inmemory::valid_key_type;
use crate::kvstore::{copied_out, lookup};
use std::hash::Hash;
use vstd::hash_map::HashMapWithView;
use vstd::prelude::*;

verus! {

/// Reads the value stored under one key.
pub trait KVGet<K: View + Send, V: Clone + Send>: View<V = Map<K::V, V>> {
    /// Returns a copy of the value stored under `key`, or `None` when there is none.
    fn get(&self, key: K) -> (r: Option<V>)
        ensures
            copied_out(lookup(self@, key@), r),
    ;
}

/// Associates a value with one key.
pub trait KVSet<K: View + Send, V: Clone + Send>: View<V = Map<K::V, V>> {
    /// Stores `val` under `key` and returns the value it replaced.
    fn set(&mut self, key: K, val: V) -> (r: Option<V>)
        ensures
            r == lookup(old(self)@, key@),
            final(self)@ == old(self)@.insert(key@, val),
    ;
}

/// A store held in memory by its owner; `&mut self` gives a write exclusive access.
#[verifier::reject_recursive_types(K)]
#[verifier::reject_recursive_types(V)]
pub struct HashMapKVStorage<K: View + Eq + Hash, V> {
    data: HashMapWithView<K, V>,
}

impl<K: View + Eq + Hash, V> View for HashMapKVStorage<K, V> {
    type V = Map<K::V, V>;

    closed spec fn view(&self) -> Map<K::V, V> {
        self.data@
    }
}

impl<K: View + Eq + Hash, V> HashMapKVStorage<K, V> {
    /// An empty store.
    pub fn new() -> (r: Self)
        requires
            valid_key_type::<K>(),
        ensures
            r@ == Map::<K::V, V>::empty(),
    {
        HashMapKVStorage { data: HashMapWithView::new() }
    }
}

impl<K: View + Eq + Hash + Send + 'static, V: Clone + Send + 'static> KVGet<K, V> for HashMapKVStorage<
    K,
    V,
> {
    fn get(&self, key: K) -> (r: Option<V>) {
        self.data.get(&key).cloned()
    }
}

impl<K: View + Eq + Hash + Send + 'static, V: Clone + Send + 'static> KVSet<K, V> for HashMapKVStorage<
    K,
    V,
> {
    fn set(&mut self, key: K, val: V) -> (r: Option<V>) {
        let res = self.data.remove(&key);
        self.data.insert(key, val);
        res
    }
}

} // verus!
