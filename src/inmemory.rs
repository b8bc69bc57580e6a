//! In-memory reference backend of [`crate::kvstore::KVStore`].

use crate::kvstore::{copied_out, lookup, GetOp, KVStoreError, SetOp, StoreResult};
use std::hash::Hash;
use vstd::hash_map::HashMapWithView;
use vstd::prelude::*;
use vstd::std_specs::hash::obeys_key_model;

verus! {

/// Key types that the in-memory backends accept: hashing and equality are stable
/// and agree with the key's view, so equal keys find one entry. Primitive integer
/// keys meet this; for other key types it is what their `Hash` and `Eq` must give.
pub open spec fn valid_key_type<K: View>() -> bool {
    &&& obeys_key_model::<K>()
    &&& forall|k1: K, k2: K| k1@ == k2@ ==> k1 == k2
}

/// A store held in memory by its owner. Reads share it, writes take it exclusively
/// (`&self` and `&mut self`), so each call sees and leaves a whole association and
/// no call fails. Tasks that share one store do so through a lock around it.
#[verifier::reject_recursive_types(K)]
#[verifier::reject_recursive_types(V)]
pub struct HashMapKVStore<K: View + Eq + Hash, V> {
    data: HashMapWithView<K, V>,
}

impl<K: View + Eq + Hash, V> View for HashMapKVStore<K, V> {
    type V = Map<K::V, V>;

    closed spec fn view(&self) -> Map<K::V, V> {
        self.data@
    }
}

impl<K: View + Eq + Hash, V> HashMapKVStore<K, V> {
    /// An empty store.
    pub fn new() -> (r: Self)
        requires
            valid_key_type::<K>(),
        ensures
            r@ == Map::<K::V, V>::empty(),
    {
        HashMapKVStore { data: HashMapWithView::new() }
    }
}

impl<K: View + Eq + Hash + Send, V: Clone + Send> GetOp<K, V> for HashMapKVStore<K, V> {
    open spec fn infallible_get() -> bool {
        true
    }

    fn get(&self, key: K) -> (r: StoreResult<Option<V>>)
        ensures
            r matches Ok(found) && copied_out(lookup(self@, key@), found),
    {
        let res = self.data.get(&key).cloned();
        Ok(res)
    }
}

impl<K: View + Eq + Hash + Send, V: Clone + Send> SetOp<K, V> for HashMapKVStore<K, V> {
    open spec fn infallible_set() -> bool {
        true
    }

    fn set(&mut self, key: K, val: V) -> (r: StoreResult<Option<V>>)
        ensures
            r is Ok,
    {
        let res = self.data.remove(&key);
        self.data.insert(key, val);
        Ok(res)
    }
}

} // verus!
