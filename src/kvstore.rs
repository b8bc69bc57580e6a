//! Capability traits of a key-value store and their common error type.

use vstd::prelude::*;

verus! {

/// The single failure kind of this layer: an opaque, descriptive message.
#[derive(Debug)]
pub struct KVStoreError {
    pub msg: String,
}

/// Outcome of a store operation.
pub type StoreResult<V> = Result<V, KVStoreError>;

/// The value held under `key` in `m`, or `None` when `m` holds nothing there.
pub open spec fn lookup<K, V>(m: Map<K, V>, key: K) -> Option<V> {
    if m.contains_key(key) {
        Some(m[key])
    } else {
        None
    }
}

/// `found` is an independent copy of `stored`: both absent, or `found` a clone of
/// the stored value.
pub open spec fn copied_out<V: Clone>(stored: Option<V>, found: Option<V>) -> bool {
    match (stored, found) {
        (None, None) => true,
        (Some(s), Some(f)) => cloned(s, f),
        _ => false,
    }
}

/// The association left by applying `writes` to `m` in order, each write replacing
/// the entry under its key, as a run of `set` calls does.
pub open spec fn apply_writes<K, V>(m: Map<K, V>, writes: Seq<(K, V)>) -> Map<K, V>
    decreases writes.len(),
{
    if writes.len() == 0 {
        m
    } else {
        apply_writes(m.insert(writes[0].0, writes[0].1), writes.drop_first())
    }
}

/// Writes to other keys leave the entry under `key` as it was.
proof fn lemma_writes_elsewhere<K, V>(m: Map<K, V>, writes: Seq<(K, V)>, key: K)
    requires
        forall|i: int| 0 <= i < writes.len() ==> writes[i].0 != key,
    ensures
        lookup(apply_writes(m, writes), key) == lookup(m, key),
    decreases writes.len(),
{
    if writes.len() > 0 {
        let rest = writes.drop_first();
        assert forall|i: int| 0 <= i < rest.len() implies rest[i].0 != key by {
            assert(rest[i] == writes[i + 1]);
        }
        lemma_writes_elsewhere(m.insert(writes[0].0, writes[0].1), rest, key);
    }
}

/// On a fresh store, a read of a key that no write has touched finds nothing.
pub proof fn lemma_fresh_key_absent<K, V: Clone>(writes: Seq<(K, V)>, key: K, found: Option<V>)
    requires
        forall|i: int| 0 <= i < writes.len() ==> writes[i].0 != key,
        copied_out(lookup(apply_writes(Map::empty(), writes), key), found),
    ensures
        found is None,
{
    lemma_writes_elsewhere(Map::empty(), writes, key);
}

/// After `set(key, val)`, a read of `key` returns a copy of `val`.
pub proof fn lemma_get_after_set<K, V: Clone>(m: Map<K, V>, key: K, val: V, found: Option<V>)
    requires
        copied_out(lookup(m.insert(key, val), key), found),
    ensures
        found is Some,
        found matches Some(f) ==> cloned(val, f),
{
}

/// Two writes to one key: the second returns the first value, and a read after
/// them returns a copy of the second.
pub proof fn lemma_set_twice<K, V: Clone>(m: Map<K, V>, key: K, v1: V, v2: V, found: Option<V>)
    requires
        copied_out(lookup(m.insert(key, v1).insert(key, v2), key), found),
    ensures
        lookup(m.insert(key, v1), key) == Some(v1),
        found is Some,
        found matches Some(f) ==> cloned(v2, f),
{
}

/// Writes to pairwise distinct keys lose no update: whatever order they are applied
/// in, each key holds its written value afterwards and every other key keeps its
/// entry.
pub proof fn lemma_disjoint_writes<K, V>(m: Map<K, V>, writes: Seq<(K, V)>)
    requires
        forall|i: int, j: int| 0 <= i < j < writes.len() ==> writes[i].0 != writes[j].0,
    ensures
        forall|i: int|
            0 <= i < writes.len() ==> lookup(apply_writes(m, writes), #[trigger] writes[i].0)
                == Some(writes[i].1),
        forall|key: K|
            (forall|i: int| 0 <= i < writes.len() ==> writes[i].0 != key) ==> lookup(
                apply_writes(m, writes),
                key,
            ) == lookup(m, key),
    decreases writes.len(),
{
    if writes.len() > 0 {
        let first = writes[0];
        let rest = writes.drop_first();
        let m1 = m.insert(first.0, first.1);
        assert forall|i: int, j: int| 0 <= i < j < rest.len() implies rest[i].0 != rest[j].0 by {
            assert(rest[i] == writes[i + 1] && rest[j] == writes[j + 1]);
        }
        lemma_disjoint_writes(m1, rest);
        assert forall|i: int| 0 <= i < rest.len() implies rest[i].0 != first.0 by {
            assert(rest[i] == writes[i + 1]);
        }
        lemma_writes_elsewhere(m1, rest, first.0);
        assert forall|i: int| 0 <= i < writes.len() implies lookup(
            apply_writes(m, writes),
            #[trigger] writes[i].0,
        ) == Some(writes[i].1) by {
            if i > 0 {
                assert(writes[i] == rest[i - 1]);
            }
        }
        assert forall|key: K|
            (forall|i: int| 0 <= i < writes.len() ==> writes[i].0 != key) implies lookup(
            apply_writes(m, writes),
            key,
        ) == lookup(m, key) by {
            assert(writes[0].0 != key);
            assert forall|i: int| 0 <= i < rest.len() implies rest[i].0 != key by {
                assert(rest[i] == writes[i + 1]);
            }
            lemma_writes_elsewhere(m1, rest, key);
        }
    }
}

/// Two runs of the same writes to pairwise distinct keys, in any two orders, leave
/// the same association.
pub proof fn lemma_write_order_irrelevant<K, V>(
    m: Map<K, V>,
    writes1: Seq<(K, V)>,
    writes2: Seq<(K, V)>,
)
    requires
        forall|i: int, j: int| 0 <= i < j < writes1.len() ==> writes1[i].0 != writes1[j].0,
        forall|i: int, j: int| 0 <= i < j < writes2.len() ==> writes2[i].0 != writes2[j].0,
        forall|w: (K, V)| writes1.contains(w) <==> writes2.contains(w),
    ensures
        apply_writes(m, writes1) == apply_writes(m, writes2),
{
    let a = apply_writes(m, writes1);
    let b = apply_writes(m, writes2);
    lemma_disjoint_writes(m, writes1);
    lemma_disjoint_writes(m, writes2);
    assert forall|key: K| lookup(a, key) == lookup(b, key) by {
        if exists|i: int| 0 <= i < writes1.len() && writes1[i].0 == key {
            let i = choose|i: int| 0 <= i < writes1.len() && writes1[i].0 == key;
            assert(writes1.contains(writes1[i]));
            let j = choose|j: int| 0 <= j < writes2.len() && writes2[j] == writes1[i];
            assert(writes2[j].0 == key);
            assert(lookup(a, writes1[i].0) == Some(writes1[i].1));
            assert(lookup(b, writes2[j].0) == Some(writes2[j].1));
        } else if exists|j: int| 0 <= j < writes2.len() && writes2[j].0 == key {
            let j = choose|j: int| 0 <= j < writes2.len() && writes2[j].0 == key;
            assert(writes2.contains(writes2[j]));
            let i = choose|i: int| 0 <= i < writes1.len() && writes1[i] == writes2[j];
            assert(writes1[i].0 == key);
        } else {
            assert(forall|i: int| 0 <= i < writes1.len() ==> writes1[i].0 != key);
            assert(forall|j: int| 0 <= j < writes2.len() ==> writes2[j].0 != key);
            assert(lookup(a, key) == lookup(m, key));
            assert(lookup(b, key) == lookup(m, key));
        }
    }
    assert(a.dom() =~= b.dom()) by {
        assert forall|key: K| a.dom().contains(key) <==> b.dom().contains(key) by {
            assert(lookup(a, key) == lookup(b, key));
        }
    }
    assert forall|key: K| a.dom().contains(key) implies a[key] == b[key] by {
        assert(lookup(a, key) == lookup(b, key));
    }
    assert(a =~= b);
}

/// Reads the value stored under one key.
///
/// A store's view is its key-value association, keyed by the views of the keys.
pub trait GetOp<K: View + Send, V: Clone + Send>: View<V = Map<K::V, V>> {
    /// Whether reads of this type of store always succeed.
    spec fn infallible_get() -> bool;

    /// Returns a copy of the value stored under `key`, or `None` when there is none.
    /// Reading never changes the store.
    fn get(&self, key: K) -> (r: StoreResult<Option<V>>)
        ensures
            r matches Ok(found) ==> copied_out(lookup(self@, key@), found),
            Self::infallible_get() ==> r is Ok,
    ;
}

/// Associates a value with one key.
pub trait SetOp<K: View + Send, V: Clone + Send>: View<V = Map<K::V, V>> {
    /// Whether writes to this type of store always succeed.
    spec fn infallible_set() -> bool;

    /// Stores `val` under `key`, replacing any earlier value, and returns the value
    /// it replaced. A failed call leaves the store as it was.
    fn set(&mut self, key: K, val: V) -> (r: StoreResult<Option<V>>)
        ensures
            r matches Ok(prev) ==> {
                &&& prev == lookup(old(self)@, key@)
                &&& final(self)@ == old(self)@.insert(key@, val)
            },
            r is Err ==> final(self)@ == old(self)@,
            Self::infallible_set() ==> r is Ok,
    ;
}

/// A store: a type with both capabilities.
pub trait KVStore<K: View + Send, V: Clone + Send>: GetOp<K, V> + SetOp<K, V> {

}

impl<K: View + Send, V: Clone + Send, Ops: GetOp<K, V> + SetOp<K, V>> KVStore<K, V> for Ops {

}

} // verus!
