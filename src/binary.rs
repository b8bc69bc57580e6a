//! A store of typed keys and values over any store of bytes: keys and values go
//! through the codec of [`crate::codec`].

use crate::codec::{from_byte, to_byte, BinCodec, BinFormat};
use crate::kvstore::{lookup, GetOp, KVStore, SetOp, StoreResult};
use core::marker::PhantomData;
use vstd::prelude::*;

verus! {

/// The bytes of a `Vec<u8>` and of its clone agree.
proof fn lemma_cloned_bytes(a: Vec<u8>, b: Vec<u8>)
    requires
        cloned(a, b),
    ensures
        a@ == b@,
{
    if a != b {
        assert(a@ =~= b@);
    }
}

/// `bytes` start with the encoding of some value of `V`.
pub open spec fn starts_with_encoding<V: BinFormat>(bytes: Seq<u8>) -> bool {
    exists|w: V::V| #[trigger] V::bin_encoding(w).is_prefix_of(bytes)
}

/// The entry under `key` in `inner` reads as a `V`: it is absent, or its bytes
/// start with the encoding of a value.
pub open spec fn readable<V: BinFormat>(inner: Map<Seq<u8>, Vec<u8>>, key: Seq<u8>) -> bool {
    !inner.contains_key(key) || starts_with_encoding::<V>(inner[key]@)
}

/// What a successful typed read of the entry under `key` returns, given the
/// byte-level association `inner` that it reads: absence where `inner` holds
/// nothing, and otherwise the value whose encoding starts the stored bytes.
pub open spec fn typed_read<V: BinFormat>(
    inner: Map<Seq<u8>, Vec<u8>>,
    key: Seq<u8>,
    r: StoreResult<Option<V>>,
) -> bool {
    &&& r matches Ok(None) ==> !inner.contains_key(key)
    &&& r matches Ok(Some(v)) ==> inner.contains_key(key) && V::bin_encoding(v@).is_prefix_of(
        inner[key]@,
    )
    &&& forall|w: V::V|
        #![trigger V::bin_encoding(w)]
        r is Ok && inner.contains_key(key) && V::bin_encoding(w).is_prefix_of(inner[key]@) ==> (
        r matches Ok(Some(v)) && v@ == w)
}

/// What a read of the entry under `key` returns from a store whose reads do not
/// fail: absence where `inner` holds nothing, and the value whose encoding the
/// entry holds exactly.
pub open spec fn settled_read<V: BinFormat>(
    inner: Map<Seq<u8>, Vec<u8>>,
    key: Seq<u8>,
    r: StoreResult<Option<V>>,
) -> bool {
    &&& !inner.contains_key(key) ==> (r matches Ok(None))
    &&& forall|w: V::V|
        #![trigger V::bin_encoding(w)]
        inner.contains_key(key) && inner[key]@ == V::bin_encoding(w) ==> (r matches Ok(Some(v))
            && v@ == w)
}

/// A read that succeeds exactly on readable entries settles absent entries and
/// exact encodings.
proof fn lemma_settled_read<V: BinFormat>(
    inner: Map<Seq<u8>, Vec<u8>>,
    key: Seq<u8>,
    r: StoreResult<Option<V>>,
)
    requires
        typed_read(inner, key, r),
        r is Ok <==> readable::<V>(inner, key),
    ensures
        settled_read(inner, key, r),
{
    assert forall|w: V::V|
        #![trigger V::bin_encoding(w)]
        inner.contains_key(key) && inner[key]@ == V::bin_encoding(w) implies (r matches Ok(
        Some(v),
    ) && v@ == w) by {
        assert(V::bin_encoding(w) =~= inner[key]@.subrange(0, V::bin_encoding(w).len() as int));
        assert(V::bin_encoding(w).is_prefix_of(inner[key]@));
        assert(starts_with_encoding::<V>(inner[key]@));
        assert(r is Ok);
    }
}

/// `after` is `before` with the entry under `key` holding exactly `bytes`.
pub open spec fn entry_written(
    before: Map<Seq<u8>, Vec<u8>>,
    after: Map<Seq<u8>, Vec<u8>>,
    key: Seq<u8>,
    bytes: Seq<u8>,
) -> bool {
    &&& after.contains_key(key)
    &&& after[key]@ == bytes
    &&& after.remove(key) == before.remove(key)
}

/// Round trip through the adapter: once `set(key, val)` has written its entry, a
/// read of `key` from a store whose reads do not fail returns a value equal to
/// `val`.
pub proof fn lemma_bin_round_trip<K: BinFormat, V: BinFormat>(
    before: Map<Seq<u8>, Vec<u8>>,
    after: Map<Seq<u8>, Vec<u8>>,
    key: K::V,
    val: V::V,
    r: StoreResult<Option<V>>,
)
    requires
        entry_written(before, after, K::bin_encoding(key), V::bin_encoding(val)),
        settled_read(after, K::bin_encoding(key), r),
    ensures
        r matches Ok(Some(v)) && v@ == val,
{
}

/// A write through the adapter leaves the entry of every other key as it was, so
/// a read of another key returns the same outcome before and after it.
pub proof fn lemma_bin_other_keys<K: BinFormat, V: BinFormat>(
    before: Map<Seq<u8>, Vec<u8>>,
    after: Map<Seq<u8>, Vec<u8>>,
    key: K::V,
    other: K::V,
    bytes: Seq<u8>,
    r_before: StoreResult<Option<V>>,
    r_after: StoreResult<Option<V>>,
)
    requires
        entry_written(before, after, K::bin_encoding(key), bytes),
        other != key,
        K::bin_encoding(key).len() < 0x1_0000_0000_0000_0000,
        typed_read(before, K::bin_encoding(other), r_before),
        r_before is Ok <==> readable::<V>(before, K::bin_encoding(other)),
        typed_read(after, K::bin_encoding(other), r_after),
        r_after is Ok <==> readable::<V>(after, K::bin_encoding(other)),
    ensures
        lookup(after, K::bin_encoding(other)) == lookup(before, K::bin_encoding(other)),
        r_after is Ok <==> r_before is Ok,
        r_after matches Ok(None) <==> r_before matches Ok(None),
        r_after matches Ok(Some(a)) ==> (r_before matches Ok(Some(b)) && a@ == b@),
{
    let ko = K::bin_encoding(other);
    let kk = K::bin_encoding(key);
    if ko == kk {
        K::lemma_encoding_prefix_free(other, key);
    }
    assert(after.remove(kk).contains_key(ko) == after.contains_key(ko));
    assert(before.remove(kk).contains_key(ko) == before.contains_key(ko));
    if after.contains_key(ko) {
        assert(after.remove(kk)[ko] == after[ko]);
        assert(before.remove(kk)[ko] == before[ko]);
    }
    if r_after matches Ok(Some(_)) {
        assert(V::bin_encoding(r_after->Ok_0->Some_0@).is_prefix_of(before[ko]@));
    }
}

/// Turns what the wrapped store returned for one entry into a typed outcome: its
/// error unchanged, absence as absence, and stored bytes decoded, which fails
/// exactly where they do not start with an encoding.
pub fn decode_entry<V: BinCodec>(found: StoreResult<Option<Vec<u8>>>) -> (r: StoreResult<
    Option<V>,
>)
    ensures
        found matches Err(e) ==> r matches Err(d) && d == e,
        found matches Ok(None) ==> r matches Ok(None),
        found matches Ok(Some(bytes)) ==> {
            &&& r is Ok <==> starts_with_encoding::<V>(bytes@)
            &&& r matches Ok(o) ==> o matches Some(v) && V::bin_encoding(v@).is_prefix_of(bytes@)
            &&& forall|w: V::V| #[trigger]
                V::bin_encoding(w).is_prefix_of(bytes@) ==> (r matches Ok(Some(v)) && v@ == w)
            &&& r matches Err(e) ==> "Bin serde error: "@.is_prefix_of(e.msg@)
        },
{
    match found {
        Err(e) => Err(e),
        Ok(None) => Ok(None),
        Ok(Some(bytes)) => {
            let val = from_byte(bytes.as_slice())?;
            Ok(Some(val))
        },
    }
}

/// A store of `K` keys and `V` values kept, encoded, in a store of bytes.
pub struct BinKVStore<K, V, Store> {
    store: Store,
    _k: PhantomData<K>,
    _v: PhantomData<V>,
}

impl<K: BinCodec + Send, V: BinCodec + Send + Clone, Store: KVStore<Vec<u8>, Vec<u8>>> BinKVStore<
    K,
    V,
    Store,
> {
    /// The byte-level association of the wrapped store.
    pub closed spec fn inner(&self) -> Map<Seq<u8>, Vec<u8>> {
        self.store@
    }

    /// Wraps `store`.
    pub fn new(store: Store) -> (r: Self)
        ensures
            r.inner() == store@,
    {
        BinKVStore { store, _k: PhantomData, _v: PhantomData }
    }

    /// Reads the value stored under `key`: the wrapped store's bytes under the
    /// key's encoding, decoded. A failure of the wrapped store, or bytes that do
    /// not decode, is an error; over a store whose reads do not fail, the call
    /// succeeds exactly where the entry is absent or decodes.
    pub fn get(&self, key: K) -> (r: StoreResult<Option<V>>)
        ensures
            typed_read(self.inner(), K::bin_encoding(key@), r),
            <Store as GetOp<Vec<u8>, Vec<u8>>>::infallible_get() ==> {
                &&& r is Ok <==> readable::<V>(self.inner(), K::bin_encoding(key@))
                &&& settled_read(self.inner(), K::bin_encoding(key@), r)
            },
    {
        let bin_key = to_byte(&key)?;
        let bin_result = self.store.get(bin_key);
        proof {
            if bin_result matches Ok(Some(_)) {
                lemma_cloned_bytes(self.store@[K::bin_encoding(key@)], bin_result->Ok_0->Some_0);
            }
        }
        let r = decode_entry(bin_result);
        proof {
            if <Store as GetOp<Vec<u8>, Vec<u8>>>::infallible_get() {
                lemma_settled_read(self.inner(), K::bin_encoding(key@), r);
            }
        }
        r
    }

    /// Stores `val` under `key` and returns the value it replaced, decoded. When the
    /// wrapped store fails nothing changes; when only the replaced bytes fail to
    /// decode, the new value stays stored and the call reports the error. Over a
    /// store whose writes do not fail, the new entry is always written and the call
    /// succeeds exactly where the replaced entry was absent or decodes.
    pub fn set(&mut self, key: K, val: V) -> (r: StoreResult<Option<V>>)
        ensures
            typed_read(old(self).inner(), K::bin_encoding(key@), r),
            r is Ok ==> entry_written(
                old(self).inner(),
                final(self).inner(),
                K::bin_encoding(key@),
                V::bin_encoding(val@),
            ),
            r is Err ==> final(self).inner() == old(self).inner() || entry_written(
                old(self).inner(),
                final(self).inner(),
                K::bin_encoding(key@),
                V::bin_encoding(val@),
            ),
            <Store as SetOp<Vec<u8>, Vec<u8>>>::infallible_set() ==> {
                &&& entry_written(
                    old(self).inner(),
                    final(self).inner(),
                    K::bin_encoding(key@),
                    V::bin_encoding(val@),
                )
                &&& r is Ok <==> readable::<V>(old(self).inner(), K::bin_encoding(key@))
                &&& settled_read(old(self).inner(), K::bin_encoding(key@), r)
            },
    {
        let bin_key = to_byte(&key)?;
        let bin_val = to_byte(&val)?;
        let bin_result = self.store.set(bin_key, bin_val);
        assert(self.inner().remove(K::bin_encoding(key@)) =~= old(self).inner().remove(
            K::bin_encoding(key@),
        ));
        let r = decode_entry(bin_result);
        proof {
            if <Store as SetOp<Vec<u8>, Vec<u8>>>::infallible_set() {
                lemma_settled_read(old(self).inner(), K::bin_encoding(key@), r);
            }
        }
        r
    }
}

} // verus!
