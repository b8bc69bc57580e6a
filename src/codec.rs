//! The deterministic binary codec behind the adapter.
//!
//! Values are written in bincode's default format: fixed-width little-endian
//! integers, one byte (0 or 1) for a boolean, a `u64` length followed by the raw
//! bytes for strings and byte vectors, and the fields of a pair one after another,
//! with no padding.

use crate::kvstore::{KVStoreError, StoreResult};
use crate::sealed::Sealed;
use vstd::arithmetic::div_mod::lemma_fundamental_div_mod;
use vstd::arithmetic::power::pow;
use vstd::prelude::*;
use vstd::slice::slice_subrange;
use vstd::utf8::{encode_utf8, encode_utf8_decode_utf8};

verus! {

/// The `width` low-order bytes of `n`, least significant first.
pub open spec fn le_bytes(n: nat, width: nat) -> Seq<u8>
    decreases width,
{
    if width == 0 {
        Seq::empty()
    } else {
        seq![(n % 256) as u8] + le_bytes(n / 256, (width - 1) as nat)
    }
}

/// A sequence of bytes preceded by its length as a little-endian `u64`.
pub open spec fn length_prefixed(bytes: Seq<u8>) -> Seq<u8> {
    le_bytes(bytes.len(), 8) + bytes
}

/// `le_bytes` gives exactly `width` bytes.
proof fn lemma_le_bytes_len(n: nat, width: nat)
    ensures
        le_bytes(n, width).len() == width,
    decreases width,
{
    if width > 0 {
        lemma_le_bytes_len(n / 256, (width - 1) as nat);
    }
}

/// Numbers below `256^width` have distinct `le_bytes`.
proof fn lemma_le_bytes_injective(a: nat, b: nat, width: nat)
    requires
        le_bytes(a, width) == le_bytes(b, width),
        a < pow(256, width),
        b < pow(256, width),
    ensures
        a == b,
    decreases width,
{
    reveal_with_fuel(pow, 1);
    if width > 0 {
        let w1 = (width - 1) as nat;
        let p = pow(256, w1);
        assert(le_bytes(a / 256, w1) =~= le_bytes(a, width).drop_first());
        assert(le_bytes(b / 256, w1) =~= le_bytes(b, width).drop_first());
        assert(le_bytes(a, width)[0] == (a % 256) as u8);
        assert(le_bytes(b, width)[0] == (b % 256) as u8);
        assert(a / 256 < p) by (nonlinear_arith)
            requires
                a < 256 * p,
        ;
        assert(b / 256 < p) by (nonlinear_arith)
            requires
                b < 256 * p,
        ;
        lemma_le_bytes_injective(a / 256, b / 256, w1);
        lemma_fundamental_div_mod(a as int, 256);
        lemma_fundamental_div_mod(b as int, 256);
    }
}

/// A prefix as long as the whole is the whole.
proof fn lemma_prefix_same_len(x: Seq<u8>, y: Seq<u8>)
    requires
        x.is_prefix_of(y),
        x.len() == y.len(),
    ensures
        x == y,
{
    assert(x =~= y);
}

/// Of two prefixes of one sequence, the shorter is a prefix of the longer.
proof fn lemma_prefixes_nest(x: Seq<u8>, y: Seq<u8>, s: Seq<u8>)
    requires
        x.is_prefix_of(s),
        y.is_prefix_of(s),
        x.len() <= y.len(),
    ensures
        x.is_prefix_of(y),
{
    assert(x =~= y.subrange(0, x.len() as int));
}

/// A concatenation that starts `s`: its first part starts `s`, and its second part
/// starts what follows the first.
proof fn lemma_split_prefix(x: Seq<u8>, y: Seq<u8>, s: Seq<u8>)
    requires
        (x + y).is_prefix_of(s),
    ensures
        x.is_prefix_of(s),
        y.is_prefix_of(s.skip(x.len() as int)),
{
    assert(x =~= (x + y).subrange(0, x.len() as int));
    assert(x =~= s.subrange(0, x.len() as int));
    assert forall|i: int| 0 <= i < y.len() implies y[i] == s.skip(x.len() as int)[i] by {
        assert(y[i] == (x + y)[x.len() + i]);
        assert((x + y)[x.len() + i] == s.subrange(0, (x + y).len() as int)[x.len() + i]);
    }
    assert(y =~= s.skip(x.len() as int).subrange(0, y.len() as int));
}

/// The converse of `lemma_split_prefix`.
proof fn lemma_join_prefix(x: Seq<u8>, y: Seq<u8>, s: Seq<u8>)
    requires
        x.is_prefix_of(s),
        y.is_prefix_of(s.skip(x.len() as int)),
    ensures
        (x + y).is_prefix_of(s),
{
    assert(x + y =~= s.subrange(0, (x.len() + y.len()) as int));
}

/// A length-prefixed sequence that starts another one, shorter than `2^64` bytes,
/// is that one.
proof fn lemma_length_prefixed_prefix_free(x: Seq<u8>, y: Seq<u8>)
    requires
        length_prefixed(x).is_prefix_of(length_prefixed(y)),
        length_prefixed(y).len() < 0x1_0000_0000_0000_0000,
    ensures
        x == y,
{
    lemma_le_bytes_len(x.len(), 8);
    lemma_le_bytes_len(y.len(), 8);
    assert(le_bytes(x.len(), 8) =~= length_prefixed(x).subrange(0, 8));
    assert(le_bytes(y.len(), 8) =~= length_prefixed(y).subrange(0, 8));
    assert(length_prefixed(x).subrange(0, 8) =~= length_prefixed(y).subrange(0, 8)) by {
        assert forall|i: int| 0 <= i < 8 implies length_prefixed(x)[i] == length_prefixed(y)[i] by {
            assert(length_prefixed(x)[i] == length_prefixed(y).subrange(
                0,
                length_prefixed(x).len() as int,
            )[i]);
        }
    }
    reveal_with_fuel(pow, 9);
    lemma_le_bytes_injective(x.len(), y.len(), 8);
    lemma_prefix_same_len(length_prefixed(x), length_prefixed(y));
    assert(x =~= length_prefixed(x).skip(8));
    assert(y =~= length_prefixed(y).skip(8));
}

/// A value type with a stated encoding.
///
/// The encoding is a function of the value's view, so equal values always encode
/// to the same bytes.
pub trait BinFormat: View + Sealed {
    /// The bytes that encode a value with view `v`.
    spec fn bin_encoding(v: Self::V) -> Seq<u8>;

    /// The encodings are prefix-free: an encoding (shorter than `2^64` bytes, as
    /// any in memory is) starts with no other value's encoding. So distinct values,
    /// and distinct keys, have distinct encodings, and bytes start with the
    /// encoding of at most one value.
    proof fn lemma_encoding_prefix_free(a: Self::V, b: Self::V)
        requires
            Self::bin_encoding(a).is_prefix_of(Self::bin_encoding(b)),
            Self::bin_encoding(b).len() < 0x1_0000_0000_0000_0000,
        ensures
            a == b,
    ;
}

/// A value type that the adapter can store: it encodes to and decodes from its
/// stated format.
pub trait BinCodec: BinFormat + Sized {
    /// Encodes the value; this does not fail.
    fn to_bin(&self) -> (r: bincode::Result<Vec<u8>>)
        ensures
            r is Ok,
            r is Ok ==> r->Ok_0@ == Self::bin_encoding(self@),
    ;

    /// Decodes a value from the front of `bytes`: bytes that start with the
    /// encoding of a value decode to that value, and other bytes fail.
    fn from_bin(bytes: &[u8]) -> (r: bincode::Result<Self>)
        ensures
            r is Ok ==> Self::bin_encoding(r->Ok_0@).is_prefix_of(bytes@),
            forall|w: Self::V| #[trigger]
                Self::bin_encoding(w).is_prefix_of(bytes@) ==> r is Ok && r->Ok_0@ == w,
    ;
}

impl BinFormat for u32 {
    open spec fn bin_encoding(v: u32) -> Seq<u8> {
        le_bytes(v as nat, 4)
    }

    proof fn lemma_encoding_prefix_free(a: u32, b: u32) {
        lemma_le_bytes_len(a as nat, 4);
        lemma_le_bytes_len(b as nat, 4);
        lemma_prefix_same_len(le_bytes(a as nat, 4), le_bytes(b as nat, 4));
        reveal_with_fuel(pow, 5);
        lemma_le_bytes_injective(a as nat, b as nat, 4);
    }
}

impl BinCodec for u32 {
    fn to_bin(&self) -> (r: bincode::Result<Vec<u8>>) {
        bin_serialize(self)
    }

    fn from_bin(bytes: &[u8]) -> (r: bincode::Result<Self>) {
        bin_deserialize(bytes)
    }
}

impl BinFormat for u64 {
    open spec fn bin_encoding(v: u64) -> Seq<u8> {
        le_bytes(v as nat, 8)
    }

    proof fn lemma_encoding_prefix_free(a: u64, b: u64) {
        lemma_le_bytes_len(a as nat, 8);
        lemma_le_bytes_len(b as nat, 8);
        lemma_prefix_same_len(le_bytes(a as nat, 8), le_bytes(b as nat, 8));
        reveal_with_fuel(pow, 9);
        lemma_le_bytes_injective(a as nat, b as nat, 8);
    }
}

impl BinCodec for u64 {
    fn to_bin(&self) -> (r: bincode::Result<Vec<u8>>) {
        bin_serialize(self)
    }

    fn from_bin(bytes: &[u8]) -> (r: bincode::Result<Self>) {
        bin_deserialize(bytes)
    }
}

impl BinFormat for i32 {
    open spec fn bin_encoding(v: i32) -> Seq<u8> {
        le_bytes(((v as int + 0x1_0000_0000) % 0x1_0000_0000) as nat, 4)
    }

    proof fn lemma_encoding_prefix_free(a: i32, b: i32) {
        lemma_le_bytes_len(((a as int + 0x1_0000_0000) % 0x1_0000_0000) as nat, 4);
        lemma_le_bytes_len(((b as int + 0x1_0000_0000) % 0x1_0000_0000) as nat, 4);
        lemma_prefix_same_len(le_bytes(((a as int + 0x1_0000_0000) % 0x1_0000_0000) as nat, 4), le_bytes(((b as int + 0x1_0000_0000) % 0x1_0000_0000) as nat, 4));
        reveal_with_fuel(pow, 5);
        lemma_le_bytes_injective(
            ((a as int + 0x1_0000_0000) % 0x1_0000_0000) as nat,
            ((b as int + 0x1_0000_0000) % 0x1_0000_0000) as nat,
            4,
        );
    }
}

impl BinCodec for i32 {
    fn to_bin(&self) -> (r: bincode::Result<Vec<u8>>) {
        bin_serialize(self)
    }

    fn from_bin(bytes: &[u8]) -> (r: bincode::Result<Self>) {
        bin_deserialize(bytes)
    }
}

impl BinFormat for i64 {
    open spec fn bin_encoding(v: i64) -> Seq<u8> {
        le_bytes(((v as int + 0x1_0000_0000_0000_0000) % 0x1_0000_0000_0000_0000) as nat, 8)
    }

    proof fn lemma_encoding_prefix_free(a: i64, b: i64) {
        lemma_le_bytes_len(((a as int + 0x1_0000_0000_0000_0000) % 0x1_0000_0000_0000_0000) as nat, 8);
        lemma_le_bytes_len(((b as int + 0x1_0000_0000_0000_0000) % 0x1_0000_0000_0000_0000) as nat, 8);
        lemma_prefix_same_len(le_bytes(((a as int + 0x1_0000_0000_0000_0000) % 0x1_0000_0000_0000_0000) as nat, 8), le_bytes(((b as int + 0x1_0000_0000_0000_0000) % 0x1_0000_0000_0000_0000) as nat, 8));
        reveal_with_fuel(pow, 9);
        lemma_le_bytes_injective(
            ((a as int + 0x1_0000_0000_0000_0000) % 0x1_0000_0000_0000_0000) as nat,
            ((b as int + 0x1_0000_0000_0000_0000) % 0x1_0000_0000_0000_0000) as nat,
            8,
        );
    }
}

impl BinCodec for i64 {
    fn to_bin(&self) -> (r: bincode::Result<Vec<u8>>) {
        bin_serialize(self)
    }

    fn from_bin(bytes: &[u8]) -> (r: bincode::Result<Self>) {
        bin_deserialize(bytes)
    }
}

impl BinFormat for bool {
    open spec fn bin_encoding(v: bool) -> Seq<u8> {
        seq![if v { 1u8 } else { 0u8 }]
    }

    proof fn lemma_encoding_prefix_free(a: bool, b: bool) {
        assert(Self::bin_encoding(a)[0] == Self::bin_encoding(b)[0]);
    }
}

impl BinCodec for bool {
    fn to_bin(&self) -> (r: bincode::Result<Vec<u8>>) {
        bin_serialize(self)
    }

    fn from_bin(bytes: &[u8]) -> (r: bincode::Result<Self>) {
        bin_deserialize(bytes)
    }
}

impl BinFormat for String {
    open spec fn bin_encoding(v: Seq<char>) -> Seq<u8> {
        length_prefixed(encode_utf8(v))
    }

    proof fn lemma_encoding_prefix_free(a: Seq<char>, b: Seq<char>) {
        lemma_length_prefixed_prefix_free(encode_utf8(a), encode_utf8(b));
        encode_utf8_decode_utf8(a);
        encode_utf8_decode_utf8(b);
    }
}

impl BinCodec for String {
    fn to_bin(&self) -> (r: bincode::Result<Vec<u8>>) {
        bin_serialize(self)
    }

    fn from_bin(bytes: &[u8]) -> (r: bincode::Result<Self>) {
        bin_deserialize(bytes)
    }
}

impl BinFormat for Vec<u8> {
    open spec fn bin_encoding(v: Seq<u8>) -> Seq<u8> {
        length_prefixed(v)
    }

    proof fn lemma_encoding_prefix_free(a: Seq<u8>, b: Seq<u8>) {
        lemma_length_prefixed_prefix_free(a, b);
    }
}

impl BinCodec for Vec<u8> {
    fn to_bin(&self) -> (r: bincode::Result<Vec<u8>>) {
        bin_serialize(self)
    }

    fn from_bin(bytes: &[u8]) -> (r: bincode::Result<Self>) {
        bin_deserialize(bytes)
    }
}

impl<A: BinFormat, B: BinFormat> BinFormat for (A, B) {
    open spec fn bin_encoding(v: (A::V, B::V)) -> Seq<u8> {
        A::bin_encoding(v.0) + B::bin_encoding(v.1)
    }

    proof fn lemma_encoding_prefix_free(a: (A::V, B::V), b: (A::V, B::V)) {
        let (ea, eb) = (A::bin_encoding(a.0), A::bin_encoding(b.0));
        let s = Self::bin_encoding(b);
        assert(ea.is_prefix_of(s)) by {
            assert(ea =~= Self::bin_encoding(a).subrange(0, ea.len() as int));
        }
        assert(eb.is_prefix_of(s)) by {
            assert(eb =~= s.subrange(0, eb.len() as int));
        }
        if ea.len() <= eb.len() {
            lemma_prefixes_nest(ea, eb, s);
            A::lemma_encoding_prefix_free(a.0, b.0);
        } else {
            lemma_prefixes_nest(eb, ea, s);
            A::lemma_encoding_prefix_free(b.0, a.0);
        }
        assert(B::bin_encoding(a.1) =~= Self::bin_encoding(a).skip(ea.len() as int));
        assert(B::bin_encoding(b.1) =~= s.skip(ea.len() as int));
        assert(B::bin_encoding(a.1) =~= B::bin_encoding(b.1).subrange(
            0,
            B::bin_encoding(a.1).len() as int,
        ));
        B::lemma_encoding_prefix_free(a.1, b.1);
    }
}

/// A pair is written as its first field's encoding followed by its second's.
impl<A: BinCodec, B: BinCodec> BinCodec for (A, B) {
    fn to_bin(&self) -> (r: bincode::Result<Vec<u8>>) {
        let mut first = self.0.to_bin()?;
        let mut second = self.1.to_bin()?;
        first.append(&mut second);
        Ok(first)
    }

    fn from_bin(bytes: &[u8]) -> (r: bincode::Result<Self>) {
        proof {
            assert forall|w: (A::V, B::V)| #[trigger]
                Self::bin_encoding(w).is_prefix_of(bytes@) implies A::bin_encoding(w.0).is_prefix_of(
                bytes@,
            ) && B::bin_encoding(w.1).is_prefix_of(
                bytes@.skip(A::bin_encoding(w.0).len() as int),
            ) by {
                lemma_split_prefix(A::bin_encoding(w.0), B::bin_encoding(w.1), bytes@);
            }
        }
        let a = A::from_bin(bytes)?;
        let consumed = a.to_bin()?.len();
        let rest = slice_subrange(bytes, consumed, bytes.len());
        assert(rest@ =~= bytes@.skip(A::bin_encoding(a@).len() as int));
        let b = B::from_bin(rest)?;
        proof {
            lemma_join_prefix(A::bin_encoding(a@), B::bin_encoding(b@), bytes@);
        }
        Ok((a, b))
    }
}

/// Encoding is deterministic: two values with the same view, such as a value and
/// its copy, encode to identical bytes, and so does one value encoded twice.
pub proof fn lemma_encoding_deterministic<T: BinFormat>(a: T, b: T)
    requires
        a@ == b@,
    ensures
        T::bin_encoding(a@) == T::bin_encoding(b@),
{
}

#[verifier::external_type_specification]
#[verifier::external_body]
pub struct ExBincodeErrorKind(bincode::ErrorKind);

/// Relies on `bincode::serialize`: with its default options it writes the format
/// above, and for these types it cannot fail (every length is known and the output
/// goes to a `Vec`). `T` is one of the sealed types whose format this file states.
#[verifier::external_body]
fn bin_serialize<T: BinFormat + serde::Serialize>(value: &T) -> (r: bincode::Result<Vec<u8>>)
    ensures
        r is Ok,
        r is Ok ==> r->Ok_0@ == T::bin_encoding(value@),
{
    bincode::serialize(value)
}

/// Relies on `bincode::deserialize`: it reads a value from the front of the bytes,
/// in the format above, and ignores the bytes after it; it fails where the bytes do
/// not start with an encoding. `T` is one of the sealed types whose format this file states.
#[verifier::external_body]
fn bin_deserialize<T: BinFormat + serde::de::DeserializeOwned>(bytes: &[u8]) -> (r: bincode::Result<T>)
    ensures
        r is Ok ==> T::bin_encoding(r->Ok_0@).is_prefix_of(bytes@),
        forall|w: T::V| #[trigger]
            T::bin_encoding(w).is_prefix_of(bytes@) ==> r is Ok && r->Ok_0@ == w,
{
    bincode::deserialize(bytes)
}

/// Relies on the `Debug` text of `bincode::ErrorKind` to describe a codec failure.
#[verifier::external_body]
fn from_serde(err: bincode::Error) -> (r: KVStoreError)
    ensures
        "Bin serde error: "@.is_prefix_of(r.msg@),
{
    KVStoreError { msg: format!("Bin serde error: {:?}", err) }
}

/// Encodes a value.
pub fn to_byte<T: BinCodec>(obj: &T) -> (r: StoreResult<Vec<u8>>)
    ensures
        r matches Ok(bytes) && bytes@ == T::bin_encoding(obj@),
{
    match obj.to_bin() {
        Ok(bytes) => Ok(bytes),
        Err(err) => Err(from_serde(err)),
    }
}

/// Decodes a value from the front of `bytes`: it fails exactly where the bytes do
/// not start with an encoding.
pub fn from_byte<T: BinCodec>(bytes: &[u8]) -> (r: StoreResult<T>)
    ensures
        r matches Ok(v) ==> T::bin_encoding(v@).is_prefix_of(bytes@),
        forall|w: T::V| #[trigger]
            T::bin_encoding(w).is_prefix_of(bytes@) ==> (r matches Ok(v) && v@ == w),
        r matches Err(e) ==> "Bin serde error: "@.is_prefix_of(e.msg@),
{
    match T::from_bin(bytes) {
        Ok(v) => Ok(v),
        Err(err) => Err(from_serde(err)),
    }
}

} // verus!
