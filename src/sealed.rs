//! A marker trait that only this crate implements.

use vstd::prelude::*;

verus! {

/// Implemented exactly for the types whose encoding [`crate::codec::BinCodec`] states.
pub trait Sealed {

}

impl Sealed for u32 {

}

impl Sealed for u64 {

}

impl Sealed for i32 {

}

impl Sealed for i64 {

}

impl Sealed for bool {

}

impl Sealed for String {

}

impl Sealed for Vec<u8> {

}


impl<A: Sealed, B: Sealed> Sealed for (A, B) {

}

} // verus!
