use vstd::prelude::*;

verus! {

/// The unsigned integer types, which rationals compare with and are made from.
pub trait Unsigned {}

impl Unsigned for u8 {}

impl Unsigned for u16 {}

impl Unsigned for u32 {}

impl Unsigned for u64 {}

impl Unsigned for u128 {}

impl Unsigned for usize {}

} // verus!
