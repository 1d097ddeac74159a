use vstd::prelude::*;
use vstd::arithmetic::mul::*;
use vstd::std_specs::cmp::PartialEqSpecImpl;
use vstd::std_specs::convert::FromSpecImpl;

use super::{gcd, lemma_integer_lowest_terms, reduced, Rational};

verus! {

/// What `==` on rationals computes: both zero, or the same numerator and denominator once reduced.
pub open spec fn rational_eq(a: (int, int), b: (int, int)) -> bool {
    (a.0 == 0 && b.0 == 0) || reduced(a.0, a.1) == reduced(b.0, b.1)
}

impl PartialEq for Rational {
    fn eq(&self, other: &Self) -> (r: bool) {
        (self.num == 0 && other.num == 0) || {
            let a = self.reduce();
            let b = other.reduce();
            a.num == b.num && a.den == b.den
        }
    }
}

impl PartialEqSpecImpl for Rational {
    open spec fn obeys_eq_spec() -> bool {
        true
    }

    open spec fn eq_spec(&self, other: &Rational) -> bool {
        rational_eq(self@, other@)
    }
}

/// Whether the rational is the non-negative integer `v`.
pub open spec fn is_uint(a: (int, int), v: int) -> bool {
    a.0 >= 0 && a.0 == v && a.1 == 1
}

impl Rational {
    /// Whether the rational is the non-negative integer `other`.
    pub fn eq_uint(&self, other: u128) -> (r: bool)
        ensures
            r == is_uint(self@, other as int),
    {
        !self.is_neg() && (self.num as u128) == other && self.is_integer()
    }
}

impl PartialEq<u8> for Rational {
    fn eq(&self, other: &u8) -> (r: bool) {
        self.eq_uint(*other as u128)
    }
}

impl PartialEqSpecImpl<u8> for Rational {
    open spec fn obeys_eq_spec() -> bool {
        true
    }

    open spec fn eq_spec(&self, other: &u8) -> bool {
        is_uint(self@, *other as int)
    }
}

impl PartialEq<u16> for Rational {
    fn eq(&self, other: &u16) -> (r: bool) {
        self.eq_uint(*other as u128)
    }
}

impl PartialEqSpecImpl<u16> for Rational {
    open spec fn obeys_eq_spec() -> bool {
        true
    }

    open spec fn eq_spec(&self, other: &u16) -> bool {
        is_uint(self@, *other as int)
    }
}

impl PartialEq<u32> for Rational {
    fn eq(&self, other: &u32) -> (r: bool) {
        self.eq_uint(*other as u128)
    }
}

impl PartialEqSpecImpl<u32> for Rational {
    open spec fn obeys_eq_spec() -> bool {
        true
    }

    open spec fn eq_spec(&self, other: &u32) -> bool {
        is_uint(self@, *other as int)
    }
}

impl PartialEq<u64> for Rational {
    fn eq(&self, other: &u64) -> (r: bool) {
        self.eq_uint(*other as u128)
    }
}

impl PartialEqSpecImpl<u64> for Rational {
    open spec fn obeys_eq_spec() -> bool {
        true
    }

    open spec fn eq_spec(&self, other: &u64) -> bool {
        is_uint(self@, *other as int)
    }
}

impl PartialEq<u128> for Rational {
    fn eq(&self, other: &u128) -> (r: bool) {
        self.eq_uint(*other)
    }
}

impl PartialEqSpecImpl<u128> for Rational {
    open spec fn obeys_eq_spec() -> bool {
        true
    }

    open spec fn eq_spec(&self, other: &u128) -> bool {
        is_uint(self@, *other as int)
    }
}

impl PartialEq<usize> for Rational {
    fn eq(&self, other: &usize) -> (r: bool) {
        self.eq_uint(*other as u128)
    }
}

impl PartialEqSpecImpl<usize> for Rational {
    open spec fn obeys_eq_spec() -> bool {
        true
    }

    open spec fn eq_spec(&self, other: &usize) -> bool {
        is_uint(self@, *other as int)
    }
}

impl From<u8> for Rational {
    /// The integer `value` over one.
    fn from(value: u8) -> (r: Rational)
        ensures
            r@ == (value as int, 1int),
    {
        proof {
            lemma_integer_lowest_terms(value as int);
        }
        Rational::unwrap_new(value as i128, 1)
    }
}

impl FromSpecImpl<u8> for Rational {
    open spec fn obeys_from_spec() -> bool {
        true
    }

    open spec fn from_spec(v: u8) -> Rational {
        Rational::from_view((v as int, 1))
    }
}

impl From<u16> for Rational {
    /// The integer `value` over one.
    fn from(value: u16) -> (r: Rational)
        ensures
            r@ == (value as int, 1int),
    {
        proof {
            lemma_integer_lowest_terms(value as int);
        }
        Rational::unwrap_new(value as i128, 1)
    }
}

impl FromSpecImpl<u16> for Rational {
    open spec fn obeys_from_spec() -> bool {
        true
    }

    open spec fn from_spec(v: u16) -> Rational {
        Rational::from_view((v as int, 1))
    }
}

impl From<u32> for Rational {
    /// The integer `value` over one.
    fn from(value: u32) -> (r: Rational)
        ensures
            r@ == (value as int, 1int),
    {
        proof {
            lemma_integer_lowest_terms(value as int);
        }
        Rational::unwrap_new(value as i128, 1)
    }
}

impl FromSpecImpl<u32> for Rational {
    open spec fn obeys_from_spec() -> bool {
        true
    }

    open spec fn from_spec(v: u32) -> Rational {
        Rational::from_view((v as int, 1))
    }
}

impl From<u64> for Rational {
    /// The integer `value` over one.
    fn from(value: u64) -> (r: Rational)
        ensures
            r@ == (value as int, 1int),
    {
        proof {
            lemma_integer_lowest_terms(value as int);
        }
        Rational::unwrap_new(value as i128, 1)
    }
}

impl FromSpecImpl<u64> for Rational {
    open spec fn obeys_from_spec() -> bool {
        true
    }

    open spec fn from_spec(v: u64) -> Rational {
        Rational::from_view((v as int, 1))
    }
}

impl From<usize> for Rational {
    /// The integer `value` over one.
    fn from(value: usize) -> (r: Rational)
        ensures
            r@ == (value as int, 1int),
    {
        proof {
            lemma_integer_lowest_terms(value as int);
        }
        Rational::unwrap_new(value as i128, 1)
    }
}

impl FromSpecImpl<usize> for Rational {
    open spec fn obeys_from_spec() -> bool {
        true
    }

    open spec fn from_spec(v: usize) -> Rational {
        Rational::from_view((v as int, 1))
    }
}

impl From<u128> for Rational {
    /// The integer `value` over one, with `value` taken as an `i128` (values above `i128::MAX`
    /// wrap around to negative numbers).
    fn from(value: u128) -> (r: Rational)
        ensures
            r@ == ((value as i128) as int, 1int),
    {
        proof {
            lemma_integer_lowest_terms((value as i128) as int);
        }
        Rational::unwrap_new(value as i128, 1)
    }
}

impl FromSpecImpl<u128> for Rational {
    open spec fn obeys_from_spec() -> bool {
        true
    }

    open spec fn from_spec(v: u128) -> Rational {
        Rational::from_view(((v as i128) as int, 1))
    }
}

impl PartialEq<Rational> for u8 {
    fn eq(&self, other: &Rational) -> (r: bool) {
        other.eq_uint(*self as u128)
    }
}

impl PartialEqSpecImpl<Rational> for u8 {
    open spec fn obeys_eq_spec() -> bool {
        true
    }

    open spec fn eq_spec(&self, other: &Rational) -> bool {
        is_uint(other@, *self as int)
    }
}

impl PartialEq<Rational> for u16 {
    fn eq(&self, other: &Rational) -> (r: bool) {
        other.eq_uint(*self as u128)
    }
}

impl PartialEqSpecImpl<Rational> for u16 {
    open spec fn obeys_eq_spec() -> bool {
        true
    }

    open spec fn eq_spec(&self, other: &Rational) -> bool {
        is_uint(other@, *self as int)
    }
}

impl PartialEq<Rational> for u32 {
    fn eq(&self, other: &Rational) -> (r: bool) {
        other.eq_uint(*self as u128)
    }
}

impl PartialEqSpecImpl<Rational> for u32 {
    open spec fn obeys_eq_spec() -> bool {
        true
    }

    open spec fn eq_spec(&self, other: &Rational) -> bool {
        is_uint(other@, *self as int)
    }
}

impl PartialEq<Rational> for u64 {
    fn eq(&self, other: &Rational) -> (r: bool) {
        other.eq_uint(*self as u128)
    }
}

impl PartialEqSpecImpl<Rational> for u64 {
    open spec fn obeys_eq_spec() -> bool {
        true
    }

    open spec fn eq_spec(&self, other: &Rational) -> bool {
        is_uint(other@, *self as int)
    }
}

impl PartialEq<Rational> for u128 {
    fn eq(&self, other: &Rational) -> (r: bool) {
        other.eq_uint(*self)
    }
}

impl PartialEqSpecImpl<Rational> for u128 {
    open spec fn obeys_eq_spec() -> bool {
        true
    }

    open spec fn eq_spec(&self, other: &Rational) -> bool {
        is_uint(other@, *self as int)
    }
}

impl PartialEq<Rational> for usize {
    fn eq(&self, other: &Rational) -> (r: bool) {
        other.eq_uint(*self as u128)
    }
}

impl PartialEqSpecImpl<Rational> for usize {
    open spec fn obeys_eq_spec() -> bool {
        true
    }

    open spec fn eq_spec(&self, other: &Rational) -> bool {
        is_uint(other@, *self as int)
    }
}

impl<'a> PartialEq<u8> for &'a Rational {
    fn eq(&self, other: &u8) -> (r: bool) {
        (**self).eq_uint(*other as u128)
    }
}

impl<'a> PartialEqSpecImpl<u8> for &'a Rational {
    open spec fn obeys_eq_spec() -> bool {
        true
    }

    open spec fn eq_spec(&self, other: &u8) -> bool {
        is_uint((**self)@, *other as int)
    }
}

impl<'a> PartialEq<&'a Rational> for u8 {
    fn eq(&self, other: &&'a Rational) -> (r: bool) {
        (**other).eq_uint(*self as u128)
    }
}

impl<'a> PartialEqSpecImpl<&'a Rational> for u8 {
    open spec fn obeys_eq_spec() -> bool {
        true
    }

    open spec fn eq_spec(&self, other: &&'a Rational) -> bool {
        is_uint((**other)@, *self as int)
    }
}

impl<'a> PartialEq<u16> for &'a Rational {
    fn eq(&self, other: &u16) -> (r: bool) {
        (**self).eq_uint(*other as u128)
    }
}

impl<'a> PartialEqSpecImpl<u16> for &'a Rational {
    open spec fn obeys_eq_spec() -> bool {
        true
    }

    open spec fn eq_spec(&self, other: &u16) -> bool {
        is_uint((**self)@, *other as int)
    }
}

impl<'a> PartialEq<&'a Rational> for u16 {
    fn eq(&self, other: &&'a Rational) -> (r: bool) {
        (**other).eq_uint(*self as u128)
    }
}

impl<'a> PartialEqSpecImpl<&'a Rational> for u16 {
    open spec fn obeys_eq_spec() -> bool {
        true
    }

    open spec fn eq_spec(&self, other: &&'a Rational) -> bool {
        is_uint((**other)@, *self as int)
    }
}

impl<'a> PartialEq<u32> for &'a Rational {
    fn eq(&self, other: &u32) -> (r: bool) {
        (**self).eq_uint(*other as u128)
    }
}

impl<'a> PartialEqSpecImpl<u32> for &'a Rational {
    open spec fn obeys_eq_spec() -> bool {
        true
    }

    open spec fn eq_spec(&self, other: &u32) -> bool {
        is_uint((**self)@, *other as int)
    }
}

impl<'a> PartialEq<&'a Rational> for u32 {
    fn eq(&self, other: &&'a Rational) -> (r: bool) {
        (**other).eq_uint(*self as u128)
    }
}

impl<'a> PartialEqSpecImpl<&'a Rational> for u32 {
    open spec fn obeys_eq_spec() -> bool {
        true
    }

    open spec fn eq_spec(&self, other: &&'a Rational) -> bool {
        is_uint((**other)@, *self as int)
    }
}

impl<'a> PartialEq<u64> for &'a Rational {
    fn eq(&self, other: &u64) -> (r: bool) {
        (**self).eq_uint(*other as u128)
    }
}

impl<'a> PartialEqSpecImpl<u64> for &'a Rational {
    open spec fn obeys_eq_spec() -> bool {
        true
    }

    open spec fn eq_spec(&self, other: &u64) -> bool {
        is_uint((**self)@, *other as int)
    }
}

impl<'a> PartialEq<&'a Rational> for u64 {
    fn eq(&self, other: &&'a Rational) -> (r: bool) {
        (**other).eq_uint(*self as u128)
    }
}

impl<'a> PartialEqSpecImpl<&'a Rational> for u64 {
    open spec fn obeys_eq_spec() -> bool {
        true
    }

    open spec fn eq_spec(&self, other: &&'a Rational) -> bool {
        is_uint((**other)@, *self as int)
    }
}

impl<'a> PartialEq<u128> for &'a Rational {
    fn eq(&self, other: &u128) -> (r: bool) {
        (**self).eq_uint(*other)
    }
}

impl<'a> PartialEqSpecImpl<u128> for &'a Rational {
    open spec fn obeys_eq_spec() -> bool {
        true
    }

    open spec fn eq_spec(&self, other: &u128) -> bool {
        is_uint((**self)@, *other as int)
    }
}

impl<'a> PartialEq<&'a Rational> for u128 {
    fn eq(&self, other: &&'a Rational) -> (r: bool) {
        (**other).eq_uint(*self)
    }
}

impl<'a> PartialEqSpecImpl<&'a Rational> for u128 {
    open spec fn obeys_eq_spec() -> bool {
        true
    }

    open spec fn eq_spec(&self, other: &&'a Rational) -> bool {
        is_uint((**other)@, *self as int)
    }
}

impl<'a> PartialEq<usize> for &'a Rational {
    fn eq(&self, other: &usize) -> (r: bool) {
        (**self).eq_uint(*other as u128)
    }
}

impl<'a> PartialEqSpecImpl<usize> for &'a Rational {
    open spec fn obeys_eq_spec() -> bool {
        true
    }

    open spec fn eq_spec(&self, other: &usize) -> bool {
        is_uint((**self)@, *other as int)
    }
}

impl<'a> PartialEq<&'a Rational> for usize {
    fn eq(&self, other: &&'a Rational) -> (r: bool) {
        (**other).eq_uint(*self as u128)
    }
}

impl<'a> PartialEqSpecImpl<&'a Rational> for usize {
    open spec fn obeys_eq_spec() -> bool {
        true
    }

    open spec fn eq_spec(&self, other: &&'a Rational) -> bool {
        is_uint((**other)@, *self as int)
    }
}

} // verus!
