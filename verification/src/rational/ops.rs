use vstd::prelude::*;
use vstd::std_specs::ops::{AddSpecImpl, DivSpecImpl, MulSpecImpl, NegSpecImpl, SubSpecImpl};

use super::{abs, apply_sign, reduced, signed, Rational};
use crate::error::Error;

verus! {

/// Whether an integer fits in an `i128`.
pub open spec fn fits_i128(n: int) -> bool {
    i128::MIN <= n <= i128::MAX
}

/// Whether an integer fits in a `u128`.
pub open spec fn fits_u128(n: int) -> bool {
    0 <= n <= u128::MAX
}

/// A denominator taken as an `i128`, as the `as` cast does it (wrapping above `i128::MAX`).
pub open spec fn den_as_i128(d: int) -> int {
    (d as i128) as int
}

/// The unreduced numerator and denominator of `a + b`, with the denominators cast to `i128`.
pub open spec fn add_parts(a: (int, int), b: (int, int)) -> (int, int) {
    (a.0 * den_as_i128(b.1) + b.0 * den_as_i128(a.1), a.1 * b.1)
}

/// `a + b` computes without overflow.
pub open spec fn add_ok(a: (int, int), b: (int, int)) -> bool {
    &&& fits_i128(a.0 * den_as_i128(b.1))
    &&& fits_i128(b.0 * den_as_i128(a.1))
    &&& fits_i128(add_parts(a, b).0)
    &&& fits_u128(add_parts(a, b).1)
}

/// The view of `a + b`.
pub open spec fn spec_add(a: (int, int), b: (int, int)) -> (int, int) {
    reduced(add_parts(a, b).0, add_parts(a, b).1)
}

/// The view of `-a`.
pub open spec fn spec_neg(a: (int, int)) -> (int, int) {
    (-a.0, a.1)
}

/// `a - b`, computed as `a + (-b)`, computes without overflow.
pub open spec fn sub_ok(a: (int, int), b: (int, int)) -> bool {
    b.0 != i128::MIN && add_ok(a, spec_neg(b))
}

/// The view of `a - b`.
pub open spec fn spec_sub(a: (int, int), b: (int, int)) -> (int, int) {
    spec_add(a, spec_neg(b))
}

/// `a * b` computes without overflow.
pub open spec fn mul_ok(a: (int, int), b: (int, int)) -> bool {
    fits_i128(a.0 * b.0) && fits_u128(a.1 * b.1)
}

/// The view of `a * b`.
pub open spec fn spec_mul(a: (int, int), b: (int, int)) -> (int, int) {
    reduced(a.0 * b.0, a.1 * b.1)
}

/// The unreduced magnitude of the numerator and the denominator of `a / b`.
pub open spec fn div_parts(a: (int, int), b: (int, int)) -> (int, int) {
    (abs(a.0) * b.1, a.1 * abs(b.0))
}

/// Whether `a / b` is negative.
pub open spec fn div_neg(a: (int, int), b: (int, int)) -> bool {
    (a.0 < 0) != (b.0 < 0)
}

/// `checked_div(a, b)` computes its parts without overflowing `u128` (it panics otherwise).
pub open spec fn div_parts_ok(a: (int, int), b: (int, int)) -> bool {
    b.0 != 0 ==> fits_u128(div_parts(a, b).0) && fits_u128(div_parts(a, b).1)
}

/// What `checked_div(a, b)` returns, with the rational taken by its view.
pub open spec fn spec_checked_div(a: (int, int), b: (int, int)) -> Result<(int, int), ()> {
    if b.0 == 0 || div_parts(a, b).0 > i128::MAX {
        Err(())
    } else {
        Ok(reduced(signed(div_parts(a, b).0, div_neg(a, b)), div_parts(a, b).1))
    }
}

/// The error of `checked_div(a, b)` when it fails.
pub open spec fn checked_div_error(a: (int, int), b: (int, int)) -> Error {
    if b.0 == 0 {
        Error::DivisionByZero
    } else {
        Error::Overflow
    }
}

impl Rational {
    /// `self + rhs`.
    pub fn add_rat(self, rhs: Rational) -> (r: Rational)
        requires
            add_ok(self@, rhs@),
        ensures
            r@ == spec_add(self@, rhs@),
    {
        let left_num = self.num * (rhs.den as i128);
        let right_num = rhs.num * (self.den as i128);
        proof {
            use_type_invariant(&self);
            use_type_invariant(&rhs);
            vstd::arithmetic::mul::lemma_mul_strictly_positive(self.den as int, rhs.den as int);
        }
        let den = self.den * rhs.den;
        Rational::unwrap_new(left_num + right_num, den)
    }

    /// `self * rhs`.
    pub fn mul_rat(self, rhs: Rational) -> (r: Rational)
        requires
            mul_ok(self@, rhs@),
        ensures
            r@ == spec_mul(self@, rhs@),
    {
        let num = self.num * rhs.num;
        proof {
            use_type_invariant(&self);
            use_type_invariant(&rhs);
            vstd::arithmetic::mul::lemma_mul_strictly_positive(self.den as int, rhs.den as int);
        }
        let den = self.den * rhs.den;
        Rational::unwrap_new(num, den)
    }

    /// `self / rhs`; fails with `DivisionByZero` when `rhs` is zero, and with `Overflow` when
    /// the numerator does not fit an `i128`.
    pub fn checked_div(self, rhs: Self) -> (r: Result<Self, Error>)
        requires
            div_parts_ok(self@, rhs@),
        ensures
            spec_checked_div(self@, rhs@) matches Ok(v) ==> (r matches Ok(q) && q@ == v),
            spec_checked_div(self@, rhs@) is Err ==> r == Err::<Rational, Error>(
                checked_div_error(self@, rhs@),
            ),
    {
        if rhs.num == 0 {
            Err(Error::DivisionByZero)
        } else {
            proof {
                use_type_invariant(&self);
                use_type_invariant(&rhs);
                vstd::arithmetic::mul::lemma_mul_strictly_positive(
                    self.den as int,
                    abs(rhs.num as int) as int,
                );
            }
            let num_mag = self.abs_num() * rhs.den;
            let den = self.den * rhs.abs_num();
            let neg = self.is_neg() ^ rhs.is_neg();
            if num_mag > i128::MAX as u128 {
                return Err(Error::Overflow);
            }
            let num = num_mag as i128;
            Ok(Self::unwrap_new(apply_sign(num, neg), den))
        }
    }
}

impl std::ops::Add for Rational {
    type Output = Rational;

    fn add(self, rhs: Rational) -> (r: Rational)
        ensures
            r@ == spec_add(self@, rhs@),
    {
        self.add_rat(rhs)
    }
}

impl AddSpecImpl for Rational {
    open spec fn obeys_add_spec() -> bool {
        true
    }

    open spec fn add_req(self, rhs: Rational) -> bool {
        add_ok(self@, rhs@)
    }

    open spec fn add_spec(self, rhs: Rational) -> Rational {
        Rational::from_view(spec_add(self@, rhs@))
    }
}

impl std::ops::Neg for Rational {
    type Output = Rational;

    fn neg(self) -> (r: Rational)
        ensures
            r@ == spec_neg(self@),
    {
        self.const_neg()
    }
}

impl NegSpecImpl for Rational {
    open spec fn obeys_neg_spec() -> bool {
        true
    }

    open spec fn neg_req(self) -> bool {
        self@.0 != i128::MIN
    }

    open spec fn neg_spec(self) -> Rational {
        Rational::from_view(spec_neg(self@))
    }
}

impl std::ops::Sub for Rational {
    type Output = Rational;

    fn sub(self, rhs: Rational) -> (r: Rational)
        ensures
            r@ == spec_sub(self@, rhs@),
    {
        self.add_rat(rhs.const_neg())
    }
}

impl SubSpecImpl for Rational {
    open spec fn obeys_sub_spec() -> bool {
        true
    }

    open spec fn sub_req(self, rhs: Rational) -> bool {
        sub_ok(self@, rhs@)
    }

    open spec fn sub_spec(self, rhs: Rational) -> Rational {
        Rational::from_view(spec_sub(self@, rhs@))
    }
}

impl std::ops::Mul for Rational {
    type Output = Rational;

    fn mul(self, rhs: Rational) -> (r: Rational)
        ensures
            r@ == spec_mul(self@, rhs@),
    {
        self.mul_rat(rhs)
    }
}

impl MulSpecImpl for Rational {
    open spec fn obeys_mul_spec() -> bool {
        true
    }

    open spec fn mul_req(self, rhs: Rational) -> bool {
        mul_ok(self@, rhs@)
    }

    open spec fn mul_spec(self, rhs: Rational) -> Rational {
        Rational::from_view(spec_mul(self@, rhs@))
    }
}

impl std::ops::Div for Rational {
    type Output = Rational;

    fn div(self, rhs: Rational) -> (r: Rational)
        ensures
            spec_checked_div(self@, rhs@) matches Ok(v) && r@ == v,
    {
        match self.checked_div(rhs) {
            Ok(v) => v,
            Err(_) => {
                proof {
                    assert(false);
                }
                Rational::zero()
            },
        }
    }
}

impl DivSpecImpl for Rational {
    open spec fn obeys_div_spec() -> bool {
        true
    }

    open spec fn div_req(self, rhs: Rational) -> bool {
        div_parts_ok(self@, rhs@) && spec_checked_div(self@, rhs@) is Ok
    }

    open spec fn div_spec(self, rhs: Rational) -> Rational {
        Rational::from_view(spec_checked_div(self@, rhs@)->Ok_0)
    }
}

impl<'a, 'b> std::ops::Add<&'b Rational> for &'a Rational {
    type Output = Rational;

    fn add(self, rhs: &'b Rational) -> (r: Rational)
        ensures
            r@ == spec_add(self@, rhs@),
    {
        (*self).add_rat(*rhs)
    }
}

impl<'a, 'b> AddSpecImpl<&'b Rational> for &'a Rational {
    open spec fn obeys_add_spec() -> bool {
        true
    }

    open spec fn add_req(self, rhs: &'b Rational) -> bool {
        add_ok(self@, rhs@)
    }

    open spec fn add_spec(self, rhs: &'b Rational) -> Rational {
        Rational::from_view(spec_add(self@, rhs@))
    }
}

impl<'b> std::ops::Add<&'b Rational> for Rational {
    type Output = Rational;

    fn add(self, rhs: &'b Rational) -> (r: Rational)
        ensures
            r@ == spec_add(self@, rhs@),
    {
        (self).add_rat(*rhs)
    }
}

impl<'b> AddSpecImpl<&'b Rational> for Rational {
    open spec fn obeys_add_spec() -> bool {
        true
    }

    open spec fn add_req(self, rhs: &'b Rational) -> bool {
        add_ok(self@, rhs@)
    }

    open spec fn add_spec(self, rhs: &'b Rational) -> Rational {
        Rational::from_view(spec_add(self@, rhs@))
    }
}

impl<'a> std::ops::Add<Rational> for &'a Rational {
    type Output = Rational;

    fn add(self, rhs: Rational) -> (r: Rational)
        ensures
            r@ == spec_add(self@, rhs@),
    {
        (*self).add_rat(rhs)
    }
}

impl<'a> AddSpecImpl<Rational> for &'a Rational {
    open spec fn obeys_add_spec() -> bool {
        true
    }

    open spec fn add_req(self, rhs: Rational) -> bool {
        add_ok(self@, rhs@)
    }

    open spec fn add_spec(self, rhs: Rational) -> Rational {
        Rational::from_view(spec_add(self@, rhs@))
    }
}

impl<'a, 'b> std::ops::Sub<&'b Rational> for &'a Rational {
    type Output = Rational;

    fn sub(self, rhs: &'b Rational) -> (r: Rational)
        ensures
            r@ == spec_sub(self@, rhs@),
    {
        (*self).add_rat((*rhs).const_neg())
    }
}

impl<'a, 'b> SubSpecImpl<&'b Rational> for &'a Rational {
    open spec fn obeys_sub_spec() -> bool {
        true
    }

    open spec fn sub_req(self, rhs: &'b Rational) -> bool {
        sub_ok(self@, rhs@)
    }

    open spec fn sub_spec(self, rhs: &'b Rational) -> Rational {
        Rational::from_view(spec_sub(self@, rhs@))
    }
}

impl<'b> std::ops::Sub<&'b Rational> for Rational {
    type Output = Rational;

    fn sub(self, rhs: &'b Rational) -> (r: Rational)
        ensures
            r@ == spec_sub(self@, rhs@),
    {
        (self).add_rat((*rhs).const_neg())
    }
}

impl<'b> SubSpecImpl<&'b Rational> for Rational {
    open spec fn obeys_sub_spec() -> bool {
        true
    }

    open spec fn sub_req(self, rhs: &'b Rational) -> bool {
        sub_ok(self@, rhs@)
    }

    open spec fn sub_spec(self, rhs: &'b Rational) -> Rational {
        Rational::from_view(spec_sub(self@, rhs@))
    }
}

impl<'a> std::ops::Sub<Rational> for &'a Rational {
    type Output = Rational;

    fn sub(self, rhs: Rational) -> (r: Rational)
        ensures
            r@ == spec_sub(self@, rhs@),
    {
        (*self).add_rat((rhs).const_neg())
    }
}

impl<'a> SubSpecImpl<Rational> for &'a Rational {
    open spec fn obeys_sub_spec() -> bool {
        true
    }

    open spec fn sub_req(self, rhs: Rational) -> bool {
        sub_ok(self@, rhs@)
    }

    open spec fn sub_spec(self, rhs: Rational) -> Rational {
        Rational::from_view(spec_sub(self@, rhs@))
    }
}

impl<'a, 'b> std::ops::Mul<&'b Rational> for &'a Rational {
    type Output = Rational;

    fn mul(self, rhs: &'b Rational) -> (r: Rational)
        ensures
            r@ == spec_mul(self@, rhs@),
    {
        (*self).mul_rat(*rhs)
    }
}

impl<'a, 'b> MulSpecImpl<&'b Rational> for &'a Rational {
    open spec fn obeys_mul_spec() -> bool {
        true
    }

    open spec fn mul_req(self, rhs: &'b Rational) -> bool {
        mul_ok(self@, rhs@)
    }

    open spec fn mul_spec(self, rhs: &'b Rational) -> Rational {
        Rational::from_view(spec_mul(self@, rhs@))
    }
}

impl<'b> std::ops::Mul<&'b Rational> for Rational {
    type Output = Rational;

    fn mul(self, rhs: &'b Rational) -> (r: Rational)
        ensures
            r@ == spec_mul(self@, rhs@),
    {
        (self).mul_rat(*rhs)
    }
}

impl<'b> MulSpecImpl<&'b Rational> for Rational {
    open spec fn obeys_mul_spec() -> bool {
        true
    }

    open spec fn mul_req(self, rhs: &'b Rational) -> bool {
        mul_ok(self@, rhs@)
    }

    open spec fn mul_spec(self, rhs: &'b Rational) -> Rational {
        Rational::from_view(spec_mul(self@, rhs@))
    }
}

impl<'a> std::ops::Mul<Rational> for &'a Rational {
    type Output = Rational;

    fn mul(self, rhs: Rational) -> (r: Rational)
        ensures
            r@ == spec_mul(self@, rhs@),
    {
        (*self).mul_rat(rhs)
    }
}

impl<'a> MulSpecImpl<Rational> for &'a Rational {
    open spec fn obeys_mul_spec() -> bool {
        true
    }

    open spec fn mul_req(self, rhs: Rational) -> bool {
        mul_ok(self@, rhs@)
    }

    open spec fn mul_spec(self, rhs: Rational) -> Rational {
        Rational::from_view(spec_mul(self@, rhs@))
    }
}

impl<'a, 'b> std::ops::Div<&'b Rational> for &'a Rational {
    type Output = Rational;

    fn div(self, rhs: &'b Rational) -> (r: Rational)
        ensures
            spec_checked_div(self@, rhs@) matches Ok(v) && r@ == v,
    {
        match (*self).checked_div(*rhs) {
            Ok(v) => v,
            Err(_) => {
                proof {
                    assert(false);
                }
                Rational::zero()
            },
        }
    }
}

impl<'a, 'b> DivSpecImpl<&'b Rational> for &'a Rational {
    open spec fn obeys_div_spec() -> bool {
        true
    }

    open spec fn div_req(self, rhs: &'b Rational) -> bool {
        div_parts_ok(self@, rhs@) && spec_checked_div(self@, rhs@) is Ok
    }

    open spec fn div_spec(self, rhs: &'b Rational) -> Rational {
        Rational::from_view(spec_checked_div(self@, rhs@)->Ok_0)
    }
}

impl<'b> std::ops::Div<&'b Rational> for Rational {
    type Output = Rational;

    fn div(self, rhs: &'b Rational) -> (r: Rational)
        ensures
            spec_checked_div(self@, rhs@) matches Ok(v) && r@ == v,
    {
        match (self).checked_div(*rhs) {
            Ok(v) => v,
            Err(_) => {
                proof {
                    assert(false);
                }
                Rational::zero()
            },
        }
    }
}

impl<'b> DivSpecImpl<&'b Rational> for Rational {
    open spec fn obeys_div_spec() -> bool {
        true
    }

    open spec fn div_req(self, rhs: &'b Rational) -> bool {
        div_parts_ok(self@, rhs@) && spec_checked_div(self@, rhs@) is Ok
    }

    open spec fn div_spec(self, rhs: &'b Rational) -> Rational {
        Rational::from_view(spec_checked_div(self@, rhs@)->Ok_0)
    }
}

impl<'a> std::ops::Div<Rational> for &'a Rational {
    type Output = Rational;

    fn div(self, rhs: Rational) -> (r: Rational)
        ensures
            spec_checked_div(self@, rhs@) matches Ok(v) && r@ == v,
    {
        match (*self).checked_div(rhs) {
            Ok(v) => v,
            Err(_) => {
                proof {
                    assert(false);
                }
                Rational::zero()
            },
        }
    }
}

impl<'a> DivSpecImpl<Rational> for &'a Rational {
    open spec fn obeys_div_spec() -> bool {
        true
    }

    open spec fn div_req(self, rhs: Rational) -> bool {
        div_parts_ok(self@, rhs@) && spec_checked_div(self@, rhs@) is Ok
    }

    open spec fn div_spec(self, rhs: Rational) -> Rational {
        Rational::from_view(spec_checked_div(self@, rhs@)->Ok_0)
    }
}

impl<'a> std::ops::Neg for &'a Rational {
    type Output = Rational;

    fn neg(self) -> (r: Rational)
        ensures
            r@ == spec_neg(self@),
    {
        (*self).const_neg()
    }
}

impl<'a> NegSpecImpl for &'a Rational {
    open spec fn obeys_neg_spec() -> bool {
        true
    }

    open spec fn neg_req(self) -> bool {
        self@.0 != i128::MIN
    }

    open spec fn neg_spec(self) -> Rational {
        Rational::from_view(spec_neg(self@))
    }
}

} // verus!
