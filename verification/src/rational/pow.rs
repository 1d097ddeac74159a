use vstd::prelude::*;
use vstd::arithmetic::power::pow;

use super::laws::{law_reduced_value, reduction_keeps_value};
use super::{abs, apply_sign, gcd, lowest_terms, reduced, signed, Rational};
use crate::error::{Error, SpecError};
use crate::parser::expr::{Expr, SpecExpr};

verus! {

/// `u128::checked_pow`: `base` to the power `exp`, or `None` when that does not fit a `u128`.
#[verifier::external_body]
fn checked_pow(base: u128, exp: u32) -> (r: Option<u128>)
    ensures
        pow(base as int, exp as nat) <= u128::MAX ==> r == Some(pow(base as int, exp as nat) as u128),
        pow(base as int, exp as nat) > u128::MAX ==> r is None,
{
    base.checked_pow(exp)
}

/// A power of a natural number is a natural number.
proof fn lemma_pow_nonneg(b: nat, e: nat)
    ensures
        pow(b as int, e) >= 0,
{
    if b > 0 {
        vstd::arithmetic::power::lemma_pow_positive(b as int, e);
    } else if e > 0 {
        vstd::arithmetic::power::lemma0_pow(e);
    } else {
        vstd::arithmetic::power::lemma_pow0(b as int);
    }
}

/// What `a.pow(b)` gives, rationals taken by their views: an integer power `b` of `a`, failing
/// with `RootsNotImplemented` for a non-integer exponent, `Overflow` when a part leaves its
/// machine range, and `DivisionByZero` for a negative power of zero.
pub open spec fn pow_spec(a: (int, int), b: (int, int)) -> Result<(int, int), SpecError> {
    if b.1 != 1 {
        Err(SpecError::RootsNotImplemented)
    } else if abs(b.0) > u32::MAX {
        Err(SpecError::Overflow)
    } else {
        let p = abs(b.0);
        let nn = pow(abs(a.0) as int, p);
        let nd = pow(a.1, p);
        if nn > u128::MAX || nd > u128::MAX {
            Err(SpecError::Overflow)
        } else {
            let neg = a.0 < 0 && p % 2 != 0;
            let num = if b.0 < 0 {
                nd
            } else {
                nn
            };
            let den = if b.0 < 0 {
                nn
            } else {
                nd
            };
            if num > i128::MAX {
                Err(SpecError::Overflow)
            } else if den == 0 {
                Err(SpecError::DivisionByZero)
            } else {
                Ok(reduced(signed(num, neg), den))
            }
        }
    }
}

/// The power of an integer is the power of its magnitude, negated for a negative base and an
/// odd exponent.
proof fn lemma_pow_sign(x: int, p: nat)
    ensures
        pow(x, p) == signed(pow(abs(x) as int, p), x < 0 && p % 2 != 0),
    decreases p,
{
    reveal(pow);
    if p > 0 {
        lemma_pow_sign(x, (p - 1) as nat);
        let q = pow(abs(x) as int, (p - 1) as nat);
        assert(pow(x, p) == x * pow(x, (p - 1) as nat));
        assert(pow(abs(x) as int, p) == abs(x) * q);
        if x < 0 {
            if p % 2 != 0 {
                assert((p - 1) % 2 == 0);
                assert(x * q == -(abs(x) * q)) by (nonlinear_arith)
                    requires
                        x < 0,
                        abs(x) == -x,
                ;
            } else {
                assert((p - 1) % 2 != 0);
                assert(x * (-q) == abs(x) * q) by (nonlinear_arith)
                    requires
                        x < 0,
                        abs(x) == -x,
                ;
            }
        }
    }
}

/// Law: an integer power of a rational in lowest terms, where it succeeds, is in lowest terms
/// and denotes the power of the value: for `k >= 0`, `v = (a.0 / a.1)^k`, and for `k < 0`,
/// `v = (a.1 / a.0)^(-k)`.
pub proof fn law_pow_value(a: (int, int), k: int)
    requires
        lowest_terms(a),
    ensures
        pow_spec(a, (k, 1)) matches Ok(v) ==> {
            &&& lowest_terms(v)
            &&& k >= 0 ==> v.0 * pow(a.1, k as nat) == pow(a.0, k as nat) * v.1
            &&& k < 0 ==> v.0 * pow(a.0, (-k) as nat) == pow(a.1, (-k) as nat) * v.1
        },
{
    if pow_spec(a, (k, 1)) is Ok {
        let p = abs(k);
        let nn = pow(abs(a.0) as int, p);
        let nd = pow(a.1, p);
        lemma_pow_nonneg(abs(a.0), p);
        lemma_pow_nonneg(a.1 as nat, p);
        lemma_pow_sign(a.0, p);
        let neg = a.0 < 0 && p % 2 != 0;
        let num = if k < 0 { nd } else { nn };
        let den = if k < 0 { nn } else { nd };
        let n = signed(num, neg);
        assert(pow_spec(a, (k, 1)) == Ok::<(int, int), SpecError>(reduced(n, den)));
        if n != 0 {
            gcd::lemma_gcd_le(abs(n), den as nat);
        }
        assert(reduction_keeps_value(n, den));
        law_reduced_value(n, den);
        let v = reduced(n, den);
        if k < 0 {
            assert((-k) as nat == p);
            if neg {
                assert(v.0 * (-nn) == nd * v.1) by (nonlinear_arith)
                    requires
                        v.0 * nn == (-nd) * v.1,
                ;
            }
        } else {
            assert(k as nat == p);
        }
    }
}

impl Rational {
    /// `self` to the integer power `other`, as a number expression.
    pub fn pow(&self, other: &Rational) -> (r: Result<Expr, Error>)
        ensures
            pow_spec(self@, other@) matches Ok(v) ==> (r matches Ok(e) && e@ == SpecExpr::Number(
                Rational::from_view(v),
            ) && Rational::from_view(v)@ == v),
            pow_spec(self@, other@) matches Err(e) ==> (r matches Err(x) && x@ == e),
    {
        if !other.is_integer() {
            return Err(Error::RootsNotImplemented);
        }
        let p_mag = other.abs_num();
        if p_mag > u32::MAX as u128 {
            return Err(Error::Overflow);
        }
        let pow = p_mag as u32;
        let ghost p: nat = abs(other@.0);
        assert(pow as nat == p);
        proof {
            lemma_pow_nonneg(abs(self@.0), p);
            lemma_pow_nonneg(self@.1 as nat, p);
        }
        let new_num = match checked_pow(self.abs_num(), pow) {
            Some(v) => v,
            None => {
                return Err(Error::Overflow);
            },
        };
        let new_den = match checked_pow(self.den(), pow) {
            Some(v) => v,
            None => {
                return Err(Error::Overflow);
            },
        };
        // Negative when self is negative and the power is odd
        let new_neg = self.is_neg() && !(pow % 2 == 0);
        let (new_num, new_den) = if other.is_neg() {
            (new_den, new_num)
        } else {
            (new_num, new_den)
        };
        if new_num > i128::MAX as u128 {
            return Err(Error::Overflow);
        }
        let num = apply_sign(new_num as i128, new_neg);
        match Rational::new(num, new_den) {
            Ok(r) => {
                proof {
                    use_type_invariant(&r);
                    Rational::lemma_from_own_view(r);
                }
                Ok(Expr::Number(r))
            },
            Err(e) => Err(e),
        }
    }
}

} // verus!
