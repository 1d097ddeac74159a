use vstd::prelude::*;
use vstd::arithmetic::div_mod::*;
use vstd::arithmetic::mul::*;

pub mod gcd;
pub mod consts;
pub mod eq;
pub mod ops;
pub mod laws;
pub mod pow;
pub mod unsigned;

pub use consts::Consts;
pub use unsigned::Unsigned;
use gcd::gdc_nonzerou128;

use crate::error::Error;

verus! {

/// The magnitude of an integer.
pub open spec fn abs(n: int) -> nat {
    if n < 0 {
        (-n) as nat
    } else {
        n as nat
    }
}

/// `m` with the sign that `neg` asks for.
pub open spec fn signed(m: int, neg: bool) -> int {
    if neg {
        -m
    } else {
        m
    }
}

/// `2^127`, the magnitude of `i128::MIN`.
pub open spec fn i128_min_magnitude() -> nat {
    0x8000_0000_0000_0000_0000_0000_0000_0000
}

/// The numerator and denominator that reducing `num / den` (with `den > 0`) by their gcd gives.
///
/// Zero reduces to `0 / 1`. A gcd of `2^127` only occurs for `num == i128::MIN`; the division
/// of `i128::MIN` by the gcd taken as an `i128` (that is, by itself) gives `1`.
pub open spec fn reduced(num: int, den: int) -> (int, int) {
    if num == 0 {
        (0, 1)
    } else {
        let g = gcd::gcd(abs(num), den as nat);
        if g == i128_min_magnitude() {
            (1, den / (g as int))
        } else {
            (signed((abs(num) / g) as int, num < 0), den / (g as int))
        }
    }
}

/// A numerator and denominator in lowest terms: positive denominator, no common factor.
pub open spec fn lowest_terms(v: (int, int)) -> bool {
    &&& v.1 > 0
    &&& gcd::gcd(abs(v.0), v.1 as nat) == 1
    &&& i128::MIN <= v.0 <= i128::MAX
    &&& v.1 <= u128::MAX
}

/// A rational number `num / den`, always kept in lowest terms with a positive denominator.
/// The numerator carries the sign.
#[derive(Debug, Clone, Copy)]
pub struct Rational {
    num: i128,
    den: u128,
}

/// Applies a sign to a number: `num` when `neg` is false, `-num` when it is true.
pub fn apply_sign(num: i128, neg: bool) -> (r: i128)
    requires
        !(neg && num == i128::MIN),
    ensures
        r == signed(num as int, neg),
{
    let mask: i128 = if neg { -1 } else { 0 };
    assert((num ^ -1i128) == -num - 1) by (bit_vector);
    assert((num ^ 0i128) == num) by (bit_vector);
    (num ^ mask) - mask
}

impl View for Rational {
    type V = (int, int);

    /// The numerator and the denominator.
    closed spec fn view(&self) -> (int, int) {
        (self.num as int, self.den as int)
    }
}

impl Rational {
    /// Every rational is in lowest terms.
    #[verifier::type_invariant]
    pub closed spec fn wf(self) -> bool {
        self.den > 0 && gcd::gcd(abs(self.num as int), self.den as nat) == 1
    }

    /// The view of a rational is in lowest terms.
    pub proof fn lemma_lowest_terms(self)
        requires
            self.wf(),
        ensures
            lowest_terms(self@),
    {
    }

    /// The rational with the given numerator and denominator, which must be in lowest terms.
    pub closed spec fn from_view(v: (int, int)) -> Rational {
        Rational { num: v.0 as i128, den: v.1 as u128 }
    }

    /// `from_view` gives back what it was handed.
    pub proof fn lemma_from_view(v: (int, int))
        requires
            lowest_terms(v),
        ensures
            Rational::from_view(v)@ == v,
            Rational::from_view(v).wf(),
    {
    }

    /// A rational is the one that its own view names.
    pub proof fn lemma_from_own_view(n: Rational)
        ensures
            Rational::from_view(n@) == n,
    {
    }

    /// Rationals are equal when their views are.
    pub proof fn lemma_view_injective(a: Rational, b: Rational)
        requires
            a@ == b@,
        ensures
            a == b,
    {
    }

    /// Zero, as `0 / 1`.
    pub fn zero() -> (r: Self)
        ensures
            r@ == (0int, 1int),
    {
        proof {
            reveal_with_fuel(gcd::gcd, 2);
        }
        Rational { num: 0, den: 1 }
    }

    /// Reduces `num / den` to lowest terms.
    pub(crate) fn const_reduce(num: i128, den: u128) -> (r: Rational)
        requires
            den > 0,
        ensures
            r@ == reduced(num as int, den as int),
    {
        if num == 0 {
            return Self::zero();
        }
        let a = abs_i128(num);
        let g = gdc_nonzerou128(a, den);
        proof {
            lemma_reduced_lowest_terms(num as int, den as int);
            gcd::lemma_gcd_le(a as nat, den as nat);
            lemma_div_pos_is_pos(den as int, g as int);
            lemma_div_is_ordered_by_denominator(den as int, 1, g as int);
            lemma_div_is_ordered_by_denominator(a as int, 1, g as int);
        }
        let new_num: i128 = if g == 0x8000_0000_0000_0000_0000_0000_0000_0000u128 {
            1
        } else if g == 1 {
            num
        } else {
            proof {
                lemma_magnitude_below_min(a as nat, g as nat);
            }
            let q = (a / g) as i128;
            if num < 0 {
                -q
            } else {
                q
            }
        };
        Rational { num: new_num, den: den / g }
    }

    /// Makes the rational `num / den` in lowest terms; fails when `den` is zero.
    pub fn new(num: i128, den: u128) -> (r: Result<Self, Error>)
        ensures
            den == 0 ==> r == Err::<Self, Error>(Error::DivisionByZero),
            den != 0 ==> (r matches Ok(v) && v@ == reduced(num as int, den as int)),
    {
        if den == 0 {
            return Err(Error::DivisionByZero);
        }
        if num == 0 {
            return Ok(Self::zero());
        }
        Ok(Self::const_reduce(num, den))
    }

    /// Makes the rational `num / den` in lowest terms; `den` must not be zero.
    pub fn unwrap_new(num: i128, den: u128) -> (r: Self)
        requires
            den != 0,
        ensures
            r@ == reduced(num as int, den as int),
    {
        if num == 0 {
            return Self::zero();
        }
        Self::const_reduce(num, den)
    }

    /// Reduces in place to lowest terms, which leaves the value as it was.
    pub fn reduce_in_place(&mut self) -> (r: &mut Self)
        ensures
            (*r)@ == reduced(old(self)@.0, old(self)@.1),
            (*r)@ == old(self)@,
            *final(self) == *final(r),
    {
        proof {
            use_type_invariant(&*self);
            lemma_reduced_of_lowest_terms(self@);
        }
        let reduced = Self::const_reduce(self.num, self.den);
        *self = reduced;
        self
    }

    /// The rational reduced to lowest terms, which is the rational itself.
    pub fn reduce(&self) -> (r: Self)
        ensures
            r@ == reduced(self@.0, self@.1),
            r@ == self@,
    {
        proof {
            use_type_invariant(self);
            lemma_reduced_of_lowest_terms(self@);
        }
        Self::const_reduce(self.num, self.den)
    }

    /// Negation; `num` must not be `i128::MIN`.
    pub fn const_neg(self) -> (r: Self)
        requires
            self@.0 != i128::MIN,
        ensures
            r@ == (-self@.0, self@.1),
    {
        proof {
            use_type_invariant(&self);
        }
        Rational { num: -self.num, den: self.den }
    }

    /// Whether the denominator is one.
    pub fn is_integer(&self) -> (r: bool)
        ensures
            r == (self@.1 == 1),
    {
        self.den == 1
    }

    /// Whether the rational is below zero.
    pub fn is_neg(&self) -> (r: bool)
        ensures
            r == (self@.0 < 0),
    {
        self.num < 0
    }

    /// The magnitude of the numerator.
    pub fn abs_num(&self) -> (r: u128)
        ensures
            r == abs(self@.0),
    {
        abs_i128(self.num)
    }

    /// The denominator.
    pub fn den(&self) -> (r: u128)
        ensures
            r == self@.1,
            r > 0,
    {
        proof {
            use_type_invariant(self);
        }
        self.den
    }

    /// The numerator.
    pub fn num(&self) -> (r: i128)
        ensures
            r == self@.0,
    {
        self.num
    }
}

impl Default for Rational {
    /// Zero.
    fn default() -> (r: Self)
        ensures
            r@ == (0int, 1int),
    {
        Rational::zero()
    }
}

/// The magnitude of an `i128`, as `i128::unsigned_abs` gives it.
pub fn abs_i128(n: i128) -> (r: u128)
    ensures
        r == abs(n as int),
{
    if n < 0 {
        if n == i128::MIN {
            0x8000_0000_0000_0000_0000_0000_0000_0000u128
        } else {
            (-n) as u128
        }
    } else {
        n as u128
    }
}

/// Dividing a magnitude of at most `2^127` by a divisor of at least two gives an `i128`.
proof fn lemma_magnitude_below_min(a: nat, g: nat)
    requires
        a <= i128_min_magnitude(),
        2 <= g,
    ensures
        a / g <= i128::MAX,
{
    lemma_div_is_ordered_by_denominator(a as int, 2, g as int);
}

/// `reduced` gives a pair in lowest terms within the machine ranges.
proof fn lemma_reduced_lowest_terms(num: int, den: int)
    requires
        i128::MIN <= num <= i128::MAX,
        0 < den <= u128::MAX,
    ensures
        lowest_terms(reduced(num, den)),
        num != 0 ==> gcd::gcd(abs(num), den as nat) > 0,
        num != 0 ==> gcd::divides(gcd::gcd(abs(num), den as nat), abs(num)),
        num != 0 ==> gcd::divides(gcd::gcd(abs(num), den as nat), den as nat),
{
    if num == 0 {
        reveal_with_fuel(gcd::gcd, 2);
    } else {
        let a = abs(num);
        let d = den as nat;
        let g = gcd::gcd(a, d);
        gcd::lemma_gcd_quotients_coprime(a, d);
        gcd::lemma_gcd_divides(a, d);
        gcd::lemma_divides_le(g, d);
        gcd::lemma_divides_le(g, a);
        lemma_div_pos_is_pos(d as int, g as int);
        lemma_div_is_ordered_by_denominator(d as int, 1, g as int);
        lemma_div_is_ordered_by_denominator(a as int, 1, g as int);
        lemma_fundamental_div_mod(d as int, g as int);
        if d / g == 0 {
            assert(d == g * 0);
            assert(false);
        }
        if g == i128_min_magnitude() {
            lemma_gcd_one_left((d / g) as nat);
        } else if g == 1 {
            assert(a / 1 == a);
            assert(d / 1 == d);
        } else {
            lemma_magnitude_below_min(a, g);
            assert(abs(signed((a / g) as int, num < 0)) == a / g);
        }
    }
}

/// `gcd(1, n) == 1`.
pub proof fn lemma_gcd_one_left(n: nat)
    ensures
        gcd::gcd(1, n) == 1,
{
    gcd::lemma_gcd_divides(1, n);
    gcd::lemma_gcd_pos(1, n);
    gcd::lemma_divides_le(gcd::gcd(1, n), 1);
}

/// A pair already in lowest terms is left as it is by `reduced`.
pub proof fn lemma_reduced_of_lowest_terms(v: (int, int))
    requires
        lowest_terms(v),
    ensures
        reduced(v.0, v.1) == v,
{
    if v.0 == 0 {
        // gcd(0, d) == d == 1
        reveal_with_fuel(gcd::gcd, 2);
        lemma_small_mod(0, v.1 as nat);
    } else {
        let g = gcd::gcd(abs(v.0), v.1 as nat);
        assert(g == 1);
        assert(abs(v.0) / 1 == abs(v.0));
        assert(v.1 / 1 == v.1);
    }
}

/// An integer over one is in lowest terms, and reducing leaves it as it is.
pub proof fn lemma_integer_lowest_terms(n: int)
    requires
        i128::MIN <= n <= i128::MAX,
    ensures
        lowest_terms((n, 1int)),
        reduced(n, 1) == (n, 1int),
{
    reveal_with_fuel(gcd::gcd, 2);
    lemma_small_mod(0, 1);
    assert(abs(n) % 1 == 0);
    lemma_reduced_of_lowest_terms((n, 1int));
}

} // verus!
