use vstd::prelude::*;
use vstd::arithmetic::div_mod::*;
use vstd::arithmetic::mul::*;
use vstd::arithmetic::power2::{lemma2_to64, lemma2_to64_rest, lemma_pow2_adds, lemma_pow2_strictly_increases, lemma_pow2_unfold, pow2};

use super::eq::rational_eq;
use super::ops::{add_parts, den_as_i128, spec_add, spec_mul, spec_neg, spec_checked_div, div_parts, div_neg};
use super::{abs, gcd, i128_min_magnitude, lowest_terms, reduced, signed, Rational};

verus! {

/// `reduction_keeps_value(num, den)`: the gcd of `num` and `den` is not `2^127`, the one case
/// where reducing (dividing `i128::MIN` by itself as an `i128`) does not keep the value.
pub open spec fn reduction_keeps_value(num: int, den: int) -> bool {
    num == 0 || gcd::gcd(abs(num), den as nat) != i128_min_magnitude()
}

/// The magnitude of a product with a positive factor.
proof fn lemma_abs_mul(n: int, d: int)
    requires
        d > 0,
    ensures
        abs(n * d) == abs(n) * d,
{
    if n < 0 {
        lemma_mul_strictly_positive(-n, d);
        assert(n * d == -((-n) * d)) by (nonlinear_arith);
    } else {
        lemma_mul_nonnegative(n, d);
    }
}

/// Two pairs in lowest terms that denote the same value are the same pair.
pub proof fn lemma_lowest_terms_unique(x: (int, int), y: (int, int))
    requires
        lowest_terms(x),
        lowest_terms(y),
        x.0 * y.1 == y.0 * x.1,
    ensures
        x == y,
{
    let (n1, d1) = x;
    let (n2, d2) = y;
    lemma_abs_mul(n1, d2);
    lemma_abs_mul(n2, d1);
    let a1 = abs(n1);
    let a2 = abs(n2);
    assert(a1 * d2 == a2 * d1);
    // d1 divides a1 * d2, and is coprime to a1, so it divides d2
    gcd::lemma_gcd_comm(a1, d1 as nat);
    gcd::lemma_divides_multiple(d1 as nat, a2);
    lemma_mul_is_commutative(a2 as int, d1);
    assert(gcd::divides(d1 as nat, a1 * (d2 as nat)));
    gcd::lemma_coprime_divides(d1 as nat, a1, d2 as nat);
    gcd::lemma_gcd_comm(a2, d2 as nat);
    gcd::lemma_divides_multiple(d2 as nat, a1);
    lemma_mul_is_commutative(a1 as int, d2);
    assert(gcd::divides(d2 as nat, a2 * (d1 as nat)));
    gcd::lemma_coprime_divides(d2 as nat, a2, d1 as nat);
    gcd::lemma_divides_antisym(d1 as nat, d2 as nat);
    lemma_mul_is_commutative(d1, n1);
    lemma_mul_is_commutative(d1, n2);
    lemma_mul_equality_converse(d1, n1, n2);
}

/// Law: `==` on rationals is equality of the values they denote, and of their views.
pub proof fn law_eq_is_value_equality(a: Rational, b: Rational)
    requires
        a.wf(),
        b.wf(),
    ensures
        rational_eq(a@, b@) <==> a@ == b@,
        rational_eq(a@, b@) <==> a@.0 * b@.1 == b@.0 * a@.1,
{
    super::lemma_reduced_of_lowest_terms(a@);
    super::lemma_reduced_of_lowest_terms(b@);
    if a@.0 == 0 && b@.0 == 0 {
        reveal_with_fuel(gcd::gcd, 2);
        lemma_small_mod(0, a@.1 as nat);
        lemma_small_mod(0, b@.1 as nat);
        lemma_mul_basics(a@.1);
        lemma_mul_basics(b@.1);
    }
    if a@.0 * b@.1 == b@.0 * a@.1 {
        lemma_lowest_terms_unique(a@, b@);
    }
}

/// Law: every rational is in lowest terms, so reducing it gives it back.
pub proof fn law_reduce_identity(a: Rational)
    requires
        a.wf(),
    ensures
        lowest_terms(a@),
        reduced(a@.0, a@.1) == a@,
{
    super::lemma_reduced_of_lowest_terms(a@);
}

/// Law: reduction yields lowest terms and (outside the `i128::MIN` case) the same value.
pub proof fn law_reduced_value(num: int, den: int)
    requires
        i128::MIN <= num <= i128::MAX,
        0 < den <= u128::MAX,
    ensures
        lowest_terms(reduced(num, den)),
        reduction_keeps_value(num, den) ==> reduced(num, den).0 * den == num * reduced(num, den).1,
{
    super::lemma_reduced_lowest_terms(num, den);
    if num != 0 && reduction_keeps_value(num, den) {
        let a = abs(num);
        let g = gcd::gcd(a, den as nat);
        lemma_fundamental_div_mod(a as int, g as int);
        lemma_fundamental_div_mod(den, g as int);
        let x = a / g;
        let y = den / (g as int);
        assert(a == g * x);
        assert(den == g * y);
        let r = reduced(num, den);
        assert(r == (signed(x as int, num < 0), y));
        if num < 0 {
            assert(-x * (g * y) == -(g * x) * y) by (nonlinear_arith);
        } else {
            assert(x * (g * y) == (g * x) * y) by (nonlinear_arith);
        }
    } else if num == 0 {
        lemma_mul_basics(den);
    }
}

/// A factor of a power of two is a power of two.
proof fn lemma_pow2_factor(x: nat, y: nat, k: nat) -> (j: nat)
    requires
        x * y == pow2(k),
    ensures
        j <= k,
        x == pow2(j),
    decreases k,
{
    if k == 0 {
        lemma2_to64();
        assert(x == 1) by (nonlinear_arith)
            requires
                x * y == 1,
        ;
        0
    } else {
        lemma_pow2_unfold(k);
        let p = pow2((k - 1) as nat);
        if x % 2 == 0 {
            let h = x / 2;
            assert(x == 2 * h);
            assert(h * y == p) by (nonlinear_arith)
                requires
                    x == 2 * h,
                    x * y == 2 * p,
            ;
            let j = lemma_pow2_factor(h, y, (k - 1) as nat);
            lemma_pow2_unfold(j + 1);
            j + 1
        } else {
            assert(y % 2 == 0) by {
                lemma_mul_mod_noop(x as int, y as int, 2);
                if y % 2 == 1 {
                    assert((x % 2) * (y % 2) == 1);
                    lemma_mod_multiples_basic(p as int, 2);
                    assert((2 * p) % 2 == 0) by {
                        lemma_mul_is_commutative(2, p as int);
                    }
                }
            }
            let h = y / 2;
            assert(y == 2 * h);
            assert(x * h == p) by (nonlinear_arith)
                requires
                    y == 2 * h,
                    x * y == 2 * p,
            ;
            lemma_pow2_factor(x, h, (k - 1) as nat)
        }
    }
}

/// Powers of two with different exponents differ.
proof fn lemma_pow2_injective(e1: nat, e2: nat)
    requires
        pow2(e1) == pow2(e2),
    ensures
        e1 == e2,
{
    if e1 < e2 {
        lemma_pow2_strictly_increases(e1, e2);
    } else if e2 < e1 {
        lemma_pow2_strictly_increases(e2, e1);
    }
}

/// Summing two rationals whose denominators fit an `i128` never meets the one case where
/// reducing loses the value: the gcd of the unreduced sum and its denominator is never `2^127`.
pub proof fn lemma_sum_reduction_keeps_value(a: (int, int), b: (int, int))
    requires
        lowest_terms(a),
        lowest_terms(b),
        a.1 <= i128::MAX,
        b.1 <= i128::MAX,
        i128::MIN <= add_parts(a, b).0 <= i128::MAX,
        add_parts(a, b).1 <= u128::MAX,
    ensures
        reduction_keeps_value(add_parts(a, b).0, add_parts(a, b).1),
{
    assert(den_as_i128(a.1) == a.1);
    assert(den_as_i128(b.1) == b.1);
    let n = add_parts(a, b).0;
    let d1 = a.1 as nat;
    let d2 = b.1 as nat;
    let m = i128_min_magnitude();
    assert(n == a.0 * d2 + b.0 * d1);
    assert(add_parts(a, b).1 == d1 * d2);
    lemma_mul_strictly_positive(d1 as int, d2 as int);
    if n != 0 && gcd::gcd(abs(n), d1 * d2) == m {
        let an = abs(n);
        let dd = d1 * d2;
        gcd::lemma_gcd_divides(an, dd);
        gcd::lemma_divides_le(m, an);
        assert(an == m);
        // the denominator is a positive multiple of 2^127 below 2^128
        lemma_fundamental_div_mod(dd as int, m as int);
        let q = dd as int / m as int;
        assert(dd == m * q);
        assert(q == 1) by (nonlinear_arith)
            requires
                dd == m * q,
                0 < dd <= u128::MAX,
                m == 0x8000_0000_0000_0000_0000_0000_0000_0000int,
        ;
        assert(dd == m);
        // each denominator divides the other, by coprimality with its numerator
        let t1 = if n > 0 { d2 as int - b.0 } else { -(d2 as int) - b.0 };
        assert(a.0 * d2 == d1 * t1) by (nonlinear_arith)
            requires
                n == a.0 * d2 + b.0 * d1,
                n > 0 ==> n == d1 * d2,
                n < 0 ==> n == -(d1 * d2),
                n != 0,
                t1 == (if n > 0 { d2 as int - b.0 } else { -(d2 as int) - b.0 }),
        ;
        let t2 = if n > 0 { d1 as int - a.0 } else { -(d1 as int) - a.0 };
        assert(b.0 * d1 == d2 * t2) by (nonlinear_arith)
            requires
                n == a.0 * d2 + b.0 * d1,
                n > 0 ==> n == d1 * d2,
                n < 0 ==> n == -(d1 * d2),
                n != 0,
                t2 == (if n > 0 { d1 as int - a.0 } else { -(d1 as int) - a.0 }),
        ;
        lemma_abs_mul(a.0, d2 as int);
        lemma_abs_mul(t1, d1 as int);
        lemma_mul_is_commutative(d1 as int, t1);
        assert(a.0 * (d2 as int) == t1 * (d1 as int));
        assert(abs(a.0 * (d2 as int)) == abs(t1 * (d1 as int)));
        assert(abs(a.0) * d2 == d1 * abs(t1)) by (nonlinear_arith)
            requires
                abs(a.0) * d2 == abs(t1) * d1,
        ;
        gcd::lemma_divides_multiple(d1, abs(t1));
        gcd::lemma_gcd_comm(abs(a.0), d1);
        gcd::lemma_coprime_divides(d1, abs(a.0), d2);
        lemma_abs_mul(b.0, d1 as int);
        lemma_abs_mul(t2, d2 as int);
        lemma_mul_is_commutative(d2 as int, t2);
        assert(b.0 * (d1 as int) == t2 * (d2 as int));
        assert(abs(b.0 * (d1 as int)) == abs(t2 * (d2 as int)));
        assert(abs(b.0) * d1 == d2 * abs(t2)) by (nonlinear_arith)
            requires
                abs(b.0) * d1 == abs(t2) * d2,
        ;
        gcd::lemma_divides_multiple(d2, abs(t2));
        gcd::lemma_gcd_comm(abs(b.0), d2);
        gcd::lemma_coprime_divides(d2, abs(b.0), d1);
        gcd::lemma_divides_antisym(d1, d2);
        // so 2^127 would be a square, which no power of two with an odd exponent is
        lemma2_to64();
        lemma2_to64_rest();
        lemma_pow2_adds(63, 64);
        assert(pow2(127) == m);
        let j = lemma_pow2_factor(d1, d1, 127);
        lemma_pow2_adds(j, j);
        lemma_pow2_injective(j + j, 127);
        assert(false);
    }
}

/// Law: the sum of two rationals denotes the sum of their values, in lowest terms (when the
/// denominators fit an `i128` and the sum computes without overflow).
pub proof fn law_add_value(a: Rational, b: Rational)
    requires
        a.wf(),
        b.wf(),
        a@.1 <= i128::MAX,
        b@.1 <= i128::MAX,
        i128::MIN <= add_parts(a@, b@).0 <= i128::MAX,
        add_parts(a@, b@).1 <= u128::MAX,
    ensures
        lowest_terms(spec_add(a@, b@)),
        spec_add(a@, b@).0 * (a@.1 * b@.1) == (a@.0 * b@.1 + b@.0 * a@.1) * spec_add(a@, b@).1,
{
    assert(den_as_i128(a@.1) == a@.1);
    assert(den_as_i128(b@.1) == b@.1);
    lemma_mul_strictly_positive(a@.1, b@.1);
    a.lemma_lowest_terms();
    b.lemma_lowest_terms();
    lemma_sum_reduction_keeps_value(a@, b@);
    law_reduced_value(add_parts(a@, b@).0, add_parts(a@, b@).1);
}

/// Law: addition is commutative.
pub proof fn law_add_comm(a: (int, int), b: (int, int))
    ensures
        spec_add(a, b) == spec_add(b, a),
{
    lemma_mul_is_commutative(a.1, b.1);
}

/// Law: zero is neutral for addition.
pub proof fn law_add_zero(a: Rational)
    requires
        a.wf(),
    ensures
        spec_add((0, 1), a@) == a@,
        spec_add(a@, (0, 1)) == a@,
{
    assert(den_as_i128(1) == 1);
    lemma_mul_basics(a@.0);
    lemma_mul_basics(a@.1);
    super::lemma_reduced_of_lowest_terms(a@);
    law_add_comm((0, 1), a@);
}

/// Law: a rational minus itself is zero.
pub proof fn law_sub_self(a: Rational)
    requires
        a.wf(),
        a@.0 != i128::MIN,
    ensures
        spec_add(a@, spec_neg(a@)) == (0int, 1int),
{
    let d = den_as_i128(a@.1);
    assert(a@.0 * d + (-a@.0) * d == 0) by (nonlinear_arith);
}

/// Law: negation is an involution.
pub proof fn law_neg_neg(a: (int, int))
    ensures
        spec_neg(spec_neg(a)) == a,
{
}

/// Law: the product of two rationals denotes the product of their values (when reduction keeps
/// the value).
pub proof fn law_mul_value(a: Rational, b: Rational)
    requires
        a.wf(),
        b.wf(),
        i128::MIN <= a@.0 * b@.0 <= i128::MAX,
        a@.1 * b@.1 <= u128::MAX,
        reduction_keeps_value(a@.0 * b@.0, a@.1 * b@.1),
    ensures
        lowest_terms(spec_mul(a@, b@)),
        spec_mul(a@, b@).0 * (a@.1 * b@.1) == (a@.0 * b@.0) * spec_mul(a@, b@).1,
{
    lemma_mul_strictly_positive(a@.1, b@.1);
    law_reduced_value(a@.0 * b@.0, a@.1 * b@.1);
}

/// Law: multiplication is commutative.
pub proof fn law_mul_comm(a: (int, int), b: (int, int))
    ensures
        spec_mul(a, b) == spec_mul(b, a),
{
    lemma_mul_is_commutative(a.0, b.0);
    lemma_mul_is_commutative(a.1, b.1);
}

/// Law: a successful division denotes the quotient of the values (when reduction keeps the
/// value): `q * b == a`.
pub proof fn law_div_value(a: Rational, b: Rational)
    requires
        a.wf(),
        b.wf(),
        b@.0 != 0,
        div_parts(a@, b@).0 <= i128::MAX,
        div_parts(a@, b@).1 <= u128::MAX,
        reduction_keeps_value(
            signed(div_parts(a@, b@).0, div_neg(a@, b@)),
            div_parts(a@, b@).1,
        ),
    ensures
        spec_checked_div(a@, b@) matches Ok(q) && lowest_terms(q) && q.0 * (a@.1 * abs(b@.0))
            == (a@.0 * b@.1) * signed(1, b@.0 < 0) * q.1,
{
    let n = signed(div_parts(a@, b@).0, div_neg(a@, b@));
    let d = div_parts(a@, b@).1;
    lemma_mul_strictly_positive(a@.1, abs(b@.0) as int);
    lemma_mul_nonnegative(abs(a@.0) as int, b@.1);
    law_reduced_value(n, d);
    let q = reduced(n, d);
    // n == a.0 * b.1 * sign(b.0)
    if a@.0 < 0 {
        if b@.0 < 0 {
            assert(n == (a@.0 * b@.1) * -1) by (nonlinear_arith)
                requires n == abs(a@.0) * b@.1, a@.0 < 0, abs(a@.0) == -a@.0;
        } else {
            assert(n == (a@.0 * b@.1) * 1) by (nonlinear_arith)
                requires n == -(abs(a@.0) * b@.1), a@.0 < 0, abs(a@.0) == -a@.0;
        }
    } else {
        if b@.0 < 0 {
            assert(n == (a@.0 * b@.1) * -1) by (nonlinear_arith)
                requires n == -(abs(a@.0) * b@.1), a@.0 >= 0, abs(a@.0) == a@.0;
        } else {
            assert(n == (a@.0 * b@.1) * 1) by (nonlinear_arith)
                requires n == abs(a@.0) * b@.1, a@.0 >= 0, abs(a@.0) == a@.0;
        }
    }
}

} // verus!
