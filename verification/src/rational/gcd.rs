use vstd::prelude::*;
use vstd::arithmetic::div_mod::*;
use vstd::arithmetic::mul::*;
use vstd::arithmetic::power2::*;
use vstd::bits::*;

verus! {

/// Greatest common divisor of two naturals, by Euclid's recursion.
/// `gcd(n, 0) == n`, so `gcd(0, 0) == 0`.
pub open spec fn gcd(a: nat, b: nat) -> nat
    decreases b,
{
    if b == 0 {
        a
    } else {
        gcd(b, a % b)
    }
}

/// `d` divides `n` (only `0` is divided by `0`).
pub open spec fn divides(d: nat, n: nat) -> bool {
    if d == 0 {
        n == 0
    } else {
        n % d == 0
    }
}

/// Every natural divides zero and is divided by itself and by one.
pub proof fn lemma_divides_basics(n: nat)
    ensures
        divides(n, 0),
        divides(n, n),
        divides(1, n),
{
    if n > 0 {
        lemma_small_mod(0, n);
        lemma_mod_self_0(n as int);
    }
}

/// Divisibility is closed under sums.
pub proof fn lemma_divides_add(d: nat, x: nat, y: nat)
    requires
        divides(d, x),
        divides(d, y),
    ensures
        divides(d, x + y),
{
    if d > 0 {
        lemma_add_mod_noop(x as int, y as int, d as int);
        lemma_small_mod(0, d);
    }
}

/// Divisibility is closed under differences.
pub proof fn lemma_divides_sub(d: nat, x: nat, y: nat)
    requires
        divides(d, x),
        divides(d, y),
        y <= x,
    ensures
        divides(d, (x - y) as nat),
{
    if d > 0 {
        lemma_sub_mod_noop(x as int, y as int, d as int);
        lemma_small_mod(0, d);
    }
}

/// A divisor of `x` divides every multiple of `x`.
pub proof fn lemma_divides_mul(d: nat, x: nat, k: nat)
    requires
        divides(d, x),
    ensures
        divides(d, x * k),
        divides(d, k * x),
{
    lemma_mul_is_commutative(x as int, k as int);
    if d > 0 {
        lemma_mul_mod_noop_left(x as int, k as int, d as int);
        lemma_small_mod(0, d);
    } else {
        assert(x == 0);
        lemma_mul_basics(k as int);
    }
}

/// `d` divides `d * k`.
pub proof fn lemma_divides_multiple(d: nat, k: nat)
    ensures
        divides(d, d * k),
        divides(d, k * d),
{
    lemma_divides_basics(d);
    lemma_divides_mul(d, d, k);
}

/// A positive multiple of `d` is at least `d`.
pub proof fn lemma_divides_le(d: nat, n: nat)
    requires
        divides(d, n),
        n > 0,
    ensures
        d <= n,
{
    lemma_fundamental_div_mod(n as int, d as int);
    let q = n as int / d as int;
    assert(n == d * q);
    if q <= 0 {
        lemma_mul_inequality(q, 0, d as int);
        lemma_mul_is_commutative(q, d as int);
        assert(false);
    }
    lemma_mul_inequality(1, q, d as int);
    lemma_mul_is_commutative(q, d as int);
}

/// Two naturals that divide each other are equal.
pub proof fn lemma_divides_antisym(x: nat, y: nat)
    requires
        divides(x, y),
        divides(y, x),
    ensures
        x == y,
{
    if x > 0 && y > 0 {
        lemma_divides_le(x, y);
        lemma_divides_le(y, x);
    }
}

/// The gcd divides both of its arguments.
pub proof fn lemma_gcd_divides(a: nat, b: nat)
    ensures
        divides(gcd(a, b), a),
        divides(gcd(a, b), b),
    decreases b,
{
    if b == 0 {
        lemma_divides_basics(a);
    } else {
        let r = a % b;
        lemma_gcd_divides(b, r);
        let g = gcd(a, b);
        lemma_fundamental_div_mod(a as int, b as int);
        let q = (a / b) as nat;
        assert(a == b * q + r);
        lemma_divides_mul(g, b, q);
        lemma_divides_add(g, b * q, r);
    }
}

/// Every common divisor of `a` and `b` divides their gcd.
pub proof fn lemma_common_divisor_divides_gcd(a: nat, b: nat, d: nat)
    requires
        divides(d, a),
        divides(d, b),
    ensures
        divides(d, gcd(a, b)),
    decreases b,
{
    if b > 0 {
        let r = a % b;
        lemma_fundamental_div_mod(a as int, b as int);
        let q = (a / b) as nat;
        assert(a == b * q + r);
        lemma_divides_mul(d, b, q);
        lemma_divides_sub(d, a, b * q);
        assert((a - b * q) as nat == r);
        lemma_common_divisor_divides_gcd(b, r, d);
    }
}

/// The gcd is positive as soon as one argument is.
pub proof fn lemma_gcd_pos(a: nat, b: nat)
    requires
        a > 0 || b > 0,
    ensures
        gcd(a, b) > 0,
{
    lemma_gcd_divides(a, b);
}

/// The gcd of a positive number is at most that number.
pub proof fn lemma_gcd_le(a: nat, b: nat)
    ensures
        a > 0 ==> gcd(a, b) <= a,
        b > 0 ==> gcd(a, b) <= b,
{
    lemma_gcd_divides(a, b);
    if a > 0 {
        lemma_divides_le(gcd(a, b), a);
    }
    if b > 0 {
        lemma_divides_le(gcd(a, b), b);
    }
}

/// Pairs with the same common divisors have the same gcd.
pub proof fn lemma_gcd_same_divisors(a: nat, b: nat, c: nat, e: nat)
    requires
        forall|d: nat| #![trigger divides(d, a), divides(d, b)]
            divides(d, a) && divides(d, b) ==> divides(d, c) && divides(d, e),
        forall|d: nat| #![trigger divides(d, c), divides(d, e)]
            divides(d, c) && divides(d, e) ==> divides(d, a) && divides(d, b),
    ensures
        gcd(a, b) == gcd(c, e),
{
    let g1 = gcd(a, b);
    let g2 = gcd(c, e);
    lemma_gcd_divides(a, b);
    lemma_gcd_divides(c, e);
    assert(divides(g1, c) && divides(g1, e));
    assert(divides(g2, a) && divides(g2, b));
    lemma_common_divisor_divides_gcd(c, e, g1);
    lemma_common_divisor_divides_gcd(a, b, g2);
    lemma_divides_antisym(g1, g2);
}

/// The gcd does not depend on the order of its arguments.
pub proof fn lemma_gcd_comm(a: nat, b: nat)
    ensures
        gcd(a, b) == gcd(b, a),
{
    lemma_gcd_same_divisors(a, b, b, a);
}

/// `gcd(u, v) == gcd(u, v - u)` for `u <= v`.
pub proof fn lemma_gcd_sub(u: nat, v: nat)
    requires
        u <= v,
    ensures
        gcd(u, v) == gcd(u, (v - u) as nat),
{
    let w = (v - u) as nat;
    assert forall|d: nat| divides(d, u) && divides(d, v) implies divides(d, u) && divides(d, w) by {
        lemma_divides_sub(d, v, u);
    }
    assert forall|d: nat| divides(d, u) && divides(d, w) implies divides(d, u) && divides(d, v) by {
        lemma_divides_add(d, w, u);
    }
    lemma_gcd_same_divisors(u, v, u, w);
}

/// Halving an even argument keeps the gcd when the other argument is odd.
pub proof fn lemma_gcd_halve(u: nat, v: nat)
    requires
        u % 2 == 1,
        v % 2 == 0,
    ensures
        gcd(u, v) == gcd(u, v / 2),
{
    let w = v / 2;
    lemma_fundamental_div_mod(v as int, 2);
    assert(v == 2 * w);
    assert forall|d: nat| divides(d, u) && divides(d, w) implies divides(d, u) && divides(d, v) by {
        lemma_divides_mul(d, w, 2);
    }
    assert forall|d: nat| divides(d, u) && divides(d, v) implies divides(d, u) && divides(d, w) by {
        lemma_divisor_of_odd_halves(u, v, d);
    }
    lemma_gcd_same_divisors(u, v, u, w);
}

/// An odd number's divisor that divides an even number divides its half.
proof fn lemma_divisor_of_odd_halves(u: nat, v: nat, d: nat)
    requires
        u % 2 == 1,
        v % 2 == 0,
        divides(d, u),
        divides(d, v),
    ensures
        divides(d, v / 2),
{
    assert(d > 0);
    lemma_fundamental_div_mod(u as int, d as int);
    lemma_fundamental_div_mod(v as int, d as int);
    let m = u as int / d as int;
    let k = v as int / d as int;
    assert(u == d * m);
    assert(v == d * k);
    lemma_mul_mod_noop(d as int, m, 2);
    lemma_mul_mod_noop(d as int, k, 2);
    // d is odd, since d * m is odd
    if d % 2 == 0 {
        assert((d as int % 2) * (m % 2) == 0) by (nonlinear_arith)
            requires
                d as int % 2 == 0,
        ;
        assert(false);
    }
    assert(d as int % 2 == 1);
    // so k is even, since d * k is even
    lemma_mod_bound(k, 2);
    if k % 2 == 1 {
        assert(false);
    }
    lemma_div_pos_is_pos(v as int, d as int);
    let h = k / 2;
    lemma_fundamental_div_mod(k, 2);
    assert(k == 2 * h);
    assert(v == 2 * (d * h)) by (nonlinear_arith)
        requires
            v == d * k,
            k == 2 * h,
    ;
    assert(v / 2 == d * h);
    assert(h >= 0);
    lemma_divides_multiple(d, h as nat);
}

/// Stripping a power of two from the even argument keeps the gcd when the other is odd.
pub proof fn lemma_gcd_strip_twos(u: nat, v: nat, t: nat)
    requires
        u % 2 == 1,
        v % pow2(t) == 0,
    ensures
        gcd(u, v) == gcd(u, v / pow2(t)),
    decreases t,
{
    lemma_pow2_pos(t);
    if t == 0 {
        lemma2_to64();
    } else {
        let p = pow2((t - 1) as nat);
        lemma_pow2_unfold(t);
        lemma_pow2_pos((t - 1) as nat);
        assert(pow2(t) == 2 * p);
        lemma_fundamental_div_mod(v as int, pow2(t) as int);
        let q = v as int / pow2(t) as int;
        assert(v == (2 * p) * q);
        lemma_div_pos_is_pos(v as int, pow2(t) as int);
        assert(v == 2 * (p * q)) by (nonlinear_arith)
            requires
                v == (2 * p) * q,
        ;
        lemma_mod_multiples_basic(p * q, 2);
        lemma_mul_is_commutative(p * q, 2);
        assert(v % 2 == 0);
        lemma_gcd_halve(u, v);
        assert(v / 2 == p * q) by {
            lemma_div_multiples_vanish(p * q, 2);
        }
        lemma_mod_multiples_basic(q, p as int);
        lemma_mul_is_commutative(p as int, q);
        assert((v / 2) % p == 0);
        lemma_gcd_strip_twos(u, v / 2, (t - 1) as nat);
        lemma_div_denominator(v as int, 2, p as int);
    }
}

/// `(m * x) % (m * y) == m * (x % y)`.
proof fn lemma_mod_scale(m: nat, x: nat, y: nat)
    requires
        m > 0,
        y > 0,
    ensures
        (m * x) % (m * y) == m * (x % y),
        m * y > 0,
{
    lemma_mul_strictly_positive(m as int, y as int);
    lemma_fundamental_div_mod(x as int, y as int);
    let q = x as int / y as int;
    let r = x as int % y as int;
    lemma_mod_bound(x as int, y as int);
    assert(m * x == q * (m * y) + m * r) by (nonlinear_arith)
        requires
            x == y * q + r,
    ;
    assert(0 <= m * r < m * y) by (nonlinear_arith)
        requires
            0 <= r < y,
            m > 0,
    ;
    lemma_fundamental_div_mod_converse((m * x) as int, (m * y) as int, q, m * r);
}

/// Scaling both arguments scales the gcd: `gcd(m * x, m * y) == m * gcd(x, y)`.
pub proof fn lemma_gcd_scale(m: nat, x: nat, y: nat)
    ensures
        gcd(m * x, m * y) == m * gcd(x, y),
    decreases y,
{
    if m == 0 {
        lemma_mul_basics(x as int);
        lemma_mul_basics(y as int);
        assert(gcd(0, 0) == 0);
    } else if y == 0 {
        lemma_mul_basics(m as int);
        assert(m * y == 0);
    } else {
        lemma_mod_scale(m, x, y);
        lemma_gcd_scale(m, y, x % y);
    }
}

/// Removing the gcd leaves coprime parts: `gcd(a / g, b / g) == 1` for `g == gcd(a, b) > 0`.
pub proof fn lemma_gcd_quotients_coprime(a: nat, b: nat)
    requires
        a > 0 || b > 0,
    ensures
        gcd(a, b) > 0,
        gcd(a / gcd(a, b), b / gcd(a, b)) == 1,
{
    let g = gcd(a, b);
    lemma_gcd_pos(a, b);
    lemma_gcd_divides(a, b);
    lemma_fundamental_div_mod(a as int, g as int);
    lemma_fundamental_div_mod(b as int, g as int);
    let x = a / g;
    let y = b / g;
    assert(a == g * x);
    assert(b == g * y);
    lemma_gcd_scale(g, x, y);
    assert(g * gcd(x, y) == g * 1);
    lemma_mul_equality_converse(g as int, gcd(x, y) as int, 1);
}

/// Euclid's lemma in gcd form: if `gcd(x, y) == 1` and `x` divides `y * z`, then `x` divides `z`.
pub proof fn lemma_coprime_divides(x: nat, y: nat, z: nat)
    requires
        gcd(x, y) == 1,
        divides(x, y * z),
    ensures
        divides(x, z),
{
    lemma_gcd_scale(z, x, y);
    lemma_mul_is_commutative(z as int, x as int);
    lemma_mul_is_commutative(z as int, y as int);
    lemma_divides_multiple(x, z);
    lemma_common_divisor_divides_gcd(z * x, z * y, x);
    lemma_mul_basics(z as int);
}

/// Shifting left by `k` multiplies by `2^k` when nothing overflows.
proof fn lemma_shl_value(u: u128, k: u128)
    requires
        k < 128,
        u * pow2(k as nat) <= u128::MAX,
    ensures
        u << k == u * pow2(k as nat),
    decreases k,
{
    if k == 0 {
        assert(u << 0u128 == u) by (bit_vector);
        lemma2_to64();
    } else {
        let j = (k - 1) as u128;
        lemma_pow2_unfold(k as nat);
        lemma_pow2_pos(j as nat);
        lemma_mul_inequality(pow2(j as nat) as int, pow2(k as nat) as int, u as int);
        lemma_mul_is_commutative(pow2(j as nat) as int, u as int);
        lemma_mul_is_commutative(pow2(k as nat) as int, u as int);
        lemma_shl_value(u, j);
        let y = u << j;
        assert(y * 2 == u * pow2(k as nat)) by {
            lemma_mul_is_associative(u as int, pow2(j as nat) as int, 2);
        }
        assert(u << k == (u << j) * 2) by (bit_vector)
            requires
                0 < k < 128,
                j == k - 1,
                (u << j) * 2 <= u128::MAX,
        ;
    }
}

/// Number of trailing zero bits of `x` (128 for zero), from `u128::trailing_zeros`.
#[verifier::external_body]
fn trailing_zeros(x: u128) -> (r: u32)
    ensures
        x == 0 ==> r == 128,
        x != 0 ==> r < 128 && (x as nat) % pow2(r as nat) == 0 && ((x as nat) / pow2(r as nat)) % 2 == 1,
{
    x.trailing_zeros()
}

/// Divides out all factors of two: returns the odd part of `x` and the number of factors removed.
fn strip_twos(x: u128) -> (res: (u128, u32))
    requires
        x > 0,
    ensures
        res.1 < 128,
        (x as nat) % pow2(res.1 as nat) == 0,
        res.0 == (x as nat) / pow2(res.1 as nat),
        res.0 % 2 == 1,
        res.0 <= x,
{
    let t = trailing_zeros(x);
    proof {
        lemma_u128_shr_is_div(x, t as u128);
        lemma_pow2_pos(t as nat);
        lemma_div_is_ordered_by_denominator(x as int, 1, pow2(t as nat) as int);
    }
    (x >> (t as u128), t)
}

/// Calculates the greatest common divisor of two `u128` with the binary GCD algorithm:
///
/// 1. gcd(n, 0) = gcd(0, n) = n
/// 2. gcd(2ᵃ ⋅ u, 2ᵇ ⋅ v) = 2ᵏ ⋅ gcd(u, v) where k = min(a, b)
/// 3. gcd(u, 2ᵇ ⋅ v) = gcd(u, v) if u is odd
/// 4. gcd(u, v) = gcd(u, v - u) if u, v are both odd and u ≤ v
pub fn gcd_u128(u: u128, v: u128) -> (r: u128)
    ensures
        r == gcd(u as nat, v as nat),
{
    if u == v {
        proof {
            reveal_with_fuel(gcd, 2);
            if u > 0 {
                lemma_mod_self_0(u as int);
            }
        }
        return u;
    } else if u == 0 {
        proof {
            reveal_with_fuel(gcd, 2);
            lemma_small_mod(0, v as nat);
        }
        return v;
    } else if v == 0 {
        return u;
    }
    let (mut a, ka) = strip_twos(u);
    let (mut b, kb) = strip_twos(v);
    let k: u32 = if ka < kb { ka } else { kb };
    proof {
        lemma_binary_gcd_split(u as nat, v as nat, a as nat, b as nat, ka as nat, kb as nat, k as nat);
    }
    let ghost g = gcd(a as nat, b as nat);
    loop
        invariant_except_break
            a % 2 == 1,
            b % 2 == 1,
            gcd(a as nat, b as nat) == g,
        ensures
            a == g,
        decreases a + b,
    {
        if a > b {
            proof {
                lemma_gcd_comm(a as nat, b as nat);
            }
            let temp = a;
            a = b;
            b = temp;
        }
        proof {
            lemma_gcd_sub(a as nat, b as nat);
        }
        b = b - a;
        if b == 0 {
            break;
        }
        proof {
            lemma_sub_odd_is_even(a as nat, (b + a) as nat);
        }
        let (odd, t) = strip_twos(b);
        proof {
            lemma_gcd_strip_twos(a as nat, b as nat, t as nat);
        }
        b = odd;
    }
    proof {
        lemma_gcd_le(u as nat, v as nat);
        lemma_mul_is_commutative(a as int, pow2(k as nat) as int);
        lemma_shl_value(a, k as u128);
    }
    a << (k as u128)
}

/// The difference of two odd numbers is even.
proof fn lemma_sub_odd_is_even(a: nat, b: nat)
    requires
        a % 2 == 1,
        b % 2 == 1,
        a <= b,
    ensures
        ((b - a) as nat) % 2 == 0,
{
    lemma_sub_mod_noop(b as int, a as int, 2);
}

/// The gcd of two positive numbers is the common power of two times the gcd of their odd parts.
#[verifier::spinoff_prover]
proof fn lemma_binary_gcd_split(u: nat, v: nat, a: nat, b: nat, ka: nat, kb: nat, k: nat)
    requires
        u % pow2(ka) == 0,
        a == u / pow2(ka),
        a % 2 == 1,
        v % pow2(kb) == 0,
        b == v / pow2(kb),
        b % 2 == 1,
        k == if ka < kb { ka } else { kb },
    ensures
        gcd(u, v) == pow2(k) * gcd(a, b),
{
    lemma_pow2_pos(ka);
    lemma_pow2_pos(kb);
    lemma_pow2_pos(k);
    lemma_fundamental_div_mod(u as int, pow2(ka) as int);
    lemma_fundamental_div_mod(v as int, pow2(kb) as int);
    assert(u == pow2(ka) * a);
    assert(v == pow2(kb) * b);
    let pa = pow2((ka - k) as nat);
    let pb = pow2((kb - k) as nat);
    lemma_pow2_adds(k, (ka - k) as nat);
    lemma_pow2_adds(k, (kb - k) as nat);
    lemma_pow2_pos((ka - k) as nat);
    lemma_pow2_pos((kb - k) as nat);
    assert(u == pow2(k) * (pa * a)) by {
        lemma_mul_is_associative(pow2(k) as int, pa as int, a as int);
    }
    assert(v == pow2(k) * (pb * b)) by {
        lemma_mul_is_associative(pow2(k) as int, pb as int, b as int);
    }
    lemma_gcd_scale(pow2(k), pa * a, pb * b);
    assert(gcd(u, v) == pow2(k) * gcd(pa * a, pb * b));
    if ka <= kb {
        assert(pa == 1) by {
            lemma2_to64();
        }
        assert(pa * a == a) by {
            lemma_mul_basics(a as int);
        }
        lemma_mod_multiples_basic(b as int, pb as int);
        lemma_mul_is_commutative(b as int, pb as int);
        lemma_gcd_strip_twos(a, pb * b, (kb - k) as nat);
        lemma_div_multiples_vanish(b as int, pb as int);
        assert(gcd(a, pb * b) == gcd(a, b));
    } else {
        assert(pb == 1) by {
            lemma2_to64();
        }
        assert(pb * b == b) by {
            lemma_mul_basics(b as int);
        }
        lemma_mod_multiples_basic(a as int, pa as int);
        lemma_mul_is_commutative(a as int, pa as int);
        lemma_gcd_comm(pa * a, b);
        lemma_gcd_strip_twos(b, pa * a, (ka - k) as nat);
        lemma_div_multiples_vanish(a as int, pa as int);
        lemma_gcd_comm(b, a);
        assert(gcd(pa * a, b) == gcd(a, b));
    }
}

/// The gcd of two nonzero numbers, which is nonzero.
pub fn gdc_nonzerou128(u: u128, v: u128) -> (r: u128)
    requires
        u > 0,
        v > 0,
    ensures
        r == gcd(u as nat, v as nat),
        r > 0,
{
    proof {
        lemma_gcd_pos(u as nat, v as nat);
    }
    gcd_u128(u, v)
}

} // verus!
