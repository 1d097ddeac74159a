use raqeval::rational::apply_sign;
use raqeval::rational::gcd::gcd_u128 as gcd;
use raqeval::Rational;

const MAX: u128 = !0;

/// `a / b` in lowest terms.
fn rat(a: i128, b: u128) -> Rational {
    Rational::unwrap_new(a, b)
}

/// `-(a / b)` in lowest terms.
fn neg_rat(a: i128, b: u128) -> Rational {
    Rational::unwrap_new(a, b).const_neg()
}

#[test]
fn base_cases() {
    assert_eq!(gcd(0, 0), 0);
    assert_eq!(gcd(0, MAX), MAX);
    assert_eq!(gcd(MAX, 0), MAX);
    assert_eq!(gcd(1, MAX), 1);
    assert_eq!(gcd(MAX, 1), 1);
    assert_eq!(gcd(MAX, MAX), MAX);
}

#[test]
fn random_cases() {
    assert_eq!(gcd(100, 10), 10);
    assert_eq!(gcd(23, 7), 1);
    assert_eq!(gcd(7, 5), 1);
}

#[test]
fn eq_test() {
    assert_eq!(Rational::zero(), Rational::zero());
    assert_eq!(rat(2, 3), rat(4, 6));
    assert_eq!(Rational::zero(), Rational::zero());
    assert_ne!(neg_rat(2, 3), rat(2, 3));
    assert_ne!(neg_rat(4, 3), rat(8, 6));
    assert_ne!(Rational::zero(), rat(8, 2));
    assert_ne!(Rational::zero(), rat(8, 2));
    assert_eq!(Rational::zero(), Rational::zero());
}

#[test]
fn neg_test() {
    assert_eq!(Rational::zero(), -Rational::zero());
    assert_eq!(neg_rat(1, 1), -rat(1, 1));
    assert_eq!(Rational::unwrap_new(-1, 1), -Rational::unwrap_new(1, 1),);
    assert_ne!(Rational::unwrap_new(-1, 1), -Rational::unwrap_new(-1, 1));
    assert_eq!({ -Rational::zero() }.is_neg(), false);
}

#[test]
fn add_test() {
    assert_eq!(rat(1, 1) + rat(1, 1), rat(2, 1));
    assert_eq!(rat(1, 2) + rat(1, 2), rat(1, 1));
    assert_eq!(neg_rat(1, 2) + rat(1, 2), Rational::zero());
    assert_eq!(rat(99, 100) + rat(1, 100), rat(1, 1));
    assert_eq!(rat(3, 5) + rat(7, 11), rat(68, 55));
    assert_eq!(rat(3, 5) + neg_rat(7, 11), neg_rat(2, 55));
    assert_eq!(neg_rat(7, 11) + rat(3, 5), neg_rat(2, 55));
    assert_eq!(neg_rat(2, 1) + neg_rat(2, 1), neg_rat(4, 1));
}

#[test]
fn reduce_test() {
    // Rational::new automatically reduces
    assert_eq!(Rational::zero().reduce(), Rational::zero());
    assert_eq!(rat(2, 4), rat(1, 2));
    assert_eq!(rat(2, 4), rat(1, 2));
    assert_eq!(rat(100, 50), rat(8, 4));
    assert_eq!(neg_rat(100, 50), -rat(8, 4));
}

#[test]
fn mul_test() {
    assert_eq!(Rational::zero() * Rational::zero(), Rational::zero());
    assert_eq!(rat(2, 1) * rat(4, 1), rat(8, 1));
    assert_eq!(neg_rat(2, 1) * rat(1, 2), neg_rat(1, 1));
    assert_eq!(neg_rat(1, 1) * neg_rat(1, 1), rat(1, 1));
}

#[test]
fn div_test() {
    rat(1, 1)
        .checked_div(Rational::zero())
        .expect_err("Should be division by zero");

    assert_eq!(rat(4, 1) / rat(2, 1), rat(2, 1));
    assert_eq!(rat(7, 3) / rat(7, 3), rat(1, 1));
    assert_eq!(rat(7, 3) / neg_rat(7, 3), neg_rat(1, 1));
    assert_eq!(rat(4, 2) / neg_rat(2, 4), neg_rat(16, 4));
}

#[test]
fn sub_test() {
    assert_eq!(rat(1, 1) - rat(1, 1), Rational::zero());
    assert_eq!(rat(1, 2) - rat(1, 2), Rational::zero());
    assert_eq!(neg_rat(1, 2) - rat(1, 2), neg_rat(1, 1));
    assert_eq!(rat(99, 100) - rat(1, 100), rat(98, 100));
    assert_eq!(neg_rat(2, 1) - neg_rat(2, 1), Rational::zero());
}

#[test]
fn create_test() {
    assert_eq!(Rational::new(-0, 1).unwrap(), Rational::zero());
    Rational::new(0, 0).expect_err("Should be division by zero");
}

#[test]
fn is_test() {
    assert_eq!(rat(1, 1).is_neg(), false);
    assert_eq!(neg_rat(1, 1).is_neg(), true);
    assert_eq!(rat(1, 3).is_neg(), false);
    assert_eq!(neg_rat(1, 3).is_neg(), true);

    assert_eq!(rat(1, 1).is_integer(), true);
    assert_eq!(rat(2, 1).is_integer(), true);
    assert_eq!(rat(3, 1).is_integer(), true);
    assert_eq!(neg_rat(3, 1).is_integer(), true);
    assert_eq!(rat(3, 2).is_integer(), false);
    assert_eq!(rat(1, 3).is_integer(), false);
    assert_eq!(rat(4, 12).is_integer(), false);
}

#[test]
fn positive_to_positive() {
    assert_eq!(apply_sign(0, false), 0);
    assert_eq!(apply_sign(1, false), 1);
    assert_eq!(apply_sign(123, false), 123);
    assert_eq!(apply_sign(i128::MAX, false), i128::MAX);
}

#[test]
fn negative_to_negative() {
    assert_eq!(apply_sign(0, true), 0);
    assert_eq!(apply_sign(1, true), -1);
    assert_eq!(apply_sign(123, true), -123);
    assert_eq!(apply_sign(i128::MAX, true), -i128::MAX);
}

#[test]
fn zero_stays() {
    assert_eq!(apply_sign(0, false), 0);
    assert_eq!(apply_sign(0, true), 0);
    assert_eq!(apply_sign(0, true), apply_sign(0, false));
}
