use raqeval::parser::expr::Expr;
use raqeval::{parse, Ctx, Rational};

fn q(a: i128, b: u128) -> Rational {
    Rational::unwrap_new(a, b)
}

fn value_of(text: &str) -> Rational {
    match parse(text).unwrap().reduce(&Ctx::new()).unwrap() {
        Expr::Number(n) => n,
        other => panic!("not a number: {}", other.to_string()),
    }
}

#[test]
fn addition_and_multiplication_commute() {
    let pairs = [(q(3, 5), q(-7, 11)), (q(1, 2), q(1, 3)), (q(-4, 9), q(0, 1))];
    for (a, b) in pairs.iter() {
        assert_eq!(*a + *b, *b + *a);
        assert_eq!(*a * *b, *b * *a);
    }
}

#[test]
fn zero_is_neutral_and_negation_undoes_itself() {
    let a = q(-22, 7);
    assert_eq!(a + Rational::zero(), a);
    assert_eq!(a - a, Rational::zero());
    assert_eq!(-(-a), a);
    assert_eq!(a.reduce(), a);
}

#[test]
fn equality_is_equality_of_values() {
    assert_eq!(q(6, 8), q(3, 4));
    assert_eq!(q(6, 8).num(), 3);
    assert_eq!(q(6, 8).den(), 4);
    assert_ne!(q(6, 8), q(3, 5));
}

#[test]
fn division_gives_the_quotient() {
    assert_eq!(q(3, 4) / q(9, 8), q(2, 3));
    assert_eq!(q(-3, 4) / q(3, 4), q(-1, 1));
}

#[test]
fn identities_on_numbers() {
    assert_eq!(value_of("0 + 5/2"), q(5, 2));
    assert_eq!(value_of("5/2 + 0"), q(5, 2));
    assert_eq!(value_of("5/2 - 0"), q(5, 2));
    assert_eq!(value_of("1 * (5/2)"), q(5, 2));
    assert_eq!(value_of("(5/2) * 1"), q(5, 2));
    assert_eq!(value_of("0 * (5/2)"), Rational::zero());
    assert_eq!(value_of("(5/2) ^ 0"), q(1, 1));
    assert_eq!(value_of("log(7, 1)"), Rational::zero());
    assert_eq!(value_of("3/4"), q(3, 4));
}

#[test]
fn operators_on_references() {
    let a = q(1, 2);
    let b = q(1, 3);
    assert_eq!(&a + &b, q(5, 6));
    assert_eq!(a + &b, q(5, 6));
    assert_eq!(&a - b, q(1, 6));
    assert_eq!(&a * &b, q(1, 6));
    assert_eq!(&a / &b, q(3, 2));
    assert_eq!(-&a, q(-1, 2));
}
