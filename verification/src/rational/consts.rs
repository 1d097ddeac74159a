use vstd::prelude::*;

use super::Rational;
use crate::text::{lowercase, str_eq, to_lowercase, trim, trimmed};

verus! {

/// Named mathematical constants.
#[derive(Debug, Clone, Copy, PartialEq, Eq, Structural)]
pub enum Consts {
    E,
    PI,
}

/// The constant a (trimmed, lowercased) name denotes: `e` or `pi`.
pub open spec fn const_named(s: Seq<char>) -> Option<Consts> {
    if s == seq!['e'] {
        Some(Consts::E)
    } else if s == seq!['p', 'i'] {
        Some(Consts::PI)
    } else {
        None
    }
}

/// What `Consts::from_str` returns for a string.
pub open spec fn consts_from_view(v: Seq<char>) -> Option<Consts> {
    const_named(lowercase(trimmed(v)))
}

/// The text of a constant: `e` or `pi`.
pub open spec fn consts_text(c: Consts) -> Seq<char> {
    match c {
        Consts::E => seq!['e'],
        Consts::PI => seq!['p', 'i'],
    }
}

/// The rational approximation of a constant, as numerator and denominator.
pub open spec fn consts_value(c: Consts) -> (int, int) {
    match c {
        Consts::E => (848456353, 312129649),
        Consts::PI => (1146408, 364913),
    }
}

impl Consts {
    /// The constant named by `v`, ignoring surrounding white space and case.
    pub fn from_str(v: &str) -> (r: Option<Consts>)
        ensures
            r == consts_from_view(v@),
    {
        let t = trim(v);
        let lower = to_lowercase(t);
        Consts::from_name(lower.as_str())
    }

    /// The constant with exactly the name `name`: `e` or `pi`.
    pub fn from_name(name: &str) -> (r: Option<Consts>)
        ensures
            r == const_named(name@),
    {
        proof {
            reveal_strlit("e");
            reveal_strlit("pi");
            assert("e"@ =~= seq!['e']);
            assert("pi"@ =~= seq!['p', 'i']);
        }
        if str_eq(name, "e") {
            Some(Consts::E)
        } else if str_eq(name, "pi") {
            Some(Consts::PI)
        } else {
            None
        }
    }

    /// The rational approximation of the constant.
    pub fn value(&self) -> (r: Rational)
        ensures
            r@ == consts_value(*self),
    {
        match self {
            Consts::E => {
                proof {
                    assert(super::gcd::gcd(1, 0) == 1);
                    assert(super::gcd::gcd(2, 1) == 1);
                    assert(super::gcd::gcd(29, 2) == 1);
                    assert(super::gcd::gcd(31, 29) == 1);
                    assert(super::gcd::gcd(60, 31) == 1);
                    assert(super::gcd::gcd(751, 60) == 1);
                    assert(super::gcd::gcd(811, 751) == 1);
                    assert(super::gcd::gcd(1562, 811) == 1);
                    assert(super::gcd::gcd(16431, 1562) == 1);
                    assert(super::gcd::gcd(17993, 16431) == 1);
                    assert(super::gcd::gcd(34424, 17993) == 1);
                    assert(super::gcd::gcd(293385, 34424) == 1);
                    assert(super::gcd::gcd(327809, 293385) == 1);
                    assert(super::gcd::gcd(621194, 327809) == 1);
                    assert(super::gcd::gcd(4054973, 621194) == 1);
                    assert(super::gcd::gcd(4676167, 4054973) == 1);
                    assert(super::gcd::gcd(8731140, 4676167) == 1);
                    assert(super::gcd::gcd(39600727, 8731140) == 1);
                    assert(super::gcd::gcd(48331867, 39600727) == 1);
                    assert(super::gcd::gcd(87932594, 48331867) == 1);
                    assert(super::gcd::gcd(224197055, 87932594) == 1);
                    assert(super::gcd::gcd(312129649, 224197055) == 1);
                    assert(super::gcd::gcd(848456353, 312129649) == 1);
                    super::lemma_reduced_of_lowest_terms((848456353, 312129649));
                }
                Rational::unwrap_new(848456353, 312129649)
            },
            Consts::PI => {
                proof {
                    assert(super::gcd::gcd(1, 0) == 1);
                    assert(super::gcd::gcd(3, 1) == 1);
                    assert(super::gcd::gcd(4, 3) == 1);
                    assert(super::gcd::gcd(7, 4) == 1);
                    assert(super::gcd::gcd(11, 7) == 1);
                    assert(super::gcd::gcd(3219, 11) == 1);
                    assert(super::gcd::gcd(3230, 3219) == 1);
                    assert(super::gcd::gcd(51669, 3230) == 1);
                    assert(super::gcd::gcd(364913, 51669) == 1);
                    assert(super::gcd::gcd(1146408, 364913) == 1);
                    super::lemma_reduced_of_lowest_terms((1146408, 364913));
                }
                Rational::unwrap_new(1146408, 364913)
            },
        }
    }

    /// The text of the constant: `e` or `pi`.
    pub fn to_string(&self) -> (r: String)
        ensures
            r@ == consts_text(*self),
    {
        proof {
            reveal_strlit("e");
            reveal_strlit("pi");
            assert("e"@ =~= seq!['e']);
            assert("pi"@ =~= seq!['p', 'i']);
        }
        match self {
            Consts::E => String::from_str("e"),
            Consts::PI => String::from_str("pi"),
        }
    }
}

} // verus!
