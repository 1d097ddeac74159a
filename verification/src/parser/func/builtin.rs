use vstd::prelude::*;

use crate::ctx::Ctx;
use crate::parser::expr::{Expr, SpecExpr};
use crate::parser::lexer::Op;
use crate::rational::eq::is_uint;
use crate::rational::Rational;
use crate::text::{ascii_lower, str_eq, to_ascii_lowercase};

verus! {

/// A function that the library knows by name.
#[derive(Clone, Copy, Debug, PartialEq, Eq, Structural)]
pub enum Builtin {
    Ln,
}

/// The name of the natural logarithm.
pub open spec fn ln_name() -> Seq<char> {
    seq!['l', 'n']
}

/// The builtin that a name denotes, whatever the case of its ASCII letters.
pub open spec fn builtin_named(s: Seq<char>) -> Option<Builtin> {
    if s.map_values(|c: char| ascii_lower(c)) == ln_name() {
        Some(Builtin::Ln)
    } else {
        None
    }
}

/// `ln` applied to `e`.
pub open spec fn ln_of(e: SpecExpr) -> SpecExpr {
    SpecExpr::Call { func: ln_name(), args: seq![e] }
}

/// One rewriting step of a builtin on its argument: the logarithm of a product or quotient
/// splits into a sum or difference of logarithms, and the logarithm of one is zero. `None` when
/// no rule applies.
pub open spec fn builtin_reduce_spec(b: Builtin, arg: SpecExpr) -> Option<SpecExpr> {
    match arg {
        SpecExpr::Infix { lhs, op, rhs } => if op is Mul || op is Div {
            Some(
                SpecExpr::Infix {
                    lhs: Box::new(ln_of(*lhs)),
                    op: if op is Mul {
                        Op::Add
                    } else {
                        Op::Sub
                    },
                    rhs: Box::new(ln_of(*rhs)),
                },
            )
        } else {
            None
        },
        SpecExpr::Number(n) => if is_uint(n@, 1) {
            Some(SpecExpr::Number(Rational::from_view((0, 1))))
        } else {
            None
        },
        _ => None,
    }
}

/// The text `ln`.
fn ln_string() -> (r: String)
    ensures
        r@ == ln_name(),
{
    let s = String::from_str("ln");
    proof {
        reveal_strlit("ln");
        assert("ln"@ =~= ln_name());
    }
    s
}

/// `ln` applied to an expression.
fn ln_call(e: Expr) -> (r: Expr)
    ensures
        r@ == ln_of(e@),
{
    let ghost ev = e@;
    let mut args: Vec<Expr> = Vec::new();
    args.push(e);
    proof {
        crate::parser::expr::lemma_view_exprs(args@);
        assert(crate::parser::expr::view_exprs(args@) =~= seq![ev]);
    }
    Expr::Call { func: ln_string(), args }
}

impl Builtin {
    /// The builtin named `s`, ignoring the case of ASCII letters.
    pub fn from_str(s: &str) -> (r: Option<Builtin>)
        ensures
            r == builtin_named(s@),
    {
        let lower = to_ascii_lowercase(s);
        proof {
            reveal_strlit("ln");
            assert("ln"@ =~= ln_name());
        }
        if str_eq(lower.as_str(), "ln") {
            Some(Builtin::Ln)
        } else {
            None
        }
    }

    /// The name of the builtin.
    pub fn to_string(&self) -> (r: String)
        ensures
            r@ == ln_name(),
    {
        ln_string()
    }

    /// One rewriting step on the argument of a call (see `builtin_reduce_spec`).
    pub fn reduce(&self, call_arg: &Expr, ctx: &Ctx) -> (r: Option<Expr>)
        ensures
            match r {
                Some(e) => builtin_reduce_spec(*self, call_arg@) == Some(e@),
                None => builtin_reduce_spec(*self, call_arg@) is None,
            },
    {
        match call_arg {
            Expr::Infix { lhs, op, rhs } => {
                if matches!(op, Op::Mul | Op::Div) {
                    // ln(a * b) = ln(a) + ln(b), ln(a / b) = ln(a) - ln(b)
                    let new_op = if matches!(op, Op::Mul) {
                        Op::Add
                    } else {
                        Op::Sub
                    };
                    let left = ln_call((**lhs).clone());
                    let right = ln_call((**rhs).clone());
                    Some(Expr::Infix { lhs: Box::new(left), op: new_op, rhs: Box::new(right) })
                } else {
                    None
                }
            },
            Expr::Number(n) => {
                if n.eq_uint(1) {
                    // ln(1) = 0
                    let z = Rational::zero();
                    proof {
                        use_type_invariant(&z);
                        Rational::lemma_from_own_view(z);
                    }
                    Some(Expr::Number(z))
                } else {
                    None
                }
            },
            _ => None,
        }
    }
}

} // verus!
