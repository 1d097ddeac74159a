use vstd::prelude::*;

use super::reduce::is_num;
use super::{lemma_view_exprs, view_exprs, Expr, SpecExpr};
use crate::error::{Error, SpecError};
use crate::parser::lexer::{op_char, Op, SpecToken, Token};
use crate::rational::consts::consts_text;
use crate::rational::{Consts, Rational};
use crate::text::{int_text, nat_text, push_char, push_i128, push_str, push_u128};

verus! {

/// The text of a rational: the numerator, and `/` and the denominator unless it is one.
pub open spec fn rational_text(v: (int, int)) -> Seq<char> {
    if v.1 == 1 {
        int_text(v.0)
    } else {
        int_text(v.0) + seq!['/'] + nat_text(v.1 as nat)
    }
}

/// The text of a token.
pub open spec fn token_text(t: SpecToken) -> Seq<char> {
    match t {
        SpecToken::Number(n) => rational_text(n@),
        SpecToken::Str(s) => s,
        SpecToken::Op(o) => seq![op_char(o)],
        SpecToken::RParen => seq![')'],
        SpecToken::LParen => seq!['('],
        SpecToken::Comma => seq![','],
        SpecToken::Eof => "Eof"@,
    }
}

/// Names joined with `, `.
pub open spec fn joined(v: Seq<Seq<char>>) -> Seq<char>
    decreases v.len(),
{
    if v.len() == 0 {
        Seq::empty()
    } else if v.len() == 1 {
        v[0]
    } else {
        joined(v.drop_last()) + ", "@ + v.last()
    }
}

/// The text of an error.
pub open spec fn error_text(e: SpecError) -> Seq<char> {
    match e {
        SpecError::DivisionByZero => "division by zero"@,
        SpecError::Overflow => "overflow"@,
        SpecError::RootsNotImplemented => "roots are not implemented"@,
        SpecError::InvalidParens => "Invalid number of parentesis"@,
        SpecError::InvalidToken(t) => "Invalid token: "@ + token_text(t),
        SpecError::AtomExpected(t) => "Atom expected, got: "@ + token_text(t),
        SpecError::InvalidFunc(s) => "invalid function: "@ + s,
        SpecError::OverlapElements(v) => "overlaping element(s): "@ + joined(v),
        SpecError::InvalidCharacter(i, c) => "invalid token at index "@ + nat_text(i as nat)
            + ": \""@ + seq![c] + "\""@,
        SpecError::TwoDots(i) => "invalid dot at index "@ + nat_text(i as nat),
    }
}

/// The text of an expression: binary operations in parentheses with spaces around the
/// operator (`0 - x` as `(-x)`), calls with their arguments separated by `, `, logarithms in
/// base ten as `log(..)` and in base `e` as `ln(..)`.
pub open spec fn expr_text(e: SpecExpr) -> Seq<char>
    decreases e, 0nat,
{
    match e {
        SpecExpr::Const(c) => consts_text(c),
        SpecExpr::Number(n) => rational_text(n@),
        SpecExpr::Var(v) => v,
        SpecExpr::Infix { lhs, op, rhs } => if op is Sub && is_num(*lhs, 0) {
            "(-"@ + expr_text(*rhs) + ")"@
        } else {
            "("@ + expr_text(*lhs) + seq![' ', op_char(op), ' '] + expr_text(*rhs) + ")"@
        },
        SpecExpr::Call { func, args } => func + "("@ + args_text(args) + ")"@,
        SpecExpr::Log { base, arg } => if is_num(*base, 10) {
            "log("@ + expr_text(*arg) + ")"@
        } else if *base == SpecExpr::Const(Consts::E) {
            "ln("@ + expr_text(*arg) + ")"@
        } else {
            "log("@ + expr_text(*base) + ", "@ + expr_text(*arg) + ")"@
        },
    }
}

/// The texts of expressions joined with `, `.
pub open spec fn args_text(s: Seq<SpecExpr>) -> Seq<char>
    decreases s, 1nat,
{
    if s.len() == 0 {
        Seq::empty()
    } else if s.len() == 1 {
        expr_text(s[0])
    } else {
        args_text(s.drop_last()) + ", "@ + expr_text(s.last())
    }
}

impl Rational {
    /// The text of the rational: `n` for an integer, `n/d` otherwise.
    pub fn to_string(&self) -> (r: String)
        ensures
            r@ == rational_text(self@),
    {
        let mut s = String::new();
        push_i128(&mut s, self.num());
        let d = self.den();
        if d != 1 {
            push_char(&mut s, '/');
            push_u128(&mut s, d);
            assert(s@ =~= rational_text(self@));
        } else {
            assert(s@ =~= rational_text(self@));
        }
        s
    }
}

impl Token {
    /// The text of the token.
    pub fn to_string(&self) -> (r: String)
        ensures
            r@ == token_text(self@),
    {
        match self {
            Token::Number(n) => n.to_string(),
            Token::String(s) => s.clone(),
            Token::Op(o) => o.to_string(),
            Token::RParen => {
                let mut s = String::new();
                push_char(&mut s, ')');
                s
            },
            Token::LParen => {
                let mut s = String::new();
                push_char(&mut s, '(');
                s
            },
            Token::Comma => {
                let mut s = String::new();
                push_char(&mut s, ',');
                s
            },
            Token::Eof => String::from_str("Eof"),
        }
    }
}

impl Error {
    /// The message of the error.
    pub fn to_string(&self) -> (r: String)
        ensures
            r@ == error_text(self@),
    {
        match self {
            Error::DivisionByZero => String::from_str("division by zero"),
            Error::Overflow => String::from_str("overflow"),
            Error::RootsNotImplemented => String::from_str("roots are not implemented"),
            Error::InvalidParens => String::from_str("Invalid number of parentesis"),
            Error::InvalidToken(t) => {
                let mut s = String::from_str("Invalid token: ");
                let tt = t.to_string();
                push_str(&mut s, tt.as_str());
                s
            },
            Error::AtomExpected(t) => {
                let mut s = String::from_str("Atom expected, got: ");
                let tt = t.to_string();
                push_str(&mut s, tt.as_str());
                s
            },
            Error::InvalidFunc(name) => {
                let mut s = String::from_str("invalid function: ");
                push_str(&mut s, name.as_str());
                s
            },
            Error::OverlapElements(v) => {
                let mut s = String::from_str("overlaping element(s): ");
                let ghost prefix = s@;
                let ghost names = v@.map_values(|x: String| x@);
                let mut i: usize = 0;
                while i < v.len()
                    invariant
                        i <= v.len(),
                        names == v@.map_values(|x: String| x@),
                        s@ == prefix + joined(names.take(i as int)),
                    decreases v.len() - i,
                {
                    let ghost before = s@;
                    if i > 0 {
                        push_str(&mut s, ", ");
                    }
                    push_str(&mut s, v[i].as_str());
                    proof {
                        let t = names.take(i + 1);
                        assert(t.drop_last() =~= names.take(i as int));
                        assert(t.last() == v@[i as int]@);
                        if i == 0 {
                            assert(names.take(0) =~= Seq::<Seq<char>>::empty());
                            assert(s@ =~= prefix + joined(t));
                        } else {
                            assert(s@ =~= prefix + joined(t));
                        }
                    }
                    i = i + 1;
                }
                assert(names.take(v.len() as int) =~= names);
                s
            },
            Error::InvalidCharacter(i, c) => {
                let mut s = String::from_str("invalid token at index ");
                push_u128(&mut s, *i as u128);
                push_str(&mut s, ": \"");
                push_char(&mut s, *c);
                push_str(&mut s, "\"");
                assert(s@ =~= error_text(self@));
                s
            },
            Error::TwoDots(i) => {
                let mut s = String::from_str("invalid dot at index ");
                push_u128(&mut s, *i as u128);
                s
            },
        }
    }
}

impl Expr {
    /// The text of the expression (see `expr_text`).
    #[verifier::loop_isolation(false)]
    pub fn to_string(&self) -> (r: String)
        ensures
            r@ == expr_text(self@),
        decreases self,
    {
        match self {
            Expr::Const(c) => {
                let s = c.to_string();
                assert(s@ == expr_text(self@));
                s
            },
            Expr::Number(n) => {
                let s = n.to_string();
                assert(s@ == expr_text(self@));
                s
            },
            Expr::Var(v) => {
                let s = v.clone();
                assert(s@ == expr_text(self@));
                s
            },
            Expr::Infix { lhs, op, rhs } => {
                let neg = match &**lhs {
                    Expr::Number(a) => matches!(op, Op::Sub) && a.eq_uint(0),
                    _ => false,
                };
                if neg {
                    let mut s = String::from_str("(-");
                    let t = rhs.to_string();
                    push_str(&mut s, t.as_str());
                    push_str(&mut s, ")");
                    assert(s@ =~= expr_text(self@));
                    s
                } else {
                    let mut s = String::from_str("(");
                    let l = lhs.to_string();
                    push_str(&mut s, l.as_str());
                    push_char(&mut s, ' ');
                    let o = op.to_string();
                    push_str(&mut s, o.as_str());
                    push_char(&mut s, ' ');
                    let r = rhs.to_string();
                    push_str(&mut s, r.as_str());
                    push_str(&mut s, ")");
                    assert(s@ =~= expr_text(self@));
                    s
                }
            },
            Expr::Call { func, args } => {
                let mut s = func.clone();
                push_str(&mut s, "(");
                let ghost prefix = s@;
                let ghost sargs = view_exprs(args@);
                proof {
                    lemma_view_exprs(args@);
                }
                let mut i: usize = 0;
                while i < args.len()
                    invariant
                        i <= args.len(),
                        s@ == prefix + args_text(sargs.take(i as int)),
                    decreases args.len() - i,
                {
                    assert(decreases_to!(args@ => args@[i as int]));
                    if i > 0 {
                        push_str(&mut s, ", ");
                    }
                    let t = args[i].to_string();
                    push_str(&mut s, t.as_str());
                    proof {
                        let w = sargs.take(i + 1);
                        assert(w.drop_last() =~= sargs.take(i as int));
                        assert(w.last() == args@[i as int]@);
                        if i == 0 {
                            assert(sargs.take(0) =~= Seq::<SpecExpr>::empty());
                        }
                        assert(s@ =~= prefix + args_text(w));
                    }
                    i = i + 1;
                }
                assert(sargs.take(args.len() as int) =~= sargs);
                push_str(&mut s, ")");
                assert(s@ =~= expr_text(self@));
                s
            },
            Expr::Log { base, arg } => {
                let base_ten = match &**base {
                    Expr::Number(a) => a.eq_uint(10),
                    _ => false,
                };
                let base_e = match &**base {
                    Expr::Const(Consts::E) => true,
                    _ => false,
                };
                if base_ten {
                    let mut s = String::from_str("log(");
                    let t = arg.to_string();
                    push_str(&mut s, t.as_str());
                    push_str(&mut s, ")");
                    assert(is_num((**base)@, 10));
                    assert(expr_text(self@) == "log("@ + expr_text((**arg)@) + ")"@);
                    assert(s@ =~= expr_text(self@));
                    s
                } else if base_e {
                    let mut s = String::from_str("ln(");
                    let t = arg.to_string();
                    push_str(&mut s, t.as_str());
                    push_str(&mut s, ")");
                    assert(s@ =~= expr_text(self@));
                    s
                } else {
                    let mut s = String::from_str("log(");
                    let b = base.to_string();
                    push_str(&mut s, b.as_str());
                    push_str(&mut s, ", ");
                    let t = arg.to_string();
                    push_str(&mut s, t.as_str());
                    push_str(&mut s, ")");
                    assert(s@ =~= expr_text(self@));
                    s
                }
            },
        }
    }
}

} // verus!
