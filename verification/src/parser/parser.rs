use vstd::prelude::*;

use crate::error::{Error, SpecError};
use crate::parser::expr::{lemma_view_exprs, lemma_view_exprs_ext, view_exprs, Expr, SpecExpr};
use crate::parser::func::{strings_view, Func, SpecFunc};
use crate::parser::lexer::{
    head, lemma_space_in_concat, law_lex_strings_have_no_space, lex, no_spaced_strings, op_left_assoc, Assoc, Op, op_prec, parse_string, strip_white_space, tail, tokens_view, Lexer,
    SpecToken, Token,
};
use crate::rational::consts::consts_from_view;
use crate::rational::{Consts, Rational};
use crate::text::{chars_of, push_str, str_eq, string_of};

verus! {

/// The rational ten, the default base of `log`.
pub open spec fn ten() -> Rational {
    Rational::from_view((10, 1))
}

/// The characters of `log`.
pub open spec fn log_name() -> Seq<char> {
    seq!['l', 'o', 'g']
}

/// The message for a `log` call with neither one nor two arguments.
pub open spec fn log_arity_message() -> Seq<char> {
    "log expects exactly 2 arguments"@
}

/// A call of `s` with `args`: `log` with one argument is the logarithm to base ten, with two it
/// is the logarithm of the second to the base of the first; any other number of arguments of
/// `log` fails.
pub open spec fn call_or_log(s: Seq<char>, args: Seq<SpecExpr>, rest: Seq<SpecToken>) -> Result<
    (SpecExpr, Seq<SpecToken>),
    SpecError,
> {
    if s == log_name() {
        if args.len() == 1 {
            Ok(
                (
                    SpecExpr::Log {
                        base: Box::new(SpecExpr::Number(ten())),
                        arg: Box::new(args[0]),
                    },
                    rest,
                ),
            )
        } else if args.len() == 2 {
            Ok((SpecExpr::Log { base: Box::new(args[0]), arg: Box::new(args[1]) }, rest))
        } else {
            Err(SpecError::InvalidFunc(log_arity_message()))
        }
    } else {
        Ok((SpecExpr::Call { func: s, args: args }, rest))
    }
}

/// An atom: a parenthesized expression, a constant, a call, a variable or a number; with the
/// tokens after it.
pub open spec fn parse_atom(ts: Seq<SpecToken>) -> Result<(SpecExpr, Seq<SpecToken>), SpecError>
    decreases ts.len(), 0nat,
{
    let t = head(ts);
    let rest = tail(ts);
    match t {
        SpecToken::LParen => match parse_expr(rest, 1) {
            Err(e) => Err(e),
            Ok((e, r)) => if head(r) is RParen {
                Ok((e, tail(r)))
            } else {
                Err(SpecError::InvalidParens)
            },
        },
        SpecToken::Str(s) => match consts_from_view(s) {
            Some(c) => Ok((SpecExpr::Const(c), rest)),
            None => if head(rest) is LParen {
                let r2 = tail(rest);
                if head(r2) is RParen {
                    call_or_log(s, seq![], tail(r2))
                } else {
                    match parse_args(r2, seq![]) {
                        Err(e) => Err(e),
                        Ok((args, r3)) => call_or_log(s, args, r3),
                    }
                }
            } else {
                Ok((SpecExpr::Var(s), rest))
            },
        },
        SpecToken::Number(n) => Ok((SpecExpr::Number(n), rest)),
        _ => Err(SpecError::AtomExpected(t)),
    }
}

/// Comma-separated arguments up to the closing parenthesis, after the ones in `acc`.
pub open spec fn parse_args(ts: Seq<SpecToken>, acc: Seq<SpecExpr>) -> Result<
    (Seq<SpecExpr>, Seq<SpecToken>),
    SpecError,
>
    decreases ts.len(), 2nat,
{
    match parse_expr(ts, 1) {
        Err(e) => Err(e),
        Ok((e, r)) => if r.len() < ts.len() {
            match head(r) {
                SpecToken::Comma => parse_args(tail(r), acc.push(e)),
                SpecToken::RParen => Ok((acc.push(e), tail(r))),
                _ => Err(SpecError::InvalidParens),
            }
        } else {
            Err(SpecError::InvalidParens)
        },
    }
}

/// An expression whose operators all have precedence at least `min_prec` (precedence climbing).
pub open spec fn parse_expr(ts: Seq<SpecToken>, min_prec: nat) -> Result<
    (SpecExpr, Seq<SpecToken>),
    SpecError,
>
    decreases ts.len(), 1nat,
{
    match parse_atom(ts) {
        Err(e) => Err(e),
        Ok((lhs, r)) => if r.len() < ts.len() {
            parse_expr_loop(lhs, r, min_prec)
        } else {
            Err(SpecError::InvalidParens)
        },
    }
}

/// Extends `lhs` with operators of precedence at least `min_prec`, left-associative ones
/// grouping to the left and `^` to the right.
pub open spec fn parse_expr_loop(lhs: SpecExpr, ts: Seq<SpecToken>, min_prec: nat) -> Result<
    (SpecExpr, Seq<SpecToken>),
    SpecError,
>
    decreases ts.len(), 2nat,
{
    match head(ts) {
        SpecToken::Op(op) => if op_prec(op) < min_prec {
            Ok((lhs, ts))
        } else {
            let next_min = if op_left_assoc(op) {
                op_prec(op) + 1
            } else {
                op_prec(op)
            };
            match parse_expr(tail(ts), next_min) {
                Err(e) => Err(e),
                Ok((rhs, r)) => if r.len() < ts.len() {
                    parse_expr_loop(
                        SpecExpr::Infix { lhs: Box::new(lhs), op: op, rhs: Box::new(rhs) },
                        r,
                        min_prec,
                    )
                } else {
                    Err(SpecError::InvalidParens)
                },
            }
        },
        _ => Ok((lhs, ts)),
    }
}

/// The expression that `parse` reads from a string (tokens after it are ignored).
pub open spec fn parse_spec(input: Seq<char>) -> Result<SpecExpr, SpecError> {
    match lex(strip_white_space(input)) {
        Err(e) => Err(e),
        Ok(ts) => match parse_expr(ts, 1) {
            Err(e) => Err(e),
            Ok((e, _)) => Ok(e),
        },
    }
}

/// The characters of two pieces that are not white space, taken together.
pub proof fn lemma_strip_concat(a: Seq<char>, b: Seq<char>)
    ensures
        strip_white_space(a + b) == strip_white_space(a) + strip_white_space(b),
    decreases b.len(),
{
    if b.len() == 0 {
        assert(a + b =~= a);
        assert(strip_white_space(a) + seq![] =~= strip_white_space(a));
    } else {
        lemma_strip_concat(a, b.drop_last());
        assert((a + b).drop_last() =~= a + b.drop_last());
        assert((a + b).last() == b.last());
        if !crate::text::is_white_space(b.last()) {
            assert(strip_white_space(a) + strip_white_space(b.drop_last()).push(b.last())
                =~= (strip_white_space(a) + strip_white_space(b.drop_last())).push(b.last()));
        }
    }
}

/// White space anywhere in the input does not change what `parse` reads.
pub proof fn law_parse_ignores_white_space(a: Seq<char>, b: Seq<char>, c: char)
    requires
        crate::text::is_white_space(c),
    ensures
        parse_spec(a + seq![c] + b) == parse_spec(a + b),
{
    lemma_strip_concat(a + seq![c], b);
    lemma_strip_concat(a, seq![c]);
    lemma_strip_concat(a, b);
    assert(seq![c].drop_last() =~= Seq::<char>::empty());
    assert(seq![c].last() == c);
    assert(strip_white_space(seq![c].drop_last()) =~= Seq::<char>::empty());
    assert(strip_white_space(seq![c]) =~= Seq::<char>::empty());
    assert(strip_white_space(a) + Seq::<char>::empty() =~= strip_white_space(a));
}

/// Whether `a o1 b o2 c` groups as `a o1 (b o2 c)`: where `o2` binds tighter than `o1`
/// (`*` and `/` tighter than `+` and `-`, `^` tightest), or both are `^`, which groups to the
/// right. Every other pair groups to the left.
pub open spec fn groups_right(o1: Op, o2: Op) -> bool {
    ||| (o1 is Add || o1 is Sub) && !(o2 is Add || o2 is Sub)
    ||| (o1 is Mul || o1 is Div) && o2 is Exp
    ||| o1 is Exp && o2 is Exp
}

/// A number followed by other tokens reads as that number.
proof fn lemma_atom_number(n: Rational, rest: Seq<SpecToken>)
    ensures
        parse_atom(seq![SpecToken::Number(n)] + rest) == Ok::<(SpecExpr, Seq<SpecToken>), SpecError>(
            (SpecExpr::Number(n), rest),
        ),
{
    let t = seq![SpecToken::Number(n)] + rest;
    assert(head(t) == SpecToken::Number(n));
    assert(tail(t) =~= rest);
}

/// At the end of the tokens, the expression read so far is the result.
proof fn lemma_loop_end(lhs: SpecExpr, k: nat)
    ensures
        parse_expr_loop(lhs, Seq::<SpecToken>::empty(), k) == Ok::<(SpecExpr, Seq<SpecToken>), SpecError>(
            (lhs, Seq::<SpecToken>::empty()),
        ),
{
    assert(head(Seq::<SpecToken>::empty()) == SpecToken::Eof);
}

/// A lone number reads as that number at any precedence.
proof fn lemma_expr_number(n: Rational, k: nat)
    ensures
        parse_expr(seq![SpecToken::Number(n)], k) == Ok::<(SpecExpr, Seq<SpecToken>), SpecError>(
            (SpecExpr::Number(n), Seq::<SpecToken>::empty()),
        ),
{
    lemma_atom_number(n, Seq::empty());
    assert(seq![SpecToken::Number(n)] + Seq::<SpecToken>::empty() =~= seq![SpecToken::Number(n)]);
    lemma_loop_end(SpecExpr::Number(n), k);
}

/// Law: three numbers joined by two operators group by precedence and associativity:
/// `*` and `/` bind tighter than `+` and `-`, `^` binds tightest; operators of one precedence
/// group to the left (`10 - 4 - 3` is `(10 - 4) - 3`), except `^`, which groups to the right.
pub proof fn law_operators_group_by_precedence(a: Rational, o1: Op, b: Rational, o2: Op, c: Rational)
    ensures
        parse_expr(
            seq![
                SpecToken::Number(a),
                SpecToken::Op(o1),
                SpecToken::Number(b),
                SpecToken::Op(o2),
                SpecToken::Number(c),
            ],
            1,
        ) == Ok::<(SpecExpr, Seq<SpecToken>), SpecError>(
            (
                if groups_right(o1, o2) {
                    SpecExpr::Infix {
                        lhs: Box::new(SpecExpr::Number(a)),
                        op: o1,
                        rhs: Box::new(
                            SpecExpr::Infix {
                                lhs: Box::new(SpecExpr::Number(b)),
                                op: o2,
                                rhs: Box::new(SpecExpr::Number(c)),
                            },
                        ),
                    }
                } else {
                    SpecExpr::Infix {
                        lhs: Box::new(
                            SpecExpr::Infix {
                                lhs: Box::new(SpecExpr::Number(a)),
                                op: o1,
                                rhs: Box::new(SpecExpr::Number(b)),
                            },
                        ),
                        op: o2,
                        rhs: Box::new(SpecExpr::Number(c)),
                    }
                },
                Seq::<SpecToken>::empty(),
            ),
        ),
{
    let na = SpecExpr::Number(a);
    let nb = SpecExpr::Number(b);
    let nc = SpecExpr::Number(c);
    let t5 = seq![SpecToken::Number(c)];
    let t4 = seq![SpecToken::Op(o2)] + t5;
    let t3 = seq![SpecToken::Number(b)] + t4;
    let t2 = seq![SpecToken::Op(o1)] + t3;
    let t1 = seq![SpecToken::Number(a)] + t2;
    assert(t1 =~= seq![
        SpecToken::Number(a),
        SpecToken::Op(o1),
        SpecToken::Number(b),
        SpecToken::Op(o2),
        SpecToken::Number(c),
    ]);
    assert(head(t2) == SpecToken::Op(o1) && tail(t2) =~= t3);
    assert(head(t4) == SpecToken::Op(o2) && tail(t4) =~= t5);
    lemma_atom_number(a, t2);
    lemma_atom_number(b, t4);
    let m1 = if op_left_assoc(o1) { op_prec(o1) + 1 } else { op_prec(o1) };
    let m2 = if op_left_assoc(o2) { op_prec(o2) + 1 } else { op_prec(o2) };
    lemma_expr_number(c, m1);
    lemma_expr_number(c, m2);
    let inner = SpecExpr::Infix { lhs: Box::new(nb), op: o2, rhs: Box::new(nc) };
    let outer_r = SpecExpr::Infix { lhs: Box::new(na), op: o1, rhs: Box::new(inner) };
    let left = SpecExpr::Infix { lhs: Box::new(na), op: o1, rhs: Box::new(nb) };
    let outer_l = SpecExpr::Infix { lhs: Box::new(left), op: o2, rhs: Box::new(nc) };
    lemma_loop_end(inner, m1);
    lemma_loop_end(outer_r, 1);
    lemma_loop_end(outer_l, 1);
    if op_prec(o2) < m1 {
        // b stands alone as the right operand of o1; o2 then applies to a o1 b
        assert(parse_expr_loop(nb, t4, m1) == Ok::<(SpecExpr, Seq<SpecToken>), SpecError>((nb, t4)));
        assert(parse_expr(t3, m1) == Ok::<(SpecExpr, Seq<SpecToken>), SpecError>((nb, t4)));
        assert(parse_expr_loop(left, t4, 1) == Ok::<(SpecExpr, Seq<SpecToken>), SpecError>(
            (outer_l, Seq::<SpecToken>::empty()),
        ));
        assert(parse_expr_loop(na, t2, 1) == Ok::<(SpecExpr, Seq<SpecToken>), SpecError>(
            (outer_l, Seq::<SpecToken>::empty()),
        ));
    } else {
        // b o2 c is the right operand of o1
        assert(parse_expr_loop(nb, t4, m1) == Ok::<(SpecExpr, Seq<SpecToken>), SpecError>(
            (inner, Seq::<SpecToken>::empty()),
        ));
        assert(parse_expr(t3, m1) == Ok::<(SpecExpr, Seq<SpecToken>), SpecError>(
            (inner, Seq::<SpecToken>::empty()),
        ));
        assert(parse_expr_loop(na, t2, 1) == Ok::<(SpecExpr, Seq<SpecToken>), SpecError>(
            (outer_r, Seq::<SpecToken>::empty()),
        ));
    }
}

/// Reads an atom.
#[verifier::loop_isolation(false)]
fn compute_atom(lexer: &mut Lexer) -> (r: Result<Expr, Error>)
    ensures
        parse_atom(old(lexer)@) matches Ok((e, rest)) ==> (r matches Ok(x) && x@ == e
            && final(lexer)@ == rest),
        parse_atom(old(lexer)@) matches Err(e) ==> (r matches Err(x) && x@ == e),
        r is Ok ==> final(lexer)@.len() < old(lexer)@.len(),
    decreases old(lexer)@.len(), 0nat,
{
    let ghost ts = lexer@;
    match lexer.next() {
        Token::LParen => {
            let expr = compute_expr(lexer, 1)?;
            if matches!(lexer.next(), Token::RParen) {
                Ok(expr)
            } else {
                Err(Error::InvalidParens)
            }
        },
        Token::String(s) => {
            if let Some(c) = Consts::from_str(s.as_str()) {
                Ok(Expr::Const(c))
            } else if matches!(lexer.peek(), Token::LParen) {
                // A function call
                lexer.next();
                let mut args: Vec<Expr> = Vec::new();
                if !matches!(lexer.peek(), Token::RParen) {
                    let ghost start = lexer@;
                    loop
                        invariant
                            parse_args(start, seq![]) == parse_args(lexer@, view_exprs(args@)),
                            lexer@.len() <= start.len(),
                            start.len() < ts.len(),
                        decreases lexer@.len(),
                    {
                        let ghost before = lexer@;
                        let ghost acc = view_exprs(args@);
                        let e = compute_expr(lexer, 1)?;
                        proof {
                            lemma_view_exprs(args@);
                            lemma_view_exprs(args@.push(e));
                            lemma_view_exprs_ext(args@.push(e), acc.push(e@));
                        }
                        args.push(e);
                        match lexer.next() {
                            Token::Comma => {},
                            Token::RParen => {
                                break;
                            },
                            _ => {
                                return Err(Error::InvalidParens);
                            },
                        }
                    }
                } else {
                    lexer.next();
                }
                let ghost argv = view_exprs(args@);
                proof {
                    lemma_view_exprs(args@);
                }
                if str_eq(s.as_str(), "log") {
                    proof {
                        reveal_strlit("log");
                        assert("log"@ =~= log_name());
                    }
                    if args.len() == 1 {
                        let arg = args.pop().unwrap();
                        let ten_r = Rational::unwrap_new(10, 1);
                        proof {
                            use_type_invariant(&ten_r);
                            reveal_with_fuel(crate::rational::gcd::gcd, 2);
                            crate::rational::lemma_reduced_of_lowest_terms((10, 1));
                        }
                        let base = Expr::Number(ten_r);
                        proof {
                            lemma_ten(base@);
                        }
                        Ok(Expr::Log { base: Box::new(base), arg: Box::new(arg) })
                    } else if args.len() == 2 {
                        let arg = args.pop().unwrap();
                        let base = args.pop().unwrap();
                        Ok(Expr::Log { base: Box::new(base), arg: Box::new(arg) })
                    } else {
                        proof {
                            reveal_strlit("log expects exactly 2 arguments");
                        }
                        Err(Error::InvalidFunc(String::from_str("log expects exactly 2 arguments")))
                    }
                } else {
                    proof {
                        reveal_strlit("log");
                        assert("log"@ =~= log_name());
                    }
                    Ok(Expr::Call { func: s, args })
                }
            } else {
                // A variable
                Ok(Expr::Var(s))
            }
        },
        Token::Number(n) => Ok(Expr::Number(n)),
        t => Err(Error::AtomExpected(t)),
    }
}

/// `Number(10)` is the base ten.
proof fn lemma_ten(e: SpecExpr)
    requires
        e matches SpecExpr::Number(n) && n@ == (10int, 1int) && n.wf(),
    ensures
        e == SpecExpr::Number(ten()),
{
    let n = e->Number_0;
    n.lemma_lowest_terms();
    Rational::lemma_from_view((10, 1));
    Rational::lemma_view_injective(n, ten());
}

/// Reads an expression whose operators have precedence at least `min_prec`.
#[verifier::loop_isolation(false)]
fn compute_expr(lexer: &mut Lexer, min_prec: usize) -> (r: Result<Expr, Error>)
    ensures
        parse_expr(old(lexer)@, min_prec as nat) matches Ok((e, rest)) ==> (r matches Ok(x) && x@
            == e && final(lexer)@ == rest),
        parse_expr(old(lexer)@, min_prec as nat) matches Err(e) ==> (r matches Err(x) && x@ == e),
        r is Ok ==> final(lexer)@.len() < old(lexer)@.len(),
    decreases old(lexer)@.len(), 1nat,
{
    let ghost ts = lexer@;
    let mut atom_lhs = compute_atom(lexer)?;
    loop
        invariant
            parse_expr(ts, min_prec as nat) == parse_expr_loop(atom_lhs@, lexer@, min_prec as nat),
            lexer@.len() < ts.len(),
        decreases lexer@.len(),
    {
        // Stop when the precedence is lower, no tokens are left, or no operator follows
        let op = match lexer.peek() {
            Token::Op(op) => {
                let (prec, _) = op.get_info();
                if prec < min_prec {
                    break;
                }
                op
            },
            _ => break,
        };
        let ghost before = lexer@;
        // Consume the operator
        lexer.next();
        let (prec, assoc) = op.get_info();
        let next_min_prec = if assoc == Assoc::Left {
            prec + 1
        } else {
            prec
        };
        let atom_rhs = compute_expr(lexer, next_min_prec)?;
        atom_lhs = Expr::Infix { lhs: Box::new(atom_lhs), op, rhs: Box::new(atom_rhs) };
    }
    Ok(atom_lhs)
}

/// Parses an expression, ignoring white space.
pub fn parse(input: &str) -> (r: Result<Expr, Error>)
    ensures
        parse_spec(input@) matches Ok(e) ==> (r matches Ok(x) && x@ == e),
        parse_spec(input@) matches Err(e) ==> (r matches Err(x) && x@ == e),
{
    let mut lexer = Lexer::new(input)?;
    compute_expr(&mut lexer, 1)
}

/// The message of `InvalidFunc` for the given failure of `parse_func`.
pub open spec fn no_eq_message() -> Seq<char> {
    "no \"=\" found"@
}

/// Message for a function name with something else than text.
pub open spec fn bad_name_message() -> Seq<char> {
    "invalid function name"@
}

/// Message for an empty function name.
pub open spec fn empty_name_message() -> Seq<char> {
    "empty function name"@
}

/// Message for a name not followed by `(`.
pub open spec fn no_paren_message() -> Seq<char> {
    "expected '(' after function name"@
}

/// Message for a missing argument name.
pub open spec fn arg_name_message() -> Seq<char> {
    "expected argument name"@
}

/// Message for an argument followed by neither `,` nor `)`.
pub open spec fn separator_message() -> Seq<char> {
    "expected ',' or ')'"@
}

/// The index of the first `=`.
pub open spec fn first_eq(s: Seq<char>) -> Option<int>
    decreases s.len(),
{
    if s.len() == 0 {
        None
    } else if s[0] == '=' {
        Some(0)
    } else {
        match first_eq(s.drop_first()) {
            Some(i) => Some(i + 1),
            None => None,
        }
    }
}

/// The leading text tokens joined, up to a `(` or the end; any other token fails.
pub open spec fn spec_func_name(ts: Seq<SpecToken>) -> Result<(Seq<char>, Seq<SpecToken>), SpecError>
    decreases ts.len(),
{
    if ts.len() == 0 {
        Ok((seq![], ts))
    } else {
        match ts[0] {
            SpecToken::Str(s) => match spec_func_name(ts.drop_first()) {
                Ok((n, r)) => Ok((s + n, r)),
                Err(e) => Err(e),
            },
            SpecToken::LParen => Ok((seq![], ts)),
            _ => Err(SpecError::InvalidFunc(bad_name_message())),
        }
    }
}

/// Argument names separated by commas up to `)`, after the ones in `acc`.
pub open spec fn spec_func_args(ts: Seq<SpecToken>, acc: Seq<Seq<char>>) -> Result<Seq<Seq<char>>, SpecError>
    decreases ts.len(),
{
    if ts.len() == 0 {
        Err(SpecError::InvalidFunc(arg_name_message()))
    } else {
        match ts[0] {
            SpecToken::Str(s) => {
                let r = ts.drop_first();
                if r.len() == 0 {
                    Err(SpecError::InvalidFunc(separator_message()))
                } else {
                    match r[0] {
                        SpecToken::Comma => spec_func_args(r.drop_first(), acc.push(s)),
                        SpecToken::RParen => Ok(acc.push(s)),
                        _ => Err(SpecError::InvalidFunc(separator_message())),
                    }
                }
            },
            _ => Err(SpecError::InvalidFunc(arg_name_message())),
        }
    }
}

/// The name and argument names of a function's left-hand side `name(a, b, ...)`.
pub open spec fn func_lhs(ts: Seq<SpecToken>) -> Result<(Seq<char>, Seq<Seq<char>>), SpecError> {
    match spec_func_name(ts) {
        Err(e) => Err(e),
        Ok((name, r)) => if name.len() == 0 {
            Err(SpecError::InvalidFunc(empty_name_message()))
        } else if r.len() == 0 || !(r[0] is LParen) {
            Err(SpecError::InvalidFunc(no_paren_message()))
        } else {
            let r2 = r.drop_first();
            if r2.len() > 0 && r2[0] is RParen {
                Ok((name, seq![]))
            } else {
                match spec_func_args(r2, seq![]) {
                    Ok(args) => Ok((name, args)),
                    Err(e) => Err(e),
                }
            }
        },
    }
}

/// The function that `parse_func` reads from `name(args) = expr`.
pub open spec fn parse_func_spec(input: Seq<char>) -> Result<SpecFunc, SpecError> {
    match first_eq(input) {
        None => Err(SpecError::InvalidFunc(no_eq_message())),
        Some(i) => match lex(input.subrange(0, i)) {
            Err(e) => Err(e),
            Ok(ts) => match func_lhs(ts) {
                Err(e) => Err(e),
                Ok((name, args)) => match parse_spec(input.subrange(i + 1, input.len() as int)) {
                    Err(e) => Err(e),
                    Ok(expr) => Ok(SpecFunc { name: name, args: args, expr: expr }),
                },
            },
        },
    }
}

/// Tokens after the first keep string tokens free of spaces.
proof fn lemma_no_space_drop_first(ts: Seq<SpecToken>)
    requires
        ts.len() > 0,
        no_spaced_strings(ts),
    ensures
        no_spaced_strings(ts.drop_first()),
{
    assert forall|i: int| 0 <= i < ts.drop_first().len() implies (#[trigger] ts.drop_first()[i] matches SpecToken::Str(
        s,
    ) ==> !s.contains(' ')) by {
        assert(ts.drop_first()[i] == ts[i + 1]);
    }
}

/// A function name read from tokens whose strings hold no space holds no space.
proof fn lemma_func_name_no_space(ts: Seq<SpecToken>)
    requires
        no_spaced_strings(ts),
        spec_func_name(ts) is Ok,
    ensures
        !(spec_func_name(ts)->Ok_0).0.contains(' '),
        no_spaced_strings((spec_func_name(ts)->Ok_0).1),
    decreases ts.len(),
{
    if ts.len() > 0 {
        if ts[0] is Str {
            lemma_no_space_drop_first(ts);
            lemma_func_name_no_space(ts.drop_first());
            let n = (spec_func_name(ts.drop_first())->Ok_0).0;
            lemma_space_in_concat(ts[0]->Str_0, n);
        }
    }
}

/// Argument names read from tokens whose strings hold no space hold no space.
proof fn lemma_func_args_no_space(ts: Seq<SpecToken>, acc: Seq<Seq<char>>)
    requires
        no_spaced_strings(ts),
        forall|k: int| 0 <= k < acc.len() ==> !(#[trigger] acc[k]).contains(' '),
        spec_func_args(ts, acc) is Ok,
    ensures
        forall|k: int| 0 <= k < (spec_func_args(ts, acc)->Ok_0).len()
            ==> !(#[trigger] (spec_func_args(ts, acc)->Ok_0)[k]).contains(' '),
    decreases ts.len(),
{
    if ts.len() > 0 && ts[0] is Str {
        let r = ts.drop_first();
        let acc2 = acc.push(ts[0]->Str_0);
        assert(forall|k: int| 0 <= k < acc2.len() ==> !(#[trigger] acc2[k]).contains(' ')) by {
            assert forall|k: int| 0 <= k < acc2.len() implies !(#[trigger] acc2[k]).contains(' ') by {
                if k < acc.len() {
                    assert(acc2[k] == acc[k]);
                }
            }
        }
        if r.len() > 0 && r[0] is Comma {
            lemma_no_space_drop_first(ts);
            lemma_no_space_drop_first(r);
            lemma_func_args_no_space(r.drop_first(), acc2);
        }
    }
}

/// Law: the name and the argument names that `parse_func` reads hold no space, wherever spaces
/// stand in the input (`"f(x, y) = ..."` has the arguments `x` and `y`).
pub proof fn law_func_names_have_no_space(input: Seq<char>)
    ensures
        parse_func_spec(input) matches Ok(f) ==> !f.name.contains(' ') && forall|k: int|
            0 <= k < f.args.len() ==> !(#[trigger] f.args[k]).contains(' '),
{
    if parse_func_spec(input) is Ok {
        let i = first_eq(input)->Some_0;
        let ts = lex(input.subrange(0, i))->Ok_0;
        law_lex_strings_have_no_space(input.subrange(0, i));
        lemma_func_name_no_space(ts);
        let (name, r) = spec_func_name(ts)->Ok_0;
        let r2 = r.drop_first();
        if !(r2.len() > 0 && r2[0] is RParen) {
            lemma_no_space_drop_first(r);
            lemma_func_args_no_space(r2, seq![]);
        }
    }
}

/// Splits at the first `=`.
fn split_once_eq(input: &str) -> (r: Option<(String, String)>)
    ensures
        first_eq(input@) matches Some(i) ==> (r matches Some((l, rest)) && l@ == input@.subrange(0, i)
            && rest@ == input@.subrange(i + 1, input@.len() as int)),
        first_eq(input@) is None ==> r is None,
{
    let cs = chars_of(input);
    let mut i: usize = 0;
    assert(cs@.skip(0) =~= cs@);
    while i < cs.len()
        invariant
            i <= cs.len(),
            cs@ == input@,
            first_eq(input@) == match first_eq(cs@.skip(i as int)) {
                Some(j) => Some(j + i),
                None => None::<int>,
            },
        decreases cs.len() - i,
    {
        assert(cs@.skip(i as int).drop_first() =~= cs@.skip(i + 1));
        if cs[i] == '=' {
            let mut lhs: Vec<char> = Vec::new();
            let mut j: usize = 0;
            while j < i
                invariant
                    j <= i,
                    i < cs.len(),
                    lhs@ == cs@.subrange(0, j as int),
                decreases i - j,
            {
                lhs.push(cs[j]);
                j = j + 1;
            }
            let mut rhs: Vec<char> = Vec::new();
            let mut k: usize = i + 1;
            while k < cs.len()
                invariant
                    i < k <= cs.len(),
                    rhs@ == cs@.subrange(i + 1, k as int),
                decreases cs.len() - k,
            {
                rhs.push(cs[k]);
                k = k + 1;
            }
            return Some((string_of(&lhs), string_of(&rhs)));
        }
        i = i + 1;
    }
    None
}

/// Parses a function definition `name(arg, ...) = expr`.
#[verifier::loop_isolation(false)]
pub fn parse_func(input: &str) -> (r: Result<Func, Error>)
    ensures
        parse_func_spec(input@) matches Ok(f) ==> (r matches Ok(x) && x@ == f),
        parse_func_spec(input@) matches Err(e) ==> (r matches Err(x) && x@ == e),
{
    proof {
        reveal_strlit("no \"=\" found");
        reveal_strlit("invalid function name");
        reveal_strlit("empty function name");
        reveal_strlit("expected '(' after function name");
        reveal_strlit("expected argument name");
        reveal_strlit("expected ',' or ')'");
    }
    let (lhs, rhs) = match split_once_eq(input) {
        Some(parts) => parts,
        None => {
            return Err(Error::InvalidFunc(String::from_str("no \"=\" found")));
        },
    };
    let tokens = parse_string(lhs.as_str())?;
    let ghost ts = tokens_view(tokens@);
    let n = tokens.len();
    let mut pos: usize = 0;
    let mut func_name = String::new();
    assert(spec_func_name(ts) == match spec_func_name(ts.skip(0)) {
        Ok((rest_name, r)) => Ok((func_name@ + rest_name, r)),
        Err(e) => Err(e),
    }) by {
        assert(ts.skip(0) =~= ts);
        if spec_func_name(ts) is Ok {
            let rest_name = spec_func_name(ts)->Ok_0.0;
            assert(func_name@ + rest_name =~= rest_name);
        }
    }
    while pos < n
        invariant
            n == tokens@.len(),
            pos <= n,
            ts == tokens_view(tokens@),
            spec_func_name(ts) == match spec_func_name(ts.skip(pos as int)) {
                Ok((rest_name, r)) => Ok((func_name@ + rest_name, r)),
                Err(e) => Err(e),
            },
        decreases n - pos,
    {
        assert(ts.skip(pos as int)[0] == tokens@[pos as int]@);
        assert(ts.skip(pos as int).drop_first() =~= ts.skip(pos + 1));
        match &tokens[pos] {
            Token::String(s) => {
                let ghost before = func_name@;
                push_str(&mut func_name, s.as_str());
                assert(spec_func_name(ts) == match spec_func_name(ts.skip(pos + 1)) {
                    Ok((rest_name, r)) => Ok((func_name@ + rest_name, r)),
                    Err(e) => Err(e),
                }) by {
                    if spec_func_name(ts.skip(pos + 1)) is Ok {
                        let rest_name = spec_func_name(ts.skip(pos + 1))->Ok_0.0;
                        assert(before + (s@ + rest_name) =~= (before + s@) + rest_name);
                    }
                }
            },
            Token::Number(n) if n.is_integer() && !n.is_integer() => {
                // a number is never part of a name
                assert(false);
            },
            Token::LParen => {
                break;
            },
            _ => {
                return Err(Error::InvalidFunc(String::from_str("invalid function name")));
            },
        }
        pos = pos + 1;
    }
    assert(spec_func_name(ts) matches Ok((nm, r)) && nm == func_name@ && r == ts.skip(pos as int)) by {
        if pos == n {
            assert(ts.skip(pos as int).len() == 0);
            assert(func_name@ + seq![] =~= func_name@);
        } else {
            assert(func_name@ + seq![] =~= func_name@);
        }
    }
    if func_name.as_str().is_empty() {
        return Err(Error::InvalidFunc(String::from_str("empty function name")));
    }
    if pos >= n || !matches!(tokens[pos], Token::LParen) {
        proof {
            if pos < n {
                assert(ts.skip(pos as int)[0] == tokens@[pos as int]@);
            }
        }
        return Err(Error::InvalidFunc(String::from_str("expected '(' after function name")));
    }
    pos = pos + 1;
    assert(ts.skip(pos - 1).drop_first() =~= ts.skip(pos as int));
    let mut func_args: Vec<String> = Vec::new();
    assert(strings_view(func_args@) =~= seq![]);
    if pos < n {
        assert(ts.skip(pos as int)[0] == tokens@[pos as int]@);
    }
    if !(pos < n && matches!(tokens[pos], Token::RParen)) {
        proof {
            if pos < n {
                assert(ts.skip(pos as int)[0] == tokens@[pos as int]@);
            }
        }
        let ghost start = pos as int;
        assert(strings_view(func_args@) =~= seq![]);
        loop
            invariant
                n == tokens@.len(),
                start <= pos <= n,
                ts == tokens_view(tokens@),
                spec_func_args(ts.skip(start), seq![]) == spec_func_args(ts.skip(pos as int), strings_view(func_args@)),
            decreases n - pos,
        {
            let ghost here = ts.skip(pos as int);
            let name = if pos < n {
                match &tokens[pos] {
                    Token::String(s) => s.clone(),
                    _ => {
                        assert(here[0] == tokens@[pos as int]@);
                        return Err(Error::InvalidFunc(String::from_str("expected argument name")));
                    },
                }
            } else {
                return Err(Error::InvalidFunc(String::from_str("expected argument name")));
            };
            assert(here[0] == tokens@[pos as int]@);
            assert(here.drop_first() =~= ts.skip(pos + 1));
            let ghost acc_old = strings_view(func_args@);
            proof {
                assert(strings_view(func_args@.push(name)) =~= strings_view(func_args@).push(name@));
                assert(here[0] == SpecToken::Str(name@));
            }
            func_args.push(name);
            pos = pos + 1;
            if pos >= n {
                return Err(Error::InvalidFunc(String::from_str("expected ',' or ')'")));
            }
            assert(ts.skip(pos as int)[0] == tokens@[pos as int]@);
            assert(ts.skip(pos as int).drop_first() =~= ts.skip(pos + 1));
            match &tokens[pos] {
                Token::Comma => {
                    pos = pos + 1;
                },
                Token::RParen => {
                    assert(here.drop_first()[0] == SpecToken::RParen);
                    assert(spec_func_args(here, acc_old) == Ok::<Seq<Seq<char>>, SpecError>(
                        strings_view(func_args@),
                    ));
                    break;
                },
                _ => {
                    return Err(Error::InvalidFunc(String::from_str("expected ',' or ')'")));
                },
            }
        }
    }
    assert(func_lhs(ts) == Ok::<(Seq<char>, Seq<Seq<char>>), SpecError>(
        (func_name@, strings_view(func_args@)),
    ));
    let expr = parse(rhs.as_str())?;
    Ok(Func::new(func_name, func_args, expr))
}

} // verus!
