use vstd::prelude::*;

use super::reduce::{apply_spec, number_result, one_expr, reduce_spec, zero_expr};
use super::SpecExpr;
use crate::ctx::SpecCtx;
use crate::error::SpecError;
use crate::parser::lexer::Op;
use crate::rational::pow::pow_spec;
use vstd::std_specs::ops::{AddSpec, DivSpec, MulSpec, SubSpec};
use crate::rational::{lemma_integer_lowest_terms, lemma_reduced_of_lowest_terms, lowest_terms, Rational};

verus! {

/// The rational zero.
pub open spec fn zero_rational() -> Rational {
    Rational::from_view((0, 1))
}

/// The rational one.
pub open spec fn one_rational() -> Rational {
    Rational::from_view((1, 1))
}

/// Whether, where evaluating `e` gives a number, that number is in lowest terms (as every
/// rational the library makes is).
pub open spec fn number_results_valid(e: SpecExpr, ctx: SpecCtx, fuel: nat) -> bool {
    reduce_spec(e, ctx, fuel) matches Some(Ok(SpecExpr::Number(n))) ==> lowest_terms(n@)
}

/// Zero and one are in lowest terms, and their views are `0 / 1` and `1 / 1`.
proof fn lemma_zero_one()
    ensures
        zero_rational()@ == (0int, 1int),
        one_rational()@ == (1int, 1int),
        lowest_terms((0int, 1int)),
        lowest_terms((1int, 1int)),
{
    lemma_integer_lowest_terms(0);
    lemma_integer_lowest_terms(1);
    Rational::lemma_from_view((0, 1));
    Rational::lemma_from_view((1, 1));
}

/// A number evaluates to itself.
#[verifier::spinoff_prover]
pub proof fn law_number_reduces_to_itself(n: Rational, ctx: SpecCtx, fuel: nat)
    requires
        fuel > 0,
    ensures
        reduce_spec(SpecExpr::Number(n), ctx, fuel) == Some(Ok::<SpecExpr, SpecError>(SpecExpr::Number(n))),
{
}

/// Two numbers joined by an operator evaluate to what the operator gives on them.
#[verifier::spinoff_prover]
pub proof fn law_numbers_combine(a: Rational, op: Op, b: Rational, ctx: SpecCtx, fuel: nat)
    requires
        fuel > 0,
    ensures
        reduce_spec(
            SpecExpr::Infix {
                lhs: Box::new(SpecExpr::Number(a)),
                op: op,
                rhs: Box::new(SpecExpr::Number(b)),
            },
            ctx,
            fuel,
        ) == number_result(apply_spec(op, a, b)),
{
    law_number_reduces_to_itself(a, ctx, fuel);
    law_number_reduces_to_itself(b, ctx, fuel);
}

/// Applying an operator to two numbers gives what the operator of `Rational` gives (`+`, `-`,
/// `*`, `/`) wherever that does not panic, and what `pow` gives for `^`.
#[verifier::spinoff_prover]
pub proof fn law_apply_is_the_operator(a: Rational, b: Rational)
    ensures
        a.add_req(b) ==> apply_spec(Op::Add, a, b) == Some(Ok::<Rational, SpecError>(a.add_spec(b))),
        a.sub_req(b) ==> apply_spec(Op::Sub, a, b) == Some(Ok::<Rational, SpecError>(a.sub_spec(b))),
        a.mul_req(b) ==> apply_spec(Op::Mul, a, b) == Some(Ok::<Rational, SpecError>(a.mul_spec(b))),
        a.div_req(b) ==> apply_spec(Op::Div, a, b) == Some(Ok::<Rational, SpecError>(a.div_spec(b))),
        !a.add_req(b) ==> apply_spec(Op::Add, a, b) is None,
        !a.sub_req(b) ==> apply_spec(Op::Sub, a, b) is None,
        !a.mul_req(b) ==> apply_spec(Op::Mul, a, b) is None,
        !a.div_req(b) ==> apply_spec(Op::Div, a, b) is None,
        apply_spec(Op::Exp, a, b) == (match pow_spec(a@, b@) {
            Ok(v) => Some(Ok::<Rational, SpecError>(Rational::from_view(v))),
            Err(e) => Some(Err::<Rational, SpecError>(e)),
        }),
{
}

/// A variable evaluates to the value of the global of its name, and to itself where there is
/// none.
#[verifier::spinoff_prover]
pub proof fn law_variable_reduces_to_global(name: Seq<char>, ctx: SpecCtx, fuel: nat)
    requires
        fuel > 0,
    ensures
        ctx.globals.contains_key(name) && ctx.globals[name] is Some ==> reduce_spec(
            SpecExpr::Var(name),
            ctx,
            fuel,
        ) == Some(Ok::<SpecExpr, SpecError>(ctx.globals[name]->Some_0)),
        !(ctx.globals.contains_key(name) && ctx.globals[name] is Some) ==> reduce_spec(
            SpecExpr::Var(name),
            ctx,
            fuel,
        ) == Some(Ok::<SpecExpr, SpecError>(SpecExpr::Var(name))),
{
}

/// A call of a function that the context does not hold fails with `InvalidFunc`.
#[verifier::spinoff_prover]
pub proof fn law_unknown_function(func: Seq<char>, args: Seq<SpecExpr>, ctx: SpecCtx, fuel: nat)
    requires
        fuel > 0,
        !ctx.funcs.contains_key(func),
    ensures
        reduce_spec(SpecExpr::Call { func, args }, ctx, fuel) == Some(
            Err::<SpecExpr, SpecError>(SpecError::InvalidFunc(func)),
        ),
{
}

/// `0 + e` evaluates as `e` does.
#[verifier::spinoff_prover]
pub proof fn law_zero_plus(e: SpecExpr, ctx: SpecCtx, fuel: nat)
    requires
        fuel > 0,
        number_results_valid(e, ctx, fuel),
    ensures
        reduce_spec(
            SpecExpr::Infix {
                lhs: Box::new(SpecExpr::Number(zero_rational())),
                op: Op::Add,
                rhs: Box::new(e),
            },
            ctx,
            fuel,
        ) == reduce_spec(e, ctx, fuel),
{
    lemma_zero_one();
    law_number_reduces_to_itself(zero_rational(), ctx, fuel);
    law_number_reduces_to_itself(one_rational(), ctx, fuel);
    match reduce_spec(e, ctx, fuel) {
        Some(Ok(SpecExpr::Number(n))) => {
            lemma_reduced_of_lowest_terms(n@);
            Rational::lemma_from_own_view(n);
            assert(crate::rational::ops::den_as_i128(1) == 1);
        },
        _ => {},
    }
}

/// `e + 0` evaluates as `e` does.
#[verifier::spinoff_prover]
pub proof fn law_plus_zero(e: SpecExpr, ctx: SpecCtx, fuel: nat)
    requires
        fuel > 0,
        number_results_valid(e, ctx, fuel),
    ensures
        reduce_spec(
            SpecExpr::Infix {
                lhs: Box::new(e),
                op: Op::Add,
                rhs: Box::new(SpecExpr::Number(zero_rational())),
            },
            ctx,
            fuel,
        ) == reduce_spec(e, ctx, fuel),
{
    lemma_zero_one();
    law_number_reduces_to_itself(zero_rational(), ctx, fuel);
    law_number_reduces_to_itself(one_rational(), ctx, fuel);
    match reduce_spec(e, ctx, fuel) {
        Some(Ok(SpecExpr::Number(n))) => {
            lemma_reduced_of_lowest_terms(n@);
            Rational::lemma_from_own_view(n);
            assert(crate::rational::ops::den_as_i128(1) == 1);
        },
        _ => {},
    }
}

/// `e - 0` evaluates as `e` does.
#[verifier::spinoff_prover]
pub proof fn law_minus_zero(e: SpecExpr, ctx: SpecCtx, fuel: nat)
    requires
        fuel > 0,
        number_results_valid(e, ctx, fuel),
    ensures
        reduce_spec(
            SpecExpr::Infix {
                lhs: Box::new(e),
                op: Op::Sub,
                rhs: Box::new(SpecExpr::Number(zero_rational())),
            },
            ctx,
            fuel,
        ) == reduce_spec(e, ctx, fuel),
{
    lemma_zero_one();
    law_number_reduces_to_itself(zero_rational(), ctx, fuel);
    law_number_reduces_to_itself(one_rational(), ctx, fuel);
    match reduce_spec(e, ctx, fuel) {
        Some(Ok(SpecExpr::Number(n))) => {
            lemma_reduced_of_lowest_terms(n@);
            Rational::lemma_from_own_view(n);
            assert(crate::rational::ops::den_as_i128(1) == 1);
        },
        _ => {},
    }
}

/// `1 * e` and `e * 1` evaluate as `e` does.
#[verifier::spinoff_prover]
pub proof fn law_times_one(e: SpecExpr, ctx: SpecCtx, fuel: nat)
    requires
        fuel > 0,
        number_results_valid(e, ctx, fuel),
    ensures
        reduce_spec(
            SpecExpr::Infix {
                lhs: Box::new(SpecExpr::Number(one_rational())),
                op: Op::Mul,
                rhs: Box::new(e),
            },
            ctx,
            fuel,
        ) == reduce_spec(e, ctx, fuel),
        reduce_spec(
            SpecExpr::Infix {
                lhs: Box::new(e),
                op: Op::Mul,
                rhs: Box::new(SpecExpr::Number(one_rational())),
            },
            ctx,
            fuel,
        ) == reduce_spec(e, ctx, fuel),
{
    lemma_zero_one();
    law_number_reduces_to_itself(zero_rational(), ctx, fuel);
    law_number_reduces_to_itself(one_rational(), ctx, fuel);
    match reduce_spec(e, ctx, fuel) {
        Some(Ok(SpecExpr::Number(n))) => {
            lemma_reduced_of_lowest_terms(n@);
            Rational::lemma_from_own_view(n);
            assert(n@.0 * 1 == n@.0 && 1 * n@.0 == n@.0);
            assert(n@.1 * 1 == n@.1 && 1 * n@.1 == n@.1);
        },
        _ => {},
    }
}

/// `0 * e` and `e * 0` evaluate to zero where `e` evaluates to a value, and fail as `e` does.
#[verifier::spinoff_prover]
pub proof fn law_times_zero(e: SpecExpr, ctx: SpecCtx, fuel: nat)
    requires
        fuel > 0,
        number_results_valid(e, ctx, fuel),
    ensures
        reduce_spec(e, ctx, fuel) is Some && reduce_spec(e, ctx, fuel)->Some_0 is Ok ==> reduce_spec(
            SpecExpr::Infix {
                lhs: Box::new(SpecExpr::Number(zero_rational())),
                op: Op::Mul,
                rhs: Box::new(e),
            },
            ctx,
            fuel,
        ) == Some(Ok::<SpecExpr, SpecError>(zero_expr())),
        reduce_spec(e, ctx, fuel) is Some && reduce_spec(e, ctx, fuel)->Some_0 is Ok ==> reduce_spec(
            SpecExpr::Infix {
                lhs: Box::new(e),
                op: Op::Mul,
                rhs: Box::new(SpecExpr::Number(zero_rational())),
            },
            ctx,
            fuel,
        ) == Some(Ok::<SpecExpr, SpecError>(zero_expr())),
        !(reduce_spec(e, ctx, fuel) is Some && reduce_spec(e, ctx, fuel)->Some_0 is Ok) ==> reduce_spec(
            SpecExpr::Infix {
                lhs: Box::new(SpecExpr::Number(zero_rational())),
                op: Op::Mul,
                rhs: Box::new(e),
            },
            ctx,
            fuel,
        ) == reduce_spec(e, ctx, fuel),
{
    lemma_zero_one();
    law_number_reduces_to_itself(zero_rational(), ctx, fuel);
    law_number_reduces_to_itself(one_rational(), ctx, fuel);
    match reduce_spec(e, ctx, fuel) {
        Some(Ok(SpecExpr::Number(n))) => {
            lemma_reduced_of_lowest_terms(n@);
            assert(0 * n@.0 == 0 && n@.0 * 0 == 0);
            assert(1 * n@.1 == n@.1 && n@.1 * 1 == n@.1);
        },
        _ => {},
    }
}

/// `e ^ 0` evaluates to one where `e` evaluates to a value, and fails as `e` does.
#[verifier::spinoff_prover]
pub proof fn law_power_zero(e: SpecExpr, ctx: SpecCtx, fuel: nat)
    requires
        fuel > 0,
        number_results_valid(e, ctx, fuel),
    ensures
        reduce_spec(e, ctx, fuel) is Some && reduce_spec(e, ctx, fuel)->Some_0 is Ok ==> reduce_spec(
            SpecExpr::Infix {
                lhs: Box::new(e),
                op: Op::Exp,
                rhs: Box::new(SpecExpr::Number(zero_rational())),
            },
            ctx,
            fuel,
        ) == Some(Ok::<SpecExpr, SpecError>(one_expr())),
        !(reduce_spec(e, ctx, fuel) is Some && reduce_spec(e, ctx, fuel)->Some_0 is Ok) ==> reduce_spec(
            SpecExpr::Infix {
                lhs: Box::new(e),
                op: Op::Exp,
                rhs: Box::new(SpecExpr::Number(zero_rational())),
            },
            ctx,
            fuel,
        ) == reduce_spec(e, ctx, fuel),
{
    lemma_zero_one();
    law_number_reduces_to_itself(zero_rational(), ctx, fuel);
    law_number_reduces_to_itself(one_rational(), ctx, fuel);
    match reduce_spec(e, ctx, fuel) {
        Some(Ok(SpecExpr::Number(n))) => {
            lemma_reduced_of_lowest_terms((1, 1));
            vstd::arithmetic::power::lemma_pow0(crate::rational::abs(n@.0) as int);
            vstd::arithmetic::power::lemma_pow0(n@.1);
        },
        _ => {},
    }
}

/// The logarithm of one is zero, in any base that evaluates to a value.
#[verifier::spinoff_prover]
pub proof fn law_log_of_one(base: SpecExpr, ctx: SpecCtx, fuel: nat)
    requires
        fuel > 0,
    ensures
        reduce_spec(base, ctx, fuel) is Some && reduce_spec(base, ctx, fuel)->Some_0 is Ok ==> reduce_spec(
            SpecExpr::Log { base: Box::new(base), arg: Box::new(SpecExpr::Number(one_rational())) },
            ctx,
            fuel,
        ) == Some(Ok::<SpecExpr, SpecError>(zero_expr())),
{
    lemma_zero_one();
    law_number_reduces_to_itself(zero_rational(), ctx, fuel);
    law_number_reduces_to_itself(one_rational(), ctx, fuel);
}

} // verus!
