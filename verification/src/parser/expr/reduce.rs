use vstd::prelude::*;

use super::{lemma_view_exprs, lemma_view_exprs_ext, view_exprs, Expr, SpecExpr};
use crate::ctx::{Ctx, SpecCtx};
use crate::error::{Error, SpecError};
use crate::parser::func::apply_args_spec;
use crate::parser::lexer::Op;
use crate::rational::eq::is_uint;
use crate::rational::ops::{
    add_ok, add_parts, den_as_i128, div_parts, div_parts_ok, fits_i128, fits_u128, mul_ok,
    spec_add, spec_checked_div, spec_mul, spec_neg, spec_sub, sub_ok,
};
use crate::rational::pow::pow_spec;
use crate::rational::Rational;

verus! {

/// The view of a result of evaluation.
pub open spec fn view_result(r: Result<Expr, Error>) -> Result<SpecExpr, SpecError> {
    match r {
        Ok(e) => Ok(e@),
        Err(x) => Err(x@),
    }
}

/// What applying `op` to two numbers gives. `None` where the operation panics: an overflow of
/// `+`, `-` or `*`, and a division by zero or with an overflow. Powers report their failures.
pub open spec fn apply_spec(op: Op, a: Rational, b: Rational) -> Option<Result<Rational, SpecError>> {
    match op {
        Op::Add => if add_ok(a@, b@) {
            Some(Ok(Rational::from_view(spec_add(a@, b@))))
        } else {
            None
        },
        Op::Sub => if sub_ok(a@, b@) {
            Some(Ok(Rational::from_view(spec_sub(a@, b@))))
        } else {
            None
        },
        Op::Mul => if mul_ok(a@, b@) {
            Some(Ok(Rational::from_view(spec_mul(a@, b@))))
        } else {
            None
        },
        Op::Div => if div_parts_ok(a@, b@) && spec_checked_div(a@, b@) is Ok {
            Some(Ok(Rational::from_view(spec_checked_div(a@, b@)->Ok_0)))
        } else {
            None
        },
        Op::Exp => match pow_spec(a@, b@) {
            Ok(v) => Some(Ok(Rational::from_view(v))),
            Err(e) => Some(Err(e)),
        },
    }
}

/// A numeric result as an expression.
pub open spec fn number_result(r: Option<Result<Rational, SpecError>>) -> Option<
    Result<SpecExpr, SpecError>,
> {
    match r {
        Some(Ok(n)) => Some(Ok(SpecExpr::Number(n))),
        Some(Err(e)) => Some(Err(e)),
        None => None,
    }
}

/// Whether `e` is the number `v`, a non-negative integer.
pub open spec fn is_num(e: SpecExpr, v: int) -> bool {
    e matches SpecExpr::Number(n) && is_uint(n@, v)
}

/// The number zero.
pub open spec fn zero_expr() -> SpecExpr {
    SpecExpr::Number(Rational::from_view((0, 1)))
}

/// The number one.
pub open spec fn one_expr() -> SpecExpr {
    SpecExpr::Number(Rational::from_view((1, 1)))
}

/// What `l op r` simplifies to when its operands, already reduced, are not both numbers.
/// `None` where evaluation panics (zero divided by an expression that is not a number).
pub open spec fn simplify_infix(op: Op, l: SpecExpr, r: SpecExpr) -> Option<Result<SpecExpr, SpecError>> {
    let keep = Some(Ok(SpecExpr::Infix { lhs: Box::new(l), op: op, rhs: Box::new(r) }));
    if op is Sub && is_num(l, 0) {
        keep
    } else if op is Add && is_num(l, 0) {
        Some(Ok(r))
    } else if op is Add && is_num(r, 0) {
        Some(Ok(l))
    } else if op is Sub && is_num(r, 0) {
        Some(Ok(l))
    } else if op is Mul && (is_num(l, 0) || is_num(r, 0)) {
        Some(Ok(zero_expr()))
    } else if op is Div && is_num(r, 0) {
        Some(Err(SpecError::DivisionByZero))
    } else if op is Div && is_num(l, 0) {
        None
    } else if op is Mul && is_num(l, 1) {
        Some(Ok(r))
    } else if (op is Mul || op is Div) && is_num(r, 1) {
        Some(Ok(l))
    } else if op is Exp && (is_num(r, 0) || is_num(l, 1)) {
        Some(Ok(one_expr()))
    } else if op is Exp && is_num(r, 1) {
        Some(Ok(l))
    } else {
        keep
    }
}

/// Evaluating `e` in `ctx`, with `fuel` bounding the depth of function calls and of rewritten
/// logarithms. `None` when evaluation panics or has not finished within the fuel.
///
/// Operands are evaluated left to right and the first error is the result. Two numbers are
/// combined by their operator; otherwise the rules of `simplify_infix` apply. A call evaluates
/// its arguments, puts them into the function's body and evaluates that. A logarithm of a
/// product, quotient or power is split, and the logarithm of one is zero. A variable is
/// replaced by the global value of that name, where there is one.
pub open spec fn reduce_spec(e: SpecExpr, ctx: SpecCtx, fuel: nat) -> Option<Result<SpecExpr, SpecError>>
    decreases fuel, e, 0nat, 0int,
{
    if fuel == 0 {
        None
    } else {
        match e {
            SpecExpr::Infix { lhs, op, rhs } => match reduce_spec(*lhs, ctx, fuel) {
                Some(Ok(l)) => match reduce_spec(*rhs, ctx, fuel) {
                    Some(Ok(r)) => if l is Number && r is Number {
                        number_result(apply_spec(op, l->Number_0, r->Number_0))
                    } else {
                        simplify_infix(op, l, r)
                    },
                    other => other,
                },
                other => other,
            },
            SpecExpr::Call { func, args } => if !ctx.funcs.contains_key(func) {
                Some(Err(SpecError::InvalidFunc(func)))
            } else {
                match reduce_args(args, ctx, fuel, 0, Seq::empty()) {
                    Some(Ok(vals)) => if vals.len() < ctx.funcs[func].args.len() {
                        None
                    } else {
                        reduce_spec(apply_args_spec(ctx.funcs[func], vals), ctx, (fuel - 1) as nat)
                    },
                    Some(Err(x)) => Some(Err(x)),
                    None => None,
                }
            },
            SpecExpr::Log { base, arg } => match reduce_spec(*base, ctx, fuel) {
                Some(Ok(b)) => match reduce_spec(*arg, ctx, fuel) {
                    Some(Ok(a)) => match a {
                        SpecExpr::Infix { lhs: x, op, rhs: y } => if op is Mul || op is Div {
                            reduce_spec(
                                SpecExpr::Infix {
                                    lhs: Box::new(SpecExpr::Log { base: Box::new(b), arg: x }),
                                    op: if op is Mul {
                                        Op::Add
                                    } else {
                                        Op::Sub
                                    },
                                    rhs: Box::new(SpecExpr::Log { base: Box::new(b), arg: y }),
                                },
                                ctx,
                                (fuel - 1) as nat,
                            )
                        } else if op is Exp {
                            reduce_spec(
                                SpecExpr::Infix {
                                    lhs: y,
                                    op: Op::Mul,
                                    rhs: Box::new(SpecExpr::Log { base: Box::new(b), arg: x }),
                                },
                                ctx,
                                (fuel - 1) as nat,
                            )
                        } else {
                            Some(Ok(SpecExpr::Log { base: Box::new(b), arg: Box::new(a) }))
                        },
                        SpecExpr::Number(n) => if is_uint(n@, 1) {
                            Some(Ok(zero_expr()))
                        } else {
                            Some(Ok(SpecExpr::Log { base: Box::new(b), arg: Box::new(a) }))
                        },
                        _ => Some(Ok(SpecExpr::Log { base: Box::new(b), arg: Box::new(a) })),
                    },
                    other => other,
                },
                other => other,
            },
            SpecExpr::Var(name) => if ctx.globals.contains_key(name) && ctx.globals[name] is Some {
                Some(Ok(ctx.globals[name]->Some_0))
            } else {
                Some(Ok(e))
            },
            _ => Some(Ok(e)),
        }
    }
}

/// Evaluating the arguments from position `i` on, after `acc`, the values of those before it;
/// the first error among them is the result.
pub open spec fn reduce_args(
    args: Seq<SpecExpr>,
    ctx: SpecCtx,
    fuel: nat,
    i: int,
    acc: Seq<SpecExpr>,
) -> Option<Result<Seq<SpecExpr>, SpecError>>
    decreases fuel, args, 1nat, args.len() - i,
{
    if i < 0 || i >= args.len() {
        Some(Ok(acc))
    } else {
        match reduce_spec(args[i], ctx, fuel) {
            Some(Ok(v)) => reduce_args(args, ctx, fuel, i + 1, acc.push(v)),
            Some(Err(x)) => Some(Err(x)),
            None => None,
        }
    }
}

/// Whether evaluating `e` in `ctx` finishes without a panic.
pub open spec fn reduces(e: SpecExpr, ctx: SpecCtx) -> bool {
    exists|fuel: nat| #[trigger] reduce_spec(e, ctx, fuel) is Some
}

/// What evaluating `e` in `ctx` gives, where it finishes.
pub open spec fn reduction(e: SpecExpr, ctx: SpecCtx) -> Result<SpecExpr, SpecError> {
    reduce_spec(e, ctx, choose|fuel: nat| #[trigger] reduce_spec(e, ctx, fuel) is Some)->Some_0
}

/// More fuel does not change a result that evaluation reached.
pub proof fn lemma_reduce_fuel_mono(e: SpecExpr, ctx: SpecCtx, f: nat, g: nat)
    requires
        reduce_spec(e, ctx, f) is Some,
        f <= g,
    ensures
        reduce_spec(e, ctx, g) == reduce_spec(e, ctx, f),
    decreases f, e, 0nat, 0int,
{
    match e {
        SpecExpr::Infix { lhs, op, rhs } => {
            lemma_reduce_fuel_mono(*lhs, ctx, f, g);
            if reduce_spec(*lhs, ctx, f) is Some && reduce_spec(*lhs, ctx, f)->Some_0 is Ok {
                lemma_reduce_fuel_mono(*rhs, ctx, f, g);
            }
        },
        SpecExpr::Call { func, args } => {
            if ctx.funcs.contains_key(func) {
                lemma_reduce_args_fuel_mono(args, ctx, f, g, 0, Seq::empty());
                match reduce_args(args, ctx, f, 0, Seq::empty()) {
                    Some(Ok(vals)) => if vals.len() >= ctx.funcs[func].args.len() {
                        lemma_reduce_fuel_mono(
                            apply_args_spec(ctx.funcs[func], vals),
                            ctx,
                            (f - 1) as nat,
                            (g - 1) as nat,
                        );
                    },
                    _ => {},
                }
            }
        },
        SpecExpr::Log { base, arg } => {
            lemma_reduce_fuel_mono(*base, ctx, f, g);
            match reduce_spec(*base, ctx, f) {
                Some(Ok(b)) => {
                    lemma_reduce_fuel_mono(*arg, ctx, f, g);
                    match reduce_spec(*arg, ctx, f) {
                        Some(Ok(SpecExpr::Infix { lhs: x, op, rhs: y })) => {
                            if op is Mul || op is Div {
                                lemma_reduce_fuel_mono(
                                    SpecExpr::Infix {
                                        lhs: Box::new(SpecExpr::Log { base: Box::new(b), arg: x }),
                                        op: if op is Mul {
                                            Op::Add
                                        } else {
                                            Op::Sub
                                        },
                                        rhs: Box::new(SpecExpr::Log { base: Box::new(b), arg: y }),
                                    },
                                    ctx,
                                    (f - 1) as nat,
                                    (g - 1) as nat,
                                );
                            } else if op is Exp {
                                lemma_reduce_fuel_mono(
                                    SpecExpr::Infix {
                                        lhs: y,
                                        op: Op::Mul,
                                        rhs: Box::new(SpecExpr::Log { base: Box::new(b), arg: x }),
                                    },
                                    ctx,
                                    (f - 1) as nat,
                                    (g - 1) as nat,
                                );
                            }
                        },
                        _ => {},
                    }
                },
                _ => {},
            }
        },
        _ => {},
    }
}

/// More fuel does not change the values or the error that evaluating arguments reached.
pub proof fn lemma_reduce_args_fuel_mono(
    args: Seq<SpecExpr>,
    ctx: SpecCtx,
    f: nat,
    g: nat,
    i: int,
    acc: Seq<SpecExpr>,
)
    requires
        reduce_args(args, ctx, f, i, acc) is Some,
        f <= g,
    ensures
        reduce_args(args, ctx, g, i, acc) == reduce_args(args, ctx, f, i, acc),
    decreases f, args, 1nat, args.len() - i,
{
    if 0 <= i < args.len() {
        lemma_reduce_fuel_mono(args[i], ctx, f, g);
        match reduce_spec(args[i], ctx, f) {
            Some(Ok(v)) => {
                lemma_reduce_args_fuel_mono(args, ctx, f, g, i + 1, acc.push(v));
            },
            _ => {},
        }
    }
}

/// Evaluation with any fuel that suffices gives what `reduction` names.
pub proof fn lemma_reduction_at(e: SpecExpr, ctx: SpecCtx, fuel: nat)
    requires
        reduce_spec(e, ctx, fuel) is Some,
    ensures
        reduces(e, ctx),
        Some(reduction(e, ctx)) == reduce_spec(e, ctx, fuel),
{
    let c = choose|c: nat| #[trigger] reduce_spec(e, ctx, c) is Some;
    if c <= fuel {
        lemma_reduce_fuel_mono(e, ctx, c, fuel);
    } else {
        lemma_reduce_fuel_mono(e, ctx, fuel, c);
    }
}

impl Op {
    /// `a op b` as a number expression; a power can fail.
    pub fn apply(&self, a: &Rational, b: &Rational) -> (r: Result<Expr, Error>)
        requires
            apply_spec(*self, *a, *b) is Some,
        ensures
            Some(view_result(r)) == number_result(apply_spec(*self, *a, *b)),
    {
        let n = match self {
            Op::Add => a.add_rat(*b),
            Op::Sub => a.add_rat(b.const_neg()),
            Op::Mul => a.mul_rat(*b),
            Op::Div => match a.checked_div(*b) {
                Ok(v) => v,
                Err(_) => {
                    proof {
                        assert(false);
                    }
                    Rational::zero()
                },
            },
            Op::Exp => {
                return a.pow(b);
            },
        };
        proof {
            use_type_invariant(&n);
            Rational::lemma_from_own_view(n);
        }
        Ok(Expr::Number(n))
    }
}

/// Whether `e` is the number `v`.
fn num_is(e: &Expr, v: u128) -> (r: bool)
    ensures
        r == is_num(e@, v as int),
{
    match e {
        Expr::Number(n) => n.eq_uint(v),
        _ => false,
    }
}

/// The number zero, as an expression.
fn zero_number() -> (r: Expr)
    ensures
        r@ == zero_expr(),
{
    let z = Rational::zero();
    proof {
        use_type_invariant(&z);
        Rational::lemma_from_own_view(z);
    }
    Expr::Number(z)
}

/// `l op r` simplified, for reduced operands that are not both numbers.
fn simplify(op: Op, l: Expr, r: Expr) -> (res: Result<Expr, Error>)
    requires
        simplify_infix(op, l@, r@) is Some,
    ensures
        Some(view_result(res)) == simplify_infix(op, l@, r@),
{
    let l0 = num_is(&l, 0);
    let r0 = num_is(&r, 0);
    let l1 = num_is(&l, 1);
    let r1 = num_is(&r, 1);
    if matches!(op, Op::Sub) && l0 {
        Ok(Expr::Infix { lhs: Box::new(l), op: op, rhs: Box::new(r) })
    } else if matches!(op, Op::Add) && l0 {
        Ok(r)
    } else if matches!(op, Op::Add) && r0 {
        Ok(l)
    } else if matches!(op, Op::Sub) && r0 {
        Ok(l)
    } else if matches!(op, Op::Mul) && (l0 || r0) {
        Ok(zero_number())
    } else if matches!(op, Op::Div) && r0 {
        Err(Error::DivisionByZero)
    } else if matches!(op, Op::Div) && l0 {
        proof {
            assert(false);
        }
        Err(Error::DivisionByZero)
    } else if matches!(op, Op::Mul) && l1 {
        Ok(r)
    } else if matches!(op, Op::Mul | Op::Div) && r1 {
        Ok(l)
    } else if matches!(op, Op::Exp) && (r0 || l1) {
        let one = Rational::from(1u8);
        proof {
            use_type_invariant(&one);
            Rational::lemma_from_own_view(one);
        }
        Ok(Expr::Number(one))
    } else if matches!(op, Op::Exp) && r1 {
        Ok(l)
    } else {
        Ok(Expr::Infix { lhs: Box::new(l), op: op, rhs: Box::new(r) })
    }
}

/// The view of an optional result of evaluation.
pub open spec fn view_opt_result(r: Option<Result<Expr, Error>>) -> Option<Result<SpecExpr, SpecError>> {
    match r {
        Some(x) => Some(view_result(x)),
        None => None,
    }
}

/// Whether `an / ad + bn / bd` computes without overflow (see `add_ok`).
fn add_defined(an: i128, ad: u128, bn: i128, bd: u128) -> (r: bool)
    ensures
        r == add_ok((an as int, ad as int), (bn as int, bd as int)),
{
    let ad_i = ad as i128;
    let bd_i = bd as i128;
    assert(ad_i as int == den_as_i128(ad as int));
    assert(bd_i as int == den_as_i128(bd as int));
    match an.checked_mul(bd_i) {
        None => false,
        Some(l) => match bn.checked_mul(ad_i) {
            None => false,
            Some(r) => l.checked_add(r).is_some() && ad.checked_mul(bd).is_some(),
        },
    }
}

/// Whether applying `op` to `a` and `b` returns rather than panics.
fn apply_defined(op: Op, a: &Rational, b: &Rational) -> (r: bool)
    ensures
        r == apply_spec(op, *a, *b) is Some,
{
    match op {
        Op::Add => add_defined(a.num(), a.den(), b.num(), b.den()),
        Op::Sub => {
            if b.num() == i128::MIN {
                false
            } else {
                add_defined(a.num(), a.den(), -b.num(), b.den())
            }
        },
        Op::Mul => a.num().checked_mul(b.num()).is_some() && a.den().checked_mul(b.den()).is_some(),
        Op::Div => {
            if b.num() == 0 {
                false
            } else {
                match a.abs_num().checked_mul(b.den()) {
                    None => false,
                    Some(n) => a.den().checked_mul(b.abs_num()).is_some() && n <= i128::MAX as u128,
                }
            }
        },
        Op::Exp => true,
    }
}

impl Expr {
    /// Evaluates in `ctx` with the given fuel (see `reduce_spec`), which must suffice.
    #[verifier::loop_isolation(false)]
    fn reduce_with(&self, ctx: &Ctx, Ghost(fuel): Ghost<nat>) -> (r: Result<Expr, Error>)
        requires
            reduce_spec(self@, ctx@, fuel) is Some,
        ensures
            Some(view_result(r)) == reduce_spec(self@, ctx@, fuel),
        decreases fuel, self,
    {
        match self {
            Expr::Infix { lhs, op, rhs } => {
                let l = match lhs.reduce_with(ctx, Ghost(fuel)) {
                    Ok(v) => v,
                    Err(e) => {
                        return Err(e);
                    },
                };
                let r = match rhs.reduce_with(ctx, Ghost(fuel)) {
                    Ok(v) => v,
                    Err(e) => {
                        return Err(e);
                    },
                };
                match (&l, &r) {
                    (Expr::Number(a), Expr::Number(b)) => {
                        return op.apply(a, b);
                    },
                    _ => {},
                }
                simplify(*op, l, r)
            },
            Expr::Call { func, args } => {
                let f = match ctx.get_func(func.as_str()) {
                    Some(f) => f,
                    None => {
                        return Err(Error::InvalidFunc(func.clone()));
                    },
                };
                let ghost sargs = view_exprs(args@);
                proof {
                    lemma_view_exprs(args@);
                }
                let ghost mut acc: Seq<SpecExpr> = Seq::empty();
                let mut vals: Vec<Expr> = Vec::new();
                let mut i: usize = 0;
                while i < args.len()
                    invariant
                        i <= args.len(),
                        vals@.len() == i,
                        acc.len() == i,
                        forall|j: int| 0 <= j < i ==> #[trigger] vals@[j]@ == acc[j],
                        reduce_args(sargs, ctx@, fuel, 0, Seq::empty()) == reduce_args(
                            sargs,
                            ctx@,
                            fuel,
                            i as int,
                            acc,
                        ),
                    decreases args.len() - i,
                {
                    assert(decreases_to!(args@ => args@[i as int]));
                    assert(sargs[i as int] == args@[i as int]@);
                    let v = match args[i].reduce_with(ctx, Ghost(fuel)) {
                        Ok(v) => v,
                        Err(e) => {
                            return Err(e);
                        },
                    };
                    proof {
                        acc = acc.push(v@);
                    }
                    vals.push(v);
                    i = i + 1;
                }
                proof {
                    lemma_view_exprs_ext(vals@, acc);
                }
                let body = f.apply_args(&vals);
                body.reduce_with(ctx, Ghost((fuel - 1) as nat))
            },
            Expr::Log { base, arg } => {
                let b = match base.reduce_with(ctx, Ghost(fuel)) {
                    Ok(v) => v,
                    Err(e) => {
                        return Err(e);
                    },
                };
                let a = match arg.reduce_with(ctx, Ghost(fuel)) {
                    Ok(v) => v,
                    Err(e) => {
                        return Err(e);
                    },
                };
                match a {
                    Expr::Infix { lhs: x, op, rhs: y } => {
                        let ghost xv = (*x)@;
                        let ghost yv = (*y)@;
                        let ghost bv = b@;
                        if matches!(op, Op::Mul | Op::Div) {
                            // log(x * y) = log(x) + log(y), log(x / y) = log(x) - log(y)
                            let new_op = if matches!(op, Op::Mul) {
                                Op::Add
                            } else {
                                Op::Sub
                            };
                            let left = Expr::Log { base: Box::new(b.clone()), arg: x };
                            let right = Expr::Log { base: Box::new(b), arg: y };
                            assert(left@ == SpecExpr::Log { base: Box::new(bv), arg: Box::new(xv) });
                            assert(right@ == SpecExpr::Log { base: Box::new(bv), arg: Box::new(yv) });
                            let split = Expr::Infix {
                                lhs: Box::new(left),
                                op: new_op,
                                rhs: Box::new(right),
                            };
                            split.reduce_with(ctx, Ghost((fuel - 1) as nat))
                        } else if matches!(op, Op::Exp) {
                            // log(x ^ y) = y * log(x)
                            let right = Expr::Log { base: Box::new(b), arg: x };
                            assert(right@ == SpecExpr::Log { base: Box::new(bv), arg: Box::new(xv) });
                            let split = Expr::Infix { lhs: y, op: Op::Mul, rhs: Box::new(right) };
                            split.reduce_with(ctx, Ghost((fuel - 1) as nat))
                        } else {
                            Ok(
                                Expr::Log {
                                    base: Box::new(b),
                                    arg: Box::new(Expr::Infix { lhs: x, op: op, rhs: y }),
                                },
                            )
                        }
                    },
                    Expr::Number(n) => {
                        if n.eq_uint(1) {
                            Ok(zero_number())
                        } else {
                            Ok(Expr::Log { base: Box::new(b), arg: Box::new(Expr::Number(n)) })
                        }
                    },
                    other => Ok(Expr::Log { base: Box::new(b), arg: Box::new(other) }),
                }
            },
            Expr::Var(name) => match ctx.get_global(name.as_str()) {
                Some(e) => Ok(e.clone()),
                None => Ok(self.clone()),
            },
            _ => Ok(self.clone()),
        }
    }

    /// Evaluates in `ctx` with call depth and logarithm rewriting bounded by `fuel` (see
    /// `reduce_spec`); `None` where evaluation would panic or does not finish within the fuel.
    #[verifier::loop_isolation(false)]
    pub fn reduce_fuel(&self, ctx: &Ctx, fuel: u64) -> (r: Option<Result<Expr, Error>>)
        ensures
            view_opt_result(r) == reduce_spec(self@, ctx@, fuel as nat),
        decreases fuel, self,
    {
        if fuel == 0 {
            return None;
        }
        match self {
            Expr::Infix { lhs, op, rhs } => {
                let l = match lhs.reduce_fuel(ctx, fuel) {
                    Some(Ok(v)) => v,
                    other => {
                        return other;
                    },
                };
                let r = match rhs.reduce_fuel(ctx, fuel) {
                    Some(Ok(v)) => v,
                    other => {
                        return other;
                    },
                };
                match (&l, &r) {
                    (Expr::Number(a), Expr::Number(b)) => {
                        if apply_defined(*op, a, b) {
                            return Some(op.apply(a, b));
                        } else {
                            return None;
                        }
                    },
                    _ => {},
                }
                if matches!(op, Op::Div) && num_is(&l, 0) && !num_is(&r, 0) {
                    return None;
                }
                Some(simplify(*op, l, r))
            },
            Expr::Call { func, args } => {
                let f = match ctx.get_func(func.as_str()) {
                    Some(f) => f,
                    None => {
                        return Some(Err(Error::InvalidFunc(func.clone())));
                    },
                };
                let ghost sargs = view_exprs(args@);
                proof {
                    lemma_view_exprs(args@);
                }
                let ghost mut acc: Seq<SpecExpr> = Seq::empty();
                let mut vals: Vec<Expr> = Vec::new();
                let mut i: usize = 0;
                while i < args.len()
                    invariant
                        i <= args.len(),
                        vals@.len() == i,
                        acc.len() == i,
                        forall|j: int| 0 <= j < i ==> #[trigger] vals@[j]@ == acc[j],
                        reduce_args(sargs, ctx@, fuel as nat, 0, Seq::empty()) == reduce_args(
                            sargs,
                            ctx@,
                            fuel as nat,
                            i as int,
                            acc,
                        ),
                    decreases args.len() - i,
                {
                    assert(decreases_to!(args@ => args@[i as int]));
                    assert(sargs[i as int] == args@[i as int]@);
                    let v = match args[i].reduce_fuel(ctx, fuel) {
                        Some(Ok(v)) => v,
                        Some(Err(e)) => {
                            return Some(Err(e));
                        },
                        None => {
                            return None;
                        },
                    };
                    proof {
                        acc = acc.push(v@);
                    }
                    vals.push(v);
                    i = i + 1;
                }
                proof {
                    lemma_view_exprs_ext(vals@, acc);
                }
                if vals.len() < f.get_args().len() {
                    return None;
                }
                let body = f.apply_args(&vals);
                body.reduce_fuel(ctx, fuel - 1)
            },
            Expr::Log { base, arg } => {
                let b = match base.reduce_fuel(ctx, fuel) {
                    Some(Ok(v)) => v,
                    other => {
                        return other;
                    },
                };
                let a = match arg.reduce_fuel(ctx, fuel) {
                    Some(Ok(v)) => v,
                    other => {
                        return other;
                    },
                };
                match a {
                    Expr::Infix { lhs: x, op, rhs: y } => {
                        let ghost xv = (*x)@;
                        let ghost yv = (*y)@;
                        let ghost bv = b@;
                        if matches!(op, Op::Mul | Op::Div) {
                            let new_op = if matches!(op, Op::Mul) {
                                Op::Add
                            } else {
                                Op::Sub
                            };
                            let left = Expr::Log { base: Box::new(b.clone()), arg: x };
                            let right = Expr::Log { base: Box::new(b), arg: y };
                            assert(left@ == SpecExpr::Log { base: Box::new(bv), arg: Box::new(xv) });
                            assert(right@ == SpecExpr::Log { base: Box::new(bv), arg: Box::new(yv) });
                            let split = Expr::Infix {
                                lhs: Box::new(left),
                                op: new_op,
                                rhs: Box::new(right),
                            };
                            split.reduce_fuel(ctx, fuel - 1)
                        } else if matches!(op, Op::Exp) {
                            let right = Expr::Log { base: Box::new(b), arg: x };
                            assert(right@ == SpecExpr::Log { base: Box::new(bv), arg: Box::new(xv) });
                            let split = Expr::Infix { lhs: y, op: Op::Mul, rhs: Box::new(right) };
                            split.reduce_fuel(ctx, fuel - 1)
                        } else {
                            Some(
                                Ok(
                                    Expr::Log {
                                        base: Box::new(b),
                                        arg: Box::new(Expr::Infix { lhs: x, op: op, rhs: y }),
                                    },
                                ),
                            )
                        }
                    },
                    Expr::Number(n) => {
                        if n.eq_uint(1) {
                            Some(Ok(zero_number()))
                        } else {
                            Some(Ok(Expr::Log { base: Box::new(b), arg: Box::new(Expr::Number(n)) }))
                        }
                    },
                    other => Some(Ok(Expr::Log { base: Box::new(b), arg: Box::new(other) })),
                }
            },
            Expr::Var(name) => match ctx.get_global(name.as_str()) {
                Some(e) => Some(Ok(e.clone())),
                None => Some(Ok(self.clone())),
            },
            _ => Some(Ok(self.clone())),
        }
    }

    /// Evaluates the expression in `ctx`: numbers are combined, calls are expanded, logarithms
    /// split and globals put in (see `reduce_spec`). Evaluation must finish without a panic.
    pub fn reduce(&self, ctx: &Ctx) -> (r: Result<Expr, Error>)
        requires
            reduces(self@, ctx@),
        ensures
            view_result(r) == reduction(self@, ctx@),
    {
        let ghost fuel = choose|fuel: nat| #[trigger] reduce_spec(self@, ctx@, fuel) is Some;
        self.reduce_with(ctx, Ghost(fuel))
    }
}

} // verus!
