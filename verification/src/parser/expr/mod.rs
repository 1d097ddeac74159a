use vstd::prelude::*;
use vstd::std_specs::convert::FromSpecImpl;

use crate::ctx::{Ctx, SpecCtx};
use crate::parser::lexer::Op;
use crate::rational::{Consts, Rational};

pub mod display;
pub mod iter;
pub mod laws;
pub mod reduce;
pub mod replace;

verus! {

/// An expression: constants, numbers, variables, binary operations, calls and logarithms.
#[derive(Debug)]
pub enum Expr {
    Const(Consts),
    Number(Rational),
    Var(String),
    Infix { lhs: Box<Expr>, op: Op, rhs: Box<Expr> },
    Call { func: String, args: Vec<Expr> },
    Log { base: Box<Expr>, arg: Box<Expr> },
}

/// An expression, with its strings taken by their views.
pub enum SpecExpr {
    Const(Consts),
    Number(Rational),
    Var(Seq<char>),
    Infix { lhs: Box<SpecExpr>, op: Op, rhs: Box<SpecExpr> },
    Call { func: Seq<char>, args: Seq<SpecExpr> },
    Log { base: Box<SpecExpr>, arg: Box<SpecExpr> },
}

/// The view of an expression.
pub open spec fn view_expr(e: &Expr) -> SpecExpr
    decreases e, 0nat,
{
    match e {
        Expr::Const(c) => SpecExpr::Const(*c),
        Expr::Number(n) => SpecExpr::Number(*n),
        Expr::Var(s) => SpecExpr::Var(s@),
        Expr::Infix { lhs, op, rhs } => SpecExpr::Infix {
            lhs: Box::new(view_expr(lhs)),
            op: *op,
            rhs: Box::new(view_expr(rhs)),
        },
        Expr::Call { func, args } => SpecExpr::Call { func: func@, args: view_exprs(args@) },
        Expr::Log { base, arg } => SpecExpr::Log {
            base: Box::new(view_expr(base)),
            arg: Box::new(view_expr(arg)),
        },
    }
}

/// The views of a sequence of expressions.
pub open spec fn view_exprs(s: Seq<Expr>) -> Seq<SpecExpr>
    decreases s, 1nat,
{
    if s.len() == 0 {
        Seq::empty()
    } else {
        seq![view_expr(&s[0])] + view_exprs(s.drop_first())
    }
}

/// `view_exprs` maps each expression to its view.
pub proof fn lemma_view_exprs(s: Seq<Expr>)
    ensures
        view_exprs(s).len() == s.len(),
        forall|i: int| 0 <= i < s.len() ==> #[trigger] view_exprs(s)[i] == s[i]@,
    decreases s.len(),
{
    if s.len() > 0 {
        lemma_view_exprs(s.drop_first());
        assert forall|i: int| 0 <= i < s.len() implies #[trigger] view_exprs(s)[i] == s[i]@ by {
            if i > 0 {
                assert(s.drop_first()[i - 1] == s[i]);
            }
        }
    }
}

/// Sequences of expressions with the same views elementwise have the same views.
pub proof fn lemma_view_exprs_ext(s: Seq<Expr>, t: Seq<SpecExpr>)
    requires
        s.len() == t.len(),
        forall|i: int| 0 <= i < s.len() ==> #[trigger] s[i]@ == t[i],
    ensures
        view_exprs(s) == t,
{
    lemma_view_exprs(s);
    assert(view_exprs(s) =~= t);
}

impl View for Expr {
    type V = SpecExpr;

    open spec fn view(&self) -> SpecExpr {
        view_expr(self)
    }
}

/// The view of an optional expression.
pub open spec fn view_opt(e: Option<Expr>) -> Option<SpecExpr> {
    match e {
        Some(x) => Some(x@),
        None => None,
    }
}

impl Clone for Expr {
    /// A deep copy.
    #[verifier::loop_isolation(false)]
    fn clone(&self) -> (r: Self)
        ensures
            r@ == self@,
        decreases self,
    {
        match self {
            Expr::Const(c) => Expr::Const(*c),
            Expr::Number(n) => Expr::Number(*n),
            Expr::Var(s) => Expr::Var(s.clone()),
            Expr::Infix { lhs, op, rhs } => Expr::Infix {
                lhs: Box::new((**lhs).clone()),
                op: *op,
                rhs: Box::new((**rhs).clone()),
            },
            Expr::Call { func, args } => {
                let mut v: Vec<Expr> = Vec::new();
                let mut i: usize = 0;
                while i < args.len()
                    invariant
                        i <= args.len(),
                        v@.len() == i,
                        forall|j: int| 0 <= j < i ==> #[trigger] v@[j]@ == args@[j]@,
                    decreases args.len() - i,
                {
                    assert(decreases_to!(args@ => args@[i as int]));
                    v.push(args[i].clone());
                    i = i + 1;
                }
                proof {
                    lemma_view_exprs(args@);
                    lemma_view_exprs_ext(v@, view_exprs(args@));
                }
                Expr::Call { func: func.clone(), args: v }
            },
            Expr::Log { base, arg } => Expr::Log {
                base: Box::new((**base).clone()),
                arg: Box::new((**arg).clone()),
            },
        }
    }
}

impl From<Rational> for Expr {
    fn from(value: Rational) -> (r: Expr)
        ensures
            r@ == SpecExpr::Number(value),
    {
        Expr::Number(value)
    }
}

impl FromSpecImpl<Rational> for Expr {
    open spec fn obeys_from_spec() -> bool {
        true
    }

    open spec fn from_spec(v: Rational) -> Expr {
        Expr::Number(v)
    }
}

impl<'a> From<&'a Rational> for Expr {
    fn from(value: &'a Rational) -> (r: Expr)
        ensures
            r@ == SpecExpr::Number(*value),
    {
        Expr::Number(*value)
    }
}

impl<'a> FromSpecImpl<&'a Rational> for Expr {
    open spec fn obeys_from_spec() -> bool {
        true
    }

    open spec fn from_spec(v: &'a Rational) -> Expr {
        Expr::Number(*v)
    }
}

/// The view of an optional context.
pub open spec fn ctx_view(ctx: Option<&Ctx>) -> Option<SpecCtx> {
    match ctx {
        Some(c) => Some(c@),
        None => None,
    }
}

/// Whether `e` stands for a number: it holds no variable but globals of the context that have
/// a value. Calls count by their arguments.
pub open spec fn numeric_spec(e: SpecExpr, ctx: Option<SpecCtx>) -> bool
    decreases e, 0nat,
{
    match e {
        SpecExpr::Const(_) | SpecExpr::Number(_) => true,
        SpecExpr::Var(name) => ctx matches Some(c) && c.globals.contains_key(name)
            && c.globals[name] is Some,
        SpecExpr::Infix { lhs, rhs, .. } => numeric_spec(*lhs, ctx) && numeric_spec(*rhs, ctx),
        SpecExpr::Log { base, arg } => numeric_spec(*base, ctx) && numeric_spec(*arg, ctx),
        SpecExpr::Call { args, .. } => all_numeric(args, ctx),
    }
}

/// Whether every expression of `s` stands for a number.
pub open spec fn all_numeric(s: Seq<SpecExpr>, ctx: Option<SpecCtx>) -> bool
    decreases s, 1nat,
{
    if s.len() == 0 {
        true
    } else {
        numeric_spec(s[0], ctx) && all_numeric(s.drop_first(), ctx)
    }
}

/// `all_numeric` holds when each expression is numeric.
pub proof fn lemma_all_numeric(s: Seq<SpecExpr>, ctx: Option<SpecCtx>)
    ensures
        all_numeric(s, ctx) <==> forall|i: int| 0 <= i < s.len() ==> #[trigger] numeric_spec(s[i], ctx),
    decreases s.len(),
{
    if s.len() > 0 {
        lemma_all_numeric(s.drop_first(), ctx);
        assert(all_numeric(s, ctx) == (numeric_spec(s[0], ctx) && all_numeric(s.drop_first(), ctx)));
        if forall|i: int| 0 <= i < s.len() ==> #[trigger] numeric_spec(s[i], ctx) {
            assert forall|i: int| 0 <= i < s.drop_first().len() implies #[trigger] numeric_spec(
                s.drop_first()[i],
                ctx,
            ) by {
                assert(s.drop_first()[i] == s[i + 1]);
            }
        }
        if all_numeric(s, ctx) {
            assert forall|i: int| 0 <= i < s.len() implies #[trigger] numeric_spec(s[i], ctx) by {
                if i > 0 {
                    assert(s.drop_first()[i - 1] == s[i]);
                }
            }
        }
    }
}

impl Expr {
    /// Whether the expression stands for a number (see `numeric_spec`).
    #[verifier::loop_isolation(false)]
    pub fn is_numeric(&self, ctx: Option<&Ctx>) -> (r: bool)
        ensures
            r == numeric_spec(self@, ctx_view(ctx)),
        decreases self,
    {
        match self {
            Expr::Const(_) | Expr::Number(_) => true,
            Expr::Var(name) => match ctx {
                Some(c) => c.get_global(name.as_str()).is_some(),
                None => false,
            },
            Expr::Infix { lhs, rhs, .. } => lhs.is_numeric(ctx) && rhs.is_numeric(ctx),
            Expr::Log { base, arg } => base.is_numeric(ctx) && arg.is_numeric(ctx),
            Expr::Call { args, .. } => {
                proof {
                    lemma_view_exprs(args@);
                    lemma_all_numeric(view_exprs(args@), ctx_view(ctx));
                }
                let mut i: usize = 0;
                while i < args.len()
                    invariant
                        i <= args.len(),
                        forall|j: int| 0 <= j < i ==> #[trigger] numeric_spec(
                            view_exprs(args@)[j],
                            ctx_view(ctx),
                        ),
                    decreases args.len() - i,
                {
                    assert(decreases_to!(args@ => args@[i as int]));
                    if !args[i].is_numeric(ctx) {
                        assert(view_exprs(args@)[i as int] == args@[i as int]@);
                        return false;
                    }
                    assert(view_exprs(args@)[i as int] == args@[i as int]@);
                    i = i + 1;
                }
                true
            },
        }
    }
}

} // verus!
