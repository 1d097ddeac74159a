use vstd::prelude::*;

use crate::ctx::Ctx;
use crate::parser::expr::replace::{lemma_occurs_after_replace, occurs_var, or_else, replace_spec};
use crate::parser::expr::{lemma_view_exprs, view_exprs, Expr, SpecExpr};
use crate::text::str_eq;

pub mod builtin;

pub use builtin::Builtin;

verus! {

/// A function definition `name(args) = expr`, with its strings taken by their views.
pub struct SpecFunc {
    pub name: Seq<char>,
    pub args: Seq<Seq<char>>,
    pub expr: SpecExpr,
}

/// The views of a sequence of strings.
pub open spec fn strings_view(v: Seq<String>) -> Seq<Seq<char>> {
    v.map_values(|s: String| s@)
}

/// A user-defined function `name(args) = expr`.
#[derive(Debug)]
pub struct Func {
    name: String,
    args: Vec<String>,
    expr: Expr,
}

impl View for Func {
    type V = SpecFunc;

    closed spec fn view(&self) -> SpecFunc {
        SpecFunc { name: self.name@, args: strings_view(self.args@), expr: self.expr@ }
    }
}

/// `e` with `names[i]` replaced by `values[i]` for `i` from `from` on, one after the other
/// (a later replacement also reaches into the values put in by earlier ones).
pub open spec fn apply_from(
    e: SpecExpr,
    names: Seq<Seq<char>>,
    values: Seq<SpecExpr>,
    from: int,
) -> SpecExpr
    decreases names.len() - from,
{
    if from < 0 || from >= names.len() {
        e
    } else {
        apply_from(or_else(replace_spec(e, names[from], values[from]), e), names, values, from + 1)
    }
}

/// The body of `f` with its arguments replaced by `values`.
pub open spec fn apply_args_spec(f: SpecFunc, values: Seq<SpecExpr>) -> SpecExpr {
    apply_from(f.expr, f.args, values, 0)
}

/// The names not yet on the call stack among the functions of the context.
pub open spec fn unvisited(funcs: Map<Seq<char>, SpecFunc>, stack: Seq<Seq<char>>) -> nat {
    funcs.dom().difference(stack.to_set()).len()
}

/// Pushing a name of the context that is not on the stack leaves fewer names unvisited.
pub proof fn lemma_unvisited_push(funcs: Map<Seq<char>, SpecFunc>, stack: Seq<Seq<char>>, name: Seq<char>)
    requires
        funcs.dom().finite(),
        funcs.contains_key(name),
        !stack.contains(name),
    ensures
        unvisited(funcs, stack.push(name)) < unvisited(funcs, stack),
{
    let a = funcs.dom().difference(stack.to_set());
    let b = funcs.dom().difference(stack.push(name).to_set());
    assert(stack.push(name).to_set() =~= stack.to_set().insert(name)) by {
        assert forall|x: Seq<char>| stack.push(name).to_set().contains(x) <==> stack.to_set().insert(
            name,
        ).contains(x) by {
            if stack.push(name).to_set().contains(x) && x != name {
                let i = choose|i: int| 0 <= i < stack.push(name).len() && stack.push(name)[i] == x;
                assert(stack[i] == x);
            }
            if stack.to_set().contains(x) {
                let i = choose|i: int| 0 <= i < stack.len() && stack[i] == x;
                assert(stack.push(name)[i] == x);
            }
            if x == name {
                assert(stack.push(name)[stack.len() as int] == name);
            }
        }
    }
    assert(b =~= a.remove(name));
    assert(a.contains(name));
    vstd::set::axiom_set_difference_finite(funcs.dom(), stack.to_set());
    vstd::set::axiom_set_remove_len(a, name);
}

/// Whether evaluating `e` with the call stack `stack` can reach a call of a function already on
/// the stack, following the bodies of the context's functions.
pub open spec fn calls_back(e: SpecExpr, funcs: Map<Seq<char>, SpecFunc>, stack: Seq<Seq<char>>) -> bool
    decreases unvisited(funcs, stack), e, 0nat,
    when funcs.dom().finite()
{
    match e {
        SpecExpr::Infix { lhs, rhs, .. } => calls_back(*lhs, funcs, stack) || calls_back(
            *rhs,
            funcs,
            stack,
        ),
        SpecExpr::Log { base, arg } => calls_back(*base, funcs, stack) || calls_back(
            *arg,
            funcs,
            stack,
        ),
        SpecExpr::Call { func, args } => if stack.contains(func) {
            true
        } else {
            let via_body = if funcs.contains_key(func) {
                proof {
                    lemma_unvisited_push(funcs, stack, func);
                }
                calls_back(funcs[func].expr, funcs, stack.push(func))
            } else {
                false
            };
            via_body || calls_back_args(args, funcs, stack)
        },
        _ => false,
    }
}

/// Whether one of the arguments calls back (see `calls_back`).
pub open spec fn calls_back_args(
    args: Seq<SpecExpr>,
    funcs: Map<Seq<char>, SpecFunc>,
    stack: Seq<Seq<char>>,
) -> bool
    decreases unvisited(funcs, stack), args, 1nat,
    when funcs.dom().finite()
{
    if args.len() == 0 {
        false
    } else {
        calls_back(args[0], funcs, stack) || calls_back_args(args.drop_first(), funcs, stack)
    }
}

/// `calls_back_args` is whether some argument calls back.
pub proof fn lemma_calls_back_args(
    args: Seq<SpecExpr>,
    funcs: Map<Seq<char>, SpecFunc>,
    stack: Seq<Seq<char>>,
)
    requires
        funcs.dom().finite(),
    ensures
        calls_back_args(args, funcs, stack) <==> exists|i: int|
            0 <= i < args.len() && #[trigger] calls_back(args[i], funcs, stack),
    decreases args.len(),
{
    if args.len() > 0 {
        lemma_calls_back_args(args.drop_first(), funcs, stack);
        assert(calls_back_args(args, funcs, stack) == (calls_back(args[0], funcs, stack)
            || calls_back_args(args.drop_first(), funcs, stack)));
        if exists|i: int| 0 <= i < args.len() && #[trigger] calls_back(args[i], funcs, stack) {
            let i = choose|i: int| 0 <= i < args.len() && #[trigger] calls_back(args[i], funcs, stack);
            if i > 0 {
                assert(args.drop_first()[i - 1] == args[i]);
            }
        }
        if calls_back_args(args.drop_first(), funcs, stack) {
            let i = choose|i: int|
                0 <= i < args.drop_first().len() && #[trigger] calls_back(
                    args.drop_first()[i],
                    funcs,
                    stack,
                );
            assert(args[i + 1] == args.drop_first()[i]);
        }
    }
}

/// Whether a function can reach a call of itself (or of another function on the way twice).
pub open spec fn is_recursive_spec(f: SpecFunc, funcs: Map<Seq<char>, SpecFunc>) -> bool {
    calls_back(f.expr, funcs, seq![f.name])
}

/// Whether `e` holds a call of `name`, in an operand of a binary operation, in the base or the
/// argument of a logarithm, or in an argument of a call, at any depth.
pub open spec fn mentions_call(e: SpecExpr, name: Seq<char>) -> bool
    decreases e, 0nat,
{
    match e {
        SpecExpr::Infix { lhs, rhs, .. } => mentions_call(*lhs, name) || mentions_call(*rhs, name),
        SpecExpr::Log { base, arg } => mentions_call(*base, name) || mentions_call(*arg, name),
        SpecExpr::Call { func, args } => func == name || mentions_call_in(args, name),
        _ => false,
    }
}

/// Whether one of the expressions holds a call of `name` (see `mentions_call`).
pub open spec fn mentions_call_in(args: Seq<SpecExpr>, name: Seq<char>) -> bool
    decreases args, 1nat,
{
    if args.len() == 0 {
        false
    } else {
        mentions_call(args[0], name) || mentions_call_in(args.drop_first(), name)
    }
}

/// A variable that occurs after the replacements from position `from` on occurred before and is
/// none of the names replaced, or occurs in one of the values put in.
pub proof fn lemma_apply_from_occurs(
    e: SpecExpr,
    names: Seq<Seq<char>>,
    values: Seq<SpecExpr>,
    from: int,
    m: Seq<char>,
)
    requires
        0 <= from,
        values.len() >= names.len(),
        occurs_var(apply_from(e, names, values, from), m),
    ensures
        (occurs_var(e, m) && forall|k: int| from <= k < names.len() ==> #[trigger] names[k] != m)
            || exists|j: int| from <= j < names.len() && #[trigger] occurs_var(values[j], m),
    decreases names.len() - from,
{
    if from < names.len() {
        let e2 = or_else(replace_spec(e, names[from], values[from]), e);
        lemma_apply_from_occurs(e2, names, values, from + 1, m);
        if occurs_var(e2, m) && forall|k: int| from + 1 <= k < names.len() ==> #[trigger] names[k] != m {
            lemma_occurs_after_replace(e, names[from], values[from], m);
            if occurs_var(values[from], m) {
                assert(from <= from < names.len() && occurs_var(values[from], m));
            } else {
                assert forall|k: int| from <= k < names.len() implies #[trigger] names[k] != m by {
                    if k > from {
                        assert(from + 1 <= k < names.len());
                    }
                }
            }
        } else {
            let j = choose|j: int| from + 1 <= j < names.len() && #[trigger] occurs_var(values[j], m);
            assert(from <= j < names.len());
        }
    }
}

/// Law: putting values into a function's body replaces every argument name: where no value
/// holds a variable named like an argument, no argument name occurs in the result (outside
/// logarithms, where replacement does not reach).
pub proof fn law_apply_args_replaces_every_argument(f: SpecFunc, values: Seq<SpecExpr>)
    requires
        values.len() >= f.args.len(),
        forall|j: int, k: int|
            0 <= j < values.len() && 0 <= k < f.args.len() ==> !occurs_var(#[trigger] values[j], #[trigger] f.args[k]),
    ensures
        forall|i: int| 0 <= i < f.args.len() ==> !occurs_var(apply_args_spec(f, values), #[trigger] f.args[i]),
{
    assert forall|i: int| 0 <= i < f.args.len() implies !occurs_var(apply_args_spec(f, values), #[trigger] f.args[i]) by {
        if occurs_var(apply_args_spec(f, values), f.args[i]) {
            lemma_apply_from_occurs(f.expr, f.args, values, 0, f.args[i]);
            if exists|j: int| 0 <= j < f.args.len() && #[trigger] occurs_var(values[j], f.args[i]) {
                let j = choose|j: int| 0 <= j < f.args.len() && #[trigger] occurs_var(values[j], f.args[i]);
                assert(!occurs_var(values[j], f.args[i]));
            } else {
                assert(f.args[i] != f.args[i]);
            }
        }
    }
}

/// An expression that mentions a call of a function on the stack calls back.
pub proof fn lemma_mention_calls_back(
    e: SpecExpr,
    name: Seq<char>,
    funcs: Map<Seq<char>, SpecFunc>,
    stack: Seq<Seq<char>>,
)
    requires
        funcs.dom().finite(),
        stack.contains(name),
        mentions_call(e, name),
    ensures
        calls_back(e, funcs, stack),
    decreases e, 0nat,
{
    match e {
        SpecExpr::Infix { lhs, rhs, .. } => {
            if mentions_call(*lhs, name) {
                lemma_mention_calls_back(*lhs, name, funcs, stack);
            } else {
                lemma_mention_calls_back(*rhs, name, funcs, stack);
            }
        },
        SpecExpr::Log { base, arg } => {
            if mentions_call(*base, name) {
                lemma_mention_calls_back(*base, name, funcs, stack);
            } else {
                lemma_mention_calls_back(*arg, name, funcs, stack);
            }
        },
        SpecExpr::Call { func, args } => {
            if func != name && !stack.contains(func) {
                lemma_mention_calls_back_in(args, name, funcs, stack);
            }
        },
        _ => {},
    }
}

/// Expressions one of which mentions a call of a function on the stack call back.
pub proof fn lemma_mention_calls_back_in(
    args: Seq<SpecExpr>,
    name: Seq<char>,
    funcs: Map<Seq<char>, SpecFunc>,
    stack: Seq<Seq<char>>,
)
    requires
        funcs.dom().finite(),
        stack.contains(name),
        mentions_call_in(args, name),
    ensures
        calls_back_args(args, funcs, stack),
    decreases args, 1nat,
{
    if args.len() > 0 {
        if mentions_call(args[0], name) {
            lemma_mention_calls_back(args[0], name, funcs, stack);
        } else {
            lemma_mention_calls_back_in(args.drop_first(), name, funcs, stack);
        }
    }
}

/// Law: a function whose body calls the function itself anywhere (in an operand, a logarithm or
/// an argument of another call, at any depth) is recursive.
pub proof fn law_self_call_is_recursive(f: SpecFunc, funcs: Map<Seq<char>, SpecFunc>)
    requires
        funcs.dom().finite(),
        mentions_call(f.expr, f.name),
    ensures
        is_recursive_spec(f, funcs),
{
    assert(seq![f.name][0] == f.name);
    lemma_mention_calls_back(f.expr, f.name, funcs, seq![f.name]);
}

/// Law: a function whose body calls, anywhere, a function of the context whose body calls the
/// first one back is recursive.
pub proof fn law_mutual_call_is_recursive(f: SpecFunc, g: SpecFunc, funcs: Map<Seq<char>, SpecFunc>)
    requires
        funcs.dom().finite(),
        funcs.contains_key(g.name),
        funcs[g.name] == g,
        g.name != f.name,
        f.expr == (SpecExpr::Call { func: g.name, args: seq![] }),
        mentions_call(g.expr, f.name),
    ensures
        is_recursive_spec(f, funcs),
{
    let st = seq![f.name];
    assert(!st.contains(g.name)) by {
        if st.contains(g.name) {
            let i = choose|i: int| 0 <= i < st.len() && st[i] == g.name;
            assert(st[i] == f.name);
        }
    }
    assert(st.push(g.name)[0] == f.name);
    lemma_mention_calls_back(g.expr, f.name, funcs, st.push(g.name));
}

impl Func {
    /// The function `name(args) = expr`.
    pub fn new(name: String, args: Vec<String>, expr: Expr) -> (r: Func)
        ensures
            r@ == (SpecFunc { name: name@, args: strings_view(args@), expr: expr@ }),
    {
        Func { name, args, expr }
    }

    /// The name.
    pub fn get_name(&self) -> (r: &str)
        ensures
            r@ == self@.name,
    {
        self.name.as_str()
    }

    /// The argument names.
    pub fn get_args(&self) -> (r: &Vec<String>)
        ensures
            strings_view(r@) == self@.args,
    {
        &self.args
    }

    /// The body.
    pub fn get_expr(&self) -> (r: &Expr)
        ensures
            r@ == self@.expr,
    {
        &self.expr
    }

    /// The body with each argument name replaced by the value at its position, in order.
    /// There must be a value for each argument.
    pub fn apply_args(&self, values: &Vec<Expr>) -> (r: Expr)
        requires
            values@.len() >= self@.args.len(),
        ensures
            r@ == apply_args_spec(self@, view_exprs(values@)),
    {
        proof {
            lemma_view_exprs(values@);
        }
        let mut new_expr = self.expr.clone();
        let mut i: usize = 0;
        while i < self.args.len()
            invariant
                i <= self.args.len(),
                values@.len() >= self.args@.len(),
                view_exprs(values@).len() == values@.len(),
                forall|j: int| 0 <= j < values@.len() ==> #[trigger] view_exprs(values@)[j] == values@[j]@,
                apply_from(new_expr@, self@.args, view_exprs(values@), i as int) == apply_args_spec(
                    self@,
                    view_exprs(values@),
                ),
            decreases self.args.len() - i,
        {
            let value = &values[i];
            assert(self@.args[i as int] == self.args@[i as int]@);
            if let Some(expr) = new_expr.replace_var(&self.args[i], value) {
                new_expr = expr;
            }
            i = i + 1;
        }
        new_expr
    }

    /// Whether the function can reach a call of itself through its body and the bodies of the
    /// context's functions.
    pub fn is_recursive(&self, ctx: &Ctx) -> (r: bool)
        ensures
            r == is_recursive_spec(self@, ctx@.funcs),
    {
        proof {
            ctx.lemma_funcs();
        }
        let mut stack: Vec<String> = Vec::new();
        stack.push(self.name.clone());
        assert(strings_view(stack@) =~= seq![self@.name]);
        dfs(&self.expr, ctx, &mut stack)
    }
}

/// Whether `name` is on the stack.
fn stack_contains(stack: &Vec<String>, name: &String) -> (r: bool)
    ensures
        r == strings_view(stack@).contains(name@),
{
    let mut i: usize = 0;
    while i < stack.len()
        invariant
            i <= stack.len(),
            forall|j: int| 0 <= j < i ==> #[trigger] stack@[j]@ != name@,
        decreases stack.len() - i,
    {
        if str_eq(stack[i].as_str(), name.as_str()) {
            assert(strings_view(stack@)[i as int] == name@);
            return true;
        }
        i = i + 1;
    }
    proof {
        if strings_view(stack@).contains(name@) {
            let j = choose|j: int| 0 <= j < stack@.len() && strings_view(stack@)[j] == name@;
            assert(stack@[j]@ == name@);
        }
    }
    false
}

/// Depth-first search for a call of a function already on the call stack.
#[verifier::loop_isolation(false)]
fn dfs(expr: &Expr, ctx: &Ctx, call_stack: &mut Vec<String>) -> (r: bool)
    requires
        ctx@.funcs.dom().finite(),
    ensures
        r == calls_back(expr@, ctx@.funcs, strings_view(old(call_stack)@)),
        strings_view(final(call_stack)@) == strings_view(old(call_stack)@),
    decreases unvisited(ctx@.funcs, strings_view(call_stack@)), expr, 0nat,
{
    let ghost stack0 = strings_view(call_stack@);
    match expr {
        Expr::Const(_) | Expr::Number(_) | Expr::Var(_) => false,
        Expr::Infix { lhs, rhs, .. } => {
            if dfs(lhs, ctx, call_stack) {
                return true;
            }
            dfs(rhs, ctx, call_stack)
        },
        Expr::Log { base, arg } => {
            if dfs(base, ctx, call_stack) {
                return true;
            }
            dfs(arg, ctx, call_stack)
        },
        Expr::Call { func, args } => {
            if stack_contains(call_stack, func) {
                return true;
            }
            let ghost before = call_stack@;
            call_stack.push(func.clone());
            assert(strings_view(call_stack@) =~= stack0.push(func@));
            let has_cycle = match ctx.get_func(func.as_str()) {
                Some(f) => {
                    proof {
                        lemma_unvisited_push(ctx@.funcs, stack0, func@);
                    }
                    dfs(f.get_expr(), ctx, call_stack)
                },
                None => false,
            };
            let ghost after = call_stack@;
            call_stack.pop();
            proof {
                assert(call_stack@ == after.drop_last());
                assert(strings_view(after.drop_last()) =~= strings_view(after).drop_last());
                assert(strings_view(call_stack@) =~= stack0);
            }
            if has_cycle {
                return true;
            }
            proof {
                lemma_view_exprs(args@);
                lemma_calls_back_args(view_exprs(args@), ctx@.funcs, stack0);
            }
            let mut i: usize = 0;
            while i < args.len()
                invariant
                    i <= args.len(),
                    strings_view(call_stack@) == stack0,
                    forall|j: int| 0 <= j < i ==> !#[trigger] calls_back(args@[j]@, ctx@.funcs, stack0),
                decreases args.len() - i,
            {
                assert(decreases_to!(args@ => args@[i as int]));
                if dfs(&args[i], ctx, call_stack) {
                    assert(view_exprs(args@)[i as int] == args@[i as int]@);
                    return true;
                }
                i = i + 1;
            }
            proof {
                assert forall|j: int| 0 <= j < view_exprs(args@).len() implies !#[trigger] calls_back(
                    view_exprs(args@)[j],
                    ctx@.funcs,
                    stack0,
                ) by {
                    assert(view_exprs(args@)[j] == args@[j]@);
                }
            }
            false
        },
    }
}

} // verus!
