use vstd::prelude::*;

use super::{lemma_view_exprs, view_exprs, Expr, SpecExpr};
use crate::ctx::Ctx;
use crate::parser::func::{is_recursive_spec, SpecFunc};

verus! {

/// The expressions that the walk visits after `e`: the operands of a binary operation (the
/// left one first) and the arguments of a call (the last one first). Logarithms are not
/// entered.
pub open spec fn children(e: SpecExpr) -> Seq<SpecExpr> {
    match e {
        SpecExpr::Infix { lhs, rhs, .. } => seq![*rhs, *lhs],
        SpecExpr::Call { args, .. } => args,
        _ => Seq::empty(),
    }
}

/// The number of nodes that the walk visits from `e` on.
pub open spec fn walk_size(e: SpecExpr) -> nat
    decreases e, 0nat,
{
    match e {
        SpecExpr::Infix { lhs, rhs, .. } => 1 + walk_size(*lhs) + walk_size(*rhs),
        SpecExpr::Call { args, .. } => 1 + walk_sizes(args),
        _ => 1,
    }
}

/// The number of nodes that the walk visits from a stack of expressions.
pub open spec fn walk_sizes(s: Seq<SpecExpr>) -> nat
    decreases s, 1nat,
{
    if s.len() == 0 {
        0
    } else {
        walk_size(s.last()) + walk_sizes(s.drop_last())
    }
}

/// The walk sizes of two stacks add up.
pub proof fn lemma_walk_sizes_concat(a: Seq<SpecExpr>, b: Seq<SpecExpr>)
    ensures
        walk_sizes(a + b) == walk_sizes(a) + walk_sizes(b),
    decreases b.len(),
{
    if b.len() == 0 {
        assert(a + b =~= a);
    } else {
        lemma_walk_sizes_concat(a, b.drop_last());
        assert((a + b).drop_last() =~= a + b.drop_last());
        assert((a + b).last() == b.last());
    }
}

/// Whether the walk from `e` meets a call of a function of the context that is recursive.
pub open spec fn reaches_recursive(e: SpecExpr, funcs: Map<Seq<char>, SpecFunc>) -> bool
    decreases e, 0nat,
{
    match e {
        SpecExpr::Infix { lhs, rhs, .. } => reaches_recursive(*lhs, funcs) || reaches_recursive(
            *rhs,
            funcs,
        ),
        SpecExpr::Call { func, args } => (funcs.contains_key(func) && is_recursive_spec(
            funcs[func],
            funcs,
        )) || any_reaches_recursive(args, funcs),
        _ => false,
    }
}

/// Whether the walk from some expression of `s` meets a recursive function.
pub open spec fn any_reaches_recursive(s: Seq<SpecExpr>, funcs: Map<Seq<char>, SpecFunc>) -> bool
    decreases s, 1nat,
{
    if s.len() == 0 {
        false
    } else {
        reaches_recursive(s.last(), funcs) || any_reaches_recursive(s.drop_last(), funcs)
    }
}

/// `any_reaches_recursive` over two stacks is over either.
pub proof fn lemma_any_reaches_concat(
    a: Seq<SpecExpr>,
    b: Seq<SpecExpr>,
    funcs: Map<Seq<char>, SpecFunc>,
)
    ensures
        any_reaches_recursive(a + b, funcs) == (any_reaches_recursive(a, funcs)
            || any_reaches_recursive(b, funcs)),
    decreases b.len(),
{
    if b.len() == 0 {
        assert(a + b =~= a);
    } else {
        lemma_any_reaches_concat(a, b.drop_last(), funcs);
        assert((a + b).drop_last() =~= a + b.drop_last());
        assert((a + b).last() == b.last());
    }
}

/// What successive calls of `next` yield from the pending stack `s` (top last): the top, then
/// what they yield once it is replaced by its children.
pub open spec fn run(s: Seq<SpecExpr>) -> Seq<SpecExpr>
    decreases walk_sizes(s),
{
    if s.len() == 0 {
        Seq::empty()
    } else {
        proof {
            lemma_walk_sizes_concat(s.drop_last(), children(s.last()));
            lemma_children_reach(s.last(), Map::empty());
        }
        seq![s.last()] + run(s.drop_last() + children(s.last()))
    }
}

/// The walk from a stack with more pending on top yields all of the upper part first.
pub proof fn lemma_run_concat(s: Seq<SpecExpr>, t: Seq<SpecExpr>)
    ensures
        run(s + t) == run(t) + run(s),
    decreases walk_sizes(t),
{
    if t.len() == 0 {
        assert(s + t =~= s);
        assert(run(t) + run(s) =~= run(s));
    } else {
        let top = t.last();
        let rest = t.drop_last() + children(top);
        lemma_walk_sizes_concat(t.drop_last(), children(top));
        lemma_children_reach(top, Map::empty());
        lemma_run_concat(s, rest);
        assert((s + t).last() == top);
        assert((s + t).drop_last() + children(top) =~= s + rest);
        assert(run(s + t) == seq![top] + run(s + rest));
        assert(run(t) == seq![top] + run(rest));
        assert(seq![top] + (run(rest) + run(s)) =~= (seq![top] + run(rest)) + run(s));
    }
}

/// Law: after `push(v)`, the walk yields `v` and every expression below it before any
/// expression that was pending.
pub proof fn law_push_walks_value_first(pending: Seq<SpecExpr>, v: SpecExpr)
    ensures
        run(pending.push(v)) == run(seq![v]) + run(pending),
        run(seq![v])[0] == v,
{
    assert(pending.push(v) =~= pending + seq![v]);
    lemma_run_concat(pending, seq![v]);
    assert(seq![v].last() == v);
}

/// Law: the walk is in pre-order; a binary operation comes first, then all of its left
/// operand's walk, then all of its right operand's. A call comes before its arguments, the last
/// argument's walk first; other expressions are visited alone.
pub proof fn law_walk_pre_order(e: SpecExpr)
    ensures
        e matches SpecExpr::Infix { lhs, rhs, .. } ==> run(seq![e]) == seq![e] + run(seq![*lhs])
            + run(seq![*rhs]),
        e matches SpecExpr::Call { args, .. } ==> run(seq![e]) == seq![e] + run(args),
        !(e is Infix || e is Call) ==> run(seq![e]) == seq![e],
{
    let s = seq![e];
    assert(s.last() == e);
    assert(s.drop_last() + children(e) =~= children(e));
    assert(run(s) == seq![e] + run(children(e)));
    match e {
        SpecExpr::Infix { lhs, rhs, .. } => {
            assert(children(e) =~= seq![*rhs] + seq![*lhs]);
            lemma_run_concat(seq![*rhs], seq![*lhs]);
            assert(seq![e] + (run(seq![*lhs]) + run(seq![*rhs])) =~= seq![e] + run(seq![*lhs])
                + run(seq![*rhs]));
        },
        SpecExpr::Call { .. } => {},
        _ => {
            assert(run(children(e)) =~= Seq::<SpecExpr>::empty());
            assert(seq![e] + Seq::<SpecExpr>::empty() =~= seq![e]);
        },
    }
}

/// A walk over an expression and the expressions below it, in pre-order, that does not enter
/// logarithms. It holds the expressions still to visit; the last one comes next.
pub struct ExprIter<'a> {
    stack: Vec<&'a Expr>,
}

impl<'a> View for ExprIter<'a> {
    type V = Seq<SpecExpr>;

    /// The expressions still to visit, the next one last.
    closed spec fn view(&self) -> Seq<SpecExpr> {
        self.stack@.map_values(|e: &Expr| e@)
    }
}

impl<'a> ExprIter<'a> {
    /// Puts `value` on top of the expressions still to visit.
    pub fn push(&mut self, value: &'a Expr)
        ensures
            final(self)@ == old(self)@.push(value@),
    {
        self.stack.push(value);
        assert(self@ =~= old(self)@.push(value@));
    }

    /// The next expression; the expressions below it are visited after it.
    pub fn next(&mut self) -> (r: Option<&'a Expr>)
        ensures
            old(self)@.len() == 0 ==> r is None && final(self)@ == old(self)@,
            old(self)@.len() > 0 ==> (r matches Some(e) && e@ == old(self)@.last() && final(self)@
                == old(self)@.drop_last() + children(e@)),
            r matches Some(e) ==> run(old(self)@) == seq![e@] + run(final(self)@),
    {
        let ghost before = self@;
        let cur = match self.stack.pop() {
            Some(c) => c,
            None => {
                return None;
            },
        };
        assert(self@ =~= before.drop_last());
        match cur {
            Expr::Infix { lhs, rhs, .. } => {
                self.stack.push(&**rhs);
                self.stack.push(&**lhs);
                assert(self@ =~= before.drop_last() + children(cur@));
            },
            Expr::Call { args, .. } => {
                proof {
                    lemma_view_exprs(args@);
                }
                let mut i: usize = 0;
                while i < args.len()
                    invariant
                        i <= args.len(),
                        view_exprs(args@).len() == args@.len(),
                        forall|j: int| 0 <= j < args@.len() ==> #[trigger] view_exprs(args@)[j] == args@[j]@,
                        self@ =~= before.drop_last() + view_exprs(args@).take(i as int),
                    decreases args.len() - i,
                {
                    let ghost s0 = self@;
                    self.stack.push(&args[i]);
                    assert(self@ =~= s0.push(args@[i as int]@));
                    assert(view_exprs(args@).take(i + 1) =~= view_exprs(args@).take(i as int).push(
                        args@[i as int]@,
                    ));
                    i = i + 1;
                }
                assert(view_exprs(args@).take(args.len() as int) =~= view_exprs(args@));
            },
            _ => {
                assert(self@ =~= before.drop_last() + children(cur@));
            },
        }
        Some(cur)
    }
}

impl Expr {
    /// A walk that starts at this expression.
    pub fn into_iter(&self) -> (r: ExprIter<'_>)
        ensures
            r@ == seq![self@],
    {
        let mut stack: Vec<&Expr> = Vec::new();
        stack.push(self);
        let r = ExprIter { stack };
        assert(r@ =~= seq![self@]);
        r
    }

    /// Whether the expression calls, outside logarithms, a function of the context that can
    /// call itself.
    pub fn is_infinite(&self, ctx: &Ctx) -> (r: bool)
        ensures
            r == reaches_recursive(self@, ctx@.funcs),
    {
        let mut it = self.into_iter();
        assert(any_reaches_recursive(it@, ctx@.funcs) == reaches_recursive(self@, ctx@.funcs)) by {
            assert(it@.drop_last() =~= Seq::<SpecExpr>::empty());
            assert(it@.last() == self@);
            assert(it@.len() == 1);
            assert(!any_reaches_recursive(it@.drop_last(), ctx@.funcs));
        }
        loop
            invariant
                any_reaches_recursive(it@, ctx@.funcs) == reaches_recursive(self@, ctx@.funcs),
            decreases walk_sizes(it@),
        {
            let ghost before = it@;
            match it.next() {
                None => {
                    return false;
                },
                Some(e) => {
                    proof {
                        lemma_walk_sizes_concat(before.drop_last(), children(e@));
                        lemma_any_reaches_concat(before.drop_last(), children(e@), ctx@.funcs);
                        lemma_children_reach(e@, ctx@.funcs);
                    }
                    match e {
                        Expr::Call { func, .. } => {
                            match ctx.get_func(func.as_str()) {
                                Some(f) => {
                                    if f.is_recursive(ctx) {
                                        return true;
                                    }
                                },
                                None => {},
                            }
                        },
                        _ => {},
                    }
                },
            }
        }
    }
}

/// The walk from `e` meets a recursive function where `e` is a call of one, or where the walk
/// from one of its children does; and its children are smaller.
pub proof fn lemma_children_reach(e: SpecExpr, funcs: Map<Seq<char>, SpecFunc>)
    ensures
        reaches_recursive(e, funcs) == ((e matches SpecExpr::Call { func, .. } && funcs.contains_key(
            func,
        ) && is_recursive_spec(funcs[func], funcs)) || any_reaches_recursive(children(e), funcs)),
        walk_sizes(children(e)) < walk_size(e),
{
    match e {
        SpecExpr::Infix { lhs, rhs, .. } => {
            let c = seq![*rhs, *lhs];
            assert(c.drop_last() =~= seq![*rhs]);
            assert(c.drop_last().drop_last() =~= Seq::<SpecExpr>::empty());
            assert(c.last() == *lhs);
            assert(c.drop_last().last() == *rhs);
            assert(walk_sizes(c) == walk_size(*lhs) + walk_sizes(c.drop_last()));
            assert(walk_sizes(c.drop_last()) == walk_size(*rhs) + walk_sizes(
                c.drop_last().drop_last(),
            ));
            assert(any_reaches_recursive(c, funcs) == (reaches_recursive(*lhs, funcs)
                || any_reaches_recursive(c.drop_last(), funcs)));
            assert(any_reaches_recursive(c.drop_last(), funcs) == (reaches_recursive(*rhs, funcs)
                || any_reaches_recursive(c.drop_last().drop_last(), funcs)));
        },
        _ => {},
    }
}

} // verus!
