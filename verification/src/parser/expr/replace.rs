use vstd::prelude::*;

use super::{lemma_view_exprs, lemma_view_exprs_ext, view_expr, view_exprs, Expr, SpecExpr};

verus! {

/// `o`'s value, or `d` when there is none.
pub open spec fn or_else<T>(o: Option<T>, d: T) -> T {
    match o {
        Some(v) => v,
        None => d,
    }
}

/// `e` with every occurrence of the variable `var` replaced by `new`, or `None` when `e` holds
/// no such occurrence that the replacement reaches. Replacement goes into binary operations and
/// call arguments, not into logarithms.
pub open spec fn replace_spec(e: SpecExpr, var: Seq<char>, new: SpecExpr) -> Option<SpecExpr>
    decreases e, 0nat,
{
    match e {
        SpecExpr::Var(v) => if v == var {
            Some(new)
        } else {
            None
        },
        SpecExpr::Infix { lhs, op, rhs } => {
            let l = replace_spec(*lhs, var, new);
            let r = replace_spec(*rhs, var, new);
            if l is None && r is None {
                None
            } else {
                Some(
                    SpecExpr::Infix {
                        lhs: Box::new(or_else(l, *lhs)),
                        op: op,
                        rhs: Box::new(or_else(r, *rhs)),
                    },
                )
            }
        },
        SpecExpr::Call { func, args } => match replace_args_spec(args, var, new) {
            Some(new_args) => Some(SpecExpr::Call { func: func, args: new_args }),
            None => None,
        },
        _ => None,
    }
}

/// The arguments with the replacement made in each, or `None` when it changes none of them.
pub open spec fn replace_args_spec(args: Seq<SpecExpr>, var: Seq<char>, new: SpecExpr) -> Option<
    Seq<SpecExpr>,
>
    decreases args, 1nat,
{
    if args.len() == 0 {
        None
    } else {
        let h = replace_spec(args[0], var, new);
        let t = replace_args_spec(args.drop_first(), var, new);
        if h is None && t is None {
            None
        } else {
            Some(seq![or_else(h, args[0])] + or_else(t, args.drop_first()))
        }
    }
}

/// `replace_args_spec` replaces in each argument, and is `None` when no argument changes.
pub proof fn lemma_replace_args(args: Seq<SpecExpr>, var: Seq<char>, new: SpecExpr)
    ensures
        replace_args_spec(args, var, new) is None <==> forall|i: int|
            0 <= i < args.len() ==> #[trigger] replace_spec(args[i], var, new) is None,
        replace_args_spec(args, var, new) matches Some(r) ==> r.len() == args.len() && forall|
            i: int,
        |
            0 <= i < args.len() ==> #[trigger] r[i] == or_else(replace_spec(args[i], var, new), args[i]),
    decreases args.len(),
{
    if args.len() > 0 {
        let rest = args.drop_first();
        lemma_replace_args(rest, var, new);
        assert forall|i: int| 0 < i < args.len() implies #[trigger] replace_spec(args[i], var, new)
            == replace_spec(rest[i - 1], var, new) by {
            assert(rest[i - 1] == args[i]);
        }
        if replace_args_spec(args, var, new) is None {
            assert forall|i: int| 0 <= i < args.len() implies #[trigger] replace_spec(
                args[i],
                var,
                new,
            ) is None by {
                if i > 0 {
                    assert(rest[i - 1] == args[i]);
                }
            }
        } else {
            if forall|i: int| 0 <= i < args.len() ==> #[trigger] replace_spec(args[i], var, new) is None {
                assert(replace_spec(args[0], var, new) is None);
                assert forall|i: int| 0 <= i < rest.len() implies #[trigger] replace_spec(
                    rest[i],
                    var,
                    new,
                ) is None by {
                    assert(rest[i] == args[i + 1]);
                }
                assert(false);
            }
            let r = replace_args_spec(args, var, new)->Some_0;
            assert forall|i: int| 0 <= i < args.len() implies #[trigger] r[i] == or_else(
                replace_spec(args[i], var, new),
                args[i],
            ) by {
                if i > 0 {
                    assert(rest[i - 1] == args[i]);
                    if replace_args_spec(rest, var, new) is None {
                        assert(replace_spec(rest[i - 1], var, new) is None);
                    }
                }
            }
        }
    }
}

/// Whether the variable `var` occurs in `e` where replacement reaches it: outside logarithms,
/// through the operands of binary operations and the arguments of calls.
pub open spec fn occurs_var(e: SpecExpr, var: Seq<char>) -> bool
    decreases e, 0nat,
{
    match e {
        SpecExpr::Var(v) => v == var,
        SpecExpr::Infix { lhs, rhs, .. } => occurs_var(*lhs, var) || occurs_var(*rhs, var),
        SpecExpr::Call { args, .. } => occurs_var_in(args, var),
        _ => false,
    }
}

/// Whether `var` occurs (see `occurs_var`) in one of the expressions.
pub open spec fn occurs_var_in(s: Seq<SpecExpr>, var: Seq<char>) -> bool
    decreases s, 1nat,
{
    if s.len() == 0 {
        false
    } else {
        occurs_var(s[0], var) || occurs_var_in(s.drop_first(), var)
    }
}

/// `occurs_var_in` is whether `var` occurs in some expression of the sequence.
pub proof fn lemma_occurs_var_in(s: Seq<SpecExpr>, var: Seq<char>)
    ensures
        occurs_var_in(s, var) <==> exists|i: int| 0 <= i < s.len() && #[trigger] occurs_var(s[i], var),
    decreases s.len(),
{
    if s.len() > 0 {
        let rest = s.drop_first();
        lemma_occurs_var_in(rest, var);
        assert(occurs_var_in(s, var) == (occurs_var(s[0], var) || occurs_var_in(rest, var)));
        if occurs_var_in(rest, var) {
            let i = choose|i: int| 0 <= i < rest.len() && #[trigger] occurs_var(rest[i], var);
            assert(s[i + 1] == rest[i]);
        }
        if exists|i: int| 0 <= i < s.len() && #[trigger] occurs_var(s[i], var) {
            let i = choose|i: int| 0 <= i < s.len() && #[trigger] occurs_var(s[i], var);
            if i > 0 {
                assert(rest[i - 1] == s[i]);
            }
        }
    }
}

/// Replacement changes an expression exactly when the variable occurs in it.
pub proof fn lemma_replace_none_iff_absent(e: SpecExpr, var: Seq<char>, new: SpecExpr)
    ensures
        replace_spec(e, var, new) is None <==> !occurs_var(e, var),
    decreases e,
{
    match e {
        SpecExpr::Infix { lhs, rhs, .. } => {
            lemma_replace_none_iff_absent(*lhs, var, new);
            lemma_replace_none_iff_absent(*rhs, var, new);
            assert(occurs_var(e, var) == (occurs_var(*lhs, var) || occurs_var(*rhs, var)));
            assert(replace_spec(e, var, new) is None <==> (replace_spec(*lhs, var, new) is None
                && replace_spec(*rhs, var, new) is None));
        },
        SpecExpr::Call { args, .. } => {
            lemma_replace_args(args, var, new);
            lemma_occurs_var_in(args, var);
            assert forall|i: int| 0 <= i < args.len() implies (#[trigger] replace_spec(args[i], var, new)
                is None <==> !occurs_var(args[i], var)) by {
                lemma_replace_none_iff_absent(args[i], var, new);
            }
            assert(occurs_var(e, var) == occurs_var_in(args, var));
            assert(replace_spec(e, var, new) is None <==> replace_args_spec(args, var, new) is None);
            if replace_args_spec(args, var, new) is None {
                if occurs_var_in(args, var) {
                    let i = choose|i: int| 0 <= i < args.len() && #[trigger] occurs_var(args[i], var);
                    assert(replace_spec(args[i], var, new) is None);
                }
            } else {
                let k = choose|k: int| 0 <= k < args.len() && !(#[trigger] replace_spec(args[k], var, new) is None);
                assert(occurs_var(args[k], var));
            }
        },
        _ => {},
    }
}

/// After replacing `var` by `new`, a variable occurs only where it occurred before (and is not
/// `var`) or where it occurs in `new`.
pub proof fn lemma_occurs_after_replace(e: SpecExpr, var: Seq<char>, new: SpecExpr, m: Seq<char>)
    requires
        occurs_var(or_else(replace_spec(e, var, new), e), m),
    ensures
        (m != var && occurs_var(e, m)) || occurs_var(new, m),
    decreases e,
{
    lemma_replace_none_iff_absent(e, var, new);
    if replace_spec(e, var, new) is Some {
        match e {
            SpecExpr::Infix { lhs, rhs, .. } => {
                let l = or_else(replace_spec(*lhs, var, new), *lhs);
                let r = or_else(replace_spec(*rhs, var, new), *rhs);
                if occurs_var(l, m) {
                    lemma_occurs_after_replace(*lhs, var, new, m);
                } else {
                    lemma_occurs_after_replace(*rhs, var, new, m);
                }
            },
            SpecExpr::Call { args, .. } => {
                lemma_replace_args(args, var, new);
                let r = replace_args_spec(args, var, new)->Some_0;
                lemma_occurs_var_in(r, m);
                lemma_occurs_var_in(args, m);
                let i = choose|i: int| 0 <= i < r.len() && #[trigger] occurs_var(r[i], m);
                lemma_occurs_after_replace(args[i], var, new, m);
            },
            _ => {},
        }
    }
}

impl Expr {
    /// The expression with the variable `var` replaced by `new`; `None` when nothing changes
    /// (see `replace_spec`).
    #[verifier::loop_isolation(false)]
    pub fn replace_var(&self, var: &String, new: &Expr) -> (r: Option<Expr>)
        ensures
            match replace_spec(self@, var@, new@) {
                Some(e) => r matches Some(x) && x@ == e,
                None => r is None,
            },
        decreases self,
    {
        match self {
            Expr::Var(v) => {
                if *v == *var {
                    assert(replace_spec(self@, var@, new@) == Some(new@));
                    Some(new.clone())
                } else {
                    assert(replace_spec(self@, var@, new@) is None);
                    None
                }
            },
            Expr::Infix { lhs, op, rhs } => {
                let new_lhs = lhs.replace_var(var, new);
                let new_rhs = rhs.replace_var(var, new);
                if new_lhs.is_none() && new_rhs.is_none() {
                    assert(replace_spec(self@, var@, new@) is None);
                    None
                } else {
                    let l = match new_lhs {
                        Some(e) => e,
                        None => (**lhs).clone(),
                    };
                    let r = match new_rhs {
                        Some(e) => e,
                        None => (**rhs).clone(),
                    };
                    let res = Expr::Infix { lhs: Box::new(l), op: *op, rhs: Box::new(r) };
                    assert(replace_spec(self@, var@, new@) == Some(res@));
                    Some(res)
                }
            },
            Expr::Call { func, args } => {
                proof {
                    lemma_view_exprs(args@);
                    lemma_replace_args(view_exprs(args@), var@, new@);
                }
                let mut new_args: Vec<Expr> = Vec::new();
                let mut changed = false;
                let mut i: usize = 0;
                while i < args.len()
                    invariant
                        i <= args.len(),
                        new_args@.len() == i,
                        changed <==> exists|j: int|
                            0 <= j < i && #[trigger] replace_spec(args@[j]@, var@, new@) is Some,
                        forall|j: int|
                            0 <= j < i ==> #[trigger] new_args@[j]@ == or_else(
                                replace_spec(args@[j]@, var@, new@),
                                args@[j]@,
                            ),
                    decreases args.len() - i,
                {
                    assert(decreases_to!(args@ => args@[i as int]));
                    match args[i].replace_var(var, new) {
                        Some(replaced) => {
                            new_args.push(replaced);
                            changed = true;
                        },
                        None => {
                            new_args.push(args[i].clone());
                        },
                    }
                    i = i + 1;
                }
                if changed {
                    proof {
                        let j = choose|j: int|
                            0 <= j < args.len() && #[trigger] replace_spec(args@[j]@, var@, new@) is Some;
                        assert(view_exprs(args@)[j] == args@[j]@);
                        let r = replace_args_spec(view_exprs(args@), var@, new@)->Some_0;
                        assert forall|k: int| 0 <= k < args.len() implies #[trigger] new_args@[k]@
                            == r[k] by {
                            assert(view_exprs(args@)[k] == args@[k]@);
                        }
                        lemma_view_exprs_ext(new_args@, r);
                    }
                    let res = Expr::Call { func: func.clone(), args: new_args };
                    assert(replace_spec(self@, var@, new@) == Some(res@));
                    Some(res)
                } else {
                    proof {
                        assert forall|k: int| 0 <= k < args.len() implies #[trigger] replace_spec(
                            view_exprs(args@)[k],
                            var@,
                            new@,
                        ) is None by {
                            assert(view_exprs(args@)[k] == args@[k]@);
                        }
                    }
                    assert(replace_spec(self@, var@, new@) is None);
                    None
                }
            },
            _ => None,
        }
    }
}

} // verus!
