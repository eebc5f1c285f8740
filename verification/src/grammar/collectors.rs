//! Collecting the names used in a slide AST.
use crate::grammar::expression_pattern::{ExprPat, RcExprPat, copy_string, pat_names};
use crate::grammar::statement::{Expr, RcExpr};
use vstd::prelude::*;

verus! {

/// The views of a list of names, as a set.
pub open spec fn name_set(v: Seq<String>) -> Set<Seq<char>> {
    Set::new(|k: Seq<char>| exists|i: int| 0 <= i < v.len() && v[i]@ == k)
}

/// No name occurs twice in `v`.
pub open spec fn names_distinct(v: Seq<String>) -> bool {
    forall|i: int, j: int| 0 <= i < j < v.len() ==> v[i]@ != v[j]@
}

/// Adds `name` to `out` unless it is there already.
fn add_name(out: &mut Vec<String>, name: &String)
    requires
        names_distinct(old(out)@),
    ensures
        names_distinct(final(out)@),
        name_set(final(out)@) == name_set(old(out)@).insert(name@),
{
    let mut present = false;
    for i in 0..out.len()
        invariant
            present == exists|j: int| 0 <= j < i && out@[j]@ == name@,
    {
        if out[i].eq(name) {
            present = true;
        }
    }
    let ghost before = out@;
    if !present {
        out.push(copy_string(name));
        proof {
            assert forall|a: int, b: int| 0 <= a < b < out@.len() implies out@[a]@ != out@[b]@ by {
                if b == before.len() {
                    assert(before[a]@ != name@);
                }
            }
            assert forall|k: Seq<char>| #[trigger] name_set(out@).contains(k) == name_set(before).insert(
                name@,
            ).contains(k) by {
                if name_set(before).contains(k) {
                    let j = choose|j: int| 0 <= j < before.len() && before[j]@ == k;
                    assert(out@[j] == before[j]);
                }
                if name_set(out@).contains(k) {
                    let j = choose|j: int| 0 <= j < out@.len() && out@[j]@ == k;
                    if j < before.len() {
                        assert(out@[j] == before[j]);
                    }
                }
                if k == name@ {
                    assert(out@[before.len() as int]@ == k);
                }
            }
        }
    } else {
        proof {
            assert forall|k: Seq<char>| #[trigger] name_set(out@).contains(k) == name_set(before).insert(
                name@,
            ).contains(k) by {}
        }
    }
    proof {
        assert(name_set(out@) =~= name_set(before).insert(name@));
    }
}

/// The names of the variables that occur in an expression.
pub open spec fn var_names(e: RcExpr) -> Set<Seq<char>>
    decreases e,
{
    match *e.expr {
        Expr::Var(n) => set![n@],
        Expr::Const(_) => Set::empty(),
        Expr::BinaryExpr(b) => var_names(b.lhs).union(var_names(b.rhs)),
        Expr::UnaryExpr(u) => var_names(u.rhs),
        Expr::Parend(x) => var_names(x),
        Expr::Bracketed(x) => var_names(x),
    }
}

/// Adds the variable names of `e` to `out`.
fn collect_vars_into(e: &RcExpr, out: &mut Vec<String>)
    requires
        names_distinct(old(out)@),
    ensures
        names_distinct(final(out)@),
        name_set(final(out)@) == name_set(old(out)@).union(var_names(*e)),
    decreases e,
{
    let ghost before = out@;
    match &*e.expr {
        Expr::Var(n) => {
            add_name(out, n);
            assert(name_set(out@) =~= name_set(before).union(var_names(*e)));
        },
        Expr::Const(_) => {
            assert(name_set(out@) =~= name_set(before).union(var_names(*e)));
        },
        Expr::BinaryExpr(b) => {
            collect_vars_into(&b.lhs, out);
            collect_vars_into(&b.rhs, out);
            assert(name_set(out@) =~= name_set(before).union(var_names(*e)));
        },
        Expr::UnaryExpr(u) => {
            collect_vars_into(&u.rhs, out);
        },
        Expr::Parend(x) => {
            collect_vars_into(x, out);
        },
        Expr::Bracketed(x) => {
            collect_vars_into(x, out);
        },
    }
}

/// Collects the unique variable names in an expression.
pub fn collect_var_names(expr: &RcExpr) -> (r: Vec<String>)
    ensures
        name_set(r@) == var_names(*expr),
        names_distinct(r@),
{
    let mut out: Vec<String> = Vec::new();
    assert(name_set(out@) =~= Set::<Seq<char>>::empty());
    collect_vars_into(expr, &mut out);
    assert(name_set(out@) =~= var_names(*expr));
    out
}

/// Adds the pattern names of `p` to `out`.
fn collect_into(p: &RcExprPat, out: &mut Vec<String>)
    requires
        names_distinct(old(out)@),
    ensures
        names_distinct(final(out)@),
        name_set(final(out)@) == name_set(old(out)@).union(pat_names(*p)),
    decreases p,
{
    let ghost before = out@;
    match &*p.pat {
        ExprPat::VarPat(n) | ExprPat::ConstPat(n) | ExprPat::AnyPat(n) => {
            add_name(out, n);
            assert(name_set(out@) =~= name_set(before).union(pat_names(*p)));
        },
        ExprPat::Const(_) => {
            assert(name_set(out@) =~= name_set(before).union(pat_names(*p)));
        },
        ExprPat::BinaryExpr(b) => {
            collect_into(&b.lhs, out);
            collect_into(&b.rhs, out);
            assert(name_set(out@) =~= name_set(before).union(pat_names(*p)));
        },
        ExprPat::UnaryExpr(u) => {
            collect_into(&u.rhs, out);
        },
        ExprPat::Parend(x) => {
            collect_into(x, out);
        },
        ExprPat::Bracketed(x) => {
            collect_into(x, out);
        },
    }
}

/// Collects the unique pattern names in an expression pattern.
pub fn collect_pat_names(expr: &RcExprPat) -> (r: Vec<String>)
    ensures
        name_set(r@) == pat_names(*expr),
        names_distinct(r@),
{
    let mut out: Vec<String> = Vec::new();
    assert(name_set(out@) =~= Set::<Seq<char>>::empty());
    collect_into(expr, &mut out);
    assert(name_set(out@) =~= pat_names(*expr));
    out
}

} // verus!
