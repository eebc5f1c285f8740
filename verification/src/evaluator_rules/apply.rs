//! Applying rules to expressions: a rule rewrites an expression bottom-up, trying string rules
//! on the commuted form of sums and products too, and keeping the less complex of the forms
//! when no rule matches.
use crate::evaluator_rules::fn_rules::{FnRule, chain_args, fold_chain, fold_consts, unflatten_left};
use crate::grammar::Rational;
use crate::math::rational::{rat_add, rat_mul};
use crate::evaluator_rules::pattern_match::{
    MatchRule, PatternMatch, lemma_agree_subset, lemma_match_unique, lemma_subst_agree,
    matches_expr, subst_expr,
};
use crate::evaluator_rules::rule::{PatternMap, Rule};
use crate::grammar::expression_pattern::{ExprPat, RcExprPat, pat_names};
use crate::grammar::statement::{
    Assignment, Expr, RcExpr, Stmt, StmtKind, StmtList, lemma_same_expr_refl, lemma_same_expr_sym, lemma_same_expr_trans, same_expr,
    spec_complexity,
};
use crate::grammar::{BinaryExpr, BinaryOperator, UnaryExpr};
use vstd::prelude::*;

verus! {

/// The number of nodes of `e`, capped at `u64::MAX`.
pub open spec fn capped_complexity(e: RcExpr) -> int {
    if spec_complexity(e) < u64::MAX {
        spec_complexity(e)
    } else {
        u64::MAX as int
    }
}

/// `a + b`, capped at `u64::MAX`.
fn capped_add(a: u64, b: u64) -> (r: u64)
    ensures
        r == (if a + b < u64::MAX {
            a + b
        } else {
            u64::MAX as int
        }),
{
    if a >= u64::MAX - b {
        u64::MAX
    } else {
        a + b
    }
}

/// The number of nodes of `e`, capped at `u64::MAX`.
pub fn complexity_capped(e: &RcExpr) -> (r: u64)
    ensures
        r == capped_complexity(*e),
    decreases e,
{
    proof {
        crate::grammar::statement::lemma_complexity_pos(*e);
    }
    let inner: u64 = match &*e.expr {
        Expr::Const(_) => 0,
        Expr::Var(_) => 0,
        Expr::BinaryExpr(b) => {
            proof {
                crate::grammar::statement::lemma_complexity_pos(b.lhs);
                crate::grammar::statement::lemma_complexity_pos(b.rhs);
            }
            capped_add(complexity_capped(&b.lhs), complexity_capped(&b.rhs))
        },
        Expr::UnaryExpr(u) => complexity_capped(&u.rhs),
        Expr::Parend(x) => complexity_capped(x),
        Expr::Bracketed(x) => complexity_capped(x),
    };
    capped_add(1, inner)
}

/// Trees that are the same have the same number of nodes.
pub proof fn lemma_complexity_same(a: RcExpr, b: RcExpr)
    requires
        same_expr(a, b),
    ensures
        spec_complexity(a) == spec_complexity(b),
        capped_complexity(a) == capped_complexity(b),
    decreases a,
{
    match (*a.expr, *b.expr) {
        (Expr::BinaryExpr(x), Expr::BinaryExpr(y)) => {
            lemma_complexity_same(x.lhs, y.lhs);
            lemma_complexity_same(x.rhs, y.rhs);
        },
        (Expr::UnaryExpr(x), Expr::UnaryExpr(y)) => {
            lemma_complexity_same(x.rhs, y.rhs);
        },
        (Expr::Parend(x), Expr::Parend(y)) => {
            lemma_complexity_same(x, y);
        },
        (Expr::Bracketed(x), Expr::Bracketed(y)) => {
            lemma_complexity_same(x, y);
        },
        _ => {},
    }
}

/// Matching a rule against an expression depends only on the expression's tree, not its spans.
pub proof fn lemma_match_target(rule: RcExprPat, t1: RcExpr, t2: RcExpr, m: Map<Seq<char>, RcExpr>)
    requires
        matches_expr(rule, t1, m),
        same_expr(t1, t2),
    ensures
        matches_expr(rule, t2, m),
    decreases rule,
{
    match (*rule.pat, *t1.expr, *t2.expr) {
        (ExprPat::BinaryExpr(r), Expr::BinaryExpr(a), Expr::BinaryExpr(b)) => {
            lemma_match_target(r.lhs, a.lhs, b.lhs, m);
            lemma_match_target(r.rhs, a.rhs, b.rhs, m);
        },
        (ExprPat::UnaryExpr(r), Expr::UnaryExpr(a), Expr::UnaryExpr(b)) => {
            lemma_match_target(r.rhs, a.rhs, b.rhs, m);
        },
        (ExprPat::Parend(r), Expr::Parend(a), Expr::Parend(b)) => {
            lemma_match_target(r, a, b, m);
        },
        (ExprPat::Bracketed(r), Expr::Bracketed(a), Expr::Bracketed(b)) => {
            lemma_match_target(r, a, b, m);
        },
        _ => {
            match *rule.pat {
                ExprPat::VarPat(n) => {
                    lemma_same_expr_trans(m[n@], t1, t2);
                },
                ExprPat::ConstPat(n) => {
                    lemma_same_expr_trans(m[n@], t1, t2);
                },
                ExprPat::AnyPat(n) => {
                    lemma_same_expr_trans(m[n@], t1, t2);
                },
                _ => {},
            }
        },
    }
}

/// Two expression lists are the same tree by tree.
pub open spec fn same_exprs(a: Seq<RcExpr>, b: Seq<RcExpr>) -> bool {
    a.len() == b.len() && forall|i: int| 0 <= i < a.len() ==> #[trigger] same_expr(a[i], b[i])
}

/// The operands of a chain are the same for trees that are the same.
proof fn lemma_chain_args_same(a: RcExpr, b: RcExpr, op: BinaryOperator)
    requires
        same_expr(a, b),
    ensures
        same_exprs(chain_args(a, op), chain_args(b, op)),
    decreases a,
{
    match (*a.expr, *b.expr) {
        (Expr::BinaryExpr(x), Expr::BinaryExpr(y)) => {
            if x.op == op {
                lemma_chain_args_same(x.lhs, y.lhs, op);
                lemma_chain_args_same(x.rhs, y.rhs, op);
                let (la, ra) = (chain_args(x.lhs, op), chain_args(x.rhs, op));
                let (lb, rb) = (chain_args(y.lhs, op), chain_args(y.rhs, op));
                assert forall|i: int| 0 <= i < (la + ra).len() implies #[trigger] same_expr(
                    (la + ra)[i],
                    (lb + rb)[i],
                ) by {
                    if i < la.len() {
                        assert(same_expr(la[i], lb[i]));
                    } else {
                        assert(same_expr(ra[i - la.len()], rb[i - la.len()]));
                    }
                }
            }
        },
        _ => {},
    }
}

/// Folding constants gives the same constant and the same remaining operands for operand lists
/// that are the same.
proof fn lemma_fold_consts_same(
    a: Seq<RcExpr>,
    b: Seq<RcExpr>,
    i: int,
    acc: Option<Rational>,
    n: nat,
    mul: bool,
)
    requires
        same_exprs(a, b),
    ensures
        fold_consts(a, i, acc, n, mul).1 == fold_consts(b, i, acc, n, mul).1,
        same_exprs(fold_consts(a, i, acc, n, mul).0, fold_consts(b, i, acc, n, mul).0),
    decreases n,
{
    if n == 0 || acc is None || !(0 <= i < a.len()) {
    } else {
        assert(same_expr(a[i], b[i]));
        match (*a[i].expr, *b[i].expr) {
            (Expr::Const(c), Expr::Const(d)) => {
                let a2 = a.update(i, a.last()).drop_last();
                let b2 = b.update(i, b.last()).drop_last();
                assert(same_expr(a[a.len() - 1], b[b.len() - 1]));
                assert forall|j: int| 0 <= j < a2.len() implies #[trigger] same_expr(a2[j], b2[j]) by {
                    if j == i {
                    } else {
                        assert(same_expr(a[j], b[j]));
                    }
                }
                let acc2 = if !c.wf() {
                    None
                } else if mul {
                    rat_mul(acc->0, c)
                } else {
                    rat_add(acc->0, c)
                };
                lemma_fold_consts_same(a2, b2, i, acc2, (n - 1) as nat, mul);
            },
            (Expr::Const(_), _) => {},
            (_, Expr::Const(_)) => {},
            _ => {
                lemma_fold_consts_same(a, b, i + 1, acc, (n - 1) as nat, mul);
            },
        }
    }
}

/// Joining lists that are the same gives trees that are the same.
proof fn lemma_unflatten_same(a: Seq<RcExpr>, b: Seq<RcExpr>, op: BinaryOperator)
    requires
        same_exprs(a, b),
        a.len() > 0,
    ensures
        same_expr(unflatten_left(a, op), unflatten_left(b, op)),
    decreases a.len(),
{
    if a.len() > 1 {
        assert(same_exprs(a.drop_last(), b.drop_last())) by {
            assert forall|i: int| 0 <= i < a.drop_last().len() implies #[trigger] same_expr(
                a.drop_last()[i],
                b.drop_last()[i],
            ) by {
                assert(same_expr(a[i], b[i]));
            }
        }
        lemma_unflatten_same(a.drop_last(), b.drop_last(), op);
        assert(same_expr(a[a.len() - 1], b[b.len() - 1]));
    } else {
        assert(same_expr(a[0], b[0]));
    }
}

/// Folding a chain gives trees that are the same for trees that are the same.
proof fn lemma_fold_chain_same(a: RcExpr, b: RcExpr, op: BinaryOperator, mul: bool)
    requires
        same_expr(a, b),
    ensures
        (fold_chain(a, op, mul) is Some) == (fold_chain(b, op, mul) is Some),
        fold_chain(a, op, mul) is Some ==> same_expr(
            fold_chain(a, op, mul)->0,
            fold_chain(b, op, mul)->0,
        ),
{
    lemma_chain_args_same(a, b, op);
    let ca = chain_args(a, op);
    let cb = chain_args(b, op);
    let unit = if mul {
        Rational { num: 1, den: 1 }
    } else {
        Rational { num: 0, den: 1 }
    };
    lemma_fold_consts_same(ca, cb, 0, Some(unit), ca.len(), mul);
    let (ra, acc) = fold_consts(ca, 0, Some(unit), ca.len(), mul);
    let rb = fold_consts(cb, 0, Some(unit), cb.len(), mul).0;
    if acc is Some {
        let k = acc->0;
        let ka = RcExpr { expr: Box::new(Expr::Const(k)), span: a.span };
        let kb = RcExpr { expr: Box::new(Expr::Const(k)), span: b.span };
        assert(same_exprs(ra.push(ka), rb.push(kb))) by {
            assert forall|i: int| 0 <= i < ra.push(ka).len() implies #[trigger] same_expr(
                ra.push(ka)[i],
                rb.push(kb)[i],
            ) by {
                if i < ra.len() {
                    assert(same_expr(ra[i], rb[i]));
                }
            }
        }
        lemma_unflatten_same(ra.push(ka), rb.push(kb), op);
    }
}

/// A function rule gives the same tree on trees that are the same.
pub proof fn lemma_fn_rule_same(f: FnRule, a: RcExpr, b: RcExpr)
    requires
        same_expr(a, b),
    ensures
        (f.spec_apply(a) is Some) == (f.spec_apply(b) is Some),
        f.spec_apply(a) is Some ==> same_expr(f.spec_apply(a)->0, f.spec_apply(b)->0),
{
    match (*a.expr, *b.expr) {
        (Expr::BinaryExpr(x), Expr::BinaryExpr(y)) => {
            assert(same_expr(x.lhs, y.lhs) && same_expr(x.rhs, y.rhs));
            match (*x.lhs.expr, *y.lhs.expr) {
                (Expr::Const(_), Expr::Const(_)) => {},
                _ => {},
            }
        },
        (Expr::UnaryExpr(x), Expr::UnaryExpr(y)) => {
            assert(same_expr(x.rhs, y.rhs));
        },
        _ => {},
    }
    lemma_fold_chain_same(a, b, BinaryOperator::Plus, false);
    lemma_fold_chain_same(a, b, BinaryOperator::Mult, true);
    if f.spec_apply(a) is Some {
        match f {
            FnRule::Posate | FnRule::Add | FnRule::Multiply => {},
            _ => {
                lemma_same_expr_refl(f.spec_apply(a)->0);
            },
        }
    }
}

/// A sum or a product, whose operands a string rule is also tried on exchanged.
pub open spec fn is_commutative_node(t: RcExpr) -> bool {
    match *t.expr {
        Expr::BinaryExpr(b) => b.op == BinaryOperator::Plus || b.op == BinaryOperator::Mult,
        _ => false,
    }
}

/// `t` with the two operands of its root exchanged, at the same span.
pub open spec fn swap_operands(t: RcExpr) -> RcExpr {
    match *t.expr {
        Expr::BinaryExpr(b) => RcExpr {
            expr: Box::new(Expr::BinaryExpr(BinaryExpr { op: b.op, lhs: b.rhs, rhs: b.lhs })),
            span: t.span,
        },
        _ => t,
    }
}

/// The less complex of `p` and `cur`, `cur` when they are equally complex.
pub open spec fn simpler(p: RcExpr, cur: RcExpr) -> RcExpr {
    if capped_complexity(p) < capped_complexity(cur) {
        p
    } else {
        cur
    }
}

/// `to` with the replacements of a match of `from` on `p`, or `fallback` when `from` does not
/// match `p`.
pub open spec fn rewrite_or(from: RcExprPat, to: RcExprPat, p: RcExpr, fallback: RcExpr) -> RcExpr {
    if exists|m: Map<Seq<char>, RcExpr>| matches_expr(from, p, m) {
        subst_expr(to, choose|m: Map<Seq<char>, RcExpr>| matches_expr(from, p, m))
    } else {
        fallback
    }
}

/// `t` with the rule applied to each of its parts, at the span of `t`.
pub open spec fn apply_children(rule: Rule, t: RcExpr) -> RcExpr
    decreases t, 0int,
{
    match *t.expr {
        Expr::BinaryExpr(b) => RcExpr {
            expr: Box::new(
                Expr::BinaryExpr(
                    BinaryExpr {
                        op: b.op,
                        lhs: apply_rule(rule, b.lhs),
                        rhs: apply_rule(rule, b.rhs),
                    },
                ),
            ),
            span: t.span,
        },
        Expr::UnaryExpr(u) => RcExpr {
            expr: Box::new(Expr::UnaryExpr(UnaryExpr { op: u.op, rhs: apply_rule(rule, u.rhs) })),
            span: t.span,
        },
        Expr::Parend(x) => RcExpr { expr: Box::new(Expr::Parend(apply_rule(rule, x))), span: t.span },
        Expr::Bracketed(x) => RcExpr {
            expr: Box::new(Expr::Bracketed(apply_rule(rule, x))),
            span: t.span,
        },
        _ => t,
    }
}

/// The rule applied to `t`. Its parts are rewritten first. A string rule `from -> to` is then
/// tried on that partial result and, for a sum or a product, on the partial result with its
/// operands exchanged, in that order; the result starts as `t`, becomes each form that is less
/// complex than it, and becomes the rewrite of each form that `from` matches. A function rule
/// gives its evaluation of the partial result, or the partial result when it does not apply.
pub open spec fn apply_rule(rule: Rule, t: RcExpr) -> RcExpr
    decreases t, 1int,
{
    let p = apply_children(rule, t);
    match rule {
        Rule::PatternMap(pm) => {
            let r1 = rewrite_or(pm.from, pm.to, p, simpler(p, t));
            if is_commutative_node(t) {
                let p2 = swap_operands(p);
                rewrite_or(pm.from, pm.to, p2, simpler(p2, r1))
            } else {
                r1
            }
        },
        Rule::Evaluate(f) => match f.spec_apply(p) {
            Some(x) => x,
            None => p,
        },
    }
}

/// The rule can rewrite expressions: a string rule binds every name of its target.
pub open spec fn expr_rule_wf(rule: Rule) -> bool {
    match rule {
        Rule::PatternMap(pm) => pm.resolved(),
        Rule::Evaluate(_) => true,
    }
}

/// Rewriting `p` (or keeping `fallback`) gives the same tree for any `q` that is the same tree
/// as `p` and any `g` that is the same tree as `fallback`.
proof fn lemma_rewrite_or_same(
    pm: PatternMap,
    q: RcExpr,
    p: RcExpr,
    mq: Option<Map<Seq<char>, RcExpr>>,
)
    requires
        pm.resolved(),
        same_expr(q, p),
        (mq is Some) == (exists|m: Map<Seq<char>, RcExpr>| matches_expr(pm.from, q, m)),
        mq matches Some(mv) ==> matches_expr(pm.from, q, mv),
    ensures
        (mq is Some) == (exists|m: Map<Seq<char>, RcExpr>| matches_expr(pm.from, p, m)),
        mq matches Some(mv) ==> same_expr(
            subst_expr(pm.to, mv),
            subst_expr(pm.to, choose|m: Map<Seq<char>, RcExpr>| matches_expr(pm.from, p, m)),
        ),
{
    lemma_same_expr_sym(q, p);
    if mq is Some {
        let mv = mq->0;
        lemma_match_target(pm.from, q, p, mv);
        let m = choose|m: Map<Seq<char>, RcExpr>| matches_expr(pm.from, p, m);
        lemma_match_unique(pm.from, p, mv, m);
        lemma_agree_subset(mv, m, pat_names(pm.from), pat_names(pm.to));
        lemma_subst_agree(pm.to, mv, m);
    } else if exists|m: Map<Seq<char>, RcExpr>| matches_expr(pm.from, p, m) {
        let m = choose|m: Map<Seq<char>, RcExpr>| matches_expr(pm.from, p, m);
        lemma_match_target(pm.from, p, q, m);
    }
}

/// `e` with the operands of its root exchanged, for a binary expression.
fn swap_root(e: &RcExpr) -> (r: RcExpr)
    ensures
        *e.expr is BinaryExpr ==> same_expr(r, swap_operands(*e)),
{
    match &*e.expr {
        Expr::BinaryExpr(b) => {
            let r = RcExpr::new(
                Expr::BinaryExpr(BinaryExpr { op: b.op, lhs: b.rhs.copy(), rhs: b.lhs.copy() }),
                e.span,
            );
            proof {
                lemma_same_expr_refl(b.lhs);
                lemma_same_expr_refl(b.rhs);
            }
            r
        },
        _ => e.copy(),
    }
}

impl Rule {
    /// Applies the rule to each part of `target`, keeping the span of `target`.
    fn transform_children(&self, target: &RcExpr) -> (r: RcExpr)
        requires
            expr_rule_wf(*self),
        ensures
            same_expr(r, apply_children(*self, *target)),
        decreases target, 0int,
    {
        match &*target.expr {
            Expr::Const(_) | Expr::Var(_) => {
                let r = target.copy();
                r
            },
            Expr::BinaryExpr(b) => {
                let lhs = self.transform_expr(&b.lhs);
                let rhs = self.transform_expr(&b.rhs);
                RcExpr::new(Expr::BinaryExpr(BinaryExpr { op: b.op, lhs, rhs }), target.span)
            },
            Expr::UnaryExpr(u) => {
                let rhs = self.transform_expr(&u.rhs);
                RcExpr::new(Expr::UnaryExpr(UnaryExpr { op: u.op, rhs }), target.span)
            },
            Expr::Parend(x) => {
                let inner = self.transform_expr(x);
                RcExpr::new(Expr::Parend(inner), target.span)
            },
            Expr::Bracketed(x) => {
                let inner = self.transform_expr(x);
                RcExpr::new(Expr::Bracketed(inner), target.span)
            },
        }
    }

    /// Applies the rule to an expression, as [`apply_rule`] describes: bottom-up, on the
    /// commuted forms of sums and products too for a string rule, keeping the less complex
    /// form when nothing matches.
    pub fn transform_expr(&self, target: &RcExpr) -> (r: RcExpr)
        requires
            expr_rule_wf(*self),
        ensures
            same_expr(r, apply_rule(*self, *target)),
        decreases target, 1int,
    {
        let partial = self.transform_children(target);
        let ghost p = apply_children(*self, *target);
        match self {
            Rule::PatternMap(pm) => {
                let ghost t = *target;
                proof {
                    lemma_complexity_same(partial, p);
                    lemma_same_expr_refl(t);
                }
                let mut result = if complexity_capped(&partial) < complexity_capped(target) {
                    partial.copy()
                } else {
                    target.copy()
                };
                proof {
                    lemma_same_expr_trans(result, partial, p);
                }
                let ghost base1 = simpler(p, t);
                assert(same_expr(result, base1));
                let m1 = PatternMatch::<RcExpr>::match_rule(&pm.from, &partial);
                let ghost mq1 = if m1 is Some {
                    Some(m1->0.view())
                } else {
                    None::<Map<Seq<char>, RcExpr>>
                };
                proof {
                    lemma_rewrite_or_same(*pm, partial, p, mq1);
                }
                match m1 {
                    Some(repls) => {
                        proof {
                            crate::evaluator_rules::pattern_match::lemma_match_names(
                                pm.from,
                                partial,
                                repls.view(),
                            );
                        }
                        let r = repls.transform(&pm.to);
                        proof {
                            lemma_same_expr_trans(
                                r,
                                subst_expr(pm.to, repls.view()),
                                rewrite_or(pm.from, pm.to, p, base1),
                            );
                        }
                        result = r;
                    },
                    None => {},
                }
                let ghost r1 = rewrite_or(pm.from, pm.to, p, base1);
                assert(same_expr(result, r1));
                if !is_commutative(target) {
                    return result;
                }
                let swapped = swap_root(&partial);
                let ghost p2 = swap_operands(p);
                proof {
                    assert(*partial.expr is BinaryExpr);
                    let pb = (*partial.expr)->BinaryExpr_0;
                    let sb = (*p.expr)->BinaryExpr_0;
                    assert(same_expr(pb.lhs, sb.lhs) && same_expr(pb.rhs, sb.rhs));
                    lemma_same_expr_trans(swapped, swap_operands(partial), p2);
                    lemma_complexity_same(swapped, p2);
                    lemma_complexity_same(result, r1);
                }
                if complexity_capped(&swapped) < complexity_capped(&result) {
                    result = swapped.copy();
                    proof {
                        lemma_same_expr_trans(result, swapped, p2);
                    }
                }
                let ghost base2 = simpler(p2, r1);
                assert(same_expr(result, base2));
                let m2 = PatternMatch::<RcExpr>::match_rule(&pm.from, &swapped);
                let ghost mq2 = if m2 is Some {
                    Some(m2->0.view())
                } else {
                    None::<Map<Seq<char>, RcExpr>>
                };
                proof {
                    lemma_rewrite_or_same(*pm, swapped, p2, mq2);
                }
                match m2 {
                    Some(repls) => {
                        proof {
                            crate::evaluator_rules::pattern_match::lemma_match_names(
                                pm.from,
                                swapped,
                                repls.view(),
                            );
                        }
                        let r = repls.transform(&pm.to);
                        proof {
                            lemma_same_expr_trans(
                                r,
                                subst_expr(pm.to, repls.view()),
                                rewrite_or(pm.from, pm.to, p2, base2),
                            );
                        }
                        result = r;
                    },
                    None => {},
                }
                result
            },
            Rule::Evaluate(f) => {
                proof {
                    lemma_fn_rule_same(*f, partial, p);
                }
                match f.apply(&partial) {
                    Some(x) => {
                        proof {
                            lemma_same_expr_trans(x, f.spec_apply(partial)->0, f.spec_apply(p)->0);
                        }
                        x
                    },
                    None => partial,
                }
            },
        }
    }
}

/// Whether `e` is a sum or a product.
fn is_commutative(e: &RcExpr) -> (r: bool)
    ensures
        r == is_commutative_node(*e),
{
    match &*e.expr {
        Expr::BinaryExpr(b) => match b.op {
            BinaryOperator::Plus | BinaryOperator::Mult => true,
            _ => false,
        },
        _ => false,
    }
}

/// Applying a rule to trees that are the same gives trees that are the same.
pub proof fn lemma_apply_rule_same(rule: Rule, a: RcExpr, b: RcExpr)
    requires
        expr_rule_wf(rule),
        same_expr(a, b),
    ensures
        same_expr(apply_rule(rule, a), apply_rule(rule, b)),
    decreases a,
{
    let pa = apply_children(rule, a);
    let pb = apply_children(rule, b);
    match (*a.expr, *b.expr) {
        (Expr::BinaryExpr(x), Expr::BinaryExpr(y)) => {
            lemma_apply_rule_same(rule, x.lhs, y.lhs);
            lemma_apply_rule_same(rule, x.rhs, y.rhs);
        },
        (Expr::UnaryExpr(x), Expr::UnaryExpr(y)) => {
            lemma_apply_rule_same(rule, x.rhs, y.rhs);
        },
        (Expr::Parend(x), Expr::Parend(y)) => {
            lemma_apply_rule_same(rule, x, y);
        },
        (Expr::Bracketed(x), Expr::Bracketed(y)) => {
            lemma_apply_rule_same(rule, x, y);
        },
        _ => {},
    }
    assert(same_expr(pa, pb));
    match rule {
        Rule::PatternMap(pm) => {
            lemma_complexity_same(pa, pb);
            lemma_complexity_same(a, b);
            let r1a = rewrite_or(pm.from, pm.to, pa, simpler(pa, a));
            let r1b = rewrite_or(pm.from, pm.to, pb, simpler(pb, b));
            lemma_rewrite_or_congruent(pm, pa, pb, simpler(pa, a), simpler(pb, b));
            if is_commutative_node(a) {
                let p2a = swap_operands(pa);
                let p2b = swap_operands(pb);
                assert(same_expr(p2a, p2b));
                lemma_complexity_same(p2a, p2b);
                lemma_complexity_same(r1a, r1b);
                lemma_rewrite_or_congruent(pm, p2a, p2b, simpler(p2a, r1a), simpler(p2b, r1b));
            }
        },
        Rule::Evaluate(f) => {
            lemma_fn_rule_same(f, pa, pb);
        },
    }
}

/// Rewriting respects trees that are the same, for the rewritten form and the fallback alike.
proof fn lemma_rewrite_or_congruent(pm: PatternMap, p: RcExpr, q: RcExpr, fp: RcExpr, fq: RcExpr)
    requires
        pm.resolved(),
        same_expr(p, q),
        same_expr(fp, fq),
    ensures
        same_expr(rewrite_or(pm.from, pm.to, p, fp), rewrite_or(pm.from, pm.to, q, fq)),
{
    lemma_same_expr_sym(p, q);
    if exists|m: Map<Seq<char>, RcExpr>| matches_expr(pm.from, p, m) {
        let mp = choose|m: Map<Seq<char>, RcExpr>| matches_expr(pm.from, p, m);
        lemma_rewrite_or_same(pm, p, q, Some(mp));
    } else {
        lemma_rewrite_or_same(pm, p, q, None);
    }
}

/// One round of evaluation: every rule of `rules` applied in turn.
pub open spec fn apply_rules(rules: Seq<Rule>, e: RcExpr) -> RcExpr
    decreases rules.len(),
{
    if rules.len() == 0 {
        e
    } else {
        apply_rule(rules.last(), apply_rules(rules.drop_last(), e))
    }
}

/// `n` rounds of evaluation of `e`.
pub open spec fn apply_rounds(rules: Seq<Rule>, e: RcExpr, n: nat) -> RcExpr
    decreases n,
{
    if n == 0 {
        e
    } else {
        apply_rules(rules, apply_rounds(rules, e, (n - 1) as nat))
    }
}

/// Every rule can rewrite expressions.
pub open spec fn rules_wf(rules: Seq<Rule>) -> bool {
    forall|i: int| 0 <= i < rules.len() ==> expr_rule_wf(#[trigger] rules[i])
}

/// A round of evaluation respects trees that are the same.
pub proof fn lemma_apply_rules_same(rules: Seq<Rule>, a: RcExpr, b: RcExpr)
    requires
        rules_wf(rules),
        same_expr(a, b),
    ensures
        same_expr(apply_rules(rules, a), apply_rules(rules, b)),
    decreases rules.len(),
{
    if rules.len() > 0 {
        assert(rules_wf(rules.drop_last()));
        lemma_apply_rules_same(rules.drop_last(), a, b);
        assert(expr_rule_wf(rules[rules.len() - 1]));
        lemma_apply_rule_same(
            rules.last(),
            apply_rules(rules.drop_last(), a),
            apply_rules(rules.drop_last(), b),
        );
    }
}

/// Applies every rule of `rules` in turn to `e`.
pub fn apply_all(rules: &Vec<Rule>, e: &RcExpr) -> (r: RcExpr)
    requires
        rules_wf(rules@),
    ensures
        same_expr(r, apply_rules(rules@, *e)),
{
    let mut cur = e.copy();
    let mut i: usize = 0;
    assert(rules@.take(0) =~= Seq::<Rule>::empty());
    proof {
        lemma_same_expr_sym(cur, *e);
        lemma_same_expr_refl(*e);
        lemma_same_expr_trans(cur, *e, *e);
    }
    while i < rules.len()
        invariant
            i <= rules@.len(),
            rules_wf(rules@),
            same_expr(cur, apply_rules(rules@.take(i as int), *e)),
        decreases rules@.len() - i,
    {
        let ghost prev = apply_rules(rules@.take(i as int), *e);
        assert(expr_rule_wf(rules@[i as int]));
        let next = rules[i].transform_expr(&cur);
        proof {
            let t = rules@.take(i + 1);
            assert(t.drop_last() =~= rules@.take(i as int));
            assert(t.last() == rules@[i as int]);
            lemma_apply_rule_same(rules@[i as int], cur, prev);
            lemma_same_expr_trans(next, apply_rule(rules@[i as int], cur), apply_rule(rules@[i as int], prev));
        }
        cur = next;
        i = i + 1;
    }
    assert(rules@.take(i as int) =~= rules@);
    cur
}

/// Evaluates `e` with `rules` to a fixed point: rounds that apply every rule in turn repeat
/// until a round leaves the expression the same tree, which is returned. `None` when no
/// fixed point is reached within `max_rounds` rounds.
pub fn evaluate_expr(e: &RcExpr, rules: &Vec<Rule>, max_rounds: usize) -> (r: Option<RcExpr>)
    requires
        rules_wf(rules@),
    ensures
        r matches Some(x) ==> same_expr(apply_rules(rules@, x), x),
        r matches Some(x) ==> exists|n: nat| n <= max_rounds && same_expr(
            x,
            #[trigger] apply_rounds(rules@, *e, n),
        ),
        r is None ==> forall|n: nat| n < max_rounds ==> !same_expr(
            apply_rules(rules@, apply_rounds(rules@, *e, n)),
            apply_rounds(rules@, *e, n),
        ),
{
    let mut cur = e.copy();
    let mut n: usize = 0;
    proof {
        lemma_same_expr_refl(*e);
        assert(apply_rounds(rules@, *e, 0) == *e);
    }
    while n < max_rounds
        invariant
            n <= max_rounds,
            rules_wf(rules@),
            same_expr(cur, apply_rounds(rules@, *e, n as nat)),
            forall|j: nat| j < n ==> !same_expr(
                apply_rules(rules@, apply_rounds(rules@, *e, j)),
                apply_rounds(rules@, *e, j),
            ),
        decreases max_rounds - n,
    {
        let ghost s = apply_rounds(rules@, *e, n as nat);
        let next = apply_all(rules, &cur);
        proof {
            lemma_apply_rules_same(rules@, cur, s);
            lemma_same_expr_trans(next, apply_rules(rules@, cur), apply_rules(rules@, s));
            assert(apply_rounds(rules@, *e, (n + 1) as nat) == apply_rules(rules@, s));
        }
        if next.same(&cur) {
            proof {
                // `cur` is a fixed point: its round is the same tree as itself
                lemma_same_expr_sym(next, apply_rules(rules@, cur));
                lemma_same_expr_trans(apply_rules(rules@, cur), next, cur);
                assert(same_expr(cur, apply_rounds(rules@, *e, n as nat)));
            }
            return Some(cur);
        }
        proof {
            // `next` differs from `cur`, so the round at `n` is not a fixed point
            if same_expr(apply_rules(rules@, s), s) {
                lemma_same_expr_sym(cur, s);
                lemma_same_expr_trans(next, apply_rules(rules@, s), s);
                lemma_same_expr_trans(next, s, cur);
            }
            assert forall|j: nat| j < n + 1 implies !same_expr(
                apply_rules(rules@, apply_rounds(rules@, *e, j)),
                apply_rounds(rules@, *e, j),
            ) by {
                if j == n {
                    assert(apply_rounds(rules@, *e, j) == s);
                }
            }
        }
        cur = next;
        n = n + 1;
    }
    None
}

/// The rules of `s` that can rewrite expressions, in order.
pub open spec fn usable(s: Seq<Rule>) -> Seq<Rule>
    decreases s.len(),
{
    if s.len() == 0 {
        Seq::empty()
    } else {
        usable(s.drop_last()) + if expr_rule_wf(s.last()) {
            seq![s.last()]
        } else {
            Seq::empty()
        }
    }
}

/// The usable rules are usable.
proof fn lemma_usable_wf(s: Seq<Rule>)
    ensures
        rules_wf(usable(s)),
    decreases s.len(),
{
    if s.len() > 0 {
        lemma_usable_wf(s.drop_last());
        let u = usable(s.drop_last());
        let w = usable(s);
        assert forall|i: int| 0 <= i < w.len() implies expr_rule_wf(#[trigger] w[i]) by {
            if i < u.len() {
                assert(w[i] == u[i]);
            }
        }
    }
}

/// Keeps the rules that can rewrite expressions: a mapping whose target names a pattern that
/// its source lacks is dropped.
pub fn keep_usable(rules: Vec<Rule>) -> (r: Vec<Rule>)
    ensures
        r@ == usable(rules@),
        rules_wf(r@),
{
    let ghost all = rules@;
    let n = rules.len();
    let mut rest = rules;
    let mut out: Vec<Rule> = Vec::new();
    let mut k: usize = 0;
    assert(all.take(0) =~= Seq::<Rule>::empty());
    assert(all.skip(0) =~= all);
    while rest.len() > 0
        invariant
            k <= all.len(),
            all.len() == n,
            rest@ == all.skip(k as int),
            out@ == usable(all.take(k as int)),
        decreases rest@.len(),
    {
        let rule = rest.remove(0);
        let ok = match &rule {
            Rule::PatternMap(pm) => pm.validate().is_ok(),
            Rule::Evaluate(_) => true,
        };
        proof {
            let t = all.take(k + 1);
            assert(t.drop_last() =~= all.take(k as int));
            assert(rule == all[k as int]);
            assert(t.last() == all[k as int]);
        }
        if ok {
            out.push(rule);
        }
        proof {
            assert(rest@ =~= all.skip(k + 1));
            assert(out@ =~= usable(all.take(k + 1)));
        }
        k = k + 1;
    }
    assert(all.take(k as int) =~= all);
    proof {
        lemma_usable_wf(all);
    }
    out
}

/// `x` is `e` evaluated with `rules` within `max_rounds` rounds: a fixed point reached from
/// `e`, or `e` itself when no round up to then reaches one.
pub open spec fn evaluated_to(rules: Seq<Rule>, e: RcExpr, x: RcExpr, max_rounds: nat) -> bool {
    ||| (same_expr(apply_rules(rules, x), x) && exists|n: nat| n <= max_rounds && same_expr(
        x,
        #[trigger] apply_rounds(rules, e, n),
    ))
    ||| (same_expr(x, e) && forall|n: nat| n < max_rounds ==> !same_expr(
        apply_rules(rules, #[trigger] apply_rounds(rules, e, n)),
        apply_rounds(rules, e, n),
    ))
}

/// Evaluates `e` to a fixed point, or keeps it when none is reached within `max_rounds`.
fn evaluate_or_keep(e: RcExpr, rules: &Vec<Rule>, max_rounds: usize) -> (r: RcExpr)
    requires
        rules_wf(rules@),
    ensures
        evaluated_to(rules@, e, r, max_rounds as nat),
{
    match evaluate_expr(&e, rules, max_rounds) {
        Some(x) => x,
        None => {
            proof {
                lemma_same_expr_refl(e);
            }
            e
        },
    }
}

/// `b` is the statement `a` with its expression (the right side of an assignment) evaluated.
pub open spec fn stmt_evaluated(rules: Seq<Rule>, a: Stmt, b: Stmt, max_rounds: nat) -> bool {
    &&& b.vw == a.vw
    &&& match (a.kind, b.kind) {
        (StmtKind::Expr(e), StmtKind::Expr(x)) => evaluated_to(rules, e, x, max_rounds),
        (StmtKind::Assignment(p), StmtKind::Assignment(q)) => q.lhs == p.lhs && q.asgn_op
            == p.asgn_op && q.span == p.span && evaluated_to(rules, p.rhs, q.rhs, max_rounds),
        _ => false,
    }
}

/// Evaluates a list of statements to as simplified a form as possible: each expression (the
/// right side of each assignment) is evaluated with `rules` to a fixed point, or kept as it
/// is when none is reached within `max_rounds` rounds.
pub fn evaluate(stmts: StmtList, rules: &Vec<Rule>, max_rounds: usize) -> (r: StmtList)
    requires
        rules_wf(rules@),
    ensures
        r.stmts().len() == stmts.stmts().len(),
        forall|i: int|
            0 <= i < r.stmts().len() ==> stmt_evaluated(
                rules@,
                stmts.stmts()[i],
                #[trigger] r.stmts()[i],
                max_rounds as nat,
            ),
{
    let ghost orig = stmts.stmts();
    let n = stmts.len();
    let list = stmts.into_vec();
    let mut rest = list;
    let mut out: Vec<Stmt> = Vec::new();
    let mut k: usize = 0;
    assert(orig.skip(0) =~= orig);
    while rest.len() > 0
        invariant
            k <= orig.len(),
            orig.len() == n,
            rest@ == orig.skip(k as int),
            out@.len() == k,
            rules_wf(rules@),
            forall|i: int|
                0 <= i < k ==> stmt_evaluated(rules@, orig[i], #[trigger] out@[i], max_rounds as nat),
        decreases rest@.len(),
    {
        let stmt = rest.remove(0);
        assert(stmt == orig[k as int]);
        let vw = stmt.vw;
        let kind = match stmt.kind {
            StmtKind::Expr(e) => StmtKind::Expr(evaluate_or_keep(e, rules, max_rounds)),
            StmtKind::Assignment(a) => {
                let Assignment { lhs, asgn_op, rhs, span } = a;
                StmtKind::Assignment(
                    Assignment { lhs, asgn_op, rhs: evaluate_or_keep(rhs, rules, max_rounds), span },
                )
            },
        };
        out.push(Stmt::new(kind, vw));
        proof {
            assert(rest@ =~= orig.skip(k + 1));
        }
        k = k + 1;
    }
    StmtList::new(out)
}

/// A string rule is tried on a sum or a product with its rewritten operands exchanged too: when
/// the rule's source matches that exchanged form, the result is the rule's rewrite of it,
/// whatever the form with the operands in place gives.
pub proof fn law_commuted_form_tried(
    pm: PatternMap,
    t: RcExpr,
    op: BinaryOperator,
    l: RcExpr,
    r: RcExpr,
)
    requires
        *t.expr == Expr::BinaryExpr(BinaryExpr { op, lhs: l, rhs: r }),
        op == BinaryOperator::Plus || op == BinaryOperator::Mult,
    ensures
        ({
            let rule = Rule::PatternMap(pm);
            let q = RcExpr {
                expr: Box::new(
                    Expr::BinaryExpr(
                        BinaryExpr { op, lhs: apply_rule(rule, r), rhs: apply_rule(rule, l) },
                    ),
                ),
                span: t.span,
            };
            (exists|m: Map<Seq<char>, RcExpr>| matches_expr(pm.from, q, m)) ==> apply_rule(rule, t)
                == subst_expr(pm.to, choose|m: Map<Seq<char>, RcExpr>| matches_expr(pm.from, q, m))
        }),
{
    let rule = Rule::PatternMap(pm);
    let p = apply_children(rule, t);
    assert(is_commutative_node(t));
    assert(swap_operands(p) == RcExpr {
        expr: Box::new(
            Expr::BinaryExpr(BinaryExpr { op, lhs: apply_rule(rule, r), rhs: apply_rule(rule, l) }),
        ),
        span: t.span,
    });
}

} // verus!
