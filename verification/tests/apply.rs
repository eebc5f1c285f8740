use libslide::common::Span;
use libslide::evaluator_rules::apply::{apply_all, evaluate_expr};
use libslide::evaluator_rules::fn_rules::FnRule;
use libslide::evaluator_rules::rule::{PatternMap, Rule};
use libslide::grammar::expression_pattern::{ExprPat, RcExprPat};
use libslide::grammar::statement::{Expr, RcExpr};
use libslide::grammar::BinaryOperator::{Minus, Mult, Plus};
use libslide::grammar::{BinaryExpr, BinaryOperator, Rational, UnaryExpr, UnaryOperator};

fn sp(lo: usize, hi: usize) -> Span {
    Span { lo, hi }
}

fn k(n: i64) -> RcExpr {
    RcExpr::new(Expr::Const(Rational::from_int(n)), sp(0, 1))
}

fn v(name: &str) -> RcExpr {
    RcExpr::new(Expr::Var(name.to_string()), sp(0, 1))
}

fn bin(op: BinaryOperator, lhs: RcExpr, rhs: RcExpr) -> RcExpr {
    RcExpr::new(Expr::BinaryExpr(BinaryExpr { op, lhs, rhs }), sp(0, 5))
}

fn paren(e: RcExpr) -> RcExpr {
    RcExpr::new(Expr::Parend(e), sp(0, 7))
}

fn pk(n: i64) -> RcExprPat {
    RcExprPat::new(ExprPat::Const(Rational::from_int(n)), sp(0, 1))
}

fn pany(name: &str) -> RcExprPat {
    RcExprPat::new(ExprPat::AnyPat(name.to_string()), sp(0, 2))
}

fn pbin(op: BinaryOperator, lhs: RcExprPat, rhs: RcExprPat) -> RcExprPat {
    RcExprPat::new(ExprPat::BinaryExpr(BinaryExpr { op, lhs, rhs }), sp(0, 6))
}

fn pparen(e: RcExprPat) -> RcExprPat {
    RcExprPat::new(ExprPat::Parend(e), sp(0, 4))
}

/// `_a + 0 -> _a`
fn additive_identity() -> Rule {
    Rule::PatternMap(PatternMap { from: pbin(Plus, pany("_a"), pk(0)), to: pany("_a") })
}

#[test]
fn string_rule_rewrites_matching_expression() {
    let r = additive_identity().transform_expr(&bin(Plus, v("x"), k(0)));
    assert!(r.same(&v("x")));
}

#[test]
fn string_rule_tries_commuted_form() {
    // `0 + x` matches `_a + 0` once its operands are exchanged
    let r = additive_identity().transform_expr(&bin(Plus, k(0), v("x")));
    assert!(r.same(&v("x")));
}

#[test]
fn string_rule_rewrites_parts_first() {
    let target = bin(Mult, paren(bin(Plus, v("x"), k(0))), v("y"));
    let r = additive_identity().transform_expr(&target);
    assert!(r.same(&bin(Mult, paren(v("x")), v("y"))));
}

#[test]
fn string_rule_without_match_keeps_expression() {
    let target = bin(Minus, v("x"), v("y"));
    let r = additive_identity().transform_expr(&target);
    assert!(r.same(&target));
    assert_eq!(r.span, target.span);
}

#[test]
fn unwrap_parens_rule() {
    // `(_a) -> _a`
    let rule = Rule::PatternMap(PatternMap { from: pparen(pany("_a")), to: pany("_a") });
    let r = rule.transform_expr(&paren(paren(v("x"))));
    assert!(r.same(&v("x")));
}

#[test]
fn evaluate_rule_folds_constants_bottom_up() {
    let rule = Rule::Evaluate(FnRule::Subtract);
    let r = rule.transform_expr(&bin(Minus, bin(Minus, k(5), k(3)), k(1)));
    assert!(r.same(&k(1)));
}

#[test]
fn evaluate_rule_that_does_not_apply() {
    let rule = Rule::Evaluate(FnRule::Subtract);
    let target = bin(Minus, v("x"), k(1));
    let r = rule.transform_expr(&target);
    assert!(r.same(&target));
}

#[test]
fn evaluate_posate() {
    let rule = Rule::Evaluate(FnRule::Posate);
    let target = RcExpr::new(
        Expr::UnaryExpr(UnaryExpr { op: UnaryOperator::SignPositive, rhs: v("x") }),
        sp(0, 2),
    );
    assert!(rule.transform_expr(&target).same(&v("x")));
}

#[test]
fn evaluate_divide_by_zero_does_not_apply() {
    let rule = Rule::Evaluate(FnRule::Divide);
    let target = bin(BinaryOperator::Div, k(1), k(0));
    assert!(rule.transform_expr(&target).same(&target));
}

#[test]
fn evaluation_rule_names() {
    assert_eq!(Rule::Evaluate(FnRule::Subtract).to_string(), "subtract");
    assert_eq!(Rule::Evaluate(FnRule::Exponentiate).to_string(), "exponentiate");
    assert_eq!(Rule::from_fn(FnRule::Add).to_string(), "add");
}

#[test]
fn evaluate_to_fixed_point() {
    let rules = vec![Rule::Evaluate(FnRule::Subtract), additive_identity()];
    // (5 - 3) + 0 -> 2 + 0 -> 2, which a second round leaves alone
    let target = bin(Plus, bin(Minus, k(5), k(3)), k(0));
    let r = evaluate_expr(&target, &rules, 5).expect("a fixed point is reached");
    assert!(r.same(&k(2)));
}

#[test]
fn evaluate_without_enough_rounds() {
    let rules = vec![Rule::Evaluate(FnRule::Subtract), additive_identity()];
    let target = bin(Plus, bin(Minus, k(5), k(3)), k(0));
    assert!(evaluate_expr(&target, &rules, 1).is_none());
    assert!(evaluate_expr(&k(7), &rules, 1).expect("already fixed").same(&k(7)));
}

#[test]
fn apply_all_rules_in_order() {
    let rules = vec![Rule::Evaluate(FnRule::Subtract), additive_identity()];
    let target = bin(Plus, k(0), bin(Minus, k(5), k(3)));
    assert!(apply_all(&rules, &target).same(&k(2)));
}

#[test]
fn add_rule_folds_constants_last() {
    // 1 + a + 2 -> a + 3
    let rule = Rule::from_fn(FnRule::Add);
    let r = rule.transform_expr(&bin(Plus, bin(Plus, k(1), v("a")), k(2)));
    assert!(r.same(&bin(Plus, v("a"), k(3))));
}

#[test]
fn multiply_rule_folds_constants() {
    let rule = Rule::from_fn(FnRule::Multiply);
    let r = rule.transform_expr(&bin(Mult, bin(Mult, k(2), k(3)), v("a")));
    assert!(r.same(&bin(Mult, v("a"), k(6))));
}
