use libslide::common::Span;
use libslide::emit::EmitConfig;
use libslide::evaluator_rules::apply::{evaluate, keep_usable};
use libslide::evaluator_rules::registry::{RuleName, RuleSet};
use libslide::evaluator_rules::rule::Rule;
use libslide::grammar::statement::{Expr, RcExpr, Stmt, StmtKind, StmtList};
use libslide::grammar::BinaryOperator::{Div, Minus, Mult, Plus};
use libslide::grammar::{BinaryExpr, BinaryOperator, Rational};

fn k(n: i64) -> RcExpr {
    RcExpr::new(Expr::Const(Rational::from_int(n)), Span { lo: 0, hi: 1 })
}

fn v(name: &str) -> RcExpr {
    RcExpr::new(Expr::Var(name.to_string()), Span { lo: 0, hi: 1 })
}

fn bin(op: BinaryOperator, lhs: RcExpr, rhs: RcExpr) -> RcExpr {
    let span = Span { lo: lhs.span.lo, hi: rhs.span.hi };
    RcExpr::new(Expr::BinaryExpr(BinaryExpr { op, lhs, rhs }), span)
}

fn rules_without(denied: &[RuleName]) -> Vec<Rule> {
    let mut rule_set = RuleSet::default_rules();
    for r in denied {
        rule_set.remove(*r);
    }
    keep_usable(rule_set.build().unwrap())
}

fn eval_text(e: RcExpr, denied: &[RuleName]) -> String {
    let rules = rules_without(denied);
    let stmts = StmtList::new(vec![Stmt::new(StmtKind::Expr(e), 0)]);
    let evaluated = evaluate(stmts, &rules, 100);
    evaluated.get(0).emit_pretty(EmitConfig::default())
}

#[test]
fn remove_rule() {
    // "1 - 2 + 3 * 4" without the addition rule
    let parsed = bin(Plus, bin(Minus, k(1), k(2)), bin(Mult, k(3), k(4)));
    assert_eq!(eval_text(parsed, &[RuleName::Add]), "-1 + 12".to_string());
}

#[test]
fn evaluate_add() {
    assert_eq!(eval_text(bin(Plus, k(1), k(2)), &[]), "3");
}

#[test]
fn evaluate_add_nested_left() {
    assert_eq!(eval_text(bin(Plus, bin(Plus, k(1), k(2)), v("a")), &[]), "a + 3");
}

#[test]
fn evaluate_add_nested_with_reorder() {
    assert_eq!(eval_text(bin(Plus, bin(Plus, k(1), v("a")), k(2)), &[]), "a + 3");
}

#[test]
fn evaluate_sub() {
    assert_eq!(eval_text(bin(Minus, k(1), k(2)), &[]), "-1");
}

#[test]
fn evaluate_mult_nested_left() {
    assert_eq!(eval_text(bin(Mult, bin(Mult, k(2), k(3)), v("a")), &[]), "a * 6");
}

#[test]
fn evaluate_div() {
    assert_eq!(eval_text(bin(Div, k(6), k(2)), &[]), "3");
}

#[test]
fn evaluate_div_associated() {
    assert_eq!(eval_text(bin(Div, bin(Div, k(6), k(2)), k(3)), &[]), "1");
}
