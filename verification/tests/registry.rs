use libslide::common::Span;
use libslide::evaluator_rules::fn_rules::FnRule;
use libslide::evaluator_rules::registry::{RuleName, RuleSet, UnbuiltRule};
use libslide::evaluator_rules::rule::PatternMap;
use libslide::grammar::expression_pattern::{ExprPat, RcExprPat};
use libslide::grammar::BinaryExpr;
use libslide::grammar::BinaryOperator::{Minus, Plus};
use libslide::grammar::Rational;

fn sp(lo: usize, hi: usize) -> Span {
    Span { lo, hi }
}

fn any(name: &str, lo: usize) -> RcExprPat {
    RcExprPat::new(ExprPat::AnyPat(name.to_string()), sp(lo, lo + name.len()))
}

fn var(name: &str, lo: usize) -> RcExprPat {
    RcExprPat::new(ExprPat::VarPat(name.to_string()), sp(lo, lo + name.len()))
}

fn zero(lo: usize) -> RcExprPat {
    RcExprPat::new(ExprPat::Const(Rational::from_int(0)), sp(lo, lo + 1))
}

#[test]
fn builds_rules() {
    let rule_set = RuleSet::default_rules();
    let built_rules = rule_set.build().unwrap();

    assert!(built_rules
        .into_iter()
        .any(|s| s.to_string() == "_a + 0 -> _a"));
}

#[test]
fn fail_build_rules() {
    let mut rule_set = RuleSet::default_rules();
    // "_a -> _b"
    rule_set.insert_custom(UnbuiltRule::S(PatternMap { from: any("_a", 0), to: any("_b", 0) }));
    // "$a -> $a - _c"
    let to = RcExprPat::new(
        ExprPat::BinaryExpr(BinaryExpr { op: Minus, lhs: var("$a", 0), rhs: any("_c", 5) }),
        sp(0, 7),
    );
    rule_set.insert_custom(UnbuiltRule::S(PatternMap { from: var("$a", 0), to }));
    let err = rule_set.build().expect_err("");

    assert_eq!(
        err.to_string(),
        r##"Failed to build rules with 2 errors.
    (1) Could not resolve pattern map
        "_a -> _b"
    Specifically, source "_a" is missing pattern(s) "_b" present in target "_b"
    (2) Could not resolve pattern map
        "$a -> $a - _c"
    Specifically, source "$a" is missing pattern(s) "_c" present in target "$a - _c""##
    );
}

#[test]
fn build_orders_named_then_custom_rules() {
    let mut rule_set = RuleSet::new();
    rule_set.insert_custom(UnbuiltRule::F(FnRule::Negate));
    rule_set.insert(RuleName::Subtract, UnbuiltRule::F(FnRule::Subtract));
    // "_a + 0 -> _a", bootstrapped then raw
    let from = RcExprPat::new(
        ExprPat::BinaryExpr(BinaryExpr { op: Plus, lhs: any("_a", 0), rhs: zero(5) }),
        sp(0, 6),
    );
    rule_set.insert(RuleName::AdditiveIdentity, UnbuiltRule::S(PatternMap { from, to: any("_a", 0) }));
    let built: Vec<String> = rule_set.build().unwrap().iter().map(|r| r.to_string()).collect();
    assert_eq!(built, vec!["subtract", "_a + 0 -> _a", "_a + 0 -> _a", "negate"]);
}

#[test]
fn blacklisted_rules_are_not_bootstrapped() {
    let mut rule_set = RuleSet::new();
    let from = RcExprPat::new(ExprPat::Parend(any("_a", 1)), sp(0, 4));
    rule_set.insert(RuleName::UnwrapExplicitParens, UnbuiltRule::S(PatternMap { from, to: any("_a", 0) }));
    let built = rule_set.build().unwrap();
    assert_eq!(built.len(), 1);
    assert_eq!(built[0].to_string(), "(_a) -> _a");
}

#[test]
fn removed_rule_is_not_built() {
    let mut rule_set = RuleSet::new();
    rule_set.insert(RuleName::Subtract, UnbuiltRule::F(FnRule::Subtract));
    rule_set.insert(RuleName::Negate, UnbuiltRule::F(FnRule::Negate));
    rule_set.remove(RuleName::Subtract);
    let built: Vec<String> = rule_set.build().unwrap().iter().map(|r| r.to_string()).collect();
    assert_eq!(built, vec!["negate"]);
}
