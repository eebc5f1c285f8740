use libslide::common::Span;
use libslide::evaluator_rules::pattern_match::{MatchRule, PatternMatch};
use libslide::evaluator_rules::rule::{PatternMap, Rule};
use libslide::grammar::collectors;
use libslide::grammar::expression_pattern::{ExprPat, RcExprPat};
use libslide::grammar::statement::{Expr, RcExpr};
use libslide::grammar::BinaryOperator::{Div, Exp, Minus, Mult, Plus};
use libslide::grammar::{BinaryExpr, BinaryOperator, Rational, UnaryExpr, UnaryOperator};

fn sp() -> Span {
    Span { lo: 0, hi: 0 }
}

fn k(n: i64) -> RcExpr {
    RcExpr::new(Expr::Const(Rational::from_int(n)), sp())
}

fn v(name: &str) -> RcExpr {
    RcExpr::new(Expr::Var(name.to_string()), sp())
}

fn bin(op: BinaryOperator, lhs: RcExpr, rhs: RcExpr) -> RcExpr {
    RcExpr::new(Expr::BinaryExpr(BinaryExpr { op, lhs, rhs }), sp())
}

fn un(op: UnaryOperator, rhs: RcExpr) -> RcExpr {
    RcExpr::new(Expr::UnaryExpr(UnaryExpr { op, rhs }), sp())
}

fn paren(e: RcExpr) -> RcExpr {
    RcExpr::new(Expr::Parend(e), sp())
}

fn bracket(e: RcExpr) -> RcExpr {
    RcExpr::new(Expr::Bracketed(e), sp())
}

fn pk(n: i64) -> RcExprPat {
    RcExprPat::new(ExprPat::Const(Rational::from_int(n)), sp())
}

/// A pattern variable, kind chosen by its sigil.
fn pv(name: &str) -> RcExprPat {
    let p = match name.chars().next() {
        Some('$') => ExprPat::VarPat(name.to_string()),
        Some('#') => ExprPat::ConstPat(name.to_string()),
        _ => ExprPat::AnyPat(name.to_string()),
    };
    RcExprPat::new(p, sp())
}

fn pbin(op: BinaryOperator, lhs: RcExprPat, rhs: RcExprPat) -> RcExprPat {
    RcExprPat::new(ExprPat::BinaryExpr(BinaryExpr { op, lhs, rhs }), sp())
}

fn pun(op: UnaryOperator, rhs: RcExprPat) -> RcExprPat {
    RcExprPat::new(ExprPat::UnaryExpr(UnaryExpr { op, rhs }), sp())
}

fn pparen(e: RcExprPat) -> RcExprPat {
    RcExprPat::new(ExprPat::Parend(e), sp())
}

fn pbracket(e: RcExprPat) -> RcExprPat {
    RcExprPat::new(ExprPat::Bracketed(e), sp())
}

fn expect(repls: Option<PatternMatch<RcExpr>>, expected: &[(&str, RcExpr)]) {
    let repls = repls.expect("rule should match");
    assert_eq!(repls.len(), expected.len());
    for (name, e) in expected {
        assert!(repls.get(&name.to_string()).unwrap().same(e), "{}", name);
    }
}

#[test]
fn pattern_match_try_merge() {
    let a = pv("$a");
    let b = pv("$b");
    let c = pv("$c");

    let mut left: PatternMatch<RcExpr> = PatternMatch::empty();
    left.insert(&a, k(1));
    left.insert(&b, k(2));

    let mut right: PatternMatch<RcExpr> = PatternMatch::empty();
    right.insert(&b, k(2));
    right.insert(&c, k(3));

    let merged = PatternMatch::try_merge(left, right).unwrap();
    assert_eq!(merged.len(), 3);
    assert!(merged.get(&"$a".to_string()).unwrap().same(&k(1)));
    assert!(merged.get(&"$b".to_string()).unwrap().same(&k(2)));
    assert!(merged.get(&"$c".to_string()).unwrap().same(&k(3)));
}

#[test]
fn pattern_match_try_merge_overlapping_non_matching() {
    let a = pv("$a");

    let mut left: PatternMatch<RcExpr> = PatternMatch::empty();
    left.insert(&a, k(1));

    let mut right: PatternMatch<RcExpr> = PatternMatch::empty();
    right.insert(&a, k(2));

    let merged = PatternMatch::try_merge(left, right);
    assert!(merged.is_none());
}

#[test]
fn match_rule_leaves() {
    expect(PatternMatch::match_rule(&pk(0), &k(0)), &[]);
    assert!(PatternMatch::match_rule(&pk(0), &k(1)).is_none());

    expect(PatternMatch::match_rule(&pv("$a"), &v("x")), &[("$a", v("x"))]);
    assert!(PatternMatch::match_rule(&pv("$a"), &k(0)).is_none());
    assert!(PatternMatch::match_rule(&pv("$a"), &bin(Plus, v("x"), k(0))).is_none());
    assert!(PatternMatch::match_rule(&pv("$a"), &un(UnaryOperator::SignPositive, v("x"))).is_none());

    expect(PatternMatch::match_rule(&pv("#a"), &k(1)), &[("#a", k(1))]);
    assert!(PatternMatch::match_rule(&pv("#a"), &v("x")).is_none());
    assert!(PatternMatch::match_rule(&pv("#a"), &bin(Plus, k(1), v("x"))).is_none());

    expect(PatternMatch::match_rule(&pv("_a"), &v("x")), &[("_a", v("x"))]);
    expect(PatternMatch::match_rule(&pv("_a"), &k(1)), &[("_a", k(1))]);
    expect(
        PatternMatch::match_rule(&pv("_a"), &bin(Plus, k(1), v("x"))),
        &[("_a", bin(Plus, k(1), v("x")))],
    );
}

#[test]
fn match_rule_compound() {
    let rule = pbin(Plus, pv("$a"), pv("#b"));
    expect(
        PatternMatch::match_rule(&rule, &bin(Plus, v("x"), k(0))),
        &[("$a", v("x")), ("#b", k(0))],
    );
    assert!(PatternMatch::match_rule(&rule, &bin(Minus, v("x"), k(0))).is_none());
    assert!(PatternMatch::match_rule(&rule, &bin(Plus, v("x"), v("y"))).is_none());

    let unary = pun(UnaryOperator::SignPositive, pv("$a"));
    expect(
        PatternMatch::match_rule(&unary, &un(UnaryOperator::SignPositive, v("x"))),
        &[("$a", v("x"))],
    );
    assert!(PatternMatch::match_rule(&unary, &un(UnaryOperator::SignNegative, v("x"))).is_none());
    assert!(PatternMatch::match_rule(&unary, &un(UnaryOperator::SignPositive, k(1))).is_none());

    let parend = pparen(pbin(Plus, pv("$a"), pv("#b")));
    expect(
        PatternMatch::match_rule(&parend, &paren(bin(Plus, v("x"), k(0)))),
        &[("$a", v("x")), ("#b", k(0))],
    );
    assert!(PatternMatch::match_rule(&parend, &bracket(bin(Plus, v("x"), k(0)))).is_none());
    let bracketed = pbracket(pbin(Plus, pv("$a"), pv("#b")));
    assert!(PatternMatch::match_rule(&bracketed, &paren(bin(Plus, v("x"), k(0)))).is_none());
}

#[test]
fn repeated_pattern_must_match_the_same_expression() {
    let rule = pbin(Minus, pv("_a"), pv("_a"));
    expect(
        PatternMatch::match_rule(&rule, &bin(Minus, bin(Plus, v("x"), k(1)), bin(Plus, v("x"), k(1)))),
        &[("_a", bin(Plus, v("x"), k(1)))],
    );
    assert!(PatternMatch::match_rule(&rule, &bin(Minus, v("x"), v("y"))).is_none());
}

#[test]
fn documented_pattern_examples_match() {
    // `1 + #a` matches `1 + 5/2`
    expect(
        PatternMatch::match_rule(&pbin(Plus, pk(1), pv("#a")), &bin(Plus, k(1), RcExpr::new(Expr::Const(Rational { num: 5, den: 2 }), sp()))),
        &[("#a", RcExpr::new(Expr::Const(Rational { num: 5, den: 2 }), sp()))],
    );
    // `#a + $a` matches `10 + v`
    expect(
        PatternMatch::match_rule(&pbin(Plus, pv("#a"), pv("$a")), &bin(Plus, k(10), v("v"))),
        &[("#a", k(10)), ("$a", v("v"))],
    );
    // `_a / $a * _a` matches `(9 + 1) / v * (9 + 1)`
    let nine_one = || paren(bin(Plus, k(9), k(1)));
    expect(
        PatternMatch::match_rule(
            &pbin(Mult, pbin(Div, pv("_a"), pv("$a")), pv("_a")),
            &bin(Mult, bin(Div, nine_one(), v("v")), nine_one()),
        ),
        &[("_a", nine_one()), ("$a", v("v"))],
    );
    // `_a + _b * $c * #d` matches `(x ^ 2) + (5 / y) * w * 15`
    expect(
        PatternMatch::match_rule(
            &pbin(Plus, pv("_a"), pbin(Mult, pbin(Mult, pv("_b"), pv("$c")), pv("#d"))),
            &bin(
                Plus,
                paren(bin(Exp, v("x"), k(2))),
                bin(Mult, bin(Mult, paren(bin(Div, k(5), v("y"))), v("w")), k(15)),
            ),
        ),
        &[
            ("_a", paren(bin(Exp, v("x"), k(2)))),
            ("_b", paren(bin(Div, k(5), v("y")))),
            ("$c", v("w")),
            ("#d", k(15)),
        ],
    );
}

#[test]
fn transform_substitutes_replacements() {
    let from = pbin(Plus, pv("$a"), pk(0));
    let target = bin(Plus, v("x"), k(0));
    let repls = PatternMatch::match_rule(&from, &target).unwrap();
    // substituting into the matched rule gives back the target
    assert!(repls.transform(&from).same(&target));
    // and into another pattern builds the rewritten expression
    let to = pbin(Mult, pv("$a"), pv("$a"));
    assert!(repls.transform(&to).same(&bin(Mult, v("x"), v("x"))));
}

#[test]
fn collect_pat_names() {
    // $a + _b * (#c - [$d]) / $a
    let parsed = pbin(
        Plus,
        pv("$a"),
        pbin(
            Div,
            pbin(Mult, pv("_b"), pparen(pbin(Minus, pv("#c"), pbracket(pv("$d"))))),
            pv("$a"),
        ),
    );
    let mut pats: Vec<String> = collectors::collect_pat_names(&parsed);
    pats.sort_by(|a, b| a.as_bytes()[1].cmp(&b.as_bytes()[1]));
    assert_eq!(pats, vec!["$a", "_b", "#c", "$d"]);
}

#[test]
fn validate_ok() {
    // _a + $b / #c -> _a + $b
    let map = PatternMap {
        from: pbin(Plus, pv("_a"), pbin(Div, pv("$b"), pv("#c"))),
        to: pbin(Plus, pv("_a"), pv("$b")),
    };
    assert!(map.validate().is_ok());
}

#[test]
fn validate_error() {
    // _a + $b / #c * 3 -> 1 + $b * #e / _f
    let map = PatternMap {
        from: pbin(Plus, pv("_a"), pbin(Mult, pbin(Div, pv("$b"), pv("#c")), pk(3))),
        to: pbin(Plus, pk(1), pbin(Div, pbin(Mult, pv("$b"), pv("#e")), pv("_f"))),
    };
    let err = map.validate().unwrap_err();
    let mut missing = err.unresolved_pats.clone();
    missing.sort();
    assert_eq!(missing, vec!["#e", "_f"]);
    assert_eq!(
        err.to_string(),
        r##"Could not resolve pattern map
    "_a + $b / #c * 3 -> 1 + $b * #e / _f"
Specifically, source "_a + $b / #c * 3" is missing pattern(s) "#e", "_f" present in target "1 + $b * #e / _f""##
    );
}

#[test]
fn pattern_map_bootstrap_rewrites_both_sides() {
    // -(_a - _b) -> _b - _a, bootstrapped with (_x) -> _x
    let unwrap = Rule::PatternMap(PatternMap { from: pparen(pv("_x")), to: pv("_x") });
    let map = PatternMap {
        from: pun(UnaryOperator::SignNegative, pparen(pbin(Minus, pv("_a"), pv("_b")))),
        to: pbin(Minus, pv("_b"), pv("_a")),
    };
    let boot = map.bootstrap(&vec![unwrap]);
    assert!(boot.from.same(&pun(UnaryOperator::SignNegative, pbin(Minus, pv("_a"), pv("_b")))));
    assert!(boot.to.same(&pbin(Minus, pv("_b"), pv("_a"))));
    assert_eq!(boot.to_string(), "-(_a - _b) -> _b - _a");
    let identity = Rule::PatternMap(PatternMap { from: pbin(Plus, pv("_a"), pk(0)), to: pv("_a") });
    assert_eq!(identity.to_string(), "_a + 0 -> _a");
    // no rules: nothing changes
    let same = map.bootstrap(&vec![]);
    assert!(same.from.same(&map.from));
}

#[test]
fn rule_bootstraps_patterns() {
    // (_a) -> _a unwraps parentheses throughout a pattern
    let unwrap = Rule::PatternMap(PatternMap { from: pparen(pv("_a")), to: pv("_a") });
    let target = pun(UnaryOperator::SignNegative, pparen(pbin(Minus, pv("_a"), pv("_b"))));
    let expected = pun(UnaryOperator::SignNegative, pbin(Minus, pv("_a"), pv("_b")));
    assert!(unwrap.transform(&target).same(&expected));
    // no match leaves the pattern as it is
    let plain = pbin(Plus, pv("$x"), pk(2));
    assert!(unwrap.transform(&plain).same(&plain));
}
