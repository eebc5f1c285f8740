use libslide::common::Span;
use libslide::grammar::collectors;
use libslide::grammar::expression_pattern::{ExprPat, RcExprPat};
use libslide::grammar::order::compare_str;
use libslide::grammar::statement::{Expr, RcExpr};
use libslide::grammar::BinaryOperator::{Div, Exp, Mult, Plus};
use libslide::grammar::{BinaryExpr, BinaryOperator, Rational, UnaryExpr, UnaryOperator};
use std::cmp::Ordering;

fn sp() -> Span {
    Span { lo: 0, hi: 0 }
}

fn e(x: Expr) -> RcExpr {
    RcExpr::new(x, sp())
}

fn p(x: ExprPat) -> RcExprPat {
    RcExprPat::new(x, sp())
}

fn var(n: &str) -> RcExpr {
    e(Expr::Var(n.to_string()))
}

fn bin(op: BinaryOperator, lhs: RcExpr, rhs: RcExpr) -> RcExpr {
    e(Expr::BinaryExpr(BinaryExpr { op, lhs, rhs }))
}

fn pbin(op: BinaryOperator, lhs: RcExprPat, rhs: RcExprPat) -> RcExprPat {
    p(ExprPat::BinaryExpr(BinaryExpr { op, lhs, rhs }))
}

#[test]
fn strings_order_lexicographically() {
    assert_eq!(compare_str(&"a".to_string(), &"b".to_string()), Ordering::Less);
    assert_eq!(compare_str(&"ab".to_string(), &"a".to_string()), Ordering::Greater);
    assert_eq!(compare_str(&"abc".to_string(), &"abc".to_string()), Ordering::Equal);
    assert_eq!(compare_str(&"".to_string(), &"a".to_string()), Ordering::Less);
}

#[test]
fn expressions_order_by_kind_then_contents() {
    let one = Expr::Const(Rational::from_int(1));
    let half = Expr::Const(Rational { num: 1, den: 2 });
    let x = Expr::Var("x".to_string());
    let y = Expr::Var("y".to_string());
    // variables before constants
    assert_eq!(x.cmp(&one), Ordering::Less);
    assert_eq!(one.cmp(&x), Ordering::Greater);
    // variables by name, constants by value
    assert_eq!(x.cmp(&y), Ordering::Less);
    assert_eq!(half.cmp(&one), Ordering::Less);
    assert_eq!(one.cmp(&Expr::Const(Rational::from_int(1))), Ordering::Equal);
    // constants before unary, unary before binary, binary before parentheses and brackets
    let neg = Expr::UnaryExpr(UnaryExpr { op: UnaryOperator::SignNegative, rhs: var("x") });
    let sum = Expr::BinaryExpr(BinaryExpr { op: Plus, lhs: var("x"), rhs: var("y") });
    let paren = Expr::Parend(var("x"));
    let bracket = Expr::Bracketed(var("x"));
    assert_eq!(one.cmp(&neg), Ordering::Less);
    assert_eq!(neg.cmp(&sum), Ordering::Less);
    assert_eq!(sum.cmp(&paren), Ordering::Less);
    assert_eq!(paren.cmp(&bracket), Ordering::Less);
    assert_eq!(bracket.cmp(&x), Ordering::Greater);
    // binary expressions by operator, then left operand, then right operand
    let a = *bin(Plus, var("a"), var("z")).expr;
    let b = *bin(Mult, var("a"), var("a")).expr;
    assert_eq!(a.cmp(&b), Ordering::Less);
    let c = *bin(Plus, var("b"), var("a")).expr;
    assert_eq!(a.cmp(&c), Ordering::Less);
    let d = *bin(Plus, var("a"), var("y")).expr;
    assert_eq!(a.cmp(&d), Ordering::Greater);
}

#[test]
fn patterns_order_names_by_text() {
    let va = ExprPat::VarPat("$a".to_string());
    let cb = ExprPat::ConstPat("#b".to_string());
    let a2 = ExprPat::AnyPat("_a".to_string());
    // "$" < "_" in code points, "#" < "$"
    assert_eq!(va.cmp(&a2), Ordering::Less);
    assert_eq!(cb.cmp(&va), Ordering::Less);
    let k = ExprPat::Const(Rational::from_int(2));
    assert_eq!(va.cmp(&k), Ordering::Less);
    let x = *pbin(Div, p(ExprPat::VarPat("$x".to_string())), p(ExprPat::Const(Rational::from_int(1)))).pat;
    let y = *pbin(Exp, p(ExprPat::VarPat("$x".to_string())), p(ExprPat::Const(Rational::from_int(1)))).pat;
    assert_eq!(x.cmp(&y), Ordering::Less);
    assert_eq!(x.cmp(&x), Ordering::Equal);
}

#[test]
fn collect_var_names() {
    // a + b + c + a + d / b ^ e
    let expr = bin(
        Plus,
        bin(Plus, bin(Plus, bin(Plus, var("a"), var("b")), var("c")), var("a")),
        bin(Div, var("d"), bin(Exp, var("b"), var("e"))),
    );
    let mut names = collectors::collect_var_names(&expr);
    names.sort();
    assert_eq!(names, vec!["a", "b", "c", "d", "e"]);
}
