use libslide::common::Span;
use libslide::evaluator_rules::fn_rules::{divide, exponentiate, modulo, negate, posate, subtract};
use libslide::grammar::statement::{Expr, RcExpr};
use libslide::grammar::BinaryOperator::{Div, Exp, Minus, Mod, Plus};
use libslide::grammar::{BinaryExpr, BinaryOperator, Rational, UnaryExpr, UnaryOperator};
use libslide::math::rational::{from_fraction, int_rem};

fn span(lo: usize, hi: usize) -> Span {
    Span { lo, hi }
}

fn q(num: i64, den: u64) -> RcExpr {
    RcExpr::new(Expr::Const(Rational { num, den }), span(0, 1))
}

fn k(n: i64) -> RcExpr {
    q(n, 1)
}

fn v(name: &str) -> RcExpr {
    RcExpr::new(Expr::Var(name.to_string()), span(0, 1))
}

fn bin(op: BinaryOperator, lhs: RcExpr, rhs: RcExpr) -> RcExpr {
    RcExpr::new(Expr::BinaryExpr(BinaryExpr { op, lhs, rhs }), span(3, 9))
}

fn un(op: UnaryOperator, rhs: RcExpr) -> RcExpr {
    RcExpr::new(Expr::UnaryExpr(UnaryExpr { op, rhs }), span(2, 5))
}

fn konst(e: &Option<RcExpr>) -> (i64, u64) {
    match &*e.as_ref().expect("rule should apply").expr {
        Expr::Const(c) => (c.num, c.den),
        _ => panic!("expected a constant"),
    }
}

#[test]
fn fractions_reduce_to_lowest_terms() {
    let r = from_fraction(6, 4).unwrap();
    assert_eq!((r.num, r.den), (3, 2));
    let r = from_fraction(-10, 5).unwrap();
    assert_eq!((r.num, r.den), (-2, 1));
    let r = from_fraction(0, 7).unwrap();
    assert_eq!((r.num, r.den), (0, 1));
    assert!(from_fraction(i128::MAX, 1).is_none());
    assert!(from_fraction(1, u128::MAX).is_none());
}

#[test]
fn rational_arithmetic() {
    let half = Rational { num: 1, den: 2 };
    let third = Rational { num: 1, den: 3 };
    let d = half.checked_sub(&third).unwrap();
    assert_eq!((d.num, d.den), (1, 6));
    let p = half.checked_mul(&third).unwrap();
    assert_eq!((p.num, p.den), (1, 6));
    let qt = half.checked_div(&Rational { num: -3, den: 4 }).unwrap();
    assert_eq!((qt.num, qt.den), (-2, 3));
    let n = half.neg();
    assert_eq!((n.num, n.den), (-1, 2));
    assert_eq!(int_rem(7, 3), 1);
    assert_eq!(int_rem(-7, 3), -1);
    assert_eq!(int_rem(7, -3), 1);
}

#[test]
fn subtract_evaluates_constants() {
    let r = subtract(&bin(Minus, k(1), k(2)));
    assert_eq!(konst(&r), (-1, 1));
    assert_eq!(r.unwrap().span, span(3, 9));
    assert_eq!(konst(&subtract(&bin(Minus, q(1, 2), q(1, 3)))), (1, 6));
    assert!(subtract(&bin(Minus, k(1), v("a"))).is_none());
    assert!(subtract(&bin(Plus, k(1), k(2))).is_none());
    // a result that does not fit is not evaluated
    assert!(subtract(&bin(Minus, k(i64::MAX), k(-1))).is_none());
}

#[test]
fn divide_evaluates_constants() {
    assert_eq!(konst(&divide(&bin(Div, k(6), k(2)))), (3, 1));
    assert_eq!(konst(&divide(&bin(Div, k(1), k(-2)))), (-1, 2));
    assert!(divide(&bin(Div, v("a"), k(2))).is_none());
}

#[test]
fn modulo_evaluates_integers() {
    assert_eq!(konst(&modulo(&bin(Mod, k(6), k(4)))), (2, 1));
    assert_eq!(konst(&modulo(&bin(Mod, k(-9), k(5)))), (-4, 1));
    assert!(modulo(&bin(Mod, q(1, 2), k(5))).is_none());
}

#[test]
fn exponentiate_evaluates_integer_powers() {
    assert_eq!(konst(&exponentiate(&bin(Exp, k(2), k(3)))), (8, 1));
    assert_eq!(konst(&exponentiate(&bin(Exp, k(2), k(0)))), (1, 1));
    assert_eq!(konst(&exponentiate(&bin(Exp, q(-1, 2), k(3)))), (-1, 8));
    assert_eq!(konst(&exponentiate(&bin(Exp, k(0), k(5)))), (0, 1));
    assert!(exponentiate(&bin(Exp, k(2), k(64))).is_none());
    assert!(exponentiate(&bin(Exp, k(2), q(1, 2))).is_none());
    assert!(exponentiate(&bin(Exp, k(2), k(-1))).is_none());
}

#[test]
fn unary_rules() {
    assert_eq!(konst(&negate(&un(UnaryOperator::SignNegative, k(1)))), (-1, 1));
    assert_eq!(konst(&negate(&un(UnaryOperator::SignNegative, k(-3)))), (3, 1));
    assert!(negate(&un(UnaryOperator::SignNegative, v("a"))).is_none());
    assert!(negate(&un(UnaryOperator::SignPositive, k(1))).is_none());
    let p = posate(&un(UnaryOperator::SignPositive, v("b"))).unwrap();
    assert!(p.same(&v("b")));
    assert!(posate(&k(1)).is_none());
}
