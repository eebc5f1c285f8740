use libslide::common::Span;
use libslide::emit::{EmitConfig, EmitFormat};
use libslide::grammar::expression_pattern::{ExprPat, RcExprPat};
use libslide::grammar::statement::{Assignment, AssignmentOp, Expr, RcExpr, Stmt, StmtKind};
use libslide::grammar::BinaryOperator::{Div, Exp, Minus, Mod, Mult, Plus};
use libslide::grammar::{BinaryExpr, BinaryOperator, Rational, UnaryExpr, UnaryOperator};

fn sp() -> Span {
    Span { lo: 0, hi: 0 }
}

fn k(n: i64) -> RcExpr {
    RcExpr::new(Expr::Const(Rational::from_int(n)), sp())
}

fn v(name: &str) -> RcExpr {
    RcExpr::new(Expr::Var(name.to_string()), sp())
}

fn bin(op: BinaryOperator, lhs: RcExpr, rhs: RcExpr) -> RcExpr {
    RcExpr::new(Expr::BinaryExpr(BinaryExpr { op, lhs, rhs }), sp())
}

fn neg(rhs: RcExpr) -> RcExpr {
    RcExpr::new(Expr::UnaryExpr(UnaryExpr { op: UnaryOperator::SignNegative, rhs }), sp())
}

fn paren(e: RcExpr) -> RcExpr {
    RcExpr::new(Expr::Parend(e), sp())
}

fn bracket(e: RcExpr) -> RcExpr {
    RcExpr::new(Expr::Bracketed(e), sp())
}

fn pv(name: &str) -> RcExprPat {
    RcExprPat::new(ExprPat::VarPat(name.to_string()), sp())
}

fn pbin(op: BinaryOperator, lhs: RcExprPat, rhs: RcExprPat) -> RcExprPat {
    RcExprPat::new(ExprPat::BinaryExpr(BinaryExpr { op, lhs, rhs }), sp())
}

#[test]
fn rationals_as_text() {
    assert_eq!(Rational::from_int(3).to_string(), "3");
    assert_eq!(Rational::from_int(-42).to_string(), "-42");
    assert_eq!(Rational { num: -1, den: 2 }.to_string(), "-1/2");
    assert_eq!(Rational::from_int(0).to_string(), "0");
}

#[test]
fn emit_formats_by_name() {
    assert_eq!(EmitFormat::from_name("pretty"), Some(EmitFormat::Pretty));
    assert_eq!(EmitFormat::from_name("s-expression"), Some(EmitFormat::SExpression));
    assert_eq!(EmitFormat::from_name("latex"), Some(EmitFormat::Latex));
    assert_eq!(EmitFormat::from_name("debug"), Some(EmitFormat::Debug));
    assert_eq!(EmitFormat::from_name("yaml"), None);
}

#[test]
fn emit_config_options() {
    let both = EmitConfig::frac().union(EmitConfig::define_assign());
    assert!(both.contains(EmitConfig::frac()));
    assert!(both.contains(EmitConfig::define_assign()));
    assert!(!EmitConfig::frac().contains(EmitConfig::define_assign()));
    assert!(EmitConfig::default().contains(EmitConfig::default()));
    let named = EmitConfig::from_names(&vec!["define-assign".to_string(), "frac".to_string()]);
    assert_eq!(named, both);
    assert_eq!(EmitConfig::from_names(&vec![]), EmitConfig::default());
}

#[test]
fn pretty_places_parentheses_by_precedence() {
    // (3 + 5) ^ 2
    assert_eq!(bin(Exp, bin(Plus, k(3), k(5)), k(2)).emit_pretty(), "(3 + 5) ^ 2");
    // 3 + 5 + 2 and 3 * 5 + 2
    assert_eq!(bin(Plus, bin(Plus, k(3), k(5)), k(2)).emit_pretty(), "3 + 5 + 2");
    assert_eq!(bin(Plus, bin(Mult, k(3), k(5)), k(2)).emit_pretty(), "3 * 5 + 2");
    // 2 + 3 + 5, 2 - (3 + 5), 2 * (3 + 5)
    assert_eq!(bin(Plus, k(2), bin(Plus, k(3), k(5))).emit_pretty(), "2 + 3 + 5");
    assert_eq!(bin(Minus, k(2), bin(Plus, k(3), k(5))).emit_pretty(), "2 - (3 + 5)");
    assert_eq!(bin(Mult, k(2), bin(Plus, k(3), k(5))).emit_pretty(), "2 * (3 + 5)");
    // -(a + b), [x], (x)
    assert_eq!(neg(bin(Plus, v("a"), v("b"))).emit_pretty(), "-(a + b)");
    assert_eq!(bracket(v("x")).emit_pretty(), "[x]");
    assert_eq!(paren(v("x")).emit_pretty(), "(x)");
}

#[test]
fn s_expressions() {
    assert_eq!(bin(Plus, k(1), k(1)).emit_s_expression(), "(+ 1 1)");
    assert_eq!(neg(bin(Mult, v("a"), k(2))).emit_s_expression(), "(- (* a 2))");
    assert_eq!(paren(v("x")).emit_s_expression(), "(x)");
    assert_eq!(pbin(Div, pv("$a"), pv("$b")).emit_s_expression(), "(/ $a $b)");
}

#[test]
fn latex_forms() {
    let none = EmitConfig::default();
    assert_eq!(paren(bin(Plus, k(1), k(1))).emit_latex(none), "\\left(1 + 1\\right)");
    assert_eq!(bracket(v("x")).emit_latex(none), "\\left[x\\right]");
    assert_eq!(bin(Exp, v("x"), k(2)).emit_latex(none), "x^{2}");
    assert_eq!(bin(Exp, bin(Plus, v("x"), k(1)), k(2)).emit_latex(none), "\\left(x + 1\\right)^{2}");
    assert_eq!(bin(Mod, v("x"), k(2)).emit_latex(none), "x \\mod 2");
    assert_eq!(bin(Div, v("a"), v("b")).emit_latex(none), "a / b");
    assert_eq!(bin(Div, v("a"), v("b")).emit_latex(EmitConfig::frac()), "\\frac{a}{b}");
    assert_eq!(neg(bin(Plus, v("a"), v("b"))).emit_latex(none), "-\\left(a + b\\right)");
    assert_eq!(bin(Plus, k(1), k(1)).emit_wrapped_latex(none), "$1 + 1$");
    // pattern names are escaped
    assert_eq!(pbin(Plus, pv("$a"), pv("$b")).emit_latex(none), "\\$a + \\$b");
}

#[test]
fn emit_dispatches_on_format() {
    let e = bin(Plus, k(1), k(1));
    let none = EmitConfig::default();
    assert_eq!(e.emit(EmitFormat::Pretty, none), "1 + 1");
    assert_eq!(e.emit(EmitFormat::SExpression, none), "(+ 1 1)");
    assert_eq!(e.emit(EmitFormat::Latex, none), "$1 + 1$");
    assert!(!e.emit(EmitFormat::Debug, none).is_empty());
}

#[test]
fn statements_and_assignments() {
    let asgn = Assignment {
        lhs: v("x"),
        asgn_op: AssignmentOp::Equal(sp()),
        rhs: bin(Div, k(1), k(2)),
        span: sp(),
    };
    let stmt = Stmt::new(StmtKind::Assignment(asgn), 0);
    assert_eq!(stmt.emit_pretty(EmitConfig::default()), "x = 1 / 2");
    assert_eq!(stmt.emit_pretty(EmitConfig::define_assign()), "x := 1 / 2");
    assert_eq!(stmt.emit_s_expression(), "(= x (/ 1 2))");
    assert_eq!(stmt.emit_latex(EmitConfig::frac()), "x = \\frac{1}{2}");
    assert_eq!(stmt.emit(EmitFormat::Latex, EmitConfig::default()), "$x = 1 / 2$");
    let plain = Stmt::new(StmtKind::Expr(v("y")), 2);
    assert_eq!(plain.emit_pretty(EmitConfig::default()), "y");
    assert_eq!(plain.vw(), 2);
}
