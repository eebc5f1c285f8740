use libslide::common::Span;
use libslide::diagnostics::{AutofixConfidence, DiagnosticKind, DiagnosticRegistry, Edit};
use libslide::grammar::expression_pattern::{ExprPat, RcExprPat};
use libslide::grammar::statement::{
    Assignment, AssignmentOp, Expr, RcExpr, Stmt, StmtKind, StmtList,
};
use libslide::grammar::BinaryOperator::Plus;
use libslide::grammar::{BinaryExpr, Rational, UnaryExpr, UnaryOperator};
use libslide::linter::homogenous_assignment::HomogenousAssignmentLinter;
use libslide::linter::redundant_nesting::RedundantNestingLinter;
use libslide::linter::similar_names::SimilarNamesLinter;
use libslide::linter::unary_series::UnarySeriesLinter;
use libslide::linter::{lint_expr_pat, lint_stmt, LintConfig};

fn span(lo: usize, hi: usize) -> Span {
    Span { lo, hi }
}

fn pat(name: &str, lo: usize) -> RcExprPat {
    let p = match name.chars().next() {
        Some('$') => ExprPat::VarPat(name.to_string()),
        Some('#') => ExprPat::ConstPat(name.to_string()),
        _ => ExprPat::AnyPat(name.to_string()),
    };
    RcExprPat::new(p, span(lo, lo + name.len()))
}

fn padd(lhs: RcExprPat, rhs: RcExprPat) -> RcExprPat {
    let s = span(lhs.span.lo, rhs.span.hi);
    RcExprPat::new(ExprPat::BinaryExpr(BinaryExpr { op: Plus, lhs, rhs }), s)
}

fn konst(n: i64, lo: usize, hi: usize) -> RcExpr {
    RcExpr::new(Expr::Const(Rational::from_int(n)), span(lo, hi))
}

fn var(name: &str, lo: usize) -> RcExpr {
    RcExpr::new(Expr::Var(name.to_string()), span(lo, lo + name.len()))
}

fn neg(rhs: RcExpr, lo: usize) -> RcExpr {
    let hi = rhs.span.hi;
    RcExpr::new(Expr::UnaryExpr(UnaryExpr { op: UnaryOperator::SignNegative, rhs }), span(lo, hi))
}

fn pos(rhs: RcExpr, lo: usize) -> RcExpr {
    let hi = rhs.span.hi;
    RcExpr::new(Expr::UnaryExpr(UnaryExpr { op: UnaryOperator::SignPositive, rhs }), span(lo, hi))
}

fn paren(e: RcExpr, lo: usize, hi: usize) -> RcExpr {
    RcExpr::new(Expr::Parend(e), span(lo, hi))
}

fn bracket(e: RcExpr, lo: usize, hi: usize) -> RcExpr {
    RcExpr::new(Expr::Bracketed(e), span(lo, hi))
}

fn expr_stmt(e: RcExpr) -> Stmt {
    Stmt::new(StmtKind::Expr(e), 0)
}

#[test]
fn similar_names_three_kinds() {
    // $a + #a + _a + $a
    let p = padd(padd(padd(pat("$a", 0), pat("#a", 5)), pat("_a", 10)), pat("$a", 15));
    let diags = SimilarNamesLinter::lint(&p, "$a + #a + _a + $a");
    assert_eq!(diags.len(), 1);
    let d = &diags[0];
    assert_eq!(d.kind, DiagnosticKind::Warning);
    assert_eq!(d.code, "L0003");
    assert_eq!(d.span, span(0, 2));
    assert_eq!(d.title, "Similar name \"a\" used by multiple patterns");
    assert_eq!(d.msg.as_deref(), Some("\"a\" is used by const and any patterns as well"));
    assert_eq!(d.associated_diagnostics.len(), 2);
    assert_eq!(d.associated_diagnostics[0].kind, DiagnosticKind::Note);
    assert_eq!(d.associated_diagnostics[0].span, span(5, 7));
    assert_eq!(d.associated_diagnostics[0].msg, "const pattern here");
    assert_eq!(d.associated_diagnostics[1].span, span(10, 12));
    assert_eq!(d.associated_diagnostics[1].msg, "any pattern here");
    assert!(d.unspanned_associated_diagnostics.is_empty());
}

#[test]
fn similar_names_one_other_use() {
    // #c + $c + _b + $b + $d
    let p = padd(
        padd(padd(padd(pat("#c", 0), pat("$c", 5)), pat("_b", 10)), pat("$b", 15)),
        pat("$d", 20),
    );
    let diags = lint_expr_pat(&p, "#c + $c + _b + $b + $d");
    assert_eq!(diags.len(), 2);
    // Names come in increasing order: "b" before "c".
    assert_eq!(diags[0].title, "Similar name \"b\" used by multiple patterns");
    assert_eq!(diags[0].span, span(10, 12));
    assert_eq!(diags[0].msg.as_deref(), Some("\"b\" is used by a var pattern as well"));
    assert_eq!(diags[0].associated_diagnostics[0].span, span(15, 17));
    assert_eq!(diags[1].title, "Similar name \"c\" used by multiple patterns");
    assert_eq!(diags[1].span, span(0, 2));
    assert_eq!(diags[1].msg.as_deref(), Some("\"c\" is used by a var pattern as well"));
}

#[test]
fn similar_names_an_any_pattern() {
    let p = padd(pat("$x", 0), pat("_x", 5));
    let diags = SimilarNamesLinter::lint(&p, "$x + _x");
    assert_eq!(diags.len(), 1);
    assert_eq!(diags[0].msg.as_deref(), Some("\"x\" is used by an any pattern as well"));
}

#[test]
fn similar_names_one_kind_is_fine() {
    let p = padd(pat("$x", 0), pat("$x", 5));
    assert!(SimilarNamesLinter::lint(&p, "$x + $x").is_empty());
}

#[test]
fn unary_series_reduces_chains() {
    // ---1
    let e = neg(neg(neg(konst(1, 3, 4), 2), 1), 0);
    let diags = UnarySeriesLinter::lint(&expr_stmt(e), "---1");
    assert_eq!(diags.len(), 1);
    let d = &diags[0];
    assert_eq!(d.code, "L0002");
    assert_eq!(d.span, span(0, 4));
    assert_eq!(d.title, "Trivially reducible unary operator chain");
    assert!(d.msg.is_none());
    assert_eq!(d.unspanned_associated_diagnostics.len(), 1);
    assert_eq!(d.unspanned_associated_diagnostics[0].kind, DiagnosticKind::Help);
    assert_eq!(d.unspanned_associated_diagnostics[0].msg, "consider reducing this expression to \"-1\"");

    // +-+-x
    let e = pos(neg(pos(neg(var("x", 4), 3), 2), 1), 0);
    let diags = UnarySeriesLinter::lint(&expr_stmt(e), "+-+-x");
    assert_eq!(diags.len(), 1);
    assert_eq!(diags[0].unspanned_associated_diagnostics[0].msg, "consider reducing this expression to \"x\"");

    // -1 alone is fine
    let e = neg(konst(1, 1, 2), 0);
    assert!(UnarySeriesLinter::lint(&expr_stmt(e), "-1").is_empty());
}

#[test]
fn redundant_nesting_reduces_to_one() {
    // ([[(1)]])
    let e = paren(bracket(bracket(paren(konst(1, 4, 5), 3, 6), 2, 7), 1, 8), 0, 9);
    let diags = RedundantNestingLinter::lint_stmt(&expr_stmt(e), "([[(1)]])");
    assert_eq!(diags.len(), 1);
    let d = &diags[0];
    assert_eq!(d.code, "L0001");
    assert_eq!(d.span, span(0, 9));
    assert_eq!(d.title, "Redundant nesting");
    let fix = d.autofix.as_ref().unwrap();
    assert_eq!(fix.confidence, AutofixConfidence::ForSure);
    assert_eq!(fix.msg, "reduce this nesting");
    match &fix.fix {
        Edit::Replace(s) => assert_eq!(s, "(1)"),
        Edit::Delete => panic!("expected a replacement"),
    }

    // (1) alone is fine
    let e = paren(konst(1, 1, 2), 0, 3);
    assert!(RedundantNestingLinter::lint_stmt(&expr_stmt(e), "(1)").is_empty());
}

#[test]
fn homogenous_assignment_warns_on_mixed_ops() {
    // a = 1
    // b := 1
    let first = Stmt::new(
        StmtKind::Assignment(Assignment {
            lhs: var("a", 0),
            asgn_op: AssignmentOp::Equal(span(2, 3)),
            rhs: konst(1, 4, 5),
            span: span(0, 5),
        }),
        0,
    );
    let second = Stmt::new(
        StmtKind::Assignment(Assignment {
            lhs: var("b", 6),
            asgn_op: AssignmentOp::AssignDefine(span(8, 10)),
            rhs: konst(1, 11, 12),
            span: span(6, 12),
        }),
        0,
    );
    let list = StmtList::new(vec![first, second]);
    let diags = HomogenousAssignmentLinter::lint(&list, "a = 1\nb := 1");
    assert_eq!(diags.len(), 1);
    let d = &diags[0];
    assert_eq!(d.code, "L0004");
    assert_eq!(d.span, span(8, 10));
    assert_eq!(d.title, "Mixed use of assignment operators");
    assert_eq!(d.msg.as_deref(), Some("expected \"=\" here"));
    assert_eq!(d.associated_diagnostics.len(), 1);
    assert_eq!(d.associated_diagnostics[0].span, span(2, 3));
    assert_eq!(
        d.associated_diagnostics[0].msg,
        "first use of \"=\" as an assignment operator here"
    );
}

#[test]
fn lint_stmt_runs_the_default_rules_in_order() {
    // --(( 1 ))  written without spaces: --((1))
    let e = neg(neg(paren(paren(konst(1, 4, 5), 3, 6), 2, 7), 1), 0);
    let list = StmtList::new(vec![expr_stmt(e)]);
    let diags = lint_stmt(&list, "--((1))");
    assert_eq!(diags.len(), 2);
    assert_eq!(diags[0].code, "L0002");
    assert_eq!(diags[0].unspanned_associated_diagnostics[0].msg, "consider reducing this expression to \"((1))\"");
    assert_eq!(diags[1].code, "L0001");
    assert_eq!(diags[1].span, span(2, 7));
}

#[test]
fn lint_codes_are_registered() {
    let codes: Vec<&str> = LintConfig::codes_with_explanations().iter().map(|c| c.0).collect();
    assert_eq!(codes, vec!["L0002", "L0001", "L0004", "L0003"]);
}
