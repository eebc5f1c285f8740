//! The unary series lint: trivially reducible chains of unary operators.
//!
//! For example, `---1` reduces to `-1`, `+++1` to `1`, and `+-+-+-1` to `-1`. Chained unary
//! operators are not standard mathematical style and can mislead: `--x` may be read as the prefix
//! decrement of some programming languages.
use crate::common::Span;
use crate::diagnostics::{Diagnostic, DiagnosticKind, DiagnosticRecord};
use crate::grammar::statement::{Expr, RcExpr, Stmt, StmtKind};
use crate::grammar::UnaryOperator;
use crate::text::{push_text, text};
use vstd::prelude::*;

verus! {

/// The number of unary operators chained at the top of `e`.
pub open spec fn chain_len(e: RcExpr) -> nat
    decreases e,
{
    match *e.expr {
        Expr::UnaryExpr(u) => 1 + chain_len(u.rhs),
        _ => 0,
    }
}

/// The operand below the unary operators chained at the top of `e`.
pub open spec fn chain_end(e: RcExpr) -> RcExpr
    decreases e,
{
    match *e.expr {
        Expr::UnaryExpr(u) => chain_end(u.rhs),
        _ => e,
    }
}

/// Whether the unary operators chained at the top of `e` hold an odd number of negations.
pub open spec fn chain_neg(e: RcExpr) -> bool
    decreases e,
{
    match *e.expr {
        Expr::UnaryExpr(u) => (u.op == UnaryOperator::SignNegative) != chain_neg(u.rhs),
        _ => false,
    }
}

/// The heads of the reducible unary chains in `e`, in the order a left-to-right walk meets them.
/// A walk that has reported a chain goes on below the whole chain.
pub open spec fn unary_sites(e: RcExpr) -> Seq<RcExpr>
    decreases e, 0nat,
{
    match *e.expr {
        Expr::UnaryExpr(u) => (if chain_len(e) > 1 {
            seq![e]
        } else {
            Seq::empty()
        }) + sites_below_chain(u.rhs),
        Expr::BinaryExpr(b) => unary_sites(b.lhs) + unary_sites(b.rhs),
        Expr::Parend(x) => unary_sites(x),
        Expr::Bracketed(x) => unary_sites(x),
        _ => Seq::empty(),
    }
}

/// The sites in the operand below a chain of unary operators starting at `e`.
pub open spec fn sites_below_chain(e: RcExpr) -> Seq<RcExpr>
    decreases e, 1nat,
{
    match *e.expr {
        Expr::UnaryExpr(u) => sites_below_chain(u.rhs),
        _ => unary_sites(e),
    }
}

/// The sites of a statement: its expression, or the two sides of its assignment.
pub open spec fn stmt_unary_sites(s: Stmt) -> Seq<RcExpr> {
    match s.kind {
        StmtKind::Expr(e) => unary_sites(e),
        StmtKind::Assignment(a) => unary_sites(a.lhs) + unary_sites(a.rhs),
    }
}

/// The text of a span in `src`, counted in chars and cut at the end of `src`.
pub open spec fn span_text(sp: Span, src: Seq<char>) -> Seq<char> {
    src.subrange(
        sp.lo as int,
        if sp.hi <= src.len() {
            sp.hi as int
        } else {
            src.len() as int
        },
    )
}

/// The operand of every site is a span of `src` that can be read.
pub open spec fn sites_readable(sites: Seq<RcExpr>, src: Seq<char>) -> bool {
    forall|i: int|
        0 <= i < sites.len() ==> {
            let sp = #[trigger] chain_end(sites[i]).span;
            sp.lo <= sp.hi && sp.lo < src.len()
        }
}

/// `d` is the unary series warning for the chain headed by `e`: over the chain, with help to
/// reduce it to at most one minus sign before the operand's text.
pub open spec fn is_unary_series_diag(d: Diagnostic, e: RcExpr, src: Seq<char>) -> bool {
    let end = chain_end(e);
    let sp = Span { lo: e.span.lo, hi: end.span.hi };
    let reduced = (if chain_neg(e) {
        "-"@
    } else {
        ""@
    }) + span_text(end.span, src);
    &&& d.kind == DiagnosticKind::Warning
    &&& d.code@ == "L0002"@
    &&& d.span == sp
    &&& d.title@ == "Trivially reducible unary operator chain"@
    &&& d.msg is None
    &&& d.associated_diagnostics@.len() == 0
    &&& d.unspanned_associated_diagnostics@.len() == 1
    &&& d.unspanned_associated_diagnostics@[0].kind == DiagnosticKind::Help
    &&& d.unspanned_associated_diagnostics@[0].span == sp
    &&& d.unspanned_associated_diagnostics@[0].msg@ == "consider reducing this expression to \""@
        + reduced + "\""@
    &&& d.autofix is None
}

/// `ds` extends `old` by the warnings for `sites`.
pub open spec fn extends_with_sites(
    ds: Seq<Diagnostic>,
    old: Seq<Diagnostic>,
    sites: Seq<RcExpr>,
    src: Seq<char>,
) -> bool {
    &&& ds.len() == old.len() + sites.len()
    &&& forall|i: int| 0 <= i < old.len() ==> ds[i] == old[i]
    &&& forall|i: int|
        0 <= i < sites.len() ==> is_unary_series_diag(#[trigger] ds[old.len() + i], sites[i], src)
}

/// Lints a statement for trivially reducible chains of unary operators.
pub struct UnarySeriesLinter {
    diagnostics: Vec<Diagnostic>,
}

/// Sites that can be read split into parts that can be read.
proof fn lemma_readable_split(a: Seq<RcExpr>, b: Seq<RcExpr>, src: Seq<char>)
    requires
        sites_readable(a + b, src),
    ensures
        sites_readable(a, src),
        sites_readable(b, src),
{
    assert forall|i: int| 0 <= i < a.len() implies {
        let sp = #[trigger] chain_end(a[i]).span;
        sp.lo <= sp.hi && sp.lo < src.len()
    } by {
        assert((a + b)[i] == a[i]);
    }
    assert forall|i: int| 0 <= i < b.len() implies {
        let sp = #[trigger] chain_end(b[i]).span;
        sp.lo <= sp.hi && sp.lo < src.len()
    } by {
        assert((a + b)[a.len() + i] == b[i]);
    }
}

/// Extending twice extends by the concatenation.
proof fn lemma_extends_concat(
    d3: Seq<Diagnostic>,
    d2: Seq<Diagnostic>,
    d1: Seq<Diagnostic>,
    a: Seq<RcExpr>,
    b: Seq<RcExpr>,
    src: Seq<char>,
)
    requires
        extends_with_sites(d2, d1, a, src),
        extends_with_sites(d3, d2, b, src),
    ensures
        extends_with_sites(d3, d1, a + b, src),
{
    assert forall|i: int| 0 <= i < (a + b).len() implies is_unary_series_diag(
        #[trigger] d3[d1.len() + i],
        (a + b)[i],
        src,
    ) by {
        if i < a.len() {
            assert(d3[d1.len() + i] == d2[d1.len() + i]);
        } else {
            assert(d3[d1.len() + i] == d3[d2.len() + (i - a.len())]);
        }
    }
}

impl UnarySeriesLinter {
    /// The diagnostics reported so far.
    pub closed spec fn reported(&self) -> Seq<Diagnostic> {
        self.diagnostics@
    }

    /// A linter that has reported nothing yet.
    pub fn new() -> (r: Self)
        ensures
            r.reported() == Seq::<Diagnostic>::empty(),
    {
        UnarySeriesLinter { diagnostics: Vec::new() }
    }

    /// Reports the chain headed by `e`, which holds more than one unary operator.
    fn report(&mut self, e: &RcExpr, source: &str)
        requires
            chain_len(*e) > 1,
            chain_end(*e).span.lo <= chain_end(*e).span.hi,
            chain_end(*e).span.lo < source@.len(),
        ensures
            extends_with_sites(final(self).diagnostics@, old(self).diagnostics@, seq![*e], source@),
    {
        let mut is_neg = false;
        let mut nested: &RcExpr = e;
        loop
            invariant
                chain_neg(*e) == (is_neg != chain_neg(*nested)),
                chain_end(*e) == chain_end(*nested),
            ensures
                chain_neg(*e) == is_neg,
                chain_end(*e) == *nested,
            decreases *nested,
        {
            match &*nested.expr {
                Expr::UnaryExpr(u) => {
                    if u.op == UnaryOperator::SignNegative {
                        is_neg = !is_neg;
                    }
                    nested = &u.rhs;
                },
                _ => {
                    break ;
                },
            }
        }
        let span = e.span.to(nested.span);
        let mut help = text("consider reducing this expression to \"");
        if is_neg {
            push_text(&mut help, "-");
        } else {
            push_text(&mut help, "");
        }
        push_text(&mut help, nested.span.over(source));
        push_text(&mut help, "\"");
        let d = Diagnostic::span_warn(
            span,
            text("Trivially reducible unary operator chain"),
            UnarySeriesLinter::code(),
            None,
        ).with_help(help);
        proof {
            let reduced = (if chain_neg(*e) {
                "-"@
            } else {
                ""@
            }) + span_text(chain_end(*e).span, source@);
            assert(help@ =~= "consider reducing this expression to \""@ + reduced + "\""@);
            assert(is_unary_series_diag(d, *e, source@));
        }
        let ghost d0 = self.diagnostics@;
        self.diagnostics.push(d);
        assert(self.diagnostics@[d0.len() as int] == d);
    }

    /// Visits an expression.
    fn visit_expr(&mut self, e: &RcExpr, source: &str)
        requires
            sites_readable(unary_sites(*e), source@),
        ensures
            extends_with_sites(
                final(self).diagnostics@,
                old(self).diagnostics@,
                unary_sites(*e),
                source@,
            ),
        decreases e, 0nat,
    {
        let ghost d0 = self.diagnostics@;
        match &*e.expr {
            Expr::UnaryExpr(u) => {
                let ghost head: Seq<RcExpr> = if chain_len(*e) > 1 {
                    seq![*e]
                } else {
                    Seq::empty()
                };
                proof {
                    lemma_readable_split(head, sites_below_chain(u.rhs), source@);
                }
                assert(chain_len(*e) == 1 + chain_len(u.rhs));
                assert(chain_len(u.rhs) > 0 <==> (*u.rhs.expr is UnaryExpr));
                if matches!(&*u.rhs.expr, Expr::UnaryExpr(_)) {
                    proof {
                        assert(head[0] == *e);
                        assert(head =~= seq![*e]);
                    }
                    self.report(e, source);
                } else {
                    assert(head.len() == 0);
                    assert(self.diagnostics@ =~= d0);
                }
                let ghost d1 = self.diagnostics@;
                self.visit_below_chain(&u.rhs, source);
                proof {
                    lemma_extends_concat(self.diagnostics@, d1, d0, head, sites_below_chain(u.rhs), source@);
                }
            },
            Expr::BinaryExpr(b) => {
                proof {
                    lemma_readable_split(unary_sites(b.lhs), unary_sites(b.rhs), source@);
                }
                self.visit_expr(&b.lhs, source);
                let ghost d1 = self.diagnostics@;
                self.visit_expr(&b.rhs, source);
                proof {
                    lemma_extends_concat(self.diagnostics@, d1, d0, unary_sites(b.lhs), unary_sites(b.rhs), source@);
                }
            },
            Expr::Parend(x) => {
                self.visit_expr(x, source);
            },
            Expr::Bracketed(x) => {
                self.visit_expr(x, source);
            },
            _ => {},
        }
    }

    /// Visits the operand below a chain of unary operators.
    fn visit_below_chain(&mut self, e: &RcExpr, source: &str)
        requires
            sites_readable(sites_below_chain(*e), source@),
        ensures
            extends_with_sites(
                final(self).diagnostics@,
                old(self).diagnostics@,
                sites_below_chain(*e),
                source@,
            ),
        decreases e, 1nat,
    {
        match &*e.expr {
            Expr::UnaryExpr(u) => {
                self.visit_below_chain(&u.rhs, source);
            },
            _ => {
                self.visit_expr(e, source);
            },
        }
    }

    /// Lints a statement: one warning for each trivially reducible chain of unary operators, in
    /// the order a left-to-right walk meets them.
    pub fn lint(stmt: &Stmt, source: &str) -> (r: Vec<Diagnostic>)
        requires
            sites_readable(stmt_unary_sites(*stmt), source@),
        ensures
            r@.len() == stmt_unary_sites(*stmt).len(),
            forall|i: int|
                0 <= i < r@.len() ==> is_unary_series_diag(
                    #[trigger] r@[i],
                    stmt_unary_sites(*stmt)[i],
                    source@,
                ),
            forall|i: int|
                0 <= i < r@.len() ==> (#[trigger] r@[i]).unspanned_associated_diagnostics@[0].msg@
                    == reduce_help(
                    neg_count(stmt_unary_sites(*stmt)[i]) % 2 == 1,
                    span_text(chain_end(stmt_unary_sites(*stmt)[i]).span, source@),
                ),
    {
        let mut linter = Self::new();
        let ghost d0 = linter.diagnostics@;
        match &stmt.kind {
            StmtKind::Expr(e) => {
                linter.visit_expr(e, source);
            },
            StmtKind::Assignment(a) => {
                proof {
                    lemma_readable_split(unary_sites(a.lhs), unary_sites(a.rhs), source@);
                }
                linter.visit_expr(&a.lhs, source);
                let ghost d1 = linter.diagnostics@;
                linter.visit_expr(&a.rhs, source);
                proof {
                    lemma_extends_concat(linter.diagnostics@, d1, d0, unary_sites(a.lhs), unary_sites(a.rhs), source@);
                }
            },
        }
        proof {
            let r = linter.diagnostics@;
            assert forall|i: int| 0 <= i < r.len() implies is_unary_series_diag(
                #[trigger] r[i],
                stmt_unary_sites(*stmt)[i],
                source@,
            ) by {
                assert(r[d0.len() + i] == r[i]);
            }
            assert forall|i: int| 0 <= i < r.len() implies (#[trigger] r[i]).unspanned_associated_diagnostics@[0].msg@
                == reduce_help(
                neg_count(stmt_unary_sites(*stmt)[i]) % 2 == 1,
                span_text(chain_end(stmt_unary_sites(*stmt)[i]).span, source@),
            ) by {
                assert(is_unary_series_diag(r[i], stmt_unary_sites(*stmt)[i], source@));
                law_unary_series_sign(r[i], stmt_unary_sites(*stmt)[i], source@);
            }
        }
        linter.diagnostics
    }
}

impl DiagnosticRecord for UnarySeriesLinter {
    fn code() -> (r: &'static str)
        ensures
            r@ == "L0002"@,
    {
        "L0002"
    }

    fn explanation() -> (r: &'static str)
        ensures
            r@ == "The unary series lint detects trivially-reducible chains of unary operators.\n\nFor example, the following chains of unary expressions can be reduced to a more trivial form:\n\n```text\n---1   -> -1\n+++1   ->  1\n+-+-+- -> -1\n```\n\nChaining unary operators is not standard style in mathematical expressions and can be\nmisleading. For example, `--x` may be interpreted to be the prefix decrement operator available\nin some computer programming languages, which is absent in canonical mathematical notation.\n"@,
    {
        "The unary series lint detects trivially-reducible chains of unary operators.\n\nFor example, the following chains of unary expressions can be reduced to a more trivial form:\n\n```text\n---1   -> -1\n+++1   ->  1\n+-+-+- -> -1\n```\n\nChaining unary operators is not standard style in mathematical expressions and can be\nmisleading. For example, `--x` may be interpreted to be the prefix decrement operator available\nin some computer programming languages, which is absent in canonical mathematical notation.\n"
    }
}

/// The number of negations among the unary operators chained at the top of `e` (a positive
/// sign is not one).
pub open spec fn neg_count(e: RcExpr) -> nat
    decreases e,
{
    match *e.expr {
        Expr::UnaryExpr(u) => (if u.op == UnaryOperator::SignNegative {
            1nat
        } else {
            0nat
        }) + neg_count(u.rhs),
        _ => 0,
    }
}

/// The help text that reduces a chain to `neg` (a minus sign or nothing) before `operand`.
pub open spec fn reduce_help(neg: bool, operand: Seq<char>) -> Seq<char> {
    "consider reducing this expression to \""@ + (if neg {
        "-"@
    } else {
        ""@
    }) + operand + "\""@
}

/// A chain is negative exactly when it holds an odd number of negations.
proof fn lemma_chain_neg_count(e: RcExpr)
    ensures
        chain_neg(e) == (neg_count(e) % 2 == 1),
    decreases e,
{
    match *e.expr {
        Expr::UnaryExpr(u) => {
            lemma_chain_neg_count(u.rhs);
        },
        _ => {},
    }
}

/// The unary series warning reduces a chain to a minus sign exactly when the chain holds an
/// odd number of negations, before the text of the operand below the chain: positive signs
/// and pairs of negations drop out.
pub proof fn law_unary_series_sign(d: Diagnostic, e: RcExpr, src: Seq<char>)
    requires
        is_unary_series_diag(d, e, src),
    ensures
        d.unspanned_associated_diagnostics@[0].msg@ == reduce_help(
            neg_count(e) % 2 == 1,
            span_text(chain_end(e).span, src),
        ),
{
    lemma_chain_neg_count(e);
}

} // verus!
