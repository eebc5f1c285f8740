//! The redundant nesting lint: parentheses or brackets directly around other ones.
//!
//! For example, `((1))` reduces to `(1)`, `[[1]]` to `[1]`, and `([[(1)]])` to `(1)`. Redundant
//! nestings are hard to read and can mislead, since one nesting is generally expected to stand
//! for precedence or clarity.
use crate::common::Span;
use crate::diagnostics::{Autofix, AutofixConfidence, Diagnostic, DiagnosticKind, DiagnosticRecord, Edit};
use crate::grammar::statement::{Expr, RcExpr, Stmt, StmtKind, StmtList};
use crate::linter::unary_series::span_text;
use crate::text::{push_text, text};
use vstd::prelude::*;

verus! {

/// Whether `e` is wrapped in parentheses or brackets.
pub open spec fn is_nesting(e: RcExpr) -> bool {
    *e.expr is Parend || *e.expr is Bracketed
}

/// The expression inside all the nestings at the top of `e`.
pub open spec fn nest_end(e: RcExpr) -> RcExpr
    decreases e,
{
    match *e.expr {
        Expr::Parend(x) => nest_end(x),
        Expr::Bracketed(x) => nest_end(x),
        _ => e,
    }
}

/// The outermost nestings that hold another nesting directly, in the order a left-to-right walk
/// meets them. A walk that has reported a nesting goes on inside all of it.
pub open spec fn nest_sites(e: RcExpr) -> Seq<RcExpr>
    decreases e, 0nat,
{
    match *e.expr {
        Expr::Parend(x) => (if is_nesting(x) {
            seq![e]
        } else {
            Seq::empty()
        }) + sites_inside_nesting(x),
        Expr::Bracketed(x) => (if is_nesting(x) {
            seq![e]
        } else {
            Seq::empty()
        }) + sites_inside_nesting(x),
        Expr::BinaryExpr(b) => nest_sites(b.lhs) + nest_sites(b.rhs),
        Expr::UnaryExpr(u) => nest_sites(u.rhs),
        _ => Seq::empty(),
    }
}

/// The sites inside the nestings starting at `e`.
pub open spec fn sites_inside_nesting(e: RcExpr) -> Seq<RcExpr>
    decreases e, 1nat,
{
    match *e.expr {
        Expr::Parend(x) => sites_inside_nesting(x),
        Expr::Bracketed(x) => sites_inside_nesting(x),
        _ => nest_sites(e),
    }
}

/// The sites of a statement: its expression, or the two sides of its assignment.
pub open spec fn stmt_nest_sites(s: Stmt) -> Seq<RcExpr> {
    match s.kind {
        StmtKind::Expr(e) => nest_sites(e),
        StmtKind::Assignment(a) => nest_sites(a.lhs) + nest_sites(a.rhs),
    }
}

/// The delimiters of every site and the text inside can be read from `src`.
pub open spec fn nestings_readable(sites: Seq<RcExpr>, src: Seq<char>) -> bool {
    forall|i: int|
        0 <= i < sites.len() ==> {
            let sp = #[trigger] sites[i].span;
            let inner = nest_end(sites[i]).span;
            &&& sp.lo < src.len()
            &&& 1 <= sp.hi <= src.len()
            &&& inner.lo <= inner.hi
            &&& inner.lo < src.len()
        }
}

/// `d` is the redundant nesting warning for the nesting `e`, with a sure fix that keeps its
/// outer delimiters around the text inside all of it.
pub open spec fn is_redundant_nesting_diag(d: Diagnostic, e: RcExpr, src: Seq<char>) -> bool {
    let sp = e.span;
    let opener = span_text(Span { lo: sp.lo, hi: (sp.lo + 1) as usize }, src);
    let closer = span_text(Span { lo: (sp.hi - 1) as usize, hi: sp.hi }, src);
    &&& d.kind == DiagnosticKind::Warning
    &&& d.code@ == "L0001"@
    &&& d.span == sp
    &&& d.title@ == "Redundant nesting"@
    &&& d.msg is None
    &&& d.associated_diagnostics@.len() == 0
    &&& d.unspanned_associated_diagnostics@.len() == 0
    &&& d.autofix is Some
    &&& d.autofix->0.confidence == AutofixConfidence::ForSure
    &&& d.autofix->0.msg@ == "reduce this nesting"@
    &&& d.autofix->0.fix is Replace
    &&& d.autofix->0.fix->Replace_0@ == opener + span_text(nest_end(e).span, src) + closer
}

/// `ds` extends `old` by the warnings for `sites`.
pub open spec fn extends_with_nestings(
    ds: Seq<Diagnostic>,
    old: Seq<Diagnostic>,
    sites: Seq<RcExpr>,
    src: Seq<char>,
) -> bool {
    &&& ds.len() == old.len() + sites.len()
    &&& forall|i: int| 0 <= i < old.len() ==> ds[i] == old[i]
    &&& forall|i: int|
        0 <= i < sites.len() ==> is_redundant_nesting_diag(
            #[trigger] ds[old.len() + i],
            sites[i],
            src,
        )
}

/// Sites that can be read split into parts that can be read.
proof fn lemma_readable_split(a: Seq<RcExpr>, b: Seq<RcExpr>, src: Seq<char>)
    requires
        nestings_readable(a + b, src),
    ensures
        nestings_readable(a, src),
        nestings_readable(b, src),
{
    assert forall|i: int| 0 <= i < a.len() implies {
        let sp = #[trigger] a[i].span;
        let inner = nest_end(a[i]).span;
        &&& sp.lo < src.len()
        &&& 1 <= sp.hi <= src.len()
        &&& inner.lo <= inner.hi
        &&& inner.lo < src.len()
    } by {
        assert((a + b)[i] == a[i]);
    }
    assert forall|i: int| 0 <= i < b.len() implies {
        let sp = #[trigger] b[i].span;
        let inner = nest_end(b[i]).span;
        &&& sp.lo < src.len()
        &&& 1 <= sp.hi <= src.len()
        &&& inner.lo <= inner.hi
        &&& inner.lo < src.len()
    } by {
        assert((a + b)[a.len() + i] == b[i]);
    }
}

/// Extending twice extends by the concatenation.
proof fn lemma_extends_concat(
    d3: Seq<Diagnostic>,
    d2: Seq<Diagnostic>,
    d1: Seq<Diagnostic>,
    a: Seq<RcExpr>,
    b: Seq<RcExpr>,
    src: Seq<char>,
)
    requires
        extends_with_nestings(d2, d1, a, src),
        extends_with_nestings(d3, d2, b, src),
    ensures
        extends_with_nestings(d3, d1, a + b, src),
{
    assert forall|i: int| 0 <= i < (a + b).len() implies is_redundant_nesting_diag(
        #[trigger] d3[d1.len() + i],
        (a + b)[i],
        src,
    ) by {
        if i < a.len() {
            assert(d3[d1.len() + i] == d2[d1.len() + i]);
        } else {
            assert(d3[d1.len() + i] == d3[d2.len() + (i - a.len())]);
        }
    }
}

/// Lints statements for redundant nestings of parentheses and brackets.
pub struct RedundantNestingLinter {
    diagnostics: Vec<Diagnostic>,
}

impl RedundantNestingLinter {
    /// The diagnostics reported so far.
    pub closed spec fn reported(&self) -> Seq<Diagnostic> {
        self.diagnostics@
    }

    /// A linter that has reported nothing yet.
    pub fn new() -> (r: Self)
        ensures
            r.reported() == Seq::<Diagnostic>::empty(),
    {
        RedundantNestingLinter { diagnostics: Vec::new() }
    }

    /// Reports the nesting `e`, which holds another nesting directly.
    fn report(&mut self, e: &RcExpr, source: &str)
        requires
            is_nesting(*e),
            nestings_readable(seq![*e], source@),
        ensures
            extends_with_nestings(
                final(self).diagnostics@,
                old(self).diagnostics@,
                seq![*e],
                source@,
            ),
    {
        assert(seq![*e][0] == *e);
        let mut nested: &RcExpr = e;
        loop
            invariant
                nest_end(*e) == nest_end(*nested),
            ensures
                nest_end(*e) == *nested,
            decreases *nested,
        {
            match &*nested.expr {
                Expr::Parend(x) => {
                    nested = x;
                },
                Expr::Bracketed(x) => {
                    nested = x;
                },
                _ => {
                    break ;
                },
            }
        }
        let sp = e.span;
        let _n = source.unicode_len();
        let open_span = Span { lo: sp.lo, hi: sp.lo + 1 };
        let close_span = Span { lo: sp.hi - 1, hi: sp.hi };
        let mut fix = text(open_span.over(source));
        push_text(&mut fix, nested.span.over(source));
        push_text(&mut fix, close_span.over(source));
        let d = Diagnostic::span_warn(sp, text("Redundant nesting"), RedundantNestingLinter::code(), None)
            .with_autofix(Autofix::for_sure(text("reduce this nesting"), Edit::Replace(fix)));
        let ghost d0 = self.diagnostics@;
        self.diagnostics.push(d);
        assert(self.diagnostics@[d0.len() as int] == d);
    }

    /// Visits an expression.
    fn visit_expr(&mut self, e: &RcExpr, source: &str)
        requires
            nestings_readable(nest_sites(*e), source@),
        ensures
            extends_with_nestings(
                final(self).diagnostics@,
                old(self).diagnostics@,
                nest_sites(*e),
                source@,
            ),
        decreases e, 0nat,
    {
        let ghost d0 = self.diagnostics@;
        match &*e.expr {
            Expr::Parend(x) | Expr::Bracketed(x) => {
                let ghost head: Seq<RcExpr> = if is_nesting(*x) {
                    seq![*e]
                } else {
                    Seq::empty()
                };
                assert(nest_sites(*e) == head + sites_inside_nesting(*x));
                proof {
                    lemma_readable_split(head, sites_inside_nesting(*x), source@);
                }
                if matches!(&*x.expr, Expr::Parend(_) | Expr::Bracketed(_)) {
                    assert(head =~= seq![*e]);
                    self.report(e, source);
                } else {
                    assert(head.len() == 0);
                    assert(self.diagnostics@ =~= d0);
                }
                let ghost d1 = self.diagnostics@;
                self.visit_inside(x, source);
                proof {
                    lemma_extends_concat(self.diagnostics@, d1, d0, head, sites_inside_nesting(*x), source@);
                }
            },
            Expr::BinaryExpr(b) => {
                proof {
                    lemma_readable_split(nest_sites(b.lhs), nest_sites(b.rhs), source@);
                }
                self.visit_expr(&b.lhs, source);
                let ghost d1 = self.diagnostics@;
                self.visit_expr(&b.rhs, source);
                proof {
                    lemma_extends_concat(self.diagnostics@, d1, d0, nest_sites(b.lhs), nest_sites(b.rhs), source@);
                }
            },
            Expr::UnaryExpr(u) => {
                self.visit_expr(&u.rhs, source);
            },
            _ => {},
        }
    }

    /// Visits the expression inside the nestings starting at `e`.
    fn visit_inside(&mut self, e: &RcExpr, source: &str)
        requires
            nestings_readable(sites_inside_nesting(*e), source@),
        ensures
            extends_with_nestings(
                final(self).diagnostics@,
                old(self).diagnostics@,
                sites_inside_nesting(*e),
                source@,
            ),
        decreases e, 1nat,
    {
        match &*e.expr {
            Expr::Parend(x) => {
                self.visit_inside(x, source);
            },
            Expr::Bracketed(x) => {
                self.visit_inside(x, source);
            },
            _ => {
                self.visit_expr(e, source);
            },
        }
    }

    /// Visits a statement.
    fn visit_stmt(&mut self, stmt: &Stmt, source: &str)
        requires
            nestings_readable(stmt_nest_sites(*stmt), source@),
        ensures
            extends_with_nestings(
                final(self).diagnostics@,
                old(self).diagnostics@,
                stmt_nest_sites(*stmt),
                source@,
            ),
    {
        let ghost d0 = self.diagnostics@;
        match &stmt.kind {
            StmtKind::Expr(e) => {
                self.visit_expr(e, source);
            },
            StmtKind::Assignment(a) => {
                proof {
                    lemma_readable_split(nest_sites(a.lhs), nest_sites(a.rhs), source@);
                }
                self.visit_expr(&a.lhs, source);
                let ghost d1 = self.diagnostics@;
                self.visit_expr(&a.rhs, source);
                proof {
                    lemma_extends_concat(self.diagnostics@, d1, d0, nest_sites(a.lhs), nest_sites(a.rhs), source@);
                }
            },
        }
    }

    /// Lints a statement: one warning for each redundant nesting, in the order a left-to-right
    /// walk meets them.
    pub fn lint_stmt(stmt: &Stmt, source: &str) -> (r: Vec<Diagnostic>)
        requires
            nestings_readable(stmt_nest_sites(*stmt), source@),
        ensures
            r@.len() == stmt_nest_sites(*stmt).len(),
            forall|i: int|
                0 <= i < r@.len() ==> is_redundant_nesting_diag(
                    #[trigger] r@[i],
                    stmt_nest_sites(*stmt)[i],
                    source@,
                ),
    {
        let mut linter = Self::new();
        let ghost d0 = linter.diagnostics@;
        linter.visit_stmt(stmt, source);
        proof {
            let r = linter.diagnostics@;
            assert forall|i: int| 0 <= i < r.len() implies is_redundant_nesting_diag(
                #[trigger] r[i],
                stmt_nest_sites(*stmt)[i],
                source@,
            ) by {
                assert(r[d0.len() + i] == r[i]);
            }
        }
        linter.diagnostics
    }

    /// Lints a statement list: the warnings of each statement, in order.
    pub fn lint(stmt_list: &StmtList, source: &str) -> (r: Vec<Diagnostic>)
        requires
            forall|i: int|
                0 <= i < stmt_list.stmts().len() ==> nestings_readable(
                    #[trigger] stmt_nest_sites(stmt_list.stmts()[i]),
                    source@,
                ),
        ensures
            r@.len() == list_nest_sites(stmt_list.stmts()).len(),
            forall|i: int|
                0 <= i < r@.len() ==> is_redundant_nesting_diag(
                    #[trigger] r@[i],
                    list_nest_sites(stmt_list.stmts())[i],
                    source@,
                ),
    {
        let mut linter = Self::new();
        let ghost stmts = stmt_list.stmts();
        let mut i: usize = 0;
        assert(stmts.take(0) =~= Seq::<Stmt>::empty());
        while i < stmt_list.len()
            invariant
                i <= stmts.len(),
                stmts == stmt_list.stmts(),
                forall|m: int|
                    0 <= m < stmts.len() ==> nestings_readable(
                        #[trigger] stmt_nest_sites(stmts[m]),
                        source@,
                    ),
                extends_with_nestings(
                    linter.diagnostics@,
                    Seq::empty(),
                    list_nest_sites(stmts.take(i as int)),
                    source@,
                ),
            decreases stmts.len() - i,
        {
            let ghost d1 = linter.diagnostics@;
            linter.visit_stmt(stmt_list.get(i), source);
            proof {
                assert(stmts.take(i + 1).drop_last() =~= stmts.take(i as int));
                lemma_extends_concat(
                    linter.diagnostics@,
                    d1,
                    Seq::empty(),
                    list_nest_sites(stmts.take(i as int)),
                    stmt_nest_sites(stmts[i as int]),
                    source@,
                );
            }
            i = i + 1;
        }
        assert(stmts.take(i as int) =~= stmts);
        proof {
            let r = linter.diagnostics@;
            assert forall|m: int| 0 <= m < r.len() implies is_redundant_nesting_diag(
                #[trigger] r[m],
                list_nest_sites(stmts)[m],
                source@,
            ) by {
                assert(r[0 + m] == r[m]);
            }
        }
        linter.diagnostics
    }
}

/// The sites of a list of statements, statement by statement.
pub open spec fn list_nest_sites(stmts: Seq<Stmt>) -> Seq<RcExpr>
    decreases stmts.len(),
{
    if stmts.len() == 0 {
        Seq::empty()
    } else {
        list_nest_sites(stmts.drop_last()) + stmt_nest_sites(stmts.last())
    }
}

impl DiagnosticRecord for RedundantNestingLinter {
    fn code() -> (r: &'static str)
        ensures
            r@ == "L0001"@,
    {
        "L0001"
    }

    fn explanation() -> (r: &'static str)
        ensures
            r@ == "The redundant nesting lint detects redundant nesting of expressions in parantheses or\nbrackets.\n\nFor example, the following nestings are redundant and can be reduced to a single nesting:\n\n```text\n((1))     -> (1)\n[[1]]     -> [1]\n([[(1)]]) -> (1)\n```\n\nRedundant nestings are difficult to read and may be misleading, as generally a single nesting\nis expected to host an expression for precedence or clarity reasons.\n"@,
    {
        "The redundant nesting lint detects redundant nesting of expressions in parantheses or\nbrackets.\n\nFor example, the following nestings are redundant and can be reduced to a single nesting:\n\n```text\n((1))     -> (1)\n[[1]]     -> [1]\n([[(1)]]) -> (1)\n```\n\nRedundant nestings are difficult to read and may be misleading, as generally a single nesting\nis expected to host an expression for precedence or clarity reasons.\n"
    }
}

} // verus!
