//! Linter-like diagnostics for slide programs and expression patterns.
pub mod homogenous_assignment;
pub mod redundant_nesting;
pub mod similar_names;
pub mod unary_series;

use crate::diagnostics::{Diagnostic, DiagnosticRecord, DiagnosticRegistry};
use crate::grammar::expression_pattern::RcExprPat;
use crate::grammar::statement::{RcExpr, Stmt, StmtList};
use crate::linter::homogenous_assignment::HomogenousAssignmentLinter;
use crate::linter::redundant_nesting::{RedundantNestingLinter, is_redundant_nesting_diag, nestings_readable, stmt_nest_sites};
use crate::linter::similar_names::{SimilarNamesLinter, conflicting_keys, is_similar_names_diag, name_uses, names_have_sigils};
use crate::linter::unary_series::{UnarySeriesLinter, is_unary_series_diag, sites_readable, stmt_unary_sites};
use vstd::prelude::*;

verus! {

/// A lint rule that applies to a statement.
#[derive(PartialEq, Eq, Structural, Clone, Copy, Debug)]
pub enum StmtLintRule {
    /// Trivially reducible chains of unary operators.
    UnarySeriesLinter,
    /// Redundant nestings of parentheses and brackets.
    RedundantNestingLinter,
    /// Mixed use of assignment operators (which needs a whole program to apply).
    HomogenousAssignmentLinter,
}

/// A lint rule that applies to an expression pattern.
#[derive(PartialEq, Eq, Structural, Clone, Copy, Debug)]
pub enum ExprPatLintRule {
    /// Names used by more than one kind of pattern.
    SimilarNamesLinter,
}

/// The expressions at which `rule` reports on `s`.
pub open spec fn rule_sites(rule: StmtLintRule, s: Stmt) -> Seq<RcExpr> {
    match rule {
        StmtLintRule::UnarySeriesLinter => stmt_unary_sites(s),
        StmtLintRule::RedundantNestingLinter => stmt_nest_sites(s),
        StmtLintRule::HomogenousAssignmentLinter => Seq::empty(),
    }
}

/// The source text holds what `rule` reads of `s`.
pub open spec fn rule_readable(rule: StmtLintRule, s: Stmt, src: Seq<char>) -> bool {
    match rule {
        StmtLintRule::UnarySeriesLinter => sites_readable(stmt_unary_sites(s), src),
        StmtLintRule::RedundantNestingLinter => nestings_readable(stmt_nest_sites(s), src),
        StmtLintRule::HomogenousAssignmentLinter => true,
    }
}

/// `d` is the diagnostic of `rule` at `e`.
pub open spec fn is_rule_diag(rule: StmtLintRule, d: Diagnostic, e: RcExpr, src: Seq<char>) -> bool {
    match rule {
        StmtLintRule::UnarySeriesLinter => is_unary_series_diag(d, e, src),
        StmtLintRule::RedundantNestingLinter => is_redundant_nesting_diag(d, e, src),
        StmtLintRule::HomogenousAssignmentLinter => false,
    }
}

impl StmtLintRule {
    /// Lints one statement with this rule. Mixed assignment operators need more than one
    /// statement, so that rule reports nothing on one statement.
    pub fn lint(&self, stmt: &Stmt, source: &str) -> (r: Vec<Diagnostic>)
        requires
            rule_readable(*self, *stmt, source@),
        ensures
            r@.len() == rule_sites(*self, *stmt).len(),
            forall|i: int|
                0 <= i < r@.len() ==> is_rule_diag(
                    *self,
                    #[trigger] r@[i],
                    rule_sites(*self, *stmt)[i],
                    source@,
                ),
    {
        match self {
            StmtLintRule::UnarySeriesLinter => UnarySeriesLinter::lint(stmt, source),
            StmtLintRule::RedundantNestingLinter => RedundantNestingLinter::lint_stmt(stmt, source),
            StmtLintRule::HomogenousAssignmentLinter => Vec::new(),
        }
    }

    /// The codes and explanations of the statement lints.
    pub fn all_explanations() -> (r: Vec<(&'static str, &'static str)>)
        ensures
            r@.len() == 3,
            r@[0].0@ == "L0002"@,
            r@[1].0@ == "L0001"@,
            r@[2].0@ == "L0004"@,
    {
        let mut v = Vec::new();
        v.push((UnarySeriesLinter::code(), UnarySeriesLinter::explanation()));
        v.push((RedundantNestingLinter::code(), RedundantNestingLinter::explanation()));
        v.push((HomogenousAssignmentLinter::code(), HomogenousAssignmentLinter::explanation()));
        v
    }
}

impl ExprPatLintRule {
    /// Lints an expression pattern with this rule.
    pub fn lint(&self, expr_pat: &RcExprPat, source: &str) -> (r: Vec<Diagnostic>)
        requires
            names_have_sigils(*expr_pat),
        ensures
            r@.len() == conflicting_keys(name_uses(*expr_pat)).len(),
            forall|i: int|
                0 <= i < r@.len() ==> is_similar_names_diag(
                    #[trigger] r@[i],
                    name_uses(*expr_pat),
                    conflicting_keys(name_uses(*expr_pat))[i],
                ),
    {
        match self {
            ExprPatLintRule::SimilarNamesLinter => SimilarNamesLinter::lint(expr_pat, source),
        }
    }

    /// The codes and explanations of the expression pattern lints.
    pub fn all_explanations() -> (r: Vec<(&'static str, &'static str)>)
        ensures
            r@.len() == 1,
            r@[0].0@ == "L0003"@,
    {
        let mut v = Vec::new();
        v.push((SimilarNamesLinter::code(), SimilarNamesLinter::explanation()));
        v
    }
}

/// The configuration to lint slide grammars with.
pub struct LintConfig {
    /// The rules applied to each statement, in order.
    pub stmt_linters: Vec<StmtLintRule>,
    /// The rules applied to an expression pattern, in order.
    pub expr_pat_linters: Vec<ExprPatLintRule>,
}

/// The statement rules of the default configuration.
pub open spec fn default_stmt_rules() -> Seq<StmtLintRule> {
    seq![StmtLintRule::UnarySeriesLinter, StmtLintRule::RedundantNestingLinter]
}

impl Default for LintConfig {
    fn default() -> (r: Self)
        ensures
            r.stmt_linters@ == default_stmt_rules(),
            r.expr_pat_linters@ == seq![ExprPatLintRule::SimilarNamesLinter],
    {
        let mut stmt_linters = Vec::new();
        stmt_linters.push(StmtLintRule::UnarySeriesLinter);
        stmt_linters.push(StmtLintRule::RedundantNestingLinter);
        let mut expr_pat_linters = Vec::new();
        expr_pat_linters.push(ExprPatLintRule::SimilarNamesLinter);
        assert(stmt_linters@ =~= default_stmt_rules());
        LintConfig { stmt_linters, expr_pat_linters }
    }
}

impl DiagnosticRegistry for LintConfig {
    /// All lint codes and their explanations.
    fn codes_with_explanations() -> (r: Vec<(&'static str, &'static str)>)
        ensures
            r@.len() == 4,
            r@[0].0@ == "L0002"@,
            r@[1].0@ == "L0001"@,
            r@[2].0@ == "L0004"@,
            r@[3].0@ == "L0003"@,
    {
        let mut v = StmtLintRule::all_explanations();
        let mut e = ExprPatLintRule::all_explanations();
        v.append(&mut e);
        v
    }
}

/// The sites at which `rules` report on `s`, rule by rule, each tagged with its rule.
pub open spec fn stmt_sites(rules: Seq<StmtLintRule>, s: Stmt) -> Seq<(StmtLintRule, RcExpr)>
    decreases rules.len(),
{
    if rules.len() == 0 {
        Seq::empty()
    } else {
        stmt_sites(rules.drop_last(), s) + rule_sites(rules.last(), s).map_values(
            |e: RcExpr| (rules.last(), e),
        )
    }
}

/// The sites at which `rules` report on `stmts`, statement by statement.
pub open spec fn list_sites(rules: Seq<StmtLintRule>, stmts: Seq<Stmt>) -> Seq<
    (StmtLintRule, RcExpr),
>
    decreases stmts.len(),
{
    if stmts.len() == 0 {
        Seq::empty()
    } else {
        list_sites(rules, stmts.drop_last()) + stmt_sites(rules, stmts.last())
    }
}

/// `ds` extends `old` by the diagnostics for `sites`.
pub open spec fn extends_with(
    ds: Seq<Diagnostic>,
    old: Seq<Diagnostic>,
    sites: Seq<(StmtLintRule, RcExpr)>,
    src: Seq<char>,
) -> bool {
    &&& ds.len() == old.len() + sites.len()
    &&& forall|i: int| 0 <= i < old.len() ==> ds[i] == old[i]
    &&& forall|i: int|
        0 <= i < sites.len() ==> is_rule_diag(
            sites[i].0,
            #[trigger] ds[old.len() + i],
            sites[i].1,
            src,
        )
}

/// Appends the diagnostics `d` of one rule to `out`.
fn append_rule_diags(
    out: &mut Vec<Diagnostic>,
    d: Vec<Diagnostic>,
    rule: StmtLintRule,
    s: Ghost<Stmt>,
    src: Ghost<Seq<char>>,
)
    requires
        d@.len() == rule_sites(rule, s@).len(),
        forall|i: int|
            0 <= i < d@.len() ==> is_rule_diag(rule, #[trigger] d@[i], rule_sites(rule, s@)[i], src@),
    ensures
        extends_with(
            final(out)@,
            old(out)@,
            rule_sites(rule, s@).map_values(|e: RcExpr| (rule, e)),
            src@,
        ),
{
    let ghost o = out@;
    let mut d = d;
    out.append(&mut d);
    assert forall|i: int| 0 <= i < d@.len() implies #[trigger] out@[o.len() + i] == d@[i] by {}
}

/// Lints a slide statement list with the default statement rules: for each statement, the
/// diagnostics of each rule in turn.
pub fn lint_stmt(stmt_list: &StmtList, source: &str) -> (r: Vec<Diagnostic>)
    requires
        forall|i: int, rule: StmtLintRule|
            0 <= i < stmt_list.stmts().len() ==> #[trigger] rule_readable(
                rule,
                stmt_list.stmts()[i],
                source@,
            ),
    ensures
        extends_with(r@, Seq::empty(), list_sites(default_stmt_rules(), stmt_list.stmts()), source@),
{
    let config = LintConfig::default();
    let ghost rules = config.stmt_linters@;
    let ghost stmts = stmt_list.stmts();
    let mut diags: Vec<Diagnostic> = Vec::new();
    let mut i: usize = 0;
    while i < stmt_list.len()
        invariant
            i <= stmts.len(),
            stmts == stmt_list.stmts(),
            rules == config.stmt_linters@,
            rules == default_stmt_rules(),
            forall|m: int, rule: StmtLintRule|
                0 <= m < stmts.len() ==> #[trigger] rule_readable(rule, stmts[m], source@),
            extends_with(diags@, Seq::empty(), list_sites(rules, stmts.take(i as int)), source@),
        decreases stmts.len() - i,
    {
        let stmt = stmt_list.get(i);
        let ghost before = diags@;
        let mut k: usize = 0;
        while k < config.stmt_linters.len()
            invariant
                k <= rules.len(),
                rules == config.stmt_linters@,
                i < stmts.len(),
                *stmt == stmts[i as int],
                forall|m: int, rule: StmtLintRule|
                    0 <= m < stmts.len() ==> #[trigger] rule_readable(rule, stmts[m], source@),
                extends_with(diags@, before, stmt_sites(rules.take(k as int), *stmt), source@),
            decreases rules.len() - k,
        {
            let rule = config.stmt_linters[k];
            let ghost mid = diags@;
            let d = rule.lint(stmt, source);
            append_rule_diags(&mut diags, d, rule, Ghost(*stmt), Ghost(source@));
            proof {
                let a = stmt_sites(rules.take(k as int), *stmt);
                let b = rule_sites(rule, *stmt).map_values(|e: RcExpr| (rule, e));
                assert(rules.take(k + 1).drop_last() =~= rules.take(k as int));
                assert(stmt_sites(rules.take(k + 1), *stmt) == a + b);
                assert forall|j: int| 0 <= j < (a + b).len() implies is_rule_diag(
                    (a + b)[j].0,
                    #[trigger] diags@[before.len() + j],
                    (a + b)[j].1,
                    source@,
                ) by {
                    if j < a.len() {
                        assert(diags@[before.len() + j] == mid[before.len() + j]);
                    } else {
                        assert(diags@[before.len() + j] == diags@[mid.len() + (j - a.len())]);
                    }
                }
            }
            k = k + 1;
        }
        proof {
            assert(rules.take(k as int) =~= rules);
            let a = list_sites(rules, stmts.take(i as int));
            let b = stmt_sites(rules, *stmt);
            assert(stmts.take(i + 1).drop_last() =~= stmts.take(i as int));
            assert(list_sites(rules, stmts.take(i + 1)) == a + b);
            assert forall|j: int| 0 <= j < (a + b).len() implies is_rule_diag(
                (a + b)[j].0,
                #[trigger] diags@[0 + j],
                (a + b)[j].1,
                source@,
            ) by {
                if j < a.len() {
                    assert(diags@[j] == before[j]);
                } else {
                    assert(diags@[j] == diags@[before.len() + (j - a.len())]);
                }
            }
        }
        i = i + 1;
    }
    assert(stmts.take(i as int) =~= stmts);
    diags
}

/// Lints a slide expression pattern with the default expression pattern rules.
pub fn lint_expr_pat(expr_pat: &RcExprPat, source: &str) -> (r: Vec<Diagnostic>)
    requires
        names_have_sigils(*expr_pat),
    ensures
        r@.len() == conflicting_keys(name_uses(*expr_pat)).len(),
        forall|i: int|
            0 <= i < r@.len() ==> is_similar_names_diag(
                #[trigger] r@[i],
                name_uses(*expr_pat),
                conflicting_keys(name_uses(*expr_pat))[i],
            ),
{
    let config = LintConfig::default();
    assert(config.expr_pat_linters@[0] == ExprPatLintRule::SimilarNamesLinter);
    config.expr_pat_linters[0].lint(expr_pat, source)
}

} // verus!
