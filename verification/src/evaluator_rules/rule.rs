//! Rewrite rules given as mappings between expression patterns.
use crate::evaluator_rules::fn_rules::FnRule;
use crate::evaluator_rules::pattern_match::{MatchRule, PatternMatch};
use crate::evaluator_rules::pattern_match_pat::{lemma_pmatch_unique, lemma_psubst_agree, matches_pat, subst_pat};
use crate::grammar::collectors::{collect_pat_names, name_set, names_distinct};
use crate::grammar::expression_pattern::{ExprPat, RcExprPat, copy_string, pat_names, lemma_same_pat_sym, lemma_same_pat_trans, same_pat};
use crate::emit::pretty_pat;
use crate::grammar::order::{lemma_str_lt_strict_total, str_less, str_lt};
use crate::grammar::{BinaryExpr, UnaryExpr};
use crate::linter::similar_names::insert_key;
use crate::text::{push_text, text};
use vstd::prelude::*;

verus! {

/// A mapping between two expression patterns.
#[derive(Debug)]
pub struct PatternMap {
    /// The pattern to match.
    pub from: RcExprPat,
    /// The pattern to produce.
    pub to: RcExprPat,
}

/// A mapping whose target holds pattern names its source does not bind.
#[derive(Debug)]
pub struct UnresolvedMapping {
    /// The mapping.
    pub map: PatternMap,
    /// The pattern names of the target missing from the source.
    pub unresolved_pats: Vec<String>,
}

/// Matching a rule against a pattern depends only on the pattern's tree, not its spans.
pub proof fn lemma_pmatch_target(rule: RcExprPat, t1: RcExprPat, t2: RcExprPat, m: Map<Seq<char>, RcExprPat>)
    requires
        matches_pat(rule, t1, m),
        same_pat(t1, t2),
    ensures
        matches_pat(rule, t2, m),
    decreases rule,
{
    match (*rule.pat, *t1.pat, *t2.pat) {
        (ExprPat::BinaryExpr(r), ExprPat::BinaryExpr(a), ExprPat::BinaryExpr(b)) => {
            lemma_pmatch_target(r.lhs, a.lhs, b.lhs, m);
            lemma_pmatch_target(r.rhs, a.rhs, b.rhs, m);
        },
        (ExprPat::UnaryExpr(r), ExprPat::UnaryExpr(a), ExprPat::UnaryExpr(b)) => {
            lemma_pmatch_target(r.rhs, a.rhs, b.rhs, m);
        },
        (ExprPat::Parend(r), ExprPat::Parend(a), ExprPat::Parend(b)) => {
            lemma_pmatch_target(r, a, b, m);
        },
        (ExprPat::Bracketed(r), ExprPat::Bracketed(a), ExprPat::Bracketed(b)) => {
            lemma_pmatch_target(r, a, b, m);
        },
        _ => {
            match *rule.pat {
                ExprPat::VarPat(n) => {
                    lemma_same_pat_trans(m[n@], t1, t2);
                },
                ExprPat::ConstPat(n) => {
                    lemma_same_pat_trans(m[n@], t1, t2);
                },
                ExprPat::AnyPat(n) => {
                    lemma_same_pat_trans(m[n@], t1, t2);
                },
                _ => {},
            }
        },
    }
}

/// `p` is a bare pattern name (a variable, constant or any-pattern), which a substitution
/// replaces by the matched part with that part's span.
pub open spec fn is_name_pat(p: RcExprPat) -> bool {
    match *p.pat {
        ExprPat::VarPat(_) | ExprPat::ConstPat(_) | ExprPat::AnyPat(_) => true,
        _ => false,
    }
}

/// `p` with the rule `from -> to` applied on its parts first, keeping `p`'s span.
pub open spec fn rewrite_children(from: RcExprPat, to: RcExprPat, p: RcExprPat) -> RcExprPat
    decreases p, 0int,
{
    match *p.pat {
        ExprPat::BinaryExpr(b) => RcExprPat {
            pat: Box::new(
                ExprPat::BinaryExpr(
                    BinaryExpr {
                        op: b.op,
                        lhs: rewrite_pat(from, to, b.lhs),
                        rhs: rewrite_pat(from, to, b.rhs),
                    },
                ),
            ),
            span: p.span,
        },
        ExprPat::UnaryExpr(u) => RcExprPat {
            pat: Box::new(ExprPat::UnaryExpr(UnaryExpr { op: u.op, rhs: rewrite_pat(from, to, u.rhs) })),
            span: p.span,
        },
        ExprPat::Parend(x) => RcExprPat {
            pat: Box::new(ExprPat::Parend(rewrite_pat(from, to, x))),
            span: p.span,
        },
        ExprPat::Bracketed(x) => RcExprPat {
            pat: Box::new(ExprPat::Bracketed(rewrite_pat(from, to, x))),
            span: p.span,
        },
        _ => p,
    }
}

/// The rule `from -> to` applied bottom-up on `p`: its parts are rewritten first, then, if
/// `from` matches the result, `to` with the matched replacements takes its place.
pub open spec fn rewrite_pat(from: RcExprPat, to: RcExprPat, p: RcExprPat) -> RcExprPat
    decreases p, 1int,
{
    let partial = rewrite_children(from, to, p);
    if exists|m: Map<Seq<char>, RcExprPat>| matches_pat(from, partial, m) {
        subst_pat(to, choose|m: Map<Seq<char>, RcExprPat>| matches_pat(from, partial, m))
    } else {
        partial
    }
}

/// An expression rewrite rule: a mapping between patterns. The rule attempts to match an
/// expression via the pattern [`PatternMap::from`]; if a match is found, an instance of
/// [`PatternMap::to`] with the replacements of the match takes the matched expression's place.
#[derive(Debug)]
pub enum Rule {
    /// A `PatternMap` rewrite rule.
    PatternMap(PatternMap),
    /// An evaluation rule: a function rule that computes the rewritten expression, or gives
    /// nothing when it does not apply.
    Evaluate(FnRule),
}

impl PatternMap {
    /// Every pattern name of the target occurs in the source.
    pub open spec fn resolved(&self) -> bool {
        pat_names(self.to).subset_of(pat_names(self.from))
    }

    /// A copy of the mapping.
    pub fn copy(&self) -> (r: PatternMap)
        ensures
            same_pat(r.from, self.from),
            same_pat(r.to, self.to),
    {
        PatternMap { from: self.from.copy(), to: self.to.copy() }
    }

    /// Checks that a `PatternMap` is resolvable, returning an error naming the pattern names of
    /// the target that the source lacks if it is not.
    pub fn validate(&self) -> (r: Result<(), UnresolvedMapping>)
        ensures
            (r is Ok) == self.resolved(),
            r matches Err(u) ==> same_pat(u.map.from, self.from) && same_pat(u.map.to, self.to)
                && name_set(u.unresolved_pats@) == pat_names(self.to).difference(
                pat_names(self.from),
            ) && names_distinct(u.unresolved_pats@),
    {
        let to_names = collect_pat_names(&self.to);
        let from_names = collect_pat_names(&self.from);
        let mut unresolved_pats: Vec<String> = Vec::new();
        for i in 0..to_names.len()
            invariant
                name_set(to_names@) == pat_names(self.to),
                name_set(from_names@) == pat_names(self.from),
                names_distinct(to_names@),
                names_distinct(unresolved_pats@),
                forall|k: Seq<char>| #[trigger]
                    name_set(unresolved_pats@).contains(k) <==> (exists|j: int|
                        0 <= j < i && to_names@[j]@ == k) && !pat_names(self.from).contains(k),
        {
            let mut found = false;
            for j in 0..from_names.len()
                invariant
                    i < to_names@.len(),
                    found == exists|l: int| 0 <= l < j && from_names@[l]@ == to_names@[i as int]@,
            {
                if from_names[j].eq(&to_names[i]) {
                    found = true;
                }
            }
            proof {
                assert(found == name_set(from_names@).contains(to_names@[i as int]@));
            }
            if !found {
                let ghost before = unresolved_pats@;
                unresolved_pats.push(copy_string(&to_names[i]));
                proof {
                    assert forall|a: int, b: int|
                        0 <= a < b < unresolved_pats@.len() implies unresolved_pats@[a]@
                        != unresolved_pats@[b]@ by {
                        if b == before.len() {
                            if before[a]@ == to_names@[i as int]@ {
                                assert(name_set(before).contains(before[a]@));
                                let j = choose|j: int| 0 <= j < i && to_names@[j]@ == before[a]@;
                                assert(to_names@[j]@ != to_names@[i as int]@);
                            }
                        }
                    }
                    assert forall|k: Seq<char>| #[trigger]
                        name_set(unresolved_pats@).contains(k) <==> (exists|j: int|
                            0 <= j < i + 1 && to_names@[j]@ == k) && !pat_names(self.from).contains(k) by {
                        if name_set(unresolved_pats@).contains(k) {
                            let a = choose|a: int| 0 <= a < unresolved_pats@.len() && unresolved_pats@[a]@ == k;
                            if a < before.len() {
                                assert(before[a] == unresolved_pats@[a]);
                                assert(name_set(before).contains(k));
                            }
                        }
                        if (exists|j: int| 0 <= j < i + 1 && to_names@[j]@ == k) && !pat_names(self.from).contains(k) {
                            let j = choose|j: int| 0 <= j < i + 1 && to_names@[j]@ == k;
                            if j < i {
                                assert(name_set(before).contains(k));
                                let a = choose|a: int| 0 <= a < before.len() && before[a]@ == k;
                                assert(unresolved_pats@[a] == before[a]);
                            } else {
                                assert(unresolved_pats@[before.len() as int]@ == k);
                            }
                        }
                    }
                }
            } else {
                proof {
                    assert forall|k: Seq<char>| #[trigger]
                        name_set(unresolved_pats@).contains(k) <==> (exists|j: int|
                            0 <= j < i + 1 && to_names@[j]@ == k) && !pat_names(self.from).contains(k) by {
                        if (exists|j: int| 0 <= j < i + 1 && to_names@[j]@ == k) && !pat_names(self.from).contains(k) {
                            let j = choose|j: int| 0 <= j < i + 1 && to_names@[j]@ == k;
                            if j == i {
                                assert(name_set(from_names@).contains(k));
                            }
                        }
                    }
                }
            }
        }
        proof {
            assert forall|k: Seq<char>|
                name_set(unresolved_pats@).contains(k) == pat_names(self.to).difference(
                    pat_names(self.from),
                ).contains(k) by {
                if pat_names(self.to).contains(k) {
                    assert(name_set(to_names@).contains(k));
                }
            }
            assert(name_set(unresolved_pats@) =~= pat_names(self.to).difference(pat_names(self.from)));
        }
        if unresolved_pats.len() == 0 {
            proof {
                assert forall|k: Seq<char>| pat_names(self.to).contains(k) implies pat_names(
                    self.from,
                ).contains(k) by {
                    if !pat_names(self.from).contains(k) {
                        assert(pat_names(self.to).difference(pat_names(self.from)).contains(k));
                        assert(name_set(unresolved_pats@).contains(k));
                    }
                }
            }
            return Ok(());
        }
        proof {
            let k = unresolved_pats@[0]@;
            assert(name_set(unresolved_pats@).contains(k));
        }
        Err(UnresolvedMapping { map: self.copy(), unresolved_pats })
    }
}

impl Rule {
    /// Bootstraps a pattern with the rule: the rule is applied recursively on the pattern's
    /// parts, then on the pattern itself.
    pub fn transform(&self, target: &RcExprPat) -> (r: RcExprPat)
        requires
            match self {
                Rule::PatternMap(pm) => pm.resolved(),
                Rule::Evaluate(_) => false,
            },
        ensures
            match self {
                Rule::PatternMap(pm) => same_pat(r, rewrite_pat(pm.from, pm.to, *target)),
                Rule::Evaluate(_) => true,
            },
            match self {
                Rule::PatternMap(pm) => {
                    let partial = rewrite_children(pm.from, pm.to, *target);
                    &&& (!exists|m: Map<Seq<char>, RcExprPat>| matches_pat(pm.from, partial, m))
                        ==> r.span == target.span
                    &&& ((exists|m: Map<Seq<char>, RcExprPat>| matches_pat(pm.from, partial, m))
                        && !is_name_pat(pm.to)) ==> r.span == pm.to.span
                },
                Rule::Evaluate(_) => true,
            },
        decreases target,
    {
        // Only pattern map rules bootstrap patterns.
        let pm = match self {
            Rule::PatternMap(pm) => pm,
            Rule::Evaluate(_) => {
                proof {
                    assert(false);
                }
                return target.copy();
            },
        };
        let og_span = target.span;
        let ghost spec_partial = rewrite_children(pm.from, pm.to, *target);
        // First, apply the rule recursively on the target's subexpressions.
        let partially_transformed = match &*target.pat {
            ExprPat::Const(_) | ExprPat::VarPat(_) | ExprPat::ConstPat(_) | ExprPat::AnyPat(_) => {
                target.copy()
            },
            ExprPat::BinaryExpr(binary_expr) => {
                let lhs = self.transform(&binary_expr.lhs);
                let rhs = self.transform(&binary_expr.rhs);
                RcExprPat::new(ExprPat::BinaryExpr(BinaryExpr { op: binary_expr.op, lhs, rhs }), og_span)
            },
            ExprPat::UnaryExpr(unary_expr) => {
                let rhs = self.transform(&unary_expr.rhs);
                RcExprPat::new(ExprPat::UnaryExpr(UnaryExpr { op: unary_expr.op, rhs }), og_span)
            },
            ExprPat::Parend(expr) => {
                let inner = self.transform(expr);
                RcExprPat::new(ExprPat::Parend(inner), og_span)
            },
            ExprPat::Bracketed(expr) => {
                let inner = self.transform(expr);
                RcExprPat::new(ExprPat::Bracketed(inner), og_span)
            },
        };
        proof {
            lemma_same_pat_sym(partially_transformed, spec_partial);
            assert(same_pat(partially_transformed, spec_partial));
        }
        match PatternMatch::<RcExprPat>::match_rule(&pm.from, &partially_transformed) {
            Some(repls) => {
                let r = repls.transform(&pm.to);
                proof {
                    let mv = repls.view();
                    lemma_pmatch_target(pm.from, partially_transformed, spec_partial, mv);
                    let m = choose|m: Map<Seq<char>, RcExprPat>| matches_pat(pm.from, spec_partial, m);
                    lemma_pmatch_unique(pm.from, spec_partial, mv, m);
                    crate::evaluator_rules::pattern_match::lemma_agree_subset(
                        mv,
                        m,
                        pat_names(pm.from),
                        pat_names(pm.to),
                    );
                    lemma_psubst_agree(pm.to, mv, m);
                    lemma_same_pat_trans(r, subst_pat(pm.to, mv), subst_pat(pm.to, m));
                }
                r
            },
            None => {
                proof {
                    if exists|m: Map<Seq<char>, RcExprPat>| matches_pat(pm.from, spec_partial, m) {
                        let m = choose|m: Map<Seq<char>, RcExprPat>| matches_pat(pm.from, spec_partial, m);
                        lemma_same_pat_sym(partially_transformed, spec_partial);
                        lemma_pmatch_target(pm.from, spec_partial, partially_transformed, m);
                    }
                }
                partially_transformed
            },
        }
    }
}

/// Rewriting respects `same_pat`: patterns that are the same tree rewrite to the same tree.
pub proof fn lemma_rewrite_congruent(from: RcExprPat, to: RcExprPat, a: RcExprPat, b: RcExprPat)
    requires
        pat_names(to).subset_of(pat_names(from)),
        same_pat(a, b),
    ensures
        same_pat(rewrite_pat(from, to, a), rewrite_pat(from, to, b)),
    decreases a,
{
    let ca = rewrite_children(from, to, a);
    let cb = rewrite_children(from, to, b);
    match (*a.pat, *b.pat) {
        (ExprPat::BinaryExpr(x), ExprPat::BinaryExpr(y)) => {
            lemma_rewrite_congruent(from, to, x.lhs, y.lhs);
            lemma_rewrite_congruent(from, to, x.rhs, y.rhs);
        },
        (ExprPat::UnaryExpr(x), ExprPat::UnaryExpr(y)) => {
            lemma_rewrite_congruent(from, to, x.rhs, y.rhs);
        },
        (ExprPat::Parend(x), ExprPat::Parend(y)) => {
            lemma_rewrite_congruent(from, to, x, y);
        },
        (ExprPat::Bracketed(x), ExprPat::Bracketed(y)) => {
            lemma_rewrite_congruent(from, to, x, y);
        },
        _ => {},
    }
    assert(same_pat(ca, cb));
    lemma_same_pat_sym(ca, cb);
    if exists|m: Map<Seq<char>, RcExprPat>| matches_pat(from, ca, m) {
        let m1 = choose|m: Map<Seq<char>, RcExprPat>| matches_pat(from, ca, m);
        lemma_pmatch_target(from, ca, cb, m1);
        let m2 = choose|m: Map<Seq<char>, RcExprPat>| matches_pat(from, cb, m);
        lemma_pmatch_target(from, cb, ca, m2);
        lemma_pmatch_unique(from, ca, m1, m2);
        crate::evaluator_rules::pattern_match::lemma_agree_subset(
            m1,
            m2,
            pat_names(from),
            pat_names(to),
        );
        lemma_psubst_agree(to, m1, m2);
    } else if exists|m: Map<Seq<char>, RcExprPat>| matches_pat(from, cb, m) {
        let m2 = choose|m: Map<Seq<char>, RcExprPat>| matches_pat(from, cb, m);
        lemma_pmatch_target(from, cb, ca, m2);
    }
}

/// The rule is a resolved mapping.
pub open spec fn rule_resolved(rule: Rule) -> bool {
    match rule {
        Rule::PatternMap(pm) => pm.resolved(),
        Rule::Evaluate(_) => false,
    }
}

/// `p` bootstrapped with each of `rules` in turn.
pub open spec fn bootstrap_pat(rules: Seq<Rule>, p: RcExprPat) -> RcExprPat
    decreases rules.len(),
{
    if rules.len() == 0 {
        p
    } else {
        let q = bootstrap_pat(rules.drop_last(), p);
        match rules.last() {
            Rule::PatternMap(pm) => rewrite_pat(pm.from, pm.to, q),
            Rule::Evaluate(_) => q,
        }
    }
}

impl PatternMap {
    /// Bootstraps a pattern with each of `rules` in turn.
    fn bootstrap_one(p: &RcExprPat, rules: &Vec<Rule>) -> (r: RcExprPat)
        requires
            forall|i: int| 0 <= i < rules@.len() ==> rule_resolved(#[trigger] rules@[i]),
        ensures
            same_pat(r, bootstrap_pat(rules@, *p)),
    {
        let mut cur = p.copy();
        let mut i: usize = 0;
        assert(rules@.take(0) =~= Seq::<Rule>::empty());
        proof {
            lemma_same_pat_sym(cur, *p);
        }
        while i < rules.len()
            invariant
                i <= rules@.len(),
                forall|j: int| 0 <= j < rules@.len() ==> rule_resolved(#[trigger] rules@[j]),
                same_pat(cur, bootstrap_pat(rules@.take(i as int), *p)),
            decreases rules@.len() - i,
        {
            let rule = &rules[i];
            assert(rule_resolved(rules@[i as int]));
            let next = rule.transform(&cur);
            proof {
                let t = rules@.take(i + 1);
                assert(t.drop_last() =~= rules@.take(i as int));
                assert(t.last() == rules@[i as int]);
                if *rule is PatternMap {
                    let pm = rule->PatternMap_0;
                    let spec_cur = bootstrap_pat(rules@.take(i as int), *p);
                    lemma_rewrite_congruent(pm.from, pm.to, cur, spec_cur);
                    lemma_same_pat_trans(next, rewrite_pat(pm.from, pm.to, cur), rewrite_pat(pm.from, pm.to, spec_cur));
                }
            }
            cur = next;
            i = i + 1;
        }
        assert(rules@.take(i as int) =~= rules@);
        cur
    }

    /// Bootstraps a `PatternMap` rule with a one-pass application of a rule set, which may
    /// include the rule itself: each of `rules` in turn rewrites both sides of the mapping.
    ///
    /// This lets the rule match evaluated contexts that its string form cannot represent. For
    /// example, the rule `-(_a - _b) -> _b - _a` in its raw form applies only to an expression
    /// with explicit parentheses; bootstrapped with a rule that removes explicit parentheses,
    /// it applies to the implicit form `(- (- _a _b))` as well.
    pub fn bootstrap(&self, bootstrapping_rules: &Vec<Rule>) -> (r: PatternMap)
        requires
            forall|i: int|
                0 <= i < bootstrapping_rules@.len() ==> rule_resolved(
                    #[trigger] bootstrapping_rules@[i],
                ),
        ensures
            same_pat(r.from, bootstrap_pat(bootstrapping_rules@, self.from)),
            same_pat(r.to, bootstrap_pat(bootstrapping_rules@, self.to)),
    {
        let from = PatternMap::bootstrap_one(&self.from, bootstrapping_rules);
        let to = PatternMap::bootstrap_one(&self.to, bootstrapping_rules);
        PatternMap { from, to }
    }
}

/// A name in double quotes.
pub open spec fn quoted(n: Seq<char>) -> Seq<char> {
    "\""@ + n + "\""@
}

/// The names, each in double quotes.
pub open spec fn quote_all(ns: Seq<String>) -> Seq<Seq<char>> {
    ns.map_values(|n: String| quoted(n@))
}

/// The distinct names of `ns`, in increasing order.
pub open spec fn sort_names(ns: Seq<Seq<char>>) -> Seq<Seq<char>>
    decreases ns.len(),
{
    if ns.len() == 0 {
        Seq::empty()
    } else {
        insert_key(sort_names(ns.drop_last()), ns.last())
    }
}

/// The names, separated by `", "`.
pub open spec fn join_names(ns: Seq<Seq<char>>) -> Seq<char>
    decreases ns.len(),
{
    if ns.len() == 0 {
        Seq::empty()
    } else if ns.len() == 1 {
        ns[0]
    } else {
        join_names(ns.drop_last()) + ", "@ + ns.last()
    }
}

/// The text of a mapping: `from -> to`.
pub open spec fn map_text(m: PatternMap) -> Seq<char> {
    pretty_pat(m.from) + " -> "@ + pretty_pat(m.to)
}

/// The message of an unresolved mapping.
pub open spec fn unresolved_text(u: UnresolvedMapping) -> Seq<char> {
    "Could not resolve pattern map\n    \""@ + map_text(u.map) + "\"\nSpecifically, source \""@
        + pretty_pat(u.map.from) + "\" is missing pattern(s) "@ + join_names(
        sort_names(quote_all(u.unresolved_pats@)),
    ) + " present in target \""@ + pretty_pat(u.map.to) + "\""@
}

/// Inserts `x` into the increasing names `v`, unless it is there.
fn insert_name(v: &mut Vec<String>, x: String)
    requires
        crate::linter::similar_names::strictly_sorted(old(v)@.map_values(|s: String| s@)),
    ensures
        final(v)@.map_values(|s: String| s@) == insert_key(old(v)@.map_values(|s: String| s@), x@),
{
    let ghost ks = v@.map_values(|s: String| s@);
    let ghost k = x@;
    proof {
        assert(ks.take(ks.len() as int) =~= ks);
        assert(ks.skip(ks.len() as int) =~= Seq::<Seq<char>>::empty());
    }
    let mut j: usize = v.len();
    loop
        invariant
            j <= v@.len(),
            ks == v@.map_values(|s: String| s@),
            crate::linter::similar_names::strictly_sorted(ks),
            k == x@,
            insert_key(ks, k) == insert_key(ks.take(j as int), k) + ks.skip(j as int),
            forall|i: int| j <= i < ks.len() ==> str_lt(k, #[trigger] ks[i]),
        ensures
            j <= v@.len(),
            insert_key(ks, k) == insert_key(ks.take(j as int), k) + ks.skip(j as int),
            j == 0 || !str_lt(k, ks[j - 1]),
        decreases j,
    {
        if j == 0 {
            break ;
        }
        assert(v@[j - 1]@ == ks[j - 1]);
        if str_less(&x, &v[j - 1]) {
            proof {
                let t = ks.take(j as int);
                lemma_str_lt_strict_total(k, ks[j - 1], k);
                assert(t.last() == ks[j - 1]);
                assert(t.drop_last() =~= ks.take(j - 1));
                assert(ks.skip(j - 1) =~= seq![ks[j - 1]] + ks.skip(j as int));
                assert(insert_key(ks.take(j - 1), k).push(ks[j - 1]) + ks.skip(j as int)
                    =~= insert_key(ks.take(j - 1), k) + ks.skip(j - 1));
            }
            j = j - 1;
        } else {
            break ;
        }
    }
    proof {
        lemma_str_lt_strict_total(k, k, k);
    }
    if j > 0 && v[j - 1].eq(&x) {
        proof {
            let t = ks.take(j as int);
            assert(t.last() == k);
            assert(t + ks.skip(j as int) =~= ks);
        }
    } else {
        proof {
            let t = ks.take(j as int);
            if j > 0 {
                lemma_str_lt_strict_total(k, ks[j - 1], k);
                assert(t.last() == ks[j - 1]);
                assert(insert_key(t, k) == t.push(k));
            } else {
                assert(insert_key(t, k) == seq![k]);
            }
        }
        v.insert(j, x);
        assert(v@.map_values(|s: String| s@) =~= ks.take(j as int).push(k) + ks.skip(j as int));
    }
}

impl PatternMap {
    /// The text of the mapping: `from -> to`.
    pub fn to_string(&self) -> (r: String)
        ensures
            r@ == map_text(*self),
    {
        let mut s = self.from.emit_pretty();
        push_text(&mut s, " -> ");
        let t = self.to.emit_pretty();
        push_text(&mut s, t.as_str());
        s
    }
}

impl Rule {
    /// Creates an evaluation rule from a function rule.
    pub fn from_fn(f: FnRule) -> (r: Rule)
        ensures
            r == Rule::Evaluate(f),
    {
        Rule::Evaluate(f)
    }

    /// The text of the rule: `from -> to`.
    pub fn to_string(&self) -> (r: String)
        ensures
            match self {
                Rule::PatternMap(pm) => r@ == map_text(*pm),
                Rule::Evaluate(f) => r@ == f.name(),
            },
    {
        match self {
            Rule::PatternMap(pm) => pm.to_string(),
            Rule::Evaluate(f) => f.name_text(),
        }
    }
}

impl UnresolvedMapping {
    /// The message of the error: the mapping, and the target's pattern names that its source
    /// lacks, quoted and in increasing order.
    pub fn to_string(&self) -> (r: String)
        ensures
            r@ == unresolved_text(*self),
    {
        let ghost names = quote_all(self.unresolved_pats@);
        let mut sorted: Vec<String> = Vec::new();
        let mut i: usize = 0;
        assert(names.take(0) =~= Seq::<Seq<char>>::empty());
        assert(sorted@.map_values(|s: String| s@) =~= Seq::<Seq<char>>::empty());
        while i < self.unresolved_pats.len()
            invariant
                i <= self.unresolved_pats@.len(),
                names == quote_all(self.unresolved_pats@),
                sorted@.map_values(|s: String| s@) == sort_names(names.take(i as int)),
                crate::linter::similar_names::strictly_sorted(sorted@.map_values(|s: String| s@)),
            decreases self.unresolved_pats@.len() - i,
        {
            let mut q = text("\"");
            push_text(&mut q, self.unresolved_pats[i].as_str());
            push_text(&mut q, "\"");
            assert(q@ == names[i as int]);
            proof {
                crate::linter::similar_names::lemma_insert_key_sorted(
                    sorted@.map_values(|s: String| s@),
                    q@,
                );
            }
            insert_name(&mut sorted, q);
            assert(names.take(i + 1).drop_last() =~= names.take(i as int));
            i = i + 1;
        }
        assert(names.take(i as int) =~= names);
        let ghost ks = sorted@.map_values(|s: String| s@);
        let mut joined = String::new();
        let mut m: usize = 0;
        assert(ks.take(0) =~= Seq::<Seq<char>>::empty());
        while m < sorted.len()
            invariant
                m <= sorted@.len(),
                ks == sorted@.map_values(|s: String| s@),
                joined@ == join_names(ks.take(m as int)),
            decreases sorted@.len() - m,
        {
            if m > 0 {
                push_text(&mut joined, ", ");
            }
            push_text(&mut joined, sorted[m].as_str());
            proof {
                let t = ks.take(m + 1);
                assert(t.drop_last() =~= ks.take(m as int));
                if m == 0 {
                    assert(joined@ =~= t[0]);
                } else {
                    assert(t.last() == sorted@[m as int]@);
                }
            }
            m = m + 1;
        }
        assert(ks.take(m as int) =~= ks);
        let from = self.map.from.emit_pretty();
        let to = self.map.to.emit_pretty();
        let mut s = text("Could not resolve pattern map\n    \"");
        push_text(&mut s, from.as_str());
        push_text(&mut s, " -> ");
        push_text(&mut s, to.as_str());
        push_text(&mut s, "\"\nSpecifically, source \"");
        push_text(&mut s, from.as_str());
        push_text(&mut s, "\" is missing pattern(s) ");
        push_text(&mut s, joined.as_str());
        push_text(&mut s, " present in target \"");
        push_text(&mut s, to.as_str());
        push_text(&mut s, "\"");
        s
    }
}

} // verus!
