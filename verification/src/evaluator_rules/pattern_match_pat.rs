//! Matching expression patterns against other patterns and substituting into them, which
//! bootstraps rules with other rules.
use crate::evaluator_rules::pattern_match::{
    MatchRule, PatternMatch, RcExpression, agree_on, lemma_agree_subset, lemma_pm_view,
};
use crate::grammar::expression_pattern::{
    ExprPat, RcExprPat, copy_string, lemma_same_pat_refl, pat_names, lemma_same_pat_sym,
    lemma_same_pat_trans, same_pat, same_pat_spanned,
};
use crate::grammar::{BinaryExpr, UnaryExpr};
use vstd::prelude::*;

verus! {

/// `rule` matches the pattern `t` wholly with the replacements `m`: a variable pattern
/// stands for a variable pattern, a constant pattern for a constant pattern and an any-pattern
/// for any pattern, each the one `m` gives its name; constants match equal constants, and compound
/// patterns match expressions of the same shape and operator part by part.
pub open spec fn matches_pat(rule: RcExprPat, t: RcExprPat, m: Map<Seq<char>, RcExprPat>) -> bool
    decreases rule,
{
    match (*rule.pat, *t.pat) {
        (ExprPat::VarPat(n), ExprPat::VarPat(_)) => m.dom().contains(n@) && same_pat(m[n@], t),
        (ExprPat::ConstPat(n), ExprPat::ConstPat(_)) => m.dom().contains(n@) && same_pat(m[n@], t),
        (ExprPat::AnyPat(n), _) => m.dom().contains(n@) && same_pat(m[n@], t),
        (ExprPat::Const(a), ExprPat::Const(b)) => a == b,
        (ExprPat::BinaryExpr(r), ExprPat::BinaryExpr(e)) => r.op == e.op && matches_pat(
            r.lhs,
            e.lhs,
            m,
        ) && matches_pat(r.rhs, e.rhs, m),
        (ExprPat::UnaryExpr(r), ExprPat::UnaryExpr(e)) => r.op == e.op && matches_pat(r.rhs, e.rhs, m),
        (ExprPat::Parend(r), ExprPat::Parend(e)) => matches_pat(r, e, m),
        (ExprPat::Bracketed(r), ExprPat::Bracketed(e)) => matches_pat(r, e, m),
        _ => false,
    }
}

/// A pattern match binds every pattern name of the rule.
pub proof fn lemma_pmatch_names(rule: RcExprPat, t: RcExprPat, m: Map<Seq<char>, RcExprPat>)
    requires
        matches_pat(rule, t, m),
    ensures
        pat_names(rule).subset_of(m.dom()),
    decreases rule,
{
    match (*rule.pat, *t.pat) {
        (ExprPat::BinaryExpr(r), ExprPat::BinaryExpr(e)) => {
            lemma_pmatch_names(r.lhs, e.lhs, m);
            lemma_pmatch_names(r.rhs, e.rhs, m);
        },
        (ExprPat::UnaryExpr(r), ExprPat::UnaryExpr(e)) => {
            lemma_pmatch_names(r.rhs, e.rhs, m);
        },
        (ExprPat::Parend(r), ExprPat::Parend(e)) => {
            lemma_pmatch_names(r, e, m);
        },
        (ExprPat::Bracketed(r), ExprPat::Bracketed(e)) => {
            lemma_pmatch_names(r, e, m);
        },
        _ => {},
    }
}

/// Two matches of the same rule on the same pattern agree on the rule's names.
pub proof fn lemma_pmatch_unique(
    rule: RcExprPat,
    t: RcExprPat,
    m1: Map<Seq<char>, RcExprPat>,
    m2: Map<Seq<char>, RcExprPat>,
)
    requires
        matches_pat(rule, t, m1),
        matches_pat(rule, t, m2),
    ensures
        agree_on(m1, m2, pat_names(rule)),
    decreases rule,
{
    match (*rule.pat, *t.pat) {
        (ExprPat::BinaryExpr(r), ExprPat::BinaryExpr(e)) => {
            lemma_pmatch_unique(r.lhs, e.lhs, m1, m2);
            lemma_pmatch_unique(r.rhs, e.rhs, m1, m2);
        },
        (ExprPat::UnaryExpr(r), ExprPat::UnaryExpr(e)) => {
            lemma_pmatch_unique(r.rhs, e.rhs, m1, m2);
        },
        (ExprPat::Parend(r), ExprPat::Parend(e)) => {
            lemma_pmatch_unique(r, e, m1, m2);
        },
        (ExprPat::Bracketed(r), ExprPat::Bracketed(e)) => {
            lemma_pmatch_unique(r, e, m1, m2);
        },
        (ExprPat::Const(_), _) => {},
        _ => {
            match *rule.pat {
                ExprPat::VarPat(n) => {
                    lemma_same_pat_sym(m2[n@], t);
                    lemma_same_pat_trans(m1[n@], t, m2[n@]);
                },
                ExprPat::ConstPat(n) => {
                    lemma_same_pat_sym(m2[n@], t);
                    lemma_same_pat_trans(m1[n@], t, m2[n@]);
                },
                ExprPat::AnyPat(n) => {
                    lemma_same_pat_sym(m2[n@], t);
                    lemma_same_pat_trans(m1[n@], t, m2[n@]);
                },
                _ => {},
            }
        },
    }
}

/// A pattern match carries over to any replacements that agree with it on the rule's names.
pub proof fn lemma_pmatch_transfer(
    rule: RcExprPat,
    t: RcExprPat,
    m1: Map<Seq<char>, RcExprPat>,
    m2: Map<Seq<char>, RcExprPat>,
)
    requires
        matches_pat(rule, t, m1),
        agree_on(m2, m1, pat_names(rule)),
    ensures
        matches_pat(rule, t, m2),
    decreases rule,
{
    match (*rule.pat, *t.pat) {
        (ExprPat::BinaryExpr(r), ExprPat::BinaryExpr(e)) => {
            lemma_agree_subset(m2, m1, pat_names(rule), pat_names(r.lhs));
            lemma_agree_subset(m2, m1, pat_names(rule), pat_names(r.rhs));
            lemma_pmatch_transfer(r.lhs, e.lhs, m1, m2);
            lemma_pmatch_transfer(r.rhs, e.rhs, m1, m2);
        },
        (ExprPat::UnaryExpr(r), ExprPat::UnaryExpr(e)) => {
            lemma_pmatch_transfer(r.rhs, e.rhs, m1, m2);
        },
        (ExprPat::Parend(r), ExprPat::Parend(e)) => {
            lemma_pmatch_transfer(r, e, m1, m2);
        },
        (ExprPat::Bracketed(r), ExprPat::Bracketed(e)) => {
            lemma_pmatch_transfer(r, e, m1, m2);
        },
        (ExprPat::Const(_), _) => {},
        _ => {
            match *rule.pat {
                ExprPat::VarPat(n) => {
                    assert(pat_names(rule).contains(n@));
                    lemma_same_pat_trans(m2[n@], m1[n@], t);
                },
                ExprPat::ConstPat(n) => {
                    assert(pat_names(rule).contains(n@));
                    lemma_same_pat_trans(m2[n@], m1[n@], t);
                },
                ExprPat::AnyPat(n) => {
                    assert(pat_names(rule).contains(n@));
                    lemma_same_pat_trans(m2[n@], m1[n@], t);
                },
                _ => {},
            }
        },
    }
}

/// For pattern targets: a rule whose only part below its root must match the only part below the target's root
/// (with equal operators) is matched exactly when that part is.
proof fn lemma_pmatch_same_sub(rule: RcExprPat, t: RcExprPat, rs: RcExprPat, ts: RcExprPat)
    requires
        forall|m: Map<Seq<char>, RcExprPat>| #[trigger]
            matches_pat(rule, t, m) == matches_pat(rs, ts, m),
    ensures
        (exists|m: Map<Seq<char>, RcExprPat>| matches_pat(rule, t, m)) == (exists|
            m: Map<Seq<char>, RcExprPat>,
        | matches_pat(rs, ts, m)),
{
    if exists|m: Map<Seq<char>, RcExprPat>| matches_pat(rs, ts, m) {
        let m = choose|m: Map<Seq<char>, RcExprPat>| matches_pat(rs, ts, m);
        assert(matches_pat(rule, t, m));
    }
}

impl PatternMatch<RcExprPat> {
    /// The replacements of a single pattern name.
    fn single(name: &String, target: &RcExprPat) -> (r: PatternMatch<RcExprPat>)
        ensures
            r.wf(),
            r.view() == Map::<Seq<char>, RcExprPat>::empty().insert(name@, r.view()[name@]),
            same_pat(r.view()[name@], *target),
    {
        let mut replacements = PatternMatch::empty();
        replacements.insert_name(copy_string(name), target.copy());
        replacements
    }

}

impl MatchRule<RcExprPat> for PatternMatch<RcExprPat> {
    /// Pattern matches a rule template against another pattern. If successful, the results of the
    /// matching are returned as a mapping of rule to target expressions replacements.
    ///
    /// A sucessful pattern matching is one that matches the target expression wholly, abiding the
    /// expression pattern matching rules.
    fn match_rule(rule: &RcExprPat, target: &RcExprPat) -> (r: Option<PatternMatch<RcExprPat>>)
        ensures
            (r is Some) == (exists|m: Map<Seq<char>, RcExprPat>| matches_pat(*rule, *target, m)),
            r matches Some(pm) ==> pm.wf() && matches_pat(*rule, *target, pm.view())
                && pm.view().dom() == pat_names(*rule),
        decreases rule,
    {
        match (&*rule.pat, &*target.pat) {
            // The happiest path -- if a pattern matches an expression, return replacements for it!
            (ExprPat::VarPat(n), ExprPat::VarPat(_)) | (ExprPat::ConstPat(n), ExprPat::ConstPat(_)) | (
                ExprPat::AnyPat(n),
                _,
            ) => {
                let replacements = PatternMatch::<RcExprPat>::single(n, target);
                assert(replacements.view().dom() =~= pat_names(*rule));
                assert(matches_pat(*rule, *target, replacements.view()));
                Some(replacements)
            },
            (ExprPat::Const(a), ExprPat::Const(b)) => {
                if *a != *b {
                    // Constants don't match; rule can't be applied.
                    return None;
                }
                // Constant values are... constant, so there is no need to replace them.
                let replacements = PatternMatch::empty();
                assert(replacements.view().dom() =~= pat_names(*rule));
                assert(matches_pat(*rule, *target, replacements.view()));
                Some(replacements)
            },
            (ExprPat::BinaryExpr(r), ExprPat::BinaryExpr(e)) => {
                if r.op != e.op {
                    return None;
                }
                // Expressions are of the same type; match the rest of the expression by recursing on
                // the arguments.
                let replacements_lhs = match Self::match_rule(&r.lhs, &e.lhs) {
                    Some(m) => m,
                    None => {
                        proof {
                            if exists|m: Map<Seq<char>, RcExprPat>| matches_pat(*rule, *target, m) {
                                let m = choose|m: Map<Seq<char>, RcExprPat>|
                                    matches_pat(*rule, *target, m);
                                assert(matches_pat(r.lhs, e.lhs, m));
                            }
                        }
                        return None;
                    },
                };
                let replacements_rhs = match Self::match_rule(&r.rhs, &e.rhs) {
                    Some(m) => m,
                    None => {
                        proof {
                            if exists|m: Map<Seq<char>, RcExprPat>| matches_pat(*rule, *target, m) {
                                let m = choose|m: Map<Seq<char>, RcExprPat>|
                                    matches_pat(*rule, *target, m);
                                assert(matches_pat(r.rhs, e.rhs, m));
                            }
                        }
                        return None;
                    },
                };
                let ghost lv = replacements_lhs.view();
                let ghost rv = replacements_rhs.view();
                let merged = PatternMatch::<RcExprPat>::try_merge(replacements_lhs, replacements_rhs);
                proof {
                    if merged is Some {
                            let mv = (merged->0).view();
                            assert forall|k: Seq<char>| #![trigger pat_names(r.lhs).contains(k)]
                                pat_names(r.lhs).contains(k) implies mv.dom().contains(k)
                                && lv.dom().contains(k) && mv[k].same_as(&lv[k]) by {
                                lemma_same_pat_refl(lv[k]);
                            }
                            lemma_pmatch_transfer(r.lhs, e.lhs, lv, mv);
                            assert forall|k: Seq<char>| #![trigger pat_names(r.rhs).contains(k)]
                                pat_names(r.rhs).contains(k) implies mv.dom().contains(k)
                                && rv.dom().contains(k) && mv[k].same_as(&rv[k]) by {
                                if lv.dom().contains(k) {
                                    assert(lv[k].same_as(&rv[k]));
                                } else {
                                    lemma_same_pat_refl(rv[k]);
                                }
                            }
                            lemma_pmatch_transfer(r.rhs, e.rhs, rv, mv);
                            assert(mv.dom() =~= pat_names(*rule));
                            assert(matches_pat(*rule, *target, mv));
                    } else {
                            if exists|m: Map<Seq<char>, RcExprPat>| matches_pat(*rule, *target, m) {
                                let m = choose|m: Map<Seq<char>, RcExprPat>|
                                    matches_pat(*rule, *target, m);
                                lemma_pmatch_unique(r.lhs, e.lhs, lv, m);
                                lemma_pmatch_unique(r.rhs, e.rhs, rv, m);
                                assert forall|k: Seq<char>|
                                    lv.dom().contains(k) && rv.dom().contains(k) implies #[trigger] lv[k].same_as(
                                    &rv[k],
                                ) by {
                                    assert(pat_names(r.lhs).contains(k));
                                    assert(pat_names(r.rhs).contains(k));
                                    lemma_same_pat_sym(rv[k], m[k]);
                                    lemma_same_pat_trans(lv[k], m[k], rv[k]);
                                }
                                assert(PatternMatch::<RcExprPat>::compatible(lv, rv));
                            }
                    }
                }
                merged
            },
            (ExprPat::UnaryExpr(r), ExprPat::UnaryExpr(e)) => {
                if r.op != e.op {
                    return None;
                }
                // Expressions are of the same type; match the rest of the expression by recursing on
                // the argument.
                let res = Self::match_rule(&r.rhs, &e.rhs);
                proof {
                    lemma_pmatch_same_sub(*rule, *target, r.rhs, e.rhs);
                }
                res
            },
            (ExprPat::Parend(r), ExprPat::Parend(e)) => {
                let res = Self::match_rule(r, e);
                proof {
                    lemma_pmatch_same_sub(*rule, *target, *r, *e);
                }
                res
            },
            (ExprPat::Bracketed(r), ExprPat::Bracketed(e)) => {
                let res = Self::match_rule(r, e);
                proof {
                    lemma_pmatch_same_sub(*rule, *target, *r, *e);
                }
                res
            },
            _ => {
                proof {
                    assert forall|m: Map<Seq<char>, RcExprPat>| !matches_pat(*rule, *target, m) by {}
                }
                None
            },
        }
    }
}

/// `p` with each pattern name replaced by the pattern `m` gives it; every other node is built
/// anew with the pattern's span.
pub open spec fn subst_pat(p: RcExprPat, m: Map<Seq<char>, RcExprPat>) -> RcExprPat
    decreases p,
{
    match *p.pat {
        ExprPat::VarPat(n) => m[n@],
        ExprPat::ConstPat(n) => m[n@],
        ExprPat::AnyPat(n) => m[n@],
        ExprPat::Const(c) => RcExprPat { pat: Box::new(ExprPat::Const(c)), span: p.span },
        ExprPat::BinaryExpr(b) => RcExprPat {
            pat: Box::new(
                ExprPat::BinaryExpr(
                    BinaryExpr { op: b.op, lhs: subst_pat(b.lhs, m), rhs: subst_pat(b.rhs, m) },
                ),
            ),
            span: p.span,
        },
        ExprPat::UnaryExpr(u) => RcExprPat {
            pat: Box::new(ExprPat::UnaryExpr(UnaryExpr { op: u.op, rhs: subst_pat(u.rhs, m) })),
            span: p.span,
        },
        ExprPat::Parend(x) => RcExprPat { pat: Box::new(ExprPat::Parend(subst_pat(x, m))), span: p.span },
        ExprPat::Bracketed(x) => RcExprPat {
            pat: Box::new(ExprPat::Bracketed(subst_pat(x, m))),
            span: p.span,
        },
    }
}

/// Substituting the replacements of a pattern match into the rule gives back the matched
/// pattern.
pub proof fn lemma_pmatch_then_subst(rule: RcExprPat, target: RcExprPat, m: Map<Seq<char>, RcExprPat>)
    requires
        matches_pat(rule, target, m),
    ensures
        same_pat(subst_pat(rule, m), target),
    decreases rule,
{
    match (*rule.pat, *target.pat) {
        (ExprPat::BinaryExpr(r), ExprPat::BinaryExpr(e)) => {
            lemma_pmatch_then_subst(r.lhs, e.lhs, m);
            lemma_pmatch_then_subst(r.rhs, e.rhs, m);
        },
        (ExprPat::UnaryExpr(r), ExprPat::UnaryExpr(e)) => {
            lemma_pmatch_then_subst(r.rhs, e.rhs, m);
        },
        (ExprPat::Parend(r), ExprPat::Parend(e)) => {
            lemma_pmatch_then_subst(r, e, m);
        },
        (ExprPat::Bracketed(r), ExprPat::Bracketed(e)) => {
            lemma_pmatch_then_subst(r, e, m);
        },
        _ => {},
    }
}

/// Pattern replacements that agree on a pattern's names substitute into the same pattern.
pub proof fn lemma_psubst_agree(p: RcExprPat, m1: Map<Seq<char>, RcExprPat>, m2: Map<Seq<char>, RcExprPat>)
    requires
        agree_on(m1, m2, pat_names(p)),
    ensures
        same_pat(subst_pat(p, m1), subst_pat(p, m2)),
    decreases p,
{
    match *p.pat {
        ExprPat::VarPat(n) => {
            assert(pat_names(p).contains(n@));
        },
        ExprPat::ConstPat(n) => {
            assert(pat_names(p).contains(n@));
        },
        ExprPat::AnyPat(n) => {
            assert(pat_names(p).contains(n@));
        },
        ExprPat::BinaryExpr(b) => {
            lemma_agree_subset(m1, m2, pat_names(p), pat_names(b.lhs));
            lemma_agree_subset(m1, m2, pat_names(p), pat_names(b.rhs));
            lemma_psubst_agree(b.lhs, m1, m2);
            lemma_psubst_agree(b.rhs, m1, m2);
        },
        ExprPat::UnaryExpr(u) => {
            lemma_psubst_agree(u.rhs, m1, m2);
        },
        ExprPat::Parend(x) => {
            lemma_psubst_agree(x, m1, m2);
        },
        ExprPat::Bracketed(x) => {
            lemma_psubst_agree(x, m1, m2);
        },
        _ => {},
    }
}

impl PatternMatch<RcExprPat> {
    /// Transforms a pattern into another pattern by replacing patterns with target patterns
    /// known by the `PatternMatch`.
    ///
    /// This transformation can be used to apply a rule on an expression by transforming the RHS
    /// using patterns matched between the LHS of the rule and the target expression.
    pub fn transform(&self, item: &RcExprPat) -> (r: RcExprPat)
        requires
            self.wf(),
            pat_names(*item).subset_of(self.view().dom()),
        ensures
            same_pat(r, subst_pat(*item, self.view())),
            same_pat_spanned(r, subst_pat(*item, self.view())),
        decreases item,
    {
        let og_span = item.span;
        match &*item.pat {
            ExprPat::VarPat(n) | ExprPat::ConstPat(n) | ExprPat::AnyPat(n) => {
                proof {
                    assert(pat_names(*item).contains(n@));
                    lemma_pm_view(self.map@);
                }
                match self.find(n) {
                    Some(i) => self.map[i].1.copy(),
                    None => {
                        // every name of the pattern has a replacement
                        proof {
                            assert(false);
                        }
                        RcExprPat::new(ExprPat::VarPat(copy_string(n)), og_span)
                    },
                }
            },
            ExprPat::Const(c) => {
                let r = RcExprPat::new(ExprPat::Const(*c), og_span);
                proof {
                    lemma_same_pat_refl(r);
                }
                r
            },
            ExprPat::BinaryExpr(b) => {
                let lhs = self.transform(&b.lhs);
                let rhs = self.transform(&b.rhs);
                RcExprPat::new(ExprPat::BinaryExpr(BinaryExpr { op: b.op, lhs, rhs }), og_span)
            },
            ExprPat::UnaryExpr(u) => {
                let rhs = self.transform(&u.rhs);
                RcExprPat::new(ExprPat::UnaryExpr(UnaryExpr { op: u.op, rhs }), og_span)
            },
            ExprPat::Parend(x) => {
                let inner = self.transform(x);
                RcExprPat::new(ExprPat::Parend(inner), og_span)
            },
            ExprPat::Bracketed(x) => {
                let inner = self.transform(x);
                RcExprPat::new(ExprPat::Bracketed(inner), og_span)
            },
        }
    }
}

} // verus!
