//! Matching expression patterns against expressions (or other patterns), and substituting the
//! matched parts into patterns.
use crate::grammar::expression_pattern::{
    ExprPat, RcExprPat, copy_string, pat_names, lemma_same_pat_refl, lemma_same_pat_sym,
    lemma_same_pat_trans, same_pat,
};
use crate::grammar::{BinaryExpr, UnaryExpr};
use crate::grammar::statement::{
    Expr, RcExpr, lemma_same_expr_refl, lemma_same_expr_sym, lemma_same_expr_trans, same_expr,
    same_expr_spanned,
};
use vstd::prelude::*;

verus! {

/// An expression tree that patterns can be matched against: it can be copied, and compared
/// with another tree regardless of spans.
pub trait RcExpression: Sized {
    /// The two trees are the same, whatever their spans.
    spec fn same_as(&self, other: &Self) -> bool;

    /// `same_as` is an equivalence.
    proof fn lemma_same_as_equiv(a: &Self, b: &Self, c: &Self)
        ensures
            a.same_as(a),
            a.same_as(b) ==> b.same_as(a),
            a.same_as(b) && b.same_as(c) ==> a.same_as(c),
    ;

    /// Whether the two trees are the same, whatever their spans.
    fn same(&self, other: &Self) -> (r: bool)
        ensures
            r == self.same_as(other),
    ;

    /// A copy of the tree.
    fn copy(&self) -> (r: Self)
        ensures
            r.same_as(self),
    ;
}

impl RcExpression for RcExpr {
    open spec fn same_as(&self, other: &Self) -> bool {
        same_expr(*self, *other)
    }

    proof fn lemma_same_as_equiv(a: &Self, b: &Self, c: &Self) {
        lemma_same_expr_refl(*a);
        lemma_same_expr_sym(*a, *b);
        lemma_same_expr_trans(*a, *b, *c);
    }

    fn same(&self, other: &Self) -> (r: bool) {
        RcExpr::same(self, other)
    }

    fn copy(&self) -> (r: Self) {
        RcExpr::copy(self)
    }
}

impl RcExpression for RcExprPat {
    open spec fn same_as(&self, other: &Self) -> bool {
        same_pat(*self, *other)
    }

    proof fn lemma_same_as_equiv(a: &Self, b: &Self, c: &Self) {
        lemma_same_pat_refl(*a);
        lemma_same_pat_sym(*a, *b);
        lemma_same_pat_trans(*a, *b, *c);
    }

    fn same(&self, other: &Self) -> (r: bool) {
        RcExprPat::same(self, other)
    }

    fn copy(&self) -> (r: Self) {
        RcExprPat::copy(self)
    }
}

/// Represents pattern-matched replacements betwen a rule and a target expression: each pattern
/// name (like `#a`) is mapped to the target subexpression it matched (like `10`).
///
/// The rhs of a rule may be transformed with a `PatternMatch` to obtain the result of a rule
/// applied on a target expression.
pub struct PatternMatch<E> {
    /// The replacements, by pattern name; no name occurs twice.
    pub map: Vec<(String, E)>,
}

/// The replacements `s` as a map from pattern names.
pub open spec fn pm_view<E>(s: Seq<(String, E)>) -> Map<Seq<char>, E>
    decreases s.len(),
{
    if s.len() == 0 {
        Map::empty()
    } else {
        pm_view(s.drop_last()).insert(s.last().0@, s.last().1)
    }
}

/// No pattern name occurs twice in `s`.
pub open spec fn keys_unique<E>(s: Seq<(String, E)>) -> bool {
    forall|i: int, j: int| 0 <= i < j < s.len() ==> s[i].0@ != s[j].0@
}

/// The names of `s` are exactly the names of its map, and each entry is what the map holds.
pub proof fn lemma_pm_view<E>(s: Seq<(String, E)>)
    requires
        keys_unique(s),
    ensures
        forall|k: Seq<char>| #[trigger]
            pm_view(s).dom().contains(k) <==> exists|i: int| 0 <= i < s.len() && s[i].0@ == k,
        forall|i: int| 0 <= i < s.len() ==> #[trigger] pm_view(s)[s[i].0@] == s[i].1,
    decreases s.len(),
{
    if s.len() > 0 {
        let t = s.drop_last();
        lemma_pm_view(t);
        let n = s.len() - 1;
        assert(pm_view(s) == pm_view(t).insert(s[n].0@, s[n].1));
        assert forall|k: Seq<char>| #[trigger]
            pm_view(s).dom().contains(k) <==> exists|i: int| 0 <= i < s.len() && s[i].0@ == k by {
            if pm_view(s).dom().contains(k) {
                if k == s[n].0@ {
                } else {
                    assert(pm_view(t).dom().contains(k));
                    let i = choose|i: int| 0 <= i < t.len() && t[i].0@ == k;
                    assert(s[i].0@ == k);
                }
            }
            if exists|i: int| 0 <= i < s.len() && s[i].0@ == k {
                let i = choose|i: int| 0 <= i < s.len() && s[i].0@ == k;
                if i < n {
                    assert(t[i].0@ == k);
                }
            }
        }
        assert forall|i: int| 0 <= i < s.len() implies #[trigger] pm_view(s)[s[i].0@] == s[i].1 by {
            if i < n {
                assert(t[i] == s[i]);
                assert(s[i].0@ != s[n].0@);
            }
        }
    }
}

/// A map of distinct names has as many entries as names.
proof fn lemma_pm_view_len<E>(s: Seq<(String, E)>)
    requires
        keys_unique(s),
    ensures
        pm_view(s).dom().finite(),
        pm_view(s).dom().len() == s.len(),
    decreases s.len(),
{
    if s.len() > 0 {
        let t = s.drop_last();
        lemma_pm_view_len(t);
        lemma_pm_view(t);
        assert(pm_view(s) == pm_view(t).insert(s.last().0@, s.last().1));
        assert(!pm_view(t).dom().contains(s.last().0@)) by {
            if pm_view(t).dom().contains(s.last().0@) {
                let i = choose|i: int| 0 <= i < t.len() && t[i].0@ == s.last().0@;
                assert(s[i].0@ == s[s.len() - 1].0@);
            }
        }
    }
}

/// Replacing the entry of an existing name replaces its value in the map.
proof fn lemma_pm_view_update<E>(s: Seq<(String, E)>, i: int, k: String, v: E)
    requires
        keys_unique(s),
        0 <= i < s.len(),
        k@ == s[i].0@,
    ensures
        pm_view(s.update(i, (k, v))) == pm_view(s).insert(k@, v),
        keys_unique(s.update(i, (k, v))),
    decreases s.len(),
{
    let u = s.update(i, (k, v));
    let n = s.len() - 1;
    assert(pm_view(u) == pm_view(u.drop_last()).insert(u[n].0@, u[n].1));
    assert(pm_view(s) == pm_view(s.drop_last()).insert(s[n].0@, s[n].1));
    if i == n {
        assert(u.drop_last() =~= s.drop_last());
        assert(pm_view(u) =~= pm_view(s).insert(k@, v));
    } else {
        assert(u.drop_last() =~= s.drop_last().update(i, (k, v)));
        lemma_pm_view_update(s.drop_last(), i, k, v);
        assert(s[i].0@ != s[n].0@);
        assert(pm_view(u) =~= pm_view(s).insert(k@, v));
    }
}

impl<E: RcExpression> PatternMatch<E> {
    /// The replacements as a map from pattern names.
    pub open spec fn view(&self) -> Map<Seq<char>, E> {
        pm_view(self.map@)
    }

    /// No pattern name is replaced twice.
    pub open spec fn wf(&self) -> bool {
        keys_unique(self.map@)
    }

    /// A `PatternMatch` with no replacements.
    pub fn empty() -> (r: Self)
        ensures
            r.wf(),
            r.view() == Map::<Seq<char>, E>::empty(),
    {
        PatternMatch { map: Vec::new() }
    }

    /// The position of the replacement for `name`, if any.
    pub(crate) fn find(&self, name: &String) -> (r: Option<usize>)
        requires
            self.wf(),
        ensures
            r is None ==> !self.view().dom().contains(name@),
            r matches Some(i) ==> i < self.map@.len() && self.map@[i as int].0@ == name@,
    {
        proof {
            lemma_pm_view(self.map@);
        }
        for i in 0..self.map.len()
            invariant
                forall|j: int| 0 <= j < i ==> self.map@[j].0@ != name@,
        {
            if self.map[i].0.eq(name) {
                return Some(i);
            }
        }
        None
    }

    /// Sets the replacement of the pattern name `name` to `v`, returning the replacement it had
    /// before, if any.
    pub fn insert_name(&mut self, name: String, v: E) -> (r: Option<E>)
        requires
            old(self).wf(),
        ensures
            final(self).wf(),
            final(self).view() == old(self).view().insert(name@, v),
            old(self).view().dom().contains(name@) ==> (r matches Some(o) && o == old(
                self,
            ).view()[name@]),
            !old(self).view().dom().contains(name@) ==> r is None,
    {
        proof {
            lemma_pm_view(self.map@);
        }
        match self.find(&name) {
            Some(i) => {
                let ghost s = self.map@;
                let ghost key = name;
                let (_, old_v) = self.map.remove(i);
                self.map.insert(i, (name, v));
                proof {
                    assert(self.map@ =~= s.update(i as int, (key, v)));
                    lemma_pm_view_update(s, i as int, key, v);
                }
                Some(old_v)
            },
            None => {
                let ghost s = self.map@;
                self.map.push((name, v));
                proof {
                    assert(self.map@.drop_last() =~= s);
                    assert forall|a: int, b: int| 0 <= a < b < self.map@.len() implies self.map@[a].0@
                        != self.map@[b].0@ by {
                        if b == s.len() {
                            assert(s[a].0@ != name@);
                        }
                    }
                }
                None
            },
        }
    }
    /// The name of a pattern variable (`$a`, `#a` or `_a`).
    pub open spec fn leaf_name(k: RcExprPat) -> Seq<char> {
        match *k.pat {
            ExprPat::VarPat(n) => n@,
            ExprPat::ConstPat(n) => n@,
            ExprPat::AnyPat(n) => n@,
            _ => Seq::empty(),
        }
    }

    /// Sets the replacement of the pattern variable `k` to `v`, returning the replacement it had
    /// before, if any.
    pub fn insert(&mut self, k: &RcExprPat, v: E) -> (r: Option<E>)
        requires
            old(self).wf(),
            *k.pat is VarPat || *k.pat is ConstPat || *k.pat is AnyPat,
        ensures
            final(self).wf(),
            final(self).view() == old(self).view().insert(Self::leaf_name(*k), v),
            old(self).view().dom().contains(Self::leaf_name(*k)) ==> (r matches Some(o) && o == old(
                self,
            ).view()[Self::leaf_name(*k)]),
            !old(self).view().dom().contains(Self::leaf_name(*k)) ==> r is None,
    {
        let name = match &*k.pat {
            ExprPat::VarPat(n) | ExprPat::ConstPat(n) | ExprPat::AnyPat(n) => copy_string(n),
            _ => String::new(),
        };
        self.insert_name(name, v)
    }

    /// The replacement of the pattern name `name`, if any.
    pub fn get(&self, name: &String) -> (r: Option<&E>)
        requires
            self.wf(),
        ensures
            r is Some == self.view().dom().contains(name@),
            r matches Some(e) ==> *e == self.view()[name@],
    {
        proof {
            lemma_pm_view(self.map@);
        }
        match self.find(name) {
            Some(i) => Some(&self.map[i].1),
            None => None,
        }
    }

    /// The number of replacements.
    pub fn len(&self) -> (r: usize)
        requires
            self.wf(),
        ensures
            r == self.view().dom().len(),
    {
        proof {
            lemma_pm_view_len(self.map@);
        }
        self.map.len()
    }

    /// Whether the replacements of `left` and `right` agree on every pattern name they share.
    pub open spec fn compatible(left: Map<Seq<char>, E>, right: Map<Seq<char>, E>) -> bool {
        forall|k: Seq<char>|
            left.dom().contains(k) && right.dom().contains(k) ==> #[trigger] left[k].same_as(
                &right[k],
            )
    }

    /// Merges two `PatternMatch`es. If they replace a common pattern name with different
    /// expressions, merging fails and nothing is returned; otherwise the merge holds every
    /// replacement of either, those of `left` where both have one.
    pub fn try_merge(left: PatternMatch<E>, right: PatternMatch<E>) -> (r: Option<PatternMatch<E>>)
        requires
            left.wf(),
            right.wf(),
        ensures
            (r is Some) == Self::compatible(left.view(), right.view()),
            r matches Some(m) ==> m.wf() && m.view().dom() == left.view().dom().union(
                right.view().dom(),
            ) && (forall|k: Seq<char>| #[trigger]
                left.view().dom().contains(k) ==> m.view()[k] == left.view()[k]) && (forall|
                k: Seq<char>,
            |
                #![trigger right.view()[k]]
                right.view().dom().contains(k) && !left.view().dom().contains(k) ==> m.view()[k]
                    == right.view()[k]),
    {
        let ghost lv = left.view();
        let ghost rv = right.view();
        let ghost orig = right.map@;
        proof {
            lemma_pm_view(orig);
        }
        let mut replacements = left;
        let mut rest = right.map;
        while rest.len() > 0
            invariant
                replacements.wf(),
                keys_unique(orig),
                rv == pm_view(orig),
                lv == left.view(),
                rv == right.view(),
                rest@ == orig.take(rest@.len() as int),
                rest@.len() <= orig.len(),
                forall|i: int| 0 <= i < orig.len() ==> #[trigger] pm_view(orig)[orig[i].0@] == orig[i].1,
                forall|k: Seq<char>| #[trigger]
                    pm_view(orig).dom().contains(k) <==> exists|i: int|
                        0 <= i < orig.len() && orig[i].0@ == k,
                forall|k: Seq<char>| #[trigger]
                    replacements.view().dom().contains(k) <==> (lv.dom().contains(k) || exists|j: int|
                        rest@.len() <= j < orig.len() && orig[j].0@ == k),
                forall|k: Seq<char>| #[trigger]
                    lv.dom().contains(k) ==> replacements.view()[k] == lv[k],
                forall|j: int|
                    rest@.len() <= j < orig.len() && !lv.dom().contains(#[trigger] orig[j].0@)
                        ==> replacements.view()[orig[j].0@] == orig[j].1,
                forall|j: int|
                    rest@.len() <= j < orig.len() && lv.dom().contains(#[trigger] orig[j].0@)
                        ==> lv[orig[j].0@].same_as(&orig[j].1),
            ensures
                rest@.len() == 0,
            decreases rest@.len(),
        {
            let ghost n = rest@.len() - 1;
            let (from, to_r) = rest.pop().unwrap();
            assert(orig[n].0 == from && orig[n].1 == to_r);
            match replacements.find(&from) {
                Some(i) => {
                    proof {
                        lemma_pm_view(replacements.map@);
                        assert(replacements.map@[i as int].0@ == from@);
                        assert(replacements.view().dom().contains(from@));
                        if !lv.dom().contains(from@) {
                            let j = choose|j: int| n + 1 <= j < orig.len() && orig[j].0@ == from@;
                            assert(orig[j].0@ == orig[n].0@);
                            assert(false);
                        }
                    }
                    if !to_r.same(&replacements.map[i].1) {
                        // Replacement already exists and its value does not match; bail out.
                        proof {
                            assert(rv.dom().contains(from@));
                            assert(rv[from@] == to_r);
                            assert(replacements.map@[i as int].1 == replacements.view()[from@]);
                            assert(replacements.view()[from@] == lv[from@]);
                            E::lemma_same_as_equiv(&lv[from@], &to_r, &to_r);
                            assert(!lv[from@].same_as(&rv[from@]));
                            assert(!Self::compatible(lv, rv));
                        }
                        return None;
                    }
                    proof {
                        E::lemma_same_as_equiv(&to_r, &lv[from@], &lv[from@]);
                        assert forall|k: Seq<char>| #[trigger]
                            replacements.view().dom().contains(k) <==> (lv.dom().contains(k)
                                || exists|j: int| rest@.len() <= j < orig.len() && orig[j].0@ == k) by {
                            if exists|j: int| rest@.len() <= j < orig.len() && orig[j].0@ == k {
                                let j = choose|j: int| rest@.len() <= j < orig.len() && orig[j].0@ == k;
                                if j > n {
                                    assert(rest@.len() + 1 <= j);
                                }
                            }
                        }
                    }
                },
                None => {
                    let ghost before = replacements.view();
                    replacements.insert_name(from, to_r);
                    proof {
                        assert(!lv.dom().contains(orig[n].0@));
                        assert forall|k: Seq<char>| #[trigger]
                            replacements.view().dom().contains(k) <==> (lv.dom().contains(k)
                                || exists|j: int| rest@.len() <= j < orig.len() && orig[j].0@ == k) by {
                            if exists|j: int| rest@.len() <= j < orig.len() && orig[j].0@ == k {
                                let j = choose|j: int| rest@.len() <= j < orig.len() && orig[j].0@ == k;
                                if j > n {
                                    assert(rest@.len() + 1 <= j);
                                }
                            }
                            if replacements.view().dom().contains(k) && k != orig[n].0@ {
                                assert(before.dom().contains(k));
                            }
                        }
                        assert forall|j: int|
                            rest@.len() <= j < orig.len() && !lv.dom().contains(#[trigger] orig[j].0@)
                                implies replacements.view()[orig[j].0@] == orig[j].1 by {
                            if j > n {
                                assert(orig[j].0@ != orig[n].0@);
                            }
                        }
                    }
                },
            }
            assert(rest@ =~= orig.take(rest@.len() as int));
        }
        proof {
            assert forall|k: Seq<char>|
                lv.dom().contains(k) && rv.dom().contains(k) implies #[trigger] lv[k].same_as(
                &rv[k],
            ) by {
                let j = choose|j: int| 0 <= j < orig.len() && orig[j].0@ == k;
                assert(orig[j].0@ == k);
            }
            assert(replacements.view().dom() =~= lv.dom().union(rv.dom()));
            assert forall|k: Seq<char>|
                #![trigger rv[k]]
                rv.dom().contains(k) && !lv.dom().contains(k) implies replacements.view()[k]
                    == rv[k] by {
                let j = choose|j: int| 0 <= j < orig.len() && orig[j].0@ == k;
                assert(orig[j].0@ == k);
            }
        }
        Some(replacements)
    }
}

/// `rule` matches the expression `t` wholly with the replacements `m`: a variable pattern
/// stands for a variable, a constant pattern for a constant and an any-pattern for any
/// expression, each the one `m` gives its name; constants match equal constants, and compound
/// patterns match expressions of the same shape and operator part by part.
pub open spec fn matches_expr(rule: RcExprPat, t: RcExpr, m: Map<Seq<char>, RcExpr>) -> bool
    decreases rule,
{
    match (*rule.pat, *t.expr) {
        (ExprPat::VarPat(n), Expr::Var(_)) => m.dom().contains(n@) && same_expr(m[n@], t),
        (ExprPat::ConstPat(n), Expr::Const(_)) => m.dom().contains(n@) && same_expr(m[n@], t),
        (ExprPat::AnyPat(n), _) => m.dom().contains(n@) && same_expr(m[n@], t),
        (ExprPat::Const(a), Expr::Const(b)) => a == b,
        (ExprPat::BinaryExpr(r), Expr::BinaryExpr(e)) => r.op == e.op && matches_expr(
            r.lhs,
            e.lhs,
            m,
        ) && matches_expr(r.rhs, e.rhs, m),
        (ExprPat::UnaryExpr(r), Expr::UnaryExpr(e)) => r.op == e.op && matches_expr(r.rhs, e.rhs, m),
        (ExprPat::Parend(r), Expr::Parend(e)) => matches_expr(r, e, m),
        (ExprPat::Bracketed(r), Expr::Bracketed(e)) => matches_expr(r, e, m),
        _ => false,
    }
}

/// Two replacement maps agree (up to spans) on the names `names`, which the second has.
pub open spec fn agree_on<E: RcExpression>(
    m1: Map<Seq<char>, E>,
    m2: Map<Seq<char>, E>,
    names: Set<Seq<char>>,
) -> bool {
    forall|k: Seq<char>|
        #![trigger names.contains(k)]
        names.contains(k) ==> m1.dom().contains(k) && m2.dom().contains(k) && m1[k].same_as(&m2[k])
}

/// Agreement on a set of names holds on any subset of it.
pub proof fn lemma_agree_subset<E: RcExpression>(
    m1: Map<Seq<char>, E>,
    m2: Map<Seq<char>, E>,
    big: Set<Seq<char>>,
    small: Set<Seq<char>>,
)
    requires
        agree_on(m1, m2, big),
        small.subset_of(big),
    ensures
        agree_on(m1, m2, small),
{
    assert forall|k: Seq<char>| #![trigger small.contains(k)] small.contains(k) implies m1.dom().contains(
        k,
    ) && m2.dom().contains(k) && m1[k].same_as(&m2[k]) by {
        assert(big.contains(k));
    }
}

/// A match binds every pattern name of the rule.
pub proof fn lemma_match_names(rule: RcExprPat, t: RcExpr, m: Map<Seq<char>, RcExpr>)
    requires
        matches_expr(rule, t, m),
    ensures
        pat_names(rule).subset_of(m.dom()),
    decreases rule,
{
    match (*rule.pat, *t.expr) {
        (ExprPat::BinaryExpr(r), Expr::BinaryExpr(e)) => {
            lemma_match_names(r.lhs, e.lhs, m);
            lemma_match_names(r.rhs, e.rhs, m);
        },
        (ExprPat::UnaryExpr(r), Expr::UnaryExpr(e)) => {
            lemma_match_names(r.rhs, e.rhs, m);
        },
        (ExprPat::Parend(r), Expr::Parend(e)) => {
            lemma_match_names(r, e, m);
        },
        (ExprPat::Bracketed(r), Expr::Bracketed(e)) => {
            lemma_match_names(r, e, m);
        },
        _ => {},
    }
}

/// Two matches of the same rule on the same expression agree on the rule's names.
pub proof fn lemma_match_unique(
    rule: RcExprPat,
    t: RcExpr,
    m1: Map<Seq<char>, RcExpr>,
    m2: Map<Seq<char>, RcExpr>,
)
    requires
        matches_expr(rule, t, m1),
        matches_expr(rule, t, m2),
    ensures
        agree_on(m1, m2, pat_names(rule)),
    decreases rule,
{
    match (*rule.pat, *t.expr) {
        (ExprPat::BinaryExpr(r), Expr::BinaryExpr(e)) => {
            lemma_match_unique(r.lhs, e.lhs, m1, m2);
            lemma_match_unique(r.rhs, e.rhs, m1, m2);
        },
        (ExprPat::UnaryExpr(r), Expr::UnaryExpr(e)) => {
            lemma_match_unique(r.rhs, e.rhs, m1, m2);
        },
        (ExprPat::Parend(r), Expr::Parend(e)) => {
            lemma_match_unique(r, e, m1, m2);
        },
        (ExprPat::Bracketed(r), Expr::Bracketed(e)) => {
            lemma_match_unique(r, e, m1, m2);
        },
        (ExprPat::Const(_), _) => {},
        _ => {
            match *rule.pat {
                ExprPat::VarPat(n) => {
                    lemma_same_expr_sym(m2[n@], t);
                    lemma_same_expr_trans(m1[n@], t, m2[n@]);
                },
                ExprPat::ConstPat(n) => {
                    lemma_same_expr_sym(m2[n@], t);
                    lemma_same_expr_trans(m1[n@], t, m2[n@]);
                },
                ExprPat::AnyPat(n) => {
                    lemma_same_expr_sym(m2[n@], t);
                    lemma_same_expr_trans(m1[n@], t, m2[n@]);
                },
                _ => {},
            }
        },
    }
}

/// A match carries over to any replacements that agree with it on the rule's names.
pub proof fn lemma_match_transfer(
    rule: RcExprPat,
    t: RcExpr,
    m1: Map<Seq<char>, RcExpr>,
    m2: Map<Seq<char>, RcExpr>,
)
    requires
        matches_expr(rule, t, m1),
        agree_on(m2, m1, pat_names(rule)),
    ensures
        matches_expr(rule, t, m2),
    decreases rule,
{
    match (*rule.pat, *t.expr) {
        (ExprPat::BinaryExpr(r), Expr::BinaryExpr(e)) => {
            lemma_agree_subset(m2, m1, pat_names(rule), pat_names(r.lhs));
            lemma_agree_subset(m2, m1, pat_names(rule), pat_names(r.rhs));
            lemma_match_transfer(r.lhs, e.lhs, m1, m2);
            lemma_match_transfer(r.rhs, e.rhs, m1, m2);
        },
        (ExprPat::UnaryExpr(r), Expr::UnaryExpr(e)) => {
            lemma_match_transfer(r.rhs, e.rhs, m1, m2);
        },
        (ExprPat::Parend(r), Expr::Parend(e)) => {
            lemma_match_transfer(r, e, m1, m2);
        },
        (ExprPat::Bracketed(r), Expr::Bracketed(e)) => {
            lemma_match_transfer(r, e, m1, m2);
        },
        (ExprPat::Const(_), _) => {},
        _ => {
            match *rule.pat {
                ExprPat::VarPat(n) => {
                    assert(pat_names(rule).contains(n@));
                    lemma_same_expr_trans(m2[n@], m1[n@], t);
                },
                ExprPat::ConstPat(n) => {
                    assert(pat_names(rule).contains(n@));
                    lemma_same_expr_trans(m2[n@], m1[n@], t);
                },
                ExprPat::AnyPat(n) => {
                    assert(pat_names(rule).contains(n@));
                    lemma_same_expr_trans(m2[n@], m1[n@], t);
                },
                _ => {},
            }
        },
    }
}

/// A rule whose only part below its root must match the only part below the target's root
/// (with equal operators) is matched exactly when that part is.
proof fn lemma_match_same_sub(rule: RcExprPat, t: RcExpr, rs: RcExprPat, ts: RcExpr)
    requires
        forall|m: Map<Seq<char>, RcExpr>| #[trigger]
            matches_expr(rule, t, m) == matches_expr(rs, ts, m),
    ensures
        (exists|m: Map<Seq<char>, RcExpr>| matches_expr(rule, t, m)) == (exists|
            m: Map<Seq<char>, RcExpr>,
        | matches_expr(rs, ts, m)),
{
    if exists|m: Map<Seq<char>, RcExpr>| matches_expr(rs, ts, m) {
        let m = choose|m: Map<Seq<char>, RcExpr>| matches_expr(rs, ts, m);
        assert(matches_expr(rule, t, m));
    }
}

/// Pattern matches a rule template against a target. If successful, the results of the matching
/// are returned as a mapping of rule patterns to target replacements.
///
/// A sucessful pattern matching is one that matches the target wholly, abiding the expression
/// pattern matching rules.
pub trait MatchRule<E>: Sized {
    /// Matches `rule` against `target`.
    fn match_rule(rule: &RcExprPat, target: &E) -> Option<PatternMatch<E>>;
}

impl PatternMatch<RcExpr> {
    /// The replacements of a single pattern name.
    fn single(name: &String, target: &RcExpr) -> (r: PatternMatch<RcExpr>)
        ensures
            r.wf(),
            r.view() == Map::<Seq<char>, RcExpr>::empty().insert(name@, r.view()[name@]),
            same_expr(r.view()[name@], *target),
    {
        let mut replacements = PatternMatch::empty();
        replacements.insert_name(copy_string(name), target.copy());
        replacements
    }

}

impl MatchRule<RcExpr> for PatternMatch<RcExpr> {
    /// Pattern matches a rule template against an expression. If successful, the results of the
    /// matching are returned as a mapping of rule to target expressions replacements.
    ///
    /// A sucessful pattern matching is one that matches the target expression wholly, abiding the
    /// expression pattern matching rules.
    fn match_rule(rule: &RcExprPat, target: &RcExpr) -> (r: Option<PatternMatch<RcExpr>>)
        ensures
            (r is Some) == (exists|m: Map<Seq<char>, RcExpr>| matches_expr(*rule, *target, m)),
            r matches Some(pm) ==> pm.wf() && matches_expr(*rule, *target, pm.view())
                && pm.view().dom() == pat_names(*rule),
        decreases rule,
    {
        match (&*rule.pat, &*target.expr) {
            // The happiest path -- if a pattern matches an expression, return replacements for it!
            (ExprPat::VarPat(n), Expr::Var(_)) | (ExprPat::ConstPat(n), Expr::Const(_)) | (
                ExprPat::AnyPat(n),
                _,
            ) => {
                let replacements = PatternMatch::<RcExpr>::single(n, target);
                assert(replacements.view().dom() =~= pat_names(*rule));
                assert(matches_expr(*rule, *target, replacements.view()));
                Some(replacements)
            },
            (ExprPat::Const(a), Expr::Const(b)) => {
                if *a != *b {
                    // Constants don't match; rule can't be applied.
                    return None;
                }
                // Constant values are... constant, so there is no need to replace them.
                let replacements = PatternMatch::empty();
                assert(replacements.view().dom() =~= pat_names(*rule));
                assert(matches_expr(*rule, *target, replacements.view()));
                Some(replacements)
            },
            (ExprPat::BinaryExpr(r), Expr::BinaryExpr(e)) => {
                if r.op != e.op {
                    return None;
                }
                // Expressions are of the same type; match the rest of the expression by recursing on
                // the arguments.
                let replacements_lhs = match Self::match_rule(&r.lhs, &e.lhs) {
                    Some(m) => m,
                    None => {
                        proof {
                            if exists|m: Map<Seq<char>, RcExpr>| matches_expr(*rule, *target, m) {
                                let m = choose|m: Map<Seq<char>, RcExpr>|
                                    matches_expr(*rule, *target, m);
                                assert(matches_expr(r.lhs, e.lhs, m));
                            }
                        }
                        return None;
                    },
                };
                let replacements_rhs = match Self::match_rule(&r.rhs, &e.rhs) {
                    Some(m) => m,
                    None => {
                        proof {
                            if exists|m: Map<Seq<char>, RcExpr>| matches_expr(*rule, *target, m) {
                                let m = choose|m: Map<Seq<char>, RcExpr>|
                                    matches_expr(*rule, *target, m);
                                assert(matches_expr(r.rhs, e.rhs, m));
                            }
                        }
                        return None;
                    },
                };
                let ghost lv = replacements_lhs.view();
                let ghost rv = replacements_rhs.view();
                let merged = PatternMatch::<RcExpr>::try_merge(replacements_lhs, replacements_rhs);
                proof {
                    if merged is Some {
                            let mv = (merged->0).view();
                            assert forall|k: Seq<char>| #![trigger pat_names(r.lhs).contains(k)]
                                pat_names(r.lhs).contains(k) implies mv.dom().contains(k)
                                && lv.dom().contains(k) && mv[k].same_as(&lv[k]) by {
                                lemma_same_expr_refl(lv[k]);
                            }
                            lemma_match_transfer(r.lhs, e.lhs, lv, mv);
                            assert forall|k: Seq<char>| #![trigger pat_names(r.rhs).contains(k)]
                                pat_names(r.rhs).contains(k) implies mv.dom().contains(k)
                                && rv.dom().contains(k) && mv[k].same_as(&rv[k]) by {
                                if lv.dom().contains(k) {
                                    assert(lv[k].same_as(&rv[k]));
                                } else {
                                    lemma_same_expr_refl(rv[k]);
                                }
                            }
                            lemma_match_transfer(r.rhs, e.rhs, rv, mv);
                            assert(mv.dom() =~= pat_names(*rule));
                            assert(matches_expr(*rule, *target, mv));
                    } else {
                            if exists|m: Map<Seq<char>, RcExpr>| matches_expr(*rule, *target, m) {
                                let m = choose|m: Map<Seq<char>, RcExpr>|
                                    matches_expr(*rule, *target, m);
                                lemma_match_unique(r.lhs, e.lhs, lv, m);
                                lemma_match_unique(r.rhs, e.rhs, rv, m);
                                assert forall|k: Seq<char>|
                                    lv.dom().contains(k) && rv.dom().contains(k) implies #[trigger] lv[k].same_as(
                                    &rv[k],
                                ) by {
                                    assert(pat_names(r.lhs).contains(k));
                                    assert(pat_names(r.rhs).contains(k));
                                    lemma_same_expr_sym(rv[k], m[k]);
                                    lemma_same_expr_trans(lv[k], m[k], rv[k]);
                                }
                                assert(PatternMatch::<RcExpr>::compatible(lv, rv));
                            }
                    }
                }
                merged
            },
            (ExprPat::UnaryExpr(r), Expr::UnaryExpr(e)) => {
                if r.op != e.op {
                    return None;
                }
                // Expressions are of the same type; match the rest of the expression by recursing on
                // the argument.
                let res = Self::match_rule(&r.rhs, &e.rhs);
                proof {
                    lemma_match_same_sub(*rule, *target, r.rhs, e.rhs);
                }
                res
            },
            (ExprPat::Parend(r), Expr::Parend(e)) => {
                let res = Self::match_rule(r, e);
                proof {
                    lemma_match_same_sub(*rule, *target, *r, *e);
                }
                res
            },
            (ExprPat::Bracketed(r), Expr::Bracketed(e)) => {
                let res = Self::match_rule(r, e);
                proof {
                    lemma_match_same_sub(*rule, *target, *r, *e);
                }
                res
            },
            _ => {
                proof {
                    assert forall|m: Map<Seq<char>, RcExpr>| !matches_expr(*rule, *target, m) by {}
                }
                None
            },
        }
    }
}

/// `p` with each pattern name replaced by what `m` gives it; every other node is built anew
/// with the pattern's span.
pub open spec fn subst_expr(p: RcExprPat, m: Map<Seq<char>, RcExpr>) -> RcExpr
    decreases p,
{
    match *p.pat {
        ExprPat::VarPat(n) => m[n@],
        ExprPat::ConstPat(n) => m[n@],
        ExprPat::AnyPat(n) => m[n@],
        ExprPat::Const(c) => RcExpr { expr: Box::new(Expr::Const(c)), span: p.span },
        ExprPat::BinaryExpr(b) => RcExpr {
            expr: Box::new(
                Expr::BinaryExpr(
                    BinaryExpr { op: b.op, lhs: subst_expr(b.lhs, m), rhs: subst_expr(b.rhs, m) },
                ),
            ),
            span: p.span,
        },
        ExprPat::UnaryExpr(u) => RcExpr {
            expr: Box::new(Expr::UnaryExpr(UnaryExpr { op: u.op, rhs: subst_expr(u.rhs, m) })),
            span: p.span,
        },
        ExprPat::Parend(x) => RcExpr { expr: Box::new(Expr::Parend(subst_expr(x, m))), span: p.span },
        ExprPat::Bracketed(x) => RcExpr {
            expr: Box::new(Expr::Bracketed(subst_expr(x, m))),
            span: p.span,
        },
    }
}

/// Substituting the replacements of a match into the rule gives back the matched expression.
pub proof fn lemma_match_then_subst(rule: RcExprPat, target: RcExpr, m: Map<Seq<char>, RcExpr>)
    requires
        matches_expr(rule, target, m),
    ensures
        same_expr(subst_expr(rule, m), target),
    decreases rule,
{
    match (*rule.pat, *target.expr) {
        (ExprPat::BinaryExpr(r), Expr::BinaryExpr(e)) => {
            lemma_match_then_subst(r.lhs, e.lhs, m);
            lemma_match_then_subst(r.rhs, e.rhs, m);
        },
        (ExprPat::UnaryExpr(r), Expr::UnaryExpr(e)) => {
            lemma_match_then_subst(r.rhs, e.rhs, m);
        },
        (ExprPat::Parend(r), Expr::Parend(e)) => {
            lemma_match_then_subst(r, e, m);
        },
        (ExprPat::Bracketed(r), Expr::Bracketed(e)) => {
            lemma_match_then_subst(r, e, m);
        },
        _ => {},
    }
}

/// Replacements that agree on a pattern's names substitute into the same expression.
pub proof fn lemma_subst_agree(p: RcExprPat, m1: Map<Seq<char>, RcExpr>, m2: Map<Seq<char>, RcExpr>)
    requires
        agree_on(m1, m2, pat_names(p)),
    ensures
        same_expr(subst_expr(p, m1), subst_expr(p, m2)),
    decreases p,
{
    match *p.pat {
        ExprPat::VarPat(n) => {
            assert(pat_names(p).contains(n@));
        },
        ExprPat::ConstPat(n) => {
            assert(pat_names(p).contains(n@));
        },
        ExprPat::AnyPat(n) => {
            assert(pat_names(p).contains(n@));
        },
        ExprPat::BinaryExpr(b) => {
            lemma_agree_subset(m1, m2, pat_names(p), pat_names(b.lhs));
            lemma_agree_subset(m1, m2, pat_names(p), pat_names(b.rhs));
            lemma_subst_agree(b.lhs, m1, m2);
            lemma_subst_agree(b.rhs, m1, m2);
        },
        ExprPat::UnaryExpr(u) => {
            lemma_subst_agree(u.rhs, m1, m2);
        },
        ExprPat::Parend(x) => {
            lemma_subst_agree(x, m1, m2);
        },
        ExprPat::Bracketed(x) => {
            lemma_subst_agree(x, m1, m2);
        },
        _ => {},
    }
}

impl PatternMatch<RcExpr> {
    /// Transforms a pattern expression into an expression by replacing patterns with target
    /// expressions known by the `PatternMatch`.
    ///
    /// This transformation can be used to apply a rule on an expression by transforming the RHS
    /// using patterns matched between the LHS of the rule and the target expression.
    pub fn transform(&self, item: &RcExprPat) -> (r: RcExpr)
        requires
            self.wf(),
            pat_names(*item).subset_of(self.view().dom()),
        ensures
            same_expr(r, subst_expr(*item, self.view())),
            same_expr_spanned(r, subst_expr(*item, self.view())),
        decreases item,
    {
        let og_span = item.span;
        match &*item.pat {
            ExprPat::VarPat(n) | ExprPat::ConstPat(n) | ExprPat::AnyPat(n) => {
                proof {
                    assert(pat_names(*item).contains(n@));
                    lemma_pm_view(self.map@);
                }
                match self.find(n) {
                    Some(i) => self.map[i].1.copy(),
                    None => {
                        // every name of the pattern has a replacement
                        proof {
                            assert(false);
                        }
                        RcExpr::new(Expr::Var(copy_string(n)), og_span)
                    },
                }
            },
            ExprPat::Const(c) => {
                let r = RcExpr::new(Expr::Const(*c), og_span);
                proof {
                    lemma_same_expr_refl(r);
                }
                r
            },
            ExprPat::BinaryExpr(b) => {
                let lhs = self.transform(&b.lhs);
                let rhs = self.transform(&b.rhs);
                RcExpr::new(Expr::BinaryExpr(BinaryExpr { op: b.op, lhs, rhs }), og_span)
            },
            ExprPat::UnaryExpr(u) => {
                let rhs = self.transform(&u.rhs);
                RcExpr::new(Expr::UnaryExpr(UnaryExpr { op: u.op, rhs }), og_span)
            },
            ExprPat::Parend(x) => {
                let inner = self.transform(x);
                RcExpr::new(Expr::Parend(inner), og_span)
            },
            ExprPat::Bracketed(x) => {
                let inner = self.transform(x);
                RcExpr::new(Expr::Bracketed(inner), og_span)
            },
        }
    }
}

} // verus!
