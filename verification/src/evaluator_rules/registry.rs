//! Rule sets: named built-in rules and custom rules, and building them into rules that an
//! evaluator applies.
use crate::common::Span;
use crate::evaluator_rules::fn_rules::FnRule;
use crate::evaluator_rules::rule::{
    PatternMap, Rule, UnresolvedMapping, bootstrap_pat, map_text, rule_resolved,
};
use crate::grammar::expression_pattern::{ExprPat, RcExprPat, pat_names, same_pat};
use crate::grammar::{BinaryExpr, BinaryOperator, Rational, UnaryExpr, UnaryOperator};
use crate::emit::{
    binop_str, brackets, digit_char, nat_str, nat_to_string, operand_pat, parens, pretty_pat, unop_str,
};
use crate::evaluator_rules::rule::unresolved_text;
use crate::text::{chars_of, push_text, text};
use vstd::prelude::*;

verus! {

/// Built-in rewrite rule names, in the order in which a rule set builds them.
#[derive(Clone, Copy, Debug, PartialEq, Eq, Structural)]
pub enum RuleName {
    /// Unwraps parentheses.
    UnwrapExplicitParens,
    /// Unwraps brackets.
    UnwrapExplicitBrackets,
    /// Binary addition.
    Add,
    /// Binary subtraction.
    Subtract,
    /// Binary multiplication.
    Multiply,
    /// Binary division.
    Divide,
    /// Binary modulo.
    Modulo,
    /// Binary exponentiation.
    Exponentiate,
    /// Unary posation.
    Posate,
    /// Unary negation.
    Negate,
    /// The multiplicative identity `a*1=a`.
    MultiplicateIdentity,
    /// The additive identity `a+0=a`.
    AdditiveIdentity,
    /// The additive inverse `a+(-a)=0`.
    AdditiveInverse,
    /// The equivalent additive identity `a-0=a`.
    SubtractiveIdentity,
    /// The commutative axiom with constants.
    ReorderConstants,
    /// The distributive axiom on negation.
    DistributeNegation,
    /// Collapses the addition of a negation to a subtraction.
    FoldNegatedAddition,
    /// Collapses the multiplication of a reciprocal to a division.
    FoldDivision,
    /// Exponentiation axioms.
    FoldExponents,
    /// Exponentiation identity `a^0=a`.
    ExponentiativeIdentity,
}

/// The number of built-in rule names.
pub const NUM_RULE_NAMES: usize = 20;

/// The position of a name in the build order.
pub open spec fn rank(n: RuleName) -> int {
    match n {
        RuleName::UnwrapExplicitParens => 0,
        RuleName::UnwrapExplicitBrackets => 1,
        RuleName::Add => 2,
        RuleName::Subtract => 3,
        RuleName::Multiply => 4,
        RuleName::Divide => 5,
        RuleName::Modulo => 6,
        RuleName::Exponentiate => 7,
        RuleName::Posate => 8,
        RuleName::Negate => 9,
        RuleName::MultiplicateIdentity => 10,
        RuleName::AdditiveIdentity => 11,
        RuleName::AdditiveInverse => 12,
        RuleName::SubtractiveIdentity => 13,
        RuleName::ReorderConstants => 14,
        RuleName::DistributeNegation => 15,
        RuleName::FoldNegatedAddition => 16,
        RuleName::FoldDivision => 17,
        RuleName::FoldExponents => 18,
        RuleName::ExponentiativeIdentity => 19,
    }
}

/// The name at a position of the build order.
pub open spec fn name_at(i: int) -> RuleName {
    if i <= 0 {
        RuleName::UnwrapExplicitParens
    } else if i == 1 {
        RuleName::UnwrapExplicitBrackets
    } else if i == 2 {
        RuleName::Add
    } else if i == 3 {
        RuleName::Subtract
    } else if i == 4 {
        RuleName::Multiply
    } else if i == 5 {
        RuleName::Divide
    } else if i == 6 {
        RuleName::Modulo
    } else if i == 7 {
        RuleName::Exponentiate
    } else if i == 8 {
        RuleName::Posate
    } else if i == 9 {
        RuleName::Negate
    } else if i == 10 {
        RuleName::MultiplicateIdentity
    } else if i == 11 {
        RuleName::AdditiveIdentity
    } else if i == 12 {
        RuleName::AdditiveInverse
    } else if i == 13 {
        RuleName::SubtractiveIdentity
    } else if i == 14 {
        RuleName::ReorderConstants
    } else if i == 15 {
        RuleName::DistributeNegation
    } else if i == 16 {
        RuleName::FoldNegatedAddition
    } else if i == 17 {
        RuleName::FoldDivision
    } else if i == 18 {
        RuleName::FoldExponents
    } else {
        RuleName::ExponentiativeIdentity
    }
}

/// The position of a name in the build order.
pub fn rank_of(n: RuleName) -> (r: usize)
    ensures
        r == rank(n),
        r < NUM_RULE_NAMES,
        name_at(r as int) == n,
{
    match n {
        RuleName::UnwrapExplicitParens => 0,
        RuleName::UnwrapExplicitBrackets => 1,
        RuleName::Add => 2,
        RuleName::Subtract => 3,
        RuleName::Multiply => 4,
        RuleName::Divide => 5,
        RuleName::Modulo => 6,
        RuleName::Exponentiate => 7,
        RuleName::Posate => 8,
        RuleName::Negate => 9,
        RuleName::MultiplicateIdentity => 10,
        RuleName::AdditiveIdentity => 11,
        RuleName::AdditiveInverse => 12,
        RuleName::SubtractiveIdentity => 13,
        RuleName::ReorderConstants => 14,
        RuleName::DistributeNegation => 15,
        RuleName::FoldNegatedAddition => 16,
        RuleName::FoldDivision => 17,
        RuleName::FoldExponents => 18,
        RuleName::ExponentiativeIdentity => 19,
    }
}

/// An unbuilt rule: a mapping rule, several mapping rules that together express one rule, or
/// a function rule.
#[derive(Debug)]
pub enum UnbuiltRule {
    /// A mapping rule.
    S(PatternMap),
    /// Several mapping rules.
    M(Vec<PatternMap>),
    /// A function rule.
    F(FnRule),
}

/// Named rules are not bootstrapped when they are the bootstrapping rules themselves.
pub open spec fn blacklisted(name: Option<RuleName>) -> bool {
    name == Some(RuleName::UnwrapExplicitParens) || name == Some(RuleName::UnwrapExplicitBrackets)
}

/// What building one mapping gives: nothing for an unresolved mapping; otherwise the mapping
/// bootstrapped with `boot` (unless the name is blacklisted), then the mapping itself.
pub open spec fn map_built(bl: bool, pm: PatternMap, boot: Seq<Rule>) -> Seq<Rule> {
    if !pm.resolved() {
        Seq::empty()
    } else if bl {
        seq![Rule::PatternMap(pm)]
    } else {
        seq![
            Rule::PatternMap(
                PatternMap { from: bootstrap_pat(boot, pm.from), to: bootstrap_pat(boot, pm.to) },
            ),
            Rule::PatternMap(pm),
        ]
    }
}

/// The unresolved mapping among `pm`, if it is one.
pub open spec fn map_errors(pm: PatternMap) -> Seq<PatternMap> {
    if pm.resolved() {
        Seq::empty()
    } else {
        seq![pm]
    }
}

/// What building the mappings `maps` in turn gives.
pub open spec fn maps_built(bl: bool, maps: Seq<PatternMap>, boot: Seq<Rule>) -> Seq<Rule>
    decreases maps.len(),
{
    if maps.len() == 0 {
        Seq::empty()
    } else {
        maps_built(bl, maps.drop_last(), boot) + map_built(bl, maps.last(), boot)
    }
}

/// The unresolved mappings among `maps`, in order.
pub open spec fn maps_errors(maps: Seq<PatternMap>) -> Seq<PatternMap>
    decreases maps.len(),
{
    if maps.len() == 0 {
        Seq::empty()
    } else {
        maps_errors(maps.drop_last()) + map_errors(maps.last())
    }
}

/// What building one unbuilt rule gives.
pub open spec fn unbuilt_built(name: Option<RuleName>, u: UnbuiltRule, boot: Seq<Rule>) -> Seq<
    Rule,
> {
    match u {
        UnbuiltRule::S(pm) => map_built(blacklisted(name), pm, boot),
        UnbuiltRule::M(v) => maps_built(blacklisted(name), v@, boot),
        UnbuiltRule::F(f) => seq![Rule::Evaluate(f)],
    }
}

/// The unresolved mappings of one unbuilt rule, in order.
pub open spec fn unbuilt_errors(u: UnbuiltRule) -> Seq<PatternMap> {
    match u {
        UnbuiltRule::S(pm) => map_errors(pm),
        UnbuiltRule::M(v) => maps_errors(v@),
        UnbuiltRule::F(_) => Seq::empty(),
    }
}

/// What building the entries `es` in turn gives.
pub open spec fn entries_built(es: Seq<(Option<RuleName>, UnbuiltRule)>, boot: Seq<Rule>) -> Seq<
    Rule,
>
    decreases es.len(),
{
    if es.len() == 0 {
        Seq::empty()
    } else {
        entries_built(es.drop_last(), boot) + unbuilt_built(es.last().0, es.last().1, boot)
    }
}

/// The unresolved mappings of the entries `es`, in order.
pub open spec fn entries_errors(es: Seq<(Option<RuleName>, UnbuiltRule)>) -> Seq<PatternMap>
    decreases es.len(),
{
    if es.len() == 0 {
        Seq::empty()
    } else {
        entries_errors(es.drop_last()) + unbuilt_errors(es.last().1)
    }
}

/// Two rules are the same: mappings with the same trees on both sides, or the same function.
pub open spec fn same_rule(a: Rule, b: Rule) -> bool {
    match (a, b) {
        (Rule::PatternMap(x), Rule::PatternMap(y)) => same_pat(x.from, y.from) && same_pat(
            x.to,
            y.to,
        ),
        (Rule::Evaluate(f), Rule::Evaluate(g)) => f == g,
        _ => false,
    }
}

/// Two rule lists are the same rule by rule.
pub open spec fn same_rules(a: Seq<Rule>, b: Seq<Rule>) -> bool {
    a.len() == b.len() && forall|i: int| 0 <= i < a.len() ==> #[trigger] same_rule(a[i], b[i])
}

/// The errors are the mappings `b`, one by one, with the same trees.
pub open spec fn same_errors(a: Seq<UnresolvedMapping>, b: Seq<PatternMap>) -> bool {
    a.len() == b.len() && forall|i: int|
        0 <= i < a.len() ==> same_pat(#[trigger] a[i].map.from, b[i].from) && same_pat(
            a[i].map.to,
            b[i].to,
        )
}

/// `p` is the pattern name `_a`.
pub open spec fn is_any_a(p: RcExprPat) -> bool {
    match *p.pat {
        ExprPat::AnyPat(n) => n@ == "_a"@,
        _ => false,
    }
}

/// `r` is the mapping `(_a) -> _a` (`paren`) or `[_a] -> _a`.
pub open spec fn is_unwrap_rule(r: Rule, paren: bool) -> bool {
    match r {
        Rule::PatternMap(pm) => {
            &&& match *pm.to.pat {
                ExprPat::AnyPat(n) => n@ == "_a"@,
                _ => false,
            }
            &&& match *pm.from.pat {
                ExprPat::Parend(x) => paren && is_any_a(x),
                ExprPat::Bracketed(x) => !paren && is_any_a(x),
                _ => false,
            }
        },
        _ => false,
    }
}

/// The rules that bootstrap the others: unwrapping parentheses, then brackets.
pub open spec fn is_bootstrapping(boot: Seq<Rule>) -> bool {
    &&& boot.len() == 2
    &&& is_unwrap_rule(boot[0], true)
    &&& is_unwrap_rule(boot[1], false)
}

/// `v` is what building the entries `es` gives, with rules that unwrap parentheses and
/// brackets as the bootstrapping rules.
pub open spec fn builds_to(v: Seq<Rule>, es: Seq<(Option<RuleName>, UnbuiltRule)>) -> bool {
    exists|boot: Seq<Rule>| is_bootstrapping(boot) && #[trigger] same_rules(v, entries_built(es, boot))
}

/// A rule set: built-in rules by name, and custom rules in insertion order.
pub struct RuleSet {
    /// The rule of each name, by position in the build order.
    rules: Vec<Option<UnbuiltRule>>,
    /// Custom rules, in insertion order.
    custom_rules: Vec<UnbuiltRule>,
}

/// The named entries among the first `n` slots, in build order.
pub open spec fn named_entries(slots: Seq<Option<UnbuiltRule>>, n: int) -> Seq<
    (Option<RuleName>, UnbuiltRule),
>
    decreases n,
{
    if n <= 0 {
        Seq::empty()
    } else {
        named_entries(slots, n - 1) + match slots[n - 1] {
            Some(u) => seq![(Some(name_at(n - 1)), u)],
            None => Seq::empty(),
        }
    }
}

/// Custom entries, unnamed.
pub open spec fn custom_entries(c: Seq<UnbuiltRule>) -> Seq<(Option<RuleName>, UnbuiltRule)> {
    c.map_values(|u: UnbuiltRule| (None::<RuleName>, u))
}

impl RuleSet {
    /// Each name has a slot.
    pub closed spec fn wf(&self) -> bool {
        self.rules@.len() == NUM_RULE_NAMES
    }

    /// The rule of each name, by position in the build order.
    pub closed spec fn slots(&self) -> Seq<Option<UnbuiltRule>> {
        self.rules@
    }

    /// The custom rules, in insertion order.
    pub closed spec fn customs(&self) -> Seq<UnbuiltRule> {
        self.custom_rules@
    }

    /// The entries that the set builds, in order: the named rules by name, then the custom
    /// rules.
    pub open spec fn entries(&self) -> Seq<(Option<RuleName>, UnbuiltRule)> {
        named_entries(self.slots(), NUM_RULE_NAMES as int) + custom_entries(self.customs())
    }

    /// An empty rule set.
    pub fn new() -> (r: RuleSet)
        ensures
            r.wf(),
            forall|i: int| 0 <= i < NUM_RULE_NAMES ==> r.slots()[i] is None,
            r.customs().len() == 0,
    {
        let mut rules: Vec<Option<UnbuiltRule>> = Vec::new();
        let mut i: usize = 0;
        while i < NUM_RULE_NAMES
            invariant
                i <= NUM_RULE_NAMES,
                rules@.len() == i,
                forall|j: int| 0 <= j < i ==> rules@[j] is None,
            decreases NUM_RULE_NAMES - i,
        {
            rules.push(None);
            i = i + 1;
        }
        RuleSet { rules, custom_rules: Vec::new() }
    }

    /// Sets the rule of a name.
    pub fn insert(&mut self, name: RuleName, rule: UnbuiltRule)
        requires
            old(self).wf(),
        ensures
            final(self).wf(),
            final(self).slots() == old(self).slots().update(rank(name), Some(rule)),
            final(self).customs() == old(self).customs(),
    {
        let i = rank_of(name);
        self.rules.set(i, Some(rule));
    }

    /// Removes a named rule from the rule set.
    pub fn remove(&mut self, name: RuleName)
        requires
            old(self).wf(),
        ensures
            final(self).wf(),
            final(self).slots() == old(self).slots().update(rank(name), None),
            final(self).customs() == old(self).customs(),
    {
        let i = rank_of(name);
        self.rules.set(i, None);
    }

    /// Inserts a custom unbuilt rule into the rule set.
    pub fn insert_custom(&mut self, rule: UnbuiltRule)
        ensures
            final(self).slots() == old(self).slots(),
            final(self).customs() == old(self).customs().push(rule),
            old(self).wf() ==> final(self).wf(),
    {
        self.custom_rules.push(rule);
    }
}

/// The pattern name `_a` at a span.
fn any_a(lo: usize) -> (r: RcExprPat)
    requires
        lo < usize::MAX - 2,
    ensures
        is_any_a(r),
        pat_names(r) =~= set!["_a"@],
{
    RcExprPat::new(ExprPat::AnyPat(text("_a")), Span { lo, hi: lo + 2 })
}

/// Retrieves the rules used in bootstrapping other rules: `(_a) -> _a`, then `[_a] -> _a`.
pub fn get_bootstrapping_rules() -> (r: Vec<Rule>)
    ensures
        is_bootstrapping(r@),
        forall|i: int| 0 <= i < r@.len() ==> rule_resolved(#[trigger] r@[i]),
{
    let parens = PatternMap {
        from: RcExprPat::new(ExprPat::Parend(any_a(1)), Span { lo: 0, hi: 4 }),
        to: any_a(0),
    };
    let brackets = PatternMap {
        from: RcExprPat::new(ExprPat::Bracketed(any_a(1)), Span { lo: 0, hi: 4 }),
        to: any_a(0),
    };
    let mut r: Vec<Rule> = Vec::new();
    r.push(Rule::PatternMap(parens));
    r.push(Rule::PatternMap(brackets));
    proof {
        assert(pat_names(r@[0]->PatternMap_0.from) =~= set!["_a"@]);
        assert(pat_names(r@[1]->PatternMap_0.from) =~= set!["_a"@]);
        assert(rule_resolved(r@[0]));
        assert(rule_resolved(r@[1]));
    }
    r
}

/// Errors that result from an attempt to build a set of rules: the unresolved mappings, in
/// the order in which they were built.
#[derive(Debug)]
pub struct BuildRuleErrors {
    /// The unresolved mappings.
    pub errors: Vec<UnresolvedMapping>,
}

/// `new` is `old` followed by rules that are the same as `add`.
pub open spec fn extends_rules(new: Seq<Rule>, old: Seq<Rule>, add: Seq<Rule>) -> bool {
    &&& new.len() == old.len() + add.len()
    &&& forall|i: int| 0 <= i < old.len() ==> #[trigger] new[i] == old[i]
    &&& forall|j: int| 0 <= j < add.len() ==> #[trigger] same_rule(new[old.len() + j], add[j])
}

/// `new` is `old` followed by errors on mappings that are the same as `add`.
pub open spec fn extends_errors(
    new: Seq<UnresolvedMapping>,
    old: Seq<UnresolvedMapping>,
    add: Seq<PatternMap>,
) -> bool {
    &&& new.len() == old.len() + add.len()
    &&& forall|i: int| 0 <= i < old.len() ==> #[trigger] new[i] == old[i]
    &&& forall|j: int|
        0 <= j < add.len() ==> same_pat(#[trigger] new[old.len() + j].map.from, add[j].from)
            && same_pat(new[old.len() + j].map.to, add[j].to)
}

/// Extending a list that is the same as `e` by rules that are the same as `x` gives a list
/// that is the same as `e + x`.
proof fn lemma_extend_rules(old: Seq<Rule>, new: Seq<Rule>, e: Seq<Rule>, x: Seq<Rule>)
    requires
        same_rules(old, e),
        extends_rules(new, old, x),
    ensures
        same_rules(new, e + x),
{
    assert forall|i: int| 0 <= i < new.len() implies #[trigger] same_rule(new[i], (e + x)[i]) by {
        if i < old.len() {
            assert(new[i] == old[i]);
            assert(same_rule(old[i], e[i]));
        } else {
            assert(same_rule(new[old.len() + (i - old.len())], x[i - old.len()]));
        }
    }
}

/// Extending errors that are the same as `e` by errors on mappings that are the same as `x`.
proof fn lemma_extend_errors(
    old: Seq<UnresolvedMapping>,
    new: Seq<UnresolvedMapping>,
    e: Seq<PatternMap>,
    x: Seq<PatternMap>,
)
    requires
        same_errors(old, e),
        extends_errors(new, old, x),
    ensures
        same_errors(new, e + x),
{
    assert forall|i: int| 0 <= i < new.len() implies same_pat(#[trigger] new[i].map.from, (e
        + x)[i].from) && same_pat(new[i].map.to, (e + x)[i].to) by {
        if i < old.len() {
            assert(new[i] == old[i]);
            assert(same_pat(old[i].map.from, e[i].from));
        } else {
            assert(same_pat(new[old.len() + (i - old.len())].map.from, x[i - old.len()].from));
        }
    }
}

/// Builds one mapping: an unresolved one is an error; a resolved one gives its bootstrapped
/// form (unless `bl`) and itself.
fn build_map(
    bl: bool,
    pm: &PatternMap,
    boot: &Vec<Rule>,
    built: &mut Vec<Rule>,
    errors: &mut Vec<UnresolvedMapping>,
)
    requires
        forall|i: int| 0 <= i < boot@.len() ==> rule_resolved(#[trigger] boot@[i]),
    ensures
        extends_rules(final(built)@, old(built)@, map_built(bl, *pm, boot@)),
        extends_errors(final(errors)@, old(errors)@, map_errors(*pm)),
{
    match pm.validate() {
        Err(u) => {
            errors.push(u);
        },
        Ok(()) => {
            if !bl {
                built.push(Rule::PatternMap(pm.bootstrap(boot)));
            }
            built.push(Rule::PatternMap(pm.copy()));
        },
    }
}

/// Builds one unbuilt rule.
fn build_unbuilt(
    name: Option<RuleName>,
    u: &UnbuiltRule,
    boot: &Vec<Rule>,
    built: &mut Vec<Rule>,
    errors: &mut Vec<UnresolvedMapping>,
)
    requires
        forall|i: int| 0 <= i < boot@.len() ==> rule_resolved(#[trigger] boot@[i]),
    ensures
        extends_rules(final(built)@, old(built)@, unbuilt_built(name, *u, boot@)),
        extends_errors(final(errors)@, old(errors)@, unbuilt_errors(*u)),
{
    let bl = match name {
        Some(RuleName::UnwrapExplicitParens) | Some(RuleName::UnwrapExplicitBrackets) => true,
        _ => false,
    };
    assert(bl == blacklisted(name));
    match u {
        UnbuiltRule::S(pm) => {
            build_map(bl, pm, boot, built, errors);
        },
        UnbuiltRule::M(v) => {
            let ghost b0 = built@;
            let ghost e0 = errors@;
            let mut j: usize = 0;
            assert(v@.take(0) =~= Seq::<PatternMap>::empty());
            assert(built@ =~= b0 + Seq::<Rule>::empty());
            while j < v.len()
                invariant
                    j <= v@.len(),
                    forall|i: int| 0 <= i < boot@.len() ==> rule_resolved(#[trigger] boot@[i]),
                    bl == blacklisted(name),
                    extends_rules(built@, b0, maps_built(bl, v@.take(j as int), boot@)),
                    extends_errors(errors@, e0, maps_errors(v@.take(j as int))),
                decreases v@.len() - j,
            {
                let ghost b1 = built@;
                let ghost e1 = errors@;
                build_map(bl, &v[j], boot, built, errors);
                proof {
                    let t = v@.take(j + 1);
                    assert(t.drop_last() =~= v@.take(j as int));
                    assert(t.last() == v@[j as int]);
                    let pre = maps_built(bl, v@.take(j as int), boot@);
                    let add = map_built(bl, v@[j as int], boot@);
                    assert(maps_built(bl, t, boot@) == pre + add);
                    assert forall|k: int| 0 <= k < pre.len() + add.len() implies #[trigger] same_rule(
                        built@[b0.len() + k],
                        (pre + add)[k],
                    ) by {
                        if k < pre.len() {
                            assert(built@[b0.len() + k] == b1[b0.len() + k]);
                        } else {
                            assert(built@[b1.len() + (k - pre.len())] == built@[b0.len() + k]);
                        }
                    }
                    let pe = maps_errors(v@.take(j as int));
                    let ae = map_errors(v@[j as int]);
                    assert(maps_errors(t) == pe + ae);
                    assert forall|k: int| 0 <= k < pe.len() + ae.len() implies same_pat(
                        #[trigger] errors@[e0.len() + k].map.from,
                        (pe + ae)[k].from,
                    ) && same_pat(errors@[e0.len() + k].map.to, (pe + ae)[k].to) by {
                        if k < pe.len() {
                            assert(errors@[e0.len() + k] == e1[e0.len() + k]);
                        } else {
                            assert(errors@[e1.len() + (k - pe.len())] == errors@[e0.len() + k]);
                        }
                    }
                }
                j = j + 1;
            }
            assert(v@.take(j as int) =~= v@);
        },
        UnbuiltRule::F(f) => {
            built.push(Rule::Evaluate(*f));
        },
    }
}

impl RuleSet {
    /// Creates the list of rules that the set builds: the named rules in name order, then the
    /// custom rules in insertion order. A mapping rule gives its form bootstrapped with the
    /// rules that unwrap parentheses and brackets (except for those two rules themselves), then
    /// its raw form; a function rule gives itself. The result is an error listing the
    /// unresolved mappings, in build order, when there are any.
    pub fn build(&self) -> (r: Result<Vec<Rule>, BuildRuleErrors>)
        requires
            self.wf(),
        ensures
            r is Ok <==> entries_errors(self.entries()).len() == 0,
            r matches Err(e) ==> same_errors(e.errors@, entries_errors(self.entries())),
            r matches Ok(v) ==> builds_to(v@, self.entries()),
    {
        let boot = get_bootstrapping_rules();
        let mut built: Vec<Rule> = Vec::new();
        let mut errors: Vec<UnresolvedMapping> = Vec::new();
        let ghost slots = self.rules@;
        let mut i: usize = 0;
        while i < NUM_RULE_NAMES
            invariant
                i <= NUM_RULE_NAMES,
                slots == self.rules@,
                slots.len() == NUM_RULE_NAMES,
                forall|k: int| 0 <= k < boot@.len() ==> rule_resolved(#[trigger] boot@[k]),
                same_rules(built@, entries_built(named_entries(slots, i as int), boot@)),
                same_errors(errors@, entries_errors(named_entries(slots, i as int))),
            decreases NUM_RULE_NAMES - i,
        {
            let ghost b1 = built@;
            let ghost e1 = errors@;
            let ghost pre = named_entries(slots, i as int);
            match &self.rules[i] {
                Some(u) => {
                    let ghost name = Some(name_at(i as int));
                    let n = name_of_rank(i);
                    build_unbuilt(Some(n), u, &boot, &mut built, &mut errors);
                    proof {
                        let es = named_entries(slots, i + 1);
                        assert(es == pre + seq![(name, *u)]);
                        assert(es.drop_last() =~= pre);
                        lemma_extend_rules(b1, built@, entries_built(pre, boot@), unbuilt_built(name, *u, boot@));
                        lemma_extend_errors(e1, errors@, entries_errors(pre), unbuilt_errors(*u));
                    }
                },
                None => {
                    proof {
                        assert(named_entries(slots, i + 1) =~= pre);
                    }
                },
            }
            i = i + 1;
        }
        let ghost named = named_entries(slots, NUM_RULE_NAMES as int);
        let ghost customs = self.custom_rules@;
        let mut j: usize = 0;
        assert(custom_entries(customs).take(0) =~= Seq::empty());
        assert(named + custom_entries(customs).take(0) =~= named);
        while j < self.custom_rules.len()
            invariant
                j <= customs.len(),
                customs == self.custom_rules@,
                forall|k: int| 0 <= k < boot@.len() ==> rule_resolved(#[trigger] boot@[k]),
                same_rules(built@, entries_built(named + custom_entries(customs).take(j as int), boot@)),
                same_errors(errors@, entries_errors(named + custom_entries(customs).take(j as int))),
            decreases customs.len() - j,
        {
            let ghost b1 = built@;
            let ghost e1 = errors@;
            let ghost pre = named + custom_entries(customs).take(j as int);
            build_unbuilt(None, &self.custom_rules[j], &boot, &mut built, &mut errors);
            proof {
                let es = named + custom_entries(customs).take(j + 1);
                assert(es.drop_last() =~= pre);
                assert(es.last() == (None::<RuleName>, customs[j as int]));
                lemma_extend_rules(b1, built@, entries_built(pre, boot@), unbuilt_built(None, customs[j as int], boot@));
                lemma_extend_errors(e1, errors@, entries_errors(pre), unbuilt_errors(customs[j as int]));
            }
            j = j + 1;
        }
        assert(custom_entries(customs).take(j as int) =~= custom_entries(customs));
        assert(named + custom_entries(customs) == self.entries());
        if errors.len() > 0 {
            return Err(BuildRuleErrors { errors });
        }
        assert(is_bootstrapping(boot@));
        assert(same_rules(built@, entries_built(self.entries(), boot@)));
        assert(builds_to(built@, self.entries()));
        Ok(built)
    }
}

/// The name at a position of the build order.
fn name_of_rank(i: usize) -> (r: RuleName)
    ensures
        r == name_at(i as int),
{
    if i == 0 {
        RuleName::UnwrapExplicitParens
    } else if i == 1 {
        RuleName::UnwrapExplicitBrackets
    } else if i == 2 {
        RuleName::Add
    } else if i == 3 {
        RuleName::Subtract
    } else if i == 4 {
        RuleName::Multiply
    } else if i == 5 {
        RuleName::Divide
    } else if i == 6 {
        RuleName::Modulo
    } else if i == 7 {
        RuleName::Exponentiate
    } else if i == 8 {
        RuleName::Posate
    } else if i == 9 {
        RuleName::Negate
    } else if i == 10 {
        RuleName::MultiplicateIdentity
    } else if i == 11 {
        RuleName::AdditiveIdentity
    } else if i == 12 {
        RuleName::AdditiveInverse
    } else if i == 13 {
        RuleName::SubtractiveIdentity
    } else if i == 14 {
        RuleName::ReorderConstants
    } else if i == 15 {
        RuleName::DistributeNegation
    } else if i == 16 {
        RuleName::FoldNegatedAddition
    } else if i == 17 {
        RuleName::FoldDivision
    } else if i == 18 {
        RuleName::FoldExponents
    } else {
        RuleName::ExponentiativeIdentity
    }
}

/// `s` with four spaces after each of its line breaks.
pub open spec fn indent_rest(s: Seq<char>) -> Seq<char>
    decreases s.len(),
{
    if s.len() == 0 {
        Seq::empty()
    } else {
        indent_rest(s.drop_last()) + if s.last() == '\n' {
            "\n    "@
        } else {
            seq![s.last()]
        }
    }
}

/// `s` with each of its lines indented by four spaces.
pub open spec fn indent4(s: Seq<char>) -> Seq<char> {
    "    "@ + indent_rest(s)
}

/// The entry of the error at position `i` (from 0): its number from 1, then its message,
/// indented.
pub open spec fn error_entry(i: nat, u: UnresolvedMapping) -> Seq<char> {
    indent4("("@ + nat_str(i + 1) + ") "@ + unresolved_text(u))
}

/// The entries of the errors `es`, one per line.
pub open spec fn error_entries(es: Seq<UnresolvedMapping>) -> Seq<char>
    decreases es.len(),
{
    if es.len() == 0 {
        Seq::empty()
    } else if es.len() == 1 {
        error_entry(0, es[0])
    } else {
        error_entries(es.drop_last()) + "\n"@ + error_entry((es.len() - 1) as nat, es.last())
    }
}

/// The message of failed rule building: the number of errors, then each error.
pub open spec fn build_errors_text(es: Seq<UnresolvedMapping>) -> Seq<char> {
    "Failed to build rules with "@ + nat_str(es.len()) + " errors.\n"@ + error_entries(es)
}

/// `s` with each of its lines indented by four spaces.
fn indent(s: &String) -> (r: String)
    ensures
        r@ == indent4(s@),
{
    let cs = chars_of(s.as_str());
    let mut out = text("    ");
    let mut i: usize = 0;
    assert(cs@.take(0) =~= Seq::<char>::empty());
    while i < cs.len()
        invariant
            i <= cs@.len(),
            cs@ == s@,
            out@ == "    "@ + indent_rest(cs@.take(i as int)),
        decreases cs@.len() - i,
    {
        let ghost before = out@;
        let c = cs[i];
        if c == '\n' {
            push_text(&mut out, "\n    ");
        } else {
            out.push(c);
        }
        proof {
            let t = cs@.take(i + 1);
            assert(t.drop_last() =~= cs@.take(i as int));
            assert(t.last() == c);
            assert(out@ =~= "    "@ + indent_rest(t));
        }
        i = i + 1;
    }
    assert(cs@.take(i as int) =~= cs@);
    out
}

impl BuildRuleErrors {
    /// The message of the errors: how many there are, then each one, numbered from 1 and
    /// indented by four spaces.
    pub fn to_string(&self) -> (r: String)
        requires
            self.errors@.len() < u64::MAX,
        ensures
            r@ == build_errors_text(self.errors@),
    {
        let es = &self.errors;
        let mut entries = String::new();
        let mut i: usize = 0;
        while i < es.len()
            invariant
                i <= es@.len(),
                es@.len() < u64::MAX,
                entries@ == error_entries(es@.take(i as int)),
            decreases es@.len() - i,
        {
            let mut e = text("(");
            let num = nat_to_string((i + 1) as u64);
            push_text(&mut e, num.as_str());
            push_text(&mut e, ") ");
            let msg = es[i].to_string();
            push_text(&mut e, msg.as_str());
            let ind = indent(&e);
            proof {
                let t = es@.take(i + 1);
                assert(t.drop_last() =~= es@.take(i as int));
                assert(t.last() == es@[i as int]);
                assert(e@ =~= "("@ + nat_str((i + 1) as nat) + ") "@ + unresolved_text(es@[i as int]));
                assert(ind@ == error_entry(i as nat, es@[i as int]));
                if i == 0 {
                    assert(t =~= seq![es@[0]]);
                }
            }
            if i > 0 {
                push_text(&mut entries, "\n");
            }
            push_text(&mut entries, ind.as_str());
            proof {
                let t = es@.take(i + 1);
                if i == 0 {
                    assert(entries@ =~= error_entries(t));
                } else {
                    assert(entries@ =~= error_entries(t));
                }
            }
            i = i + 1;
        }
        assert(es@.take(i as int) =~= es@);
        let mut r = text("Failed to build rules with ");
        let n = nat_to_string(es.len() as u64);
        push_text(&mut r, n.as_str());
        push_text(&mut r, " errors.\n");
        push_text(&mut r, entries.as_str());
        proof {
            assert(r@ =~= build_errors_text(es@));
        }
        r
    }
}

/// A span.
fn sp(lo: usize, hi: usize) -> (r: Span)
    ensures
        r == (Span { lo, hi }),
{
    Span { lo, hi }
}

/// The constant pattern `n`.
fn pn(n: i64, lo: usize, hi: usize) -> (r: RcExprPat)
    requires
        0 <= n < 10,
    ensures
        pretty_pat(r) == seq![digit_char(n as nat)],
{
    RcExprPat::new(ExprPat::Const(Rational::from_int(n)), sp(lo, hi))
}

/// The any-pattern `name`.
fn pa(name: &str, lo: usize, hi: usize) -> (r: RcExprPat)
    ensures
        pretty_pat(r) == name@,
        !(*r.pat is BinaryExpr),
{
    RcExprPat::new(ExprPat::AnyPat(text(name)), sp(lo, hi))
}

/// The variable pattern `name`.
fn pv(name: &str, lo: usize, hi: usize) -> (r: RcExprPat)
    ensures
        pretty_pat(r) == name@,
        !(*r.pat is BinaryExpr),
{
    RcExprPat::new(ExprPat::VarPat(text(name)), sp(lo, hi))
}

/// The constant pattern name `name`.
fn pc(name: &str, lo: usize, hi: usize) -> (r: RcExprPat)
    ensures
        pretty_pat(r) == name@,
        !(*r.pat is BinaryExpr),
{
    RcExprPat::new(ExprPat::ConstPat(text(name)), sp(lo, hi))
}

/// A binary pattern.
fn pb(op: BinaryOperator, lhs: RcExprPat, rhs: RcExprPat, lo: usize, hi: usize) -> (r: RcExprPat)
    ensures
        *r.pat == ExprPat::BinaryExpr(BinaryExpr { op, lhs, rhs }),
        pretty_pat(r) == operand_pat(lhs, op, false) + seq![' '] + binop_str(op) + seq![' ']
            + operand_pat(rhs, op, true),
{
    RcExprPat::new(ExprPat::BinaryExpr(BinaryExpr { op, lhs, rhs }), sp(lo, hi))
}

/// A unary pattern.
fn pu(op: UnaryOperator, rhs: RcExprPat, lo: usize, hi: usize) -> (r: RcExprPat)
    ensures
        !(*r.pat is BinaryExpr),
        pretty_pat(r) == unop_str(op) + (if *rhs.pat is BinaryExpr {
            parens(pretty_pat(rhs))
        } else {
            pretty_pat(rhs)
        }),
{
    RcExprPat::new(ExprPat::UnaryExpr(UnaryExpr { op, rhs }), sp(lo, hi))
}

/// A parenthesized pattern.
fn pp(inner: RcExprPat, lo: usize, hi: usize) -> (r: RcExprPat)
    ensures
        !(*r.pat is BinaryExpr),
        pretty_pat(r) == parens(pretty_pat(inner)),
{
    RcExprPat::new(ExprPat::Parend(inner), sp(lo, hi))
}

/// A bracketed pattern.
fn pk(inner: RcExprPat, lo: usize, hi: usize) -> (r: RcExprPat)
    ensures
        !(*r.pat is BinaryExpr),
        pretty_pat(r) == brackets(pretty_pat(inner)),
{
    RcExprPat::new(ExprPat::Bracketed(inner), sp(lo, hi))
}

/// A mapping.
fn pm(from: RcExprPat, to: RcExprPat) -> (r: PatternMap)
    ensures
        map_text(r) == pretty_pat(from) + " -> "@ + pretty_pat(to),
{
    PatternMap { from, to }
}

/// The text forms of the mappings of each built-in rule, in canonical form (as `pretty_pat` and
/// `map_text` write them, with spaces round every binary operator); none for a function rule.
pub open spec fn documented_texts(n: RuleName) -> Seq<Seq<char>> {
    match n {
        RuleName::UnwrapExplicitParens => seq!["(_a) -> _a"@],
        RuleName::UnwrapExplicitBrackets => seq!["[_a] -> _a"@],
        RuleName::MultiplicateIdentity => seq!["_a * 1 -> _a"@],
        RuleName::AdditiveIdentity => seq!["_a + 0 -> _a"@],
        RuleName::AdditiveInverse => seq!["_a - _a -> 0"@],
        RuleName::SubtractiveIdentity => seq!["_a - 0 -> _a"@],
        RuleName::ReorderConstants => seq!["#a + $b -> $b + #a"@],
        RuleName::DistributeNegation => seq![
            "-(_a - _b) -> _b - _a"@,
            "_a - (_b - _c) -> _a - _b + _c"@,
        ],
        RuleName::FoldNegatedAddition => seq!["_a + -_b -> _a - _b"@],
        RuleName::FoldDivision => seq![
            "_a * 1 / _b -> _a / _b"@,
            "_a * (1 / _b) -> _a / _b"@,
        ],
        RuleName::FoldExponents => seq![
            "_a * _a -> _a ^ 2"@,
            "_a * _a ^ _b -> _a ^ (_b + 1)"@,
            "_a ^ _b * _a -> _a ^ (_b + 1)"@,
            "_a ^ _b * _a ^ _c -> _a ^ (_b + _c)"@,
            "_a / _a ^ _b -> _a ^ (1 - _b)"@,
            "_a ^ _b / _a -> _a ^ (_b - 1)"@,
            "_a ^ _b / _a ^ _c -> _a ^ (_b - _c)"@,
        ],
        RuleName::ExponentiativeIdentity => seq!["_a ^ 0 -> _a"@],
        _ => Seq::empty(),
    }
}

/// The function of each built-in function rule.
pub open spec fn documented_fn(n: RuleName) -> Option<FnRule> {
    match n {
        RuleName::Add => Some(FnRule::Add),
        RuleName::Subtract => Some(FnRule::Subtract),
        RuleName::Multiply => Some(FnRule::Multiply),
        RuleName::Divide => Some(FnRule::Divide),
        RuleName::Modulo => Some(FnRule::Modulo),
        RuleName::Exponentiate => Some(FnRule::Exponentiate),
        RuleName::Posate => Some(FnRule::Posate),
        RuleName::Negate => Some(FnRule::Negate),
        _ => None,
    }
}

/// The unbuilt rule `u` is the built-in rule `n`: the function that `n` names, or mappings whose
/// text forms are those of `n`, in order.
pub open spec fn documented(u: UnbuiltRule, n: RuleName) -> bool {
    match u {
        UnbuiltRule::S(m) => documented_texts(n) == seq![map_text(m)],
        UnbuiltRule::M(v) => v@.len() == documented_texts(n).len() && forall|i: int|
            0 <= i < v@.len() ==> map_text(#[trigger] v@[i]) == documented_texts(n)[i],
        UnbuiltRule::F(f) => documented_texts(n).len() == 0 && documented_fn(n) == Some(f),
    }
}

/// The built-in rule `UnwrapExplicitParens`.
fn unwrap_explicit_parens_rule() -> (r: UnbuiltRule)
    ensures
    documented(r, RuleName::UnwrapExplicitParens),
{
    let m = pm(pp(pa("_a", 1, 3), 0, 4), pa("_a", 0, 2));
    proof {
        reveal_strlit("_a");
        reveal_strlit(" -> ");
        reveal_strlit("(_a) -> _a");
        assert(map_text(m) =~= "(_a) -> _a"@);
    }
    UnbuiltRule::S(m)
}

/// The built-in rule `UnwrapExplicitBrackets`.
fn unwrap_explicit_brackets_rule() -> (r: UnbuiltRule)
    ensures
    documented(r, RuleName::UnwrapExplicitBrackets),
{
    let m = pm(pk(pa("_a", 1, 3), 0, 4), pa("_a", 0, 2));
    proof {
        reveal_strlit("_a");
        reveal_strlit(" -> ");
        reveal_strlit("[_a] -> _a");
        assert(map_text(m) =~= "[_a] -> _a"@);
    }
    UnbuiltRule::S(m)
}

/// The built-in rule `MultiplicateIdentity`.
fn multiplicate_identity_rule() -> (r: UnbuiltRule)
    ensures
    documented(r, RuleName::MultiplicateIdentity),
{
    let m = pm(pb(BinaryOperator::Mult, pa("_a", 0, 2), pn(1, 5, 6), 0, 6), pa("_a", 0, 2));
    proof {
        reveal_strlit("_a");
        reveal_strlit(" -> ");
        reveal_strlit("_a * 1 -> _a");
        assert(map_text(m) =~= "_a * 1 -> _a"@);
    }
    UnbuiltRule::S(m)
}

/// The built-in rule `AdditiveIdentity`.
fn additive_identity_rule() -> (r: UnbuiltRule)
    ensures
    documented(r, RuleName::AdditiveIdentity),
{
    let m = pm(pb(BinaryOperator::Plus, pa("_a", 0, 2), pn(0, 5, 6), 0, 6), pa("_a", 0, 2));
    proof {
        reveal_strlit("_a");
        reveal_strlit(" -> ");
        reveal_strlit("_a + 0 -> _a");
        assert(map_text(m) =~= "_a + 0 -> _a"@);
    }
    UnbuiltRule::S(m)
}

/// The built-in rule `AdditiveInverse`.
fn additive_inverse_rule() -> (r: UnbuiltRule)
    ensures
    documented(r, RuleName::AdditiveInverse),
{
    let m = pm(pb(BinaryOperator::Minus, pa("_a", 0, 2), pa("_a", 5, 7), 0, 7), pn(0, 0, 1));
    proof {
        reveal_strlit("_a");
        reveal_strlit(" -> ");
        reveal_strlit("_a - _a -> 0");
        assert(map_text(m) =~= "_a - _a -> 0"@);
    }
    UnbuiltRule::S(m)
}

/// The built-in rule `SubtractiveIdentity`.
fn subtractive_identity_rule() -> (r: UnbuiltRule)
    ensures
    documented(r, RuleName::SubtractiveIdentity),
{
    let m = pm(pb(BinaryOperator::Minus, pa("_a", 0, 2), pn(0, 5, 6), 0, 6), pa("_a", 0, 2));
    proof {
        reveal_strlit("_a");
        reveal_strlit(" -> ");
        reveal_strlit("_a - 0 -> _a");
        assert(map_text(m) =~= "_a - 0 -> _a"@);
    }
    UnbuiltRule::S(m)
}

/// The built-in rule `ReorderConstants`.
fn reorder_constants_rule() -> (r: UnbuiltRule)
    ensures
    documented(r, RuleName::ReorderConstants),
{
    let m = pm(pb(BinaryOperator::Plus, pc("#a", 0, 2), pv("$b", 5, 7), 0, 7), pb(BinaryOperator::Plus, pv("$b", 0, 2), pc("#a", 5, 7), 0, 7));
    proof {
        reveal_strlit("#a");
        reveal_strlit("$b");
        reveal_strlit(" -> ");
        reveal_strlit("#a + $b -> $b + #a");
        assert(map_text(m) =~= "#a + $b -> $b + #a"@);
    }
    UnbuiltRule::S(m)
}

/// The built-in rule `DistributeNegation`.
fn distribute_negation_rule() -> (r: UnbuiltRule)
    ensures
    documented(r, RuleName::DistributeNegation),
{
    let m0 = pm(pu(UnaryOperator::SignNegative, pp(pb(BinaryOperator::Minus, pa("_a", 2, 4), pa("_b", 7, 9), 2, 9), 1, 10), 0, 10), pb(BinaryOperator::Minus, pa("_b", 0, 2), pa("_a", 5, 7), 0, 7));
    proof {
        reveal_strlit("_a");
        reveal_strlit("_b");
        reveal_strlit(" -> ");
        reveal_strlit("-(_a - _b) -> _b - _a");
        assert(map_text(m0) =~= "-(_a - _b) -> _b - _a"@);
    }
    let m1 = pm(pb(BinaryOperator::Minus, pa("_a", 0, 2), pp(pb(BinaryOperator::Minus, pa("_b", 6, 8), pa("_c", 11, 13), 6, 13), 5, 14), 0, 14), pb(BinaryOperator::Plus, pb(BinaryOperator::Minus, pa("_a", 0, 2), pa("_b", 5, 7), 0, 7), pa("_c", 10, 12), 0, 12));
    proof {
        reveal_strlit("_a");
        reveal_strlit("_b");
        reveal_strlit("_c");
        reveal_strlit(" -> ");
        reveal_strlit("_a - (_b - _c) -> _a - _b + _c");
        assert(map_text(m1) =~= "_a - (_b - _c) -> _a - _b + _c"@);
    }
    let mut v: Vec<PatternMap> = Vec::new();
    v.push(m0);
    v.push(m1);
    proof {
        assert(v@ =~= seq![m0, m1]);
    }
    UnbuiltRule::M(v)
}

/// The built-in rule `FoldNegatedAddition`.
fn fold_negated_addition_rule() -> (r: UnbuiltRule)
    ensures
    documented(r, RuleName::FoldNegatedAddition),
{
    let m = pm(pb(BinaryOperator::Plus, pa("_a", 0, 2), pu(UnaryOperator::SignNegative, pa("_b", 6, 8), 5, 8), 0, 8), pb(BinaryOperator::Minus, pa("_a", 0, 2), pa("_b", 5, 7), 0, 7));
    proof {
        reveal_strlit("_a");
        reveal_strlit("_b");
        reveal_strlit(" -> ");
        reveal_strlit("_a + -_b -> _a - _b");
        assert(map_text(m) =~= "_a + -_b -> _a - _b"@);
    }
    UnbuiltRule::S(m)
}

/// The built-in rule `FoldDivision`.
fn fold_division_rule() -> (r: UnbuiltRule)
    ensures
    documented(r, RuleName::FoldDivision),
{
    let m0 = pm(pb(BinaryOperator::Div, pb(BinaryOperator::Mult, pa("_a", 0, 2), pn(1, 5, 6), 0, 6), pa("_b", 9, 11), 0, 11), pb(BinaryOperator::Div, pa("_a", 0, 2), pa("_b", 5, 7), 0, 7));
    proof {
        reveal_strlit("_a");
        reveal_strlit("_b");
        reveal_strlit(" -> ");
        reveal_strlit("_a * 1 / _b -> _a / _b");
        assert(map_text(m0) =~= "_a * 1 / _b -> _a / _b"@);
    }
    let m1 = pm(pb(BinaryOperator::Mult, pa("_a", 0, 2), pp(pb(BinaryOperator::Div, pn(1, 6, 7), pa("_b", 10, 12), 6, 12), 5, 13), 0, 13), pb(BinaryOperator::Div, pa("_a", 0, 2), pa("_b", 5, 7), 0, 7));
    proof {
        reveal_strlit("_a");
        reveal_strlit("_b");
        reveal_strlit(" -> ");
        reveal_strlit("_a * (1 / _b) -> _a / _b");
        assert(map_text(m1) =~= "_a * (1 / _b) -> _a / _b"@);
    }
    let mut v: Vec<PatternMap> = Vec::new();
    v.push(m0);
    v.push(m1);
    proof {
        assert(v@ =~= seq![m0, m1]);
    }
    UnbuiltRule::M(v)
}

/// The built-in rule `FoldExponents`.
#[verifier::spinoff_prover]
#[verifier::rlimit(60)]
fn fold_exponents_rule() -> (r: UnbuiltRule)
    ensures
    documented(r, RuleName::FoldExponents),
{
    let m0 = pm(pb(BinaryOperator::Mult, pa("_a", 0, 2), pa("_a", 5, 7), 0, 7), pb(BinaryOperator::Exp, pa("_a", 0, 2), pn(2, 3, 4), 0, 4));
    proof {
        reveal_strlit("_a");
        reveal_strlit(" -> ");
        reveal_strlit("_a * _a -> _a ^ 2");
        assert(map_text(m0) =~= "_a * _a -> _a ^ 2"@);
    }
    let m1 = pm(pb(BinaryOperator::Mult, pa("_a", 0, 2), pb(BinaryOperator::Exp, pa("_a", 5, 7), pa("_b", 8, 10), 5, 10), 0, 10), pb(BinaryOperator::Exp, pa("_a", 0, 2), pp(pb(BinaryOperator::Plus, pa("_b", 4, 6), pn(1, 9, 10), 4, 10), 3, 11), 0, 11));
    proof {
        reveal_strlit("_a");
        reveal_strlit("_b");
        reveal_strlit(" -> ");
        reveal_strlit("_a * _a ^ _b -> _a ^ (_b + 1)");
        assert(map_text(m1) =~= "_a * _a ^ _b -> _a ^ (_b + 1)"@);
    }
    let m2 = pm(pb(BinaryOperator::Mult, pb(BinaryOperator::Exp, pa("_a", 0, 2), pa("_b", 3, 5), 0, 5), pa("_a", 8, 10), 0, 10), pb(BinaryOperator::Exp, pa("_a", 0, 2), pp(pb(BinaryOperator::Plus, pa("_b", 4, 6), pn(1, 9, 10), 4, 10), 3, 11), 0, 11));
    proof {
        reveal_strlit("_a");
        reveal_strlit("_b");
        reveal_strlit(" -> ");
        reveal_strlit("_a ^ _b * _a -> _a ^ (_b + 1)");
        assert(map_text(m2) =~= "_a ^ _b * _a -> _a ^ (_b + 1)"@);
    }
    let m3 = pm(pb(BinaryOperator::Mult, pb(BinaryOperator::Exp, pa("_a", 0, 2), pa("_b", 3, 5), 0, 5), pb(BinaryOperator::Exp, pa("_a", 8, 10), pa("_c", 11, 13), 8, 13), 0, 13), pb(BinaryOperator::Exp, pa("_a", 0, 2), pp(pb(BinaryOperator::Plus, pa("_b", 4, 6), pa("_c", 9, 11), 4, 11), 3, 12), 0, 12));
    proof {
        reveal_strlit("_a");
        reveal_strlit("_b");
        reveal_strlit("_c");
        reveal_strlit(" -> ");
        reveal_strlit("_a ^ _b * _a ^ _c -> _a ^ (_b + _c)");
        assert(map_text(m3) =~= "_a ^ _b * _a ^ _c -> _a ^ (_b + _c)"@);
    }
    let m4 = pm(pb(BinaryOperator::Div, pa("_a", 0, 2), pb(BinaryOperator::Exp, pa("_a", 5, 7), pa("_b", 8, 10), 5, 10), 0, 10), pb(BinaryOperator::Exp, pa("_a", 0, 2), pp(pb(BinaryOperator::Minus, pn(1, 4, 5), pa("_b", 8, 10), 4, 10), 3, 11), 0, 11));
    proof {
        reveal_strlit("_a");
        reveal_strlit("_b");
        reveal_strlit(" -> ");
        reveal_strlit("_a / _a ^ _b -> _a ^ (1 - _b)");
        assert(map_text(m4) =~= "_a / _a ^ _b -> _a ^ (1 - _b)"@);
    }
    let m5 = pm(pb(BinaryOperator::Div, pb(BinaryOperator::Exp, pa("_a", 0, 2), pa("_b", 3, 5), 0, 5), pa("_a", 8, 10), 0, 10), pb(BinaryOperator::Exp, pa("_a", 0, 2), pp(pb(BinaryOperator::Minus, pa("_b", 4, 6), pn(1, 9, 10), 4, 10), 3, 11), 0, 11));
    proof {
        reveal_strlit("_a");
        reveal_strlit("_b");
        reveal_strlit(" -> ");
        reveal_strlit("_a ^ _b / _a -> _a ^ (_b - 1)");
        assert(map_text(m5) =~= "_a ^ _b / _a -> _a ^ (_b - 1)"@);
    }
    let m6 = pm(pb(BinaryOperator::Div, pb(BinaryOperator::Exp, pa("_a", 0, 2), pa("_b", 3, 5), 0, 5), pb(BinaryOperator::Exp, pa("_a", 8, 10), pa("_c", 11, 13), 8, 13), 0, 13), pb(BinaryOperator::Exp, pa("_a", 0, 2), pp(pb(BinaryOperator::Minus, pa("_b", 4, 6), pa("_c", 9, 11), 4, 11), 3, 12), 0, 12));
    proof {
        reveal_strlit("_a");
        reveal_strlit("_b");
        reveal_strlit("_c");
        reveal_strlit(" -> ");
        reveal_strlit("_a ^ _b / _a ^ _c -> _a ^ (_b - _c)");
        assert(map_text(m6) =~= "_a ^ _b / _a ^ _c -> _a ^ (_b - _c)"@);
    }
    let mut v: Vec<PatternMap> = Vec::new();
    v.push(m0);
    v.push(m1);
    v.push(m2);
    v.push(m3);
    v.push(m4);
    v.push(m5);
    v.push(m6);
    proof {
        assert(v@ =~= seq![m0, m1, m2, m3, m4, m5, m6]);
    }
    UnbuiltRule::M(v)
}

/// The built-in rule `ExponentiativeIdentity`.
fn exponentiative_identity_rule() -> (r: UnbuiltRule)
    ensures
    documented(r, RuleName::ExponentiativeIdentity),
{
    let m = pm(pb(BinaryOperator::Exp, pa("_a", 0, 2), pn(0, 3, 4), 0, 4), pa("_a", 0, 2));
    proof {
        reveal_strlit("_a");
        reveal_strlit(" -> ");
        reveal_strlit("_a ^ 0 -> _a");
        assert(map_text(m) =~= "_a ^ 0 -> _a"@);
    }
    UnbuiltRule::S(m)
}

/// The built-in rule of a name.
fn builtin_rule(n: RuleName) -> (r: UnbuiltRule)
    ensures
        documented(r, n),
{
    match n {
        RuleName::UnwrapExplicitParens => unwrap_explicit_parens_rule(),
        RuleName::UnwrapExplicitBrackets => unwrap_explicit_brackets_rule(),
        RuleName::Add => UnbuiltRule::F(FnRule::Add),
        RuleName::Subtract => UnbuiltRule::F(FnRule::Subtract),
        RuleName::Multiply => UnbuiltRule::F(FnRule::Multiply),
        RuleName::Divide => UnbuiltRule::F(FnRule::Divide),
        RuleName::Modulo => UnbuiltRule::F(FnRule::Modulo),
        RuleName::Exponentiate => UnbuiltRule::F(FnRule::Exponentiate),
        RuleName::Posate => UnbuiltRule::F(FnRule::Posate),
        RuleName::Negate => UnbuiltRule::F(FnRule::Negate),
        RuleName::MultiplicateIdentity => multiplicate_identity_rule(),
        RuleName::AdditiveIdentity => additive_identity_rule(),
        RuleName::AdditiveInverse => additive_inverse_rule(),
        RuleName::SubtractiveIdentity => subtractive_identity_rule(),
        RuleName::ReorderConstants => reorder_constants_rule(),
        RuleName::DistributeNegation => distribute_negation_rule(),
        RuleName::FoldNegatedAddition => fold_negated_addition_rule(),
        RuleName::FoldDivision => fold_division_rule(),
        RuleName::FoldExponents => fold_exponents_rule(),
        RuleName::ExponentiativeIdentity => exponentiative_identity_rule(),
    }
}

impl RuleSet {
    /// The default rule set: every built-in rule, with the mappings that the rules' text forms (`_a + 0 -> _a` and the like) describe,
    /// each side's spans counted from the start of that side's text.
    pub fn default_rules() -> (r: RuleSet)
        ensures
            r.wf(),
            r.customs().len() == 0,
            forall|i: int| 0 <= i < NUM_RULE_NAMES ==> #[trigger] r.slots()[i] is Some,
            forall|n: RuleName| #[trigger] r.slots()[rank(n)] is Some && documented(
                r.slots()[rank(n)]->Some_0,
                n,
            ),
    {
        let mut set = RuleSet::new();
        set.insert(RuleName::UnwrapExplicitParens, builtin_rule(RuleName::UnwrapExplicitParens));
        set.insert(RuleName::UnwrapExplicitBrackets, builtin_rule(RuleName::UnwrapExplicitBrackets));
        set.insert(RuleName::Add, builtin_rule(RuleName::Add));
        set.insert(RuleName::Subtract, builtin_rule(RuleName::Subtract));
        set.insert(RuleName::Multiply, builtin_rule(RuleName::Multiply));
        set.insert(RuleName::Divide, builtin_rule(RuleName::Divide));
        set.insert(RuleName::Modulo, builtin_rule(RuleName::Modulo));
        set.insert(RuleName::Exponentiate, builtin_rule(RuleName::Exponentiate));
        set.insert(RuleName::Posate, builtin_rule(RuleName::Posate));
        set.insert(RuleName::Negate, builtin_rule(RuleName::Negate));
        set.insert(RuleName::MultiplicateIdentity, builtin_rule(RuleName::MultiplicateIdentity));
        set.insert(RuleName::AdditiveIdentity, builtin_rule(RuleName::AdditiveIdentity));
        set.insert(RuleName::AdditiveInverse, builtin_rule(RuleName::AdditiveInverse));
        set.insert(RuleName::SubtractiveIdentity, builtin_rule(RuleName::SubtractiveIdentity));
        set.insert(RuleName::ReorderConstants, builtin_rule(RuleName::ReorderConstants));
        set.insert(RuleName::DistributeNegation, builtin_rule(RuleName::DistributeNegation));
        set.insert(RuleName::FoldNegatedAddition, builtin_rule(RuleName::FoldNegatedAddition));
        set.insert(RuleName::FoldDivision, builtin_rule(RuleName::FoldDivision));
        set.insert(RuleName::FoldExponents, builtin_rule(RuleName::FoldExponents));
        set.insert(RuleName::ExponentiativeIdentity, builtin_rule(RuleName::ExponentiativeIdentity));
        set
    }
}

} // verus!
