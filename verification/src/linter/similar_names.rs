//! The similar names lint: patterns of different kinds that share a name.
//!
//! For example, in the pattern `$a + #a + _a + $a` the name "a" is used by a variable pattern, a
//! constant pattern and an any pattern. The expression is valid, but hard to read: a clearer one
//! is `$a + #b + _c + $a`.
use crate::common::Span;
use crate::diagnostics::{Diagnostic, DiagnosticRecord};
use crate::grammar::expression_pattern::{ExprPat, RcExprPat};
use crate::grammar::order::{lemma_str_lt_strict_total, str_less, str_lt};
use crate::text::{drop_first_char, push_text, text};
use vstd::prelude::*;

verus! {

/// The kind of pattern that uses a name.
#[derive(PartialEq, Eq, Structural, Clone, Copy, Debug)]
pub enum NameKind {
    /// A variable pattern, `$name`.
    Var,
    /// A constant pattern, `#name`.
    Const,
    /// An any pattern, `_name`.
    Any,
}

/// One use of a name: the name without its sigil, the kind of pattern, and its span.
pub type NameUse = (Seq<char>, NameKind, Span);

/// The uses of pattern names in `p`, in the order a left-to-right walk meets them.
pub open spec fn name_uses(p: RcExprPat) -> Seq<NameUse>
    decreases p,
{
    match *p.pat {
        ExprPat::VarPat(n) => seq![(n@.drop_first(), NameKind::Var, p.span)],
        ExprPat::ConstPat(n) => seq![(n@.drop_first(), NameKind::Const, p.span)],
        ExprPat::AnyPat(n) => seq![(n@.drop_first(), NameKind::Any, p.span)],
        ExprPat::Const(_) => Seq::empty(),
        ExprPat::BinaryExpr(b) => name_uses(b.lhs) + name_uses(b.rhs),
        ExprPat::UnaryExpr(u) => name_uses(u.rhs),
        ExprPat::Parend(x) => name_uses(x),
        ExprPat::Bracketed(x) => name_uses(x),
    }
}

/// Every pattern name in `p` starts with a one-byte sigil (`$`, `#` or `_` for parsed patterns).
pub open spec fn names_have_sigils(p: RcExprPat) -> bool
    decreases p,
{
    match *p.pat {
        ExprPat::VarPat(n) | ExprPat::ConstPat(n) | ExprPat::AnyPat(n) => n@.len() > 0 && n@[0]
            < '\u{80}',
        ExprPat::Const(_) => true,
        ExprPat::BinaryExpr(b) => names_have_sigils(b.lhs) && names_have_sigils(b.rhs),
        ExprPat::UnaryExpr(u) => names_have_sigils(u.rhs),
        ExprPat::Parend(x) => names_have_sigils(x),
        ExprPat::Bracketed(x) => names_have_sigils(x),
    }
}

/// The spans at which `key` is used by patterns of `kind`, in order of use.
pub open spec fn spans_of(o: Seq<NameUse>, key: Seq<char>, kind: NameKind) -> Seq<Span>
    decreases o.len(),
{
    if o.len() == 0 {
        Seq::empty()
    } else {
        let r = spans_of(o.drop_last(), key, kind);
        if o.last().0 == key && o.last().1 == kind {
            r.push(o.last().2)
        } else {
            r
        }
    }
}

/// Inserts `k` into the strictly increasing sequence of names `ks`, unless it is there.
pub open spec fn insert_key(ks: Seq<Seq<char>>, k: Seq<char>) -> Seq<Seq<char>>
    decreases ks.len(),
{
    if ks.len() == 0 {
        seq![k]
    } else if ks.last() == k {
        ks
    } else if str_lt(ks.last(), k) {
        ks.push(k)
    } else {
        insert_key(ks.drop_last(), k).push(ks.last())
    }
}

/// The distinct names used in `o`, in increasing order.
pub open spec fn keys_of(o: Seq<NameUse>) -> Seq<Seq<char>>
    decreases o.len(),
{
    if o.len() == 0 {
        Seq::empty()
    } else {
        insert_key(keys_of(o.drop_last()), o.last().0)
    }
}

/// The number of kinds of pattern that use `key`.
pub open spec fn kinds_used(o: Seq<NameUse>, key: Seq<char>) -> int {
    (if spans_of(o, key, NameKind::Var).len() > 0 {
        1int
    } else {
        0
    }) + (if spans_of(o, key, NameKind::Const).len() > 0 {
        1int
    } else {
        0
    }) + (if spans_of(o, key, NameKind::Any).len() > 0 {
        1int
    } else {
        0
    })
}

/// The names of `ks` that are used by more than one kind of pattern, in order.
pub open spec fn conflicts_in(ks: Seq<Seq<char>>, o: Seq<NameUse>) -> Seq<Seq<char>>
    decreases ks.len(),
{
    if ks.len() == 0 {
        Seq::empty()
    } else {
        let r = conflicts_in(ks.drop_last(), o);
        if kinds_used(o, ks.last()) > 1 {
            r.push(ks.last())
        } else {
            r
        }
    }
}

/// The names used by more than one kind of pattern, in increasing order.
pub open spec fn conflicting_keys(o: Seq<NameUse>) -> Seq<Seq<char>> {
    conflicts_in(keys_of(o), o)
}

/// Spans tagged with a kind.
pub open spec fn tagged(s: Seq<Span>, kind: NameKind) -> Seq<(NameKind, Span)> {
    s.map_values(|sp: Span| (kind, sp))
}

/// Every use of `key`: its variable patterns, then its constant patterns, then its any
/// patterns, each in order of use.
pub open spec fn all_uses(o: Seq<NameUse>, key: Seq<char>) -> Seq<(NameKind, Span)> {
    tagged(spans_of(o, key, NameKind::Var), NameKind::Var) + tagged(
        spans_of(o, key, NameKind::Const),
        NameKind::Const,
    ) + tagged(spans_of(o, key, NameKind::Any), NameKind::Any)
}

/// `a` comes no later than `b` in the order of spans (by start, then by end).
pub open spec fn span_le(a: Span, b: Span) -> bool {
    a.lo < b.lo || (a.lo == b.lo && a.hi <= b.hi)
}

/// Inserts `x` into the span-sorted `s`, after every element whose span is not greater.
pub open spec fn insert_by_span(s: Seq<(NameKind, Span)>, x: (NameKind, Span)) -> Seq<
    (NameKind, Span),
>
    decreases s.len(),
{
    if s.len() == 0 {
        seq![x]
    } else if span_le(s.last().1, x.1) {
        s.push(x)
    } else {
        insert_by_span(s.drop_last(), x).push(s.last())
    }
}

/// `s` stably sorted by span.
pub open spec fn sort_by_span(s: Seq<(NameKind, Span)>) -> Seq<(NameKind, Span)>
    decreases s.len(),
{
    if s.len() == 0 {
        s
    } else {
        insert_by_span(sort_by_span(s.drop_last()), s.last())
    }
}

/// The uses of `key`, stably sorted by span.
pub open spec fn sorted_uses(o: Seq<NameUse>, key: Seq<char>) -> Seq<(NameKind, Span)> {
    sort_by_span(all_uses(o, key))
}

/// The elements of `s` whose kind is not `kind`, in order.
pub open spec fn uses_other_than(s: Seq<(NameKind, Span)>, kind: NameKind) -> Seq<
    (NameKind, Span),
>
    decreases s.len(),
{
    if s.len() == 0 {
        s
    } else {
        let r = uses_other_than(s.drop_last(), kind);
        if s.last().0 != kind {
            r.push(s.last())
        } else {
            r
        }
    }
}

/// The first use of `key` by span.
pub open spec fn first_use(o: Seq<NameUse>, key: Seq<char>) -> (NameKind, Span) {
    sorted_uses(o, key)[0]
}

/// The uses of `key` by the kinds other than that of its first use, by span.
pub open spec fn other_uses(o: Seq<NameUse>, key: Seq<char>) -> Seq<(NameKind, Span)> {
    uses_other_than(sorted_uses(o, key), first_use(o, key).0)
}

/// The kinds that use `key`, other than that of its first use, in the order var, const, any.
pub open spec fn other_kinds(o: Seq<NameUse>, key: Seq<char>) -> Seq<NameKind> {
    let f = first_use(o, key).0;
    (if f != NameKind::Var && spans_of(o, key, NameKind::Var).len() > 0 {
        seq![NameKind::Var]
    } else {
        Seq::empty()
    }) + (if f != NameKind::Const && spans_of(o, key, NameKind::Const).len() > 0 {
        seq![NameKind::Const]
    } else {
        Seq::empty()
    }) + (if f != NameKind::Any && spans_of(o, key, NameKind::Any).len() > 0 {
        seq![NameKind::Any]
    } else {
        Seq::empty()
    })
}

/// The word for a kind of pattern.
pub open spec fn kind_text(k: NameKind) -> Seq<char> {
    match k {
        NameKind::Var => "var"@,
        NameKind::Const => "const"@,
        NameKind::Any => "any"@,
    }
}

/// The other kinds, as words: "var", or "var and any".
pub open spec fn other_kinds_text(o: Seq<NameUse>, key: Seq<char>) -> Seq<char> {
    let ks = other_kinds(o, key);
    if ks.len() == 1 {
        kind_text(ks[0])
    } else {
        kind_text(ks[0]) + " and "@ + kind_text(ks[1])
    }
}

/// The message of the diagnostic for `key`.
pub open spec fn similar_names_msg(o: Seq<NameUse>, key: Seq<char>) -> Seq<char> {
    if other_uses(o, key).len() == 1 {
        if other_kinds(o, key)[0] == NameKind::Any {
            "\""@ + key + "\" is used by an "@ + other_kinds_text(o, key) + " pattern as well"@
        } else {
            "\""@ + key + "\" is used by a "@ + other_kinds_text(o, key) + " pattern as well"@
        }
    } else {
        "\""@ + key + "\" is used by "@ + other_kinds_text(o, key) + " patterns as well"@
    }
}

/// `d` is the similar names warning for `key`: at the first use of `key`, with a note at each
/// use by the other kinds.
pub open spec fn is_similar_names_diag(d: Diagnostic, o: Seq<NameUse>, key: Seq<char>) -> bool {
    &&& d.kind == crate::diagnostics::DiagnosticKind::Warning
    &&& d.code@ == "L0003"@
    &&& d.span == first_use(o, key).1
    &&& d.title@ == "Similar name \""@ + key + "\" used by multiple patterns"@
    &&& d.msg matches Some(m) && m@ == similar_names_msg(o, key)
    &&& d.associated_diagnostics@.len() == other_uses(o, key).len()
    &&& forall|i: int|
        0 <= i < other_uses(o, key).len() ==> {
            let a = #[trigger] d.associated_diagnostics@[i];
            &&& a.kind == crate::diagnostics::DiagnosticKind::Note
            &&& a.span == other_uses(o, key)[i].1
            &&& a.msg@ == kind_text(other_uses(o, key)[i].0) + " pattern here"@
        }
    &&& d.unspanned_associated_diagnostics@.len() == 0
    &&& d.autofix is None
}

/// Every name in `ks` comes strictly before every later one.
pub open spec fn strictly_sorted(ks: Seq<Seq<char>>) -> bool {
    forall|i: int, j: int| 0 <= i < j < ks.len() ==> str_lt(ks[i], ks[j])
}

/// Every name in `ks` comes strictly before `b`.
spec fn all_before(ks: Seq<Seq<char>>, b: Seq<char>) -> bool {
    forall|i: int| 0 <= i < ks.len() ==> str_lt(ks[i], b)
}

/// Inserting a name before `b` keeps every name before `b`.
proof fn lemma_insert_key_before(ks: Seq<Seq<char>>, k: Seq<char>, b: Seq<char>)
    requires
        all_before(ks, b),
        str_lt(k, b),
    ensures
        all_before(insert_key(ks, k), b),
    decreases ks.len(),
{
    if ks.len() > 0 && ks.last() != k && !str_lt(ks.last(), k) {
        lemma_insert_key_before(ks.drop_last(), k, b);
    }
}

/// Inserting a name keeps the names strictly sorted.
pub proof fn lemma_insert_key_sorted(ks: Seq<Seq<char>>, k: Seq<char>)
    requires
        strictly_sorted(ks),
    ensures
        strictly_sorted(insert_key(ks, k)),
    decreases ks.len(),
{
    if ks.len() == 0 {
    } else if ks.last() == k {
    } else if str_lt(ks.last(), k) {
        assert forall|i: int| 0 <= i < ks.len() implies str_lt(ks[i], k) by {
            lemma_str_lt_strict_total(ks[i], ks.last(), k);
        }
    } else {
        lemma_str_lt_strict_total(ks.last(), k, k);
        lemma_insert_key_sorted(ks.drop_last(), k);
        lemma_insert_key_before(ks.drop_last(), k, ks.last());
    }
}

/// The names of a table are strictly sorted.
proof fn lemma_keys_sorted(o: Seq<NameUse>)
    ensures
        strictly_sorted(keys_of(o)),
    decreases o.len(),
{
    if o.len() > 0 {
        lemma_keys_sorted(o.drop_last());
        lemma_insert_key_sorted(keys_of(o.drop_last()), o.last().0);
    }
}

/// Keeping some names of a strictly sorted sequence keeps it strictly sorted, and keeps every
/// name before any bound that all names are before.
proof fn lemma_conflicts_sorted(ks: Seq<Seq<char>>, o: Seq<NameUse>)
    requires
        strictly_sorted(ks),
    ensures
        strictly_sorted(conflicts_in(ks, o)),
        forall|b: Seq<char>| all_before(ks, b) ==> all_before(conflicts_in(ks, o), b),
    decreases ks.len(),
{
    if ks.len() > 0 {
        let dl = ks.drop_last();
        assert(strictly_sorted(dl));
        lemma_conflicts_sorted(dl, o);
        assert(all_before(dl, ks.last()));
        assert forall|b: Seq<char>| all_before(ks, b) implies all_before(conflicts_in(ks, o), b) by {
            assert(all_before(dl, b));
        }
    }
}

/// The warnings of the similar names lint come in strictly increasing order of name, so no
/// name is reported twice.
pub proof fn lemma_conflicting_keys_sorted(o: Seq<NameUse>)
    ensures
        strictly_sorted(conflicting_keys(o)),
{
    lemma_keys_sorted(o);
    lemma_conflicts_sorted(keys_of(o), o);
}

/// Inserting a name adds it and keeps the others.
proof fn lemma_insert_key_contains(ks: Seq<Seq<char>>, k: Seq<char>)
    ensures
        insert_key(ks, k).contains(k),
        forall|x: Seq<char>| ks.contains(x) ==> insert_key(ks, k).contains(x),
    decreases ks.len(),
{
    if ks.len() > 0 && ks.last() != k && !str_lt(ks.last(), k) {
        lemma_insert_key_contains(ks.drop_last(), k);
        let r = insert_key(ks.drop_last(), k);
        assert(r.push(ks.last()).contains(k)) by {
            let i = choose|i: int| 0 <= i < r.len() && r[i] == k;
            assert(r.push(ks.last())[i] == k);
        }
        assert forall|x: Seq<char>| ks.contains(x) implies r.push(ks.last()).contains(x) by {
            let i = choose|i: int| 0 <= i < ks.len() && ks[i] == x;
            if i == ks.len() - 1 {
                assert(r.push(ks.last())[r.len() as int] == x);
            } else {
                assert(ks.drop_last()[i] == x);
                assert(ks.drop_last().contains(x));
                let m = choose|m: int| 0 <= m < r.len() && r[m] == x;
                assert(r.push(ks.last())[m] == x);
            }
        }
    } else if ks.len() > 0 && ks.last() != k {
        assert(ks.push(k)[ks.len() as int] == k);
        assert forall|x: Seq<char>| ks.contains(x) implies ks.push(k).contains(x) by {
            let i = choose|i: int| 0 <= i < ks.len() && ks[i] == x;
            assert(ks.push(k)[i] == x);
        }
    } else if ks.len() > 0 {
        assert(ks[ks.len() - 1] == k);
    } else {
        assert(seq![k][0] == k);
    }
}

/// Every name that `o` uses is among its names.
proof fn lemma_keys_cover(o: Seq<NameUse>, k: Seq<char>, kind: NameKind)
    ensures
        spans_of(o, k, kind).len() > 0 ==> keys_of(o).contains(k),
    decreases o.len(),
{
    if o.len() > 0 {
        lemma_keys_cover(o.drop_last(), k, kind);
        lemma_insert_key_contains(keys_of(o.drop_last()), o.last().0);
    }
}

/// Adding a use extends the span list of its name and kind, and no other.
proof fn lemma_spans_push(o: Seq<NameUse>, u: NameUse, k: Seq<char>, kind: NameKind)
    ensures
        spans_of(o.push(u), k, kind) == if u.0 == k && u.1 == kind {
            spans_of(o, k, kind).push(u.2)
        } else {
            spans_of(o, k, kind)
        },
{
    assert(o.push(u).drop_last() =~= o);
}

/// Inserting into a span-sorted sequence adds one element.
proof fn lemma_insert_by_span_len(s: Seq<(NameKind, Span)>, x: (NameKind, Span))
    ensures
        insert_by_span(s, x).len() == s.len() + 1,
    decreases s.len(),
{
    if s.len() > 0 && !span_le(s.last().1, x.1) {
        lemma_insert_by_span_len(s.drop_last(), x);
    }
}

/// Sorting keeps the length.
proof fn lemma_sort_by_span_len(s: Seq<(NameKind, Span)>)
    ensures
        sort_by_span(s).len() == s.len(),
    decreases s.len(),
{
    if s.len() > 0 {
        lemma_sort_by_span_len(s.drop_last());
        lemma_insert_by_span_len(sort_by_span(s.drop_last()), s.last());
    }
}

/// Whether `a` comes no later than `b` in the order of spans.
fn span_before(a: Span, b: Span) -> (r: bool)
    ensures
        r == span_le(a, b),
{
    a.lo < b.lo || (a.lo == b.lo && a.hi <= b.hi)
}

/// Inserts `x` into the span-sorted `v`, after every element whose span is not greater.
fn insert_use(v: &mut Vec<(NameKind, Span)>, x: (NameKind, Span))
    ensures
        final(v)@ == insert_by_span(old(v)@, x),
{
    let ghost s = v@;
    let mut j: usize = v.len();
    proof {
        assert(s.take(s.len() as int) =~= s);
        assert(s.skip(s.len() as int) =~= Seq::<(NameKind, Span)>::empty());
    }
    while j > 0 && !span_before(v[j - 1].1, x.1)
        invariant
            j <= s.len(),
            v@ == s,
            insert_by_span(s, x) == insert_by_span(s.take(j as int), x) + s.skip(j as int),
        decreases j,
    {
        proof {
            let t = s.take(j as int);
            assert(t.last() == s[j - 1]);
            assert(t.drop_last() =~= s.take(j - 1));
            assert(s.skip(j - 1) =~= seq![s[j - 1]] + s.skip(j as int));
            assert(insert_by_span(s.take(j - 1), x).push(s[j - 1]) + s.skip(j as int)
                =~= insert_by_span(s.take(j - 1), x) + s.skip(j - 1));
        }
        j = j - 1;
    }
    proof {
        let t = s.take(j as int);
        if j > 0 {
            assert(t.last() == s[j - 1]);
            assert(insert_by_span(t, x) == t.push(x));
        } else {
            assert(insert_by_span(t, x) == seq![x]);
        }
    }
    v.insert(j, x);
    assert(v@ =~= s.take(j as int).push(x) + s.skip(j as int));
}

/// Appends the spans, tagged with `kind`.
fn push_tagged(v: &mut Vec<(NameKind, Span)>, spans: &Vec<Span>, kind: NameKind)
    ensures
        final(v)@ == old(v)@ + tagged(spans@, kind),
{
    let ghost s = v@;
    let mut i: usize = 0;
    while i < spans.len()
        invariant
            i <= spans.len(),
            v@ == s + tagged(spans@.take(i as int), kind),
        decreases spans.len() - i,
    {
        v.push((kind, spans[i]));
        i = i + 1;
        assert(tagged(spans@.take(i as int), kind) =~= tagged(spans@.take(i - 1), kind).push(
            (kind, spans@[i - 1]),
        ));
    }
    assert(spans@.take(i as int) =~= spans@);
}

/// The word for a kind of pattern.
fn kind_name(k: NameKind) -> (r: String)
    ensures
        r@ == kind_text(k),
{
    match k {
        NameKind::Var => text("var"),
        NameKind::Const => text("const"),
        NameKind::Any => text("any"),
    }
}

/// The spans at which a name is used, by kind of pattern.
struct NameCollection {
    var_pat: Vec<Span>,
    const_pat: Vec<Span>,
    any_pat: Vec<Span>,
}

impl NameCollection {
    /// The spans of uses by patterns of `kind`.
    spec fn spans(&self, kind: NameKind) -> Seq<Span> {
        match kind {
            NameKind::Var => self.var_pat@,
            NameKind::Const => self.const_pat@,
            NameKind::Any => self.any_pat@,
        }
    }

    /// A collection holding one use.
    fn single(kind: NameKind, span: Span) -> (r: NameCollection)
        ensures
            forall|k: NameKind|
                #[trigger] r.spans(k) == if k == kind {
                    seq![span]
                } else {
                    Seq::<Span>::empty()
                },
    {
        let mut c = NameCollection { var_pat: Vec::new(), const_pat: Vec::new(), any_pat: Vec::new() };
        c.add(kind, span);
        assert(forall|k: NameKind| k != kind ==> c.spans(k) =~= Seq::<Span>::empty());
        assert(c.spans(kind) =~= seq![span]);
        c
    }

    /// Adds a use.
    fn add(&mut self, kind: NameKind, span: Span)
        ensures
            forall|k: NameKind|
                #[trigger] final(self).spans(k) == if k == kind {
                    old(self).spans(k).push(span)
                } else {
                    old(self).spans(k)
                },
    {
        match kind {
            NameKind::Var => self.var_pat.push(span),
            NameKind::Const => self.const_pat.push(span),
            NameKind::Any => self.any_pat.push(span),
        }
    }
}

/// Lints an expression pattern for names used by more than one kind of pattern.
pub struct SimilarNamesLinter {
    /// Each name used, in increasing order, with the spans of its uses.
    names: Vec<(String, NameCollection)>,
}

impl SimilarNamesLinter {
    /// The names in the table, in order.
    pub closed spec fn keys(&self) -> Seq<Seq<char>> {
        self.names@.map_values(|e: (String, NameCollection)| e.0@)
    }

    /// The table holds exactly the uses `o`.
    pub closed spec fn holds(&self, o: Seq<NameUse>) -> bool {
        &&& self.keys() == keys_of(o)
        &&& forall|i: int, kind: NameKind|
            0 <= i < self.names@.len() ==> #[trigger] self.names@[i].1.spans(kind) == spans_of(
                o,
                self.names@[i].0@,
                kind,
            )
    }

    /// An empty table.
    pub fn new() -> (r: SimilarNamesLinter)
        ensures
            r.holds(Seq::empty()),
    {
        let r = SimilarNamesLinter { names: Vec::new() };
        assert(r.keys() =~= Seq::<Seq<char>>::empty());
        r
    }

    /// Records a use of `key` by a pattern of `kind` at `span`.
    fn record(&mut self, key: String, kind: NameKind, span: Span, Ghost(o): Ghost<Seq<NameUse>>)
        requires
            old(self).holds(o),
        ensures
            final(self).holds(o.push((key@, kind, span))),
    {
        let ghost ks = self.keys();
        let ghost k = key@;
        let ghost o2 = o.push((key@, kind, span));
        proof {
            lemma_keys_sorted(o);
            assert(o2.drop_last() =~= o);
            assert(keys_of(o2) == insert_key(ks, k));
            assert(ks.take(ks.len() as int) =~= ks);
            assert(ks.skip(ks.len() as int) =~= Seq::<Seq<char>>::empty());
        }
        let mut j: usize = self.names.len();
        loop
            invariant
                j <= self.names@.len(),
                self.holds(o),
                ks == self.keys(),
                ks == keys_of(o),
                strictly_sorted(ks),
                k == key@,
                insert_key(ks, k) == insert_key(ks.take(j as int), k) + ks.skip(j as int),
                forall|i: int| j <= i < ks.len() ==> str_lt(k, #[trigger] ks[i]),
            ensures
                j <= self.names@.len(),
                insert_key(ks, k) == insert_key(ks.take(j as int), k) + ks.skip(j as int),
                forall|i: int| j <= i < ks.len() ==> str_lt(k, #[trigger] ks[i]),
                j == 0 || !str_lt(k, ks[j - 1]),
            decreases j,
        {
            if j == 0 {
                break ;
            }
            assert(self.names@[j - 1].0@ == ks[j - 1]);
            if str_less(&key, &self.names[j - 1].0) {
                proof {
                    let t = ks.take(j as int);
                    lemma_str_lt_strict_total(k, ks[j - 1], k);
                    assert(t.last() == ks[j - 1]);
                    assert(t.drop_last() =~= ks.take(j - 1));
                    assert(insert_key(t, k) == insert_key(ks.take(j - 1), k).push(ks[j - 1]));
                    assert(ks.skip(j - 1) =~= seq![ks[j - 1]] + ks.skip(j as int));
                    assert(insert_key(ks.take(j - 1), k).push(ks[j - 1]) + ks.skip(j as int)
                        =~= insert_key(ks.take(j - 1), k) + ks.skip(j - 1));
                }
                j = j - 1;
            } else {
                break ;
            }
        }
        proof {
            lemma_str_lt_strict_total(k, k, k);
        }
        if j > 0 && self.names[j - 1].0.eq(&key) {
            // The name is in the table: add the use to its entry.
            let ghost old_names = self.names@;
            proof {
                let t = ks.take(j as int);
                assert(t.last() == k);
                assert(insert_key(t, k) == t);
                assert(t + ks.skip(j as int) =~= ks);
                assert forall|i: int| 0 <= i < ks.len() && i != j - 1 implies ks[i] != k by {
                    if i < j - 1 {
                        assert(str_lt(ks[i], ks[j - 1]));
                    } else {
                        assert(str_lt(ks[j - 1], ks[i]));
                    }
                }
            }
            let (name, mut coll) = self.names.remove(j - 1);
            coll.add(kind, span);
            self.names.insert(j - 1, (name, coll));
            proof {
                assert(self.keys() =~= ks);
                assert forall|i: int, kd: NameKind|
                    0 <= i < self.names@.len() implies #[trigger] self.names@[i].1.spans(kd)
                    == spans_of(o2, self.names@[i].0@, kd) by {
                    lemma_spans_push(o, (k, kind, span), self.names@[i].0@, kd);
                    if i != j - 1 {
                        assert(self.names@[i] == old_names[i]);
                        assert(ks[i] != k);
                    }
                }
            }
        } else {
            // A new name: insert it where it keeps the table sorted.
            let ghost old_names = self.names@;
            proof {
                let t = ks.take(j as int);
                if j > 0 {
                    lemma_str_lt_strict_total(k, ks[j - 1], k);
                    assert(t.last() == ks[j - 1]);
                    assert(t.last() != k);
                    assert(str_lt(t.last(), k));
                    assert(insert_key(t, k) == t.push(k));
                } else {
                    assert(insert_key(t, k) == seq![k]);
                }
                assert forall|i: int| 0 <= i < ks.len() implies ks[i] != k by {
                    if i >= j {
                        lemma_str_lt_strict_total(k, ks[i], k);
                    } else {
                        lemma_str_lt_strict_total(ks[i], ks[j - 1], k);
                        if i < j - 1 {
                            assert(str_lt(ks[i], ks[j - 1]));
                        }
                    }
                }
                assert(!ks.contains(k));
                lemma_keys_cover(o, k, NameKind::Var);
                lemma_keys_cover(o, k, NameKind::Const);
                lemma_keys_cover(o, k, NameKind::Any);
            }
            let coll = NameCollection::single(kind, span);
            self.names.insert(j, (key, coll));
            proof {
                assert(self.keys() =~= ks.take(j as int).push(k) + ks.skip(j as int));
                assert(self.keys() =~= insert_key(ks, k));
                assert forall|i: int, kd: NameKind|
                    0 <= i < self.names@.len() implies #[trigger] self.names@[i].1.spans(kd)
                    == spans_of(o2, self.names@[i].0@, kd) by {
                    lemma_spans_push(o, (k, kind, span), self.names@[i].0@, kd);
                    if i < j {
                        assert(self.names@[i] == old_names[i]);
                        assert(ks[i] != k);
                    } else if i > j {
                        assert(self.names@[i] == old_names[i - 1]);
                        assert(ks[i - 1] != k);
                    } else {
                        assert(spans_of(o, k, kd).len() == 0);
                    }
                }
            }
        }
    }
}

impl NameCollection {
    /// The uses of the name, stably sorted by span.
    fn sorted_uses(&self, Ghost(o): Ghost<Seq<NameUse>>, Ghost(key): Ghost<Seq<char>>) -> (r: Vec<
        (NameKind, Span),
    >)
        requires
            forall|kind: NameKind| #[trigger] self.spans(kind) == spans_of(o, key, kind),
        ensures
            r@ == sorted_uses(o, key),
    {
        let mut all: Vec<(NameKind, Span)> = Vec::new();
        push_tagged(&mut all, &self.var_pat, NameKind::Var);
        push_tagged(&mut all, &self.const_pat, NameKind::Const);
        push_tagged(&mut all, &self.any_pat, NameKind::Any);
        assert(self.spans(NameKind::Var) == self.var_pat@);
        assert(self.spans(NameKind::Const) == self.const_pat@);
        assert(self.spans(NameKind::Any) == self.any_pat@);
        assert(all@ =~= all_uses(o, key));
        let mut out: Vec<(NameKind, Span)> = Vec::new();
        let mut i: usize = 0;
        assert(all@.take(0) =~= Seq::<(NameKind, Span)>::empty());
        while i < all.len()
            invariant
                i <= all.len(),
                out@ == sort_by_span(all@.take(i as int)),
            decreases all.len() - i,
        {
            insert_use(&mut out, all[i]);
            i = i + 1;
            assert(all@.take(i as int).drop_last() =~= all@.take(i - 1));
        }
        assert(all@.take(i as int) =~= all@);
        out
    }
}

/// The uses in `s` whose kind is not `kind`, in order.
fn other_than(s: &Vec<(NameKind, Span)>, kind: NameKind) -> (r: Vec<(NameKind, Span)>)
    ensures
        r@ == uses_other_than(s@, kind),
{
    let mut out: Vec<(NameKind, Span)> = Vec::new();
    let mut i: usize = 0;
    assert(s@.take(0) =~= Seq::<(NameKind, Span)>::empty());
    while i < s.len()
        invariant
            i <= s.len(),
            out@ == uses_other_than(s@.take(i as int), kind),
        decreases s.len() - i,
    {
        if s[i].0 != kind {
            out.push(s[i]);
        }
        i = i + 1;
        assert(s@.take(i as int).drop_last() =~= s@.take(i - 1));
    }
    assert(s@.take(i as int) =~= s@);
    out
}

/// The diagnostic for a name used by more than one kind of pattern.
fn name_diag(key: &String, coll: &NameCollection, Ghost(o): Ghost<Seq<NameUse>>) -> (r: Diagnostic)
    requires
        forall|kind: NameKind| #[trigger] coll.spans(kind) == spans_of(o, key@, kind),
        kinds_used(o, key@) > 1,
    ensures
        is_similar_names_diag(r, o, key@),
{
    let ghost k = key@;
    let uses = coll.sorted_uses(Ghost(o), Ghost(k));
    proof {
        lemma_sort_by_span_len(all_uses(o, k));
        assert(coll.spans(NameKind::Var) == coll.var_pat@);
        assert(coll.spans(NameKind::Const) == coll.const_pat@);
        assert(coll.spans(NameKind::Any) == coll.any_pat@);
    }
    let first = uses[0];
    let others = other_than(&uses, first.0);
    let var_used = coll.var_pat.len() > 0;
    let const_used = coll.const_pat.len() > 0;
    let any_used = coll.any_pat.len() > 0;
    let mut kinds: Vec<NameKind> = Vec::new();
    if var_used && first.0 != NameKind::Var {
        kinds.push(NameKind::Var);
    }
    if const_used && first.0 != NameKind::Const {
        kinds.push(NameKind::Const);
    }
    if any_used && first.0 != NameKind::Any {
        kinds.push(NameKind::Any);
    }
    assert(kinds@ =~= other_kinds(o, k));
    assert(kinds@.len() >= 1);
    let kinds_text = if kinds.len() == 1 {
        kind_name(kinds[0])
    } else {
        let mut t = kind_name(kinds[0]);
        push_text(&mut t, " and ");
        let second = kind_name(kinds[1]);
        push_text(&mut t, second.as_str());
        t
    };
    let mut msg = text("\"");
    push_text(&mut msg, key.as_str());
    if others.len() == 1 {
        if kinds[0] == NameKind::Any {
            push_text(&mut msg, "\" is used by an ");
        } else {
            push_text(&mut msg, "\" is used by a ");
        }
        push_text(&mut msg, kinds_text.as_str());
        push_text(&mut msg, " pattern as well");
    } else {
        push_text(&mut msg, "\" is used by ");
        push_text(&mut msg, kinds_text.as_str());
        push_text(&mut msg, " patterns as well");
    }
    let mut title = text("Similar name \"");
    push_text(&mut title, key.as_str());
    push_text(&mut title, "\" used by multiple patterns");
    let mut diag = Diagnostic::span_warn(first.1, title, SimilarNamesLinter::code(), Some(msg));
    let mut i: usize = 0;
    while i < others.len()
        invariant
            i <= others.len(),
            others@ == other_uses(o, k),
            diag.kind == crate::diagnostics::DiagnosticKind::Warning,
            diag.code@ == "L0003"@,
            diag.span == first_use(o, k).1,
            diag.title@ == "Similar name \""@ + k + "\" used by multiple patterns"@,
            diag.msg matches Some(m) && m@ == similar_names_msg(o, k),
            diag.associated_diagnostics@.len() == i,
            forall|m: int|
                0 <= m < i ==> {
                    let a = #[trigger] diag.associated_diagnostics@[m];
                    &&& a.kind == crate::diagnostics::DiagnosticKind::Note
                    &&& a.span == other_uses(o, k)[m].1
                    &&& a.msg@ == kind_text(other_uses(o, k)[m].0) + " pattern here"@
                },
            diag.unspanned_associated_diagnostics@.len() == 0,
            diag.autofix is None,
        decreases others.len() - i,
    {
        let mut note = kind_name(others[i].0);
        push_text(&mut note, " pattern here");
        diag = diag.with_spanned_note(others[i].1, note);
        i = i + 1;
    }
    diag
}

impl SimilarNamesLinter {
    /// Records the uses of pattern names in `p`, left to right.
    fn visit(&mut self, p: &RcExprPat, Ghost(o): Ghost<Seq<NameUse>>)
        requires
            old(self).holds(o),
            names_have_sigils(*p),
        ensures
            final(self).holds(o + name_uses(*p)),
        decreases p,
    {
        match &*p.pat {
            ExprPat::VarPat(n) => {
                self.record(drop_first_char(n.as_str()), NameKind::Var, p.span, Ghost(o));
                assert(o + name_uses(*p) =~= o.push((n@.drop_first(), NameKind::Var, p.span)));
            },
            ExprPat::ConstPat(n) => {
                self.record(drop_first_char(n.as_str()), NameKind::Const, p.span, Ghost(o));
                assert(o + name_uses(*p) =~= o.push((n@.drop_first(), NameKind::Const, p.span)));
            },
            ExprPat::AnyPat(n) => {
                self.record(drop_first_char(n.as_str()), NameKind::Any, p.span, Ghost(o));
                assert(o + name_uses(*p) =~= o.push((n@.drop_first(), NameKind::Any, p.span)));
            },
            ExprPat::Const(_) => {
                assert(o + name_uses(*p) =~= o);
            },
            ExprPat::BinaryExpr(b) => {
                self.visit(&b.lhs, Ghost(o));
                self.visit(&b.rhs, Ghost(o + name_uses(b.lhs)));
                assert(o + name_uses(b.lhs) + name_uses(b.rhs) =~= o + name_uses(*p));
            },
            ExprPat::UnaryExpr(u) => {
                self.visit(&u.rhs, Ghost(o));
            },
            ExprPat::Parend(x) => {
                self.visit(x, Ghost(o));
            },
            ExprPat::Bracketed(x) => {
                self.visit(x, Ghost(o));
            },
        }
    }

    /// The warnings for the names used by more than one kind of pattern, in increasing order of
    /// name.
    fn check_names(self, Ghost(o): Ghost<Seq<NameUse>>) -> (r: Vec<Diagnostic>)
        requires
            self.holds(o),
        ensures
            r@.len() == conflicting_keys(o).len(),
            forall|i: int|
                0 <= i < r@.len() ==> is_similar_names_diag(
                    #[trigger] r@[i],
                    o,
                    conflicting_keys(o)[i],
                ),
    {
        let ghost ks = self.keys();
        let mut out: Vec<Diagnostic> = Vec::new();
        let mut i: usize = 0;
        assert(ks.take(0) =~= Seq::<Seq<char>>::empty());
        while i < self.names.len()
            invariant
                i <= self.names@.len(),
                self.holds(o),
                ks == self.keys(),
                out@.len() == conflicts_in(ks.take(i as int), o).len(),
                forall|m: int|
                    0 <= m < out@.len() ==> is_similar_names_diag(
                        #[trigger] out@[m],
                        o,
                        conflicts_in(ks.take(i as int), o)[m],
                    ),
            decreases self.names@.len() - i,
        {
            let entry = &self.names[i];
            assert(entry.0@ == ks[i as int]);
            assert(ks.take(i + 1).drop_last() =~= ks.take(i as int));
            let coll = &entry.1;
            assert(coll.spans(NameKind::Var) == coll.var_pat@);
            assert(coll.spans(NameKind::Const) == coll.const_pat@);
            assert(coll.spans(NameKind::Any) == coll.any_pat@);
            let count: u8 = (if coll.var_pat.len() > 0 {
                1
            } else {
                0
            }) + (if coll.const_pat.len() > 0 {
                1
            } else {
                0
            }) + (if coll.any_pat.len() > 0 {
                1
            } else {
                0
            });
            if count > 1 {
                let d = name_diag(&entry.0, coll, Ghost(o));
                out.push(d);
            }
            i = i + 1;
        }
        assert(ks.take(i as int) =~= ks);
        out
    }

    /// Lints an expression pattern: one warning for each name used by more than one kind of
    /// pattern, in increasing order of name.
    pub fn lint(expr_pat: &RcExprPat, _source: &str) -> (r: Vec<Diagnostic>)
        requires
            names_have_sigils(*expr_pat),
        ensures
            r@.len() == conflicting_keys(name_uses(*expr_pat)).len(),
            forall|i: int|
                0 <= i < r@.len() ==> is_similar_names_diag(
                    #[trigger] r@[i],
                    name_uses(*expr_pat),
                    conflicting_keys(name_uses(*expr_pat))[i],
                ),
    {
        let mut linter = SimilarNamesLinter::new();
        linter.visit(expr_pat, Ghost(Seq::empty()));
        assert(Seq::<NameUse>::empty() + name_uses(*expr_pat) =~= name_uses(*expr_pat));
        linter.check_names(Ghost(name_uses(*expr_pat)))
    }
}

impl DiagnosticRecord for SimilarNamesLinter {
    fn code() -> (r: &'static str)
        ensures
            r@ == "L0003"@,
    {
        "L0003"
    }

    fn explanation() -> (r: &'static str)
        ensures
            r@ == "The similar names lint detects expression patterns with very similar names.\n\nFor example, the following pattern expression has different patterns with the same suffix \"a\":\n\n```text\n$a + #a + _a + $a\n```\n\nWhile this is expression is semantically valid, it can be difficuly to read and misleading,\nsince \"a\" is used in three separate and independent patterns. A clearer expression would be\n\n```text\n$a + #b + _c + $a\n```\n"@,
    {
        "The similar names lint detects expression patterns with very similar names.\n\nFor example, the following pattern expression has different patterns with the same suffix \"a\":\n\n```text\n$a + #a + _a + $a\n```\n\nWhile this is expression is semantically valid, it can be difficuly to read and misleading,\nsince \"a\" is used in three separate and independent patterns. A clearer expression would be\n\n```text\n$a + #b + _c + $a\n```\n"
    }
}

} // verus!
