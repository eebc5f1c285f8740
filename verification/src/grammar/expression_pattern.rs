//! Expression patterns: the shapes that string rules match and produce.
use crate::common::Span;
use crate::grammar::{BinaryExpr, Rational, UnaryExpr};
use vstd::prelude::*;

verus! {

/// A slide expression pattern.
#[derive(Debug)]
pub enum ExprPat {
    /// A constant
    Const(Rational),
    /// Pattern matching a variable (a name starting with `$`)
    VarPat(String),
    /// Pattern matching a constant (a name starting with `#`)
    ConstPat(String),
    /// Pattern matching any expression (a name starting with `_`)
    AnyPat(String),
    /// A binary expression
    BinaryExpr(BinaryExpr<RcExprPat>),
    /// A unary expression
    UnaryExpr(UnaryExpr<RcExprPat>),
    /// A paranthesized expression
    Parend(RcExprPat),
    /// A bracketed expression
    Bracketed(RcExprPat),
}

/// An expression pattern together with the span of source text it was read from.
#[derive(Debug)]
pub struct RcExprPat {
    /// The pattern.
    pub pat: Box<ExprPat>,
    /// Where the pattern stands in its source.
    pub span: Span,
}

/// Two patterns are the same tree, whatever their spans.
pub open spec fn same_pat(a: RcExprPat, b: RcExprPat) -> bool
    decreases a,
{
    match (*a.pat, *b.pat) {
        (ExprPat::Const(x), ExprPat::Const(y)) => x == y,
        (ExprPat::VarPat(x), ExprPat::VarPat(y)) => x@ == y@,
        (ExprPat::ConstPat(x), ExprPat::ConstPat(y)) => x@ == y@,
        (ExprPat::AnyPat(x), ExprPat::AnyPat(y)) => x@ == y@,
        (ExprPat::BinaryExpr(x), ExprPat::BinaryExpr(y)) => x.op == y.op && same_pat(x.lhs, y.lhs)
            && same_pat(x.rhs, y.rhs),
        (ExprPat::UnaryExpr(x), ExprPat::UnaryExpr(y)) => x.op == y.op && same_pat(x.rhs, y.rhs),
        (ExprPat::Parend(x), ExprPat::Parend(y)) => same_pat(x, y),
        (ExprPat::Bracketed(x), ExprPat::Bracketed(y)) => same_pat(x, y),
        _ => false,
    }
}

/// Two patterns are the same tree with the same span at every node.
pub open spec fn same_pat_spanned(a: RcExprPat, b: RcExprPat) -> bool
    decreases a,
{
    a.span == b.span && match (*a.pat, *b.pat) {
        (ExprPat::Const(x), ExprPat::Const(y)) => x == y,
        (ExprPat::VarPat(x), ExprPat::VarPat(y)) => x@ == y@,
        (ExprPat::ConstPat(x), ExprPat::ConstPat(y)) => x@ == y@,
        (ExprPat::AnyPat(x), ExprPat::AnyPat(y)) => x@ == y@,
        (ExprPat::BinaryExpr(x), ExprPat::BinaryExpr(y)) => x.op == y.op && same_pat_spanned(
            x.lhs,
            y.lhs,
        ) && same_pat_spanned(x.rhs, y.rhs),
        (ExprPat::UnaryExpr(x), ExprPat::UnaryExpr(y)) => x.op == y.op && same_pat_spanned(
            x.rhs,
            y.rhs,
        ),
        (ExprPat::Parend(x), ExprPat::Parend(y)) => same_pat_spanned(x, y),
        (ExprPat::Bracketed(x), ExprPat::Bracketed(y)) => same_pat_spanned(x, y),
        _ => false,
    }
}

/// `same_pat` is reflexive, symmetric and transitive.
pub proof fn lemma_same_pat_equiv(a: RcExprPat, b: RcExprPat, c: RcExprPat)
    ensures
        same_pat(a, a),
        same_pat(a, b) ==> same_pat(b, a),
        same_pat(a, b) && same_pat(b, c) ==> same_pat(a, c),
{
    lemma_same_pat_refl(a);
    lemma_same_pat_sym(a, b);
    lemma_same_pat_trans(a, b, c);
}

/// `same_pat` is symmetric.
pub proof fn lemma_same_pat_sym(a: RcExprPat, b: RcExprPat)
    ensures
        same_pat(a, b) ==> same_pat(b, a),
    decreases a,
{
    match (*a.pat, *b.pat) {
        (ExprPat::BinaryExpr(x), ExprPat::BinaryExpr(y)) => {
            lemma_same_pat_sym(x.lhs, y.lhs);
            lemma_same_pat_sym(x.rhs, y.rhs);
        },
        (ExprPat::UnaryExpr(x), ExprPat::UnaryExpr(y)) => {
            lemma_same_pat_sym(x.rhs, y.rhs);
        },
        (ExprPat::Parend(x), ExprPat::Parend(y)) => {
            lemma_same_pat_sym(x, y);
        },
        (ExprPat::Bracketed(x), ExprPat::Bracketed(y)) => {
            lemma_same_pat_sym(x, y);
        },
        _ => {},
    }
}

/// `same_pat` is transitive.
pub proof fn lemma_same_pat_trans(a: RcExprPat, b: RcExprPat, c: RcExprPat)
    ensures
        same_pat(a, b) && same_pat(b, c) ==> same_pat(a, c),
    decreases a,
{
    match (*a.pat, *b.pat, *c.pat) {
        (ExprPat::BinaryExpr(x), ExprPat::BinaryExpr(y), ExprPat::BinaryExpr(z)) => {
            lemma_same_pat_trans(x.lhs, y.lhs, z.lhs);
            lemma_same_pat_trans(x.rhs, y.rhs, z.rhs);
        },
        (ExprPat::UnaryExpr(x), ExprPat::UnaryExpr(y), ExprPat::UnaryExpr(z)) => {
            lemma_same_pat_trans(x.rhs, y.rhs, z.rhs);
        },
        (ExprPat::Parend(x), ExprPat::Parend(y), ExprPat::Parend(z)) => {
            lemma_same_pat_trans(x, y, z);
        },
        (ExprPat::Bracketed(x), ExprPat::Bracketed(y), ExprPat::Bracketed(z)) => {
            lemma_same_pat_trans(x, y, z);
        },
        _ => {},
    }
}

/// `same_pat` is reflexive.
pub proof fn lemma_same_pat_refl(a: RcExprPat)
    ensures
        same_pat(a, a),
    decreases a,
{
    match *a.pat {
        ExprPat::BinaryExpr(x) => {
            lemma_same_pat_refl(x.lhs);
            lemma_same_pat_refl(x.rhs);
        },
        ExprPat::UnaryExpr(x) => {
            lemma_same_pat_refl(x.rhs);
        },
        ExprPat::Parend(x) => {
            lemma_same_pat_refl(x);
        },
        ExprPat::Bracketed(x) => {
            lemma_same_pat_refl(x);
        },
        _ => {},
    }
}

/// The pattern names occurring in `p`.
pub open spec fn pat_names(p: RcExprPat) -> Set<Seq<char>>
    decreases p,
{
    match *p.pat {
        ExprPat::VarPat(n) => set![n@],
        ExprPat::ConstPat(n) => set![n@],
        ExprPat::AnyPat(n) => set![n@],
        ExprPat::Const(_) => Set::empty(),
        ExprPat::BinaryExpr(b) => pat_names(b.lhs).union(pat_names(b.rhs)),
        ExprPat::UnaryExpr(u) => pat_names(u.rhs),
        ExprPat::Parend(x) => pat_names(x),
        ExprPat::Bracketed(x) => pat_names(x),
    }
}

/// A copy of a string.
pub fn copy_string(s: &String) -> (r: String)
    ensures
        r@ == s@,
{
    s.clone()
}

/// Whether two strings hold the same characters.
pub fn str_eq(a: &String, b: &String) -> (r: bool)
    ensures
        r == (a@ == b@),
{
    a.eq(b)
}

impl RcExprPat {
    /// Wraps a pattern with its span.
    pub fn new(pat: ExprPat, span: Span) -> (r: RcExprPat)
        ensures
            *r.pat == pat,
            r.span == span,
    {
        RcExprPat { pat: Box::new(pat), span }
    }

    /// A copy of the pattern, spans included.
    pub fn copy(&self) -> (r: RcExprPat)
        ensures
            same_pat(r, *self),
            same_pat_spanned(r, *self),
            r.span == self.span,
        decreases self,
    {
        let p = match &*self.pat {
            ExprPat::Const(c) => ExprPat::Const(*c),
            ExprPat::VarPat(s) => ExprPat::VarPat(copy_string(s)),
            ExprPat::ConstPat(s) => ExprPat::ConstPat(copy_string(s)),
            ExprPat::AnyPat(s) => ExprPat::AnyPat(copy_string(s)),
            ExprPat::BinaryExpr(b) => ExprPat::BinaryExpr(
                BinaryExpr { op: b.op, lhs: b.lhs.copy(), rhs: b.rhs.copy() },
            ),
            ExprPat::UnaryExpr(u) => ExprPat::UnaryExpr(UnaryExpr { op: u.op, rhs: u.rhs.copy() }),
            ExprPat::Parend(e) => ExprPat::Parend(e.copy()),
            ExprPat::Bracketed(e) => ExprPat::Bracketed(e.copy()),
        };
        RcExprPat::new(p, self.span)
    }

    /// Whether two patterns are the same tree, whatever their spans.
    pub fn same(&self, other: &RcExprPat) -> (r: bool)
        ensures
            r == same_pat(*self, *other),
        decreases self,
    {
        match (&*self.pat, &*other.pat) {
            (ExprPat::Const(x), ExprPat::Const(y)) => x.num == y.num && x.den == y.den,
            (ExprPat::VarPat(x), ExprPat::VarPat(y)) => str_eq(x, y),
            (ExprPat::ConstPat(x), ExprPat::ConstPat(y)) => str_eq(x, y),
            (ExprPat::AnyPat(x), ExprPat::AnyPat(y)) => str_eq(x, y),
            (ExprPat::BinaryExpr(x), ExprPat::BinaryExpr(y)) => x.op == y.op && x.lhs.same(&y.lhs)
                && x.rhs.same(&y.rhs),
            (ExprPat::UnaryExpr(x), ExprPat::UnaryExpr(y)) => x.op == y.op && x.rhs.same(&y.rhs),
            (ExprPat::Parend(x), ExprPat::Parend(y)) => x.same(y),
            (ExprPat::Bracketed(x), ExprPat::Bracketed(y)) => x.same(y),
            _ => false,
        }
    }
}

} // verus!
