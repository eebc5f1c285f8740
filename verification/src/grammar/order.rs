//! The total orders on expressions and expression patterns that normalization sorts by.
//!
//! Nodes are ordered by kind first: names (variables, or pattern names), constants, unary
//! expressions, binary expressions, parenthesized and bracketed expressions. Nodes of one kind
//! are ordered by their contents: names lexicographically, constants by value, operators by their
//! declaration order, and operands recursively.
use crate::grammar::expression_pattern::{ExprPat, RcExprPat, lemma_same_pat_equiv, same_pat};
use crate::grammar::statement::{
    Expr, RcExpr, lemma_same_expr_refl, lemma_same_expr_sym, lemma_same_expr_trans, same_expr,
};
use crate::grammar::{BinaryOperator, Rational, UnaryOperator};
use crate::text::chars_of;
use std::cmp::Ordering;
use vstd::prelude::*;

verus! {

/// The reverse of an ordering.
pub open spec fn flip(o: Ordering) -> Ordering {
    match o {
        Ordering::Less => Ordering::Greater,
        Ordering::Equal => Ordering::Equal,
        Ordering::Greater => Ordering::Less,
    }
}

/// The order of two integers.
pub open spec fn int_order(x: int, y: int) -> Ordering {
    if x < y {
        Ordering::Less
    } else if y < x {
        Ordering::Greater
    } else {
        Ordering::Equal
    }
}

/// The lexicographic order of `a` and `b` from position `i` on, by code point.
pub open spec fn str_order_from(a: Seq<char>, b: Seq<char>, i: int) -> Ordering
    decreases a.len() - i,
{
    if i >= a.len() {
        if i >= b.len() {
            Ordering::Equal
        } else {
            Ordering::Less
        }
    } else if i >= b.len() {
        Ordering::Greater
    } else if a[i] < b[i] {
        Ordering::Less
    } else if b[i] < a[i] {
        Ordering::Greater
    } else {
        str_order_from(a, b, i + 1)
    }
}

/// The lexicographic order of two strings, by code point (which is also the order of their
/// UTF-8 bytes).
pub open spec fn str_order(a: Seq<char>, b: Seq<char>) -> Ordering {
    str_order_from(a, b, 0)
}

/// The order of two rationals, by value.
pub open spec fn rat_order(a: Rational, b: Rational) -> Ordering {
    if a.spec_less(b) {
        Ordering::Less
    } else if b.spec_less(a) {
        Ordering::Greater
    } else {
        Ordering::Equal
    }
}

/// The position of a unary operator in the order `+ -`.
pub open spec fn unary_rank(op: UnaryOperator) -> int {
    match op {
        UnaryOperator::SignPositive => 0,
        UnaryOperator::SignNegative => 1,
    }
}

/// The position of a binary operator in the order `+ - * / % ^`.
pub open spec fn binary_rank(op: BinaryOperator) -> int {
    match op {
        BinaryOperator::Plus => 0,
        BinaryOperator::Minus => 1,
        BinaryOperator::Mult => 2,
        BinaryOperator::Div => 3,
        BinaryOperator::Mod => 4,
        BinaryOperator::Exp => 5,
    }
}

/// The position of a pattern's kind in the order: names, constants, unary, binary,
/// parenthesized, bracketed.
pub open spec fn pat_kind(p: ExprPat) -> int {
    match p {
        ExprPat::VarPat(_) | ExprPat::ConstPat(_) | ExprPat::AnyPat(_) => 0,
        ExprPat::Const(_) => 1,
        ExprPat::UnaryExpr(_) => 2,
        ExprPat::BinaryExpr(_) => 3,
        ExprPat::Parend(_) => 4,
        ExprPat::Bracketed(_) => 5,
    }
}

/// The name of a pattern that is a name, else the empty string.
pub open spec fn pat_name(p: ExprPat) -> Seq<char> {
    match p {
        ExprPat::VarPat(n) | ExprPat::ConstPat(n) | ExprPat::AnyPat(n) => n@,
        _ => Seq::empty(),
    }
}

/// The order of two expression patterns. Names are compared by their text, whichever kind of
/// pattern they name. Binary expressions are compared by operator, then by left operand if the
/// left operands differ, else by right operand.
pub open spec fn pat_order(a: ExprPat, b: ExprPat) -> Ordering
    decreases a,
{
    match (a, b) {
        (ExprPat::Const(x), ExprPat::Const(y)) => rat_order(x, y),
        (ExprPat::UnaryExpr(x), ExprPat::UnaryExpr(y)) => if x.op != y.op {
            int_order(unary_rank(x.op), unary_rank(y.op))
        } else {
            pat_order(*x.rhs.pat, *y.rhs.pat)
        },
        (ExprPat::BinaryExpr(x), ExprPat::BinaryExpr(y)) => if x.op != y.op {
            int_order(binary_rank(x.op), binary_rank(y.op))
        } else if !same_pat(x.lhs, y.lhs) {
            pat_order(*x.lhs.pat, *y.lhs.pat)
        } else {
            pat_order(*x.rhs.pat, *y.rhs.pat)
        },
        (ExprPat::Parend(x), ExprPat::Parend(y)) => pat_order(*x.pat, *y.pat),
        (ExprPat::Bracketed(x), ExprPat::Bracketed(y)) => pat_order(*x.pat, *y.pat),
        _ => if pat_kind(a) == 0 && pat_kind(b) == 0 {
            str_order(pat_name(a), pat_name(b))
        } else {
            int_order(pat_kind(a), pat_kind(b))
        },
    }
}

/// The position of an expression's kind in the order: variables, constants, unary, binary,
/// parenthesized, bracketed.
pub open spec fn expr_kind(e: Expr) -> int {
    match e {
        Expr::Var(_) => 0,
        Expr::Const(_) => 1,
        Expr::UnaryExpr(_) => 2,
        Expr::BinaryExpr(_) => 3,
        Expr::Parend(_) => 4,
        Expr::Bracketed(_) => 5,
    }
}

/// The order of two expressions, used to normalize them. Binary expressions are compared by
/// operator, then by left operand if the left operands differ, else by right operand.
pub open spec fn expr_order(a: Expr, b: Expr) -> Ordering
    decreases a,
{
    match (a, b) {
        (Expr::Var(x), Expr::Var(y)) => str_order(x@, y@),
        (Expr::Const(x), Expr::Const(y)) => rat_order(x, y),
        (Expr::UnaryExpr(x), Expr::UnaryExpr(y)) => if x.op != y.op {
            int_order(unary_rank(x.op), unary_rank(y.op))
        } else {
            expr_order(*x.rhs.expr, *y.rhs.expr)
        },
        (Expr::BinaryExpr(x), Expr::BinaryExpr(y)) => if x.op != y.op {
            int_order(binary_rank(x.op), binary_rank(y.op))
        } else if !same_expr(x.lhs, y.lhs) {
            expr_order(*x.lhs.expr, *y.lhs.expr)
        } else {
            expr_order(*x.rhs.expr, *y.rhs.expr)
        },
        (Expr::Parend(x), Expr::Parend(y)) => expr_order(*x.expr, *y.expr),
        (Expr::Bracketed(x), Expr::Bracketed(y)) => expr_order(*x.expr, *y.expr),
        _ => int_order(expr_kind(a), expr_kind(b)),
    }
}

/// Swapping the strings flips their order.
proof fn lemma_str_order_from_flip(a: Seq<char>, b: Seq<char>, i: int)
    ensures
        str_order_from(b, a, i) == flip(str_order_from(a, b, i)),
    decreases a.len() - i,
{
    if i < a.len() && i < b.len() && a[i] == b[i] {
        lemma_str_order_from_flip(a, b, i + 1);
    }
}

/// A string is equal to itself in the order.
proof fn lemma_str_order_from_refl(a: Seq<char>, i: int)
    ensures
        str_order_from(a, a, i) == Ordering::Equal,
    decreases a.len() - i,
{
    if i < a.len() {
        lemma_str_order_from_refl(a, i + 1);
    }
}

/// The order on strings is transitive.
proof fn lemma_str_order_from_trans(a: Seq<char>, b: Seq<char>, c: Seq<char>, i: int)
    requires
        str_order_from(a, b, i) == Ordering::Less,
        str_order_from(b, c, i) == Ordering::Less,
    ensures
        str_order_from(a, c, i) == Ordering::Less,
    decreases a.len() - i,
{
    if i < a.len() && i < b.len() && i < c.len() && a[i] == b[i] && b[i] == c[i] {
        lemma_str_order_from_trans(a, b, c, i + 1);
    }
}

/// Strings are equal in the order from `i` on only if they agree from `i` on.
proof fn lemma_str_order_from_equal(a: Seq<char>, b: Seq<char>, i: int)
    requires
        0 <= i <= a.len(),
        i <= b.len(),
        a.subrange(0, i) == b.subrange(0, i),
        str_order_from(a, b, i) == Ordering::Equal,
    ensures
        a == b,
    decreases a.len() - i,
{
    if i < a.len() {
        assert(a.subrange(0, i + 1) =~= a.subrange(0, i).push(a[i]));
        assert(b.subrange(0, i + 1) =~= b.subrange(0, i).push(b[i]));
        lemma_str_order_from_equal(a, b, i + 1);
    } else {
        assert(a =~= a.subrange(0, i));
        assert(b =~= b.subrange(0, i));
    }
}

/// Two strings are equal in the order exactly when they are equal.
pub proof fn lemma_str_order_equal(a: Seq<char>, b: Seq<char>)
    ensures
        str_order(a, b) == Ordering::Equal <==> a == b,
{
    lemma_str_order_from_refl(a, 0);
    if str_order(a, b) == Ordering::Equal {
        assert(a.subrange(0, 0) =~= b.subrange(0, 0));
        lemma_str_order_from_equal(a, b, 0);
    }
}

/// Swapping two strings flips their order.
pub proof fn lemma_str_order_flip(a: Seq<char>, b: Seq<char>)
    ensures
        str_order(b, a) == flip(str_order(a, b)),
{
    lemma_str_order_from_flip(a, b, 0);
}

/// The order on strings is transitive.
pub proof fn lemma_str_order_trans(a: Seq<char>, b: Seq<char>, c: Seq<char>)
    requires
        str_order(a, b) == Ordering::Less,
        str_order(b, c) == Ordering::Less,
    ensures
        str_order(a, c) == Ordering::Less,
{
    lemma_str_order_from_trans(a, b, c, 0);
}

/// `a` comes strictly before `b` in the lexicographic order of strings.
pub open spec fn str_lt(a: Seq<char>, b: Seq<char>) -> bool {
    str_order(a, b) == Ordering::Less
}

/// `str_lt` is a strict total order: irreflexive, asymmetric, transitive and total.
pub proof fn lemma_str_lt_strict_total(a: Seq<char>, b: Seq<char>, c: Seq<char>)
    ensures
        !str_lt(a, a),
        str_lt(a, b) ==> !str_lt(b, a),
        str_lt(a, b) && str_lt(b, c) ==> str_lt(a, c),
        a != b ==> str_lt(a, b) || str_lt(b, a),
{
    lemma_str_order_equal(a, a);
    lemma_str_order_equal(a, b);
    lemma_str_order_flip(a, b);
    if str_lt(a, b) && str_lt(b, c) {
        lemma_str_order_trans(a, b, c);
    }
}

/// The order on rationals with positive denominators is transitive.
proof fn lemma_rat_order_trans(a: Rational, b: Rational, c: Rational)
    requires
        a.den > 0,
        b.den > 0,
        c.den > 0,
        a.spec_less(b),
        b.spec_less(c),
    ensures
        a.spec_less(c),
{
    let (an, ad, bn, bd, cn, cd) = (a.num as int, a.den as int, b.num as int, b.den as int, c.num as int, c.den as int);
    assert(an * cd < cn * ad) by (nonlinear_arith)
        requires
            ad > 0,
            bd > 0,
            cd > 0,
            an * bd < bn * ad,
            bn * cd < cn * bd,
    {
        assert(an * bd * cd < bn * ad * cd);
        assert(bn * cd * ad < cn * bd * ad);
        assert(an * cd * bd < cn * ad * bd);
    }
}

/// Every constant of the pattern has a positive denominator.
pub open spec fn pat_dens_pos(p: RcExprPat) -> bool
    decreases p,
{
    match *p.pat {
        ExprPat::Const(x) => x.den > 0,
        ExprPat::BinaryExpr(b) => pat_dens_pos(b.lhs) && pat_dens_pos(b.rhs),
        ExprPat::UnaryExpr(u) => pat_dens_pos(u.rhs),
        ExprPat::Parend(x) => pat_dens_pos(x),
        ExprPat::Bracketed(x) => pat_dens_pos(x),
        _ => true,
    }
}

/// Swapping two patterns flips their order.
pub proof fn lemma_pat_order_flip(a: ExprPat, b: ExprPat)
    ensures
        pat_order(b, a) == flip(pat_order(a, b)),
    decreases a,
{
    match (a, b) {
        (ExprPat::UnaryExpr(x), ExprPat::UnaryExpr(y)) => {
            lemma_pat_order_flip(*x.rhs.pat, *y.rhs.pat);
        },
        (ExprPat::BinaryExpr(x), ExprPat::BinaryExpr(y)) => {
            lemma_same_pat_equiv(x.lhs, y.lhs, y.lhs);
            lemma_same_pat_equiv(y.lhs, x.lhs, x.lhs);
            lemma_pat_order_flip(*x.lhs.pat, *y.lhs.pat);
            lemma_pat_order_flip(*x.rhs.pat, *y.rhs.pat);
        },
        (ExprPat::Parend(x), ExprPat::Parend(y)) => {
            lemma_pat_order_flip(*x.pat, *y.pat);
        },
        (ExprPat::Bracketed(x), ExprPat::Bracketed(y)) => {
            lemma_pat_order_flip(*x.pat, *y.pat);
        },
        _ => {
            lemma_str_order_from_flip(pat_name(a), pat_name(b), 0);
        },
    }
}

/// Patterns that are the same tree are equal in the order; in particular every pattern is
/// equal to itself.
pub proof fn lemma_pat_order_same(a: RcExprPat, b: RcExprPat)
    requires
        same_pat(a, b),
    ensures
        pat_order(*a.pat, *b.pat) == Ordering::Equal,
    decreases a,
{
    match (*a.pat, *b.pat) {
        (ExprPat::UnaryExpr(x), ExprPat::UnaryExpr(y)) => {
            lemma_pat_order_same(x.rhs, y.rhs);
        },
        (ExprPat::BinaryExpr(x), ExprPat::BinaryExpr(y)) => {
            lemma_pat_order_same(x.rhs, y.rhs);
        },
        (ExprPat::Parend(x), ExprPat::Parend(y)) => {
            lemma_pat_order_same(x, y);
        },
        (ExprPat::Bracketed(x), ExprPat::Bracketed(y)) => {
            lemma_pat_order_same(x, y);
        },
        _ => {
            lemma_str_order_from_refl(pat_name(*a.pat), 0);
        },
    }
}

/// Replacing a pattern by the same tree does not change how it orders against another.
proof fn lemma_pat_order_congruent(a: RcExprPat, b: RcExprPat, c: RcExprPat)
    requires
        same_pat(b, c),
    ensures
        pat_order(*a.pat, *b.pat) == pat_order(*a.pat, *c.pat),
    decreases a,
{
    match (*a.pat, *b.pat, *c.pat) {
        (ExprPat::UnaryExpr(x), ExprPat::UnaryExpr(y), ExprPat::UnaryExpr(z)) => {
            lemma_pat_order_congruent(x.rhs, y.rhs, z.rhs);
        },
        (ExprPat::BinaryExpr(x), ExprPat::BinaryExpr(y), ExprPat::BinaryExpr(z)) => {
            lemma_same_pat_equiv(x.lhs, y.lhs, z.lhs);
            lemma_same_pat_equiv(y.lhs, z.lhs, x.lhs);
            lemma_same_pat_equiv(z.lhs, y.lhs, x.lhs);
            lemma_same_pat_equiv(x.lhs, z.lhs, y.lhs);
            lemma_pat_order_congruent(x.lhs, y.lhs, z.lhs);
            lemma_pat_order_congruent(x.rhs, y.rhs, z.rhs);
        },
        (ExprPat::Parend(x), ExprPat::Parend(y), ExprPat::Parend(z)) => {
            lemma_pat_order_congruent(x, y, z);
        },
        (ExprPat::Bracketed(x), ExprPat::Bracketed(y), ExprPat::Bracketed(z)) => {
            lemma_pat_order_congruent(x, y, z);
        },
        _ => {},
    }
}

/// The order on patterns is transitive.
pub proof fn lemma_pat_order_trans(a: RcExprPat, b: RcExprPat, c: RcExprPat)
    requires
        pat_dens_pos(a),
        pat_dens_pos(b),
        pat_dens_pos(c),
        pat_order(*a.pat, *b.pat) == Ordering::Less,
        pat_order(*b.pat, *c.pat) == Ordering::Less,
    ensures
        pat_order(*a.pat, *c.pat) == Ordering::Less,
    decreases a,
{
    match (*a.pat, *b.pat, *c.pat) {
        (ExprPat::UnaryExpr(x), ExprPat::UnaryExpr(y), ExprPat::UnaryExpr(z)) => {
            if x.op == y.op && y.op == z.op {
                lemma_pat_order_trans(x.rhs, y.rhs, z.rhs);
            }
        },
        (ExprPat::BinaryExpr(x), ExprPat::BinaryExpr(y), ExprPat::BinaryExpr(z)) => {
            if x.op == y.op && y.op == z.op {
                lemma_same_pat_equiv(x.lhs, y.lhs, z.lhs);
                lemma_same_pat_equiv(y.lhs, z.lhs, x.lhs);
                lemma_same_pat_equiv(z.lhs, x.lhs, y.lhs);
                lemma_same_pat_equiv(x.lhs, z.lhs, y.lhs);
                lemma_same_pat_equiv(y.lhs, x.lhs, z.lhs);
                lemma_same_pat_equiv(z.lhs, y.lhs, x.lhs);
                if !same_pat(x.lhs, y.lhs) && !same_pat(y.lhs, z.lhs) {
                    if same_pat(x.lhs, z.lhs) {
                        lemma_pat_order_congruent(y.lhs, z.lhs, x.lhs);
                        lemma_pat_order_flip(*x.lhs.pat, *y.lhs.pat);
                    } else {
                        lemma_pat_order_trans(x.lhs, y.lhs, z.lhs);
                    }
                } else if !same_pat(x.lhs, y.lhs) {
                    lemma_pat_order_congruent(x.lhs, y.lhs, z.lhs);
                } else if !same_pat(y.lhs, z.lhs) {
                    lemma_pat_order_flip(*y.lhs.pat, *z.lhs.pat);
                    lemma_pat_order_flip(*x.lhs.pat, *z.lhs.pat);
                    lemma_pat_order_congruent(z.lhs, y.lhs, x.lhs);
                } else {
                    lemma_pat_order_trans(x.rhs, y.rhs, z.rhs);
                }
            }
        },
        (ExprPat::Const(x), ExprPat::Const(y), ExprPat::Const(z)) => {
            lemma_rat_order_trans(x, y, z);
        },
        (ExprPat::Parend(x), ExprPat::Parend(y), ExprPat::Parend(z)) => {
            lemma_pat_order_trans(x, y, z);
        },
        (ExprPat::Bracketed(x), ExprPat::Bracketed(y), ExprPat::Bracketed(z)) => {
            lemma_pat_order_trans(x, y, z);
        },
        _ => {
            if pat_kind(*a.pat) == 0 && pat_kind(*b.pat) == 0 && pat_kind(*c.pat) == 0 {
                lemma_str_order_from_trans(pat_name(*a.pat), pat_name(*b.pat), pat_name(*c.pat), 0);
            }
        },
    }
}

/// `same_expr` is reflexive, symmetric and transitive.
proof fn lemma_same_expr_equiv(a: RcExpr, b: RcExpr, c: RcExpr)
    ensures
        same_expr(a, a),
        same_expr(a, b) ==> same_expr(b, a),
        same_expr(a, b) && same_expr(b, c) ==> same_expr(a, c),
{
    lemma_same_expr_refl(a);
    lemma_same_expr_sym(a, b);
    lemma_same_expr_trans(a, b, c);
}

/// Every constant of the expression has a positive denominator.
pub open spec fn expr_dens_pos(p: RcExpr) -> bool
    decreases p,
{
    match *p.expr {
        Expr::Const(x) => x.den > 0,
        Expr::BinaryExpr(b) => expr_dens_pos(b.lhs) && expr_dens_pos(b.rhs),
        Expr::UnaryExpr(u) => expr_dens_pos(u.rhs),
        Expr::Parend(x) => expr_dens_pos(x),
        Expr::Bracketed(x) => expr_dens_pos(x),
        _ => true,
    }
}

/// Swapping two expressions flips their order.
pub proof fn lemma_expr_order_flip(a: Expr, b: Expr)
    ensures
        expr_order(b, a) == flip(expr_order(a, b)),
    decreases a,
{
    match (a, b) {
        (Expr::UnaryExpr(x), Expr::UnaryExpr(y)) => {
            lemma_expr_order_flip(*x.rhs.expr, *y.rhs.expr);
        },
        (Expr::BinaryExpr(x), Expr::BinaryExpr(y)) => {
            lemma_same_expr_equiv(x.lhs, y.lhs, y.lhs);
            lemma_same_expr_equiv(y.lhs, x.lhs, x.lhs);
            lemma_expr_order_flip(*x.lhs.expr, *y.lhs.expr);
            lemma_expr_order_flip(*x.rhs.expr, *y.rhs.expr);
        },
        (Expr::Parend(x), Expr::Parend(y)) => {
            lemma_expr_order_flip(*x.expr, *y.expr);
        },
        (Expr::Bracketed(x), Expr::Bracketed(y)) => {
            lemma_expr_order_flip(*x.expr, *y.expr);
        },
        (Expr::Var(x), Expr::Var(y)) => {
            lemma_str_order_from_flip(x@, y@, 0);
        },
        _ => {},
    }
}

/// Expressions that are the same tree are equal in the order; in particular every expression is
/// equal to itself.
pub proof fn lemma_expr_order_same(a: RcExpr, b: RcExpr)
    requires
        same_expr(a, b),
    ensures
        expr_order(*a.expr, *b.expr) == Ordering::Equal,
    decreases a,
{
    match (*a.expr, *b.expr) {
        (Expr::UnaryExpr(x), Expr::UnaryExpr(y)) => {
            lemma_expr_order_same(x.rhs, y.rhs);
        },
        (Expr::BinaryExpr(x), Expr::BinaryExpr(y)) => {
            lemma_expr_order_same(x.rhs, y.rhs);
        },
        (Expr::Parend(x), Expr::Parend(y)) => {
            lemma_expr_order_same(x, y);
        },
        (Expr::Bracketed(x), Expr::Bracketed(y)) => {
            lemma_expr_order_same(x, y);
        },
        (Expr::Var(x), Expr::Var(y)) => {
            lemma_str_order_from_refl(x@, 0);
        },
        _ => {},
    }
}

/// Replacing an expression by the same tree does not change how it orders against another.
proof fn lemma_expr_order_congruent(a: RcExpr, b: RcExpr, c: RcExpr)
    requires
        same_expr(b, c),
    ensures
        expr_order(*a.expr, *b.expr) == expr_order(*a.expr, *c.expr),
    decreases a,
{
    match (*a.expr, *b.expr, *c.expr) {
        (Expr::UnaryExpr(x), Expr::UnaryExpr(y), Expr::UnaryExpr(z)) => {
            lemma_expr_order_congruent(x.rhs, y.rhs, z.rhs);
        },
        (Expr::BinaryExpr(x), Expr::BinaryExpr(y), Expr::BinaryExpr(z)) => {
            lemma_same_expr_equiv(x.lhs, y.lhs, z.lhs);
            lemma_same_expr_equiv(y.lhs, z.lhs, x.lhs);
            lemma_same_expr_equiv(z.lhs, y.lhs, x.lhs);
            lemma_same_expr_equiv(x.lhs, z.lhs, y.lhs);
            lemma_expr_order_congruent(x.lhs, y.lhs, z.lhs);
            lemma_expr_order_congruent(x.rhs, y.rhs, z.rhs);
        },
        (Expr::Parend(x), Expr::Parend(y), Expr::Parend(z)) => {
            lemma_expr_order_congruent(x, y, z);
        },
        (Expr::Bracketed(x), Expr::Bracketed(y), Expr::Bracketed(z)) => {
            lemma_expr_order_congruent(x, y, z);
        },
        _ => {},
    }
}

/// The order on expressions is transitive.
pub proof fn lemma_expr_order_trans(a: RcExpr, b: RcExpr, c: RcExpr)
    requires
        expr_dens_pos(a),
        expr_dens_pos(b),
        expr_dens_pos(c),
        expr_order(*a.expr, *b.expr) == Ordering::Less,
        expr_order(*b.expr, *c.expr) == Ordering::Less,
    ensures
        expr_order(*a.expr, *c.expr) == Ordering::Less,
    decreases a,
{
    match (*a.expr, *b.expr, *c.expr) {
        (Expr::UnaryExpr(x), Expr::UnaryExpr(y), Expr::UnaryExpr(z)) => {
            if x.op == y.op && y.op == z.op {
                lemma_expr_order_trans(x.rhs, y.rhs, z.rhs);
            }
        },
        (Expr::BinaryExpr(x), Expr::BinaryExpr(y), Expr::BinaryExpr(z)) => {
            if x.op == y.op && y.op == z.op {
                lemma_same_expr_equiv(x.lhs, y.lhs, z.lhs);
                lemma_same_expr_equiv(y.lhs, z.lhs, x.lhs);
                lemma_same_expr_equiv(z.lhs, x.lhs, y.lhs);
                lemma_same_expr_equiv(x.lhs, z.lhs, y.lhs);
                lemma_same_expr_equiv(y.lhs, x.lhs, z.lhs);
                lemma_same_expr_equiv(z.lhs, y.lhs, x.lhs);
                if !same_expr(x.lhs, y.lhs) && !same_expr(y.lhs, z.lhs) {
                    if same_expr(x.lhs, z.lhs) {
                        lemma_expr_order_congruent(y.lhs, z.lhs, x.lhs);
                        lemma_expr_order_flip(*x.lhs.expr, *y.lhs.expr);
                    } else {
                        lemma_expr_order_trans(x.lhs, y.lhs, z.lhs);
                    }
                } else if !same_expr(x.lhs, y.lhs) {
                    lemma_expr_order_congruent(x.lhs, y.lhs, z.lhs);
                } else if !same_expr(y.lhs, z.lhs) {
                    lemma_expr_order_flip(*y.lhs.expr, *z.lhs.expr);
                    lemma_expr_order_flip(*x.lhs.expr, *z.lhs.expr);
                    lemma_expr_order_congruent(z.lhs, y.lhs, x.lhs);
                } else {
                    lemma_expr_order_trans(x.rhs, y.rhs, z.rhs);
                }
            }
        },
        (Expr::Const(x), Expr::Const(y), Expr::Const(z)) => {
            lemma_rat_order_trans(x, y, z);
        },
        (Expr::Parend(x), Expr::Parend(y), Expr::Parend(z)) => {
            lemma_expr_order_trans(x, y, z);
        },
        (Expr::Bracketed(x), Expr::Bracketed(y), Expr::Bracketed(z)) => {
            lemma_expr_order_trans(x, y, z);
        },
        (Expr::Var(x), Expr::Var(y), Expr::Var(z)) => {
            lemma_str_order_from_trans(x@, y@, z@, 0);
        },
        _ => {},
    }
}

/// Compares two strings lexicographically, by code point.
pub fn compare_str(a: &String, b: &String) -> (r: Ordering)
    ensures
        r == str_order(a@, b@),
{
    let x = chars_of(a);
    let y = chars_of(b);
    let mut i: usize = 0;
    let ghost mut k: int = 0;
    while i < x.len() && i < y.len()
        invariant
            k == i,
            i <= x.len(),
            i <= y.len(),
            x@ == a@,
            y@ == b@,
            str_order_from(a@, b@, 0) == str_order_from(a@, b@, k),
        decreases x.len() - i,
    {
        if x[i] < y[i] {
            return Ordering::Less;
        } else if y[i] < x[i] {
            return Ordering::Greater;
        }
        i = i + 1;
        proof {
            k = k + 1;
        }
    }
    if i < x.len() {
        Ordering::Greater
    } else if i < y.len() {
        Ordering::Less
    } else {
        Ordering::Equal
    }
}

/// Whether `a` comes strictly before `b` in the lexicographic order of strings.
pub fn str_less(a: &String, b: &String) -> (r: bool)
    ensures
        r == str_lt(a@, b@),
{
    match compare_str(a, b) {
        Ordering::Less => true,
        _ => false,
    }
}

/// Compares two rationals by value.
pub fn compare_rational(a: &Rational, b: &Rational) -> (r: Ordering)
    ensures
        r == rat_order(*a, *b),
{
    if a.less_than(b) {
        Ordering::Less
    } else if b.less_than(a) {
        Ordering::Greater
    } else {
        Ordering::Equal
    }
}

/// Compares two binary operators in the order `+ - * / % ^`.
fn compare_binary_op(a: BinaryOperator, b: BinaryOperator) -> (r: Ordering)
    ensures
        r == int_order(binary_rank(a), binary_rank(b)),
{
    let x = a.position();
    let y = b.position();
    if x < y {
        Ordering::Less
    } else if y < x {
        Ordering::Greater
    } else {
        Ordering::Equal
    }
}

/// Compares two unary operators in the order `+ -`.
fn compare_unary_op(a: UnaryOperator, b: UnaryOperator) -> (r: Ordering)
    ensures
        r == int_order(unary_rank(a), unary_rank(b)),
{
    match (a, b) {
        (UnaryOperator::SignPositive, UnaryOperator::SignNegative) => Ordering::Less,
        (UnaryOperator::SignNegative, UnaryOperator::SignPositive) => Ordering::Greater,
        _ => Ordering::Equal,
    }
}

/// The position of a pattern's kind.
fn pat_kind_of(p: &ExprPat) -> (r: u8)
    ensures
        r == pat_kind(*p),
{
    match p {
        ExprPat::VarPat(_) | ExprPat::ConstPat(_) | ExprPat::AnyPat(_) => 0,
        ExprPat::Const(_) => 1,
        ExprPat::UnaryExpr(_) => 2,
        ExprPat::BinaryExpr(_) => 3,
        ExprPat::Parend(_) => 4,
        ExprPat::Bracketed(_) => 5,
    }
}

impl ExprPat {
    /// Compares two patterns in the order described by [`pat_order`].
    pub fn cmp(&self, other: &ExprPat) -> (r: Ordering)
        ensures
            r == pat_order(*self, *other),
        decreases self,
    {
        match (self, other) {
            (ExprPat::Const(x), ExprPat::Const(y)) => compare_rational(x, y),
            (ExprPat::UnaryExpr(x), ExprPat::UnaryExpr(y)) => {
                if x.op != y.op {
                    compare_unary_op(x.op, y.op)
                } else {
                    x.rhs.pat.cmp(&y.rhs.pat)
                }
            },
            (ExprPat::BinaryExpr(x), ExprPat::BinaryExpr(y)) => {
                if x.op != y.op {
                    compare_binary_op(x.op, y.op)
                } else if !x.lhs.same(&y.lhs) {
                    x.lhs.pat.cmp(&y.lhs.pat)
                } else {
                    x.rhs.pat.cmp(&y.rhs.pat)
                }
            },
            (ExprPat::Parend(x), ExprPat::Parend(y)) => x.pat.cmp(&y.pat),
            (ExprPat::Bracketed(x), ExprPat::Bracketed(y)) => x.pat.cmp(&y.pat),
            (ExprPat::VarPat(x), ExprPat::VarPat(y)) | (ExprPat::VarPat(x), ExprPat::ConstPat(y))
            | (ExprPat::VarPat(x), ExprPat::AnyPat(y)) | (ExprPat::ConstPat(x), ExprPat::VarPat(y))
            | (ExprPat::ConstPat(x), ExprPat::ConstPat(y)) | (
                ExprPat::ConstPat(x),
                ExprPat::AnyPat(y),
            ) | (ExprPat::AnyPat(x), ExprPat::VarPat(y)) | (ExprPat::AnyPat(x), ExprPat::ConstPat(y))
            | (ExprPat::AnyPat(x), ExprPat::AnyPat(y)) => compare_str(x, y),
            _ => {
                let kx = pat_kind_of(self);
                let ky = pat_kind_of(other);
                if kx < ky {
                    Ordering::Less
                } else {
                    Ordering::Greater
                }
            },
        }
    }
}

/// The position of an expression's kind.
fn expr_kind_of(e: &Expr) -> (r: u8)
    ensures
        r == expr_kind(*e),
{
    match e {
        Expr::Var(_) => 0,
        Expr::Const(_) => 1,
        Expr::UnaryExpr(_) => 2,
        Expr::BinaryExpr(_) => 3,
        Expr::Parend(_) => 4,
        Expr::Bracketed(_) => 5,
    }
}

impl Expr {
    /// Compares two expressions in the order described by [`expr_order`].
    pub fn cmp(&self, other: &Expr) -> (r: Ordering)
        ensures
            r == expr_order(*self, *other),
        decreases self,
    {
        match (self, other) {
            (Expr::Var(x), Expr::Var(y)) => compare_str(x, y),
            (Expr::Const(x), Expr::Const(y)) => compare_rational(x, y),
            (Expr::UnaryExpr(x), Expr::UnaryExpr(y)) => {
                if x.op != y.op {
                    compare_unary_op(x.op, y.op)
                } else {
                    x.rhs.expr.cmp(&y.rhs.expr)
                }
            },
            (Expr::BinaryExpr(x), Expr::BinaryExpr(y)) => {
                if x.op != y.op {
                    compare_binary_op(x.op, y.op)
                } else if !x.lhs.same(&y.lhs) {
                    x.lhs.expr.cmp(&y.lhs.expr)
                } else {
                    x.rhs.expr.cmp(&y.rhs.expr)
                }
            },
            (Expr::Parend(x), Expr::Parend(y)) => x.expr.cmp(&y.expr),
            (Expr::Bracketed(x), Expr::Bracketed(y)) => x.expr.cmp(&y.expr),
            _ => {
                let kx = expr_kind_of(self);
                let ky = expr_kind_of(other);
                if kx < ky {
                    Ordering::Less
                } else {
                    Ordering::Greater
                }
            },
        }
    }
}

} // verus!
