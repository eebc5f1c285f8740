//! Function rules: rewrites that evaluate operations on constants.
//!
//! Each rule takes an expression and gives the evaluated expression, at the same span, or `None`
//! when the rule does not apply to it. Constants are exact rationals in lowest terms; a rule
//! whose result does not fit the representation does not apply.
use crate::grammar::statement::{Expr, RcExpr, lemma_same_expr_refl, same_expr};
use crate::math::gcd::{gcd, spec_gcd};
use crate::text::text;
use crate::grammar::{BinaryOperator, Rational, UnaryExpr, UnaryOperator};
use crate::math::rational::{int_rem, rat_add, rat_div, rat_mul, rat_sub, trunc_rem};
use crate::common::Span;
use crate::grammar::BinaryExpr;
use vstd::prelude::*;

verus! {

/// The two constant operands of `e`, if it is a binary expression with operator `op` on two
/// constants.
pub open spec fn const_operands(e: RcExpr, op: BinaryOperator) -> Option<(Rational, Rational)> {
    match *e.expr {
        Expr::BinaryExpr(b) => if b.op == op {
            match (*b.lhs.expr, *b.rhs.expr) {
                (Expr::Const(l), Expr::Const(r)) => Some((l, r)),
                _ => None,
            }
        } else {
            None
        },
        _ => None,
    }
}

/// The constant operands of `e` under `op`, if any, are well formed.
pub open spec fn operands_wf(e: RcExpr, op: BinaryOperator) -> bool {
    const_operands(e, op) matches Some(p) ==> p.0.wf() && p.1.wf()
}

/// `r` is the constant `c` at span of `e`, when `c` is some.
pub open spec fn gives_const(r: Option<RcExpr>, c: Option<Rational>, e: RcExpr) -> bool {
    &&& (r is Some) == (c is Some)
    &&& r matches Some(x) ==> x.span == e.span && *x.expr == Expr::Const(c->0)
}

/// `a` raised to the power `e`, multiplying one factor at a time, when every partial power
/// fits.
pub open spec fn rat_pow(a: Rational, e: nat) -> Option<Rational>
    decreases e,
{
    if e == 0 {
        Some(Rational { num: 1, den: 1 })
    } else {
        match rat_pow(a, (e - 1) as nat) {
            Some(p) => rat_mul(p, a),
            None => None,
        }
    }
}

/// Extracts the two constant operands of `expr` under `op`.
fn get_binary_args(expr: &RcExpr, op: BinaryOperator) -> (r: Option<(Rational, Rational)>)
    ensures
        r == const_operands(*expr, op),
{
    match &*expr.expr {
        Expr::BinaryExpr(b) => {
            if b.op == op {
                match (&*b.lhs.expr, &*b.rhs.expr) {
                    (Expr::Const(l), Expr::Const(r)) => Some((*l, *r)),
                    _ => None,
                }
            } else {
                None
            }
        },
        _ => None,
    }
}

/// Evaluates the subtraction of two constants.
pub fn subtract(expr: &RcExpr) -> (r: Option<RcExpr>)
    requires
        operands_wf(*expr, BinaryOperator::Minus),
    ensures
        gives_const(
            r,
            match const_operands(*expr, BinaryOperator::Minus) {
                Some(p) => rat_sub(p.0, p.1),
                None => None,
            },
            *expr,
        ),
{
    let (l, r) = get_binary_args(expr, BinaryOperator::Minus)?;
    let c = l.checked_sub(&r)?;
    Some(RcExpr::new(Expr::Const(c), expr.span))
}

/// Evaluates the division of two constants, the divisor nonzero.
pub fn divide(expr: &RcExpr) -> (r: Option<RcExpr>)
    requires
        operands_wf(*expr, BinaryOperator::Div),
        const_operands(*expr, BinaryOperator::Div) matches Some(p) ==> p.1.num != 0,
    ensures
        gives_const(
            r,
            match const_operands(*expr, BinaryOperator::Div) {
                Some(p) => rat_div(p.0, p.1),
                None => None,
            },
            *expr,
        ),
{
    let (l, r) = get_binary_args(expr, BinaryOperator::Div)?;
    let c = l.checked_div(&r)?;
    Some(RcExpr::new(Expr::Const(c), expr.span))
}

/// Evaluates the remainder of two integer constants, truncated toward zero.
pub fn modulo(expr: &RcExpr) -> (r: Option<RcExpr>)
    requires
        operands_wf(*expr, BinaryOperator::Mod),
        const_operands(*expr, BinaryOperator::Mod) matches Some(p) ==> (p.0.den == 1 && p.1.den
            == 1 ==> p.1.num != 0),
    ensures
        gives_const(
            r,
            match const_operands(*expr, BinaryOperator::Mod) {
                Some(p) => if p.0.den == 1 && p.1.den == 1 {
                    Some(Rational { num: trunc_rem(p.0.num as int, p.1.num as int) as i64, den: 1 })
                } else {
                    None
                },
                None => None,
            },
            *expr,
        ),
        r matches Some(x) ==> (*x.expr matches Expr::Const(c) && c.wf()),
{
    let (l, r) = get_binary_args(expr, BinaryOperator::Mod)?;
    if l.den == 1 && r.den == 1 {
        let m = int_rem(l.num, r.num);
        let c = Rational::from_int(m);
        Some(RcExpr::new(Expr::Const(c), expr.span))
    } else {
        None
    }
}

/// Evaluates the power of a constant to a constant exponent that is a nonnegative integer
/// fitting 32 bits.
pub fn exponentiate(expr: &RcExpr) -> (r: Option<RcExpr>)
    requires
        operands_wf(*expr, BinaryOperator::Exp),
    ensures
        gives_const(
            r,
            match const_operands(*expr, BinaryOperator::Exp) {
                Some(p) => if p.1.den == 1 && 0 <= p.1.num <= u32::MAX {
                    rat_pow(p.0, p.1.num as nat)
                } else {
                    None
                },
                None => None,
            },
            *expr,
        ),
{
    let (l, r) = get_binary_args(expr, BinaryOperator::Exp)?;
    if !(r.den == 1 && 0 <= r.num && r.num <= 0xffff_ffff) {
        return None;
    }
    let e = r.num as u64;
    assert(e as nat == r.num as nat);
    let mut acc = Rational { num: 1, den: 1 };
    proof {
        crate::math::gcd::lemma_gcd_one(1);
    }
    let mut i: u64 = 0;
    while i < e
        invariant
            i <= e,
            l.wf(),
            acc.wf(),
            rat_pow(l, i as nat) == Some(acc),
            const_operands(*expr, BinaryOperator::Exp) == Some((l, r)),
            e as nat == r.num as nat,
            r.den == 1,
            0 <= r.num <= u32::MAX,
        decreases e - i,
    {
        match acc.checked_mul(&l) {
            Some(p) => {
                acc = p;
            },
            None => {
                proof {
                    assert(rat_pow(l, (i + 1) as nat) is None);
                    lemma_pow_stays_none(l, (i + 1) as nat, e as nat);
                    assert(const_operands(*expr, BinaryOperator::Exp) == Some((l, r)));
                }
                return None;
            },
        }
        i = i + 1;
    }
    Some(RcExpr::new(Expr::Const(acc), expr.span))
}

/// Once a partial power does not fit, no later one does.
proof fn lemma_pow_stays_none(a: Rational, i: nat, e: nat)
    requires
        rat_pow(a, i) is None,
        i <= e,
    ensures
        rat_pow(a, e) is None,
    decreases e - i,
{
    if i < e {
        assert(rat_pow(a, (i + 1) as nat) is None);
        lemma_pow_stays_none(a, (i + 1) as nat, e);
    }
}

/// The constant under a unary minus at the top of `e`, if any.
pub open spec fn negated_const(e: RcExpr) -> Option<Rational> {
    match *e.expr {
        Expr::UnaryExpr(u) => if u.op == UnaryOperator::SignNegative {
            match *u.rhs.expr {
                Expr::Const(c) => Some(c),
                _ => None,
            }
        } else {
            None
        },
        _ => None,
    }
}

/// Evaluates the negation of a constant.
pub fn negate(expr: &RcExpr) -> (r: Option<RcExpr>)
    requires
        negated_const(*expr) matches Some(c) ==> c.wf(),
    ensures
        gives_const(
            r,
            match negated_const(*expr) {
                Some(c) => Some(Rational { num: (-c.num) as i64, den: c.den }),
                None => None,
            },
            *expr,
        ),
{
    match &*expr.expr {
        Expr::UnaryExpr(u) => {
            if u.op == UnaryOperator::SignNegative {
                match &*u.rhs.expr {
                    Expr::Const(c) => Some(RcExpr::new(Expr::Const(c.neg()), expr.span)),
                    _ => None,
                }
            } else {
                None
            }
        },
        _ => None,
    }
}

/// Unwraps a unary plus: `+e` is `e`.
pub fn posate(expr: &RcExpr) -> (r: Option<RcExpr>)
    ensures
        (r is Some) == (*expr.expr is UnaryExpr && (*expr.expr)->UnaryExpr_0.op
            == UnaryOperator::SignPositive),
        r matches Some(x) ==> same_expr(x, (*expr.expr)->UnaryExpr_0.rhs) && x.span == (
        *expr.expr)->UnaryExpr_0.rhs.span,
{
    match &*expr.expr {
        Expr::UnaryExpr(u) => {
            if u.op == UnaryOperator::SignPositive {
                Some(u.rhs.copy())
            } else {
                None
            }
        },
        _ => None,
    }
}

/// The operands of the chain of `op` at `e`, left to right: an `op` node is replaced by the
/// operands of its two sides; anything else (parentheses included) is an operand.
pub open spec fn chain_args(e: RcExpr, op: BinaryOperator) -> Seq<RcExpr>
    decreases e,
{
    match *e.expr {
        Expr::BinaryExpr(b) => if b.op == op {
            chain_args(b.lhs, op) + chain_args(b.rhs, op)
        } else {
            seq![e]
        },
        _ => seq![e],
    }
}

/// Collects the constants of `args` into `acc` (by product when `mul`, by sum otherwise),
/// taking `n` steps from position `i`: a constant at `i` is combined and replaced by the last
/// operand, any other operand is stepped over. `None` when a constant is not in lowest terms or
/// a combination does not fit.
pub open spec fn fold_consts(
    args: Seq<RcExpr>,
    i: int,
    acc: Option<Rational>,
    n: nat,
    mul: bool,
) -> (Seq<RcExpr>, Option<Rational>)
    decreases n,
{
    if n == 0 || acc is None || !(0 <= i < args.len()) {
        (args, acc)
    } else {
        match *args[i].expr {
            Expr::Const(c) => {
                let acc2 = if !c.wf() {
                    None
                } else if mul {
                    rat_mul(acc->0, c)
                } else {
                    rat_add(acc->0, c)
                };
                fold_consts(args.update(i, args.last()).drop_last(), i, acc2, (n - 1) as nat, mul)
            },
            _ => fold_consts(args, i + 1, acc, (n - 1) as nat, mul),
        }
    }
}

/// The operands `args` joined by `op` from the left; each new node spans from its first
/// operand to its last.
pub open spec fn unflatten_left(args: Seq<RcExpr>, op: BinaryOperator) -> RcExpr
    decreases args.len(),
{
    if args.len() <= 1 {
        args[0]
    } else {
        let l = unflatten_left(args.drop_last(), op);
        RcExpr {
            expr: Box::new(Expr::BinaryExpr(BinaryExpr { op, lhs: l, rhs: args.last() })),
            span: Span { lo: l.span.lo, hi: args.last().span.hi },
        }
    }
}

/// What folding the constants of the chain of `op` at `e` gives: the other operands, in the
/// order the folding leaves them, then the folded constant at the span of `e`, joined from the
/// left; `None` when `e` is not an `op` node or the folding fails.
pub open spec fn fold_chain(e: RcExpr, op: BinaryOperator, mul: bool) -> Option<RcExpr> {
    if *e.expr matches Expr::BinaryExpr(b) && b.op == op {
        let args = chain_args(e, op);
        let unit = if mul {
            Rational { num: 1, den: 1 }
        } else {
            Rational { num: 0, den: 1 }
        };
        let (rest, acc) = fold_consts(args, 0, Some(unit), args.len(), mul);
        match acc {
            Some(k) => Some(
                unflatten_left(
                    rest.push(RcExpr { expr: Box::new(Expr::Const(k)), span: e.span }),
                    op,
                ),
            ),
            None => None,
        }
    } else {
        None
    }
}

/// Appends the operands of the chain of `op` at `e` to `out`.
fn push_chain_args<'a>(e: &'a RcExpr, op: BinaryOperator, out: &mut Vec<&'a RcExpr>)
    ensures
        final(out)@.len() == old(out)@.len() + chain_args(*e, op).len(),
        forall|j: int| 0 <= j < old(out)@.len() ==> final(out)@[j] == old(out)@[j],
        forall|j: int|
            0 <= j < chain_args(*e, op).len() ==> *final(out)@[old(out)@.len() + j] == chain_args(
                *e,
                op,
            )[j],
    decreases e,
{
    match &*e.expr {
        Expr::BinaryExpr(b) => {
            if b.op == op {
                let ghost o0 = out@;
                push_chain_args(&b.lhs, op, out);
                let ghost o1 = out@;
                push_chain_args(&b.rhs, op, out);
                proof {
                    let la = chain_args(b.lhs, op);
                    let ra = chain_args(b.rhs, op);
                    assert(chain_args(*e, op) == la + ra);
                    assert forall|j: int| 0 <= j < la.len() + ra.len() implies *out@[o0.len() + j]
                        == (la + ra)[j] by {
                        if j < la.len() {
                            assert(out@[o0.len() + j] == o1[o0.len() + j]);
                        } else {
                            assert(out@[o1.len() + (j - la.len())] == out@[o0.len() + j]);
                        }
                    }
                }
            } else {
                out.push(e);
            }
        },
        _ => {
            out.push(e);
        },
    }
}

/// Folds the constants of the chain of `op` at `expr` into one, placed last, at the span of
/// `expr` (a sum for addition, a product for multiplication).
fn fold_chain_exec(expr: &RcExpr, op: BinaryOperator, mul: bool) -> (r: Option<RcExpr>)
    ensures
        (r is Some) == (fold_chain(*expr, op, mul) is Some),
        r matches Some(x) ==> same_expr(x, fold_chain(*expr, op, mul)->0),
{
    let is_op = match &*expr.expr {
        Expr::BinaryExpr(b) => b.op == op,
        _ => false,
    };
    if !is_op {
        return None;
    }
    let mut args: Vec<&RcExpr> = Vec::new();
    push_chain_args(expr, op, &mut args);
    let ghost chain = chain_args(*expr, op);
    let mut konst = if mul {
        Rational { num: 1, den: 1 }
    } else {
        Rational { num: 0, den: 1 }
    };
    proof {
        crate::math::gcd::lemma_gcd_one(1);
        crate::math::gcd::lemma_gcd_one(0);
        assert(spec_gcd(0, 1) == 1);
    }
    let n = args.len();
    let ghost unit = konst;
    let ghost total = fold_consts(chain, 0, Some(unit), n as nat, mul);
    let mut i: usize = 0;
    let mut step: usize = 0;
    assert(args@.map_values(|a: &RcExpr| *a) =~= chain);
    assert(fold_chain(*expr, op, mul) is Some <==> total.1 is Some);
    while step < n
        invariant
            step <= n,
            n == chain.len(),
            i <= args@.len(),
            konst.wf(),
            args@.len() + step == n + i,
            fold_consts(args@.map_values(|a: &RcExpr| *a), i as int, Some(konst), (n - step) as nat, mul) == total,
            total == fold_consts(chain, 0, Some(unit), n as nat, mul),
            fold_chain(*expr, op, mul) is Some <==> total.1 is Some,
        decreases n - step,
    {
        let ghost cur = args@.map_values(|a: &RcExpr| *a);
        match &*args[i].expr {
            Expr::Const(c) => {
                let ghost rest1 = cur.update(i as int, cur.last()).drop_last();
                if !rat_is_wf(c) {
                    proof {
                        assert(fold_consts(rest1, i as int, None, (n - step - 1) as nat, mul).1 is None);
                        assert(fold_consts(cur, i as int, Some(konst), (n - step) as nat, mul) == fold_consts(rest1, i as int, None, (n - step - 1) as nat, mul));
                        assert(total.1 is None);
                    }
                    return None;
                }
                let next = if mul {
                    konst.checked_mul(c)
                } else {
                    konst.checked_add(c)
                };
                match next {
                    Some(k) => {
                        konst = k;
                    },
                    None => {
                        proof {
                            assert(fold_consts(rest1, i as int, None, (n - step - 1) as nat, mul).1 is None);
                            assert(fold_consts(cur, i as int, Some(konst), (n - step) as nat, mul) == fold_consts(rest1, i as int, None, (n - step - 1) as nat, mul));
                            assert(total.1 is None);
                        }
                        return None;
                    },
                }
                args.swap_remove(i);
                proof {
                    assert(args@.map_values(|a: &RcExpr| *a) =~= cur.update(i as int, cur.last()).drop_last());
                }
            },
            _ => {
                assert(i < args.len());
                i = i + 1;
            },
        }
        step = step + 1;
    }
    let ghost rest = args@.map_values(|a: &RcExpr| *a);
    let kexpr = RcExpr::new(Expr::Const(konst), expr.span);
    let ghost all = rest.push(kexpr);
    assert(fold_chain(*expr, op, mul) == Some(unflatten_left(all, op)));
    args.push(&kexpr);
    assert(args@.map_values(|a: &RcExpr| *a) =~= all);
    // join from the left
    let mut acc = args[0].copy();
    let total_len = args.len();
    let mut k: usize = 1;
    proof {
        assert(all.take(1) =~= seq![all[0]]);
    }
    while k < total_len
        invariant
            1 <= k <= total_len,
            total_len == all.len(),
            total_len == args@.len(),
            all == args@.map_values(|a: &RcExpr| *a),
            same_expr(acc, unflatten_left(all.take(k as int), op)),
            acc.span == unflatten_left(all.take(k as int), op).span,
        decreases total_len - k,
    {
        let item = args[k].copy();
        let span = acc.span.to(item.span);
        let ghost prev = all.take(k as int);
        acc = RcExpr::new(Expr::BinaryExpr(BinaryExpr { op, lhs: acc, rhs: item }), span);
        proof {
            let t = all.take(k + 1);
            assert(t.drop_last() =~= prev);
            assert(t.last() == all[k as int]);
        }
        k = k + 1;
    }
    assert(all.take(total_len as int) =~= all);
    Some(acc)
}

/// The constant `c`, if any, as an expression at the span of `e`.
pub open spec fn const_at(c: Option<Rational>, e: RcExpr) -> Option<RcExpr> {
    match c {
        Some(c) => Some(RcExpr { expr: Box::new(Expr::Const(c)), span: e.span }),
        None => None,
    }
}

/// The second constant operand of `e` under `op` is zero.
pub open spec fn zero_divisor(e: RcExpr, op: BinaryOperator) -> bool {
    match const_operands(e, op) {
        Some(p) => p.1.num == 0,
        None => false,
    }
}

/// Whether a rational is in lowest terms with a positive denominator.
fn rat_is_wf(c: &Rational) -> (r: bool)
    ensures
        r == c.wf(),
{
    if c.den == 0 || c.num == i64::MIN {
        return false;
    }
    let a: u64 = if c.num < 0 {
        (-c.num) as u64
    } else {
        c.num as u64
    };
    assert(a == vstd::math::abs(c.num as int));
    gcd(a, c.den) == 1
}

/// Whether the constant operands of `e` under `op`, if any, are well formed (and, when
/// `nonzero_divisor` is set, the second is not zero).
fn operands_ok(e: &RcExpr, op: BinaryOperator, nonzero_divisor: bool) -> (r: bool)
    ensures
        r == (operands_wf(*e, op) && !(nonzero_divisor && zero_divisor(*e, op))),
{
    match get_binary_args(e, op) {
        Some((l, r)) => rat_is_wf(&l) && rat_is_wf(&r) && !(nonzero_divisor && r.num == 0),
        None => true,
    }
}

/// The function rules of the evaluator.
#[derive(Clone, Copy, Debug)]
pub enum FnRule {
    /// Addition: the constants of a chain of sums are summed into one, placed last.
    Add,
    /// Multiplication: the constants of a chain of products are multiplied into one, placed
    /// last.
    Multiply,
    /// Binary subtraction of constants.
    Subtract,
    /// Binary division of constants.
    Divide,
    /// Binary modulo of integer constants.
    Modulo,
    /// Binary exponentiation of constants.
    Exponentiate,
    /// Unary posation.
    Posate,
    /// Unary negation of a constant.
    Negate,
}

impl FnRule {
    /// The name of the rule.
    pub open spec fn name(self) -> Seq<char> {
        match self {
            FnRule::Add => "add"@,
            FnRule::Multiply => "multiply"@,
            FnRule::Subtract => "subtract"@,
            FnRule::Divide => "divide"@,
            FnRule::Modulo => "modulo"@,
            FnRule::Exponentiate => "exponentiate"@,
            FnRule::Posate => "posate"@,
            FnRule::Negate => "negate"@,
        }
    }

    /// The name of the rule, as text.
    pub fn name_text(&self) -> (r: String)
        ensures
            r@ == self.name(),
    {
        match self {
            FnRule::Add => text("add"),
            FnRule::Multiply => text("multiply"),
            FnRule::Subtract => text("subtract"),
            FnRule::Divide => text("divide"),
            FnRule::Modulo => text("modulo"),
            FnRule::Exponentiate => text("exponentiate"),
            FnRule::Posate => text("posate"),
            FnRule::Negate => text("negate"),
        }
    }

    /// What the rule gives on `e`: the evaluated expression, or nothing when the rule does not
    /// apply. A rule does not apply to constants that are not in lowest terms, nor to a zero
    /// divisor.
    pub open spec fn spec_apply(self, e: RcExpr) -> Option<RcExpr> {
        match self {
            FnRule::Add => fold_chain(e, BinaryOperator::Plus, false),
            FnRule::Multiply => fold_chain(e, BinaryOperator::Mult, true),
            FnRule::Subtract => if operands_wf(e, BinaryOperator::Minus) {
                const_at(
                    match const_operands(e, BinaryOperator::Minus) {
                        Some(p) => rat_sub(p.0, p.1),
                        None => None,
                    },
                    e,
                )
            } else {
                None
            },
            FnRule::Divide => if operands_wf(e, BinaryOperator::Div) && !zero_divisor(e, BinaryOperator::Div) {
                const_at(
                    match const_operands(e, BinaryOperator::Div) {
                        Some(p) => rat_div(p.0, p.1),
                        None => None,
                    },
                    e,
                )
            } else {
                None
            },
            FnRule::Modulo => if operands_wf(e, BinaryOperator::Mod) && !zero_divisor(e, BinaryOperator::Mod) {
                const_at(
                    match const_operands(e, BinaryOperator::Mod) {
                        Some(p) => if p.0.den == 1 && p.1.den == 1 {
                            Some(
                                Rational {
                                    num: trunc_rem(p.0.num as int, p.1.num as int) as i64,
                                    den: 1,
                                },
                            )
                        } else {
                            None
                        },
                        None => None,
                    },
                    e,
                )
            } else {
                None
            },
            FnRule::Exponentiate => if operands_wf(e, BinaryOperator::Exp) {
                const_at(
                    match const_operands(e, BinaryOperator::Exp) {
                        Some(p) => if p.1.den == 1 && 0 <= p.1.num <= u32::MAX {
                            rat_pow(p.0, p.1.num as nat)
                        } else {
                            None
                        },
                        None => None,
                    },
                    e,
                )
            } else {
                None
            },
            FnRule::Posate => match *e.expr {
                Expr::UnaryExpr(u) => if u.op == UnaryOperator::SignPositive {
                    Some(u.rhs)
                } else {
                    None
                },
                _ => None,
            },
            FnRule::Negate => if negated_const(e) matches Some(c) ==> c.wf() {
                const_at(
                    match negated_const(e) {
                        Some(c) => Some(Rational { num: (-c.num) as i64, den: c.den }),
                        None => None,
                    },
                    e,
                )
            } else {
                None
            },
        }
    }

    /// Applies the rule to `e`.
    pub fn apply(&self, e: &RcExpr) -> (r: Option<RcExpr>)
        ensures
            (r is Some) == (self.spec_apply(*e) is Some),
            r matches Some(x) ==> same_expr(x, self.spec_apply(*e)->0),
    {
        let r = match self {
            FnRule::Add => {
                return fold_chain_exec(e, BinaryOperator::Plus, false);
            },
            FnRule::Multiply => {
                return fold_chain_exec(e, BinaryOperator::Mult, true);
            },
            FnRule::Subtract => {
                if !operands_ok(e, BinaryOperator::Minus, false) {
                    return None;
                }
                subtract(e)
            },
            FnRule::Divide => {
                if !operands_ok(e, BinaryOperator::Div, true) {
                    return None;
                }
                divide(e)
            },
            FnRule::Modulo => {
                if !operands_ok(e, BinaryOperator::Mod, true) {
                    return None;
                }
                modulo(e)
            },
            FnRule::Exponentiate => {
                if !operands_ok(e, BinaryOperator::Exp, false) {
                    return None;
                }
                exponentiate(e)
            },
            FnRule::Posate => posate(e),
            FnRule::Negate => {
                let ok = match &*e.expr {
                    Expr::UnaryExpr(u) => {
                        if u.op == UnaryOperator::SignNegative {
                            match &*u.rhs.expr {
                                Expr::Const(c) => rat_is_wf(c),
                                _ => true,
                            }
                        } else {
                            true
                        }
                    },
                    _ => true,
                };
                if !ok {
                    return None;
                }
                negate(e)
            },
        };
        proof {
            if r is Some {
                lemma_same_expr_refl(r->0);
            }
        }
        r
    }
}

/// `o` is a constant whose value is `n / d`: its numerator times `d` is `n` times its denominator.
pub open spec fn gives_value(o: Option<RcExpr>, n: int, d: int) -> bool {
    match o {
        Some(v) => match *v.expr {
            Expr::Const(k) => k.num * d == n * k.den,
            _ => false,
        },
        None => false,
    }
}

/// The binary expression `a op b` on two constants.
pub open spec fn is_const_binary(e: RcExpr, op: BinaryOperator, a: Rational, b: Rational) -> bool {
    match *e.expr {
        Expr::BinaryExpr(x) => x.op == op && *x.lhs.expr == Expr::Const(a) && *x.rhs.expr
            == Expr::Const(b),
        _ => false,
    }
}

/// Negating a constant gives the constant with the opposite numerator and the same denominator.
pub proof fn law_negate_value(e: RcExpr, x: RcExpr, c: Rational)
    requires
        *e.expr == Expr::UnaryExpr(UnaryExpr { op: UnaryOperator::SignNegative, rhs: x }),
        *x.expr == Expr::Const(c),
        c.wf(),
    ensures
        FnRule::Negate.spec_apply(e) is Some,
        *FnRule::Negate.spec_apply(e)->0.expr == Expr::Const(Rational { num: (-c.num) as i64, den: c.den }),
        FnRule::Negate.spec_apply(e)->0.span == e.span,
        gives_value(FnRule::Negate.spec_apply(e), -c.num, c.den as int),
{
}

/// Posating an expression gives the expression itself.
pub proof fn law_posate_identity(e: RcExpr, x: RcExpr)
    requires
        *e.expr == Expr::UnaryExpr(UnaryExpr { op: UnaryOperator::SignPositive, rhs: x }),
    ensures
        FnRule::Posate.spec_apply(e) == Some(x),
{
}

/// Subtracting constants gives, when it fits, a constant whose value is the difference.
pub proof fn law_subtract_value(e: RcExpr, a: Rational, b: Rational)
    requires
        is_const_binary(e, BinaryOperator::Minus, a, b),
        a.wf(),
        b.wf(),
    ensures
        FnRule::Subtract.spec_apply(e) is Some ==> gives_value(
            FnRule::Subtract.spec_apply(e),
            a.num * b.den - b.num * a.den,
            a.den * b.den,
        ),
{
    assert(const_operands(e, BinaryOperator::Minus) == Some((a, b)));
    assert(a.den * b.den > 0) by (nonlinear_arith)
        requires
            a.den > 0,
            b.den > 0,
    ;
    crate::math::rational::lemma_make_rat_value(a.num * b.den - b.num * a.den, a.den * b.den);
}

/// Dividing constants gives, when it fits, a constant whose value is the quotient.
pub proof fn law_divide_value(e: RcExpr, a: Rational, b: Rational)
    requires
        is_const_binary(e, BinaryOperator::Div, a, b),
        a.wf(),
        b.wf(),
        b.num != 0,
    ensures
        FnRule::Divide.spec_apply(e) is Some ==> gives_value(
            FnRule::Divide.spec_apply(e),
            a.num * b.den,
            a.den * b.num,
        ),
{
    assert(const_operands(e, BinaryOperator::Div) == Some((a, b)));
    if b.num > 0 {
        assert(a.den * b.num > 0) by (nonlinear_arith)
            requires
                a.den > 0,
                b.num > 0,
        ;
        crate::math::rational::lemma_make_rat_value(a.num * b.den, a.den * b.num);
    } else {
        assert(a.den * (-b.num) > 0) by (nonlinear_arith)
            requires
                a.den > 0,
                b.num < 0,
        ;
        crate::math::rational::lemma_make_rat_value(-(a.num * b.den), a.den * (-b.num));
        if FnRule::Divide.spec_apply(e) is Some {
            let k = rat_div(a, b)->0;
            assert(k.num * (a.den * (-b.num)) == -(a.num * b.den) * k.den);
            assert(k.num * (a.den * b.num) == (a.num * b.den) * k.den) by (nonlinear_arith)
                requires
                    k.num * (a.den * (-b.num)) == -(a.num * b.den) * k.den,
            ;
        }
    }
}

/// From `x = a` and `y = x ∘ b` as cross products, `y = a ∘ b`: cancels the positive
/// denominator of `x`.
proof fn lemma_cancel_den(yn: int, yd: int, xn: int, xd: int, an: int, ad: int, pn: int, pd: int)
    requires
        xd > 0,
        ad > 0,
        xn * ad == an * xd,
        yn * (xd * pd) == (xn * pd + pn * xd) * yd,
    ensures
        yn * (ad * pd) == (an * pd + pn * ad) * yd,
{
    assert(yn * (ad * pd) * xd == ad * (yn * (xd * pd))) by (nonlinear_arith);
    assert(ad * ((xn * pd + pn * xd) * yd) == (xn * ad * pd + pn * xd * ad) * yd) by (nonlinear_arith);
    assert(xn * ad * pd == an * xd * pd) by (nonlinear_arith)
        requires
            xn * ad == an * xd,
    ;
    let u = an * pd;
    let w = pn * ad;
    assert(an * xd * pd == xd * u) by (nonlinear_arith)
        requires
            u == an * pd,
    ;
    assert(pn * xd * ad == xd * w) by (nonlinear_arith)
        requires
            w == pn * ad,
    ;
    assert((xd * u + xd * w) * yd == (u + w) * yd * xd) by (nonlinear_arith);
    vstd::arithmetic::mul::lemma_mul_equality_converse(
        xd,
        yn * (ad * pd),
        (an * pd + pn * ad) * yd,
    );
}

/// Adding two constants gives, when it fits, a constant whose value is the sum.
pub proof fn law_add_value(e: RcExpr, a: Rational, b: Rational)
    requires
        is_const_binary(e, BinaryOperator::Plus, a, b),
        a.wf(),
        b.wf(),
    ensures
        FnRule::Add.spec_apply(e) is Some ==> gives_value(
            FnRule::Add.spec_apply(e),
            a.num * b.den + b.num * a.den,
            a.den * b.den,
        ),
{
    let x = (*e.expr)->BinaryExpr_0;
    assert(chain_args(x.lhs, BinaryOperator::Plus) == seq![x.lhs]);
    assert(chain_args(x.rhs, BinaryOperator::Plus) == seq![x.rhs]);
    let args = chain_args(e, BinaryOperator::Plus);
    assert(args =~= seq![x.lhs, x.rhs]);
    let zero = Rational { num: 0, den: 1 };
    let acc1 = rat_add(zero, a);
    let rest1 = args.update(0, args.last()).drop_last();
    assert(rest1 =~= seq![x.rhs]);
    assert(fold_consts(args, 0, Some(zero), 2, false) == fold_consts(rest1, 0, acc1, 1, false));
    if FnRule::Add.spec_apply(e) is Some {
        assert(acc1 is Some);
        let k1 = acc1->0;
        let acc2 = rat_add(k1, b);
        let rest2 = rest1.update(0, rest1.last()).drop_last();
        assert(fold_consts(rest1, 0, acc1, 1, false) == fold_consts(rest2, 0, acc2, 0, false));
        assert(acc2 is Some);
        let k2 = acc2->0;
        assert(rest2.push(RcExpr { expr: Box::new(Expr::Const(k2)), span: e.span }).len() == 1);
        crate::math::rational::lemma_make_rat_value(0 * a.den + a.num * 1, 1 * a.den);
        assert(k1.num * a.den == a.num * k1.den);
        assert(k1.den > 0);
        assert(k1.den * b.den > 0) by (nonlinear_arith)
            requires
                k1.den > 0,
                b.den > 0,
        ;
        crate::math::rational::lemma_make_rat_value(k1.num * b.den + b.num * k1.den, k1.den * b.den);
        lemma_cancel_den(k2.num as int, k2.den as int, k1.num as int, k1.den as int, a.num as int, a.den as int, b.num as int, b.den as int);
    }
}

/// Multiplying two constants gives, when it fits, a constant whose value is the product.
pub proof fn law_multiply_value(e: RcExpr, a: Rational, b: Rational)
    requires
        is_const_binary(e, BinaryOperator::Mult, a, b),
        a.wf(),
        b.wf(),
    ensures
        FnRule::Multiply.spec_apply(e) is Some ==> gives_value(
            FnRule::Multiply.spec_apply(e),
            a.num * b.num,
            a.den * b.den,
        ),
{
    let x = (*e.expr)->BinaryExpr_0;
    assert(chain_args(x.lhs, BinaryOperator::Mult) == seq![x.lhs]);
    assert(chain_args(x.rhs, BinaryOperator::Mult) == seq![x.rhs]);
    let args = chain_args(e, BinaryOperator::Mult);
    assert(args =~= seq![x.lhs, x.rhs]);
    let one = Rational { num: 1, den: 1 };
    let acc1 = rat_mul(one, a);
    let rest1 = args.update(0, args.last()).drop_last();
    assert(rest1 =~= seq![x.rhs]);
    assert(fold_consts(args, 0, Some(one), 2, true) == fold_consts(rest1, 0, acc1, 1, true));
    if FnRule::Multiply.spec_apply(e) is Some {
        assert(acc1 is Some);
        let k1 = acc1->0;
        let acc2 = rat_mul(k1, b);
        let rest2 = rest1.update(0, rest1.last()).drop_last();
        assert(fold_consts(rest1, 0, acc1, 1, true) == fold_consts(rest2, 0, acc2, 0, true));
        assert(acc2 is Some);
        let k2 = acc2->0;
        crate::math::rational::lemma_make_rat_value(1 * a.num, 1 * a.den);
        assert(k1.num * a.den == a.num * k1.den);
        assert(k1.den * b.den > 0) by (nonlinear_arith)
            requires
                k1.den > 0,
                b.den > 0,
        ;
        crate::math::rational::lemma_make_rat_value(k1.num * b.num, k1.den * b.den);
        let (yn, yd, xn, xd, an, ad, pn, pd) = (k2.num as int, k2.den as int, k1.num as int, k1.den as int, a.num as int, a.den as int, b.num as int, b.den as int);
        assert(yn * (xd * pd) == xn * pn * yd);
        assert(yn * (ad * pd) * xd == an * pn * yd * xd) by (nonlinear_arith)
            requires
                xn * ad == an * xd,
                yn * (xd * pd) == xn * pn * yd,
        ;
        vstd::arithmetic::mul::lemma_mul_equality_converse(xd, yn * (ad * pd), an * pn * yd);
    }
}

} // verus!
