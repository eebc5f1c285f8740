//! The primary libslide IR: operators, expressions, expression patterns and statements.
pub mod expression_pattern;
pub mod statement;
pub mod collectors;
pub mod order;

use crate::math::gcd::spec_gcd;
use vstd::prelude::*;

verus! {

/// A binary operator. Operators are ordered `+ - * / % ^`, and their precedences are grouped:
/// `+ -` bind loosest, then `* / %`, then `^`.
#[derive(PartialEq, Eq, Structural, PartialOrd, Ord, Clone, Copy, Hash, Debug)]
pub enum BinaryOperator {
    /// `+`
    Plus,
    /// `-`
    Minus,
    /// `*`
    Mult,
    /// `/`
    Div,
    /// `%`
    Mod,
    /// `^`
    Exp,
}

impl BinaryOperator {
    /// The precedence of the operator: 0 for `+ -`, 1 for `* / %`, 2 for `^`.
    pub open spec fn spec_precedence(self) -> u8 {
        match self {
            BinaryOperator::Plus | BinaryOperator::Minus => 0,
            BinaryOperator::Mult | BinaryOperator::Div | BinaryOperator::Mod => 1,
            BinaryOperator::Exp => 2,
        }
    }

    /// The rank of the operator in the order `+ - * / % ^`.
    pub open spec fn rank(self) -> u8 {
        match self {
            BinaryOperator::Plus => 0,
            BinaryOperator::Minus => 1,
            BinaryOperator::Mult => 2,
            BinaryOperator::Div => 3,
            BinaryOperator::Mod => 4,
            BinaryOperator::Exp => 5,
        }
    }

    /// The precedence of the operator: 0 for `+ -`, 1 for `* / %`, 2 for `^`.
    pub fn precedence(&self) -> (r: u8)
        ensures
            r == self.spec_precedence(),
    {
        match self {
            BinaryOperator::Plus | BinaryOperator::Minus => 0,
            BinaryOperator::Mult | BinaryOperator::Div | BinaryOperator::Mod => 1,
            BinaryOperator::Exp => 2,
        }
    }

    /// Whether the operator is treated as associative: `+`, `*` and `^`.
    pub fn is_associative(&self) -> (r: bool)
        ensures
            r == (*self == BinaryOperator::Plus || *self == BinaryOperator::Mult || *self
                == BinaryOperator::Exp),
    {
        matches!(self, BinaryOperator::Plus | BinaryOperator::Mult | BinaryOperator::Exp)
    }

    /// The operator's position in the order `+ - * / % ^`.
    pub fn position(&self) -> (r: u8)
        ensures
            r == self.rank(),
    {
        match self {
            BinaryOperator::Plus => 0,
            BinaryOperator::Minus => 1,
            BinaryOperator::Mult => 2,
            BinaryOperator::Div => 3,
            BinaryOperator::Mod => 4,
            BinaryOperator::Exp => 5,
        }
    }
}

/// A binary expression over operands of type `E`.
#[derive(PartialEq, Eq, Hash, Debug)]
pub struct BinaryExpr<E> {
    /// The operator.
    pub op: BinaryOperator,
    /// The left operand.
    pub lhs: E,
    /// The right operand.
    pub rhs: E,
}

/// A unary operator, ordered `+` before `-`.
#[derive(PartialEq, Eq, Structural, PartialOrd, Ord, Clone, Copy, Hash, Debug)]
pub enum UnaryOperator {
    /// `+`
    SignPositive,
    /// `-`
    SignNegative,
}

/// A unary expression over an operand of type `E`.
#[derive(PartialEq, Eq, Hash, Debug)]
pub struct UnaryExpr<E> {
    /// The operator.
    pub op: UnaryOperator,
    /// The operand.
    pub rhs: E,
}

impl<E> UnaryExpr<E> {
    /// The negation of `expr`.
    pub fn negate(expr: E) -> (r: Self)
        ensures
            r.op == UnaryOperator::SignNegative,
            r.rhs == expr,
    {
        Self { op: UnaryOperator::SignNegative, rhs: expr }
    }
}

/// An exact rational constant `num / den`, kept in lowest terms with a positive denominator.
#[derive(PartialEq, Eq, Structural, Clone, Copy, Hash, Debug)]
pub struct Rational {
    /// The numerator.
    pub num: i64,
    /// The denominator, positive.
    pub den: u64,
}

impl Rational {
    /// The rational is in lowest terms with a positive denominator (zero is `0/1`).
    pub open spec fn wf(self) -> bool {
        &&& self.den > 0
        &&& self.num != i64::MIN
        &&& spec_gcd(vstd::math::abs(self.num as int) as nat, self.den as nat) == 1
    }

    /// The integer `n` as a rational.
    pub fn from_int(n: i64) -> (r: Rational)
        requires
            n != i64::MIN,
        ensures
            r.wf(),
            r.num == n,
            r.den == 1,
    {
        proof {
            crate::math::gcd::lemma_gcd_one(vstd::math::abs(n as int) as nat);
            lemma_gcd_comm_one(vstd::math::abs(n as int) as nat);
        }
        Rational { num: n, den: 1 }
    }
}

impl Rational {
    /// `self` is less than `other` as a number (denominators taken positive).
    pub open spec fn spec_less(self, other: Rational) -> bool {
        self.num * other.den < other.num * self.den
    }

    /// Whether `self` is less than `other` as a number.
    pub fn less_than(&self, other: &Rational) -> (r: bool)
        ensures
            r == self.spec_less(*other),
    {
        proof {
            lemma_product_fits(self.num, other.den);
            lemma_product_fits(other.num, self.den);
        }
        let a: i128 = (self.num as i128) * (other.den as i128);
        let b: i128 = (other.num as i128) * (self.den as i128);
        a < b
    }
}

/// The product of an `i64` and a `u64` fits in an `i128`.
pub(crate) proof fn lemma_product_fits(x: i64, y: u64)
    ensures
        i128::MIN <= x * y <= i128::MAX,
{
    assert(-0x8000_0000_0000_0000 * 0xffff_ffff_ffff_ffff <= x * y <= 0x7fff_ffff_ffff_ffff
        * 0xffff_ffff_ffff_ffff) by (nonlinear_arith)
        requires
            -0x8000_0000_0000_0000 <= x <= 0x7fff_ffff_ffff_ffff,
            0 <= y <= 0xffff_ffff_ffff_ffff,
    ;
}

/// `gcd(a, 1) == 1`.
proof fn lemma_gcd_comm_one(a: nat)
    ensures
        spec_gcd(a, 1) == 1,
{
    vstd::arithmetic::div_mod::lemma_small_mod(0, 1);
    assert(a % 1 == 0) by {
        vstd::arithmetic::div_mod::lemma_mod_self_0(1);
        vstd::arithmetic::div_mod::lemma_fundamental_div_mod(a as int, 1);
    }
    assert(spec_gcd(a, 1) == spec_gcd(1, a % 1));
    assert(spec_gcd(1, 0) == 1);
}

} // verus!
