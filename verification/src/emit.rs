//! Emit strategies for the libslide grammar IR.
use crate::grammar::expression_pattern::{ExprPat, RcExprPat};
use crate::grammar::statement::{Assignment, Expr, RcExpr, Stmt, StmtKind};
use crate::text::push_text;
use crate::grammar::{BinaryExpr, BinaryOperator, Rational, UnaryOperator};
use vstd::prelude::*;

verus! {

/// The format in which a slide grammar should be emitted.
#[derive(Copy, Clone, Debug, PartialEq, Eq, Structural)]
pub enum EmitFormat {
    /// Canonical, human-readable form.
    /// For example, `1+1` is output as `1 + 1`.
    Pretty,
    /// S-expression form.
    /// For example, `1+1` is output as `(+ 1 1)`.
    SExpression,
    /// LaTeX output form.
    /// For example, `(1 + 1)` is output as `\left(1 + 1\right)`.
    Latex,
    /// Slide internal debug form.
    /// NB: this form is not stable, and no assumptions should be made about it.
    Debug,
}

impl EmitFormat {
    /// The format named `name`: "pretty", "s-expression", "latex" or "debug".
    pub fn from_name(name: &str) -> (r: Option<EmitFormat>)
        ensures
            name@ == "pretty"@ ==> r == Some(EmitFormat::Pretty),
            name@ == "s-expression"@ ==> r == Some(EmitFormat::SExpression),
            name@ == "latex"@ ==> r == Some(EmitFormat::Latex),
            name@ == "debug"@ ==> r == Some(EmitFormat::Debug),
            r is None ==> name@ != "pretty"@ && name@ != "s-expression"@ && name@ != "latex"@
                && name@ != "debug"@,
    {
        proof {
            reveal_strlit("pretty");
            reveal_strlit("s-expression");
            reveal_strlit("latex");
            reveal_strlit("debug");
            assert("s-expression"@.len() != "pretty"@.len());
            assert("latex"@.len() != "pretty"@.len() && "latex"@.len() != "s-expression"@.len());
            assert("debug"@.len() != "pretty"@.len() && "debug"@.len() != "s-expression"@.len());
            assert("debug"@[0] != "latex"@[0]);
        }
        let s = String::from_str(name);
        if s.eq(&String::from_str("pretty")) {
            Some(EmitFormat::Pretty)
        } else if s.eq(&String::from_str("s-expression")) {
            Some(EmitFormat::SExpression)
        } else if s.eq(&String::from_str("latex")) {
            Some(EmitFormat::Latex)
        } else if s.eq(&String::from_str("debug")) {
            Some(EmitFormat::Debug)
        } else {
            None
        }
    }
}

/// Configuration options for emitting a slide grammar, as bits.
#[derive(Copy, Clone, Debug, PartialEq, Eq, Structural)]
pub struct EmitConfig {
    /// The set options: bit 1 emits divisions as fractions (LaTeX), bit 2 emits assignment
    /// operators as ":=" (pretty).
    pub bits: u32,
}

impl Default for EmitConfig {
    /// No options set.
    fn default() -> (r: EmitConfig)
        ensures
            r.bits == 0,
    {
        EmitConfig { bits: 0 }
    }
}

impl EmitConfig {
    /// Emit divisions as fractions. Applies to LaTeX emit.
    pub fn frac() -> (r: EmitConfig)
        ensures
            r.bits == 1,
    {
        EmitConfig { bits: 1 }
    }

    /// Emit assignment operators as ":=". Applies to pretty emit.
    pub fn define_assign() -> (r: EmitConfig)
        ensures
            r.bits == 2,
    {
        EmitConfig { bits: 2 }
    }

    /// The configuration with the named options set: "frac" and "define-assign".
    pub fn from_names(opts: &Vec<String>) -> (r: EmitConfig)
        requires
            forall|i: int|
                0 <= i < opts@.len() ==> #[trigger] opts@[i]@ == "frac"@ || opts@[i]@
                    == "define-assign"@,
        ensures
            r.bits == option_bits(opts@),
    {
        proof {
            reveal_strlit("frac");
            reveal_strlit("define-assign");
            assert("frac"@.len() != "define-assign"@.len());
        }
        let mut config = EmitConfig::default();
        let mut i: usize = 0;
        assert(opts@.take(0) =~= Seq::<String>::empty());
        while i < opts.len()
            invariant
                i <= opts@.len(),
                forall|j: int|
                    0 <= j < opts@.len() ==> #[trigger] opts@[j]@ == "frac"@ || opts@[j]@
                        == "define-assign"@,
                "frac"@ != "define-assign"@,
                config.bits == option_bits(opts@.take(i as int)),
            decreases opts@.len() - i,
        {
            assert(opts@.take(i + 1).drop_last() =~= opts@.take(i as int));
            assert(opts@.take(i + 1).last() == opts@[i as int]);
            let opt = if opts[i].eq(&String::from_str("frac")) {
                EmitConfig::frac()
            } else {
                EmitConfig::define_assign()
            };
            config = config.union(opt);
            i = i + 1;
        }
        assert(opts@.take(i as int) =~= opts@);
        config
    }

    /// Whether every option of `other` is set in `self`.
    pub fn contains(&self, other: EmitConfig) -> (r: bool)
        ensures
            r == (self.bits & other.bits == other.bits),
    {
        self.bits & other.bits == other.bits
    }

    /// The options of both.
    pub fn union(&self, other: EmitConfig) -> (r: EmitConfig)
        ensures
            r.bits == self.bits | other.bits,
    {
        EmitConfig { bits: self.bits | other.bits }
    }
}

/// The option bits named by `opts`: 1 for "frac", 2 for "define-assign".
pub open spec fn option_bits(opts: Seq<String>) -> u32
    decreases opts.len(),
{
    if opts.len() == 0 {
        0
    } else {
        option_bits(opts.drop_last()) | (if opts.last()@ == "frac"@ {
            1u32
        } else {
            2u32
        })
    }
}

/// The decimal digit `d` as text.
pub open spec fn digit_char(d: nat) -> char {
    if d == 0 {
        '0'
    } else if d == 1 {
        '1'
    } else if d == 2 {
        '2'
    } else if d == 3 {
        '3'
    } else if d == 4 {
        '4'
    } else if d == 5 {
        '5'
    } else if d == 6 {
        '6'
    } else if d == 7 {
        '7'
    } else if d == 8 {
        '8'
    } else {
        '9'
    }
}

/// The decimal digits of `n`, most significant first.
pub open spec fn nat_str(n: nat) -> Seq<char>
    decreases n,
{
    if n < 10 {
        seq![digit_char(n)]
    } else {
        nat_str(n / 10).push(digit_char(n % 10))
    }
}

/// An integer in decimal, with a leading `-` when negative.
pub open spec fn int_str(n: int) -> Seq<char> {
    if n < 0 {
        seq!['-'] + nat_str((-n) as nat)
    } else {
        nat_str(n as nat)
    }
}

/// A rational as text: its numerator, followed by `/` and its denominator unless that is 1.
pub open spec fn rational_str(r: Rational) -> Seq<char> {
    if r.den == 1 {
        int_str(r.num as int)
    } else {
        int_str(r.num as int) + seq!['/'] + nat_str(r.den as nat)
    }
}

/// `String::push`: appends the character `ch` to the end of `s`.
pub assume_specification[ String::push ](s: &mut String, ch: char)
    ensures
        final(s)@ == old(s)@.push(ch),
;

/// A string holding the single character `c`.
fn char_string(c: char) -> (r: String)
    ensures
        r@ == seq![c],
{
    let mut s = String::new();
    s.push(c);
    s
}

/// The decimal digit `d` as a character.
fn digit(d: u64) -> (r: char)
    requires
        d < 10,
    ensures
        r == digit_char(d as nat),
{
    if d == 0 {
        '0'
    } else if d == 1 {
        '1'
    } else if d == 2 {
        '2'
    } else if d == 3 {
        '3'
    } else if d == 4 {
        '4'
    } else if d == 5 {
        '5'
    } else if d == 6 {
        '6'
    } else if d == 7 {
        '7'
    } else if d == 8 {
        '8'
    } else {
        '9'
    }
}

/// The decimal digits of `n`.
pub fn nat_to_string(n: u64) -> (r: String)
    ensures
        r@ == nat_str(n as nat),
    decreases n,
{
    if n < 10 {
        char_string(digit(n))
    } else {
        let mut s = nat_to_string(n / 10);
        s.push(digit(n % 10));
        s
    }
}

/// An integer in decimal.
pub fn int_to_string(n: i64) -> (r: String)
    ensures
        r@ == int_str(n as int),
{
    if n < 0 {
        let mut s = char_string('-');
        let m: i128 = -(n as i128);
        let digits = nat_to_string(m as u64);
        s.append(digits.as_str());
        s
    } else {
        nat_to_string(n as u64)
    }
}

impl Rational {
    /// The rational as text, like `3`, `-1/2`.
    pub fn to_string(&self) -> (r: String)
        ensures
            r@ == rational_str(*self),
    {
        let mut s = int_to_string(self.num);
        if self.den != 1 {
            s.push('/');
            let d = nat_to_string(self.den);
            s.append(d.as_str());
        }
        s
    }
}

/// The text of a binary operator.
pub open spec fn binop_str(op: BinaryOperator) -> Seq<char> {
    match op {
        BinaryOperator::Plus => seq!['+'],
        BinaryOperator::Minus => seq!['-'],
        BinaryOperator::Mult => seq!['*'],
        BinaryOperator::Div => seq!['/'],
        BinaryOperator::Mod => seq!['%'],
        BinaryOperator::Exp => seq!['^'],
    }
}

/// The text of a unary operator.
pub open spec fn unop_str(op: UnaryOperator) -> Seq<char> {
    match op {
        UnaryOperator::SignPositive => seq!['+'],
        UnaryOperator::SignNegative => seq!['-'],
    }
}

/// `s` in parentheses.
pub open spec fn parens(s: Seq<char>) -> Seq<char> {
    seq!['('] + s + seq![')']
}

/// `s` in brackets.
pub open spec fn brackets(s: Seq<char>) -> Seq<char> {
    seq!['['] + s + seq![']']
}

/// An operand whose operator is `child` needs parentheses under `parent`: it binds more loosely,
/// or binds the same on the right of an operator that is not associative.
pub open spec fn needs_parens(child: BinaryOperator, parent: BinaryOperator, is_right: bool) -> bool {
    child.spec_precedence() < parent.spec_precedence() || (is_right && child.spec_precedence()
        == parent.spec_precedence() && !(parent == BinaryOperator::Plus || parent
        == BinaryOperator::Mult || parent == BinaryOperator::Exp))
}

/// The canonical, human-readable form of a pattern.
pub open spec fn pretty_pat(p: RcExprPat) -> Seq<char>
    decreases p, 0int,
{
    match *p.pat {
        ExprPat::Const(c) => rational_str(c),
        ExprPat::VarPat(n) => n@,
        ExprPat::ConstPat(n) => n@,
        ExprPat::AnyPat(n) => n@,
        ExprPat::BinaryExpr(b) => operand_pat(b.lhs, b.op, false) + seq![' '] + binop_str(b.op)
            + seq![' '] + operand_pat(b.rhs, b.op, true),
        ExprPat::UnaryExpr(u) => unop_str(u.op) + (if *u.rhs.pat is BinaryExpr {
            parens(pretty_pat(u.rhs))
        } else {
            pretty_pat(u.rhs)
        }),
        ExprPat::Parend(x) => parens(pretty_pat(x)),
        ExprPat::Bracketed(x) => brackets(pretty_pat(x)),
    }
}

/// The form of an operand of a binary pattern with operator `parent`.
pub open spec fn operand_pat(e: RcExprPat, parent: BinaryOperator, is_right: bool) -> Seq<char>
    decreases e, 1int,
{
    match *e.pat {
        ExprPat::BinaryExpr(child) => if needs_parens(child.op, parent, is_right) {
            parens(pretty_pat(e))
        } else {
            pretty_pat(e)
        },
        _ => pretty_pat(e),
    }
}

/// The canonical, human-readable form of an expression.
pub open spec fn pretty_expr(p: RcExpr) -> Seq<char>
    decreases p, 0int,
{
    match *p.expr {
        Expr::Const(c) => rational_str(c),
        Expr::Var(n) => n@,
        Expr::BinaryExpr(b) => operand_expr(b.lhs, b.op, false) + seq![' '] + binop_str(b.op)
            + seq![' '] + operand_expr(b.rhs, b.op, true),
        Expr::UnaryExpr(u) => unop_str(u.op) + (if *u.rhs.expr is BinaryExpr {
            parens(pretty_expr(u.rhs))
        } else {
            pretty_expr(u.rhs)
        }),
        Expr::Parend(x) => parens(pretty_expr(x)),
        Expr::Bracketed(x) => brackets(pretty_expr(x)),
    }
}

/// The form of an operand of a binary expression with operator `parent`.
pub open spec fn operand_expr(e: RcExpr, parent: BinaryOperator, is_right: bool) -> Seq<char>
    decreases e, 1int,
{
    match *e.expr {
        Expr::BinaryExpr(child) => if needs_parens(child.op, parent, is_right) {
            parens(pretty_expr(e))
        } else {
            pretty_expr(e)
        },
        _ => pretty_expr(e),
    }
}

/// The S-expression form of a pattern.
pub open spec fn sexp_pat(p: RcExprPat) -> Seq<char>
    decreases p,
{
    match *p.pat {
        ExprPat::Const(c) => rational_str(c),
        ExprPat::VarPat(n) => n@,
        ExprPat::ConstPat(n) => n@,
        ExprPat::AnyPat(n) => n@,
        ExprPat::BinaryExpr(b) => parens(
            binop_str(b.op) + seq![' '] + sexp_pat(b.lhs) + seq![' '] + sexp_pat(b.rhs),
        ),
        ExprPat::UnaryExpr(u) => parens(unop_str(u.op) + seq![' '] + sexp_pat(u.rhs)),
        ExprPat::Parend(x) => parens(sexp_pat(x)),
        ExprPat::Bracketed(x) => brackets(sexp_pat(x)),
    }
}

/// The S-expression form of an expression.
pub open spec fn sexp_expr(p: RcExpr) -> Seq<char>
    decreases p,
{
    match *p.expr {
        Expr::Const(c) => rational_str(c),
        Expr::Var(n) => n@,
        Expr::BinaryExpr(b) => parens(
            binop_str(b.op) + seq![' '] + sexp_expr(b.lhs) + seq![' '] + sexp_expr(b.rhs),
        ),
        Expr::UnaryExpr(u) => parens(unop_str(u.op) + seq![' '] + sexp_expr(u.rhs)),
        Expr::Parend(x) => parens(sexp_expr(x)),
        Expr::Bracketed(x) => brackets(sexp_expr(x)),
    }
}

/// Appends `t` to `s`.
fn append_string(s: &mut String, t: String)
    ensures
        final(s)@ == old(s)@ + t@,
{
    s.append(t.as_str());
}

/// `s` wrapped in `open` and `close`.
fn wrap(open: char, s: String, close: char) -> (r: String)
    ensures
        r@ == seq![open] + s@ + seq![close],
{
    let mut r = char_string(open);
    append_string(&mut r, s);
    r.push(close);
    r
}

impl BinaryOperator {
    /// The text of the operator.
    pub fn emit_pretty(&self) -> (r: String)
        ensures
            r@ == binop_str(*self),
    {
        match self {
            BinaryOperator::Plus => char_string('+'),
            BinaryOperator::Minus => char_string('-'),
            BinaryOperator::Mult => char_string('*'),
            BinaryOperator::Div => char_string('/'),
            BinaryOperator::Mod => char_string('%'),
            BinaryOperator::Exp => char_string('^'),
        }
    }
}

impl UnaryOperator {
    /// The text of the operator.
    pub fn emit_pretty(&self) -> (r: String)
        ensures
            r@ == unop_str(*self),
    {
        match self {
            UnaryOperator::SignPositive => char_string('+'),
            UnaryOperator::SignNegative => char_string('-'),
        }
    }
}

/// Joins `a op b` with single spaces.
fn spaced(a: String, op: String, b: String) -> (r: String)
    ensures
        r@ == a@ + seq![' '] + op@ + seq![' '] + b@,
{
    let mut r = a;
    r.push(' ');
    append_string(&mut r, op);
    r.push(' ');
    append_string(&mut r, b);
    r
}

impl RcExprPat {
    /// The canonical, human-readable form of the pattern; for example `1+1` is `1 + 1`.
    pub fn emit_pretty(&self) -> (r: String)
        ensures
            r@ == pretty_pat(*self),
        decreases self, 0int,
    {
        match &*self.pat {
            ExprPat::Const(c) => c.to_string(),
            ExprPat::VarPat(n) | ExprPat::ConstPat(n) | ExprPat::AnyPat(n) => n.clone(),
            ExprPat::BinaryExpr(b) => {
                let l = b.lhs.emit_operand(b.op, false);
                let r = b.rhs.emit_operand(b.op, true);
                spaced(l, b.op.emit_pretty(), r)
            },
            ExprPat::UnaryExpr(u) => {
                let mut s = u.op.emit_pretty();
                let inner = if matches!(&*u.rhs.pat, ExprPat::BinaryExpr(_)) {
                    wrap('(', u.rhs.emit_pretty(), ')')
                } else {
                    u.rhs.emit_pretty()
                };
                append_string(&mut s, inner);
                s
            },
            ExprPat::Parend(x) => wrap('(', x.emit_pretty(), ')'),
            ExprPat::Bracketed(x) => wrap('[', x.emit_pretty(), ']'),
        }
    }

    /// The form of the pattern as an operand of a binary pattern with operator `parent`.
    fn emit_operand(&self, parent: BinaryOperator, is_right: bool) -> (r: String)
        ensures
            r@ == operand_pat(*self, parent, is_right),
        decreases self, 1int,
    {
        match &*self.pat {
            ExprPat::BinaryExpr(child) => {
                let wrap_it = child.op.precedence() < parent.precedence() || (is_right
                    && child.op.precedence() == parent.precedence() && !parent.is_associative());
                if wrap_it {
                    wrap('(', self.emit_pretty(), ')')
                } else {
                    self.emit_pretty()
                }
            },
            _ => self.emit_pretty(),
        }
    }

    /// The S-expression form of the pattern; for example `1+1` is `(+ 1 1)`.
    pub fn emit_s_expression(&self) -> (r: String)
        ensures
            r@ == sexp_pat(*self),
        decreases self,
    {
        match &*self.pat {
            ExprPat::Const(c) => c.to_string(),
            ExprPat::VarPat(n) | ExprPat::ConstPat(n) | ExprPat::AnyPat(n) => n.clone(),
            ExprPat::BinaryExpr(b) => {
                let inner = spaced(b.op.emit_pretty(), b.lhs.emit_s_expression(), b.rhs.emit_s_expression());
                let r = wrap('(', inner, ')');
                r
            },
            ExprPat::UnaryExpr(u) => {
                let mut s = u.op.emit_pretty();
                s.push(' ');
                append_string(&mut s, u.rhs.emit_s_expression());
                wrap('(', s, ')')
            },
            ExprPat::Parend(x) => wrap('(', x.emit_s_expression(), ')'),
            ExprPat::Bracketed(x) => wrap('[', x.emit_s_expression(), ']'),
        }
    }
}

impl RcExpr {
    /// The canonical, human-readable form of the expression; for example `1+1` is `1 + 1`.
    pub fn emit_pretty(&self) -> (r: String)
        ensures
            r@ == pretty_expr(*self),
        decreases self, 0int,
    {
        match &*self.expr {
            Expr::Const(c) => c.to_string(),
            Expr::Var(n) => n.clone(),
            Expr::BinaryExpr(b) => {
                let l = b.lhs.emit_operand(b.op, false);
                let r = b.rhs.emit_operand(b.op, true);
                spaced(l, b.op.emit_pretty(), r)
            },
            Expr::UnaryExpr(u) => {
                let mut s = u.op.emit_pretty();
                let inner = if matches!(&*u.rhs.expr, Expr::BinaryExpr(_)) {
                    wrap('(', u.rhs.emit_pretty(), ')')
                } else {
                    u.rhs.emit_pretty()
                };
                append_string(&mut s, inner);
                s
            },
            Expr::Parend(x) => wrap('(', x.emit_pretty(), ')'),
            Expr::Bracketed(x) => wrap('[', x.emit_pretty(), ']'),
        }
    }

    /// The form of the expression as an operand of a binary expression with operator `parent`.
    fn emit_operand(&self, parent: BinaryOperator, is_right: bool) -> (r: String)
        ensures
            r@ == operand_expr(*self, parent, is_right),
        decreases self, 1int,
    {
        match &*self.expr {
            Expr::BinaryExpr(child) => {
                let wrap_it = child.op.precedence() < parent.precedence() || (is_right
                    && child.op.precedence() == parent.precedence() && !parent.is_associative());
                if wrap_it {
                    wrap('(', self.emit_pretty(), ')')
                } else {
                    self.emit_pretty()
                }
            },
            _ => self.emit_pretty(),
        }
    }

    /// The S-expression form of the expression; for example `1+1` is `(+ 1 1)`.
    pub fn emit_s_expression(&self) -> (r: String)
        ensures
            r@ == sexp_expr(*self),
        decreases self,
    {
        match &*self.expr {
            Expr::Const(c) => c.to_string(),
            Expr::Var(n) => n.clone(),
            Expr::BinaryExpr(b) => {
                let inner = spaced(b.op.emit_pretty(), b.lhs.emit_s_expression(), b.rhs.emit_s_expression());
                wrap('(', inner, ')')
            },
            Expr::UnaryExpr(u) => {
                let mut s = u.op.emit_pretty();
                s.push(' ');
                append_string(&mut s, u.rhs.emit_s_expression());
                wrap('(', s, ')')
            },
            Expr::Parend(x) => wrap('(', x.emit_s_expression(), ')'),
            Expr::Bracketed(x) => wrap('[', x.emit_s_expression(), ']'),
        }
    }
}


/// `s` in LaTeX's stretching parentheses.
pub open spec fn latex_parens(s: Seq<char>) -> Seq<char> {
    "\\left("@ + s + "\\right)"@
}

/// `s` in LaTeX's stretching brackets.
pub open spec fn latex_brackets(s: Seq<char>) -> Seq<char> {
    "\\left["@ + s + "\\right]"@
}

/// The LaTeX text of a binary operator.
pub open spec fn binop_latex(op: BinaryOperator) -> Seq<char> {
    match op {
        BinaryOperator::Mod => "\\mod"@,
        _ => binop_str(op),
    }
}

/// A binary operation in LaTeX: powers as superscripts, divisions as fractions when `frac` is
/// set, other operators between their operands.
pub open spec fn latex_binary(op: BinaryOperator, l: Seq<char>, r: Seq<char>, frac: bool) -> Seq<
    char,
> {
    if op == BinaryOperator::Exp {
        l + "^{"@ + r + "}"@
    } else if op == BinaryOperator::Div && frac {
        "\\frac{"@ + l + "}{"@ + r + "}"@
    } else {
        l + seq![' '] + binop_latex(op) + seq![' '] + r
    }
}

/// The option bits of a configuration ask for divisions as fractions.
pub open spec fn wants_frac(config: EmitConfig) -> bool {
    config.bits & 1u32 == 1u32
}

/// The LaTeX form of a pattern; pattern names are escaped with a backslash.
pub open spec fn latex_pat(p: RcExprPat, frac: bool) -> Seq<char>
    decreases p, 0int,
{
    match *p.pat {
        ExprPat::Const(c) => rational_str(c),
        ExprPat::VarPat(n) => seq!['\\'] + n@,
        ExprPat::ConstPat(n) => seq!['\\'] + n@,
        ExprPat::AnyPat(n) => seq!['\\'] + n@,
        ExprPat::BinaryExpr(b) => latex_binary(
            b.op,
            operand_latex_pat(b.lhs, b.op, false, frac),
            operand_latex_pat(b.rhs, b.op, true, frac),
            frac,
        ),
        ExprPat::UnaryExpr(u) => unop_str(u.op) + (if *u.rhs.pat is BinaryExpr {
            latex_parens(latex_pat(u.rhs, frac))
        } else {
            latex_pat(u.rhs, frac)
        }),
        ExprPat::Parend(x) => latex_parens(latex_pat(x, frac)),
        ExprPat::Bracketed(x) => latex_brackets(latex_pat(x, frac)),
    }
}

/// The LaTeX form of an operand of a binary pattern with operator `parent`.
pub open spec fn operand_latex_pat(e: RcExprPat, parent: BinaryOperator, is_right: bool, frac: bool) -> Seq<
    char,
>
    decreases e, 1int,
{
    match *e.pat {
        ExprPat::BinaryExpr(child) => if needs_parens(child.op, parent, is_right) {
            latex_parens(latex_pat(e, frac))
        } else {
            latex_pat(e, frac)
        },
        _ => latex_pat(e, frac),
    }
}

/// The LaTeX form of an expression.
pub open spec fn latex_expr(p: RcExpr, frac: bool) -> Seq<char>
    decreases p, 0int,
{
    match *p.expr {
        Expr::Const(c) => rational_str(c),
        Expr::Var(n) => n@,
        Expr::BinaryExpr(b) => latex_binary(
            b.op,
            operand_latex_expr(b.lhs, b.op, false, frac),
            operand_latex_expr(b.rhs, b.op, true, frac),
            frac,
        ),
        Expr::UnaryExpr(u) => unop_str(u.op) + (if *u.rhs.expr is BinaryExpr {
            latex_parens(latex_expr(u.rhs, frac))
        } else {
            latex_expr(u.rhs, frac)
        }),
        Expr::Parend(x) => latex_parens(latex_expr(x, frac)),
        Expr::Bracketed(x) => latex_brackets(latex_expr(x, frac)),
    }
}

/// The LaTeX form of an operand of a binary expression with operator `parent`.
pub open spec fn operand_latex_expr(e: RcExpr, parent: BinaryOperator, is_right: bool, frac: bool) -> Seq<
    char,
>
    decreases e, 1int,
{
    match *e.expr {
        Expr::BinaryExpr(child) => if needs_parens(child.op, parent, is_right) {
            latex_parens(latex_expr(e, frac))
        } else {
            latex_expr(e, frac)
        },
        _ => latex_expr(e, frac),
    }
}

/// `s` in LaTeX's stretching parentheses.
fn latex_paren_wrap(s: String) -> (r: String)
    ensures
        r@ == latex_parens(s@),
{
    let mut r = crate::text::text("\\left(");
    append_string(&mut r, s);
    push_text(&mut r, "\\right)");
    r
}

/// `s` in LaTeX's stretching brackets.
fn latex_bracket_wrap(s: String) -> (r: String)
    ensures
        r@ == latex_brackets(s@),
{
    let mut r = crate::text::text("\\left[");
    append_string(&mut r, s);
    push_text(&mut r, "\\right]");
    r
}

/// A binary operation in LaTeX.
fn latex_binary_text(op: BinaryOperator, l: String, r: String, frac: bool) -> (t: String)
    ensures
        t@ == latex_binary(op, l@, r@, frac),
{
    match op {
        BinaryOperator::Exp => {
            let mut t = l;
            push_text(&mut t, "^{");
            append_string(&mut t, r);
            push_text(&mut t, "}");
            t
        },
        BinaryOperator::Div if frac => {
            let mut t = crate::text::text("\\frac{");
            append_string(&mut t, l);
            push_text(&mut t, "}{");
            append_string(&mut t, r);
            push_text(&mut t, "}");
            t
        },
        _ => {
            let o = op.emit_latex();
            spaced(l, o, r)
        },
    }
}

impl BinaryOperator {
    /// The LaTeX text of the operator.
    pub fn emit_latex(&self) -> (r: String)
        ensures
            r@ == binop_latex(*self),
    {
        match self {
            BinaryOperator::Mod => crate::text::text("\\mod"),
            _ => self.emit_pretty(),
        }
    }
}

impl EmitConfig {
    /// Whether divisions are to be emitted as fractions.
    pub fn frac_set(&self) -> (r: bool)
        ensures
            r == wants_frac(*self),
    {
        self.bits & 1u32 == 1u32
    }
}

impl RcExprPat {
    /// The LaTeX form of the pattern; for example `(1 + 1)` is `\left(1 + 1\right)`.
    pub fn emit_latex(&self, config: EmitConfig) -> (r: String)
        ensures
            r@ == latex_pat(*self, wants_frac(config)),
        decreases self, 0int,
    {
        match &*self.pat {
            ExprPat::Const(c) => c.to_string(),
            ExprPat::VarPat(n) | ExprPat::ConstPat(n) | ExprPat::AnyPat(n) => {
                let mut s = char_string('\\');
                push_text(&mut s, n.as_str());
                s
            },
            ExprPat::BinaryExpr(b) => {
                let l = b.lhs.emit_latex_operand(b.op, false, config);
                let r = b.rhs.emit_latex_operand(b.op, true, config);
                latex_binary_text(b.op, l, r, config.frac_set())
            },
            ExprPat::UnaryExpr(u) => {
                let mut s = u.op.emit_pretty();
                let inner = if matches!(&*u.rhs.pat, ExprPat::BinaryExpr(_)) {
                    latex_paren_wrap(u.rhs.emit_latex(config))
                } else {
                    u.rhs.emit_latex(config)
                };
                append_string(&mut s, inner);
                s
            },
            ExprPat::Parend(x) => latex_paren_wrap(x.emit_latex(config)),
            ExprPat::Bracketed(x) => latex_bracket_wrap(x.emit_latex(config)),
        }
    }

    /// The LaTeX form of the pattern as an operand of a binary pattern with operator `parent`.
    fn emit_latex_operand(&self, parent: BinaryOperator, is_right: bool, config: EmitConfig) -> (r:
        String)
        ensures
            r@ == operand_latex_pat(*self, parent, is_right, wants_frac(config)),
        decreases self, 1int,
    {
        match &*self.pat {
            ExprPat::BinaryExpr(child) => {
                let wrap_it = child.op.precedence() < parent.precedence() || (is_right
                    && child.op.precedence() == parent.precedence() && !parent.is_associative());
                if wrap_it {
                    latex_paren_wrap(self.emit_latex(config))
                } else {
                    self.emit_latex(config)
                }
            },
            _ => self.emit_latex(config),
        }
    }

    /// The LaTeX form of the pattern in inline math mode: `$...$`.
    pub fn emit_wrapped_latex(&self, config: EmitConfig) -> (r: String)
        ensures
            r@ == seq!['$'] + latex_pat(*self, wants_frac(config)) + seq!['$'],
    {
        wrap('$', self.emit_latex(config), '$')
    }
}

impl RcExpr {
    /// The LaTeX form of the expression; for example `(1 + 1)` is `\left(1 + 1\right)`.
    pub fn emit_latex(&self, config: EmitConfig) -> (r: String)
        ensures
            r@ == latex_expr(*self, wants_frac(config)),
        decreases self, 0int,
    {
        match &*self.expr {
            Expr::Const(c) => c.to_string(),
            Expr::Var(n) => n.clone(),
            Expr::BinaryExpr(b) => {
                let l = b.lhs.emit_latex_operand(b.op, false, config);
                let r = b.rhs.emit_latex_operand(b.op, true, config);
                latex_binary_text(b.op, l, r, config.frac_set())
            },
            Expr::UnaryExpr(u) => {
                let mut s = u.op.emit_pretty();
                let inner = if matches!(&*u.rhs.expr, Expr::BinaryExpr(_)) {
                    latex_paren_wrap(u.rhs.emit_latex(config))
                } else {
                    u.rhs.emit_latex(config)
                };
                append_string(&mut s, inner);
                s
            },
            Expr::Parend(x) => latex_paren_wrap(x.emit_latex(config)),
            Expr::Bracketed(x) => latex_bracket_wrap(x.emit_latex(config)),
        }
    }

    /// The LaTeX form of the expression as an operand of a binary expression with operator
    /// `parent`.
    fn emit_latex_operand(&self, parent: BinaryOperator, is_right: bool, config: EmitConfig) -> (r:
        String)
        ensures
            r@ == operand_latex_expr(*self, parent, is_right, wants_frac(config)),
        decreases self, 1int,
    {
        match &*self.expr {
            Expr::BinaryExpr(child) => {
                let wrap_it = child.op.precedence() < parent.precedence() || (is_right
                    && child.op.precedence() == parent.precedence() && !parent.is_associative());
                if wrap_it {
                    latex_paren_wrap(self.emit_latex(config))
                } else {
                    self.emit_latex(config)
                }
            },
            _ => self.emit_latex(config),
        }
    }

    /// The LaTeX form of the expression in inline math mode: `$...$`.
    pub fn emit_wrapped_latex(&self, config: EmitConfig) -> (r: String)
        ensures
            r@ == seq!['$'] + latex_expr(*self, wants_frac(config)) + seq!['$'],
    {
        wrap('$', self.emit_latex(config), '$')
    }
}

/// The option bits of a configuration ask for assignments written `:=`.
pub open spec fn wants_define_assign(config: EmitConfig) -> bool {
    config.bits & 2u32 == 2u32
}

/// The pretty form of an assignment: `lhs = rhs`, or `lhs := rhs` when asked for.
pub open spec fn pretty_asgn(a: Assignment, define_assign: bool) -> Seq<char> {
    pretty_expr(a.lhs) + seq![' '] + (if define_assign {
        ":="@
    } else {
        "="@
    }) + seq![' '] + pretty_expr(a.rhs)
}

impl Assignment {
    /// The canonical form of the assignment, with `:=` when the configuration asks for it.
    pub fn emit_pretty(&self, config: EmitConfig) -> (r: String)
        ensures
            r@ == pretty_asgn(*self, wants_define_assign(config)),
    {
        let op = if config.bits & 2u32 == 2u32 {
            crate::text::text(":=")
        } else {
            crate::text::text("=")
        };
        spaced(self.lhs.emit_pretty(), op, self.rhs.emit_pretty())
    }

    /// The S-expression form of the assignment: `(= lhs rhs)`.
    pub fn emit_s_expression(&self) -> (r: String)
        ensures
            r@ == "(= "@ + pretty_expr(self.lhs) + seq![' '] + sexp_expr(self.rhs) + seq![')'],
    {
        let mut s = crate::text::text("(= ");
        append_string(&mut s, self.lhs.emit_pretty());
        s.push(' ');
        append_string(&mut s, self.rhs.emit_s_expression());
        s.push(')');
        s
    }

    /// The LaTeX form of the assignment: `lhs = rhs`.
    pub fn emit_latex(&self, config: EmitConfig) -> (r: String)
        ensures
            r@ == pretty_expr(self.lhs) + " = "@ + latex_expr(self.rhs, wants_frac(config)),
    {
        let mut s = self.lhs.emit_pretty();
        push_text(&mut s, " = ");
        append_string(&mut s, self.rhs.emit_latex(config));
        s
    }
}

impl Stmt {
    /// The canonical form of the statement.
    pub fn emit_pretty(&self, config: EmitConfig) -> (r: String)
        ensures
            r@ == match self.kind {
                StmtKind::Expr(e) => pretty_expr(e),
                StmtKind::Assignment(a) => pretty_asgn(a, wants_define_assign(config)),
            },
    {
        match &self.kind {
            StmtKind::Expr(e) => e.emit_pretty(),
            StmtKind::Assignment(a) => a.emit_pretty(config),
        }
    }

    /// The S-expression form of the statement.
    pub fn emit_s_expression(&self) -> (r: String)
        ensures
            r@ == match self.kind {
                StmtKind::Expr(e) => sexp_expr(e),
                StmtKind::Assignment(a) => "(= "@ + pretty_expr(a.lhs) + seq![' '] + sexp_expr(a.rhs)
                    + seq![')'],
            },
    {
        match &self.kind {
            StmtKind::Expr(e) => e.emit_s_expression(),
            StmtKind::Assignment(a) => a.emit_s_expression(),
        }
    }

    /// The LaTeX form of the statement.
    pub fn emit_latex(&self, config: EmitConfig) -> (r: String)
        ensures
            r@ == match self.kind {
                StmtKind::Expr(e) => latex_expr(e, wants_frac(config)),
                StmtKind::Assignment(a) => pretty_expr(a.lhs) + " = "@ + latex_expr(
                    a.rhs,
                    wants_frac(config),
                ),
            },
    {
        match &self.kind {
            StmtKind::Expr(e) => e.emit_latex(config),
            StmtKind::Assignment(a) => a.emit_latex(config),
        }
    }
}

/// The internal debug form of an expression: the `{:#?}` formatting of its derived `Debug`
/// impl. This form is not stable; nothing is stated of it.
#[verifier::external_body]
fn debug_text_expr(e: &RcExpr) -> String {
    format!("{:#?}", e)
}

/// The internal debug form of a pattern: the `{:#?}` formatting of its derived `Debug` impl.
/// This form is not stable; nothing is stated of it.
#[verifier::external_body]
fn debug_text_pat(p: &RcExprPat) -> String {
    format!("{:#?}", p)
}

/// The internal debug form of a statement: the `{:#?}` formatting of its derived `Debug` impl.
/// This form is not stable; nothing is stated of it.
#[verifier::external_body]
fn debug_text_stmt(s: &Stmt) -> String {
    format!("{:#?}", s)
}

impl RcExpr {
    /// Emits the expression in the given format; LaTeX is emitted in inline math mode.
    pub fn emit(&self, form: EmitFormat, config: EmitConfig) -> (r: String)
        ensures
            form == EmitFormat::Pretty ==> r@ == pretty_expr(*self),
            form == EmitFormat::SExpression ==> r@ == sexp_expr(*self),
            form == EmitFormat::Latex ==> r@ == seq!['$'] + latex_expr(*self, wants_frac(config))
                + seq!['$'],
    {
        match form {
            EmitFormat::Pretty => self.emit_pretty(),
            EmitFormat::SExpression => self.emit_s_expression(),
            EmitFormat::Latex => self.emit_wrapped_latex(config),
            EmitFormat::Debug => debug_text_expr(self),
        }
    }
}

impl RcExprPat {
    /// Emits the pattern in the given format; LaTeX is emitted in inline math mode.
    pub fn emit(&self, form: EmitFormat, config: EmitConfig) -> (r: String)
        ensures
            form == EmitFormat::Pretty ==> r@ == pretty_pat(*self),
            form == EmitFormat::SExpression ==> r@ == sexp_pat(*self),
            form == EmitFormat::Latex ==> r@ == seq!['$'] + latex_pat(*self, wants_frac(config))
                + seq!['$'],
    {
        match form {
            EmitFormat::Pretty => self.emit_pretty(),
            EmitFormat::SExpression => self.emit_s_expression(),
            EmitFormat::Latex => self.emit_wrapped_latex(config),
            EmitFormat::Debug => debug_text_pat(self),
        }
    }
}

impl Stmt {
    /// Emits the statement in the given format; LaTeX is emitted in inline math mode.
    pub fn emit(&self, form: EmitFormat, config: EmitConfig) -> (r: String)
        ensures
            form == EmitFormat::Pretty ==> r@ == match self.kind {
                StmtKind::Expr(e) => pretty_expr(e),
                StmtKind::Assignment(a) => pretty_asgn(a, wants_define_assign(config)),
            },
            form == EmitFormat::SExpression ==> r@ == match self.kind {
                StmtKind::Expr(e) => sexp_expr(e),
                StmtKind::Assignment(a) => "(= "@ + pretty_expr(a.lhs) + seq![' '] + sexp_expr(a.rhs)
                    + seq![')'],
            },
            form == EmitFormat::Latex ==> r@ == seq!['$'] + match self.kind {
                StmtKind::Expr(e) => latex_expr(e, wants_frac(config)),
                StmtKind::Assignment(a) => pretty_expr(a.lhs) + " = "@ + latex_expr(
                    a.rhs,
                    wants_frac(config),
                ),
            } + seq!['$'],
    {
        match form {
            EmitFormat::Pretty => self.emit_pretty(config),
            EmitFormat::SExpression => self.emit_s_expression(),
            EmitFormat::Latex => wrap('$', self.emit_latex(config), '$'),
            EmitFormat::Debug => debug_text_stmt(self),
        }
    }
}

/// `+` or `-`.
pub open spec fn is_additive(op: BinaryOperator) -> bool {
    op == BinaryOperator::Plus || op == BinaryOperator::Minus
}

/// `*`, `/` or `%`.
pub open spec fn is_multiplicative(op: BinaryOperator) -> bool {
    op == BinaryOperator::Mult || op == BinaryOperator::Div || op == BinaryOperator::Mod
}

/// An operand under `child` binds more loosely than its parent `parent`: a sum or difference
/// under a product, quotient, remainder or power, or a product, quotient or remainder under a
/// power.
pub open spec fn binds_looser(child: BinaryOperator, parent: BinaryOperator) -> bool {
    (is_additive(child) && !is_additive(parent)) || (is_multiplicative(child) && parent
        == BinaryOperator::Exp)
}

/// `child` binds like `parent`, and `parent` is not associative (`-`, `/`, `%`), so that a
/// right operand under `child` changes meaning without parentheses.
pub open spec fn same_level_not_associative(child: BinaryOperator, parent: BinaryOperator) -> bool {
    (parent == BinaryOperator::Minus && is_additive(child)) || ((parent == BinaryOperator::Div
        || parent == BinaryOperator::Mod) && is_multiplicative(child))
}

/// `s`, in parentheses when `wrap`.
pub open spec fn wrapped(s: Seq<char>, wrap: bool) -> Seq<char> {
    if wrap {
        parens(s)
    } else {
        s
    }
}

/// The operator at the root of `e`, for a binary expression.
pub open spec fn root_op(e: RcExpr) -> Option<BinaryOperator> {
    match *e.expr {
        Expr::BinaryExpr(b) => Some(b.op),
        _ => None,
    }
}

/// The operator at the root of `p`, for a binary pattern.
pub open spec fn root_op_pat(p: RcExprPat) -> Option<BinaryOperator> {
    match *p.pat {
        ExprPat::BinaryExpr(b) => Some(b.op),
        _ => None,
    }
}

/// Whether a left operand whose root operator is `child` is shown in parentheses under `op`.
pub open spec fn left_wraps(child: Option<BinaryOperator>, op: BinaryOperator) -> bool {
    match child {
        Some(c) => binds_looser(c, op),
        None => false,
    }
}

/// Whether a right operand whose root operator is `child` is shown in parentheses under `op`.
pub open spec fn right_wraps(child: Option<BinaryOperator>, op: BinaryOperator) -> bool {
    match child {
        Some(c) => binds_looser(c, op) || same_level_not_associative(c, op),
        None => false,
    }
}

/// The pretty text of a binary expression is its operands' texts around the spaced operator,
/// an operand in parentheses exactly when leaving them out would change how the text reads: it
/// binds more loosely, or it is the right operand of a non-associative operator at its own
/// level (`a / (b * c)`, `a - (b + c)`).
pub proof fn law_pretty_binary_parens(e: RcExpr, op: BinaryOperator, l: RcExpr, r: RcExpr)
    requires
        *e.expr == Expr::BinaryExpr(BinaryExpr { op, lhs: l, rhs: r }),
    ensures
        pretty_expr(e) == wrapped(pretty_expr(l), left_wraps(root_op(l), op)) + seq![' ']
            + binop_str(op) + seq![' '] + wrapped(pretty_expr(r), right_wraps(root_op(r), op)),
{
    assert(operand_expr(l, op, false) == wrapped(pretty_expr(l), left_wraps(root_op(l), op)));
    assert(operand_expr(r, op, true) == wrapped(pretty_expr(r), right_wraps(root_op(r), op)));
}

/// The pretty text of a binary pattern follows the same rules as that of an expression.
pub proof fn law_pretty_pat_binary_parens(
    p: RcExprPat,
    op: BinaryOperator,
    l: RcExprPat,
    r: RcExprPat,
)
    requires
        *p.pat == ExprPat::BinaryExpr(BinaryExpr { op, lhs: l, rhs: r }),
    ensures
        pretty_pat(p) == wrapped(pretty_pat(l), left_wraps(root_op_pat(l), op)) + seq![' ']
            + binop_str(op) + seq![' '] + wrapped(pretty_pat(r), right_wraps(root_op_pat(r), op)),
{
    assert(operand_pat(l, op, false) == wrapped(pretty_pat(l), left_wraps(root_op_pat(l), op)));
    assert(operand_pat(r, op, true) == wrapped(pretty_pat(r), right_wraps(root_op_pat(r), op)));
}


/// `s`, in LaTeX's stretching parentheses when `wrap`.
pub open spec fn latex_wrapped(s: Seq<char>, wrap: bool) -> Seq<char> {
    if wrap {
        latex_parens(s)
    } else {
        s
    }
}

/// The LaTeX text of a binary expression puts its operands in parentheses on the same rule as
/// the pretty text: exactly where it binds more loosely, or is the right operand of a
/// non-associative operator at its own level.
pub proof fn law_latex_binary_parens(e: RcExpr, op: BinaryOperator, l: RcExpr, r: RcExpr, frac: bool)
    requires
        *e.expr == Expr::BinaryExpr(BinaryExpr { op, lhs: l, rhs: r }),
    ensures
        latex_expr(e, frac) == latex_binary(
            op,
            latex_wrapped(latex_expr(l, frac), left_wraps(root_op(l), op)),
            latex_wrapped(latex_expr(r, frac), right_wraps(root_op(r), op)),
            frac,
        ),
{
    assert(operand_latex_expr(l, op, false, frac) == latex_wrapped(
        latex_expr(l, frac),
        left_wraps(root_op(l), op),
    ));
    assert(operand_latex_expr(r, op, true, frac) == latex_wrapped(
        latex_expr(r, frac),
        right_wraps(root_op(r), op),
    ));
}

} // verus!
