//! Expressions and statements of slide programs.
use crate::common::Span;
use crate::grammar::expression_pattern::copy_string;
use crate::grammar::{BinaryExpr, Rational, UnaryExpr};
use vstd::prelude::*;

verus! {

/// An expression.
#[derive(Debug)]
pub enum Expr {
    /// A constant.
    Const(Rational),
    /// A variable.
    Var(String),
    /// A binary expression.
    BinaryExpr(BinaryExpr<RcExpr>),
    /// A unary expression.
    UnaryExpr(UnaryExpr<RcExpr>),
    /// An expression wrapped in parentheses.
    Parend(RcExpr),
    /// An expression wrapped in brackets.
    Bracketed(RcExpr),
}

/// An expression together with the span of source text it was read from.
#[derive(Debug)]
pub struct RcExpr {
    /// The expression.
    pub expr: Box<Expr>,
    /// Where the expression stands in its source.
    pub span: Span,
}

/// Two expressions are the same tree, whatever their spans.
pub open spec fn same_expr(a: RcExpr, b: RcExpr) -> bool
    decreases a,
{
    match (*a.expr, *b.expr) {
        (Expr::Const(x), Expr::Const(y)) => x == y,
        (Expr::Var(x), Expr::Var(y)) => x@ == y@,
        (Expr::BinaryExpr(x), Expr::BinaryExpr(y)) => x.op == y.op && same_expr(x.lhs, y.lhs)
            && same_expr(x.rhs, y.rhs),
        (Expr::UnaryExpr(x), Expr::UnaryExpr(y)) => x.op == y.op && same_expr(x.rhs, y.rhs),
        (Expr::Parend(x), Expr::Parend(y)) => same_expr(x, y),
        (Expr::Bracketed(x), Expr::Bracketed(y)) => same_expr(x, y),
        _ => false,
    }
}

/// Two expressions are the same tree with the same span at every node.
pub open spec fn same_expr_spanned(a: RcExpr, b: RcExpr) -> bool
    decreases a,
{
    a.span == b.span && match (*a.expr, *b.expr) {
        (Expr::Const(x), Expr::Const(y)) => x == y,
        (Expr::Var(x), Expr::Var(y)) => x@ == y@,
        (Expr::BinaryExpr(x), Expr::BinaryExpr(y)) => x.op == y.op && same_expr_spanned(
            x.lhs,
            y.lhs,
        ) && same_expr_spanned(x.rhs, y.rhs),
        (Expr::UnaryExpr(x), Expr::UnaryExpr(y)) => x.op == y.op && same_expr_spanned(
            x.rhs,
            y.rhs,
        ),
        (Expr::Parend(x), Expr::Parend(y)) => same_expr_spanned(x, y),
        (Expr::Bracketed(x), Expr::Bracketed(y)) => same_expr_spanned(x, y),
        _ => false,
    }
}

/// `same_expr` is reflexive.
pub proof fn lemma_same_expr_refl(a: RcExpr)
    ensures
        same_expr(a, a),
    decreases a,
{
    match *a.expr {
        Expr::BinaryExpr(x) => {
            lemma_same_expr_refl(x.lhs);
            lemma_same_expr_refl(x.rhs);
        },
        Expr::UnaryExpr(x) => {
            lemma_same_expr_refl(x.rhs);
        },
        Expr::Parend(x) => {
            lemma_same_expr_refl(x);
        },
        Expr::Bracketed(x) => {
            lemma_same_expr_refl(x);
        },
        _ => {},
    }
}

/// `same_expr` is symmetric.
pub proof fn lemma_same_expr_sym(a: RcExpr, b: RcExpr)
    ensures
        same_expr(a, b) ==> same_expr(b, a),
    decreases a,
{
    match (*a.expr, *b.expr) {
        (Expr::BinaryExpr(x), Expr::BinaryExpr(y)) => {
            lemma_same_expr_sym(x.lhs, y.lhs);
            lemma_same_expr_sym(x.rhs, y.rhs);
        },
        (Expr::UnaryExpr(x), Expr::UnaryExpr(y)) => {
            lemma_same_expr_sym(x.rhs, y.rhs);
        },
        (Expr::Parend(x), Expr::Parend(y)) => {
            lemma_same_expr_sym(x, y);
        },
        (Expr::Bracketed(x), Expr::Bracketed(y)) => {
            lemma_same_expr_sym(x, y);
        },
        _ => {},
    }
}

/// `same_expr` is transitive.
pub proof fn lemma_same_expr_trans(a: RcExpr, b: RcExpr, c: RcExpr)
    ensures
        same_expr(a, b) && same_expr(b, c) ==> same_expr(a, c),
    decreases a,
{
    match (*a.expr, *b.expr, *c.expr) {
        (Expr::BinaryExpr(x), Expr::BinaryExpr(y), Expr::BinaryExpr(z)) => {
            lemma_same_expr_trans(x.lhs, y.lhs, z.lhs);
            lemma_same_expr_trans(x.rhs, y.rhs, z.rhs);
        },
        (Expr::UnaryExpr(x), Expr::UnaryExpr(y), Expr::UnaryExpr(z)) => {
            lemma_same_expr_trans(x.rhs, y.rhs, z.rhs);
        },
        (Expr::Parend(x), Expr::Parend(y), Expr::Parend(z)) => {
            lemma_same_expr_trans(x, y, z);
        },
        (Expr::Bracketed(x), Expr::Bracketed(y), Expr::Bracketed(z)) => {
            lemma_same_expr_trans(x, y, z);
        },
        _ => {},
    }
}

/// The number of nodes of an expression tree.
pub open spec fn spec_complexity(e: RcExpr) -> int
    decreases e,
{
    1 + match *e.expr {
        Expr::Const(_) => 0,
        Expr::Var(_) => 0,
        Expr::BinaryExpr(b) => spec_complexity(b.lhs) + spec_complexity(b.rhs),
        Expr::UnaryExpr(u) => spec_complexity(u.rhs),
        Expr::Parend(x) => spec_complexity(x),
        Expr::Bracketed(x) => spec_complexity(x),
    }
}

impl RcExpr {
    /// Wraps an expression with its span.
    pub fn new(expr: Expr, span: Span) -> (r: RcExpr)
        ensures
            *r.expr == expr,
            r.span == span,
    {
        RcExpr { expr: Box::new(expr), span }
    }

    /// A copy of the expression, spans included.
    pub fn copy(&self) -> (r: RcExpr)
        ensures
            same_expr(r, *self),
            same_expr_spanned(r, *self),
            r.span == self.span,
        decreases self,
    {
        let e = match &*self.expr {
            Expr::Const(c) => Expr::Const(*c),
            Expr::Var(s) => Expr::Var(copy_string(s)),
            Expr::BinaryExpr(b) => Expr::BinaryExpr(
                BinaryExpr { op: b.op, lhs: b.lhs.copy(), rhs: b.rhs.copy() },
            ),
            Expr::UnaryExpr(u) => Expr::UnaryExpr(UnaryExpr { op: u.op, rhs: u.rhs.copy() }),
            Expr::Parend(x) => Expr::Parend(x.copy()),
            Expr::Bracketed(x) => Expr::Bracketed(x.copy()),
        };
        RcExpr::new(e, self.span)
    }

    /// Whether two expressions are the same tree, whatever their spans.
    pub fn same(&self, other: &RcExpr) -> (r: bool)
        ensures
            r == same_expr(*self, *other),
        decreases self,
    {
        match (&*self.expr, &*other.expr) {
            (Expr::Const(x), Expr::Const(y)) => x.num == y.num && x.den == y.den,
            (Expr::Var(x), Expr::Var(y)) => x.eq(y),
            (Expr::BinaryExpr(x), Expr::BinaryExpr(y)) => x.op == y.op && x.lhs.same(&y.lhs)
                && x.rhs.same(&y.rhs),
            (Expr::UnaryExpr(x), Expr::UnaryExpr(y)) => x.op == y.op && x.rhs.same(&y.rhs),
            (Expr::Parend(x), Expr::Parend(y)) => x.same(y),
            (Expr::Bracketed(x), Expr::Bracketed(y)) => x.same(y),
            _ => false,
        }
    }

    /// The number of nodes of the expression tree.
    pub fn complexity(&self) -> (r: u8)
        requires
            spec_complexity(*self) <= u8::MAX,
        ensures
            r == spec_complexity(*self),
        decreases self,
    {
        proof {
            lemma_complexity_pos(*self);
        }
        1 + match &*self.expr {
            Expr::Const(_) => 0,
            Expr::Var(_) => 0,
            Expr::BinaryExpr(b) => {
                proof {
                    lemma_complexity_pos(b.lhs);
                    lemma_complexity_pos(b.rhs);
                }
                b.lhs.complexity() + b.rhs.complexity()
            },
            Expr::UnaryExpr(u) => u.rhs.complexity(),
            Expr::Parend(x) => x.complexity(),
            Expr::Bracketed(x) => x.complexity(),
        }
    }

    /// Gets the constant value stored in this expression, if any.
    pub fn get_const(&self) -> (r: Option<Rational>)
        ensures
            r == (match *self.expr {
                Expr::Const(c) => Some(c),
                _ => None,
            }),
    {
        match &*self.expr {
            Expr::Const(c) => Some(*c),
            _ => None,
        }
    }

    /// Gets the variable name stored in this expression, if any.
    pub fn get_var(&self) -> (r: Option<String>)
        ensures
            (r is Some) == (*self.expr is Var),
            r matches Some(v) ==> *self.expr == Expr::Var(v),
    {
        match &*self.expr {
            Expr::Var(v) => Some(v.clone()),
            _ => None,
        }
    }

    /// Returns `true` iff the expression is a variable.
    pub fn is_var(&self) -> (r: bool)
        ensures
            r == (*self.expr is Var),
    {
        matches!(&*self.expr, Expr::Var(_))
    }
}

/// Every expression tree has at least one node.
pub proof fn lemma_complexity_pos(e: RcExpr)
    ensures
        spec_complexity(e) >= 1,
    decreases e,
{
    match *e.expr {
        Expr::BinaryExpr(b) => {
            lemma_complexity_pos(b.lhs);
            lemma_complexity_pos(b.rhs);
        },
        Expr::UnaryExpr(u) => {
            lemma_complexity_pos(u.rhs);
        },
        Expr::Parend(x) => {
            lemma_complexity_pos(x);
        },
        Expr::Bracketed(x) => {
            lemma_complexity_pos(x);
        },
        _ => {},
    }
}

/// The kind of a statement.
#[derive(Debug)]
pub enum StmtKind {
    /// An expression statement is a statement that consists solely of an expression. For example,
    /// the slide program `1 + 1` contains one statement, that statement also being an expression.
    Expr(RcExpr),
    /// An assignment binds some value to a variable. For example the statement `x = 1 + 1` binds
    /// the expression "1 + 1" to "x".
    Assignment(Assignment),
}

/// A statement in a slide program.
#[derive(Debug)]
pub struct Stmt {
    /// The [kind](StmtKind) of the statement.
    pub kind: StmtKind,
    /// Vertical whitespace present before the statement.
    pub vw: usize,
}

/// An assignment operator.
#[derive(Clone, Copy, Debug)]
pub enum AssignmentOp {
    /// =
    Equal(Span),
    /// :=
    AssignDefine(Span),
}

/// An assignment.
#[derive(Debug)]
pub struct Assignment {
    /// Left hand side of the assignment.
    pub lhs: RcExpr,
    /// The assignment operator.
    pub asgn_op: AssignmentOp,
    /// Right hand side of the assignment.
    pub rhs: RcExpr,
    /// Span of the entire assignment.
    pub span: Span,
}

/// A list of statements in a slide program.
#[derive(Debug)]
pub struct StmtList {
    /// The list of statements.
    list: Vec<Stmt>,
}

impl StmtList {
    /// The statements of the list.
    pub closed spec fn stmts(&self) -> Seq<Stmt> {
        self.list@
    }

    /// Creates a statement list.
    pub fn new(list: Vec<Stmt>) -> (r: Self)
        ensures
            r.stmts() == list@,
    {
        Self { list }
    }

    /// The number of statements.
    pub fn len(&self) -> (r: usize)
        ensures
            r == self.stmts().len(),
    {
        self.list.len()
    }

    /// The statement at `i`.
    pub fn get(&self, i: usize) -> (r: &Stmt)
        requires
            i < self.stmts().len(),
        ensures
            *r == self.stmts()[i as int],
    {
        &self.list[i]
    }

    /// The statements, in order.
    pub fn into_vec(self) -> (r: Vec<Stmt>)
        ensures
            r@ == self.stmts(),
    {
        self.list
    }
}

impl Stmt {
    /// Creates a new `Stmt`.
    pub fn new(kind: StmtKind, vw: usize) -> (r: Self)
        ensures
            r.kind == kind,
            r.vw == vw,
    {
        Self { kind, vw }
    }

    /// Update `self` with a fresh statement [kind](StmtKind), given functions for how a statement
    /// should be generated.
    pub fn update_with<F, G>(self, expr_update: F, asgn_update: G) -> (r: Self) where
        F: FnOnce(RcExpr) -> RcExpr,
        G: FnOnce(Assignment) -> Assignment,

        requires
            self.kind matches StmtKind::Expr(e) ==> call_requires(expr_update, (e,)),
            self.kind matches StmtKind::Assignment(a) ==> call_requires(asgn_update, (a,)),
        ensures
            r.vw == self.vw,
            self.kind matches StmtKind::Expr(e) ==> (r.kind matches StmtKind::Expr(e2)
                && call_ensures(expr_update, (e,), e2)),
            self.kind matches StmtKind::Assignment(a) ==> (r.kind matches StmtKind::Assignment(a2)
                && call_ensures(asgn_update, (a,), a2)),
    {
        let kind = match self.kind {
            StmtKind::Expr(expr) => StmtKind::Expr(expr_update(expr)),
            StmtKind::Assignment(asgn) => StmtKind::Assignment(asgn_update(asgn)),
        };
        Self { kind, vw: self.vw }
    }

    /// Retrieve the number of vertical whitespace lines above this statement.
    pub fn vw(&self) -> (r: usize)
        ensures
            r == self.vw,
    {
        self.vw
    }

    /// Gets the span of the statement.
    pub fn span(&self) -> (r: &Span)
        ensures
            *r == (match self.kind {
                StmtKind::Expr(e) => e.span,
                StmtKind::Assignment(a) => a.span,
            }),
    {
        match &self.kind {
            StmtKind::Expr(e) => &e.span,
            StmtKind::Assignment(a) => &a.span,
        }
    }
}

impl AssignmentOp {
    /// The span of the operator.
    pub fn span(&self) -> (r: &Span)
        ensures
            *r == (match *self {
                AssignmentOp::Equal(s) => s,
                AssignmentOp::AssignDefine(s) => s,
            }),
    {
        match self {
            AssignmentOp::Equal(span) => span,
            AssignmentOp::AssignDefine(span) => span,
        }
    }
}

impl Assignment {
    /// Redefines `self` with a definition-evaluating function `eval`.
    pub fn redefine_with<F>(self, eval: F) -> (r: Self) where F: FnOnce(RcExpr) -> RcExpr
        requires
            call_requires(eval, (self.rhs,)),
        ensures
            call_ensures(eval, (self.rhs,), r.rhs),
            r.lhs == self.lhs,
            r.asgn_op == self.asgn_op,
            r.span == self.span,
    {
        let Assignment { lhs, asgn_op, rhs, span } = self;
        Assignment { lhs, asgn_op, rhs: eval(rhs), span }
    }
}

} // verus!
