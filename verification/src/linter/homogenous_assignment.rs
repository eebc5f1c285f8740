//! The homogenous assignment lint: mixed use of the assignment operators `=` and `:=`.
//!
//! The two operators differ in syntax (and in meaning in canonical mathematical notation) but
//! mean the same in slide, so a program should use only one of them.
use crate::common::Span;
use crate::diagnostics::{Diagnostic, DiagnosticKind, DiagnosticRecord};
use crate::grammar::statement::{AssignmentOp, StmtKind, Stmt, StmtList};
use crate::linter::unary_series::span_text;
use crate::text::{push_text, text};
use vstd::prelude::*;

verus! {

/// The span of an assignment operator.
pub open spec fn op_span(op: AssignmentOp) -> Span {
    match op {
        AssignmentOp::Equal(s) => s,
        AssignmentOp::AssignDefine(s) => s,
    }
}

/// The assignment operators of a list of statements, in order.
pub open spec fn asgn_ops(stmts: Seq<Stmt>) -> Seq<AssignmentOp>
    decreases stmts.len(),
{
    if stmts.len() == 0 {
        Seq::empty()
    } else {
        let r = asgn_ops(stmts.drop_last());
        match stmts.last().kind {
            StmtKind::Assignment(a) => r.push(a.asgn_op),
            StmtKind::Expr(_) => r,
        }
    }
}

/// The operators of `ops` that are not of the same kind as `first`, in order.
pub open spec fn mixed_ops(ops: Seq<AssignmentOp>, first: AssignmentOp) -> Seq<AssignmentOp>
    decreases ops.len(),
{
    if ops.len() == 0 {
        Seq::empty()
    } else {
        let r = mixed_ops(ops.drop_last(), first);
        if (ops.last() is Equal) != (first is Equal) {
            r.push(ops.last())
        } else {
            r
        }
    }
}

/// The operators that differ in kind from the first assignment operator of the program.
pub open spec fn mixed_sites(stmts: Seq<Stmt>) -> Seq<AssignmentOp> {
    let ops = asgn_ops(stmts);
    if ops.len() == 0 {
        Seq::empty()
    } else {
        mixed_ops(ops, ops[0])
    }
}

/// `d` warns of `actual`, an operator of the other kind than `expected`, the first one used.
pub open spec fn is_mixed_asgn_diag(
    d: Diagnostic,
    expected: AssignmentOp,
    actual: AssignmentOp,
    src: Seq<char>,
) -> bool {
    let exp_text = span_text(op_span(expected), src);
    &&& d.kind == DiagnosticKind::Warning
    &&& d.code@ == "L0004"@
    &&& d.span == op_span(actual)
    &&& d.title@ == "Mixed use of assignment operators"@
    &&& d.msg is Some
    &&& d.msg->0@ == "expected \""@ + exp_text + "\" here"@
    &&& d.associated_diagnostics@.len() == 1
    &&& d.associated_diagnostics@[0].kind == DiagnosticKind::Note
    &&& d.associated_diagnostics@[0].span == op_span(expected)
    &&& d.associated_diagnostics@[0].msg@ == "first use of \""@ + exp_text
        + "\" as an assignment operator here"@
    &&& d.unspanned_associated_diagnostics@.len() == 0
    &&& d.autofix is None
}

/// The operators of two lists of statements are those of each, in order.
proof fn lemma_asgn_ops_concat(a: Seq<Stmt>, b: Seq<Stmt>)
    ensures
        asgn_ops(a + b) == asgn_ops(a) + asgn_ops(b),
    decreases b.len(),
{
    if b.len() == 0 {
        assert(a + b =~= a);
        assert(asgn_ops(a) + asgn_ops(b) =~= asgn_ops(a));
    } else {
        assert((a + b).drop_last() =~= a + b.drop_last());
        assert((a + b).last() == b.last());
        lemma_asgn_ops_concat(a, b.drop_last());
        match b.last().kind {
            StmtKind::Assignment(x) => {
                assert(asgn_ops(a) + asgn_ops(b.drop_last()).push(x.asgn_op) =~= (asgn_ops(a)
                    + asgn_ops(b.drop_last())).push(x.asgn_op));
            },
            StmtKind::Expr(_) => {},
        }
    }
}

/// The mixed operators of two sequences are those of each, in order.
proof fn lemma_mixed_ops_concat(a: Seq<AssignmentOp>, b: Seq<AssignmentOp>, f: AssignmentOp)
    ensures
        mixed_ops(a + b, f) == mixed_ops(a, f) + mixed_ops(b, f),
    decreases b.len(),
{
    if b.len() == 0 {
        assert(a + b =~= a);
        assert(mixed_ops(a, f) + mixed_ops(b, f) =~= mixed_ops(a, f));
    } else {
        assert((a + b).drop_last() =~= a + b.drop_last());
        assert((a + b).last() == b.last());
        lemma_mixed_ops_concat(a, b.drop_last(), f);
        assert(mixed_ops(a, f) + mixed_ops(b.drop_last(), f).push(b.last()) =~= (mixed_ops(a, f)
            + mixed_ops(b.drop_last(), f)).push(b.last()));
    }
}

/// What a prefix of the program shows of its first operator and mixed operators holds of the
/// whole program.
proof fn lemma_prefix(stmts: Seq<Stmt>, j: int)
    requires
        0 <= j <= stmts.len(),
    ensures
        asgn_ops(stmts.take(j)).len() > 0 ==> asgn_ops(stmts).len() > 0 && asgn_ops(
            stmts.take(j),
        )[0] == asgn_ops(stmts)[0],
        mixed_sites(stmts.take(j)).len() <= mixed_sites(stmts).len(),
{
    assert(stmts =~= stmts.take(j) + stmts.skip(j));
    lemma_asgn_ops_concat(stmts.take(j), stmts.skip(j));
    let p = asgn_ops(stmts.take(j));
    let all = asgn_ops(stmts);
    if p.len() > 0 {
        assert(all[0] == p[0]);
        lemma_mixed_ops_concat(p, asgn_ops(stmts.skip(j)), p[0]);
    }
}

/// Lints a statement list for mixed use of assignment operators.
pub struct HomogenousAssignmentLinter {
    /// The first assignment operator seen, which every later one is expected to match in kind.
    asgn_op: Option<AssignmentOp>,
    diagnostics: Vec<Diagnostic>,
}

impl HomogenousAssignmentLinter {
    /// The diagnostics reported so far.
    pub closed spec fn reported(&self) -> Seq<Diagnostic> {
        self.diagnostics@
    }

    /// No assignment operator has been seen yet.
    pub closed spec fn no_operator_seen(&self) -> bool {
        self.asgn_op is None
    }

    /// A linter that has reported nothing yet.
    pub fn new() -> (r: Self)
        ensures
            r.reported() == Seq::<Diagnostic>::empty(),
            r.no_operator_seen(),
    {
        HomogenousAssignmentLinter { asgn_op: None, diagnostics: Vec::new() }
    }

    /// Lints a statement list: one warning for each assignment operator of another kind than the
    /// first one, in order.
    pub fn lint(stmt_list: &StmtList, source: &str) -> (r: Vec<Diagnostic>)
        requires
            mixed_sites(stmt_list.stmts()).len() > 0 ==> {
                let sp = op_span(asgn_ops(stmt_list.stmts())[0]);
                sp.lo <= sp.hi && sp.lo < source@.len()
            },
        ensures
            r@.len() == mixed_sites(stmt_list.stmts()).len(),
            forall|i: int|
                0 <= i < r@.len() ==> is_mixed_asgn_diag(
                    #[trigger] r@[i],
                    asgn_ops(stmt_list.stmts())[0],
                    mixed_sites(stmt_list.stmts())[i],
                    source@,
                ),
    {
        let ghost stmts = stmt_list.stmts();
        let mut linter = Self::new();
        let mut i: usize = 0;
        assert(stmts.take(0) =~= Seq::<Stmt>::empty());
        while i < stmt_list.len()
            invariant
                i <= stmts.len(),
                stmts == stmt_list.stmts(),
                mixed_sites(stmts).len() > 0 ==> {
                    let sp = op_span(asgn_ops(stmts)[0]);
                    sp.lo <= sp.hi && sp.lo < source@.len()
                },
                linter.asgn_op == (if asgn_ops(stmts.take(i as int)).len() == 0 {
                    None
                } else {
                    Some(asgn_ops(stmts.take(i as int))[0])
                }),
                linter.diagnostics@.len() == mixed_sites(stmts.take(i as int)).len(),
                forall|m: int|
                    0 <= m < linter.diagnostics@.len() ==> is_mixed_asgn_diag(
                        #[trigger] linter.diagnostics@[m],
                        asgn_ops(stmts)[0],
                        mixed_sites(stmts.take(i as int))[m],
                        source@,
                    ),
            decreases stmts.len() - i,
        {
            let ghost pre = stmts.take(i as int);
            let ghost post = stmts.take(i + 1);
            assert(post.drop_last() =~= pre);
            proof {
                lemma_prefix(stmts, i + 1);
            }
            let stmt = stmt_list.get(i);
            match &stmt.kind {
                StmtKind::Assignment(a) => {
                    let actual = a.asgn_op;
                    assert(asgn_ops(post) == asgn_ops(pre).push(actual));
                    match linter.asgn_op {
                        None => {
                            linter.asgn_op = Some(actual);
                            assert(asgn_ops(pre) =~= Seq::<AssignmentOp>::empty());
                            assert(asgn_ops(post) =~= seq![actual]);
                            assert(seq![actual].drop_last() =~= Seq::<AssignmentOp>::empty());
                            assert(mixed_ops(seq![actual], actual) == mixed_ops(
                                Seq::<AssignmentOp>::empty(),
                                actual,
                            ));
                        },
                        Some(expected) => {
                            let ghost ops = asgn_ops(post);
                            assert(ops.drop_last() =~= asgn_ops(pre));
                            assert(ops[0] == expected);
                            let mixed = match (expected, actual) {
                                (AssignmentOp::Equal(_), AssignmentOp::AssignDefine(_)) => true,
                                (AssignmentOp::AssignDefine(_), AssignmentOp::Equal(_)) => true,
                                _ => false,
                            };
                            if mixed {
                                assert(mixed_sites(post) == mixed_sites(pre).push(actual));
                                assert(mixed_sites(post).len() > 0);
                                assert(mixed_sites(stmts).len() > 0);
                                let exp_span = match expected {
                                    AssignmentOp::Equal(s) => s,
                                    AssignmentOp::AssignDefine(s) => s,
                                };
                                let act_span = match actual {
                                    AssignmentOp::Equal(s) => s,
                                    AssignmentOp::AssignDefine(s) => s,
                                };
                                let exp_text = exp_span.over(source);
                                let mut msg = text("expected \"");
                                push_text(&mut msg, exp_text);
                                push_text(&mut msg, "\" here");
                                let mut note = text("first use of \"");
                                push_text(&mut note, exp_text);
                                push_text(&mut note, "\" as an assignment operator here");
                                let d = Diagnostic::span_warn(
                                    act_span,
                                    text("Mixed use of assignment operators"),
                                    HomogenousAssignmentLinter::code(),
                                    Some(msg),
                                ).with_spanned_note(exp_span, note);
                                let ghost d0 = linter.diagnostics@;
                                linter.diagnostics.push(d);
                                assert(linter.diagnostics@[d0.len() as int] == d);
                            } else {
                                assert(mixed_sites(post) == mixed_sites(pre));
                            }
                        },
                    }
                },
                StmtKind::Expr(_) => {
                    assert(asgn_ops(post) == asgn_ops(pre));
                },
            }
            i = i + 1;
        }
        assert(stmts.take(i as int) =~= stmts);
        linter.diagnostics
    }
}

impl DiagnosticRecord for HomogenousAssignmentLinter {
    fn code() -> (r: &'static str)
        ensures
            r@ == "L0004"@,
    {
        "L0004"
    }

    fn explanation() -> (r: &'static str)
        ensures
            r@ == "The homogenous assignment lint detects and warns on mixed use of assignment operators.\n\nFor example, the following program uses both the equality and assign-define operators to\nassign variables:\n\n```text\na = 1\nb := 1\n```\n\nThis can be misleading or confusing, as these two operators are syntactically different (and\nsemantically different in canonical mathematics notation), but are treated the same in slide.\n\nFor this reason, it is suggested that exclusively `=` or `:=` are used for assignments in\nslide programs.\n"@,
    {
        "The homogenous assignment lint detects and warns on mixed use of assignment operators.\n\nFor example, the following program uses both the equality and assign-define operators to\nassign variables:\n\n```text\na = 1\nb := 1\n```\n\nThis can be misleading or confusing, as these two operators are syntactically different (and\nsemantically different in canonical mathematics notation), but are treated the same in slide.\n\nFor this reason, it is suggested that exclusively `=` or `:=` are used for assignments in\nslide programs.\n"
    }
}

} // verus!
