//! GR010 positive-branch-conditions: an `if` with a plain `else` states its condition
//! positively.
use vstd::prelude::*;
use crate::rules::diagnostic_views;
use crate::rules::lemma_concat_keeps;
use crate::rules::Diagnostic;
use crate::rules::DiagnosticView;
use crate::syntax::children;
use crate::syntax::children_exec;
use crate::syntax::expr_range;
use crate::syntax::expr_range_exec;
use crate::syntax::lemma_children_decrease;
use crate::syntax::CmpOp;
use crate::syntax::Expr;
use crate::syntax::Stmt;
use crate::syntax::TextRange;
use crate::syntax::UnaryOp;
use crate::text::push_str;

verus! {

/// The outermost operation of the test negates: a `not`, or a comparison with a single
/// `is not`, `!=` or `not in` operator.
pub open spec fn is_negated(test: Expr) -> bool {
    match test {
        Expr::UnaryOp { op, .. } => op == UnaryOp::Not,
        Expr::Compare { ops, .. } => ops@.len() == 1 && (ops@[0] == CmpOp::IsNot || ops@[0]
            == CmpOp::NotEq || ops@[0] == CmpOp::NotIn),
        _ => false,
    }
}

pub fn is_negated_exec(test: &Expr) -> (r: bool)
    ensures
        r == is_negated(*test),
{
    match test {
        Expr::UnaryOp { op, .. } => *op == UnaryOp::Not,
        Expr::Compare { ops, .. } => ops.len() == 1 && (ops[0] == CmpOp::IsNot || ops[0]
            == CmpOp::NotEq || ops[0] == CmpOp::NotIn),
        _ => false,
    }
}

pub open spec fn negated_message() -> Seq<char> {
    "Negated `if` condition with an `else`; test the positive form and swap the branches"@
}

/// The finding on an `if` whose only clause is a plain `else` and whose test is negated,
/// spanning from `if` to the end of its test.
pub open spec fn own_negation(s: Stmt) -> Seq<DiagnosticView> {
    match s {
        Stmt::If { test, clauses, range, .. } => if clauses@.len() == 1 && clauses@[0].test is None
            && is_negated(test) {
            seq![
                DiagnosticView {
                    message: negated_message(),
                    range: TextRange { start: range.start, end: expr_range(test).end },
                    noqa_offset: Some(range.start),
                },
            ]
        } else {
            seq![]
        },
        _ => seq![],
    }
}

pub open spec fn negations_stmt(s: Stmt) -> Seq<DiagnosticView>
    decreases s, 1int, 0int,
{
    own_negation(s) + negations_children(s, children(s).len() as int)
}

pub open spec fn negations_children(s: Stmt, j: int) -> Seq<DiagnosticView>
    decreases s, 0int, j,
{
    if j <= 0 || j > children(s).len() {
        seq![]
    } else {
        proof {
            lemma_children_decrease(s, j - 1);
        }
        negations_children(s, j - 1) + negations_stmt(children(s)[j - 1])
    }
}

pub open spec fn negations_suite(stmts: Seq<Stmt>) -> Seq<DiagnosticView>
    decreases stmts.len(),
{
    if stmts.len() == 0 {
        seq![]
    } else {
        negations_suite(stmts.drop_last()) + negations_stmt(stmts.last())
    }
}

/// GR010 over a module: every such `if`, at any depth, in source order.
pub open spec fn positive_branch_conditions(module: Seq<Stmt>) -> Seq<DiagnosticView> {
    negations_suite(module)
}

fn check_stmt(s: &Stmt, out: &mut Vec<Diagnostic>)
    ensures
        diagnostic_views(final(out)@) == diagnostic_views(old(out)@) + negations_stmt(*s),
    decreases s,
{
    let ghost start = diagnostic_views(out@);
    match s {
        Stmt::If { test, clauses, range, .. } => {
            if clauses.len() == 1 && clauses[0].test.is_none() && is_negated_exec(test) {
                let mut message: Vec<char> = Vec::new();
                push_str(
                    &mut message,
                    "Negated `if` condition with an `else`; test the positive form and swap the branches",
                );
                let end = expr_range_exec(test).end;
                out.push(
                    Diagnostic {
                        message,
                        range: TextRange { start: range.start, end },
                        noqa_offset: Some(range.start),
                    },
                );
            }
        },
        _ => {},
    }
    assert(diagnostic_views(out@) =~= start + own_negation(*s));
    let ghost middle = diagnostic_views(out@);
    let kids = children_exec(s);
    let mut j: usize = 0;
    while j < kids.len()
        invariant
            0 <= j <= kids@.len() == children(*s).len(),
            forall|m: int| 0 <= m < kids@.len() ==> *(#[trigger] kids@[m]) == children(*s)[m],
            diagnostic_views(out@) == middle + negations_children(*s, j as int),
        decreases kids@.len() - j,
    {
        proof {
            lemma_children_decrease(*s, j as int);
        }
        check_stmt(kids[j], out);
        j = j + 1;
    }
}

/// GR010 over a module; see [`positive_branch_conditions`].
pub fn check_positive_branch_conditions(module: &Vec<Stmt>) -> (diagnostics: Vec<Diagnostic>)
    ensures
        diagnostic_views(diagnostics@) == positive_branch_conditions(module@),
{
    let mut diagnostics: Vec<Diagnostic> = Vec::new();
    let mut i: usize = 0;
    while i < module.len()
        invariant
            0 <= i <= module@.len(),
            diagnostic_views(diagnostics@) == negations_suite(module@.take(i as int)),
        decreases module@.len() - i,
    {
        check_stmt(&module[i], &mut diagnostics);
        assert(module@.take(i + 1).drop_last() =~= module@.take(i as int));
        i = i + 1;
    }
    assert(module@.take(module@.len() as int) =~= module@);
    diagnostics
}

proof fn lemma_suite_keeps(stmts: Seq<Stmt>, i: int, d: DiagnosticView)
    requires
        0 <= i < stmts.len(),
        negations_stmt(stmts[i]).contains(d),
    ensures
        negations_suite(stmts).contains(d),
    decreases stmts.len(),
{
    let rest = stmts.drop_last();
    if i < stmts.len() - 1 {
        assert(rest[i] == stmts[i]);
        lemma_suite_keeps(rest, i, d);
    }
    lemma_concat_keeps(negations_suite(rest), negations_stmt(stmts.last()), d);
}

/// An `if` of the module whose only clause is a plain `else` and whose test is a `not`, or
/// compares with the single operator `is not`, `!=` or `not in`, is reported, from `if` to
/// the end of its test.
pub proof fn law_negated_comparison_is_reported(module: Seq<Stmt>, i: int, op: CmpOp)
    requires
        0 <= i < module.len(),
        op == CmpOp::IsNot || op == CmpOp::NotEq || op == CmpOp::NotIn,
        module[i] matches Stmt::If { test, clauses, .. } && clauses@.len() == 1
            && clauses@[0].test is None && ((test matches Expr::Compare { ops, .. } && ops@
            == seq![op]) || (test matches Expr::UnaryOp { op: unary, .. } && unary
            == UnaryOp::Not)),
    ensures
        match module[i] {
            Stmt::If { test, range, .. } => positive_branch_conditions(module).contains(
                DiagnosticView {
                    message: "Negated `if` condition with an `else`; test the positive form and swap the branches"@,
                    range: TextRange { start: range.start, end: expr_range(test).end },
                    noqa_offset: Some(range.start),
                },
            ),
            _ => false,
        },
{
    let s = module[i];
    if let Stmt::If { test, range, .. } = s {
        let d = DiagnosticView {
            message: negated_message(),
            range: TextRange { start: range.start, end: expr_range(test).end },
            noqa_offset: Some(range.start),
        };
        assert(own_negation(s) == seq![d]);
        assert(own_negation(s)[0] == d);
        lemma_concat_keeps(own_negation(s), negations_children(s, children(s).len() as int), d);
        lemma_suite_keeps(module, i, d);
    }
}

} // verus!
