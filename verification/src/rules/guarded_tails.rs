//! GR009 no-guarded-tails: a trailing `if` of a function or loop body inverts into a guard
//! instead of nesting the rest of the body.
use vstd::prelude::*;
use crate::rules::diagnostic_views;
use crate::rules::lemma_concat_keeps;
use crate::rules::Diagnostic;
use crate::rules::DiagnosticView;
use crate::syntax::children;
use crate::syntax::children_exec;
use crate::syntax::expr_range;
use crate::syntax::expr_range_exec;
use crate::syntax::lemma_children_decrease;
use crate::syntax::stmt_range;
use crate::syntax::stmt_range_exec;
use crate::syntax::Stmt;
use crate::syntax::TextRange;
use crate::text::slice_chars;
use crate::text::split_lines;
use crate::text::split_lines_exec;
use crate::text::push_str;

verus! {

/// Suites of at least this many physical lines meet the size gate.
pub const GATE_LINES: usize = 10;

/// `s` is an `if` statement or holds one at any depth.
pub open spec fn contains_if_stmt(s: Stmt) -> bool
    decreases s, 1int, 0int,
{
    s is If || contains_if_children(s, children(s).len() as int)
}

pub open spec fn contains_if_children(s: Stmt, j: int) -> bool
    decreases s, 0int, j,
{
    if j <= 0 || j > children(s).len() {
        false
    } else {
        proof {
            lemma_children_decrease(s, j - 1);
        }
        contains_if_children(s, j - 1) || contains_if_stmt(children(s)[j - 1])
    }
}

pub open spec fn contains_if_suite(stmts: Seq<Stmt>) -> bool
    decreases stmts.len(),
{
    stmts.len() > 0 && (contains_if_suite(stmts.drop_last()) || contains_if_stmt(stmts.last()))
}

fn contains_if_stmt_exec(s: &Stmt) -> (r: bool)
    ensures
        r == contains_if_stmt(*s),
    decreases s,
{
    if let Stmt::If { .. } = s {
        return true;
    }
    let kids = children_exec(s);
    let mut j: usize = 0;
    while j < kids.len()
        invariant
            0 <= j <= kids@.len() == children(*s).len(),
            forall|m: int| 0 <= m < kids@.len() ==> *(#[trigger] kids@[m]) == children(*s)[m],
            !contains_if_children(*s, j as int),
        decreases kids@.len() - j,
    {
        proof {
            lemma_children_decrease(*s, j as int);
        }
        if contains_if_stmt_exec(kids[j]) {
            assert(contains_if_children(*s, j + 1));
            proof {
                lemma_contains_if_children_monotone(*s, j + 1, children(*s).len() as int);
            }
            return true;
        }
        j = j + 1;
    }
    false
}

pub fn contains_if_suite_exec(stmts: &Vec<Stmt>) -> (r: bool)
    ensures
        r == contains_if_suite(stmts@),
{
    let mut i: usize = 0;
    while i < stmts.len()
        invariant
            0 <= i <= stmts@.len(),
            !contains_if_suite(stmts@.take(i as int)),
        decreases stmts@.len() - i,
    {
        assert(stmts@.take(i + 1).drop_last() =~= stmts@.take(i as int));
        if contains_if_stmt_exec(&stmts[i]) {
            assert(stmts@.take(i + 1) =~= stmts@.take(i + 1));
            assert(contains_if_suite(stmts@.take(i + 1)));
            proof {
                lemma_contains_if_suite_prefix(stmts@, i + 1);
            }
            return true;
        }
        i = i + 1;
    }
    assert(stmts@.take(stmts@.len() as int) =~= stmts@);
    false
}

proof fn lemma_contains_if_children_monotone(s: Stmt, j: int, n: int)
    requires
        contains_if_children(s, j),
        j <= n <= children(s).len(),
    ensures
        contains_if_children(s, n),
    decreases n - j,
{
    if j < n {
        lemma_contains_if_children_monotone(s, j, n - 1);
    }
}

proof fn lemma_contains_if_suite_prefix(stmts: Seq<Stmt>, k: int)
    requires
        0 <= k <= stmts.len(),
        contains_if_suite(stmts.take(k)),
    ensures
        contains_if_suite(stmts),
    decreases stmts.len(),
{
    if k < stmts.len() {
        assert(stmts.drop_last().take(k) =~= stmts.take(k));
        lemma_contains_if_suite_prefix(stmts.drop_last(), k);
    } else {
        assert(stmts.take(k) =~= stmts);
    }
}

/// The characters a suite spans, from its first statement's start to its last's end, lie
/// within a text of `len` characters.
pub open spec fn suite_span_ok(suite: Seq<Stmt>, len: nat) -> bool {
    suite.len() > 0 ==> stmt_range(suite[0]).start <= stmt_range(suite.last()).end <= len
}

/// Physical lines the suite spans, counting interior blank and comment lines; a suite
/// whose span does not lie within the text spans none.
pub open spec fn count_lines(source: Seq<char>, suite: Seq<Stmt>) -> nat {
    if suite.len() == 0 || !suite_span_ok(suite, source.len()) {
        0
    } else {
        split_lines(
            source.subrange(stmt_range(suite[0]).start as int, stmt_range(suite.last()).end as int),
        ).len()
    }
}

/// The suite is long enough to lose its condition off the screen, or branches again.
pub open spec fn meets_size_gate(source: Seq<char>, suite: Seq<Stmt>) -> bool {
    count_lines(source, suite) >= GATE_LINES || contains_if_suite(suite)
}

/// The body whose trailing statement may invert: a function's or a loop's.
pub open spec fn invertible_body(s: Stmt) -> Option<Seq<Stmt>> {
    match s {
        Stmt::FunctionDef(f) => Some(f.body@),
        Stmt::For { body, .. } => Some(body@),
        Stmt::While { body, .. } => Some(body@),
        _ => None,
    }
}

/// The trailing `if` without `elif` or `else` of an invertible body.
pub open spec fn trailing_if(s: Stmt) -> Option<Stmt> {
    match invertible_body(s) {
        Some(body) => if body.len() > 0 && (body.last() matches Stmt::If { clauses, .. }
            && clauses@.len() == 0) {
            Some(body.last())
        } else {
            None
        },
        None => None,
    }
}

pub open spec fn tail_message() -> Seq<char> {
    "Trailing `if` nests the rest of the body in its condition; invert it into an early `return` or `continue` guard"@
}

pub open spec fn own_tail(source: Seq<char>, s: Stmt) -> Seq<DiagnosticView> {
    match trailing_if(s) {
        Some(Stmt::If { test, body, range, .. }) => if meets_size_gate(source, body@) {
            seq![
                DiagnosticView {
                    message: tail_message(),
                    range: TextRange { start: range.start, end: expr_range(test).end },
                    noqa_offset: Some(range.start),
                },
            ]
        } else {
            seq![]
        },
        _ => seq![],
    }
}

pub open spec fn tails_stmt(source: Seq<char>, s: Stmt) -> Seq<DiagnosticView>
    decreases s, 1int, 0int,
{
    own_tail(source, s) + tails_children(source, s, children(s).len() as int)
}

pub open spec fn tails_children(source: Seq<char>, s: Stmt, j: int) -> Seq<DiagnosticView>
    decreases s, 0int, j,
{
    if j <= 0 || j > children(s).len() {
        seq![]
    } else {
        proof {
            lemma_children_decrease(s, j - 1);
        }
        tails_children(source, s, j - 1) + tails_stmt(source, children(s)[j - 1])
    }
}

pub open spec fn tails_suite(source: Seq<char>, stmts: Seq<Stmt>) -> Seq<DiagnosticView>
    decreases stmts.len(),
{
    if stmts.len() == 0 {
        seq![]
    } else {
        tails_suite(source, stmts.drop_last()) + tails_stmt(source, stmts.last())
    }
}

/// GR009 over a module.
pub open spec fn no_guarded_tails(source: Seq<char>, module: Seq<Stmt>) -> Seq<DiagnosticView> {
    tails_suite(source, module)
}

fn count_lines_exec(source: &Vec<char>, suite: &Vec<Stmt>) -> (n: usize)
    ensures
        n == count_lines(source@, suite@),
{
    if suite.len() == 0 {
        return 0;
    }
    let start = stmt_range_exec(&suite[0]).start;
    let end = stmt_range_exec(&suite[suite.len() - 1]).end;
    if !(start <= end && end <= source.len()) {
        return 0;
    }
    let span = slice_chars(source, start, end);
    let lines = split_lines_exec(&span);
    proof {
        assert(crate::text::views(lines@).len() == lines@.len());
    }
    lines.len()
}

fn check_stmt(source: &Vec<char>, s: &Stmt, out: &mut Vec<Diagnostic>)
    ensures
        diagnostic_views(final(out)@) == diagnostic_views(old(out)@) + tails_stmt(source@, *s),
    decreases s,
{
    let ghost start = diagnostic_views(out@);
    let body: Option<&Vec<Stmt>> = match s {
        Stmt::FunctionDef(f) => Some(&f.body),
        Stmt::For { body, .. } => Some(body),
        Stmt::While { body, .. } => Some(body),
        _ => None,
    };
    if let Some(body) = body {
        if body.len() > 0 {
            match &body[body.len() - 1] {
                Stmt::If { test, body: suite, clauses, range } => {
                    if clauses.len() == 0 {
                        let lines = count_lines_exec(source, suite);
                        if lines >= GATE_LINES || contains_if_suite_exec(suite) {
                            let mut message: Vec<char> = Vec::new();
                            push_str(
                                &mut message,
                                "Trailing `if` nests the rest of the body in its condition; invert it into an early `return` or `continue` guard",
                            );
                            let end = expr_range_exec(test).end;
                            out.push(
                                Diagnostic {
                                    message,
                                    range: TextRange { start: range.start, end },
                                    noqa_offset: Some(range.start),
                                },
                            );
                        }
                    }
                },
                _ => {},
            }
        }
    }
    assert(diagnostic_views(out@) =~= start + own_tail(source@, *s));
    let ghost middle = diagnostic_views(out@);
    let kids = children_exec(s);
    let mut j: usize = 0;
    while j < kids.len()
        invariant
            0 <= j <= kids@.len() == children(*s).len(),
            forall|m: int| 0 <= m < kids@.len() ==> *(#[trigger] kids@[m]) == children(*s)[m],
            diagnostic_views(out@) == middle + tails_children(source@, *s, j as int),
        decreases kids@.len() - j,
    {
        proof {
            lemma_children_decrease(*s, j as int);
        }
        check_stmt(source, kids[j], out);
        j = j + 1;
    }
}

/// GR009 over a module; see [`no_guarded_tails`].
pub fn check_guarded_tails(source: &Vec<char>, module: &Vec<Stmt>) -> (diagnostics: Vec<Diagnostic>)
    ensures
        diagnostic_views(diagnostics@) == no_guarded_tails(source@, module@),
{
    let mut diagnostics: Vec<Diagnostic> = Vec::new();
    let mut i: usize = 0;
    while i < module.len()
        invariant
            0 <= i <= module@.len(),
            diagnostic_views(diagnostics@) == tails_suite(source@, module@.take(i as int)),
        decreases module@.len() - i,
    {
        check_stmt(source, &module[i], &mut diagnostics);
        assert(module@.take(i + 1).drop_last() =~= module@.take(i as int));
        i = i + 1;
    }
    assert(module@.take(module@.len() as int) =~= module@);
    diagnostics
}

proof fn lemma_suite_keeps(source: Seq<char>, stmts: Seq<Stmt>, i: int, d: DiagnosticView)
    requires
        0 <= i < stmts.len(),
        tails_stmt(source, stmts[i]).contains(d),
    ensures
        tails_suite(source, stmts).contains(d),
    decreases stmts.len(),
{
    let rest = stmts.drop_last();
    if i < stmts.len() - 1 {
        assert(rest[i] == stmts[i]);
        lemma_suite_keeps(source, rest, i, d);
    }
    lemma_concat_keeps(tails_suite(source, rest), tails_stmt(source, stmts.last()), d);
}

/// A suite that holds an `if` statement branches again.
proof fn lemma_suite_with_if(stmts: Seq<Stmt>, k: int)
    requires
        0 <= k < stmts.len(),
        stmts[k] is If,
    ensures
        contains_if_suite(stmts),
{
    let prefix = stmts.take(k + 1);
    assert(prefix.last() == stmts[k]);
    assert(contains_if_stmt(prefix.last()));
    assert(contains_if_suite(prefix));
    lemma_contains_if_suite_prefix(stmts, k + 1);
}

/// The trailing `if`, without `elif` or `else`, of the body of a module-level `for` loop,
/// `while` loop or function is reported from `if` to the end of its test when its own body
/// spans ten lines or more or holds another `if`.
pub proof fn law_trailing_if_of_a_body_is_reported(
    source: Seq<char>,
    module: Seq<Stmt>,
    i: int,
    suite: Seq<Stmt>,
)
    requires
        0 <= i < module.len(),
        (module[i] matches Stmt::For { body, .. } && body@ == suite) || (module[i] matches Stmt::While {
            body,
            ..
        } && body@ == suite) || (module[i] matches Stmt::FunctionDef(f) && f.body@ == suite),
        suite.len() > 0,
        suite.last() matches Stmt::If { body, clauses, .. } && clauses@.len() == 0 && (count_lines(
            source,
            body@,
        ) >= 10 || exists|k: int| 0 <= k < body@.len() && #[trigger] body@[k] is If),
    ensures
        match suite.last() {
            Stmt::If { test, range, .. } => no_guarded_tails(source, module).contains(
                DiagnosticView {
                    message: "Trailing `if` nests the rest of the body in its condition; invert it into an early `return` or `continue` guard"@,
                    range: TextRange { start: range.start, end: expr_range(test).end },
                    noqa_offset: Some(range.start),
                },
            ),
            _ => false,
        },
{
    let s = module[i];
    assert(invertible_body(s) == Some(suite));
    if let Stmt::If { test, body, range, .. } = suite.last() {
        if count_lines(source, body@) < 10 {
            let k = choose|k: int| 0 <= k < body@.len() && #[trigger] body@[k] is If;
            lemma_suite_with_if(body@, k);
        }
        assert(meets_size_gate(source, body@));
        let d = DiagnosticView {
            message: tail_message(),
            range: TextRange { start: range.start, end: expr_range(test).end },
            noqa_offset: Some(range.start),
        };
        assert(own_tail(source, s) == seq![d]);
        assert(own_tail(source, s)[0] == d);
        lemma_concat_keeps(own_tail(source, s), tails_children(source, s, children(s).len() as int), d);
        lemma_suite_keeps(source, module, i, d);
    }
}

} // verus!
