//! GR008 no-exception-swallowing-tests: a handler in a test lets the exception propagate
//! instead of only passing, returning or skipping.
use vstd::prelude::*;
use crate::rules::diagnostic_views;
use crate::rules::input_conventions::docstring_of;
use crate::rules::Diagnostic;
use crate::rules::DiagnosticView;
use crate::syntax::children;
use crate::syntax::children_exec;
use crate::syntax::expr_range;
use crate::syntax::expr_range_exec;
use crate::syntax::lemma_children_decrease;
use crate::syntax::ExceptHandler;
use crate::syntax::Expr;
use crate::syntax::Stmt;
use crate::syntax::TextRange;
use crate::text::chars_eq;
use crate::text::ends_with;
use crate::text::push_str;
use crate::text::starts_with;
use crate::text::to_chars;

verus! {

pub open spec fn has_prefix(s: Seq<char>, prefix: Seq<char>) -> bool {
    prefix.len() <= s.len() && s.take(prefix.len() as int) == prefix
}

pub open spec fn has_suffix(s: Seq<char>, suffix: Seq<char>) -> bool {
    suffix.len() <= s.len() && s.skip(s.len() - suffix.len()) == suffix
}

/// A test file is named `*_test.py` or `test_*.py`.
pub open spec fn is_test_file_name(name: Seq<char>) -> bool {
    has_suffix(name, "_test.py"@) || (has_prefix(name, "test_"@) && has_suffix(name, ".py"@))
}

pub fn is_test_file_name_exec(name: &Vec<char>) -> (r: bool)
    ensures
        r == is_test_file_name(name@),
{
    ends_with(name, &to_chars("_test.py")) || (starts_with(name, &to_chars("test_"))
        && ends_with(name, &to_chars(".py")))
}

/// The handler body after a leading docstring, which never decides whether it swallows.
pub open spec fn body_after_docstring(h: ExceptHandler) -> Seq<Stmt> {
    if h.body@.len() > 0 && docstring_of(h.body@[0]) is Some {
        h.body@.drop_first()
    } else {
        h.body@
    }
}

/// `pass`, a bare `return`, or `...`.
pub open spec fn is_inert_statement(s: Stmt) -> bool {
    match s {
        Stmt::Pass { .. } => true,
        Stmt::Return { value, .. } => value is None,
        Stmt::Expr { value, .. } => value is EllipsisLiteral,
        _ => false,
    }
}

pub open spec fn is_name(e: Expr, name: Seq<char>) -> bool {
    e matches Expr::Name { id, .. } && id@ == name
}

/// `pytest.skip`, `self.skipTest` or `cls.skipTest`.
pub open spec fn is_skip_call(function: Expr) -> bool {
    match function {
        Expr::Attribute { value, attr, .. } => (is_name(*value, "pytest"@) && attr.id@
            == "skip"@) || ((is_name(*value, "self"@) || is_name(*value, "cls"@)) && attr.id@
            == "skipTest"@),
        _ => false,
    }
}

/// An inert statement, or an expression statement calling a skip.
pub open spec fn is_swallowing_statement(s: Stmt) -> bool {
    ||| is_inert_statement(s)
    ||| (s matches Stmt::Expr { value, .. } && (value matches Expr::Call { func, .. }
        && is_skip_call(*func)))
}

pub open spec fn swallows(h: ExceptHandler) -> bool {
    forall|i: int|
        0 <= i < body_after_docstring(h).len() ==> is_swallowing_statement(
            #[trigger] body_after_docstring(h)[i],
        )
}

pub open spec fn is_inert_handler(h: ExceptHandler) -> bool {
    forall|i: int|
        0 <= i < body_after_docstring(h).len() ==> is_inert_statement(
            #[trigger] body_after_docstring(h)[i],
        )
}

pub open spec fn swallow_message() -> Seq<char> {
    "Test swallows the exception, so it cannot fail; let it propagate, or use pytest.raises or a skip condition for the expected case"@
}

/// The range of a finding on a handler: from `except` to the end of its exception type, or
/// the keyword alone for a bare `except`.
pub open spec fn handler_range(h: ExceptHandler) -> TextRange {
    match h.type_ {
        Some(e) => TextRange { start: h.range.start, end: expr_range(*e).end },
        None => TextRange {
            start: h.range.start,
            end: if h.range.start + 6 <= usize::MAX {
                (h.range.start + 6) as usize
            } else {
                usize::MAX
            },
        },
    }
}

pub open spec fn handler_diagnostics(h: ExceptHandler) -> Seq<DiagnosticView> {
    if swallows(h) {
        seq![
            DiagnosticView {
                message: swallow_message(),
                range: handler_range(h),
                noqa_offset: Some(h.range.start),
            },
        ]
    } else {
        seq![]
    }
}

/// The findings on the handlers of a `try`: an `else` clause exempts an inert handler.
pub open spec fn try_diagnostics(handlers: Seq<ExceptHandler>, has_else: bool) -> Seq<
    DiagnosticView,
>
    decreases handlers.len(),
{
    if handlers.len() == 0 {
        seq![]
    } else {
        try_diagnostics(handlers.drop_last(), has_else) + if !has_else || !is_inert_handler(
            handlers.last(),
        ) {
            handler_diagnostics(handlers.last())
        } else {
            seq![]
        }
    }
}

pub open spec fn own_swallowing(s: Stmt, inside_test: bool) -> Seq<DiagnosticView> {
    match s {
        Stmt::Try { handlers, orelse, .. } => if inside_test {
            try_diagnostics(handlers@, orelse@.len() > 0)
        } else {
            seq![]
        },
        _ => seq![],
    }
}

/// Whether the statements nested in `s` are inside a function, and inside a test: a
/// function named `test...` that is not itself nested in a function body.
pub open spec fn nested_state(s: Stmt, inside_function: bool, inside_test: bool) -> (bool, bool) {
    match s {
        Stmt::FunctionDef(f) => (
            true,
            inside_test || (!inside_function && has_prefix(f.name.id@, "test"@)),
        ),
        _ => (inside_function, inside_test),
    }
}

pub open spec fn swallowing_stmt(s: Stmt, inside_function: bool, inside_test: bool) -> Seq<
    DiagnosticView,
>
    decreases s, 1int, 0int,
{
    let state = nested_state(s, inside_function, inside_test);
    own_swallowing(s, inside_test) + swallowing_children(
        s,
        state.0,
        state.1,
        children(s).len() as int,
    )
}

pub open spec fn swallowing_children(
    s: Stmt,
    inside_function: bool,
    inside_test: bool,
    j: int,
) -> Seq<DiagnosticView>
    decreases s, 0int, j,
{
    if j <= 0 || j > children(s).len() {
        seq![]
    } else {
        proof {
            lemma_children_decrease(s, j - 1);
        }
        swallowing_children(s, inside_function, inside_test, j - 1) + swallowing_stmt(
            children(s)[j - 1],
            inside_function,
            inside_test,
        )
    }
}

pub open spec fn swallowing_suite(stmts: Seq<Stmt>) -> Seq<DiagnosticView>
    decreases stmts.len(),
{
    if stmts.len() == 0 {
        seq![]
    } else {
        swallowing_suite(stmts.drop_last()) + swallowing_stmt(stmts.last(), false, false)
    }
}

/// GR008 over a module in a file named `file_name`: nothing outside test files.
pub open spec fn no_exception_swallowing_tests(file_name: Option<Seq<char>>, module: Seq<Stmt>) -> Seq<
    DiagnosticView,
> {
    match file_name {
        Some(name) => if is_test_file_name(name) {
            swallowing_suite(module)
        } else {
            seq![]
        },
        None => seq![],
    }
}

fn is_name_exec(e: &Expr, name: &str) -> (r: bool)
    ensures
        r == is_name(*e, name@),
{
    match e {
        Expr::Name { id, .. } => chars_eq(&to_chars(id.as_str()), &to_chars(name)),
        _ => false,
    }
}

fn is_skip_call_exec(function: &Expr) -> (r: bool)
    ensures
        r == is_skip_call(*function),
{
    match function {
        Expr::Attribute { value, attr, .. } => {
            let attr_name = to_chars(attr.id.as_str());
            (is_name_exec(value, "pytest") && chars_eq(&attr_name, &to_chars("skip"))) || ((
            is_name_exec(value, "self") || is_name_exec(value, "cls")) && chars_eq(
                &attr_name,
                &to_chars("skipTest"),
            ))
        },
        _ => false,
    }
}

fn is_inert_statement_exec(s: &Stmt) -> (r: bool)
    ensures
        r == is_inert_statement(*s),
{
    match s {
        Stmt::Pass { .. } => true,
        Stmt::Return { value, .. } => value.is_none(),
        Stmt::Expr { value, .. } => match value {
            Expr::EllipsisLiteral { .. } => true,
            _ => false,
        },
        _ => false,
    }
}

fn is_swallowing_statement_exec(s: &Stmt) -> (r: bool)
    ensures
        r == is_swallowing_statement(*s),
{
    if is_inert_statement_exec(s) {
        return true;
    }
    match s {
        Stmt::Expr { value, .. } => match value {
            Expr::Call { func, .. } => is_skip_call_exec(func),
            _ => false,
        },
        _ => false,
    }
}

fn is_docstring_exec(s: &Stmt) -> (r: bool)
    ensures
        r == (docstring_of(*s) is Some),
{
    match s {
        Stmt::Expr { value, .. } => match value {
            Expr::StringLiteral { .. } => true,
            _ => false,
        },
        _ => false,
    }
}

/// The handler body after its docstring holds only statements that `inert` (or, when
/// `inert` is false, swallowing) accepts.
fn handler_body_all(h: &ExceptHandler, inert: bool) -> (r: bool)
    ensures
        inert ==> r == is_inert_handler(*h),
        !inert ==> r == swallows(*h),
{
    let first: usize = if h.body.len() > 0 && is_docstring_exec(&h.body[0]) {
        1
    } else {
        0
    };
    let ghost rest = body_after_docstring(*h);
    proof {
        if first == 1 {
            assert(rest =~= h.body@.skip(1));
        } else {
            assert(rest =~= h.body@.skip(0));
        }
    }
    let mut i = first;
    while i < h.body.len()
        invariant
            first <= i <= h.body@.len(),
            first <= 1,
            rest == h.body@.skip(first as int),
            rest == body_after_docstring(*h),
            inert ==> forall|k: int| 0 <= k < i - first ==> is_inert_statement(#[trigger] rest[k]),
            !inert ==> forall|k: int|
                0 <= k < i - first ==> is_swallowing_statement(#[trigger] rest[k]),
        decreases h.body@.len() - i,
    {
        let accepted = if inert {
            is_inert_statement_exec(&h.body[i])
        } else {
            is_swallowing_statement_exec(&h.body[i])
        };
        assert(rest[i - first] == h.body@[i as int]);
        if !accepted {
            proof {
                let k = i - first;
                assert(body_after_docstring(*h)[k] == h.body@[i as int]);
                if inert {
                    assert(!is_inert_statement(body_after_docstring(*h)[k]));
                } else {
                    assert(!is_swallowing_statement(body_after_docstring(*h)[k]));
                }
            }
            return false;
        }
        i = i + 1;
    }
    true
}

fn handler_diagnostics_exec(h: &ExceptHandler, out: &mut Vec<Diagnostic>)
    ensures
        diagnostic_views(final(out)@) == diagnostic_views(old(out)@) + handler_diagnostics(*h),
{
    let ghost before = diagnostic_views(out@);
    if handler_body_all(h, false) {
        let start = h.range.start;
        let end = match &h.type_ {
            Some(e) => expr_range_exec(e).end,
            None => if start <= usize::MAX - 6 {
                start + 6
            } else {
                usize::MAX
            },
        };
        let mut message: Vec<char> = Vec::new();
        push_str(
            &mut message,
            "Test swallows the exception, so it cannot fail; let it propagate, or use pytest.raises or a skip condition for the expected case",
        );
        out.push(Diagnostic { message, range: TextRange { start, end }, noqa_offset: Some(start) });
    }
    assert(diagnostic_views(out@) =~= before + handler_diagnostics(*h));
}

fn check_stmt(s: &Stmt, inside_function: bool, inside_test: bool, out: &mut Vec<Diagnostic>)
    ensures
        diagnostic_views(final(out)@) == diagnostic_views(old(out)@) + swallowing_stmt(
            *s,
            inside_function,
            inside_test,
        ),
    decreases s,
{
    let ghost start = diagnostic_views(out@);
    match s {
        Stmt::Try { handlers, orelse, .. } => {
            if inside_test {
                let has_else = orelse.len() > 0;
                let mut i: usize = 0;
                while i < handlers.len()
                    invariant
                        0 <= i <= handlers@.len(),
                        has_else == (orelse@.len() > 0),
                        diagnostic_views(out@) == start + try_diagnostics(
                            handlers@.take(i as int),
                            has_else,
                        ),
                    decreases handlers@.len() - i,
                {
                    let h = &handlers[i];
                    proof {
                        assert(handlers@.take(i + 1).drop_last() =~= handlers@.take(i as int));
                        assert(handlers@.take(i + 1).last() == *h);
                    }
                    if !has_else || !handler_body_all(h, true) {
                        handler_diagnostics_exec(h, out);
                    }
                    i = i + 1;
                }
                assert(handlers@.take(handlers@.len() as int) =~= handlers@);
            }
        },
        _ => {},
    }
    assert(diagnostic_views(out@) =~= start + own_swallowing(*s, inside_test));
    let (nested_function, nested_test) = match s {
        Stmt::FunctionDef(f) => (
            true,
            inside_test || (!inside_function && starts_with(
                &to_chars(f.name.id.as_str()),
                &to_chars("test"),
            )),
        ),
        _ => (inside_function, inside_test),
    };
    let ghost middle = diagnostic_views(out@);
    let kids = children_exec(s);
    let mut j: usize = 0;
    while j < kids.len()
        invariant
            0 <= j <= kids@.len() == children(*s).len(),
            forall|m: int| 0 <= m < kids@.len() ==> *(#[trigger] kids@[m]) == children(*s)[m],
            (nested_function, nested_test) == nested_state(*s, inside_function, inside_test),
            diagnostic_views(out@) == middle + swallowing_children(
                *s,
                nested_function,
                nested_test,
                j as int,
            ),
        decreases kids@.len() - j,
    {
        proof {
            lemma_children_decrease(*s, j as int);
        }
        check_stmt(kids[j], nested_function, nested_test, out);
        j = j + 1;
    }
}

/// GR008 over a module; see [`no_exception_swallowing_tests`].
pub fn check_exception_swallowing(file_name: &Option<Vec<char>>, module: &Vec<Stmt>) -> (diagnostics: Vec<Diagnostic>)
    ensures
        diagnostic_views(diagnostics@) == no_exception_swallowing_tests(
            match file_name {
                Some(name) => Some(name@),
                None => None,
            },
            module@,
        ),
{
    let mut diagnostics: Vec<Diagnostic> = Vec::new();
    let is_test = match file_name {
        Some(name) => is_test_file_name_exec(name),
        None => false,
    };
    if !is_test {
        return diagnostics;
    }
    let mut i: usize = 0;
    while i < module.len()
        invariant
            0 <= i <= module@.len(),
            diagnostic_views(diagnostics@) == swallowing_suite(module@.take(i as int)),
        decreases module@.len() - i,
    {
        check_stmt(&module[i], false, false, &mut diagnostics);
        assert(module@.take(i + 1).drop_last() =~= module@.take(i as int));
        i = i + 1;
    }
    assert(module@.take(module@.len() as int) =~= module@);
    diagnostics
}

/// GR008 reports nothing outside test files: a file whose name is neither `test_*.py` nor
/// `*_test.py`.
pub proof fn law_swallowing_only_in_test_files(file_name: Seq<char>, module: Seq<Stmt>)
    requires
        !is_test_file_name(file_name),
    ensures
        no_exception_swallowing_tests(Some(file_name), module).len() == 0,
{
}

/// In a file named `*_test.py`, or `test_*.py`, GR008 checks the whole module: the file's
/// name, beyond being a test file's, does not change the findings, which are those of every
/// test in the module.
pub proof fn law_test_files_are_checked(file_name: Seq<char>, module: Seq<Stmt>)
    requires
        (file_name.len() >= 8 && file_name.skip(file_name.len() - 8) == "_test.py"@) || (
        file_name.len() >= 5 && file_name.take(5) == "test_"@ && file_name.skip(
            file_name.len() - 3,
        ) == ".py"@),
    ensures
        no_exception_swallowing_tests(Some(file_name), module) == swallowing_suite(module),
{
    reveal_strlit("_test.py");
    reveal_strlit("test_");
    reveal_strlit(".py");
}

/// A file named `*_test.py` and one named `test_*.py` give the same findings for the same
/// module.
pub proof fn law_both_test_file_spellings_agree(suffixed: Seq<char>, prefixed: Seq<char>, module: Seq<Stmt>)
    requires
        suffixed.len() >= 8 && suffixed.skip(suffixed.len() - 8) == "_test.py"@,
        prefixed.len() >= 5 && prefixed.take(5) == "test_"@ && prefixed.skip(prefixed.len() - 3)
            == ".py"@,
    ensures
        no_exception_swallowing_tests(Some(suffixed), module) == no_exception_swallowing_tests(
            Some(prefixed),
            module,
        ),
{
    law_test_files_are_checked(suffixed, module);
    law_test_files_are_checked(prefixed, module);
}

} // verus!
