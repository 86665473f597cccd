//! Checking one file: every rule over its statements, each diagnostic located as a row and
//! column, dropped when a `# noqa` comment on its row names its code, and a syntax error
//! reported as the file's only finding.
use vstd::prelude::*;
use crate::comments::collect_comments;
use crate::comments::comments_of;
use crate::comments::mask_text;
use crate::comments::masked_text;
use crate::comments::tokens_within;
use crate::noqa::suppresses;
use crate::noqa::suppresses_exec;
use crate::paths::file_name_of;
use crate::paths::path_file_name;
use crate::rules::diagnostic_views;
use crate::rules::dunder_all::check_package_dunder_all;
use crate::rules::dunder_all::package_dunder_all;
use crate::rules::exception_swallowing::check_exception_swallowing;
use crate::rules::explicit_instance_data::check_explicit_instance_data;
use crate::rules::explicit_instance_data::explicit_instance_data;
use crate::rules::exception_swallowing::no_exception_swallowing_tests;
use crate::rules::final_constants::check_final_constants;
use crate::rules::final_constants::final_constants;
use crate::rules::flow_states::chars_option;
use crate::rules::guarded_tails::check_guarded_tails;
use crate::rules::guarded_tails::no_guarded_tails;
use crate::rules::input_conventions::check_docstrings;
use crate::rules::input_conventions::check_inputs;
use crate::rules::input_conventions::explicit_non_public_input_conventions;
use crate::rules::input_conventions::explicit_public_input_conventions;
use crate::rules::input_conventions::no_non_public_docstrings;
use crate::rules::input_conventions::required_non_public_inputs;
use crate::rules::input_conventions::InputCheck;
use crate::rules::positive_branch_conditions::check_positive_branch_conditions;
use crate::rules::positive_branch_conditions::positive_branch_conditions;
use crate::rules::single_consumer::check_single_consumer_bindings;
use crate::rules::single_consumer::single_consumer_bindings;
use crate::rules::subsumed_comments::check_subsumed_comments;
use crate::rules::subsumed_comments::no_subsumed_comments;
use crate::rules::Diagnostic;
use crate::rules::DiagnosticView;
use crate::selection::rule_codes;
use crate::selection::rule_info;
use crate::selection::RULE_COUNT;
use crate::syntax::Stmt;
use crate::syntax::TextRange;
use crate::syntax::Token;
use crate::syntax::TokenKind;
use crate::comments::comment_views;
use crate::text::is_bom;
use crate::text::location_of;
use crate::text::slice_chars;
use crate::text::split_lines;
use crate::text::split_lines_exec;
use crate::text::to_chars;
use crate::text::views;
use crate::text::LineIndex;
use crate::text::Location;

verus! {

/// Why a file did not parse, and where.
pub struct SyntaxError {
    pub message: String,
    pub range: TextRange,
}

/// A parsed file: its statements and its lexical tokens.
pub struct Parsed {
    pub module: Vec<Stmt>,
    pub tokens: Vec<Token>,
}

/// A file's text and what parsing it gave, with every token and the error's range lying
/// within the text.
pub struct SourceFile {
    text: Vec<char>,
    index: LineIndex,
    outcome: Result<Parsed, SyntaxError>,
}

/// What parsing gave, as values.
pub enum ParseView {
    Module { module: Seq<Stmt>, tokens: Seq<Token> },
    Error { message: Seq<char>, range: TextRange },
}

pub open spec fn parse_view(outcome: Result<Parsed, SyntaxError>) -> ParseView {
    match outcome {
        Ok(p) => ParseView::Module { module: p.module@, tokens: p.tokens@ },
        Err(e) => ParseView::Error { message: e.message@, range: e.range },
    }
}

/// The parse fits its text: its tokens, or its error's range, lie within it.
pub open spec fn fits(text: Seq<char>, parsed: ParseView) -> bool {
    &&& text.len() < usize::MAX
    &&& match parsed {
        ParseView::Module { tokens, .. } => tokens_within(tokens, text.len()),
        ParseView::Error { range, .. } => range.start <= range.end <= text.len(),
    }
}

impl SourceFile {
    pub closed spec fn text(&self) -> Seq<char> {
        self.text@
    }

    pub closed spec fn parsed(&self) -> ParseView {
        parse_view(self.outcome)
    }

    #[verifier::type_invariant]
    spec fn is_consistent(self) -> bool {
        &&& self.index.wf()
        &&& self.index.text() == self.text@
        &&& fits(self.text@, parse_view(self.outcome))
    }

    /// The file, when the parse fits the text.
    pub fn new(text: String, outcome: Result<Parsed, SyntaxError>) -> (r: Option<SourceFile>)
        ensures
            r is Some <==> fits(text@, parse_view(outcome)),
            r matches Some(file) ==> file.text() == text@ && file.parsed() == parse_view(outcome),
    {
        let chars = to_chars(text.as_str());
        if chars.len() == usize::MAX {
            return None;
        }
        let n = chars.len();
        let ok = match &outcome {
            Ok(p) => {
                let mut i: usize = 0;
                let mut ok = true;
                while i < p.tokens.len()
                    invariant
                        0 <= i <= p.tokens@.len(),
                        n == text@.len(),
                        ok == tokens_within(p.tokens@.take(i as int), n as nat),
                    decreases p.tokens@.len() - i,
                {
                    let t = p.tokens[i];
                    let within = t.range.start <= t.range.end && t.range.end <= n;
                    proof {
                        let prefix = p.tokens@.take(i + 1);
                        assert(prefix[i as int] == t);
                        if ok && within {
                            assert forall|j: int| 0 <= j < prefix.len() implies (
                            #[trigger] prefix[j]).range.start <= prefix[j].range.end <= n by {
                                if j < i {
                                    assert(prefix[j] == p.tokens@.take(i as int)[j]);
                                }
                            }
                        }
                        if ok && !within {
                            assert(!tokens_within(prefix, n as nat));
                        }
                        if !ok {
                            let w = choose|j: int|
                                0 <= j < i && !((#[trigger] p.tokens@.take(i as int)[j]).range.start
                                    <= p.tokens@.take(i as int)[j].range.end <= n);
                            assert(prefix[w] == p.tokens@.take(i as int)[w]);
                        }
                    }
                    ok = ok && within;
                    i = i + 1;
                }
                assert(p.tokens@.take(p.tokens@.len() as int) =~= p.tokens@);
                ok
            },
            Err(e) => e.range.start <= e.range.end && e.range.end <= n,
        };
        if !ok {
            return None;
        }
        let index = LineIndex::new(&chars);
        Some(SourceFile { text: chars, index, outcome })
    }
}

/// A reported finding: where, which rule, what, the row its `# noqa` belongs on, and the
/// text of the row it starts on.
pub struct Finding {
    pub path: String,
    pub code: Vec<char>,
    pub message: Vec<char>,
    pub location: Location,
    pub end_location: Location,
    pub noqa_row: Option<usize>,
    pub source_line: Vec<char>,
}

pub struct FindingView {
    pub path: Seq<char>,
    pub code: Seq<char>,
    pub message: Seq<char>,
    pub location: Location,
    pub end_location: Location,
    pub noqa_row: Option<usize>,
    pub source_line: Seq<char>,
}

impl View for Finding {
    type V = FindingView;

    open spec fn view(&self) -> FindingView {
        FindingView {
            path: self.path@,
            code: self.code@,
            message: self.message@,
            location: self.location,
            end_location: self.end_location,
            noqa_row: self.noqa_row,
            source_line: self.source_line@,
        }
    }
}

pub open spec fn finding_views(findings: Seq<Finding>) -> Seq<FindingView> {
    findings.map_values(|f: Finding| f@)
}

/// The location of an offset, offsets past the end counting as the end.
pub open spec fn locate(text: Seq<char>, offset: int) -> Location {
    location_of(text, if offset <= text.len() { offset } else { text.len() as int })
}

/// The text of a row, without a byte-order mark opening the file; empty past the last row.
pub open spec fn line_text(text: Seq<char>, row: int) -> Seq<char> {
    let lines = split_lines(text);
    if 1 <= row <= lines.len() {
        let line = lines[row - 1];
        if row == 1 && line.len() > 0 && is_bom(line[0]) {
            line.drop_first()
        } else {
            line
        }
    } else {
        seq![]
    }
}

pub open spec fn finding_of(
    path: Seq<char>,
    code: Seq<char>,
    message: Seq<char>,
    range: TextRange,
    text: Seq<char>,
    noqa_row: Option<usize>,
) -> FindingView {
    let location = locate(text, range.start as int);
    FindingView {
        path,
        code,
        message,
        location,
        end_location: locate(text, range.end as int),
        noqa_row,
        source_line: line_text(text, location.row as int),
    }
}

/// The index of the first token from the `i`-th on that ends after `offset`, or the number
/// of tokens.
pub open spec fn first_ending_after(tokens: Seq<Token>, offset: int, i: int) -> int
    decreases tokens.len() - i,
{
    if i < 0 || i >= tokens.len() {
        tokens.len() as int
    } else if tokens[i].range.end > offset {
        i
    } else {
        first_ending_after(tokens, offset, i + 1)
    }
}

/// The first newline token from the `i`-th on.
pub open spec fn newline_from(tokens: Seq<Token>, i: int) -> Option<Token>
    decreases tokens.len() - i,
{
    if i < 0 || i >= tokens.len() {
        None
    } else if tokens[i].kind == TokenKind::Newline {
        Some(tokens[i])
    } else {
        newline_from(tokens, i + 1)
    }
}

/// The row a `# noqa` comment must sit on to suppress the diagnostic: the row of its
/// `noqa_offset`, or else the row of the newline that ends its logical line, or else the row
/// it starts on.
pub open spec fn noqa_row(text: Seq<char>, tokens: Seq<Token>, d: DiagnosticView) -> int {
    match d.noqa_offset {
        Some(offset) => locate(text, offset as int).row as int,
        None => match newline_from(tokens, first_ending_after(tokens, d.range.start as int, 0)) {
            Some(t) => locate(text, t.range.start as int).row as int,
            None => locate(text, d.range.start as int).row as int,
        },
    }
}

/// The token is a comment on the row holding a `# noqa` directive that names the code.
#[verifier::opaque]
pub open spec fn comment_suppresses(text: Seq<char>, t: Token, row: int, code: Seq<char>) -> bool {
    &&& t.kind == TokenKind::Comment
    &&& locate(text, t.range.start as int).row == row
    &&& suppresses(text.subrange(t.range.start as int, t.range.end as int), code)
}

/// A comment on the row holds a `# noqa` directive that names the code.
pub open spec fn is_suppressed(text: Seq<char>, tokens: Seq<Token>, row: int, code: Seq<char>) -> bool {
    exists|i: int| 0 <= i < tokens.len() && comment_suppresses(text, #[trigger] tokens[i], row, code)
}

/// The findings of one rule's diagnostics that no `# noqa` suppresses, in order.
pub open spec fn rule_findings(
    path: Seq<char>,
    code: Seq<char>,
    text: Seq<char>,
    tokens: Seq<Token>,
    diagnostics: Seq<DiagnosticView>,
) -> Seq<FindingView>
    decreases diagnostics.len(),
{
    if diagnostics.len() == 0 {
        seq![]
    } else {
        let d = diagnostics.last();
        let row = noqa_row(text, tokens, d);
        rule_findings(path, code, text, tokens, diagnostics.drop_last()) + if is_suppressed(
            text,
            tokens,
            row,
            code,
        ) {
            seq![]
        } else {
            seq![finding_of(path, code, d.message, d.range, text, Some(row as usize))]
        }
    }
}

/// The diagnostics of the `k`-th rule of the table.
pub open spec fn rule_diagnostics(
    k: int,
    file_name: Option<Seq<char>>,
    text: Seq<char>,
    module: Seq<Stmt>,
    tokens: Seq<Token>,
) -> Seq<DiagnosticView> {
    if k == 0 {
        explicit_non_public_input_conventions(module)
    } else if k == 1 {
        required_non_public_inputs(module)
    } else if k == 2 {
        package_dunder_all(file_name, module)
    } else if k == 3 {
        final_constants(module)
    } else if k == 4 {
        explicit_public_input_conventions(module)
    } else if k == 5 {
        no_non_public_docstrings(module)
    } else if k == 6 {
        no_subsumed_comments(comments_of(text, tokens), split_lines(masked_text(text, tokens)))
    } else if k == 7 {
        no_exception_swallowing_tests(file_name, module)
    } else if k == 8 {
        no_guarded_tails(text, module)
    } else if k == 9 {
        positive_branch_conditions(module)
    } else if k == 10 {
        single_consumer_bindings(module)
    } else {
        explicit_instance_data(module)
    }
}

/// The findings of the first `k` rules of the table, rule after rule.
pub open spec fn rules_findings(
    path: Seq<char>,
    text: Seq<char>,
    module: Seq<Stmt>,
    tokens: Seq<Token>,
    k: int,
) -> Seq<FindingView>
    decreases k,
{
    if k <= 0 {
        seq![]
    } else {
        rules_findings(path, text, module, tokens, k - 1) + rule_findings(
            path,
            rule_codes()[k - 1],
            text,
            tokens,
            rule_diagnostics(k - 1, path_file_name(path), text, module, tokens),
        )
    }
}

pub open spec fn invalid_syntax_code() -> Seq<char> {
    "invalid-syntax"@
}

/// The findings of a file at `path`: a syntax error alone, or every rule's unsuppressed
/// diagnostics, rule after rule in table order.
pub open spec fn source_findings(path: Seq<char>, text: Seq<char>, parsed: ParseView) -> Seq<FindingView> {
    match parsed {
        ParseView::Error { message, range } => seq![
            finding_of(path, invalid_syntax_code(), message, range, text, None),
        ],
        ParseView::Module { module, tokens } => rules_findings(
            path,
            text,
            module,
            tokens,
            RULE_COUNT as int,
        ),
    }
}

fn locate_exec(index: &LineIndex, text: &Vec<char>, offset: usize) -> (location: Location)
    requires
        index.wf(),
        index.text() == text@,
    ensures
        location == locate(text@, offset as int),
{
    let clamped = if offset <= text.len() {
        offset
    } else {
        text.len()
    };
    index.locate(clamped)
}

fn line_text_exec(lines: &Vec<Vec<char>>, text: &Vec<char>, row: usize) -> (line: Vec<char>)
    requires
        views(lines@) == split_lines(text@),
    ensures
        line@ == line_text(text@, row as int),
{
    if 1 <= row && row <= lines.len() {
        let source = &lines[row - 1];
        assert(views(lines@)[row - 1] == source@);
        if row == 1 && source.len() > 0 && source[0] == '\u{feff}' {
            let out = slice_chars(source, 1, source.len());
            assert(out@ =~= source@.drop_first());
            out
        } else {
            slice_chars(source, 0, source.len())
        }
    } else {
        Vec::new()
    }
}

fn make_finding(
    path: &String,
    code: &Vec<char>,
    message: &Vec<char>,
    range: TextRange,
    text: &Vec<char>,
    index: &LineIndex,
    lines: &Vec<Vec<char>>,
    noqa_row: Option<usize>,
) -> (finding: Finding)
    requires
        index.wf(),
        index.text() == text@,
        views(lines@) == split_lines(text@),
    ensures
        finding@ == finding_of(path@, code@, message@, range, text@, noqa_row),
{
    let location = locate_exec(index, text, range.start);
    let end_location = locate_exec(index, text, range.end);
    let source_line = line_text_exec(lines, text, location.row);
    let finding = Finding {
        path: path.clone(),
        code: slice_chars(code, 0, code.len()),
        message: slice_chars(message, 0, message.len()),
        location,
        end_location,
        noqa_row,
        source_line,
    };
    assert(finding@.code =~= code@);
    assert(finding@.message =~= message@);
    finding
}

fn noqa_row_exec(index: &LineIndex, text: &Vec<char>, tokens: &Vec<Token>, d: &Diagnostic) -> (row: usize)
    requires
        index.wf(),
        index.text() == text@,
    ensures
        row == noqa_row(text@, tokens@, d@),
{
    match d.noqa_offset {
        Some(offset) => locate_exec(index, text, offset).row,
        None => {
            let start = d.range.start;
            let mut i: usize = 0;
            while i < tokens.len() && tokens[i].range.end <= start
                invariant
                    0 <= i <= tokens@.len(),
                    first_ending_after(tokens@, start as int, 0) == first_ending_after(
                        tokens@,
                        start as int,
                        i as int,
                    ),
                decreases tokens@.len() - i,
            {
                i = i + 1;
            }
            let ghost first = i as int;
            assert(first_ending_after(tokens@, start as int, 0) == first);
            while i < tokens.len() && tokens[i].kind != TokenKind::Newline
                invariant
                    first <= i <= tokens@.len(),
                    newline_from(tokens@, first) == newline_from(tokens@, i as int),
                decreases tokens@.len() - i,
            {
                i = i + 1;
            }
            if i < tokens.len() {
                locate_exec(index, text, tokens[i].range.start).row
            } else {
                locate_exec(index, text, start).row
            }
        },
    }
}

fn token_suppresses(index: &LineIndex, text: &Vec<char>, t: Token, row: usize, code: &Vec<char>) -> (r: bool)
    requires
        index.wf(),
        index.text() == text@,
        t.range.start <= t.range.end <= text@.len(),
    ensures
        r == comment_suppresses(text@, t, row as int, code@),
{
    reveal(comment_suppresses);
    if t.kind == TokenKind::Comment && locate_exec(index, text, t.range.start).row == row {
        let comment = slice_chars(text, t.range.start, t.range.end);
        suppresses_exec(&comment, code)
    } else {
        false
    }
}

fn is_suppressed_exec(
    index: &LineIndex,
    text: &Vec<char>,
    tokens: &Vec<Token>,
    row: usize,
    code: &Vec<char>,
) -> (r: bool)
    requires
        index.wf(),
        index.text() == text@,
        tokens_within(tokens@, text@.len()),
    ensures
        r == is_suppressed(text@, tokens@, row as int, code@),
{
    let mut i: usize = 0;
    while i < tokens.len()
        invariant
            0 <= i <= tokens@.len(),
            index.wf(),
            index.text() == text@,
            tokens_within(tokens@, text@.len()),
            forall|j: int| 0 <= j < i ==> !comment_suppresses(text@, #[trigger] tokens@[j], row as int, code@),
        decreases tokens@.len() - i,
    {
        let t = tokens[i];
        assert(tokens@[i as int] == t);
        if token_suppresses(index, text, t, row, code) {
            return true;
        }
        i = i + 1;
    }
    false
}

/// The diagnostics of the `k`-th rule; see [`rule_diagnostics`].
fn rule_diagnostics_exec(
    k: usize,
    file_name: &Option<Vec<char>>,
    text: &Vec<char>,
    module: &Vec<Stmt>,
    comments: &Vec<crate::comments::CommentLine>,
    masked_lines: &Vec<Vec<char>>,
    tokens: &Vec<Token>,
) -> (diagnostics: Vec<Diagnostic>)
    requires
        comment_views(comments@) == comments_of(text@, tokens@),
        views(masked_lines@) == split_lines(masked_text(text@, tokens@)),
    ensures
        diagnostic_views(diagnostics@) == rule_diagnostics(
            k as int,
            chars_option(*file_name),
            text@,
            module@,
            tokens@,
        ),
{
    if k == 0 {
        check_inputs(module, InputCheck::Convention, true)
    } else if k == 1 {
        check_inputs(module, InputCheck::Required, true)
    } else if k == 2 {
        check_package_dunder_all(file_name, module)
    } else if k == 3 {
        check_final_constants(module)
    } else if k == 4 {
        check_inputs(module, InputCheck::Convention, false)
    } else if k == 5 {
        check_docstrings(module)
    } else if k == 6 {
        check_subsumed_comments(comments, masked_lines)
    } else if k == 7 {
        check_exception_swallowing(file_name, module)
    } else if k == 8 {
        check_guarded_tails(text, module)
    } else if k == 9 {
        check_positive_branch_conditions(module)
    } else if k == 10 {
        check_single_consumer_bindings(module)
    } else {
        check_explicit_instance_data(module)
    }
}

fn name_chars(name: Option<String>) -> (r: Option<Vec<char>>)
    ensures
        chars_option(r) == match name {
            Some(n) => Some(n@),
            None => None::<Seq<char>>,
        },
{
    match name {
        Some(n) => Some(to_chars(n.as_str())),
        None => None,
    }
}

/// Checks a file: every rule, located and filtered by `# noqa`; see [`source_findings`].
pub fn check_source(path: &String, file: &SourceFile) -> (findings: Vec<Finding>)
    ensures
        finding_views(findings@) == source_findings(path@, file.text(), file.parsed()),
{
    proof {
        use_type_invariant(file);
    }
    let text = &file.text;
    let index = &file.index;
    let lines = split_lines_exec(text);
    let mut findings: Vec<Finding> = Vec::new();
    match &file.outcome {
        Err(e) => {
            let message = to_chars(e.message.as_str());
            let code = to_chars("invalid-syntax");
            findings.push(make_finding(path, &code, &message, e.range, text, index, &lines, None));
            assert(finding_views(findings@) =~= source_findings(path@, file.text(), file.parsed()));
            findings
        },
        Ok(parsed) => {
            let module = &parsed.module;
            let tokens = &parsed.tokens;
            let file_name = name_chars(file_name_of(path));
            let comments = collect_comments(text, index, tokens);
            let masked = mask_text(text, index, tokens);
            let masked_lines = split_lines_exec(&masked);
            let mut k: usize = 0;
            assert(finding_views(findings@) =~= Seq::<FindingView>::empty());
            while k < RULE_COUNT
                invariant
                    0 <= k <= RULE_COUNT,
                    index.wf(),
                    index.text() == text@,
                    text@ == file.text(),
                    file.parsed() == (ParseView::Module { module: module@, tokens: tokens@ }),
                    tokens_within(tokens@, text@.len()),
                    views(lines@) == split_lines(text@),
                    comment_views(comments@) == comments_of(text@, tokens@),
                    views(masked_lines@) == split_lines(masked_text(text@, tokens@)),
                    chars_option(file_name) == path_file_name(path@),
                    finding_views(findings@) == rules_findings(
                        path@,
                        text@,
                        module@,
                        tokens@,
                        k as int,
                    ),
                decreases RULE_COUNT - k,
            {
                let code = to_chars(rule_info(k).code);
                let diagnostics = rule_diagnostics_exec(
                    k,
                    &file_name,
                    text,
                    module,
                    &comments,
                    &masked_lines,
                    tokens,
                );
                let ghost ds = diagnostic_views(diagnostics@);
                let ghost base = finding_views(findings@);
                let mut j: usize = 0;
                assert(ds.take(0) =~= Seq::<DiagnosticView>::empty());
                while j < diagnostics.len()
                    invariant
                        0 <= j <= diagnostics@.len(),
                        ds == diagnostic_views(diagnostics@),
                        index.wf(),
                        index.text() == text@,
                        tokens_within(tokens@, text@.len()),
                        views(lines@) == split_lines(text@),
                        finding_views(findings@) == base + rule_findings(
                            path@,
                            code@,
                            text@,
                            tokens@,
                            ds.take(j as int),
                        ),
                    decreases diagnostics@.len() - j,
                {
                    let d = &diagnostics[j];
                    assert(ds.take(j + 1).drop_last() =~= ds.take(j as int));
                    assert(ds.take(j + 1).last() == d@);
                    let row = noqa_row_exec(index, text, tokens, d);
                    let ghost before = finding_views(findings@);
                    if !is_suppressed_exec(index, text, tokens, row, &code) {
                        let finding = make_finding(
                            path,
                            &code,
                            &d.message,
                            d.range,
                            text,
                            index,
                            &lines,
                            Some(row),
                        );
                        findings.push(finding);
                        assert(finding_views(findings@) =~= before.push(
                            finding_of(path@, code@, d@.message, d@.range, text@, Some(row)),
                        ));
                    }
                    j = j + 1;
                }
                assert(ds.take(diagnostics@.len() as int) =~= ds);
                assert(finding_views(findings@) =~= rules_findings(
                    path@,
                    text@,
                    module@,
                    tokens@,
                    k + 1,
                ));
                k = k + 1;
            }
            findings
        },
    }
}

proof fn lemma_rule_findings_code(
    path: Seq<char>,
    code: Seq<char>,
    text: Seq<char>,
    tokens: Seq<Token>,
    diagnostics: Seq<DiagnosticView>,
    i: int,
)
    requires
        0 <= i < rule_findings(path, code, text, tokens, diagnostics).len(),
    ensures
        rule_findings(path, code, text, tokens, diagnostics)[i].code == code,
    decreases diagnostics.len(),
{
    if diagnostics.len() > 0 {
        let rest = rule_findings(path, code, text, tokens, diagnostics.drop_last());
        if i < rest.len() {
            lemma_rule_findings_code(path, code, text, tokens, diagnostics.drop_last(), i);
        }
    }
}

proof fn lemma_rules_findings_code(
    path: Seq<char>,
    text: Seq<char>,
    module: Seq<Stmt>,
    tokens: Seq<Token>,
    k: int,
    i: int,
)
    requires
        0 <= k <= RULE_COUNT,
        0 <= i < rules_findings(path, text, module, tokens, k).len(),
    ensures
        exists|m: int|
            0 <= m < k && rules_findings(path, text, module, tokens, k)[i].code == #[trigger] rule_codes()[m],
    decreases k,
{
    if k > 0 {
        let rest = rules_findings(path, text, module, tokens, k - 1);
        if i < rest.len() {
            lemma_rules_findings_code(path, text, module, tokens, k - 1, i);
            let m = choose|m: int| 0 <= m < k - 1 && rest[i].code == #[trigger] rule_codes()[m];
            assert(rules_findings(path, text, module, tokens, k)[i] == rest[i]);
            assert(0 <= m < k && rules_findings(path, text, module, tokens, k)[i].code == rule_codes()[m]);
        } else {
            lemma_rule_findings_code(
                path,
                rule_codes()[k - 1],
                text,
                tokens,
                rule_diagnostics(k - 1, path_file_name(path), text, module, tokens),
                i - rest.len(),
            );
            assert(rules_findings(path, text, module, tokens, k)[i].code == rule_codes()[k - 1]);
        }
    }
}

/// Every finding of a file carries the code of a rule of the table, or `invalid-syntax`.
pub proof fn lemma_source_finding_codes(path: Seq<char>, text: Seq<char>, parsed: ParseView, i: int)
    requires
        0 <= i < source_findings(path, text, parsed).len(),
    ensures
        source_findings(path, text, parsed)[i].code == invalid_syntax_code() || exists|m: int|
            0 <= m < RULE_COUNT && source_findings(path, text, parsed)[i].code
                == #[trigger] rule_codes()[m],
{
    match parsed {
        ParseView::Module { module, tokens } => {
            lemma_rules_findings_code(path, text, module, tokens, RULE_COUNT as int, i);
        },
        ParseView::Error { .. } => {},
    }
}

} // verus!
