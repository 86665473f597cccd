//! A `gruff check` run: the command-line arguments as values, the files with what reading,
//! resolving and parsing them gave, the decisions that turn them into one ordered report,
//! and the report rendered as text.
use vstd::prelude::*;
use crate::check::check_source;
use crate::check::finding_views;
use crate::check::invalid_syntax_code;
use crate::check::lemma_source_finding_codes;
use crate::check::source_findings;
use crate::check::Finding;
use crate::check::FindingView;
use crate::check::ParseView;
use crate::check::SourceFile;
use crate::rules::flow_states::lemma_filter_take_step;
use crate::config::error_of;
use crate::config::is_ignored_for_file;
use crate::config::ignored_for_file;
use crate::config::resolve_rule_enabled;
use crate::config::result_view;
use crate::config::rule_enabled;
use crate::config::selectors_view;
use crate::config::strings_to_chars;
use crate::config::ConfigView;
use crate::config::LoadedConfig;
use crate::config::OutputFormat;
use crate::paths::chars_to_string;
use crate::paths::order_paths;
use crate::paths::path_order;
use crate::paths::PathOrder;
use crate::selection::all_valid;
use crate::selection::first_invalid;
use crate::selection::rule_codes;
use crate::selection::rule_info;
use crate::selection::rule_names;
use crate::selection::string_views;
use crate::selection::unknown_selector_message;
use crate::selection::validate_rules;
use crate::selection::RULE_COUNT;
use crate::text::chars_eq;
use crate::text::decimal;
use crate::text::decimal_exec;
use crate::text::push_chars;
use crate::text::push_str;
use crate::text::to_chars;
use crate::text::views;
use crate::RunError;

verus! {

/// The options of `gruff check`.
pub struct CheckArguments {
    pub paths: Vec<String>,
    pub select: Option<Vec<String>>,
    pub ignore: Option<Vec<String>>,
    pub output_format: Option<OutputFormat>,
    pub config: Option<String>,
    pub isolated: bool,
}

/// A subcommand.
pub enum Command {
    /// Run Gruff on the given files or directories.
    Check(CheckArguments),
}

/// The command line.
pub struct Arguments {
    pub command: Command,
}

/// A file to check, with what resolving its configuration, reading and parsing it, and
/// resolving it and its configuration's directory to canonical paths gave.
pub struct FileInput {
    pub path: String,
    pub config: Result<LoadedConfig, RunError>,
    pub source: Result<SourceFile, RunError>,
    pub absolute_path: Result<String, String>,
    pub absolute_root: Result<String, String>,
}

/// What a run reads: the files found under the given paths, the configuration named on the
/// command line, if any, and the configuration that applies where no file does.
pub struct RunInput {
    pub files: Result<Vec<FileInput>, RunError>,
    pub explicit_config: Option<Result<LoadedConfig, RunError>>,
    pub base_config: Result<LoadedConfig, RunError>,
}

/// The outcome of a run: its findings in order, how to write them, and whether no rule ran.
pub struct Report {
    pub findings: Vec<Finding>,
    pub output_format: OutputFormat,
    pub no_rules_enabled: bool,
}

pub struct ReportView {
    pub findings: Seq<FindingView>,
    pub output_format: OutputFormat,
    pub no_rules_enabled: bool,
}

impl View for Report {
    type V = ReportView;

    open spec fn view(&self) -> ReportView {
        ReportView {
            findings: finding_views(self.findings@),
            output_format: self.output_format,
            no_rules_enabled: self.no_rules_enabled,
        }
    }
}

/// A file input as values.
pub struct FileView {
    pub path: Seq<char>,
    pub config: Result<ConfigView, Seq<char>>,
    pub source: Result<(Seq<char>, ParseView), Seq<char>>,
    pub absolute_path: Result<Seq<char>, Seq<char>>,
    pub absolute_root: Result<Seq<char>, Seq<char>>,
}

pub open spec fn config_result(r: Result<LoadedConfig, RunError>) -> Result<ConfigView, Seq<char>> {
    match r {
        Ok(c) => Ok(c@),
        Err(e) => Err(e@),
    }
}

pub open spec fn file_view(f: FileInput) -> FileView {
    FileView {
        path: f.path@,
        config: config_result(f.config),
        source: match f.source {
            Ok(s) => Ok((s.text(), s.parsed())),
            Err(e) => Err(e@),
        },
        absolute_path: result_view(f.absolute_path),
        absolute_root: result_view(f.absolute_root),
    }
}

pub open spec fn file_views(files: Seq<FileInput>) -> Seq<FileView> {
    files.map_values(|f: FileInput| file_view(f))
}

pub open spec fn strings_option(s: Option<Vec<String>>) -> Option<Seq<Seq<char>>> {
    match s {
        Some(v) => Some(string_views(v@)),
        None => None,
    }
}

/// A finding is not of the code.
pub open spec fn not_of_code(code: Seq<char>) -> spec_fn(FindingView) -> bool {
    |f: FindingView| f.code != code
}

/// The findings without those of the code.
pub open spec fn without_code(findings: Seq<FindingView>, code: Seq<char>) -> Seq<FindingView> {
    findings.filter(not_of_code(code))
}

/// A file's findings after rule selection, from the `k`-th rule of the table on: a rule
/// that does not run, or that a per-file ignore drops for the file, loses its findings.
/// Whether some rule ran is carried along; resolving a per-file ignore may fail.
pub open spec fn select_findings(
    select: Option<Seq<Seq<char>>>,
    ignore: Option<Seq<Seq<char>>>,
    config: ConfigView,
    file: FileView,
    findings: Seq<FindingView>,
    k: int,
    any: bool,
) -> Result<(Seq<FindingView>, bool), Seq<char>>
    decreases RULE_COUNT - k,
{
    if 0 <= k < RULE_COUNT {
        let code = rule_codes()[k];
        let enabled = rule_enabled(select, ignore, config, code);
        if !enabled {
            select_findings(select, ignore, config, file, without_code(findings, code), k + 1, any)
        } else {
            match ignored_for_file(file.path, file.absolute_path, file.absolute_root, config, code) {
                Err(e) => Err(e),
                Ok(true) => select_findings(
                    select,
                    ignore,
                    config,
                    file,
                    without_code(findings, code),
                    k + 1,
                    true,
                ),
                Ok(false) => select_findings(select, ignore, config, file, findings, k + 1, true),
            }
        }
    } else {
        Ok((findings, any))
    }
}

/// The files from the `j`-th on, checked in order after `found`: the first file whose
/// configuration, reading or per-file ignore fails ends the run with that error.
pub open spec fn check_files(
    select: Option<Seq<Seq<char>>>,
    ignore: Option<Seq<Seq<char>>>,
    files: Seq<FileView>,
    j: int,
    found: Seq<FindingView>,
    any: bool,
) -> Result<(Seq<FindingView>, bool), Seq<char>>
    decreases files.len() - j,
{
    if 0 <= j < files.len() {
        let file = files[j];
        match file.config {
            Err(e) => Err(e),
            Ok(config) => match file.source {
                Err(e) => Err(e),
                Ok((text, parsed)) => match select_findings(
                    select,
                    ignore,
                    config,
                    file,
                    source_findings(file.path, text, parsed),
                    0,
                    any,
                ) {
                    Err(e) => Err(e),
                    Ok((kept, enabled)) => check_files(
                        select,
                        ignore,
                        files,
                        j + 1,
                        found + kept,
                        enabled,
                    ),
                },
            },
        }
    } else {
        Ok((found, any))
    }
}

/// Some rule of the table, from the `k`-th on, runs under the configuration.
pub open spec fn some_rule_runs_from(
    select: Option<Seq<Seq<char>>>,
    ignore: Option<Seq<Seq<char>>>,
    config: ConfigView,
    k: int,
) -> bool {
    exists|m: int| k <= m < RULE_COUNT && #[trigger] rule_enabled(select, ignore, config, rule_codes()[m])
}

/// Some rule runs for some file from the `j`-th on.
pub open spec fn some_rule_runs_for_files(
    select: Option<Seq<Seq<char>>>,
    ignore: Option<Seq<Seq<char>>>,
    files: Seq<FileView>,
    j: int,
) -> bool {
    exists|i: int|
        j <= i < files.len() && (#[trigger] files[i]).config is Ok && some_rule_runs_from(
            select,
            ignore,
            files[i].config->Ok_0,
            0,
        )
}

/// No finding sorts before the one ahead of it.
pub open spec fn in_order(findings: Seq<FindingView>) -> bool {
    forall|i: int| 0 <= i < findings.len() - 1 ==> !sorts_before(#[trigger] findings[i + 1], findings[i])
}

/// One finding sorts before another: by path, then row, then column.
pub open spec fn sorts_before(a: FindingView, b: FindingView) -> bool {
    match path_order(a.path, b.path) {
        PathOrder::Less => true,
        PathOrder::Greater => false,
        PathOrder::Equal => a.location.row < b.location.row || (a.location.row == b.location.row
            && a.location.column < b.location.column),
    }
}

/// Where a finding goes among sorted ones: after every finding it does not sort before.
pub open spec fn insert_position(sorted: Seq<FindingView>, f: FindingView) -> int
    decreases sorted.len(),
{
    if sorted.len() > 0 && sorts_before(f, sorted.last()) {
        insert_position(sorted.drop_last(), f)
    } else {
        sorted.len() as int
    }
}

/// The findings in a stable order by path, row and column.
pub open spec fn sort_findings(findings: Seq<FindingView>) -> Seq<FindingView>
    decreases findings.len(),
{
    if findings.len() == 0 {
        seq![]
    } else {
        let sorted = sort_findings(findings.drop_last());
        sorted.insert(insert_position(sorted, findings.last()), findings.last())
    }
}

/// A run of `gruff check`: the selectors given on the command line are checked first, then
/// file discovery, the named configuration and the base configuration, then each file in
/// order; the findings of the rules that run are sorted, and the run notes when no rule ran.
pub open spec fn check_run(
    args: CheckArguments,
    files: Result<Seq<FileView>, Seq<char>>,
    explicit_config: Option<Result<ConfigView, Seq<char>>>,
    base_config: Result<ConfigView, Seq<char>>,
) -> Result<ReportView, Seq<char>> {
    let select = strings_option(args.select);
    let ignore = strings_option(args.ignore);
    if select matches Some(s) && !all_valid(s) {
        Err(unknown_selector_message(first_invalid(select->0)->0))
    } else if ignore matches Some(i) && !all_valid(i) {
        Err(unknown_selector_message(first_invalid(ignore->0)->0))
    } else {
        match files {
            Err(e) => Err(e),
            Ok(fs) => match explicit_config {
                Some(Err(e)) => Err(e),
                _ => match base_config {
                    Err(e) => Err(e),
                    Ok(base) => {
                        let format = match args.output_format {
                            Some(f) => f,
                            None => match base.output_format {
                                Some(f) => f,
                                None => OutputFormat::Full,
                            },
                        };
                        match check_files(select, ignore, fs, 0, seq![], false) {
                            Err(e) => Err(e),
                            Ok((found, any)) => {
                                let enabled = if fs.len() == 0 {
                                    some_rule_runs_from(select, ignore, base, 0)
                                } else {
                                    any
                                };
                                Ok(
                                    ReportView {
                                        findings: sort_findings(found),
                                        output_format: format,
                                        no_rules_enabled: !enabled,
                                    },
                                )
                            },
                        }
                    },
                },
            },
        }
    }
}

pub open spec fn run_result(arguments: Arguments, input: RunInput) -> Result<ReportView, Seq<char>> {
    match arguments.command {
        Command::Check(args) => check_run(
            args,
            match input.files {
                Ok(fs) => Ok(file_views(fs@)),
                Err(e) => Err(e@),
            },
            match input.explicit_config {
                Some(c) => Some(config_result(c)),
                None => None,
            },
            config_result(input.base_config),
        ),
    }
}

/// The exit status of a run: success when writing found a closed pipe or there are no
/// findings, failure otherwise.
pub open spec fn exit_status_of(report: ReportView, broken_pipe: bool) -> u8 {
    if broken_pipe || report.findings.len() == 0 {
        0
    } else {
        1
    }
}

fn copy_error(e: &RunError) -> (copy: RunError)
    ensures
        copy@ == e@,
{
    RunError(e.0.clone())
}

fn selectors_of(strings: &Option<Vec<String>>) -> (r: Option<Vec<Vec<char>>>)
    ensures
        selectors_view(r) == strings_option(*strings),
{
    match strings {
        Some(v) => Some(strings_to_chars(v)),
        None => None,
    }
}

/// A file's findings after rule selection; see [`select_findings`].
#[verifier::loop_isolation(false)]
fn select_file_findings(
    select: &Option<Vec<Vec<char>>>,
    ignore: &Option<Vec<Vec<char>>>,
    config: &LoadedConfig,
    file: &FileInput,
    findings: Vec<Finding>,
    any: bool,
) -> (r: Result<(Vec<Finding>, bool), RunError>)
    ensures
        match (
            r,
            select_findings(
                selectors_view(*select),
                selectors_view(*ignore),
                config@,
                file_view(*file),
                finding_views(findings@),
                0,
                any,
            ),
        ) {
            (Ok((kept, enabled)), Ok((v, e))) => finding_views(kept@) == v && enabled == e,
            (Err(e), Err(m)) => e@ == m,
            _ => false,
        },
{
    let ghost sel = selectors_view(*select);
    let ghost ign = selectors_view(*ignore);
    let ghost fv = file_view(*file);
    let ghost target = select_findings(sel, ign, config@, fv, finding_views(findings@), 0, any);
    let mut current = findings;
    let mut enabled = any;
    let mut k: usize = 0;
    while k < RULE_COUNT
        invariant
            0 <= k <= RULE_COUNT,
            sel == selectors_view(*select),
            ign == selectors_view(*ignore),
            fv == file_view(*file),
            select_findings(sel, ign, config@, fv, finding_views(current@), k as int, enabled)
                == target,
        decreases RULE_COUNT - k,
    {
        let code = to_chars(rule_info(k).code);
        assert(code@ == rule_codes()[k as int]);
        if !resolve_rule_enabled(select, ignore, config, &code) {
            remove_code(&mut current, &code);
        } else {
            match is_ignored_for_file(
                &file.path,
                &file.absolute_path,
                &file.absolute_root,
                config,
                &code,
            ) {
                Err(e) => {
                    assert(ignored_for_file(
                        fv.path,
                        fv.absolute_path,
                        fv.absolute_root,
                        config@,
                        code@,
                    ) == Err::<bool, Seq<char>>(e@));
                    return Err(e);
                },
                Ok(true) => {
                    remove_code(&mut current, &code);
                    enabled = true;
                },
                Ok(false) => {
                    enabled = true;
                },
            }
        }
        k = k + 1;
    }
    Ok((current, enabled))
}

/// Checks the files in order; see [`check_files`].
fn check_all_files(
    select: &Option<Vec<Vec<char>>>,
    ignore: &Option<Vec<Vec<char>>>,
    files: &Vec<FileInput>,
) -> (r: Result<(Vec<Finding>, bool), RunError>)
    ensures
        match (
            r,
            check_files(
                selectors_view(*select),
                selectors_view(*ignore),
                file_views(files@),
                0,
                seq![],
                false,
            ),
        ) {
            (Ok((found, enabled)), Ok((v, e))) => finding_views(found@) == v && enabled == e,
            (Err(e), Err(m)) => e@ == m,
            _ => false,
        },
{
    let ghost sel = selectors_view(*select);
    let ghost ign = selectors_view(*ignore);
    let ghost fvs = file_views(files@);
    let ghost target = check_files(sel, ign, fvs, 0, seq![], false);
    let mut found: Vec<Finding> = Vec::new();
    let mut any = false;
    let mut j: usize = 0;
    assert(finding_views(found@) =~= Seq::<FindingView>::empty());
    while j < files.len()
        invariant
            0 <= j <= files@.len(),
            sel == selectors_view(*select),
            ign == selectors_view(*ignore),
            fvs == file_views(files@),
            target == check_files(sel, ign, fvs, 0, seq![], false),
            check_files(sel, ign, fvs, j as int, finding_views(found@), any) == target,
        decreases files@.len() - j,
    {
        let file = &files[j];
        assert(fvs[j as int] == file_view(*file));
        let config = match &file.config {
            Err(e) => {
                assert(fvs[j as int].config == Err::<ConfigView, Seq<char>>(e@));
                return Err(copy_error(e));
            },
            Ok(c) => c,
        };
        let source = match &file.source {
            Err(e) => {
                assert(fvs[j as int].config == Ok::<ConfigView, Seq<char>>(config@));
                assert(fvs[j as int].source == Err::<(Seq<char>, ParseView), Seq<char>>(e@));
                return Err(copy_error(e));
            },
            Ok(s) => s,
        };
        let findings = check_source(&file.path, source);
        match select_file_findings(select, ignore, config, file, findings, any) {
            Err(e) => {
                return Err(e);
            },
            Ok((kept, enabled)) => {
                let mut kept = kept;
                let ghost before = finding_views(found@);
                let ghost added = finding_views(kept@);
                found.append(&mut kept);
                assert(finding_views(found@) =~= before + added);
                any = enabled;
            },
        }
        j = j + 1;
    }
    Ok((found, any))
}

/// Whether some rule of the table runs under the configuration; see [`some_rule_runs_from`].
fn any_rule_enabled_exec(
    select: &Option<Vec<Vec<char>>>,
    ignore: &Option<Vec<Vec<char>>>,
    config: &LoadedConfig,
) -> (r: bool)
    ensures
        r == some_rule_runs_from(selectors_view(*select), selectors_view(*ignore), config@, 0),
{
    let mut k: usize = 0;
    while k < RULE_COUNT
        invariant
            0 <= k <= RULE_COUNT,
            forall|m: int|
                0 <= m < k ==> !#[trigger] rule_enabled(
                    selectors_view(*select),
                    selectors_view(*ignore),
                    config@,
                    rule_codes()[m],
                ),
        decreases RULE_COUNT - k,
    {
        let code = to_chars(rule_info(k).code);
        if resolve_rule_enabled(select, ignore, config, &code) {
            return true;
        }
        k = k + 1;
    }
    false
}

/// Runs `gruff check` on what was read; see [`check_run`].
fn run_check(args: CheckArguments, input: RunInput) -> (r: Result<Report, RunError>)
    ensures
        match (
            r,
            check_run(
                args,
                match input.files {
                    Ok(fs) => Ok(file_views(fs@)),
                    Err(e) => Err(e@),
                },
                match input.explicit_config {
                    Some(c) => Some(config_result(c)),
                    None => None,
                },
                config_result(input.base_config),
            ),
        ) {
            (Ok(report), Ok(v)) => report@ == v && in_order(report@.findings),
            (Err(e), Err(m)) => e@ == m,
            _ => false,
        },
{
    let select = selectors_of(&args.select);
    let ignore = selectors_of(&args.ignore);
    match &select {
        Some(s) => match validate_rules(s) {
            Err(message) => {
                return Err(error_of(&message));
            },
            Ok(()) => {},
        },
        None => {},
    }
    match &ignore {
        Some(i) => match validate_rules(i) {
            Err(message) => {
                return Err(error_of(&message));
            },
            Ok(()) => {},
        },
        None => {},
    }
    let RunInput { files, explicit_config, base_config } = input;
    let files = match files {
        Err(e) => {
            return Err(e);
        },
        Ok(fs) => fs,
    };
    match &explicit_config {
        Some(Err(e)) => {
            return Err(copy_error(e));
        },
        _ => {},
    }
    let base = match &base_config {
        Err(e) => {
            return Err(copy_error(e));
        },
        Ok(b) => b,
    };
    let output_format = match args.output_format {
        Some(f) => f,
        None => match base.output_format() {
            Some(f) => f,
            None => OutputFormat::Full,
        },
    };
    let (found, any) = match check_all_files(&select, &ignore, &files) {
        Err(e) => {
            return Err(e);
        },
        Ok(r) => r,
    };
    let enabled = if files.len() == 0 {
        any_rule_enabled_exec(&select, &ignore, base)
    } else {
        any
    };
    let findings = sort_findings_exec(found);
    Ok(Report { findings, output_format, no_rules_enabled: !enabled })
}

/// Runs the command on what was read: the report to write, or why the run failed; see
/// [`run_result`].
pub fn run(arguments: Arguments, input: RunInput) -> (r: Result<Report, RunError>)
    ensures
        match (r, run_result(arguments, input)) {
            (Ok(report), Ok(v)) => report@ == v && in_order(report@.findings),
            (Err(e), Err(m)) => e@ == m,
            _ => false,
        },
{
    match arguments.command {
        Command::Check(args) => run_check(args, input),
    }
}

/// The exit status of a run; see [`exit_status_of`].
pub fn exit_status(report: &Report, broken_pipe: bool) -> (status: u8)
    ensures
        status == exit_status_of(report@, broken_pipe),
{
    if broken_pipe || report.findings.len() == 0 {
        0
    } else {
        1
    }
}

/// The error of a failed write or read.
#[verifier::external_type_specification]
#[verifier::external_body]
pub struct ExIoError(std::io::Error);

/// Whether the error's kind is `std::io::ErrorKind::BrokenPipe`.
pub uninterp spec fn io_error_is_broken_pipe(error: std::io::Error) -> bool;

/// Calls `std::io::Error::kind` and tells `ErrorKind::BrokenPipe` from the other kinds. The
/// contract names the result: the kind is a field of the error, the same on every call.
#[verifier::external_body]
fn is_broken_pipe(error: &std::io::Error) -> (r: bool)
    ensures
        r == io_error_is_broken_pipe(*error),
{
    error.kind() == std::io::ErrorKind::BrokenPipe
}

/// Renders the error with its `Display` impl (`ToString::to_string`). Nothing is stated of
/// the text: for an error of the operating system it comes from the system's message table.
#[verifier::external_body]
fn io_error_text(error: &std::io::Error) -> String {
    error.to_string()
}

/// A failed write as values: whether the reader closed the pipe, and the error's text.
pub struct WriteFailure {
    pub broken_pipe: bool,
    pub text: String,
}

/// The message of a run that failed to write its report.
pub open spec fn write_error_message(text: Seq<char>) -> Seq<char> {
    "Failed to write output: "@ + text
}

/// What writing the report led to: `Ok(false)` when it was written, `Ok(true)` when the
/// reader closed the pipe, and for any other failure the error that names its text.
pub open spec fn write_outcome(written: bool, broken_pipe: bool, text: Seq<char>) -> Result<bool, Seq<char>> {
    if written {
        Ok(false)
    } else if broken_pipe {
        Ok(true)
    } else {
        Err(write_error_message(text))
    }
}

/// What a failed write leads to: when the reader closed the pipe the run ends quietly
/// (`Ok(true)`), any other failure fails the run with the error's text.
pub fn write_failure(broken_pipe: bool, text: String) -> (r: Result<bool, RunError>)
    ensures
        match (r, write_outcome(false, broken_pipe, text@)) {
            (Ok(b), Ok(c)) => b == c,
            (Err(e), Err(m)) => e@ == m,
            _ => false,
        },
{
    if broken_pipe {
        Ok(true)
    } else {
        let mut message: Vec<char> = Vec::new();
        push_str(&mut message, "Failed to write output: ");
        push_str(&mut message, text.as_str());
        Err(error_of(&message))
    }
}

/// What writing the report led to, for a failure given as values; see [`write_outcome`].
pub fn handle_write_result(result: Result<(), WriteFailure>) -> (r: Result<bool, RunError>)
    ensures
        match (
            r,
            match result {
                Ok(()) => write_outcome(true, false, seq![]),
                Err(f) => write_outcome(false, f.broken_pipe, f.text@),
            },
        ) {
            (Ok(b), Ok(c)) => b == c,
            (Err(e), Err(m)) => e@ == m,
            _ => false,
        },
{
    match result {
        Ok(()) => Ok(false),
        Err(failure) => write_failure(failure.broken_pipe, failure.text),
    }
}

/// What writing the report led to: `Ok(false)` when it was written; for a failure, `Ok(true)`
/// exactly when its kind is a broken pipe, else an error whose message begins with
/// `Failed to write output: ` and goes on with the error's text.
pub fn handle_output_result(result: Result<(), std::io::Error>) -> (r: Result<bool, RunError>)
    ensures
        match result {
            Ok(()) => r matches Ok(false),
            Err(error) => if io_error_is_broken_pipe(error) {
                r matches Ok(true)
            } else {
                r matches Err(e) && write_error_message(seq![]).is_prefix_of(e@)
            },
        },
{
    match result {
        Ok(()) => Ok(false),
        Err(error) => {
            let broken_pipe = is_broken_pipe(&error);
            let text = io_error_text(&error);
            let r = write_failure(broken_pipe, text);
            proof {
                if !broken_pipe {
                    let m = write_error_message(text@);
                    assert(write_error_message(seq![]) =~= "Failed to write output: "@);
                    assert(m.subrange(0, write_error_message(seq![]).len() as int)
                        =~= write_error_message(seq![]));
                }
            }
            r
        },
    }
}

/// Drops the findings of the code, keeping the others in order.
fn remove_code(findings: &mut Vec<Finding>, code: &Vec<char>)
    ensures
        finding_views(final(findings)@) == without_code(finding_views(old(findings)@), code@),
{
    let ghost orig = finding_views(findings@);
    let ghost p = not_of_code(code@);
    let ghost mut k: int = 0;
    let mut i: usize = 0;
    assert(orig.take(0).filter(p) =~= Seq::<FindingView>::empty());
    assert(finding_views(findings@) =~= orig.take(0).filter(p) + orig.skip(0));
    while i < findings.len()
        invariant
            0 <= i <= findings@.len(),
            0 <= k <= orig.len(),
            p == not_of_code(code@),
            i == orig.take(k).filter(p).len(),
            finding_views(findings@) == orig.take(k).filter(p) + orig.skip(k),
        decreases orig.len() - k,
    {
        assert(finding_views(findings@)[i as int] == orig[k]);
        assert(findings@[i as int]@ == orig[k]);
        proof {
            lemma_filter_take_step(orig, p, k);
        }
        if chars_eq(&findings[i].code, code) {
            let ghost before = findings@;
            findings.remove(i);
            assert(finding_views(findings@) =~= finding_views(before).remove(i as int));
            assert(finding_views(findings@) =~= orig.take(k + 1).filter(p) + orig.skip(k + 1));
        } else {
            assert(finding_views(findings@) =~= orig.take(k + 1).filter(p) + orig.skip(k + 1));
            i = i + 1;
        }
        proof {
            k = k + 1;
        }
    }
    assert(orig.skip(k).len() == 0);
    assert(k == orig.len());
    assert(orig.take(k) =~= orig);
    assert(finding_views(findings@) =~= orig.filter(p));
}

/// Whether one finding sorts before another; see [`sorts_before`].
fn sorts_before_exec(a: &Finding, b: &Finding) -> (r: bool)
    ensures
        r == sorts_before(a@, b@),
        r ==> !sorts_before(b@, a@),
{
    match order_paths(&a.path, &b.path) {
        PathOrder::Less => true,
        PathOrder::Greater => false,
        PathOrder::Equal => a.location.row < b.location.row || (a.location.row == b.location.row
            && a.location.column < b.location.column),
    }
}

/// Sorts the findings by path, row and column, keeping the order of equal ones; see
/// [`sort_findings`].
fn sort_findings_exec(findings: Vec<Finding>) -> (sorted: Vec<Finding>)
    ensures
        finding_views(sorted@) == sort_findings(finding_views(findings@)),
        in_order(finding_views(sorted@)),
{
    let ghost orig = finding_views(findings@);
    let mut rest = findings;
    let mut sorted: Vec<Finding> = Vec::new();
    let ghost mut k: int = 0;
    assert(orig.take(0) =~= Seq::<FindingView>::empty());
    assert(finding_views(sorted@) =~= sort_findings(orig.take(0)));
    while rest.len() > 0
        invariant
            0 <= k <= orig.len(),
            finding_views(rest@) == orig.skip(k),
            finding_views(sorted@) == sort_findings(orig.take(k)),
            in_order(finding_views(sorted@)),
        decreases rest@.len(),
    {
        assert(finding_views(rest@).len() == rest@.len());
        assert(finding_views(rest@)[0] == rest@[0]@);
        assert(orig.skip(k)[0] == orig[k]);
        let ghost before_rest = rest@;
        let f = rest.remove(0);
        assert(f@ == orig[k]);
        let ghost s = finding_views(sorted@);
        let mut p: usize = sorted.len();
        assert(s.take(s.len() as int) =~= s);
        while p > 0
            invariant
                0 <= p <= sorted@.len(),
                s == finding_views(sorted@),
                insert_position(s.take(p as int), f@) == insert_position(s, f@),
                p == s.len() || !sorts_before(s[p as int], f@),
            ensures
                0 <= p <= sorted@.len(),
                insert_position(s.take(p as int), f@) == insert_position(s, f@),
                p == 0 || !sorts_before(f@, s[p - 1]),
                p == s.len() || !sorts_before(s[p as int], f@),
            decreases p,
        {
            if !sorts_before_exec(&f, &sorted[p - 1]) {
                assert(s[p - 1] == sorted@[p - 1]@);
                break;
            }
            assert(s[p - 1] == sorted@[p - 1]@);
            assert(s.take(p as int).last() == sorted@[p - 1]@);
            assert(s.take(p as int).drop_last() =~= s.take(p - 1));
            p = p - 1;
        }
        assert(s.take(s.len() as int) =~= s);
        proof {
            if p > 0 {
                assert(s.take(p as int).last() == sorted@[p - 1]@);
            }
            assert(insert_position(s, f@) == p);
        }
        let ghost before = sorted@;
        sorted.insert(p, f);
        assert(finding_views(sorted@) =~= s.insert(p as int, f@));
        proof {
            let r = s.insert(p as int, f@);
            assert forall|i: int| 0 <= i < r.len() - 1 implies !sorts_before(#[trigger] r[i + 1], r[i]) by {
                if i + 1 < p {
                    assert(r[i] == s[i] && r[i + 1] == s[i + 1]);
                } else if i + 1 == p {
                    assert(r[i] == s[i] && r[i + 1] == f@);
                } else if i == p {
                    assert(r[i] == f@ && r[i + 1] == s[i]);
                } else {
                    assert(r[i] == s[i - 1] && r[i + 1] == s[i]);
                    assert(!sorts_before(s[(i - 1) + 1], s[i - 1]));
                }
            }
        }
        assert(orig.take(k + 1).drop_last() =~= orig.take(k));
        assert(orig.take(k + 1).last() == orig[k]);
        assert(finding_views(rest@) =~= finding_views(before_rest).remove(0));
        assert(finding_views(rest@) =~= orig.skip(k + 1));
        proof {
            k = k + 1;
        }
    }
    assert(orig.skip(k).len() == 0);
    assert(orig.take(k) =~= orig);
    sorted
}

/// A run exits with failure exactly when it found something and could write it, and with
/// success otherwise.
pub proof fn law_exit_status(report: ReportView, broken_pipe: bool)
    ensures
        exit_status_of(report, broken_pipe) == 1 <==> (!broken_pipe && report.findings.len() > 0),
        exit_status_of(report, broken_pipe) == 0 <==> (broken_pipe || report.findings.len() == 0),
{
}

proof fn lemma_insert_position_bounds(sorted: Seq<FindingView>, f: FindingView)
    ensures
        0 <= insert_position(sorted, f) <= sorted.len(),
    decreases sorted.len(),
{
    if sorted.len() > 0 && sorts_before(f, sorted.last()) {
        lemma_insert_position_bounds(sorted.drop_last(), f);
    }
}

/// Sorting keeps the findings: the same findings, each as many times.
pub proof fn law_sort_keeps_findings(findings: Seq<FindingView>)
    ensures
        sort_findings(findings).to_multiset() == findings.to_multiset(),
        sort_findings(findings).len() == findings.len(),
    decreases findings.len(),
{
    broadcast use vstd::seq_lib::group_to_multiset_ensures;

    if findings.len() == 0 {
        assert(sort_findings(findings) =~= findings);
    } else {
        let rest = findings.drop_last();
        let last = findings.last();
        law_sort_keeps_findings(rest);
        let sorted = sort_findings(rest);
        lemma_insert_position_bounds(sorted, last);
        let p = insert_position(sorted, last);
        assert(sort_findings(findings) == sorted.insert(p, last));
        assert(sorted.insert(p, last).to_multiset() == sorted.to_multiset().insert(last));
        assert(rest.push(last) =~= findings);
        assert(rest.push(last).to_multiset() == rest.to_multiset().insert(last));
    }
}

/// The `m`-th rule of the table loses its findings in the file: it does not run, or a
/// per-file ignore drops it for the file.
pub open spec fn rule_dropped(
    select: Option<Seq<Seq<char>>>,
    ignore: Option<Seq<Seq<char>>>,
    config: ConfigView,
    file: FileView,
    m: int,
) -> bool {
    let code = rule_codes()[m];
    !rule_enabled(select, ignore, config, code) || ignored_for_file(
        file.path,
        file.absolute_path,
        file.absolute_root,
        config,
        code,
    ) == Ok::<bool, Seq<char>>(true)
}

/// The code is that of a rule, from the `k`-th of the table on, that loses its findings.
pub open spec fn dropped_from(
    select: Option<Seq<Seq<char>>>,
    ignore: Option<Seq<Seq<char>>>,
    config: ConfigView,
    file: FileView,
    code: Seq<char>,
    k: int,
) -> bool {
    exists|m: int|
        k <= m < RULE_COUNT && code == rule_codes()[m] && #[trigger] rule_dropped(
            select,
            ignore,
            config,
            file,
            m,
        )
}

proof fn lemma_without_code_contains(findings: Seq<FindingView>, code: Seq<char>, f: FindingView)
    ensures
        without_code(findings, code).contains(f) <==> (findings.contains(f) && f.code != code),
{
    broadcast use vstd::seq_lib::group_filter_ensures;

    let p = not_of_code(code);
    if without_code(findings, code).contains(f) {
        findings.lemma_filter_contains_rev(p, f);
        let i = choose|i: int| 0 <= i < findings.filter(p).len() && findings.filter(p)[i] == f;
        assert(p(findings.filter(p)[i]));
    }
    if findings.contains(f) && f.code != code {
        let i = choose|i: int| 0 <= i < findings.len() && findings[i] == f;
        findings.lemma_filter_contains(p, i);
    }
}

proof fn lemma_select_findings_contains(
    select: Option<Seq<Seq<char>>>,
    ignore: Option<Seq<Seq<char>>>,
    config: ConfigView,
    file: FileView,
    findings: Seq<FindingView>,
    k: int,
    any: bool,
    f: FindingView,
)
    requires
        0 <= k <= RULE_COUNT,
        select_findings(select, ignore, config, file, findings, k, any) is Ok,
    ensures
        select_findings(select, ignore, config, file, findings, k, any)->Ok_0.0.contains(f) <==> (
        findings.contains(f) && !dropped_from(select, ignore, config, file, f.code, k)),
    decreases RULE_COUNT - k,
{
    if k < RULE_COUNT {
        let code = rule_codes()[k];
        let dropped = rule_dropped(select, ignore, config, file, k);
        let next = if dropped {
            without_code(findings, code)
        } else {
            findings
        };
        assert(select_findings(select, ignore, config, file, findings, k, any)
            == select_findings(select, ignore, config, file, next, k + 1, true)
            || select_findings(select, ignore, config, file, findings, k, any)
            == select_findings(select, ignore, config, file, next, k + 1, any));
        if rule_enabled(select, ignore, config, code) {
            assert(select_findings(select, ignore, config, file, findings, k, any)
                == select_findings(select, ignore, config, file, next, k + 1, true));
            lemma_select_findings_contains(select, ignore, config, file, next, k + 1, true, f);
        } else {
            lemma_select_findings_contains(select, ignore, config, file, next, k + 1, any, f);
        }
        lemma_without_code_contains(findings, code, f);
        if dropped_from(select, ignore, config, file, f.code, k) {
            let m = choose|m: int|
                k <= m < RULE_COUNT && f.code == rule_codes()[m] && #[trigger] rule_dropped(
                    select,
                    ignore,
                    config,
                    file,
                    m,
                );
            if m > k {
                assert(dropped_from(select, ignore, config, file, f.code, k + 1));
            }
        }
        if dropped_from(select, ignore, config, file, f.code, k + 1) {
            let m = choose|m: int|
                k + 1 <= m < RULE_COUNT && f.code == rule_codes()[m] && #[trigger] rule_dropped(
                    select,
                    ignore,
                    config,
                    file,
                    m,
                );
            assert(dropped_from(select, ignore, config, file, f.code, k));
        }
        if dropped && f.code == code {
            assert(dropped_from(select, ignore, config, file, f.code, k));
        }
    }
}

/// Rule selection keeps a file's finding exactly when the finding's code is not that of a
/// rule which does not run, or which a per-file ignore drops for the file; it adds nothing.
pub proof fn law_selection_drops_exactly_dropped_rules(
    select: Option<Seq<Seq<char>>>,
    ignore: Option<Seq<Seq<char>>>,
    config: ConfigView,
    file: FileView,
    findings: Seq<FindingView>,
    any: bool,
    f: FindingView,
)
    requires
        select_findings(select, ignore, config, file, findings, 0, any) is Ok,
    ensures
        select_findings(select, ignore, config, file, findings, 0, any)->Ok_0.0.contains(f) <==> (
        findings.contains(f) && !dropped_from(select, ignore, config, file, f.code, 0)),
{
    lemma_select_findings_contains(select, ignore, config, file, findings, 0, any, f);
}

proof fn lemma_select_without_rules_succeeds(
    select: Option<Seq<Seq<char>>>,
    ignore: Option<Seq<Seq<char>>>,
    config: ConfigView,
    file: FileView,
    findings: Seq<FindingView>,
    k: int,
    any: bool,
)
    requires
        0 <= k <= RULE_COUNT,
        forall|m: int| 0 <= m < RULE_COUNT ==> !#[trigger] rule_enabled(select, ignore, config, rule_codes()[m]),
    ensures
        select_findings(select, ignore, config, file, findings, k, any) is Ok,
    decreases RULE_COUNT - k,
{
    if k < RULE_COUNT {
        assert(!rule_enabled(select, ignore, config, rule_codes()[k]));
        lemma_select_without_rules_succeeds(
            select,
            ignore,
            config,
            file,
            without_code(findings, rule_codes()[k]),
            k + 1,
            any,
        );
    }
}

/// When no rule of the table runs for a file, selection succeeds and leaves only the file's
/// syntax error, if it has one.
pub proof fn law_without_rules_only_syntax_errors_remain(
    select: Option<Seq<Seq<char>>>,
    ignore: Option<Seq<Seq<char>>>,
    config: ConfigView,
    file: FileView,
    text: Seq<char>,
    parsed: ParseView,
    any: bool,
    f: FindingView,
)
    requires
        forall|m: int| 0 <= m < RULE_COUNT ==> !#[trigger] rule_enabled(select, ignore, config, rule_codes()[m]),
    ensures
        select_findings(select, ignore, config, file, source_findings(file.path, text, parsed), 0, any) is Ok,
        select_findings(select, ignore, config, file, source_findings(file.path, text, parsed), 0, any)->Ok_0.0.contains(f)
            ==> f.code == invalid_syntax_code(),
{
    let findings = source_findings(file.path, text, parsed);
    lemma_select_without_rules_succeeds(select, ignore, config, file, findings, 0, any);
    lemma_select_findings_contains(select, ignore, config, file, findings, 0, any, f);
    if select_findings(select, ignore, config, file, findings, 0, any)->Ok_0.0.contains(f) {
        let i = choose|i: int| 0 <= i < findings.len() && findings[i] == f;
        lemma_source_finding_codes(file.path, text, parsed, i);
        if f.code != invalid_syntax_code() {
            let m = choose|m: int| 0 <= m < RULE_COUNT && findings[i].code == #[trigger] rule_codes()[m];
            assert(!rule_enabled(select, ignore, config, rule_codes()[m]));
            assert(rule_dropped(select, ignore, config, file, m));
            assert(dropped_from(select, ignore, config, file, f.code, 0));
        }
    }
}

proof fn lemma_select_enabled(
    select: Option<Seq<Seq<char>>>,
    ignore: Option<Seq<Seq<char>>>,
    config: ConfigView,
    file: FileView,
    findings: Seq<FindingView>,
    k: int,
    any: bool,
)
    requires
        0 <= k <= RULE_COUNT,
        select_findings(select, ignore, config, file, findings, k, any) is Ok,
    ensures
        select_findings(select, ignore, config, file, findings, k, any)->Ok_0.1 <==> (any
            || some_rule_runs_from(select, ignore, config, k)),
    decreases RULE_COUNT - k,
{
    if k < RULE_COUNT {
        let code = rule_codes()[k];
        let next = if rule_dropped(select, ignore, config, file, k) {
            without_code(findings, code)
        } else {
            findings
        };
        if rule_enabled(select, ignore, config, code) {
            lemma_select_enabled(select, ignore, config, file, next, k + 1, true);
            assert(some_rule_runs_from(select, ignore, config, k));
        } else {
            lemma_select_enabled(select, ignore, config, file, next, k + 1, any);
            if some_rule_runs_from(select, ignore, config, k) {
                let m = choose|m: int|
                    k <= m < RULE_COUNT && #[trigger] rule_enabled(select, ignore, config, rule_codes()[m]);
                assert(m != k);
                assert(some_rule_runs_from(select, ignore, config, k + 1));
            }
            if some_rule_runs_from(select, ignore, config, k + 1) {
                let m = choose|m: int|
                    k + 1 <= m < RULE_COUNT && #[trigger] rule_enabled(select, ignore, config, rule_codes()[m]);
                assert(some_rule_runs_from(select, ignore, config, k));
            }
        }
    }
}

proof fn lemma_check_files_enabled(
    select: Option<Seq<Seq<char>>>,
    ignore: Option<Seq<Seq<char>>>,
    files: Seq<FileView>,
    j: int,
    found: Seq<FindingView>,
    any: bool,
)
    requires
        0 <= j <= files.len(),
        check_files(select, ignore, files, j, found, any) is Ok,
    ensures
        check_files(select, ignore, files, j, found, any)->Ok_0.1 <==> (any
            || some_rule_runs_for_files(select, ignore, files, j)),
    decreases files.len() - j,
{
    if j < files.len() {
        let file = files[j];
        let config = file.config->Ok_0;
        let (text, parsed) = file.source->Ok_0;
        let findings = source_findings(file.path, text, parsed);
        lemma_select_enabled(select, ignore, config, file, findings, 0, any);
        let (kept, enabled) = select_findings(select, ignore, config, file, findings, 0, any)->Ok_0;
        lemma_check_files_enabled(select, ignore, files, j + 1, found + kept, enabled);
        if some_rule_runs_for_files(select, ignore, files, j) {
            let i = choose|i: int|
                j <= i < files.len() && (#[trigger] files[i]).config is Ok && some_rule_runs_from(
                    select,
                    ignore,
                    files[i].config->Ok_0,
                    0,
                );
            if i > j {
                assert(some_rule_runs_for_files(select, ignore, files, j + 1));
            }
        }
        if some_rule_runs_for_files(select, ignore, files, j + 1) {
            let i = choose|i: int|
                j + 1 <= i < files.len() && (#[trigger] files[i]).config is Ok && some_rule_runs_from(
                    select,
                    ignore,
                    files[i].config->Ok_0,
                    0,
                );
            assert(some_rule_runs_for_files(select, ignore, files, j));
        }
        if some_rule_runs_from(select, ignore, config, 0) {
            assert(some_rule_runs_for_files(select, ignore, files, j));
        }
    }
}

/// A run notes that no rule ran exactly when no rule of the table runs for any of its
/// files, or, without files, under the base configuration.
pub proof fn law_no_rules_enabled_exactly_when_no_rule_runs(
    args: CheckArguments,
    files: Seq<FileView>,
    explicit_config: Option<Result<ConfigView, Seq<char>>>,
    base: ConfigView,
)
    requires
        check_run(args, Ok(files), explicit_config, Ok(base)) is Ok,
    ensures
        check_run(args, Ok(files), explicit_config, Ok(base))->Ok_0.no_rules_enabled <==> if files.len()
            == 0 {
            !some_rule_runs_from(strings_option(args.select), strings_option(args.ignore), base, 0)
        } else {
            !some_rule_runs_for_files(strings_option(args.select), strings_option(args.ignore), files, 0)
        },
{
    let select = strings_option(args.select);
    let ignore = strings_option(args.ignore);
    lemma_check_files_enabled(select, ignore, files, 0, seq![], false);
}

/// The finding is one of the file's own findings that rule selection keeps: the file's
/// configuration and source were read, and its code is that of no rule which does not run
/// or which a per-file ignore drops for the file.
pub open spec fn kept_in_file(
    select: Option<Seq<Seq<char>>>,
    ignore: Option<Seq<Seq<char>>>,
    file: FileView,
    f: FindingView,
) -> bool {
    match (file.config, file.source) {
        (Ok(config), Ok((text, parsed))) => source_findings(file.path, text, parsed).contains(f)
            && !dropped_from(select, ignore, config, file, f.code, 0),
        _ => false,
    }
}

proof fn lemma_concat_contains(a: Seq<FindingView>, b: Seq<FindingView>, f: FindingView)
    ensures
        (a + b).contains(f) <==> (a.contains(f) || b.contains(f)),
{
    if (a + b).contains(f) {
        let i = choose|i: int| 0 <= i < (a + b).len() && (a + b)[i] == f;
        if i < a.len() {
            assert(a[i] == f);
        } else {
            assert(b[i - a.len()] == f);
        }
    }
    if a.contains(f) {
        let i = choose|i: int| 0 <= i < a.len() && a[i] == f;
        assert((a + b)[i] == f);
    }
    if b.contains(f) {
        let i = choose|i: int| 0 <= i < b.len() && b[i] == f;
        assert((a + b)[a.len() + i] == f);
    }
}

proof fn lemma_check_files_contains(
    select: Option<Seq<Seq<char>>>,
    ignore: Option<Seq<Seq<char>>>,
    files: Seq<FileView>,
    j: int,
    found: Seq<FindingView>,
    any: bool,
    f: FindingView,
)
    requires
        0 <= j <= files.len(),
        check_files(select, ignore, files, j, found, any) is Ok,
    ensures
        check_files(select, ignore, files, j, found, any)->Ok_0.0.contains(f) <==> (found.contains(f)
            || exists|i: int| j <= i < files.len() && kept_in_file(select, ignore, #[trigger] files[i], f)),
    decreases files.len() - j,
{
    if j < files.len() {
        let file = files[j];
        let config = file.config->Ok_0;
        let (text, parsed) = file.source->Ok_0;
        let findings = source_findings(file.path, text, parsed);
        lemma_select_findings_contains(select, ignore, config, file, findings, 0, any, f);
        let (kept, enabled) = select_findings(select, ignore, config, file, findings, 0, any)->Ok_0;
        lemma_check_files_contains(select, ignore, files, j + 1, found + kept, enabled, f);
        lemma_concat_contains(found, kept, f);
        assert(kept.contains(f) == kept_in_file(select, ignore, files[j], f));
        if exists|i: int| j <= i < files.len() && kept_in_file(select, ignore, #[trigger] files[i], f) {
            let i = choose|i: int| j <= i < files.len() && kept_in_file(select, ignore, #[trigger] files[i], f);
            if i > j {
                assert(exists|i: int|
                    j + 1 <= i < files.len() && kept_in_file(select, ignore, #[trigger] files[i], f));
            }
        }
    }
}

/// Over a whole run, a finding is reported exactly when it is one of some checked file's
/// own findings that rule selection keeps for that file: a syntax error always, a rule's
/// finding when the rule runs for the file and no per-file ignore drops it.
pub proof fn law_run_reports_exactly_the_kept_findings(
    args: CheckArguments,
    files: Seq<FileView>,
    explicit_config: Option<Result<ConfigView, Seq<char>>>,
    base: ConfigView,
    f: FindingView,
)
    requires
        check_run(args, Ok(files), explicit_config, Ok(base)) is Ok,
    ensures
        check_run(args, Ok(files), explicit_config, Ok(base))->Ok_0.findings.contains(f) <==> exists|i: int|
            0 <= i < files.len() && kept_in_file(
                strings_option(args.select),
                strings_option(args.ignore),
                #[trigger] files[i],
                f,
            ),
{
    broadcast use vstd::seq_lib::group_to_multiset_ensures;

    let select = strings_option(args.select);
    let ignore = strings_option(args.ignore);
    lemma_check_files_contains(select, ignore, files, 0, seq![], false, f);
    let found = check_files(select, ignore, files, 0, seq![], false)->Ok_0.0;
    law_sort_keeps_findings(found);
    vstd::seq_lib::to_multiset_contains(found, f);
    vstd::seq_lib::to_multiset_contains(sort_findings(found), f);
}

/// The same law over [`run_result`], the contract of [`run`]: a run that succeeds reports a
/// finding exactly when some file it read keeps that finding.
pub proof fn law_run_result_reports_exactly_the_kept_findings(
    arguments: Arguments,
    input: RunInput,
    f: FindingView,
)
    requires
        run_result(arguments, input) is Ok,
    ensures
        match (arguments.command, input.files) {
            (Command::Check(args), Ok(files)) => run_result(arguments, input)->Ok_0.findings.contains(f)
                <==> exists|i: int|
                0 <= i < files@.len() && kept_in_file(
                    strings_option(args.select),
                    strings_option(args.ignore),
                    #[trigger] file_views(files@)[i],
                    f,
                ),
            _ => false,
        },
{
    match arguments.command {
        Command::Check(args) => {
            match input.files {
                Ok(files) => {
                    law_run_reports_exactly_the_kept_findings(
                        args,
                        file_views(files@),
                        match input.explicit_config {
                            Some(c) => Some(config_result(c)),
                            None => None,
                        },
                        config_result(input.base_config)->Ok_0,
                        f,
                    );
                },
                Err(_) => {},
            }
        },
    }
}

} // verus!
