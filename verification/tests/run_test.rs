use gruff::check::Parsed;
use gruff::check::SourceFile;
use gruff::check::SyntaxError;
use gruff::config::load_raw_config;
use gruff::config::LoadedConfig;
use gruff::config::OutputFormat;
use gruff::config::PerFileEntry;
use gruff::config::RawConfig;
use gruff::config::RawLintConfig;
use gruff::report::run;
use gruff::report::Arguments;
use gruff::report::CheckArguments;
use gruff::report::Command;
use gruff::report::FileInput;
use gruff::report::Report;
use gruff::report::RunInput;
use gruff::syntax::Expr;
use gruff::syntax::FunctionDef;
use gruff::syntax::Identifier;
use gruff::syntax::Parameter;
use gruff::syntax::Parameters;
use gruff::syntax::Stmt;
use gruff::syntax::TextRange;
use gruff::syntax::Token;
use gruff::syntax::TokenKind;
use gruff::RunError;

fn range(start: usize, end: usize) -> TextRange {
    TextRange { start, end }
}

/// `def _load(path=None):\n    ...\n`, which GR001 and GR002 both flag.
fn defaulted_source() -> SourceFile {
    let text = "def _load(path=None):\n    ...\n";
    let module = vec![Stmt::FunctionDef(FunctionDef {
        name: Identifier { id: "_load".to_string(), range: range(4, 9) },
        is_async: false,
        decorators: Vec::new(),
        type_params: Vec::new(),
        parameters: Parameters {
            posonlyargs: Vec::new(),
            args: vec![Parameter {
                name: Identifier { id: "path".to_string(), range: range(10, 14) },
                annotation: None,
                default: Some(Box::new(Expr::NoneLiteral { range: range(15, 19) })),
            }],
            vararg: None,
            kwonlyargs: Vec::new(),
            kwarg: None,
        },
        returns: None,
        body: vec![Stmt::Expr {
            value: Expr::EllipsisLiteral { range: range(26, 29) },
            range: range(26, 29),
        }],
        range: range(0, 29),
    })];
    let tokens = vec![
        Token { kind: TokenKind::Newline, range: range(21, 22) },
        Token { kind: TokenKind::Newline, range: range(29, 30) },
    ];
    SourceFile::new(text.to_string(), Ok(Parsed { module, tokens })).unwrap()
}

fn strings(values: &[&str]) -> Vec<String> {
    values.iter().map(|v| v.to_string()).collect()
}

fn arguments(select: Option<&[&str]>, ignore: Option<&[&str]>, format: Option<OutputFormat>) -> Arguments {
    Arguments {
        command: Command::Check(CheckArguments {
            paths: strings(&["."]),
            select: select.map(strings),
            ignore: ignore.map(strings),
            output_format: format,
            config: None,
            isolated: false,
        }),
    }
}

fn file(path: &str, config: Result<LoadedConfig, RunError>) -> FileInput {
    FileInput {
        path: path.to_string(),
        config,
        source: Ok(defaulted_source()),
        absolute_path: Ok(format!("/work/{path}")),
        absolute_root: Ok("/work".to_string()),
    }
}

fn input(files: Vec<FileInput>, base: LoadedConfig) -> RunInput {
    RunInput { files: Ok(files), explicit_config: None, base_config: Ok(base) }
}

fn config(select: &[&str], ignore: &[&str], per_file: &[(&str, &[&str])], format: Option<OutputFormat>) -> LoadedConfig {
    let raw = RawConfig {
        lint: RawLintConfig {
            select: strings(select),
            ignore: strings(ignore),
            per_file_ignores: per_file
                .iter()
                .map(|(pattern, rules)| PerFileEntry { pattern: pattern.to_string(), rules: strings(rules) })
                .collect(),
        },
        output_format: format,
    };
    let patterns = vec![None; per_file.len()];
    load_raw_config("/work".to_string(), raw, Some("/work".to_string()), patterns).unwrap()
}

fn codes_and_paths(report: &Report) -> Vec<(String, String)> {
    report
        .findings
        .iter()
        .map(|f| (f.path.clone(), f.code.iter().collect()))
        .collect()
}

#[test]
fn rejects_an_unknown_command_line_selector() {
    let error = run(arguments(Some(&["GR999"]), None, None), input(Vec::new(), LoadedConfig::empty()))
        .err()
        .unwrap();
    assert_eq!(error.message(), "Unknown rule selector: GR999");
    let error = run(arguments(Some(&["GR001"]), Some(&["XY"]), None), input(Vec::new(), LoadedConfig::empty()))
        .err()
        .unwrap();
    assert_eq!(error.message(), "Unknown rule selector: XY");
}

#[test]
fn sorts_findings_by_path_then_position() {
    let files = vec![file("b.py", Ok(LoadedConfig::empty())), file("a.py", Ok(LoadedConfig::empty()))];
    let report = run(arguments(Some(&["GR00"]), None, None), input(files, LoadedConfig::empty())).unwrap();
    assert_eq!(
        codes_and_paths(&report),
        [
            ("a.py".to_string(), "GR001".to_string()),
            ("a.py".to_string(), "GR002".to_string()),
            ("b.py".to_string(), "GR001".to_string()),
            ("b.py".to_string(), "GR002".to_string()),
        ]
    );
    assert!(!report.no_rules_enabled);
    assert_eq!(report.output_format, OutputFormat::Full);
}

#[test]
fn exact_selection_beats_a_prefix_ignore() {
    let files = vec![file("a.py", Ok(LoadedConfig::empty()))];
    let report = run(arguments(Some(&["GR001"]), Some(&["GR00"]), None), input(files, LoadedConfig::empty())).unwrap();
    assert_eq!(codes_and_paths(&report), [("a.py".to_string(), "GR001".to_string())]);
}

#[test]
fn an_equally_specific_ignore_wins() {
    let files = vec![file("a.py", Ok(LoadedConfig::empty()))];
    let report = run(arguments(Some(&["GR001"]), Some(&["GR001"]), None), input(files, LoadedConfig::empty())).unwrap();
    assert!(report.findings.is_empty());
    assert!(report.no_rules_enabled);
}

#[test]
fn all_selects_every_rule() {
    let files = vec![file("a.py", Ok(LoadedConfig::empty()))];
    let report = run(arguments(Some(&["ALL"]), None, None), input(files, LoadedConfig::empty())).unwrap();
    assert_eq!(report.findings.len(), 2);
}

#[test]
fn notes_when_no_rule_runs() {
    let files = vec![file("a.py", Ok(LoadedConfig::empty()))];
    let report = run(arguments(None, None, None), input(files, LoadedConfig::empty())).unwrap();
    assert!(report.findings.is_empty());
    assert!(report.no_rules_enabled);

    let report = run(arguments(None, None, None), input(Vec::new(), config(&["GR002"], &[], &[], None))).unwrap();
    assert!(!report.no_rules_enabled);
    let report = run(arguments(None, None, None), input(Vec::new(), LoadedConfig::empty())).unwrap();
    assert!(report.no_rules_enabled);
}

#[test]
fn follows_the_configuration_without_command_line_selectors() {
    let base = config(&["GR002"], &[], &[], Some(OutputFormat::Json));
    let files = vec![file("a.py", Ok(config(&["GR002"], &[], &[], Some(OutputFormat::Json))))];
    let report = run(arguments(None, None, None), input(files, base)).unwrap();
    assert_eq!(codes_and_paths(&report), [("a.py".to_string(), "GR002".to_string())]);
    assert_eq!(report.output_format, OutputFormat::Json);
}

#[test]
fn command_line_format_and_selection_override_the_configuration() {
    let base = config(&["GR002"], &[], &[], Some(OutputFormat::Json));
    let files = vec![file("a.py", Ok(config(&["GR002"], &[], &[], Some(OutputFormat::Json))))];
    let report = run(arguments(Some(&["GR001"]), None, Some(OutputFormat::Concise)), input(files, base)).unwrap();
    assert_eq!(codes_and_paths(&report), [("a.py".to_string(), "GR001".to_string())]);
    assert_eq!(report.output_format, OutputFormat::Concise);
}

#[test]
fn a_command_line_ignore_disables_a_configured_rule() {
    let base = config(&["GR00"], &[], &[], None);
    let files = vec![file("a.py", Ok(config(&["GR00"], &[], &[], None)))];
    let report = run(arguments(None, Some(&["GR002"]), None), input(files, base)).unwrap();
    assert_eq!(codes_and_paths(&report), [("a.py".to_string(), "GR001".to_string())]);
}

#[test]
fn per_file_ignores_drop_rules_for_matching_files() {
    let per_file: &[(&str, &[&str])] = &[("ignored.py", &["GR001"])];
    let files = vec![
        file("finding.py", Ok(config(&["GR001"], &[], per_file, None))),
        file("ignored.py", Ok(config(&["GR001"], &[], per_file, None))),
    ];
    let report = run(arguments(None, None, None), input(files, config(&["GR001"], &[], per_file, None))).unwrap();
    assert_eq!(codes_and_paths(&report), [("finding.py".to_string(), "GR001".to_string())]);
}

#[test]
fn negated_per_file_ignores_drop_rules_for_other_files() {
    let per_file: &[(&str, &[&str])] = &[("!keep.py", &["GR001"])];
    let files = vec![
        file("keep.py", Ok(config(&["GR001"], &[], per_file, None))),
        file("other.py", Ok(config(&["GR001"], &[], per_file, None))),
    ];
    let report = run(arguments(None, None, None), input(files, config(&["GR001"], &[], per_file, None))).unwrap();
    assert_eq!(codes_and_paths(&report), [("keep.py".to_string(), "GR001".to_string())]);
}

#[test]
fn absolute_per_file_patterns_are_made_relative_to_the_configuration() {
    let per_file: &[(&str, &[&str])] = &[("/work/ignored.py", &["GR001"])];
    let files = vec![file("ignored.py", Ok(config(&["GR001"], &[], per_file, None)))];
    let report = run(arguments(None, None, None), input(files, config(&["GR001"], &[], per_file, None))).unwrap();
    assert!(report.findings.is_empty());
}

#[test]
fn an_unresolvable_file_fails_per_file_matching() {
    let per_file: &[(&str, &[&str])] = &[("ignored.py", &["GR001"])];
    let mut missing = file("gone.py", Ok(config(&["GR001"], &[], per_file, None)));
    missing.absolute_path = Err("No such file or directory".to_string());
    let error = run(arguments(None, None, None), input(vec![missing], LoadedConfig::empty())).err().unwrap();
    assert_eq!(error.message(), "Failed to resolve gone.py: No such file or directory");
}

#[test]
fn reading_and_configuration_failures_end_the_run() {
    let mut unreadable = file("a.py", Ok(LoadedConfig::empty()));
    unreadable.source = Err(RunError("Failed to read a.py: denied".to_string()));
    let error = run(arguments(Some(&["GR001"]), None, None), input(vec![unreadable], LoadedConfig::empty()))
        .err()
        .unwrap();
    assert_eq!(error.message(), "Failed to read a.py: denied");

    let broken = file("a.py", Err(RunError("Failed to parse pyproject.toml".to_string())));
    let error = run(arguments(Some(&["GR001"]), None, None), input(vec![broken], LoadedConfig::empty()))
        .err()
        .unwrap();
    assert_eq!(error.message(), "Failed to parse pyproject.toml");

    let failed = RunInput {
        files: Err(RunError("Path does not exist: nowhere".to_string())),
        explicit_config: None,
        base_config: Ok(LoadedConfig::empty()),
    };
    let error = run(arguments(None, None, None), failed).err().unwrap();
    assert_eq!(error.message(), "Path does not exist: nowhere");
}

#[test]
fn rejects_invalid_configurations() {
    let raw = RawConfig {
        lint: RawLintConfig { select: strings(&["GR001", "NOPE"]), ignore: Vec::new(), per_file_ignores: Vec::new() },
        output_format: None,
    };
    let error = load_raw_config("/work".to_string(), raw, None, Vec::new()).err().unwrap();
    assert_eq!(error.message(), "Unknown rule selector: NOPE");

    let raw = RawConfig {
        lint: RawLintConfig {
            select: Vec::new(),
            ignore: Vec::new(),
            per_file_ignores: vec![PerFileEntry { pattern: "[".to_string(), rules: strings(&["GR001"]) }],
        },
        output_format: None,
    };
    let error = load_raw_config("/work".to_string(), raw, None, vec![None]).err().unwrap();
    assert!(error.message().starts_with("Invalid per-file ignore `[`: "));
}

#[test]
fn without_rules_only_syntax_errors_remain() {
    let error = SyntaxError { message: "Expected ')', found newline".to_string(), range: range(11, 12) };
    let broken = SourceFile::new("def broken(\n".to_string(), Err(error)).unwrap();
    let mut invalid = file("invalid.py", Ok(LoadedConfig::empty()));
    invalid.source = Ok(broken);
    let files = vec![invalid, file("a.py", Ok(LoadedConfig::empty()))];
    let report = run(arguments(None, None, None), input(files, LoadedConfig::empty())).unwrap();
    assert_eq!(codes_and_paths(&report), [("invalid.py".to_string(), "invalid-syntax".to_string())]);
    assert!(report.no_rules_enabled);
}

#[test]
fn per_file_ignores_keep_the_codes_they_do_not_name() {
    let per_file: &[(&str, &[&str])] = &[("ignored.py", &["GR001"])];
    let files = vec![file("ignored.py", Ok(config(&["GR00"], &[], per_file, None)))];
    let report = run(arguments(None, None, None), input(files, config(&["GR00"], &[], per_file, None))).unwrap();
    assert_eq!(codes_and_paths(&report), [("ignored.py".to_string(), "GR002".to_string())]);
}

#[test]
fn a_loaded_configuration_keeps_its_directory_and_format() {
    let loaded = config(&["GR001"], &[], &[("tests/*.py", &["GR002"])], Some(OutputFormat::Github));
    assert_eq!(loaded.root(), "/work");
    assert_eq!(loaded.output_format(), Some(OutputFormat::Github));
    let copy = loaded.duplicate();
    assert_eq!(copy.root(), "/work");
    assert_eq!(copy.output_format(), Some(OutputFormat::Github));
    assert_eq!(LoadedConfig::empty().output_format(), None);
}

#[test]
fn splits_negation_and_resolves_per_file_patterns() {
    assert_eq!(
        gruff::config::split_negation_exec(&"!keep.py".to_string()),
        ("keep.py".to_string(), true)
    );
    assert_eq!(gruff::config::split_negation_exec(&"tests/*.py".to_string()), ("tests/*.py".to_string(), false));
    let root = "/work".to_string();
    assert_eq!(gruff::config::get_per_file_pattern(&"src/*.py".to_string(), &root, &None, &None), "src/*.py");
    assert_eq!(gruff::config::get_per_file_pattern(&"/work/src/*.py".to_string(), &root, &None, &None), "src/*.py");
    assert_eq!(
        gruff::config::get_per_file_pattern(
            &"/link/src/a.py".to_string(),
            &root,
            &Some("/real/src/a.py".to_string()),
            &Some("/real".to_string()),
        ),
        "src/a.py"
    );
    assert_eq!(gruff::config::get_per_file_pattern(&"/elsewhere/a.py".to_string(), &root, &None, &None), "/elsewhere/a.py");
}
