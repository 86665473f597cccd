use gruff::check::Finding;
use gruff::config::OutputFormat;
use gruff::render::finding_name;
use gruff::render::render_concise;
use gruff::render::render_full;
use gruff::render::render_github;
use gruff::report::exit_status;
use gruff::report::handle_output_result;
use gruff::report::handle_write_result;
use gruff::report::WriteFailure;
use gruff::report::write_failure;
use gruff::report::Report;
use gruff::text::Location;
use std::io;

fn chars(s: &str) -> Vec<char> {
    s.chars().collect()
}

fn finding(
    path: &str,
    code: &str,
    message: &str,
    start: (usize, usize),
    end: (usize, usize),
    source_line: &str,
) -> Finding {
    Finding {
        path: path.to_string(),
        code: chars(code),
        message: chars(message),
        location: Location { row: start.0, column: start.1 },
        end_location: Location { row: end.0, column: end.1 },
        noqa_row: Some(start.0),
        source_line: chars(source_line),
    }
}

#[test]
fn handles_broken_output_pipes() {
    let error = io::Error::new(io::ErrorKind::BrokenPipe, "closed");

    assert!(handle_output_result(Err(error)).unwrap());
}

#[test]
fn written_output_is_no_broken_pipe() {
    assert!(!handle_output_result(Ok(())).unwrap());
}

#[test]
fn other_write_failures_fail_the_run() {
    let error = io::Error::new(io::ErrorKind::PermissionDenied, "denied");
    let failure = handle_output_result(Err(error)).err().unwrap();
    assert_eq!(failure.message(), "Failed to write output: denied");
}

#[test]
fn write_failure_names_the_error_text() {
    assert!(write_failure(true, "closed".to_string()).unwrap());
    let failure = write_failure(false, "disk full".to_string()).err().unwrap();
    assert_eq!(failure.message(), "Failed to write output: disk full");
}

#[test]
fn summary_counts_findings() {
    assert_eq!(render_concise(&Vec::new()), "All checks passed!\n");
    assert_eq!(render_full(&Vec::new()), "All checks passed!\n");
    let one = vec![finding("a.py", "GR001", "m", (1, 1), (1, 2), "x")];
    assert!(render_concise(&one).ends_with("Found 1 finding.\n"));
    let two = vec![
        finding("a.py", "GR001", "m", (1, 1), (1, 2), "x"),
        finding("b.py", "GR002", "n", (12, 3), (12, 4), "abcd"),
    ];
    assert_eq!(
        render_concise(&two),
        "a.py:1:1: GR001 m\nb.py:12:3: GR002 n\nFound 2 findings.\n"
    );
}

#[test]
fn full_output_underlines_a_same_row_range() {
    let findings = vec![finding(
        "test_singleline.py",
        "GR008",
        "Test swallows the exception",
        (4, 5),
        (4, 22),
        "    except ValueError:",
    )];
    assert_eq!(
        render_full(&findings),
        "test_singleline.py:4:5: GR008 Test swallows the exception\n  |\n4 |     except ValueError:\n  |     ^^^^^^^^^^^^^^^^^ GR008\n\nFound 1 finding.\n"
    );
}

#[test]
fn full_output_underlines_to_the_end_of_the_row_for_multi_row_ranges() {
    let findings = vec![finding(
        "test_multiline.py",
        "GR008",
        "m",
        (4, 5),
        (7, 6),
        "    except (",
    )];
    assert!(render_full(&findings).contains("  |\n4 |     except (\n  |     ^^^^^^^^ GR008\n"));
}

#[test]
fn full_output_widens_the_gutter_for_multi_digit_rows() {
    let findings = vec![finding("p.py", "GR010", "m", (11, 5), (11, 13), "    if not x:")];
    assert!(render_full(&findings).contains("   |\n11 |     if not x:\n   |     ^^^^^^^^ GR010\n"));
}

#[test]
fn full_output_expands_tabs() {
    let findings = vec![finding("t.py", "GR010", "m", (2, 2), (2, 10), "\tif not x:")];
    assert!(render_full(&findings).contains("2 |     if not x:\n  |     ^^^^^^^^ GR010\n"));
}

#[test]
fn full_output_pads_by_display_width() {
    let findings = vec![finding("w.py", "GR005", "m", (1, 9), (1, 10), "def 日本語(x):")];
    assert!(render_full(&findings).contains("1 | def 日本語(x):\n  |            ^ GR005\n"));
}

#[test]
fn full_output_marks_an_empty_range_with_one_caret() {
    let findings = vec![finding("e.py", "invalid-syntax", "m", (1, 4), (1, 4), "abc")];
    assert!(render_full(&findings).contains("1 | abc\n  |    ^ invalid-syntax\n"));
}

#[test]
fn github_output_gives_columns_only_for_single_row_ranges() {
    let findings = vec![
        finding("f.py", "GR001", "Input `path` must be positional-only or keyword-only", (1, 11), (1, 15), ""),
        finding("g.py", "invalid-syntax", "unterminated", (1, 9), (3, 1), ""),
    ];
    let absolute = vec!["/work/f.py".to_string(), "/work/g.py".to_string()];
    assert_eq!(
        render_github(&findings, &absolute),
        "::error title=Gruff (GR001),file=/work/f.py,line=1,col=11,endLine=1,endColumn=15::/work/f.py:1:11: GR001 Input `path` must be positional-only or keyword-only\n::error title=Gruff (invalid-syntax),file=/work/g.py,line=1,endLine=3::/work/g.py:1:9: invalid-syntax unterminated\n"
    );
}

#[test]
fn names_findings_by_rule() {
    assert_eq!(finding_name(&chars("GR001")), "explicit-non-public-input-conventions");
    assert_eq!(finding_name(&chars("GR011")), "no-single-consumer-module-bindings");
    assert_eq!(finding_name(&chars("GR012")), "explicit-instance-data");
    assert_eq!(finding_name(&chars("invalid-syntax")), "invalid-syntax");
    assert_eq!(finding_name(&chars("GR0")), "invalid-syntax");
}

#[test]
fn exit_status_reflects_findings_and_closed_pipes() {
    let empty = Report { findings: Vec::new(), output_format: OutputFormat::Full, no_rules_enabled: false };
    assert_eq!(exit_status(&empty, false), 0);
    let found = Report {
        findings: vec![finding("a.py", "GR001", "m", (1, 1), (1, 2), "x")],
        output_format: OutputFormat::Concise,
        no_rules_enabled: false,
    };
    assert_eq!(exit_status(&found, false), 1);
    assert_eq!(exit_status(&found, true), 0);
}

#[test]
fn a_write_failure_as_values_decides_the_outcome() {
    assert!(!handle_write_result(Ok(())).unwrap());
    let closed = WriteFailure { broken_pipe: true, text: "Broken pipe (os error 32)".to_string() };
    assert!(handle_write_result(Err(closed)).unwrap());
    let full = WriteFailure { broken_pipe: false, text: "No space left on device".to_string() };
    let failure = handle_write_result(Err(full)).err().unwrap();
    assert_eq!(failure.message(), "Failed to write output: No space left on device");
}
