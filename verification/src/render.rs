//! The report as text: `full` (each finding with its source row underlined), `concise` (one
//! line per finding), `github` (workflow annotations), the closing summary, and the name a
//! finding carries in machine-readable output.
use vstd::prelude::*;
use crate::check::finding_views;
use crate::check::Finding;
use crate::check::FindingView;
use crate::paths::chars_to_string;
use crate::selection::rule_codes;
use crate::selection::rule_info;
use crate::selection::rule_names;
use crate::selection::string_views;
use crate::selection::RULE_COUNT;
use crate::text::chars_eq;
use crate::text::decimal;
use crate::text::decimal_exec;
use crate::text::push_chars;
use crate::text::push_str;
use crate::text::to_chars;

verus! {

/// A character that takes two columns on a terminal: the wide East Asian scripts, Hangul,
/// the full-width forms and the common emoji blocks.
pub open spec fn is_wide(c: char) -> bool {
    let n = c as u32;
    ||| 0x1100 <= n <= 0x115F
    ||| 0x2E80 <= n <= 0x303E
    ||| 0x3041 <= n <= 0x33FF
    ||| 0x3400 <= n <= 0x4DBF
    ||| 0x4E00 <= n <= 0x9FFF
    ||| 0xA000 <= n <= 0xA4CF
    ||| 0xAC00 <= n <= 0xD7A3
    ||| 0xF900 <= n <= 0xFAFF
    ||| 0xFE30 <= n <= 0xFE4F
    ||| 0xFF00 <= n <= 0xFF60
    ||| 0xFFE0 <= n <= 0xFFE6
    ||| 0x1F300 <= n <= 0x1F64F
    ||| 0x1F900 <= n <= 0x1F9FF
    ||| 0x20000 <= n <= 0x3FFFD
}

/// How many columns a character takes: four for a tab, two for a wide character, one for
/// any other.
pub open spec fn char_width(c: char) -> nat {
    if c == '\t' {
        4
    } else if is_wide(c) {
        2
    } else {
        1
    }
}

/// `n` copies of `c`.
pub open spec fn repeat(c: char, n: nat) -> Seq<char> {
    Seq::new(n, |_i: int| c)
}

/// One `fill` for each column that `s` takes.
pub open spec fn columns(s: Seq<char>, fill: char) -> Seq<char>
    decreases s.len(),
{
    if s.len() == 0 {
        seq![]
    } else {
        columns(s.drop_last(), fill) + repeat(fill, char_width(s.last()))
    }
}

/// The row as printed: each tab as four spaces.
pub open spec fn expand_tabs(s: Seq<char>) -> Seq<char>
    decreases s.len(),
{
    if s.len() == 0 {
        seq![]
    } else {
        expand_tabs(s.drop_last()) + if s.last() == '\t' {
            repeat(' ', 4)
        } else {
            seq![s.last()]
        }
    }
}

/// Where the underline starts in the finding's row: before its column, within the row.
pub open spec fn underline_start(f: FindingView) -> int {
    let line = f.source_line;
    if f.location.column == 0 {
        0
    } else if f.location.column - 1 <= line.len() {
        f.location.column - 1
    } else {
        line.len() as int
    }
}

/// Where the underline ends: at the end column when the finding ends on its first row,
/// otherwise at the end of that row; never before the start or past the row.
pub open spec fn underline_end(f: FindingView) -> int {
    let line = f.source_line;
    let start = underline_start(f);
    if f.end_location.row == f.location.row {
        let e = f.end_location.column - 1;
        if e < start {
            start
        } else if e > line.len() {
            line.len() as int
        } else {
            e
        }
    } else {
        line.len() as int
    }
}

/// The carets under the finding's range, as wide as the text they mark, and at least one.
pub open spec fn carets(f: FindingView) -> Seq<char> {
    let marks = columns(f.source_line.subrange(underline_start(f), underline_end(f)), '^');
    if marks.len() == 0 {
        seq!['^']
    } else {
        marks
    }
}

/// `path:row:column: code message`, and a line end.
pub open spec fn concise_line(f: FindingView) -> Seq<char> {
    f.path + ":"@ + decimal(f.location.row as nat) + ":"@ + decimal(f.location.column as nat)
        + ": "@ + f.code + " "@ + f.message + "\n"@
}

/// A finding in full: its concise line, its source row after a gutter as wide as the row
/// number, the carets under its range followed by its code, and an empty line.
pub open spec fn full_block(f: FindingView) -> Seq<char> {
    let row = decimal(f.location.row as nat);
    let gutter = repeat(' ', row.len());
    concise_line(f) + gutter + " |\n"@ + row + " | "@ + expand_tabs(f.source_line) + "\n"@
        + gutter + " | "@ + columns(f.source_line.take(underline_start(f)), ' ') + carets(f)
        + " "@ + f.code + "\n\n"@
}

/// The closing line: that all checks passed, or how many findings there are.
pub open spec fn summary(count: nat) -> Seq<char> {
    if count == 0 {
        "All checks passed!\n"@
    } else if count == 1 {
        "Found "@ + decimal(count) + " finding.\n"@
    } else {
        "Found "@ + decimal(count) + " findings.\n"@
    }
}

/// The findings in full, one block each.
pub open spec fn full_blocks(findings: Seq<FindingView>) -> Seq<char>
    decreases findings.len(),
{
    if findings.len() == 0 {
        seq![]
    } else {
        full_blocks(findings.drop_last()) + full_block(findings.last())
    }
}

/// The findings' concise lines.
pub open spec fn concise_lines(findings: Seq<FindingView>) -> Seq<char>
    decreases findings.len(),
{
    if findings.len() == 0 {
        seq![]
    } else {
        concise_lines(findings.drop_last()) + concise_line(findings.last())
    }
}

/// A GitHub workflow annotation for a finding, naming its file by `absolute`: its start and
/// end column only when it starts and ends on one row.
pub open spec fn github_line(f: FindingView, absolute: Seq<char>) -> Seq<char> {
    let row = decimal(f.location.row as nat);
    let column = decimal(f.location.column as nat);
    let end_row = decimal(f.end_location.row as nat);
    let head = if f.location.row == f.end_location.row {
        "::error title=Gruff ("@ + f.code + "),file="@ + absolute + ",line="@ + row + ",col="@
            + column + ",endLine="@ + end_row + ",endColumn="@ + decimal(
            f.end_location.column as nat,
        ) + "::"@
    } else {
        "::error title=Gruff ("@ + f.code + "),file="@ + absolute + ",line="@ + row
            + ",endLine="@ + end_row + "::"@
    };
    head + absolute + ":"@ + row + ":"@ + column + ": "@ + f.code + " "@ + f.message + "\n"@
}

/// The findings as annotations, the `i`-th naming its file by `absolutes[i]`.
pub open spec fn github_lines(findings: Seq<FindingView>, absolutes: Seq<Seq<char>>) -> Seq<char>
    decreases findings.len(),
{
    if findings.len() == 0 {
        seq![]
    } else {
        github_lines(findings.drop_last(), absolutes) + github_line(
            findings.last(),
            absolutes[findings.len() - 1],
        )
    }
}

/// The name that a finding of the code carries: its rule's name, or `invalid-syntax` for a
/// code of no rule.
pub open spec fn finding_name_of(code: Seq<char>) -> Seq<char> {
    if exists|k: int| 0 <= k < RULE_COUNT && rule_codes()[k] == code {
        rule_names()[choose|k: int| 0 <= k < RULE_COUNT && rule_codes()[k] == code]
    } else {
        "invalid-syntax"@
    }
}

fn is_wide_exec(c: char) -> (r: bool)
    ensures
        r == is_wide(c),
{
    let n = c as u32;
    (0x1100 <= n && n <= 0x115F) || (0x2E80 <= n && n <= 0x303E) || (0x3041 <= n && n <= 0x33FF)
        || (0x3400 <= n && n <= 0x4DBF) || (0x4E00 <= n && n <= 0x9FFF) || (0xA000 <= n && n
        <= 0xA4CF) || (0xAC00 <= n && n <= 0xD7A3) || (0xF900 <= n && n <= 0xFAFF) || (0xFE30
        <= n && n <= 0xFE4F) || (0xFF00 <= n && n <= 0xFF60) || (0xFFE0 <= n && n <= 0xFFE6)
        || (0x1F300 <= n && n <= 0x1F64F) || (0x1F900 <= n && n <= 0x1F9FF) || (0x20000 <= n
        && n <= 0x3FFFD)
}

fn char_width_exec(c: char) -> (w: usize)
    ensures
        w == char_width(c),
{
    if c == '\t' {
        4
    } else if is_wide_exec(c) {
        2
    } else {
        1
    }
}

/// Appends `n` copies of `c`.
fn push_repeat(out: &mut Vec<char>, c: char, n: usize)
    ensures
        final(out)@ == old(out)@ + repeat(c, n as nat),
{
    let ghost start = out@;
    let mut i: usize = 0;
    while i < n
        invariant
            0 <= i <= n,
            out@ == start + repeat(c, i as nat),
        decreases n - i,
    {
        out.push(c);
        assert(repeat(c, (i + 1) as nat) =~= repeat(c, i as nat).push(c));
        i = i + 1;
    }
}

/// Appends one `fill` for each column that `s[from..to]` takes.
fn push_columns(out: &mut Vec<char>, s: &Vec<char>, from: usize, to: usize, fill: char)
    requires
        from <= to <= s@.len(),
    ensures
        final(out)@ == old(out)@ + columns(s@.subrange(from as int, to as int), fill),
{
    let ghost start = out@;
    let mut i = from;
    assert(s@.subrange(from as int, from as int) =~= Seq::<char>::empty());
    assert(out@ =~= start + columns(s@.subrange(from as int, from as int), fill));
    while i < to
        invariant
            from <= i <= to <= s@.len(),
            out@ == start + columns(s@.subrange(from as int, i as int), fill),
        decreases to - i,
    {
        let ghost part = s@.subrange(from as int, i + 1);
        assert(part.drop_last() =~= s@.subrange(from as int, i as int));
        assert(part.last() == s@[i as int]);
        let w = char_width_exec(s[i]);
        push_repeat(out, fill, w);
        assert(out@ =~= start + columns(part, fill));
        i = i + 1;
    }
}

/// Appends the row with each tab as four spaces.
fn push_expanded(out: &mut Vec<char>, s: &Vec<char>)
    ensures
        final(out)@ == old(out)@ + expand_tabs(s@),
{
    let ghost start = out@;
    let mut i: usize = 0;
    assert(s@.take(0) =~= Seq::<char>::empty());
    assert(out@ =~= start + expand_tabs(s@.take(0)));
    while i < s.len()
        invariant
            0 <= i <= s@.len(),
            out@ == start + expand_tabs(s@.take(i as int)),
        decreases s@.len() - i,
    {
        let ghost part = s@.take(i + 1);
        assert(part.drop_last() =~= s@.take(i as int));
        assert(part.last() == s@[i as int]);
        if s[i] == '\t' {
            push_repeat(out, ' ', 4);
        } else {
            out.push(s[i]);
        }
        assert(out@ =~= start + expand_tabs(part));
        i = i + 1;
    }
    assert(s@.take(s@.len() as int) =~= s@);
}

/// Appends `digits.len()` spaces.
fn push_gutter(out: &mut Vec<char>, digits: &Vec<char>)
    ensures
        final(out)@ == old(out)@ + repeat(' ', digits@.len()),
{
    push_repeat(out, ' ', digits.len());
}

/// Appends the finding's concise line; see [`concise_line`].
fn push_concise_line(out: &mut Vec<char>, f: &Finding)
    ensures
        final(out)@ == old(out)@ + concise_line(f@),
{
    let ghost start = out@;
    push_str(out, f.path.as_str());
    push_str(out, ":");
    push_chars(out, &decimal_exec(f.location.row));
    push_str(out, ":");
    push_chars(out, &decimal_exec(f.location.column));
    push_str(out, ": ");
    push_chars(out, &f.code);
    push_str(out, " ");
    push_chars(out, &f.message);
    push_str(out, "\n");
    assert(out@ =~= start + concise_line(f@));
}

/// Appends the finding in full; see [`full_block`].
fn push_full_block(out: &mut Vec<char>, f: &Finding)
    ensures
        final(out)@ == old(out)@ + full_block(f@),
{
    let ghost start = out@;
    let line = &f.source_line;
    let row = decimal_exec(f.location.row);
    push_concise_line(out, f);
    push_gutter(out, &row);
    push_str(out, " |\n");
    push_chars(out, &row);
    push_str(out, " | ");
    push_expanded(out, line);
    push_str(out, "\n");
    push_gutter(out, &row);
    push_str(out, " | ");
    let len = line.len();
    let column = f.location.column;
    let from: usize = if column == 0 {
        0
    } else if column - 1 <= len {
        column - 1
    } else {
        len
    };
    assert(from == underline_start(f@));
    let to: usize = if f.end_location.row == f.location.row {
        let end_column = f.end_location.column;
        if end_column == 0 || end_column - 1 < from {
            from
        } else if end_column - 1 > len {
            len
        } else {
            end_column - 1
        }
    } else {
        len
    };
    assert(to == underline_end(f@));
    assert(line@.take(from as int) =~= line@.subrange(0, from as int));
    push_columns(out, line, 0, from, ' ');
    let ghost before_marks = out@;
    let marks_start = out.len();
    push_columns(out, line, from, to, '^');
    if out.len() == marks_start {
        assert(out@ =~= before_marks);
        out.push('^');
    }
    assert(out@ =~= before_marks + carets(f@));
    push_str(out, " ");
    push_chars(out, &f.code);
    push_str(out, "\n\n");
    assert(out@ =~= start + full_block(f@));
}

/// Appends the summary line; see [`summary`].
fn push_summary(out: &mut Vec<char>, count: usize)
    ensures
        final(out)@ == old(out)@ + summary(count as nat),
{
    if count == 0 {
        push_str(out, "All checks passed!\n");
    } else {
        let ghost start = out@;
        push_str(out, "Found ");
        push_chars(out, &decimal_exec(count));
        if count == 1 {
            push_str(out, " finding.\n");
        } else {
            push_str(out, " findings.\n");
        }
        assert(out@ =~= start + summary(count as nat));
    }
}

/// The findings in the `full` format, then the summary.
pub fn render_full(findings: &Vec<Finding>) -> (text: String)
    ensures
        text@ == full_blocks(finding_views(findings@)) + summary(findings@.len()),
{
    let ghost all = finding_views(findings@);
    let mut out: Vec<char> = Vec::new();
    let mut i: usize = 0;
    assert(all.take(0) =~= Seq::<FindingView>::empty());
    while i < findings.len()
        invariant
            0 <= i <= findings@.len(),
            all == finding_views(findings@),
            out@ == full_blocks(all.take(i as int)),
        decreases findings@.len() - i,
    {
        assert(all.take(i + 1).drop_last() =~= all.take(i as int));
        assert(all.take(i + 1).last() == findings@[i as int]@);
        push_full_block(&mut out, &findings[i]);
        i = i + 1;
    }
    assert(all.take(findings@.len() as int) =~= all);
    push_summary(&mut out, findings.len());
    chars_to_string(&out)
}

/// The findings in the `concise` format, then the summary.
pub fn render_concise(findings: &Vec<Finding>) -> (text: String)
    ensures
        text@ == concise_lines(finding_views(findings@)) + summary(findings@.len()),
{
    let ghost all = finding_views(findings@);
    let mut out: Vec<char> = Vec::new();
    let mut i: usize = 0;
    assert(all.take(0) =~= Seq::<FindingView>::empty());
    while i < findings.len()
        invariant
            0 <= i <= findings@.len(),
            all == finding_views(findings@),
            out@ == concise_lines(all.take(i as int)),
        decreases findings@.len() - i,
    {
        assert(all.take(i + 1).drop_last() =~= all.take(i as int));
        assert(all.take(i + 1).last() == findings@[i as int]@);
        push_concise_line(&mut out, &findings[i]);
        i = i + 1;
    }
    assert(all.take(findings@.len() as int) =~= all);
    push_summary(&mut out, findings.len());
    chars_to_string(&out)
}

/// Appends the finding's annotation; see [`github_line`].
fn push_github_line(out: &mut Vec<char>, f: &Finding, absolute: &String)
    ensures
        final(out)@ == old(out)@ + github_line(f@, absolute@),
{
    let ghost start = out@;
    let row = decimal_exec(f.location.row);
    let column = decimal_exec(f.location.column);
    let end_row = decimal_exec(f.end_location.row);
    push_str(out, "::error title=Gruff (");
    push_chars(out, &f.code);
    push_str(out, "),file=");
    push_str(out, absolute.as_str());
    push_str(out, ",line=");
    push_chars(out, &row);
    if f.location.row == f.end_location.row {
        push_str(out, ",col=");
        push_chars(out, &column);
        push_str(out, ",endLine=");
        push_chars(out, &end_row);
        push_str(out, ",endColumn=");
        push_chars(out, &decimal_exec(f.end_location.column));
        push_str(out, "::");
    } else {
        push_str(out, ",endLine=");
        push_chars(out, &end_row);
        push_str(out, "::");
    }
    push_str(out, absolute.as_str());
    push_str(out, ":");
    push_chars(out, &row);
    push_str(out, ":");
    push_chars(out, &column);
    push_str(out, ": ");
    push_chars(out, &f.code);
    push_str(out, " ");
    push_chars(out, &f.message);
    push_str(out, "\n");
    assert(out@ =~= start + github_line(f@, absolute@));
}

/// The findings as GitHub workflow annotations, the `i`-th naming its file by
/// `absolute_paths[i]`.
pub fn render_github(findings: &Vec<Finding>, absolute_paths: &Vec<String>) -> (text: String)
    requires
        absolute_paths@.len() == findings@.len(),
    ensures
        text@ == github_lines(finding_views(findings@), string_views(absolute_paths@)),
{
    let ghost all = finding_views(findings@);
    let ghost absolutes = string_views(absolute_paths@);
    let mut out: Vec<char> = Vec::new();
    let mut i: usize = 0;
    assert(all.take(0) =~= Seq::<FindingView>::empty());
    while i < findings.len()
        invariant
            0 <= i <= findings@.len(),
            absolute_paths@.len() == findings@.len(),
            all == finding_views(findings@),
            absolutes == string_views(absolute_paths@),
            out@ == github_lines(all.take(i as int), absolutes),
        decreases findings@.len() - i,
    {
        assert(all.take(i + 1).drop_last() =~= all.take(i as int));
        assert(all.take(i + 1).last() == findings@[i as int]@);
        assert(absolutes[i as int] == absolute_paths@[i as int]@);
        push_github_line(&mut out, &findings[i], &absolute_paths[i]);
        i = i + 1;
    }
    assert(all.take(findings@.len() as int) =~= all);
    chars_to_string(&out)
}

/// The name that a finding of the code carries; see [`finding_name_of`].
pub fn finding_name(code: &Vec<char>) -> (name: &'static str)
    ensures
        name@ == finding_name_of(code@),
{
    let mut k: usize = 0;
    while k < RULE_COUNT
        invariant
            0 <= k <= RULE_COUNT,
            forall|m: int| 0 <= m < k ==> rule_codes()[m] != code@,
        decreases RULE_COUNT - k,
    {
        let rule = rule_info(k);
        if chars_eq(&to_chars(rule.code), code) {
            proof {
                let j = choose|j: int| 0 <= j < RULE_COUNT && rule_codes()[j] == code@;
                assert(j == k) by {
                    lemma_codes_distinct(j, k as int);
                }
            }
            return rule.name;
        }
        k = k + 1;
    }
    "invalid-syntax"
}

/// The codes of the table are distinct.
proof fn lemma_codes_distinct(i: int, j: int)
    requires
        0 <= i < RULE_COUNT,
        0 <= j < RULE_COUNT,
        rule_codes()[i] == rule_codes()[j],
    ensures
        i == j,
{
    reveal_strlit("GR001");
    reveal_strlit("GR002");
    reveal_strlit("GR003");
    reveal_strlit("GR004");
    reveal_strlit("GR005");
    reveal_strlit("GR006");
    reveal_strlit("GR007");
    reveal_strlit("GR008");
    reveal_strlit("GR009");
    reveal_strlit("GR010");
    reveal_strlit("GR011");
    reveal_strlit("GR012");
    let codes = rule_codes();
    assert(codes[0][3] == '0' && codes[0][4] == '1');
    assert(codes[1][3] == '0' && codes[1][4] == '2');
    assert(codes[2][3] == '0' && codes[2][4] == '3');
    assert(codes[3][3] == '0' && codes[3][4] == '4');
    assert(codes[4][3] == '0' && codes[4][4] == '5');
    assert(codes[5][3] == '0' && codes[5][4] == '6');
    assert(codes[6][3] == '0' && codes[6][4] == '7');
    assert(codes[7][3] == '0' && codes[7][4] == '8');
    assert(codes[8][3] == '0' && codes[8][4] == '9');
    assert(codes[9][3] == '1' && codes[9][4] == '0');
    assert(codes[10][3] == '1' && codes[10][4] == '1');
    assert(codes[11][3] == '1' && codes[11][4] == '2');
    assert(i == 0 || i == 1 || i == 2 || i == 3 || i == 4 || i == 5 || i == 6 || i == 7 || i == 8
        || i == 9 || i == 10 || i == 11);
    assert(j == 0 || j == 1 || j == 2 || j == 3 || j == 4 || j == 5 || j == 6 || j == 7 || j == 8
        || j == 9 || j == 10 || j == 11);
}

} // verus!
