//! Character-level text primitives: line terminators, rows and columns, line splitting,
//! whitespace trimming and decimal rendering.
//!
//! Source text is handled as a sequence of `char`s; every offset in this crate counts
//! characters from the start of the file.
use vstd::prelude::*;
use vstd::std_specs::iter::IteratorSpec;

verus! {

/// A row and column, both counted from one.
#[derive(Clone, Copy, Debug, PartialEq, Eq, Structural)]
pub struct Location {
    pub row: usize,
    pub column: usize,
}

/// The byte-order mark that may open a file.
pub open spec fn is_bom(c: char) -> bool {
    c == '\u{feff}'
}

/// `s[i]` ends a physical line the way Python's tokenizer and Ruff count rows: a `\n`, or a
/// `\r` that does not open a `\r\n` pair (a lone carriage return starts a new row).
pub open spec fn is_line_end(s: Seq<char>, i: int) -> bool {
    ||| s[i] == '\n'
    ||| (s[i] == '\r' && !(i + 1 < s.len() && s[i + 1] == '\n'))
}

/// Number of line ends strictly before `offset`.
pub open spec fn line_ends_before(s: Seq<char>, offset: int) -> nat
    decreases offset,
{
    if offset <= 0 {
        0
    } else {
        line_ends_before(s, offset - 1) + if is_line_end(s, offset - 1) { 1nat } else { 0nat }
    }
}

/// The offset at which the line holding `offset` starts.
pub open spec fn line_start_before(s: Seq<char>, offset: int) -> int
    decreases offset,
{
    if offset <= 0 {
        0
    } else if is_line_end(s, offset - 1) {
        offset
    } else {
        line_start_before(s, offset - 1)
    }
}

/// The one-based row of `offset`.
pub open spec fn row_of(s: Seq<char>, offset: int) -> int {
    (line_ends_before(s, offset) + 1) as int
}

/// The one-based column of `offset`: characters since the line start, where a byte-order
/// mark opening the file is not counted on the first row (as Ruff counts columns).
pub open spec fn column_of(s: Seq<char>, offset: int) -> int {
    let start = line_start_before(s, offset);
    if start == 0 && s.len() > 0 && is_bom(s[0]) && offset > 0 {
        offset - start
    } else {
        offset - start + 1
    }
}

/// `offset`, or `len` when it is past `len`.
pub open spec fn clamp(offset: usize, len: nat) -> int {
    if offset <= len {
        offset as int
    } else {
        len as int
    }
}

pub open spec fn location_of(s: Seq<char>, offset: int) -> Location {
    Location { row: row_of(s, offset) as usize, column: column_of(s, offset) as usize }
}

pub proof fn lemma_line_ends_bounded(s: Seq<char>, offset: int)
    ensures
        line_ends_before(s, offset) <= if offset < 0 { 0 } else { offset },
    decreases offset,
{
    if offset > 0 {
        lemma_line_ends_bounded(s, offset - 1);
    }
}

pub proof fn lemma_line_start_bounded(s: Seq<char>, offset: int)
    ensures
        0 <= line_start_before(s, offset),
        offset >= 0 ==> line_start_before(s, offset) <= offset,
    decreases offset,
{
    if offset > 0 {
        lemma_line_start_bounded(s, offset - 1);
    }
}

/// Row and line-start tables for every offset of a text, so that a location costs a
/// lookup rather than a scan.
pub struct LineIndex {
    text: Ghost<Seq<char>>,
    ends_before: Vec<usize>,
    line_starts: Vec<usize>,
    has_bom: bool,
}

impl LineIndex {
    pub closed spec fn text(&self) -> Seq<char> {
        self.text@
    }

    pub closed spec fn wf(&self) -> bool {
        &&& self.text@.len() < usize::MAX
        &&& self.ends_before@.len() == self.text@.len() + 1
        &&& self.line_starts@.len() == self.text@.len() + 1
        &&& self.has_bom == (self.text@.len() > 0 && is_bom(self.text@[0]))
        &&& forall|i: int|
            0 <= i <= self.text@.len() ==> #[trigger] self.ends_before@[i] == line_ends_before(
                self.text@,
                i,
            )
        &&& forall|i: int|
            0 <= i <= self.text@.len() ==> #[trigger] self.line_starts@[i] == line_start_before(
                self.text@,
                i,
            )
    }

    /// A well-formed index covers a text shorter than `usize::MAX`.
    pub proof fn lemma_len(&self)
        requires
            self.wf(),
        ensures
            self.text().len() < usize::MAX,
    {
    }

    pub fn new(text: &Vec<char>) -> (index: LineIndex)
        requires
            text@.len() < usize::MAX,
        ensures
            index.wf(),
            index.text() == text@,
    {
        let n = text.len();
        let mut ends_before: Vec<usize> = Vec::with_capacity(n + 1);
        let mut line_starts: Vec<usize> = Vec::with_capacity(n + 1);
        ends_before.push(0);
        line_starts.push(0);
        let mut i: usize = 0;
        while i < n
            invariant
                n == text@.len(),
                n < usize::MAX,
                0 <= i <= n,
                ends_before@.len() == i + 1,
                line_starts@.len() == i + 1,
                forall|j: int|
                    0 <= j <= i ==> #[trigger] ends_before@[j] == line_ends_before(text@, j),
                forall|j: int|
                    0 <= j <= i ==> #[trigger] line_starts@[j] == line_start_before(text@, j),
            decreases n - i,
        {
            let c = text[i];
            let is_end = c == '\n' || (c == '\r' && !(i + 1 < n && text[i + 1] == '\n'));
            proof {
                lemma_line_ends_bounded(text@, i as int);
                assert(is_end == is_line_end(text@, i as int));
            }
            let previous = ends_before[i];
            let previous_start = line_starts[i];
            if is_end {
                ends_before.push(previous + 1);
                line_starts.push(i + 1);
            } else {
                ends_before.push(previous);
                line_starts.push(previous_start);
            }
            i = i + 1;
        }
        let has_bom = n > 0 && text[0] == '\u{feff}';
        LineIndex { text: Ghost(text@), ends_before, line_starts, has_bom }
    }

    /// The location of `offset`, with rows and columns counted from one; an offset past the
    /// end counts as the end.
    pub fn locate(&self, offset: usize) -> (location: Location)
        requires
            self.wf(),
        ensures
            location == location_of(self.text(), clamp(offset, self.text().len())),
    {
        let offset = if offset <= self.ends_before.len() - 1 {
            offset
        } else {
            self.ends_before.len() - 1
        };
        let ends = self.ends_before[offset];
        let start = self.line_starts[offset];
        proof {
            lemma_line_ends_bounded(self.text@, offset as int);
            lemma_line_start_bounded(self.text@, offset as int);
        }
        let column = if start == 0 && self.has_bom && offset > 0 {
            offset - start
        } else {
            offset - start + 1
        };
        Location { row: ends + 1, column }
    }

    /// The zero-based row of `offset`; an offset past the end counts as the end.
    pub fn line_number(&self, offset: usize) -> (line: usize)
        requires
            self.wf(),
        ensures
            line == line_ends_before(self.text(), clamp(offset, self.text().len())),
    {
        let last = self.ends_before.len() - 1;
        self.ends_before[if offset <= last { offset } else { last }]
    }

    /// The offset at which the line holding `offset` starts; an offset past the end counts
    /// as the end.
    pub fn line_start(&self, offset: usize) -> (start: usize)
        requires
            self.wf(),
        ensures
            start == line_start_before(self.text(), clamp(offset, self.text().len())),
    {
        let last = self.line_starts.len() - 1;
        self.line_starts[if offset <= last { offset } else { last }]
    }
}

/// The characters of a string slice.
pub fn to_chars(s: &str) -> (chars: Vec<char>)
    ensures
        chars@ == s@,
{
    let mut chars: Vec<char> = Vec::new();
    broadcast use vstd::string::group_string_axioms;
    for c in it: s.chars()
        invariant
            it.seq() == s@,
            chars@ == s@.take(it.index() as int),
    {
        chars.push(c);
        assert(s@.take(it.index() + 1) =~= s@.take(it.index() as int).push(c));
    }
    chars
}

/// Splits at every `\n`, `\r\n` or lone `\r`, starting at `i` with the partial line `current`;
/// a final line is kept only when it is not empty.
pub open spec fn split_lines_from(s: Seq<char>, i: int, current: Seq<char>) -> Seq<Seq<char>>
    decreases s.len() - i,
{
    if i >= s.len() {
        if current.len() > 0 {
            seq![current]
        } else {
            seq![]
        }
    } else if s[i] == '\n' {
        seq![current] + split_lines_from(s, i + 1, seq![])
    } else if s[i] == '\r' {
        if i + 1 < s.len() && s[i + 1] == '\n' {
            seq![current] + split_lines_from(s, i + 2, seq![])
        } else {
            seq![current] + split_lines_from(s, i + 1, seq![])
        }
    } else {
        split_lines_from(s, i + 1, current.push(s[i]))
    }
}

/// The physical lines of a text, without their terminators.
pub open spec fn split_lines(s: Seq<char>) -> Seq<Seq<char>> {
    split_lines_from(s, 0, seq![])
}

pub open spec fn views(lines: Seq<Vec<char>>) -> Seq<Seq<char>> {
    lines.map_values(|line: Vec<char>| line@)
}

/// The physical lines of `s`, split at `\n`, `\r\n` and lone `\r`.
pub fn split_lines_exec(s: &Vec<char>) -> (lines: Vec<Vec<char>>)
    ensures
        views(lines@) == split_lines(s@),
{
    let n = s.len();
    let mut lines: Vec<Vec<char>> = Vec::new();
    let mut current: Vec<char> = Vec::new();
    let mut i: usize = 0;
    while i < n
        invariant
            n == s@.len(),
            0 <= i <= n,
            views(lines@) + split_lines_from(s@, i as int, current@) == split_lines(s@),
        decreases n - i,
    {
        let c = s[i];
        let ghost old_lines = views(lines@);
        if c == '\n' {
            lines.push(current);
            current = Vec::new();
            i = i + 1;
            assert(views(lines@) =~= old_lines.push(views(lines@).last()));
            assert(views(lines@) + split_lines_from(s@, i as int, current@) =~= old_lines + split_lines_from(s@, (i - 1) as int, views(lines@).last()));
        } else if c == '\r' {
            let skip: usize = if i + 1 < n && s[i + 1] == '\n' { 2 } else { 1 };
            lines.push(current);
            current = Vec::new();
            i = i + skip;
            assert(views(lines@) =~= old_lines.push(views(lines@).last()));
            assert(views(lines@) + split_lines_from(s@, i as int, current@) =~= old_lines + split_lines_from(s@, (i - skip) as int, views(lines@).last()));
        } else {
            current.push(c);
            i = i + 1;
        }
    }
    if current.len() > 0 {
        let ghost old_lines = views(lines@);
        lines.push(current);
        assert(views(lines@) =~= old_lines + split_lines_from(s@, n as int, views(lines@).last()));
    } else {
        assert(views(lines@) =~= views(lines@) + split_lines_from(s@, n as int, current@));
    }
    lines
}

/// `char::is_whitespace`: the Unicode `White_Space` property.
pub open spec fn is_whitespace(c: char) -> bool {
    ||| ('\u{9}' <= c && c <= '\u{d}')
    ||| c == ' '
    ||| c == '\u{85}'
    ||| c == '\u{a0}'
    ||| c == '\u{1680}'
    ||| ('\u{2000}' <= c && c <= '\u{200a}')
    ||| c == '\u{2028}'
    ||| c == '\u{2029}'
    ||| c == '\u{202f}'
    ||| c == '\u{205f}'
    ||| c == '\u{3000}'
}

pub fn is_whitespace_exec(c: char) -> (r: bool)
    ensures
        r == is_whitespace(c),
{
    ('\u{9}' <= c && c <= '\u{d}') || c == ' ' || c == '\u{85}' || c == '\u{a0}' || c
        == '\u{1680}' || ('\u{2000}' <= c && c <= '\u{200a}') || c == '\u{2028}' || c
        == '\u{2029}' || c == '\u{202f}' || c == '\u{205f}' || c == '\u{3000}'
}

/// `u8::is_ascii_whitespace` on characters: space, tab, line feed, form feed, carriage return.
pub open spec fn is_ascii_whitespace(c: char) -> bool {
    c == ' ' || c == '\t' || c == '\n' || c == '\u{c}' || c == '\r'
}

pub open spec fn is_ascii_digit(c: char) -> bool {
    '0' <= c && c <= '9'
}

pub open spec fn is_ascii_uppercase(c: char) -> bool {
    'A' <= c && c <= 'Z'
}

pub open spec fn is_ascii_lowercase(c: char) -> bool {
    'a' <= c && c <= 'z'
}

pub open spec fn is_ascii_alphabetic(c: char) -> bool {
    is_ascii_uppercase(c) || is_ascii_lowercase(c)
}

pub open spec fn is_ascii_alphanumeric(c: char) -> bool {
    is_ascii_alphabetic(c) || is_ascii_digit(c)
}

pub open spec fn to_ascii_lowercase(c: char) -> char {
    if is_ascii_uppercase(c) {
        ((c as u32) + 32) as char
    } else {
        c
    }
}

pub open spec fn lowercase_seq(s: Seq<char>) -> Seq<char> {
    s.map_values(|c: char| to_ascii_lowercase(c))
}

pub fn to_ascii_lowercase_exec(c: char) -> (r: char)
    ensures
        r == to_ascii_lowercase(c),
{
    if 'A' <= c && c <= 'Z' {
        let code = (c as u32) + 32;
        proof {
            assert(0x61 <= code <= 0x7a);
        }
        char_from_ascii(code)
    } else {
        c
    }
}

/// The character of an ASCII code point.
fn char_from_ascii(code: u32) -> (c: char)
    requires
        code < 128,
    ensures
        c == code as char,
{
    let byte: u8 = code as u8;
    byte as char
}

/// `s` with every ASCII uppercase letter lowered.
pub fn lowercase_chars(s: &Vec<char>) -> (out: Vec<char>)
    ensures
        out@ == lowercase_seq(s@),
{
    let mut out: Vec<char> = Vec::new();
    let mut i: usize = 0;
    while i < s.len()
        invariant
            0 <= i <= s@.len(),
            out@ == lowercase_seq(s@.take(i as int)),
        decreases s@.len() - i,
    {
        out.push(to_ascii_lowercase_exec(s[i]));
        assert(s@.take(i + 1) =~= s@.take(i as int).push(s@[i as int]));
        assert(lowercase_seq(s@.take(i + 1)) =~= lowercase_seq(s@.take(i as int)).push(
            to_ascii_lowercase(s@[i as int]),
        ));
        i = i + 1;
    }
    assert(s@.take(s@.len() as int) =~= s@);
    out
}

/// What `char::is_alphanumeric` returns for `c`: whether `c` has the Unicode `Alphabetic`
/// property or a numeric general category.
pub uninterp spec fn is_alphanumeric(c: char) -> bool;

/// Calls `char::is_alphanumeric`. The contract names its result and says nothing more of it:
/// the Unicode tables behind it are not restated here.
#[verifier::external_body]
pub(crate) fn char_is_alphanumeric(c: char) -> (r: bool)
    ensures
        r == is_alphanumeric(c),
{
    c.is_alphanumeric()
}

/// Number of leading characters that satisfy `is_whitespace`.
pub open spec fn leading_whitespace(s: Seq<char>) -> int
    decreases s.len(),
{
    if s.len() > 0 && is_whitespace(s[0]) {
        1 + leading_whitespace(s.drop_first())
    } else {
        0
    }
}

/// Number of trailing characters that satisfy `is_whitespace`.
pub open spec fn trailing_whitespace(s: Seq<char>) -> int
    decreases s.len(),
{
    if s.len() > 0 && is_whitespace(s.last()) {
        1 + trailing_whitespace(s.drop_last())
    } else {
        0
    }
}

pub proof fn lemma_leading_whitespace_bounds(s: Seq<char>)
    ensures
        0 <= leading_whitespace(s) <= s.len(),
        forall|i: int| 0 <= i < leading_whitespace(s) ==> is_whitespace(#[trigger] s[i]),
        leading_whitespace(s) < s.len() ==> !is_whitespace(s[leading_whitespace(s)]),
    decreases s.len(),
{
    if s.len() > 0 && is_whitespace(s[0]) {
        lemma_leading_whitespace_bounds(s.drop_first());
        assert forall|i: int| 0 <= i < leading_whitespace(s) implies is_whitespace(#[trigger] s[i]) by {
            if i > 0 {
                assert(s[i] == s.drop_first()[i - 1]);
            }
        }
    }
}

pub proof fn lemma_trailing_whitespace_bounds(s: Seq<char>)
    ensures
        0 <= trailing_whitespace(s) <= s.len(),
        forall|i: int|
            s.len() - trailing_whitespace(s) <= i < s.len() ==> is_whitespace(#[trigger] s[i]),
        trailing_whitespace(s) < s.len() ==> !is_whitespace(
            s[s.len() - trailing_whitespace(s) - 1],
        ),
    decreases s.len(),
{
    if s.len() > 0 && is_whitespace(s.last()) {
        lemma_trailing_whitespace_bounds(s.drop_last());
        assert forall|i: int|
            s.len() - trailing_whitespace(s) <= i < s.len() implies is_whitespace(
            #[trigger] s[i],
        ) by {
            if i < s.len() - 1 {
                assert(s[i] == s.drop_last()[i]);
            }
        }
    }
}

/// `str::trim_start`: `s` without its leading whitespace.
pub open spec fn trim_start(s: Seq<char>) -> Seq<char> {
    s.skip(leading_whitespace(s))
}

/// `str::trim_end`: `s` without its trailing whitespace.
pub open spec fn trim_end(s: Seq<char>) -> Seq<char> {
    s.take(s.len() - trailing_whitespace(s))
}

/// `str::trim`: `s` without leading and trailing whitespace.
pub open spec fn trim(s: Seq<char>) -> Seq<char> {
    trim_end(trim_start(s))
}

/// The index of the first non-whitespace character of `s[from..to]`, or `to`.
pub fn skip_whitespace(s: &Vec<char>, from: usize, to: usize) -> (i: usize)
    requires
        from <= to <= s@.len(),
    ensures
        i - from == leading_whitespace(s@.subrange(from as int, to as int)),
        from <= i <= to,
{
    let mut i = from;
    while i < to && is_whitespace_exec(s[i])
        invariant
            from <= i <= to <= s@.len(),
            leading_whitespace(s@.subrange(from as int, to as int)) == (i - from)
                + leading_whitespace(s@.subrange(i as int, to as int)),
        decreases to - i,
    {
        assert(s@.subrange(i as int, to as int).drop_first() =~= s@.subrange(
            i + 1,
            to as int,
        ));
        i = i + 1;
    }
    i
}

/// One past the last non-whitespace character of `s[from..to]`, or `from`.
pub fn skip_whitespace_back(s: &Vec<char>, from: usize, to: usize) -> (j: usize)
    requires
        from <= to <= s@.len(),
    ensures
        to - j == trailing_whitespace(s@.subrange(from as int, to as int)),
        from <= j <= to,
{
    let mut j = to;
    while j > from && is_whitespace_exec(s[j - 1])
        invariant
            from <= j <= to <= s@.len(),
            trailing_whitespace(s@.subrange(from as int, to as int)) == (to - j)
                + trailing_whitespace(s@.subrange(from as int, j as int)),
        decreases j - from,
    {
        assert(s@.subrange(from as int, j as int).drop_last() =~= s@.subrange(
            from as int,
            j - 1,
        ));
        j = j - 1;
    }
    j
}

/// `s` without its trailing whitespace.
pub fn trim_end_chars(s: &Vec<char>) -> (out: Vec<char>)
    ensures
        out@ == trim_end(s@),
{
    let j = skip_whitespace_back(s, 0, s.len());
    assert(s@.subrange(0, s@.len() as int) =~= s@);
    slice_chars(s, 0, j)
}

/// `s` without its leading and trailing whitespace.
pub fn trim_chars(s: &Vec<char>) -> (out: Vec<char>)
    ensures
        out@ == trim(s@),
{
    let n = s.len();
    let i = skip_whitespace(s, 0, n);
    assert(s@.subrange(0, n as int) =~= s@);
    let j = skip_whitespace_back(s, i, n);
    assert(s@.subrange(i as int, n as int) =~= trim_start(s@));
    let out = slice_chars(s, i, j);
    assert(out@ =~= trim(s@));
    out
}

/// Decimal digits of `n`, most significant first, without leading zeros (`0` is `"0"`).
pub open spec fn decimal(n: nat) -> Seq<char>
    decreases n,
{
    if n < 10 {
        seq![digit_char(n)]
    } else {
        decimal(n / 10).push(digit_char(n % 10))
    }
}

pub open spec fn digit_char(d: nat) -> char {
    (('0' as nat) + d) as char
}

/// The decimal rendering of `n`.
pub fn decimal_exec(n: usize) -> (digits: Vec<char>)
    ensures
        digits@ == decimal(n as nat),
    decreases n,
{
    let d = n % 10;
    let c = char_from_ascii(48 + d as u32);
    if n < 10 {
        let mut digits: Vec<char> = Vec::new();
        digits.push(c);
        assert(digits@ =~= seq![digit_char(n as nat)]);
        digits
    } else {
        let mut digits = decimal_exec(n / 10);
        digits.push(c);
        digits
    }
}

/// Appends the characters of `s` to `out`.
pub fn push_str(out: &mut Vec<char>, s: &str)
    ensures
        final(out)@ == old(out)@ + s@,
{
    let chars = to_chars(s);
    push_chars(out, &chars);
}

/// Appends `chars` to `out`.
pub fn push_chars(out: &mut Vec<char>, chars: &Vec<char>)
    ensures
        final(out)@ == old(out)@ + chars@,
{
    let ghost start = out@;
    let mut i: usize = 0;
    while i < chars.len()
        invariant
            0 <= i <= chars@.len(),
            out@ == start + chars@.take(i as int),
        decreases chars@.len() - i,
    {
        out.push(chars[i]);
        assert(chars@.take(i + 1) =~= chars@.take(i as int).push(chars@[i as int]));
        i = i + 1;
    }
    assert(chars@.take(chars@.len() as int) =~= chars@);
}

/// The characters `s[from..to]`.
pub fn slice_chars(s: &Vec<char>, from: usize, to: usize) -> (out: Vec<char>)
    requires
        from <= to <= s@.len(),
    ensures
        out@ == s@.subrange(from as int, to as int),
{
    let mut out: Vec<char> = Vec::new();
    let mut i = from;
    while i < to
        invariant
            from <= i <= to <= s@.len(),
            out@ == s@.subrange(from as int, i as int),
        decreases to - i,
    {
        out.push(s[i]);
        assert(s@.subrange(from as int, i + 1) =~= s@.subrange(from as int, i as int).push(
            s@[i as int],
        ));
        i = i + 1;
    }
    out
}

/// `s` equals `t`.
pub fn chars_eq(s: &Vec<char>, t: &Vec<char>) -> (r: bool)
    ensures
        r == (s@ == t@),
{
    if s.len() != t.len() {
        return false;
    }
    let mut i: usize = 0;
    while i < s.len()
        invariant
            s@.len() == t@.len(),
            0 <= i <= s@.len(),
            forall|j: int| 0 <= j < i ==> s@[j] == t@[j],
        decreases s@.len() - i,
    {
        if s[i] != t[i] {
            return false;
        }
        i = i + 1;
    }
    assert(s@ =~= t@);
    true
}

/// `s` starts with `prefix`.
pub fn starts_with(s: &Vec<char>, prefix: &Vec<char>) -> (r: bool)
    ensures
        r == (prefix@.len() <= s@.len() && s@.take(prefix@.len() as int) == prefix@),
{
    if prefix.len() > s.len() {
        return false;
    }
    let mut i: usize = 0;
    while i < prefix.len()
        invariant
            prefix@.len() <= s@.len(),
            0 <= i <= prefix@.len(),
            forall|j: int| 0 <= j < i ==> s@[j] == prefix@[j],
        decreases prefix@.len() - i,
    {
        if s[i] != prefix[i] {
            assert(s@.take(prefix@.len() as int)[i as int] != prefix@[i as int]);
            return false;
        }
        i = i + 1;
    }
    assert(s@.take(prefix@.len() as int) =~= prefix@);
    true
}

/// `s` ends with `suffix`.
pub fn ends_with(s: &Vec<char>, suffix: &Vec<char>) -> (r: bool)
    ensures
        r == (suffix@.len() <= s@.len() && s@.skip(s@.len() - suffix@.len()) == suffix@),
{
    if suffix.len() > s.len() {
        return false;
    }
    let offset = s.len() - suffix.len();
    let mut i: usize = 0;
    while i < suffix.len()
        invariant
            suffix@.len() <= s@.len(),
            offset + suffix@.len() == s@.len(),
            0 <= i <= suffix@.len(),
            forall|j: int| 0 <= j < i ==> s@[offset + j] == suffix@[j],
        decreases suffix@.len() - i,
    {
        assert(offset + i < s.len());
        if s[offset + i] != suffix[i] {
            assert(s@.skip(offset as int)[i as int] != suffix@[i as int]);
            return false;
        }
        i = i + 1;
    }
    assert(s@.skip(offset as int) =~= suffix@);
    true
}

} // verus!
