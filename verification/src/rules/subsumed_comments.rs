//! GR007 no-subsumed-comments: a one-line own-line comment whose content words all appear
//! in the code it annotates.
use vstd::prelude::*;
use crate::comments::comment_views;
use crate::comments::CommentLine;
use crate::comments::CommentView;
use crate::noqa::find_noqa_directive;
use crate::noqa::noqa_directive;
use crate::rules::diagnostic_views;
use crate::rules::Diagnostic;
use crate::rules::DiagnosticView;
use crate::text::char_is_alphanumeric;
use crate::text::chars_eq;
use crate::text::is_alphanumeric;
use crate::text::is_ascii_alphabetic;
use crate::text::is_ascii_alphanumeric;
use crate::text::is_ascii_digit;
use crate::text::is_ascii_lowercase;
use crate::text::is_ascii_uppercase;
use crate::text::is_whitespace;
use crate::text::is_whitespace_exec;
use crate::text::lemma_leading_whitespace_bounds;
use crate::text::lemma_trailing_whitespace_bounds;
use crate::text::lowercase_seq;
use crate::text::push_str;
use crate::text::skip_whitespace;
use crate::text::skip_whitespace_back;
use crate::text::slice_chars;
use crate::text::starts_with;
use crate::text::to_ascii_lowercase_exec;
use crate::text::to_chars;
use crate::text::trim;
use crate::text::views;
use crate::text::trim_chars;
use crate::text::trim_end_chars;
use crate::text::lowercase_chars;
use crate::text::trim_end;
use crate::text::trim_start;

verus! {

/// Comments on the first lines narrate the module rather than the code below them.
pub const HEADER_LINES: usize = 5;

/// Lines after the comment's first non-blank line that the window spans.
pub const WINDOW_LINES: usize = 4;

/// Number of leading `#` characters.
pub open spec fn leading_hashes(s: Seq<char>) -> int
    decreases s.len(),
{
    if s.len() > 0 && s[0] == '#' {
        1 + leading_hashes(s.drop_first())
    } else {
        0
    }
}

proof fn lemma_leading_hashes(s: Seq<char>)
    ensures
        0 <= leading_hashes(s) <= s.len(),
        leading_hashes(s) < s.len() ==> s[leading_hashes(s)] != '#',
    decreases s.len(),
{
    if s.len() > 0 && s[0] == '#' {
        lemma_leading_hashes(s.drop_first());
    }
}

/// The prose of a comment: without its hashes and surrounding whitespace, and cut before a
/// trailing `noqa` directive.
pub open spec fn comment_body(text: Seq<char>) -> Seq<char> {
    let body = trim(text.skip(leading_hashes(text)));
    match noqa_directive(body) {
        Some((i, _)) => trim_end(body.take(i)),
        None => body,
    }
}

/// The directives that a tool reads from a comment.
pub open spec fn directive_prefixes() -> Seq<Seq<char>> {
    seq![
        "noqa"@,
        "type:"@,
        "pragma"@,
        "ruff"@,
        "mypy"@,
        "pylint"@,
        "fmt:"@,
        "isort"@,
        "flake8"@,
        "nosec"@,
        "coding:"@,
        "coding="@,
    ]
}

fn directive_prefix(i: usize) -> (p: &'static str)
    requires
        i < 12,
    ensures
        p@ == directive_prefixes()[i as int],
{
    match i {
        0 => "noqa",
        1 => "type:",
        2 => "pragma",
        3 => "ruff",
        4 => "mypy",
        5 => "pylint",
        6 => "fmt:",
        7 => "isort",
        8 => "flake8",
        9 => "nosec",
        10 => "coding:",
        _ => "coding=",
    }
}

pub open spec fn has_prefix(s: Seq<char>, prefix: Seq<char>) -> bool {
    prefix.len() <= s.len() && s.take(prefix.len() as int) == prefix
}

/// The first index at or after `i` holding `c`.
pub open spec fn index_of_from(s: Seq<char>, c: char, i: int) -> Option<int>
    decreases s.len() - i,
{
    if i < 0 || i >= s.len() {
        None
    } else if s[i] == c {
        Some(i)
    } else {
        index_of_from(s, c, i + 1)
    }
}

/// Some parenthesis pair of `s[i..]`, matching each `(` with the next `)`, encloses a comma.
pub open spec fn parenthesized_comma_from(s: Seq<char>, i: int) -> bool
    decreases s.len() - i,
{
    match index_of_from(s, '(', i) {
        None => false,
        Some(open) => match index_of_from(s, ')', open + 1) {
            None => false,
            Some(close) => if index_of_from(s.take(close), ',', open + 1) is Some {
                true
            } else {
                proof {
                    lemma_index_of_from(s, '(', i);
                    lemma_index_of_from(s, ')', open + 1);
                }
                parenthesized_comma_from(s, close + 1)
            },
        },
    }
}

pub open spec fn contains_parenthesized_comma(s: Seq<char>) -> bool {
    parenthesized_comma_from(s, 0)
}

/// Number of characters from `i` on that are alphanumeric or `_`.
pub open spec fn identifier_run(s: Seq<char>, i: int) -> int
    decreases s.len() - i,
{
    if 0 <= i < s.len() && (is_alphanumeric(s[i]) || s[i] == '_') {
        1 + identifier_run(s, i + 1)
    } else {
        0
    }
}

/// The text opens with a name followed by a colon, like an annotation.
pub open spec fn starts_annotation(s: Seq<char>) -> bool {
    s.len() > 0 && (is_ascii_alphabetic(s[0]) || s[0] == '_') && has_prefix(
        trim_start(s.skip(1 + identifier_run(s, 1))),
        ":"@,
    )
}

/// The comment body is prose rather than a directive, a divider, a shape or an annotation.
pub open spec fn is_prose(body: Seq<char>) -> bool {
    &&& body.len() > 0
    &&& body[0] != '!'
    &&& body[0] != ':'
    &&& forall|i: int|
        0 <= i < directive_prefixes().len() ==> !has_prefix(
            lowercase_seq(body),
            #[trigger] directive_prefixes()[i],
        )
    &&& !(body.len() >= 2 && (body[0] == '-' || body[0] == '=') && (body[1] == '-' || body[1]
        == '='))
    &&& !contains_parenthesized_comma(body)
    &&& !starts_annotation(body)
}

/// The runs of ASCII letters and digits of `s[i..]`, where `current` is the run in progress.
pub open spec fn words_from(s: Seq<char>, i: int, current: Seq<char>) -> Seq<Seq<char>>
    decreases s.len() - i,
{
    if i >= s.len() {
        if current.len() > 0 {
            seq![current]
        } else {
            seq![]
        }
    } else if !is_ascii_alphanumeric(s[i]) {
        if current.len() > 0 {
            seq![current] + words_from(s, i + 1, seq![])
        } else {
            words_from(s, i + 1, seq![])
        }
    } else {
        words_from(s, i + 1, current.push(s[i]))
    }
}

/// The runs of ASCII letters and digits of `s`.
pub open spec fn split_words(s: Seq<char>) -> Seq<Seq<char>> {
    words_from(s, 0, seq![])
}

/// Words too common to carry content.
pub open spec fn stopwords() -> Seq<Seq<char>> {
    seq![
        "a"@, "an"@, "the"@, "this"@, "that"@, "these"@, "those"@, "to"@, "of"@, "for"@, "in"@,
        "on"@, "at"@, "with"@, "and"@, "or"@, "is"@, "are"@, "be"@, "was"@, "were"@, "we"@,
        "it"@, "its"@, "from"@, "as"@, "by"@, "into"@, "if"@, "then"@, "so"@, "all"@, "any"@,
        "each"@, "when"@, "whether"@,
    ]
}

fn stopword(i: usize) -> (w: &'static str)
    requires
        i < 36,
    ensures
        w@ == stopwords()[i as int],
{
    match i {
        0 => "a",
        1 => "an",
        2 => "the",
        3 => "this",
        4 => "that",
        5 => "these",
        6 => "those",
        7 => "to",
        8 => "of",
        9 => "for",
        10 => "in",
        11 => "on",
        12 => "at",
        13 => "with",
        14 => "and",
        15 => "or",
        16 => "is",
        17 => "are",
        18 => "be",
        19 => "was",
        20 => "were",
        21 => "we",
        22 => "it",
        23 => "its",
        24 => "from",
        25 => "as",
        26 => "by",
        27 => "into",
        28 => "if",
        29 => "then",
        30 => "so",
        31 => "all",
        32 => "any",
        33 => "each",
        34 => "when",
        _ => "whether",
    }
}

pub open spec fn all_digits(w: Seq<char>) -> bool {
    forall|i: int| 0 <= i < w.len() ==> is_ascii_digit(#[trigger] w[i])
}

/// A word that counts toward the comment's content.
pub open spec fn is_content_word(w: Seq<char>) -> bool {
    !all_digits(w) && !stopwords().contains(w)
}

/// The lowercased words of the body that carry content, in order.
pub open spec fn content_words_of(words: Seq<Seq<char>>) -> Seq<Seq<char>>
    decreases words.len(),
{
    if words.len() == 0 {
        seq![]
    } else {
        content_words_of(words.drop_last()) + if is_content_word(lowercase_seq(words.last())) {
            seq![lowercase_seq(words.last())]
        } else {
            seq![]
        }
    }
}

pub open spec fn content_words(body: Seq<char>) -> Seq<Seq<char>> {
    content_words_of(split_words(body))
}

/// A new part of an identifier starts at `index`: a capital after a lowercase letter or a
/// digit, a capital that ends an acronym before a lowercase letter, or a digit after an
/// acronym of several letters.
pub open spec fn starts_part(cs: Seq<char>, index: int, start: int) -> bool {
    let previous = cs[index - 1];
    let current = cs[index];
    let starts_capital = is_ascii_uppercase(current) && (is_ascii_lowercase(previous)
        || is_ascii_digit(previous) || (is_ascii_uppercase(previous) && index + 1 < cs.len()
        && is_ascii_lowercase(cs[index + 1])));
    let digit_after_acronym = is_ascii_digit(current) && is_ascii_uppercase(previous) && index
        - start > 1;
    starts_capital || digit_after_acronym
}

pub open spec fn parts_from(cs: Seq<char>, index: int, start: int) -> Seq<Seq<char>>
    decreases cs.len() - index,
{
    if index >= cs.len() {
        seq![lowercase_seq(cs.subrange(start, cs.len() as int))]
    } else if starts_part(cs, index, start) {
        seq![lowercase_seq(cs.subrange(start, index))] + parts_from(cs, index + 1, index)
    } else {
        parts_from(cs, index + 1, start)
    }
}

/// The lowercased parts of a camel-case or acronym identifier, the last one included.
pub open spec fn identifier_parts(word: Seq<char>) -> Seq<Seq<char>> {
    parts_from(word, 1, 0)
}

/// The tokens a word contributes: itself lowercased, then its identifier parts.
pub open spec fn word_tokens(words: Seq<Seq<char>>) -> Seq<Seq<char>>
    decreases words.len(),
{
    if words.len() == 0 {
        seq![]
    } else {
        word_tokens(words.drop_last()) + seq![lowercase_seq(words.last())] + identifier_parts(
            words.last(),
        )
    }
}

/// The tokens of a line of code: `call` when it opens a parenthesis, then the tokens of
/// its words.
pub open spec fn line_tokens(line: Seq<char>) -> Seq<Seq<char>> {
    (if line.contains('(') {
        seq!["call"@]
    } else {
        seq![]
    }) + word_tokens(split_words(line))
}

pub open spec fn lines_tokens(lines: Seq<Seq<char>>) -> Seq<Seq<char>>
    decreases lines.len(),
{
    if lines.len() == 0 {
        seq![]
    } else {
        lines_tokens(lines.drop_last()) + line_tokens(lines.last())
    }
}

pub open spec fn is_blank(line: Seq<char>) -> bool {
    forall|i: int| 0 <= i < line.len() ==> is_whitespace(#[trigger] line[i])
}

/// Number of leading blank lines.
pub open spec fn leading_blank_lines(lines: Seq<Seq<char>>) -> int
    decreases lines.len(),
{
    if lines.len() > 0 && is_blank(lines[0]) {
        1 + leading_blank_lines(lines.drop_first())
    } else {
        0
    }
}

pub open spec fn non_blank(lines: Seq<Seq<char>>) -> Seq<Seq<char>>
    decreases lines.len(),
{
    if lines.len() == 0 {
        seq![]
    } else {
        non_blank(lines.drop_last()) + if is_blank(lines.last()) {
            seq![]
        } else {
            seq![lines.last()]
        }
    }
}

/// The lines a comment annotates: skip the blank lines after it, then take the next
/// physical lines of the window and keep the non-blank ones.
pub open spec fn window_lines(lines: Seq<Seq<char>>, comment_line: int) -> Seq<Seq<char>> {
    let after = if comment_line + 1 <= lines.len() {
        lines.skip(comment_line + 1)
    } else {
        seq![]
    };
    let rest = after.skip(leading_blank_lines(after));
    non_blank(
        if rest.len() <= WINDOW_LINES {
            rest
        } else {
            rest.take(WINDOW_LINES as int)
        },
    )
}

pub open spec fn synonym(word: Seq<char>) -> Option<Seq<char>> {
    if word == "check"@ || word == "checks"@ || word == "checking"@ {
        Some("if"@)
    } else if word == "loop"@ || word == "loops"@ || word == "looping"@ || word == "iterate"@
        || word == "iterates"@ || word == "iterating"@ {
        Some("for"@)
    } else if word == "returns"@ || word == "returning"@ {
        Some("return"@)
    } else {
        None
    }
}

/// Every word is a code token, or has a synonym that is.
pub open spec fn is_subsumed(words: Seq<Seq<char>>, tokens: Seq<Seq<char>>) -> bool {
    forall|i: int|
        0 <= i < words.len() ==> tokens.contains(#[trigger] words[i]) || (synonym(words[i]) is Some
            && tokens.contains(synonym(words[i])->0))
}

/// Whether comment `k` sits in a block with the comment before or after it: own-line
/// comments on consecutive lines form one block.
pub open spec fn extends_block(previous: CommentView, current: CommentView) -> bool {
    current.is_own_line && previous.is_own_line && previous.line_index + 1 == current.line_index
}

pub open spec fn is_alone(comments: Seq<CommentView>, k: int) -> bool {
    &&& !(k > 0 && extends_block(comments[k - 1], comments[k]))
    &&& !(k + 1 < comments.len() && extends_block(comments[k], comments[k + 1]))
}

pub open spec fn subsumed_message() -> Seq<char> {
    "One-line comment restates the statement it annotates; delete it or state what the code cannot"@
}

/// Comment `k` is flagged: alone in its block, below the header, on its own line, prose of
/// at least two content words, all present in the window it annotates.
pub open spec fn is_subsumed_comment(
    comments: Seq<CommentView>,
    masked_lines: Seq<Seq<char>>,
    k: int,
) -> bool {
    let c = comments[k];
    let body = comment_body(c.text);
    &&& is_alone(comments, k)
    &&& c.line_index >= HEADER_LINES
    &&& c.is_own_line
    &&& is_prose(body)
    &&& content_words(body).len() >= 2
    &&& is_subsumed(content_words(body), lines_tokens(window_lines(masked_lines, c.line_index)))
}

pub open spec fn subsumed_upto(
    comments: Seq<CommentView>,
    masked_lines: Seq<Seq<char>>,
    k: int,
) -> Seq<DiagnosticView>
    decreases k,
{
    if k <= 0 {
        seq![]
    } else {
        subsumed_upto(comments, masked_lines, k - 1) + if is_subsumed_comment(
            comments,
            masked_lines,
            k - 1,
        ) {
            seq![
                DiagnosticView {
                    message: subsumed_message(),
                    range: comments[k - 1].range,
                    noqa_offset: Some(comments[k - 1].range.end),
                },
            ]
        } else {
            seq![]
        }
    }
}

/// GR007 over the comments of a file and its masked lines.
pub open spec fn no_subsumed_comments(
    comments: Seq<CommentView>,
    masked_lines: Seq<Seq<char>>,
) -> Seq<DiagnosticView> {
    subsumed_upto(comments, masked_lines, comments.len() as int)
}

// Executable counterparts.

fn count_leading_hashes(s: &Vec<char>) -> (n: usize)
    ensures
        n == leading_hashes(s@),
{
    let mut i: usize = 0;
    assert(s@.skip(0) =~= s@);
    while i < s.len() && s[i] == '#'
        invariant
            0 <= i <= s@.len(),
            leading_hashes(s@) == i + leading_hashes(s@.skip(i as int)),
        decreases s@.len() - i,
    {
        assert(s@.skip(i as int).drop_first() =~= s@.skip(i + 1));
        i = i + 1;
    }
    i
}

/// The prose of a comment's text; see [`comment_body`].
pub fn comment_body_exec(text: &Vec<char>) -> (body: Vec<char>)
    ensures
        body@ == comment_body(text@),
{
    let h = count_leading_hashes(text);
    proof {
        lemma_leading_hashes(text@);
    }
    let rest = slice_chars(text, h, text.len());
    assert(rest@ =~= text@.skip(h as int));
    let body = trim_chars(&rest);
    match find_noqa_directive(&body) {
        Some((i, _)) => {
            let before = slice_chars(&body, 0, i);
            assert(before@ =~= body@.take(i as int));
            trim_end_chars(&before)
        },
        None => body,
    }
}

pub proof fn lemma_index_of_from(s: Seq<char>, c: char, i: int)
    ensures
        match index_of_from(s, c, i) {
            Some(k) => 0 <= i <= k < s.len() && s[k] == c && forall|j: int|
                i <= j < k ==> s[j] != c,
            None => 0 <= i ==> forall|j: int| i <= j < s.len() ==> s[j] != c,
        },
    decreases s.len() - i,
{
    if 0 <= i < s.len() && s[i] != c {
        lemma_index_of_from(s, c, i + 1);
    }
}

/// The first index in `from..to` that holds `c`.
fn find_char(s: &Vec<char>, c: char, from: usize, to: usize) -> (r: Option<usize>)
    requires
        from <= to <= s@.len(),
    ensures
        match r {
            Some(k) => index_of_from(s@.take(to as int), c, from as int) == Some(k as int),
            None => index_of_from(s@.take(to as int), c, from as int) is None,
        },
        match r {
            Some(k) => from <= k < to && s@[k as int] == c && forall|j: int|
                from <= j < k ==> s@[j] != c,
            None => forall|j: int| from <= j < to ==> s@[j] != c,
        },
{
    let ghost t = s@.take(to as int);
    let mut i = from;
    while i < to
        invariant
            from <= i <= to <= s@.len(),
            t == s@.take(to as int),
            forall|j: int| from <= j < i ==> s@[j] != c,
        decreases to - i,
    {
        if s[i] == c {
            proof {
                lemma_index_of_from(t, c, from as int);
                assert(t[i as int] == c);
                assert forall|j: int| from <= j < i implies t[j] != c by {
                    assert(t[j] == s@[j]);
                }
                match index_of_from(t, c, from as int) {
                    Some(k) => {
                        if k < i {
                            assert(t[k] == s@[k]);
                        }
                    },
                    None => {},
                }
            }
            return Some(i);
        }
        i = i + 1;
    }
    proof {
        lemma_index_of_from(t, c, from as int);
        match index_of_from(t, c, from as int) {
            Some(k) => {
                assert(t[k] == s@[k]);
            },
            None => {},
        }
    }
    None
}

/// Whether a parenthesis pair of `s` encloses a comma; see [`contains_parenthesized_comma`].
pub fn contains_parenthesized_comma_exec(s: &Vec<char>) -> (r: bool)
    ensures
        r == contains_parenthesized_comma(s@),
{
    let n = s.len();
    assert(s@.take(n as int) =~= s@);
    let mut i: usize = 0;
    while i <= n
        invariant
            n == s@.len(),
            s@.take(n as int) == s@,
            i <= n,
            contains_parenthesized_comma(s@) == parenthesized_comma_from(s@, i as int),
        decreases n + 1 - i,
    {
        match find_char(s, '(', i, n) {
            None => {
                return false;
            },
            Some(open) => {
                match find_char(s, ')', open + 1, n) {
                    None => {
                        return false;
                    },
                    Some(close) => {
                        let comma = find_char(s, ',', open + 1, close);
                        if comma.is_some() {
                            return true;
                        }
                        i = close + 1;
                    },
                }
            },
        }
    }
    false
}

/// Whether the text opens with a name and a colon; see [`starts_annotation`].
pub fn starts_annotation_exec(s: &Vec<char>) -> (r: bool)
    ensures
        r == starts_annotation(s@),
{
    let n = s.len();
    if n == 0 {
        return false;
    }
    let first = s[0];
    if !(('A' <= first && first <= 'Z') || ('a' <= first && first <= 'z') || first == '_') {
        return false;
    }
    let mut i: usize = 1;
    while i < n && (char_is_alphanumeric(s[i]) || s[i] == '_')
        invariant
            1 <= i <= n,
            n == s@.len(),
            is_ascii_alphabetic(s@[0]) || s@[0] == '_',
            identifier_run(s@, 1) == (i - 1) + identifier_run(s@, i as int),
        decreases n - i,
    {
        i = i + 1;
    }
    let j = skip_whitespace(s, i, n);
    proof {
        reveal_strlit(":");
        assert(s@.subrange(i as int, n as int) =~= s@.skip(1 + identifier_run(s@, 1)));
        lemma_leading_whitespace_bounds(s@.subrange(i as int, n as int));
        let t = trim_start(s@.skip(1 + identifier_run(s@, 1)));
        assert(t =~= s@.subrange(j as int, n as int));
        if j < n {
            assert(t.take(1) =~= seq![s@[j as int]]);
            if s@[j as int] == ':' {
                assert(t.take(1) =~= ":"@);
            } else {
                assert(t.take(1)[0] != ":"@[0]);
            }
        }
    }
    j < n && s[j] == ':'
}

/// Whether a comment body is prose; see [`is_prose`].
pub fn is_prose_exec(body: &Vec<char>) -> (r: bool)
    ensures
        r == is_prose(body@),
{
    if body.len() == 0 || body[0] == '!' || body[0] == ':' {
        return false;
    }
    let lower = lowercase_chars(body);
    let mut i: usize = 0;
    while i < 12
        invariant
            0 <= i <= 12,
            lower@ == lowercase_seq(body@),
            directive_prefixes().len() == 12,
            forall|k: int|
                0 <= k < i ==> !has_prefix(lowercase_seq(body@), #[trigger] directive_prefixes()[k]),
        decreases 12 - i,
    {
        let prefix = to_chars(directive_prefix(i));
        if starts_with(&lower, &prefix) {
            return false;
        }
        i = i + 1;
    }
    if body.len() >= 2 && (body[0] == '-' || body[0] == '=') && (body[1] == '-' || body[1]
        == '=') {
        return false;
    }
    !contains_parenthesized_comma_exec(body) && !starts_annotation_exec(body)
}

fn is_ascii_alphanumeric_exec(c: char) -> (r: bool)
    ensures
        r == is_ascii_alphanumeric(c),
{
    ('A' <= c && c <= 'Z') || ('a' <= c && c <= 'z') || ('0' <= c && c <= '9')
}

/// The runs of ASCII letters and digits of `s`; see [`split_words`].
pub fn split_words_exec(s: &Vec<char>) -> (words: Vec<Vec<char>>)
    ensures
        views(words@) == split_words(s@),
{
    let n = s.len();
    let mut words: Vec<Vec<char>> = Vec::new();
    let mut current: Vec<char> = Vec::new();
    let mut i: usize = 0;
    while i < n
        invariant
            n == s@.len(),
            0 <= i <= n,
            views(words@) + words_from(s@, i as int, current@) == split_words(s@),
        decreases n - i,
    {
        let c = s[i];
        if is_ascii_alphanumeric_exec(c) {
            let ghost cur = current@;
            current.push(c);
            assert(words_from(s@, i as int, cur) == words_from(s@, i + 1, current@));
        } else if current.len() > 0 {
            let ghost old_words = views(words@);
            let ghost piece = current@;
            words.push(current);
            current = Vec::new();
            assert(views(words@) =~= old_words.push(piece));
            assert(views(words@) + words_from(s@, i + 1, current@) =~= old_words + (seq![piece]
                + words_from(s@, i + 1, seq![])));
        } else {
            assert(current@ =~= Seq::<char>::empty());
            assert(words_from(s@, i as int, current@) == words_from(s@, i + 1, current@));
        }
        i = i + 1;
    }
    if current.len() > 0 {
        let ghost old_words = views(words@);
        let ghost piece = current@;
        words.push(current);
        assert(views(words@) =~= old_words + seq![piece]);
    } else {
        assert(views(words@) =~= views(words@) + words_from(s@, n as int, current@));
    }
    words
}

fn is_stopword(w: &Vec<char>) -> (r: bool)
    ensures
        r == stopwords().contains(w@),
{
    let mut i: usize = 0;
    while i < 36
        invariant
            0 <= i <= 36,
            stopwords().len() == 36,
            forall|k: int| 0 <= k < i ==> stopwords()[k] != w@,
        decreases 36 - i,
    {
        let word = to_chars(stopword(i));
        if chars_eq(w, &word) {
            assert(stopwords()[i as int] == w@);
            return true;
        }
        i = i + 1;
    }
    false
}

fn all_digits_exec(w: &Vec<char>) -> (r: bool)
    ensures
        r == all_digits(w@),
{
    let mut i: usize = 0;
    while i < w.len()
        invariant
            0 <= i <= w@.len(),
            forall|k: int| 0 <= k < i ==> is_ascii_digit(#[trigger] w@[k]),
        decreases w@.len() - i,
    {
        if !('0' <= w[i] && w[i] <= '9') {
            return false;
        }
        i = i + 1;
    }
    true
}

/// The lowercased content words of a comment body; see [`content_words`].
pub fn content_words_exec(body: &Vec<char>) -> (words: Vec<Vec<char>>)
    ensures
        views(words@) == content_words(body@),
{
    let all = split_words_exec(body);
    let mut words: Vec<Vec<char>> = Vec::new();
    let mut j: usize = 0;
    while j < all.len()
        invariant
            0 <= j <= all@.len(),
            views(words@) == content_words_of(views(all@).take(j as int)),
        decreases all@.len() - j,
    {
        let lower = lowercase_chars(&all[j]);
        let ghost before = views(words@);
        assert(views(all@).take(j + 1).drop_last() =~= views(all@).take(j as int));
        assert(views(all@).take(j + 1).last() == all@[j as int]@);
        if !all_digits_exec(&lower) && !is_stopword(&lower) {
            words.push(lower);
            assert(views(words@) =~= before + seq![lower@]);
        } else {
            assert(views(words@) =~= before + seq![]);
        }
        j = j + 1;
    }
    assert(views(all@).take(all@.len() as int) =~= views(all@));
    words
}

fn starts_part_exec(cs: &Vec<char>, index: usize, start: usize) -> (r: bool)
    requires
        1 <= index < cs@.len(),
        start < index,
    ensures
        r == starts_part(cs@, index as int, start as int),
{
    let previous = cs[index - 1];
    let current = cs[index];
    let upper = |c: char| -> (r: bool)
        ensures
            r == is_ascii_uppercase(c),
        { 'A' <= c && c <= 'Z' };
    let next_lower = index < cs.len() - 1 && 'a' <= cs[index + 1] && cs[index + 1] <= 'z';
    let starts_capital = upper(current) && (('a' <= previous && previous <= 'z') || ('0'
        <= previous && previous <= '9') || (upper(previous) && next_lower));
    let digit_after_acronym = '0' <= current && current <= '9' && upper(previous) && index
        - start > 1;
    starts_capital || digit_after_acronym
}

/// The lowercased parts of an identifier; see [`identifier_parts`].
pub fn identifier_parts_exec(word: &Vec<char>) -> (parts: Vec<Vec<char>>)
    ensures
        views(parts@) == identifier_parts(word@),
{
    let n = word.len();
    let mut parts: Vec<Vec<char>> = Vec::new();
    if n == 0 {
        parts.push(Vec::new());
        assert(lowercase_seq(word@.subrange(0, 0)) =~= Seq::<char>::empty());
        assert(views(parts@) =~= identifier_parts(word@));
        return parts;
    }
    let mut start: usize = 0;
    let mut index: usize = 1;
    while index < n
        invariant
            n == word@.len(),
            1 <= index <= n,
            start < index,
            views(parts@) + parts_from(word@, index as int, start as int) == identifier_parts(
                word@,
            ),
        decreases n - index,
    {
        if starts_part_exec(word, index, start) {
            let piece = slice_chars(word, start, index);
            let lower = lowercase_chars(&piece);
            let ghost before = views(parts@);
            parts.push(lower);
            assert(views(parts@) =~= before.push(lower@));
            assert(views(parts@) + parts_from(word@, index + 1, index as int) =~= before + (seq![
                lower@,
            ] + parts_from(word@, index + 1, index as int)));
            start = index;
        }
        index = index + 1;
    }
    let piece = slice_chars(word, start, n);
    let lower = lowercase_chars(&piece);
    let ghost before = views(parts@);
    parts.push(lower);
    assert(views(parts@) =~= before + seq![lower@]);
    parts
}

/// Appends `more` to `tokens`.
fn append_tokens(tokens: &mut Vec<Vec<char>>, more: Vec<Vec<char>>)
    ensures
        views(final(tokens)@) == views(old(tokens)@) + views(more@),
{
    let mut more = more;
    let ghost a = tokens@;
    let ghost b = more@;
    tokens.append(&mut more);
    assert(views(tokens@) =~= views(a) + views(b));
}

/// Appends the tokens of a line of code; see [`line_tokens`].
fn push_line_tokens(tokens: &mut Vec<Vec<char>>, line: &Vec<char>)
    ensures
        views(final(tokens)@) == views(old(tokens)@) + line_tokens(line@),
{
    let ghost start = views(tokens@);
    let paren = find_char(line, '(', 0, line.len());
    proof {
        assert(line@.take(line@.len() as int) =~= line@);
        lemma_index_of_from(line@, '(', 0);
    }
    let ghost call_part: Seq<Seq<char>> = if line@.contains('(') {
        seq!["call"@]
    } else {
        seq![]
    };
    if paren.is_some() {
        let call = to_chars("call");
        tokens.push(call);
        assert(line@.contains('('));
        assert(views(tokens@) =~= start + call_part);
    } else {
        assert(!line@.contains('('));
        assert(views(tokens@) =~= start + call_part);
    }
    let words = split_words_exec(line);
    let mut j: usize = 0;
    while j < words.len()
        invariant
            0 <= j <= words@.len(),
            views(words@) == split_words(line@),
            views(tokens@) == start + call_part + word_tokens(views(words@).take(j as int)),
        decreases words@.len() - j,
    {
        let lower = lowercase_chars(&words[j]);
        let parts = identifier_parts_exec(&words[j]);
        let ghost before = views(tokens@);
        tokens.push(lower);
        assert(views(tokens@) =~= before.push(lower@));
        append_tokens(tokens, parts);
        assert(views(words@).take(j + 1).drop_last() =~= views(words@).take(j as int));
        assert(views(words@).take(j + 1).last() == words@[j as int]@);
        assert(views(tokens@) =~= start + call_part + word_tokens(views(words@).take(j + 1)));
        j = j + 1;
    }
    assert(views(words@).take(words@.len() as int) =~= views(words@));
    assert(views(tokens@) =~= start + line_tokens(line@));
}

/// The tokens of the lines of code; see [`lines_tokens`].
pub fn lines_tokens_exec(lines: &Vec<Vec<char>>) -> (tokens: Vec<Vec<char>>)
    ensures
        views(tokens@) == lines_tokens(views(lines@)),
{
    let mut tokens: Vec<Vec<char>> = Vec::new();
    let mut k: usize = 0;
    while k < lines.len()
        invariant
            0 <= k <= lines@.len(),
            views(tokens@) == lines_tokens(views(lines@).take(k as int)),
        decreases lines@.len() - k,
    {
        push_line_tokens(&mut tokens, &lines[k]);
        assert(views(lines@).take(k + 1).drop_last() =~= views(lines@).take(k as int));
        assert(views(lines@).take(k + 1).last() == lines@[k as int]@);
        k = k + 1;
    }
    assert(views(lines@).take(lines@.len() as int) =~= views(lines@));
    tokens
}

fn is_blank_exec(line: &Vec<char>) -> (r: bool)
    ensures
        r == is_blank(line@),
{
    let mut i: usize = 0;
    while i < line.len()
        invariant
            0 <= i <= line@.len(),
            forall|k: int| 0 <= k < i ==> is_whitespace(#[trigger] line@[k]),
        decreases line@.len() - i,
    {
        if !is_whitespace_exec(line[i]) {
            return false;
        }
        i = i + 1;
    }
    true
}

/// The lines a comment on line `comment_line` annotates; see [`window_lines`].
pub fn window_lines_exec(lines: &Vec<Vec<char>>, comment_line: usize) -> (window: Vec<Vec<char>>)
    ensures
        views(window@) == window_lines(views(lines@), comment_line as int),
{
    let ghost all = views(lines@);
    let n = lines.len();
    let first = if comment_line < n {
        comment_line + 1
    } else {
        n
    };
    let ghost after = if comment_line + 1 <= all.len() {
        all.skip(comment_line + 1)
    } else {
        seq![]
    };
    assert(after =~= all.skip(first as int));
    let mut j = first;
    while j < n && !(!is_blank_exec(&lines[j]))
        invariant
            n == lines@.len(),
            all == views(lines@),
            first <= j <= n,
            leading_blank_lines(after) == (j - first) + leading_blank_lines(all.skip(j as int)),
        decreases n - j,
    {
        assert(all.skip(j as int).drop_first() =~= all.skip(j + 1));
        assert(all.skip(j as int)[0] == lines@[j as int]@);
        j = j + 1;
    }
    proof {
        if j < n {
            assert(all.skip(j as int)[0] == lines@[j as int]@);
        }
    }
    let end = if n - j <= WINDOW_LINES {
        n
    } else {
        j + WINDOW_LINES
    };
    let ghost rest = after.skip(leading_blank_lines(after));
    assert(rest =~= all.skip(j as int));
    let ghost taken = if rest.len() <= WINDOW_LINES {
        rest
    } else {
        rest.take(WINDOW_LINES as int)
    };
    assert(taken =~= all.subrange(j as int, end as int));
    let mut window: Vec<Vec<char>> = Vec::new();
    let mut k = j;
    while k < end
        invariant
            n == lines@.len(),
            all == views(lines@),
            j <= k <= end <= n,
            views(window@) == non_blank(all.subrange(j as int, k as int)),
        decreases end - k,
    {
        let ghost before = views(window@);
        assert(all.subrange(j as int, k + 1).drop_last() =~= all.subrange(j as int, k as int));
        assert(all.subrange(j as int, k + 1).last() == lines@[k as int]@);
        if !is_blank_exec(&lines[k]) {
            let copy = slice_chars(&lines[k], 0, lines[k].len());
            assert(copy@ =~= lines@[k as int]@);
            window.push(copy);
            assert(views(window@) =~= before + seq![copy@]);
        } else {
            assert(views(window@) =~= before + seq![]);
        }
        k = k + 1;
    }
    window
}

fn tokens_contain(tokens: &Vec<Vec<char>>, word: &Vec<char>) -> (r: bool)
    ensures
        r == views(tokens@).contains(word@),
{
    let mut i: usize = 0;
    while i < tokens.len()
        invariant
            0 <= i <= tokens@.len(),
            forall|k: int| 0 <= k < i ==> views(tokens@)[k] != word@,
        decreases tokens@.len() - i,
    {
        if chars_eq(&tokens[i], word) {
            assert(views(tokens@)[i as int] == word@);
            return true;
        }
        i = i + 1;
    }
    false
}

fn synonym_exec(word: &Vec<char>) -> (r: Option<&'static str>)
    ensures
        match r {
            Some(w) => synonym(word@) == Some(w@),
            None => synonym(word@) is None,
        },
{
    if chars_eq(word, &to_chars("check")) || chars_eq(word, &to_chars("checks")) || chars_eq(
        word,
        &to_chars("checking"),
    ) {
        Some("if")
    } else if chars_eq(word, &to_chars("loop")) || chars_eq(word, &to_chars("loops"))
        || chars_eq(word, &to_chars("looping")) || chars_eq(word, &to_chars("iterate"))
        || chars_eq(word, &to_chars("iterates")) || chars_eq(word, &to_chars("iterating")) {
        Some("for")
    } else if chars_eq(word, &to_chars("returns")) || chars_eq(word, &to_chars("returning")) {
        Some("return")
    } else {
        None
    }
}

/// Whether every word is a token or has a synonym that is; see [`is_subsumed`].
pub fn is_subsumed_exec(words: &Vec<Vec<char>>, tokens: &Vec<Vec<char>>) -> (r: bool)
    ensures
        r == is_subsumed(views(words@), views(tokens@)),
{
    let mut i: usize = 0;
    while i < words.len()
        invariant
            0 <= i <= words@.len(),
            forall|k: int|
                0 <= k < i ==> views(tokens@).contains(#[trigger] views(words@)[k]) || (synonym(
                    views(words@)[k],
                ) is Some && views(tokens@).contains(synonym(views(words@)[k])->0)),
        decreases words@.len() - i,
    {
        let found = if tokens_contain(tokens, &words[i]) {
            true
        } else {
            match synonym_exec(&words[i]) {
                Some(other) => tokens_contain(tokens, &to_chars(other)),
                None => false,
            }
        };
        if !found {
            assert(views(words@)[i as int] == words@[i as int]@);
            return false;
        }
        i = i + 1;
    }
    true
}

fn extends_block_exec(previous: &CommentLine, current: &CommentLine) -> (r: bool)
    ensures
        r == extends_block(previous@, current@),
{
    current.is_own_line && previous.is_own_line && current.line_index > 0 && previous.line_index
        == current.line_index - 1
}

fn is_subsumed_comment_exec(
    comments: &Vec<CommentLine>,
    masked_lines: &Vec<Vec<char>>,
    k: usize,
) -> (r: bool)
    requires
        k < comments@.len(),
    ensures
        r == is_subsumed_comment(comment_views(comments@), views(masked_lines@), k as int),
{
    let ghost cv = comment_views(comments@);
    let c = &comments[k];
    assert(cv[k as int] == c@);
    if k > 0 && extends_block_exec(&comments[k - 1], c) {
        assert(cv[k - 1] == comments@[k - 1]@);
        return false;
    }
    if k < comments.len() - 1 && extends_block_exec(c, &comments[k + 1]) {
        assert(cv[k + 1] == comments@[k + 1]@);
        return false;
    }
    proof {
        if k > 0 {
            assert(cv[k - 1] == comments@[k - 1]@);
        }
        if k + 1 < comments@.len() {
            assert(cv[k + 1] == comments@[k + 1]@);
        }
    }
    if c.line_index < HEADER_LINES || !c.is_own_line {
        return false;
    }
    let body = comment_body_exec(&c.text);
    if !is_prose_exec(&body) {
        return false;
    }
    let words = content_words_exec(&body);
    if words.len() < 2 {
        return false;
    }
    let window = window_lines_exec(masked_lines, c.line_index);
    let tokens = lines_tokens_exec(&window);
    is_subsumed_exec(&words, &tokens)
}

/// GR007: the one-line comments whose content words the code they annotate already holds.
pub fn check_subsumed_comments(comments: &Vec<CommentLine>, masked_lines: &Vec<Vec<char>>) -> (diagnostics: Vec<Diagnostic>)
    ensures
        diagnostic_views(diagnostics@) == no_subsumed_comments(
            comment_views(comments@),
            views(masked_lines@),
        ),
{
    let ghost cv = comment_views(comments@);
    let mut diagnostics: Vec<Diagnostic> = Vec::new();
    let mut k: usize = 0;
    while k < comments.len()
        invariant
            0 <= k <= comments@.len(),
            cv == comment_views(comments@),
            diagnostic_views(diagnostics@) == subsumed_upto(cv, views(masked_lines@), k as int),
        decreases comments@.len() - k,
    {
        let ghost before = diagnostic_views(diagnostics@);
        if is_subsumed_comment_exec(comments, masked_lines, k) {
            let range = comments[k].range;
            assert(cv[k as int] == comments@[k as int]@);
            diagnostics.push(
                Diagnostic {
                    message: to_chars(
                        "One-line comment restates the statement it annotates; delete it or state what the code cannot",
                    ),
                    range,
                    noqa_offset: Some(range.end),
                },
            );
            assert(diagnostic_views(diagnostics@) =~= before + seq![diagnostic_views(diagnostics@).last()]);
        } else {
            assert(diagnostic_views(diagnostics@) =~= before + seq![]);
        }
        k = k + 1;
    }
    diagnostics
}

/// The finding on the `k`-th comment: its range, with the `noqa` row at its end.
pub open spec fn subsumed_diagnostic(comments: Seq<CommentView>, k: int) -> DiagnosticView {
    DiagnosticView {
        message: subsumed_message(),
        range: comments[k].range,
        noqa_offset: Some(comments[k].range.end),
    }
}

proof fn lemma_subsumed_upto_contains(
    comments: Seq<CommentView>,
    masked_lines: Seq<Seq<char>>,
    n: int,
    d: DiagnosticView,
)
    requires
        0 <= n <= comments.len(),
    ensures
        subsumed_upto(comments, masked_lines, n).contains(d) <==> exists|k: int|
            0 <= k < n && is_subsumed_comment(comments, masked_lines, k) && d
                == #[trigger] subsumed_diagnostic(comments, k),
    decreases n,
{
    if n > 0 {
        lemma_subsumed_upto_contains(comments, masked_lines, n - 1, d);
        let before = subsumed_upto(comments, masked_lines, n - 1);
        let own = if is_subsumed_comment(comments, masked_lines, n - 1) {
            seq![subsumed_diagnostic(comments, n - 1)]
        } else {
            seq![]
        };
        assert(subsumed_upto(comments, masked_lines, n) =~= before + own);
        let all = before + own;
        if all.contains(d) {
            let i = choose|i: int| 0 <= i < all.len() && all[i] == d;
            if i < before.len() {
                assert(before[i] == d);
                let k = choose|k: int|
                    0 <= k < n - 1 && is_subsumed_comment(comments, masked_lines, k) && d
                        == #[trigger] subsumed_diagnostic(comments, k);
                assert(0 <= k < n);
            } else {
                assert(own[i - before.len()] == d);
                assert(d == subsumed_diagnostic(comments, n - 1));
            }
        }
        if exists|k: int|
            0 <= k < n && is_subsumed_comment(comments, masked_lines, k) && d
                == #[trigger] subsumed_diagnostic(comments, k) {
            let k = choose|k: int|
                0 <= k < n && is_subsumed_comment(comments, masked_lines, k) && d
                    == #[trigger] subsumed_diagnostic(comments, k);
            if k < n - 1 {
                let i = choose|i: int| 0 <= i < before.len() && before[i] == d;
                assert(all[i] == d);
            } else {
                assert(all[before.len() as int] == d);
            }
        }
    }
}

/// GR007 reports a finding exactly on each comment that is alone in its block, below the
/// header lines, on its own line, prose of at least two content words, each found among the
/// code tokens of the lines it annotates (directly or by a synonym).
pub proof fn law_subsumed_comments_are_exactly_flagged(
    comments: Seq<CommentView>,
    masked_lines: Seq<Seq<char>>,
    d: DiagnosticView,
)
    ensures
        no_subsumed_comments(comments, masked_lines).contains(d) <==> exists|k: int|
            0 <= k < comments.len() && is_subsumed_comment(comments, masked_lines, k) && d
                == #[trigger] subsumed_diagnostic(comments, k),
{
    lemma_subsumed_upto_contains(comments, masked_lines, comments.len() as int, d);
}

} // verus!
