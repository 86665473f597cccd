//! Comment analysis: the comments of a file with their lines, and the file's text with every
//! comment, and every string on an `assert` or comparison line, blanked out.
use vstd::prelude::*;
use crate::syntax::TextRange;
use crate::syntax::Token;
use crate::syntax::TokenKind;
use crate::text::is_whitespace;
use crate::text::is_whitespace_exec;
use crate::text::line_ends_before;
use crate::text::line_start_before;
use crate::text::slice_chars;
use crate::text::LineIndex;

verus! {

/// Every token's range lies within a text of `len` characters.
pub open spec fn tokens_within(tokens: Seq<Token>, len: nat) -> bool {
    forall|i: int|
        0 <= i < tokens.len() ==> (#[trigger] tokens[i]).range.start <= tokens[i].range.end <= len
}

/// The zero-based line on which a token starts.
pub open spec fn token_line(s: Seq<char>, t: Token) -> int {
    line_ends_before(s, t.range.start as int) as int
}

/// An `assert` keyword or a comparison operator starts on the line.
pub open spec fn is_comparison_line(s: Seq<char>, tokens: Seq<Token>, line: int) -> bool {
    exists|i: int|
        0 <= i < tokens.len() && (#[trigger] tokens[i].kind == TokenKind::Assert || tokens[i].kind
            == TokenKind::Comparison) && token_line(s, tokens[i]) == line
}

/// The token is blanked out: a comment, or a string that starts on a comparison line.
pub open spec fn is_masked_token(s: Seq<char>, tokens: Seq<Token>, t: Token) -> bool {
    t.kind == TokenKind::Comment || (t.kind == TokenKind::StringPart && is_comparison_line(
        s,
        tokens,
        token_line(s, t),
    ))
}

/// Some of the first `k` tokens is blanked out and covers offset `p`.
pub open spec fn covered(s: Seq<char>, tokens: Seq<Token>, k: int, p: int) -> bool {
    exists|i: int|
        0 <= i < k && is_masked_token(s, tokens, #[trigger] tokens[i]) && tokens[i].range.start
            <= p < tokens[i].range.end
}

/// The text with every blanked-out token's characters, other than line breaks, replaced by
/// spaces.
pub open spec fn masked_text(s: Seq<char>, tokens: Seq<Token>) -> Seq<char> {
    Seq::new(
        s.len(),
        |p: int|
            if s[p] != '\n' && s[p] != '\r' && covered(s, tokens, tokens.len() as int, p) {
                ' '
            } else {
                s[p]
            },
    )
}

/// A comment: its zero-based line, its range, its text, and whether only whitespace
/// precedes it on its line.
pub struct CommentLine {
    pub line_index: usize,
    pub range: TextRange,
    pub text: Vec<char>,
    pub is_own_line: bool,
}

pub struct CommentView {
    pub line_index: int,
    pub range: TextRange,
    pub text: Seq<char>,
    pub is_own_line: bool,
}

impl View for CommentLine {
    type V = CommentView;

    open spec fn view(&self) -> CommentView {
        CommentView {
            line_index: self.line_index as int,
            range: self.range,
            text: self.text@,
            is_own_line: self.is_own_line,
        }
    }
}

pub open spec fn all_whitespace(s: Seq<char>) -> bool {
    forall|i: int| 0 <= i < s.len() ==> is_whitespace(#[trigger] s[i])
}

pub open spec fn comment_of(s: Seq<char>, t: Token) -> CommentView {
    CommentView {
        line_index: token_line(s, t),
        range: t.range,
        text: s.subrange(t.range.start as int, t.range.end as int),
        is_own_line: all_whitespace(
            s.subrange(line_start_before(s, t.range.start as int), t.range.start as int),
        ),
    }
}

/// The comments among the tokens, in order.
pub open spec fn comments_of(s: Seq<char>, tokens: Seq<Token>) -> Seq<CommentView>
    decreases tokens.len(),
{
    if tokens.len() == 0 {
        seq![]
    } else {
        comments_of(s, tokens.drop_last()) + if tokens.last().kind == TokenKind::Comment {
            seq![comment_of(s, tokens.last())]
        } else {
            seq![]
        }
    }
}

pub open spec fn comment_views(comments: Seq<CommentLine>) -> Seq<CommentView> {
    comments.map_values(|c: CommentLine| c@)
}

/// The comments of the text; see [`comments_of`].
pub fn collect_comments(source: &Vec<char>, index: &LineIndex, tokens: &Vec<Token>) -> (comments: Vec<
    CommentLine,
>)
    requires
        index.wf(),
        index.text() == source@,
        tokens_within(tokens@, source@.len()),
    ensures
        comment_views(comments@) == comments_of(source@, tokens@),
{
    let mut comments: Vec<CommentLine> = Vec::new();
    let mut k: usize = 0;
    while k < tokens.len()
        invariant
            0 <= k <= tokens@.len(),
            index.wf(),
            index.text() == source@,
            tokens_within(tokens@, source@.len()),
            comment_views(comments@) == comments_of(source@, tokens@.take(k as int)),
        decreases tokens@.len() - k,
    {
        let t = tokens[k];
        let ghost before = comment_views(comments@);
        proof {
            assert(tokens@.take(k + 1).drop_last() =~= tokens@.take(k as int));
            assert(tokens@.take(k + 1).last() == t);
            assert(t.range.start <= t.range.end <= source@.len());
        }
        if t.kind == TokenKind::Comment {
            let line_index = index.line_number(t.range.start);
            let start = index.line_start(t.range.start);
            proof {
                crate::text::lemma_line_start_bounded(source@, t.range.start as int);
            }
            let mut p = start;
            while p < t.range.start && is_whitespace_exec(source[p])
                invariant
                    start <= p <= t.range.start <= source@.len(),
                    forall|q: int| start <= q < p ==> is_whitespace(#[trigger] source@[q]),
                decreases t.range.start - p,
            {
                p = p + 1;
            }
            let is_own_line = p == t.range.start;
            proof {
                let prefix = source@.subrange(start as int, t.range.start as int);
                if is_own_line {
                    assert forall|q: int| 0 <= q < prefix.len() implies is_whitespace(
                        #[trigger] prefix[q],
                    ) by {
                        assert(prefix[q] == source@[start + q]);
                    }
                } else {
                    assert(prefix[p - start] == source@[p as int]);
                }
            }
            let text = slice_chars(source, t.range.start, t.range.end);
            comments.push(CommentLine { line_index, range: t.range, text, is_own_line });
            assert(comment_views(comments@) =~= before.push(comment_of(source@, t)));
        }
        k = k + 1;
    }
    assert(tokens@.take(tokens@.len() as int) =~= tokens@);
    comments
}

/// The text with comments, and strings on comparison lines, blanked out; see
/// [`masked_text`].
pub fn mask_text(source: &Vec<char>, index: &LineIndex, tokens: &Vec<Token>) -> (masked: Vec<char>)
    requires
        index.wf(),
        index.text() == source@,
        tokens_within(tokens@, source@.len()),
    ensures
        masked@ == masked_text(source@, tokens@),
{
    let n = source.len();
    proof {
        index.lemma_len();
    }
    // Lines on which an `assert` or a comparison operator starts.
    let mut comparison_lines: Vec<bool> = Vec::new();
    let mut l: usize = 0;
    while l <= n
        invariant
            0 <= l <= n + 1,
            n == source@.len(),
            n < usize::MAX,
            comparison_lines@.len() == l,
            forall|m: int| 0 <= m < l ==> !(#[trigger] comparison_lines@[m]),
        decreases n + 1 - l,
    {
        comparison_lines.push(false);
        l = l + 1;
    }
    let mut k: usize = 0;
    while k < tokens.len()
        invariant
            0 <= k <= tokens@.len(),
            n == source@.len(),
            index.wf(),
            index.text() == source@,
            tokens_within(tokens@, source@.len()),
            comparison_lines@.len() == n + 1,
            forall|m: int|
                0 <= m <= n ==> (#[trigger] comparison_lines@[m] <==> exists|i: int|
                    0 <= i < k && (#[trigger] tokens@[i].kind == TokenKind::Assert
                        || tokens@[i].kind == TokenKind::Comparison) && token_line(
                        source@,
                        tokens@[i],
                    ) == m),
        decreases tokens@.len() - k,
    {
        let t = tokens[k];
        proof {
            crate::text::lemma_line_ends_bounded(source@, t.range.start as int);
        }
        if t.kind == TokenKind::Assert || t.kind == TokenKind::Comparison {
            let line = index.line_number(t.range.start);
            comparison_lines.set(line, true);
            proof {
                assert forall|m: int| 0 <= m <= n implies (#[trigger] comparison_lines@[m]
                    <==> exists|i: int|
                    0 <= i < k + 1 && (#[trigger] tokens@[i].kind == TokenKind::Assert
                        || tokens@[i].kind == TokenKind::Comparison) && token_line(
                        source@,
                        tokens@[i],
                    ) == m) by {
                    if m == line {
                        assert(tokens@[k as int] == t);
                    }
                }
            }
        } else {
            assert forall|m: int| 0 <= m <= n implies (#[trigger] comparison_lines@[m]
                <==> exists|i: int|
                0 <= i < k + 1 && (#[trigger] tokens@[i].kind == TokenKind::Assert
                    || tokens@[i].kind == TokenKind::Comparison) && token_line(
                    source@,
                    tokens@[i],
                ) == m) by {
                if comparison_lines@[m] {
                    let i = choose|i: int|
                        0 <= i < k && (#[trigger] tokens@[i].kind == TokenKind::Assert
                            || tokens@[i].kind == TokenKind::Comparison) && token_line(
                            source@,
                            tokens@[i],
                        ) == m;
                }
            }
        }
        k = k + 1;
    }
    let mut masked: Vec<char> = source.clone();
    let mut k: usize = 0;
    while k < tokens.len()
        invariant
            0 <= k <= tokens@.len(),
            n == source@.len(),
            masked@.len() == n,
            index.wf(),
            index.text() == source@,
            tokens_within(tokens@, source@.len()),
            comparison_lines@.len() == n + 1,
            forall|m: int|
                0 <= m <= n ==> (#[trigger] comparison_lines@[m] <==> is_comparison_line(
                    source@,
                    tokens@,
                    m,
                )),
            forall|p: int|
                0 <= p < n ==> #[trigger] masked@[p] == if source@[p] != '\n' && source@[p] != '\r'
                    && covered(source@, tokens@, k as int, p) {
                    ' '
                } else {
                    source@[p]
                },
        decreases tokens@.len() - k,
    {
        let t = tokens[k];
        proof {
            crate::text::lemma_line_ends_bounded(source@, t.range.start as int);
        }
        let masks = if t.kind == TokenKind::Comment {
            true
        } else if t.kind == TokenKind::StringPart {
            comparison_lines[index.line_number(t.range.start)]
        } else {
            false
        };
        proof {
            assert(t == tokens@[k as int]);
            assert(masks == is_masked_token(source@, tokens@, t));
        }
        if masks {
            let mut p = t.range.start;
            while p < t.range.end
                invariant
                    t.range.start <= p <= t.range.end <= n,
                    n == source@.len(),
                    masked@.len() == n,
                    t == tokens@[k as int],
                    is_masked_token(source@, tokens@, t),
                    forall|q: int|
                        0 <= q < n ==> #[trigger] masked@[q] == if source@[q] != '\n'
                            && source@[q] != '\r' && (covered(source@, tokens@, k as int, q) || (
                        t.range.start <= q < p)) {
                            ' '
                        } else {
                            source@[q]
                        },
                decreases t.range.end - p,
            {
                if source[p] != '\n' && source[p] != '\r' {
                    masked.set(p, ' ');
                }
                p = p + 1;
            }
        }
        proof {
            assert forall|q: int| 0 <= q < n implies #[trigger] masked@[q] == if source@[q]
                != '\n' && source@[q] != '\r' && covered(source@, tokens@, k + 1, q) {
                ' '
            } else {
                source@[q]
            } by {
                if covered(source@, tokens@, k + 1, q) && !covered(source@, tokens@, k as int, q) {
                    let i = choose|i: int|
                        0 <= i < k + 1 && is_masked_token(source@, tokens@, #[trigger] tokens@[i])
                            && tokens@[i].range.start <= q < tokens@[i].range.end;
                    assert(i == k);
                }
                if masks && t.range.start <= q < t.range.end {
                    assert(covered(source@, tokens@, k + 1, q)) by {
                        assert(is_masked_token(source@, tokens@, tokens@[k as int]));
                    }
                }
            }
        }
        k = k + 1;
    }
    assert(masked@ =~= masked_text(source@, tokens@));
    masked
}

} // verus!
