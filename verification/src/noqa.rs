//! `# noqa` directives: where a directive starts inside a comment, which codes it lists,
//! and whether it suppresses a rule code.
use vstd::prelude::*;
use crate::text::chars_eq;
use crate::text::is_ascii_digit;
use crate::text::is_ascii_uppercase;
use crate::text::is_ascii_whitespace;
use crate::text::lemma_leading_whitespace_bounds;
use crate::text::lowercase_seq;
use crate::text::skip_whitespace;
use crate::text::slice_chars;
use crate::text::to_ascii_lowercase_exec;
use crate::text::trim_start;

verus! {

/// `n`, `o`, `q`, `a`.
pub open spec fn noqa_word() -> Seq<char> {
    seq!['n', 'o', 'q', 'a']
}

/// The text after a leading `:`, when there is one.
pub open spec fn strip_colon(s: Seq<char>) -> Option<Seq<char>> {
    if s.len() > 0 && s[0] == ':' {
        Some(s.drop_first())
    } else {
        None
    }
}

/// What a directive body after `#` parses to: `None` when it is not a `noqa` directive,
/// `Some(None)` for a bare directive, and `Some(Some(codes))` for an explicit code list.
pub open spec fn parse_noqa_rules(directive: Seq<char>) -> Option<Option<Seq<char>>> {
    let d = trim_start(directive);
    if !(d.len() >= 4 && lowercase_seq(d.take(4)) == noqa_word()) {
        None
    } else {
        let rest = d.skip(4);
        if rest.len() > 0 && rest[0] != ':' && rest[0] != '#' && !is_ascii_whitespace(rest[0]) {
            None
        } else {
            Some(strip_colon(trim_start(rest)))
        }
    }
}

/// A `#` at `i` may open a directive: it opens the comment or follows whitespace or a `#`.
pub open spec fn is_directive_hash(body: Seq<char>, i: int) -> bool {
    &&& 0 <= i < body.len()
    &&& body[i] == '#'
    &&& (i == 0 || is_ascii_whitespace(body[i - 1]) || body[i - 1] == '#')
}

/// A directive parses from the `#` at `i`.
pub open spec fn is_directive_at(body: Seq<char>, i: int) -> bool {
    is_directive_hash(body, i) && parse_noqa_rules(body.skip(i + 1)) is Some
}

/// The first `#` from which a directive parses, with what it parses to.
pub open spec fn noqa_directive(body: Seq<char>) -> Option<(int, Option<Seq<char>>)> {
    if exists|i: int| is_directive_at(body, i) {
        let i = choose|i: int|
            is_directive_at(body, i) && forall|j: int| 0 <= j < i ==> !is_directive_at(body, j);
        Some((i, parse_noqa_rules(body.skip(i + 1))->0))
    } else {
        None
    }
}

/// Separators between the codes of a list: `,` and ASCII whitespace.
pub open spec fn is_code_separator(c: char) -> bool {
    c == ',' || is_ascii_whitespace(c)
}

/// The non-empty runs of non-separator characters of `s[i..]`, where `current` is the run
/// in progress.
pub open spec fn code_tokens_from(s: Seq<char>, i: int, current: Seq<char>) -> Seq<Seq<char>>
    decreases s.len() - i,
{
    if i >= s.len() {
        if current.len() > 0 {
            seq![current]
        } else {
            seq![]
        }
    } else if is_code_separator(s[i]) {
        if current.len() > 0 {
            seq![current] + code_tokens_from(s, i + 1, seq![])
        } else {
            code_tokens_from(s, i + 1, seq![])
        }
    } else {
        code_tokens_from(s, i + 1, current.push(s[i]))
    }
}

pub open spec fn code_tokens(s: Seq<char>) -> Seq<Seq<char>> {
    code_tokens_from(s, 0, seq![])
}

/// Number of leading uppercase ASCII letters.
pub open spec fn leading_uppercase(s: Seq<char>) -> int
    decreases s.len(),
{
    if s.len() > 0 && is_ascii_uppercase(s[0]) {
        1 + leading_uppercase(s.drop_first())
    } else {
        0
    }
}

/// A rule code: one or more uppercase ASCII letters followed by one or more ASCII digits.
pub open spec fn is_rule_code(rule: Seq<char>) -> bool {
    let letters = leading_uppercase(rule);
    &&& letters > 0
    &&& letters < rule.len()
    &&& forall|k: int| letters <= k < rule.len() ==> is_ascii_digit(#[trigger] rule[k])
}

/// The longest prefix of `tokens` whose members are all rule codes.
pub open spec fn leading_codes(tokens: Seq<Seq<char>>) -> Seq<Seq<char>>
    decreases tokens.len(),
{
    if tokens.len() > 0 && is_rule_code(tokens[0]) {
        seq![tokens[0]] + leading_codes(tokens.drop_first())
    } else {
        seq![]
    }
}

/// The part of a code list before its first `#`.
pub open spec fn before_hash(s: Seq<char>) -> Seq<char> {
    if exists|i: int| 0 <= i < s.len() && s[i] == '#' {
        let i = choose|i: int|
            0 <= i < s.len() && s[i] == '#' && forall|j: int| 0 <= j < i ==> s[j] != '#';
        s.take(i)
    } else {
        s
    }
}

/// A bare directive suppresses every code; a code list suppresses the codes it lists before
/// its first token that is not a rule code.
pub open spec fn matches_noqa_rules(rules: Option<Seq<char>>, code: Seq<char>) -> bool {
    match rules {
        None => true,
        Some(list) => leading_codes(code_tokens(before_hash(list))).contains(code),
    }
}

/// The comment `text` holds a directive that suppresses `code`.
pub open spec fn suppresses(text: Seq<char>, code: Seq<char>) -> bool {
    match noqa_directive(text) {
        Some((_, rules)) => matches_noqa_rules(rules, code),
        None => false,
    }
}

pub fn is_ascii_whitespace_exec(c: char) -> (r: bool)
    ensures
        r == is_ascii_whitespace(c),
{
    c == ' ' || c == '\t' || c == '\n' || c == '\u{c}' || c == '\r'
}

/// Parses a directive body, the text after its `#`; see [`parse_noqa_rules`].
pub fn parse_noqa_rules_exec(directive: &Vec<char>) -> (result: Option<Option<Vec<char>>>)
    ensures
        match (result, parse_noqa_rules(directive@)) {
            (None, None) => true,
            (Some(None), Some(None)) => true,
            (Some(Some(codes)), Some(Some(spec_codes))) => codes@ == spec_codes,
            _ => false,
        },
{
    let n = directive.len();
    let start = skip_whitespace(directive, 0, n);
    let ghost d = trim_start(directive@);
    proof {
        lemma_leading_whitespace_bounds(directive@);
        assert(directive@.subrange(0, n as int) =~= directive@);
        assert(d =~= directive@.subrange(start as int, n as int));
    }
    if n - start < 4 {
        return None;
    }
    let c0 = to_ascii_lowercase_exec(directive[start]);
    let c1 = to_ascii_lowercase_exec(directive[start + 1]);
    let c2 = to_ascii_lowercase_exec(directive[start + 2]);
    let c3 = to_ascii_lowercase_exec(directive[start + 3]);
    proof {
        assert(lowercase_seq(d.take(4)) =~= seq![c0, c1, c2, c3]);
    }
    if !(c0 == 'n' && c1 == 'o' && c2 == 'q' && c3 == 'a') {
        proof {
            assert(lowercase_seq(d.take(4)) != noqa_word()) by {
                if lowercase_seq(d.take(4)) == noqa_word() {
                    assert(lowercase_seq(d.take(4))[0] == 'n');
                    assert(lowercase_seq(d.take(4))[1] == 'o');
                    assert(lowercase_seq(d.take(4))[2] == 'q');
                    assert(lowercase_seq(d.take(4))[3] == 'a');
                }
            }
        }
        return None;
    }
    proof {
        assert(lowercase_seq(d.take(4)) =~= noqa_word());
    }
    let after = start + 4;
    let ghost rest = d.skip(4);
    proof {
        assert(rest =~= directive@.subrange(after as int, n as int));
    }
    if after < n {
        let c = directive[after];
        if c != ':' && c != '#' && !is_ascii_whitespace_exec(c) {
            return None;
        }
    }
    let code_start = skip_whitespace(directive, after, n);
    proof {
        lemma_leading_whitespace_bounds(rest);
        assert(trim_start(rest) =~= directive@.subrange(code_start as int, n as int));
    }
    if code_start < n && directive[code_start] == ':' {
        let codes = slice_chars(directive, code_start + 1, n);
        proof {
            assert(trim_start(rest).drop_first() =~= codes@);
        }
        Some(Some(codes))
    } else {
        Some(None)
    }
}

/// Finds the first `#` of `body` from which a `noqa` directive parses; see
/// [`noqa_directive`].
pub fn find_noqa_directive(body: &Vec<char>) -> (result: Option<(usize, Option<Vec<char>>)>)
    ensures
        match (result, noqa_directive(body@)) {
            (None, None) => true,
            (Some((i, None)), Some((j, None))) => i == j,
            (Some((i, Some(codes))), Some((j, Some(spec_codes)))) => i == j && codes@
                == spec_codes,
            _ => false,
        },
        result matches Some((i, _)) ==> i < body@.len(),
{
    let n = body.len();
    let mut i: usize = 0;
    while i < n
        invariant
            n == body@.len(),
            0 <= i <= n,
            forall|j: int| 0 <= j < i ==> !is_directive_at(body@, j),
        decreases n - i,
    {
        if body[i] == '#' && (i == 0 || is_ascii_whitespace_exec(body[i - 1]) || body[i - 1]
            == '#') {
            let rest = slice_chars(body, i + 1, n);
            proof {
                assert(rest@ =~= body@.skip(i + 1));
            }
            let parsed = parse_noqa_rules_exec(&rest);
            match parsed {
                Some(rules) => {
                    proof {
                        assert(is_directive_at(body@, i as int));
                        let k = choose|k: int|
                            is_directive_at(body@, k) && forall|j: int|
                                0 <= j < k ==> !is_directive_at(body@, j);
                        assert(k == i) by {
                            if k < i {
                            } else if k > i {
                                assert(!is_directive_at(body@, i as int));
                            }
                        }
                    }
                    return Some((i, rules));
                },
                None => {},
            }
        }
        i = i + 1;
    }
    None
}

/// Number of leading uppercase ASCII letters of `s`.
fn count_leading_uppercase(s: &Vec<char>) -> (count: usize)
    ensures
        count == leading_uppercase(s@),
{
    let mut i: usize = 0;
    assert(s@.skip(0) =~= s@);
    while i < s.len() && 'A' <= s[i] && s[i] <= 'Z'
        invariant
            0 <= i <= s@.len(),
            leading_uppercase(s@) == i + leading_uppercase(s@.skip(i as int)),
        decreases s@.len() - i,
    {
        assert(s@.skip(i as int).drop_first() =~= s@.skip(i + 1));
        i = i + 1;
    }
    proof { count_leading_uppercase_bound(s@); }
    i
}

proof fn count_leading_uppercase_bound(s: Seq<char>)
    ensures
        0 <= leading_uppercase(s) <= s.len(),
        forall|k: int| 0 <= k < leading_uppercase(s) ==> is_ascii_uppercase(#[trigger] s[k]),
    decreases s.len(),
{
    if s.len() > 0 && is_ascii_uppercase(s[0]) {
        count_leading_uppercase_bound(s.drop_first());
        assert forall|k: int| 0 <= k < leading_uppercase(s) implies is_ascii_uppercase(
            #[trigger] s[k],
        ) by {
            if k > 0 {
                assert(s[k] == s.drop_first()[k - 1]);
            }
        }
    }
}

/// Whether `rule` is a rule code; see [`is_rule_code`].
pub fn is_rule_code_exec(rule: &Vec<char>) -> (r: bool)
    ensures
        r == is_rule_code(rule@),
{
    let letters = count_leading_uppercase(rule);
    if letters == 0 || letters >= rule.len() {
        return false;
    }
    let mut k = letters;
    while k < rule.len()
        invariant
            letters <= k <= rule@.len(),
            letters == leading_uppercase(rule@),
            forall|j: int| letters <= j < k ==> is_ascii_digit(#[trigger] rule@[j]),
        decreases rule@.len() - k,
    {
        if !('0' <= rule[k] && rule[k] <= '9') {
            return false;
        }
        k = k + 1;
    }
    true
}

/// Whether the directive code list `rules` suppresses `code`; see [`matches_noqa_rules`].
#[verifier::loop_isolation(false)]
pub fn matches_noqa_rules_exec(rules: &Option<Vec<char>>, code: &Vec<char>) -> (r: bool)
    ensures
        r == matches_noqa_rules(
            match rules {
                Some(list) => Some(list@),
                None => None,
            },
            code@,
        ),
{
    let list = match rules {
        None => {
            return true;
        },
        Some(list) => list,
    };
    let n = list.len();
    let mut end: usize = 0;
    while end < n && list[end] != '#'
        invariant
            0 <= end <= n == list@.len(),
            forall|j: int| 0 <= j < end ==> list@[j] != '#',
        decreases n - end,
    {
        end = end + 1;
    }
    let ghost codes = list@.take(end as int);
    proof {
        if end < n {
            let i = choose|i: int|
                0 <= i < list@.len() && list@[i] == '#' && forall|j: int|
                    0 <= j < i ==> list@[j] != '#';
            assert(i == end) by {
                if i < end {
                } else if i > end {
                }
            }
            assert(before_hash(list@) == codes);
        } else {
            assert(codes =~= list@);
            assert(before_hash(list@) == codes);
        }
    }
    // Walk the tokens of `codes` in order, stopping at the first that is not a rule code.
    let mut current: Vec<char> = Vec::new();
    let mut i: usize = 0;
    while i < end
        invariant
            0 <= i <= end <= n == list@.len(),
            codes == list@.take(end as int),
            leading_codes(code_tokens(codes)).contains(code@) == leading_codes(
                code_tokens_from(codes, i as int, current@),
            ).contains(code@),
        decreases end - i,
    {
        let c = list[i];
        assert(codes[i as int] == c);
        if c == ',' || is_ascii_whitespace_exec(c) {
            if current.len() > 0 {
                let is_code = is_rule_code_exec(&current);
                let is_match = chars_eq(&current, code);
                proof {
                    let rest = code_tokens_from(codes, i + 1, seq![]);
                    let tokens = seq![current@] + rest;
                    assert(code_tokens_from(codes, i as int, current@) == tokens);
                    assert(tokens.drop_first() =~= rest);
                    assert(tokens[0] == current@);
                    if is_code {
                        assert(leading_codes(tokens) =~= seq![current@] + leading_codes(rest));
                        if leading_codes(rest).contains(code@) {
                            let k = choose|k: int|
                                0 <= k < leading_codes(rest).len() && leading_codes(rest)[k]
                                    == code@;
                            assert(leading_codes(tokens)[k + 1] == code@);
                        }
                        if leading_codes(tokens).contains(code@) {
                            let k = choose|k: int|
                                0 <= k < leading_codes(tokens).len() && leading_codes(
                                    tokens,
                                )[k] == code@;
                            if k > 0 {
                                assert(leading_codes(rest)[k - 1] == code@);
                                assert(leading_codes(rest).contains(code@));
                            }
                        }
                        if !is_match && leading_codes(rest).contains(code@) {
                            let k = choose|k: int|
                                0 <= k < leading_codes(rest).len() && leading_codes(rest)[k]
                                    == code@;
                            assert(leading_codes(tokens)[k + 1] == code@);
                            assert(leading_codes(tokens).contains(code@));
                        }
                    } else {
                        assert(leading_codes(tokens) =~= seq![]);
                    }
                }
                if !is_code {
                    return false;
                }
                if is_match {
                    proof {
                        let tokens = seq![current@] + code_tokens_from(codes, i + 1, seq![]);
                        assert(leading_codes(tokens)[0] == code@);
                    }
                    return true;
                }
                current = Vec::new();
            } else {
                assert(code_tokens_from(codes, i as int, current@) == code_tokens_from(codes, i + 1, seq![]));
                assert(current@ =~= Seq::<char>::empty());
            }
        } else {
            let ghost before = current@;
            current.push(c);
            assert(code_tokens_from(codes, i as int, before) == code_tokens_from(codes, i + 1, current@));
        }
        i = i + 1;
    }
    if current.len() > 0 {
        let is_code = is_rule_code_exec(&current);
        let is_match = chars_eq(&current, code);
        proof {
            let tokens = seq![current@];
            assert(code_tokens_from(codes, end as int, current@) == tokens);
            assert(tokens.drop_first() =~= Seq::<Seq<char>>::empty());
            if is_code {
                assert(leading_codes(tokens) =~= seq![current@] + leading_codes(
                    tokens.drop_first(),
                ));
                assert(leading_codes(tokens.drop_first()) =~= Seq::<Seq<char>>::empty());
                if is_match {
                    assert(leading_codes(tokens)[0] == code@);
                }
            } else {
                assert(leading_codes(tokens) =~= Seq::<Seq<char>>::empty());
            }
        }
        is_code && is_match
    } else {
        proof {
            assert(code_tokens_from(codes, end as int, current@) =~= Seq::<Seq<char>>::empty());
            assert(leading_codes(Seq::<Seq<char>>::empty()) =~= Seq::<Seq<char>>::empty());
        }
        false
    }
}

/// Whether the comment `text` holds a directive that suppresses `code`; see [`suppresses`].
pub fn suppresses_exec(text: &Vec<char>, code: &Vec<char>) -> (r: bool)
    ensures
        r == suppresses(text@, code@),
{
    match find_noqa_directive(text) {
        Some((_, rules)) => matches_noqa_rules_exec(&rules, code),
        None => false,
    }
}

/// A directive without a code list suppresses every code.
pub proof fn law_bare_directive_suppresses_every_code(text: Seq<char>, code: Seq<char>)
    requires
        noqa_directive(text) matches Some((_, None)),
    ensures
        suppresses(text, code),
{
}

/// A directive with a code list suppresses only rule codes that the list names: a lowercase
/// code or any other word suppresses nothing.
pub proof fn law_code_list_suppresses_only_listed_rule_codes(text: Seq<char>, code: Seq<char>)
    requires
        noqa_directive(text) matches Some((_, Some(_))),
        suppresses(text, code),
    ensures
        is_rule_code(code),
        match noqa_directive(text) {
            Some((_, Some(list))) => code_tokens(before_hash(list)).contains(code),
            _ => false,
        },
{
    match noqa_directive(text) {
        Some((_, Some(list))) => lemma_leading_codes_are_codes(code_tokens(before_hash(list)), code),
        _ => {},
    }
}

proof fn lemma_leading_codes_are_codes(tokens: Seq<Seq<char>>, code: Seq<char>)
    requires
        leading_codes(tokens).contains(code),
    ensures
        is_rule_code(code),
        tokens.contains(code),
    decreases tokens.len(),
{
    if tokens.len() > 0 && is_rule_code(tokens[0]) {
        let rest = leading_codes(tokens.drop_first());
        let i = choose|i: int| 0 <= i < leading_codes(tokens).len() && leading_codes(tokens)[i] == code;
        if i == 0 {
            assert(tokens[0] == code);
        } else {
            assert(rest[i - 1] == code);
            lemma_leading_codes_are_codes(tokens.drop_first(), code);
            let j = choose|j: int| 0 <= j < tokens.drop_first().len() && tokens.drop_first()[j] == code;
            assert(tokens[j + 1] == code);
        }
    }
}

} // verus!
