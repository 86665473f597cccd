//! The rule table and rule selection: which selectors are valid, how specific a selector is
//! for a code, and whether a code ends up enabled.
use vstd::prelude::*;
use crate::text::chars_eq;
use crate::text::push_str;
use crate::text::starts_with;
use crate::text::to_chars;
use crate::text::views;

verus! {

/// A rule of the table: its stable code, its name and its one-line summary.
pub struct RuleInfo {
    pub code: &'static str,
    pub name: &'static str,
    pub summary: &'static str,
}

/// Number of rules in the table.
pub const RULE_COUNT: usize = 12;

/// The rule codes, in table order.
pub open spec fn rule_codes() -> Seq<Seq<char>> {
    seq![
        "GR001"@,
        "GR002"@,
        "GR003"@,
        "GR004"@,
        "GR005"@,
        "GR006"@,
        "GR007"@,
        "GR008"@,
        "GR009"@,
        "GR010"@,
        "GR011"@,
        "GR012"@,
    ]
}

/// The rule names, in table order.
pub open spec fn rule_names() -> Seq<Seq<char>> {
    seq![
        "explicit-non-public-input-conventions"@,
        "required-non-public-inputs"@,
        "package-dunder-all"@,
        "final-constants"@,
        "explicit-public-input-conventions"@,
        "no-non-public-docstrings"@,
        "no-subsumed-comments"@,
        "no-exception-swallowing-tests"@,
        "no-guarded-tails"@,
        "positive-branch-conditions"@,
        "no-single-consumer-module-bindings"@,
        "explicit-instance-data"@,
    ]
}

/// The rule at `index` of the table.
pub fn rule_info(index: usize) -> (rule: RuleInfo)
    requires
        index < RULE_COUNT,
    ensures
        rule.code@ == rule_codes()[index as int],
        rule.name@ == rule_names()[index as int],
{
    match index {
        0 => RuleInfo {
            code: "GR001",
            name: "explicit-non-public-input-conventions",
            summary: "Every fixed input to a non-public callable has an explicit calling convention.",
        },
        1 => RuleInfo {
            code: "GR002",
            name: "required-non-public-inputs",
            summary: "Callers supply every fixed input to non-public callables.",
        },
        2 => RuleInfo {
            code: "GR003",
            name: "package-dunder-all",
            summary: "Every public package import path defines `__all__`.",
        },
        3 => RuleInfo {
            code: "GR004",
            name: "final-constants",
            summary: "Uppercase names and `Final` annotations appear together.",
        },
        4 => RuleInfo {
            code: "GR005",
            name: "explicit-public-input-conventions",
            summary: "Every fixed input to a public callable has an explicit calling convention.",
        },
        5 => RuleInfo {
            code: "GR006",
            name: "no-non-public-docstrings",
            summary: "Non-public definitions carry their purpose in their names instead of docstrings.",
        },
        6 => RuleInfo {
            code: "GR007",
            name: "no-subsumed-comments",
            summary: "One-line comments state something beyond the statements they annotate.",
        },
        7 => RuleInfo {
            code: "GR008",
            name: "no-exception-swallowing-tests",
            summary: "Tests let exceptions propagate instead of swallowing them.",
        },
        8 => RuleInfo {
            code: "GR009",
            name: "no-guarded-tails",
            summary: "Trailing conditions invert into guards instead of nesting the rest of the body.",
        },
        9 => RuleInfo {
            code: "GR010",
            name: "positive-branch-conditions",
            summary: "Branch conditions state the positive form instead of negating around an `else`.",
        },
        10 => RuleInfo {
            code: "GR011",
            name: "no-single-consumer-module-bindings",
            summary: "Non-public module bindings live in the one definition that reads them.",
        },
        _ => RuleInfo {
            code: "GR012",
            name: "explicit-instance-data",
            summary: "Public instance data is explicit through class-body annotations or properties.",
        },
    }
}

/// The selector that enables every rule.
pub open spec fn all_selector() -> Seq<char> {
    "ALL"@
}

/// A valid selector is `ALL` or a non-empty prefix of some rule code.
pub open spec fn is_rule_selector(selector: Seq<char>) -> bool {
    ||| selector == all_selector()
    ||| (selector.len() > 0 && exists|i: int|
        0 <= i < rule_codes().len() && is_prefix(selector, #[trigger] rule_codes()[i]))
}

pub open spec fn is_prefix(prefix: Seq<char>, s: Seq<char>) -> bool {
    prefix.len() <= s.len() && s.take(prefix.len() as int) == prefix
}

/// How specifically `selector` names `code`: `ALL` has specificity zero, a prefix of the
/// code its length, and any other selector does not name the code.
pub open spec fn selector_specificity(selector: Seq<char>, code: Seq<char>) -> Option<nat> {
    if selector == all_selector() {
        Some(0)
    } else if is_prefix(selector, code) {
        Some(selector.len())
    } else {
        None
    }
}

pub open spec fn max_option(a: Option<nat>, b: Option<nat>) -> Option<nat> {
    match (a, b) {
        (None, _) => b,
        (_, None) => a,
        (Some(x), Some(y)) => Some(if x >= y { x } else { y }),
    }
}

/// The greatest specificity among `selectors` for `code`, or `None` when none names it.
pub open spec fn specificity(selectors: Seq<Seq<char>>, code: Seq<char>) -> Option<nat>
    decreases selectors.len(),
{
    if selectors.len() == 0 {
        None
    } else {
        max_option(
            specificity(selectors.drop_last(), code),
            selector_specificity(selectors.last(), code),
        )
    }
}

/// A code is enabled when some selected selector names it more specifically than every
/// ignored selector that names it.
pub open spec fn is_rule_enabled(
    selected: Seq<Seq<char>>,
    ignored: Seq<Seq<char>>,
    code: Seq<char>,
) -> bool {
    match (specificity(selected, code), specificity(ignored, code)) {
        (Some(s), None) => true,
        (Some(s), Some(i)) => s > i,
        _ => false,
    }
}

pub open spec fn string_views(v: Seq<String>) -> Seq<Seq<char>> {
    v.map_values(|s: String| s@)
}

/// Every selector of the list is valid.
pub open spec fn all_valid(selectors: Seq<Seq<char>>) -> bool {
    forall|i: int| 0 <= i < selectors.len() ==> is_rule_selector(#[trigger] selectors[i])
}

/// The first invalid selector of the list, if any.
pub open spec fn first_invalid(selectors: Seq<Seq<char>>) -> Option<Seq<char>> {
    if all_valid(selectors) {
        None
    } else {
        let i = choose|i: int|
            0 <= i < selectors.len() && !is_rule_selector(selectors[i]) && forall|j: int|
                0 <= j < i ==> is_rule_selector(#[trigger] selectors[j]);
        Some(selectors[i])
    }
}

/// The message for an unknown selector.
pub open spec fn unknown_selector_message(selector: Seq<char>) -> Seq<char> {
    "Unknown rule selector: "@ + selector
}

/// Whether `selector` is `ALL` or a non-empty prefix of a rule code.
pub fn is_rule_selector_exec(selector: &Vec<char>) -> (r: bool)
    ensures
        r == is_rule_selector(selector@),
{
    let all = to_chars("ALL");
    if chars_eq(selector, &all) {
        return true;
    }
    if selector.len() == 0 {
        return false;
    }
    let mut i: usize = 0;
    while i < RULE_COUNT
        invariant
            0 <= i <= RULE_COUNT,
            selector@.len() > 0,
            forall|j: int| 0 <= j < i ==> !is_prefix(selector@, #[trigger] rule_codes()[j]),
        decreases RULE_COUNT - i,
    {
        let rule = rule_info(i);
        let code = to_chars(rule.code);
        if starts_with(&code, selector) {
            return true;
        }
        i = i + 1;
    }
    false
}

/// The first selector of `selectors` that is not a valid selector, if any.
pub fn find_invalid(selectors: &Vec<Vec<char>>) -> (r: Option<usize>)
    ensures
        match r {
            None => all_valid(views(selectors@)),
            Some(i) => i < selectors@.len() && !is_rule_selector(selectors@[i as int]@) && forall|
                j: int,
            | 0 <= j < i ==> is_rule_selector(#[trigger] selectors@[j]@),
        },
{
    let mut i: usize = 0;
    while i < selectors.len()
        invariant
            0 <= i <= selectors@.len(),
            forall|j: int| 0 <= j < i ==> is_rule_selector(#[trigger] selectors@[j]@),
        decreases selectors@.len() - i,
    {
        if !is_rule_selector_exec(&selectors[i]) {
            return Some(i);
        }
        i = i + 1;
    }
    let ghost all_views = views(selectors@);
    assert forall|j: int| 0 <= j < all_views.len() implies is_rule_selector(#[trigger] all_views[j]) by {
        assert(all_views[j] == selectors@[j]@);
    }
    None
}

/// Checks that every selector is valid, reporting the first that is not.
pub fn validate_rules(selectors: &Vec<Vec<char>>) -> (r: Result<(), Vec<char>>)
    ensures
        r is Ok <==> all_valid(views(selectors@)),
        r matches Err(message) ==> message@ == unknown_selector_message(
            first_invalid(views(selectors@))->0,
        ),
{
    let ghost all_views = views(selectors@);
    match find_invalid(selectors) {
        None => Ok(()),
        Some(i) => {
            proof {
                assert(!is_rule_selector(all_views[i as int]));
                let k = choose|k: int|
                    0 <= k < all_views.len() && !is_rule_selector(all_views[k]) && forall|j: int|
                        0 <= j < k ==> is_rule_selector(#[trigger] all_views[j]);
                assert(k == i) by {
                    if k < i {
                        assert(is_rule_selector(selectors@[k]@));
                    } else if k > i {
                        assert(is_rule_selector(all_views[i as int]));
                    }
                }
            }
            let mut message: Vec<char> = Vec::new();
            push_str(&mut message, "Unknown rule selector: ");
            let selector = &selectors[i];
            crate::text::push_chars(&mut message, selector);
            Err(message)
        },
    }
}

/// How specifically `selectors` name `code`; see [`specificity`].
pub fn get_rule_specificity(selectors: &Vec<Vec<char>>, code: &Vec<char>) -> (r: Option<usize>)
    ensures
        match (r, specificity(views(selectors@), code@)) {
            (None, None) => true,
            (Some(x), Some(y)) => x == y,
            _ => false,
        },
{
    let ghost all_views = views(selectors@);
    let all = to_chars("ALL");
    let mut best: Option<usize> = None;
    let mut i: usize = 0;
    while i < selectors.len()
        invariant
            0 <= i <= selectors@.len(),
            all_views == views(selectors@),
            all@ == all_selector(),
            match (best, specificity(all_views.take(i as int), code@)) {
                (None, None) => true,
                (Some(x), Some(y)) => x == y,
                _ => false,
            },
        decreases selectors@.len() - i,
    {
        let selector = &selectors[i];
        let value: Option<usize> = if chars_eq(selector, &all) {
            Some(0)
        } else if starts_with(code, selector) {
            Some(selector.len())
        } else {
            None
        };
        proof {
            assert(all_views.take(i + 1).drop_last() =~= all_views.take(i as int));
            assert(all_views.take(i + 1).last() == selector@);
        }
        best = match (best, value) {
            (None, _) => value,
            (_, None) => best,
            (Some(x), Some(y)) => Some(if x >= y { x } else { y }),
        };
        i = i + 1;
    }
    assert(all_views.take(selectors@.len() as int) =~= all_views);
    best
}

/// Whether `code` is enabled by `selected` against `ignored`; see [`is_rule_enabled`].
pub fn is_rule_enabled_exec(
    selected: &Vec<Vec<char>>,
    ignored: &Vec<Vec<char>>,
    code: &Vec<char>,
) -> (r: bool)
    ensures
        r == is_rule_enabled(
            views(selected@),
            views(ignored@),
            code@,
        ),
{
    let selected_value = get_rule_specificity(selected, code);
    let ignored_value = get_rule_specificity(ignored, code);
    match (selected_value, ignored_value) {
        (Some(_), None) => true,
        (Some(s), Some(i)) => s > i,
        _ => false,
    }
}

/// The `k`-th rule of the table is the one that `key` names, by its code or by its name,
/// matched literally.
pub open spec fn designates(k: int, key: Seq<char>) -> bool {
    rule_codes()[k] == key || rule_names()[k] == key
}

/// The message for a key that names no rule, listing the codes there are.
pub open spec fn unknown_rule_message(key: Seq<char>) -> Seq<char> {
    "Unknown rule: "@ + key
        + " (rules: GR001, GR002, GR003, GR004, GR005, GR006, GR007, GR008, GR009, GR010, GR011, GR012)"@
}

/// The first rule of the table that the key names by code or name, or, when none does, the
/// error naming the key.
pub fn find_rule(key: &String) -> (r: Result<usize, Vec<char>>)
    ensures
        match r {
            Ok(k) => k < RULE_COUNT && designates(k as int, key@) && forall|j: int|
                0 <= j < k ==> !designates(j, key@),
            Err(message) => message@ == unknown_rule_message(key@) && forall|j: int|
                0 <= j < RULE_COUNT ==> !designates(j, key@),
        },
{
    let chars = to_chars(key.as_str());
    let mut k: usize = 0;
    while k < RULE_COUNT
        invariant
            0 <= k <= RULE_COUNT,
            chars@ == key@,
            forall|j: int| 0 <= j < k ==> !designates(j, key@),
        decreases RULE_COUNT - k,
    {
        let rule = rule_info(k);
        if chars_eq(&to_chars(rule.code), &chars) || chars_eq(&to_chars(rule.name), &chars) {
            return Ok(k);
        }
        k = k + 1;
    }
    let mut message: Vec<char> = Vec::new();
    push_str(&mut message, "Unknown rule: ");
    push_str(&mut message, key.as_str());
    push_str(
        &mut message,
        " (rules: GR001, GR002, GR003, GR004, GR005, GR006, GR007, GR008, GR009, GR010, GR011, GR012)",
    );
    Err(message)
}

/// `ALL` alone enables every code, since nothing is ignored.
pub proof fn law_all_enables_every_code(code: Seq<char>)
    ensures
        is_rule_enabled(seq![all_selector()], seq![], code),
{
    assert(seq![all_selector()].drop_last() =~= Seq::<Seq<char>>::empty());
}

/// When the selected and the ignored selectors name a code equally specifically, the code is
/// disabled: a tie goes to the ignore.
pub proof fn law_ignore_wins_a_tie(selected: Seq<Seq<char>>, ignored: Seq<Seq<char>>, code: Seq<char>)
    requires
        specificity(selected, code) == specificity(ignored, code),
    ensures
        !is_rule_enabled(selected, ignored, code),
{
}

/// Selecting a code itself overrides ignoring a shorter prefix of it or `ALL`, and ignoring
/// the code itself overrides selecting such a selector.
pub proof fn law_more_specific_selector_wins(code: Seq<char>, broad: Seq<char>)
    requires
        code.len() > 0,
        code != all_selector(),
        broad == all_selector() || (is_prefix(broad, code) && broad.len() < code.len()),
    ensures
        is_rule_enabled(seq![code], seq![broad], code),
        !is_rule_enabled(seq![broad], seq![code], code),
{
    let narrow = seq![code];
    let wide = seq![broad];
    assert(narrow.drop_last() =~= Seq::<Seq<char>>::empty());
    assert(wide.drop_last() =~= Seq::<Seq<char>>::empty());
    assert(specificity(Seq::<Seq<char>>::empty(), code) is None);
    assert(narrow.last() == code);
    assert(wide.last() == broad);
    assert(code.take(code.len() as int) =~= code);
    assert(selector_specificity(code, code) == Some(code.len()));
    assert(specificity(seq![code], code) == Some(code.len()));
}

/// The selector `GR` enables every rule of the table.
pub proof fn law_gr_enables_every_rule(k: int)
    requires
        0 <= k < RULE_COUNT,
    ensures
        is_rule_enabled(seq!["GR"@], seq![], rule_codes()[k]),
{
    reveal_strlit("GR");
    reveal_strlit("ALL");
    reveal_strlit("GR001");
    reveal_strlit("GR002");
    reveal_strlit("GR003");
    reveal_strlit("GR004");
    reveal_strlit("GR005");
    reveal_strlit("GR006");
    reveal_strlit("GR007");
    reveal_strlit("GR008");
    reveal_strlit("GR009");
    reveal_strlit("GR010");
    reveal_strlit("GR011");
    reveal_strlit("GR012");
    let selected = seq!["GR"@];
    let code = rule_codes()[k];
    assert(selected.drop_last() =~= Seq::<Seq<char>>::empty());
    assert(specificity(Seq::<Seq<char>>::empty(), code) is None);
    assert(selected.last() == "GR"@);
    assert(code.len() == 5 && code[0] == 'G' && code[1] == 'R');
    assert(code.take(2) =~= "GR"@);
    assert("GR"@ != all_selector());
    assert(selector_specificity("GR"@, code) == Some(2nat));
}

} // verus!
