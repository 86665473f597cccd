//! Configuration: the `[tool.gruff]` table as values, its validation, which rules a file
//! runs, and the per-file ignores that apply to it.
use vstd::prelude::*;
use crate::paths::check_glob;
use crate::paths::chars_to_string;
use crate::paths::file_name_of;
use crate::paths::glob_error;
use crate::paths::glob_is_match;
use crate::paths::glob_matches;
use crate::paths::is_absolute_path;
use crate::paths::path_file_name;
use crate::paths::path_is_absolute;
use crate::paths::path_strip_prefix;
use crate::paths::strip_path_prefix;
use crate::selection::all_valid;
use crate::selection::first_invalid;
use crate::selection::get_rule_specificity;
use crate::selection::is_rule_enabled;
use crate::selection::is_rule_enabled_exec;
use crate::selection::specificity;
use crate::selection::string_views;
use crate::selection::unknown_selector_message;
use crate::selection::validate_rules;
use crate::text::push_chars;
use crate::text::push_str;
use crate::text::to_chars;
use crate::text::views;
use crate::RunError;

verus! {

/// How findings are written.
#[derive(Clone, Copy, Debug, PartialEq, Eq, Structural)]
pub enum OutputFormat {
    Full,
    Concise,
    Json,
    Github,
}

/// An entry of `per-file-ignores`: a glob pattern, negated by a leading `!`, and the rule
/// selectors it ignores.
pub struct PerFileEntry {
    pub pattern: String,
    pub rules: Vec<String>,
}

/// The `[tool.gruff.lint]` table.
pub struct RawLintConfig {
    pub select: Vec<String>,
    pub ignore: Vec<String>,
    pub per_file_ignores: Vec<PerFileEntry>,
}

/// The `[tool.gruff]` table.
pub struct RawConfig {
    pub lint: RawLintConfig,
    pub output_format: Option<OutputFormat>,
}

/// A per-file ignore ready to match: the pattern relative to the configuration's
/// directory, whether it is negated, and its rule selectors.
pub struct PerFileIgnore {
    pub(crate) pattern: String,
    pub(crate) is_negated: bool,
    pub(crate) rules: Vec<Vec<char>>,
}

pub struct IgnoreView {
    pub pattern: Seq<char>,
    pub is_negated: bool,
    pub rules: Seq<Seq<char>>,
}

impl View for PerFileIgnore {
    type V = IgnoreView;

    closed spec fn view(&self) -> IgnoreView {
        IgnoreView { pattern: self.pattern@, is_negated: self.is_negated, rules: views(self.rules@) }
    }
}

pub open spec fn ignore_views(ignores: Seq<PerFileIgnore>) -> Seq<IgnoreView> {
    ignores.map_values(|i: PerFileIgnore| i@)
}

/// A configuration as values.
pub struct ConfigView {
    pub root: Seq<char>,
    pub select: Seq<Seq<char>>,
    pub ignore: Seq<Seq<char>>,
    pub output_format: Option<OutputFormat>,
    pub per_file_ignores: Seq<IgnoreView>,
}

/// Every selector and pattern is valid.
pub open spec fn config_valid(c: ConfigView) -> bool {
    &&& all_valid(c.select)
    &&& all_valid(c.ignore)
    &&& forall|i: int|
        0 <= i < c.per_file_ignores.len() ==> all_valid((#[trigger] c.per_file_ignores[i]).rules)
            && glob_error(c.per_file_ignores[i].pattern) is None
}

/// A loaded configuration: the directory it applies from, its selection and output format,
/// and its per-file ignores; every selector and pattern of it is valid.
pub struct LoadedConfig {
    root: String,
    select: Vec<Vec<char>>,
    ignore: Vec<Vec<char>>,
    output_format: Option<OutputFormat>,
    per_file_ignores: Vec<PerFileIgnore>,
}

impl View for LoadedConfig {
    type V = ConfigView;

    closed spec fn view(&self) -> ConfigView {
        ConfigView {
            root: self.root@,
            select: views(self.select@),
            ignore: views(self.ignore@),
            output_format: self.output_format,
            per_file_ignores: ignore_views(self.per_file_ignores@),
        }
    }
}

impl LoadedConfig {
    #[verifier::type_invariant]
    spec fn is_valid(self) -> bool {
        config_valid(self@)
    }

    /// The configuration that applies when none is found: no rules, no per-file ignores.
    pub fn empty() -> (config: LoadedConfig)
        ensures
            config@ == empty_config(),
    {
        let config = LoadedConfig {
            root: String::new(),
            select: Vec::new(),
            ignore: Vec::new(),
            output_format: None,
            per_file_ignores: Vec::new(),
        };
        assert(config@.select =~= Seq::<Seq<char>>::empty());
        assert(config@.ignore =~= Seq::<Seq<char>>::empty());
        assert(config@.per_file_ignores =~= Seq::<IgnoreView>::empty());
        config
    }

    /// A copy of the configuration.
    pub fn duplicate(&self) -> (copy: LoadedConfig)
        ensures
            copy@ == self@,
    {
        proof {
            use_type_invariant(self);
        }
        let mut per_file_ignores: Vec<PerFileIgnore> = Vec::new();
        let mut i: usize = 0;
        while i < self.per_file_ignores.len()
            invariant
                0 <= i <= self.per_file_ignores@.len(),
                ignore_views(per_file_ignores@) == ignore_views(self.per_file_ignores@).take(
                    i as int,
                ),
            decreases self.per_file_ignores@.len() - i,
        {
            let source = &self.per_file_ignores[i];
            let ghost before = ignore_views(per_file_ignores@);
            per_file_ignores.push(
                PerFileIgnore {
                    pattern: source.pattern.clone(),
                    is_negated: source.is_negated,
                    rules: copy_selectors(&source.rules),
                },
            );
            assert(ignore_views(per_file_ignores@) =~= before.push(source@));
            assert(ignore_views(per_file_ignores@) =~= ignore_views(self.per_file_ignores@).take(
                i + 1,
            ));
            i = i + 1;
        }
        assert(ignore_views(self.per_file_ignores@).take(self.per_file_ignores@.len() as int)
            =~= ignore_views(self.per_file_ignores@));
        let copy = LoadedConfig {
            root: self.root.clone(),
            select: copy_selectors(&self.select),
            ignore: copy_selectors(&self.ignore),
            output_format: self.output_format,
            per_file_ignores,
        };
        copy
    }

    /// The directory the configuration applies from.
    pub fn root(&self) -> (root: &String)
        ensures
            root@ == self@.root,
    {
        &self.root
    }

    /// The output format the configuration asks for.
    pub fn output_format(&self) -> (format: Option<OutputFormat>)
        ensures
            format == self@.output_format,
    {
        self.output_format
    }
}

pub open spec fn empty_config() -> ConfigView {
    ConfigView {
        root: seq![],
        select: seq![],
        ignore: seq![],
        output_format: None,
        per_file_ignores: seq![],
    }
}

fn copy_selectors(selectors: &Vec<Vec<char>>) -> (out: Vec<Vec<char>>)
    ensures
        views(out@) == views(selectors@),
{
    let mut out: Vec<Vec<char>> = Vec::new();
    let mut i: usize = 0;
    while i < selectors.len()
        invariant
            0 <= i <= selectors@.len(),
            views(out@) == views(selectors@).take(i as int),
        decreases selectors@.len() - i,
    {
        let copy = crate::text::slice_chars(&selectors[i], 0, selectors[i].len());
        assert(copy@ =~= selectors@[i as int]@);
        let ghost before = views(out@);
        out.push(copy);
        assert(views(out@) =~= before.push(copy@));
        assert(views(out@) =~= views(selectors@).take(i + 1));
        i = i + 1;
    }
    assert(views(selectors@).take(selectors@.len() as int) =~= views(selectors@));
    out
}

/// The characters of each string.
pub fn strings_to_chars(strings: &Vec<String>) -> (out: Vec<Vec<char>>)
    ensures
        views(out@) == string_views(strings@),
{
    let mut out: Vec<Vec<char>> = Vec::new();
    let mut i: usize = 0;
    while i < strings.len()
        invariant
            0 <= i <= strings@.len(),
            views(out@) == string_views(strings@).take(i as int),
        decreases strings@.len() - i,
    {
        let chars = to_chars(strings[i].as_str());
        let ghost before = views(out@);
        out.push(chars);
        assert(views(out@) =~= before.push(strings@[i as int]@));
        assert(views(out@) =~= string_views(strings@).take(i + 1));
        i = i + 1;
    }
    assert(string_views(strings@).take(strings@.len() as int) =~= string_views(strings@));
    out
}

/// A per-file pattern without its leading `!`, and whether it had one.
pub open spec fn split_negation(pattern: Seq<char>) -> (Seq<char>, bool) {
    if pattern.len() > 0 && pattern[0] == '!' {
        (pattern.drop_first(), true)
    } else {
        (pattern, false)
    }
}

/// A per-file pattern without its leading `!`, and whether it had one; see
/// [`split_negation`].
pub fn split_negation_exec(pattern: &String) -> (r: (String, bool))
    ensures
        (r.0@, r.1) == split_negation(pattern@),
{
    let chars = to_chars(pattern.as_str());
    if chars.len() > 0 && chars[0] == '!' {
        let rest = crate::text::slice_chars(&chars, 1, chars.len());
        assert(rest@ =~= pattern@.drop_first());
        (chars_to_string(&rest), true)
    } else {
        (pattern.clone(), false)
    }
}

/// The pattern a per-file ignore matches with: a relative pattern as written, an absolute
/// one made relative to the configuration's directory, directly or once both are resolved
/// to canonical paths, and otherwise as written.
pub open spec fn per_file_pattern(
    pattern: Seq<char>,
    root: Seq<char>,
    canonical_pattern: Option<Seq<char>>,
    canonical_root: Option<Seq<char>>,
) -> Seq<char> {
    if !path_is_absolute(pattern) {
        pattern
    } else {
        match path_strip_prefix(pattern, root) {
            Some(relative) => relative,
            None => match (canonical_pattern, canonical_root) {
                (Some(p), Some(r)) => match path_strip_prefix(p, r) {
                    Some(relative) => relative,
                    None => pattern,
                },
                _ => pattern,
            },
        }
    }
}

/// The pattern a per-file ignore matches with; see [`per_file_pattern`].
pub fn get_per_file_pattern(
    pattern: &String,
    root: &String,
    canonical_pattern: &Option<String>,
    canonical_root: &Option<String>,
) -> (r: String)
    ensures
        r@ == per_file_pattern(
            pattern@,
            root@,
            match *canonical_pattern {
                Some(p) => Some(p@),
                None => None,
            },
            match *canonical_root {
                Some(p) => Some(p@),
                None => None,
            },
        ),
{
    if !is_absolute_path(pattern) {
        return pattern.clone();
    }
    match strip_path_prefix(pattern, root) {
        Some(relative) => relative,
        None => match (canonical_pattern, canonical_root) {
            (Some(p), Some(r)) => match strip_path_prefix(p, r) {
                Some(relative) => relative,
                None => pattern.clone(),
            },
            _ => pattern.clone(),
        },
    }
}

pub open spec fn option_view(o: Option<String>) -> Option<Seq<char>> {
    match o {
        Some(s) => Some(s@),
        None => None,
    }
}

/// The canonical form of the `i`-th entry's pattern, if it was resolved.
pub open spec fn canonical_at(canonical_patterns: Seq<Option<String>>, i: int) -> Option<Seq<char>> {
    if 0 <= i < canonical_patterns.len() {
        option_view(canonical_patterns[i])
    } else {
        None
    }
}

/// The ignores loaded so far, `done`, followed by those of the entries from the `k`-th on,
/// or the first error among those: an invalid rule selector, or a pattern that does not
/// compile.
pub open spec fn load_entries(
    root: Seq<char>,
    entries: Seq<PerFileEntry>,
    canonical_root: Option<Seq<char>>,
    canonical_patterns: Seq<Option<String>>,
    k: int,
    done: Seq<IgnoreView>,
) -> Result<Seq<IgnoreView>, Seq<char>>
    decreases entries.len() - k,
{
    if 0 <= k < entries.len() {
        let entry = entries[k];
        let rules = string_views(entry.rules@);
        if !all_valid(rules) {
            Err(unknown_selector_message(first_invalid(rules)->0))
        } else {
            let (stripped, negated) = split_negation(entry.pattern@);
            let pattern = per_file_pattern(
                stripped,
                root,
                canonical_at(canonical_patterns, k),
                canonical_root,
            );
            match glob_error(pattern) {
                Some(error) => Err("Invalid per-file ignore `"@ + stripped + "`: "@ + error),
                None => load_entries(
                    root,
                    entries,
                    canonical_root,
                    canonical_patterns,
                    k + 1,
                    done.push(IgnoreView { pattern, is_negated: negated, rules }),
                ),
            }
        }
    } else {
        Ok(done)
    }
}

/// The configuration a `[tool.gruff]` table loads to from its directory, or the first error:
/// an invalid selector in `select`, then in `ignore`, then in the per-file ignores in order,
/// or a per-file pattern that does not compile. `canonical_root` and `canonical_patterns`
/// are the directory and the entries' patterns resolved to canonical paths, where they
/// resolve.
pub open spec fn loaded_config(
    root: Seq<char>,
    raw: RawConfig,
    canonical_root: Option<Seq<char>>,
    canonical_patterns: Seq<Option<String>>,
) -> Result<ConfigView, Seq<char>> {
    let select = string_views(raw.lint.select@);
    let ignore = string_views(raw.lint.ignore@);
    if !all_valid(select) {
        Err(unknown_selector_message(first_invalid(select)->0))
    } else if !all_valid(ignore) {
        Err(unknown_selector_message(first_invalid(ignore)->0))
    } else {
        match load_entries(
            root,
            raw.lint.per_file_ignores@,
            canonical_root,
            canonical_patterns,
            0,
            seq![],
        ) {
            Ok(ignores) => Ok(
                ConfigView {
                    root,
                    select,
                    ignore,
                    output_format: raw.output_format,
                    per_file_ignores: ignores,
                },
            ),
            Err(e) => Err(e),
        }
    }
}

proof fn lemma_load_entries_valid(
    root: Seq<char>,
    entries: Seq<PerFileEntry>,
    canonical_root: Option<Seq<char>>,
    canonical_patterns: Seq<Option<String>>,
    k: int,
    done: Seq<IgnoreView>,
)
    requires
        forall|i: int|
            0 <= i < done.len() ==> all_valid((#[trigger] done[i]).rules) && glob_error(
                done[i].pattern,
            ) is None,
    ensures
        load_entries(root, entries, canonical_root, canonical_patterns, k, done) matches Ok(
            ignores,
        ) ==> forall|i: int|
            0 <= i < ignores.len() ==> all_valid((#[trigger] ignores[i]).rules) && glob_error(
                ignores[i].pattern,
            ) is None,
    decreases entries.len() - k,
{
    if 0 <= k < entries.len() {
        let entry = entries[k];
        let rules = string_views(entry.rules@);
        if all_valid(rules) {
            let (stripped, negated) = split_negation(entry.pattern@);
            let pattern = per_file_pattern(
                stripped,
                root,
                canonical_at(canonical_patterns, k),
                canonical_root,
            );
            if glob_error(pattern) is None {
                let next = done.push(IgnoreView { pattern, is_negated: negated, rules });
                assert forall|i: int| 0 <= i < next.len() implies all_valid(
                    (#[trigger] next[i]).rules,
                ) && glob_error(next[i].pattern) is None by {
                    if i < done.len() {
                        assert(next[i] == done[i]);
                    }
                }
                lemma_load_entries_valid(
                    root,
                    entries,
                    canonical_root,
                    canonical_patterns,
                    k + 1,
                    next,
                );
            }
        }
    }
}

pub(crate) fn error_of(message: &Vec<char>) -> (e: RunError)
    ensures
        e@ == message@,
{
    RunError(chars_to_string(message))
}

/// Loads a `[tool.gruff]` table; see [`loaded_config`].
pub fn load_raw_config(
    root: String,
    raw: RawConfig,
    canonical_root: Option<String>,
    canonical_patterns: Vec<Option<String>>,
) -> (r: Result<LoadedConfig, RunError>)
    ensures
        match (r, loaded_config(root@, raw, option_view(canonical_root), canonical_patterns@)) {
            (Ok(config), Ok(view)) => config@ == view,
            (Err(e), Err(message)) => e@ == message,
            _ => false,
        },
{
    let select = strings_to_chars(&raw.lint.select);
    match validate_rules(&select) {
        Err(message) => {
            return Err(error_of(&message));
        },
        Ok(()) => {},
    }
    let ignore = strings_to_chars(&raw.lint.ignore);
    match validate_rules(&ignore) {
        Err(message) => {
            return Err(error_of(&message));
        },
        Ok(()) => {},
    }
    let entries = &raw.lint.per_file_ignores;
    let ghost croot = option_view(canonical_root);
    let ghost goal = load_entries(root@, entries@, croot, canonical_patterns@, 0, seq![]);
    let mut ignores: Vec<PerFileIgnore> = Vec::new();
    assert(ignore_views(ignores@) =~= Seq::<IgnoreView>::empty());
    let mut k: usize = 0;
    while k < entries.len()
        invariant
            0 <= k <= entries@.len(),
            croot == option_view(canonical_root),
            entries@ == raw.lint.per_file_ignores@,
            all_valid(string_views(raw.lint.select@)),
            all_valid(string_views(raw.lint.ignore@)),
            goal == load_entries(root@, entries@, croot, canonical_patterns@, 0, seq![]),
            goal == load_entries(
                root@,
                entries@,
                croot,
                canonical_patterns@,
                k as int,
                ignore_views(ignores@),
            ),
        decreases entries@.len() - k,
    {
        let entry = &entries[k];
        let rules = strings_to_chars(&entry.rules);
        match validate_rules(&rules) {
            Err(message) => {
                return Err(error_of(&message));
            },
            Ok(()) => {},
        }
        let (stripped, negated) = split_negation_exec(&entry.pattern);
        let canonical_pattern: Option<String> = if k < canonical_patterns.len() {
            match &canonical_patterns[k] {
                Some(p) => Some(p.clone()),
                None => None,
            }
        } else {
            None
        };
        let pattern = get_per_file_pattern(&stripped, &root, &canonical_pattern, &canonical_root);
        match check_glob(&pattern) {
            Some(error) => {
                let mut message: Vec<char> = Vec::new();
                push_str(&mut message, "Invalid per-file ignore `");
                push_str(&mut message, stripped.as_str());
                push_str(&mut message, "`: ");
                push_str(&mut message, error.as_str());
                return Err(error_of(&message));
            },
            None => {},
        }
        let ghost before = ignore_views(ignores@);
        let ignore = PerFileIgnore { pattern, is_negated: negated, rules };
        let ghost added = ignore@;
        ignores.push(ignore);
        assert(ignore_views(ignores@) =~= before.push(added));
        k = k + 1;
    }
    proof {
        lemma_load_entries_valid(root@, entries@, croot, canonical_patterns@, 0, seq![]);
    }
    Ok(
        LoadedConfig {
            root,
            select,
            ignore,
            output_format: raw.output_format,
            per_file_ignores: ignores,
        },
    )
}

/// Whether a rule runs: selectors given on the command line decide alone; otherwise the
/// configuration decides, and a command-line ignore can still turn the rule off.
pub open spec fn rule_enabled(
    select: Option<Seq<Seq<char>>>,
    ignore: Option<Seq<Seq<char>>>,
    config: ConfigView,
    code: Seq<char>,
) -> bool {
    match select {
        Some(selected) => is_rule_enabled(
            selected,
            match ignore {
                Some(ignored) => ignored,
                None => seq![],
            },
            code,
        ),
        None => is_rule_enabled(config.select, config.ignore, code) && match ignore {
            Some(ignored) => specificity(ignored, code) is None,
            None => true,
        },
    }
}

pub open spec fn selectors_view(s: Option<Vec<Vec<char>>>) -> Option<Seq<Seq<char>>> {
    match s {
        Some(v) => Some(views(v@)),
        None => None,
    }
}

/// Whether a rule runs; see [`rule_enabled`].
pub fn resolve_rule_enabled(
    select: &Option<Vec<Vec<char>>>,
    ignore: &Option<Vec<Vec<char>>>,
    config: &LoadedConfig,
    code: &Vec<char>,
) -> (r: bool)
    ensures
        r == rule_enabled(selectors_view(*select), selectors_view(*ignore), config@, code@),
{
    match select {
        Some(selected) => {
            let empty: Vec<Vec<char>> = Vec::new();
            assert(views(empty@) =~= Seq::<Seq<char>>::empty());
            match ignore {
                Some(ignored) => is_rule_enabled_exec(selected, ignored, code),
                None => is_rule_enabled_exec(selected, &empty, code),
            }
        },
        None => {
            if !is_rule_enabled_exec(&config.select, &config.ignore, code) {
                return false;
            }
            match ignore {
                Some(ignored) => get_rule_specificity(ignored, code).is_none(),
                None => true,
            }
        },
    }
}

/// The ignore's pattern matches the file's absolute path, its path relative to the
/// configuration's directory, or its file name.
pub open spec fn ignore_matches(ignore: IgnoreView, absolute: Seq<char>, relative: Seq<char>) -> bool {
    glob_matches(ignore.pattern, absolute) || glob_matches(ignore.pattern, relative) || match path_file_name(
        relative,
    ) {
        Some(name) => glob_matches(ignore.pattern, name),
        None => false,
    }
}

/// Some per-file ignore names the code and matches the file, or, negated, does not match it.
pub open spec fn ignored_by(
    ignores: Seq<IgnoreView>,
    absolute: Seq<char>,
    relative: Seq<char>,
    code: Seq<char>,
) -> bool {
    exists|i: int|
        0 <= i < ignores.len() && specificity((#[trigger] ignores[i]).rules, code) is Some
            && ignore_matches(ignores[i], absolute, relative) != ignores[i].is_negated
}

pub open spec fn result_view(r: Result<String, String>) -> Result<Seq<char>, Seq<char>> {
    match r {
        Ok(s) => Ok(s@),
        Err(e) => Err(e@),
    }
}

/// Whether a per-file ignore drops the code for the file. `absolute_path` and
/// `absolute_root` are the file and the configuration's directory resolved to canonical
/// paths, or the errors that resolving them met; they are needed only when the
/// configuration has per-file ignores.
pub open spec fn ignored_for_file(
    path: Seq<char>,
    absolute_path: Result<Seq<char>, Seq<char>>,
    absolute_root: Result<Seq<char>, Seq<char>>,
    config: ConfigView,
    code: Seq<char>,
) -> Result<bool, Seq<char>> {
    if config.per_file_ignores.len() == 0 {
        Ok(false)
    } else {
        match absolute_path {
            Err(e) => Err("Failed to resolve "@ + path + ": "@ + e),
            Ok(absolute) => match absolute_root {
                Err(e) => Err("Failed to resolve configuration directory "@ + config.root + ": "@ + e),
                Ok(root) => {
                    let relative = match path_strip_prefix(absolute, root) {
                        Some(r) => r,
                        None => absolute,
                    };
                    Ok(ignored_by(config.per_file_ignores, absolute, relative, code))
                },
            },
        }
    }
}

/// Whether a per-file ignore drops the code for the file; see [`ignored_for_file`].
pub fn is_ignored_for_file(
    path: &String,
    absolute_path: &Result<String, String>,
    absolute_root: &Result<String, String>,
    config: &LoadedConfig,
    code: &Vec<char>,
) -> (r: Result<bool, RunError>)
    ensures
        match (r, ignored_for_file(path@, result_view(*absolute_path), result_view(*absolute_root), config@, code@)) {
            (Ok(x), Ok(y)) => x == y,
            (Err(e), Err(message)) => e@ == message,
            _ => false,
        },
{
    proof {
        use_type_invariant(config);
    }
    if config.per_file_ignores.len() == 0 {
        return Ok(false);
    }
    let absolute = match absolute_path {
        Err(e) => {
            let mut message: Vec<char> = Vec::new();
            push_str(&mut message, "Failed to resolve ");
            push_str(&mut message, path.as_str());
            push_str(&mut message, ": ");
            push_str(&mut message, e.as_str());
            return Err(error_of(&message));
        },
        Ok(a) => a,
    };
    let root = match absolute_root {
        Err(e) => {
            let mut message: Vec<char> = Vec::new();
            push_str(&mut message, "Failed to resolve configuration directory ");
            push_str(&mut message, config.root.as_str());
            push_str(&mut message, ": ");
            push_str(&mut message, e.as_str());
            return Err(error_of(&message));
        },
        Ok(r) => r,
    };
    let relative = match strip_path_prefix(absolute, root) {
        Some(r) => r,
        None => absolute.clone(),
    };
    assert(relative@ == match path_strip_prefix(absolute@, root@) {
        Some(r) => r,
        None => absolute@,
    });
    let name = file_name_of(&relative);
    let ghost all = ignore_views(config.per_file_ignores@);
    let mut i: usize = 0;
    while i < config.per_file_ignores.len()
        invariant
            0 <= i <= config.per_file_ignores@.len(),
            all == ignore_views(config.per_file_ignores@),
            config_valid(config@),
            all == config@.per_file_ignores,
            all.len() > 0,
            result_view(*absolute_path) == Ok::<Seq<char>, Seq<char>>(absolute@),
            result_view(*absolute_root) == Ok::<Seq<char>, Seq<char>>(root@),
            relative@ == match path_strip_prefix(absolute@, root@) {
                Some(r) => r,
                None => absolute@,
            },
            match name {
                Some(n) => path_file_name(relative@) == Some(n@),
                None => path_file_name(relative@) is None,
            },
            forall|m: int|
                0 <= m < i ==> !(specificity((#[trigger] all[m]).rules, code@) is Some
                    && ignore_matches(all[m], absolute@, relative@) != all[m].is_negated),
        decreases config.per_file_ignores@.len() - i,
    {
        let ignore = &config.per_file_ignores[i];
        assert(all[i as int] == ignore@);
        if get_rule_specificity(&ignore.rules, code).is_some() {
            assert(glob_error(ignore.pattern@) is None);
            let mut is_match = glob_is_match(&ignore.pattern, absolute) || glob_is_match(
                &ignore.pattern,
                &relative,
            );
            if !is_match {
                is_match = match &name {
                    Some(n) => glob_is_match(&ignore.pattern, n),
                    None => false,
                };
            }
            assert(ignore_matches(all[i as int], absolute@, relative@) == is_match);
            if is_match != ignore.is_negated {
                assert(ignored_by(all, absolute@, relative@, code@));
                return Ok(true);
            }
        }
        i = i + 1;
    }
    Ok(false)
}

/// Where a file's (or the run's base) configuration comes from.
#[derive(Clone, Copy, Debug, PartialEq, Eq, Structural)]
pub enum ConfigSource {
    /// No configuration: the run ignores configuration files.
    Empty,
    /// The configuration named on the command line.
    Explicit,
    /// The nearest `pyproject.toml` with a `[tool.gruff]` table at or above the directory,
    /// or none if there is no such file.
    Nearest,
}

/// Where the configuration comes from: `--isolated` ignores every file, a configuration
/// named on the command line applies everywhere, otherwise the nearest one is searched.
pub open spec fn config_source_of(isolated: bool, has_explicit: bool) -> ConfigSource {
    if isolated {
        ConfigSource::Empty
    } else if has_explicit {
        ConfigSource::Explicit
    } else {
        ConfigSource::Nearest
    }
}

/// Where the configuration comes from; see [`config_source_of`].
pub fn config_source(isolated: bool, has_explicit: bool) -> (r: ConfigSource)
    ensures
        r == config_source_of(isolated, has_explicit),
{
    if isolated {
        ConfigSource::Empty
    } else if has_explicit {
        ConfigSource::Explicit
    } else {
        ConfigSource::Nearest
    }
}

/// Selectors given on the command line decide alone whether a rule runs: the
/// configuration's own selection does not matter then.
pub proof fn law_command_line_selection_overrides_configuration(
    select: Seq<Seq<char>>,
    ignore: Option<Seq<Seq<char>>>,
    first: ConfigView,
    second: ConfigView,
    code: Seq<char>,
)
    ensures
        rule_enabled(Some(select), ignore, first, code) == rule_enabled(
            Some(select),
            ignore,
            second,
            code,
        ),
{
}

/// Without command-line selectors, a command-line ignore that names a code turns its rule
/// off whatever the configuration selects.
pub proof fn law_command_line_ignore_disables(
    ignore: Seq<Seq<char>>,
    config: ConfigView,
    code: Seq<char>,
)
    requires
        specificity(ignore, code) is Some,
    ensures
        !rule_enabled(None, Some(ignore), config, code),
{
}

/// A per-file ignore that does not name the code never drops it, whatever the file.
pub proof fn law_per_file_ignore_only_named_codes(
    ignores: Seq<IgnoreView>,
    absolute: Seq<char>,
    relative: Seq<char>,
    code: Seq<char>,
)
    requires
        forall|i: int| 0 <= i < ignores.len() ==> specificity(#[trigger] ignores[i].rules, code) is None,
    ensures
        !ignored_by(ignores, absolute, relative, code),
{
}

/// Every rule is opt-in: without selectors on the command line or in the configuration, no
/// rule runs.
pub proof fn law_rules_are_opt_in(
    ignore: Option<Seq<Seq<char>>>,
    config: ConfigView,
    code: Seq<char>,
)
    requires
        config.select.len() == 0,
    ensures
        !rule_enabled(None, ignore, config, code),
{
    assert(specificity(config.select, code) is None);
}

} // verus!
