//! Path text and per-file glob patterns: the few operations the library takes from std's
//! `Path` and from the `globset` crate, each behind a function whose contract names its result.
use vstd::prelude::*;

verus! {

/// What `Path::file_name` returns for the path, as text; `None` also when the name is not
/// valid UTF-8.
pub uninterp spec fn path_file_name(path: Seq<char>) -> Option<Seq<char>>;

/// Calls `Path::file_name` and converts the name to text. The contract only names the
/// result.
#[verifier::external_body]
pub(crate) fn file_name_of(path: &String) -> (r: Option<String>)
    ensures
        match r {
            Some(name) => path_file_name(path@) == Some(name@),
            None => path_file_name(path@) is None,
        },
{
    std::path::Path::new(path.as_str()).file_name().and_then(|name| name.to_str()).map(
        |name| name.to_owned(),
    )
}

/// What `Path::is_absolute` returns for the path.
pub uninterp spec fn path_is_absolute(path: Seq<char>) -> bool;

/// Calls `Path::is_absolute`. The contract only names the result.
#[verifier::external_body]
pub(crate) fn is_absolute_path(path: &String) -> (r: bool)
    ensures
        r == path_is_absolute(path@),
{
    std::path::Path::new(path.as_str()).is_absolute()
}

/// What `Path::strip_prefix` returns for the path and base, as text: the path relative to the
/// base, or `None` when the base is not a prefix of it.
pub uninterp spec fn path_strip_prefix(path: Seq<char>, base: Seq<char>) -> Option<Seq<char>>;

/// Calls `Path::strip_prefix` and renders the relative path as text. The contract only names
/// the result.
#[verifier::external_body]
pub(crate) fn strip_path_prefix(path: &String, base: &String) -> (r: Option<String>)
    ensures
        match r {
            Some(relative) => path_strip_prefix(path@, base@) == Some(relative@),
            None => path_strip_prefix(path@, base@) is None,
        },
{
    match std::path::Path::new(path.as_str()).strip_prefix(base.as_str()) {
        Ok(relative) => Some(relative.to_string_lossy().into_owned()),
        Err(_) => None,
    }
}

/// How two paths order, component by component.
#[derive(Clone, Copy, Debug, PartialEq, Eq, Structural)]
pub enum PathOrder {
    Less,
    Equal,
    Greater,
}

/// What `Path`'s total order says of two paths.
pub uninterp spec fn path_order(a: Seq<char>, b: Seq<char>) -> PathOrder;

/// Compares two paths with `Path`'s `Ord`. The contract names the result and states the
/// duality that `Ord` documents: `a` is less than `b` exactly when `b` is greater than `a`,
/// and equal exactly when `b` is equal to `a`.
#[verifier::external_body]
pub(crate) fn order_paths(a: &String, b: &String) -> (r: PathOrder)
    ensures
        r == path_order(a@, b@),
        (r == PathOrder::Less) == (path_order(b@, a@) == PathOrder::Greater),
        (r == PathOrder::Equal) == (path_order(b@, a@) == PathOrder::Equal),
{
    match std::path::Path::new(a.as_str()).cmp(std::path::Path::new(b.as_str())) {
        std::cmp::Ordering::Less => PathOrder::Less,
        std::cmp::Ordering::Equal => PathOrder::Equal,
        std::cmp::Ordering::Greater => PathOrder::Greater,
    }
}

/// What compiling the pattern reports: `None` when `globset::Glob::new` accepts it and a
/// one-pattern `GlobSetBuilder::build` compiles its regular expression, otherwise the text of
/// the first of those errors.
pub uninterp spec fn glob_error(pattern: Seq<char>) -> Option<Seq<char>>;

/// Calls `globset::Glob::new`, then `GlobSetBuilder::add` and `build` on the result, and
/// renders the error as text. The contract only names the result.
#[verifier::external_body]
pub(crate) fn check_glob(pattern: &String) -> (r: Option<String>)
    ensures
        match r {
            Some(error) => glob_error(pattern@) == Some(error@),
            None => glob_error(pattern@) is None,
        },
{
    match globset::Glob::new(pattern.as_str()) {
        Ok(glob) => match globset::GlobSetBuilder::new().add(glob).build() {
            Ok(_) => None,
            Err(error) => Some(error.to_string()),
        },
        Err(error) => Some(error.to_string()),
    }
}

/// Whether the one-pattern glob set compiled from the pattern matches the path.
pub uninterp spec fn glob_matches(pattern: Seq<char>, path: Seq<char>) -> bool;

/// Compiles the pattern as [`check_glob`] does and calls `GlobSet::is_match` on the path.
/// The contract only names the result; the pattern must compile, so no call here panics.
#[verifier::external_body]
pub(crate) fn glob_is_match(pattern: &String, path: &String) -> (r: bool)
    requires
        glob_error(pattern@) is None,
    ensures
        r == glob_matches(pattern@, path@),
{
    match globset::Glob::new(pattern.as_str()) {
        Ok(glob) => match globset::GlobSetBuilder::new().add(glob).build() {
            Ok(set) => set.is_match(path.as_str()),
            Err(_) => false,
        },
        Err(_) => false,
    }
}

/// The text of the characters, through std's `FromIterator<&char>` for `String`.
///
/// vstd specifies no way to build a `String` from characters (no `String::push` and no
/// `collect` into a `String`), so this collection is the one step the library cannot prove.
#[verifier::external_body]
pub(crate) fn chars_to_string(chars: &Vec<char>) -> (s: String)
    ensures
        s@ == chars@,
{
    chars.iter().collect()
}

} // verus!
