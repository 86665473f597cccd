//! Which files a check covers: the decisions of file discovery. Each given path must be a
//! file or a directory; a directory contributes its Python files outside the excluded
//! directories; every file is checked once, ordered by its canonical path, under the name it
//! was given directly if it was.
use vstd::prelude::*;
use crate::config::error_of;
use crate::paths::file_name_of;
use crate::paths::order_paths;
use crate::paths::path_file_name;
use crate::paths::path_order;
use crate::paths::PathOrder;
use crate::text::chars_eq;
use crate::text::push_str;
use crate::text::slice_chars;
use crate::text::to_chars;
use crate::RunError;

verus! {

/// The directory names that discovery never enters.
pub open spec fn default_excludes() -> Seq<Seq<char>> {
    seq![
        ".bzr"@,
        ".direnv"@,
        ".eggs"@,
        ".git"@,
        ".git-rewrite"@,
        ".hg"@,
        ".ipynb_checkpoints"@,
        ".mypy_cache"@,
        ".nox"@,
        ".pants.d"@,
        ".pyenv"@,
        ".pytest_cache"@,
        ".pytype"@,
        ".ruff_cache"@,
        ".svn"@,
        ".tox"@,
        ".venv"@,
        ".vscode"@,
        "__pypackages__"@,
        "_build"@,
        "buck-out"@,
        "dist"@,
        "node_modules"@,
        "site-packages"@,
        "venv"@,
    ]
}

const EXCLUDE_COUNT: usize = 25;

fn default_exclude(index: usize) -> (name: &'static str)
    requires
        index < EXCLUDE_COUNT,
    ensures
        name@ == default_excludes()[index as int],
{
    match index {
        0 => ".bzr",
        1 => ".direnv",
        2 => ".eggs",
        3 => ".git",
        4 => ".git-rewrite",
        5 => ".hg",
        6 => ".ipynb_checkpoints",
        7 => ".mypy_cache",
        8 => ".nox",
        9 => ".pants.d",
        10 => ".pyenv",
        11 => ".pytest_cache",
        12 => ".pytype",
        13 => ".ruff_cache",
        14 => ".svn",
        15 => ".tox",
        16 => ".venv",
        17 => ".vscode",
        18 => "__pypackages__",
        19 => "_build",
        20 => "buck-out",
        21 => "dist",
        22 => "node_modules",
        23 => "site-packages",
        _ => "venv",
    }
}

/// Whether a directory entry with this name is skipped during the walk.
pub fn is_default_excluded(name: &String) -> (r: bool)
    ensures
        r == default_excludes().contains(name@),
{
    let chars = to_chars(name.as_str());
    let mut i: usize = 0;
    while i < EXCLUDE_COUNT
        invariant
            0 <= i <= EXCLUDE_COUNT,
            chars@ == name@,
            forall|j: int| 0 <= j < i ==> default_excludes()[j] != name@,
        decreases EXCLUDE_COUNT - i,
    {
        if chars_eq(&to_chars(default_exclude(i)), &chars) {
            assert(default_excludes()[i as int] == name@);
            return true;
        }
        i = i + 1;
    }
    proof {
        if default_excludes().contains(name@) {
            let j = choose|j: int| 0 <= j < default_excludes().len() && default_excludes()[j] == name@;
            assert(default_excludes()[j] != name@);
        }
    }
    false
}

/// The index of the last `.` among the first `n` characters, if any.
pub open spec fn last_dot(name: Seq<char>, n: int) -> Option<int>
    decreases n,
{
    if n <= 0 {
        None
    } else if name[n - 1] == '.' {
        Some(n - 1)
    } else {
        last_dot(name, n - 1)
    }
}

/// The extension of a file name as `Path::extension` documents it: the part after the final
/// `.`, and none when there is no `.` or the only one opens the name.
pub open spec fn name_extension(name: Seq<char>) -> Option<Seq<char>> {
    match last_dot(name, name.len() as int) {
        Some(i) => if i > 0 {
            Some(name.skip(i + 1))
        } else {
            None
        },
        None => None,
    }
}

/// The extension of a path: that of its file name, and none without one.
pub open spec fn path_extension(path: Seq<char>) -> Option<Seq<char>> {
    match path_file_name(path) {
        Some(name) => name_extension(name),
        None => None,
    }
}

fn extension_of(path: &String) -> (r: Option<Vec<char>>)
    ensures
        match r {
            Some(extension) => path_extension(path@) == Some(extension@),
            None => path_extension(path@) is None,
        },
{
    let name = match file_name_of(path) {
        Some(name) => to_chars(name.as_str()),
        None => {
            return None;
        },
    };
    let mut n = name.len();
    while n > 0 && name[n - 1] != '.'
        invariant
            0 <= n <= name@.len(),
            last_dot(name@, name@.len() as int) == last_dot(name@, n as int),
        decreases n,
    {
        n = n - 1;
    }
    if n <= 1 {
        return None;
    }
    let extension = slice_chars(&name, n, name.len());
    assert(extension@ =~= name@.skip(n as int));
    Some(extension)
}

/// The extensions of Python sources, stubs and windowed scripts.
pub open spec fn is_python_extension(extension: Seq<char>) -> bool {
    extension == "py"@ || extension == "pyi"@ || extension == "pyw"@
}

/// Whether discovery under a directory picks up the file: a Python extension.
pub fn is_python_file(path: &String) -> (r: bool)
    ensures
        r == (path_extension(path@) matches Some(extension) && is_python_extension(extension)),
{
    match extension_of(path) {
        Some(chars) => {
            chars_eq(&chars, &to_chars("py")) || chars_eq(&chars, &to_chars("pyi")) || chars_eq(
                &chars,
                &to_chars("pyw"),
            )
        },
        None => false,
    }
}

/// What a given path is: a file to check or a directory to walk.
#[derive(Clone, Copy, Debug, PartialEq, Eq, Structural)]
pub enum InputPath {
    File,
    Directory,
}

/// What a given path is, from whether it is a file, exists, and is a directory; a path
/// that is neither fails the run.
pub open spec fn input_path_kind(path: Seq<char>, is_file: bool, exists: bool, is_dir: bool) -> Result<
    InputPath,
    Seq<char>,
> {
    if is_file {
        Ok(InputPath::File)
    } else if !exists {
        Err("Path does not exist: "@ + path)
    } else if !is_dir {
        Err("Path is not a file or directory: "@ + path)
    } else {
        Ok(InputPath::Directory)
    }
}

/// What a given path is; see [`input_path_kind`].
pub fn classify_input_path(path: &String, is_file: bool, exists: bool, is_dir: bool) -> (r: Result<
    InputPath,
    RunError,
>)
    ensures
        match (r, input_path_kind(path@, is_file, exists, is_dir)) {
            (Ok(kind), Ok(expected)) => kind == expected,
            (Err(e), Err(message)) => e@ == message,
            _ => false,
        },
{
    if is_file {
        Ok(InputPath::File)
    } else if !exists {
        let mut message: Vec<char> = Vec::new();
        push_str(&mut message, "Path does not exist: ");
        push_str(&mut message, path.as_str());
        Err(error_of(&message))
    } else if !is_dir {
        let mut message: Vec<char> = Vec::new();
        push_str(&mut message, "Path is not a file or directory: ");
        push_str(&mut message, path.as_str());
        Err(error_of(&message))
    } else {
        Ok(InputPath::Directory)
    }
}

/// A file found so far: its canonical path, the path it is checked under, and whether that
/// path was given directly.
pub struct FoundFile {
    pub canonical: String,
    pub path: String,
    pub explicit: bool,
}

pub struct FoundView {
    pub canonical: Seq<char>,
    pub path: Seq<char>,
    pub explicit: bool,
}

impl View for FoundFile {
    type V = FoundView;

    open spec fn view(&self) -> FoundView {
        FoundView { canonical: self.canonical@, path: self.path@, explicit: self.explicit }
    }
}

pub open spec fn found_views(files: Seq<FoundFile>) -> Seq<FoundView> {
    files.map_values(|f: FoundFile| f@)
}

/// Where a canonical path goes among found files ordered by canonical path, from the `i`-th
/// on: at the first file with the same canonical path (`true`), or before the first whose
/// canonical path orders after it (`false`).
pub open spec fn slot_from(files: Seq<FoundView>, canonical: Seq<char>, i: int) -> (int, bool)
    decreases files.len() - i,
{
    if i < 0 || i >= files.len() {
        (files.len() as int, false)
    } else {
        match path_order(canonical, files[i].canonical) {
            PathOrder::Equal => (i, true),
            PathOrder::Less => (i, false),
            PathOrder::Greater => slot_from(files, canonical, i + 1),
        }
    }
}

/// The found files after recording one more: a new canonical path joins in order; a known
/// one keeps its first path, unless the new path was given directly and the kept one was
/// not.
pub open spec fn record(files: Seq<FoundView>, found: FoundView) -> Seq<FoundView> {
    let (i, known) = slot_from(files, found.canonical, 0);
    if known {
        if found.explicit && !files[i].explicit {
            files.update(i, found)
        } else {
            files
        }
    } else {
        files.insert(i, found)
    }
}

proof fn lemma_slot_bounds(files: Seq<FoundView>, canonical: Seq<char>, i: int)
    requires
        0 <= i <= files.len(),
    ensures
        i <= slot_from(files, canonical, i).0 <= files.len(),
        slot_from(files, canonical, i).1 ==> slot_from(files, canonical, i).0 < files.len(),
    decreases files.len() - i,
{
    if i < files.len() && path_order(canonical, files[i].canonical) == PathOrder::Greater {
        lemma_slot_bounds(files, canonical, i + 1);
    }
}

/// Records a found file; see [`record`]. The found files are kept in a `Vec` ordered with
/// `Path`'s order rather than in a `BTreeMap` keyed by `PathBuf`: Verus specifies neither
/// `PathBuf` nor an order on it, so a map keyed by it would prove nothing of which files it
/// holds or how it orders them, while this list keeps the same order and the same one entry
/// per canonical path, both proved.
#[verifier::loop_isolation(false)]
pub fn record_file(files: &mut Vec<FoundFile>, found: FoundFile)
    ensures
        found_views(final(files)@) == record(found_views(old(files)@), found@),
{
    let ghost views = found_views(files@);
    let mut i: usize = 0;
    proof {
        lemma_slot_bounds(views, found@.canonical, 0);
    }
    while i < files.len()
        invariant
            0 <= i <= files@.len(),
            views == found_views(files@),
            slot_from(views, found@.canonical, i as int) == slot_from(views, found@.canonical, 0),
        decreases files@.len() - i,
    {
        assert(views[i as int] == files@[i as int]@);
        match order_paths(&found.canonical, &files[i].canonical) {
            PathOrder::Equal => {
                if found.explicit && !files[i].explicit {
                    files.set(i, found);
                    assert(found_views(files@) =~= views.update(i as int, found@));
                }
                return;
            },
            PathOrder::Less => {
                let ghost added = found@;
                files.insert(i, found);
                assert(found_views(files@) =~= views.insert(i as int, added));
                return;
            },
            PathOrder::Greater => {},
        }
        i = i + 1;
    }
    let ghost added = found@;
    files.push(found);
    assert(found_views(files@) =~= views.insert(views.len() as int, added));
}

/// The paths to check, in order of their canonical paths.
pub fn found_paths(files: Vec<FoundFile>) -> (paths: Vec<String>)
    ensures
        paths@.len() == files@.len(),
        forall|i: int| 0 <= i < files@.len() ==> #[trigger] paths@[i]@ == files@[i].path@,
{
    let mut paths: Vec<String> = Vec::new();
    let mut i: usize = 0;
    while i < files.len()
        invariant
            0 <= i <= files@.len(),
            paths@.len() == i,
            forall|j: int| 0 <= j < i ==> #[trigger] paths@[j]@ == files@[j].path@,
        decreases files@.len() - i,
    {
        paths.push(files[i].path.clone());
        i = i + 1;
    }
    paths
}

/// Recording a file whose canonical path is already found adds no file, and a path given
/// directly then replaces one found in a directory, while the first path given directly
/// stays; recording a new canonical path adds exactly that file.
pub proof fn law_each_file_recorded_once(files: Seq<FoundView>, found: FoundView)
    ensures
        slot_from(files, found.canonical, 0).1 ==> record(files, found).len() == files.len(),
        slot_from(files, found.canonical, 0).1 ==> record(files, found)[slot_from(
            files,
            found.canonical,
            0,
        ).0].path == if found.explicit && !files[slot_from(files, found.canonical, 0).0].explicit {
            found.path
        } else {
            files[slot_from(files, found.canonical, 0).0].path
        },
        !slot_from(files, found.canonical, 0).1 ==> record(files, found).len() == files.len() + 1
            && record(files, found).contains(found),
{
    lemma_slot_bounds(files, found.canonical, 0);
    let (i, known) = slot_from(files, found.canonical, 0);
    if !known {
        assert(record(files, found)[i] == found);
    }
}

} // verus!
