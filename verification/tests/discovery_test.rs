use gruff::discovery::classify_input_path;
use gruff::discovery::found_paths;
use gruff::discovery::is_default_excluded;
use gruff::discovery::is_python_file;
use gruff::discovery::record_file;
use gruff::discovery::FoundFile;
use gruff::discovery::InputPath;

fn found(canonical: &str, path: &str, explicit: bool) -> FoundFile {
    FoundFile { canonical: canonical.to_string(), path: path.to_string(), explicit }
}

#[test]
fn classifies_given_paths() {
    let path = "src".to_string();
    assert_eq!(classify_input_path(&path, true, true, false).ok(), Some(InputPath::File));
    assert_eq!(classify_input_path(&path, false, true, true).ok(), Some(InputPath::Directory));
    let missing = classify_input_path(&"nowhere".to_string(), false, false, false).err().unwrap();
    assert_eq!(missing.message(), "Path does not exist: nowhere");
    let odd = classify_input_path(&"fifo".to_string(), false, true, false).err().unwrap();
    assert_eq!(odd.message(), "Path is not a file or directory: fifo");
}

#[test]
fn picks_python_sources_stubs_and_windowed_scripts() {
    assert!(is_python_file(&"pkg/module.py".to_string()));
    assert!(is_python_file(&"pkg/module.pyi".to_string()));
    assert!(is_python_file(&"script.pyw".to_string()));
    assert!(!is_python_file(&"notes.txt".to_string()));
    assert!(!is_python_file(&"Makefile".to_string()));
    assert!(!is_python_file(&"module.PY".to_string()));
    assert!(!is_python_file(&"pkg/.py".to_string()));
    assert!(is_python_file(&"pkg/.hidden.py".to_string()));
    assert!(is_python_file(&"archive.tar.py".to_string()));
    assert!(!is_python_file(&"pkg.py/README".to_string()));
}

#[test]
fn skips_the_default_excluded_directories() {
    for name in [".git", ".venv", "node_modules", "__pypackages__", "venv", "site-packages"] {
        assert!(is_default_excluded(&name.to_string()), "{name} should be excluded");
    }
    for name in ["src", "tests", ".github", "build"] {
        assert!(!is_default_excluded(&name.to_string()), "{name} should be walked");
    }
}

#[test]
fn records_each_file_once_in_canonical_order() {
    let mut files = Vec::new();
    record_file(&mut files, found("/work/b.py", "b.py", false));
    record_file(&mut files, found("/work/a.py", "a.py", false));
    record_file(&mut files, found("/work/a.py", "./a.py", false));
    record_file(&mut files, found("/work/c/d.py", "c/d.py", false));
    assert_eq!(found_paths(files), ["a.py", "b.py", "c/d.py"]);
}

#[test]
fn a_file_given_directly_keeps_its_name() {
    let mut files = Vec::new();
    record_file(&mut files, found("/work/.hidden.py", "dir/.hidden.py", false));
    record_file(&mut files, found("/work/.hidden.py", "given.py", true));
    record_file(&mut files, found("/work/.hidden.py", "again.py", true));
    record_file(&mut files, found("/work/.hidden.py", "walked.py", false));
    assert_eq!(found_paths(files), ["given.py"]);
}
