use complex_code_spotter::files::{file_selected, is_hidden, mk_globset, walk_enters};

fn strings(v: &[&str]) -> Vec<String> {
    v.iter().map(|s| s.to_string()).collect()
}

#[test]
fn globsets_from_patterns() {
    let none = mk_globset(&[]);
    // Empty and invalid patterns are skipped; the valid one selects.
    let set = mk_globset(&strings(&["*.rs", "", "[invalid"]));
    assert!(file_selected(&set, &none, "src/lib.rs", true));
    assert!(!file_selected(&set, &none, "src/lib.c", true));
    // A set of skipped patterns only is empty: it selects everything.
    let skipped = mk_globset(&strings(&["", "[invalid"]));
    assert!(file_selected(&skipped, &none, "src/lib.c", true));
    assert!(file_selected(&none, &skipped, "src/lib.c", true));
    let py = mk_globset(&strings(&["**/*.py", "a[b"]));
    assert!(file_selected(&py, &none, "x/y.py", true));
    assert!(!file_selected(&py, &none, "x/y.rs", true));
    assert!(!file_selected(&none, &py, "x/y.py", true));
}

#[test]
fn selecting_files() {
    let none = mk_globset(&[]);
    let rs = mk_globset(&strings(&["*.rs"]));
    let tests = mk_globset(&strings(&["**/tests/**"]));
    assert!(file_selected(&none, &none, "a/b.c", true));
    assert!(!file_selected(&none, &none, "a/b.c", false));
    assert!(file_selected(&rs, &none, "a/b.rs", true));
    assert!(!file_selected(&rs, &none, "a/b.c", true));
    assert!(!file_selected(&rs, &tests, "a/tests/b.rs", true));
    assert!(file_selected(&rs, &tests, "a/src/b.rs", true));
}

#[test]
fn hidden_entries() {
    assert!(is_hidden(Some(".git")));
    assert!(!is_hidden(Some("src")));
    assert!(!is_hidden(Some("")));
    assert!(!is_hidden(None));
    // The walked directory itself and its parent are not hidden entries.
    assert!(!is_hidden(Some(".")));
    assert!(!is_hidden(Some("..")));
    assert!(is_hidden(Some("...")));
    assert!(is_hidden(Some(".hidden.rs")));
}

#[test]
fn walk_enters_its_root() {
    assert!(walk_enters(0, Some("..")));
    assert!(walk_enters(0, Some(".hidden")));
    assert!(!walk_enters(1, Some(".git")));
    assert!(walk_enters(2, Some("src")));
    assert!(walk_enters(1, None));
}
