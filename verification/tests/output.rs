use complex_code_spotter::output::{
    create_filenames, filename_from_components, filename_of, index_entries, sort_strings, string_le, Writer,
};
use complex_code_spotter::{ComplexitySnippets, Complexity, Language, OutputFormat, Snippets};

fn snippets_of(path: &str, metrics: &[Complexity]) -> Snippets {
    Snippets {
        source_path: path.to_string(),
        language: Language::Rust,
        snippets: metrics
            .iter()
            .map(|c| ComplexitySnippets { complexity: *c, snippets: Vec::new() })
            .collect(),
    }
}

#[test]
fn output_format_names() {
    for name in OutputFormat::all() {
        let f = OutputFormat::from_name(name).unwrap();
        assert_eq!(f.name(), *name);
    }
    assert_eq!(OutputFormat::all(), &["json", "markdown", "html", "all"]);
    assert_eq!(OutputFormat::from_name("yaml"), None);
    assert_eq!(OutputFormat::default(), OutputFormat::Json);
}

#[test]
fn writers_of_formats() {
    assert_eq!(OutputFormat::All.writers(), vec![Writer::Markdown, Writer::Html, Writer::Json]);
    assert_eq!(OutputFormat::Json.writers(), vec![Writer::Json]);
    assert_eq!(OutputFormat::Markdown.writers(), vec![Writer::Markdown]);
    assert_eq!(OutputFormat::Html.writers(), vec![Writer::Html]);
    assert_eq!(Writer::Markdown.extension(), "md");
    assert_eq!(Writer::Markdown.dir(), "markdown");
    assert_eq!(Writer::Html.extension(), "html");
    assert_eq!(Writer::Json.dir(), "json");
}

#[test]
fn output_file_names() {
    assert_eq!(filename_of("src/main.rs"), "src_main.rs");
    assert_eq!(filename_of("./data/../seahorse/src/lib.rs"), "data_seahorse_src_lib.rs");
    assert_eq!(filename_of("/tmp/x.c"), "tmp_x.c");
    assert_eq!(filename_of(""), "");
    let all = [snippets_of("a/b.rs", &[]), snippets_of("c.py", &[])];
    assert_eq!(create_filenames(&all), vec!["a_b.rs", "c.py"]);
    // Names of a concatenation are the concatenation of the names.
    let first = [snippets_of("/x/y.c", &[])];
    let both = [snippets_of("/x/y.c", &[]), snippets_of("a/b.rs", &[]), snippets_of("c.py", &[])];
    let mut joined = create_filenames(&first);
    joined.extend(create_filenames(&all));
    assert_eq!(create_filenames(&both), joined);
    for name in create_filenames(&both) {
        assert!(!name.contains('/'));
    }
}

#[test]
fn path_wrappers() {
    // Components: the root, `.` and `..` are dropped from file names.
    assert_eq!(filename_of("/a/./b"), "a_b");
    assert_eq!(filename_of("../x"), "x");
    // The extension is replaced, or added, and only the file name is kept.
    assert_eq!(index_entries(&["src_main.rs".to_string()], "html"), vec!["src_main.html"]);
    assert_eq!(index_entries(&["lib".to_string()], "md"), vec!["lib.md"]);
    assert_eq!(index_entries(&["d/e".to_string()], "md"), vec!["e.md"]);
    assert_eq!(index_entries(&["/".to_string()], "md"), Vec::<String>::new());
}

#[test]
fn index_is_sorted() {
    let names = vec!["src_z.rs".to_string(), "src_a.rs".to_string(), "B.c".to_string()];
    assert_eq!(index_entries(&names, "html"), vec!["B.html", "src_a.html", "src_z.html"]);
    let sorted = sort_strings(vec!["b".into(), "a".into(), "ab".into(), "a".into()]);
    assert_eq!(sorted, vec!["a", "a", "ab", "b"]);
    assert!(string_le(&"a".to_string(), &"ab".to_string()));
    assert!(!string_le(&"b".to_string(), &"ab".to_string()));
    assert!(string_le(&"Z".to_string(), &"a".to_string()));
}

#[test]
fn html_order_puts_cyclomatic_first() {
    let s = snippets_of(
        "x.rs",
        &[Complexity::Cognitive, Complexity::Cyclomatic, Complexity::Cognitive],
    );
    assert_eq!(s.html_order(), vec![1, 0, 2]);
    assert_eq!(snippets_of("x.rs", &[]).html_order(), Vec::<usize>::new());
}

#[test]
fn names_from_components() {
    let cs = |v: &[&str]| v.iter().map(|c| c.to_string()).collect::<Vec<String>>();
    assert_eq!(filename_from_components(&cs(&["/", "a", ".", "..", "b.rs"])), "a_b.rs");
    assert_eq!(filename_from_components(&cs(&["C:", "\\", "x", ":"])), "C:_x");
    // A component that holds a separator (a Windows prefix) is kept as it is.
    assert_eq!(filename_from_components(&cs(&["//server/share", "f.c"])), "//server/share_f.c");
    assert_eq!(filename_from_components(&[]), "");
}
