use complex_code_spotter::snippets::{extract_file_snippets, get_code_snippets};
use complex_code_spotter::{Complexity, Language, Space};

fn leaf(start: usize, end: usize, cyc: usize, cog: usize) -> Space {
    Space {
        start_line: start,
        end_line: end,
        cyclomatic: cyc,
        cyclomatic_max: cyc,
        cognitive: cog,
        cognitive_max: cog,
        spaces: Vec::new(),
    }
}

fn unit() -> Space {
    Space {
        start_line: 1,
        end_line: 6,
        cyclomatic: 1,
        cyclomatic_max: 5,
        cognitive: 0,
        cognitive_max: 3,
        spaces: vec![leaf(1, 3, 5, 3), leaf(4, 6, 1, 0)],
    }
}

const SOURCE: &str = "fn a() {\n  x\n}\nfn b() {\n  y\n}";

#[test]
fn snippets_of_a_space_tree() {
    let r = get_code_snippets(
        &unit(),
        Language::Rust,
        "src/x.rs".to_string(),
        SOURCE,
        &[(Complexity::Cyclomatic, 2), (Complexity::Cognitive, 10)],
    )
    .unwrap();
    assert_eq!(r.source_path, "src/x.rs");
    assert_eq!(r.language, Language::Rust);
    assert_eq!(r.snippets.len(), 1);
    let entry = &r.snippets[0];
    assert_eq!(entry.complexity, Complexity::Cyclomatic);
    // The unit is kept for its nested maximum, then the first function.
    assert_eq!(entry.snippets.len(), 2);
    assert_eq!(entry.snippets[0].complexity, 1);
    assert_eq!(entry.snippets[0].start_line, 1);
    assert_eq!(entry.snippets[0].end_line, 6);
    assert_eq!(entry.snippets[0].text, SOURCE);
    assert_eq!(entry.snippets[1].complexity, 5);
    assert_eq!(entry.snippets[1].text, "fn a() {\n  x\n}");
}

#[test]
fn no_snippets_when_thresholds_are_high() {
    let r = get_code_snippets(
        &unit(),
        Language::Rust,
        "src/x.rs".to_string(),
        SOURCE,
        &[(Complexity::Cyclomatic, 15), (Complexity::Cognitive, 15)],
    );
    assert!(r.is_none());
    let none = get_code_snippets(&unit(), Language::Rust, String::new(), SOURCE, &[]);
    assert!(none.is_none());
}

#[test]
fn lower_thresholds_find_more() {
    let both = [(Complexity::Cyclomatic, 0), (Complexity::Cognitive, 0)];
    let r = get_code_snippets(&unit(), Language::Rust, String::new(), SOURCE, &both).unwrap();
    assert_eq!(r.snippets.len(), 2);
    assert_eq!(r.snippets[0].snippets.len(), 3);
    assert_eq!(r.snippets[1].complexity, Complexity::Cognitive);
    assert_eq!(r.snippets[1].snippets.len(), 2);
}

const COMPLEX: &str = "fn f(x: i32) -> i32 {\n    if x > 0 {\n        if x > 1 {\n            return 2;\n        }\n        return 1;\n    }\n    0\n}\n";

#[test]
fn rust_code_analysis_wrappers() {
    let all = [(Complexity::Cyclomatic, 0), (Complexity::Cognitive, 0)];
    let rs = extract_file_snippets("a/f.rs", COMPLEX.as_bytes(), &all).unwrap();
    assert_eq!(rs.language, Language::Rust);
    let py = "def f(x):\n    if x:\n        return 1\n    return 0\n";
    let python = extract_file_snippets("a/f.py", py.as_bytes(), &all).unwrap();
    assert_eq!(python.language, Language::Python);
    assert!(extract_file_snippets("a/f.unknown", COMPLEX.as_bytes(), &all).is_none());
    // The unit and the function, whose cyclomatic values are 1 and 3.
    let cyclomatic = &rs.snippets[0].snippets;
    assert_eq!(cyclomatic.len(), 2);
    assert_eq!((cyclomatic[1].start_line, cyclomatic[1].end_line), (1, 9));
    assert_eq!(cyclomatic[1].complexity, 3);
    // Nested ifs: cognitive 1 for the outer if, 2 for the inner one.
    assert_eq!(rs.snippets[1].complexity, Complexity::Cognitive);
    assert_eq!(rs.snippets[1].snippets[1].complexity, 3);
    assert_eq!(Language::Rust.name(), "rust");
    assert_eq!(Language::Cpp.name(), "c/c++");
}

#[test]
fn snippets_of_a_source_file() {
    let r = extract_file_snippets("a/f.rs", COMPLEX.as_bytes(), &[(Complexity::Cyclomatic, 2)])
        .unwrap();
    assert_eq!(r.language, Language::Rust);
    assert_eq!(r.snippets.len(), 1);
    let found = &r.snippets[0].snippets;
    // The unit (whose own value is 1, kept for its nested maximum), then
    // the function.
    assert_eq!(found.len(), 2);
    assert_eq!(found[0].complexity, 1);
    assert_eq!(found[1].complexity, 3);
    assert_eq!((found[1].start_line, found[1].end_line), (1, 9));
    assert_eq!(found[1].text, COMPLEX.trim_end());
    assert!(extract_file_snippets("a/f.rs", COMPLEX.as_bytes(), &[(Complexity::Cyclomatic, 15)])
        .is_none());
    assert!(extract_file_snippets("a/f.txt", COMPLEX.as_bytes(), &[(Complexity::Cyclomatic, 0)])
        .is_none());
}

#[test]
fn a_repeated_metric_has_one_entry() {
    // The later pair that finds snippets gives them, in the first entry.
    let pairs = [
        (Complexity::Cyclomatic, 2),
        (Complexity::Cognitive, 0),
        (Complexity::Cyclomatic, 4),
        (Complexity::Cyclomatic, 100),
    ];
    let r = get_code_snippets(&unit(), Language::Rust, String::new(), SOURCE, &pairs).unwrap();
    assert_eq!(r.snippets.len(), 2);
    assert_eq!(r.snippets[0].complexity, Complexity::Cyclomatic);
    assert_eq!(r.snippets[0].snippets.len(), 2);
    assert_eq!(r.snippets[0].snippets[1].complexity, 5);
    assert_eq!(r.snippets[1].complexity, Complexity::Cognitive);
    // With threshold 4 only the unit (for its nested maximum 5) and the
    // first function are found.
    let r = get_code_snippets(
        &unit(),
        Language::Rust,
        String::new(),
        SOURCE,
        &[(Complexity::Cyclomatic, 0), (Complexity::Cyclomatic, 4)],
    )
    .unwrap();
    assert_eq!(r.snippets.len(), 1);
    assert_eq!(r.snippets[0].snippets.len(), 2);
}
