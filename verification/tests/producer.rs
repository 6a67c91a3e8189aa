use std::path::PathBuf;

use complex_code_spotter::files::file_selected;
use complex_code_spotter::producer::collected_snippets;
use complex_code_spotter::{Complexity, Error, OutputFormat, SnippetsProducer};

#[test]
fn new_producer_defaults() {
    let p = SnippetsProducer::new();
    let s = p.settings();
    assert_eq!(s.output_format, OutputFormat::Markdown);
    assert!(s.output_path.is_none());
    assert!(!s.is_single_file);
    assert!(s.include_globs.is_empty());
    assert!(s.exclude.is_empty());
    assert_eq!(s.complexities, vec![(Complexity::Cyclomatic, 15)]);
    let d = SnippetsProducer::default();
    assert_eq!(d.settings().complexities, vec![(Complexity::Cyclomatic, 15)]);
}

#[test]
fn builder_sets_each_field() {
    let out = PathBuf::from("/tmp/out");
    let p = SnippetsProducer::new()
        .complexities(vec![(Complexity::Cognitive, 3)])
        .output_format(OutputFormat::Html)
        .output(&out)
        .is_single_file(true)
        .include_globs(vec!["*.rs".to_string()])
        .exclude(vec!["**/tests/**".to_string()]);
    let s = p.settings();
    assert_eq!(s.complexities, vec![(Complexity::Cognitive, 3)]);
    assert_eq!(s.output_format, OutputFormat::Html);
    assert_eq!(s.output_path, Some(&out));
    assert!(s.is_single_file);
    assert_eq!(s.include_globs, vec!["*.rs".to_string()]);
    assert_eq!(s.exclude, vec!["**/tests/**".to_string()]);
    let (inc, exc) = p.file_filters();
    assert!(file_selected(&inc, &exc, "a.rs", true));
    assert!(!file_selected(&inc, &exc, "a.c", true));
    assert!(!file_selected(&inc, &exc, "a/tests/b.rs", true));
    let (inc, exc) = SnippetsProducer::new().file_filters();
    assert!(file_selected(&inc, &exc, "a/tests/b.c", true));
}

#[test]
fn output_path_checks() {
    let out = PathBuf::from("/tmp/out");
    let dir_output = SnippetsProducer::new().output(&out);
    assert!(dir_output.check_output_path(false, true).is_ok());
    match dir_output.check_output_path(true, false) {
        Err(Error::FormatPath(m)) => assert_eq!(m, "Output path MUST be a directory"),
        other => panic!("unexpected {:?}", other),
    }
    let file_output = SnippetsProducer::new().output(&out).is_single_file(true);
    assert!(file_output.check_output_path(true, false).is_ok());
    match file_output.check_output_path(false, true) {
        Err(Error::FormatPath(m)) => assert_eq!(m, "Output path MUST be a file"),
        other => panic!("unexpected {:?}", other),
    }
    assert!(SnippetsProducer::new().check_output_path(true, true).is_ok());
}

#[test]
fn empty_runs_give_none() {
    assert!(collected_snippets(Vec::new()).is_none());
}
