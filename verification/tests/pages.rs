use complex_code_spotter::pages::{html_page, index_page, markdown_page};
use complex_code_spotter::{Complexity, Error, ComplexitySnippets, Language, SnippetData, Snippets};

fn entry(c: Complexity, value: usize, text: &str) -> ComplexitySnippets {
    ComplexitySnippets {
        complexity: c,
        snippets: vec![SnippetData { complexity: value, start_line: 2, end_line: 4, text: text.to_string() }],
    }
}

fn snippets() -> Snippets {
    Snippets {
        source_path: "src/a.rs".to_string(),
        language: Language::Rust,
        snippets: vec![entry(Complexity::Cognitive, 7, "g"), entry(Complexity::Cyclomatic, 3, "f")],
    }
}

const PAGE: &str = "{{ language }}:{% for s in sections %}[{{ s[0] }}{% for d in s[1] %} {{ d.complexity }} {{ d.start_line }}-{{ d.end_line }} {{ d.text }}{% endfor %}]{% endfor %}";

#[test]
fn markdown_page_keeps_entry_order() {
    assert_eq!(
        markdown_page(PAGE, &snippets()).unwrap(),
        "rust:[Cognitive 7 2-4 g][Cyclomatic 3 2-4 f]"
    );
}

#[test]
fn html_page_puts_cyclomatic_first() {
    assert_eq!(
        html_page(PAGE, &snippets()).unwrap(),
        "rust:[Cyclomatic 3 2-4 f][Cognitive 7 2-4 g]"
    );
}

#[test]
fn index_page_lists_sorted_files() {
    let names = vec!["src_b.rs".to_string(), "src_a.rs".to_string()];
    let page = index_page("{{ directory }}:{{ files|join(',') }}", "out/html", &names, "html");
    assert_eq!(page.unwrap(), "out/html:src_a.html,src_b.html");
}

#[test]
fn broken_templates_give_template_errors() {
    assert!(matches!(markdown_page("{% for %}", &snippets()), Err(Error::Template(_))));
    assert!(matches!(html_page("{% if %}", &snippets()), Err(Error::Template(_))));
    assert!(matches!(index_page("{{ x", "d", &[], "html"), Err(Error::Template(_))));
}
