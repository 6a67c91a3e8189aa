use std::collections::BTreeMap;

use minijinja::value::Value;
use minijinja::{Environment, Error as TemplateError};
use vstd::prelude::*;

use crate::output::{
    complexity_order, entry_complexities, index_entries, index_names, lemma_complexity_order,
    no_path_separator, sorted_strings,
};
use crate::snippets::{ComplexitySnippets, SnippetData, SnippetModel, Snippets};
use crate::error::Error;
use crate::metrics::Complexity;
use crate::text::string_views;

verus! {

/// The page that `minijinja`'s `Environment::render_str` renders from the
/// template `template` with a
/// context holding `language`, `directory`, the list `files` and the list
/// `sections` (for each, the metric's variant name and its snippets, each
/// with `complexity`, `start_line`, `end_line` and `text`); none when the
/// template does not parse or does not render.
pub uninterp spec fn rendered(
    template: Seq<char>,
    language: Seq<char>,
    directory: Seq<char>,
    files: Seq<Seq<char>>,
    sections: Seq<(Complexity, Seq<SnippetModel>)>,
) -> Option<Seq<char>>;

/// The views of a list of sections.
pub open spec fn section_views(sections: Seq<&ComplexitySnippets>) -> Seq<
    (Complexity, Seq<SnippetModel>),
> {
    sections.map_values(|e: &ComplexitySnippets| e@)
}

/// `minijinja::Error`, what a failed rendering gives back.
#[verifier::external_type_specification]
#[verifier::external_body]
pub struct ExTemplateError(TemplateError);

/// Renders `template` with `minijinja` (`Environment::render_str`) on a
/// context made of the arguments, converted one
/// for one into `minijinja` values. The contract claims that the call
/// succeeds exactly when `rendered` is some page, and then gives that page:
/// the same arguments give the same result.
#[verifier::external_body]
fn render_template(
    template: &str,
    language: &str,
    directory: &str,
    files: &[String],
    sections: &[&ComplexitySnippets],
) -> (r: Result<String, TemplateError>)
    ensures
        r is Ok <==> rendered(template@, language@, directory@, string_views(files@), section_views(sections@)) is Some,
        r matches Ok(page) ==> rendered(template@, language@, directory@, string_views(files@), section_views(sections@)) == Some(page@),
{
    let data = |d: &SnippetData| Value::from(BTreeMap::from([("complexity", Value::from(d.complexity)), ("start_line", d.start_line.into()), ("end_line", d.end_line.into()), ("text", d.text.as_str().into())]));
    let section = |e: &&ComplexitySnippets| Value::from(vec![Value::from(e.complexity.variant_name()), e.snippets.iter().map(data).collect()]);
    let ctx = BTreeMap::from([("language", Value::from(language)), ("directory", directory.into()), ("files", files.to_vec().into()), ("sections", sections.iter().map(section).collect())]);
    Environment::new().render_str(template, ctx)
}

/// The message of a `minijinja::Error` (its `Display`); nothing is claimed
/// of the text.
#[verifier::external_body]
fn template_error_message(e: &TemplateError) -> (r: String) {
    e.to_string()
}

/// `r` is the page `page` when there is one, and a template error when
/// there is none.
pub open spec fn page_result(r: Result<String, Error>, page: Option<Seq<char>>) -> bool {
    match r {
        Ok(s) => page == Some(s@),
        Err(e) => page is None && e is Template,
    }
}

/// The page that `render_template` gave back, with its error carried over
/// into the library's own error type.
fn page_of(r: Result<String, TemplateError>) -> (p: Result<String, Error>)
    ensures
        p is Ok <==> r is Ok,
        r matches Ok(s) ==> p matches Ok(t) && t@ == s@,
        p is Err ==> p->Err_0 is Template,
{
    match r {
        Ok(s) => Ok(s),
        Err(e) => Err(Error::Template(template_error_message(&e))),
    }
}

/// The entries of `snippets` in the order `order`.
pub open spec fn entries_in_order(snippets: Snippets, order: Seq<usize>) -> Seq<
    (Complexity, Seq<SnippetModel>),
> {
    order.map_values(|i: usize| snippets@.snippets[i as int])
}

/// References to the entries of `snippets` at the indices `order`.
fn sections_in_order<'a>(snippets: &'a Snippets, order: &Vec<usize>) -> (r: Vec<&'a ComplexitySnippets>)
    requires
        forall|k: int| 0 <= k < order@.len() ==> (#[trigger] order@[k]) < snippets.snippets@.len(),
    ensures
        section_views(r@) == entries_in_order(*snippets, order@),
{
    let mut r: Vec<&ComplexitySnippets> = Vec::new();
    let mut k: usize = 0;
    while k < order.len()
        invariant
            k <= order@.len(),
            r@.len() == k,
            forall|q: int| 0 <= q < order@.len() ==> (#[trigger] order@[q]) < snippets.snippets@.len(),
            section_views(r@) == entries_in_order(*snippets, order@.take(k as int)),
        decreases order@.len() - k,
    {
        let i = order[k];
        let ghost before = r@;
        r.push(&snippets.snippets[i]);
        proof {
            let e = entries_in_order(*snippets, order@.take(k + 1));
            assert(snippets@.snippets[i as int] == snippets.snippets@[i as int]@);
            assert(order@.take(k + 1)[k as int] == i);
            assert(e[k as int] == snippets@.snippets[i as int]);
            assert(r@[k as int] == &snippets.snippets@[i as int]);
            assert(section_views(r@)[k as int] == e[k as int]);
            assert forall|q: int| 0 <= q < k implies section_views(r@)[q] == e[q] by {
                let old_e = entries_in_order(*snippets, order@.take(k as int));
                assert(r@[q] == before[q]);
                assert(section_views(before)[q] == old_e[q]);
                assert(order@.take(k + 1)[q] == order@.take(k as int)[q]);
                assert(old_e[q] == e[q]);
            }
            assert(section_views(r@) =~= e);
        }
        k = k + 1;
    }
    assert(order@.take(order@.len() as int) =~= order@);
    r
}

/// The indices `0..n` in order.
fn all_indices(n: usize) -> (r: Vec<usize>)
    ensures
        r@.len() == n,
        forall|k: int| 0 <= k < n ==> #[trigger] r@[k] == k,
{
    let mut r: Vec<usize> = Vec::new();
    let mut k: usize = 0;
    while k < n
        invariant
            k <= n,
            r@.len() == k,
            forall|q: int| 0 <= q < k ==> #[trigger] r@[q] == q,
        decreases n - k,
    {
        r.push(k);
        k = k + 1;
    }
    r
}

/// The markdown page of the snippets of a source file: `template` rendered
/// with the language's name and the entries in their order.
pub fn markdown_page(template: &str, snippets: &Snippets) -> (r: Result<String, Error>)
    ensures
        page_result(r, rendered(
            template@,
            snippets.language.spec_name(),
            Seq::empty(),
            Seq::empty(),
            snippets@.snippets,
        )),
{
    proof {
        reveal_strlit("");
        assert(""@ =~= Seq::<char>::empty());
    }
    let order = all_indices(snippets.snippets.len());
    let sections = sections_in_order(snippets, &order);
    assert(entries_in_order(*snippets, order@) =~= snippets@.snippets);
    let no_files: Vec<String> = Vec::new();
    assert(string_views(no_files@) =~= Seq::<Seq<char>>::empty());
    page_of(render_template(template, snippets.language.name(), "", no_files.as_slice(), sections.as_slice()))
}

/// The html page of the snippets of a source file: `template` rendered
/// with the language's name and the entries in the html order
/// (cyclomatic first).
pub fn html_page(template: &str, snippets: &Snippets) -> (r: Result<String, Error>)
    ensures
        page_result(r, rendered(
            template@,
            snippets.language.spec_name(),
            Seq::empty(),
            Seq::empty(),
            entries_in_order(*snippets, complexity_order(entry_complexities(*snippets))),
        )),
{
    let n = snippets.snippets.len();
    proof {
        reveal_strlit("");
        assert(""@ =~= Seq::<char>::empty());
        assert(entry_complexities(*snippets).len() == n);
        lemma_complexity_order(entry_complexities(*snippets));
    }
    let order = snippets.html_order();
    let sections = sections_in_order(snippets, &order);
    let no_files: Vec<String> = Vec::new();
    assert(string_views(no_files@) =~= Seq::<Seq<char>>::empty());
    page_of(render_template(template, snippets.language.name(), "", no_files.as_slice(), sections.as_slice()))
}

/// The index page of a directory of output files: `template` rendered with
/// the directory and the sorted names of the files.
pub fn index_page(template: &str, directory: &str, filenames: &[String], extension: &str) -> (r: Result<String, Error>)
    requires
        no_path_separator(extension@),
    ensures
        exists|files: Seq<Seq<char>>|
            sorted_strings(files) && files.to_multiset() == index_names(
                string_views(filenames@),
                extension@,
            ).to_multiset() && page_result(r, rendered(
                template@,
                Seq::empty(),
                directory@,
                files,
                Seq::empty(),
            )),
{
    let files = index_entries(filenames, extension);
    let no_sections: Vec<&ComplexitySnippets> = Vec::new();
    assert(section_views(no_sections@) =~= Seq::<(Complexity, Seq<SnippetModel>)>::empty());
    let r = page_of(render_template(template, "", directory, files.as_slice(), no_sections.as_slice()));
    proof {
        reveal_strlit("");
        assert(""@ =~= Seq::<char>::empty());
    }
    r
}

} // verus!
