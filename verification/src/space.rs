use std::path::Path;

use rust_code_analysis::{get_function_spaces, guess_language, FuncSpace, LANG};
use vstd::prelude::*;

verus! {

/// The metric values of one function space of a source file, with the
/// spaces nested in it.
pub struct Space {
    /// First line of the space (1-based).
    pub start_line: usize,
    /// Last line of the space (1-based).
    pub end_line: usize,
    /// Cyclomatic complexity of the space.
    pub cyclomatic: usize,
    /// Largest cyclomatic complexity among the space and the spaces it holds.
    pub cyclomatic_max: usize,
    /// Cognitive complexity of the space.
    pub cognitive: usize,
    /// Largest cognitive complexity among the space and the spaces it holds.
    pub cognitive_max: usize,
    /// The spaces nested in this one.
    pub spaces: Vec<Space>,
}

/// The languages whose source files can be analysed.
#[derive(Clone, Copy, Debug, PartialEq, Eq, Structural)]
pub enum Language {
    /// JavaScript, Mozilla dialect.
    Mozjs,
    /// JavaScript.
    Javascript,
    /// Java.
    Java,
    /// Rust.
    Rust,
    /// C and C++.
    Cpp,
    /// Python.
    Python,
    /// TypeScript with JSX.
    Tsx,
    /// TypeScript.
    Typescript,
    /// Comments of C files.
    Ccomment,
    /// C preprocessor directives.
    Preproc,
}

impl Language {
    /// The name of the language, as `rust_code_analysis::LANG::get_name`
    /// gives it.
    pub open spec fn spec_name(self) -> Seq<char> {
        match self {
            Language::Mozjs => "javascript"@,
            Language::Javascript => "javascript"@,
            Language::Java => "java"@,
            Language::Rust => "rust"@,
            Language::Cpp => "c/c++"@,
            Language::Python => "python"@,
            Language::Tsx => "typescript"@,
            Language::Typescript => "typescript"@,
            Language::Ccomment => "ccomment"@,
            Language::Preproc => "preproc"@,
        }
    }

    /// The name of the language.
    pub fn name(&self) -> (r: &'static str)
        ensures
            r@ == self.spec_name(),
    {
        match self {
            Language::Mozjs => "javascript",
            Language::Javascript => "javascript",
            Language::Java => "java",
            Language::Rust => "rust",
            Language::Cpp => "c/c++",
            Language::Python => "python",
            Language::Tsx => "typescript",
            Language::Typescript => "typescript",
            Language::Ccomment => "ccomment",
            Language::Preproc => "preproc",
        }
    }
}

/// Languages have distinct names, but for the two dialects of JavaScript
/// (`Mozjs` and `Javascript`), both named `javascript`, and the two of
/// TypeScript (`Tsx` and `Typescript`), both named `typescript`: the name
/// tells the language apart up to its dialect.
pub proof fn lemma_language_names_distinct(a: Language, b: Language)
    ensures
        a.spec_name() == b.spec_name() <==> (a == b || (a == Language::Mozjs && b
            == Language::Javascript) || (a == Language::Javascript && b == Language::Mozjs) || (a
            == Language::Tsx && b == Language::Typescript) || (a == Language::Typescript && b
            == Language::Tsx)),
{
    reveal_strlit("javascript");
    reveal_strlit("java");
    reveal_strlit("rust");
    reveal_strlit("c/c++");
    reveal_strlit("python");
    reveal_strlit("typescript");
    reveal_strlit("ccomment");
    reveal_strlit("preproc");
    assert("javascript"@.len() != "java"@.len());
    assert("c/c++"@.len() != "ccomment"@.len());
    assert("python"@.len() != "preproc"@.len());
    assert("javascript"@[0] != "rust"@[0]);
    assert("javascript"@[0] != "c/c++"@[0]);
    assert("javascript"@[0] != "python"@[0]);
    assert("javascript"@[0] != "typescript"@[0]);
    assert("javascript"@[0] != "ccomment"@[0]);
    assert("javascript"@[0] != "preproc"@[0]);
    assert("java"@[0] != "rust"@[0]);
    assert("java"@[0] != "c/c++"@[0]);
    assert("java"@[0] != "python"@[0]);
    assert("java"@[0] != "typescript"@[0]);
    assert("java"@[0] != "ccomment"@[0]);
    assert("java"@[0] != "preproc"@[0]);
    assert("rust"@[0] != "c/c++"@[0]);
    assert("rust"@[0] != "python"@[0]);
    assert("rust"@[0] != "typescript"@[0]);
    assert("rust"@[0] != "ccomment"@[0]);
    assert("rust"@[0] != "preproc"@[0]);
    assert("c/c++"@[0] != "python"@[0]);
    assert("c/c++"@[0] != "typescript"@[0]);
    assert("c/c++"@[0] != "preproc"@[0]);
    assert("python"@[0] != "typescript"@[0]);
    assert("python"@[0] != "ccomment"@[0]);
    assert("typescript"@[0] != "ccomment"@[0]);
    assert("typescript"@[0] != "preproc"@[0]);
    assert("ccomment"@[0] != "preproc"@[0]);
}

/// The language that `rust_code_analysis::guess_language` finds for the
/// source bytes `buf` of the file at `path` (from the extension and an
/// editor mode line).
pub uninterp spec fn guessed_language(buf: Seq<u8>, path: Seq<char>) -> Option<Language>;

/// The tree of function spaces, with their metrics, that
/// `rust_code_analysis::get_function_spaces` computes for `code`, parsed
/// as `language`, from the file at `path`.
pub uninterp spec fn function_spaces(language: Language, code: Seq<u8>, path: Seq<char>) -> Option<
    Space,
>;

/// Calls `rust_code_analysis::guess_language` and keeps the language it
/// found, if any. The contract claims only that the result is the same for
/// the same bytes and path.
#[verifier::external_body]
pub(crate) fn guess_language_of(buf: &[u8], path: &str) -> (r: Option<Language>)
    ensures
        r == guessed_language(buf@, path@),
{
    match guess_language(buf, path).0 {
        Some(LANG::Mozjs) => Some(Language::Mozjs),
        Some(LANG::Javascript) => Some(Language::Javascript),
        Some(LANG::Java) => Some(Language::Java),
        Some(LANG::Rust) => Some(Language::Rust),
        Some(LANG::Cpp) => Some(Language::Cpp),
        Some(LANG::Python) => Some(Language::Python),
        Some(LANG::Tsx) => Some(Language::Tsx),
        Some(LANG::Typescript) => Some(Language::Typescript),
        Some(LANG::Ccomment) => Some(Language::Ccomment),
        Some(LANG::Preproc) => Some(Language::Preproc),
        None => None,
    }
}

/// Calls `rust_code_analysis::get_function_spaces` on `code` and copies the
/// tree of spaces it returns into a `Space`. The contract claims only that
/// the result is the same for the same language, code and path.
#[verifier::external_body]
pub(crate) fn function_spaces_of(language: Language, code: &[u8], path: &str) -> (r: Option<Space>)
    ensures
        r == function_spaces(language, code@, path@),
{
    let lang = match language {
        Language::Mozjs => LANG::Mozjs,
        Language::Javascript => LANG::Javascript,
        Language::Java => LANG::Java,
        Language::Rust => LANG::Rust,
        Language::Cpp => LANG::Cpp,
        Language::Python => LANG::Python,
        Language::Tsx => LANG::Tsx,
        Language::Typescript => LANG::Typescript,
        Language::Ccomment => LANG::Ccomment,
        Language::Preproc => LANG::Preproc,
    };
    get_function_spaces(&lang, code.to_vec(), Path::new(path), None).map(|s| space_of(&s))
}

/// The outside type of a function space of `rust_code_analysis`.
#[verifier::external_type_specification]
#[verifier::external_body]
pub struct ExFuncSpace(FuncSpace);

/// Copies a `rust_code_analysis::FuncSpace` field by field into a `Space`:
/// lines, the cyclomatic and cognitive values and maxima (converted from
/// the `f64` that the crate computes to `usize`), and the nested spaces.
/// Nothing is stated of the copy: the only caller names its result.
#[verifier::external_body]
fn space_of(s: &FuncSpace) -> Space {
    Space {
        start_line: s.start_line,
        end_line: s.end_line,
        cyclomatic: s.metrics.cyclomatic.cyclomatic() as usize,
        cyclomatic_max: s.metrics.cyclomatic.cyclomatic_max() as usize,
        cognitive: s.metrics.cognitive.cognitive() as usize,
        cognitive_max: s.metrics.cognitive.cognitive_max() as usize,
        spaces: s.spaces.iter().map(space_of).collect(),
    }
}

} // verus!
