use std::path::PathBuf;

use globset::GlobSet;
use vstd::prelude::*;

use crate::error::Error;
use crate::files::{globset_of, globset_patterns, mk_globset};
use crate::metrics::Complexity;
use crate::output::OutputFormat;
use crate::snippets::Snippets;
use crate::text::string_views;

verus! {

/// An owned path of the standard library.
#[verifier::external_type_specification]
#[verifier::external_body]
pub struct ExPathBuf(PathBuf);

/// The settings of a producer of snippets.
pub struct Parameters<'a> {
    /// The format of the output files.
    pub output_format: OutputFormat,
    /// Where the output files are written, if anywhere.
    pub output_path: Option<&'a PathBuf>,
    /// Whether the output path is a single file.
    pub is_single_file: bool,
    /// Globs of the files to analyse.
    pub include_globs: Vec<String>,
    /// Globs of the files not to analyse.
    pub exclude: Vec<String>,
    /// The metrics computed, each with its threshold.
    pub complexities: Vec<(Complexity, usize)>,
}

/// The message of the error on the output path, if any, given whether it
/// is an existing file and whether it is an existing directory.
pub open spec fn output_path_error(p: Parameters, path_is_file: bool, path_is_dir: bool) -> Option<
    Seq<char>,
> {
    if p.output_path.is_some() && path_is_file && !p.is_single_file {
        Some("Output path MUST be a directory"@)
    } else if p.output_path.is_some() && path_is_dir && p.is_single_file {
        Some("Output path MUST be a file"@)
    } else {
        None
    }
}

/// The output path is refused only when it exists with the wrong kind: a
/// directory output is refused exactly when the path is an existing file,
/// a single-file output exactly when the path is an existing directory.
/// A path that does not exist yet (neither a file nor a directory), and a
/// run without an output path, are always accepted.
pub proof fn lemma_output_path_checks(p: Parameters, path_is_file: bool, path_is_dir: bool)
    ensures
        output_path_error(p, false, false) is None,
        p.output_path.is_none() ==> output_path_error(p, path_is_file, path_is_dir) is None,
        !p.is_single_file ==> (output_path_error(p, path_is_file, path_is_dir) is Some
            <==> p.output_path.is_some() && path_is_file),
        p.is_single_file ==> (output_path_error(p, path_is_file, path_is_dir) is Some
            <==> p.output_path.is_some() && path_is_dir),
        !p.is_single_file && output_path_error(p, path_is_file, path_is_dir) is Some
            ==> output_path_error(p, path_is_file, path_is_dir) == Some("Output path MUST be a directory"@),
        p.is_single_file && output_path_error(p, path_is_file, path_is_dir) is Some
            ==> output_path_error(p, path_is_file, path_is_dir) == Some("Output path MUST be a file"@),
{
}

/// Produce snippets of complex code for a source file.
///
/// If no parameters are set, the producer uses *cyclomatic* with a
/// threshold of 15 as default metric.
/// Write on files is disabled by default, but when enabled,
/// *markdown* is the output format.
pub struct SnippetsProducer<'a>(Parameters<'a>);

impl<'a> SnippetsProducer<'a> {
    /// The settings of the producer.
    pub closed spec fn parameters(self) -> Parameters<'a> {
        self.0
    }

    /// Creates a new `SnippetsProducer` instance.
    pub fn new() -> (r: Self)
        ensures
            r.parameters().output_format == OutputFormat::Markdown,
            r.parameters().output_path.is_none(),
            !r.parameters().is_single_file,
            r.parameters().include_globs@.len() == 0,
            r.parameters().exclude@.len() == 0,
            r.parameters().complexities@ == seq![(Complexity::Cyclomatic, 15usize)],
    {
        SnippetsProducer(
            Parameters {
                output_format: OutputFormat::Markdown,
                output_path: None,
                is_single_file: false,
                include_globs: Vec::new(),
                exclude: Vec::new(),
                complexities: vec![(Complexity::Cyclomatic, 15)],
            },
        )
    }

    /// Sets globs to include only a certain kind of files.
    pub fn include_globs(self, include_globs: Vec<String>) -> (r: Self)
        ensures
            r.parameters() == (Parameters { include_globs, ..self.parameters() }),
    {
        let SnippetsProducer(mut p) = self;
        p.include_globs = include_globs;
        SnippetsProducer(p)
    }

    /// Sets globs to exclude a certain kind of files.
    pub fn exclude(self, exclude: Vec<String>) -> (r: Self)
        ensures
            r.parameters() == (Parameters { exclude, ..self.parameters() }),
    {
        let SnippetsProducer(mut p) = self;
        p.exclude = exclude;
        SnippetsProducer(p)
    }

    /// Sets all complexities metric that will be computed.
    pub fn complexities(self, complexities: Vec<(Complexity, usize)>) -> (r: Self)
        ensures
            r.parameters() == (Parameters { complexities, ..self.parameters() }),
    {
        let SnippetsProducer(mut p) = self;
        p.complexities = complexities;
        SnippetsProducer(p)
    }

    /// Sets output path.
    pub fn output(self, path: &'a PathBuf) -> (r: Self)
        ensures
            r.parameters() == (Parameters { output_path: Some(path), ..self.parameters() }),
    {
        let SnippetsProducer(mut p) = self;
        p.output_path = Some(path);
        SnippetsProducer(p)
    }

    /// Whether the output file is a single file path.
    pub fn is_single_file(self, is_single_file: bool) -> (r: Self)
        ensures
            r.parameters() == (Parameters { is_single_file, ..self.parameters() }),
    {
        let SnippetsProducer(mut p) = self;
        p.is_single_file = is_single_file;
        SnippetsProducer(p)
    }

    /// Sets output format.
    pub fn output_format(self, output_format: OutputFormat) -> (r: Self)
        ensures
            r.parameters() == (Parameters { output_format, ..self.parameters() }),
    {
        let SnippetsProducer(mut p) = self;
        p.output_format = output_format;
        SnippetsProducer(p)
    }

    /// The settings of the producer.
    pub fn settings(&self) -> (r: &Parameters<'a>)
        ensures
            *r == self.parameters(),
    {
        &self.0
    }

    /// Checks the output path, given whether it is an existing file and
    /// whether it is an existing directory: it must be a directory unless
    /// the output is a single file, and a file when it is.
    pub fn check_output_path(&self, path_is_file: bool, path_is_dir: bool) -> (r: Result<(), Error>)
        ensures
            match r {
                Ok(()) => output_path_error(self.parameters(), path_is_file, path_is_dir) is None,
                Err(e) => (e matches Error::FormatPath(m) && output_path_error(
                    self.parameters(),
                    path_is_file,
                    path_is_dir,
                ) == Some(m@)),
            },
    {
        let has_output = self.0.output_path.is_some();
        if has_output && path_is_file && !self.0.is_single_file {
            Err(Error::FormatPath("Output path MUST be a directory"))
        } else if has_output && path_is_dir && self.0.is_single_file {
            Err(Error::FormatPath("Output path MUST be a file"))
        } else {
            Ok(())
        }
    }

    /// The sets of globs that select the files to analyse: the included
    /// globs, then the excluded ones.
    pub fn file_filters(&self) -> (r: (GlobSet, GlobSet))
        ensures
            globset_patterns(r.0) == globset_of(string_views(self.parameters().include_globs@)),
            globset_patterns(r.1) == globset_of(string_views(self.parameters().exclude@)),
    {
        (mk_globset(self.0.include_globs.as_slice()), mk_globset(self.0.exclude.as_slice()))
    }
}

impl<'a> Default for SnippetsProducer<'a> {
    fn default() -> (r: Self)
        ensures
            r.parameters().output_format == OutputFormat::Markdown,
            r.parameters().output_path.is_none(),
            !r.parameters().is_single_file,
            r.parameters().include_globs@.len() == 0,
            r.parameters().exclude@.len() == 0,
            r.parameters().complexities@ == seq![(Complexity::Cyclomatic, 15usize)],
    {
        Self::new()
    }
}

/// The outcome of a run that collected `snippets`: none when no file has
/// complex code.
pub fn collected_snippets(snippets: Vec<Snippets>) -> (r: Option<Vec<Snippets>>)
    ensures
        snippets@.len() == 0 ==> r is None,
        snippets@.len() > 0 ==> r == Some(snippets),
{
    if snippets.len() == 0 {
        None
    } else {
        Some(snippets)
    }
}

} // verus!
