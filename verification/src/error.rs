use vstd::prelude::*;

verus! {

/// Error types.
#[derive(Debug)]
pub enum Error {
    /// Wrong file content.
    WrongContent,
    /// Impossible to guess a programming language.
    UnknownLanguage,
    /// Impossible to retrieve function spaces.
    NoSpaces,
    /// A general utf-8 conversion error.
    Utf8,
    /// Impossible to complete a non-utf8 conversion.
    NonUtf8Conversion,
    /// Path format.
    FormatPath(&'static str),
    /// Concurrent failures.
    Concurrent(String),
    /// Mutability access failures.
    Mutability(String),
    /// Less thresholds than complexity metrics.
    Thresholds,
    /// A more generic I/O error, with its message.
    Io(String),
    /// A template error, with its message.
    Template(String),
    /// A Json output error, with its message.
    JsonOutput(String),
}

} // verus!
