//! Extracts snippets of code deemed complex according to the cyclomatic and
//! cognitive complexity metrics: whenever the value of a metric for a
//! function space exceeds a threshold, the lines of that space are kept.

pub mod error;
pub mod files;
pub mod metrics;
pub mod output;
pub mod pages;
pub mod producer;
pub mod snippets;
pub mod space;
pub mod text;

pub use error::Error;
pub use metrics::Complexity;
pub use output::OutputFormat;
pub use producer::SnippetsProducer;
pub use snippets::{ComplexitySnippets, SnippetData, Snippets};
pub use space::{Language, Space};
