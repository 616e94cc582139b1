//! Built-in code quality analyzers: each detects one category of style
//! issue. The detectors' text logic lives here; walking the syntax tree is
//! left to the callers that implement the analyzer contract around them.

pub mod empty_lines;
pub mod format_args;
pub mod inline_comments;
pub mod path_import;

pub use empty_lines::EmptyLinesAnalyzer;
pub use format_args::FormatArgsAnalyzer;
pub use inline_comments::InlineCommentsAnalyzer;
pub use path_import::PathImportAnalyzer;
