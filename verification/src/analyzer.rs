//! Core analyzer contract and types: the `Analyzer` trait that detectors
//! implement, the `Issue` they report, and the `Fix` a report may carry.

use vstd::prelude::*;

use crate::error::QualityError;

verus! {

/// Type of fix that can be applied to resolve an issue.
#[derive(Debug, Clone, PartialEq)]
pub enum Fix {
    /// No automatic fix available.
    Unavailable,
    /// Replace the issue's whole line with the given text.
    Simple(String),
    /// Add an import and replace a pattern on the issue's line.
    WithImport {
        /// Import statement to add at the top of the file.
        import: String,
        /// Text to search for on the issue's line.
        pattern: String,
        /// Replacement for the first occurrence of the pattern.
        replacement: String,
    },
}

impl Fix {
    /// Checks if a fix is available.
    pub fn is_available(&self) -> (r: bool)
        ensures
            r == !(self is Unavailable),
    {
        match self {
            Fix::Unavailable => false,
            _ => true,
        }
    }

    /// Returns the simple replacement line if this is a whole-line fix.
    pub fn as_simple(&self) -> (r: Option<&str>)
        ensures
            match r {
                Some(s) => self is Simple && s@ == self->Simple_0@,
                None => !(self is Simple),
            },
    {
        match self {
            Fix::Simple(s) => Some(s.as_str()),
            _ => None,
        }
    }

    /// Returns import, search pattern and replacement for import-based fixes.
    pub fn as_import(&self) -> (r: Option<(&str, &str, &str)>)
        ensures
            match r {
                Some(t) => self is WithImport && t.0@ == self->import@ && t.1@ == self->pattern@
                    && t.2@ == self->replacement@,
                None => !(self is WithImport),
            },
    {
        match self {
            Fix::WithImport { import, pattern, replacement } => Some(
                (import.as_str(), pattern.as_str(), replacement.as_str()),
            ),
            _ => None,
        }
    }
}

/// Analysis issue found in code: its location, description and optional fix.
///
/// An issue with `line == 0` has no usable location and is never eligible
/// for diff generation.
#[derive(Debug, Clone, PartialEq)]
pub struct Issue {
    /// Line number where the issue was found, 1-based; 0 means unlocated.
    pub line: usize,
    /// Column number.
    pub column: usize,
    /// Issue description.
    pub message: String,
    /// Automatic fix, if any.
    pub fix: Fix,
}

/// Result of one analyzer's pass over one file.
#[derive(Debug)]
pub struct AnalysisResult {
    /// Issues found.
    pub issues: Vec<Issue>,
    /// Number of fixable issues.
    pub fixable_count: usize,
}

impl AnalysisResult {
    /// The count of fixable issues never exceeds the issue count.
    pub open spec fn wf(&self) -> bool {
        self.fixable_count <= self.issues@.len()
    }
}

impl Default for AnalysisResult {
    /// An empty result: no issues, nothing fixable.
    fn default() -> (r: AnalysisResult)
        ensures
            r.issues@.len() == 0,
            r.fixable_count == 0,
            r.wf(),
    {
        AnalysisResult { issues: Vec::new(), fixable_count: 0 }
    }
}

/// Contract for code analyzers: a stable name, a pure analysis over the
/// parsed tree and the original source text, and an in-place fix pass.
///
/// The tree handed to `analyze` is shared, so an implementation cannot
/// mutate it; `fix` receives the tree mutably and returns how many fixes
/// it applied.
pub trait Analyzer {
    /// Unique analyzer identifier, lowercase, stable.
    fn name(&self) -> (r: &'static str);

    /// Analyze the syntax tree and source text for quality issues.
    fn analyze(&self, ast: &syn::File, content: &str) -> (r: Result<
        AnalysisResult,
        QualityError,
    >);

    /// Apply automatic fixes to the syntax tree in place.
    fn fix(&self, ast: &mut syn::File) -> (r: Result<usize, QualityError>);
}

} // verus!
