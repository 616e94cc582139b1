//! Format-argument analyzer: flags format-family macro invocations that
//! pass positional arguments where named ones would read better.

use vstd::prelude::*;

use crate::analyzer::Fix;
use crate::analyzer::Issue;
use crate::strutil::contains_sub;
use crate::strutil::spec_contains;

verus! {

/// Analyzer for positional arguments in format-family macros.
pub struct FormatArgsAnalyzer;

/// A macro body draws the flag when it holds an empty placeholder and a
/// comma, so a positional argument fills the placeholder.
pub open spec fn spec_flags_tokens(tokens: Seq<char>) -> bool {
    spec_contains(tokens, "{}"@) && spec_contains(tokens, ","@)
}

impl FormatArgsAnalyzer {
    /// Create new format argument analyzer instance.
    pub fn new() -> (r: FormatArgsAnalyzer) {
        FormatArgsAnalyzer
    }

    /// The analyzer's stable identifier.
    pub fn name(&self) -> (r: &'static str)
        ensures
            r@ == "format_args"@,
    {
        "format_args"
    }

    /// Judges one format-family macro invocation from its token text and
    /// position: an empty `{}` placeholder fed by a positional argument
    /// yields an issue at that position, with no automatic fix.
    pub fn analyze_format_macro(token_str: &str, line: usize, column: usize) -> (r: Option<Issue>)
        ensures
            r is Some <==> spec_flags_tokens(token_str@),
            match r {
                Some(issue) => issue.line == line && issue.column == column && issue.message@
                    == "Use named format arguments instead of positional"@ && issue.fix
                    is Unavailable,
                None => true,
            },
    {
        if contains_sub(token_str, "{}") {
            let has_comma = contains_sub(token_str, ",");
            if has_comma {
                return Some(
                    Issue {
                        line,
                        column,
                        message: "Use named format arguments instead of positional".to_owned(),
                        fix: Fix::Unavailable,
                    },
                );
            }
        }
        None
    }
}

impl Default for FormatArgsAnalyzer {
    /// The analyzer, as its default instance.
    fn default() -> (r: FormatArgsAnalyzer) {
        FormatArgsAnalyzer::new()
    }
}

} // verus!
