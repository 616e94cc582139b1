//! Path-import analyzer: flags qualified call paths that would read
//! better as an import plus a bare name, distinguishing module paths from
//! type paths, enum variants and associated constants.

use vstd::prelude::*;

use crate::analyzer::Fix;
use crate::analyzer::Issue;
use crate::strutil::spec_join;
use crate::strutil::join_with;
use crate::strutil::str_eq;

verus! {

/// Analyzer for detecting path separators that should be imports.
pub struct PathImportAnalyzer;

/// An ASCII uppercase letter.
pub open spec fn is_ascii_upper(c: char) -> bool {
    'A' as int <= c as int <= 'Z' as int
}

/// An ASCII lowercase letter.
pub open spec fn is_ascii_lower(c: char) -> bool {
    'a' as int <= c as int <= 'z' as int
}

/// An ASCII digit.
pub open spec fn is_ascii_digit(c: char) -> bool {
    '0' as int <= c as int <= '9' as int
}

/// Every character is an uppercase letter, an underscore or a digit.
pub open spec fn spec_screaming(s: Seq<char>) -> bool {
    forall|i: int|
        0 <= i < s.len() ==> is_ascii_upper(#[trigger] s[i]) || s[i] == '_' || is_ascii_digit(
            s[i],
        )
}

/// Whether a path, given as its segment names, should be extracted to an
/// import: at least two segments, a lowercase first segment, a lowercase
/// non-constant last segment, no type-like segment next to the end, and
/// either a standard-library root or three or more segments.
pub open spec fn spec_should_extract(segs: Seq<Seq<char>>) -> bool {
    if segs.len() < 2 {
        false
    } else {
        let first = segs[0];
        let last = segs[segs.len() - 1];
        let second_to_last = segs[segs.len() - 2];
        if first.len() == 0 {
            false
        } else if is_ascii_upper(first[0]) {
            false
        } else if spec_screaming(last) {
            false
        } else if last.len() == 0 {
            false
        } else if is_ascii_upper(last[0]) {
            false
        } else if second_to_last.len() > 0 && is_ascii_upper(second_to_last[0]) {
            false
        } else if first == "std"@ || first == "core"@ || first == "alloc"@ {
            true
        } else if segs.len() >= 3 && is_ascii_lower(first[0]) {
            true
        } else {
            false
        }
    }
}

/// What the issue reported for an extractable path holds: the path's
/// position, a message naming the joined path, and a fix that adds the
/// import and replaces the path by its last segment.
pub open spec fn spec_path_issue(issue: Issue, segs: Seq<Seq<char>>, line: int, column: int) -> bool {
    let path = spec_join(segs, "::"@);
    let name = segs[segs.len() - 1];
    &&& issue.line == line
    &&& issue.column == column
    &&& issue.message@ == "Use import instead of path: "@ + path
    &&& issue.fix is WithImport
    &&& issue.fix->import@ == "use "@ + path + ";"@
    &&& issue.fix->pattern@ == path
    &&& issue.fix->replacement@ == name
}

fn is_upper_char(c: char) -> (r: bool)
    ensures
        r == is_ascii_upper(c),
{
    (c as u32) >= 65 && (c as u32) <= 90
}

fn is_lower_char(c: char) -> (r: bool)
    ensures
        r == is_ascii_lower(c),
{
    (c as u32) >= 97 && (c as u32) <= 122
}

fn is_digit_char(c: char) -> (r: bool)
    ensures
        r == is_ascii_digit(c),
{
    (c as u32) >= 48 && (c as u32) <= 57
}

impl PathImportAnalyzer {
    /// Create new path import analyzer instance.
    pub fn new() -> (r: PathImportAnalyzer) {
        PathImportAnalyzer
    }

    /// The analyzer's stable identifier.
    pub fn name(&self) -> (r: &'static str)
        ensures
            r@ == "path_import"@,
    {
        "path_import"
    }

    /// Checks if an identifier is written as a screaming-case constant:
    /// uppercase letters, underscores and digits only.
    pub fn is_screaming_snake_case(s: &str) -> (r: bool)
        ensures
            r == spec_screaming(s@),
    {
        let n = s.unicode_len();
        let mut i: usize = 0;
        while i < n
            invariant
                i <= n,
                n == s@.len(),
                forall|k: int|
                    0 <= k < i ==> is_ascii_upper(#[trigger] s@[k]) || s@[k] == '_'
                        || is_ascii_digit(s@[k]),
            decreases n - i,
        {
            let c = s.get_char(i);
            if !(is_upper_char(c) || c == '_' || is_digit_char(c)) {
                return false;
            }
            i = i + 1;
        }
        true
    }

    /// Checks if a name is a standard-library root module.
    pub fn is_stdlib_root(name: &str) -> (r: bool)
        ensures
            r == (name@ == "std"@ || name@ == "core"@ || name@ == "alloc"@),
    {
        str_eq(name, "std") || str_eq(name, "core") || str_eq(name, "alloc")
    }

    /// Decides whether a path, given as its segment names, represents a
    /// free function that should be imported rather than called through
    /// its full path.
    pub fn should_extract_to_import(segments: &Vec<String>) -> (r: bool)
        ensures
            r == spec_should_extract(segments@.map_values(|s: String| s@)),
    {
        let ghost segs = segments@.map_values(|s: String| s@);
        let n = segments.len();
        if n < 2 {
            return false;
        }
        let first = &segments[0];
        if first.unicode_len() == 0 {
            return false;
        }
        if is_upper_char(first.as_str().get_char(0)) {
            return false;
        }
        let last = &segments[n - 1];
        if Self::is_screaming_snake_case(last.as_str()) {
            return false;
        }
        if last.unicode_len() == 0 {
            return false;
        }
        if is_upper_char(last.as_str().get_char(0)) {
            return false;
        }
        let second_to_last = &segments[n - 2];
        if second_to_last.unicode_len() > 0 && is_upper_char(second_to_last.as_str().get_char(0)) {
            return false;
        }
        if Self::is_stdlib_root(first.as_str()) {
            return true;
        }
        if n >= 3 && is_lower_char(first.as_str().get_char(0)) {
            return true;
        }
        false
    }

    /// Builds the issue for a path found at a position: nothing for a
    /// path that should stay, else an issue whose fix adds an import for
    /// the full path and replaces the path by its bare last segment.
    pub fn issue_for_path(segments: &Vec<String>, line: usize, column: usize) -> (r: Option<
        Issue,
    >)
        ensures
            r is Some <==> spec_should_extract(segments@.map_values(|s: String| s@)),
            match r {
                Some(issue) => spec_path_issue(
                    issue,
                    segments@.map_values(|s: String| s@),
                    line as int,
                    column as int,
                ),
                None => true,
            },
    {
        if !Self::should_extract_to_import(segments) {
            return None;
        }
        let path_str = join_with(segments, "::");
        let function_name = segments[segments.len() - 1].clone();
        let mut message = "Use import instead of path: ".to_owned();
        message.append(path_str.as_str());
        let mut import = "use ".to_owned();
        import.append(path_str.as_str());
        import.append(";");
        Some(
            Issue {
                line,
                column,
                message,
                fix: Fix::WithImport {
                    import,
                    pattern: path_str,
                    replacement: function_name,
                },
            },
        )
    }
}

impl Default for PathImportAnalyzer {
    /// The analyzer, as its default instance.
    fn default() -> (r: PathImportAnalyzer) {
        PathImportAnalyzer::new()
    }
}

} // verus!
