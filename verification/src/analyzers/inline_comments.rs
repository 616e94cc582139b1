//! Inline-comment analyzer: flags `//` comments inside function bodies
//! and suggests moving each into the doc block, quoting the code line the
//! comment belongs to.

use vstd::prelude::*;

use crate::analyzer::Fix;
use crate::analyzer::Issue;
use crate::strutil::spec_strip_prefix_all;
use crate::strutil::spec_trim;
use crate::strutil::starts_with;
use crate::strutil::strip_prefix_all;
use crate::strutil::trim_ascii;

verus! {

/// Analyzer for detecting inline comments inside functions and methods.
pub struct InlineCommentsAnalyzer;

/// A line the analyzer flags: its trimmed text is a plain `//` comment,
/// not a `///` doc comment.
pub open spec fn spec_is_inline_comment(l: Seq<char>) -> bool {
    let t = spec_trim(l);
    "//"@.is_prefix_of(t) && !("///"@.is_prefix_of(t))
}

/// The comment's own text: the trimmed line without its leading slashes,
/// trimmed again.
pub open spec fn spec_comment_text(l: Seq<char>) -> Seq<char> {
    spec_trim(spec_strip_prefix_all(spec_trim(l), "//"@))
}

/// The code line a comment describes: the next line, skipping blank lines
/// and further comments, that does not start with a closing brace.
pub open spec fn spec_related_code(ls: Seq<Seq<char>>, j: int) -> Option<(int, Seq<char>)>
    decreases ls.len() - j,
{
    if j < 0 || j >= ls.len() {
        None
    } else {
        let t = spec_trim(ls[j]);
        if t.len() == 0 || "//"@.is_prefix_of(t) {
            spec_related_code(ls, j + 1)
        } else if !("}"@.is_prefix_of(t)) {
            Some((j, ls[j]))
        } else {
            spec_related_code(ls, j + 1)
        }
    }
}

/// The line numbers inside `[start, end)` whose line is an inline comment.
pub open spec fn spec_comment_lines(ls: Seq<Seq<char>>, start: int, end: int) -> Seq<int> {
    if start >= end {
        Seq::empty()
    } else {
        Seq::new((end - start) as nat, |i: int| start + i).filter(
            |ln: int| spec_comment_flagged(ls, ln),
        )
    }
}

/// A line number inside the block whose line holds an inline comment.
pub open spec fn spec_comment_flagged(ls: Seq<Seq<char>>, line_num: int) -> bool {
    let idx = if line_num >= 1 {
        line_num - 1
    } else {
        0
    };
    idx < ls.len() && spec_is_inline_comment(ls[idx])
}

/// The message reported for a comment at 0-based index `idx`.
pub open spec fn spec_comment_message(ls: Seq<Seq<char>>, idx: int) -> Seq<char> {
    let comment = spec_comment_text(ls[idx]);
    let suggestion = match spec_related_code(ls, idx + 1) {
        Some(rc) => "Move to doc block # Notes section:\n/// - "@ + comment + " - `"@ + spec_trim(
            rc.1,
        ) + "`"@,
        None => "Move to doc block # Notes section:\n/// - "@ + comment,
    };
    "Inline comment found: \""@ + comment + "\"\n"@ + suggestion
}

/// What each reported issue holds.
pub open spec fn spec_comment_issue(ls: Seq<Seq<char>>, issue: Issue, line_num: int) -> bool {
    let idx = if line_num >= 1 {
        line_num - 1
    } else {
        0
    };
    &&& issue.line == line_num
    &&& issue.column == 1
    &&& issue.message@ == spec_comment_message(ls, idx)
    &&& issue.fix is Unavailable
}

impl InlineCommentsAnalyzer {
    /// Create new inline comments analyzer instance.
    pub fn new() -> (r: InlineCommentsAnalyzer) {
        InlineCommentsAnalyzer
    }

    /// The analyzer's stable identifier.
    pub fn name(&self) -> (r: &'static str)
        ensures
            r@ == "inline_comments"@,
    {
        "inline_comments"
    }

    /// Checks the body lines `[start_line, end_line)` for inline comments,
    /// reporting one unfixable issue per `//` line with a suggestion that
    /// quotes the code line the comment belongs to.
    pub fn check_block(start_line: usize, end_line: usize, lines: &Vec<String>) -> (r: Vec<Issue>)
        ensures
            r@.len() == spec_comment_lines(
                lines@.map_values(|l: String| l@),
                start_line as int,
                end_line as int,
            ).len(),
            forall|k: int|
                0 <= k < r@.len() ==> spec_comment_issue(
                    lines@.map_values(|l: String| l@),
                    r@[k],
                    spec_comment_lines(
                        lines@.map_values(|l: String| l@),
                        start_line as int,
                        end_line as int,
                    )[k],
                ),
    {
        let ghost ls = lines@.map_values(|l: String| l@);
        let mut issues: Vec<Issue> = Vec::new();
        if start_line >= end_line {
            return issues;
        }
        let mut line_num: usize = start_line;
        proof {
            reveal(Seq::filter);
            assert(Seq::new(0 as nat, |i: int| start_line as int + i).filter(
                |ln: int| spec_comment_flagged(ls, ln),
            ) =~= Seq::<int>::empty());
        }
        while line_num < end_line
            invariant
                start_line <= line_num <= end_line,
                start_line < end_line,
                ls == lines@.map_values(|l: String| l@),
                issues@.len() == Seq::new(
                    (line_num - start_line) as nat,
                    |i: int| start_line as int + i,
                ).filter(|ln: int| spec_comment_flagged(ls, ln)).len(),
                forall|k: int|
                    0 <= k < issues@.len() ==> spec_comment_issue(
                        ls,
                        issues@[k],
                        Seq::new(
                            (line_num - start_line) as nat,
                            |i: int| start_line as int + i,
                        ).filter(|ln: int| spec_comment_flagged(ls, ln))[k],
                    ),
            decreases end_line - line_num,
        {
            let idx: usize = if line_num >= 1 {
                line_num - 1
            } else {
                0
            };
            proof {
                reveal(Seq::filter);
                let range_next = Seq::new(
                    (line_num + 1 - start_line) as nat,
                    |i: int| start_line as int + i,
                );
                let range_prev = Seq::new(
                    (line_num - start_line) as nat,
                    |i: int| start_line as int + i,
                );
                assert(range_next.drop_last() =~= range_prev);
                assert(range_next.last() == line_num as int);
            }
            let mut flagged = false;
            if idx < lines.len() {
                let trimmed = trim_ascii(lines[idx].as_str());
                if starts_with(trimmed.as_str(), "//") && !starts_with(trimmed.as_str(), "///") {
                    flagged = true;
                }
            }
            proof {
                assert(flagged == spec_comment_flagged(ls, line_num as int));
            }
            if flagged {
                let message = comment_message(lines, idx);
                issues.push(
                    Issue { line: line_num, column: 1, message, fix: Fix::Unavailable },
                );
            }
            line_num = line_num + 1;
        }
        issues
    }

    /// Finds the code line that a comment at 0-based `comment_idx`
    /// describes: the next non-blank, non-comment line that does not
    /// start with a closing brace.
    pub fn find_related_code_line(lines: &Vec<String>, comment_idx: usize) -> (r: Option<
        (usize, String),
    >)
        ensures
            match r {
                Some(p) => comment_idx < usize::MAX && spec_related_code(
                    lines@.map_values(|l: String| l@),
                    comment_idx as int + 1,
                ) == Some((p.0 as int, p.1@)),
                None => spec_related_code(
                    lines@.map_values(|l: String| l@),
                    comment_idx as int + 1,
                ) is None || comment_idx == usize::MAX,
            },
    {
        if comment_idx == usize::MAX {
            return None;
        }
        related_from(lines, comment_idx + 1)
    }
}

fn related_from(lines: &Vec<String>, j: usize) -> (r: Option<(usize, String)>)
    ensures
        match r {
            Some(p) => spec_related_code(lines@.map_values(|l: String| l@), j as int) == Some(
                (p.0 as int, p.1@),
            ),
            None => spec_related_code(lines@.map_values(|l: String| l@), j as int) is None,
        },
    decreases lines@.len() - j,
{
    if j >= lines.len() {
        return None;
    }
    let trimmed = trim_ascii(lines[j].as_str());
    if trimmed.unicode_len() == 0 || starts_with(trimmed.as_str(), "//") {
        related_from(lines, j + 1)
    } else if !starts_with(trimmed.as_str(), "}") {
        Some((j, lines[j].clone()))
    } else {
        related_from(lines, j + 1)
    }
}

fn comment_message(lines: &Vec<String>, idx: usize) -> (r: String)
    requires
        idx < lines@.len(),
        idx < usize::MAX,
    ensures
        r@ == spec_comment_message(lines@.map_values(|l: String| l@), idx as int),
{
    let trimmed = trim_ascii(lines[idx].as_str());
    let stripped = strip_prefix_all(trimmed.as_str(), "//");
    let comment = trim_ascii(stripped.as_str());
    let related = related_from(lines, idx + 1);
    let mut r = "Inline comment found: \"".to_owned();
    r.append(comment.as_str());
    r.append("\"\n");
    let ghost base = r@;
    match related {
        Some(p) => {
            let code_trim = trim_ascii(p.1.as_str());
            r.append("Move to doc block # Notes section:\n/// - ");
            r.append(comment.as_str());
            r.append(" - `");
            r.append(code_trim.as_str());
            r.append("`");
            proof {
                let ls2 = lines@.map_values(|l: String| l@);
                assert(spec_related_code(ls2, idx as int + 1) == Some((p.0 as int, p.1@)));
                assert(r@ =~= base + ("Move to doc block # Notes section:\n/// - "@ + comment@
                    + " - `"@ + code_trim@ + "`"@));
                assert(ls2[idx as int] == lines@[idx as int]@);
                assert(comment@ == spec_comment_text(ls2[idx as int]));
                assert(r@ =~= spec_comment_message(ls2, idx as int));
            }
        },
        None => {
            r.append("Move to doc block # Notes section:\n/// - ");
            r.append(comment.as_str());
            proof {
                let ls2 = lines@.map_values(|l: String| l@);
                assert(spec_related_code(ls2, idx as int + 1) is None);
                assert(r@ =~= base + ("Move to doc block # Notes section:\n/// - "@ + comment@));
                assert(ls2[idx as int] == lines@[idx as int]@);
                assert(comment@ == spec_comment_text(ls2[idx as int]));
                assert(r@ =~= spec_comment_message(ls2, idx as int));
            }
        },
    }
    r
}

impl Default for InlineCommentsAnalyzer {
    /// The analyzer, as its default instance.
    fn default() -> (r: InlineCommentsAnalyzer) {
        InlineCommentsAnalyzer::new()
    }
}

} // verus!
