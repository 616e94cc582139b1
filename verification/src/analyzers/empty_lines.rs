//! Empty-line analyzer: flags blank lines inside function bodies, leaving
//! alone blanks at the body's edges, right after an opening brace or right
//! before a closing one.

use vstd::prelude::*;

use crate::analyzer::Fix;
use crate::analyzer::Issue;
use crate::strutil::is_blank;
use crate::strutil::spec_is_blank;
use crate::strutil::spec_trim;
use crate::strutil::trim_ascii;

verus! {

/// Analyzer for detecting empty lines inside functions and methods.
pub struct EmptyLinesAnalyzer;

/// The previous line, trimmed, ends with an opening brace.
pub open spec fn spec_after_open(ls: Seq<Seq<char>>, idx: int) -> bool {
    idx >= 1 && idx - 1 < ls.len() && {
        let t = spec_trim(ls[idx - 1]);
        t.len() > 0 && t[t.len() - 1] == '{'
    }
}

/// The next line, trimmed, starts with a closing brace.
pub open spec fn spec_before_close(ls: Seq<Seq<char>>, idx: int) -> bool {
    idx + 1 < ls.len() && {
        let t = spec_trim(ls[idx + 1]);
        t.len() > 0 && t[0] == '}'
    }
}

/// A line inside the block that the analyzer flags: blank, not at the
/// block's edges, and not hugging a brace.
pub open spec fn spec_flags_line(ls: Seq<Seq<char>>, start: int, end: int, line_num: int) -> bool {
    let idx = if line_num >= 1 {
        line_num - 1
    } else {
        0
    };
    &&& idx < ls.len()
    &&& spec_is_blank(ls[idx])
    &&& line_num != start
    &&& line_num != end - 1
    &&& !spec_after_open(ls, idx)
    &&& !spec_before_close(ls, idx)
}

/// The line numbers the analyzer flags inside `[start, end)`.
pub open spec fn spec_flagged_lines(ls: Seq<Seq<char>>, start: int, end: int) -> Seq<int> {
    if start >= end {
        Seq::empty()
    } else {
        Seq::new((end - start) as nat, |i: int| start + i).filter(
            |ln: int| spec_flags_line(ls, start, end, ln),
        )
    }
}

/// What each reported issue holds: the flagged line, column one, the
/// fixed message, and a whole-line replacement by an empty line.
pub open spec fn spec_empty_line_issue(issue: Issue, line_num: int) -> bool {
    &&& issue.line == line_num
    &&& issue.column == 1
    &&& issue.message@ == "Empty line in function body indicates untamed complexity"@
    &&& issue.fix is Simple
    &&& issue.fix->Simple_0@ == Seq::<char>::empty()
}

impl EmptyLinesAnalyzer {
    /// Create new empty lines analyzer instance.
    pub fn new() -> (r: EmptyLinesAnalyzer) {
        EmptyLinesAnalyzer
    }

    /// The analyzer's stable identifier.
    pub fn name(&self) -> (r: &'static str)
        ensures
            r@ == "empty_lines"@,
    {
        "empty_lines"
    }

    /// Checks the body lines `[start_line, end_line)` for empty lines,
    /// reporting one issue per blank line that is neither at the body's
    /// edges nor right after an opening or before a closing brace.
    pub fn check_block(start_line: usize, end_line: usize, lines: &Vec<String>) -> (r: Vec<Issue>)
        ensures
            r@.len() == spec_flagged_lines(
                lines@.map_values(|l: String| l@),
                start_line as int,
                end_line as int,
            ).len(),
            forall|k: int|
                0 <= k < r@.len() ==> spec_empty_line_issue(
                    r@[k],
                    spec_flagged_lines(
                        lines@.map_values(|l: String| l@),
                        start_line as int,
                        end_line as int,
                    )[k],
                ),
    {
        let ghost ls = lines@.map_values(|l: String| l@);
        let mut issues: Vec<Issue> = Vec::new();
        if start_line >= end_line {
            return issues;
        }
        let mut line_num: usize = start_line;
        proof {
            reveal(Seq::filter);
            assert(Seq::new(0 as nat, |i: int| start_line as int + i).filter(
                |ln: int| spec_flags_line(ls, start_line as int, end_line as int, ln),
            ) =~= Seq::<int>::empty());
        }
        while line_num < end_line
            invariant
                start_line <= line_num <= end_line,
                start_line < end_line,
                ls == lines@.map_values(|l: String| l@),
                issues@.len() == Seq::new(
                    (line_num - start_line) as nat,
                    |i: int| start_line as int + i,
                ).filter(|ln: int| spec_flags_line(ls, start_line as int, end_line as int, ln)).len(),
                forall|k: int|
                    0 <= k < issues@.len() ==> spec_empty_line_issue(
                        issues@[k],
                        Seq::new(
                            (line_num - start_line) as nat,
                            |i: int| start_line as int + i,
                        ).filter(
                            |ln: int| spec_flags_line(ls, start_line as int, end_line as int, ln),
                        )[k],
                    ),
            decreases end_line - line_num,
        {
            let idx: usize = if line_num >= 1 {
                line_num - 1
            } else {
                0
            };
            proof {
                let range_next = Seq::new(
                    (line_num + 1 - start_line) as nat,
                    |i: int| start_line as int + i,
                );
                let range_prev = Seq::new(
                    (line_num - start_line) as nat,
                    |i: int| start_line as int + i,
                );
                assert(range_next.drop_last() =~= range_prev);
                assert(range_next.last() == line_num as int);
                assert(range_next =~= range_prev.push(line_num as int));
            }
            let mut flagged = false;
            if idx < lines.len() && is_blank(lines[idx].as_str()) {
                let is_first = line_num == start_line;
                let is_last = line_num == end_line - 1;
                if !is_first && !is_last {
                    let after_open = check_after_open(lines, idx);
                    let before_close = check_before_close(lines, idx);
                    if !after_open && !before_close {
                        flagged = true;
                    }
                }
            }
            proof {
                assert(flagged == spec_flags_line(
                    ls,
                    start_line as int,
                    end_line as int,
                    line_num as int,
                ));
                lemma_range_filter_push(
                    ls,
                    start_line as int,
                    end_line as int,
                    line_num as int,
                );
            }
            if flagged {
                issues.push(
                    Issue {
                        line: line_num,
                        column: 1,
                        message: "Empty line in function body indicates untamed complexity"
                            .to_owned(),
                        fix: Fix::Simple(String::new()),
                    },
                );
            }
            line_num = line_num + 1;
        }
        issues
    }

    /// Checks whether the line at `idx` stands right after an opening
    /// brace, handling both same-line and next-line brace styles.
    pub fn is_after_opening_brace(lines: &Vec<String>, idx: usize) -> (r: bool)
        ensures
            r == spec_after_open(lines@.map_values(|l: String| l@), idx as int),
    {
        check_after_open(lines, idx)
    }

    /// Checks whether the line at `idx` stands right before a closing
    /// brace, handling both same-line and next-line brace styles.
    pub fn is_before_closing_brace(lines: &Vec<String>, idx: usize) -> (r: bool)
        ensures
            r == spec_before_close(lines@.map_values(|l: String| l@), idx as int),
    {
        check_before_close(lines, idx)
    }
}

proof fn lemma_range_filter_push(ls: Seq<Seq<char>>, start: int, end: int, ln: int)
    requires
        start <= ln,
    ensures
        Seq::new((ln + 1 - start) as nat, |i: int| start + i).filter(
            |l: int| spec_flags_line(ls, start, end, l),
        ) == if spec_flags_line(ls, start, end, ln) {
            Seq::new((ln - start) as nat, |i: int| start + i).filter(
                |l: int| spec_flags_line(ls, start, end, l),
            ).push(ln)
        } else {
            Seq::new((ln - start) as nat, |i: int| start + i).filter(
                |l: int| spec_flags_line(ls, start, end, l),
            )
        },
{
    reveal(Seq::filter);
    let range_next = Seq::new((ln + 1 - start) as nat, |i: int| start + i);
    let range_prev = Seq::new((ln - start) as nat, |i: int| start + i);
    assert(range_next.drop_last() =~= range_prev);
    assert(range_next.last() == ln);
}

fn check_after_open(lines: &Vec<String>, idx: usize) -> (r: bool)
    ensures
        r == spec_after_open(lines@.map_values(|l: String| l@), idx as int),
{
    if idx == 0 {
        return false;
    }
    let prev_idx = idx - 1;
    if prev_idx < lines.len() {
        let trimmed = trim_ascii(lines[prev_idx].as_str());
        let n = trimmed.unicode_len();
        if n > 0 && trimmed.as_str().get_char(n - 1) == '{' {
            return true;
        }
        false
    } else {
        false
    }
}

fn check_before_close(lines: &Vec<String>, idx: usize) -> (r: bool)
    ensures
        r == spec_before_close(lines@.map_values(|l: String| l@), idx as int),
{
    if lines.len() >= 1 && idx < lines.len() - 1 {
        let next_idx = idx + 1;
        let trimmed = trim_ascii(lines[next_idx].as_str());
        let n = trimmed.unicode_len();
        if n > 0 && trimmed.as_str().get_char(0) == '}' {
            return true;
        }
        false
    } else {
        false
    }
}

impl Default for EmptyLinesAnalyzer {
    /// The analyzer, as its default instance.
    fn default() -> (r: EmptyLinesAnalyzer) {
        EmptyLinesAnalyzer::new()
    }
}

} // verus!
