//! Report formatting for analysis results: per-file reports that group
//! issues by analyzer, and a global report that aggregates and renders
//! them, verbosely or compactly in terminal columns.

use vstd::prelude::*;

use crate::analyzer::AnalysisResult;
use crate::analyzer::Fix;
use crate::analyzer::Issue;
use crate::differ::display::formatting::measure_width;
use crate::differ::display::formatting::visible_width;
use crate::differ::display::render::maybe_styled;
use crate::differ::display::render::note_width;
use crate::differ::display::render::spec_grow;
use crate::differ::display::render::spec_grow_all;
use crate::differ::display::render::spec_maybe_styled;
use crate::differ::display::render::lemma_grow_all_push_pub;
use crate::strutil::join_with;
use crate::strutil::repeat_str;
use crate::strutil::spec_decimal;
use crate::strutil::spec_join;
use crate::strutil::spec_repeat;
use crate::strutil::usize_to_string;
use crate::style::spec_styled;
use crate::style::styled;

verus! {

/// Report for one analyzed file: the path and each analyzer's results.
pub struct Report {
    /// File path being analyzed.
    pub file_path: String,
    /// Analysis results by analyzer name, in the order they were added.
    pub results: Vec<(String, AnalysisResult)>,
}

/// The issues of all results, counted.
pub open spec fn spec_total_issues(results: Seq<(String, AnalysisResult)>) -> int
    decreases results.len(),
{
    if results.len() == 0 {
        0
    } else {
        spec_total_issues(results.drop_last()) + results.last().1.issues@.len()
    }
}

/// The fixable counts of all results, summed.
pub open spec fn spec_total_fixable(results: Seq<(String, AnalysisResult)>) -> int
    decreases results.len(),
{
    if results.len() == 0 {
        0
    } else {
        spec_total_fixable(results.drop_last()) + results.last().1.fixable_count
    }
}

proof fn lemma_totals_nonneg(results: Seq<(String, AnalysisResult)>, k: int)
    requires
        0 <= k <= results.len(),
    ensures
        spec_total_issues(results.subrange(0, k)) >= 0,
        spec_total_fixable(results.subrange(0, k)) >= 0,
    decreases k,
{
    if k > 0 {
        lemma_totals_nonneg(results, k - 1);
        assert(results.subrange(0, k).drop_last() =~= results.subrange(0, k - 1));
    }
}

proof fn lemma_totals_prefix(results: Seq<(String, AnalysisResult)>, k: int)
    requires
        0 <= k <= results.len(),
    ensures
        spec_total_issues(results.subrange(0, k)) <= spec_total_issues(results),
        spec_total_fixable(results.subrange(0, k)) <= spec_total_fixable(results),
        spec_total_issues(results.subrange(0, k)) >= 0,
        spec_total_fixable(results.subrange(0, k)) >= 0,
    decreases results.len() - k,
{
    lemma_totals_nonneg(results, k);
    if k == results.len() {
        assert(results.subrange(0, k) =~= results);
    } else {
        lemma_totals_prefix(results, k + 1);
        assert(results.subrange(0, k + 1).drop_last() =~= results.subrange(0, k));
        assert(results.subrange(0, k + 1).last() == results[k]);
    }
}

/// The rendered text of one issue: its position and message, then the
/// fix, where one is available.
pub open spec fn spec_issue_text(issue: Issue) -> Seq<char> {
    "  "@ + spec_decimal(issue.line as nat) + ":"@ + spec_decimal(issue.column as nat) + " - "@
        + issue.message@ + (match issue.fix {
        Fix::WithImport { import, pattern: _, replacement: _ } => "\n    Fix: Add import: "@
            + import@ + "\n    (Will replace path with short name)"@,
        Fix::Simple(text) => "\n    Fix: "@ + text@,
        Fix::Unavailable => Seq::<char>::empty(),
    }) + "\n"@
}

/// The rendered text of a list of issues.
pub open spec fn spec_issues_text(issues: Seq<Issue>) -> Seq<char>
    decreases issues.len(),
{
    if issues.len() == 0 {
        Seq::empty()
    } else {
        spec_issues_text(issues.drop_last()) + spec_issue_text(issues.last())
    }
}

/// The rendered section of one analyzer: nothing when it found no issues.
pub open spec fn spec_section_text(name: Seq<char>, result: AnalysisResult) -> Seq<char> {
    if result.issues@.len() == 0 {
        Seq::empty()
    } else {
        "\n["@ + name + "]\n"@ + spec_issues_text(result.issues@)
    }
}

/// The rendered sections of all results, in order.
pub open spec fn spec_sections_text(results: Seq<(String, AnalysisResult)>) -> Seq<char>
    decreases results.len(),
{
    if results.len() == 0 {
        Seq::empty()
    } else {
        spec_sections_text(results.drop_last()) + spec_section_text(
            results.last().0@,
            results.last().1,
        )
    }
}

/// The whole report text: heading, the non-empty analyzer sections, and
/// the totals.
pub open spec fn spec_report_text(rep: Report) -> Seq<char> {
    "Quality report for: "@ + rep.file_path@ + "\n"@ + "=\n"@ + spec_sections_text(rep.results@)
        + "\nTotal issues: "@ + spec_decimal(spec_total_issues(rep.results@) as nat)
        + "\nFixable: "@ + spec_decimal(spec_total_fixable(rep.results@) as nat) + "\n"@
}

impl Report {
    /// Create new report for a file.
    pub fn new(file_path: String) -> (r: Report)
        ensures
            r.file_path@ == file_path@,
            r.results@.len() == 0,
    {
        Report { file_path, results: Vec::new() }
    }

    /// Add analysis result from an analyzer.
    pub fn add_result(&mut self, analyzer_name: String, result: AnalysisResult)
        ensures
            final(self).file_path == old(self).file_path,
            final(self).results@.len() == old(self).results@.len() + 1,
            final(self).results@ == old(self).results@.push((analyzer_name, result)),
    {
        self.results.push((analyzer_name, result));
    }

    /// Calculate total issues across all analyzers.
    pub fn total_issues(&self) -> (r: usize)
        requires
            spec_total_issues(self.results@) <= usize::MAX,
        ensures
            r == spec_total_issues(self.results@),
    {
        let mut sum: usize = 0;
        let n = self.results.len();
        let mut i: usize = 0;
        proof {
            assert(self.results@.subrange(0, 0) =~= Seq::<(String, AnalysisResult)>::empty());
        }
        while i < n
            invariant
                i <= n,
                n == self.results@.len(),
                sum == spec_total_issues(self.results@.subrange(0, i as int)),
                spec_total_issues(self.results@) <= usize::MAX,
            decreases n - i,
        {
            proof {
                lemma_totals_prefix(self.results@, i as int + 1);
                assert(self.results@.subrange(0, i as int + 1).drop_last() =~= self.results@
                    .subrange(0, i as int));
                assert(self.results@.subrange(0, i as int + 1).last() == self.results@[i as int]);
            }
            sum = sum + self.results[i].1.issues.len();
            i = i + 1;
        }
        proof {
            assert(self.results@.subrange(0, n as int) =~= self.results@);
        }
        sum
    }

    /// Calculate total fixable issues across all analyzers.
    pub fn total_fixable(&self) -> (r: usize)
        requires
            spec_total_fixable(self.results@) <= usize::MAX,
        ensures
            r == spec_total_fixable(self.results@),
    {
        let mut sum: usize = 0;
        let n = self.results.len();
        let mut i: usize = 0;
        proof {
            assert(self.results@.subrange(0, 0) =~= Seq::<(String, AnalysisResult)>::empty());
        }
        while i < n
            invariant
                i <= n,
                n == self.results@.len(),
                sum == spec_total_fixable(self.results@.subrange(0, i as int)),
                spec_total_fixable(self.results@) <= usize::MAX,
            decreases n - i,
        {
            proof {
                lemma_totals_prefix(self.results@, i as int + 1);
                assert(self.results@.subrange(0, i as int + 1).drop_last() =~= self.results@
                    .subrange(0, i as int));
                assert(self.results@.subrange(0, i as int + 1).last() == self.results@[i as int]);
            }
            sum = sum + self.results[i].1.fixable_count;
            i = i + 1;
        }
        proof {
            assert(self.results@.subrange(0, n as int) =~= self.results@);
        }
        sum
    }

    /// Renders the report as text: the heading, one section per analyzer
    /// with issues, each issue with its position, message and available
    /// fix, and the totals.
    pub fn render(&self) -> (r: String)
        requires
            spec_total_issues(self.results@) <= usize::MAX,
            spec_total_fixable(self.results@) <= usize::MAX,
        ensures
            r@ == spec_report_text(*self),
    {
        let mut r = "Quality report for: ".to_owned();
        r.append(self.file_path.as_str());
        r.append("\n");
        r.append("=\n");
        let n = self.results.len();
        let mut i: usize = 0;
        let ghost heading = r@;
        proof {
            assert(self.results@.subrange(0, 0) =~= Seq::<(String, AnalysisResult)>::empty());
            assert(r@ =~= heading + spec_sections_text(self.results@.subrange(0, 0)));
        }
        while i < n
            invariant
                i <= n,
                n == self.results@.len(),
                r@ == heading + spec_sections_text(self.results@.subrange(0, i as int)),
            decreases n - i,
        {
            proof {
                assert(self.results@.subrange(0, i as int + 1).drop_last() =~= self.results@
                    .subrange(0, i as int));
                assert(self.results@.subrange(0, i as int + 1).last() == self.results@[i as int]);
            }
            let pair = &self.results[i];
            if pair.1.issues.len() > 0 {
                r.append("\n[");
                r.append(pair.0.as_str());
                r.append("]\n");
                let ghost before_issues = r@;
                let m = pair.1.issues.len();
                let mut j: usize = 0;
                proof {
                    assert(pair.1.issues@.subrange(0, 0) =~= Seq::<Issue>::empty());
                    assert(r@ =~= before_issues + spec_issues_text(
                        pair.1.issues@.subrange(0, 0),
                    ));
                }
                while j < m
                    invariant
                        j <= m,
                        i < n,
                        n == self.results@.len(),
                        m == self.results@[i as int].1.issues@.len(),
                        pair == self.results@[i as int],
                        r@ == before_issues + spec_issues_text(
                            self.results@[i as int].1.issues@.subrange(0, j as int),
                        ),
                    decreases m - j,
                {
                    proof {
                        let issues = self.results@[i as int].1.issues@;
                        assert(issues.subrange(0, j as int + 1).drop_last() =~= issues.subrange(
                            0,
                            j as int,
                        ));
                        assert(issues.subrange(0, j as int + 1).last() == issues[j as int]);
                    }
                    let issue = &pair.1.issues[j];
                    let ghost line_start = r@;
                    r.append("  ");
                    let ln = usize_to_string(issue.line);
                    r.append(ln.as_str());
                    r.append(":");
                    let col = usize_to_string(issue.column);
                    r.append(col.as_str());
                    r.append(" - ");
                    r.append(issue.message.as_str());
                    match &issue.fix {
                        Fix::WithImport { import, pattern: _, replacement: _ } => {
                            r.append("\n    Fix: Add import: ");
                            r.append(import.as_str());
                            r.append("\n    (Will replace path with short name)");
                        },
                        Fix::Simple(text) => {
                            r.append("\n    Fix: ");
                            r.append(text.as_str());
                        },
                        Fix::Unavailable => {},
                    }
                    r.append("\n");
                    proof {
                        assert(r@ =~= line_start + spec_issue_text(
                            self.results@[i as int].1.issues@[j as int],
                        ));
                    }
                    j = j + 1;
                }
                proof {
                    let issues = self.results@[i as int].1.issues@;
                    assert(issues.subrange(0, m as int) =~= issues);
                    assert(r@ =~= heading + spec_sections_text(
                        self.results@.subrange(0, i as int),
                    ) + spec_section_text(
                        self.results@[i as int].0@,
                        self.results@[i as int].1,
                    ));
                }
            } else {
                proof {
                    assert(spec_section_text(
                        self.results@[i as int].0@,
                        self.results@[i as int].1,
                    ) =~= Seq::<char>::empty());
                    assert(r@ =~= heading + spec_sections_text(
                        self.results@.subrange(0, i as int),
                    ) + spec_section_text(
                        self.results@[i as int].0@,
                        self.results@[i as int].1,
                    ));
                }
            }
            proof {
                assert(r@ =~= heading + spec_sections_text(
                    self.results@.subrange(0, i as int + 1),
                ));
            }
            i = i + 1;
        }
        proof {
            assert(self.results@.subrange(0, n as int) =~= self.results@);
        }
        r.append("\nTotal issues: ");
        let ti = usize_to_string(self.total_issues());
        r.append(ti.as_str());
        r.append("\nFixable: ");
        let tf = usize_to_string(self.total_fixable());
        r.append(tf.as_str());
        r.append("\n");
        proof {
            assert(r@ =~= spec_report_text(*self));
        }
        r
    }
}

/// Global report aggregator across multiple files.
pub struct GlobalReport {
    /// Collection of per-file reports.
    pub reports: Vec<Report>,
}

/// The issue counts of all reports, summed.
pub open spec fn spec_global_issues(reports: Seq<Report>) -> int
    decreases reports.len(),
{
    if reports.len() == 0 {
        0
    } else {
        spec_global_issues(reports.drop_last()) + spec_total_issues(reports.last().results@)
    }
}

/// The fixable counts of all reports, summed.
pub open spec fn spec_global_fixable(reports: Seq<Report>) -> int
    decreases reports.len(),
{
    if reports.len() == 0 {
        0
    } else {
        spec_global_fixable(reports.drop_last()) + spec_total_fixable(reports.last().results@)
    }
}

/// Every per-report total is nonnegative.
proof fn lemma_report_totals_nonneg(results: Seq<(String, AnalysisResult)>)
    ensures
        spec_total_issues(results) >= 0,
        spec_total_fixable(results) >= 0,
    decreases results.len(),
{
    if results.len() > 0 {
        lemma_report_totals_nonneg(results.drop_last());
    }
}

/// The totals block closing a global rendering.
pub open spec fn spec_totals_block(issues: nat, fixable: nat, color: bool) -> Seq<char> {
    if color {
        "\n"@ + spec_styled("1;32"@, "Total issues"@) + ": "@ + spec_styled(
            "1;32"@,
            spec_decimal(issues),
        ) + "\n"@ + spec_styled("1;32"@, "Fixable"@) + ": "@ + spec_styled(
            "1;32"@,
            spec_decimal(fixable),
        ) + "\n"@
    } else {
        "\nTotal issues: "@ + spec_decimal(issues) + "\nFixable: "@ + spec_decimal(fixable)
            + "\n"@
    }
}

/// The verbose global rendering: every report's text, then the totals.
pub open spec fn spec_global_verbose(reports: Seq<Report>, color: bool) -> Seq<char>
    decreases reports.len(),
{
    if reports.len() == 0 {
        Seq::empty()
    } else {
        spec_global_verbose(reports.drop_last(), color) + spec_report_text(reports.last())
    }
}

impl GlobalReport {
    /// Create new global report.
    pub fn new() -> (r: GlobalReport)
        ensures
            r.reports@.len() == 0,
    {
        GlobalReport { reports: Vec::new() }
    }

    /// Add a file report to the global collection.
    pub fn add_report(&mut self, report: Report)
        ensures
            final(self).reports@ == old(self).reports@.push(report),
    {
        self.reports.push(report);
    }

    /// Calculate total issues across all files.
    pub fn total_issues(&self) -> (r: usize)
        requires
            spec_global_issues(self.reports@) <= usize::MAX,
            forall|j: int|
                0 <= j < self.reports@.len() ==> spec_total_issues(
                    (#[trigger] self.reports@[j]).results@,
                ) <= usize::MAX,
        ensures
            r == spec_global_issues(self.reports@),
    {
        let mut sum: usize = 0;
        let n = self.reports.len();
        let mut i: usize = 0;
        proof {
            assert(self.reports@.subrange(0, 0) =~= Seq::<Report>::empty());
        }
        while i < n
            invariant
                i <= n,
                n == self.reports@.len(),
                sum == spec_global_issues(self.reports@.subrange(0, i as int)),
                spec_global_issues(self.reports@) <= usize::MAX,
                forall|j: int|
                    0 <= j < self.reports@.len() ==> spec_total_issues(
                        (#[trigger] self.reports@[j]).results@,
                    ) <= usize::MAX,
            decreases n - i,
        {
            proof {
                assert(self.reports@.subrange(0, i as int + 1).drop_last() =~= self.reports@
                    .subrange(0, i as int));
                assert(self.reports@.subrange(0, i as int + 1).last() == self.reports@[i as int]);
                lemma_report_totals_nonneg(self.reports@[i as int].results@);
                lemma_global_nonneg(self.reports@, i as int + 1);
                lemma_global_bound(self.reports@, i as int + 1);
            }
            let part = self.reports[i].total_issues();
            sum = sum + part;
            i = i + 1;
        }
        proof {
            assert(self.reports@.subrange(0, n as int) =~= self.reports@);
        }
        sum
    }

    /// Calculate total fixable issues across all files.
    pub fn total_fixable(&self) -> (r: usize)
        requires
            spec_global_fixable(self.reports@) <= usize::MAX,
            forall|j: int|
                0 <= j < self.reports@.len() ==> spec_total_fixable(
                    (#[trigger] self.reports@[j]).results@,
                ) <= usize::MAX,
        ensures
            r == spec_global_fixable(self.reports@),
    {
        let mut sum: usize = 0;
        let n = self.reports.len();
        let mut i: usize = 0;
        proof {
            assert(self.reports@.subrange(0, 0) =~= Seq::<Report>::empty());
        }
        while i < n
            invariant
                i <= n,
                n == self.reports@.len(),
                sum == spec_global_fixable(self.reports@.subrange(0, i as int)),
                spec_global_fixable(self.reports@) <= usize::MAX,
                forall|j: int|
                    0 <= j < self.reports@.len() ==> spec_total_fixable(
                        (#[trigger] self.reports@[j]).results@,
                    ) <= usize::MAX,
            decreases n - i,
        {
            proof {
                assert(self.reports@.subrange(0, i as int + 1).drop_last() =~= self.reports@
                    .subrange(0, i as int));
                assert(self.reports@.subrange(0, i as int + 1).last() == self.reports@[i as int]);
                lemma_report_totals_nonneg(self.reports@[i as int].results@);
                lemma_global_fix_nonneg(self.reports@, i as int + 1);
                lemma_global_fix_bound(self.reports@, i as int + 1);
            }
            let part = self.reports[i].total_fixable();
            sum = sum + part;
            i = i + 1;
        }
        proof {
            assert(self.reports@.subrange(0, n as int) =~= self.reports@);
        }
        sum
    }

    /// Display the globally grouped report in verbose mode: all reports
    /// in full detail, one file at a time, then the totals.
    pub fn display_verbose(&self, color: bool) -> (r: String)
        requires
            spec_global_issues(self.reports@) <= usize::MAX,
            spec_global_fixable(self.reports@) <= usize::MAX,
            forall|j: int|
                0 <= j < self.reports@.len() ==> spec_total_issues(
                    (#[trigger] self.reports@[j]).results@,
                ) <= usize::MAX && spec_total_fixable(self.reports@[j].results@) <= usize::MAX,
        ensures
            r@ == spec_global_verbose(self.reports@, color) + spec_totals_block(
                spec_global_issues(self.reports@) as nat,
                spec_global_fixable(self.reports@) as nat,
                color,
            ),
    {
        let mut r = String::new();
        let n = self.reports.len();
        let mut i: usize = 0;
        proof {
            assert(self.reports@.subrange(0, 0) =~= Seq::<Report>::empty());
            assert(r@ =~= spec_global_verbose(self.reports@.subrange(0, 0), color));
        }
        while i < n
            invariant
                i <= n,
                n == self.reports@.len(),
                r@ == spec_global_verbose(self.reports@.subrange(0, i as int), color),
                forall|j: int|
                    0 <= j < self.reports@.len() ==> spec_total_issues(
                        (#[trigger] self.reports@[j]).results@,
                    ) <= usize::MAX && spec_total_fixable(self.reports@[j].results@) <= usize::MAX,
            decreases n - i,
        {
            proof {
                assert(self.reports@.subrange(0, i as int + 1).drop_last() =~= self.reports@
                    .subrange(0, i as int));
                assert(self.reports@.subrange(0, i as int + 1).last() == self.reports@[i as int]);
            }
            let text = self.reports[i].render();
            r.append(text.as_str());
            i = i + 1;
        }
        proof {
            assert(self.reports@.subrange(0, n as int) =~= self.reports@);
        }
        let total = self.total_issues();
        let fixable = self.total_fixable();
        let ghost body = r@;
        if color {
            r.append("\n");
            let t = styled("1;32", "Total issues");
            r.append(t.as_str());
            r.append(": ");
            let tn = usize_to_string(total);
            let tns = styled("1;32", tn.as_str());
            r.append(tns.as_str());
            r.append("\n");
            let f = styled("1;32", "Fixable");
            r.append(f.as_str());
            r.append(": ");
            let fx = usize_to_string(fixable);
            let fxs = styled("1;32", fx.as_str());
            r.append(fxs.as_str());
            r.append("\n");
        } else {
            r.append("\nTotal issues: ");
            let tn = usize_to_string(total);
            r.append(tn.as_str());
            r.append("\nFixable: ");
            let fx = usize_to_string(fixable);
            r.append(fx.as_str());
            r.append("\n");
        }
        proof {
            assert(r@ =~= body + spec_totals_block(
                spec_global_issues(self.reports@) as nat,
                spec_global_fixable(self.reports@) as nat,
                color,
            ));
        }
        r
    }
}

/// The per-file line lists of one message: which files report it, and on
/// which lines.
pub type FileLines = Vec<(String, Vec<usize>)>;

/// The messages of one analyzer, each with its file line lists.
pub type MessageGroups = Vec<(String, FileLines)>;

/// A message's files with the new line added under `file`: an existing
/// file entry grows, a new file is appended.
pub open spec fn spec_add_file_line(
    fl: Seq<(Seq<char>, Seq<usize>)>,
    file: Seq<char>,
    line: usize,
) -> Seq<(Seq<char>, Seq<usize>)>
    decreases fl.len(),
{
    if fl.len() == 0 {
        seq![(file, seq![line])]
    } else if fl[0].0 == file {
        seq![(file, fl[0].1.push(line))] + fl.drop_first()
    } else {
        seq![fl[0]] + spec_add_file_line(fl.drop_first(), file, line)
    }
}

/// An analyzer's messages with the new occurrence added under `message`.
pub open spec fn spec_add_message(
    mg: Seq<(Seq<char>, Seq<(Seq<char>, Seq<usize>)>)>,
    message: Seq<char>,
    file: Seq<char>,
    line: usize,
) -> Seq<(Seq<char>, Seq<(Seq<char>, Seq<usize>)>)>
    decreases mg.len(),
{
    if mg.len() == 0 {
        seq![(message, spec_add_file_line(Seq::empty(), file, line))]
    } else if mg[0].0 == message {
        seq![(message, spec_add_file_line(mg[0].1, file, line))] + mg.drop_first()
    } else {
        seq![mg[0]] + spec_add_message(mg.drop_first(), message, file, line)
    }
}

/// The views of a file-lines list.
pub open spec fn file_lines_view(fl: Seq<(String, Vec<usize>)>) -> Seq<(Seq<char>, Seq<usize>)> {
    fl.map_values(|p: (String, Vec<usize>)| (p.0@, p.1@))
}

/// The views of a message-groups list.
pub open spec fn message_groups_view(mg: Seq<(String, FileLines)>) -> Seq<
    (Seq<char>, Seq<(Seq<char>, Seq<usize>)>),
> {
    mg.map_values(|p: (String, FileLines)| (p.0@, file_lines_view(p.1@)))
}

fn add_file_line(fl: FileLines, file: &str, line: usize) -> (r: FileLines)
    ensures
        file_lines_view(r@) == spec_add_file_line(file_lines_view(fl@), file@, line),
    decreases fl@.len(),
{
    let mut fl = fl;
    let ghost entry = fl@;
    if fl.len() == 0 {
        let mut ls: Vec<usize> = Vec::new();
        ls.push(line);
        fl.push((file.to_owned(), ls));
        proof {
            assert(file_lines_view(fl@) =~= seq![(file@, seq![line])]);
        }
        fl
    } else {
        let first = fl.remove(0);
        proof {
            assert(entry =~= seq![first].add(fl@));
            assert(file_lines_view(entry) =~= seq![(first.0@, first.1@)] + file_lines_view(fl@));
        }
        if crate::strutil::str_eq(first.0.as_str(), file) {
            let mut first = first;
            let ghost old_lines = first.1@;
            first.1.push(line);
            fl.insert(0, first);
            proof {
                assert(file_lines_view(fl@) =~= seq![
                    (file@, old_lines.push(line)),
                ] + file_lines_view(entry).drop_first());
            }
            fl
        } else {
            let ghost tail_view = file_lines_view(fl@);
            let mut rest = add_file_line(fl, file, line);
            let ghost rest_view = file_lines_view(rest@);
            rest.insert(0, first);
            proof {
                assert(file_lines_view(entry).drop_first() =~= tail_view);
                assert(file_lines_view(rest@) =~= seq![
                    (file_lines_view(entry)[0].0, file_lines_view(entry)[0].1),
                ] + rest_view);
            }
            rest
        }
    }
}

fn add_message(mg: MessageGroups, message: &str, file: &str, line: usize) -> (r: MessageGroups)
    ensures
        message_groups_view(r@) == spec_add_message(
            message_groups_view(mg@),
            message@,
            file@,
            line,
        ),
    decreases mg@.len(),
{
    let mut mg = mg;
    let ghost entry = mg@;
    if mg.len() == 0 {
        let fl = add_file_line(Vec::new(), file, line);
        proof {
            assert(file_lines_view(Seq::<(String, Vec<usize>)>::empty()) =~= Seq::<
                (Seq<char>, Seq<usize>),
            >::empty());
        }
        mg.push((message.to_owned(), fl));
        proof {
            assert(message_groups_view(mg@) =~= seq![
                (message@, spec_add_file_line(Seq::empty(), file@, line)),
            ]);
        }
        mg
    } else {
        let first = mg.remove(0);
        proof {
            assert(entry =~= seq![first].add(mg@));
            assert(message_groups_view(entry) =~= seq![
                (first.0@, file_lines_view(first.1@)),
            ] + message_groups_view(mg@));
        }
        if crate::strutil::str_eq(first.0.as_str(), message) {
            let (msg, fl) = first;
            let ghost old_fl = file_lines_view(fl@);
            let fl2 = add_file_line(fl, file, line);
            mg.insert(0, (msg, fl2));
            proof {
                assert(message_groups_view(mg@) =~= seq![
                    (message@, spec_add_file_line(old_fl, file@, line)),
                ] + message_groups_view(entry).drop_first());
            }
            mg
        } else {
            let ghost tail_view = message_groups_view(mg@);
            let mut rest = add_message(mg, message, file, line);
            let ghost rest_view = message_groups_view(rest@);
            rest.insert(0, first);
            proof {
                assert(message_groups_view(entry).drop_first() =~= tail_view);
                assert(message_groups_view(rest@) =~= seq![
                    message_groups_view(entry)[0],
                ] + rest_view);
            }
            rest
        }
    }
}

/// The groups of all analyzers, keyed by analyzer name in first-seen
/// order.
pub type AnalyzerGroups = Vec<(String, MessageGroups)>;

/// The views of an analyzer-groups list.
pub open spec fn analyzer_groups_view(ag: Seq<(String, MessageGroups)>) -> Seq<
    (Seq<char>, Seq<(Seq<char>, Seq<(Seq<char>, Seq<usize>)>)>),
> {
    ag.map_values(|p: (String, MessageGroups)| (p.0@, message_groups_view(p.1@)))
}

/// The groups with one issue occurrence added under its analyzer.
pub open spec fn spec_add_issue(
    ag: Seq<(Seq<char>, Seq<(Seq<char>, Seq<(Seq<char>, Seq<usize>)>)>)>,
    analyzer: Seq<char>,
    message: Seq<char>,
    file: Seq<char>,
    line: usize,
) -> Seq<(Seq<char>, Seq<(Seq<char>, Seq<(Seq<char>, Seq<usize>)>)>)>
    decreases ag.len(),
{
    if ag.len() == 0 {
        seq![(analyzer, spec_add_message(Seq::empty(), message, file, line))]
    } else if ag[0].0 == analyzer {
        seq![(analyzer, spec_add_message(ag[0].1, message, file, line))] + ag.drop_first()
    } else {
        seq![ag[0]] + spec_add_issue(ag.drop_first(), analyzer, message, file, line)
    }
}

fn add_issue(ag: AnalyzerGroups, analyzer: &str, message: &str, file: &str, line: usize) -> (r:
    AnalyzerGroups)
    ensures
        analyzer_groups_view(r@) == spec_add_issue(
            analyzer_groups_view(ag@),
            analyzer@,
            message@,
            file@,
            line,
        ),
    decreases ag@.len(),
{
    let mut ag = ag;
    let ghost entry = ag@;
    if ag.len() == 0 {
        let mg = add_message(Vec::new(), message, file, line);
        proof {
            assert(message_groups_view(Seq::<(String, FileLines)>::empty()) =~= Seq::<
                (Seq<char>, Seq<(Seq<char>, Seq<usize>)>),
            >::empty());
        }
        ag.push((analyzer.to_owned(), mg));
        proof {
            assert(analyzer_groups_view(ag@) =~= seq![
                (analyzer@, spec_add_message(Seq::empty(), message@, file@, line)),
            ]);
        }
        ag
    } else {
        let first = ag.remove(0);
        proof {
            assert(entry =~= seq![first].add(ag@));
            assert(analyzer_groups_view(entry) =~= seq![
                (first.0@, message_groups_view(first.1@)),
            ] + analyzer_groups_view(ag@));
        }
        if crate::strutil::str_eq(first.0.as_str(), analyzer) {
            let (name, mg) = first;
            let ghost old_mg = message_groups_view(mg@);
            let mg2 = add_message(mg, message, file, line);
            ag.insert(0, (name, mg2));
            proof {
                assert(analyzer_groups_view(ag@) =~= seq![
                    (analyzer@, spec_add_message(old_mg, message@, file@, line)),
                ] + analyzer_groups_view(entry).drop_first());
            }
            ag
        } else {
            let ghost tail_view = analyzer_groups_view(ag@);
            let mut rest = add_issue(ag, analyzer, message, file, line);
            let ghost rest_view = analyzer_groups_view(rest@);
            rest.insert(0, first);
            proof {
                assert(analyzer_groups_view(entry).drop_first() =~= tail_view);
                assert(analyzer_groups_view(rest@) =~= seq![
                    analyzer_groups_view(entry)[0],
                ] + rest_view);
            }
            rest
        }
    }
}

/// The groups after folding in one analyzer's issues, from index `k` on.
pub open spec fn spec_fold_issues(
    ag: Seq<(Seq<char>, Seq<(Seq<char>, Seq<(Seq<char>, Seq<usize>)>)>)>,
    file: Seq<char>,
    name: Seq<char>,
    issues: Seq<Issue>,
    k: int,
) -> Seq<(Seq<char>, Seq<(Seq<char>, Seq<(Seq<char>, Seq<usize>)>)>)>
    decreases issues.len() - k,
{
    if k < 0 || k >= issues.len() {
        ag
    } else {
        spec_fold_issues(
            spec_add_issue(ag, name, issues[k].message@, file, issues[k].line),
            file,
            name,
            issues,
            k + 1,
        )
    }
}

/// The groups after folding in one report's results, from index `j` on;
/// results without issues contribute nothing.
pub open spec fn spec_fold_results(
    ag: Seq<(Seq<char>, Seq<(Seq<char>, Seq<(Seq<char>, Seq<usize>)>)>)>,
    file: Seq<char>,
    results: Seq<(String, AnalysisResult)>,
    j: int,
) -> Seq<(Seq<char>, Seq<(Seq<char>, Seq<(Seq<char>, Seq<usize>)>)>)>
    decreases results.len() - j,
{
    if j < 0 || j >= results.len() {
        ag
    } else {
        let next = if results[j].1.issues@.len() == 0 {
            ag
        } else {
            spec_fold_issues(ag, file, results[j].0@, results[j].1.issues@, 0)
        };
        spec_fold_results(next, file, results, j + 1)
    }
}

/// The groups after folding in all reports, from index `i` on.
pub open spec fn spec_fold_reports(
    ag: Seq<(Seq<char>, Seq<(Seq<char>, Seq<(Seq<char>, Seq<usize>)>)>)>,
    reports: Seq<Report>,
    i: int,
) -> Seq<(Seq<char>, Seq<(Seq<char>, Seq<(Seq<char>, Seq<usize>)>)>)>
    decreases reports.len() - i,
{
    if i < 0 || i >= reports.len() {
        ag
    } else {
        spec_fold_reports(
            spec_fold_results(ag, reports[i].file_path@, reports[i].results@, 0),
            reports,
            i + 1,
        )
    }
}

/// The grouping of all issues by analyzer, then message, then file.
pub open spec fn spec_issue_groups(reports: Seq<Report>) -> Seq<
    (Seq<char>, Seq<(Seq<char>, Seq<(Seq<char>, Seq<usize>)>)>),
> {
    spec_fold_reports(Seq::empty(), reports, 0)
}

impl GlobalReport {
    /// Groups every reported issue by analyzer, then by message, then by
    /// file, each key in first-seen order, collecting the line numbers
    /// per file.
    pub fn group_issues(&self) -> (r: AnalyzerGroups)
        ensures
            analyzer_groups_view(r@) == spec_issue_groups(self.reports@),
    {
        let mut ag: AnalyzerGroups = Vec::new();
        let n = self.reports.len();
        let mut i: usize = 0;
        proof {
            assert(analyzer_groups_view(ag@) =~= Seq::<
                (Seq<char>, Seq<(Seq<char>, Seq<(Seq<char>, Seq<usize>)>)>),
            >::empty());
        }
        while i < n
            invariant
                i <= n,
                n == self.reports@.len(),
                spec_issue_groups(self.reports@) == spec_fold_reports(
                    analyzer_groups_view(ag@),
                    self.reports@,
                    i as int,
                ),
            decreases n - i,
        {
            let report = &self.reports[i];
            let m = report.results.len();
            let mut j: usize = 0;
            while j < m
                invariant
                    j <= m,
                    i < n,
                    n == self.reports@.len(),
                    m == self.reports@[i as int].results@.len(),
                    report == self.reports@[i as int],
                    spec_issue_groups(self.reports@) == spec_fold_reports(
                        spec_fold_results(
                            analyzer_groups_view(ag@),
                            self.reports@[i as int].file_path@,
                            self.reports@[i as int].results@,
                            j as int,
                        ),
                        self.reports@,
                        i as int + 1,
                    ),
                decreases m - j,
            {
                let pair = &report.results[j];
                if pair.1.issues.len() > 0 {
                    let k_max = pair.1.issues.len();
                    let mut k: usize = 0;
                    while k < k_max
                        invariant
                            k <= k_max,
                            i < n,
                            j < m,
                            n == self.reports@.len(),
                            m == self.reports@[i as int].results@.len(),
                            k_max == self.reports@[i as int].results@[j as int].1.issues@.len(),
                            report == self.reports@[i as int],
                            pair == self.reports@[i as int].results@[j as int],
                            spec_issue_groups(self.reports@) == spec_fold_reports(
                                spec_fold_results(
                                    spec_fold_issues(
                                        analyzer_groups_view(ag@),
                                        self.reports@[i as int].file_path@,
                                        self.reports@[i as int].results@[j as int].0@,
                                        self.reports@[i as int].results@[j as int].1.issues@,
                                        k as int,
                                    ),
                                    self.reports@[i as int].file_path@,
                                    self.reports@[i as int].results@,
                                    j as int + 1,
                                ),
                                self.reports@,
                                i as int + 1,
                            ),
                        decreases k_max - k,
                    {
                        let issue = &pair.1.issues[k];
                        ag = add_issue(
                            ag,
                            pair.0.as_str(),
                            issue.message.as_str(),
                            report.file_path.as_str(),
                            issue.line,
                        );
                        k = k + 1;
                    }
                }
                j = j + 1;
            }
            i = i + 1;
        }
        ag
    }
}

/// Rendered analyzer block for grid layout.
pub struct RenderedAnalyzer {
    /// The block's output lines.
    pub lines: Vec<String>,
    /// The block's column width.
    pub width: usize,
}

/// Minimum space between columns in grid layout.
pub const COLUMN_GAP: usize = 4;

/// Minimum width for an analyzer column.
pub const MIN_ANALYZER_WIDTH: usize = 40;

/// Maximum width for an analyzer column to enable multi-column layout.
pub const MAX_ANALYZER_WIDTH: usize = 80;

/// The line counts of one message's files, summed.
pub open spec fn spec_fl_total(fl: Seq<(Seq<char>, Seq<usize>)>) -> int
    decreases fl.len(),
{
    if fl.len() == 0 {
        0
    } else {
        spec_fl_total(fl.drop_last()) + fl.last().1.len()
    }
}

/// The line counts of all messages of one analyzer, summed.
pub open spec fn spec_mg_total(mg: Seq<(Seq<char>, Seq<(Seq<char>, Seq<usize>)>)>) -> int
    decreases mg.len(),
{
    if mg.len() == 0 {
        0
    } else {
        spec_mg_total(mg.drop_last()) + spec_fl_total(mg.last().1)
    }
}

proof fn lemma_fl_total_nonneg(fl: Seq<(Seq<char>, Seq<usize>)>)
    ensures
        spec_fl_total(fl) >= 0,
    decreases fl.len(),
{
    if fl.len() > 0 {
        lemma_fl_total_nonneg(fl.drop_last());
    }
}

proof fn lemma_mg_total_nonneg(mg: Seq<(Seq<char>, Seq<(Seq<char>, Seq<usize>)>)>)
    ensures
        spec_mg_total(mg) >= 0,
    decreases mg.len(),
{
    if mg.len() > 0 {
        lemma_mg_total_nonneg(mg.drop_last());
        lemma_fl_total_nonneg(mg.last().1);
    }
}

proof fn lemma_fl_prefix(fl: Seq<(Seq<char>, Seq<usize>)>, k: int)
    requires
        0 <= k <= fl.len(),
    ensures
        0 <= spec_fl_total(fl.subrange(0, k)) <= spec_fl_total(fl),
    decreases fl.len() - k,
{
    lemma_fl_total_nonneg(fl.subrange(0, k));
    if k == fl.len() {
        assert(fl.subrange(0, k) =~= fl);
    } else {
        lemma_fl_prefix(fl, k + 1);
        assert(fl.subrange(0, k + 1).drop_last() =~= fl.subrange(0, k));
        assert(fl.subrange(0, k + 1).last() == fl[k]);
    }
}

proof fn lemma_mg_prefix(mg: Seq<(Seq<char>, Seq<(Seq<char>, Seq<usize>)>)>, k: int)
    requires
        0 <= k <= mg.len(),
    ensures
        0 <= spec_mg_total(mg.subrange(0, k)) <= spec_mg_total(mg),
    decreases mg.len() - k,
{
    lemma_mg_total_nonneg(mg.subrange(0, k));
    if k == mg.len() {
        assert(mg.subrange(0, k) =~= mg);
    } else {
        lemma_mg_prefix(mg, k + 1);
        assert(mg.subrange(0, k + 1).drop_last() =~= mg.subrange(0, k));
        assert(mg.subrange(0, k + 1).last() == mg[k]);
        lemma_fl_total_nonneg(mg[k].1);
    }
}

/// Counts the issues of one analyzer's message groups.
fn mg_total(mg: &MessageGroups) -> (r: usize)
    requires
        spec_mg_total(message_groups_view(mg@)) <= usize::MAX,
    ensures
        r == spec_mg_total(message_groups_view(mg@)),
{
    let ghost mgv = message_groups_view(mg@);
    let mut sum: usize = 0;
    let n = mg.len();
    let mut i: usize = 0;
    proof {
        assert(mgv.subrange(0, 0) =~= Seq::<(Seq<char>, Seq<(Seq<char>, Seq<usize>)>)>::empty());
    }
    while i < n
        invariant
            i <= n,
            n == mg@.len(),
            mgv == message_groups_view(mg@),
            mgv.len() == n,
            sum == spec_mg_total(mgv.subrange(0, i as int)),
            spec_mg_total(mgv) <= usize::MAX,
        decreases n - i,
    {
        let fl = &mg[i].1;
        let ghost flv = file_lines_view(fl@);
        proof {
            assert(mgv[i as int].1 == flv);
            assert(flv.len() == fl@.len());
        }
        let m = fl.len();
        let mut j: usize = 0;
        proof {
            assert(flv.subrange(0, 0) =~= Seq::<(Seq<char>, Seq<usize>)>::empty());
            lemma_mg_prefix(mgv, i as int + 1);
            assert(mgv.subrange(0, i as int + 1).drop_last() =~= mgv.subrange(0, i as int));
            assert(mgv.subrange(0, i as int + 1).last() == mgv[i as int]);
        }
        let mut part: usize = 0;
        while j < m
            invariant
                j <= m,
                i < n,
                m == fl@.len(),
                flv == file_lines_view(fl@),
                mgv == message_groups_view(mg@),
                mgv.len() == n,
                mgv[i as int].1 == flv,
                part == spec_fl_total(flv.subrange(0, j as int)),
                sum == spec_mg_total(mgv.subrange(0, i as int)),
                spec_mg_total(mgv.subrange(0, i as int)) + spec_fl_total(flv) <= usize::MAX,
            decreases m - j,
        {
            proof {
                lemma_fl_prefix(flv, j as int + 1);
                assert(flv.subrange(0, j as int + 1).drop_last() =~= flv.subrange(0, j as int));
                assert(flv.subrange(0, j as int + 1).last() == flv[j as int]);
                assert(flv[j as int].1 == fl@[j as int].1@);
                lemma_mg_total_nonneg(mgv.subrange(0, i as int));
            }
            part = part + fl[j].1.len();
            j = j + 1;
        }
        proof {
            assert(flv.subrange(0, m as int) =~= flv);
        }
        sum = sum + part;
        i = i + 1;
    }
    proof {
        assert(mgv.subrange(0, n as int) =~= mgv);
    }
    sum
}

proof fn lemma_usize_insert_to_multiset(s: Seq<usize>, k: int, x: usize)
    requires
        0 <= k <= s.len(),
    ensures
        s.insert(k, x).to_multiset() == s.to_multiset().insert(x),
{
    broadcast use vstd::seq_lib::group_to_multiset_ensures;
    broadcast use vstd::multiset::group_multiset_axioms;

    let left = s.take(k);
    let right = s.skip(k);
    assert(s.insert(k, x) =~= left + (seq![x] + right));
    vstd::seq_lib::lemma_multiset_commutative(left, seq![x] + right);
    vstd::seq_lib::lemma_multiset_commutative(seq![x], right);
    assert(left + right =~= s);
    vstd::seq_lib::lemma_multiset_commutative(left, right);
    assert(seq![x] =~= Seq::<usize>::empty().push(x));
    assert(Seq::<usize>::empty().to_multiset() =~= vstd::multiset::Multiset::<usize>::empty());
    assert(seq![x].to_multiset() =~= vstd::multiset::Multiset::<usize>::empty().insert(x));
    assert(s.insert(k, x).to_multiset() =~= s.to_multiset().insert(x));
}

/// The ascending order on line numbers, as a relation value.
pub open spec fn usize_leq() -> spec_fn(usize, usize) -> bool {
    |a: usize, b: usize| a <= b
}

/// Sorts line numbers ascending.
pub fn sort_usizes(v: &Vec<usize>) -> (r: Vec<usize>)
    ensures
        r@ == v@.sort_by(usize_leq()),
{
    broadcast use vstd::seq_lib::group_to_multiset_ensures;

    let ghost leq = usize_leq();
    let mut r: Vec<usize> = Vec::new();
    let n = v.len();
    let mut i: usize = 0;
    proof {
        assert(v@.subrange(0, 0) =~= Seq::<usize>::empty());
        assert(r@ =~= Seq::<usize>::empty());
        assert(Seq::<usize>::empty().to_multiset() =~= vstd::multiset::Multiset::<
            usize,
        >::empty());
    }
    while i < n
        invariant
            i <= n,
            n == v@.len(),
            forall|a: int, b: int| 0 <= a < b < r@.len() ==> #[trigger] r@[a] <= #[trigger] r@[b],
            r@.to_multiset() == v@.subrange(0, i as int).to_multiset(),
        decreases n - i,
    {
        let x = v[i];
        let ghost old_view = r@;
        let mut k: usize = 0;
        let len = r.len();
        while k < len && r[k] <= x
            invariant
                k <= len,
                len == r@.len(),
                old_view == r@,
                forall|j: int| 0 <= j < k ==> old_view[j] <= x,
            decreases len - k,
        {
            k = k + 1;
        }
        r.insert(k, x);
        proof {
            assert(r@ =~= old_view.insert(k as int, x));
            assert(forall|a: int, b: int|
                0 <= a < b < r@.len() ==> #[trigger] r@[a] <= #[trigger] r@[b]) by {
                assert forall|a: int, b: int| 0 <= a < b < r@.len() implies #[trigger] r@[a]
                    <= #[trigger] r@[b] by {
                    if a == k {
                        assert(r@[b] == old_view[b - 1]);
                    } else if b == k {
                        assert(r@[a] == old_view[a]);
                    } else {
                        let oa: int = if a < k {
                            a
                        } else {
                            a - 1
                        };
                        let ob: int = if b < k {
                            b
                        } else {
                            b - 1
                        };
                        assert(r@[a] == old_view[oa]);
                        assert(r@[b] == old_view[ob]);
                    }
                }
            }
            lemma_usize_insert_to_multiset(old_view, k as int, x);
            assert(v@.subrange(0, i as int + 1) =~= v@.subrange(0, i as int).push(v@[i as int]));
            v@.subrange(0, i as int).to_multiset_ensures();
            assert(v@.subrange(0, i as int).push(v@[i as int]).to_multiset() =~= v@.subrange(
                0,
                i as int,
            ).to_multiset().insert(v@[i as int]));
        }
        i = i + 1;
    }
    proof {
        assert(v@.subrange(0, n as int) =~= v@);
        assert(vstd::relations::total_ordering(usize_leq())) by {
            assert forall|a: usize, b: usize| #[trigger] (usize_leq())(a, b) && #[trigger]
                (usize_leq())(b, a) implies a == b by {}
        }
        v@.lemma_sort_by_ensures(usize_leq());
        assert(vstd::relations::sorted_by(r@, usize_leq())) by {
            assert forall|a: int, b: int| 0 <= a < b < r@.len() implies #[trigger] (usize_leq())(
                r@[a],
                r@[b],
            ) by {
                assert(r@[a] <= r@[b]);
            }
        }
        vstd::seq_lib::lemma_sorted_unique(r@, v@.sort_by(usize_leq()), usize_leq());
    }
    r
}

/// The text cut to the given visible width: characters leave from the
/// end until the text fits.
pub open spec fn spec_truncate_to(l: Seq<char>, limit: int) -> Seq<char>
    decreases l.len(),
{
    if l.len() == 0 || visible_width(l) <= limit {
        l
    } else {
        spec_truncate_to(l.drop_last(), limit)
    }
}

fn truncate_to(l: &str, limit: usize) -> (r: String)
    ensures
        r@ == spec_truncate_to(l@, limit as int),
{
    let mut k = l.unicode_len();
    proof {
        assert(l@.take(k as int) =~= l@);
    }
    while k > 0
        invariant
            k <= l@.len(),
            spec_truncate_to(l@, limit as int) == spec_truncate_to(l@.take(k as int), limit as int),
        decreases k,
    {
        let piece = l.substring_char(0, k);
        let m = measure_width(piece);
        proof {
            assert(piece@ == l@.take(k as int));
        }
        if m <= limit {
            proof {
                assert(spec_truncate_to(l@.take(k as int), limit as int) == l@.take(k as int));
            }
            return piece.to_owned();
        }
        proof {
            assert(l@.take(k as int).drop_last() =~= l@.take(k as int - 1));
            assert(spec_truncate_to(l@.take(k as int), limit as int) == spec_truncate_to(
                l@.take(k as int - 1),
                limit as int,
            ));
        }
        k = k - 1;
    }
    proof {
        assert(l@.take(0).len() == 0);
        assert(spec_truncate_to(l@.take(0), limit as int) == l@.take(0));
        assert(l@.take(0) =~= Seq::<char>::empty());
    }
    String::new()
}

/// A content line, cut and marked with an ellipsis when it overflows the
/// column width.
pub open spec fn spec_fit_line(l: Seq<char>, fw: int) -> Seq<char> {
    if visible_width(l) > fw {
        spec_truncate_to(l, fw - 3) + "..."@
    } else {
        l
    }
}

/// The chunked number list lines for one file, wrapped near sixty
/// characters, counting each number's plain width.
pub open spec fn spec_num_chunks(
    nums: Seq<Seq<char>>,
    i: int,
    current: Seq<char>,
    color: bool,
) -> Seq<Seq<char>>
    decreases nums.len() - i,
{
    if i < 0 || i >= nums.len() {
        if current.len() > 0 {
            seq![current]
        } else {
            Seq::empty()
        }
    } else {
        let colored: Seq<char> = if color {
            spec_styled("35"@, nums[i])
        } else {
            nums[i]
        };
        let addition: Seq<char> = (if i == 0 {
            Seq::<char>::empty()
        } else {
            ", "@
        }) + colored;
        let addition_len: int = (if i == 0 {
            0int
        } else {
            2int
        }) + nums[i].len();
        if current.len() + addition_len > 60 && current.len() > 0 {
            seq![current] + spec_num_chunks(nums, i + 1, colored, color)
        } else {
            spec_num_chunks(nums, i + 1, current + addition, color)
        }
    }
}

/// The number texts of a file's sorted lines.
pub open spec fn spec_sorted_nums(lines: Seq<usize>) -> Seq<Seq<char>> {
    lines.sort_by(usize_leq()).map_values(|n: usize| spec_decimal(n as nat))
}

/// The intro of a file's line list.
pub open spec fn spec_file_intro(path: Seq<char>, color: bool) -> Seq<char> {
    "  "@ + spec_maybe_styled("34"@, path, color) + " \u{2192} Lines: "@
}

/// The rendered lines for one file of a message: one joined list when it
/// is short, else wrapped chunks indented under the intro.
pub open spec fn spec_file_entry_lines(
    path: Seq<char>,
    lines: Seq<usize>,
    color: bool,
) -> Seq<Seq<char>> {
    let nums = spec_sorted_nums(lines);
    let file_line = spec_file_intro(path, color);
    let colored_nums = if color {
        nums.map_values(|s: Seq<char>| spec_styled("35"@, s))
    } else {
        nums
    };
    let joined = spec_join(colored_nums, ", "@);
    if joined.len() > 60 {
        let chunks = spec_num_chunks(nums, 0, Seq::empty(), color);
        Seq::new(
            chunks.len(),
            |idx: int|
                if idx == 0 {
                    file_line + chunks[0]
                } else {
                    "  "@ + spec_repeat(" "@, (path.len() + 9) as nat) + " "@ + chunks[idx]
                },
        )
    } else {
        seq![file_line + joined]
    }
}

/// The content lines of one message section: the message, a blank line,
/// each file's line lists, and a closing blank line.
pub open spec fn spec_message_section(
    fl: Seq<(Seq<char>, Seq<usize>)>,
    i: int,
    color: bool,
) -> Seq<Seq<char>>
    decreases fl.len() - i,
{
    if i < 0 || i >= fl.len() {
        seq![Seq::<char>::empty()]
    } else {
        spec_file_entry_lines(fl[i].0, fl[i].1, color) + spec_message_section(fl, i + 1, color)
    }
}

/// The content lines after the header: one section per message.
pub open spec fn spec_mg_content(
    mg: Seq<(Seq<char>, Seq<(Seq<char>, Seq<usize>)>)>,
    i: int,
    color: bool,
) -> Seq<Seq<char>>
    decreases mg.len() - i,
{
    if i < 0 || i >= mg.len() {
        Seq::empty()
    } else {
        seq![
            "  "@ + mg[i].0,
            Seq::<char>::empty(),
        ] + spec_message_section(mg[i].1, 0, color) + spec_mg_content(mg, i + 1, color)
    }
}

/// The block heading naming the analyzer and its issue count.
pub open spec fn spec_block_heading(name: Seq<char>, total: nat, color: bool) -> Seq<char> {
    "["@ + spec_maybe_styled("1;33"@, name, color) + "] - "@ + spec_maybe_styled(
        "36"@,
        spec_decimal(total),
        color,
    ) + " issues"@
}

/// The width of the widened content: the heading, each message line and
/// each file line, starting from the minimum analyzer width.
pub open spec fn spec_mg_width(
    w: int,
    mg: Seq<(Seq<char>, Seq<(Seq<char>, Seq<usize>)>)>,
    i: int,
    color: bool,
) -> int
    decreases mg.len() - i,
{
    if i < 0 || i >= mg.len() {
        w
    } else {
        spec_mg_width(
            spec_grow_all(
                spec_grow(w, "  "@ + mg[i].0),
                spec_file_lines_flat(mg[i].1, 0, color),
            ),
            mg,
            i + 1,
            color,
        )
    }
}

/// All file lines of one message, flattened in order.
pub open spec fn spec_file_lines_flat(
    fl: Seq<(Seq<char>, Seq<usize>)>,
    i: int,
    color: bool,
) -> Seq<Seq<char>>
    decreases fl.len() - i,
{
    if i < 0 || i >= fl.len() {
        Seq::empty()
    } else {
        spec_file_entry_lines(fl[i].0, fl[i].1, color) + spec_file_lines_flat(fl, i + 1, color)
    }
}

/// The column width the block settles on.
pub open spec fn spec_block_final_width(
    name: Seq<char>,
    mgv: Seq<(Seq<char>, Seq<(Seq<char>, Seq<usize>)>)>,
    color: bool,
) -> int {
    let w0 = spec_grow(
        MIN_ANALYZER_WIDTH as int,
        spec_block_heading(name, spec_mg_total(mgv) as nat, color),
    );
    let w = spec_mg_width(w0, mgv, 0, color);
    let capped = if w > MAX_ANALYZER_WIDTH as int {
        MAX_ANALYZER_WIDTH as int
    } else {
        w
    };
    if capped < MIN_ANALYZER_WIDTH as int {
        MIN_ANALYZER_WIDTH as int
    } else {
        capped
    }
}

/// The block's final lines: the heading, a separator, the content lines
/// cut to the column width, and a footer.
pub open spec fn spec_block_lines(
    name: Seq<char>,
    mgv: Seq<(Seq<char>, Seq<(Seq<char>, Seq<usize>)>)>,
    color: bool,
) -> Seq<Seq<char>> {
    let fw = spec_block_final_width(name, mgv, color);
    let content = spec_mg_content(mgv, 0, color);
    seq![
        spec_block_heading(name, spec_mg_total(mgv) as nat, color),
        spec_maybe_styled("2"@, spec_repeat("\u{2500}"@, fw as nat), color),
    ] + content.map_values(|l: Seq<char>| spec_fit_line(l, fw)) + seq![
        spec_maybe_styled("2"@, spec_repeat("\u{2550}"@, fw as nat), color),
    ]
}

/// Widening distributes over concatenation of measured texts.
proof fn lemma_grow_all_concat(w: int, a: Seq<Seq<char>>, b: Seq<Seq<char>>)
    ensures
        spec_grow_all(w, a + b) == spec_grow_all(spec_grow_all(w, a), b),
    decreases b.len(),
{
    if b.len() == 0 {
        assert(a + b =~= a);
    } else {
        lemma_grow_all_concat(w, a, b.drop_last());
        assert(a + b =~= (a + b.drop_last()).push(b.last()));
        lemma_grow_all_push_pub(w, a + b.drop_last(), b.last());
        lemma_grow_all_push_pub(spec_grow_all(w, a), b.drop_last(), b.last());
        assert(b.drop_last().push(b.last()) =~= b);
    }
}

/// Renders the line lists of one file under a message: one joined list
/// when short, else chunks wrapped near sixty characters, widening the
/// running maximum by each produced line.
fn render_file_entry(path: &str, line_list: &Vec<usize>, color: bool, max_width: &mut usize) -> (r:
    Vec<String>)
    ensures
        r@.map_values(|l: String| l@) == spec_file_entry_lines(path@, line_list@, color),
        *final(max_width) as int == spec_grow_all(
            *old(max_width) as int,
            spec_file_entry_lines(path@, line_list@, color),
        ),
{
    let ghost target = spec_file_entry_lines(path@, line_list@, color);
    let sorted = sort_usizes(line_list);
    let mut nums: Vec<String> = Vec::new();
    let n = sorted.len();
    let mut i: usize = 0;
    proof {
        assert(nums@.map_values(|p: String| p@) =~= Seq::<Seq<char>>::empty());
        assert(sorted@.subrange(0, 0).map_values(|x: usize| spec_decimal(x as nat)) =~= Seq::<
            Seq<char>,
        >::empty());
    }
    while i < n
        invariant
            i <= n,
            n == sorted@.len(),
            sorted@ == line_list@.sort_by(usize_leq()),
            nums@.map_values(|p: String| p@) == sorted@.subrange(0, i as int).map_values(
                |x: usize| spec_decimal(x as nat),
            ),
        decreases n - i,
    {
        let ghost prev = nums@.map_values(|p: String| p@);
        nums.push(usize_to_string(sorted[i]));
        proof {
            assert(nums@.map_values(|p: String| p@) =~= prev.push(
                spec_decimal(sorted@[i as int] as nat),
            ));
            assert(sorted@.subrange(0, i as int + 1).map_values(
                |x: usize| spec_decimal(x as nat),
            ) =~= sorted@.subrange(0, i as int).map_values(|x: usize| spec_decimal(x as nat)).push(
                spec_decimal(sorted@[i as int] as nat),
            ));
        }
        i = i + 1;
    }
    proof {
        assert(sorted@.subrange(0, n as int) =~= sorted@);
        assert(nums@.map_values(|p: String| p@) == spec_sorted_nums(line_list@));
    }
    let ghost numviews = spec_sorted_nums(line_list@);
    let mut colored_nums: Vec<String> = Vec::new();
    let mut j: usize = 0;
    let ghost colored_views: Seq<Seq<char>> = if color {
        numviews.map_values(|s: Seq<char>| spec_styled("35"@, s))
    } else {
        numviews
    };
    proof {
        assert(colored_nums@.map_values(|p: String| p@) =~= Seq::<Seq<char>>::empty());
        assert(colored_views.subrange(0, 0) =~= Seq::<Seq<char>>::empty());
    }
    while j < n
        invariant
            j <= n,
            n == nums@.len(),
            numviews == nums@.map_values(|p: String| p@),
            colored_views == (if color {
                numviews.map_values(|s: Seq<char>| spec_styled("35"@, s))
            } else {
                numviews
            }),
            colored_nums@.map_values(|p: String| p@) == colored_views.subrange(0, j as int),
        decreases n - j,
    {
        let ghost prev = colored_nums@.map_values(|p: String| p@);
        if color {
            colored_nums.push(styled("35", nums[j].as_str()));
        } else {
            colored_nums.push(nums[j].clone());
        }
        proof {
            assert(colored_nums@.map_values(|p: String| p@) =~= prev.push(
                colored_views[j as int],
            ));
            assert(colored_views.subrange(0, j as int + 1) =~= colored_views.subrange(
                0,
                j as int,
            ).push(colored_views[j as int]));
        }
        j = j + 1;
    }
    proof {
        assert(colored_views.subrange(0, n as int) =~= colored_views);
    }
    let joined = join_with(&colored_nums, ", ");
    let mut file_line = "  ".to_owned();
    let fp = maybe_styled("34", path.to_owned(), color);
    file_line.append(fp.as_str());
    file_line.append(" \u{2192} Lines: ");
    proof {
        assert(file_line@ =~= spec_file_intro(path@, color));
    }
    let mut out: Vec<String> = Vec::new();
    if joined.unicode_len() > 60 {
        // wrapped chunks
        let mut chunks: Vec<String> = Vec::new();
        let mut current = String::new();
        let mut k: usize = 0;
        proof {
            assert(chunks@.map_values(|p: String| p@) =~= Seq::<Seq<char>>::empty());
            assert(spec_num_chunks(numviews, 0, Seq::empty(), color) == chunks@.map_values(
                |p: String| p@,
            ) + spec_num_chunks(numviews, 0, current@, color));
        }
        while k < n
            invariant
                k <= n,
                n == nums@.len(),
                numviews == nums@.map_values(|p: String| p@),
                spec_num_chunks(numviews, 0, Seq::empty(), color) == chunks@.map_values(
                    |p: String| p@,
                ) + spec_num_chunks(numviews, k as int, current@, color),
            decreases n - k,
        {
            let colored = if color {
                styled("35", nums[k].as_str())
            } else {
                nums[k].clone()
            };
            let addition = if k == 0 {
                colored.clone()
            } else {
                let mut a = ", ".to_owned();
                a.append(colored.as_str());
                a
            };
            let addition_len = if k == 0 {
                nums[k].unicode_len()
            } else {
                match nums[k].unicode_len().checked_add(2) {
                    Some(t) => t,
                    None => usize::MAX,
                }
            };
            let over = match current.unicode_len().checked_add(addition_len) {
                Some(t) => t > 60,
                None => true,
            };
            if over && current.unicode_len() > 0 {
                let ghost prev = chunks@.map_values(|p: String| p@);
                let ghost cur = current@;
                chunks.push(current);
                current = colored;
                proof {
                    assert(chunks@.map_values(|p: String| p@) =~= prev.push(cur));
                }
            } else {
                current.append(addition.as_str());
            }
            k = k + 1;
        }
        if current.unicode_len() > 0 {
            let ghost prev = chunks@.map_values(|p: String| p@);
            let ghost cur = current@;
            chunks.push(current);
            proof {
                assert(chunks@.map_values(|p: String| p@) =~= prev.push(cur));
                assert(spec_num_chunks(numviews, n as int, cur, color) == seq![cur]);
            }
        } else {
            proof {
                assert(spec_num_chunks(numviews, n as int, current@, color)
                    =~= Seq::<Seq<char>>::empty());
                assert(chunks@.map_values(|p: String| p@) + Seq::<Seq<char>>::empty()
                    =~= chunks@.map_values(|p: String| p@));
            }
        }
        let ghost chunk_views = spec_num_chunks(numviews, 0, Seq::empty(), color);
        let m = chunks.len();
        let mut c: usize = 0;
        proof {
            assert(chunks@.map_values(|p: String| p@) == chunk_views);
            assert(chunk_views.len() == m);
        }
        while c < m
            invariant
                c <= m,
                m == chunks@.len(),
                chunk_views == chunks@.map_values(|p: String| p@),
                chunk_views.len() == m,
                file_line@ == spec_file_intro(path@, color),
                target == spec_file_entry_lines(path@, line_list@, color),
                target == Seq::new(
                    chunk_views.len(),
                    |idx: int|
                        if idx == 0 {
                            spec_file_intro(path@, color) + chunk_views[0]
                        } else {
                            "  "@ + spec_repeat(" "@, (path@.len() + 9) as nat) + " "@
                                + chunk_views[idx]
                        },
                ),
                out@.map_values(|l: String| l@) == target.subrange(0, c as int),
            decreases m - c,
        {
            let ghost prev = out@.map_values(|l: String| l@);
            let full_line = if c == 0 {
                let mut fl2 = file_line.clone();
                fl2.append(chunks[0].as_str());
                fl2
            } else {
                let mut fl2 = "  ".to_owned();
                let pad = repeat_str(" ", path.unicode_len());
                let pad9 = repeat_str(" ", 9);
                fl2.append(pad.as_str());
                fl2.append(pad9.as_str());
                fl2.append(" ");
                fl2.append(chunks[c].as_str());
                proof {
                    crate::strutil::lemma_repeat_add(" "@, path@.len(), 9);
                }
                fl2
            };
            proof {
                assert(full_line@ =~= target[c as int]);
            }
            out.push(full_line);
            proof {
                assert(out@.map_values(|l: String| l@) =~= prev.push(target[c as int]));
                assert(target.subrange(0, c as int + 1) =~= target.subrange(0, c as int).push(
                    target[c as int],
                ));
            }
            c = c + 1;
        }
        proof {
            assert(target.subrange(0, m as int) =~= target);
        }
    } else {
        let mut single = file_line;
        single.append(joined.as_str());
        proof {
            assert(single@ =~= spec_file_intro(path@, color) + spec_join(colored_views, ", "@));
        }
        out.push(single);
        proof {
            assert(out@.map_values(|l: String| l@) =~= target);
        }
    }
    // widen the running maximum by each produced line
    let t = out.len();
    let mut q: usize = 0;
    proof {
        assert(target.subrange(0, 0) =~= Seq::<Seq<char>>::empty());
    }
    while q < t
        invariant
            q <= t,
            t == out@.len(),
            target == out@.map_values(|l: String| l@),
            *max_width as int == spec_grow_all(
                *old(max_width) as int,
                target.subrange(0, q as int),
            ),
        decreases t - q,
    {
        note_width(max_width, out[q].as_str());
        proof {
            assert(target.subrange(0, q as int + 1) =~= target.subrange(0, q as int).push(
                target[q as int],
            ));
            lemma_grow_all_push_pub(
                *old(max_width) as int,
                target.subrange(0, q as int),
                target[q as int],
            );
        }
        q = q + 1;
    }
    proof {
        assert(target.subrange(0, t as int) =~= target);
    }
    out
}

/// Renders a single analyzer block with its issues: a heading with the
/// issue count, each message with the files and sorted line numbers that
/// report it, everything cut to a column width between the minimum and
/// maximum analyzer widths, framed by separator and footer lines.
pub fn render_analyzer_block(analyzer_name: &str, message_map: &MessageGroups, color: bool) -> (r:
    RenderedAnalyzer)
    requires
        spec_mg_total(message_groups_view(message_map@)) <= usize::MAX,
    ensures
        r.lines@.map_values(|l: String| l@) == spec_block_lines(
            analyzer_name@,
            message_groups_view(message_map@),
            color,
        ),
        r.width as int == spec_block_final_width(
            analyzer_name@,
            message_groups_view(message_map@),
            color,
        ),
{
    let ghost mgv = message_groups_view(message_map@);
    let total = mg_total(message_map);
    let mut header = "[".to_owned();
    let hn = maybe_styled("1;33", analyzer_name.to_owned(), color);
    header.append(hn.as_str());
    header.append("] - ");
    let tn = usize_to_string(total);
    let tc = maybe_styled("36", tn, color);
    header.append(tc.as_str());
    header.append(" issues");
    proof {
        assert(header@ =~= spec_block_heading(analyzer_name@, spec_mg_total(mgv) as nat, color));
    }
    let mut max_width: usize = MIN_ANALYZER_WIDTH;
    note_width(&mut max_width, header.as_str());
    let ghost w0 = spec_grow(
        MIN_ANALYZER_WIDTH as int,
        spec_block_heading(analyzer_name@, spec_mg_total(mgv) as nat, color),
    );
    let mut content: Vec<String> = Vec::new();
    content.push(header);
    let n = message_map.len();
    let mut i: usize = 0;
    proof {
        assert(mgv.len() == n);
        assert(content@.map_values(|l: String| l@) =~= seq![
            spec_block_heading(analyzer_name@, spec_mg_total(mgv) as nat, color),
        ]);
    }
    while i < n
        invariant
            i <= n,
            n == message_map@.len(),
            mgv == message_groups_view(message_map@),
            mgv.len() == n,
            seq![
                spec_block_heading(analyzer_name@, spec_mg_total(mgv) as nat, color),
            ] + spec_mg_content(mgv, 0, color) == content@.map_values(|l: String| l@)
                + spec_mg_content(mgv, i as int, color),
            spec_mg_width(w0, mgv, 0, color) == spec_mg_width(
                max_width as int,
                mgv,
                i as int,
                color,
            ),
        decreases n - i,
    {
        let pair = &message_map[i];
        let ghost flv = file_lines_view(pair.1@);
        proof {
            assert(mgv[i as int] == (pair.0@, flv));
        }
        let mut msg_line = "  ".to_owned();
        msg_line.append(pair.0.as_str());
        note_width(&mut max_width, msg_line.as_str());
        let ghost before_msg = content@.map_values(|l: String| l@);
        content.push(msg_line);
        content.push(String::new());
        proof {
            assert(content@.map_values(|l: String| l@) =~= before_msg + seq![
                "  "@ + mgv[i as int].0,
                Seq::<char>::empty(),
            ]);
        }
        let m = pair.1.len();
        let mut j: usize = 0;
        let ghost wm = max_width as int;
        let ghost before_files = content@.map_values(|l: String| l@);
        proof {
            assert(flv.len() == m);
        }
        while j < m
            invariant
                j <= m,
                i < n,
                n == message_map@.len(),
                mgv == message_groups_view(message_map@),
                mgv.len() == n,
                m == message_map@[i as int].1@.len(),
                pair == message_map@[i as int],
                flv == file_lines_view(message_map@[i as int].1@),
                flv.len() == m,
                before_files + spec_file_lines_flat(flv, 0, color) == content@.map_values(
                    |l: String| l@,
                ) + spec_file_lines_flat(flv, j as int, color),
                spec_grow_all(wm, spec_file_lines_flat(flv, 0, color)) == spec_grow_all(
                    max_width as int,
                    spec_file_lines_flat(flv, j as int, color),
                ),
            decreases m - j,
        {
            proof {
                assert(flv[j as int] == (message_map@[i as int].1@[j as int].0@, message_map@[
                    i as int].1@[j as int].1@));
            }
            let ghost mw_before = max_width as int;
            let entry_lines = render_file_entry(
                pair.1[j].0.as_str(),
                &pair.1[j].1,
                color,
                &mut max_width,
            );
            let ghost elv = spec_file_entry_lines(flv[j as int].0, flv[j as int].1, color);
            let t = entry_lines.len();
            let mut q: usize = 0;
            let ghost before_entry = content@.map_values(|l: String| l@);
            while q < t
                invariant
                    q <= t,
                    t == entry_lines@.len(),
                    elv == entry_lines@.map_values(|l: String| l@),
                    content@.map_values(|l: String| l@) =~= before_entry + elv.subrange(
                        0,
                        q as int,
                    ),
                decreases t - q,
            {
                let ghost prev = content@.map_values(|l: String| l@);
                content.push(entry_lines[q].clone());
                proof {
                    assert(content@.map_values(|l: String| l@) =~= prev.push(elv[q as int]));
                    assert(elv.subrange(0, q as int + 1) =~= elv.subrange(0, q as int).push(
                        elv[q as int],
                    ));
                }
                q = q + 1;
            }
            proof {
                assert(elv.subrange(0, t as int) =~= elv);
                lemma_flat_step(flv, j as int, color);
                lemma_grow_all_concat(
                    mw_before,
                    elv,
                    spec_file_lines_flat(flv, j as int + 1, color),
                );
            }
            j = j + 1;
        }
        let ghost before_close = content@.map_values(|l: String| l@);
        content.push(String::new());
        proof {
            assert(spec_file_lines_flat(flv, m as int, color) =~= Seq::<Seq<char>>::empty());
            assert(content@.map_values(|l: String| l@) =~= before_close.push(
                Seq::<char>::empty(),
            ));
            lemma_content_step(mgv, i as int, color);
            assert(spec_message_section(flv, m as int, color) == seq![Seq::<char>::empty()]);
            lemma_section_flat(flv, 0, color);
        }
        i = i + 1;
    }
    proof {
        assert(spec_mg_content(mgv, n as int, color) =~= Seq::<Seq<char>>::empty());
        assert(spec_mg_width(max_width as int, mgv, n as int, color) == max_width as int);
    }
    let capped = if max_width > MAX_ANALYZER_WIDTH {
        MAX_ANALYZER_WIDTH
    } else {
        max_width
    };
    let final_width = if capped < MIN_ANALYZER_WIDTH {
        MIN_ANALYZER_WIDTH
    } else {
        capped
    };
    proof {
        assert(final_width as int == spec_block_final_width(analyzer_name@, mgv, color));
    }
    let ghost content_views = content@.map_values(|l: String| l@);
    let mut lines: Vec<String> = Vec::new();
    lines.push(content[0].clone());
    let sep = repeat_str("\u{2500}", final_width);
    lines.push(maybe_styled("2", sep, color));
    let cl = content.len();
    let mut c: usize = 1;
    proof {
        assert(content_views[0] == spec_block_heading(
            analyzer_name@,
            spec_mg_total(mgv) as nat,
            color,
        ));
        assert(lines@.map_values(|l: String| l@) =~= seq![
            content_views[0],
            spec_maybe_styled("2"@, spec_repeat("\u{2500}"@, final_width as nat), color),
        ]);
        assert(content_views.subrange(1, 1).map_values(
            |l: Seq<char>| spec_fit_line(l, final_width as int),
        ) =~= Seq::<Seq<char>>::empty());
    }
    while c < cl
        invariant
            1 <= c <= cl,
            cl == content@.len(),
            cl >= 1,
            content_views == content@.map_values(|l: String| l@),
            lines@.map_values(|l: String| l@) =~= seq![
                content_views[0],
                spec_maybe_styled("2"@, spec_repeat("\u{2500}"@, final_width as nat), color),
            ] + content_views.subrange(1, c as int).map_values(
                |l: Seq<char>| spec_fit_line(l, final_width as int),
            ),
            final_width >= MIN_ANALYZER_WIDTH,
        decreases cl - c,
    {
        let line = &content[c];
        let lw = measure_width(line.as_str());
        let ghost prev = lines@.map_values(|l: String| l@);
        if lw > final_width {
            let mut truncated = truncate_to(line.as_str(), final_width - 3);
            truncated.append("...");
            proof {
                assert(truncated@ =~= spec_fit_line(content_views[c as int], final_width as int));
            }
            lines.push(truncated);
        } else {
            proof {
                assert(content_views[c as int] == spec_fit_line(
                    content_views[c as int],
                    final_width as int,
                ));
            }
            lines.push(line.clone());
        }
        proof {
            assert(lines@.map_values(|l: String| l@) =~= prev.push(
                spec_fit_line(content_views[c as int], final_width as int),
            ));
            assert(content_views.subrange(1, c as int + 1).map_values(
                |l: Seq<char>| spec_fit_line(l, final_width as int),
            ) =~= content_views.subrange(1, c as int).map_values(
                |l: Seq<char>| spec_fit_line(l, final_width as int),
            ).push(spec_fit_line(content_views[c as int], final_width as int)));
        }
        c = c + 1;
    }
    let foot = repeat_str("\u{2550}", final_width);
    let ghost prev = lines@.map_values(|l: String| l@);
    lines.push(maybe_styled("2", foot, color));
    proof {
        assert(content_views.subrange(1, cl as int) =~= content_views.drop_first());
        assert(content_views.drop_first() =~= spec_mg_content(mgv, 0, color)) by {
            assert(content_views =~= seq![content_views[0]] + spec_mg_content(mgv, 0, color));
        }
        assert(lines@.map_values(|l: String| l@) =~= prev.push(
            spec_maybe_styled("2"@, spec_repeat("\u{2550}"@, final_width as nat), color),
        ));
        assert(lines@.map_values(|l: String| l@) =~= spec_block_lines(
            analyzer_name@,
            mgv,
            color,
        ));
    }
    RenderedAnalyzer { lines, width: final_width }
}

proof fn lemma_flat_step(fl: Seq<(Seq<char>, Seq<usize>)>, j: int, color: bool)
    requires
        0 <= j < fl.len(),
    ensures
        spec_file_lines_flat(fl, j, color) == spec_file_entry_lines(fl[j].0, fl[j].1, color)
            + spec_file_lines_flat(fl, j + 1, color),
{
}

proof fn lemma_content_step(
    mg: Seq<(Seq<char>, Seq<(Seq<char>, Seq<usize>)>)>,
    i: int,
    color: bool,
)
    requires
        0 <= i < mg.len(),
    ensures
        spec_mg_content(mg, i, color) == seq![
            "  "@ + mg[i].0,
            Seq::<char>::empty(),
        ] + spec_message_section(mg[i].1, 0, color) + spec_mg_content(mg, i + 1, color),
        spec_mg_width(
            spec_grow_all(
                spec_grow(0, "  "@ + mg[i].0),
                spec_file_lines_flat(mg[i].1, 0, color),
            ),
            mg,
            i + 1,
            color,
        ) == spec_mg_width(0, mg, i, color),
{
}

/// A message's section is its flattened file lines, closed by one blank
/// line.
proof fn lemma_section_flat(fl: Seq<(Seq<char>, Seq<usize>)>, i: int, color: bool)
    requires
        0 <= i <= fl.len(),
    ensures
        spec_message_section(fl, i, color) == spec_file_lines_flat(fl, i, color) + seq![
            Seq::<char>::empty(),
        ],
    decreases fl.len() - i,
{
    if i == fl.len() {
        assert(spec_message_section(fl, i, color) =~= Seq::<Seq<char>>::empty() + seq![
            Seq::<char>::empty(),
        ]);
    } else {
        lemma_section_flat(fl, i + 1, color);
        assert(spec_file_entry_lines(fl[i].0, fl[i].1, color) + (spec_file_lines_flat(
            fl,
            i + 1,
            color,
        ) + seq![Seq::<char>::empty()]) =~= (spec_file_entry_lines(fl[i].0, fl[i].1, color)
            + spec_file_lines_flat(fl, i + 1, color)) + seq![Seq::<char>::empty()]);
    }
}

/// A block as its views: the lines and the width.
pub open spec fn block_view(b: RenderedAnalyzer) -> (Seq<Seq<char>>, int) {
    (b.lines@.map_values(|l: String| l@), b.width as int)
}

/// A block list as its views.
pub open spec fn blocks_view(bs: Seq<RenderedAnalyzer>) -> Seq<(Seq<Seq<char>>, int)> {
    bs.map_values(|b: RenderedAnalyzer| block_view(b))
}

/// The widest block width, floored at the minimum analyzer width.
pub open spec fn spec_blocks_max_width(bs: Seq<(Seq<Seq<char>>, int)>) -> int
    decreases bs.len(),
{
    if bs.len() == 0 {
        MIN_ANALYZER_WIDTH as int
    } else {
        let rest = spec_blocks_max_width(bs.drop_last());
        if bs.last().1 > rest {
            bs.last().1
        } else {
            rest
        }
    }
}

/// A column count fits when the columns and the gaps between them stay
/// within the terminal width.
pub open spec fn spec_report_fits(cols: int, w: int, tw: int) -> bool {
    cols * w + (cols - 1) * COLUMN_GAP <= tw
}

/// The largest fitting column count, counting down from `c`.
pub open spec fn spec_columns_down(c: int, w: int, tw: int) -> int
    decreases c,
{
    if c <= 1 {
        1
    } else if spec_report_fits(c, w, tw) {
        c
    } else {
        spec_columns_down(c - 1, w, tw)
    }
}

/// The column count for the report grid: the largest count, at most the
/// block count, that fits the terminal; one column when nothing fits.
pub open spec fn spec_report_columns(bs: Seq<(Seq<Seq<char>>, int)>, tw: int) -> int {
    if bs.len() == 0 {
        1
    } else {
        spec_columns_down(bs.len() as int, spec_blocks_max_width(bs), tw)
    }
}

/// Calculate the number of columns for the report grid layout: the
/// largest count whose columns of the widest block width plus gaps fit
/// the terminal width.
pub fn calculate_columns(analyzers: &Vec<RenderedAnalyzer>, term_width: usize) -> (r: usize)
    ensures
        r as int == spec_report_columns(blocks_view(analyzers@), term_width as int),
        r >= 1,
{
    let ghost bv = blocks_view(analyzers@);
    if analyzers.len() == 0 {
        return 1;
    }
    let n = analyzers.len();
    let mut w: usize = MIN_ANALYZER_WIDTH;
    let mut i: usize = 0;
    proof {
        assert(bv.subrange(0, 0) =~= Seq::<(Seq<Seq<char>>, int)>::empty());
    }
    while i < n
        invariant
            i <= n,
            n == analyzers@.len(),
            bv == blocks_view(analyzers@),
            bv.len() == n,
            w as int == spec_blocks_max_width(bv.subrange(0, i as int)),
        decreases n - i,
    {
        proof {
            assert(bv.subrange(0, i as int + 1).drop_last() =~= bv.subrange(0, i as int));
            assert(bv.subrange(0, i as int + 1).last() == bv[i as int]);
        }
        if analyzers[i].width > w {
            w = analyzers[i].width;
        }
        i = i + 1;
    }
    proof {
        assert(bv.subrange(0, n as int) =~= bv);
    }
    let mut cols: usize = n;
    while cols >= 2
        invariant
            1 <= cols <= n,
            n == analyzers@.len(),
            bv == blocks_view(analyzers@),
            bv.len() == n,
            w as int == spec_blocks_max_width(bv),
            spec_columns_down(n as int, w as int, term_width as int) == spec_columns_down(
                cols as int,
                w as int,
                term_width as int,
            ),
        decreases cols,
    {
        proof {
            assert(cols as u128 as int * w as u128 as int <= 0xffffffffffffffff
                * 0xffffffffffffffff) by (nonlinear_arith)
                requires
                    cols as u128 as int <= 0xffffffffffffffff,
                    w as u128 as int <= 0xffffffffffffffff,
                    cols as u128 as int >= 0,
                    w as u128 as int >= 0,
            ;
        }
        let cw: u128 = cols as u128 * w as u128;
        let gaps: u128 = (cols as u128 - 1) * COLUMN_GAP as u128;
        proof {
            assert(cw as int == cols as int * w as int);
            assert(gaps as int == (cols as int - 1) * COLUMN_GAP);
        }
        if cw <= term_width as u128 && gaps <= term_width as u128 - cw {
            proof {
                assert(spec_report_fits(cols as int, w as int, term_width as int));
                assert(spec_columns_down(cols as int, w as int, term_width as int)
                    == cols as int);
            }
            return cols;
        }
        proof {
            assert(!spec_report_fits(cols as int, w as int, term_width as int));
        }
        cols = cols - 1;
    }
    1
}

/// One padded grid row of a chunk of blocks, closed by a newline.
pub open spec fn spec_report_row(
    chunk: Seq<(Seq<Seq<char>>, int)>,
    row: int,
    w: nat,
) -> Seq<char>
    decreases chunk.len(),
{
    if chunk.len() == 0 {
        Seq::empty()
    } else if chunk.len() == 1 {
        crate::differ::display::formatting::spec_pad(report_line_of(chunk[0], row), w)
    } else {
        crate::differ::display::formatting::spec_pad(report_line_of(chunk[0], row), w)
            + spec_repeat(" "@, COLUMN_GAP as nat) + spec_report_row(chunk.drop_first(), row, w)
    }
}

/// The line of a block at a row, or empty past its end.
pub open spec fn report_line_of(b: (Seq<Seq<char>>, int), row: int) -> Seq<char> {
    if 0 <= row < b.0.len() {
        b.0[row]
    } else {
        Seq::empty()
    }
}

/// The most lines any block of the chunk holds.
pub open spec fn spec_report_max_lines(chunk: Seq<(Seq<Seq<char>>, int)>) -> int
    decreases chunk.len(),
{
    if chunk.len() == 0 {
        0
    } else {
        let rest = spec_report_max_lines(chunk.drop_last());
        if chunk.last().0.len() > rest {
            chunk.last().0.len() as int
        } else {
            rest
        }
    }
}

/// The text of one chunk: its rows, a newline after each, and a blank
/// line after the chunk.
pub open spec fn spec_report_chunk(chunk: Seq<(Seq<Seq<char>>, int)>, w: nat) -> Seq<char> {
    spec_report_chunk_rows(chunk, 0, w) + "\n"@
}

/// The rows of one chunk from `row` on.
pub open spec fn spec_report_chunk_rows(
    chunk: Seq<(Seq<Seq<char>>, int)>,
    row: int,
    w: nat,
) -> Seq<char>
    decreases spec_report_max_lines(chunk) - row,
{
    if row < 0 || row >= spec_report_max_lines(chunk) {
        Seq::empty()
    } else {
        spec_report_row(chunk, row, w) + "\n"@ + spec_report_chunk_rows(chunk, row + 1, w)
    }
}

/// The text of the blocks taken in chunks of `columns`.
pub open spec fn spec_report_grid_chunks(
    bs: Seq<(Seq<Seq<char>>, int)>,
    columns: nat,
    w: nat,
) -> Seq<char>
    decreases bs.len(),
{
    if columns == 0 || bs.len() == 0 {
        Seq::empty()
    } else if bs.len() <= columns {
        spec_report_chunk(bs, w)
    } else {
        spec_report_chunk(bs.take(columns as int), w) + spec_report_grid_chunks(
            bs.skip(columns as int),
            columns,
            w,
        )
    }
}

/// The blocks printed one under the other: each block's lines with a
/// newline each, then a blank line.
pub open spec fn spec_report_single(bs: Seq<(Seq<Seq<char>>, int)>) -> Seq<char>
    decreases bs.len(),
{
    if bs.len() == 0 {
        Seq::empty()
    } else {
        spec_report_single(bs.drop_last()) + spec_report_block_text(bs.last().0, 0) + "\n"@
    }
}

/// One block's lines, each closed by a newline, from `i` on.
pub open spec fn spec_report_block_text(lines: Seq<Seq<char>>, i: int) -> Seq<char>
    decreases lines.len() - i,
{
    if i < 0 || i >= lines.len() {
        Seq::empty()
    } else {
        lines[i] + "\n"@ + spec_report_block_text(lines, i + 1)
    }
}

/// The widest block width, or zero when there is none.
pub open spec fn spec_blocks_plain_max(bs: Seq<(Seq<Seq<char>>, int)>) -> int
    decreases bs.len(),
{
    if bs.len() == 0 {
        0
    } else {
        let rest = spec_blocks_plain_max(bs.drop_last());
        if bs.last().1 > rest {
            bs.last().1
        } else {
            rest
        }
    }
}

/// What the report grid renders to.
pub open spec fn spec_report_grid(bs: Seq<(Seq<Seq<char>>, int)>, columns: nat) -> Seq<char> {
    if bs.len() == 0 {
        Seq::empty()
    } else if columns == 1 {
        spec_report_single(bs)
    } else {
        spec_report_grid_chunks(bs, columns, spec_blocks_plain_max(bs) as nat)
    }
}

/// Renders analyzer blocks in a grid layout, as one text: chunks of
/// `columns` blocks side by side, lines padded by visible width to the
/// widest block's width, with a blank line after each chunk; a single
/// column prints the blocks one under the other.
pub fn render_grid(analyzers: &Vec<RenderedAnalyzer>, columns: usize) -> (r: String)
    requires
        columns >= 1,
    ensures
        r@ == spec_report_grid(blocks_view(analyzers@), columns as nat),
{
    let ghost bv = blocks_view(analyzers@);
    let mut out = String::new();
    if analyzers.len() == 0 {
        return out;
    }
    if columns == 1 {
        let n = analyzers.len();
        let mut i: usize = 0;
        proof {
            assert(bv.subrange(0, 0) =~= Seq::<(Seq<Seq<char>>, int)>::empty());
            assert(out@ =~= spec_report_single(bv.subrange(0, 0)));
        }
        while i < n
            invariant
                i <= n,
                n == analyzers@.len(),
                bv == blocks_view(analyzers@),
                bv.len() == n,
                out@ == spec_report_single(bv.subrange(0, i as int)),
            decreases n - i,
        {
            let block = &analyzers[i];
            let m = block.lines.len();
            let mut j: usize = 0;
            let ghost base = out@;
            proof {
                assert(bv[i as int].0.len() == m);
            }
            while j < m
                invariant
                    j <= m,
                    i < n,
                    bv == blocks_view(analyzers@),
                    bv.len() == n,
                    n == analyzers@.len(),
                    m == analyzers@[i as int].lines@.len(),
                    block == analyzers@[i as int],
                    base + spec_report_block_text(bv[i as int].0, 0) == out@
                        + spec_report_block_text(bv[i as int].0, j as int),
                decreases m - j,
            {
                out.append(block.lines[j].as_str());
                out.append("\n");
                proof {
                    assert(bv[i as int].0[j as int] == analyzers@[i as int].lines@[j as int]@);
                }
                j = j + 1;
            }
            out.append("\n");
            proof {
                assert(spec_report_block_text(bv[i as int].0, m as int)
                    =~= Seq::<char>::empty());
                assert(bv.subrange(0, i as int + 1).drop_last() =~= bv.subrange(0, i as int));
                assert(bv.subrange(0, i as int + 1).last() == bv[i as int]);
                assert(out@ =~= spec_report_single(bv.subrange(0, i as int + 1)));
            }
            i = i + 1;
        }
        proof {
            assert(bv.subrange(0, n as int) =~= bv);
        }
        return out;
    }
    let n = analyzers.len();
    let mut w: usize = 0;
    let mut i: usize = 0;
    proof {
        assert(bv.subrange(0, 0) =~= Seq::<(Seq<Seq<char>>, int)>::empty());
    }
    while i < n
        invariant
            i <= n,
            n == analyzers@.len(),
            bv == blocks_view(analyzers@),
            bv.len() == n,
            w as int == spec_blocks_plain_max(bv.subrange(0, i as int)),
        decreases n - i,
    {
        proof {
            assert(bv.subrange(0, i as int + 1).drop_last() =~= bv.subrange(0, i as int));
            assert(bv.subrange(0, i as int + 1).last() == bv[i as int]);
        }
        if analyzers[i].width > w {
            w = analyzers[i].width;
        }
        i = i + 1;
    }
    proof {
        assert(bv.subrange(0, n as int) =~= bv);
    }
    let mut start: usize = 0;
    while start < n
        invariant
            start <= n,
            n == analyzers@.len(),
            bv == blocks_view(analyzers@),
            bv.len() == n,
            columns >= 2,
            w as int == spec_blocks_plain_max(bv),
            out@ + spec_report_grid_chunks(bv.skip(start as int), columns as nat, w as nat)
                == spec_report_grid_chunks(bv, columns as nat, w as nat),
        decreases n - start,
    {
        let end = if n - start < columns {
            n
        } else {
            start + columns
        };
        let ghost chunk = bv.subrange(start as int, end as int);
        let mut max_lines: usize = 0;
        let mut k: usize = start;
        proof {
            assert(bv.subrange(start as int, start as int) =~= Seq::<
                (Seq<Seq<char>>, int),
            >::empty());
        }
        while k < end
            invariant
                start <= k <= end,
                start < end <= n,
                bv == blocks_view(analyzers@),
                bv.len() == n,
                n == analyzers@.len(),
                chunk == bv.subrange(start as int, end as int),
                max_lines as int == spec_report_max_lines(bv.subrange(start as int, k as int)),
            decreases end - k,
        {
            proof {
                assert(bv.subrange(start as int, k as int + 1).drop_last() =~= bv.subrange(
                    start as int,
                    k as int,
                ));
                assert(bv.subrange(start as int, k as int + 1).last() == bv[k as int]);
                assert(bv[k as int].0.len() == analyzers@[k as int].lines@.len());
            }
            if analyzers[k].lines.len() > max_lines {
                max_lines = analyzers[k].lines.len();
            }
            k = k + 1;
        }
        let ghost base = out@;
        let mut row: usize = 0;
        proof {
            assert(bv.subrange(start as int, end as int) == chunk);
        }
        while row < max_lines
            invariant
                row <= max_lines,
                start < end <= n,
                bv == blocks_view(analyzers@),
                bv.len() == n,
                n == analyzers@.len(),
                chunk == bv.subrange(start as int, end as int),
                max_lines as int == spec_report_max_lines(chunk),
                base + spec_report_chunk_rows(chunk, 0, w as nat) == out@
                    + spec_report_chunk_rows(chunk, row as int, w as nat),
            decreases max_lines - row,
        {
            let mut col: usize = start;
            let ghost row_base = out@;
            while col < end
                invariant
                    start <= col <= end,
                    start < end <= n,
                    bv == blocks_view(analyzers@),
                    bv.len() == n,
                    n == analyzers@.len(),
                    chunk == bv.subrange(start as int, end as int),
                    col > start ==> row_base + spec_report_row(chunk, row as int, w as nat)
                        == out@ + spec_report_row(
                        bv.subrange(col as int, end as int),
                        row as int,
                        w as nat,
                    ),
                    col == start ==> out@ == row_base,
                decreases end - col,
            {
                let piece = if row < analyzers[col].lines.len() {
                    crate::differ::display::formatting::pad_to_width(
                        analyzers[col].lines[row].as_str(),
                        w,
                    )
                } else {
                    crate::differ::display::formatting::pad_to_width("", w)
                };
                proof {
                    reveal_strlit("");
                    assert(""@ =~= Seq::<char>::empty());
                    assert(bv[col as int].0.len() == analyzers@[col as int].lines@.len());
                    if row < analyzers@[col as int].lines@.len() {
                        assert(bv[col as int].0[row as int] == analyzers@[col as int].lines@[
                            row as int]@);
                    }
                    assert(piece@ == crate::differ::display::formatting::spec_pad(
                        report_line_of(bv[col as int], row as int),
                        w as nat,
                    ));
                }
                out.append(piece.as_str());
                if col + 1 < end {
                    let gap = repeat_str(" ", COLUMN_GAP);
                    out.append(gap.as_str());
                }
                proof {
                    let tail = bv.subrange(col as int, end as int);
                    assert(tail[0] == bv[col as int]);
                    assert(tail.drop_first() =~= bv.subrange(col as int + 1, end as int));
                    if col == start {
                        assert(tail =~= chunk);
                    }
                }
                col = col + 1;
            }
            proof {
                assert(bv.subrange(end as int, end as int).len() == 0);
                if end == start + 1 {
                    assert(chunk.len() == 1);
                }
                assert(row_base + spec_report_row(chunk, row as int, w as nat) =~= out@);
            }
            out.append("\n");
            row = row + 1;
        }
        out.append("\n");
        proof {
            assert(spec_report_chunk_rows(chunk, max_lines as int, w as nat)
                =~= Seq::<char>::empty());
            let rest = bv.skip(start as int);
            assert(rest.len() == n - start);
            if n - start <= columns {
                assert(end == n);
                assert(chunk =~= rest);
                assert(bv.skip(end as int).len() == 0);
                assert(spec_report_grid_chunks(Seq::<(Seq<Seq<char>>, int)>::empty(), columns as nat, w as nat)
                    =~= Seq::<char>::empty());
            } else {
                assert(end == start + columns);
                assert(rest.take(columns as int) =~= chunk);
                assert(rest.skip(columns as int) =~= bv.skip(end as int));
            }
        }
        start = end;
    }
    proof {
        assert(bv.skip(n as int).len() == 0);
        assert(spec_report_grid_chunks(bv.skip(n as int), columns as nat, w as nat)
            =~= Seq::<char>::empty());
        assert(out@ + Seq::<char>::empty() =~= out@);
    }
    out
}

/// The position of a name among the groups, front first.
pub open spec fn spec_lookup_idx(
    ag: Seq<(Seq<char>, Seq<(Seq<char>, Seq<(Seq<char>, Seq<usize>)>)>)>,
    name: Seq<char>,
) -> Option<int>
    decreases ag.len(),
{
    if ag.len() == 0 {
        None
    } else if ag[0].0 == name {
        Some(0)
    } else {
        match spec_lookup_idx(ag.drop_first(), name) {
            Some(k) => Some(k + 1),
            None => None,
        }
    }
}

proof fn lemma_lookup_idx(
    ag: Seq<(Seq<char>, Seq<(Seq<char>, Seq<(Seq<char>, Seq<usize>)>)>)>,
    name: Seq<char>,
    k: int,
)
    requires
        0 <= k < ag.len(),
        ag[k].0 == name,
        forall|j: int| 0 <= j < k ==> (#[trigger] ag[j]).0 != name,
    ensures
        spec_lookup_idx(ag, name) == Some(k),
    decreases k,
{
    if k == 0 {
    } else {
        assert(ag[0].0 != name);
        assert(ag.drop_first()[k - 1] == ag[k]);
        assert(forall|j: int| 0 <= j < k - 1 ==> (#[trigger] ag.drop_first()[j]).0 != name);
        lemma_lookup_idx(ag.drop_first(), name, k - 1);
    }
}

proof fn lemma_lookup_idx_none(
    ag: Seq<(Seq<char>, Seq<(Seq<char>, Seq<(Seq<char>, Seq<usize>)>)>)>,
    name: Seq<char>,
)
    requires
        forall|j: int| 0 <= j < ag.len() ==> (#[trigger] ag[j]).0 != name,
    ensures
        spec_lookup_idx(ag, name) is None,
    decreases ag.len(),
{
    if ag.len() > 0 {
        assert(forall|j: int| 0 <= j < ag.len() - 1 ==> (#[trigger] ag.drop_first()[j]).0 != name);
        lemma_lookup_idx_none(ag.drop_first(), name);
    }
}

/// Finds the groups stored under an analyzer name.
fn find_group(ag: &AnalyzerGroups, name: &str) -> (r: Option<usize>)
    ensures
        match r {
            Some(k) => k < ag@.len() && spec_lookup_idx(analyzer_groups_view(ag@), name@) == Some(
                k as int,
            ),
            None => spec_lookup_idx(analyzer_groups_view(ag@), name@) is None,
        },
{
    let ghost agv = analyzer_groups_view(ag@);
    let n = ag.len();
    let mut i: usize = 0;
    proof {
        assert(agv.len() == n);
    }
    while i < n
        invariant
            i <= n,
            n == ag@.len(),
            agv == analyzer_groups_view(ag@),
            agv.len() == n,
            forall|j: int| 0 <= j < i ==> (#[trigger] agv[j]).0 != name@,
        decreases n - i,
    {
        if crate::strutil::str_eq(ag[i].0.as_str(), name) {
            proof {
                assert(agv[i as int].0 == name@);
                lemma_lookup_idx(agv, name@, i as int);
            }
            return Some(i);
        }
        proof {
            assert(agv[i as int].0 != name@);
        }
        i = i + 1;
    }
    proof {
        lemma_lookup_idx_none(agv, name@);
    }
    None
}

/// The message groups stored under a name; empty for an unknown name.
pub open spec fn spec_groups_of(
    ag: Seq<(Seq<char>, Seq<(Seq<char>, Seq<(Seq<char>, Seq<usize>)>)>)>,
    name: Seq<char>,
) -> Seq<(Seq<char>, Seq<(Seq<char>, Seq<usize>)>)> {
    match spec_lookup_idx(ag, name) {
        Some(k) => ag[k].1,
        None => Seq::empty(),
    }
}

/// The rendered block models for the sorted names, from `i` on.
pub open spec fn spec_compact_blocks(
    ag: Seq<(Seq<char>, Seq<(Seq<char>, Seq<(Seq<char>, Seq<usize>)>)>)>,
    names: Seq<Seq<char>>,
    i: int,
    color: bool,
) -> Seq<(Seq<Seq<char>>, int)>
    decreases names.len() - i,
{
    if i < 0 || i >= names.len() {
        Seq::empty()
    } else {
        seq![
            (
                spec_block_lines(names[i], spec_groups_of(ag, names[i]), color),
                spec_block_final_width(names[i], spec_groups_of(ag, names[i]), color),
            ),
        ] + spec_compact_blocks(ag, names, i + 1, color)
    }
}

/// The compact rendering: the analyzers in alphabetical order as blocks,
/// laid out in terminal columns, then the totals.
pub open spec fn spec_display_compact(reports: Seq<Report>, color: bool, tw: int) -> Seq<char> {
    let ag = spec_issue_groups(reports);
    let names = ag.map_values(
        |p: (Seq<char>, Seq<(Seq<char>, Seq<(Seq<char>, Seq<usize>)>)>)| p.0,
    );
    let sorted = names.sort_by(crate::strutil::lex_leq());
    let blocks = spec_compact_blocks(ag, sorted, 0, color);
    spec_report_grid(blocks, spec_report_columns(blocks, tw) as nat) + spec_totals_block(
        spec_global_issues(reports) as nat,
        spec_global_fixable(reports) as nat,
        color,
    )
}

impl GlobalReport {
    /// Display the globally grouped report in compact mode: issues are
    /// grouped by analyzer and message across all files, each analyzer
    /// becomes one block naming the files and lines concerned, and the
    /// blocks stand in terminal columns, followed by the totals.
    pub fn display_compact(&self, color: bool, term_width: usize) -> (r: String)
        requires
            forall|k: int|
                0 <= k < spec_issue_groups(self.reports@).len() ==> spec_mg_total(
                    (#[trigger] spec_issue_groups(self.reports@)[k]).1,
                ) <= usize::MAX,
            spec_global_issues(self.reports@) <= usize::MAX,
            spec_global_fixable(self.reports@) <= usize::MAX,
            forall|j: int|
                0 <= j < self.reports@.len() ==> spec_total_issues(
                    (#[trigger] self.reports@[j]).results@,
                ) <= usize::MAX && spec_total_fixable(self.reports@[j].results@) <= usize::MAX,
        ensures
            r@ == spec_display_compact(self.reports@, color, term_width as int),
    {
        let ag = self.group_issues();
        let ghost agv = analyzer_groups_view(ag@);
        let mut names: Vec<String> = Vec::new();
        let n = ag.len();
        let mut i: usize = 0;
        proof {
            assert(agv.len() == n);
            assert(names@.map_values(|p: String| p@) =~= agv.map_values(
                |p: (Seq<char>, Seq<(Seq<char>, Seq<(Seq<char>, Seq<usize>)>)>)| p.0,
            ).subrange(0, 0));
        }
        while i < n
            invariant
                i <= n,
                n == ag@.len(),
                agv == analyzer_groups_view(ag@),
                agv.len() == n,
                names@.map_values(|p: String| p@) == agv.map_values(
                    |p: (Seq<char>, Seq<(Seq<char>, Seq<(Seq<char>, Seq<usize>)>)>)| p.0,
                ).subrange(0, i as int),
            decreases n - i,
        {
            let ghost prev = names@.map_values(|p: String| p@);
            names.push(ag[i].0.clone());
            proof {
                let keyviews = agv.map_values(
                    |p: (Seq<char>, Seq<(Seq<char>, Seq<(Seq<char>, Seq<usize>)>)>)| p.0,
                );
                assert(names@.map_values(|p: String| p@) =~= prev.push(keyviews[i as int]));
                assert(keyviews.subrange(0, i as int + 1) =~= keyviews.subrange(0, i as int).push(
                    keyviews[i as int],
                ));
            }
            i = i + 1;
        }
        proof {
            let keyviews = agv.map_values(
                |p: (Seq<char>, Seq<(Seq<char>, Seq<(Seq<char>, Seq<usize>)>)>)| p.0,
            );
            assert(keyviews.subrange(0, n as int) =~= keyviews);
        }
        let sorted = crate::strutil::sort_strings(&names);
        let ghost sorted_views = names@.map_values(|p: String| p@).sort_by(
            crate::strutil::lex_leq(),
        );
        let mut rendered: Vec<RenderedAnalyzer> = Vec::new();
        let m = sorted.len();
        let mut g: usize = 0;
        proof {
            assert(sorted_views.len() == m) by {
                crate::strutil::lemma_lex_total_ordering();
                names@.map_values(|p: String| p@).lemma_sort_by_ensures(
                    crate::strutil::lex_leq(),
                );
                assert(names@.map_values(|p: String| p@).to_multiset().len() == names@.map_values(
                    |p: String| p@,
                ).len()) by {
                    broadcast use vstd::seq_lib::group_to_multiset_ensures;

                }
                assert(sorted_views.to_multiset().len() == sorted_views.len()) by {
                    broadcast use vstd::seq_lib::group_to_multiset_ensures;

                }
            }
            assert(blocks_view(rendered@) =~= spec_compact_blocks(agv, sorted_views, 0, color)
                .subrange(0, 0));
            lemma_compact_blocks_len(agv, sorted_views, 0, color);
        }
        while g < m
            invariant
                g <= m,
                m == sorted@.len(),
                sorted_views == sorted@.map_values(|p: String| p@),
                sorted_views.len() == m,
                agv == analyzer_groups_view(ag@),
                agv.len() == ag@.len(),
                forall|k: int|
                    0 <= k < agv.len() ==> spec_mg_total((#[trigger] agv[k]).1) <= usize::MAX,
                blocks_view(rendered@) == spec_compact_blocks(agv, sorted_views, 0, color)
                    .subrange(0, g as int),
                spec_compact_blocks(agv, sorted_views, 0, color).len() == m,
            decreases m - g,
        {
            let ghost prev = blocks_view(rendered@);
            let block = match find_group(&ag, sorted[g].as_str()) {
                Some(k) => {
                    proof {
                        assert(agv[k as int].1 == message_groups_view(ag@[k as int].1@));
                        assert(spec_groups_of(agv, sorted_views[g as int]) == agv[k as int].1);
                    }
                    render_analyzer_block(sorted[g].as_str(), &ag[k].1, color)
                },
                None => {
                    let empty_groups: MessageGroups = Vec::new();
                    proof {
                        assert(message_groups_view(empty_groups@) =~= Seq::<
                            (Seq<char>, Seq<(Seq<char>, Seq<usize>)>),
                        >::empty());
                        assert(spec_groups_of(agv, sorted_views[g as int]) =~= Seq::<
                            (Seq<char>, Seq<(Seq<char>, Seq<usize>)>),
                        >::empty());
                        assert(spec_mg_total(message_groups_view(empty_groups@)) == 0);
                    }
                    render_analyzer_block(sorted[g].as_str(), &empty_groups, color)
                },
            };
            rendered.push(block);
            proof {
                let bs = spec_compact_blocks(agv, sorted_views, 0, color);
                lemma_compact_blocks_index(agv, sorted_views, g as int, color);
                assert(blocks_view(rendered@) =~= prev.push(bs[g as int]));
                assert(bs.subrange(0, g as int + 1) =~= bs.subrange(0, g as int).push(
                    bs[g as int],
                ));
            }
            g = g + 1;
        }
        proof {
            let bs = spec_compact_blocks(agv, sorted_views, 0, color);
            assert(bs.subrange(0, m as int) =~= bs);
        }
        let columns = calculate_columns(&rendered, term_width);
        let mut out = render_grid(&rendered, columns);
        let total = self.total_issues();
        let fixable = self.total_fixable();
        let ghost body = out@;
        if color {
            out.append("\n");
            let t = styled("1;32", "Total issues");
            out.append(t.as_str());
            out.append(": ");
            let tn = usize_to_string(total);
            let tns = styled("1;32", tn.as_str());
            out.append(tns.as_str());
            out.append("\n");
            let f = styled("1;32", "Fixable");
            out.append(f.as_str());
            out.append(": ");
            let fx = usize_to_string(fixable);
            let fxs = styled("1;32", fx.as_str());
            out.append(fxs.as_str());
            out.append("\n");
        } else {
            out.append("\nTotal issues: ");
            let tn = usize_to_string(total);
            out.append(tn.as_str());
            out.append("\nFixable: ");
            let fx = usize_to_string(fixable);
            out.append(fx.as_str());
            out.append("\n");
        }
        proof {
            assert(out@ =~= body + spec_totals_block(
                spec_global_issues(self.reports@) as nat,
                spec_global_fixable(self.reports@) as nat,
                color,
            ));
        }
        out
    }
}

/// Each position of the block list carries the block of its name.
proof fn lemma_compact_blocks_index(
    ag: Seq<(Seq<char>, Seq<(Seq<char>, Seq<(Seq<char>, Seq<usize>)>)>)>,
    names: Seq<Seq<char>>,
    g: int,
    color: bool,
)
    requires
        0 <= g < names.len(),
    ensures
        spec_compact_blocks(ag, names, 0, color).len() == names.len(),
        spec_compact_blocks(ag, names, 0, color)[g] == (
            spec_block_lines(names[g], spec_groups_of(ag, names[g]), color),
            spec_block_final_width(names[g], spec_groups_of(ag, names[g]), color),
        ),
{
    lemma_compact_blocks_len(ag, names, 0, color);
    lemma_compact_blocks_at(ag, names, 0, g, color);
}

proof fn lemma_compact_blocks_len(
    ag: Seq<(Seq<char>, Seq<(Seq<char>, Seq<(Seq<char>, Seq<usize>)>)>)>,
    names: Seq<Seq<char>>,
    i: int,
    color: bool,
)
    requires
        0 <= i <= names.len(),
    ensures
        spec_compact_blocks(ag, names, i, color).len() == names.len() - i,
    decreases names.len() - i,
{
    if i < names.len() {
        lemma_compact_blocks_len(ag, names, i + 1, color);
    }
}

proof fn lemma_compact_blocks_at(
    ag: Seq<(Seq<char>, Seq<(Seq<char>, Seq<(Seq<char>, Seq<usize>)>)>)>,
    names: Seq<Seq<char>>,
    i: int,
    g: int,
    color: bool,
)
    requires
        0 <= i <= g < names.len(),
    ensures
        spec_compact_blocks(ag, names, i, color)[g - i] == (
            spec_block_lines(names[g], spec_groups_of(ag, names[g]), color),
            spec_block_final_width(names[g], spec_groups_of(ag, names[g]), color),
        ),
    decreases g - i,
{
    lemma_compact_blocks_len(ag, names, i + 1, color);
    if i < g {
        lemma_compact_blocks_at(ag, names, i + 1, g, color);
    }
}

proof fn lemma_global_nonneg(reports: Seq<Report>, k: int)
    requires
        0 <= k <= reports.len(),
    ensures
        spec_global_issues(reports.subrange(0, k)) >= 0,
    decreases k,
{
    if k > 0 {
        lemma_global_nonneg(reports, k - 1);
        assert(reports.subrange(0, k).drop_last() =~= reports.subrange(0, k - 1));
        lemma_report_totals_nonneg(reports.subrange(0, k).last().results@);
    }
}

proof fn lemma_global_bound(reports: Seq<Report>, k: int)
    requires
        0 <= k <= reports.len(),
    ensures
        spec_global_issues(reports.subrange(0, k)) <= spec_global_issues(reports),
    decreases reports.len() - k,
{
    if k == reports.len() {
        assert(reports.subrange(0, k) =~= reports);
    } else {
        lemma_global_bound(reports, k + 1);
        assert(reports.subrange(0, k + 1).drop_last() =~= reports.subrange(0, k));
        assert(reports.subrange(0, k + 1).last() == reports[k]);
        lemma_report_totals_nonneg(reports[k].results@);
    }
}

proof fn lemma_global_fix_nonneg(reports: Seq<Report>, k: int)
    requires
        0 <= k <= reports.len(),
    ensures
        spec_global_fixable(reports.subrange(0, k)) >= 0,
    decreases k,
{
    if k > 0 {
        lemma_global_fix_nonneg(reports, k - 1);
        assert(reports.subrange(0, k).drop_last() =~= reports.subrange(0, k - 1));
        lemma_report_totals_nonneg(reports.subrange(0, k).last().results@);
    }
}

proof fn lemma_global_fix_bound(reports: Seq<Report>, k: int)
    requires
        0 <= k <= reports.len(),
    ensures
        spec_global_fixable(reports.subrange(0, k)) <= spec_global_fixable(reports),
    decreases reports.len() - k,
{
    if k == reports.len() {
        assert(reports.subrange(0, k) =~= reports);
    } else {
        lemma_global_fix_bound(reports, k + 1);
        assert(reports.subrange(0, k + 1).drop_last() =~= reports.subrange(0, k));
        assert(reports.subrange(0, k + 1).last() == reports[k]);
        lemma_report_totals_nonneg(reports[k].results@);
    }
}

} // verus!
