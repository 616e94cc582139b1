use cargo_quality::analyzer::{AnalysisResult, Fix, Issue};
use cargo_quality::report::{GlobalReport, Report};

#[test]
fn test_report_creation() {
    let report = Report::new("test.rs".to_string());
    assert_eq!(report.file_path, "test.rs");
    assert_eq!(report.results.len(), 0);
}

#[test]
fn test_report_add_result() {
    let mut report = Report::new("test.rs".to_string());
    let result = AnalysisResult { issues: vec![], fixable_count: 0 };

    report.add_result("test_analyzer".to_string(), result);
    assert_eq!(report.results.len(), 1);
}

#[test]
fn test_report_total_issues() {
    let mut report = Report::new("test.rs".to_string());

    let issue = Issue {
        line: 1,
        column: 1,
        message: "Test".to_string(),
        fix: Fix::Unavailable,
    };

    let result = AnalysisResult { issues: vec![issue], fixable_count: 1 };

    report.add_result("analyzer1".to_string(), result);
    assert_eq!(report.total_issues(), 1);
    assert_eq!(report.total_fixable(), 1);
}

#[test]
fn test_report_display_with_issues() {
    let mut report = Report::new("test.rs".to_string());

    let issue = Issue {
        line: 42,
        column: 15,
        message: "Test issue".to_string(),
        fix: Fix::Simple("Fix suggestion".to_string()),
    };

    let result = AnalysisResult { issues: vec![issue], fixable_count: 1 };

    report.add_result("test_analyzer".to_string(), result);

    let output = report.render();
    assert!(output.contains("Quality report for: test.rs"));
    assert!(output.contains("test_analyzer"));
    assert!(output.contains("42:15 - Test issue"));
    assert!(output.contains("Fix: Fix suggestion"));
    assert!(output.contains("Total issues: 1"));
    assert!(output.contains("Fixable: 1"));
}

#[test]
fn test_report_display_without_issues() {
    let mut report = Report::new("test.rs".to_string());

    let result = AnalysisResult { issues: vec![], fixable_count: 0 };

    report.add_result("empty_analyzer".to_string(), result);

    let output = report.render();
    assert!(output.contains("Quality report for: test.rs"));
    assert!(!output.contains("empty_analyzer"));
    assert!(output.contains("Total issues: 0"));
    assert!(output.contains("Fixable: 0"));
}

#[test]
fn test_report_display_issue_without_suggestion() {
    let mut report = Report::new("file.rs".to_string());

    let issue = Issue {
        line: 10,
        column: 5,
        message: "Warning message".to_string(),
        fix: Fix::Unavailable,
    };

    let result = AnalysisResult { issues: vec![issue], fixable_count: 0 };

    report.add_result("warn_analyzer".to_string(), result);

    let output = report.render();
    assert!(output.contains("10:5 - Warning message"));
    assert!(!output.contains("Fix:"));
}

#[test]
fn test_report_multiple_analyzers() {
    let mut report = Report::new("code.rs".to_string());

    let issue1 = Issue {
        line: 1,
        column: 1,
        message: "Issue 1".to_string(),
        fix: Fix::Simple("Fix 1".to_string()),
    };

    let issue2 = Issue {
        line: 2,
        column: 2,
        message: "Issue 2".to_string(),
        fix: Fix::Unavailable,
    };

    report.add_result(
        "analyzer1".to_string(),
        AnalysisResult { issues: vec![issue1], fixable_count: 1 },
    );

    report.add_result(
        "analyzer2".to_string(),
        AnalysisResult { issues: vec![issue2], fixable_count: 0 },
    );

    assert_eq!(report.total_issues(), 2);
    assert_eq!(report.total_fixable(), 1);

    let output = report.render();
    assert!(output.contains("analyzer1"));
    assert!(output.contains("analyzer2"));
    assert!(output.contains("Total issues: 2"));
}

#[test]
fn test_report_total_fixable() {
    let mut report = Report::new("test.rs".to_string());

    report.add_result(
        "analyzer1".to_string(),
        AnalysisResult { issues: vec![], fixable_count: 3 },
    );

    report.add_result(
        "analyzer2".to_string(),
        AnalysisResult { issues: vec![], fixable_count: 2 },
    );

    assert_eq!(report.total_fixable(), 5);
}

fn one_issue_report(path: &str, analyzer: &str, message: &str, line: usize) -> Report {
    let mut report = Report::new(path.to_string());
    let issue = Issue {
        line,
        column: 1,
        message: message.to_string(),
        fix: Fix::Unavailable,
    };
    report.add_result(
        analyzer.to_string(),
        AnalysisResult { issues: vec![issue], fixable_count: 0 },
    );
    report
}

#[test]
fn global_report_totals_and_verbose() {
    let mut global = GlobalReport::new();
    global.add_report(one_issue_report("a.rs", "demo", "first", 1));
    global.add_report(one_issue_report("b.rs", "demo", "second", 2));
    assert_eq!(global.total_issues(), 2);
    assert_eq!(global.total_fixable(), 0);
    let verbose = global.display_verbose(false);
    assert!(verbose.contains("Quality report for: a.rs"));
    assert!(verbose.contains("Quality report for: b.rs"));
    assert!(verbose.contains("Total issues: 2"));
}

#[test]
fn global_report_compact_groups_by_analyzer() {
    let mut global = GlobalReport::new();
    global.add_report(one_issue_report("a.rs", "zeta", "odd naming", 3));
    global.add_report(one_issue_report("b.rs", "alpha", "bad spacing", 7));
    let compact = global.display_compact(false, 200);
    assert!(compact.contains("[alpha] - 1 issues"));
    assert!(compact.contains("[zeta] - 1 issues"));
    assert!(compact.contains("odd naming"));
    assert!(compact.contains("bad spacing"));
    assert!(compact.contains("a.rs"));
    assert!(compact.contains("Total issues: 2"));
    // alphabetical: alpha's block is rendered before zeta's
    let ai = compact.find("[alpha]").unwrap();
    let zi = compact.find("[zeta]").unwrap();
    assert!(ai < zi || compact[..zi].contains("[alpha]"));
}

#[test]
fn compact_lists_sorted_line_numbers() {
    let mut report = Report::new("c.rs".to_string());
    let mk = |line: usize| Issue {
        line,
        column: 1,
        message: "same message".to_string(),
        fix: Fix::Unavailable,
    };
    report.add_result(
        "demo".to_string(),
        AnalysisResult { issues: vec![mk(9), mk(2), mk(5)], fixable_count: 0 },
    );
    let mut global = GlobalReport::new();
    global.add_report(report);
    let compact = global.display_compact(false, 200);
    assert!(compact.contains("Lines: 2, 5, 9"));
}
