use cargo_quality::analyzer::{AnalysisResult, Fix, Issue};

#[test]
fn test_fix_none() {
    let fix = Fix::Unavailable;
    assert!(!fix.is_available());
    assert!(fix.as_simple().is_none());
    assert!(fix.as_import().is_none());
}

#[test]
fn test_fix_simple() {
    let fix = Fix::Simple("replacement".to_string());
    assert!(fix.is_available());
    assert_eq!(fix.as_simple(), Some("replacement"));
    assert!(fix.as_import().is_none());
}

#[test]
fn test_fix_with_import() {
    let fix = Fix::WithImport {
        import: "use std::fs;".to_string(),
        pattern: "std::fs::read".to_string(),
        replacement: "fs::read()".to_string(),
    };
    assert!(fix.is_available());
    assert!(fix.as_simple().is_none());
    assert_eq!(
        fix.as_import(),
        Some(("use std::fs;", "std::fs::read", "fs::read()"))
    );
}

#[test]
fn test_issue_creation() {
    let issue = Issue {
        line: 42,
        column: 10,
        message: "Test issue".to_string(),
        fix: Fix::Simple("Fix suggestion".to_string()),
    };

    assert_eq!(issue.line, 42);
    assert_eq!(issue.column, 10);
    assert!(issue.fix.is_available());
}

#[test]
fn test_analysis_result_default() {
    let result = AnalysisResult::default();
    assert_eq!(result.issues.len(), 0);
    assert_eq!(result.fixable_count, 0);
}
