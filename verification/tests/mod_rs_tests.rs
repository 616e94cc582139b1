use cargo_quality::mod_rs::{collect_mod_rs_issues, create_issue, is_mod_rs, ModRsResult};

#[test]
fn test_result_default() {
    let result = ModRsResult::default();
    assert!(result.is_empty());
    assert_eq!(result.len(), 0);
}

#[test]
fn detects_mod_rs_file_names() {
    assert!(is_mod_rs("src/analyzers/mod.rs"));
    assert!(is_mod_rs("mod.rs"));
    assert!(!is_mod_rs("src/lib.rs"));
    assert!(!is_mod_rs("src/analyzers.rs"));
}

#[test]
fn issue_suggests_directory_name() {
    let issue = create_issue("src/analyzers/mod.rs").unwrap();
    assert_eq!(issue.path, "src/analyzers/mod.rs");
    assert_eq!(issue.suggested, "src/analyzers.rs");
    assert!(issue.message.contains("analyzers.rs"));
    assert!(issue.message.contains("analyzers/mod.rs"));
    assert_eq!(issue.line, 1);
    assert_eq!(issue.column, 1);
}

#[test]
fn issue_for_single_directory() {
    let issue = create_issue("utils/mod.rs").unwrap();
    assert_eq!(issue.suggested, "utils.rs");
}

#[test]
fn bare_file_has_no_issue() {
    assert!(create_issue("mod.rs").is_none());
}

#[test]
fn root_file_has_no_issue() {
    // the parent of /mod.rs is the root, which has no name to rename
    assert!(create_issue("/mod.rs").is_none());
    let paths = vec!["/mod.rs".to_string()];
    assert!(collect_mod_rs_issues(&paths).is_empty());
}

#[test]
fn collects_only_mod_rs_paths() {
    let paths = vec![
        "src/lib.rs".to_string(),
        "src/foo/mod.rs".to_string(),
        "src/bar/mod.rs".to_string(),
    ];
    let result = collect_mod_rs_issues(&paths);
    assert_eq!(result.len(), 2);
    assert!(!result.is_empty());
    assert_eq!(result.issues[0].path, "src/foo/mod.rs");
    assert_eq!(result.issues[1].path, "src/bar/mod.rs");
}
