use cargo_quality::analyzers::{
    EmptyLinesAnalyzer, FormatArgsAnalyzer, InlineCommentsAnalyzer, PathImportAnalyzer,
};

fn lines_of(content: &str) -> Vec<String> {
    content.lines().map(|l| l.to_string()).collect()
}

#[test]
fn empty_lines_test_analyzer_name() {
    let analyzer = EmptyLinesAnalyzer::new();
    assert_eq!(analyzer.name(), "empty_lines");
}

#[test]
fn empty_lines_test_default_implementation() {
    let analyzer = EmptyLinesAnalyzer;
    assert_eq!(analyzer.name(), "empty_lines");
}

#[test]
fn format_args_test_analyzer_name() {
    let analyzer = FormatArgsAnalyzer::new();
    assert_eq!(analyzer.name(), "format_args");
}

#[test]
fn format_args_test_default_implementation() {
    let analyzer = FormatArgsAnalyzer;
    assert_eq!(analyzer.name(), "format_args");
}

#[test]
fn inline_comments_test_analyzer_name() {
    let analyzer = InlineCommentsAnalyzer::new();
    assert_eq!(analyzer.name(), "inline_comments");
}

#[test]
fn inline_comments_test_default_implementation() {
    let analyzer = InlineCommentsAnalyzer;
    assert_eq!(analyzer.name(), "inline_comments");
}

#[test]
fn path_import_test_analyzer_name() {
    let analyzer = PathImportAnalyzer::new();
    assert_eq!(analyzer.name(), "path_import");
}

#[test]
fn path_import_test_default_implementation() {
    let analyzer = PathImportAnalyzer;
    assert_eq!(analyzer.name(), "path_import");
}

#[test]
fn empty_lines_detects_inner_blank() {
    let content = "fn main() {\n    let x = 1;\n\n    let y = 2;\n}";
    let issues = EmptyLinesAnalyzer::check_block(1, 5, &lines_of(content));
    assert_eq!(issues.len(), 1);
    assert_eq!(issues[0].line, 3);
    assert_eq!(issues[0].column, 1);
    assert_eq!(
        issues[0].message,
        "Empty line in function body indicates untamed complexity"
    );
}

#[test]
fn empty_lines_ignores_blank_at_braces() {
    let after_open = "fn main() {\n\n    let x = 1;\n}";
    let issues = EmptyLinesAnalyzer::check_block(1, 4, &lines_of(after_open));
    assert_eq!(issues.len(), 0);

    let before_close = "fn main() {\n    let x = 1;\n\n}";
    let issues = EmptyLinesAnalyzer::check_block(1, 4, &lines_of(before_close));
    assert_eq!(issues.len(), 0);
}

#[test]
fn empty_lines_brace_helpers() {
    let lines = lines_of("fn main() {\n\n    x\n\n}");
    assert!(EmptyLinesAnalyzer::is_after_opening_brace(&lines, 1));
    assert!(!EmptyLinesAnalyzer::is_after_opening_brace(&lines, 0));
    assert!(EmptyLinesAnalyzer::is_before_closing_brace(&lines, 3));
    assert!(!EmptyLinesAnalyzer::is_before_closing_brace(&lines, 1));
}

#[test]
fn inline_comments_detects_plain_comment() {
    let content = "fn main() {\n    // note this\n    let x = 1;\n}";
    let issues = InlineCommentsAnalyzer::check_block(1, 4, &lines_of(content));
    assert_eq!(issues.len(), 1);
    assert_eq!(issues[0].line, 2);
    assert!(issues[0].message.contains("Inline comment found: \"note this\""));
    assert!(issues[0].message.contains("`let x = 1;`"));
    assert!(!issues[0].fix.is_available());
}

#[test]
fn inline_comments_ignores_doc_comment() {
    let content = "fn main() {\n    /// documented\n    let x = 1;\n}";
    let issues = InlineCommentsAnalyzer::check_block(1, 4, &lines_of(content));
    assert_eq!(issues.len(), 0);
}

#[test]
fn inline_comments_related_code_skips_blanks() {
    let lines = lines_of("a\n// c\n\n// d\n}\nlet z = 3;");
    let related = InlineCommentsAnalyzer::find_related_code_line(&lines, 1);
    assert_eq!(related, Some((5, "let z = 3;".to_string())));
}

#[test]
fn format_args_flags_positional() {
    let issue = FormatArgsAnalyzer::analyze_format_macro("\"Hello {}\" , name", 4, 2);
    let issue = issue.expect("positional argument should be flagged");
    assert_eq!(issue.line, 4);
    assert_eq!(issue.column, 2);
    assert_eq!(issue.message, "Use named format arguments instead of positional");
    assert!(!issue.fix.is_available());
}

#[test]
fn format_args_ignores_named() {
    assert!(FormatArgsAnalyzer::analyze_format_macro("\"Hello {name}\"", 1, 1).is_none());
    assert!(FormatArgsAnalyzer::analyze_format_macro("\"Hello {}\"", 1, 1).is_none());
}

#[test]
fn path_import_screaming_case() {
    assert!(PathImportAnalyzer::is_screaming_snake_case("MAX_VALUE_2"));
    assert!(!PathImportAnalyzer::is_screaming_snake_case("read_to_string"));
}

#[test]
fn path_import_stdlib_roots() {
    assert!(PathImportAnalyzer::is_stdlib_root("std"));
    assert!(PathImportAnalyzer::is_stdlib_root("core"));
    assert!(PathImportAnalyzer::is_stdlib_root("alloc"));
    assert!(!PathImportAnalyzer::is_stdlib_root("serde"));
}

fn segs(parts: &[&str]) -> Vec<String> {
    parts.iter().map(|s| s.to_string()).collect()
}

#[test]
fn path_import_extract_decisions() {
    assert!(PathImportAnalyzer::should_extract_to_import(&segs(&[
        "std", "fs", "read_to_string"
    ])));
    assert!(PathImportAnalyzer::should_extract_to_import(&segs(&["std", "fs"])));
    assert!(!PathImportAnalyzer::should_extract_to_import(&segs(&["Vec", "new"])));
    assert!(!PathImportAnalyzer::should_extract_to_import(&segs(&[
        "some", "module", "MAX_VALUE"
    ])));
    assert!(!PathImportAnalyzer::should_extract_to_import(&segs(&["fs", "read"])));
    assert!(!PathImportAnalyzer::should_extract_to_import(&segs(&["read"])));
}

#[test]
fn path_import_issue_fields() {
    let issue = PathImportAnalyzer::issue_for_path(&segs(&["std", "fs", "read"]), 7, 3)
        .expect("stdlib free function should be flagged");
    assert_eq!(issue.line, 7);
    assert_eq!(issue.column, 3);
    assert_eq!(issue.message, "Use import instead of path: std::fs::read");
    let (import, pattern, replacement) = issue.fix.as_import().unwrap();
    assert_eq!(import, "use std::fs::read;");
    assert_eq!(pattern, "std::fs::read");
    assert_eq!(replacement, "read");
}
