use cargo_quality::analyzer::{AnalysisResult, Analyzer, Fix, Issue};
use cargo_quality::differ::generator::{apply_entry, entries_for_issues, generate_diff};
use cargo_quality::differ::types::{DiffEntry, DiffResult, FileDiff};
use cargo_quality::error::QualityError;
use syn::spanned::Spanned;
use syn::visit::Visit;

#[test]
fn test_diff_entry_creation() {
    let entry = DiffEntry {
        line: 10,
        analyzer: "test".to_string(),
        original: "old".to_string(),
        modified: "new".to_string(),
        description: "desc".to_string(),
        import: None,
    };

    assert_eq!(entry.line, 10);
    assert_eq!(entry.analyzer, "test");
}

#[test]
fn test_file_diff_new() {
    let diff = FileDiff::new("test.rs".to_string());
    assert_eq!(diff.path, "test.rs");
    assert_eq!(diff.total_changes(), 0);
}

#[test]
fn test_file_diff_add_entry() {
    let mut diff = FileDiff::new("test.rs".to_string());
    let entry = DiffEntry {
        line: 1,
        analyzer: "test".to_string(),
        original: "old".to_string(),
        modified: "new".to_string(),
        description: "desc".to_string(),
        import: None,
    };

    diff.add_entry(entry);
    assert_eq!(diff.total_changes(), 1);
}

#[test]
fn test_diff_result_new() {
    let result = DiffResult::new();
    assert_eq!(result.total_changes(), 0);
    assert_eq!(result.total_files(), 0);
}

#[test]
fn test_diff_result_add_file() {
    let mut result = DiffResult::new();
    let mut file_diff = FileDiff::new("test.rs".to_string());

    let entry = DiffEntry {
        line: 1,
        analyzer: "test".to_string(),
        original: "old".to_string(),
        modified: "new".to_string(),
        description: "desc".to_string(),
        import: None,
    };

    file_diff.add_entry(entry);
    result.add_file(file_diff);

    assert_eq!(result.total_files(), 1);
    assert_eq!(result.total_changes(), 1);
}

#[test]
fn test_diff_result_skip_empty_files() {
    let mut result = DiffResult::new();
    let file_diff = FileDiff::new("test.rs".to_string());
    result.add_file(file_diff);

    assert_eq!(result.total_files(), 0);
}

#[test]
fn test_diff_result_multiple_files() {
    let mut result = DiffResult::new();

    let mut file1 = FileDiff::new("file1.rs".to_string());
    file1.add_entry(DiffEntry {
        line: 1,
        analyzer: "test".to_string(),
        original: "old".to_string(),
        modified: "new".to_string(),
        description: "desc".to_string(),
        import: None,
    });

    let mut file2 = FileDiff::new("file2.rs".to_string());
    file2.add_entry(DiffEntry {
        line: 1,
        analyzer: "test".to_string(),
        original: "old".to_string(),
        modified: "new".to_string(),
        description: "desc".to_string(),
        import: None,
    });

    result.add_file(file1);
    result.add_file(file2);

    assert_eq!(result.total_files(), 2);
    assert_eq!(result.total_changes(), 2);
}

fn lines_of(content: &str) -> Vec<String> {
    content.lines().map(|l| l.to_string()).collect()
}

#[test]
fn entries_skip_unlocated_and_unfixable_issues() {
    let issues = vec![
        Issue {
            line: 0,
            column: 1,
            message: "unlocated".to_string(),
            fix: Fix::Simple("x".to_string()),
        },
        Issue {
            line: 1,
            column: 1,
            message: "unfixable".to_string(),
            fix: Fix::Unavailable,
        },
        Issue {
            line: 1,
            column: 1,
            message: "fixable".to_string(),
            fix: Fix::Simple("let y = 2;".to_string()),
        },
    ];
    let lines = lines_of("let x = 1;");
    let entries = entries_for_issues("demo", &issues, &lines);
    assert_eq!(entries.len(), 1);
    assert_eq!(entries[0].line, 1);
    assert_eq!(entries[0].analyzer, "demo");
    assert_eq!(entries[0].original, "let x = 1;");
    assert_eq!(entries[0].modified, "let y = 2;");
    assert_eq!(entries[0].description, "fixable");
    assert!(entries[0].import.is_none());
}

#[test]
fn entries_replace_first_occurrence_only() {
    let issues = vec![Issue {
        line: 1,
        column: 1,
        message: "import it".to_string(),
        fix: Fix::WithImport {
            import: "use std::fs::read;".to_string(),
            pattern: "std::fs::read".to_string(),
            replacement: "read".to_string(),
        },
    }];
    let lines = lines_of("let a = std::fs::read(f); let b = std::fs::read(g);");
    let entries = entries_for_issues("path_import", &issues, &lines);
    assert_eq!(entries.len(), 1);
    assert_eq!(
        entries[0].modified,
        "let a = read(f); let b = std::fs::read(g);"
    );
    assert_eq!(entries[0].import.as_deref(), Some("use std::fs::read;"));
}

#[test]
fn entries_out_of_range_line_yields_empty_original() {
    let issues = vec![Issue {
        line: 9,
        column: 1,
        message: "far away".to_string(),
        fix: Fix::Simple("x".to_string()),
    }];
    let lines = lines_of("only one line");
    let entries = entries_for_issues("demo", &issues, &lines);
    assert_eq!(entries.len(), 1);
    assert_eq!(entries[0].original, "");
}

#[test]
fn apply_entry_affected_line_equals_modified() {
    // diff-then-apply round trip: the applied content carries the
    // recorded modified text on the recorded line
    let content = "fn main() {\n    let x = 1;\n}\n";
    let entry = DiffEntry {
        line: 2,
        analyzer: "demo".to_string(),
        original: "    let x = 1;".to_string(),
        modified: "    let x = 2;".to_string(),
        description: "bump".to_string(),
        import: None,
    };
    let applied = apply_entry(content, &entry);
    assert_eq!(applied, "fn main() {\n    let x = 2;\n}\n");
    let affected: Vec<&str> = applied.lines().collect();
    assert_eq!(affected[1], entry.modified);
}

#[test]
fn apply_entry_out_of_range_keeps_lines() {
    let content = "a\nb\n";
    let entry = DiffEntry {
        line: 9,
        analyzer: "demo".to_string(),
        original: String::new(),
        modified: "zzz".to_string(),
        description: String::new(),
        import: None,
    };
    assert_eq!(apply_entry(content, &entry), "a\nb\n");
}

struct PathImportCollaborator {
    inner: cargo_quality::analyzers::PathImportAnalyzer,
}

struct PathCollector {
    issues: Vec<Issue>,
}

impl<'ast> Visit<'ast> for PathCollector {
    fn visit_expr_path(&mut self, node: &'ast syn::ExprPath) {
        let segments: Vec<String> = node
            .path
            .segments
            .iter()
            .map(|s| s.ident.to_string())
            .collect();
        let start = node.path.span().start();
        if let Some(issue) =
            cargo_quality::analyzers::PathImportAnalyzer::issue_for_path(
                &segments, start.line, start.column,
            )
        {
            self.issues.push(issue);
        }
        syn::visit::visit_expr_path(self, node);
    }
}

impl Analyzer for PathImportCollaborator {
    fn name(&self) -> &'static str {
        self.inner.name()
    }

    fn analyze(&self, ast: &syn::File, _content: &str) -> Result<AnalysisResult, QualityError> {
        let mut collector = PathCollector { issues: Vec::new() };
        collector.visit_file(ast);
        let fixable_count = collector.issues.len();
        Ok(AnalysisResult { issues: collector.issues, fixable_count })
    }

    fn fix(&self, _ast: &mut syn::File) -> Result<usize, QualityError> {
        Ok(0)
    }
}

#[test]
fn path_import_scenario_produces_one_entry() {
    // a qualified call becomes one diff entry carrying the import and
    // the bare function name on the modified line
    let content = "fn main() { let x = std::fs::read_to_string(\"f\"); }";
    let analyzers = vec![PathImportCollaborator {
        inner: cargo_quality::analyzers::PathImportAnalyzer::new(),
    }];
    let diff = generate_diff("test.rs", content, &analyzers).unwrap();
    assert_eq!(diff.total_changes(), 1);
    let entry = &diff.entries[0];
    assert_eq!(entry.import.as_deref(), Some("use std::fs::read_to_string;"));
    assert_eq!(
        entry.modified,
        "fn main() { let x = read_to_string(\"f\"); }"
    );
    assert_eq!(entry.original, content);
}

#[test]
fn generate_diff_with_no_analyzers_yields_empty_diff() {
    // success is owed on parsable text when no analyzer is registered
    let analyzers: Vec<PathImportCollaborator> = vec![];
    let diff = generate_diff("ok.rs", "fn main() {}", &analyzers).unwrap();
    assert_eq!(diff.path, "ok.rs");
    assert_eq!(diff.total_changes(), 0);
}

#[test]
fn generate_diff_rejects_unparsable_source() {
    let analyzers: Vec<PathImportCollaborator> = vec![];
    let result = generate_diff("bad.rs", "fn main() { invalid +++", &analyzers);
    match result {
        Err(QualityError::Parse(_)) => {}
        _ => panic!("expected a parse error"),
    }
}

#[test]
fn generate_diff_never_mutates_its_inputs() {
    // the same content and analyzer set give the same diff twice over
    let content = "fn main() { let x = std::fs::read_to_string(\"f\"); }";
    let analyzers = vec![PathImportCollaborator {
        inner: cargo_quality::analyzers::PathImportAnalyzer::new(),
    }];
    let first = generate_diff("test.rs", content, &analyzers).unwrap();
    let second = generate_diff("test.rs", content, &analyzers).unwrap();
    assert_eq!(first.entries, second.entries);
    assert_eq!(content, "fn main() { let x = std::fs::read_to_string(\"f\"); }");
}
