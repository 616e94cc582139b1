use cargo_quality::differ::display::grouping::{find_common_prefix, group_imports};

fn strs(parts: &[&str]) -> Vec<String> {
    parts.iter().map(|s| s.to_string()).collect()
}

#[test]
fn test_group_imports_deduplication() {
    let imports = strs(&["use std::fs::write;", "use std::fs::write;"]);
    let result = group_imports(&imports);
    assert_eq!(result.len(), 1);
}

#[test]
fn test_group_imports_same_root() {
    let imports = strs(&["use std::fs::write;", "use std::io::read;"]);
    let result = group_imports(&imports);
    assert_eq!(result.len(), 1);
    assert!(result[0].contains("std::{"));
}

#[test]
fn test_group_imports_common_path() {
    let imports = strs(&["use syn::visit::visit_file;", "use syn::visit::visit_expr;"]);
    let result = group_imports(&imports);
    assert_eq!(result.len(), 1);
    assert!(result[0].contains("syn::visit::{"));
}

#[test]
fn test_group_imports_empty() {
    let imports: Vec<String> = vec![];
    let result = group_imports(&imports);
    assert!(result.is_empty());
}

#[test]
fn test_find_common_prefix_same() {
    let paths = strs(&["visit::visit_file", "visit::visit_expr"]);
    let prefix = find_common_prefix(&paths);
    assert_eq!(prefix, "visit");
}

#[test]
fn test_find_common_prefix_different() {
    let paths = strs(&["fs::read", "io::write"]);
    let prefix = find_common_prefix(&paths);
    assert!(prefix.is_empty());
}

#[test]
fn test_find_common_prefix_empty() {
    let paths: Vec<String> = vec![];
    let prefix = find_common_prefix(&paths);
    assert!(prefix.is_empty());
}

#[test]
fn test_find_common_prefix_single() {
    let paths = strs(&["test::path"]);
    let prefix = find_common_prefix(&paths);
    assert!(prefix.is_empty());
}

#[test]
fn test_group_imports_multiple_roots() {
    let imports = strs(&["use std::fs::write;", "use syn::visit::visit_file;"]);
    let result = group_imports(&imports);
    assert_eq!(result.len(), 2);
}

#[test]
fn test_group_imports_single_item() {
    let imports = strs(&["use std::fs::write;"]);
    let result = group_imports(&imports);
    assert_eq!(result.len(), 1);
    assert_eq!(result[0], "use std::fs::write;");
}

#[test]
fn test_find_common_prefix_partial() {
    let paths = strs(&["a::b::c", "a::b::d", "a::b::e"]);
    let prefix = find_common_prefix(&paths);
    assert_eq!(prefix, "a::b");
}

#[test]
fn grouping_expands_back_to_dedup_input() {
    // a duplicate vanishes and the two remaining imports share one statement
    let imports = strs(&[
        "use std::fs::write;",
        "use std::fs::write;",
        "use std::io::read;",
    ]);
    let result = group_imports(&imports);
    assert_eq!(result, vec!["use std::{fs::write, io::read};".to_string()]);
}

#[test]
fn grouping_extracts_common_prefix_statement() {
    let imports = strs(&["use syn::visit::visit_file;", "use syn::visit::visit_expr;"]);
    let result = group_imports(&imports);
    assert_eq!(
        result,
        vec!["use syn::visit::{visit_expr, visit_file};".to_string()]
    );
}

#[test]
fn grouping_sorts_roots_alphabetically() {
    let imports = strs(&["use zzz::a;", "use aaa::b;", "use mmm::c;"]);
    let result = group_imports(&imports);
    assert_eq!(
        result,
        vec![
            "use aaa::b;".to_string(),
            "use mmm::c;".to_string(),
            "use zzz::a;".to_string()
        ]
    );
}

#[test]
fn grouping_bare_import_keeps_shape() {
    let imports = strs(&["use serde;"]);
    let result = group_imports(&imports);
    assert_eq!(result, vec!["use serde;".to_string()]);
}

#[test]
fn grouping_no_common_prefix_lists_full_paths() {
    let imports = strs(&["use std::fs::write;", "use std::io::read;", "use std::mem::swap;"]);
    let result = group_imports(&imports);
    assert_eq!(
        result,
        vec!["use std::{fs::write, io::read, mem::swap};".to_string()]
    );
}
