use cargo_quality::formatter::RustfmtConfig;

#[test]
fn test_default_config() {
    let config = RustfmtConfig::default();
    assert_eq!(config.max_width, 99);
    assert_eq!(config.trailing_comma, "Never");
    assert_eq!(config.brace_style, "SameLineWhere");
    assert_eq!(config.imports_granularity, "Crate");
    assert_eq!(config.group_imports, "StdExternalCrate");
    assert!(config.wrap_comments);
    assert!(config.format_code_in_doc_comments);
    assert!(!config.struct_lit_single_line);
    assert!(config.reorder_imports);
    assert!(config.unstable_features);
}

#[test]
fn test_config_to_args() {
    let config = RustfmtConfig::default();
    let args = config.to_args();

    assert!(args.contains(&"--config".to_string()));
    assert!(args.contains(&"max_width=99".to_string()));
    assert!(args.contains(&"trailing_comma=Never".to_string()));
    assert!(args.contains(&"brace_style=SameLineWhere".to_string()));
    assert!(args.contains(&"imports_granularity=Crate".to_string()));
    assert!(args.contains(&"group_imports=StdExternalCrate".to_string()));
}

#[test]
fn test_config_to_args_count() {
    let config = RustfmtConfig::default();
    let args = config.to_args();
    assert_eq!(args.len(), 22);
}

#[test]
fn test_config_to_args_pairs() {
    let config = RustfmtConfig::default();
    let args = config.to_args();

    for i in (0..args.len()).step_by(2) {
        assert_eq!(args[i], "--config");
        assert!(args[i + 1].contains('='));
    }
}

#[test]
fn config_numeric_and_boolean_settings() {
    let config = RustfmtConfig::default();
    let args = config.to_args();
    assert!(args.contains(&"struct_field_align_threshold=20".to_string()));
    assert!(args.contains(&"wrap_comments=true".to_string()));
    assert!(args.contains(&"struct_lit_single_line=false".to_string()));
}
