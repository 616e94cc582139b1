use cargo_quality::cli::{get_completion_config, Command, QualityArgs, Shell};

fn args_of(parts: &[&str]) -> Vec<String> {
    parts.iter().map(|s| s.to_string()).collect()
}

#[test]
fn test_cli_parsing_check() {
    let args = QualityArgs::parse_from(&args_of(&["cargo-qual", "check", "src"])).unwrap();
    match args.command {
        Command::Check { path, verbose, analyzer, color } => {
            assert_eq!(path, "src");
            assert!(!verbose);
            assert!(analyzer.is_none());
            assert!(!color);
        }
        _ => panic!("Expected Check command"),
    }
}

#[test]
fn test_cli_parsing_fix() {
    let args = QualityArgs::parse_from(&args_of(&["cargo-qual", "fix", "--dry-run"])).unwrap();
    match args.command {
        Command::Fix { path, dry_run, analyzer } => {
            assert_eq!(path, ".");
            assert!(dry_run);
            assert!(analyzer.is_none());
        }
        _ => panic!("Expected Fix command"),
    }
}

#[test]
fn test_cli_parsing_format() {
    let args = QualityArgs::parse_from(&args_of(&["cargo-qual", "format"])).unwrap();
    match args.command {
        Command::Format { path } => {
            assert_eq!(path, ".");
        }
        _ => panic!("Expected Format command"),
    }
}

#[test]
fn test_cli_parsing_check_verbose() {
    let args = QualityArgs::parse_from(&args_of(&["cargo-qual", "check", "--verbose"])).unwrap();
    match args.command {
        Command::Check { path, verbose, analyzer, color } => {
            assert_eq!(path, ".");
            assert!(verbose);
            assert!(analyzer.is_none());
            assert!(!color);
        }
        _ => panic!("Expected Check command"),
    }
}

#[test]
fn test_cli_parsing_fix_no_dry_run() {
    let args = QualityArgs::parse_from(&args_of(&["cargo-qual", "fix"])).unwrap();
    match args.command {
        Command::Fix { path, dry_run, analyzer } => {
            assert_eq!(path, ".");
            assert!(!dry_run);
            assert!(analyzer.is_none());
        }
        _ => panic!("Expected Fix command"),
    }
}

#[test]
fn test_cli_parsing_format_with_path() {
    let args = QualityArgs::parse_from(&args_of(&["cargo-qual", "format", "src/"])).unwrap();
    match args.command {
        Command::Format { path } => {
            assert_eq!(path, "src/");
        }
        _ => panic!("Expected Format command"),
    }
}

#[test]
fn test_cli_parsing_fmt() {
    let args = QualityArgs::parse_from(&args_of(&["cargo-qual", "fmt"])).unwrap();
    match args.command {
        Command::Fmt { path } => {
            assert_eq!(path, ".");
        }
        _ => panic!("Expected Fmt command"),
    }
}

#[test]
fn test_cli_parsing_fmt_with_path() {
    let args = QualityArgs::parse_from(&args_of(&["cargo-qual", "fmt", "src/"])).unwrap();
    match args.command {
        Command::Fmt { path } => {
            assert_eq!(path, "src/");
        }
        _ => panic!("Expected Fmt command"),
    }
}

#[test]
fn test_cli_parsing_help() {
    let args = QualityArgs::parse_from(&args_of(&["cargo-qual", "help"])).unwrap();
    match args.command {
        Command::Help => {}
        _ => panic!("Expected Help command"),
    }
}

#[test]
fn test_cli_parsing_diff() {
    let args = QualityArgs::parse_from(&args_of(&["cargo-qual", "diff"])).unwrap();
    match args.command {
        Command::Diff { path, summary, interactive, analyzer, color } => {
            assert_eq!(path, ".");
            assert!(!summary);
            assert!(!interactive);
            assert!(analyzer.is_none());
            assert!(!color);
        }
        _ => panic!("Expected Diff command"),
    }
}

#[test]
fn test_cli_parsing_diff_summary() {
    let args = QualityArgs::parse_from(&args_of(&["cargo-qual", "diff", "--summary"])).unwrap();
    match args.command {
        Command::Diff { path, summary, interactive, analyzer, color } => {
            assert_eq!(path, ".");
            assert!(summary);
            assert!(!interactive);
            assert!(analyzer.is_none());
            assert!(!color);
        }
        _ => panic!("Expected Diff command"),
    }
}

#[test]
fn test_cli_parsing_diff_interactive() {
    let args =
        QualityArgs::parse_from(&args_of(&["cargo-qual", "diff", "--interactive"])).unwrap();
    match args.command {
        Command::Diff { path, summary, interactive, analyzer, color } => {
            assert_eq!(path, ".");
            assert!(!summary);
            assert!(interactive);
            assert!(analyzer.is_none());
            assert!(!color);
        }
        _ => panic!("Expected Diff command"),
    }
}

#[test]
fn test_cli_parsing_diff_with_path() {
    let args = QualityArgs::parse_from(&args_of(&["cargo-qual", "diff", "src/"])).unwrap();
    match args.command {
        Command::Diff { path, summary, interactive, analyzer, color } => {
            assert_eq!(path, "src/");
            assert!(!summary);
            assert!(!interactive);
            assert!(analyzer.is_none());
            assert!(!color);
        }
        _ => panic!("Expected Diff command"),
    }
}

#[test]
fn test_cli_parsing_completions() {
    let args =
        QualityArgs::parse_from(&args_of(&["cargo-qual", "completions", "fish"])).unwrap();
    match args.command {
        Command::Completions { shell } => match shell {
            Shell::Fish => {}
            _ => panic!("Expected Fish shell"),
        },
        _ => panic!("Expected Completions command"),
    }
}

#[test]
fn test_cli_parsing_check_with_analyzer() {
    let args = QualityArgs::parse_from(&args_of(&[
        "cargo-qual",
        "check",
        "--analyzer",
        "inline_comments",
    ]))
    .unwrap();
    match args.command {
        Command::Check { path, verbose, analyzer, color } => {
            assert_eq!(path, ".");
            assert!(!verbose);
            assert_eq!(analyzer, Some("inline_comments".to_string()));
            assert!(!color);
        }
        _ => panic!("Expected Check command"),
    }
}

#[test]
fn cli_rejects_unknown_subcommand() {
    assert!(QualityArgs::parse_from(&args_of(&["cargo-qual", "frobnicate"])).is_err());
}

#[test]
fn cli_rejects_missing_flag_value() {
    assert!(QualityArgs::parse_from(&args_of(&["cargo-qual", "check", "--analyzer"])).is_err());
}

#[test]
fn cli_rejects_unknown_shell() {
    assert!(QualityArgs::parse_from(&args_of(&["cargo-qual", "completions", "tcsh"])).is_err());
}

#[test]
fn cli_completion_config_locations() {
    let fish = get_completion_config("fish", "/home/u/.config", "/home/u/.local/share").unwrap();
    assert_eq!(fish.1, "/home/u/.config/fish/completions");
    assert_eq!(fish.2, "cargo.fish");
    let bash = get_completion_config("bash", "/home/u/.config", "/home/u/.local/share").unwrap();
    assert_eq!(bash.1, "/home/u/.local/share/bash-completion/completions");
    assert_eq!(bash.2, "cargo-quality");
    let zsh = get_completion_config("zsh", "/home/u/.config", "/home/u/.local/share").unwrap();
    assert_eq!(zsh.1, "/home/u/.local/share/zsh/site-functions");
    assert_eq!(zsh.2, "_cargo-quality");
    assert!(get_completion_config("csh", "/c", "/d").is_none());
}
