use cargo_quality::error::{
    FileNotFoundError, InvalidConfigError, IoError, ParseError, QualityError,
};
use cargo_quality::strutil::{
    contains_sub, dedup_strings, find_sub, join_with, replace_first, sort_strings, split_by,
    split_lines, trim_ascii, usize_to_string,
};

#[test]
fn split_lines_matches_line_semantics() {
    let lines = split_lines("a\nb\r\n\nc");
    assert_eq!(lines, vec!["a", "b", "", "c"]);
    let trailing = split_lines("x\n");
    assert_eq!(trailing, vec!["x"]);
    let empty = split_lines("");
    assert!(empty.is_empty());
}

#[test]
fn replace_first_touches_first_occurrence_only() {
    assert_eq!(replace_first("aXbXc", "X", "-"), "a-bXc");
    assert_eq!(replace_first("abc", "zz", "-"), "abc");
}

#[test]
fn find_and_contains() {
    assert_eq!(find_sub("hello world", "world"), Some(6));
    assert_eq!(find_sub("hello", "xyz"), None);
    assert!(contains_sub("a,b", ","));
    assert!(!contains_sub("ab", ","));
}

#[test]
fn split_and_join_round_trip() {
    let parts = split_by("a::b::c", "::");
    assert_eq!(parts, vec!["a", "b", "c"]);
    assert_eq!(join_with(&parts, "::"), "a::b::c");
    assert_eq!(split_by("abc", "::"), vec!["abc"]);
}

#[test]
fn dedup_keeps_first_occurrences() {
    let v = vec![
        "b".to_string(),
        "a".to_string(),
        "b".to_string(),
        "c".to_string(),
    ];
    assert_eq!(dedup_strings(&v), vec!["b", "a", "c"]);
}

#[test]
fn sorting_is_lexicographic() {
    let v = vec![
        "pear".to_string(),
        "apple".to_string(),
        "peach".to_string(),
    ];
    assert_eq!(sort_strings(&v), vec!["apple", "peach", "pear"]);
}

#[test]
fn decimal_rendering() {
    assert_eq!(usize_to_string(0), "0");
    assert_eq!(usize_to_string(7), "7");
    assert_eq!(usize_to_string(1203), "1203");
}

#[test]
fn trimming_strips_ascii_whitespace() {
    assert_eq!(trim_ascii("  x y\t\n"), "x y");
    assert_eq!(trim_ascii(""), "");
}

#[test]
fn errors_describe_their_kind() {
    assert_eq!(
        QualityError::Io(IoError::new("broken pipe".to_string())).describe(),
        "IO error: broken pipe"
    );
    assert_eq!(
        QualityError::Parse(ParseError::new("bad token".to_string())).describe(),
        "Parse error: bad token"
    );
    assert_eq!(
        QualityError::Config(InvalidConfigError::new("unknown analyzer".to_string())).describe(),
        "Invalid configuration: unknown analyzer"
    );
    assert_eq!(
        QualityError::NotFound(FileNotFoundError::new("/missing.rs".to_string())).describe(),
        "File not found: /missing.rs"
    );
}
