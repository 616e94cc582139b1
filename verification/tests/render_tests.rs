use cargo_quality::differ::display::formatting::pad_to_width;
use cargo_quality::differ::display::interact::{interactive_choice, interactive_step, InteractiveChoice};
use cargo_quality::differ::display::render::{analyzer_counts, render_file_block};
use cargo_quality::differ::display::types::RenderedFile;
use cargo_quality::differ::types::{DiffEntry, FileDiff};
use cargo_quality::style::styled;

#[test]
fn test_render_file_block_empty() {
    let file = FileDiff::new("test.rs".to_string());
    let rendered = render_file_block(&file, false);

    assert!(!rendered.lines.is_empty());
    assert!(rendered.width >= 40);
}

#[test]
fn test_render_file_block_with_entry() {
    let mut file = FileDiff::new("test.rs".to_string());
    file.add_entry(DiffEntry {
        line: 10,
        analyzer: "test".to_string(),
        original: "old".to_string(),
        modified: "new".to_string(),
        description: "desc".to_string(),
        import: None,
    });

    let rendered = render_file_block(&file, false);
    assert!(rendered.line_count() > 5);
}

#[test]
fn test_render_file_block_with_import() {
    let mut file = FileDiff::new("test.rs".to_string());
    file.add_entry(DiffEntry {
        line: 10,
        analyzer: "path_import".to_string(),
        original: "std::fs::read()".to_string(),
        modified: "read()".to_string(),
        description: "Use import".to_string(),
        import: Some("use std::fs::read;".to_string()),
    });

    let rendered = render_file_block(&file, false);
    assert!(rendered.lines.iter().any(|l| l.contains("Imports")));
}

#[test]
fn test_render_file_block_multiple_analyzers() {
    let mut file = FileDiff::new("test.rs".to_string());

    file.add_entry(DiffEntry {
        line: 10,
        analyzer: "analyzer1".to_string(),
        original: "old1".to_string(),
        modified: "new1".to_string(),
        description: "desc1".to_string(),
        import: None,
    });

    file.add_entry(DiffEntry {
        line: 20,
        analyzer: "analyzer2".to_string(),
        original: "old2".to_string(),
        modified: "new2".to_string(),
        description: "desc2".to_string(),
        import: None,
    });

    let rendered = render_file_block(&file, false);
    assert!(rendered.lines.iter().any(|l| l.contains("analyzer1")));
    assert!(rendered.lines.iter().any(|l| l.contains("analyzer2")));
}

#[test]
fn test_render_respects_capacity() {
    let file = FileDiff::new("test.rs".to_string());
    let rendered = render_file_block(&file, false);

    assert!(rendered.lines.capacity() >= 20);
}

#[test]
fn test_line_count() {
    let mut rendered = RenderedFile { lines: Vec::new(), width: 40 };
    assert_eq!(rendered.line_count(), 0);

    rendered.lines.push("line1".to_string());
    assert_eq!(rendered.line_count(), 1);

    rendered.lines.push("line2".to_string());
    assert_eq!(rendered.line_count(), 2);
}

#[test]
fn test_clone() {
    let original = RenderedFile {
        lines: vec!["test".to_string()],
        width: 50,
    };

    let cloned = original.clone();
    assert_eq!(cloned.line_count(), 1);
    assert_eq!(cloned.width, 50);
}

#[test]
fn render_block_lists_changed_lines() {
    let mut file = FileDiff::new("demo.rs".to_string());
    file.add_entry(DiffEntry {
        line: 3,
        analyzer: "demo".to_string(),
        original: "old text".to_string(),
        modified: "new text".to_string(),
        description: "swap".to_string(),
        import: None,
    });
    let rendered = render_file_block(&file, false);
    assert!(rendered.lines.contains(&"File: demo.rs".to_string()));
    assert!(rendered.lines.contains(&"Line 3".to_string()));
    assert!(rendered.lines.contains(&"-    old text".to_string()));
    assert!(rendered.lines.contains(&"+    new text".to_string()));
    assert!(rendered.lines.contains(&"demo (1 issues)".to_string()));
}

#[test]
fn render_block_notes_removed_empty_lines() {
    let mut file = FileDiff::new("demo.rs".to_string());
    for line in [4usize, 9] {
        file.add_entry(DiffEntry {
            line,
            analyzer: "empty_lines".to_string(),
            original: String::new(),
            modified: String::new(),
            description: "blank".to_string(),
            import: None,
        });
    }
    let rendered = render_file_block(&file, false);
    // the list wraps at the block's running width, so the first number
    // closes the note line and the second starts a fresh one
    assert!(rendered
        .lines
        .iter()
        .any(|l| l.contains("Note: 2 empty lines will be removed from lines: 4")));
    assert!(rendered.lines.iter().any(|l| l == " 9"));
}

#[test]
fn pad_to_width_examples() {
    assert_eq!(pad_to_width("hello", 10), "hello     ");
    assert_eq!(pad_to_width("exactly10!", 10), "exactly10!");
    assert_eq!(pad_to_width("this is longer than ten", 10), "this is longer than ten");
    assert_eq!(pad_to_width("", 5), "     ");
}

#[test]
fn pad_measures_visible_width_through_escapes() {
    // the escape codes around the text must not count toward its width
    let colored = styled("31", "ab");
    let padded = pad_to_width(colored.as_str(), 4);
    assert_eq!(padded, format!("{}  ", colored));
}

#[test]
fn styled_wraps_text_in_escape_codes() {
    assert_eq!(styled("31", "hi"), "\u{1b}[31mhi\u{1b}[0m");
}

#[test]
fn analyzer_counts_in_first_seen_order() {
    let mut file = FileDiff::new("demo.rs".to_string());
    for (line, name) in [(1usize, "b"), (2, "a"), (3, "b")] {
        file.add_entry(DiffEntry {
            line,
            analyzer: name.to_string(),
            original: String::new(),
            modified: String::new(),
            description: String::new(),
            import: None,
        });
    }
    let counts = analyzer_counts(&file);
    assert_eq!(
        counts,
        vec![("b".to_string(), 2usize), ("a".to_string(), 1usize)]
    );
}

#[test]
fn interactive_choices_parse() {
    assert_eq!(interactive_choice("y"), InteractiveChoice::Apply);
    assert_eq!(interactive_choice(" YES \n"), InteractiveChoice::Apply);
    assert_eq!(interactive_choice("n"), InteractiveChoice::Skip);
    assert_eq!(interactive_choice("No"), InteractiveChoice::Skip);
    assert_eq!(interactive_choice("a"), InteractiveChoice::ApplyAll);
    assert_eq!(interactive_choice("all"), InteractiveChoice::ApplyAll);
    assert_eq!(interactive_choice("q"), InteractiveChoice::Quit);
    assert_eq!(interactive_choice("quit"), InteractiveChoice::Quit);
    assert_eq!(interactive_choice("maybe"), InteractiveChoice::Invalid);
}

#[test]
fn interactive_steps_follow_the_rule() {
    assert_eq!(interactive_step(false, InteractiveChoice::Apply), (true, false, false));
    assert_eq!(interactive_step(false, InteractiveChoice::Skip), (false, false, false));
    assert_eq!(interactive_step(false, InteractiveChoice::ApplyAll), (true, true, false));
    assert_eq!(interactive_step(false, InteractiveChoice::Quit), (false, false, true));
    assert_eq!(interactive_step(false, InteractiveChoice::Invalid), (false, false, false));
    // once apply-all is on, every change is taken without asking
    assert_eq!(interactive_step(true, InteractiveChoice::Quit), (true, true, false));
}
