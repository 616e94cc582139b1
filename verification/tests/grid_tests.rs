use cargo_quality::differ::display::grid::{calculate_columns, render_grid};
use cargo_quality::differ::display::types::RenderedFile;

#[test]
fn test_calculate_columns_empty() {
    let files: Vec<RenderedFile> = vec![];
    let cols = calculate_columns(&files, 100);
    assert_eq!(cols, 1);
}

#[test]
fn test_calculate_columns_single_narrow() {
    let files = vec![RenderedFile { lines: Vec::new(), width: 40 }];
    let cols = calculate_columns(&files, 200);
    assert_eq!(cols, 1);
}

#[test]
fn test_calculate_columns_two_fit() {
    let files = vec![
        RenderedFile { lines: Vec::new(), width: 50 },
        RenderedFile { lines: Vec::new(), width: 50 },
    ];
    let cols = calculate_columns(&files, 150);
    assert!(cols >= 1);
}

#[test]
fn test_calculate_columns_narrow_terminal() {
    let files = vec![
        RenderedFile { lines: Vec::new(), width: 100 },
        RenderedFile { lines: Vec::new(), width: 100 },
    ];
    let cols = calculate_columns(&files, 80);
    assert_eq!(cols, 1);
}

#[test]
fn test_calculate_columns_wide_terminal() {
    let files = vec![
        RenderedFile { lines: Vec::new(), width: 40 },
        RenderedFile { lines: Vec::new(), width: 40 },
        RenderedFile { lines: Vec::new(), width: 40 },
    ];
    let cols = calculate_columns(&files, 250);
    assert!(cols >= 2);
}

#[test]
fn test_calculate_columns_respects_min_width() {
    let files = vec![RenderedFile { lines: Vec::new(), width: 30 }];
    let cols = calculate_columns(&files, 200);
    assert_eq!(cols, 1);
}

#[test]
fn single_block_wider_than_terminal_still_one_column() {
    // a block of width one hundred against a terminal of eighty
    let files = vec![RenderedFile { lines: Vec::new(), width: 100 }];
    assert_eq!(calculate_columns(&files, 80), 1);
}

#[test]
fn render_grid_single_column_stacks_blocks() {
    let a = RenderedFile {
        lines: vec!["a1".to_string(), "a2".to_string()],
        width: 40,
    };
    let b = RenderedFile { lines: vec!["b1".to_string()], width: 40 };
    let rows = render_grid(&vec![a, b], 1);
    assert_eq!(rows, vec!["a1", "a2", "", "b1", ""]);
}

#[test]
fn render_grid_two_columns_pads_and_aligns() {
    let a = RenderedFile {
        lines: vec!["aa".to_string(), "a2".to_string()],
        width: 4,
    };
    let b = RenderedFile { lines: vec!["bb".to_string()], width: 4 };
    let rows = render_grid(&vec![a, b], 2);
    // column width four, a gap of four spaces, ragged second column padded
    assert_eq!(rows.len(), 3);
    assert_eq!(rows[0], "aa      bb  ");
    assert_eq!(rows[1], "a2          ");
    assert_eq!(rows[2], "");
}

#[test]
fn render_grid_empty_is_empty() {
    let files: Vec<RenderedFile> = vec![];
    assert!(render_grid(&files, 2).is_empty());
}
