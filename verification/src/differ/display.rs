//! Responsive diff display: pre-rendered per-file blocks, import grouping,
//! width-aware padding and the column grid that lays blocks out side by
//! side.

pub mod formatting;
pub mod grid;
pub mod grouping;
pub mod interact;
pub mod render;
pub mod types;
