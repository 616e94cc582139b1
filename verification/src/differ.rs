//! Diff generation and visualization: previewed changes per file, the
//! generator that computes them without mutating the tree, and the
//! responsive display layer.

pub mod display;
pub mod generator;
pub mod types;

pub use generator::generate_diff;
pub use types::DiffEntry;
pub use types::DiffResult;
pub use types::FileDiff;
