//! Code-quality analysis library: analyzers report issues on parsed Rust
//! source, a diff generator previews fixes without touching the original
//! tree, import recommendations are grouped into minimal `use` statements,
//! and rendered blocks are laid out in terminal columns.

pub mod analyzer;
pub mod analyzers;
pub mod cli;
pub mod differ;
pub mod error;
pub mod formatter;
pub mod mod_rs;
pub mod report;
pub mod strutil;
pub mod style;
pub mod tree;
