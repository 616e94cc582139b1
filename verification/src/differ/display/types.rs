//! Pre-rendered presentation units: the output lines of one file's block
//! and the visible width the block needs in a column.

use vstd::prelude::*;

verus! {

/// Pre-rendered file diff block with calculated dimensions. Lines may
/// embed terminal color escapes; the width counts visible characters only.
#[derive(Debug, Clone)]
pub struct RenderedFile {
    /// Output lines, possibly holding color escape codes.
    pub lines: Vec<String>,
    /// Maximum visible width among the lines, floored at the minimum
    /// block width.
    pub width: usize,
}

impl RenderedFile {
    /// Returns the number of lines in the rendered output.
    pub fn line_count(&self) -> (r: usize)
        ensures
            r == self.lines@.len(),
    {
        self.lines.len()
    }
}

} // verus!
