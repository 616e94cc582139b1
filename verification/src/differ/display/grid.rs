//! Responsive column layout: how many pre-rendered blocks fit side by
//! side in the terminal, and the rows that lay them out as aligned
//! columns.

use vstd::prelude::*;

use crate::differ::display::formatting::pad_to_width;
use crate::differ::display::formatting::spec_pad;
use crate::differ::display::types::RenderedFile;
use crate::strutil::repeat_str;
use crate::strutil::spec_repeat;

verus! {

/// Minimum space between columns in grid layout.
pub const COLUMN_GAP: usize = 4;

/// Minimum width for a file column to be considered viable.
pub const MIN_FILE_WIDTH: usize = 40;

/// The widest block width, floored at the minimum column width.
pub open spec fn spec_max_block_width(files: Seq<RenderedFile>) -> int
    decreases files.len(),
{
    if files.len() == 0 {
        MIN_FILE_WIDTH as int
    } else {
        let rest = spec_max_block_width(files.drop_last());
        if files.last().width > rest {
            files.last().width as int
        } else {
            rest
        }
    }
}

/// A column count fits when the columns and the gaps between them stay
/// within the terminal width.
pub open spec fn spec_fits(cols: int, w: int, tw: int) -> bool {
    cols * w + (cols - 1) * COLUMN_GAP <= tw
}

/// Calculates the number of columns for the grid layout: the largest
/// count, at most the block count, whose columns of the widest block
/// width plus gaps fit the terminal; one column always stands, however
/// narrow the terminal.
pub fn calculate_columns(files: &Vec<RenderedFile>, term_width: usize) -> (r: usize)
    ensures
        r >= 1,
        files@.len() == 0 ==> r == 1,
        files@.len() > 0 ==> r <= files@.len(),
        files@.len() > 0 && r > 1 ==> spec_fits(
            r as int,
            spec_max_block_width(files@),
            term_width as int,
        ),
        forall|c: int|
            r < c <= files@.len() ==> !spec_fits(
                c,
                spec_max_block_width(files@),
                term_width as int,
            ),
{
    if files.len() == 0 {
        return 1;
    }
    let n = files.len();
    let mut w: usize = MIN_FILE_WIDTH;
    let mut i: usize = 0;
    while i < n
        invariant
            i <= n,
            n == files@.len(),
            w == spec_max_block_width(files@.subrange(0, i as int)),
        decreases n - i,
    {
        proof {
            assert(files@.subrange(0, i as int + 1).drop_last() =~= files@.subrange(0, i as int));
            assert(files@.subrange(0, i as int + 1).last() == files@[i as int]);
        }
        if files[i].width > w {
            w = files[i].width;
        }
        i = i + 1;
    }
    proof {
        assert(files@.subrange(0, n as int) =~= files@);
    }
    let mut cols: usize = n;
    while cols >= 2
        invariant
            1 <= cols <= n,
            n == files@.len(),
            w == spec_max_block_width(files@),
            forall|c: int|
                cols < c <= n ==> !spec_fits(c, spec_max_block_width(files@), term_width as int),
        decreases cols,
    {
        proof {
            assert(cols as u128 as int * w as u128 as int <= 0xffffffffffffffff
                * 0xffffffffffffffff) by (nonlinear_arith)
                requires
                    cols as u128 as int <= 0xffffffffffffffff,
                    w as u128 as int <= 0xffffffffffffffff,
                    cols as u128 as int >= 0,
                    w as u128 as int >= 0,
            ;
        }
        let cw: u128 = cols as u128 * w as u128;
        let gaps: u128 = (cols as u128 - 1) * COLUMN_GAP as u128;
        proof {
            assert(cw as int == cols as int * w as int);
            assert(gaps as int == (cols as int - 1) * COLUMN_GAP);
        }
        if cw <= term_width as u128 && gaps <= term_width as u128 - cw {
            proof {
                assert(spec_fits(cols as int, spec_max_block_width(files@), term_width as int));
            }
            return cols;
        }
        proof {
            assert(!spec_fits(cols as int, spec_max_block_width(files@), term_width as int));
        }
        cols = cols - 1;
    }
    1
}

/// The line of a block at a row, or an empty line past the block's end.
pub open spec fn line_of(f: RenderedFile, row: int) -> Seq<char> {
    if 0 <= row < f.lines@.len() {
        f.lines@[row]@
    } else {
        Seq::empty()
    }
}

/// The widest block width among the blocks, or zero when there is none.
pub open spec fn spec_col_width(files: Seq<RenderedFile>) -> int
    decreases files.len(),
{
    if files.len() == 0 {
        0
    } else {
        let rest = spec_col_width(files.drop_last());
        if files.last().width > rest {
            files.last().width as int
        } else {
            rest
        }
    }
}

/// The most lines any block of the chunk holds.
pub open spec fn spec_max_lines(chunk: Seq<RenderedFile>) -> int
    decreases chunk.len(),
{
    if chunk.len() == 0 {
        0
    } else {
        let rest = spec_max_lines(chunk.drop_last());
        if chunk.last().lines@.len() > rest {
            chunk.last().lines@.len() as int
        } else {
            rest
        }
    }
}

/// One output row of a chunk: each block's line at the row, padded to the
/// column width, with a gap between columns.
pub open spec fn spec_grid_row(chunk: Seq<RenderedFile>, row: int, w: nat) -> Seq<char>
    decreases chunk.len(),
{
    if chunk.len() == 0 {
        Seq::empty()
    } else if chunk.len() == 1 {
        spec_pad(line_of(chunk[0], row), w)
    } else {
        spec_pad(line_of(chunk[0], row), w) + spec_repeat(" "@, COLUMN_GAP as nat)
            + spec_grid_row(chunk.drop_first(), row, w)
    }
}

/// The rows of one chunk: one row per line index up to the tallest block,
/// then a blank row.
pub open spec fn spec_chunk_rows(chunk: Seq<RenderedFile>, w: nat) -> Seq<Seq<char>> {
    Seq::new(spec_max_lines(chunk) as nat, |row: int| spec_grid_row(chunk, row, w)) + seq![
        Seq::<char>::empty(),
    ]
}

/// The rows of the whole grid: the blocks taken in chunks of `columns`.
pub open spec fn spec_grid_rows(files: Seq<RenderedFile>, columns: nat, w: nat) -> Seq<Seq<char>>
    decreases files.len(),
{
    if columns == 0 || files.len() == 0 {
        Seq::empty()
    } else if files.len() <= columns {
        spec_chunk_rows(files, w)
    } else {
        spec_chunk_rows(files.take(columns as int), w) + spec_grid_rows(
            files.skip(columns as int),
            columns,
            w,
        )
    }
}

/// The blocks printed one under the other: each block's lines, then a
/// blank line.
pub open spec fn spec_single_column(files: Seq<RenderedFile>) -> Seq<Seq<char>>
    decreases files.len(),
{
    if files.len() == 0 {
        Seq::empty()
    } else {
        spec_single_column(files.drop_last()) + files.last().lines@.map_values(|l: String| l@)
            + seq![Seq::<char>::empty()]
    }
}

/// What the grid renders to: nothing for no blocks, the blocks one under
/// the other for a single column, and aligned chunk rows otherwise.
pub open spec fn spec_render_grid(files: Seq<RenderedFile>, columns: nat) -> Seq<Seq<char>> {
    if files.len() == 0 {
        Seq::empty()
    } else if columns == 1 {
        spec_single_column(files)
    } else {
        spec_grid_rows(files, columns, spec_col_width(files) as nat)
    }
}

/// Renders the blocks as terminal rows in the given number of columns:
/// blocks are processed in chunks, each chunk's rows align its blocks'
/// lines padded to the shared column width by visible width, and a blank
/// row follows each chunk; a single column lays the blocks out one under
/// the other.
pub fn render_grid(files: &Vec<RenderedFile>, columns: usize) -> (r: Vec<String>)
    requires
        columns >= 1,
    ensures
        r@.map_values(|l: String| l@) == spec_render_grid(files@, columns as nat),
{
    let mut r: Vec<String> = Vec::new();
    if files.len() == 0 {
        proof {
            assert(r@.map_values(|l: String| l@) =~= Seq::<Seq<char>>::empty());
        }
        return r;
    }
    if columns == 1 {
        let n = files.len();
        let mut i: usize = 0;
        proof {
            assert(r@.map_values(|l: String| l@) =~= spec_single_column(files@.subrange(0, 0)));
        }
        while i < n
            invariant
                i <= n,
                n == files@.len(),
                r@.map_values(|l: String| l@) == spec_single_column(files@.subrange(0, i as int)),
            decreases n - i,
        {
            let block = &files[i];
            let m = block.lines.len();
            let mut j: usize = 0;
            while j < m
                invariant
                    j <= m,
                    i < n,
                    n == files@.len(),
                    m == files@[i as int].lines@.len(),
                    r@.map_values(|l: String| l@) == spec_single_column(
                        files@.subrange(0, i as int),
                    ) + files@[i as int].lines@.map_values(|l: String| l@).subrange(0, j as int),
                decreases m - j,
            {
                let ghost prev = r@.map_values(|l: String| l@);
                r.push(files[i].lines[j].clone());
                proof {
                    let lv = files@[i as int].lines@.map_values(|l: String| l@);
                    assert(r@.map_values(|l: String| l@) =~= prev.push(lv[j as int]));
                    assert(lv.subrange(0, j as int + 1) =~= lv.subrange(0, j as int).push(
                        lv[j as int],
                    ));
                    assert(r@.map_values(|l: String| l@) =~= spec_single_column(
                        files@.subrange(0, i as int),
                    ) + lv.subrange(0, j as int + 1));
                }
                j = j + 1;
            }
            let ghost prev = r@.map_values(|l: String| l@);
            r.push(String::new());
            proof {
                let lv = files@[i as int].lines@.map_values(|l: String| l@);
                assert(lv.subrange(0, m as int) =~= lv);
                assert(files@.subrange(0, i as int + 1).drop_last() =~= files@.subrange(
                    0,
                    i as int,
                ));
                assert(files@.subrange(0, i as int + 1).last() == files@[i as int]);
                assert(r@.map_values(|l: String| l@) =~= spec_single_column(
                    files@.subrange(0, i as int + 1),
                ));
            }
            i = i + 1;
        }
        proof {
            assert(files@.subrange(0, n as int) =~= files@);
        }
        return r;
    }
    let n = files.len();
    let mut w: usize = 0;
    let mut i: usize = 0;
    while i < n
        invariant
            i <= n,
            n == files@.len(),
            w == spec_col_width(files@.subrange(0, i as int)),
        decreases n - i,
    {
        proof {
            assert(files@.subrange(0, i as int + 1).drop_last() =~= files@.subrange(0, i as int));
            assert(files@.subrange(0, i as int + 1).last() == files@[i as int]);
        }
        if files[i].width > w {
            w = files[i].width;
        }
        i = i + 1;
    }
    proof {
        assert(files@.subrange(0, n as int) =~= files@);
    }
    let mut start: usize = 0;
    while start < n
        invariant
            start <= n,
            n == files@.len(),
            columns >= 2,
            w == spec_col_width(files@),
            r@.map_values(|l: String| l@) + spec_grid_rows(
                files@.skip(start as int),
                columns as nat,
                w as nat,
            ) == spec_grid_rows(files@, columns as nat, w as nat),
        decreases n - start,
    {
        let end = if n - start < columns {
            n
        } else {
            start + columns
        };
        let ghost chunk = files@.subrange(start as int, end as int);
        let mut max_lines: usize = 0;
        let mut k: usize = start;
        while k < end
            invariant
                start <= k <= end,
                start < end <= n,
                n == files@.len(),
                chunk == files@.subrange(start as int, end as int),
                max_lines == spec_max_lines(files@.subrange(start as int, k as int)),
            decreases end - k,
        {
            proof {
                assert(files@.subrange(start as int, k as int + 1).drop_last() =~= files@.subrange(
                    start as int,
                    k as int,
                ));
                assert(files@.subrange(start as int, k as int + 1).last() == files@[k as int]);
            }
            if files[k].lines.len() > max_lines {
                max_lines = files[k].lines.len();
            }
            k = k + 1;
        }
        proof {
            assert(files@.subrange(start as int, end as int) == chunk);
        }
        let ghost before_chunk = r@.map_values(|l: String| l@);
        let mut row: usize = 0;
        while row < max_lines
            invariant
                row <= max_lines,
                start < end <= n,
                n == files@.len(),
                chunk == files@.subrange(start as int, end as int),
                max_lines == spec_max_lines(chunk),
                before_chunk == before_chunk,
                r@.map_values(|l: String| l@) == before_chunk + Seq::new(
                    row as nat,
                    |rr: int| spec_grid_row(chunk, rr, w as nat),
                ),
            decreases max_lines - row,
        {
            let mut line = String::new();
            let mut col: usize = start;
            while col < end
                invariant
                    start <= col <= end,
                    start < end <= n,
                    n == files@.len(),
                    chunk == files@.subrange(start as int, end as int),
                    col > start ==> line@ + spec_grid_row(
                        files@.subrange(col as int, end as int),
                        row as int,
                        w as nat,
                    ) == spec_grid_row(chunk, row as int, w as nat),
                    col == start ==> line@ == Seq::<char>::empty(),
                decreases end - col,
            {
                let piece = if row < files[col].lines.len() {
                    pad_to_width(files[col].lines[row].as_str(), w)
                } else {
                    pad_to_width("", w)
                };
                proof {
                    reveal_strlit("");
                    assert(""@ =~= Seq::<char>::empty());
                    assert(piece@ == spec_pad(line_of(files@[col as int], row as int), w as nat));
                }
                line.append(piece.as_str());
                if col + 1 < end {
                    let gap = repeat_str(" ", COLUMN_GAP);
                    line.append(gap.as_str());
                }
                proof {
                    let tail = files@.subrange(col as int, end as int);
                    assert(tail[0] == files@[col as int]);
                    assert(tail.drop_first() =~= files@.subrange(col as int + 1, end as int));
                    if col == start {
                        assert(tail =~= chunk);
                    }
                }
                col = col + 1;
            }
            let ghost prev = r@.map_values(|l: String| l@);
            proof {
                assert(files@.subrange(end as int, end as int).len() == 0);
                if end > start + 1 {
                } else {
                }
                assert(line@ == spec_grid_row(chunk, row as int, w as nat)) by {
                    if end == start + 1 {
                        assert(chunk.len() == 1);
                    }
                }
            }
            r.push(line);
            proof {
                assert(r@.map_values(|l: String| l@) =~= prev.push(
                    spec_grid_row(chunk, row as int, w as nat),
                ));
                assert(before_chunk + Seq::new(
                    (row + 1) as nat,
                    |rr: int| spec_grid_row(chunk, rr, w as nat),
                ) =~= prev.push(spec_grid_row(chunk, row as int, w as nat)));
            }
            row = row + 1;
        }
        let ghost prev = r@.map_values(|l: String| l@);
        r.push(String::new());
        proof {
            assert(r@.map_values(|l: String| l@) =~= prev.push(Seq::<char>::empty()));
            assert(r@.map_values(|l: String| l@) =~= before_chunk + spec_chunk_rows(
                chunk,
                w as nat,
            ));
            let rest = files@.skip(start as int);
            assert(rest.len() == n - start);
            if n - start <= columns {
                assert(end == n);
                assert(chunk =~= rest);
                assert(spec_grid_rows(rest, columns as nat, w as nat) == spec_chunk_rows(
                    chunk,
                    w as nat,
                ));
                assert(files@.skip(end as int).len() == 0);
            } else {
                assert(end == start + columns);
                assert(rest.take(columns as int) =~= chunk);
                assert(rest.skip(columns as int) =~= files@.skip(end as int));
                assert(spec_grid_rows(rest, columns as nat, w as nat) == spec_chunk_rows(
                    chunk,
                    w as nat,
                ) + spec_grid_rows(files@.skip(end as int), columns as nat, w as nat));
            }
        }
        start = end;
    }
    proof {
        assert(files@.skip(n as int).len() == 0);
        assert(r@.map_values(|l: String| l@) + Seq::<Seq<char>>::empty() =~= r@.map_values(
            |l: String| l@,
        ));
    }
    r
}

} // verus!
