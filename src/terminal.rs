//! Sizes and positions on the terminal grid.

use vstd::prelude::*;

verus! {

/// The size of a terminal or a frame, in rows and columns.
#[derive(Debug, Clone, Copy, PartialEq, Eq, Structural)]
pub struct TerminalSize {
    pub rows: usize,
    pub cols: usize,
}

impl TerminalSize {
    pub fn rows_cols(rows: usize, cols: usize) -> (r: Self)
        ensures
            r.rows == rows,
            r.cols == cols,
    {
        TerminalSize { rows, cols }
    }

    /// A size with no room to draw: no row or no column.
    pub fn is_empty(self) -> (r: bool)
        ensures
            r == (self.rows == 0 || self.cols == 0),
    {
        self.rows == 0 || self.cols == 0
    }
}

/// A cell on the grid: row and column, both from zero.
#[derive(Debug, Clone, Copy, PartialEq, Eq, Structural)]
pub struct TerminalPosition {
    pub row: usize,
    pub col: usize,
}

impl TerminalPosition {
    pub fn row_col(row: usize, col: usize) -> (r: Self)
        ensures
            r.row == row,
            r.col == col,
    {
        TerminalPosition { row, col }
    }

    /// The top-left cell.
    pub fn zero() -> (r: Self)
        ensures
            r.row == 0,
            r.col == 0,
    {
        TerminalPosition { row: 0, col: 0 }
    }
}

} // verus!
