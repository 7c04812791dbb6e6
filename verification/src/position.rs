//! Places on a board.

use vstd::prelude::*;

verus! {

/// A column and a row, both counted from zero, rows from the bottom. A
/// position may lie off a given board: queries then find no piece there.
#[derive(Clone, Copy, Debug, PartialEq, Eq, Hash, Structural)]
pub struct Position {
    pub col: usize,
    pub row: usize,
}

impl Position {
    pub fn new(col: usize, row: usize) -> (pos: Position)
        ensures
            pos.col == col,
            pos.row == row,
    {
        Position { col, row }
    }

    /// The position lies on a board of the given size.
    pub open spec fn within(self, width: int, height: int) -> bool {
        self.col < width && self.row < height
    }

    /// The place of the position in a row-by-row listing of the cells of a
    /// board that is `width` columns wide.
    pub open spec fn flat_index(self, width: int) -> int {
        self.row * width + self.col
    }

    pub fn is_valid(&self, width: usize, height: usize) -> (valid: bool)
        ensures
            valid == self.within(width as int, height as int),
    {
        self.col < width && self.row < height
    }

    pub fn to_index(&self, width: usize) -> (index: usize)
        requires
            self.flat_index(width as int) <= usize::MAX,
        ensures
            index == self.flat_index(width as int),
    {
        assert(self.row * width <= self.row * width + self.col);
        self.row * width + self.col
    }
}

/// Within a board, every position has a place of its own in the listing of
/// the cells, and that place is below the number of cells.
pub proof fn lemma_flat_index(a: Position, b: Position, width: int, height: int)
    requires
        a.within(width, height),
        b.within(width, height),
    ensures
        0 <= a.flat_index(width) < width * height,
        a.flat_index(width) == b.flat_index(width) ==> a == b,
{
    lemma_flat_bound(a.col as int, a.row as int, width, height);
    if a.flat_index(width) == b.flat_index(width) {
        lemma_flat_injective(a.col as int, a.row as int, b.col as int, b.row as int, width);
    }
}

/// A cell of a `width` by `height` rectangle, listed row by row, comes before
/// the end of the listing.
pub proof fn lemma_flat_bound(col: int, row: int, width: int, height: int)
    requires
        0 <= col < width,
        0 <= row < height,
    ensures
        0 <= row * width,
        0 <= row * width + col < width * height,
{
    assert(0 <= row * width && row * width + width <= height * width) by (nonlinear_arith)
        requires
            0 <= row < height,
            0 < width,
    ;
    assert(height * width == width * height) by (nonlinear_arith);
}

/// Two cells of one listing that share a place are the same cell.
pub proof fn lemma_flat_injective(col_a: int, row_a: int, col_b: int, row_b: int, width: int)
    requires
        0 <= col_a < width,
        0 <= col_b < width,
        0 <= row_a,
        0 <= row_b,
        row_a * width + col_a == row_b * width + col_b,
    ensures
        col_a == col_b,
        row_a == row_b,
{
    if row_a < row_b {
        assert(row_a * width + width <= row_b * width) by (nonlinear_arith)
            requires
                row_a < row_b,
                0 < width,
        ;
    } else if row_b < row_a {
        assert(row_b * width + width <= row_a * width) by (nonlinear_arith)
            requires
                row_b < row_a,
                0 < width,
        ;
    }
}

} // verus!
