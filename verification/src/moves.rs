//! Moves: the cell in which a piece comes to rest.

use vstd::prelude::*;

use crate::position::Position;
use crate::text::{decimal, from_chars, push_decimal, push_str};

verus! {

/// A move names the cell in which the piece will land. It has a meaning only
/// against the board it was made for: `row` has to be the height of the
/// stack in `col` at the moment the move is played.
#[derive(Clone, Copy, Debug, PartialEq, Eq, Hash, Structural)]
pub struct Move {
    pub col: usize,
    pub row: usize,
}

impl Move {
    pub fn new(col: usize, row: usize) -> (m: Move)
        ensures
            m.col == col,
            m.row == row,
    {
        Move { col, row }
    }

    /// The cell that the move names.
    pub open spec fn cell(self) -> Position {
        Position { col: self.col, row: self.row }
    }

    /// The move in words.
    pub open spec fn text(self) -> Seq<char> {
        "Move(col: "@ + decimal(self.col as nat) + ", row: "@ + decimal(self.row as nat) + ")"@
    }

    pub fn to_string(&self) -> (s: String)
        ensures
            s@ == self.text(),
    {
        let mut out: Vec<char> = Vec::new();
        push_str(&mut out, "Move(col: ");
        push_decimal(&mut out, self.col as u64);
        push_str(&mut out, ", row: ");
        push_decimal(&mut out, self.row as u64);
        push_str(&mut out, ")");
        from_chars(&out)
    }

    pub fn position(&self) -> (pos: Position)
        ensures
            pos == self.cell(),
    {
        Position::new(self.col, self.row)
    }
}

} // verus!
