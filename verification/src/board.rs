//! The board: a rectangle of cells into which pieces fall.

use vstd::prelude::*;

use crate::grid::{is_direction, Grid};
use crate::player::Player;
use crate::position::{lemma_flat_bound, lemma_flat_injective, Position};
use crate::text::{from_chars, push_decimal};

verus! {

pub const STANDARD_COLS: usize = 7;

pub const STANDARD_ROWS: usize = 6;

/// The least number of columns, and of rows, that `Board::bounded` accepts.
pub const MIN_SIDE: usize = 4;

/// The greatest number of columns, and of rows, that `Board::bounded` accepts.
pub const MAX_SIDE: usize = 32;

/// Why a size was turned down.
#[derive(Clone, Copy, Debug, PartialEq, Eq, Structural)]
pub enum DimensionError {
    /// The number of columns is out of range.
    Width,
    /// The number of columns is in range, the number of rows is not.
    Height,
}

impl DimensionError {
    /// What the error says.
    pub open spec fn text(self) -> Seq<char> {
        match self {
            DimensionError::Width => "Board width must be between 4 and 32"@,
            DimensionError::Height => "Board height must be between 4 and 32"@,
        }
    }

    pub fn as_str(&self) -> (s: &'static str)
        ensures
            s@ == self.text(),
    {
        match self {
            DimensionError::Width => "Board width must be between 4 and 32",
            DimensionError::Height => "Board height must be between 4 and 32",
        }
    }

    pub fn to_string(&self) -> (s: String)
        ensures
            s@ == self.text(),
    {
        self.as_str().to_owned()
    }
}

/// A number of columns or rows that `Board::bounded` accepts.
pub open spec fn side_in_range(side: int) -> bool {
    MIN_SIDE <= side <= MAX_SIDE
}

/// The answer to a request for a board of the given size: the error to
/// report, if any. The width is looked at first.
pub open spec fn size_error(width: int, height: int) -> Option<DimensionError> {
    if !side_in_range(width) {
        Some(DimensionError::Width)
    } else if !side_in_range(height) {
        Some(DimensionError::Height)
    } else {
        None
    }
}

/// Checks a size against the accepted range, the width first.
pub fn check_size(width: usize, height: usize) -> (checked: Result<(), DimensionError>)
    ensures
        checked == match size_error(width as int, height as int) {
            Some(e) => Err::<(), DimensionError>(e),
            None => Ok(()),
        },
{
    if width < MIN_SIDE || width > MAX_SIDE {
        return Err(DimensionError::Width);
    }
    if height < MIN_SIDE || height > MAX_SIDE {
        return Err(DimensionError::Height);
    }
    Ok(())
}

/// A board of fixed size. Its cells are kept row by row, the bottom row
/// first; contracts speak of its view, a `Grid`.
#[derive(Debug, PartialEq, Eq, Hash)]
pub struct Board {
    cells: Vec<Option<Player>>,
    width: usize,
    height: usize,
}

impl View for Board {
    type V = Grid;

    closed spec fn view(&self) -> Grid {
        Grid {
            width: self.width as nat,
            height: self.height as nat,
            columns: Seq::new(
                self.width as nat,
                |c: int| Seq::new(self.height as nat, |r: int| self.stored(c, r)),
            ),
        }
    }
}

impl Board {
    /// There is one stored cell for each place on the board. Every board
    /// that this module hands out is well formed.
    pub closed spec fn wf(&self) -> bool {
        self.cells.len() == self.width * self.height
    }

    /// The stored cell of a place on the board.
    spec fn stored(self, col: int, row: int) -> Option<Player> {
        self.cells@[row * self.width + col]
    }

    /// The view reads each cell from its place in the row-by-row listing.
    proof fn lemma_view(self)
        ensures
            self@.wf(),
            self@.width == self.width,
            self@.height == self.height,
            forall|c: int, r: int|
                0 <= c < self.width && 0 <= r < self.height ==> #[trigger] self@.at(c, r)
                    == self.stored(c, r),
    {
    }

    /// The view of a board is a well-formed grid whose sides a machine word
    /// can count.
    pub proof fn lemma_view_wf(self)
        ensures
            self@.wf(),
            self@.width <= usize::MAX,
            self@.height <= usize::MAX,
    {
    }

    pub fn new(width: usize, height: usize) -> (board: Board)
        requires
            width * height <= usize::MAX,
        ensures
            board.wf(),
            board@ == Grid::empty(width as nat, height as nat),
    {
        let cells: Vec<Option<Player>> = vec![None; width * height];
        let board = Board { cells, width, height };
        proof {
            assert forall|c: int, r: int| 0 <= c < width && 0 <= r < height implies #[trigger] board.stored(
                c,
                r,
            ) == None::<Player> by {
                lemma_flat_bound(c, r, width as int, height as int);
            }
            assert(board@.columns =~~= Grid::empty(width as nat, height as nat).columns);
        }
        board
    }

    /// An empty board of the given size, if both sides are in the accepted
    /// range; else the error that names the first side that is not.
    pub fn bounded(width: usize, height: usize) -> (made: Result<Board, DimensionError>)
        ensures
            match made {
                Ok(board) => size_error(width as int, height as int) is None && board.wf() && board@
                    == Grid::empty(width as nat, height as nat),
                Err(e) => size_error(width as int, height as int) == Some(e),
            },
    {
        match check_size(width, height) {
            Ok(()) => {
                assert(width * height <= MAX_SIDE * MAX_SIDE) by (nonlinear_arith)
                    requires
                        width <= MAX_SIDE,
                        height <= MAX_SIDE,
                ;
                Ok(Board::new(width, height))
            },
            Err(e) => Err(e),
        }
    }

    pub fn standard() -> (board: Board)
        ensures
            board.wf(),
            board@ == Grid::empty(STANDARD_COLS as nat, STANDARD_ROWS as nat),
    {
        Self::new(STANDARD_COLS, STANDARD_ROWS)
    }

    pub fn width(&self) -> (width: usize)
        ensures
            width == self@.width,
    {
        self.width
    }

    pub fn height(&self) -> (height: usize)
        ensures
            height == self@.height,
    {
        self.height
    }

    fn index(&self, col: usize, row: usize) -> (index: usize)
        requires
            self.wf(),
            col < self.width,
            row < self.height,
        ensures
            index == row * self.width + col,
            index < self.cells@.len(),
            self.cells@[index as int] == self@.at(col as int, row as int),
    {
        proof {
            lemma_flat_bound(col as int, row as int, self.width as int, self.height as int);
            self.lemma_view();
        }
        row * self.width + col
    }

    pub fn get_piece(&self, pos: &Position) -> (piece: Option<Player>)
        requires
            self.wf(),
        ensures
            piece == self@.at(pos.col as int, pos.row as int),
    {
        if pos.is_valid(self.width, self.height) {
            let index = self.index(pos.col, pos.row);
            self.cells[index]
        } else {
            None
        }
    }

    /// Overwrites one cell, whatever stands below or above it. This is for
    /// setting a position up; play goes through `drop_piece`.
    pub fn set_piece(&mut self, pos: &Position, player: Option<Player>)
        requires
            old(self).wf(),
        ensures
            final(self).wf(),
            final(self)@ == old(self)@.put(pos.col as int, pos.row as int, player),
    {
        if pos.is_valid(self.width, self.height) {
            let index = self.index(pos.col, pos.row);
            self.cells.set(index, player);
            proof {
                let w = self.width as int;
                old(self).lemma_view();
                self.lemma_view();
                assert forall|c: int, r: int| 0 <= c < self.width && 0 <= r < self.height implies {
                    #[trigger] self.stored(c, r) == old(self)@.put(
                        pos.col as int,
                        pos.row as int,
                        player,
                    ).at(c, r)
                } by {
                    lemma_flat_bound(c, r, w, self.height as int);
                    if r * w + c == index {
                        lemma_flat_injective(c, r, pos.col as int, pos.row as int, w);
                    }
                }
                assert(self@.columns =~~= old(self)@.put(
                    pos.col as int,
                    pos.row as int,
                    player,
                ).columns);
            }
        }
    }

    pub fn clear(&mut self)
        requires
            old(self).wf(),
        ensures
            final(self).wf(),
            final(self)@ == Grid::empty(old(self)@.width, old(self)@.height),
    {
        let mut index: usize = 0;
        while index < self.cells.len()
            invariant
                self.width == old(self).width,
                self.height == old(self).height,
                self.cells@.len() == self.width * self.height,
                index <= self.cells@.len(),
                forall|i: int| 0 <= i < index ==> self.cells@[i] == None::<Player>,
            decreases self.cells@.len() - index,
        {
            self.cells.set(index, None);
            index += 1;
        }
        proof {
            assert forall|c: int, r: int| 0 <= c < self.width && 0 <= r < self.height implies #[trigger] self.stored(
                c,
                r,
            ) == None::<Player> by {
                lemma_flat_bound(c, r, self.width as int, self.height as int);
            }
            assert(self@.columns =~~= Grid::empty(old(self)@.width, old(self)@.height).columns);
        }
    }

    pub fn is_column_full(&self, col: usize) -> (full: bool)
        requires
            self.wf(),
        ensures
            full == self@.column_full(col as int),
    {
        proof {
            self.lemma_view();
        }
        if col >= self.width || self.height == 0 {
            return true;
        }
        let index = self.index(col, self.height - 1);
        self.cells[index].is_some()
    }

    pub fn is_board_full(&self) -> (full: bool)
        requires
            self.wf(),
        ensures
            full == self@.full(),
    {
        proof {
            self.lemma_view();
        }
        let mut col: usize = 0;
        while col < self.width
            invariant
                self.wf(),
                col <= self.width,
                self@.width == self.width,
                forall|c: int| 0 <= c < col ==> #[trigger] self@.column_full(c),
            decreases self.width - col,
        {
            if !self.is_column_full(col) {
                return false;
            }
            col += 1;
        }
        true
    }

    pub fn column_height(&self, col: usize) -> (stack: usize)
        requires
            self.wf(),
        ensures
            stack == self@.stack_height(col as int),
    {
        proof {
            self.lemma_view();
        }
        if col >= self.width {
            proof {
                self@.lemma_stack_height(col as int);
            }
            return 0;
        }
        let mut row: usize = 0;
        while row < self.height
            invariant
                self.wf(),
                col < self.width,
                row <= self.height,
                self@.height == self.height,
                forall|r: int| 0 <= r < row ==> (#[trigger] self@.at(col as int, r)) is Some,
            decreases self.height - row,
        {
            let index = self.index(col, row);
            if self.cells[index].is_none() {
                proof {
                    self@.lemma_stack_height_unique(col as int, row as int);
                }
                return row;
            }
            row += 1;
        }
        proof {
            self@.lemma_stack_height_unique(col as int, row as int);
        }
        row
    }

    /// Lets a piece of `player` fall into `col`. The piece lands on the
    /// stack of the column, and its row is returned; where the column is
    /// full or off the board nothing changes and nothing is returned.
    pub fn drop_piece(&mut self, col: usize, player: Player) -> (landed: Option<usize>)
        requires
            old(self).wf(),
        ensures
            final(self).wf(),
            final(self)@ == old(self)@.drop(col as int, player),
            old(self)@.column_full(col as int) ==> landed is None && final(self)@ == old(self)@,
            !old(self)@.column_full(col as int) ==> landed == Some(
                old(self)@.stack_height(col as int) as usize,
            ) && old(self)@.stack_height(col as int) < old(self)@.height,
    {
        if col >= self.width || self.is_column_full(col) {
            return None;
        }
        let row = self.column_height(col);
        proof {
            self@.lemma_open_column_has_room(col as int);
            self.lemma_view();
        }
        self.set_piece(&Position::new(col, row), Some(player));
        Some(row)
    }

    /// The picture of the board: its rows from the top row down, each cell
    /// between bars and shown as the glyph of its occupant or a dot, then a
    /// line with the numbers of the columns.
    pub fn to_string(&self) -> (picture: String)
        requires
            self.wf(),
        ensures
            picture@ == self@.text(),
    {
        proof {
            self.lemma_view();
        }
        let mut out: Vec<char> = Vec::new();
        let mut done: usize = 0;
        while done < self.height
            invariant
                self.wf(),
                done <= self.height,
                self@.height == self.height,
                self@.width == self.width,
                out@ == self@.rows_text(done as nat),
            decreases self.height - done,
        {
            let row = self.height - 1 - done;
            let ghost above = out@;
            out.push('|');
            let mut col: usize = 0;
            while col < self.width
                invariant
                    self.wf(),
                    col <= self.width,
                    row < self.height,
                    out@ == above + self@.row_text(row as int, col as nat),
                decreases self.width - col,
            {
                let index = self.index(col, row);
                let glyph = match self.cells[index] {
                    Some(player) => player.to_char(),
                    None => '.',
                };
                out.push(glyph);
                out.push('|');
                proof {
                    assert(out@ =~= above + self@.row_text(row as int, (col + 1) as nat));
                }
                col += 1;
            }
            out.push('\n');
            proof {
                assert(out@ =~= self@.rows_text((done + 1) as nat));
            }
            done += 1;
        }
        let ghost rows = out@;
        out.push(' ');
        let mut col: usize = 0;
        while col < self.width
            invariant
                col <= self.width,
                out@ == rows + Grid::legend_text(col as nat),
            decreases self.width - col,
        {
            push_decimal(&mut out, col as u64);
            out.push(' ');
            proof {
                assert(out@ =~= rows + Grid::legend_text((col + 1) as nat));
            }
            col += 1;
        }
        out.push('\n');
        proof {
            assert(out@ =~= self@.text());
        }
        from_chars(&out)
    }

    /// Whether a piece of `player` just placed at `pos` completes four in a
    /// line through `pos`, along any of the four axes. Only the cells around
    /// `pos` are read, not `pos` itself.
    pub fn check_win(&self, pos: &Position, player: Player) -> (won: bool)
        requires
            self.wf(),
        ensures
            won == self@.wins(pos.col as int, pos.row as int, player),
    {
        self.check_direction(pos, player, 1, 0) || self.check_direction(pos, player, 0, 1)
            || self.check_direction(pos, player, 1, 1) || self.check_direction(pos, player, 1, -1)
    }

    fn check_direction(&self, pos: &Position, player: Player, dcol: i32, drow: i32) -> (line: bool)
        requires
            self.wf(),
            is_direction(dcol as int, drow as int),
        ensures
            line == self@.completes_line(
                pos.col as int,
                pos.row as int,
                dcol as int,
                drow as int,
                player,
            ),
    {
        let ahead = self.count_in_direction(pos, player, dcol, drow);
        let behind = self.count_in_direction(pos, player, -dcol, -drow);
        proof {
            let (c, r, dc, dr) = (pos.col as int, pos.row as int, dcol as int, drow as int);
            let g = self@;
            assert forall|k: int| 1 <= k <= 4 implies #[trigger] g.held(c, r, -dc, -dr, k, player) == g.held(
                c,
                r,
                dc,
                dr,
                -k,
                player,
            ) by {
                assert(k * (-dc) == (-k) * dc && k * (-dr) == (-k) * dr) by (nonlinear_arith);
            }
            if ahead < 3 {
                assert(!g.held(c, r, dc, dr, ahead + 1, player));
            }
            if behind < 3 {
                assert(!g.held(c, r, -dc, -dr, behind + 1, player));
            }
            assert(ahead >= 1 ==> g.held(c, r, dc, dr, 1, player));
            assert(ahead >= 2 ==> g.held(c, r, dc, dr, 2, player));
            assert(ahead >= 3 ==> g.held(c, r, dc, dr, 3, player));
            assert(behind >= 1 ==> g.held(c, r, -dc, -dr, 1, player));
            assert(behind >= 2 ==> g.held(c, r, -dc, -dr, 2, player));
            assert(behind >= 3 ==> g.held(c, r, -dc, -dr, 3, player));
        }
        ahead >= 3 || behind >= 3 || ahead + behind >= 3
    }

    /// Counts the cells that follow `pos` in one direction and hold pieces
    /// of `player`, up to the first cell that does not or the edge.
    fn count_in_direction(&self, pos: &Position, player: Player, dcol: i32, drow: i32) -> (count:
        usize)
        requires
            self.wf(),
            is_direction(dcol as int, drow as int),
        ensures
            self@.streak(pos.col as int, pos.row as int, dcol as int, drow as int, count as int, player),
            !self@.held(pos.col as int, pos.row as int, dcol as int, drow as int, count + 1, player),
    {
        let ghost limit = reach(pos.col as int, pos.row as int, dcol as int, drow as int, self@);
        let mut count: usize = 0;
        let mut col = pos.col;
        let mut row = pos.row;
        proof {
            self.lemma_view();
        }
        loop
            invariant_except_break
                self.wf(),
                is_direction(dcol as int, drow as int),
                limit == reach(pos.col as int, pos.row as int, dcol as int, drow as int, self@),
                col == pos.col + count * dcol,
                row == pos.row + count * drow,
                count <= limit,
                self@.streak(
                    pos.col as int,
                    pos.row as int,
                    dcol as int,
                    drow as int,
                    count as int,
                    player,
                ),
            ensures
                self@.streak(
                    pos.col as int,
                    pos.row as int,
                    dcol as int,
                    drow as int,
                    count as int,
                    player,
                ),
                !self@.held(
                    pos.col as int,
                    pos.row as int,
                    dcol as int,
                    drow as int,
                    count + 1,
                    player,
                ),
            decreases limit - count,
        {
            proof {
                self.lemma_view();
                assert((count + 1) * dcol == count * dcol + dcol && (count + 1) * drow == count * drow
                    + drow) by (nonlinear_arith);
            }
            let next_col = step(col, dcol, self.width);
            let next_row = step(row, drow, self.height);
            let holds = match (next_col, next_row) {
                (Some(c), Some(r)) => {
                    let index = self.index(c, r);
                    match self.cells[index] {
                        Some(p) => p == player,
                        None => false,
                    }
                },
                _ => false,
            };
            if !holds {
                break ;
            }
            proof {
                let next = count + 1;
                assert(self@.held(
                    pos.col as int,
                    pos.row as int,
                    dcol as int,
                    drow as int,
                    next,
                    player,
                ));
                assert(next <= limit) by {
                    assert(next * 1 == next && next * (-1) == -next && next * 0 == 0);
                    assert(dcol == 1 || dcol == -1 || dcol == 0);
                    assert(drow == 1 || drow == -1 || drow == 0);
                }
            }
            count += 1;
            col = next_col.unwrap();
            row = next_row.unwrap();
        }
        count
    }
}

impl Clone for Board {
    fn clone(&self) -> (copy: Board)
        ensures
            copy@ == self@,
            self.wf() ==> copy.wf(),
    {
        let copy = Board { cells: self.cells.clone(), width: self.width, height: self.height };
        assert(copy.cells@ =~= self.cells@);
        assert(copy@.columns =~~= self@.columns);
        copy
    }
}

impl Default for Board {
    fn default() -> (board: Board)
        ensures
            board.wf(),
            board@ == Grid::empty(STANDARD_COLS as nat, STANDARD_ROWS as nat),
    {
        Self::standard()
    }
}

/// A bound on the number of steps that stay on the grid when walking from
/// `(col, row)` in a direction, for a walk that starts anywhere.
spec fn reach(col: int, row: int, dcol: int, drow: int, grid: Grid) -> int {
    if dcol == 1 {
        grid.width as int
    } else if dcol == -1 {
        col
    } else if drow == 1 {
        grid.height as int
    } else {
        row
    }
}

/// Moves a coordinate by one step of a direction, if that stays below `limit`.
fn step(v: usize, d: i32, limit: usize) -> (next: Option<usize>)
    requires
        -1 <= d <= 1,
    ensures
        next is Some <==> 0 <= v + d < limit,
        next is Some ==> next->0 == v + d,
{
    if d == 1 {
        if limit > 0 && v < limit - 1 {
            Some(v + 1)
        } else {
            None
        }
    } else if d == -1 {
        if v >= 1 && v - 1 < limit {
            Some(v - 1)
        } else {
            None
        }
    } else if v < limit {
        Some(v)
    } else {
        None
    }
}

} // verus!
