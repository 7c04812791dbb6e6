//! The mathematical model of a board: a rectangle of cells, held column by
//! column, on which contracts and laws are stated.

use vstd::prelude::*;

use crate::player::Player;
use crate::text::decimal;

verus! {

/// A rectangle of cells. `columns[c][r]` is the cell of column `c` and row
/// `r`, rows counted from the bottom.
pub struct Grid {
    pub width: nat,
    pub height: nat,
    pub columns: Seq<Seq<Option<Player>>>,
}

impl Grid {
    /// There are `width` columns of `height` cells each.
    pub open spec fn wf(self) -> bool {
        &&& self.columns.len() == self.width
        &&& forall|c: int| 0 <= c < self.width ==> (#[trigger] self.columns[c]).len() == self.height
    }

    /// The grid of the given size with no piece on it.
    pub open spec fn empty(width: nat, height: nat) -> Grid {
        Grid {
            width,
            height,
            columns: Seq::new(width, |c: int| Seq::new(height, |r: int| None::<Player>)),
        }
    }

    /// `(col, row)` lies on the grid.
    pub open spec fn contains(self, col: int, row: int) -> bool {
        0 <= col < self.width && 0 <= row < self.height
    }

    /// The occupant of a cell; nothing for an empty cell and for a place
    /// off the grid alike.
    pub open spec fn at(self, col: int, row: int) -> Option<Player> {
        if self.contains(col, row) {
            self.columns[col][row]
        } else {
            None
        }
    }

    /// The grid with one cell overwritten; unchanged for a place off the grid.
    pub open spec fn put(self, col: int, row: int, piece: Option<Player>) -> Grid {
        if self.contains(col, row) {
            Grid { columns: self.columns.update(col, self.columns[col].update(row, piece)), ..self }
        } else {
            self
        }
    }

    /// How many cells in a row are occupied in `col` from `row` upwards.
    pub open spec fn filled_from(self, col: int, row: int) -> nat
        decreases self.height - row,
    {
        if 0 <= row < self.height && self.at(col, row) is Some {
            1 + self.filled_from(col, row + 1)
        } else {
            0
        }
    }

    /// The number of occupied cells that stand on the bottom of `col` without
    /// a gap; 0 for a column off the grid.
    pub open spec fn stack_height(self, col: int) -> nat {
        self.filled_from(col, 0)
    }

    /// The top cell of `col` is occupied. A column that has no top cell,
    /// because it is off the grid or the grid has no rows, counts as full.
    pub open spec fn column_full(self, col: int) -> bool {
        !self.contains(col, self.height - 1) || self.at(col, self.height - 1) is Some
    }

    /// Every column is full.
    pub open spec fn full(self) -> bool {
        forall|c: int| 0 <= c < self.width ==> #[trigger] self.column_full(c)
    }

    /// The grid after `player` let a piece fall into `col`: the piece comes
    /// to rest on the stack of the column. Unchanged where the column is full.
    pub open spec fn drop(self, col: int, player: Player) -> Grid {
        if self.column_full(col) {
            self
        } else {
            self.put(col, self.stack_height(col) as int, Some(player))
        }
    }

    /// No piece hangs over an empty cell.
    pub open spec fn obeys_gravity(self) -> bool {
        forall|c: int, r: int|
            0 < r && (#[trigger] self.at(c, r)) is Some ==> self.at(c, r - 1) is Some
    }

    /// The cell `k` steps from `(col, row)` in direction `(dcol, drow)` holds
    /// a piece of `player`.
    pub open spec fn held(self, col: int, row: int, dcol: int, drow: int, k: int, player: Player) -> bool {
        self.at(col + k * dcol, row + k * drow) == Some(player)
    }

    /// The `n` cells that follow `(col, row)` in direction `(dcol, drow)` all
    /// hold pieces of `player`.
    pub open spec fn streak(self, col: int, row: int, dcol: int, drow: int, n: int, player: Player) -> bool {
        forall|k: int| 1 <= k <= n ==> #[trigger] self.held(col, row, dcol, drow, k, player)
    }

    /// `(col, row)` is one of four cells in a line along `(dcol, drow)` whose
    /// other three hold pieces of `player`. The cell itself is not looked at:
    /// it is where the piece has just been placed.
    pub open spec fn completes_line(self, col: int, row: int, dcol: int, drow: int, player: Player) -> bool {
        let ahead = |k: int| self.held(col, row, dcol, drow, k, player);
        let behind = |k: int| self.held(col, row, dcol, drow, -k, player);
        ||| ahead(1) && ahead(2) && ahead(3)
        ||| behind(1) && ahead(1) && ahead(2)
        ||| behind(2) && behind(1) && ahead(1)
        ||| behind(3) && behind(2) && behind(1)
    }

    /// A piece of `player` at `(col, row)` completes four in a line:
    /// across, upright, or along one of the two diagonals.
    pub open spec fn wins(self, col: int, row: int, player: Player) -> bool {
        ||| self.completes_line(col, row, 1, 0, player)
        ||| self.completes_line(col, row, 0, 1, player)
        ||| self.completes_line(col, row, 1, 1, player)
        ||| self.completes_line(col, row, 1, -1, player)
    }

    /// The character that shows a cell: the glyph of its occupant, or a dot.
    pub open spec fn glyph_at(self, col: int, row: int) -> char {
        match self.at(col, row) {
            Some(player) => player.glyph(),
            None => '.',
        }
    }

    /// The picture of one row up to a column: a bar, then each cell with a
    /// bar behind it.
    pub open spec fn row_text(self, row: int, upto: nat) -> Seq<char>
        decreases upto,
    {
        if upto == 0 {
            seq!['|']
        } else {
            self.row_text(row, (upto - 1) as nat).push(self.glyph_at(upto - 1, row)).push('|')
        }
    }

    /// The pictures of the `count` rows from the top, each on a line.
    pub open spec fn rows_text(self, count: nat) -> Seq<char>
        decreases count,
    {
        if count == 0 {
            Seq::empty()
        } else {
            self.rows_text((count - 1) as nat) + self.row_text(self.height - count, self.width).push(
                '\n',
            )
        }
    }

    /// The numbers of the columns below `upto`: a blank, then each number
    /// with a blank behind it.
    pub open spec fn legend_text(upto: nat) -> Seq<char>
        decreases upto,
    {
        if upto == 0 {
            seq![' ']
        } else {
            Self::legend_text((upto - 1) as nat) + decimal((upto - 1) as nat).push(' ')
        }
    }

    /// The picture of the grid: its rows from the top row down, then a line
    /// with the numbers of the columns.
    pub open spec fn text(self) -> Seq<char> {
        self.rows_text(self.height) + Self::legend_text(self.width).push('\n')
    }

    /// The stack of a column is as high as the grid at most, is occupied
    /// throughout, and has an empty cell above it unless it reaches the top.
    pub proof fn lemma_stack_height(self, col: int)
        ensures
            self.stack_height(col) <= self.height,
            forall|r: int| 0 <= r < self.stack_height(col) ==> (#[trigger] self.at(col, r)) is Some,
            self.stack_height(col) < self.height ==> self.at(col, self.stack_height(col) as int) is None,
            !self.contains(col, 0) ==> self.stack_height(col) == 0,
    {
        self.lemma_filled_from(col, 0);
    }

    proof fn lemma_filled_from(self, col: int, row: int)
        requires
            0 <= row,
        ensures
            row + self.filled_from(col, row) <= self.height || self.filled_from(col, row) == 0,
            forall|r: int|
                row <= r < row + self.filled_from(col, row) ==> (#[trigger] self.at(col, r)) is Some,
            row + self.filled_from(col, row) < self.height ==> self.at(
                col,
                row + self.filled_from(col, row),
            ) is None,
        decreases self.height - row,
    {
        if 0 <= row < self.height && self.at(col, row) is Some {
            self.lemma_filled_from(col, row + 1);
        }
    }

    /// The stack height is the only number with the properties that
    /// `lemma_stack_height` names.
    pub proof fn lemma_stack_height_unique(self, col: int, h: int)
        requires
            0 <= h <= self.height,
            forall|r: int| 0 <= r < h ==> (#[trigger] self.at(col, r)) is Some,
            h < self.height ==> self.at(col, h) is None,
        ensures
            self.stack_height(col) == h,
    {
        self.lemma_stack_height(col);
        let s = self.stack_height(col) as int;
        if s < h {
            assert(self.at(col, s) is Some);
        } else if h < s {
            assert(self.at(col, h) is Some);
        }
    }

    /// A column that is not full has room on its stack.
    pub proof fn lemma_open_column_has_room(self, col: int)
        requires
            !self.column_full(col),
        ensures
            self.contains(col, self.stack_height(col) as int),
            self.at(col, self.stack_height(col) as int) is None,
    {
        self.lemma_stack_height(col);
        let s = self.stack_height(col) as int;
        if s >= self.height {
            assert(self.at(col, self.height - 1) is Some);
        }
    }

    /// Overwriting a cell changes that cell and no other.
    pub proof fn lemma_put_at(self, col: int, row: int, piece: Option<Player>, c: int, r: int)
        requires
            self.wf(),
        ensures
            self.put(col, row, piece).wf(),
            self.put(col, row, piece).width == self.width,
            self.put(col, row, piece).height == self.height,
            self.put(col, row, piece).at(c, r) == if c == col && r == row && self.contains(col, row) {
                piece
            } else {
                self.at(c, r)
            },
    {
    }

    /// Overwriting a cell leaves the stacks of the other columns as they were.
    pub proof fn lemma_put_keeps_other_stacks(self, col: int, row: int, piece: Option<Player>, c: int)
        requires
            self.wf(),
            c != col,
        ensures
            self.put(col, row, piece).stack_height(c) == self.stack_height(c),
            self.put(col, row, piece).column_full(c) == self.column_full(c),
    {
        let after = self.put(col, row, piece);
        self.lemma_stack_height(c);
        assert forall|r: int| 0 <= r < self.stack_height(c) implies (#[trigger] after.at(c, r)) is Some by {
            self.lemma_put_at(col, row, piece, c, r);
            assert(self.at(c, r) is Some);
        }
        self.lemma_put_at(col, row, piece, c, self.stack_height(c) as int);
        self.lemma_put_at(col, row, piece, c, self.height - 1);
        after.lemma_stack_height_unique(c, self.stack_height(c) as int);
    }

    /// A grid without pieces obeys gravity and has no full column, unless
    /// it has no rows at all.
    pub proof fn lemma_empty(width: nat, height: nat)
        ensures
            Grid::empty(width, height).wf(),
            Grid::empty(width, height).obeys_gravity(),
            forall|c: int, r: int| (#[trigger] Grid::empty(width, height).at(c, r)) is None,
            forall|c: int| #[trigger] Grid::empty(width, height).stack_height(c) == 0,
            forall|c: int|
                0 <= c < width && height > 0 ==> !(#[trigger] Grid::empty(width, height).column_full(c)),
    {
    }

    /// On a grid that obeys gravity, a piece dropped into a column with room
    /// raises the stack of that column by one and leaves the other stacks
    /// alone, and the grid obeys gravity afterwards.
    pub proof fn lemma_drop_raises_stack(self, col: int, player: Player, c: int)
        requires
            self.wf(),
            self.obeys_gravity(),
            !self.column_full(col),
        ensures
            self.drop(col, player).obeys_gravity(),
            self.drop(col, player).at(col, self.stack_height(col) as int) == Some(player),
            self.drop(col, player).stack_height(c) == if c == col {
                self.stack_height(col) + 1
            } else {
                self.stack_height(c)
            },
    {
        let h = self.stack_height(col) as int;
        let after = self.drop(col, player);
        self.lemma_open_column_has_room(col);
        self.lemma_stack_height(col);
        assert forall|x: int, r: int| 0 < r && (#[trigger] after.at(x, r)) is Some implies after.at(
            x,
            r - 1,
        ) is Some by {
            self.lemma_put_at(col, h, Some(player), x, r);
            self.lemma_put_at(col, h, Some(player), x, r - 1);
            if x == col && r == h {
                assert(h - 1 < h ==> self.at(col, h - 1) is Some);
            } else {
                assert(self.at(x, r) is Some);
            }
        }
        if c == col {
            assert forall|r: int| 0 <= r < h + 1 implies (#[trigger] after.at(col, r)) is Some by {
                self.lemma_put_at(col, h, Some(player), col, r);
                if r < h {
                    assert(self.at(col, r) is Some);
                }
            }
            if h + 1 < self.height {
                self.lemma_put_at(col, h, Some(player), col, h + 1);
                assert(self.at(col, h + 1) is Some ==> self.at(col, h) is Some);
            }
            after.lemma_stack_height_unique(col, h + 1);
        } else {
            self.lemma_put_keeps_other_stacks(col, h, Some(player), c);
        }
    }

    /// On a grid that obeys gravity, a column on the grid is full exactly
    /// when its stack reaches the top, and every cell above a stack is empty.
    pub proof fn lemma_gravity_stacks(self, col: int)
        requires
            self.wf(),
            self.obeys_gravity(),
            0 <= col < self.width,
        ensures
            self.column_full(col) <==> self.stack_height(col) == self.height,
            forall|r: int| self.stack_height(col) <= r ==> (#[trigger] self.at(col, r)) is None,
    {
        self.lemma_stack_height(col);
        let h = self.stack_height(col) as int;
        assert forall|r: int| h <= r implies (#[trigger] self.at(col, r)) is None by {
            self.lemma_gap_goes_up(col, h, r);
        }
        if h < self.height && self.height > 0 {
            assert(self.at(col, self.height - 1) is None);
        }
    }

    /// On a grid that obeys gravity, the cells above an empty cell are empty.
    proof fn lemma_gap_goes_up(self, col: int, gap: int, row: int)
        requires
            self.obeys_gravity(),
            0 <= gap <= row,
            gap < self.height ==> self.at(col, gap) is None,
        ensures
            self.at(col, row) is None,
        decreases row - gap,
    {
        if gap < row && row < self.height {
            self.lemma_gap_goes_up(col, gap, row - 1);
            assert(self.at(col, row) is Some ==> self.at(col, row - 1) is Some);
        }
    }

    /// Around `(col, row)`, the `behind` cells before it and the `ahead`
    /// cells after it along `(dcol, drow)` all hold pieces of `player`.
    pub open spec fn run_through(
        self,
        col: int,
        row: int,
        dcol: int,
        drow: int,
        behind: int,
        ahead: int,
        player: Player,
    ) -> bool {
        forall|k: int|
            -behind <= k <= ahead && k != 0 ==> #[trigger] self.held(col, row, dcol, drow, k, player)
    }

    /// A line is the same line when it is walked the other way.
    pub proof fn lemma_line_reversed(self, col: int, row: int, dcol: int, drow: int, player: Player)
        ensures
            self.completes_line(col, row, -dcol, -drow, player) == self.completes_line(
                col,
                row,
                dcol,
                drow,
                player,
            ),
    {
        assert forall|k: int| #[trigger]
            self.held(col, row, -dcol, -drow, k, player) == self.held(
                col,
                row,
                dcol,
                drow,
                -k,
                player,
            ) by {
            assert(k * (-dcol) == (-k) * dcol && k * (-drow) == (-k) * drow) by (nonlinear_arith);
        }
        assert(self.held(col, row, dcol, drow, -(-1), player) == self.held(col, row, dcol, drow, 1, player));
        assert(self.held(col, row, dcol, drow, -(-2), player) == self.held(col, row, dcol, drow, 2, player));
        assert(self.held(col, row, dcol, drow, -(-3), player) == self.held(col, row, dcol, drow, 3, player));
    }

    /// Win detection treats all axes alike, and both ways along each: a
    /// piece that joins a run of four or more of its player's pieces,
    /// anywhere in the run and along any of the eight directions, wins.
    pub proof fn lemma_run_of_four_wins(
        self,
        col: int,
        row: int,
        dcol: int,
        drow: int,
        behind: int,
        ahead: int,
        player: Player,
    )
        requires
            is_direction(dcol, drow),
            0 <= behind,
            0 <= ahead,
            behind + ahead >= 3,
            self.run_through(col, row, dcol, drow, behind, ahead, player),
        ensures
            self.completes_line(col, row, dcol, drow, player),
            self.wins(col, row, player),
    {
        let near = |k: int| -behind <= k <= ahead && k != 0;
        assert(near(1) ==> self.held(col, row, dcol, drow, 1, player));
        assert(near(2) ==> self.held(col, row, dcol, drow, 2, player));
        assert(near(3) ==> self.held(col, row, dcol, drow, 3, player));
        assert(near(-1) ==> self.held(col, row, dcol, drow, -1, player));
        assert(near(-2) ==> self.held(col, row, dcol, drow, -2, player));
        assert(near(-3) ==> self.held(col, row, dcol, drow, -3, player));
        assert(self.completes_line(col, row, dcol, drow, player));
        self.lemma_line_reversed(col, row, dcol, drow, player);
        self.lemma_line_reversed(col, row, -dcol, -drow, player);
    }

    /// A run that is blocked at both ends before it reaches four is no
    /// line: where at most three cells in a row around `(col, row)`, the
    /// cell itself counted, hold pieces of `player`, and the next cell at
    /// either end does not, the piece completes nothing along that axis.
    pub proof fn lemma_blocked_run_is_no_line(
        self,
        col: int,
        row: int,
        dcol: int,
        drow: int,
        behind: int,
        ahead: int,
        player: Player,
    )
        requires
            0 <= behind,
            0 <= ahead,
            behind + ahead < 3,
            !self.held(col, row, dcol, drow, ahead + 1, player),
            !self.held(col, row, dcol, drow, -(behind + 1), player),
        ensures
            !self.completes_line(col, row, dcol, drow, player),
    {
    }

    /// A piece wins only along one of the four axes: where the runs through
    /// its cell are blocked short of four along all of them, it does not win.
    pub proof fn lemma_blocked_runs_do_not_win(
        self,
        col: int,
        row: int,
        player: Player,
        behind: Seq<int>,
        ahead: Seq<int>,
    )
        requires
            behind.len() == 4,
            ahead.len() == 4,
            forall|a: int|
                0 <= a < 4 ==> 0 <= #[trigger] behind[a] && 0 <= #[trigger] ahead[a] && behind[a]
                    + ahead[a] < 3,
            forall|a: int|
                0 <= a < 4 ==> !self.held(col, row, axis(a).0, axis(a).1, #[trigger] ahead[a] + 1, player),
            forall|a: int|
                0 <= a < 4 ==> !self.held(
                    col,
                    row,
                    axis(a).0,
                    axis(a).1,
                    -(#[trigger] behind[a] + 1),
                    player,
                ),
        ensures
            !self.wins(col, row, player),
    {
        assert forall|a: int| 0 <= a < 4 implies !self.completes_line(
            col,
            row,
            axis(a).0,
            axis(a).1,
            player,
        ) by {
            let (b, f) = (behind[a], ahead[a]);
            self.lemma_blocked_run_is_no_line(col, row, axis(a).0, axis(a).1, b, f, player);
        }
        assert(!self.completes_line(col, row, axis(0).0, axis(0).1, player));
        assert(!self.completes_line(col, row, axis(1).0, axis(1).1, player));
        assert(!self.completes_line(col, row, axis(2).0, axis(2).1, player));
        assert(!self.completes_line(col, row, axis(3).0, axis(3).1, player));
    }
}

/// A step to a neighbouring cell: one column, one row, or both.
pub open spec fn is_direction(dcol: int, drow: int) -> bool {
    -1 <= dcol <= 1 && -1 <= drow <= 1 && (dcol != 0 || drow != 0)
}

/// The four axes along which a line counts, each by one of its two
/// directions: across, upright, and the two diagonals.
pub open spec fn axis(a: int) -> (int, int) {
    if a == 0 {
        (1, 0)
    } else if a == 1 {
        (0, 1)
    } else if a == 2 {
        (1, 1)
    } else {
        (1, -1)
    }
}

} // verus!
