//! The game: a board, whose turn it is, the moves played, and how it ended.

use vstd::prelude::*;

use crate::board::{size_error, Board, DimensionError, STANDARD_COLS, STANDARD_ROWS};
use crate::moves::Move;
use crate::outcome::GameOutcome;
use crate::player::Player;
use crate::position::Position;
use crate::state::{lemma_legal_move_lands, lists_legal_moves_below, GameState};
use crate::text::{from_chars, push_str};

verus! {

/// A game in progress or concluded. Contracts speak of its view, a
/// `GameState`.
#[derive(Debug)]
pub struct Game {
    board: Board,
    current_player: Player,
    move_history: Vec<Move>,
    is_over: bool,
    outcome: Option<GameOutcome>,
}

impl View for Game {
    type V = GameState;

    closed spec fn view(&self) -> GameState {
        GameState {
            board: self.board@,
            turn: self.current_player,
            history: self.move_history@,
            over: self.is_over,
            outcome: self.outcome,
        }
    }
}

impl Game {
    /// The board is well formed and the state is valid. Every game that
    /// this module hands out is well formed.
    pub closed spec fn wf(&self) -> bool {
        &&& self.board.wf()
        &&& self@.valid()
    }

    /// A well-formed game shows a valid state.
    pub proof fn lemma_wf_valid(&self)
        requires
            self.wf(),
        ensures
            self@.valid(),
    {
    }

    pub fn new(width: usize, height: usize) -> (game: Game)
        requires
            width * height <= usize::MAX,
        ensures
            game.wf(),
            game@ == GameState::start(width as nat, height as nat),
    {
        let game = Game {
            board: Board::new(width, height),
            current_player: Player::Red,
            move_history: Vec::new(),
            is_over: false,
            outcome: None,
        };
        assert(game@.history =~= Seq::<Move>::empty());
        game
    }

    /// A new game on a board of the given size, if both sides are in the
    /// accepted range; else the error that names the first side that is not.
    pub fn bounded(width: usize, height: usize) -> (made: Result<Game, DimensionError>)
        ensures
            match made {
                Ok(game) => size_error(width as int, height as int) is None && game.wf() && game@
                    == GameState::start(width as nat, height as nat),
                Err(e) => size_error(width as int, height as int) == Some(e),
            },
    {
        match Board::bounded(width, height) {
            Ok(board) => {
                let game = Game {
                    board,
                    current_player: Player::Red,
                    move_history: Vec::new(),
                    is_over: false,
                    outcome: None,
                };
                assert(game@.history =~= Seq::<Move>::empty());
                Ok(game)
            },
            Err(e) => Err(e),
        }
    }

    pub fn standard() -> (game: Game)
        ensures
            game.wf(),
            game@ == GameState::start(STANDARD_COLS as nat, STANDARD_ROWS as nat),
    {
        Self::new(STANDARD_COLS, STANDARD_ROWS)
    }

    pub fn width(&self) -> (width: usize)
        ensures
            width == self@.board.width,
    {
        self.board.width()
    }

    pub fn height(&self) -> (height: usize)
        ensures
            height == self@.board.height,
    {
        self.board.height()
    }

    /// The occupant of a cell as a signed unit: `1` for Red, `-1` for Yellow.
    pub fn get_piece(&self, pos: &Position) -> (piece: Option<i8>)
        requires
            self.wf(),
        ensures
            match self@.board.at(pos.col as int, pos.row as int) {
                Some(player) => piece == Some(player.sign() as i8),
                None => piece is None,
            },
    {
        match self.board.get_piece(pos) {
            Some(player) => Some(player.to_int()),
            None => None,
        }
    }

    /// Overwrites one cell of the board and nothing else: neither the turn
    /// nor the history nor the outcome takes note. This is for setting a
    /// position up.
    pub fn set_piece(&mut self, pos: &Position, player: Option<Player>)
        requires
            old(self).wf(),
        ensures
            final(self).wf(),
            final(self)@ == (GameState {
                board: old(self)@.board.put(pos.col as int, pos.row as int, player),
                ..old(self)@
            }),
    {
        self.board.set_piece(pos, player)
    }

    pub fn board(&self) -> (board: &Board)
        ensures
            board@ == self@.board,
            self.wf() ==> board.wf(),
    {
        &self.board
    }

    pub fn turn(&self) -> (player: Player)
        ensures
            player == self@.turn,
    {
        self.current_player
    }

    pub fn is_over(&self) -> (over: bool)
        ensures
            over == self@.over,
    {
        self.is_over
    }

    pub fn outcome(&self) -> (outcome: Option<GameOutcome>)
        ensures
            outcome == self@.outcome,
    {
        self.outcome
    }

    pub fn move_history(&self) -> (history: &[Move])
        ensures
            history@ == self@.history,
    {
        self.move_history.as_slice()
    }

    /// The legal moves by ascending column: one for each column that has
    /// room, none once the game is over.
    pub fn legal_moves(&self) -> (moves: Vec<Move>)
        requires
            self.wf(),
        ensures
            self@.lists_legal_moves(moves@),
    {
        let mut moves: Vec<Move> = Vec::new();
        if self.is_over {
            return moves;
        }
        let width = self.board.width();
        let mut col: usize = 0;
        while col < width
            invariant
                self.wf(),
                !self.is_over,
                width == self@.board.width,
                col <= width,
                lists_legal_moves_below(self@, moves@, col as int),
            decreases width - col,
        {
            let ghost before = moves@;
            if !self.board.is_column_full(col) {
                let row = self.board.column_height(col);
                let m = Move::new(col, row);
                moves.push(m);
                proof {
                    assert forall|x: Move| #[trigger]
                        self@.legal(x) && x.col < col + 1 implies moves@.contains(x) by {
                        if x.col < col {
                            let i = choose|i: int| 0 <= i < before.len() && before[i] == x;
                            assert(moves@[i] == x);
                        } else {
                            assert(moves@[before.len() as int] == x);
                        }
                    }
                }
            } else {
                proof {
                    assert forall|x: Move| #[trigger]
                        self@.legal(x) && x.col < col + 1 implies moves@.contains(x) by {
                        assert(x.col < col);
                    }
                }
            }
            col += 1;
        }
        moves
    }

    pub fn is_legal_move(&self, move_: &Move) -> (legal: bool)
        requires
            self.wf(),
        ensures
            legal == self@.legal(*move_),
    {
        if self.is_over {
            return false;
        }
        if move_.col >= self.board.width() {
            return false;
        }
        !self.board.is_column_full(move_.col) && move_.row == self.board.column_height(move_.col)
    }

    /// Plays `move_` if it is legal: the piece of the player to move falls
    /// into the column, the move joins the history, the game ends where the
    /// piece completes four in a line or fills the board, and the turn
    /// passes. An illegal move changes nothing.
    pub fn make_move(&mut self, move_: &Move) -> (played: bool)
        requires
            old(self).wf(),
        ensures
            final(self).wf(),
            played == old(self)@.legal(*move_),
            played ==> final(self)@ == old(self)@.play(*move_),
            !played ==> final(self)@ == old(self)@,
    {
        if !self.is_legal_move(move_) {
            return false;
        }
        proof {
            lemma_legal_move_lands(self@, *move_);
        }
        match self.board.drop_piece(move_.col, self.current_player) {
            Some(row) => {
                let pos = Position::new(move_.col, row);
                self.move_history.push(*move_);
                if self.board.check_win(&pos, self.current_player) {
                    self.is_over = true;
                    self.outcome = Some(
                        match self.current_player {
                            Player::Red => GameOutcome::RedWin,
                            Player::Yellow => GameOutcome::YellowWin,
                        },
                    );
                } else if self.board.is_board_full() {
                    self.is_over = true;
                    self.outcome = Some(GameOutcome::Draw);
                }
                self.current_player = self.current_player.opposite();
                true
            },
            None => false,
        }
    }

    /// Takes the last move back, if there is one: its cell is emptied, the
    /// game counts as undecided, and the turn returns to the player who made
    /// the move.
    pub fn unmake_move(&mut self) -> (undone: bool)
        requires
            old(self).wf(),
        ensures
            final(self).wf(),
            undone == (old(self)@.history.len() > 0),
            undone ==> final(self)@ == old(self)@.undo(),
            !undone ==> final(self)@ == old(self)@,
    {
        match self.move_history.pop() {
            Some(last_move) => {
                let pos = Position::new(last_move.col, last_move.row);
                self.board.set_piece(&pos, None);
                self.is_over = false;
                self.outcome = None;
                self.current_player = self.current_player.opposite();
                assert(self@.history =~= old(self)@.history.drop_last());
                true
            },
            None => false,
        }
    }

    /// The game in words, with the picture of the board below them.
    pub fn to_string(&self) -> (words: String)
        requires
            self.wf(),
        ensures
            words@ == self@.text(),
    {
        let mut out: Vec<char> = Vec::new();
        push_str(&mut out, "Game(turn: ");
        push_str(&mut out, self.current_player.as_str());
        push_str(&mut out, ", is_over: ");
        push_str(
            &mut out,
            if self.is_over {
                "true"
            } else {
                "false"
            },
        );
        push_str(&mut out, ", outcome: ");
        match self.outcome {
            Some(outcome) => {
                push_str(&mut out, "Some(");
                push_str(&mut out, outcome.variant_str());
                push_str(&mut out, ")");
            },
            None => {
                push_str(&mut out, "None");
            },
        }
        push_str(&mut out, ")\n");
        let picture = self.board.to_string();
        push_str(&mut out, picture.as_str());
        proof {
            assert(out@ =~= self@.text());
        }
        from_chars(&out)
    }

    /// The reward of the game from Red's side: `1` where Red has won, `-1`
    /// where Yellow has, `0` for a draw and for a game that still goes on.
    pub fn reward_absolute(&self) -> (reward: i8)
        ensures
            reward == self@.reward_for(Player::Red),
    {
        match self.outcome {
            Some(outcome) => outcome.encode_winner_absolute(),
            None => 0,
        }
    }

    /// The reward of the game from the side of `perspective`.
    pub fn reward_from_perspective(&self, perspective: Player) -> (reward: i8)
        ensures
            reward == self@.reward_for(perspective),
    {
        match self.outcome {
            Some(outcome) => outcome.encode_winner_from_perspective(perspective),
            None => 0,
        }
    }
}

impl Clone for Game {
    fn clone(&self) -> (copy: Game)
        ensures
            copy@ == self@,
            self.wf() ==> copy.wf(),
    {
        let copy = Game {
            board: self.board.clone(),
            current_player: self.current_player,
            move_history: self.move_history.clone(),
            is_over: self.is_over,
            outcome: self.outcome,
        };
        assert(copy.move_history@ =~= self.move_history@);
        copy
    }
}

impl Default for Game {
    fn default() -> (game: Game)
        ensures
            game.wf(),
            game@ == GameState::start(STANDARD_COLS as nat, STANDARD_ROWS as nat),
    {
        Self::standard()
    }
}

} // verus!
