//! The mathematical model of a game in progress, its transitions, and the
//! laws that hold of them.

use vstd::prelude::*;

use crate::grid::Grid;
use crate::moves::Move;
use crate::outcome::GameOutcome;
use crate::player::Player;

verus! {

/// What a game consists of at one moment.
pub struct GameState {
    pub board: Grid,
    /// The player to move. After the game has ended: the player who would
    /// have moved next.
    pub turn: Player,
    /// The moves played so far, oldest first.
    pub history: Seq<Move>,
    pub over: bool,
    pub outcome: Option<GameOutcome>,
}

/// The player who makes the move that follows `plies` moves: Red moves
/// first, and the players take turns.
pub open spec fn mover(plies: nat) -> Player {
    if plies % 2 == 0 {
        Player::Red
    } else {
        Player::Yellow
    }
}

impl GameState {
    /// The state before the first move on an empty board of the given size.
    pub open spec fn start(width: nat, height: nat) -> GameState {
        GameState {
            board: Grid::empty(width, height),
            turn: Player::Red,
            history: Seq::empty(),
            over: false,
            outcome: None,
        }
    }

    /// What holds of every state that play can reach: the board is a
    /// rectangle whose sides a machine word can count, the players have
    /// taken turns, and the game is over exactly when it has an outcome.
    pub open spec fn valid(self) -> bool {
        &&& self.board.wf()
        &&& self.board.width <= usize::MAX
        &&& self.board.height <= usize::MAX
        &&& self.turn == mover(self.history.len())
        &&& self.over <==> self.outcome is Some
    }

    /// `m` may be played: the game goes on, the column of `m` has room, and
    /// `m` names the cell on top of the stack of that column.
    pub open spec fn legal(self, m: Move) -> bool {
        &&& !self.over
        &&& !self.board.column_full(m.col as int)
        &&& m.row == self.board.stack_height(m.col as int)
    }

    /// How a game stands after `mover` has placed a piece at the cell of `m`
    /// and `board` is the board with that piece on it: won by `mover` on
    /// four in a line, else drawn on a full board, else undecided.
    pub open spec fn verdict(board: Grid, m: Move, mover: Player) -> Option<GameOutcome> {
        if board.wins(m.col as int, m.row as int, mover) {
            Some(GameOutcome::win_of(mover))
        } else if board.full() {
            Some(GameOutcome::Draw)
        } else {
            None
        }
    }

    /// The state after the legal move `m`. The turn passes to the other
    /// player even where the move ends the game.
    pub open spec fn play(self, m: Move) -> GameState {
        let board = self.board.drop(m.col as int, self.turn);
        let outcome = Self::verdict(board, m, self.turn);
        GameState {
            board,
            turn: self.turn.other(),
            history: self.history.push(m),
            over: outcome is Some,
            outcome,
        }
    }

    /// The state after the last move has been taken back. The game counts
    /// as undecided again, whatever stood before that move.
    pub open spec fn undo(self) -> GameState {
        let m = self.history.last();
        GameState {
            board: self.board.put(m.col as int, m.row as int, None),
            turn: self.turn.other(),
            history: self.history.drop_last(),
            over: false,
            outcome: None,
        }
    }

    /// The reward of the game as `perspective` sees it; nothing is won or
    /// lost while the game goes on.
    pub open spec fn reward_for(self, perspective: Player) -> int {
        match self.outcome {
            Some(outcome) => outcome.reward_for(perspective),
            None => 0,
        }
    }

    /// A piece may be dropped into `col`: the game goes on and the column
    /// has room.
    pub open spec fn open_column(self, col: int) -> bool {
        !self.over && !self.board.column_full(col)
    }

    /// The one legal move into `col`, where the column is open.
    pub open spec fn move_into(self, col: usize) -> Move {
        Move { col, row: self.board.stack_height(col as int) as usize }
    }

    /// The outcome as the derived `Debug` prints it.
    pub open spec fn outcome_text(self) -> Seq<char> {
        match self.outcome {
            Some(outcome) => "Some("@ + outcome.variant_name() + ")"@,
            None => "None"@,
        }
    }

    /// The game in words, with the picture of the board below them.
    pub open spec fn text(self) -> Seq<char> {
        "Game(turn: "@ + self.turn.name() + ", is_over: "@ + (if self.over {
            "true"@
        } else {
            "false"@
        }) + ", outcome: "@ + self.outcome_text() + ")\n"@ + self.board.text()
    }

    /// `moves` lists the legal moves, each once, by ascending column.
    pub open spec fn lists_legal_moves(self, moves: Seq<Move>) -> bool {
        &&& forall|i: int| 0 <= i < moves.len() ==> self.legal(#[trigger] moves[i])
        &&& forall|i: int, j: int|
            0 <= i < j < moves.len() ==> (#[trigger] moves[i]).col < (#[trigger] moves[j]).col
        &&& forall|m: Move| #[trigger] self.legal(m) ==> moves.contains(m)
    }

    /// Every move of `moves` is legal at the moment it is played, when they
    /// are played in order from this state.
    pub open spec fn all_legal(self, moves: Seq<Move>) -> bool
        decreases moves.len(),
    {
        moves.len() > 0 ==> self.all_legal(moves.drop_last()) && self.play_all(
            moves.drop_last(),
        ).legal(moves.last())
    }

    /// The state after the moves of `moves` have been played in order.
    pub open spec fn play_all(self, moves: Seq<Move>) -> GameState
        decreases moves.len(),
    {
        if moves.len() == 0 {
            self
        } else {
            self.play_all(moves.drop_last()).play(moves.last())
        }
    }
}

/// The first state of a game is valid.
pub proof fn lemma_start_valid(width: nat, height: nat)
    requires
        width <= usize::MAX,
        height <= usize::MAX,
    ensures
        GameState::start(width, height).valid(),
{
}

/// A legal move lands on an empty cell of the board, the one that the move
/// names.
pub proof fn lemma_legal_move_lands(s: GameState, m: Move)
    requires
        s.legal(m),
    ensures
        s.board.contains(m.col as int, m.row as int),
        s.board.at(m.col as int, m.row as int) is None,
        s.play(m).board == s.board.put(m.col as int, m.row as int, Some(s.turn)),
{
    s.board.lemma_open_column_has_room(m.col as int);
}

/// Playing a legal move keeps a state valid, makes the history one move
/// longer and passes the turn.
pub proof fn lemma_play_keeps_valid(s: GameState, m: Move)
    requires
        s.valid(),
        s.legal(m),
    ensures
        s.play(m).valid(),
        s.play(m).history.len() == s.history.len() + 1,
        s.play(m).turn == s.turn.other(),
        s.play(m).turn != s.turn,
{
    lemma_legal_move_lands(s, m);
}

/// Taking a legal move back restores the state in which it was played:
/// board, turn, history, and the undecided game.
pub proof fn lemma_undo_play(s: GameState, m: Move)
    requires
        s.valid(),
        s.legal(m),
    ensures
        s.play(m).undo() == s,
{
    lemma_legal_move_lands(s, m);
    let after = s.play(m).undo();
    assert(after.history =~= s.history);
    assert(after.board.columns =~~= s.board.columns);
}

/// After any number of legal moves from a valid state, the history has
/// grown by that number, and the turn has changed hands with every move,
/// the last one included.
pub proof fn lemma_plies_alternate(s: GameState, moves: Seq<Move>)
    requires
        s.valid(),
        s.all_legal(moves),
    ensures
        s.play_all(moves).valid(),
        s.play_all(moves).history == s.history + moves,
        s.play_all(moves).history.len() == s.history.len() + moves.len(),
        s.play_all(moves).turn == mover(s.history.len() + moves.len()),
        moves.len() > 0 ==> s.play_all(moves).turn == s.play_all(moves.drop_last()).turn.other(),
    decreases moves.len(),
{
    if moves.len() > 0 {
        let before = moves.drop_last();
        lemma_plies_alternate(s, before);
        lemma_play_keeps_valid(s.play_all(before), moves.last());
        assert(s.history + moves =~= (s.history + before).push(moves.last()));
    } else {
        assert(s.history + moves =~= s.history);
    }
}

/// A legal move on a board that obeys gravity leaves a board that obeys
/// gravity, with the stack of its column one piece higher.
pub proof fn lemma_play_keeps_gravity(s: GameState, m: Move)
    requires
        s.valid(),
        s.legal(m),
        s.board.obeys_gravity(),
    ensures
        s.play(m).board.obeys_gravity(),
        s.play(m).board.stack_height(m.col as int) == m.row + 1,
        s.play(m).board.at(m.col as int, m.row as int) == Some(s.turn),
{
    s.board.lemma_drop_raises_stack(m.col as int, s.turn, m.col as int);
}

/// Play by legal moves from a board that obeys gravity never leaves a piece
/// hanging over an empty cell.
pub proof fn lemma_play_all_keeps_gravity(s: GameState, moves: Seq<Move>)
    requires
        s.valid(),
        s.board.obeys_gravity(),
        s.all_legal(moves),
    ensures
        s.play_all(moves).board.obeys_gravity(),
    decreases moves.len(),
{
    if moves.len() > 0 {
        let before = moves.drop_last();
        lemma_play_all_keeps_gravity(s, before);
        lemma_plies_alternate(s, before);
        lemma_play_keeps_gravity(s.play_all(before), moves.last());
    }
}

/// From the first state, the history after `n` legal moves has length `n`.
pub proof fn lemma_history_counts_plies(width: nat, height: nat, moves: Seq<Move>)
    requires
        width <= usize::MAX,
        height <= usize::MAX,
        GameState::start(width, height).all_legal(moves),
    ensures
        GameState::start(width, height).play_all(moves).history == moves,
        GameState::start(width, height).play_all(moves).turn == mover(moves.len()),
{
    let s = GameState::start(width, height);
    lemma_plies_alternate(s, moves);
    assert(s.history + moves =~= moves);
}

/// In an open column, the legal moves are the one that `move_into` names.
pub proof fn lemma_move_into(s: GameState, col: usize, m: Move)
    requires
        s.valid(),
    ensures
        s.open_column(col as int) ==> s.legal(s.move_into(col)),
        s.legal(m) ==> s.open_column(m.col as int) && m == s.move_into(m.col),
{
    s.board.lemma_stack_height(col as int);
    s.board.lemma_stack_height(m.col as int);
}

/// While a game goes on, it has no legal move exactly when the board is full.
pub proof fn lemma_no_legal_move_iff_full(s: GameState, moves: Seq<Move>)
    requires
        s.valid(),
        !s.over,
        s.lists_legal_moves(moves),
    ensures
        moves.len() == 0 <==> s.board.full(),
{
    if moves.len() > 0 {
        let m = moves[0];
        assert(s.legal(m));
        assert(!s.board.column_full(m.col as int));
    }
    if !s.board.full() {
        let c = choose|c: int| 0 <= c < s.board.width && !s.board.column_full(c);
        s.board.lemma_stack_height(c);
        let m = Move { col: c as usize, row: s.board.stack_height(c) as usize };
        assert(s.legal(m));
        assert(moves.contains(m));
    }
}

/// A finished game has no legal move.
pub proof fn lemma_no_legal_move_when_over(s: GameState, moves: Seq<Move>)
    requires
        s.over,
        s.lists_legal_moves(moves),
    ensures
        moves.len() == 0,
{
    if moves.len() > 0 {
        assert(s.legal(moves[0]));
    }
}

/// The list of legal moves is determined by the state.
pub proof fn lemma_legal_moves_unique(s: GameState, a: Seq<Move>, b: Seq<Move>)
    requires
        s.lists_legal_moves(a),
        s.lists_legal_moves(b),
    ensures
        a == b,
{
    let bound = usize::MAX + 1;
    assert(lists_legal_moves_below(s, a, bound));
    assert(lists_legal_moves_below(s, b, bound));
    lemma_legal_moves_unique_below(s, a, b, bound);
}

/// `moves` lists, by ascending column, the legal moves in the columns
/// below `bound`.
pub open spec fn lists_legal_moves_below(s: GameState, moves: Seq<Move>, bound: int) -> bool {
    &&& forall|i: int|
        0 <= i < moves.len() ==> s.legal(#[trigger] moves[i]) && moves[i].col < bound
    &&& forall|i: int, j: int|
        0 <= i < j < moves.len() ==> (#[trigger] moves[i]).col < (#[trigger] moves[j]).col
    &&& forall|m: Move| #[trigger] s.legal(m) && m.col < bound ==> moves.contains(m)
}

proof fn lemma_legal_moves_unique_below(s: GameState, a: Seq<Move>, b: Seq<Move>, bound: int)
    requires
        lists_legal_moves_below(s, a, bound),
        lists_legal_moves_below(s, b, bound),
    ensures
        a == b,
    decreases a.len(),
{
    if a.len() == 0 {
        if b.len() > 0 {
            assert(s.legal(b[0]));
            assert(a.contains(b[0]));
        }
        assert(a =~= b);
    } else {
        let m = a.last();
        assert(s.legal(m) && m.col < bound);
        assert(b.contains(m));
        let j = choose|j: int| 0 <= j < b.len() && b[j] == m;
        if j < b.len() - 1 {
            let n = b.last();
            assert(s.legal(n) && n.col < bound);
            assert(a.contains(n));
            let i = choose|i: int| 0 <= i < a.len() && a[i] == n;
            assert(i < a.len() - 1 ==> a[i].col < a[a.len() - 1].col);
            assert(b[j].col < b[b.len() - 1].col);
        }
        assert(b.last() == m);
        let fa = a.drop_last();
        let fb = b.drop_last();
        assert forall|i: int| 0 <= i < fa.len() implies s.legal(#[trigger] fa[i]) && fa[i].col
            < m.col by {
            assert(fa[i] == a[i]);
            assert(a[i].col < a[a.len() - 1].col);
        }
        assert forall|i: int| 0 <= i < fb.len() implies s.legal(#[trigger] fb[i]) && fb[i].col
            < m.col by {
            assert(fb[i] == b[i]);
            assert(b[i].col < b[b.len() - 1].col);
        }
        assert forall|x: Move| #[trigger] s.legal(x) && x.col < m.col implies fa.contains(x) by {
            assert(a.contains(x));
            let i = choose|i: int| 0 <= i < a.len() && a[i] == x;
            assert(fa[i] == x);
        }
        assert forall|x: Move| #[trigger] s.legal(x) && x.col < m.col implies fb.contains(x) by {
            assert(b.contains(x));
            let i = choose|i: int| 0 <= i < b.len() && b[i] == x;
            assert(fb[i] == x);
        }
        lemma_legal_moves_unique_below(s, fa, fb, m.col as int);
        assert(a =~= fa.push(m));
        assert(b =~= fb.push(m));
    }
}

} // verus!
