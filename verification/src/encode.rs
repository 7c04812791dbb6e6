//! Moves as action indices: the index of an action is the column into which
//! the piece is dropped, so a game has as many actions as its board has
//! columns.

use vstd::prelude::*;

use crate::game::Game;
use crate::moves::Move;
use crate::state::lemma_move_into;

verus! {

/// The action index of a move: its column.
pub fn encode_move(m: &Move) -> (action: usize)
    ensures
        action == m.col,
{
    m.col
}

/// The number of action indices of a game: the width of its board.
pub fn action_size(game: &Game) -> (size: usize)
    ensures
        size == game@.board.width,
{
    game.width()
}

/// The legal move that an action index stands for in `game`, if the column
/// of that index is open.
pub fn decode_move(action: usize, game: &Game) -> (decoded: Option<Move>)
    requires
        game.wf(),
    ensures
        decoded == if game@.open_column(action as int) {
            Some(game@.move_into(action))
        } else {
            None
        },
{
    proof {
        game.lemma_wf_valid();
        lemma_move_into(game@, action, game@.move_into(action));
    }
    let m = Move::new(action, game.board().column_height(action));
    if game.is_legal_move(&m) {
        Some(m)
    } else {
        None
    }
}

/// The action indices of the legal moves, ascending: the open columns.
pub fn legal_action_indices(game: &Game) -> (actions: Vec<usize>)
    requires
        game.wf(),
    ensures
        forall|i: int| 0 <= i < actions@.len() ==> game@.open_column(#[trigger] actions@[i] as int),
        forall|i: int, j: int| 0 <= i < j < actions@.len() ==> actions@[i] < actions@[j],
        forall|col: usize| #[trigger] game@.open_column(col as int) ==> actions@.contains(col),
{
    let moves = game.legal_moves();
    let mut actions: Vec<usize> = Vec::new();
    let mut i: usize = 0;
    while i < moves.len()
        invariant
            i <= moves@.len(),
            actions@.len() == i,
            forall|k: int| 0 <= k < i ==> actions@[k] == (#[trigger] moves@[k]).col,
        decreases moves@.len() - i,
    {
        actions.push(encode_move(&moves[i]));
        i += 1;
    }
    proof {
        game.lemma_wf_valid();
        assert forall|k: int| 0 <= k < actions@.len() implies game@.open_column(
            #[trigger] actions@[k] as int,
        ) by {
            assert(game@.legal(moves@[k]));
        }
        assert forall|a: int, b: int| 0 <= a < b < actions@.len() implies actions@[a] < actions@[b] by {
            assert(moves@[a].col < moves@[b].col);
        }
        assert forall|col: usize| #[trigger] game@.open_column(col as int) implies actions@.contains(
            col,
        ) by {
            let m = game@.move_into(col);
            lemma_move_into(game@, col, m);
            assert(moves@.contains(m));
            let k = choose|k: int| 0 <= k < moves@.len() && moves@[k] == m;
            assert(actions@[k] == col);
        }
    }
    actions
}

/// Plays the move that an action index stands for, if its column is open;
/// else changes nothing.
pub fn apply_action(game: &mut Game, action: usize) -> (applied: bool)
    requires
        old(game).wf(),
    ensures
        final(game).wf(),
        applied == old(game)@.open_column(action as int),
        applied ==> final(game)@ == old(game)@.play(old(game)@.move_into(action)),
        !applied ==> final(game)@ == old(game)@,
{
    proof {
        game.lemma_wf_valid();
        lemma_move_into(game@, action, game@.move_into(action));
    }
    match decode_move(action, game) {
        Some(m) => game.make_move(&m),
        None => false,
    }
}

} // verus!
