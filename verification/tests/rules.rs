use rust_connect4::board::{check_size, Board, DimensionError, MAX_SIDE, MIN_SIDE};
use rust_connect4::encode::{
    action_size, apply_action, decode_move, encode_move, legal_action_indices,
};
use rust_connect4::game::Game;
use rust_connect4::moves::Move;
use rust_connect4::outcome::GameOutcome;
use rust_connect4::player::Player;
use rust_connect4::position::Position;

fn play_columns(game: &mut Game, columns: &[usize]) {
    for &col in columns {
        assert!(apply_action(game, col), "column {} should be open", col);
    }
}

/// A filling of the standard board, column pair by column pair, in which
/// nobody gets four in a line.
fn draw_columns() -> Vec<usize> {
    vec![
        0, 1, 0, 1, 0, 1, 1, 0, 1, 0, 1, 0, 2, 3, 2, 3, 2, 3, 3, 2, 3, 2, 3, 2, 4, 5, 4, 5, 4, 5,
        5, 4, 5, 4, 5, 4, 6, 6, 6, 6, 6, 6,
    ]
}

#[test]
fn history_counts_plies_and_turns_alternate() {
    let mut game = Game::standard();
    let columns = [3, 3, 4, 2, 4, 4, 0, 6, 6, 1];
    for (n, &col) in columns.iter().enumerate() {
        let mover = game.turn();
        assert_eq!(mover, if n % 2 == 0 { Player::Red } else { Player::Yellow });
        assert!(apply_action(&mut game, col));
        assert_eq!(game.move_history().len(), n + 1);
        assert_eq!(game.turn(), mover.opposite());
    }
}

#[test]
fn turn_passes_on_the_move_that_ends_the_game() {
    let mut game = Game::standard();
    play_columns(&mut game, &[0, 1, 0, 1, 0, 1]);
    assert_eq!(game.turn(), Player::Red);
    assert!(game.make_move(&Move::new(0, 3)));
    assert!(game.is_over());
    assert_eq!(game.turn(), Player::Yellow);
    assert_eq!(game.move_history().len(), 7);
}

#[test]
fn unmake_restores_what_make_changed() {
    let mut game = Game::standard();
    play_columns(&mut game, &[3, 3, 2, 4, 1]);
    let moves = game.legal_moves();
    for m in moves {
        let before = game.clone();
        assert!(game.make_move(&m));
        assert!(game.unmake_move());
        assert_eq!(game.board(), before.board());
        assert_eq!(game.turn(), before.turn());
        assert_eq!(game.is_over(), before.is_over());
        assert_eq!(game.outcome(), before.outcome());
        assert_eq!(game.move_history(), before.move_history());
    }
}

#[test]
fn unmake_reopens_a_won_game() {
    let mut game = Game::standard();
    play_columns(&mut game, &[0, 1, 0, 1, 0, 1, 0]);
    assert_eq!(game.outcome(), Some(GameOutcome::RedWin));
    assert!(game.unmake_move());
    assert!(!game.is_over());
    assert_eq!(game.outcome(), None);
    assert_eq!(game.turn(), Player::Red);
    assert_eq!(game.board().column_height(0), 3);
    assert_eq!(game.legal_moves().len(), 7);
}

#[test]
fn drop_into_full_column_changes_nothing() {
    let mut board = Board::standard();
    for n in 0..6 {
        let player = if n % 2 == 0 { Player::Red } else { Player::Yellow };
        assert_eq!(board.drop_piece(2, player), Some(n));
    }
    let before = board.clone();
    assert_eq!(board.drop_piece(2, Player::Red), None);
    assert_eq!(board.drop_piece(2, Player::Yellow), None);
    assert_eq!(board.drop_piece(7, Player::Yellow), None);
    assert_eq!(board.drop_piece(usize::MAX, Player::Yellow), None);
    assert_eq!(board, before);
}

#[test]
fn no_legal_move_exactly_on_a_full_board() {
    let mut game = Game::standard();
    let columns = draw_columns();
    for (n, &col) in columns.iter().enumerate() {
        assert!(!game.board().is_board_full());
        assert!(!game.legal_moves().is_empty());
        assert!(!game.is_over(), "over after {} moves", n);
        assert!(apply_action(&mut game, col));
    }
    assert!(game.board().is_board_full());
    assert!(game.legal_moves().is_empty());
}

#[test]
fn draw_comes_with_the_last_cell() {
    let mut game = Game::standard();
    let columns = draw_columns();
    assert_eq!(columns.len(), 42);
    for &col in &columns[..41] {
        assert!(apply_action(&mut game, col));
        assert!(!game.is_over());
        assert_eq!(game.outcome(), None);
    }
    assert!(apply_action(&mut game, columns[41]));
    assert!(game.is_over());
    assert_eq!(game.outcome(), Some(GameOutcome::Draw));
    assert_eq!(game.reward_absolute(), 0);
    assert!(!apply_action(&mut game, 0));
}

#[test]
fn red_alone_wins_across_the_bottom() {
    let mut board_only = Game::standard();
    // Yellow never moves: Red's pieces are set by hand but for the last.
    for col in 0..3 {
        board_only.set_piece(&Position::new(col, 0), Some(Player::Red));
    }
    assert!(!board_only.is_over());
    assert!(board_only.make_move(&Move::new(3, 0)));
    assert!(board_only.is_over());
    assert_eq!(board_only.outcome(), Some(GameOutcome::RedWin));
}

#[test]
fn four_in_line_wins_on_every_axis_from_every_place() {
    let axes: [(isize, isize); 4] = [(1, 0), (0, 1), (1, 1), (1, -1)];
    for (dcol, drow) in axes {
        for place in 0..4 {
            let mut board = Board::new(9, 9);
            let cells: Vec<Position> = (0..4)
                .map(|i| Position::new((4 + (i - 1) * dcol) as usize, (4 + (i - 1) * drow) as usize))
                .collect();
            for cell in &cells {
                board.set_piece(cell, Some(Player::Yellow));
            }
            assert!(board.check_win(&cells[place as usize], Player::Yellow));
            assert!(!board.check_win(&cells[place as usize], Player::Red));
        }
    }
}

#[test]
fn three_in_line_blocked_at_both_ends_does_not_win() {
    let axes: [(isize, isize); 4] = [(1, 0), (0, 1), (1, 1), (1, -1)];
    for (dcol, drow) in axes {
        let at = |i: isize| Position::new((4 + i * dcol) as usize, (4 + i * drow) as usize);
        let mut board = Board::new(9, 9);
        board.set_piece(&at(-2), Some(Player::Red));
        for i in -1..2 {
            board.set_piece(&at(i), Some(Player::Yellow));
        }
        board.set_piece(&at(2), Some(Player::Red));
        for i in -1..2 {
            assert!(!board.check_win(&at(i), Player::Yellow));
        }
        // The same three with the far ends empty.
        board.set_piece(&at(-2), None);
        board.set_piece(&at(2), None);
        for i in -1..2 {
            assert!(!board.check_win(&at(i), Player::Yellow));
        }
        // A gap in the middle is no line either: two, a gap, two.
        board.set_piece(&at(-2), Some(Player::Yellow));
        board.set_piece(&at(0), None);
        board.set_piece(&at(2), Some(Player::Yellow));
        assert!(!board.check_win(&at(-1), Player::Yellow));
        // Filling the gap makes five.
        assert!(board.check_win(&at(0), Player::Yellow));
    }
}

#[test]
fn win_check_off_the_board() {
    let mut board = Board::standard();
    for col in 4..7 {
        board.drop_piece(col, Player::Red);
    }
    // The place next to the board completes the line, the next one does not.
    assert!(board.check_win(&Position::new(7, 0), Player::Red));
    assert!(!board.check_win(&Position::new(8, 0), Player::Red));
    assert!(!board.check_win(&Position::new(usize::MAX, usize::MAX), Player::Red));
    assert!(!board.check_win(&Position::new(usize::MAX, 0), Player::Red));
}

#[test]
fn column_height_stops_at_the_first_gap() {
    let mut board = Board::standard();
    board.set_piece(&Position::new(1, 0), Some(Player::Red));
    board.set_piece(&Position::new(1, 2), Some(Player::Yellow));
    assert_eq!(board.column_height(1), 1);
    assert!(!board.is_column_full(1));
    assert_eq!(board.drop_piece(1, Player::Red), Some(1));
    assert_eq!(board.column_height(1), 3);
    board.set_piece(&Position::new(2, 5), Some(Player::Yellow));
    assert!(board.is_column_full(2));
    assert_eq!(board.column_height(2), 0);
    assert_eq!(board.drop_piece(2, Player::Red), None);
}

#[test]
fn boards_without_cells() {
    let flat = Board::new(3, 0);
    assert!(flat.is_board_full());
    assert!(flat.is_column_full(0));
    assert_eq!(flat.column_height(0), 0);
    assert_eq!(flat.to_string(), " 0 1 2 \n");
    let thin = Board::new(0, 3);
    assert!(thin.is_board_full());
    assert!(thin.is_column_full(0));
    assert_eq!(thin.to_string(), "|\n|\n|\n \n");
    let game = Game::new(3, 0);
    assert!(game.legal_moves().is_empty());
    assert!(!game.is_over());
}

#[test]
fn clear_empties_the_board() {
    let mut board = Board::standard();
    for col in 0..7 {
        board.drop_piece(col, Player::Red);
    }
    board.clear();
    assert_eq!(board, Board::standard());
    assert_eq!(board.width(), 7);
    assert_eq!(board.height(), 6);
}

#[test]
fn legal_moves_name_the_tops_of_the_stacks() {
    let mut game = Game::new(4, 3);
    play_columns(&mut game, &[1, 1, 1, 3]);
    assert_eq!(
        game.legal_moves(),
        vec![Move::new(0, 0), Move::new(2, 0), Move::new(3, 1)]
    );
    assert!(game.is_legal_move(&Move::new(3, 1)));
    assert!(!game.is_legal_move(&Move::new(3, 0)));
    assert!(!game.is_legal_move(&Move::new(3, 2)));
    assert!(!game.is_legal_move(&Move::new(1, 3)));
    assert!(!game.is_legal_move(&Move::new(4, 0)));
    assert!(!game.make_move(&Move::new(3, 0)));
    assert_eq!(game.move_history().len(), 4);
    assert_eq!(game.width(), 4);
    assert_eq!(game.height(), 3);
}

#[test]
fn pieces_read_back_as_signed_units() {
    let mut game = Game::standard();
    play_columns(&mut game, &[3, 3]);
    assert_eq!(game.get_piece(&Position::new(3, 0)), Some(1));
    assert_eq!(game.get_piece(&Position::new(3, 1)), Some(-1));
    assert_eq!(game.get_piece(&Position::new(3, 2)), None);
    assert_eq!(game.get_piece(&Position::new(9, 9)), None);
    assert_eq!(Move::new(3, 1).position(), Position::new(3, 1));
}

#[test]
fn actions_are_columns() {
    let mut game = Game::standard();
    assert_eq!(action_size(&game), 7);
    assert_eq!(encode_move(&Move::new(5, 2)), 5);
    assert_eq!(legal_action_indices(&game), vec![0, 1, 2, 3, 4, 5, 6]);
    play_columns(&mut game, &[2, 2, 2, 2, 2, 2]);
    assert_eq!(legal_action_indices(&game), vec![0, 1, 3, 4, 5, 6]);
    assert_eq!(decode_move(2, &game), None);
    assert_eq!(decode_move(7, &game), None);
    assert_eq!(decode_move(3, &game), Some(Move::new(3, 0)));
    assert!(!apply_action(&mut game, 2));
    assert!(!apply_action(&mut game, 7));
    assert_eq!(game.move_history().len(), 6);
    play_columns(&mut game, &[3]);
    assert_eq!(decode_move(3, &game), Some(Move::new(3, 1)));
    // A decided game has no actions.
    let mut won = Game::standard();
    play_columns(&mut won, &[0, 1, 0, 1, 0, 1, 0]);
    assert!(legal_action_indices(&won).is_empty());
    assert_eq!(decode_move(4, &won), None);
}

#[test]
fn rewards_take_sides() {
    let mut game = Game::standard();
    assert_eq!(game.reward_absolute(), 0);
    assert_eq!(game.reward_from_perspective(Player::Yellow), 0);
    play_columns(&mut game, &[0, 1, 0, 1, 0, 1, 0]);
    assert_eq!(game.reward_absolute(), 1);
    assert_eq!(game.reward_from_perspective(Player::Red), 1);
    assert_eq!(game.reward_from_perspective(Player::Yellow), -1);

    let mut other = Game::standard();
    play_columns(&mut other, &[6, 0, 1, 0, 1, 0, 1, 0]);
    assert_eq!(other.outcome(), Some(GameOutcome::YellowWin));
    assert_eq!(other.reward_absolute(), -1);
    assert_eq!(other.reward_from_perspective(Player::Yellow), 1);

    for outcome in [GameOutcome::RedWin, GameOutcome::YellowWin, GameOutcome::Draw] {
        for side in [Player::Red, Player::Yellow] {
            assert_eq!(
                outcome.encode_winner_from_perspective(side),
                outcome.encode_winner_absolute() * side.to_int()
            );
        }
    }
    assert_eq!(GameOutcome::RedWin.winner(), Some(Player::Red));
    assert_eq!(GameOutcome::YellowWin.winner(), Some(Player::Yellow));
    assert_eq!(GameOutcome::Draw.winner(), None);
    assert!(GameOutcome::Draw.is_draw());
    assert!(!GameOutcome::RedWin.is_draw());
}

#[test]
fn players_and_their_codes() {
    assert_eq!(Player::Red.opposite(), Player::Yellow);
    assert_eq!(Player::Yellow.opposite(), Player::Red);
    assert_eq!(Player::Red.to_char(), 'R');
    assert_eq!(Player::Yellow.to_char(), 'Y');
    assert_eq!(Player::from_char('R'), Some(Player::Red));
    assert_eq!(Player::from_char('r'), Some(Player::Red));
    assert_eq!(Player::from_char('Y'), Some(Player::Yellow));
    assert_eq!(Player::from_char('y'), Some(Player::Yellow));
    assert_eq!(Player::from_char('x'), None);
    assert_eq!(Player::from_int(1), Some(Player::Red));
    assert_eq!(Player::from_int(-1), Some(Player::Yellow));
    assert_eq!(Player::from_int(0), None);
    assert_eq!(Player::from_int(2), None);
    assert_eq!(Player::Red.to_int(), 1);
    assert_eq!(Player::Yellow.to_int(), -1);
}

#[test]
fn sizes_within_limits() {
    assert_eq!(MIN_SIDE, 4);
    assert_eq!(MAX_SIDE, 32);
    assert_eq!(check_size(4, 32), Ok(()));
    assert_eq!(check_size(3, 6), Err(DimensionError::Width));
    assert_eq!(check_size(33, 6), Err(DimensionError::Width));
    assert_eq!(check_size(3, 3), Err(DimensionError::Width));
    assert_eq!(check_size(7, 3), Err(DimensionError::Height));
    assert_eq!(check_size(7, 33), Err(DimensionError::Height));
    assert_eq!(Board::bounded(0, 6).err(), Some(DimensionError::Width));
    assert_eq!(Game::bounded(7, 100).err(), Some(DimensionError::Height));
    let board = Board::bounded(32, 4).unwrap();
    assert_eq!((board.width(), board.height()), (32, 4));
    let game = Game::bounded(5, 9).unwrap();
    assert_eq!((game.width(), game.height()), (5, 9));
    assert_eq!(game.turn(), Player::Red);
    assert_eq!(DimensionError::Width.to_string(), "Board width must be between 4 and 32");
    assert_eq!(DimensionError::Height.to_string(), "Board height must be between 4 and 32");
}

#[test]
fn defaults_are_standard() {
    assert_eq!(Board::default(), Board::standard());
    let game = Game::default();
    assert_eq!((game.width(), game.height()), (7, 6));
    assert_eq!(game.move_history().len(), 0);
}

#[test]
fn positions_and_their_places() {
    let pos = Position::new(3, 2);
    assert!(pos.is_valid(7, 6));
    assert!(!pos.is_valid(3, 6));
    assert!(!pos.is_valid(7, 2));
    assert_eq!(pos.to_index(7), 17);
    assert_eq!(Position::new(0, 0).to_index(7), 0);
}
