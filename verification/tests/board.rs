use rust_connect4::board::{Board, STANDARD_COLS, STANDARD_ROWS};
use rust_connect4::player::Player;
use rust_connect4::position::Position;

#[test]
fn test_empty_board_creation() {
    let board = Board::new(6, 6);
    assert!(!board.is_board_full());
    for col in 0..6 {
        assert_eq!(board.column_height(col), 0);
        assert!(!board.is_column_full(col));
    }

    let board = Board::new(10, 10);
    assert!(!board.is_board_full());
    for col in 0..10 {
        assert_eq!(board.column_height(col), 0);
        assert!(!board.is_column_full(col));
    }
}

#[test]
fn test_standard_board_creation() {
    let board = Board::standard();
    assert!(!board.is_board_full());
    for col in 0..STANDARD_COLS {
        assert_eq!(board.column_height(col), 0);
        assert!(!board.is_column_full(col));
    }
}

#[test]
fn test_drop_piece() {
    let mut board = Board::standard();
    let row = board.drop_piece(0, Player::Red);
    assert_eq!(row, Some(0));

    let pos = Position::new(0, 0);
    assert_eq!(board.get_piece(&pos), Some(Player::Red));
}

#[test]
fn test_drop_multiple_pieces() {
    let mut board = Board::standard();

    // Drop 3 pieces in column 0
    assert_eq!(board.drop_piece(0, Player::Red), Some(0));
    assert_eq!(board.drop_piece(0, Player::Yellow), Some(1));
    assert_eq!(board.drop_piece(0, Player::Red), Some(2));

    assert_eq!(board.column_height(0), 3);
}

#[test]
fn test_column_full() {
    let mut board = Board::standard();

    // Fill column 0
    for _ in 0..STANDARD_ROWS {
        board.drop_piece(0, Player::Red);
    }

    assert!(board.is_column_full(0));
    assert_eq!(board.drop_piece(0, Player::Red), None);
}

#[test]
fn test_board_full() {
    let mut board = Board::standard();

    // Fill entire board
    for col in 0..STANDARD_COLS {
        for _ in 0..STANDARD_ROWS {
            board.drop_piece(col, Player::Red);
        }
    }

    assert!(board.is_board_full());
}

#[test]
fn board_test_horizontal_win() {
    let mut board = Board::standard();

    // Place 4 red pieces horizontally
    for col in 0..4 {
        board.drop_piece(col, Player::Red);
    }

    let pos = Position::new(3, 0);
    assert!(board.check_win(&pos, Player::Red));
}

#[test]
fn board_test_vertical_win() {
    let mut board = Board::standard();

    // Place 4 red pieces vertically in column 0
    for _ in 0..4 {
        board.drop_piece(0, Player::Red);
    }

    let pos = Position::new(0, 3);
    assert!(board.check_win(&pos, Player::Red));
}

#[test]
fn test_diagonal_win_ascending() {
    let mut board = Board::standard();

    // Create diagonal win (/)
    // Col 0: R
    board.drop_piece(0, Player::Red);

    // Col 1: Y, R
    board.drop_piece(1, Player::Yellow);
    board.drop_piece(1, Player::Red);

    // Col 2: Y, Y, R
    board.drop_piece(2, Player::Yellow);
    board.drop_piece(2, Player::Yellow);
    board.drop_piece(2, Player::Red);

    // Col 3: Y, Y, Y, R
    board.drop_piece(3, Player::Yellow);
    board.drop_piece(3, Player::Yellow);
    board.drop_piece(3, Player::Yellow);
    board.drop_piece(3, Player::Red);

    let pos = Position::new(3, 3);
    assert!(board.check_win(&pos, Player::Red));
}

#[test]
fn test_diagonal_win_descending() {
    let mut board = Board::standard();

    // Create diagonal win (\)
    // Col 0: Y, Y, Y, R
    board.drop_piece(0, Player::Yellow);
    board.drop_piece(0, Player::Yellow);
    board.drop_piece(0, Player::Yellow);
    board.drop_piece(0, Player::Red);

    // Col 1: Y, Y, R
    board.drop_piece(1, Player::Yellow);
    board.drop_piece(1, Player::Yellow);
    board.drop_piece(1, Player::Red);

    // Col 2: Y, R
    board.drop_piece(2, Player::Yellow);
    board.drop_piece(2, Player::Red);

    // Col 3: R
    board.drop_piece(3, Player::Red);

    let pos = Position::new(3, 0);
    assert!(board.check_win(&pos, Player::Red));
}

#[test]
fn test_no_win() {
    let mut board = Board::standard();

    // Place 3 pieces (not enough for win)
    for col in 0..3 {
        board.drop_piece(col, Player::Red);
    }

    let pos = Position::new(2, 0);
    assert!(!board.check_win(&pos, Player::Red));
}

#[test]
fn test_get_set() {
    let mut board = Board::standard();
    let pos = Position::new(3, 2);

    assert_eq!(board.get_piece(&pos), None);

    board.set_piece(&pos, Some(Player::Red));
    assert_eq!(board.get_piece(&pos), Some(Player::Red));

    board.set_piece(&pos, None);
    assert_eq!(board.get_piece(&pos), None);
}

#[test]
fn test_out_of_bounds() {
    let mut board = Board::standard();

    // Out of bounds position
    let pos = Position::new(10, 10);
    assert_eq!(board.get_piece(&pos), None);

    board.set_piece(&pos, Some(Player::Red));
    assert_eq!(board.get_piece(&pos), None);
}

#[test]
fn test_invalid_column() {
    let mut board = Board::standard();

    assert_eq!(board.drop_piece(10, Player::Red), None);
    assert_eq!(board.column_height(10), 0);
    assert!(board.is_column_full(10));
}
