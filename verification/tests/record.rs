use rust_connect4::game::Game;
use rust_connect4::moves::Move;
use rust_connect4::outcome::GameOutcome;
use rust_connect4::record::{read_game, read_move, write_game, write_move, RecordError};
use rust_connect4::text::NumberError;
use serde::de::Error;
use serde::{Deserialize, Deserializer, Serialize, Serializer};

/// A game as serde sees it: the record of its moves, as a string.
struct GameRecord(Game);

impl Serialize for GameRecord {
    fn serialize<S: Serializer>(&self, serializer: S) -> Result<S::Ok, S::Error> {
        serializer.serialize_str(&write_game(&self.0))
    }
}

impl<'de> Deserialize<'de> for GameRecord {
    fn deserialize<D: Deserializer<'de>>(deserializer: D) -> Result<Self, D::Error> {
        let record = String::deserialize(deserializer)?;
        read_game(&record).map(GameRecord).map_err(|e| D::Error::custom(e.to_string()))
    }
}

/// A move as serde sees it: its column, as a number.
struct MoveRecord(Move);

impl Serialize for MoveRecord {
    fn serialize<S: Serializer>(&self, serializer: S) -> Result<S::Ok, S::Error> {
        serializer.serialize_u64(write_move(&self.0))
    }
}

impl<'de> Deserialize<'de> for MoveRecord {
    fn deserialize<D: Deserializer<'de>>(deserializer: D) -> Result<Self, D::Error> {
        let column = u64::deserialize(deserializer)?;
        read_move(column).map(MoveRecord).map_err(|e| D::Error::custom(e.to_string()))
    }
}

#[test]
fn test_game_serde_empty() {
    let game = Game::standard();

    // Serialize to JSON
    let json = serde_json::to_string(&GameRecord(game)).unwrap();
    assert_eq!(json, r#""""#); // Empty string for new game

    // Deserialize back
    let game2: GameRecord = serde_json::from_str(&json).unwrap();
    assert_eq!(game2.0.move_history().len(), 0);
    assert!(!game2.0.is_over());
}

#[test]
fn test_game_serde_with_moves() {
    let mut game = Game::standard();

    // Make some moves
    game.make_move(&Move::new(3, 0));
    game.make_move(&Move::new(3, 1));
    game.make_move(&Move::new(4, 0));
    game.make_move(&Move::new(4, 1));

    let moves_before = game.move_history().to_vec();

    // Serialize to JSON
    let json = serde_json::to_string(&GameRecord(game)).unwrap();
    assert_eq!(json, r#""3,3,4,4""#);

    // Deserialize back
    let game2: GameRecord = serde_json::from_str(&json).unwrap();

    assert_eq!(game2.0.move_history().len(), moves_before.len());
    for (i, mv) in game2.0.move_history().iter().enumerate() {
        assert_eq!(mv.col, moves_before[i].col);
    }
}

#[test]
fn test_move_serde() {
    let move_ = Move::new(3, 2);

    // Serialize to JSON
    let json = serde_json::to_string(&MoveRecord(move_)).unwrap();
    assert_eq!(json, "3");

    // Deserialize back
    let move2: MoveRecord = serde_json::from_str(&json).unwrap();
    assert_eq!(move2.0.col, 3);
}

#[test]
fn test_game_roundtrip() {
    let mut game = Game::standard();

    // Make a sequence of moves
    let moves_cols = vec![3, 3, 4, 4, 5, 5, 6];
    for col in moves_cols {
        let row = game.board().column_height(col);
        game.make_move(&Move::new(col, row));
    }

    // Serialize
    let json = serde_json::to_string(&GameRecord(game.clone())).unwrap();

    // Deserialize
    let game2: GameRecord = serde_json::from_str(&json).unwrap();

    // Check they're the same
    assert_eq!(game.move_history().len(), game2.0.move_history().len());
    assert_eq!(game.is_over(), game2.0.is_over());
    assert_eq!(game.outcome(), game2.0.outcome());
}

#[test]
fn test_bincode_game() {
    let mut game = Game::standard();
    game.make_move(&Move::new(3, 0));
    game.make_move(&Move::new(4, 0));

    // Serialize with bincode
    let encoded = bincode::serialize(&GameRecord(game.clone())).unwrap();

    // Deserialize
    let game2: GameRecord = bincode::deserialize(&encoded).unwrap();

    assert_eq!(game.move_history().len(), game2.0.move_history().len());
    assert_eq!(game.move_history()[0].col, game2.0.move_history()[0].col);
}

#[test]
fn test_bincode_move() {
    let move_ = Move::new(5, 2);

    // Serialize with bincode
    let encoded = bincode::serialize(&MoveRecord(move_)).unwrap();

    // Deserialize
    let move2: MoveRecord = bincode::deserialize(&encoded).unwrap();

    assert_eq!(move2.0.col, 5);
}

#[test]
fn record_of_fresh_game_is_empty() {
    assert_eq!(write_game(&Game::standard()), "");
    let game = read_game("").unwrap();
    assert_eq!(game.move_history().len(), 0);
    assert!(!game.is_over());
}

#[test]
fn record_lists_columns_with_commas() {
    let mut game = Game::standard();
    for (col, row) in [(3, 0), (3, 1), (4, 0), (4, 1)] {
        assert!(game.make_move(&Move::new(col, row)));
    }
    assert_eq!(write_game(&game), "3,3,4,4");

    let again = read_game("3,3,4,4").unwrap();
    assert_eq!(again.move_history(), game.move_history());
    assert_eq!(again.outcome(), game.outcome());
    assert_eq!(again.turn(), game.turn());
    assert_eq!(again.board(), game.board());
}

#[test]
fn record_finds_the_rows_itself() {
    let game = read_game("2,2,2").unwrap();
    let history = game.move_history();
    assert_eq!(history[0], Move::new(2, 0));
    assert_eq!(history[1], Move::new(2, 1));
    assert_eq!(history[2], Move::new(2, 2));
}

#[test]
fn record_allows_white_space_and_plus() {
    let game = read_game(" 3 ,\t4\n,+5,\u{a0}6\u{2003}").unwrap();
    let cols: Vec<usize> = game.move_history().iter().map(|m| m.col).collect();
    assert_eq!(cols, vec![3, 4, 5, 6]);
}

#[test]
fn record_with_a_win_ends_the_game() {
    let game = read_game("0,1,0,1,0,1,0").unwrap();
    assert!(game.is_over());
    assert_eq!(game.outcome(), Some(GameOutcome::RedWin));
    // Nothing can follow a decided game.
    assert_eq!(read_game("0,1,0,1,0,1,0,2").err(), Some(RecordError::InvalidMove(2)));
}

#[test]
fn record_errors_name_the_first_bad_field() {
    assert_eq!(
        read_game("3,,4").err(),
        Some(RecordError::InvalidColumn(NumberError::Empty))
    );
    assert_eq!(
        read_game("3,").err(),
        Some(RecordError::InvalidColumn(NumberError::Empty))
    );
    assert_eq!(
        read_game(" ").err(),
        Some(RecordError::InvalidColumn(NumberError::Empty))
    );
    assert_eq!(
        read_game("3,x").err(),
        Some(RecordError::InvalidColumn(NumberError::InvalidDigit))
    );
    assert_eq!(
        read_game("+").err(),
        Some(RecordError::InvalidColumn(NumberError::InvalidDigit))
    );
    assert_eq!(
        read_game("-1").err(),
        Some(RecordError::InvalidColumn(NumberError::InvalidDigit))
    );
    assert_eq!(
        read_game("3 3").err(),
        Some(RecordError::InvalidColumn(NumberError::InvalidDigit))
    );
    assert_eq!(
        read_game("99999999999999999999999999").err(),
        Some(RecordError::InvalidColumn(NumberError::TooLarge))
    );
    assert_eq!(
        read_game("99999999999999999999999999x").err(),
        Some(RecordError::InvalidColumn(NumberError::TooLarge))
    );
    assert_eq!(read_game("7").err(), Some(RecordError::InvalidMove(7)));
    assert_eq!(read_game("1,7,x").err(), Some(RecordError::InvalidMove(7)));
    assert_eq!(read_game("x,7").err(), Some(RecordError::InvalidColumn(NumberError::InvalidDigit)));
    assert_eq!(read_game("0,0,0,0,0,0,0").err(), Some(RecordError::InvalidMove(0)));
}

#[test]
fn record_reads_as_the_standard_parser_does() {
    for field in ["0", "6", "007", "+3", " 5", "  ", "+", "-", "a", "1a", "+-1", "１", "18446744073709551616"] {
        let ours = read_game(field).map(|g| g.move_history()[0].col);
        let theirs = field.trim().parse::<usize>();
        match theirs {
            Ok(col) if col < 7 => assert_eq!(ours, Ok(col), "field {:?}", field),
            Ok(col) => assert_eq!(ours, Err(RecordError::InvalidMove(col)), "field {:?}", field),
            Err(e) => {
                let message = format!("Invalid column number: {}", e);
                assert_eq!(ours.unwrap_err().to_string(), message, "field {:?}", field);
            }
        }
    }
}

#[test]
fn record_error_messages() {
    assert_eq!(
        RecordError::InvalidColumn(NumberError::Empty).to_string(),
        "Invalid column number: cannot parse integer from empty string"
    );
    assert_eq!(
        RecordError::InvalidColumn(NumberError::InvalidDigit).to_string(),
        "Invalid column number: invalid digit found in string"
    );
    assert_eq!(
        RecordError::InvalidColumn(NumberError::TooLarge).to_string(),
        "Invalid column number: number too large to fit in target type"
    );
    assert_eq!(RecordError::InvalidMove(12).to_string(), "Invalid move: col 12");
    assert_eq!(RecordError::ColumnOutOfRange(7).to_string(), "Column 7 out of range");
    assert_eq!(
        RecordError::ColumnOutOfRange(u64::MAX).to_string(),
        "Column 18446744073709551615 out of range"
    );
}

#[test]
fn move_on_its_own_is_its_column() {
    assert_eq!(write_move(&Move::new(3, 2)), 3);
    assert_eq!(read_move(3), Ok(Move::new(3, 0)));
    assert_eq!(read_move(6), Ok(Move::new(6, 0)));
    assert_eq!(read_move(7), Err(RecordError::ColumnOutOfRange(7)));
    assert_eq!(read_move(u64::MAX), Err(RecordError::ColumnOutOfRange(u64::MAX)));
}

#[test]
fn serde_reports_a_bad_record() {
    let bad: Result<GameRecord, _> = serde_json::from_str(r#""3,9""#);
    assert!(bad.err().unwrap().to_string().starts_with("Invalid move: col 9"));
    let bad: Result<MoveRecord, _> = serde_json::from_str("9");
    assert!(bad.err().unwrap().to_string().starts_with("Column 9 out of range"));
}
