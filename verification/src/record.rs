//! The compact record of a game: the columns of its moves in decimal
//! notation, in the order of play, with commas between them. The record of
//! a game without moves is the empty text. Reading a record replays the
//! columns on a fresh standard game.

use vstd::prelude::*;

use crate::board::{STANDARD_COLS, STANDARD_ROWS};
use crate::encode::apply_action;
use crate::game::Game;
use crate::moves::Move;
use crate::state::{lemma_move_into, lemma_plies_alternate, GameState};
use crate::text::{
    decimal, from_chars, lemma_decimal_digits, lemma_decimal_round_trip, number, push_decimal,
    push_str, read_number, to_chars, trim, trim_range, NumberError,
};

verus! {

/// Why a record could not be read.
#[derive(Clone, Copy, Debug, PartialEq, Eq, Structural)]
pub enum RecordError {
    /// A field between commas is not a number.
    InvalidColumn(NumberError),
    /// The column cannot be played at its place in the record: it is off
    /// the board or full, or the game is over by then.
    InvalidMove(usize),
    /// A move on its own names a column that the standard board lacks.
    ColumnOutOfRange(u64),
}

impl RecordError {
    /// What the error says.
    pub open spec fn text(self) -> Seq<char> {
        match self {
            RecordError::InvalidColumn(e) => "Invalid column number: "@ + e.text(),
            RecordError::InvalidMove(col) => "Invalid move: col "@ + decimal(col as nat),
            RecordError::ColumnOutOfRange(col) => "Column "@ + decimal(col as nat) + " out of range"@,
        }
    }

    pub fn to_string(&self) -> (s: String)
        ensures
            s@ == self.text(),
    {
        let mut out: Vec<char> = Vec::new();
        match self {
            RecordError::InvalidColumn(e) => {
                push_str(&mut out, "Invalid column number: ");
                push_str(&mut out, e.as_str());
            },
            RecordError::InvalidMove(col) => {
                push_str(&mut out, "Invalid move: col ");
                push_decimal(&mut out, *col as u64);
            },
            RecordError::ColumnOutOfRange(col) => {
                push_str(&mut out, "Column ");
                push_decimal(&mut out, *col);
                push_str(&mut out, " out of range");
            },
        }
        from_chars(&out)
    }
}

/// The comma that parts the columns of a record.
pub open spec fn is_separator(c: char) -> bool {
    c == ','
}

/// The fields of a text: what stands before, between and after its commas.
/// A text without a comma is one field.
pub open spec fn fields(text: Seq<char>) -> Seq<Seq<char>>
    decreases text.len(),
{
    if text.len() == 0 {
        seq![Seq::empty()]
    } else {
        let before = fields(text.drop_last());
        if is_separator(text.last()) {
            before.push(Seq::empty())
        } else {
            before.update(before.len() - 1, before.last().push(text.last()))
        }
    }
}

/// The game after the column that `field` writes has been played in `s`,
/// or the reason why it cannot be.
pub open spec fn replay_field(s: GameState, field: Seq<char>) -> Result<GameState, RecordError> {
    match number(trim(field)) {
        Err(e) => Err(RecordError::InvalidColumn(e)),
        Ok(col) => if s.open_column(col as int) {
            Ok(s.play(s.move_into(col as usize)))
        } else {
            Err(RecordError::InvalidMove(col as usize))
        },
    }
}

/// The standard game after the columns of all fields have been played in
/// order, or the error of the first field that cannot be played.
pub open spec fn replay(fields: Seq<Seq<char>>) -> Result<GameState, RecordError>
    decreases fields.len(),
{
    if fields.len() == 0 {
        Ok(GameState::start(STANDARD_COLS as nat, STANDARD_ROWS as nat))
    } else {
        match replay(fields.drop_last()) {
            Err(e) => Err(e),
            Ok(s) => replay_field(s, fields.last()),
        }
    }
}

/// The game that a record stands for.
pub open spec fn game_of_record(record: Seq<char>) -> Result<GameState, RecordError> {
    if record.len() == 0 {
        Ok(GameState::start(STANDARD_COLS as nat, STANDARD_ROWS as nat))
    } else {
        replay(fields(record))
    }
}

/// The record of a history of moves.
pub open spec fn record_of(history: Seq<Move>) -> Seq<char>
    decreases history.len(),
{
    if history.len() == 0 {
        Seq::empty()
    } else if history.len() == 1 {
        decimal(history[0].col as nat)
    } else {
        record_of(history.drop_last()) + seq![','] + decimal(history.last().col as nat)
    }
}

/// Writes the record of a game: the columns of its history.
pub fn write_game(game: &Game) -> (record: String)
    ensures
        record@ == record_of(game@.history),
{
    let history = game.move_history();
    let mut out: Vec<char> = Vec::new();
    let mut i: usize = 0;
    while i < history.len()
        invariant
            i <= history@.len(),
            out@ == record_of(history@.take(i as int)),
        decreases history@.len() - i,
    {
        if i > 0 {
            out.push(',');
        }
        push_decimal(&mut out, history[i].col as u64);
        proof {
            let upto = history@.take(i + 1);
            assert(upto.drop_last() =~= history@.take(i as int));
            assert(upto.last() == history@[i as int]);
            if i == 0 {
                assert(out@ =~= decimal(history@[0].col as nat));
            } else {
                assert(out@ =~= record_of(upto.drop_last()) + seq![','] + decimal(
                    history@[i as int].col as nat,
                ));
            }
        }
        i += 1;
    }
    assert(history@.take(history@.len() as int) =~= history@);
    from_chars(&out)
}

/// Plays the column that a field of a record writes.
fn play_field(game: &mut Game, chars: &Vec<char>, from: usize, to: usize) -> (played: Result<
    (),
    RecordError,
>)
    requires
        old(game).wf(),
        from <= to <= chars@.len(),
    ensures
        final(game).wf(),
        match played {
            Ok(()) => replay_field(old(game)@, chars@.subrange(from as int, to as int)) == Ok::<
                GameState,
                RecordError,
            >(final(game)@),
            Err(e) => replay_field(old(game)@, chars@.subrange(from as int, to as int)) == Err::<
                GameState,
                RecordError,
            >(e),
        },
{
    let (start, end) = trim_range(chars, from, to);
    match read_number(chars, start, end) {
        Err(e) => Err(RecordError::InvalidColumn(e)),
        Ok(col) => {
            if apply_action(game, col) {
                Ok(())
            } else {
                Err(RecordError::InvalidMove(col))
            }
        },
    }
}

/// Reads a record: replays its columns on a fresh standard game. The first
/// field that is no number, or whose column cannot be played, is the error;
/// nothing of the game replayed so far is handed out then.
pub fn read_game(record: &str) -> (read: Result<Game, RecordError>)
    ensures
        match read {
            Ok(game) => game.wf() && game_of_record(record@) == Ok::<GameState, RecordError>(game@),
            Err(e) => game_of_record(record@) == Err::<GameState, RecordError>(e),
        },
{
    let chars = to_chars(record);
    let mut game = Game::standard();
    if chars.len() == 0 {
        return Ok(game);
    }
    let mut from: usize = 0;
    let mut i: usize = 0;
    assert(chars@.take(0) =~= Seq::<char>::empty());
    assert(fields(chars@.take(0)).drop_last() =~= Seq::<Seq<char>>::empty());
    while i < chars.len()
        invariant
            chars@ == record@,
            from <= i <= chars@.len(),
            game.wf(),
            fields(chars@.take(i as int)).len() > 0,
            fields(chars@.take(i as int)).last() == chars@.subrange(from as int, i as int),
            replay(fields(chars@.take(i as int)).drop_last()) == Ok::<GameState, RecordError>(game@),
        decreases chars@.len() - i,
    {
        let ghost before = fields(chars@.take(i as int));
        proof {
            assert(chars@.take(i + 1).drop_last() =~= chars@.take(i as int));
        }
        if chars[i] == ',' {
            match play_field(&mut game, &chars, from, i) {
                Ok(()) => {},
                Err(e) => {
                    proof {
                        assert(replay(before) == Err::<GameState, RecordError>(e));
                        assert(fields(chars@.take(i + 1)).drop_last() =~= before);
                        lemma_replay_error_stays(chars@, i + 1);
                    }
                    return Err(e);
                },
            }
            from = i + 1;
            proof {
                assert(before.push(Seq::<char>::empty()).drop_last() =~= before);
                assert(chars@.subrange(from as int, i + 1) =~= Seq::<char>::empty());
            }
        } else {
            proof {
                let after = before.update(before.len() - 1, before.last().push(chars@[i as int]));
                assert(after.drop_last() =~= before.drop_last());
                assert(chars@.subrange(from as int, i + 1) =~= before.last().push(chars@[i as int]));
            }
        }
        i += 1;
    }
    proof {
        assert(chars@.take(i as int) =~= chars@);
    }
    match play_field(&mut game, &chars, from, i) {
        Ok(()) => Ok(game),
        Err(e) => Err(e),
    }
}

/// Once the fields that are complete at some place of the text have failed
/// to replay, the fields of the whole text fail in the same way.
proof fn lemma_replay_error_stays(text: Seq<char>, upto: int)
    requires
        0 <= upto <= text.len(),
        replay(fields(text.take(upto)).drop_last()) is Err,
    ensures
        replay(fields(text)) == replay(fields(text.take(upto)).drop_last()),
    decreases text.len() - upto,
{
    let before = fields(text.take(upto));
    lemma_fields_nonempty(text.take(upto));
    if upto < text.len() {
        let after = fields(text.take(upto + 1));
        assert(text.take(upto + 1).drop_last() =~= text.take(upto));
        if is_separator(text[upto]) {
            assert(after.drop_last() =~= before);
        } else {
            assert(after.drop_last() =~= before.drop_last());
        }
        lemma_replay_error_stays(text, upto + 1);
    } else {
        assert(text.take(upto) =~= text);
    }
}

/// A text has one field more than it has commas: one at least.
pub proof fn lemma_fields_nonempty(text: Seq<char>)
    ensures
        fields(text).len() > 0,
    decreases text.len(),
{
    if text.len() > 0 {
        lemma_fields_nonempty(text.drop_last());
    }
}

/// The fields of two texts with a comma between them are the fields of the
/// first and then those of the second.
pub proof fn lemma_fields_joined(a: Seq<char>, b: Seq<char>)
    ensures
        fields(a + seq![','] + b) == fields(a) + fields(b),
    decreases b.len(),
{
    let joined = a + seq![','] + b;
    lemma_fields_nonempty(a);
    lemma_fields_nonempty(b);
    if b.len() == 0 {
        assert(joined.drop_last() =~= a);
        assert(fields(a).push(Seq::<char>::empty()) =~= fields(a) + fields(b));
    } else {
        let shorter = b.drop_last();
        assert(joined.drop_last() =~= a + seq![','] + shorter);
        lemma_fields_joined(a, shorter);
        lemma_fields_nonempty(shorter);
        assert(fields(joined) =~= fields(a) + fields(b));
    }
}

/// A text without a comma is one field.
pub proof fn lemma_fields_plain(text: Seq<char>)
    requires
        forall|i: int| 0 <= i < text.len() ==> !is_separator(#[trigger] text[i]),
    ensures
        fields(text) == seq![text],
    decreases text.len(),
{
    if text.len() > 0 {
        let shorter = text.drop_last();
        assert forall|i: int| 0 <= i < shorter.len() implies !is_separator(#[trigger] shorter[i]) by {
            assert(shorter[i] == text[i]);
        }
        lemma_fields_plain(shorter);
        assert(!is_separator(text[text.len() - 1]));
        assert(shorter.push(text.last()) =~= text);
        assert(seq![shorter].update(0, text) =~= seq![text]);
    } else {
        assert(text =~= Seq::<char>::empty());
    }
}

/// The columns of a history in decimal notation.
pub open spec fn columns_of(history: Seq<Move>) -> Seq<Seq<char>> {
    Seq::new(history.len(), |i: int| decimal(history[i].col as nat))
}

/// The fields of the record of a history are the columns of its moves.
pub proof fn lemma_fields_of_record(history: Seq<Move>)
    requires
        history.len() > 0,
    ensures
        record_of(history).len() > 0,
        fields(record_of(history)) == columns_of(history),
    decreases history.len(),
{
    let last = decimal(history.last().col as nat);
    lemma_decimal_digits(history.last().col as nat);
    lemma_fields_plain(last);
    if history.len() == 1 {
        assert(columns_of(history) =~= seq![last]);
    } else {
        let before = history.drop_last();
        lemma_fields_of_record(before);
        lemma_fields_joined(record_of(before), last);
        assert(columns_of(history) =~= columns_of(before) + seq![last]);
    }
}

/// Replaying the columns of a history of legal moves plays these moves.
proof fn lemma_replay_plays(history: Seq<Move>)
    requires
        GameState::start(STANDARD_COLS as nat, STANDARD_ROWS as nat).all_legal(history),
    ensures
        replay(columns_of(history)) == Ok::<GameState, RecordError>(
            GameState::start(STANDARD_COLS as nat, STANDARD_ROWS as nat).play_all(history),
        ),
    decreases history.len(),
{
    let start = GameState::start(STANDARD_COLS as nat, STANDARD_ROWS as nat);
    if history.len() > 0 {
        let before = history.drop_last();
        let m = history.last();
        let s = start.play_all(before);
        lemma_replay_plays(before);
        lemma_plies_alternate(start, before);
        lemma_move_into(s, m.col, m);
        lemma_decimal_round_trip(m.col as nat);
        assert(columns_of(history).drop_last() =~= columns_of(before));
        assert(columns_of(history).last() == decimal(m.col as nat));
    } else {
        assert(columns_of(history) =~= Seq::<Seq<char>>::empty());
    }
}

/// Reading the record of a game that was played by legal moves from the
/// standard start gives that game back.
pub proof fn lemma_record_round_trip(history: Seq<Move>)
    requires
        GameState::start(STANDARD_COLS as nat, STANDARD_ROWS as nat).all_legal(history),
    ensures
        game_of_record(record_of(history)) == Ok::<GameState, RecordError>(
            GameState::start(STANDARD_COLS as nat, STANDARD_ROWS as nat).play_all(history),
        ),
{
    lemma_replay_plays(history);
    if history.len() > 0 {
        lemma_fields_of_record(history);
    }
}

/// The number that stands for a move on its own: its column.
pub fn write_move(m: &Move) -> (column: u64)
    ensures
        column == m.col,
{
    m.col as u64
}

/// Reads a move on its own from its column. Its row is left at zero: the
/// row is found when the move is played, not before.
pub fn read_move(column: u64) -> (read: Result<Move, RecordError>)
    ensures
        read == if column < STANDARD_COLS {
            Ok::<Move, RecordError>(Move { col: column as usize, row: 0 })
        } else {
            Err::<Move, RecordError>(RecordError::ColumnOutOfRange(column))
        },
{
    if column >= STANDARD_COLS as u64 {
        return Err(RecordError::ColumnOutOfRange(column));
    }
    Ok(Move::new(column as usize, 0))
}

} // verus!
