//! The two sides of the game.

use vstd::prelude::*;

verus! {

/// One of the two players. Red always moves first.
#[derive(Clone, Copy, Debug, PartialEq, Eq, Hash, Structural)]
pub enum Player {
    Red,
    Yellow,
}

impl Player {
    /// The other player.
    pub open spec fn other(self) -> Player {
        match self {
            Player::Red => Player::Yellow,
            Player::Yellow => Player::Red,
        }
    }

    /// The signed unit that stands for the player: `+1` for Red, `-1` for Yellow.
    pub open spec fn sign(self) -> int {
        match self {
            Player::Red => 1,
            Player::Yellow => -1,
        }
    }

    /// The glyph that shows the player's pieces.
    pub open spec fn glyph(self) -> char {
        match self {
            Player::Red => 'R',
            Player::Yellow => 'Y',
        }
    }

    /// The player that a glyph names, in either letter case.
    pub open spec fn of_glyph(c: char) -> Option<Player> {
        if c == 'R' || c == 'r' {
            Some(Player::Red)
        } else if c == 'Y' || c == 'y' {
            Some(Player::Yellow)
        } else {
            None
        }
    }

    /// The player that a signed unit names.
    pub open spec fn of_sign(i: int) -> Option<Player> {
        if i == 1 {
            Some(Player::Red)
        } else if i == -1 {
            Some(Player::Yellow)
        } else {
            None
        }
    }

    pub fn opposite(&self) -> (p: Player)
        ensures
            p == self.other(),
    {
        match self {
            Player::Red => Player::Yellow,
            Player::Yellow => Player::Red,
        }
    }

    pub fn to_char(&self) -> (c: char)
        ensures
            c == self.glyph(),
    {
        match self {
            Player::Red => 'R',
            Player::Yellow => 'Y',
        }
    }

    pub fn from_char(c: char) -> (p: Option<Player>)
        ensures
            p == Player::of_glyph(c),
    {
        match c {
            'R' | 'r' => Some(Player::Red),
            'Y' | 'y' => Some(Player::Yellow),
            _ => None,
        }
    }

    pub fn from_int(i: i8) -> (p: Option<Player>)
        ensures
            p == Player::of_sign(i as int),
    {
        match i {
            1 => Some(Player::Red),
            -1 => Some(Player::Yellow),
            _ => None,
        }
    }

    /// The name of the player.
    pub open spec fn name(self) -> Seq<char> {
        match self {
            Player::Red => "Red"@,
            Player::Yellow => "Yellow"@,
        }
    }

    pub fn as_str(&self) -> (s: &'static str)
        ensures
            s@ == self.name(),
    {
        match self {
            Player::Red => "Red",
            Player::Yellow => "Yellow",
        }
    }

    pub fn to_string(&self) -> (s: String)
        ensures
            s@ == self.name(),
    {
        self.as_str().to_owned()
    }

    /// The signed unit of the player, the inverse of `from_int`.
    pub fn to_int(&self) -> (i: i8)
        ensures
            i == self.sign(),
    {
        match self {
            Player::Red => 1,
            Player::Yellow => -1,
        }
    }
}

/// Taking the opposite twice gives the player back, and the opposite is never
/// the player itself.
pub proof fn lemma_opposite_involution(p: Player)
    ensures
        p.other().other() == p,
        p.other() != p,
        p.other().sign() == -p.sign(),
{
}

/// Glyphs and signed units name the players they were made from.
pub proof fn lemma_player_codes_round_trip(p: Player)
    ensures
        Player::of_glyph(p.glyph()) == Some(p),
        Player::of_sign(p.sign()) == Some(p),
{
}

} // verus!
