//! How a game ended.

use vstd::prelude::*;

use crate::player::Player;

verus! {

/// The result of a concluded game.
#[derive(Clone, Copy, Debug, PartialEq, Eq, Structural)]
pub enum GameOutcome {
    RedWin,
    YellowWin,
    Draw,
}

impl GameOutcome {
    /// The outcome in which `player` has won.
    pub open spec fn win_of(player: Player) -> GameOutcome {
        match player {
            Player::Red => GameOutcome::RedWin,
            Player::Yellow => GameOutcome::YellowWin,
        }
    }

    /// The player who won, if either did.
    pub open spec fn victor(self) -> Option<Player> {
        match self {
            GameOutcome::RedWin => Some(Player::Red),
            GameOutcome::YellowWin => Some(Player::Yellow),
            GameOutcome::Draw => None,
        }
    }

    /// The reward as `perspective` sees it: `+1` for a win of their own,
    /// `-1` for a win of the other player, `0` for a draw.
    pub open spec fn reward_for(self, perspective: Player) -> int {
        match self.victor() {
            Some(winner) => if winner == perspective {
                1
            } else {
                -1
            },
            None => 0,
        }
    }

    /// The reward as Red, the first player, sees it.
    pub open spec fn reward(self) -> int {
        self.reward_for(Player::Red)
    }

    pub fn winner(&self) -> (winner: Option<Player>)
        ensures
            winner == self.victor(),
    {
        match self {
            GameOutcome::RedWin => Some(Player::Red),
            GameOutcome::YellowWin => Some(Player::Yellow),
            GameOutcome::Draw => None,
        }
    }

    /// The reward from Red's side, as a whole number: `1`, `-1` or `0`.
    pub fn encode_winner_absolute(&self) -> (reward: i8)
        ensures
            reward == self.reward(),
    {
        match self {
            GameOutcome::RedWin => 1,
            GameOutcome::YellowWin => -1,
            GameOutcome::Draw => 0,
        }
    }

    /// The reward from the side of `perspective`, as a whole number.
    pub fn encode_winner_from_perspective(&self, perspective: Player) -> (reward: i8)
        ensures
            reward == self.reward_for(perspective),
    {
        match perspective {
            Player::Red => match self {
                GameOutcome::RedWin => 1,
                GameOutcome::YellowWin => -1,
                GameOutcome::Draw => 0,
            },
            Player::Yellow => match self {
                GameOutcome::RedWin => -1,
                GameOutcome::YellowWin => 1,
                GameOutcome::Draw => 0,
            },
        }
    }

    /// The outcome in words.
    pub open spec fn text(self) -> Seq<char> {
        match self {
            GameOutcome::RedWin => "Red wins"@,
            GameOutcome::YellowWin => "Yellow wins"@,
            GameOutcome::Draw => "Draw"@,
        }
    }

    /// The name of the variant, as the derived `Debug` prints it.
    pub open spec fn variant_name(self) -> Seq<char> {
        match self {
            GameOutcome::RedWin => "RedWin"@,
            GameOutcome::YellowWin => "YellowWin"@,
            GameOutcome::Draw => "Draw"@,
        }
    }

    pub fn as_str(&self) -> (s: &'static str)
        ensures
            s@ == self.text(),
    {
        match self {
            GameOutcome::RedWin => "Red wins",
            GameOutcome::YellowWin => "Yellow wins",
            GameOutcome::Draw => "Draw",
        }
    }

    pub fn variant_str(&self) -> (s: &'static str)
        ensures
            s@ == self.variant_name(),
    {
        match self {
            GameOutcome::RedWin => "RedWin",
            GameOutcome::YellowWin => "YellowWin",
            GameOutcome::Draw => "Draw",
        }
    }

    pub fn to_string(&self) -> (s: String)
        ensures
            s@ == self.text(),
    {
        self.as_str().to_owned()
    }

    pub fn is_draw(&self) -> (draw: bool)
        ensures
            draw == (*self == GameOutcome::Draw),
    {
        matches!(self, GameOutcome::Draw)
    }
}

/// The reward seen from one side is the reward from Red's side times the
/// sign of that side; the two players see opposite rewards, and a draw is
/// the only outcome that both see alike.
pub proof fn lemma_reward_perspective(outcome: GameOutcome, perspective: Player)
    ensures
        outcome.reward_for(perspective) == outcome.reward() * perspective.sign(),
        outcome.reward_for(perspective.other()) == -outcome.reward_for(perspective),
        outcome.reward_for(perspective) == 0 <==> outcome == GameOutcome::Draw,
        -1 <= outcome.reward_for(perspective) <= 1,
{
    match perspective {
        Player::Red => {
            assert(outcome.reward() * 1 == outcome.reward());
        },
        Player::Yellow => {
            assert(outcome.reward() * (-1) == -outcome.reward());
        },
    }
}

/// The outcome in which a player has won names that player as the winner.
pub proof fn lemma_win_of(player: Player)
    ensures
        GameOutcome::win_of(player).victor() == Some(player),
        GameOutcome::win_of(player).reward_for(player) == 1,
{
}

} // verus!
