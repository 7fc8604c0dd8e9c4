//! A 4x4 connect-style game in which four in a row wins and three in a row
//! loses, together with an exhaustive solver for it.
//!
//! Every executable function carries a contract over a mathematical model of
//! the board ([`board::Board`]); the model, the terminal patterns and the
//! minimax value of a position are defined in [`board`] and [`game_tree`].

use vstd::prelude::*;

pub mod board;
pub mod brute_force_field;
pub mod field;
pub mod game_tree;
pub mod gamelogic;
pub mod gui;
pub mod notation;
pub mod player;
pub mod strategy;
pub mod text;
pub mod visualizer;

verus! {

/// Number of columns of the board.
pub const FIELD_X: usize = 4;

/// Number of rows of the board.
pub const FIELD_Y: usize = 4;

/// A cell of the board, as (x-coordinate, y-coordinate).
#[derive(PartialEq, Eq, Debug, Clone, Copy, Structural)]
pub struct Position {
    pub x: usize,
    pub y: usize,
}

impl From<(usize, usize)> for Position {
    /// The position with the coordinates `(x, y)`.
    fn from(value: (usize, usize)) -> (pos: Position) {
        Position { x: value.0, y: value.1 }
    }
}

impl vstd::std_specs::convert::FromSpecImpl<(usize, usize)> for Position {
    open spec fn obeys_from_spec() -> bool {
        true
    }

    open spec fn from_spec(value: (usize, usize)) -> Position {
        Position { x: value.0, y: value.1 }
    }
}

/// How a game ends.
#[derive(Eq, PartialEq, Debug, Clone, Copy, Structural)]
pub enum GameResult {
    /// Nobody wins.
    Draw,
    /// Player one (`false`) wins.
    PlayerOneWins,
    /// Player two (`true`) wins.
    PlayerTwoWins,
}

impl From<bool> for GameResult {
    /// The result in which the player `value` wins.
    fn from(value: bool) -> (result: GameResult) {
        match value {
            true => GameResult::PlayerTwoWins,
            false => GameResult::PlayerOneWins,
        }
    }
}

impl vstd::std_specs::convert::FromSpecImpl<bool> for GameResult {
    open spec fn obeys_from_spec() -> bool {
        true
    }

    open spec fn from_spec(value: bool) -> GameResult {
        GameResult::win_of(value)
    }
}

impl GameResult {
    /// The result in which `player` wins (`false` is player one, `true` is
    /// player two).
    pub open spec fn win_of(player: bool) -> GameResult {
        if player {
            GameResult::PlayerTwoWins
        } else {
            GameResult::PlayerOneWins
        }
    }

    /// The result in which `player` loses.
    pub open spec fn loss_of(player: bool) -> GameResult {
        GameResult::win_of(!player)
    }

    /// The result of a game that `player` won, or a draw if nobody did.
    pub open spec fn of_winner(player: Option<bool>) -> GameResult {
        match player {
            None => GameResult::Draw,
            Some(p) => GameResult::win_of(p),
        }
    }

    /// The same result with the two players exchanged.
    pub open spec fn opposite(self) -> GameResult {
        match self {
            GameResult::Draw => GameResult::Draw,
            GameResult::PlayerOneWins => GameResult::PlayerTwoWins,
            GameResult::PlayerTwoWins => GameResult::PlayerOneWins,
        }
    }

    /// How much `player` likes this result: 2 for a win, 1 for a draw, 0 for
    /// a loss.
    pub open spec fn rank_for(self, player: bool) -> int {
        if self == GameResult::win_of(player) {
            2
        } else if self == GameResult::Draw {
            1
        } else {
            0
        }
    }

    /// The result of a game that `player` won, or a draw if nobody did.
    pub fn player_to_result(player: Option<bool>) -> (result: GameResult)
        ensures
            result == GameResult::of_winner(player),
    {
        match player {
            None => GameResult::Draw,
            Some(false) => GameResult::PlayerOneWins,
            Some(true) => GameResult::PlayerTwoWins,
        }
    }

    /// The same result with the two players exchanged.
    pub fn opposite_player(&self) -> (result: GameResult)
        ensures
            result == self.opposite(),
    {
        match self {
            GameResult::Draw => GameResult::Draw,
            GameResult::PlayerOneWins => GameResult::PlayerTwoWins,
            GameResult::PlayerTwoWins => GameResult::PlayerOneWins,
        }
    }

    /// Whether this result is at least as good for `evaluate_for` as `other`.
    pub fn better_eq_for_player(&self, other: &GameResult, evaluate_for: bool) -> (result: bool)
        ensures
            result == (self.rank_for(evaluate_for) >= other.rank_for(evaluate_for)),
    {
        if *self == *other {
            true
        } else if *self == GameResult::from(evaluate_for) {
            true
        } else {
            *other == GameResult::from(evaluate_for).opposite_player()
        }
    }
}

} // verus!
