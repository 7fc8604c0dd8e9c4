//! The state of a game and the rule that ends it.

use vstd::prelude::*;

use crate::board::{loser_of, occupied, winner_of, Board};
use crate::field::Field;
use crate::{GameResult, FIELD_X, FIELD_Y};

pub mod game_handler;

verus! {

/// Whether a game is over, and how it ended.
#[derive(PartialEq, Eq, Clone, Copy, Debug, Structural)]
pub enum GameState {
    Finished(GameResult),
    InProgress,
}

/// The state of the game on `b`: the winner wins, else the loser loses, else
/// a full board is a draw, else the game goes on.
pub open spec fn state_of(b: Board) -> GameState {
    if let Some(player) = winner_of(b) {
        GameState::Finished(GameResult::win_of(player))
    } else if let Some(player) = loser_of(b) {
        GameState::Finished(GameResult::loss_of(player))
    } else if occupied(b) == 16 {
        GameState::Finished(GameResult::Draw)
    } else {
        GameState::InProgress
    }
}

impl<'a> From<&'a Field> for GameState {
    fn from(field: &'a Field) -> (state: GameState) {
        if let Some(player) = field.winner() {
            GameState::Finished(GameResult::from(player))
        } else if let Some(player) = field.loser() {
            GameState::Finished(GameResult::from(player).opposite_player())
        } else if field.set_pieces() == FIELD_X * FIELD_Y {
            GameState::Finished(GameResult::Draw)
        } else {
            GameState::InProgress
        }
    }
}

impl<'a> vstd::std_specs::convert::FromSpecImpl<&'a Field> for GameState {
    open spec fn obeys_from_spec() -> bool {
        true
    }

    open spec fn from_spec(field: &'a Field) -> GameState {
        state_of(field@)
    }
}

impl GameState {
    /// The result of a game that is over.
    pub open spec fn result(self) -> Option<GameResult> {
        match self {
            GameState::Finished(result) => Some(result),
            GameState::InProgress => None,
        }
    }

    /// The result of the game, if it is over.
    pub fn into(self) -> (result: Option<GameResult>)
        ensures
            result == self.result(),
    {
        match self {
            GameState::Finished(result) => Some(result),
            GameState::InProgress => None,
        }
    }
}

} // verus!
