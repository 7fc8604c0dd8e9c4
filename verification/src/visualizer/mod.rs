//! Whoever shows the game to its players.

use vstd::prelude::*;

use crate::field::Field;
use crate::GameResult;

pub mod terminal;

verus! {

/// A display of the game.
pub trait BoardVisualizer {
    /// Shows the board.
    fn draw_field(&mut self, field: &Field);

    /// Shows whose turn it is (`false` is player one).
    fn players_turn(&mut self, player_turn: bool);

    /// Shows how the game ended.
    fn display_result(&mut self, result: GameResult);
}

} // verus!
