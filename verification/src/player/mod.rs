//! The players of a game: whoever, given the board, names a move.

use vstd::prelude::*;

use crate::board::occupied;
use crate::field::Field;
use crate::strategy::position_is_free;
use crate::Position;

pub mod computer;
pub mod human_terminal;

verus! {

/// A player of the game. Nothing is promised of the move that a player
/// names: the game checks it.
pub trait GamePlayer: Sized {
    /// The player who plays as `player` (`false` is player one).
    fn new(player: bool) -> Self;

    /// The move that the player makes on `field`, which has a free cell.
    fn make_move(&self, field: &Field) -> Position
        requires
            occupied(field@) < 16,
    ;

    /// Tells the player that the move `pos`, which is no free cell of
    /// `field`, was turned down.
    fn invalid_move(&self, field: &Field, pos: Position)
        requires
            !position_is_free(field@, pos),
    ;
}

} // verus!
