//! A game between two players: whose turn it is, what a move does to the
//! game, and when the game is over.

use vstd::prelude::*;

use super::{state_of, GameState};
use crate::board::{empty_board, occupied};
use crate::field::{answer_to, refusal, Field, FieldErrors};
use crate::game_tree::after_move;
use crate::player::GamePlayer;
use crate::strategy::position_is_free;
use crate::visualizer::BoardVisualizer;
use crate::{Position, FIELD_X, FIELD_Y};

verus! {

/// A game of two players before a display.
pub struct GameHandler<One, Two, V> where One: GamePlayer, Two: GamePlayer, V: BoardVisualizer {
    player_one: One,
    player_two: Two,
    visualizer: V,
    board: Field,
    game_state: GameState,
    player_turn: bool,
}

impl<One, Two, V> From<(One, Two, V)> for GameHandler<One, Two, V> where
    One: GamePlayer,
    Two: GamePlayer,
    V: BoardVisualizer,
{
    /// A new game of the two players before the display.
    fn from(value: (One, Two, V)) -> (game: Self) {
        let board = Field::new();
        proof {
            let empty = Field { field: [[None; FIELD_X]; FIELD_Y] };
            assert(empty@ =~~= empty_board());
            board.lemma_view_injective(empty);
        }
        GameHandler {
            player_one: value.0,
            player_two: value.1,
            visualizer: value.2,
            board,
            game_state: GameState::InProgress,
            player_turn: false,
        }
    }
}

impl<One, Two, V> vstd::std_specs::convert::FromSpecImpl<(One, Two, V)> for GameHandler<One, Two, V> where
    One: GamePlayer,
    Two: GamePlayer,
    V: BoardVisualizer,
{
    open spec fn obeys_from_spec() -> bool {
        true
    }

    open spec fn from_spec(value: (One, Two, V)) -> Self {
        GameHandler::begun(value.0, value.1, value.2)
    }
}

impl<One, Two, V> GameHandler<One, Two, V> where One: GamePlayer, Two: GamePlayer, V: BoardVisualizer {
    /// The board of the game.
    pub closed spec fn board(&self) -> Field {
        self.board
    }

    /// The state of the game.
    pub closed spec fn game_state(&self) -> GameState {
        self.game_state
    }

    /// The player who moves next (`false` is player one).
    pub closed spec fn player_turn(&self) -> bool {
        self.player_turn
    }

    /// The game knows its state: a game in progress is in progress by its
    /// board.
    pub open spec fn well_formed(&self) -> bool {
        self.game_state() is InProgress ==> state_of(self.board()@) is InProgress
    }

    /// The game of `player_one` and `player_two` before `visualizer`, before
    /// its first move.
    pub closed spec fn begun(player_one: One, player_two: Two, visualizer: V) -> Self {
        GameHandler {
            player_one,
            player_two,
            visualizer,
            board: Field { field: [[None; FIELD_X]; FIELD_Y] },
            game_state: GameState::InProgress,
            player_turn: false,
        }
    }

    /// Before the first move the board is empty, the game in progress and
    /// player one to move.
    pub proof fn lemma_begun(player_one: One, player_two: Two, visualizer: V)
        ensures
            Self::begun(player_one, player_two, visualizer).board()@ == empty_board(),
            Self::begun(player_one, player_two, visualizer).game_state() == GameState::InProgress,
            Self::begun(player_one, player_two, visualizer).player_turn() == false,
            Self::begun(player_one, player_two, visualizer).well_formed(),
    {
        let game = Self::begun(player_one, player_two, visualizer);
        assert(game.board()@ =~~= empty_board());
        assert(state_of(empty_board()) is InProgress);
    }

    /// A new game: the board is empty and player one moves first.
    pub fn new(player_one: One, player_two: Two, visualizer: V) -> (game: Self)
        ensures
            game == Self::begun(player_one, player_two, visualizer),
            game.board()@ == empty_board(),
            game.game_state() == GameState::InProgress,
            game.player_turn() == false,
            game.well_formed(),
    {
        proof {
            Self::lemma_begun(player_one, player_two, visualizer);
        }
        GameHandler::from((player_one, player_two, visualizer))
    }

    /// The board as it stands.
    pub fn current_board(&self) -> (board: &Field)
        ensures
            *board == self.board(),
    {
        &self.board
    }

    /// The state of the game as it stands.
    pub fn current_state(&self) -> (state: GameState)
        ensures
            state == self.game_state(),
    {
        self.game_state
    }

    /// Whose turn it is.
    pub fn current_turn(&self) -> (player: bool)
        ensures
            player == self.player_turn(),
    {
        self.player_turn
    }

    /// Asks the player whose turn it is for a move: hands back what that
    /// player answers when shown the board. The game stays as it is.
    fn get_player_move(&mut self) -> (pos: Position)
        requires
            occupied(old(self).board()@) < 16,
        ensures
            *final(self) == *old(self),
            !old(self).player_turn() ==> call_ensures(
                One::make_move,
                (&old(self).player_one(), &old(self).board()),
                pos,
            ),
            old(self).player_turn() ==> call_ensures(
                Two::make_move,
                (&old(self).player_two(), &old(self).board()),
                pos,
            ),
    {
        match self.player_turn {
            false => self.player_one.make_move(&self.board),
            true => self.player_two.make_move(&self.board),
        }
    }

    /// Tells the player whose turn it is that the move was turned down.
    fn player_move_invalid(&self, pos: Position)
        requires
            !position_is_free(self.board()@, pos),
    {
        match self.player_turn {
            false => self.player_one.invalid_move(&self.board, pos),
            true => self.player_two.invalid_move(&self.board, pos),
        };
    }

    /// Shows the board and whose turn it is: the display is asked to draw
    /// the board and then to show the turn. Players, board, state and turn
    /// stay as they are.
    fn update_board(&mut self)
        ensures
            final(self).board() == old(self).board(),
            final(self).game_state() == old(self).game_state(),
            final(self).player_turn() == old(self).player_turn(),
            final(self).player_one() == old(self).player_one(),
            final(self).player_two() == old(self).player_two(),
            exists|drawing: &mut V, telling: &mut V|
                #![trigger
                    call_ensures(V::draw_field, (drawing, &old(self).board()), ()),
                    call_ensures(V::players_turn, (telling, old(self).player_turn()), ()),
                ]
                {
                    &&& *drawing == old(self).visualizer()
                    &&& call_ensures(V::draw_field, (drawing, &old(self).board()), ())
                    &&& *telling == *final(drawing)
                    &&& call_ensures(V::players_turn, (telling, old(self).player_turn()), ())
                    &&& final(self).visualizer() == *final(telling)
                },
    {
        self.visualizer.draw_field(&self.board);
        self.visualizer.players_turn(self.player_turn);
        proof {
            assert(old(self).board() == old(self).board);
            assert(old(self).player_turn() == old(self).player_turn);
        }
    }

    /// Shows the result of the game, which is over: the display is asked to
    /// show that result. Players, board, state and turn stay as they are.
    pub fn display_winner(&mut self)
        requires
            old(self).game_state() is Finished,
        ensures
            final(self).board() == old(self).board(),
            final(self).game_state() == old(self).game_state(),
            final(self).player_turn() == old(self).player_turn(),
            final(self).player_one() == old(self).player_one(),
            final(self).player_two() == old(self).player_two(),
            exists|telling: &mut V|
                {
                    &&& *telling == old(self).visualizer()
                    &&& #[trigger] call_ensures(
                        V::display_result,
                        (telling, old(self).game_state()->Finished_0),
                        (),
                    )
                    &&& final(self).visualizer() == *final(telling)
                },
    {
        match self.game_state {
            GameState::Finished(result) => self.visualizer.display_result(result),
            GameState::InProgress => {},
        }
    }

    /// After a move: shows the board, takes the state of the game from the
    /// board and hands the turn to the other player.
    fn update_game_state(&mut self)
        ensures
            final(self).board() == old(self).board(),
            final(self).game_state() == state_of(old(self).board()@),
            final(self).player_turn() == !old(self).player_turn(),
    {
        self.update_board();
        self.game_state = self.get_board_state();
        self.player_turn = !self.player_turn;
    }

    /// The state of the game by its board.
    fn get_board_state(&self) -> (state: GameState)
        ensures
            state == state_of(self.board()@),
    {
        GameState::from(&self.board)
    }

    /// Shows the board before the first move: the display is asked to draw
    /// the board and then to show the turn. Players, board, state and turn
    /// stay as they are.
    pub fn start(&mut self)
        ensures
            final(self).board() == old(self).board(),
            final(self).game_state() == old(self).game_state(),
            final(self).player_turn() == old(self).player_turn(),
            final(self).player_one() == old(self).player_one(),
            final(self).player_two() == old(self).player_two(),
            exists|drawing: &mut V, telling: &mut V|
                #![trigger
                    call_ensures(V::draw_field, (drawing, &old(self).board()), ()),
                    call_ensures(V::players_turn, (telling, old(self).player_turn()), ()),
                ]
                {
                    &&& *drawing == old(self).visualizer()
                    &&& call_ensures(V::draw_field, (drawing, &old(self).board()), ())
                    &&& *telling == *final(drawing)
                    &&& call_ensures(V::players_turn, (telling, old(self).player_turn()), ())
                    &&& final(self).visualizer() == *final(telling)
                },
    {
        self.update_board();
    }

    /// Plays `player_move` for the player whose turn it is. A move to a free
    /// cell is made, the state of the game follows the board and the turn
    /// passes on; any other move is turned down with the reason, the player
    /// is told so and nothing changes.
    pub fn play_move(&mut self, player_move: Position) -> (res: Result<(), FieldErrors>)
        ensures
            res is Ok <==> position_is_free(old(self).board()@, player_move),
            res is Ok ==> {
                &&& final(self).board()@ == after_move(
                    old(self).board()@,
                    player_move,
                    old(self).player_turn(),
                )
                &&& final(self).game_state() == state_of(final(self).board()@)
                &&& final(self).player_turn() == !old(self).player_turn()
            },
            res is Err ==> {
                &&& final(self).board() == old(self).board()
                &&& final(self).game_state() == old(self).game_state()
                &&& final(self).player_turn() == old(self).player_turn()
            },
            res == answer_to(refusal(old(self).board()@, player_move.x, player_move.y)),
            old(self).well_formed() ==> final(self).well_formed(),
    {
        let res = self.board.set(player_move.x, player_move.y, self.player_turn);
        if res.is_err() {
            self.player_move_invalid(player_move);
            return res;
        }
        self.update_game_state();
        res
    }

    /// One turn of a game in progress: asks the player whose turn it is for
    /// a move and plays it (`play_move`). Hands back the move and whether it
    /// was made: either the player took a free cell, the state follows the
    /// board and the turn passed on, or the game is as before.
    pub fn play_turn(&mut self) -> (turn: (Position, Result<(), FieldErrors>))
        requires
            old(self).well_formed(),
            old(self).game_state() is InProgress,
        ensures
            final(self).well_formed(),
            turn.1 == answer_to(refusal(old(self).board()@, turn.0.x, turn.0.y)),
            turn.1 is Ok ==> {
                &&& position_is_free(old(self).board()@, turn.0)
                &&& final(self).board()@ == after_move(
                    old(self).board()@,
                    turn.0,
                    old(self).player_turn(),
                )
                &&& final(self).game_state() == state_of(final(self).board()@)
                &&& final(self).player_turn() == !old(self).player_turn()
            },
            turn.1 is Err ==> {
                &&& final(self).board() == old(self).board()
                &&& final(self).game_state() == old(self).game_state()
                &&& final(self).player_turn() == old(self).player_turn()
            },
    {
        let player_move: Position = self.get_player_move();
        let res = self.play_move(player_move);
        (player_move, res)
    }

    /// The player who moves first.
    pub closed spec fn player_one(&self) -> One {
        self.player_one
    }

    /// The player who moves second.
    pub closed spec fn player_two(&self) -> Two {
        self.player_two
    }

    /// The display of the game.
    pub closed spec fn visualizer(&self) -> V {
        self.visualizer
    }
}

} // verus!
