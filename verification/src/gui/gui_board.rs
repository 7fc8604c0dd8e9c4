//! The state behind the window: the menu, the board, whose turn it is, and
//! what a click does.

use vstd::prelude::*;
use vstd::string::StringExecFns;

use crate::board::{empty_board, is_free, occupied};
use crate::field::Field;
use crate::game_tree::after_move;
use crate::gamelogic::{state_of, GameState};
use crate::player::computer::{computer_move, lemma_computer_move, ComputerPlayer};
use crate::Position;

verus! {

/// Who plays one side of the game.
pub enum Player {
    Human,
    Computer(ComputerPlayer),
}

/// The state behind the window.
pub struct GuiBoard {
    player_turn: bool,
    field: Field,
    game_state: GameState,
    player_one: Player,
    player_two: Player,
    in_main_menu: bool,
}

impl Default for GuiBoard {
    /// The window as it opens: in the menu, before a game of two humans.
    fn default() -> (gui: GuiBoard)
        ensures
            gui.is_fresh(),
            gui.in_main_menu(),
            gui.player(false) is Human,
            gui.player(true) is Human,
    {
        GuiBoard {
            player_turn: false,
            field: Field::new(),
            game_state: GameState::InProgress,
            player_one: Player::Human,
            player_two: Player::Human,
            in_main_menu: true,
        }
    }
}

impl GuiBoard {
    /// The board of the game.
    pub closed spec fn field(&self) -> Field {
        self.field
    }

    /// The state of the game as the window knows it.
    pub closed spec fn game_state(&self) -> GameState {
        self.game_state
    }

    /// The player who moves next (`false` is player one).
    pub closed spec fn player_turn(&self) -> bool {
        self.player_turn
    }

    /// Whether the window shows the menu.
    pub closed spec fn in_main_menu(&self) -> bool {
        self.in_main_menu
    }

    /// Who plays as `player`.
    pub closed spec fn player(&self, player: bool) -> Player {
        if player {
            self.player_two
        } else {
            self.player_one
        }
    }

    /// No move was made yet: the board is empty, the game in progress and
    /// player one to move.
    pub open spec fn is_fresh(&self) -> bool {
        &&& self.field()@ == empty_board()
        &&& self.game_state() == GameState::InProgress
        &&& self.player_turn() == false
    }

    /// A game between `player_one` and `player_two`, out of the menu.
    pub fn new(player_one: Player, player_two: Player) -> (gui: GuiBoard)
        ensures
            gui.is_fresh(),
            !gui.in_main_menu(),
            gui.player(false) == player_one,
            gui.player(true) == player_two,
    {
        GuiBoard {
            player_turn: false,
            field: Field::new(),
            game_state: GameState::InProgress,
            player_one,
            player_two,
            in_main_menu: false,
        }
    }

    /// Who plays as `player`.
    pub fn get_player(&self, player: bool) -> (who: &Player)
        ensures
            *who == self.player(player),
    {
        match player {
            true => &self.player_two,
            false => &self.player_one,
        }
    }

    /// The board as it stands.
    pub fn current_field(&self) -> (field: &Field)
        ensures
            *field == self.field(),
    {
        &self.field
    }

    /// The state of the game as the window knows it.
    pub fn current_state(&self) -> (state: GameState)
        ensures
            state == self.game_state(),
    {
        self.game_state
    }

    /// Whose turn it is.
    pub fn current_turn(&self) -> (player: bool)
        ensures
            player == self.player_turn(),
    {
        self.player_turn
    }

    /// Whether the window shows the menu.
    pub fn shows_menu(&self) -> (in_menu: bool)
        ensures
            in_menu == self.in_main_menu(),
    {
        self.in_main_menu
    }

    /// Leaves the menu for a game between `player_one` and `player_two`.
    /// Board, state and turn stay as they are.
    pub fn choose_players(&mut self, player_one: Player, player_two: Player)
        ensures
            !final(self).in_main_menu(),
            final(self).player(false) == player_one,
            final(self).player(true) == player_two,
            final(self).field() == old(self).field(),
            final(self).game_state() == old(self).game_state(),
            final(self).player_turn() == old(self).player_turn(),
    {
        self.in_main_menu = false;
        self.player_one = player_one;
        self.player_two = player_two;
    }

    /// Whether a click on the cell `(x, y)` is a move: the game is in
    /// progress and the cell is free.
    pub fn accepts_click(&self, x: usize, y: usize) -> (accepted: bool)
        ensures
            accepted == (self.game_state() == GameState::InProgress && is_free(
                self.field()@,
                x as int,
                y as int,
            )),
    {
        proof {
            self.field.lemma_view();
        }
        self.game_state == GameState::InProgress && x < 4 && y < 4 && self.field.get(
            x,
            y,
        ).is_none()
    }

    /// Lets the computer move if it is its turn: it takes the cell of its
    /// choice and the turn passes on. The state of the game stays as the
    /// window knows it. Nothing happens on the turn of a human.
    pub fn handle_computer_player(&mut self)
        requires
            old(self).player(old(self).player_turn()) is Computer ==> occupied(old(self).field()@)
                < 16,
        ensures
            final(self).game_state() == old(self).game_state(),
            final(self).in_main_menu() == old(self).in_main_menu(),
            final(self).player(false) == old(self).player(false),
            final(self).player(true) == old(self).player(true),
            match old(self).player(old(self).player_turn()) {
                Player::Human => {
                    &&& final(self).field() == old(self).field()
                    &&& final(self).player_turn() == old(self).player_turn()
                },
                Player::Computer(computer) => {
                    &&& final(self).field()@ == after_move(
                        old(self).field()@,
                        computer_move(computer.side(), old(self).field()@),
                        old(self).player_turn(),
                    )
                    &&& final(self).player_turn() == !old(self).player_turn()
                },
            },
    {
        let field = self.field;
        let turn = self.player_turn;
        if let Player::Computer(com) = self.get_player(turn) {
            let com_move = com.make_move(&field);
            proof {
                field.lemma_view();
                lemma_computer_move(com.side(), field@);
            }
            let _ = self.field.set(com_move.x, com_move.y, turn);
            self.player_turn = !turn;
        }
    }

    /// Makes the move of a click on the free cell `(x, y)`: the player whose
    /// turn it is takes the cell, the state of the game follows the board
    /// and the turn passes on.
    pub fn handle_button_press(&mut self, x: usize, y: usize)
        requires
            is_free(old(self).field()@, x as int, y as int),
        ensures
            final(self).field()@ == after_move(
                old(self).field()@,
                Position { x, y },
                old(self).player_turn(),
            ),
            final(self).game_state() == state_of(final(self).field()@),
            final(self).player_turn() == !old(self).player_turn(),
            final(self).in_main_menu() == old(self).in_main_menu(),
            final(self).player(false) == old(self).player(false),
            final(self).player(true) == old(self).player(true),
    {
        let _ = self.field.set(x, y, self.player_turn);
        self.game_state = GameState::from(&self.field);
        self.player_turn = !self.player_turn;
    }

    /// Starts over, in the menu if `into_menu` says so; the players stay.
    pub fn reset(&mut self, into_menu: bool)
        ensures
            final(self).is_fresh(),
            final(self).in_main_menu() == into_menu,
            final(self).player(false) == old(self).player(false),
            final(self).player(true) == old(self).player(true),
    {
        self.game_state = GameState::InProgress;
        self.field = Field::new();
        self.player_turn = false;
        self.in_main_menu = into_menu;
    }
}

/// The line that says whose turn it is.
pub fn players_turn(player: bool) -> (line: String)
    ensures
        line@ == if player {
            "It's player two's turn."@
        } else {
            "It's player one's turn."@
        },
{
    match player {
        true => String::from_str("It's player two's turn."),
        false => String::from_str("It's player one's turn."),
    }
}

/// The label of a cell: `X` for player one, `O` for player two, a blank for
/// an empty cell.
pub fn item_to_string(field_item: &Option<bool>) -> (label: String)
    ensures
        label@ == match *field_item {
            Some(false) => "X"@,
            Some(true) => "O"@,
            None => " "@,
        },
{
    match field_item {
        Some(false) => String::from_str("X"),
        Some(true) => String::from_str("O"),
        None => String::from_str(" "),
    }
}

} // verus!
