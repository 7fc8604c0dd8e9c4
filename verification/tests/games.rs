use std::cell::RefCell;
use std::collections::VecDeque;
use std::rc::Rc;

use four_win_three_lose::field::{Field, FieldErrors};
use four_win_three_lose::gamelogic::game_handler::GameHandler;
use four_win_three_lose::gamelogic::GameState;
use four_win_three_lose::gui::gui_board::{GuiBoard, Player};
use four_win_three_lose::player::computer::ComputerPlayer;
use four_win_three_lose::player::GamePlayer;
use four_win_three_lose::visualizer::BoardVisualizer;
use four_win_three_lose::{GameResult, Position};

const A: Option<bool> = Some(false);
const B: Option<bool> = Some(true);
const N: Option<bool> = None;

struct Script {
    moves: RefCell<VecDeque<(usize, usize)>>,
    refused: Rc<RefCell<Vec<Position>>>,
}

impl Script {
    fn of(moves: &[(usize, usize)], refused: &Rc<RefCell<Vec<Position>>>) -> Script {
        Script { moves: RefCell::new(moves.iter().copied().collect()), refused: refused.clone() }
    }
}

impl GamePlayer for Script {
    fn new(_player: bool) -> Self {
        Script { moves: RefCell::new(VecDeque::new()), refused: Rc::new(RefCell::new(vec![])) }
    }

    fn make_move(&self, _field: &Field) -> Position {
        Position::from(self.moves.borrow_mut().pop_front().unwrap())
    }

    fn invalid_move(&self, _field: &Field, pos: Position) {
        self.refused.borrow_mut().push(pos);
    }
}

struct Log {
    shown: Rc<RefCell<Vec<String>>>,
}

impl BoardVisualizer for Log {
    fn draw_field(&mut self, field: &Field) {
        self.shown.borrow_mut().push(format!("board {}", field.set_pieces()));
    }

    fn players_turn(&mut self, player_turn: bool) {
        self.shown.borrow_mut().push(format!("turn {}", player_turn));
    }

    fn display_result(&mut self, result: GameResult) {
        self.shown.borrow_mut().push(format!("result {:?}", result));
    }
}

#[test]
fn a_game_runs_to_its_end() {
    let refused = Rc::new(RefCell::new(vec![]));
    let shown = Rc::new(RefCell::new(vec![]));
    let one = Script::of(&[(0, 0), (1, 0), (1, 0), (2, 0)], &refused);
    let two = Script::of(&[(0, 0), (0, 1), (9, 9), (1, 1)], &refused);
    let mut game = GameHandler::new(one, two, Log { shown: shown.clone() });
    assert_eq!(game.current_state(), GameState::InProgress);
    assert_eq!(game.current_turn(), false);
    assert_eq!(*game.current_board(), Field::new());
    game.start();
    let mut turns = vec![];
    while game.current_state() == GameState::InProgress {
        turns.push(game.play_turn());
    }
    game.display_winner();
    assert_eq!(
        turns,
        vec![
            (Position { x: 0, y: 0 }, Ok(())),
            (Position { x: 0, y: 0 }, Err(FieldErrors::PositionAlreadySet(0, 0, false))),
            (Position { x: 0, y: 1 }, Ok(())),
            (Position { x: 1, y: 0 }, Ok(())),
            (Position { x: 9, y: 9 }, Err(FieldErrors::PositionNotInField(9, 9))),
            (Position { x: 1, y: 1 }, Ok(())),
            (Position { x: 1, y: 0 }, Err(FieldErrors::PositionAlreadySet(1, 0, false))),
            (Position { x: 2, y: 0 }, Ok(())),
        ]
    );
    assert_eq!(game.current_state(), GameState::Finished(GameResult::PlayerTwoWins));
    assert_eq!(
        *game.current_board(),
        Field::from([[A, A, A, N], [B, B, N, N], [N, N, N, N], [N, N, N, N]])
    );
    assert_eq!(
        *refused.borrow(),
        vec![Position { x: 0, y: 0 }, Position { x: 9, y: 9 }, Position { x: 1, y: 0 }]
    );
    assert_eq!(
        *shown.borrow(),
        vec![
            "board 0",
            "turn false",
            "board 1",
            "turn false",
            "board 2",
            "turn true",
            "board 3",
            "turn false",
            "board 4",
            "turn true",
            "board 5",
            "turn false",
            "result PlayerTwoWins",
        ]
    );
}

#[test]
fn a_game_begins_with_an_empty_board() {
    let refused = Rc::new(RefCell::new(vec![]));
    let shown = Rc::new(RefCell::new(vec![]));
    let mut game = GameHandler::from((
        Script::of(&[], &refused),
        <Script as GamePlayer>::new(true),
        Log { shown: shown.clone() },
    ));
    assert_eq!(game.current_state(), GameState::InProgress);
    assert_eq!(game.current_turn(), false);
    assert_eq!(*game.current_board(), Field::new());
    game.start();
    assert_eq!(*shown.borrow(), vec!["board 0", "turn false"]);
}

#[test]
fn a_move_is_made_or_refused() {
    let refused = Rc::new(RefCell::new(vec![]));
    let shown = Rc::new(RefCell::new(vec![]));
    let mut game = GameHandler::new(
        Script::of(&[], &refused),
        Script::of(&[], &refused),
        Log { shown: shown.clone() },
    );
    assert_eq!(game.play_move(Position { x: 2, y: 1 }), Ok(()));
    assert_eq!(game.current_turn(), true);
    assert_eq!(game.current_board().get(2, 1), A);
    assert_eq!(
        game.play_move(Position { x: 2, y: 1 }),
        Err(FieldErrors::PositionAlreadySet(2, 1, false))
    );
    assert_eq!(
        game.play_move(Position { x: 4, y: 1 }),
        Err(FieldErrors::PositionNotInField(4, 1))
    );
    assert_eq!(game.current_turn(), true);
    assert_eq!(game.current_board().set_pieces(), 1);
    assert_eq!(refused.borrow().len(), 2);
    assert_eq!(game.play_move(Position { x: 3, y: 3 }), Ok(()));
    assert_eq!(game.current_board().get(3, 3), B);
    assert_eq!(game.current_turn(), false);
    assert_eq!(game.current_state(), GameState::InProgress);
}

#[test]
fn the_window_starts_in_the_menu() {
    let mut gui = GuiBoard::default();
    assert!(gui.shows_menu());
    assert!(matches!(gui.get_player(false), Player::Human));
    assert!(matches!(gui.get_player(true), Player::Human));
    gui.choose_players(Player::Human, Player::Computer(ComputerPlayer::new(true)));
    assert!(!gui.shows_menu());
    assert!(matches!(gui.get_player(false), Player::Human));
    assert!(matches!(gui.get_player(true), Player::Computer(_)));
    assert_eq!(*gui.current_field(), Field::new());
    assert_eq!(gui.current_turn(), false);
    assert_eq!(gui.current_state(), GameState::InProgress);
}

#[test]
fn clicks_move_and_end_the_game() {
    let mut gui = GuiBoard::new(Player::Human, Player::Human);
    assert!(!gui.shows_menu());
    assert!(gui.accepts_click(0, 0));
    assert!(!gui.accepts_click(4, 0));
    assert!(!gui.accepts_click(0, 4));
    gui.handle_computer_player();
    assert_eq!(*gui.current_field(), Field::new());
    for (x, y) in [(0, 0), (0, 1), (1, 0), (1, 1), (3, 0), (2, 1)] {
        assert!(gui.accepts_click(x, y));
        gui.handle_button_press(x, y);
        assert!(!gui.accepts_click(x, y));
    }
    assert_eq!(
        *gui.current_field(),
        Field::from([[A, A, N, A], [B, B, B, N], [N, N, N, N], [N, N, N, N]])
    );
    assert_eq!(gui.current_state(), GameState::Finished(GameResult::PlayerOneWins));
    assert!(!gui.accepts_click(3, 3));
    assert_eq!(gui.current_turn(), false);
    gui.reset(true);
    assert!(gui.shows_menu());
    assert_eq!(*gui.current_field(), Field::new());
    assert_eq!(gui.current_state(), GameState::InProgress);
    gui.reset(false);
    assert!(!gui.shows_menu());
}

#[test]
fn the_computer_takes_its_turn() {
    let mut gui = GuiBoard::new(Player::Human, Player::Computer(ComputerPlayer::new(true)));
    let one = [(0, 0), (2, 0), (0, 2), (2, 2), (0, 3), (2, 3), (3, 3)];
    let two = [(1, 0), (3, 0), (0, 1), (3, 1), (1, 2), (1, 3)];
    for i in 0..7 {
        gui.handle_button_press(one[i].0, one[i].1);
        if i < 6 {
            gui.handle_button_press(two[i].0, two[i].1);
        }
    }
    let before = Field::from([[A, B, A, B], [B, N, N, B], [A, B, A, N], [A, B, A, A]]);
    assert_eq!(*gui.current_field(), before);
    assert_eq!(gui.current_state(), GameState::InProgress);
    assert_eq!(gui.current_turn(), true);
    gui.handle_computer_player();
    assert_eq!(
        *gui.current_field(),
        Field::from([[A, B, A, B], [B, B, N, B], [A, B, A, N], [A, B, A, A]])
    );
    assert_eq!(gui.current_field().winner(), B);
    assert_eq!(gui.current_turn(), false);
    assert_eq!(gui.current_state(), GameState::InProgress);
    gui.handle_computer_player();
    assert_eq!(gui.current_turn(), false);
    assert_eq!(gui.current_field().set_pieces(), 14);
}
