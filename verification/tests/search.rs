use four_win_three_lose::field::Field;
use four_win_three_lose::player::computer::ComputerPlayer;
use four_win_three_lose::{GameResult, Position};

const A: Option<bool> = Some(false);
const B: Option<bool> = Some(true);
const N: Option<bool> = None;

fn positions(pairs: &[(usize, usize)]) -> Vec<Position> {
    pairs.iter().map(|pair| Position::from(*pair)).collect()
}

#[test]
fn hybrid_is_exhaustive_above_five_pieces() {
    let field = Field::from([[A, B, B, A], [N, N, N, N], [N, N, N, N], [A, N, N, A]]);
    assert_eq!(field.set_pieces(), 6);
    assert_eq!(field.possible_moves_symmetrical_if_sparse(), field.possible_moves());
    assert_ne!(field.possible_moves(), field.possible_non_symmetrical_moves());
    let full = Field::from([[A, A, B, B], [B, B, A, A], [A, A, B, B], [B, B, A, A]]);
    assert_eq!(full.possible_moves_symmetrical_if_sparse(), None);
}

#[test]
fn hybrid_is_symmetric_up_to_five_pieces() {
    let empty = Field::new();
    assert_eq!(
        empty.possible_moves_symmetrical_if_sparse(),
        Some(positions(&[(0, 0), (0, 1), (1, 0), (1, 1)]))
    );
    let four = Field::from([[A, B, B, A], [N, N, N, N], [N, N, N, N], [N, N, N, N]]);
    assert_eq!(four.set_pieces(), 4);
    assert_eq!(
        four.possible_moves_symmetrical_if_sparse(),
        Some(positions(&[(0, 1), (0, 2), (0, 3), (1, 1), (1, 2), (1, 3)]))
    );
    assert_ne!(four.possible_moves_symmetrical_if_sparse(), four.possible_moves());
    let five = Field::from([[A, B, B, A], [N, N, N, N], [N, N, N, N], [N, A, N, N]]);
    assert_eq!(five.set_pieces(), 5);
    assert_eq!(
        five.possible_moves_symmetrical_if_sparse(),
        five.possible_non_symmetrical_moves()
    );
}

#[test]
fn symmetric_moves_keep_the_first_of_each_kind() {
    let field = Field::from([[A, N, N, A], [N, N, N, N], [N, N, N, N], [N, N, N, N]]);
    assert_eq!(
        field.possible_non_symmetrical_moves(),
        Some(positions(&[
            (0, 1),
            (0, 2),
            (0, 3),
            (1, 0),
            (1, 1),
            (1, 2),
            (1, 3)
        ]))
    );
    let lopsided = Field::from([[A, B, N, N], [N, N, N, N], [N, N, N, N], [N, N, N, N]]);
    assert_eq!(lopsided.possible_non_symmetrical_moves(), lopsided.possible_moves());
    let full = Field::from([[A, A, B, B], [B, B, A, A], [A, A, B, B], [B, B, A, A]]);
    assert_eq!(full.possible_non_symmetrical_moves(), None);
}

#[test]
fn search_twice_gives_the_same_result() {
    let start = Field::from([[B, A, B, A], [B, B, A, B], [A, B, N, N], [B, A, N, N]]);
    for (evaluate_for, player_turn) in [(false, false), (true, true), (false, true), (true, false)] {
        let mut first = start;
        let mut second = start;
        let one = first.brute_force_game_state(evaluate_for, player_turn, &Field::possible_moves);
        let two = second.brute_force_game_state(evaluate_for, player_turn, &Field::possible_moves);
        assert_eq!(one, two);
        assert_eq!(first, start);
        assert_eq!(second, start);
    }
}

#[test]
fn search_finds_the_draw_two_moves_ahead() {
    let mut field = Field::from([[B, B, A, A], [A, A, B, B], [B, B, A, A], [A, N, B, N]]);
    assert_eq!(
        field.brute_force_game_state(false, false, &Field::possible_moves),
        GameResult::Draw
    );
}

#[test]
fn search_takes_the_winning_cell() {
    let mut field = Field::from([[B, A, B, A], [B, A, B, B], [A, N, A, A], [B, A, B, B]]);
    assert_eq!(field.winner(), None);
    assert_eq!(field.loser(), None);
    assert_eq!(field.possible_moves(), Some(positions(&[(1, 2)])));
    assert_eq!(
        field.brute_force_game_state(false, false, &Field::possible_moves),
        GameResult::PlayerOneWins
    );
    assert_eq!(
        field.brute_force_game_state(true, false, &Field::possible_moves),
        GameResult::PlayerOneWins
    );
}

#[test]
fn search_of_a_terminal_board_names_the_pattern() {
    let mut won = Field::from([[B, B, B, B], [N, N, N, N], [N, N, N, N], [N, N, N, N]]);
    assert_eq!(
        won.brute_force_game_state(false, false, &Field::possible_moves),
        GameResult::PlayerTwoWins
    );
    let mut lost = Field::from([[B, B, B, N], [N, N, N, N], [N, N, N, N], [N, N, N, N]]);
    assert_eq!(
        lost.brute_force_game_state(true, true, &Field::possible_moves),
        GameResult::PlayerOneWins
    );
}

#[test]
fn the_three_generators_agree_on_the_value() {
    let start = Field::from([[A, B, N, N], [B, A, N, N], [N, N, B, N], [N, N, N, N]]);
    let mut field = start;
    let all = field.brute_force_game_state(false, false, &Field::possible_moves);
    let reduced =
        field.brute_force_game_state(false, false, &Field::possible_non_symmetrical_moves);
    let hybrid =
        field.brute_force_game_state(false, false, &Field::possible_moves_symmetrical_if_sparse);
    assert_eq!(all, reduced);
    assert_eq!(all, hybrid);
    assert_eq!(field, start);
}

#[test]
fn search_with_a_table_counts_the_moves() {
    let mut field = Field::from([[B, A, B, A], [B, A, B, B], [A, N, A, A], [B, A, B, B]]);
    let mut table = std::collections::HashMap::new();
    let found = field.brute_force_game_state_recursivly(
        false,
        false,
        &Field::possible_moves,
        &mut table,
        7,
    );
    assert_eq!(found, (GameResult::PlayerOneWins, 8));
    assert_eq!(table.len(), 1);
    assert_eq!(table.get(&field.key()), Some(&GameResult::PlayerOneWins));
    let again = field.brute_force_game_state_recursivly(
        false,
        false,
        &Field::possible_moves,
        &mut table,
        3,
    );
    assert_eq!(again, (GameResult::PlayerOneWins, 3));
}

#[test]
fn computer_avoids_the_losing_cell() {
    let field = Field::from([[A, A, B, B], [B, B, A, A], [A, B, N, B], [A, A, N, A]]);
    let player = ComputerPlayer::new(false);
    let chosen = player.make_move(&field);
    assert_eq!(chosen, Position { x: 2, y: 3 });
    let mut after = field;
    assert_eq!(after.set(chosen.x, chosen.y, false), Ok(()));
    assert_eq!(after.winner(), A);
}

#[test]
fn computer_names_a_free_cell() {
    let field = Field::from([[B, A, B, A], [B, B, A, B], [A, B, N, N], [B, A, N, N]]);
    for side in [false, true] {
        let chosen = ComputerPlayer::new(side).make_move(&field);
        let mut after = field;
        assert_eq!(after.set(chosen.x, chosen.y, side), Ok(()));
    }
}
