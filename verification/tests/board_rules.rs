use four_win_three_lose::field::{Field, FieldErrors};
use four_win_three_lose::gamelogic::GameState;
use four_win_three_lose::{GameResult, Position};

const A: Option<bool> = Some(false);
const B: Option<bool> = Some(true);
const N: Option<bool> = None;

#[test]
fn new_board_is_empty() {
    let field = Field::new();
    assert_eq!(field.field, [[N; 4]; 4]);
    assert_eq!(field.set_pieces(), 0);
    assert_eq!(Field::default(), field);
}

#[test]
fn alternating_first_column_is_quiet() {
    let field = Field::from([[A, N, N, N], [B, N, N, N], [A, N, N, N], [B, N, N, N]]);
    assert_eq!(field.winner(), None);
    assert_eq!(field.loser(), None);
    assert_eq!(field.set_pieces(), 4);
}

#[test]
fn full_row_wins() {
    let field = Field::from([[A, A, A, A], [N, N, N, N], [N, N, N, N], [N, N, N, N]]);
    assert_eq!(field.winner(), A);
    assert_eq!(field.loser(), None);
}

#[test]
fn three_in_a_row_loses() {
    let field = Field::from([[A, A, A, N], [N, N, N, N], [N, N, N, N], [N, N, N, N]]);
    assert_eq!(field.loser(), A);
    assert_eq!(field.winner(), None);
}

#[test]
fn three_with_the_other_player_on_the_fourth_cell_loses() {
    let field = Field::from([[A, A, A, B], [N, N, N, N], [N, N, N, N], [N, N, N, N]]);
    assert_eq!(field.loser(), A);
    let field = Field::from([[N, B, N, N], [N, A, N, N], [N, A, N, N], [N, A, N, N]]);
    assert_eq!(field.loser(), A);
}

#[test]
fn outer_cells_alone_make_no_three() {
    let field = Field::from([[A, A, N, A], [N, N, N, N], [N, N, N, N], [N, N, N, N]]);
    assert_eq!(field.loser(), None);
    let field = Field::from([[A, N, A, A], [N, N, N, N], [N, N, N, N], [N, N, N, N]]);
    assert_eq!(field.loser(), None);
}

#[test]
fn full_diagonal_is_a_win_and_holds_a_triple() {
    let field = Field::from([[A, B, N, N], [N, A, N, B], [B, N, A, N], [N, N, N, A]]);
    assert_eq!(field.winner(), A);
    assert_eq!(field.loser(), A);
    assert_eq!(GameState::from(&field), GameState::Finished(GameResult::PlayerOneWins));
}

#[test]
fn diagonal_triples_come_before_lines() {
    let field = Field::from([[B, N, N, N], [A, B, N, N], [A, N, B, N], [A, N, N, N]]);
    assert_eq!(field.loser(), B);
    let field = Field::from([[N, N, N, N], [A, A, A, N], [N, B, N, N], [N, B, N, N]]);
    assert_eq!(field.loser(), A);
    let field = Field::from([[N, B, N, N], [A, B, A, A], [N, B, N, N], [N, N, N, N]]);
    assert_eq!(field.loser(), B);
}

#[test]
fn row_triples_come_before_column_triples() {
    let field = Field::from([[A, A, A, N], [N, N, N, B], [N, N, N, B], [N, N, N, B]]);
    assert_eq!(field.loser(), A);
    let field = Field::from([[B, B, B, N], [N, N, N, A], [N, N, N, A], [N, N, N, A]]);
    assert_eq!(field.loser(), B);
}

#[test]
fn rows_come_before_columns_for_the_winner() {
    let field = Field::from([[B, A, A, A], [B, N, N, N], [B, N, N, N], [B, B, B, B]]);
    assert_eq!(field.winner(), B);
    let field = Field::from([[A, B, N, N], [A, B, N, N], [A, B, N, N], [A, B, N, N]]);
    assert_eq!(field.winner(), A);
}

#[test]
fn set_reports_both_errors() {
    let mut field = Field::new();
    assert_eq!(field.set(4, 0, false), Err(FieldErrors::PositionNotInField(4, 0)));
    assert_eq!(field.set(0, 4, false), Err(FieldErrors::PositionNotInField(0, 4)));
    assert_eq!(field.set(3, 3, true), Ok(()));
    assert_eq!(field.set(3, 3, false), Err(FieldErrors::PositionAlreadySet(3, 3, true)));
    assert_eq!(field.get(3, 3), B);
    assert_eq!(field.set_pieces(), 1);
}

#[test]
fn set_writes_column_x_of_row_y() {
    let mut field = Field::new();
    assert_eq!(field.set(1, 2, false), Ok(()));
    assert_eq!(field.field[2][1], A);
    assert_eq!(field.field[1][2], N);
}

#[test]
fn force_set_rejects_positions_outside() {
    let mut field = Field::new();
    assert_eq!(field.force_set(0, 4, A), Err(FieldErrors::PositionNotInField(0, 4)));
    assert_eq!(field.force_set(7, 1, None), Err(FieldErrors::PositionNotInField(7, 1)));
    assert_eq!(field, Field::new());
}

#[test]
fn force_set_of_the_current_value_changes_nothing() {
    let before = Field::from([[A, B, N, N], [N, A, N, B], [B, N, N, N], [N, N, N, A]]);
    let mut field = before;
    for y in 0..4 {
        for x in 0..4 {
            let current = field.get(x, y);
            assert_eq!(field.force_set(x, y, current), Ok(()));
            assert_eq!(field, before);
        }
    }
}

#[test]
fn set_then_clear_restores_the_board() {
    let before = Field::from([[A, B, N, N], [N, A, N, B], [B, N, N, N], [N, N, N, A]]);
    let mut field = before;
    assert_eq!(field.set(2, 0, true), Ok(()));
    assert_ne!(field, before);
    assert_eq!(field.force_set(2, 0, None), Ok(()));
    assert_eq!(field, before);
}

#[test]
fn mirrors_are_involutions_and_commute() {
    let field = Field::from([[A, B, N, N], [N, A, N, B], [B, N, N, N], [N, N, N, A]]);
    assert_eq!(field.mirror_x().mirror_x(), field);
    assert_eq!(field.mirror_y().mirror_y(), field);
    assert_eq!(field.mirror_x().mirror_y(), field.mirror_y().mirror_x());
    assert_eq!(
        field.mirror_x(),
        Field::from([[N, N, N, A], [B, N, N, N], [N, A, N, B], [A, B, N, N]])
    );
    assert_eq!(
        field.mirror_y(),
        Field::from([[N, N, B, A], [B, N, A, N], [N, N, N, B], [A, N, N, N]])
    );
}

#[test]
fn flat_cells_fill_the_rows_in_order() {
    let mut cells = [N; 16];
    cells[1] = A;
    cells[6] = B;
    cells[15] = A;
    let field = Field::from(cells);
    assert_eq!(field, Field::from([[N, A, N, N], [N, N, B, N], [N, N, N, N], [N, N, N, A]]));
}

#[test]
fn keys_tell_boards_apart() {
    let empty = Field::new();
    assert_eq!(empty.key(), 0);
    let mut one = Field::new();
    one.set(0, 0, false).unwrap();
    assert_eq!(one.key(), 1);
    let mut two = Field::new();
    two.set(0, 0, true).unwrap();
    assert_eq!(two.key(), 2);
    let mut next = Field::new();
    next.set(1, 0, false).unwrap();
    assert_eq!(next.key(), 3);
    let mut row = Field::new();
    row.set(0, 1, false).unwrap();
    assert_eq!(row.key(), 81);
    let full = Field::from([[B; 4]; 4]);
    assert_eq!(full.key(), 43046720);
}

#[test]
fn game_state_follows_the_board() {
    assert_eq!(GameState::from(&Field::new()), GameState::InProgress);
    let won = Field::from([[B, N, N, N], [B, N, N, N], [B, N, N, N], [B, N, N, N]]);
    assert_eq!(GameState::from(&won), GameState::Finished(GameResult::PlayerTwoWins));
    let lost = Field::from([[B, B, B, N], [N, N, N, N], [N, N, N, N], [N, N, N, N]]);
    assert_eq!(GameState::from(&lost), GameState::Finished(GameResult::PlayerOneWins));
    let drawn = Field::from([[B, B, A, A], [A, A, B, B], [B, B, A, A], [A, A, B, B]]);
    assert_eq!(GameState::from(&drawn), GameState::Finished(GameResult::Draw));
    assert_eq!(GameState::from(&drawn).into(), Some(GameResult::Draw));
    assert_eq!(GameState::InProgress.into(), None);
}

#[test]
fn results_and_players() {
    assert_eq!(GameResult::from(false), GameResult::PlayerOneWins);
    assert_eq!(GameResult::from(true), GameResult::PlayerTwoWins);
    assert_eq!(GameResult::player_to_result(None), GameResult::Draw);
    assert_eq!(GameResult::player_to_result(Some(false)), GameResult::PlayerOneWins);
    assert_eq!(GameResult::player_to_result(Some(true)), GameResult::PlayerTwoWins);
    assert_eq!(GameResult::Draw.opposite_player(), GameResult::Draw);
    assert_eq!(GameResult::PlayerOneWins.opposite_player(), GameResult::PlayerTwoWins);
    assert_eq!(GameResult::PlayerTwoWins.opposite_player(), GameResult::PlayerOneWins);
    assert_eq!(Position::from((3, 1)), Position { x: 3, y: 1 });
}

#[test]
fn in_a_game_only_the_last_mover_wins_or_loses() {
    let mut seed: u64 = 2024;
    let mut finished = 0;
    for _ in 0..2000 {
        let mut field = Field::new();
        let mut player = false;
        while GameState::from(&field) == GameState::InProgress {
            let moves = field.possible_moves().unwrap();
            seed = seed.wrapping_mul(6364136223846793005).wrapping_add(1442695040888963407);
            let pos = moves[(seed >> 33) as usize % moves.len()];
            assert_eq!(field.set(pos.x, pos.y, player), Ok(()));
            for pattern in [field.winner(), field.loser()] {
                assert!(pattern.is_none() || pattern == Some(player));
            }
            player = !player;
        }
        finished += 1;
    }
    assert_eq!(finished, 2000);
}
