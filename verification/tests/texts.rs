use four_win_three_lose::field::{Field, FieldErrors};
use four_win_three_lose::gui::gui_board::{item_to_string, players_turn};
use four_win_three_lose::notation::{find_blank, parse_number};
use four_win_three_lose::player::human_terminal::{invalid_move_message, possible_moves_text};
use four_win_three_lose::text::number_text;
use four_win_three_lose::visualizer::terminal::{
    coordinate_header, draw_field, field_row, spacer, to_char,
};
use four_win_three_lose::{GameResult, Position};

const A: Option<bool> = Some(false);
const B: Option<bool> = Some(true);
const N: Option<bool> = None;

#[test]
fn positions_are_read_between_white_space() {
    assert_eq!(Position::try_from("  3 2 \t".to_string()), Ok(Position { x: 3, y: 2 }));
    assert_eq!(Position::try_from("+1 +0".to_string()), Ok(Position { x: 1, y: 0 }));
    assert_eq!(Position::try_from("007 10".to_string()), Ok(Position { x: 7, y: 10 }));
    assert_eq!(Position::read("3 2", " 3 2 "), Ok(Position { x: 3, y: 2 }));
}

#[test]
fn a_text_without_a_blank_cannot_be_split() {
    assert_eq!(
        Position::try_from(" 12\n".to_string()),
        Err("Can't split string ' 12\n'".to_string())
    );
    assert_eq!(Position::try_from("".to_string()), Err("Can't split string ''".to_string()));
}

#[test]
fn a_part_that_is_no_number_cannot_be_parsed() {
    assert_eq!(Position::try_from("a 1".to_string()), Err("Can't parse value 'a'".to_string()));
    assert_eq!(Position::try_from("1 b".to_string()), Err("Can't parse value 'b'".to_string()));
    assert_eq!(Position::try_from("a b".to_string()), Err("Can't parse value 'a'".to_string()));
    assert_eq!(Position::try_from("1  2".to_string()), Err("Can't parse value ' 2'".to_string()));
    assert_eq!(Position::try_from("-1 2".to_string()), Err("Can't parse value '-1'".to_string()));
    assert_eq!(Position::try_from("1 2 3".to_string()), Err("Can't parse value '2 3'".to_string()));
}

#[test]
fn numbers_are_parsed_as_the_standard_library_parses_them() {
    for text in [
        "0", "7", "+7", "42", "0042", "", "+", "-", "-0", "++1", "1+", "1_0", " 1", "1 ", "x",
        "18446744073709551615", "18446744073709551616", "99999999999999999999999", "4294967295",
        "4294967296", "١٢",
    ] {
        assert_eq!(parse_number(text), text.parse::<usize>().ok(), "{}", text);
    }
}

#[test]
fn the_first_blank_is_found() {
    assert_eq!(find_blank(""), None);
    assert_eq!(find_blank("abc"), None);
    assert_eq!(find_blank(" abc"), Some(0));
    assert_eq!(find_blank("ab c d"), Some(2));
    assert_eq!(find_blank("äö ü"), Some(2));
}

#[test]
fn numbers_are_written_in_decimal() {
    assert_eq!(number_text(0), "0");
    assert_eq!(number_text(9), "9");
    assert_eq!(number_text(10), "10");
    assert_eq!(number_text(12345), "12345");
    assert_eq!(number_text(usize::MAX), format!("{}", usize::MAX));
}

#[test]
fn positions_results_and_errors_as_text() {
    assert_eq!(Position { x: 1, y: 12 }.to_string(), "(1, 12)");
    assert_eq!(GameResult::Draw.to_string(), "Draw! Nobody wins.");
    assert_eq!(GameResult::PlayerOneWins.to_string(), "Player One wins!");
    assert_eq!(GameResult::PlayerTwoWins.to_string(), "Player Two wins!");
    assert_eq!(
        FieldErrors::PositionNotInField(4, 1).to_string(),
        "Position (4, 1) is outside of field."
    );
    assert_eq!(
        FieldErrors::PositionAlreadySet(0, 3, true).to_string(),
        "The place at position (0, 3) is already occupied from Player Two."
    );
    assert_eq!(
        FieldErrors::PositionAlreadySet(2, 1, false).to_string(),
        "The place at position (2, 1) is already occupied from Player One."
    );
    assert_eq!(
        FieldErrors::InvalidConstructionSize(15).to_string(),
        "Can't create an 4x4 field from 15 elements."
    );
}

#[test]
fn boards_as_text() {
    let field = Field::from([[A, B, N, N], [N, A, N, B], [B, N, N, N], [N, N, N, A]]);
    assert_eq!(
        field.to_string(),
        format!("{:?}", "1 2 N N\nN 1 N 2\n2 N N N\nN N N 1")
    );
}

#[test]
fn rejected_moves_are_answered_with_the_free_cells() {
    let field = Field::from([[A, A, B, B], [B, B, A, A], [A, B, N, B], [A, A, N, A]]);
    assert_eq!(
        invalid_move_message(&field, Position { x: 0, y: 0 }),
        "Can't make the move (0, 0). Try again. Possible moves: '2, 2', '2, 3'"
    );
    let one = Field::from([[A, A, B, B], [B, B, A, A], [A, B, A, B], [A, A, N, A]]);
    assert_eq!(
        invalid_move_message(&one, Position { x: 9, y: 1 }),
        "Can't make the move (9, 1). Try again. Possible moves: '2, 3'"
    );
}

#[test]
fn moves_are_listed_with_commas() {
    assert_eq!(possible_moves_text(&vec![]), "");
    assert_eq!(possible_moves_text(&vec![Position { x: 3, y: 0 }]), "'3, 0'");
    assert_eq!(
        possible_moves_text(&vec![
            Position { x: 3, y: 0 },
            Position { x: 0, y: 11 },
            Position { x: 1, y: 1 }
        ]),
        "'3, 0', '0, 11', '1, 1'"
    );
}

#[test]
fn the_terminal_shows_the_board_in_eight_lines() {
    let field = Field::from([[A, B, N, N], [N, A, N, B], [B, N, N, N], [N, N, N, A]]);
    assert_eq!(
        draw_field(&field),
        vec![
            "    0 1 2 3",
            "0: X|O| | ",
            "   -+-+-+-",
            "1:  |X| |O",
            "   -+-+-+-",
            "2: O| | | ",
            "   -+-+-+-",
            "3:  | | |X",
        ]
    );
    assert_eq!(coordinate_header(), "    0 1 2 3");
    assert_eq!(spacer(), "   -+-+-+-");
    assert_eq!(field_row(None, &[A, B, N, A]), "    X|O| |X");
    assert_eq!(field_row(Some(12), &[N, N, B, A]), "12:  | |O|X");
}

#[test]
fn marks_and_turns() {
    assert_eq!(to_char(&A), 'X');
    assert_eq!(to_char(&B), 'O');
    assert_eq!(to_char(&N), ' ');
    assert_eq!(item_to_string(&A), "X");
    assert_eq!(item_to_string(&B), "O");
    assert_eq!(item_to_string(&N), " ");
    assert_eq!(players_turn(false), "It's player one's turn.");
    assert_eq!(players_turn(true), "It's player two's turn.");
    assert_eq!(
        four_win_three_lose::visualizer::terminal::players_turn(false),
        "It's player one's turn..."
    );
    assert_eq!(
        four_win_three_lose::visualizer::terminal::players_turn(true),
        "It's player two's turn..."
    );
}

#[test]
fn what_is_written_is_read_back() {
    for number in [0, 1, 9, 10, 99, 100, 12345, usize::MAX] {
        assert_eq!(parse_number(&number_text(number)), Some(number));
    }
    for (x, y) in [(0, 0), (3, 1), (12, 7), (usize::MAX, 0)] {
        let text = format!("{} {}", number_text(x), number_text(y));
        assert_eq!(Position::read(&text, &text), Ok(Position { x, y }));
        assert_eq!(Position::try_from(format!(" {}\n", text)), Ok(Position { x, y }));
    }
}
