//! What the terminal shows of a game, as text.

use vstd::prelude::*;
use vstd::string::StringExecFns;

use crate::board::Board;
use crate::field::Field;
use crate::text::{decimal, number_text};

verus! {

/// The mark of a cell: `X` for player one, `O` for player two, a blank for
/// an empty cell.
pub fn to_char(field_item: &Option<bool>) -> (mark: char)
    ensures
        mark == mark_of(*field_item),
{
    match field_item {
        Some(false) => 'X',
        Some(true) => 'O',
        None => ' ',
    }
}

/// The mark of a cell.
pub open spec fn mark_of(cell: Option<bool>) -> char {
    match cell {
        Some(false) => 'X',
        Some(true) => 'O',
        None => ' ',
    }
}

/// The mark of a cell as text.
pub open spec fn mark_text(cell: Option<bool>) -> Seq<char> {
    match cell {
        Some(false) => "X"@,
        Some(true) => "O"@,
        None => " "@,
    }
}

/// The mark of a cell as text is the one character that is its mark.
pub proof fn lemma_mark_text(cell: Option<bool>)
    ensures
        mark_text(cell) == seq![mark_of(cell)],
{
    reveal_strlit("X");
    reveal_strlit("O");
    reveal_strlit(" ");
    assert(mark_text(cell) =~= seq![mark_of(cell)]);
}

/// The line above the board: the numbers of its columns.
pub open spec fn header_text() -> Seq<char> {
    "    0 1 2 3"@
}

/// The line between two rows of the board.
pub open spec fn spacer_text() -> Seq<char> {
    "   -+-+-+-"@
}

/// The four marks of a row with bars between them.
pub open spec fn marks_text(row: Seq<Option<bool>>) -> Seq<char> {
    mark_text(row[0]) + "|"@ + mark_text(row[1]) + "|"@ + mark_text(row[2]) + "|"@ + mark_text(
        row[3],
    )
}

/// The line of a row: its number and a colon where it has a number, else
/// blanks of the same width, and then its marks.
pub open spec fn row_line_text(line_num: Option<usize>, row: Seq<Option<bool>>) -> Seq<char> {
    match line_num {
        None => "    "@ + marks_text(row),
        Some(num) => decimal(num as nat) + ": "@ + marks_text(row),
    }
}

/// The lines that show a board: the header, and the numbered rows with a
/// spacer between each two.
pub open spec fn board_lines(b: Board) -> Seq<Seq<char>> {
    seq![
        header_text(),
        row_line_text(Some(0), b[0]),
        spacer_text(),
        row_line_text(Some(1), b[1]),
        spacer_text(),
        row_line_text(Some(2), b[2]),
        spacer_text(),
        row_line_text(Some(3), b[3]),
    ]
}

/// The line that says whose turn it is.
pub open spec fn turn_text(player_turn: bool) -> Seq<char> {
    if player_turn {
        "It's player two's turn..."@
    } else {
        "It's player one's turn..."@
    }
}

/// The mark of a cell as text.
fn mark_str(cell: Option<bool>) -> (mark: &'static str)
    ensures
        mark@ == mark_text(cell),
{
    match cell {
        Some(false) => "X",
        Some(true) => "O",
        None => " ",
    }
}

/// The line above the board.
pub fn coordinate_header() -> (line: String)
    ensures
        line@ == header_text(),
{
    String::from_str("    0 1 2 3")
}

/// The line between two rows of the board.
pub fn spacer() -> (line: String)
    ensures
        line@ == spacer_text(),
{
    String::from_str("   -+-+-+-")
}

/// The line of the row `row`, numbered `line_num` if that is a number.
pub fn field_row(line_num: Option<usize>, row: &[Option<bool>; 4]) -> (line: String)
    ensures
        line@ == row_line_text(line_num, row@),
{
    let start = match line_num {
        None => String::from_str("    "),
        Some(num) => number_text(num).concat(": "),
    };
    let marks = String::from_str(mark_str(row[0])).concat("|").concat(mark_str(row[1])).concat(
        "|",
    ).concat(mark_str(row[2])).concat("|").concat(mark_str(row[3]));
    start.concat(marks.as_str())
}

/// The lines that show `field`.
pub fn draw_field(field: &Field) -> (lines: Vec<String>)
    ensures
        lines@.map_values(|line: String| line@) == board_lines(field@),
{
    let mut lines: Vec<String> = Vec::new();
    lines.push(coordinate_header());
    let mut i: usize = 0;
    proof {
        field.lemma_view();
    }
    while i < 4
        invariant
            i <= 4,
            lines.len() == (if i == 4 { 8int } else { 1 + 2 * i }),
            forall|k: int|
                0 <= k < lines.len() ==> (#[trigger] lines[k])@ == board_lines(field@)[k],
        decreases 4 - i,
    {
        lines.push(field_row(Some(i), &field.field[i]));
        if i != 3 {
            lines.push(spacer());
        }
        i += 1;
    }
    proof {
        assert(lines@.map_values(|line: String| line@) =~= board_lines(field@));
    }
    lines
}

/// The line that says whose turn it is.
pub fn players_turn(player_turn: bool) -> (line: String)
    ensures
        line@ == turn_text(player_turn),
{
    match player_turn {
        false => String::from_str("It's player one's turn..."),
        true => String::from_str("It's player two's turn..."),
    }
}

} // verus!
