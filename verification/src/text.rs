//! The texts by which the game names its results, its positions, its boards
//! and what went wrong.

use vstd::prelude::*;
use vstd::string::StringExecFns;

use crate::board::Board;
use crate::field::{Field, FieldErrors};
use crate::{GameResult, Position};

verus! {

/// A decimal digit as text.
pub open spec fn digit_text(digit: nat) -> Seq<char> {
    if digit == 0 {
        "0"@
    } else if digit == 1 {
        "1"@
    } else if digit == 2 {
        "2"@
    } else if digit == 3 {
        "3"@
    } else if digit == 4 {
        "4"@
    } else if digit == 5 {
        "5"@
    } else if digit == 6 {
        "6"@
    } else if digit == 7 {
        "7"@
    } else if digit == 8 {
        "8"@
    } else {
        "9"@
    }
}

/// A number in decimal digits, without leading zeros.
pub open spec fn decimal(number: nat) -> Seq<char>
    decreases number,
{
    if number < 10 {
        digit_text(number)
    } else {
        decimal(number / 10) + digit_text(number % 10)
    }
}

/// A decimal digit as text.
fn digit_str(digit: usize) -> (text: &'static str)
    requires
        digit < 10,
    ensures
        text@ == digit_text(digit as nat),
{
    if digit == 0 {
        "0"
    } else if digit == 1 {
        "1"
    } else if digit == 2 {
        "2"
    } else if digit == 3 {
        "3"
    } else if digit == 4 {
        "4"
    } else if digit == 5 {
        "5"
    } else if digit == 6 {
        "6"
    } else if digit == 7 {
        "7"
    } else if digit == 8 {
        "8"
    } else {
        "9"
    }
}

/// `number` in decimal digits.
pub fn number_text(number: usize) -> (text: String)
    ensures
        text@ == decimal(number as nat),
{
    let mut text = String::from_str(digit_str(number % 10));
    let mut rest: usize = number / 10;
    while rest > 0
        invariant
            rest > 0 ==> decimal(number as nat) == decimal(rest as nat) + text@,
            rest == 0 ==> decimal(number as nat) == text@,
        decreases rest,
    {
        let ghost tail = text@;
        text = String::from_str(digit_str(rest % 10)).concat(text.as_str());
        proof {
            assert(decimal(rest as nat) + tail =~= (if rest < 10 {
                Seq::<char>::empty()
            } else {
                decimal((rest / 10) as nat)
            }) + text@);
            assert(Seq::<char>::empty() + text@ =~= text@);
        }
        rest = rest / 10;
    }
    text
}

/// A position as text: `(x, y)`.
pub open spec fn position_text(pos: Position) -> Seq<char> {
    "("@ + decimal(pos.x as nat) + ", "@ + decimal(pos.y as nat) + ")"@
}

/// A player by name.
pub open spec fn player_name(player: bool) -> Seq<char> {
    if player {
        "Player Two"@
    } else {
        "Player One"@
    }
}

/// A result as the sentence that announces it.
pub open spec fn result_text(result: GameResult) -> Seq<char> {
    match result {
        GameResult::Draw => "Draw! Nobody wins."@,
        GameResult::PlayerOneWins => "Player One wins!"@,
        GameResult::PlayerTwoWins => "Player Two wins!"@,
    }
}

/// What went wrong with a move or a board, as a sentence.
pub open spec fn error_text(error: FieldErrors) -> Seq<char> {
    match error {
        FieldErrors::PositionNotInField(x, y) => "Position ("@ + decimal(x as nat) + ", "@
            + decimal(y as nat) + ") is outside of field."@,
        FieldErrors::PositionAlreadySet(x, y, p) => "The place at position ("@ + decimal(x as nat)
            + ", "@ + decimal(y as nat) + ") is already occupied from "@ + player_name(p) + "."@,
        FieldErrors::InvalidConstructionSize(n) => "Can't create an 4x4 field from "@ + decimal(
            n as nat,
        ) + " elements."@,
    }
}

/// A cell as one letter: `1` for player one, `2` for player two, `N` for an
/// empty cell.
pub open spec fn cell_letter(cell: Option<bool>) -> Seq<char> {
    match cell {
        Some(false) => "1"@,
        Some(true) => "2"@,
        None => "N"@,
    }
}

/// A row as its four letters with blanks between them.
pub open spec fn row_text(row: Seq<Option<bool>>) -> Seq<char> {
    cell_letter(row[0]) + " "@ + cell_letter(row[1]) + " "@ + cell_letter(row[2]) + " "@
        + cell_letter(row[3])
}

/// A board as text: between two quotation marks its four rows, with a
/// backslash and the letter `n` after each row but the last.
pub open spec fn board_text(b: Board) -> Seq<char> {
    "\""@ + row_text(b[0]) + "\\n"@ + row_text(b[1]) + "\\n"@ + row_text(b[2]) + "\\n"@
        + row_text(b[3]) + "\""@
}

/// A cell as one letter.
fn cell_str(cell: Option<bool>) -> (letter: &'static str)
    ensures
        letter@ == cell_letter(cell),
{
    match cell {
        Some(false) => "1",
        Some(true) => "2",
        None => "N",
    }
}

/// A row as its four letters with blanks between them.
fn row_string(row: &[Option<bool>; 4]) -> (text: String)
    ensures
        text@ == row_text(row@),
{
    String::from_str(cell_str(row[0])).concat(" ").concat(cell_str(row[1])).concat(" ").concat(
        cell_str(row[2]),
    ).concat(" ").concat(cell_str(row[3]))
}

impl Position {
    /// The position as text: `(x, y)`.
    pub fn to_string(&self) -> (text: String)
        ensures
            text@ == position_text(*self),
    {
        String::from_str("(").concat(number_text(self.x).as_str()).concat(", ").concat(
            number_text(self.y).as_str(),
        ).concat(")")
    }
}

impl GameResult {
    /// The sentence that announces the result.
    pub fn to_string(&self) -> (text: String)
        ensures
            text@ == result_text(*self),
    {
        match self {
            GameResult::Draw => String::from_str("Draw! Nobody wins."),
            GameResult::PlayerOneWins => String::from_str("Player One wins!"),
            GameResult::PlayerTwoWins => String::from_str("Player Two wins!"),
        }
    }
}

impl FieldErrors {
    /// The sentence that says what went wrong.
    pub fn to_string(&self) -> (text: String)
        ensures
            text@ == error_text(*self),
    {
        match self {
            FieldErrors::PositionNotInField(x, y) => String::from_str("Position (").concat(
                number_text(*x).as_str(),
            ).concat(", ").concat(number_text(*y).as_str()).concat(") is outside of field."),
            FieldErrors::PositionAlreadySet(x, y, p) => String::from_str(
                "The place at position (",
            ).concat(number_text(*x).as_str()).concat(", ").concat(
                number_text(*y).as_str(),
            ).concat(") is already occupied from ").concat(
                if *p {
                    "Player Two"
                } else {
                    "Player One"
                },
            ).concat("."),
            FieldErrors::InvalidConstructionSize(n) => String::from_str(
                "Can't create an 4x4 field from ",
            ).concat(number_text(*n).as_str()).concat(" elements."),
        }
    }
}

impl Field {
    /// The board as text.
    pub fn to_string(&self) -> (text: String)
        ensures
            text@ == board_text(self@),
    {
        proof {
            self.lemma_view();
        }
        String::from_str("\"").concat(row_string(&self.field[0]).as_str()).concat("\\n").concat(
            row_string(&self.field[1]).as_str(),
        ).concat("\\n").concat(row_string(&self.field[2]).as_str()).concat("\\n").concat(
            row_string(&self.field[3]).as_str(),
        ).concat("\"")
    }
}

} // verus!
