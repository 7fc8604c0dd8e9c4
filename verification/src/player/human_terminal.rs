//! What a human at the terminal is told about a move that was turned down.

use itertools::Itertools;
use vstd::prelude::*;
use vstd::string::StringExecFns;

use crate::board::{occupied, Board};
use crate::field::Field;
use crate::strategy::free_positions;
use crate::text::position_text;
use crate::Position;

verus! {

/// Some texts, one after the other, with `separator` between each two.
pub open spec fn joined(parts: Seq<Seq<char>>, separator: Seq<char>) -> Seq<char>
    decreases parts.len(),
{
    if parts.len() == 0 {
        Seq::empty()
    } else if parts.len() == 1 {
        parts[0]
    } else {
        joined(parts.drop_last(), separator) + separator + parts.last()
    }
}

/// `text` with `to` in the place of every `from`.
pub open spec fn replaced(text: Seq<char>, from: char, to: Seq<char>) -> Seq<char>
    decreases text.len(),
{
    if text.len() == 0 {
        Seq::empty()
    } else if text.last() == from {
        replaced(text.drop_last(), from, to) + to
    } else {
        replaced(text.drop_last(), from, to).push(text.last())
    }
}

/// Some strings as their texts.
pub open spec fn texts_of(parts: Seq<String>) -> Seq<Seq<char>> {
    parts.map_values(|part: String| part@)
}

/// `Itertools::join` on the strings of `parts`: it writes the parts one after
/// the other, with `separator` before each but the first, and nothing for no
/// part at all. Before it writes, it reserves room for as many separators as
/// parts are left; with a separator of two characters at most that is less
/// than the vector of the parts takes itself, so the size cannot overflow.
#[verifier::external_body]
fn join(parts: &Vec<String>, separator: &str) -> (text: String)
    requires
        separator@.len() <= 2,
    ensures
        text@ == joined(texts_of(parts@), separator@),
{
    parts.iter().join(separator)
}

/// `str::replace` of the standard library with a character for the pattern:
/// it puts `to` in the place of every `from`.
#[verifier::external_body]
fn replace(text: &str, from: char, to: &str) -> (result: String)
    ensures
        result@ == replaced(text@, from, to@),
{
    text.replace(from, to)
}

/// Some moves as the human reads them: each as `'x, y'`, with a comma and a
/// blank between two.
pub open spec fn moves_text(moves: Seq<Position>) -> Seq<char> {
    replaced(
        replaced(joined(moves.map_values(|pos: Position| position_text(pos)), ", "@), '(', "'"@),
        ')',
        "'"@,
    )
}

/// What the human is told after the move `pos` was turned down on `b`.
pub open spec fn invalid_move_text(b: Board, pos: Position) -> Seq<char> {
    "Can't make the move "@ + position_text(pos) + ". Try again. Possible moves: "@ + moves_text(
        free_positions(b),
    )
}

/// `moves` as the human reads them.
pub fn possible_moves_text(moves: &Vec<Position>) -> (text: String)
    ensures
        text@ == moves_text(moves@),
{
    let mut parts: Vec<String> = Vec::new();
    let mut i: usize = 0;
    while i < moves.len()
        invariant
            i <= moves.len(),
            parts.len() == i,
            forall|k: int| 0 <= k < i ==> (#[trigger] parts[k])@ == position_text(moves[k]),
        decreases moves.len() - i,
    {
        let part = moves[i].to_string();
        parts.push(part);
        i += 1;
    }
    proof {
        assert(texts_of(parts@) =~= moves@.map_values(|pos: Position| position_text(pos)));
    }
    proof {
        reveal_strlit(", ");
    }
    let listed = join(&parts, ", ");
    let opened = replace(listed.as_str(), '(', "'");
    replace(opened.as_str(), ')', "'")
}

/// What the human is told after the move `pos` was turned down on `field`,
/// which has a free cell.
pub fn invalid_move_message(field: &Field, pos: Position) -> (text: String)
    requires
        occupied(field@) < 16,
    ensures
        text@ == invalid_move_text(field@, pos),
{
    let moves = match field.possible_moves() {
        Some(possible_moves) => possible_moves,
        None => {
            proof {
                field.lemma_view();
                crate::player::computer::lemma_some_cell_is_free(field@);
                crate::strategy::lemma_first_free_is_kept(field@);
            }
            Vec::new()
        },
    };
    String::from_str("Can't make the move ").concat(pos.to_string().as_str()).concat(
        ". Try again. Possible moves: ",
    ).concat(possible_moves_text(&moves).as_str())
}

} // verus!
