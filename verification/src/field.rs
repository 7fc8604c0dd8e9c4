//! The board as it is stored, with the moves on it and the detectors of the
//! two terminal patterns.

use vstd::prelude::*;

use crate::board::{
    board_key, column_four, column_loser, column_triple, diagonal_loser, empty_board, in_field,
    is_free, lemma_move_taken_back, lemma_place_same, loser_of, mirror_columns, mirror_rows,
    occupied, pieces_in_row_prefix, pieces_in_rows, place, row_four, row_key, row_loser,
    row_triple, triple_through, well_formed, winner_of, Board,
};
pub use crate::GameResult;
use crate::{FIELD_X, FIELD_Y};

verus! {

/// Why a move was turned down.
#[derive(Debug, PartialEq, Eq, Structural)]
pub enum FieldErrors {
    /// The position `(x, y)` lies outside the board.
    PositionNotInField(usize, usize),
    /// The position `(x, y)` is already held by the given player.
    PositionAlreadySet(usize, usize, bool),
    /// A board cannot be built from this many cells.
    InvalidConstructionSize(usize),
}

/// The 4x4 board; `field[y][x]` is the cell in column `x` of row `y`.
#[derive(Clone, Copy, Eq, Debug)]
pub struct Field {
    pub field: [[Option<bool>; FIELD_X]; FIELD_Y],
}

impl View for Field {
    type V = Board;

    open spec fn view(&self) -> Board {
        Seq::new(4, |y: int| self.field[y]@)
    }
}

/// `field` holds the sixteen cells of `cells`, row after row.
pub open spec fn holds_cells(field: Field, cells: [Option<bool>; 16]) -> bool {
    forall|x: int, y: int| in_field(x, y) ==> #[trigger] field@[y][x] == cells[4 * y + x]
}

/// The board that holds the sixteen cells of `cells`, row after row.
pub open spec fn field_of_cells(cells: [Option<bool>; 16]) -> Field {
    choose|field: Field| holds_cells(field, cells)
}

impl From<[Option<bool>; 16]> for Field {
    /// The board whose rows are the four quarters of `value`.
    fn from(value: [Option<bool>; 16]) -> (field: Field) {
        let mut field = Field { field: [[None; FIELD_X]; FIELD_Y] };
        let mut i: usize = 0;
        while i < 16
            invariant
                i <= 16,
                forall|x: int, y: int|
                    in_field(x, y) && 4 * y + x < i ==> field@[y][x] == value[4 * y + x],
            decreases 16 - i,
        {
            let ghost before = field;
            field.field[i / 4][i % 4] = value[i];
            assert(field@ =~~= place(before@, (i % 4) as int, (i / 4) as int, value[i as int]));
            i += 1;
        }
        proof {
            let spec_field = field_of_cells(value);
            assert(holds_cells(field, value));
            assert(holds_cells(spec_field, value));
            field.lemma_view();
            spec_field.lemma_view();
            assert(field@ =~~= spec_field@);
            field.lemma_view_injective(spec_field);
        }
        field
    }
}

impl vstd::std_specs::convert::FromSpecImpl<[Option<bool>; 16]> for Field {
    open spec fn obeys_from_spec() -> bool {
        true
    }

    open spec fn from_spec(value: [Option<bool>; 16]) -> Field {
        field_of_cells(value)
    }
}

impl From<[[Option<bool>; FIELD_X]; FIELD_Y]> for Field {
    /// The board whose rows are the rows of `value`.
    fn from(value: [[Option<bool>; FIELD_X]; FIELD_Y]) -> (field: Field) {
        Field { field: value }
    }
}

impl vstd::std_specs::convert::FromSpecImpl<[[Option<bool>; FIELD_X]; FIELD_Y]> for Field {
    open spec fn obeys_from_spec() -> bool {
        true
    }

    open spec fn from_spec(value: [[Option<bool>; FIELD_X]; FIELD_Y]) -> Field {
        Field { field: value }
    }
}

/// Why the cell `(x, y)` of `b` cannot be taken, if it cannot: it lies outside
/// the board, or a player holds it.
pub open spec fn refusal(b: Board, x: usize, y: usize) -> Option<FieldErrors> {
    if !in_field(x as int, y as int) {
        Some(FieldErrors::PositionNotInField(x, y))
    } else if let Some(holder) = b[y as int][x as int] {
        Some(FieldErrors::PositionAlreadySet(x, y, holder))
    } else {
        None
    }
}

/// The answer to a move: the refusal, if there is one.
pub open spec fn answer_to(refusal: Option<FieldErrors>) -> Result<(), FieldErrors> {
    match refusal {
        Some(error) => Err(error),
        None => Ok(()),
    }
}

impl Default for Field {
    fn default() -> (field: Field)
        ensures
            field@ == empty_board(),
    {
        Field::new()
    }
}

/// Whether two cells hold the same.
pub fn same_cell(a: Option<bool>, b: Option<bool>) -> (same: bool)
    ensures
        same == (a == b),
{
    match (a, b) {
        (None, None) => true,
        (Some(p), Some(q)) => p == q,
        _ => false,
    }
}

impl PartialEq for Field {
    fn eq(&self, other: &Field) -> (same: bool) {
        let mut y: usize = 0;
        while y < FIELD_Y
            invariant
                y <= 4,
                forall|i: int, j: int| 0 <= i < 4 && 0 <= j < y ==> self@[j][i] == other@[j][i],
            decreases 4 - y,
        {
            let mut x: usize = 0;
            while x < FIELD_X
                invariant
                    y < 4,
                    x <= 4,
                    forall|i: int, j: int| 0 <= i < 4 && 0 <= j < y ==> self@[j][i] == other@[j][i],
                    forall|i: int| 0 <= i < x ==> self@[y as int][i] == other@[y as int][i],
                decreases 4 - x,
            {
                if !same_cell(self.field[y][x], other.field[y][x]) {
                    assert(self@[y as int][x as int] != other@[y as int][x as int]);
                    return false;
                }
                x += 1;
            }
            y += 1;
        }
        assert(self@ =~~= other@);
        true
    }
}

impl vstd::std_specs::cmp::PartialEqSpecImpl for Field {
    open spec fn obeys_eq_spec() -> bool {
        true
    }

    open spec fn eq_spec(&self, other: &Field) -> bool {
        self@ == other@
    }
}

impl Field {
    /// The view of every field is a well-formed board, and the view tells
    /// fields apart.
    pub broadcast proof fn lemma_view(self)
        ensures
            #![trigger self@]
            well_formed(self@),
            forall|x: int, y: int| in_field(x, y) ==> self@[y][x] == self.field[y][x],
    {
    }

    /// Two fields with the same view are the same field.
    pub proof fn lemma_view_injective(self, other: Field)
        requires
            self@ == other@,
        ensures
            self == other,
    {
        assert forall|y: int| 0 <= y < 4 implies self.field[y] == other.field[y] by {
            assert(self@[y] == other@[y]);
            assert(self.field[y]@ == other.field[y]@);
            assert(self.field[y] =~= other.field[y]);
        }
        assert(self.field =~= other.field);
    }

    /// A move that is made and then cleared leaves the field as it was:
    /// `moved` is this field after `set` gave the free cell `(x, y)` to
    /// `player`, and `cleared` is `moved` after `force_set` emptied the cell.
    pub proof fn lemma_set_then_clear(
        self,
        moved: Field,
        cleared: Field,
        x: usize,
        y: usize,
        player: bool,
    )
        requires
            is_free(self@, x as int, y as int),
            moved@ == place(self@, x as int, y as int, Some(player)),
            cleared@ == place(moved@, x as int, y as int, None),
        ensures
            cleared == self,
    {
        self.lemma_view();
        lemma_move_taken_back(self@, x as int, y as int, player);
        cleared.lemma_view_injective(self);
    }

    /// The board without any piece.
    pub fn new() -> (field: Field)
        ensures
            field@ == empty_board(),
    {
        let field = Field { field: [[None; FIELD_X]; FIELD_Y] };
        assert(field@ =~~= empty_board());
        field
    }

    /// The content of the cell `(x, y)`.
    pub fn get(&self, x: usize, y: usize) -> (cell: Option<bool>)
        requires
            in_field(x as int, y as int),
        ensures
            cell == self@[y as int][x as int],
    {
        self.field[y][x]
    }

    /// Gives the empty cell `(x, y)` to `player`; turns the move down, and
    /// leaves the board as it is, if the cell is held or outside the board.
    pub fn set(&mut self, x: usize, y: usize, player: bool) -> (res: Result<(), FieldErrors>)
        ensures
            res == answer_to(refusal(old(self)@, x, y)),
            res is Ok <==> is_free(old(self)@, x as int, y as int),
            res is Ok ==> final(self)@ == place(old(self)@, x as int, y as int, Some(player)),
            res is Err ==> *final(self) == *old(self),
    {
        if y < FIELD_Y && x < FIELD_X {
            match self.field[y][x] {
                Some(holder) => Err(FieldErrors::PositionAlreadySet(x, y, holder)),
                None => {
                    self.field[y][x] = Some(player);
                    assert(self@ =~~= place(old(self)@, x as int, y as int, Some(player)));
                    Ok(())
                },
            }
        } else {
            Err(FieldErrors::PositionNotInField(x, y))
        }
    }

    /// Overwrites the cell `(x, y)` with `item`, whatever it held; turns the
    /// write down if the cell lies outside the board.
    pub fn force_set(&mut self, x: usize, y: usize, item: Option<bool>) -> (res: Result<
        (),
        FieldErrors,
    >)
        ensures
            res is Ok <==> in_field(x as int, y as int),
            res is Ok ==> final(self)@ == place(old(self)@, x as int, y as int, item),
            res is Ok && item == old(self)@[y as int][x as int] ==> *final(self) == *old(self),
            res is Err ==> *final(self) == *old(self) && res == Err::<(), FieldErrors>(
                FieldErrors::PositionNotInField(x, y),
            ),
    {
        if y < FIELD_Y && x < FIELD_X {
            self.field[y][x] = item;
            proof {
                assert(self@ =~~= place(old(self)@, x as int, y as int, item));
                if item == old(self)@[y as int][x as int] {
                    old(self).lemma_view();
                    lemma_place_same(old(self)@, x as int, y as int);
                    self.lemma_view_injective(*old(self));
                }
            }
            Ok(())
        } else {
            Err(FieldErrors::PositionNotInField(x, y))
        }
    }

    /// The board with its rows in reverse order.
    pub fn mirror_x(&self) -> (mirrored: Field)
        ensures
            mirrored@ == mirror_rows(self@),
    {
        let mirrored =
            Field { field: [self.field[3], self.field[2], self.field[1], self.field[0]] };
        assert(mirrored@ =~~= mirror_rows(self@));
        mirrored
    }

    /// The board with the cells of every row in reverse order.
    pub fn mirror_y(&self) -> (mirrored: Field)
        ensures
            mirrored@ == mirror_columns(self@),
    {
        let r0 = self.field[0];
        let r1 = self.field[1];
        let r2 = self.field[2];
        let r3 = self.field[3];
        let mirrored = Field {
            field: [
                [r0[3], r0[2], r0[1], r0[0]],
                [r1[3], r1[2], r1[1], r1[0]],
                [r2[3], r2[2], r2[1], r2[0]],
                [r3[3], r3[2], r3[1], r3[0]],
            ],
        };
        assert(mirrored@ =~~= mirror_columns(self@));
        mirrored
    }

    /// The number of cells that are held.
    pub fn set_pieces(&self) -> (pieces: usize)
        ensures
            pieces == occupied(self@),
            pieces <= 16,
    {
        let mut pieces: usize = 0;
        let mut y: usize = 0;
        while y < FIELD_Y
            invariant
                y <= 4,
                pieces == pieces_in_rows(self@, y as int),
                pieces <= 4 * y,
            decreases 4 - y,
        {
            let mut x: usize = 0;
            while x < FIELD_X
                invariant
                    y < 4,
                    x <= 4,
                    pieces == pieces_in_rows(self@, y as int) + pieces_in_row_prefix(
                        self@[y as int],
                        x as int,
                    ),
                    pieces <= 4 * y + x,
                decreases 4 - x,
            {
                if self.field[y][x].is_some() {
                    pieces += 1;
                }
                x += 1;
            }
            y += 1;
        }
        pieces
    }

    /// The player who holds four cells in a row, if one does.
    pub fn winner(&self) -> (winner: Option<bool>)
        ensures
            winner == winner_of(self@),
    {
        let mut y: usize = 0;
        while y < FIELD_Y
            invariant
                y <= 4,
                forall|j: int| 0 <= j < y ==> row_four(self@, j) is None,
            decreases 4 - y,
        {
            let v = self.field[y];
            if v[0].is_some() && v[0] == v[1] && v[0] == v[2] && v[0] == v[3] {
                return v[0];
            }
            y += 1;
        }

        let mut x: usize = 0;
        while x < FIELD_X
            invariant
                x <= 4,
                forall|j: int| 0 <= j < 4 ==> row_four(self@, j) is None,
                forall|i: int| 0 <= i < x ==> column_four(self@, i) is None,
            decreases 4 - x,
        {
            if self.field[0][x].is_some() && self.field[0][x] == self.field[1][x]
                && self.field[0][x] == self.field[2][x] && self.field[0][x] == self.field[3][x] {
                return self.field[0][x];
            }
            x += 1;
        }

        if self.field[0][0].is_some() && self.field[0][0] == self.field[1][1]
            && self.field[0][0] == self.field[2][2] && self.field[0][0] == self.field[3][3] {
            return self.field[0][0];
        }
        if self.field[0][3].is_some() && self.field[0][3] == self.field[1][2]
            && self.field[0][3] == self.field[2][1] && self.field[0][3] == self.field[3][0] {
            return self.field[0][3];
        }

        None
    }

    /// The player who holds a losing three in a row, if one does.
    pub fn loser(&self) -> (loser: Option<bool>)
        ensures
            loser == loser_of(self@),
    {
        let mut k: usize = 0;
        while k < 4
            invariant
                k <= 4,
                forall|dx: int, dy: int|
                    0 <= dx < 2 && 0 <= dy < 2 && 2 * dx + dy < k ==> triple_through(
                        self@,
                        dx,
                        dy,
                    ) is None,
            decreases 4 - k,
        {
            let dx: usize = k / 2;
            let dy: usize = k % 2;
            let mid = self.field[1 + dy][1 + dx];
            if mid.is_some() && mid == self.field[dy][dx] && mid == self.field[2 + dy][2 + dx] {
                return mid;
            } else if mid.is_some() && mid == self.field[2 + dy][dx] && mid == self.field[dy][2
                + dx] {
                return mid;
            }
            k += 1;
        }
        assert(diagonal_loser(self@) is None);

        let mut y: usize = 0;
        while y < FIELD_Y
            invariant
                y <= 4,
                diagonal_loser(self@) is None,
                forall|j: int| 0 <= j < y ==> row_triple(self@, j) is None,
            decreases 4 - y,
        {
            let mid = self.field[y][1];
            if mid.is_some() && mid == self.field[y][2] && ((mid == self.field[y][0]) ^ (mid
                == self.field[y][3])) {
                return mid;
            }
            y += 1;
        }
        assert(row_loser(self@) is None);

        let mut x: usize = 0;
        while x < FIELD_X
            invariant
                x <= 4,
                diagonal_loser(self@) is None,
                row_loser(self@) is None,
                forall|i: int| 0 <= i < x ==> column_triple(self@, i) is None,
            decreases 4 - x,
        {
            let mid = self.field[1][x];
            if mid.is_some() && mid == self.field[2][x] && ((mid == self.field[0][x]) ^ (mid
                == self.field[3][x])) {
                return mid;
            }
            x += 1;
        }
        assert(column_loser(self@) is None);

        None
    }

    /// The key under which the board is remembered: no two boards share one.
    pub fn key(&self) -> (key: u64)
        ensures
            key == board_key(self@),
    {
        let mut key: u64 = 0;
        let mut y: usize = FIELD_Y;
        while y > 0
            invariant
                y <= 4,
                key < 43046721,
                y == 4 ==> key == 0,
                y == 3 ==> key == row_key(self@[3]),
                y == 2 ==> key == row_key(self@[2]) + 81 * row_key(self@[3]),
                y == 1 ==> key == row_key(self@[1]) + 81 * row_key(self@[2]) + 6561 * row_key(
                    self@[3],
                ),
                y == 0 ==> key == board_key(self@),
            decreases y,
        {
            y -= 1;
            let row = self.field[y];
            let digits: u64 = cell_digit(row[0]) + 3 * cell_digit(row[1]) + 9 * cell_digit(row[2])
                + 27 * cell_digit(row[3]);
            assert(digits == row_key(self@[y as int]));
            key = key * 81 + digits;
        }
        key
    }
}

/// A cell as a digit to the base 3.
pub fn cell_digit(cell: Option<bool>) -> (digit: u64)
    ensures
        digit == crate::board::cell_code(cell),
        digit <= 2,
{
    match cell {
        None => 0,
        Some(false) => 1,
        Some(true) => 2,
    }
}

} // verus!
