//! The mathematical model of the board and of its terminal patterns.
//!
//! A board is a sequence of four rows of four cells; `b[y][x]` is the cell in
//! column `x` of row `y`. A cell is `None` while it is empty, `Some(false)`
//! once player one holds it and `Some(true)` once player two holds it.

use vstd::prelude::*;

verus! {

/// The model of a board: rows of cells, indexed `[y][x]`.
pub type Board = Seq<Seq<Option<bool>>>;

/// Four rows of four cells each.
pub open spec fn well_formed(b: Board) -> bool {
    &&& b.len() == 4
    &&& b[0].len() == 4
    &&& b[1].len() == 4
    &&& b[2].len() == 4
    &&& b[3].len() == 4
}

/// `(x, y)` names a cell of the board.
pub open spec fn in_field(x: int, y: int) -> bool {
    0 <= x < 4 && 0 <= y < 4
}

/// `(x, y)` names a cell of `b` that nobody holds yet.
pub open spec fn is_free(b: Board, x: int, y: int) -> bool {
    in_field(x, y) && b[y][x] is None
}

/// The board without any piece.
pub open spec fn empty_board() -> Board {
    Seq::new(4, |y: int| Seq::new(4, |x: int| None::<bool>))
}

/// `b` with the cell `(x, y)` overwritten by `v`.
pub open spec fn place(b: Board, x: int, y: int, v: Option<bool>) -> Board {
    b.update(y, b[y].update(x, v))
}

/// `b` with its rows in reverse order.
pub open spec fn mirror_rows(b: Board) -> Board {
    Seq::new(4, |y: int| b[3 - y])
}

/// `b` with the cells of every row in reverse order.
pub open spec fn mirror_columns(b: Board) -> Board {
    Seq::new(4, |y: int| Seq::new(4, |x: int| b[y][3 - x]))
}

/// `a` is one of the three proper mirror images of `b`.
pub open spec fn is_mirror_image(a: Board, b: Board) -> bool {
    ||| a == mirror_rows(b)
    ||| a == mirror_columns(b)
    ||| a == mirror_columns(mirror_rows(b))
}

/// The mirror images of a board are boards; mirroring twice along one axis
/// gives the board back, and the two axes may be taken in either order.
pub proof fn lemma_mirrors(b: Board)
    requires
        well_formed(b),
    ensures
        well_formed(mirror_rows(b)),
        well_formed(mirror_columns(b)),
        mirror_rows(mirror_rows(b)) == b,
        mirror_columns(mirror_columns(b)) == b,
        mirror_rows(mirror_columns(b)) == mirror_columns(mirror_rows(b)),
{
    assert(mirror_rows(mirror_rows(b)) =~~= b);
    assert(mirror_columns(mirror_columns(b)) =~~= b);
    assert(mirror_rows(mirror_columns(b)) =~~= mirror_columns(mirror_rows(b)));
}

/// A mirror image of a mirror image of a board is the board itself or a
/// mirror image of it.
pub proof fn lemma_mirror_images_compose(a: Board, b: Board, c: Board)
    requires
        well_formed(c),
        is_mirror_image(a, b),
        is_mirror_image(b, c),
    ensures
        a == c || is_mirror_image(a, c),
{
    lemma_mirrors(c);
    lemma_mirrors(mirror_rows(c));
    lemma_mirrors(mirror_columns(c));
    lemma_mirrors(mirror_columns(mirror_rows(c)));
}

// ---------------------------------------------------------------------------
// Counting pieces
// ---------------------------------------------------------------------------

/// 1 for a held cell, 0 for an empty one.
pub open spec fn piece(c: Option<bool>) -> nat {
    if c is Some {
        1
    } else {
        0
    }
}

/// Number of held cells among the first `n` cells of `row`.
pub open spec fn pieces_in_row_prefix(row: Seq<Option<bool>>, n: int) -> nat {
    (if n > 0 { piece(row[0]) } else { 0 })
    + (if n > 1 { piece(row[1]) } else { 0 })
    + (if n > 2 { piece(row[2]) } else { 0 })
    + (if n > 3 { piece(row[3]) } else { 0 })
}

/// Number of held cells of `row`.
pub open spec fn pieces_in_row(row: Seq<Option<bool>>) -> nat {
    pieces_in_row_prefix(row, 4)
}

/// Number of held cells in the first `n` rows of `b`.
pub open spec fn pieces_in_rows(b: Board, n: int) -> nat {
    (if n > 0 { pieces_in_row(b[0]) } else { 0 })
    + (if n > 1 { pieces_in_row(b[1]) } else { 0 })
    + (if n > 2 { pieces_in_row(b[2]) } else { 0 })
    + (if n > 3 { pieces_in_row(b[3]) } else { 0 })
}

/// Number of held cells of `b`, between 0 and 16.
pub open spec fn occupied(b: Board) -> nat {
    pieces_in_rows(b, 4)
}

/// Number of empty cells of `b`.
pub open spec fn free_cells(b: Board) -> nat {
    (16 - occupied(b)) as nat
}

/// Overwriting one cell of a row changes its count by what the cell gains.
pub proof fn lemma_pieces_in_updated_row(row: Seq<Option<bool>>, x: int, v: Option<bool>)
    requires
        row.len() == 4,
        0 <= x < 4,
    ensures
        pieces_in_row(row.update(x, v)) + piece(row[x]) == pieces_in_row(row) + piece(v),
{
}

/// Overwriting one cell of a board keeps it well formed and changes its count
/// by what the cell gains.
pub proof fn lemma_place(b: Board, x: int, y: int, v: Option<bool>)
    requires
        well_formed(b),
        in_field(x, y),
    ensures
        well_formed(place(b, x, y, v)),
        place(b, x, y, v)[y][x] == v,
        forall|i: int, j: int|
            in_field(i, j) && (i != x || j != y) ==> #[trigger] place(b, x, y, v)[j][i] == b[j][i],
        occupied(place(b, x, y, v)) + piece(b[y][x]) == occupied(b) + piece(v),
{
    lemma_pieces_in_updated_row(b[y], x, v);
}

/// Writing to a cell what it holds changes nothing.
pub proof fn lemma_place_same(b: Board, x: int, y: int)
    requires
        well_formed(b),
        in_field(x, y),
    ensures
        place(b, x, y, b[y][x]) == b,
{
    assert(place(b, x, y, b[y][x]) =~~= b);
}

/// Clearing a cell that was free before a move undoes the move.
pub proof fn lemma_move_taken_back(b: Board, x: int, y: int, player: bool)
    requires
        well_formed(b),
        is_free(b, x, y),
    ensures
        place(place(b, x, y, Some(player)), x, y, None) == b,
{
    lemma_place_back(b, x, y, Some(player));
}

/// Writing back what a cell held undoes a write to it.
pub proof fn lemma_place_back(b: Board, x: int, y: int, v: Option<bool>)
    requires
        well_formed(b),
        in_field(x, y),
    ensures
        place(place(b, x, y, v), x, y, b[y][x]) == b,
{
    assert(place(place(b, x, y, v), x, y, b[y][x]) =~~= b);
}

/// Taking a free cell leaves one free cell less.
pub proof fn lemma_move_fills_a_cell(b: Board, x: int, y: int, player: bool)
    requires
        well_formed(b),
        is_free(b, x, y),
    ensures
        well_formed(place(b, x, y, Some(player))),
        occupied(place(b, x, y, Some(player))) == occupied(b) + 1,
        occupied(b) < 16,
        free_cells(place(b, x, y, Some(player))) + 1 == free_cells(b),
{
    lemma_place(b, x, y, Some(player));
    lemma_occupied_bound(b);
    lemma_occupied_bound(place(b, x, y, Some(player)));
}

/// A board has at most sixteen pieces.
pub proof fn lemma_occupied_bound(b: Board)
    ensures
        occupied(b) <= 16,
{
}

// ---------------------------------------------------------------------------
// Four in a row
// ---------------------------------------------------------------------------

/// The first of two findings that is one.
pub open spec fn or_else(first: Option<bool>, second: Option<bool>) -> Option<bool> {
    if first is Some {
        first
    } else {
        second
    }
}

/// The player who holds all four cells of a line, if one does.
pub open spec fn four_of(c0: Option<bool>, c1: Option<bool>, c2: Option<bool>, c3: Option<bool>)
    -> Option<bool> {
    if c0 is Some && c0 == c1 && c0 == c2 && c0 == c3 {
        c0
    } else {
        None
    }
}

/// The player who holds all of row `y`.
pub open spec fn row_four(b: Board, y: int) -> Option<bool> {
    four_of(b[y][0], b[y][1], b[y][2], b[y][3])
}

/// The player who holds all of column `x`.
pub open spec fn column_four(b: Board, x: int) -> Option<bool> {
    four_of(b[0][x], b[1][x], b[2][x], b[3][x])
}

/// The player who holds the diagonal from `(0, 0)` to `(3, 3)`.
pub open spec fn diagonal_four(b: Board) -> Option<bool> {
    four_of(b[0][0], b[1][1], b[2][2], b[3][3])
}

/// The player who holds the diagonal from `(3, 0)` to `(0, 3)`.
pub open spec fn antidiagonal_four(b: Board) -> Option<bool> {
    four_of(b[0][3], b[1][2], b[2][1], b[3][0])
}

/// `player` holds four cells in a row somewhere on `b`.
pub open spec fn has_four(b: Board, player: bool) -> bool {
    ||| exists|y: int| 0 <= y < 4 && #[trigger] row_four(b, y) == Some(player)
    ||| exists|x: int| 0 <= x < 4 && #[trigger] column_four(b, x) == Some(player)
    ||| diagonal_four(b) == Some(player)
    ||| antidiagonal_four(b) == Some(player)
}

/// The winner of `b`: the holder of the first complete line, looking at the
/// rows from 0 to 3, then at the columns from 0 to 3, then at the two
/// diagonals.
pub open spec fn winner_of(b: Board) -> Option<bool> {
    or_else(
        or_else(or_else(row_four(b, 0), row_four(b, 1)), or_else(row_four(b, 2), row_four(b, 3))),
        or_else(
            or_else(
                or_else(column_four(b, 0), column_four(b, 1)),
                or_else(column_four(b, 2), column_four(b, 3)),
            ),
            or_else(diagonal_four(b), antidiagonal_four(b)),
        ),
    )
}

// ---------------------------------------------------------------------------
// Three in a row
// ---------------------------------------------------------------------------

/// The player who holds three cells in a row, `mid` being the middle one.
pub open spec fn three_of(c0: Option<bool>, mid: Option<bool>, c2: Option<bool>) -> Option<bool> {
    if mid is Some && mid == c0 && mid == c2 {
        mid
    } else {
        None
    }
}

/// The player who holds exactly three adjacent cells of a line of four: the
/// two inner cells and one, not both, of the outer cells.
pub open spec fn three_of_line(
    c0: Option<bool>,
    c1: Option<bool>,
    c2: Option<bool>,
    c3: Option<bool>,
) -> Option<bool> {
    if c1 is Some && c1 == c2 && ((c1 == c0) != (c1 == c3)) {
        c1
    } else {
        None
    }
}

/// The holder of the diagonal triple that runs from `(dx, dy)` through
/// `(dx + 1, dy + 1)` to `(dx + 2, dy + 2)`.
pub open spec fn falling_triple(b: Board, dx: int, dy: int) -> Option<bool> {
    three_of(b[dy][dx], b[1 + dy][1 + dx], b[2 + dy][2 + dx])
}

/// The holder of the diagonal triple that runs from `(dx, dy + 2)` through
/// `(dx + 1, dy + 1)` to `(dx + 2, dy)`.
pub open spec fn rising_triple(b: Board, dx: int, dy: int) -> Option<bool> {
    three_of(b[2 + dy][dx], b[1 + dy][1 + dx], b[dy][2 + dx])
}

/// The holder of a diagonal triple through the inner cell
/// `(dx + 1, dy + 1)`, the falling one first.
pub open spec fn triple_through(b: Board, dx: int, dy: int) -> Option<bool> {
    or_else(falling_triple(b, dx, dy), rising_triple(b, dx, dy))
}

/// The holder of the first diagonal triple, going through the inner cells
/// `(1, 1)`, `(1, 2)`, `(2, 1)`, `(2, 2)` in this order.
pub open spec fn diagonal_loser(b: Board) -> Option<bool> {
    or_else(
        or_else(triple_through(b, 0, 0), triple_through(b, 0, 1)),
        or_else(triple_through(b, 1, 0), triple_through(b, 1, 1)),
    )
}

/// The holder of exactly three adjacent cells of column `x`.
pub open spec fn column_triple(b: Board, x: int) -> Option<bool> {
    three_of_line(b[0][x], b[1][x], b[2][x], b[3][x])
}

/// The holder of exactly three adjacent cells of row `y`.
pub open spec fn row_triple(b: Board, y: int) -> Option<bool> {
    three_of_line(b[y][0], b[y][1], b[y][2], b[y][3])
}

/// The holder of the first column triple, columns taken from 0 to 3.
pub open spec fn column_loser(b: Board) -> Option<bool> {
    or_else(
        or_else(column_triple(b, 0), column_triple(b, 1)),
        or_else(column_triple(b, 2), column_triple(b, 3)),
    )
}

/// The holder of the first row triple, rows taken from 0 to 3.
pub open spec fn row_loser(b: Board) -> Option<bool> {
    or_else(or_else(row_triple(b, 0), row_triple(b, 1)), or_else(row_triple(b, 2), row_triple(b, 3)))
}

/// `player` holds a losing three in a row somewhere on `b`: a diagonal triple,
/// or exactly three adjacent cells of a row or of a column.
pub open spec fn has_three(b: Board, player: bool) -> bool {
    ||| exists|dx: int, dy: int|
        0 <= dx < 2 && 0 <= dy < 2 && #[trigger] falling_triple(b, dx, dy) == Some(player)
    ||| exists|dx: int, dy: int|
        0 <= dx < 2 && 0 <= dy < 2 && #[trigger] rising_triple(b, dx, dy) == Some(player)
    ||| exists|x: int| 0 <= x < 4 && #[trigger] column_triple(b, x) == Some(player)
    ||| exists|y: int| 0 <= y < 4 && #[trigger] row_triple(b, y) == Some(player)
}

/// The loser of `b`: the holder of the first three in a row, looking at the
/// diagonal triples, then at the rows, then at the columns.
pub open spec fn loser_of(b: Board) -> Option<bool> {
    or_else(diagonal_loser(b), or_else(row_loser(b), column_loser(b)))
}

/// The game on `b` is over: somebody won, somebody lost, or no cell is left.
pub open spec fn is_terminal(b: Board) -> bool {
    winner_of(b) is Some || loser_of(b) is Some || occupied(b) == 16
}

/// The winner holds four cells in a row, and a board without a winner has no
/// such line; the loser holds a losing three in a row, and a board without a
/// loser has no such triple.
pub proof fn lemma_patterns(b: Board)
    ensures
        winner_of(b) matches Some(player) ==> has_four(b, player),
        winner_of(b) is None ==> !has_four(b, false) && !has_four(b, true),
        loser_of(b) matches Some(player) ==> has_three(b, player),
        loser_of(b) is None ==> !has_three(b, false) && !has_three(b, true),
{
    assert(winner_of(b) matches Some(player) ==> has_four(b, player)) by {
        let _ = (row_four(b, 0), row_four(b, 1), row_four(b, 2), row_four(b, 3));
        let _ = (column_four(b, 0), column_four(b, 1), column_four(b, 2), column_four(b, 3));
    }
    assert(loser_of(b) matches Some(player) ==> has_three(b, player)) by {
        let _ = (
            falling_triple(b, 0, 0),
            falling_triple(b, 0, 1),
            falling_triple(b, 1, 0),
            falling_triple(b, 1, 1),
        );
        let _ = (
            rising_triple(b, 0, 0),
            rising_triple(b, 0, 1),
            rising_triple(b, 1, 0),
            rising_triple(b, 1, 1),
        );
        let _ = (column_triple(b, 0), column_triple(b, 1), column_triple(b, 2), column_triple(b, 3));
        let _ = (row_triple(b, 0), row_triple(b, 1), row_triple(b, 2), row_triple(b, 3));
    }
}

/// Four in a row along a row or a column are no losing three on that line:
/// the three count only where the fourth cell of the line is not held by
/// the same player.
pub proof fn lemma_four_is_no_three(b: Board, line: int)
    ensures
        row_four(b, line) is Some ==> row_triple(b, line) is None,
        column_four(b, line) is Some ==> column_triple(b, line) is None,
{
}

/// After a move on a board without winner and loser, nobody but the mover
/// can have won or lost: so the winner and the loser of a board that a game
/// can reach are never two different players.
pub proof fn lemma_patterns_belong_to_mover(b: Board, x: int, y: int, player: bool)
    requires
        well_formed(b),
        is_free(b, x, y),
        winner_of(b) is None,
        loser_of(b) is None,
    ensures
        winner_of(place(b, x, y, Some(player))) matches Some(winner) ==> winner == player,
        loser_of(place(b, x, y, Some(player))) matches Some(loser) ==> loser == player,
{
    let after = place(b, x, y, Some(player));
    lemma_place(b, x, y, Some(player));
    lemma_patterns(b);
    lemma_patterns(after);
    let other = !player;
    assert(!has_four(after, other)) by {
        assert forall|j: int| 0 <= j < 4 implies #[trigger] row_four(after, j) != Some(other) by {
            if row_four(after, j) == Some(other) {
                assert(after[j][0] == b[j][0] && after[j][1] == b[j][1] && after[j][2] == b[j][2]
                    && after[j][3] == b[j][3]);
                assert(row_four(b, j) == Some(other));
            }
        }
        assert forall|i: int| 0 <= i < 4 implies #[trigger] column_four(after, i) != Some(other) by {
            if column_four(after, i) == Some(other) {
                assert(after[0][i] == b[0][i] && after[1][i] == b[1][i] && after[2][i] == b[2][i]
                    && after[3][i] == b[3][i]);
                assert(column_four(b, i) == Some(other));
            }
        }
        if diagonal_four(after) == Some(other) {
            assert(diagonal_four(b) == Some(other));
        }
        if antidiagonal_four(after) == Some(other) {
            assert(antidiagonal_four(b) == Some(other));
        }
    }
    assert(!has_three(after, other)) by {
        assert forall|dx: int, dy: int| 0 <= dx < 2 && 0 <= dy < 2 implies #[trigger] falling_triple(
            after,
            dx,
            dy,
        ) != Some(other) by {
            if falling_triple(after, dx, dy) == Some(other) {
                assert(falling_triple(b, dx, dy) == Some(other));
            }
        }
        assert forall|dx: int, dy: int| 0 <= dx < 2 && 0 <= dy < 2 implies #[trigger] rising_triple(
            after,
            dx,
            dy,
        ) != Some(other) by {
            if rising_triple(after, dx, dy) == Some(other) {
                assert(rising_triple(b, dx, dy) == Some(other));
            }
        }
        assert forall|i: int| 0 <= i < 4 implies #[trigger] column_triple(after, i) != Some(
            other,
        ) by {
            if column_triple(after, i) == Some(other) {
                assert(column_triple(b, i) == Some(other));
            }
        }
        assert forall|j: int| 0 <= j < 4 implies #[trigger] row_triple(after, j) != Some(other) by {
            if row_triple(after, j) == Some(other) {
                assert(row_triple(b, j) == Some(other));
            }
        }
    }
}

// ---------------------------------------------------------------------------
// The key of a board
// ---------------------------------------------------------------------------

/// A cell as a digit to the base 3.
pub open spec fn cell_code(c: Option<bool>) -> nat {
    match c {
        None => 0,
        Some(false) => 1,
        Some(true) => 2,
    }
}

/// A row as a number of four digits to the base 3.
pub open spec fn row_key(row: Seq<Option<bool>>) -> nat {
    cell_code(row[0]) + 3 * cell_code(row[1]) + 9 * cell_code(row[2]) + 27 * cell_code(row[3])
}

/// A board as a number of sixteen digits to the base 3. Distinct boards have
/// distinct keys (`lemma_board_key_injective`).
pub open spec fn board_key(b: Board) -> nat {
    row_key(b[0]) + 81 * row_key(b[1]) + 6561 * row_key(b[2]) + 531441 * row_key(b[3])
}

/// A row is known by its key.
pub proof fn lemma_row_key_injective(r1: Seq<Option<bool>>, r2: Seq<Option<bool>>)
    requires
        r1.len() == 4,
        r2.len() == 4,
        row_key(r1) == row_key(r2),
    ensures
        r1 == r2,
        row_key(r1) < 81,
{
    assert(cell_code(r1[0]) == cell_code(r2[0]));
    assert(cell_code(r1[1]) == cell_code(r2[1]));
    assert(cell_code(r1[2]) == cell_code(r2[2]));
    assert(cell_code(r1[3]) == cell_code(r2[3]));
    assert(r1 =~= r2);
}

/// A board is known by its key, and the key fits in 26 bits.
pub proof fn lemma_board_key_injective(b1: Board, b2: Board)
    requires
        well_formed(b1),
        well_formed(b2),
        board_key(b1) == board_key(b2),
    ensures
        b1 == b2,
        board_key(b1) < 43046721,
{
    lemma_row_key_injective(b1[0], b1[0]);
    lemma_row_key_injective(b1[1], b1[1]);
    lemma_row_key_injective(b1[2], b1[2]);
    lemma_row_key_injective(b1[3], b1[3]);
    lemma_row_key_injective(b2[0], b2[0]);
    lemma_row_key_injective(b2[1], b2[1]);
    lemma_row_key_injective(b2[2], b2[2]);
    lemma_row_key_injective(b2[3], b2[3]);
    assert(row_key(b1[0]) == row_key(b2[0]));
    assert(row_key(b1[1]) == row_key(b2[1]));
    assert(row_key(b1[2]) == row_key(b2[2]));
    assert(row_key(b1[3]) == row_key(b2[3]));
    lemma_row_key_injective(b1[0], b2[0]);
    lemma_row_key_injective(b1[1], b2[1]);
    lemma_row_key_injective(b1[2], b2[2]);
    lemma_row_key_injective(b1[3], b2[3]);
    assert(b1 =~= b2);
}

} // verus!
