//! The candidate moves of a position, as sequences of positions, and what it
//! takes for a function to serve the search as a move generator.

use vstd::prelude::*;

use crate::board::{
    is_free, is_mirror_image, lemma_mirror_images_compose, lemma_place, occupied, place,
    well_formed, Board,
};
use crate::field::Field;
use crate::Position;

verus! {

/// What a move generator hands back: `None` where no move is left to try.
pub type Candidates = Option<Seq<Position>>;

/// The positions that a generator returned, as a model.
pub open spec fn candidates_of(moves: Option<Vec<Position>>) -> Candidates {
    match moves {
        None => None,
        Some(positions) => Some(positions@),
    }
}

/// `None` for no position at all, else the positions.
pub open spec fn as_candidates(positions: Seq<Position>) -> Candidates {
    if positions.len() == 0 {
        None
    } else {
        Some(positions)
    }
}

/// The `i`-th position in the order in which moves are tried: `x` from 0 to
/// 3 and, for each `x`, `y` from 0 to 3.
pub open spec fn position_at(i: int) -> Position {
    Position { x: (i / 4) as usize, y: (i % 4) as usize }
}

/// The sixteen positions of the board in the order in which moves are tried.
pub open spec fn all_positions() -> Seq<Position> {
    Seq::new(16, |i: int| position_at(i))
}

/// `p` is tried before `q`.
pub open spec fn comes_before(p: Position, q: Position) -> bool {
    p.x < q.x || (p.x == q.x && p.y < q.y)
}

/// `p` names a cell of `b` that nobody holds yet.
pub open spec fn position_is_free(b: Board, p: Position) -> bool {
    is_free(b, p.x as int, p.y as int)
}

/// The test "is a free cell of `b`".
pub open spec fn free_on(b: Board) -> spec_fn(Position) -> bool {
    |p: Position| position_is_free(b, p)
}

/// Every empty cell of `b`, in the order in which moves are tried.
pub open spec fn free_positions(b: Board) -> Seq<Position> {
    all_positions().filter(free_on(b))
}

/// `b` after player one took the cell `p`: the board by which two candidate
/// moves are compared.
pub open spec fn trial(b: Board, p: Position) -> Board {
    place(b, p.x as int, p.y as int, Some(false))
}

/// No free cell that is tried before `p` leads to a mirror image of the
/// board to which `p` leads.
pub open spec fn is_first_of_its_kind(b: Board, p: Position) -> bool {
    forall|q: Position|
        position_is_free(b, q) && comes_before(q, p) ==> !is_mirror_image(
            #[trigger] trial(b, q),
            trial(b, p),
        )
}

/// The test "is the first of its kind on `b`".
pub open spec fn first_of_its_kind_on(b: Board) -> spec_fn(Position) -> bool {
    |p: Position| is_first_of_its_kind(b, p)
}

/// The empty cells of `b` without those that only repeat an earlier one up
/// to a reflection of the board.
pub open spec fn non_symmetrical_positions(b: Board) -> Seq<Position> {
    free_positions(b).filter(first_of_its_kind_on(b))
}

/// All free cells once more than five cells are held, else the free cells up
/// to reflection.
pub open spec fn sparse_aware_positions(b: Board) -> Seq<Position> {
    if occupied(b) > 5 {
        free_positions(b)
    } else {
        non_symmetrical_positions(b)
    }
}

/// A move generator as a function on boards.
pub type Strategy = spec_fn(Board) -> Candidates;

/// Every candidate is a free cell of `b`.
pub open spec fn are_legal(b: Board, candidates: Candidates) -> bool {
    match candidates {
        None => true,
        Some(moves) => forall|i: int|
            0 <= i < moves.len() ==> #[trigger] position_is_free(b, moves[i]),
    }
}

/// Each of some legal candidates is a free cell.
pub proof fn lemma_legal_candidate(b: Board, moves: Seq<Position>, i: int)
    requires
        are_legal(b, Some(moves)),
        0 <= i < moves.len(),
    ensures
        position_is_free(b, moves[i]),
{
    let candidates: Candidates = Some(moves);
    assert(candidates matches Some(listed) && listed == moves);
}

/// The generator `selector` works as `strategy` says: whatever it returns
/// on a board holds the candidates that `strategy` gives for that board.
pub open spec fn follows<F: Fn(&Field) -> Option<Vec<Position>>>(
    selector: F,
    strategy: Strategy,
) -> bool {
    forall|field: Field, moves: Option<Vec<Position>>|
        #[trigger] call_ensures(selector, (&field,), moves) ==> candidates_of(moves) == strategy(
            field@,
        )
}

/// What a function needs to serve as a move generator: it can be called on
/// every board, the board alone decides which candidates it returns, and
/// every candidate is a free cell.
pub open spec fn is_move_selector<F: Fn(&Field) -> Option<Vec<Position>>>(selector: F) -> bool {
    &&& forall|field: Field| call_requires(selector, (&field,))
    &&& exists|strategy: Strategy| follows(selector, strategy)
    &&& forall|field: Field, moves: Option<Vec<Position>>|
        #![trigger call_ensures(selector, (&field,), moves)]
        call_ensures(selector, (&field,), moves) ==> are_legal(field@, candidates_of(moves))
}

/// All free cells, as a strategy.
pub open spec fn exhaustive() -> Strategy {
    |b: Board| as_candidates(free_positions(b))
}

/// The free cells up to reflection, as a strategy.
pub open spec fn non_symmetrical() -> Strategy {
    |b: Board| as_candidates(non_symmetrical_positions(b))
}

/// All free cells once more than five cells are held, else the free cells
/// up to reflection, as a strategy.
pub open spec fn sparse_aware() -> Strategy {
    |b: Board| as_candidates(sparse_aware_positions(b))
}

/// Taking one more element of `s` under a filter appends that element or
/// nothing.
pub proof fn lemma_filter_step<A>(s: Seq<A>, pred: spec_fn(A) -> bool, n: int)
    requires
        0 <= n < s.len(),
    ensures
        s.take(n + 1).filter(pred) == if pred(s[n]) {
            s.take(n).filter(pred).push(s[n])
        } else {
            s.take(n).filter(pred)
        },
{
    reveal(Seq::filter);
    assert(s.take(n + 1).drop_last() =~= s.take(n));
}

/// The free positions among the first `n` positions are free, each is tried
/// before position `n`, they stand in the order in which moves are tried, and
/// no free position before `n` is missing.
pub proof fn lemma_free_prefix(b: Board, n: int)
    requires
        0 <= n <= 16,
    ensures
        ({
            let free = all_positions().take(n).filter(free_on(b));
            &&& free.len() <= n
            &&& forall|k: int|
                0 <= k < free.len() ==> position_is_free(b, #[trigger] free[k]) && 4 * free[k].x
                    + free[k].y < n
            &&& forall|j: int, k: int|
                0 <= j < k < free.len() ==> comes_before(#[trigger] free[j], #[trigger] free[k])
            &&& forall|p: Position|
                position_is_free(b, p) && 4 * p.x + p.y < n ==> #[trigger] free.contains(p)
        }),
    decreases n,
{
    let free = all_positions().take(n).filter(free_on(b));
    if n == 0 {
        assert(free =~= Seq::empty()) by {
            reveal(Seq::filter);
        }
    } else {
        lemma_free_prefix(b, n - 1);
        lemma_filter_step(all_positions(), free_on(b), n - 1);
        let before = all_positions().take(n - 1).filter(free_on(b));
        let last = all_positions()[n - 1];
        assert(last == position_at(n - 1));
        assert forall|p: Position| position_is_free(b, p) && 4 * p.x + p.y < n implies free.contains(
            p,
        ) by {
            if 4 * p.x + p.y < n - 1 {
                assert(before.contains(p));
                let k = choose|k: int| 0 <= k < before.len() && before[k] == p;
                assert(free[k] == p);
            } else {
                assert(p == last);
                assert(free[free.len() - 1] == p);
            }
        }
    }
}

/// The free positions of a board are its free cells, each once, in the order
/// in which moves are tried.
pub proof fn lemma_free_positions(b: Board)
    ensures
        ({
            let free = free_positions(b);
            &&& free.len() <= 16
            &&& forall|k: int| 0 <= k < free.len() ==> position_is_free(b, #[trigger] free[k])
            &&& forall|j: int, k: int|
                0 <= j < k < free.len() ==> comes_before(#[trigger] free[j], #[trigger] free[k])
            &&& forall|p: Position| position_is_free(b, p) ==> #[trigger] free.contains(p)
        }),
{
    lemma_free_prefix(b, 16);
    assert(all_positions().take(16) =~= all_positions());
}

/// `r` stands for `p`: it is `p`, or leads to a mirror image of the board to
/// which `p` leads.
pub open spec fn represents(b: Board, r: Position, p: Position) -> bool {
    r == p || is_mirror_image(trial(b, r), trial(b, p))
}

/// `kept` holds the first of each kind among the first `upto` free
/// positions: each of them is one of these positions, and each of these
/// positions has one in `kept` that stands for it.
#[verifier::opaque]
pub open spec fn are_representatives(b: Board, upto: int, kept: Seq<Position>) -> bool {
    let free = free_positions(b);
    &&& kept == free.take(upto).filter(first_of_its_kind_on(b))
    &&& forall|k: int|
        0 <= k < kept.len() ==> exists|j: int| 0 <= j < upto && free[j] == #[trigger] kept[k]
    &&& forall|j: int|
        0 <= j < upto ==> exists|k: int|
            0 <= k < kept.len() && represents(b, kept[k], #[trigger] free[j])
}

/// `kept` holds a position that leads to a mirror image of the board to which
/// `p` leads.
pub open spec fn is_seen(b: Board, kept: Seq<Position>, p: Position) -> bool {
    exists|k: int| 0 <= k < kept.len() && is_mirror_image(trial(b, #[trigger] kept[k]), trial(b, p))
}

/// No position has no representative, and the representatives of all free
/// positions are the positions that are the first of their kind.
pub proof fn lemma_representatives(b: Board, kept: Seq<Position>)
    ensures
        are_representatives(b, 0, Seq::empty()),
        are_representatives(b, free_positions(b).len() as int, kept) ==> kept
            == non_symmetrical_positions(b),
{
    reveal(are_representatives);
    let free = free_positions(b);
    assert(free.take(0).filter(first_of_its_kind_on(b)) =~= Seq::empty()) by {
        reveal(Seq::filter);
    }
    assert(free.take(free.len() as int) =~= free);
}

/// Two free positions lead to different boards.
pub proof fn lemma_trials_differ(b: Board, p: Position, q: Position)
    requires
        well_formed(b),
        position_is_free(b, p),
        position_is_free(b, q),
        p != q,
    ensures
        trial(b, p) != trial(b, q),
{
    lemma_place(b, p.x as int, p.y as int, Some(false));
    lemma_place(b, q.x as int, q.y as int, Some(false));
    assert(trial(b, q)[p.y as int][p.x as int] == b[p.y as int][p.x as int]);
}

/// The next free position is the first of its kind exactly if none of the
/// representatives so far leads to a mirror image of its board; with it, if
/// it is, they are the representatives of one position more.
pub proof fn lemma_dedup_step(b: Board, upto: int, kept: Seq<Position>)
    requires
        well_formed(b),
        0 <= upto < free_positions(b).len(),
        are_representatives(b, upto, kept),
    ensures
        is_seen(b, kept, free_positions(b)[upto]) == !is_first_of_its_kind(
            b,
            free_positions(b)[upto],
        ),
        are_representatives(
            b,
            upto + 1,
            if is_seen(b, kept, free_positions(b)[upto]) {
                kept
            } else {
                kept.push(free_positions(b)[upto])
            },
        ),
{
    reveal(are_representatives);
    let free = free_positions(b);
    let p = free[upto];
    lemma_free_positions(b);
    lemma_filter_step(free, first_of_its_kind_on(b), upto);
    lemma_place(b, p.x as int, p.y as int, Some(false));
    if is_seen(b, kept, p) {
        let k = choose|k: int|
            0 <= k < kept.len() && is_mirror_image(trial(b, #[trigger] kept[k]), trial(b, p));
        let j = choose|j: int| 0 <= j < upto && free[j] == kept[k];
        assert(comes_before(free[j], free[upto]));
        assert(is_mirror_image(trial(b, free[j]), trial(b, p)));
        assert(!is_first_of_its_kind(b, p));
        assert(represents(b, kept[k], free[upto]));
    } else {
        assert forall|q: Position|
            position_is_free(b, q) && comes_before(q, p) implies !is_mirror_image(
            #[trigger] trial(b, q),
            trial(b, p),
        ) by {
            if is_mirror_image(trial(b, q), trial(b, p)) {
                assert(free.contains(q));
                let j = choose|j: int| 0 <= j < free.len() && free[j] == q;
                if j >= upto {
                    if j > upto {
                        assert(comes_before(free[upto], free[j]));
                    }
                    assert(false);
                }
                let k = choose|k: int| 0 <= k < kept.len() && represents(b, kept[k], free[j]);
                if kept[k] != q {
                    lemma_mirror_images_compose(trial(b, kept[k]), trial(b, q), trial(b, p));
                    let i = choose|i: int| 0 <= i < upto && free[i] == kept[k];
                    assert(comes_before(free[i], free[upto]));
                    lemma_trials_differ(b, kept[k], p);
                }
                assert(is_mirror_image(trial(b, kept[k]), trial(b, p)));
                assert(false);
            }
        }
        assert(is_first_of_its_kind(b, p));
        let more = kept.push(p);
        assert(more[kept.len() as int] == p);
        assert(represents(b, more[kept.len() as int], free[upto]));
        assert forall|j: int| 0 <= j < upto + 1 implies exists|k: int|
            0 <= k < more.len() && represents(b, more[k], #[trigger] free[j]) by {
            if j < upto {
                let k = choose|k: int| 0 <= k < kept.len() && represents(b, kept[k], free[j]);
                assert(more[k] == kept[k]);
            }
        }
        assert forall|k: int| 0 <= k < more.len() implies exists|j: int|
            0 <= j < upto + 1 && free[j] == #[trigger] more[k] by {
            if k < kept.len() {
                assert(more[k] == kept[k]);
                let j = choose|j: int| 0 <= j < upto && free[j] == kept[k];
                assert(free[j] == more[k]);
            } else {
                assert(free[upto] == more[k]);
            }
        }
    }
}

/// The positions that are the first of their kind are free positions.
pub proof fn lemma_non_symmetrical_positions(b: Board)
    ensures
        forall|k: int|
            0 <= k < non_symmetrical_positions(b).len() ==> position_is_free(
                b,
                #[trigger] non_symmetrical_positions(b)[k],
            ),
        non_symmetrical_positions(b).len() <= free_positions(b).len(),
{
    broadcast use vstd::seq_lib::group_filter_ensures;

    lemma_free_positions(b);
    let free = free_positions(b);
    let kept = non_symmetrical_positions(b);
    assert forall|k: int| 0 <= k < kept.len() implies position_is_free(b, #[trigger] kept[k]) by {
        assert(kept.contains(kept[k]));
        free.lemma_filter_contains_rev(first_of_its_kind_on(b), kept[k]);
    }
}

/// On a board with a free cell some position is the first of its kind.
pub proof fn lemma_first_free_is_kept(b: Board)
    requires
        well_formed(b),
        exists|p: Position| position_is_free(b, p),
    ensures
        non_symmetrical_positions(b).len() > 0,
        free_positions(b).len() > 0,
{
    broadcast use vstd::seq_lib::group_filter_ensures;

    lemma_free_positions(b);
    let free = free_positions(b);
    let p = choose|p: Position| position_is_free(b, p);
    assert(free.contains(p));
    let first = free[0];
    assert forall|q: Position| position_is_free(b, q) && comes_before(q, first) implies !is_mirror_image(
        #[trigger] trial(b, q),
        trial(b, first),
    ) by {
        assert(free.contains(q));
        let j = choose|j: int| 0 <= j < free.len() && free[j] == q;
        if j > 0 {
            assert(comes_before(free[0], free[j]));
        }
    }
    assert(is_first_of_its_kind(b, first));
    assert(first_of_its_kind_on(b)(free[0]));
    free.lemma_filter_contains(first_of_its_kind_on(b), 0);
}

} // verus!
