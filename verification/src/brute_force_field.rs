//! The move generators and the exhaustive search over the game tree.

use vstd::prelude::*;

use std::collections::HashMap;

use crate::board::{
    free_cells, is_mirror_image, lemma_move_fills_a_cell, lemma_occupied_bound,
    lemma_place_back, occupied, well_formed,
};
use crate::field::Field;
use crate::game_tree::{
    after_move, game_value, lemma_empty_table, lemma_search_finds_game_value, search,
    try_candidates, Searched, Tried,
};
use crate::strategy::{
    all_positions, are_legal, are_representatives, as_candidates, candidates_of, exhaustive,
    follows, free_on, free_positions, is_move_selector, is_seen, lemma_dedup_step,
    lemma_filter_step, lemma_free_positions, lemma_legal_candidate, lemma_non_symmetrical_positions,
    lemma_representatives, non_symmetrical, non_symmetrical_positions, position_is_free,
    sparse_aware, sparse_aware_positions, trial, Strategy,
};
use crate::{GameResult, Position, FIELD_X, FIELD_Y};

verus! {

impl Field {
    /// Every empty cell, in the order in which moves are tried; `None` on a
    /// full board.
    pub fn possible_moves(&self) -> (moves: Option<Vec<Position>>)
        ensures
            candidates_of(moves) == as_candidates(free_positions(self@)),
    {
        let mut possible_moves: Vec<Position> = Vec::new();
        let mut x: usize = 0;
        assert(all_positions().take(0).filter(free_on(self@)) =~= Seq::empty()) by {
            reveal(Seq::filter);
        }
        while x < FIELD_X
            invariant
                x <= 4,
                possible_moves@ == all_positions().take(4 * x).filter(free_on(self@)),
            decreases 4 - x,
        {
            let mut y: usize = 0;
            while y < FIELD_Y
                invariant
                    x < 4,
                    y <= 4,
                    possible_moves@ == all_positions().take(4 * x + y).filter(free_on(self@)),
                decreases 4 - y,
            {
                let pos = Position::from((x, y));
                proof {
                    lemma_filter_step(all_positions(), free_on(self@), 4 * x + y);
                    assert(all_positions()[4 * x + y] == pos);
                }
                if self.field[pos.y][pos.x].is_none() {
                    possible_moves.push(pos);
                }
                y += 1;
            }
            x += 1;
        }
        assert(all_positions().take(16) =~= all_positions());
        if possible_moves.is_empty() {
            None
        } else {
            Some(possible_moves)
        }
    }

    /// The empty cells without those that only repeat an earlier one up to a
    /// reflection of the board: two moves count as the same if the one leads
    /// to a mirror image of the board to which the other leads. `None` on a
    /// full board.
    pub fn possible_non_symmetrical_moves(&self) -> (moves: Option<Vec<Position>>)
        ensures
            candidates_of(moves) == as_candidates(non_symmetrical_positions(self@)),
    {
        let mut kept: Vec<Position> = Vec::new();
        let mut boards: Vec<Field> = Vec::new();
        proof {
            self.lemma_view();
            lemma_representatives(self@, kept@);
            assert(kept@ =~= Seq::empty());
        }
        if let Some(positions) = self.possible_moves() {
            let mut i: usize = 0;
            while i < positions.len()
                invariant
                    i <= positions.len(),
                    positions@ == free_positions(self@),
                    well_formed(self@),
                    are_representatives(self@, i as int, kept@),
                    boards.len() == kept.len(),
                    forall|k: int|
                        0 <= k < boards.len() ==> (#[trigger] boards[k])@ == trial(self@, kept[k]),
                decreases positions.len() - i,
            {
                let pos = positions[i];
                let mut field = *self;
                proof {
                    lemma_free_positions(self@);
                    lemma_dedup_step(self@, i as int, kept@);
                }
                let _ = field.set(pos.x, pos.y, false);
                let seen = is_mirror_of_any(&boards, &field);
                proof {
                    if seen {
                        let k = choose|k: int|
                            0 <= k < boards.len() && is_mirror_image(
                                (#[trigger] boards[k])@,
                                field@,
                            );
                        assert(is_mirror_image(trial(self@, kept@[k]), trial(self@, pos)));
                    }
                    if is_seen(self@, kept@, pos) {
                        let k = choose|k: int|
                            0 <= k < kept@.len() && is_mirror_image(
                                trial(self@, #[trigger] kept@[k]),
                                trial(self@, pos),
                            );
                        assert(is_mirror_image(boards[k]@, field@));
                    }
                    assert(seen == is_seen(self@, kept@, pos));
                }
                if !seen {
                    kept.push(pos);
                    boards.push(field);
                }
                i += 1;
            }
            proof {
                lemma_representatives(self@, kept@);
            }
        } else {
            proof {
                lemma_representatives(self@, kept@);
            }
        }
        if kept.is_empty() {
            None
        } else {
            Some(kept)
        }
    }

    /// All empty cells once more than five cells are held, else the empty
    /// cells up to reflection; `None` on a full board.
    pub fn possible_moves_symmetrical_if_sparse(&self) -> (moves: Option<Vec<Position>>)
        ensures
            candidates_of(moves) == as_candidates(sparse_aware_positions(self@)),
    {
        if self.set_pieces() > 5 {
            self.possible_moves()
        } else {
            self.possible_non_symmetrical_moves()
        }
    }

    /// The result for `evaluate_for` of the game on this board under best
    /// play, when `player_turn` moves next and both sides choose among the
    /// candidates of `move_selector`: the value of the board for every
    /// strategy that the selector follows. With `evaluate_for` and
    /// `player_turn` opposite, the mover plays to lose. The board is handed
    /// back as it came.
    pub fn brute_force_game_state<F>(
        &mut self,
        evaluate_for: bool,
        player_turn: bool,
        move_selector: &F,
    ) -> (result: GameResult) where F: Fn(&Field) -> Option<Vec<Position>>
        requires
            is_move_selector(*move_selector),
        ensures
            *final(self) == *old(self),
            forall|strategy: Strategy| #[trigger]
                follows(*move_selector, strategy) ==> result == game_value(
                    strategy,
                    old(self)@,
                    evaluate_for,
                    player_turn,
                ),
    {
        let mut game_cash: HashMap<u64, GameResult> = HashMap::new();
        proof {
            self.lemma_view();
            lemma_occupied_bound(self@);
            assert(game_cash@ =~= Map::empty());
        }
        let found = self.brute_force_game_state_recursivly(
            evaluate_for,
            player_turn,
            move_selector,
            &mut game_cash,
            0,
        );
        proof {
            assert forall|strategy: Strategy| #[trigger]
                follows(*move_selector, strategy) implies found.0 == game_value(
                strategy,
                self@,
                evaluate_for,
                player_turn,
            ) by {
                lemma_empty_table(strategy, evaluate_for, player_turn, occupied(self@));
                lemma_search_finds_game_value(
                    strategy,
                    self@,
                    evaluate_for,
                    player_turn,
                    Map::empty(),
                    0,
                );
            }
        }
        found.0
    }

    /// The search proper: the result for `evaluate_for` of the game on this
    /// board when `player_turn` moves next, and the number of the move at
    /// which it was settled. `game_cash` holds the boards solved so far and
    /// takes up this one; `nth_move` counts the moves made to reach the
    /// board. What comes back is what `search` says, for every strategy that
    /// the selector follows. The board is handed back as it came.
    pub fn brute_force_game_state_recursivly<F>(
        &mut self,
        evaluate_for: bool,
        player_turn: bool,
        move_selector: &F,
        game_cash: &mut HashMap<u64, GameResult>,
        nth_move: usize,
    ) -> (found: (GameResult, usize)) where F: Fn(&Field) -> Option<Vec<Position>>
        requires
            is_move_selector(*move_selector),
            nth_move + free_cells(old(self)@) < usize::MAX,
        ensures
            *final(self) == *old(self),
            forall|strategy: Strategy| #[trigger]
                follows(*move_selector, strategy) ==> search(
                    strategy,
                    old(self)@,
                    evaluate_for,
                    player_turn,
                    old(game_cash)@,
                    nth_move as nat,
                ) == (Searched {
                    result: found.0,
                    depth: found.1 as nat,
                    table: final(game_cash)@,
                }),
        decreases free_cells(old(self)@), 1nat,
    {
        broadcast use vstd::std_specs::hash::group_hash_axioms;

        reveal(search);
        reveal(try_candidates);
        let ghost board = self@;
        let ghost table = game_cash@;
        proof {
            self.lemma_view();
        }
        if let Some(winner) = self.winner() {
            return (GameResult::from(winner), nth_move);
        }
        if let Some(loser) = self.loser() {
            return (GameResult::from(loser).opposite_player(), nth_move);
        }
        let key = self.key();
        if let Some(res) = game_cash.get(&key) {
            return (*res, nth_move);
        }
        let mut best_move: (Position, GameResult, usize) = (
            Position::from((0, 0)),
            GameResult::from(evaluate_for).opposite_player(),
            0,
        );
        let ghost start = Tried {
            position: best_move.0,
            result: best_move.1,
            depth: 0,
            table,
        };

        match move_selector(&*self) {
            None => {
                best_move = (Position::from((0, 0)), GameResult::Draw, nth_move + 1);
            },
            Some(possible_moves) => {
                let mut i: usize = 0;
                let mut done = false;
                while i < possible_moves.len() && !done
                    invariant
                        i <= possible_moves.len(),
                        is_move_selector(*move_selector),
                        call_ensures(*move_selector, (&*self,), Some(possible_moves)),
                        *self == *old(self),
                        board == self@,
                        well_formed(board),
                        nth_move + free_cells(board) < usize::MAX,
                        forall|strategy: Strategy| #[trigger]
                            follows(*move_selector, strategy) ==> try_candidates(
                                strategy,
                                board,
                                evaluate_for,
                                player_turn,
                                possible_moves@,
                                0,
                                start,
                                nth_move as nat,
                            ) == (if done {
                                best_so_far(best_move, game_cash@)
                            } else {
                                try_candidates(
                                    strategy,
                                    board,
                                    evaluate_for,
                                    player_turn,
                                    possible_moves@,
                                    i as nat,
                                    best_so_far(best_move, game_cash@),
                                    nth_move as nat,
                                )
                            }),
                    decreases possible_moves.len() - i, if done { 0int } else { 1int },
                {
                    let pos = possible_moves[i];
                    let ghost before = best_so_far(best_move, game_cash@);
                    proof {
                        let moves = possible_moves@;
                        assert(candidates_of(Some(possible_moves)) == Some(moves));
                        assert(are_legal(board, Some(moves)));
                        lemma_legal_candidate(board, moves, i as int);
                    }
                    let tried = self.try_candidate(
                        evaluate_for,
                        player_turn,
                        move_selector,
                        game_cash,
                        nth_move,
                        pos,
                        best_move,
                    );
                    proof {
                        reveal(search);
                        reveal(try_candidates);
                        assert forall|strategy: Strategy| #[trigger]
                            follows(*move_selector, strategy) implies try_candidates(
                            strategy,
                            board,
                            evaluate_for,
                            player_turn,
                            possible_moves@,
                            i as nat,
                            before,
                            nth_move as nat,
                        ) == (if tried.0 {
                            best_so_far(tried.1, game_cash@)
                        } else {
                            try_candidates(
                                strategy,
                                board,
                                evaluate_for,
                                player_turn,
                                possible_moves@,
                                i as nat + 1,
                                best_so_far(tried.1, game_cash@),
                                nth_move as nat,
                            )
                        }) by {
                            let found = search(
                                strategy,
                                after_move(board, pos, player_turn),
                                !evaluate_for,
                                !player_turn,
                                before.table,
                                nth_move as nat + 1,
                            );
                            assert(found.table == game_cash@);
                        }
                    }
                    best_move = tried.1;
                    if tried.0 {
                        done = true;
                    } else {
                        i += 1;
                    }
                }
            },
        }
        game_cash.insert(key, best_move.1);
        (best_move.1, best_move.2)
    }

    /// One trial: plays `pos` for `player_turn`, searches the board that
    /// results with both players flipped, and takes the move back. Hands
    /// back whether the trial ends here, which a win for `evaluate_for`
    /// does, and the best move after it: `pos` if it wins or is at least as
    /// good as `best_move`, else `best_move`.
    fn try_candidate<F>(
        &mut self,
        evaluate_for: bool,
        player_turn: bool,
        move_selector: &F,
        game_cash: &mut HashMap<u64, GameResult>,
        nth_move: usize,
        pos: Position,
        best_move: (Position, GameResult, usize),
    ) -> (tried: (bool, (Position, GameResult, usize))) where
        F: Fn(&Field) -> Option<Vec<Position>>,

        requires
            is_move_selector(*move_selector),
            position_is_free(old(self)@, pos),
            nth_move + free_cells(old(self)@) < usize::MAX,
        ensures
            *final(self) == *old(self),
            forall|strategy: Strategy| #[trigger]
                follows(*move_selector, strategy) ==> ({
                    let found = search(
                        strategy,
                        after_move(old(self)@, pos, player_turn),
                        !evaluate_for,
                        !player_turn,
                        old(game_cash)@,
                        nth_move as nat + 1,
                    );
                    &&& final(game_cash)@ == found.table
                    &&& tried.0 == (found.result == GameResult::win_of(evaluate_for))
                    &&& best_so_far(tried.1, found.table) == if found.result == GameResult::win_of(
                        evaluate_for,
                    ) || found.result.rank_for(evaluate_for) >= best_move.1.rank_for(
                        evaluate_for,
                    ) {
                        Tried {
                            position: pos,
                            result: found.result,
                            depth: found.depth,
                            table: found.table,
                        }
                    } else {
                        best_so_far(best_move, found.table)
                    }
                }),
        decreases free_cells(old(self)@), 0nat,
    {
        proof {
            self.lemma_view();
            lemma_move_fills_a_cell(old(self)@, pos.x as int, pos.y as int, player_turn);
        }
        let _ = self.set(pos.x, pos.y, player_turn);
        let rec_res = self.brute_force_game_state_recursivly(
            !evaluate_for,
            !player_turn,
            move_selector,
            game_cash,
            nth_move + 1,
        );
        let _ = self.force_set(pos.x, pos.y, None);
        proof {
            lemma_place_back(old(self)@, pos.x as int, pos.y as int, Some(player_turn));
            self.lemma_view_injective(*old(self));
        }
        if rec_res.0 == GameResult::from(evaluate_for) {
            (true, (pos, rec_res.0, rec_res.1))
        } else if rec_res.0.better_eq_for_player(&best_move.1, evaluate_for) {
            (false, (pos, rec_res.0, rec_res.1))
        } else {
            (false, best_move)
        }
    }
}

/// The best move so far, as the trial of the candidates knows it.
pub open spec fn best_so_far(
    best_move: (Position, GameResult, usize),
    table: Map<u64, GameResult>,
) -> Tried {
    Tried { position: best_move.0, result: best_move.1, depth: best_move.2 as nat, table }
}

/// Whether one of `boards` is a mirror image of `field`: its reflection in
/// the rows, in the columns, or in both.
fn is_mirror_of_any(boards: &Vec<Field>, field: &Field) -> (found: bool)
    ensures
        found == exists|k: int|
            0 <= k < boards.len() && is_mirror_image((#[trigger] boards[k])@, field@),
{
    let in_rows = field.mirror_x();
    let in_columns = field.mirror_y();
    let in_both = field.mirror_x().mirror_y();
    let mut k: usize = 0;
    while k < boards.len()
        invariant
            k <= boards.len(),
            in_rows@ == crate::board::mirror_rows(field@),
            in_columns@ == crate::board::mirror_columns(field@),
            in_both@ == crate::board::mirror_columns(crate::board::mirror_rows(field@)),
            forall|j: int| 0 <= j < k ==> !is_mirror_image((#[trigger] boards[j])@, field@),
        decreases boards.len() - k,
    {
        if boards[k] == in_rows || boards[k] == in_columns || boards[k] == in_both {
            return true;
        }
        k += 1;
    }
    false
}

/// Each of the three generators can serve the search, and follows the
/// strategy of its name.
pub proof fn lemma_generators_are_move_selectors()
    ensures
        is_move_selector(Field::possible_moves),
        is_move_selector(Field::possible_non_symmetrical_moves),
        is_move_selector(Field::possible_moves_symmetrical_if_sparse),
        follows(Field::possible_moves, exhaustive()),
        follows(Field::possible_non_symmetrical_moves, non_symmetrical()),
        follows(Field::possible_moves_symmetrical_if_sparse, sparse_aware()),
{
    assert forall|field: Field, moves: Option<Vec<Position>>|
        candidates_of(moves) == as_candidates(free_positions(field@)) implies #[trigger] are_legal(
        field@,
        candidates_of(moves),
    ) by {
        lemma_free_positions(field@);
    }
    assert forall|field: Field, moves: Option<Vec<Position>>|
        candidates_of(moves) == as_candidates(
            non_symmetrical_positions(field@),
        ) implies #[trigger] are_legal(field@, candidates_of(moves)) by {
        lemma_non_symmetrical_positions(field@);
    }
    assert forall|field: Field, moves: Option<Vec<Position>>|
        candidates_of(moves) == as_candidates(
            sparse_aware_positions(field@),
        ) implies #[trigger] are_legal(field@, candidates_of(moves)) by {
        lemma_free_positions(field@);
        lemma_non_symmetrical_positions(field@);
    }
    assert(follows(Field::possible_moves, exhaustive()));
    assert(follows(Field::possible_non_symmetrical_moves, non_symmetrical()));
    assert(follows(Field::possible_moves_symmetrical_if_sparse, sparse_aware()));
}

/// Two searches of one board for the same players with the same generator
/// end with the same result: what `brute_force_game_state` promises of its
/// result holds of one result only.
pub proof fn lemma_search_is_repeatable<F: Fn(&Field) -> Option<Vec<Position>>>(
    move_selector: F,
    field: Field,
    evaluate_for: bool,
    player_turn: bool,
    first: GameResult,
    second: GameResult,
)
    requires
        is_move_selector(move_selector),
        forall|strategy: Strategy| #[trigger]
            follows(move_selector, strategy) ==> first == game_value(
                strategy,
                field@,
                evaluate_for,
                player_turn,
            ),
        forall|strategy: Strategy| #[trigger]
            follows(move_selector, strategy) ==> second == game_value(
                strategy,
                field@,
                evaluate_for,
                player_turn,
            ),
    ensures
        first == second,
{
    let strategy = choose|strategy: Strategy| follows(move_selector, strategy);
    assert(follows(move_selector, strategy));
}

} // verus!
