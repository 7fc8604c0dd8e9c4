//! The player that searches the game tree for its move.

use vstd::prelude::*;

use std::collections::HashMap;

use crate::board::{
    lemma_move_fills_a_cell, lemma_occupied_bound, lemma_place_back, occupied, well_formed, Board,
};
use crate::brute_force_field::{best_so_far, lemma_generators_are_move_selectors};
use crate::field::Field;
use crate::game_tree::{
    after_move, game_value, lemma_empty_table, lemma_search_depth,
    lemma_search_finds_game_value, names_free_cells, search, table_is_sound, Tried,
};
use crate::strategy::{
    are_legal, exhaustive, lemma_first_free_is_kept, lemma_free_positions, lemma_legal_candidate,
    lemma_non_symmetrical_positions, non_symmetrical_positions, position_is_free,
};
use crate::{GameResult, Position};

verus! {

/// The choice among the candidates `moves[from..]` on `b` for `player`,
/// `best` being the choice among those before. Each candidate is played and
/// the board that results searched for the other player, over all free
/// cells and with the table that the trials share. A candidate that wins
/// for `player` is chosen at once. Else a candidate takes the place of
/// `best` if it leads to a draw, or to a result that is settled at a later
/// move than that of `best`.
#[verifier::opaque]
pub open spec fn choice(player: bool, b: Board, moves: Seq<Position>, from: nat, best: Tried) -> Tried
    decreases moves.len() - from,
{
    if from >= moves.len() {
        best
    } else {
        let found = search(
            exhaustive(),
            after_move(b, moves[from as int], player),
            !player,
            !player,
            best.table,
            occupied(b) + 1,
        );
        let candidate = Tried {
            position: moves[from as int],
            result: found.result,
            depth: found.depth,
            table: found.table,
        };
        if found.result == GameResult::win_of(player) {
            candidate
        } else if found.result == GameResult::Draw || found.depth > best.depth {
            choice(player, b, moves, from + 1, candidate)
        } else {
            choice(player, b, moves, from + 1, Tried { table: found.table, ..best })
        }
    }
}

/// The choice before any candidate was tried.
pub open spec fn no_choice(player: bool) -> Tried {
    Tried {
        position: Position { x: 0, y: 0 },
        result: GameResult::loss_of(player),
        depth: 0,
        table: Map::empty(),
    }
}

/// The move of the computer that plays as `player` on `b`: its choice among
/// the free cells up to reflection.
pub open spec fn computer_move(player: bool, b: Board) -> Position {
    choice(player, b, non_symmetrical_positions(b), 0, no_choice(player)).position
}

/// The player that searches the game tree for its move.
pub struct ComputerPlayer {
    player: bool,
}

impl ComputerPlayer {
    /// The side that the computer plays (`false` is player one).
    pub closed spec fn side(&self) -> bool {
        self.player
    }

    /// The computer as `player`.
    pub fn new(player: bool) -> (computer: ComputerPlayer)
        ensures
            computer.side() == player,
    {
        ComputerPlayer { player }
    }

    /// The move of the computer on `field`, which has a free cell.
    pub fn make_move(&self, field: &Field) -> (pos: Position)
        requires
            occupied(field@) < 16,
        ensures
            pos == computer_move(self.side(), field@),
    {
        let mut f = *field;
        match f.possible_non_symmetrical_moves() {
            Some(moves) => {
                proof {
                    lemma_non_symmetrical_positions(field@);
                    let candidates: Option<Seq<Position>> = Some(moves@);
                    assert(are_legal(field@, candidates));
                }
                self.get_best_move(&mut f, &moves)
            },
            None => {
                proof {
                    field.lemma_view();
                    lemma_some_cell_is_free(field@);
                    lemma_first_free_is_kept(field@);
                }
                Position::from((0, 0))
            },
        }
    }

    /// The choice among `moves`, free cells of `field`. The board is handed
    /// back as it came.
    fn get_best_move(&self, field: &mut Field, moves: &Vec<Position>) -> (pos: Position)
        requires
            are_legal(old(field)@, Some(moves@)),
        ensures
            *final(field) == *old(field),
            pos == choice(self.side(), old(field)@, moves@, 0, no_choice(self.side())).position,
    {
        let move_selector = Field::possible_moves;
        let mut game_cash: HashMap<u64, GameResult> = HashMap::new();
        let mut best_move: (Position, GameResult, usize) = (
            Position::from((0, 0)),
            GameResult::from(self.player).opposite_player(),
            0,
        );
        let ghost board = field@;
        let ghost total = choice(self.player, board, moves@, 0, no_choice(self.player));
        proof {
            field.lemma_view();
            lemma_generators_are_move_selectors();
            assert(game_cash@ =~= Map::empty());
        }
        let mut i: usize = 0;
        let mut done = false;
        while i < moves.len() && !done
            invariant
                i <= moves.len(),
                *field == *old(field),
                board == field@,
                well_formed(board),
                are_legal(board, Some(moves@)),
                total == (if done {
                    best_so_far(best_move, game_cash@)
                } else {
                    choice(self.player, board, moves@, i as nat, best_so_far(best_move, game_cash@))
                }),
            decreases moves.len() - i, if done { 0int } else { 1int },
        {
            let pos = moves[i];
            let ghost before = best_so_far(best_move, game_cash@);
            proof {
                reveal(choice);
                lemma_generators_are_move_selectors();
                lemma_legal_candidate(board, moves@, i as int);
                lemma_move_fills_a_cell(board, pos.x as int, pos.y as int, self.player);
                lemma_occupied_bound(after_move(board, pos, self.player));
            }
            let _ = field.set(pos.x, pos.y, self.player);
            let pieces = field.set_pieces();
            let rec_res = field.brute_force_game_state_recursivly(
                !self.player,
                !self.player,
                &move_selector,
                &mut game_cash,
                pieces,
            );
            let _ = field.force_set(pos.x, pos.y, None);
            proof {
                lemma_place_back(board, pos.x as int, pos.y as int, Some(self.player));
                field.lemma_view_injective(*old(field));
            }
            if rec_res.0 == GameResult::from(self.player) {
                best_move = (pos, rec_res.0, rec_res.1);
                done = true;
            } else if rec_res.0 == GameResult::Draw {
                best_move = (pos, rec_res.0, rec_res.1);
                i += 1;
            } else if rec_res.1 > best_move.2 {
                best_move = (pos, rec_res.0, rec_res.1);
                i += 1;
            } else {
                i += 1;
            }
        }
        proof {
            reveal(choice);
        }
        best_move.0
    }
}

/// A board with fewer than sixteen pieces has a free cell.
pub proof fn lemma_some_cell_is_free(b: Board)
    requires
        well_formed(b),
        occupied(b) < 16,
    ensures
        exists|p: Position| position_is_free(b, p),
{
    if b[0][0] is None {
        assert(position_is_free(b, Position { x: 0, y: 0 }));
    } else if b[0][1] is None {
        assert(position_is_free(b, Position { x: 1, y: 0 }));
    } else if b[0][2] is None {
        assert(position_is_free(b, Position { x: 2, y: 0 }));
    } else if b[0][3] is None {
        assert(position_is_free(b, Position { x: 3, y: 0 }));
    } else if b[1][0] is None {
        assert(position_is_free(b, Position { x: 0, y: 1 }));
    } else if b[1][1] is None {
        assert(position_is_free(b, Position { x: 1, y: 1 }));
    } else if b[1][2] is None {
        assert(position_is_free(b, Position { x: 2, y: 1 }));
    } else if b[1][3] is None {
        assert(position_is_free(b, Position { x: 3, y: 1 }));
    } else if b[2][0] is None {
        assert(position_is_free(b, Position { x: 0, y: 2 }));
    } else if b[2][1] is None {
        assert(position_is_free(b, Position { x: 1, y: 2 }));
    } else if b[2][2] is None {
        assert(position_is_free(b, Position { x: 2, y: 2 }));
    } else if b[2][3] is None {
        assert(position_is_free(b, Position { x: 3, y: 2 }));
    } else if b[3][0] is None {
        assert(position_is_free(b, Position { x: 0, y: 3 }));
    } else if b[3][1] is None {
        assert(position_is_free(b, Position { x: 1, y: 3 }));
    } else if b[3][2] is None {
        assert(position_is_free(b, Position { x: 2, y: 3 }));
    } else {
        assert(position_is_free(b, Position { x: 3, y: 3 }));
    }
}

/// The strategy of all free cells names free cells only.
pub proof fn lemma_exhaustive_names_free_cells()
    ensures
        names_free_cells(exhaustive()),
{
    assert forall|b: Board|
        (#[trigger] exhaustive()(b) matches Some(moves) ==> moves.len() > 0 && forall|i: int|
            0 <= i < moves.len() ==> position_is_free(b, #[trigger] moves[i])) by {
        lemma_free_positions(b);
    }
}

/// The choice among free cells is one of them, if `best` is one already or
/// the choice starts with its first candidate; and it wins if one of the
/// candidates left wins.
pub proof fn lemma_choice(player: bool, b: Board, moves: Seq<Position>, from: nat, best: Tried)
    requires
        well_formed(b),
        forall|i: int| 0 <= i < moves.len() ==> position_is_free(b, #[trigger] moves[i]),
        table_is_sound(exhaustive(), best.table, !player, !player, occupied(b) + 1),
        moves.contains(best.position) || (from == 0 && moves.len() > 0 && best.depth == 0),
    ensures
        moves.contains(choice(player, b, moves, from, best).position),
        (exists|k: int|
            from <= k < moves.len() && game_value(
                exhaustive(),
                after_move(b, #[trigger] moves[k], player),
                !player,
                !player,
            ) == GameResult::win_of(player)) ==> game_value(
            exhaustive(),
            after_move(b, choice(player, b, moves, from, best).position, player),
            !player,
            !player,
        ) == GameResult::win_of(player),
    decreases moves.len() - from,
{
    reveal(choice);
    if from < moves.len() {
        let p = moves[from as int];
        assert(position_is_free(b, p));
        let next = after_move(b, p, player);
        lemma_move_fills_a_cell(b, p.x as int, p.y as int, player);
        lemma_exhaustive_names_free_cells();
        lemma_search_depth(exhaustive(), next, !player, !player, best.table, occupied(b) + 1);
        lemma_search_finds_game_value(
            exhaustive(),
            next,
            !player,
            !player,
            best.table,
            occupied(b) + 1,
        );
        let found = search(exhaustive(), next, !player, !player, best.table, occupied(b) + 1);
        let candidate = Tried {
            position: p,
            result: found.result,
            depth: found.depth,
            table: found.table,
        };
        assert(moves.contains(candidate.position));
        if found.result == GameResult::win_of(player) {
        } else if found.result == GameResult::Draw || found.depth > best.depth {
            lemma_choice(player, b, moves, from + 1, candidate);
        } else {
            lemma_choice(player, b, moves, from + 1, Tried { table: found.table, ..best });
        }
    }
}

/// The move of the computer is a free cell of the board, so that the game
/// takes it; and it wins by force if one of the candidates does.
pub proof fn lemma_computer_move(player: bool, b: Board)
    requires
        well_formed(b),
        occupied(b) < 16,
    ensures
        position_is_free(b, computer_move(player, b)),
        (exists|k: int|
            0 <= k < non_symmetrical_positions(b).len() && game_value(
                exhaustive(),
                after_move(b, #[trigger] non_symmetrical_positions(b)[k], player),
                !player,
                !player,
            ) == GameResult::win_of(player)) ==> game_value(
            exhaustive(),
            after_move(b, computer_move(player, b), player),
            !player,
            !player,
        ) == GameResult::win_of(player),
{
    let moves = non_symmetrical_positions(b);
    lemma_some_cell_is_free(b);
    lemma_first_free_is_kept(b);
    lemma_non_symmetrical_positions(b);
    lemma_empty_table(exhaustive(), !player, !player, occupied(b) + 1);
    lemma_choice(player, b, moves, 0, no_choice(player));
    let chosen = computer_move(player, b);
    let k = choose|k: int| 0 <= k < moves.len() && moves[k] == chosen;
    assert(position_is_free(b, moves[k]));
}

} // verus!
