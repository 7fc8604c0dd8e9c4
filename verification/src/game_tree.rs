//! The value of a position under best play, and a step-by-step account of
//! the search that computes it with a table of boards already solved.

use vstd::prelude::*;

use crate::board::{
    board_key, empty_board, free_cells, lemma_board_key_injective, lemma_move_fills_a_cell,
    lemma_patterns_belong_to_mover, loser_of, occupied, place, well_formed, winner_of, Board,
};
use crate::strategy::{position_is_free, Strategy};
use crate::{GameResult, Position};

verus! {

/// `b` after `player` took the free cell `p`.
pub open spec fn after_move(b: Board, p: Position, player: bool) -> Board {
    place(b, p.x as int, p.y as int, Some(player))
}

/// `boards` are the boards of a game from its start: the first is empty,
/// and each of the others comes from the one before by a move to a free
/// cell, player one and player two moving in turn; no move is made on a
/// board with a winner or a loser.
pub open spec fn is_game(boards: Seq<Board>) -> bool {
    &&& boards.len() > 0
    &&& boards[0] == empty_board()
    &&& forall|i: int|
        0 <= i < boards.len() - 1 ==> winner_of(#[trigger] boards[i]) is None && loser_of(boards[i])
            is None && is_move(boards[i], boards[i + 1], i % 2 == 1)
}

/// `after` is `before` after a move of `player` to a free cell.
pub open spec fn is_move(before: Board, after: Board, player: bool) -> bool {
    exists|p: Position| position_is_free(before, p) && #[trigger] after_move(before, p, player) == after
}

/// The boards of a game are boards.
pub proof fn lemma_game_boards(boards: Seq<Board>, i: int)
    requires
        is_game(boards),
        0 <= i < boards.len(),
    ensures
        well_formed(boards[i]),
    decreases i,
{
    if i > 0 {
        lemma_game_boards(boards, i - 1);
        let before = boards[i - 1];
        let player = (i - 1) % 2 == 1;
        assert(is_move(before, boards[i], player));
        let p = choose|p: Position|
            position_is_free(before, p) && #[trigger] after_move(before, p, player) == boards[i];
        lemma_move_fills_a_cell(before, p.x as int, p.y as int, player);
    }
}

/// On no board of a game the winner and the loser are two different
/// players: whoever has won or lost is the player who moved last. (One
/// player may have both won and lost: four in a row on a diagonal hold a
/// diagonal triple.)
pub proof fn lemma_game_patterns(boards: Seq<Board>, i: int)
    requires
        is_game(boards),
        0 <= i < boards.len(),
    ensures
        winner_of(boards[i]) matches Some(winner) ==> i > 0 && winner == ((i - 1) % 2 == 1),
        loser_of(boards[i]) matches Some(loser) ==> i > 0 && loser == ((i - 1) % 2 == 1),
        winner_of(boards[i]) is Some && loser_of(boards[i]) is Some ==> winner_of(boards[i])
            == loser_of(boards[i]),
{
    if i > 0 {
        lemma_game_boards(boards, i - 1);
        let before = boards[i - 1];
        let player = (i - 1) % 2 == 1;
        assert(is_move(before, boards[i], player));
        let p = choose|p: Position|
            position_is_free(before, p) && #[trigger] after_move(before, p, player) == boards[i];
        lemma_patterns_belong_to_mover(before, p.x as int, p.y as int, player);
    } else {
        assert(winner_of(empty_board()) is None);
        assert(loser_of(empty_board()) is None);
    }
}

/// The value of `b` for best play when `player_turn` is to move, each side
/// choosing among the candidates of `strategy`: the result that the player
/// `evaluate_for` likes best among the values of the positions one move on
/// (`best_among`), each of them taken for the other player's choice in turn.
///
/// A board with a winner or a loser has the value that the pattern gives it,
/// and one without candidates is a draw.
#[verifier::opaque]
pub open spec fn game_value(strategy: Strategy, b: Board, evaluate_for: bool, player_turn: bool)
    -> GameResult
    decreases free_cells(b), 1nat, 0nat,
    when well_formed(b)
{
    if let Some(winner) = winner_of(b) {
        GameResult::win_of(winner)
    } else if let Some(loser) = loser_of(b) {
        GameResult::loss_of(loser)
    } else {
        match strategy(b) {
            None => GameResult::Draw,
            Some(moves) => best_among(strategy, b, evaluate_for, player_turn, moves, moves.len()),
        }
    }
}

/// The one of two results that `player` likes better, the second if both
/// are liked the same.
pub open spec fn better_of(first: GameResult, second: GameResult, player: bool) -> GameResult {
    if second.rank_for(player) >= first.rank_for(player) {
        second
    } else {
        first
    }
}

/// The result that `evaluate_for` likes best among the values one move on
/// of the free candidates `moves[..upto]`; a loss where there is none.
#[verifier::opaque]
pub open spec fn best_among(
    strategy: Strategy,
    b: Board,
    evaluate_for: bool,
    player_turn: bool,
    moves: Seq<Position>,
    upto: nat,
) -> GameResult
    decreases free_cells(b), 0nat, upto,
    when well_formed(b)
    via best_among_terminates
{
    if upto == 0 || upto > moves.len() {
        GameResult::loss_of(evaluate_for)
    } else if position_is_free(b, moves[upto - 1]) {
        better_of(
            best_among(strategy, b, evaluate_for, player_turn, moves, (upto - 1) as nat),
            game_value(
                strategy,
                after_move(b, moves[upto - 1], player_turn),
                !evaluate_for,
                !player_turn,
            ),
            evaluate_for,
        )
    } else {
        best_among(strategy, b, evaluate_for, player_turn, moves, (upto - 1) as nat)
    }
}

#[via_fn]
proof fn best_among_terminates(
    strategy: Strategy,
    b: Board,
    evaluate_for: bool,
    player_turn: bool,
    moves: Seq<Position>,
    upto: nat,
) {
    if 0 < upto <= moves.len() && position_is_free(b, moves[upto - 1]) {
        lemma_move_fills_a_cell(
            b,
            moves[upto - 1].x as int,
            moves[upto - 1].y as int,
            player_turn,
        );
    }
}

/// What one call of the search hands back: the result, the number of the
/// move at which it was settled, and the table as the call leaves it.
pub struct Searched {
    pub result: GameResult,
    pub depth: nat,
    pub table: Map<u64, GameResult>,
}

/// The best move so far while the candidates of one board are tried in turn,
/// and the table as the last trial left it.
pub struct Tried {
    pub position: Position,
    pub result: GameResult,
    pub depth: nat,
    pub table: Map<u64, GameResult>,
}

/// The search on `b`, step by step. `table` holds the boards solved so far,
/// by key, and `nth_move` counts the moves made to reach `b`.
///
/// A board with a winner or a loser is settled at once, and so is one that
/// the table holds; neither changes the table. Otherwise the candidates are
/// tried in turn (`try_candidates`), and the result enters the table.
#[verifier::opaque]
pub open spec fn search(
    strategy: Strategy,
    b: Board,
    evaluate_for: bool,
    player_turn: bool,
    table: Map<u64, GameResult>,
    nth_move: nat,
) -> Searched
    decreases free_cells(b), 1nat, 0nat,
    when well_formed(b)
{
    if let Some(winner) = winner_of(b) {
        Searched { result: GameResult::win_of(winner), depth: nth_move, table }
    } else if let Some(loser) = loser_of(b) {
        Searched { result: GameResult::loss_of(loser), depth: nth_move, table }
    } else if table.contains_key(board_key(b) as u64) {
        Searched { result: table[board_key(b) as u64], depth: nth_move, table }
    } else {
        match strategy(b) {
            None => Searched {
                result: GameResult::Draw,
                depth: nth_move + 1,
                table: table.insert(board_key(b) as u64, GameResult::Draw),
            },
            Some(moves) => {
                let start = Tried {
                    position: Position { x: 0, y: 0 },
                    result: GameResult::loss_of(evaluate_for),
                    depth: 0,
                    table,
                };
                let best = try_candidates(
                    strategy,
                    b,
                    evaluate_for,
                    player_turn,
                    moves,
                    0,
                    start,
                    nth_move,
                );
                Searched {
                    result: best.result,
                    depth: best.depth,
                    table: best.table.insert(board_key(b) as u64, best.result),
                }
            },
        }
    }
}

/// The trial of the candidates `moves[from..]` on `b`, `best` being the best
/// of the candidates before them. Each free candidate is played for
/// `player_turn` and searched with both players flipped. A win for
/// `evaluate_for` ends the trial; any other result replaces `best` if
/// `evaluate_for` likes it at least as much.
#[verifier::opaque]
pub open spec fn try_candidates(
    strategy: Strategy,
    b: Board,
    evaluate_for: bool,
    player_turn: bool,
    moves: Seq<Position>,
    from: nat,
    best: Tried,
    nth_move: nat,
) -> Tried
    decreases free_cells(b), 0nat, moves.len() - from,
    when well_formed(b)
    via try_candidates_terminates
{
    if from >= moves.len() {
        best
    } else if !position_is_free(b, moves[from as int]) {
        try_candidates(strategy, b, evaluate_for, player_turn, moves, from + 1, best, nth_move)
    } else {
        let found = search(
            strategy,
            after_move(b, moves[from as int], player_turn),
            !evaluate_for,
            !player_turn,
            best.table,
            nth_move + 1,
        );
        let candidate = Tried {
            position: moves[from as int],
            result: found.result,
            depth: found.depth,
            table: found.table,
        };
        if found.result == GameResult::win_of(evaluate_for) {
            candidate
        } else if found.result.rank_for(evaluate_for) >= best.result.rank_for(evaluate_for) {
            try_candidates(
                strategy,
                b,
                evaluate_for,
                player_turn,
                moves,
                from + 1,
                candidate,
                nth_move,
            )
        } else {
            try_candidates(
                strategy,
                b,
                evaluate_for,
                player_turn,
                moves,
                from + 1,
                Tried { table: found.table, ..best },
                nth_move,
            )
        }
    }
}

/// The best of some values is a win exactly if one of them is, else a draw
/// exactly if one of them is, else a loss.
pub proof fn lemma_best_among(
    strategy: Strategy,
    b: Board,
    evaluate_for: bool,
    player_turn: bool,
    moves: Seq<Position>,
    upto: nat,
)
    requires
        well_formed(b),
        upto <= moves.len(),
    ensures
        best_among(strategy, b, evaluate_for, player_turn, moves, upto) == (if exists|i: int|
            0 <= i < upto && position_is_free(b, #[trigger] moves[i]) && game_value(
                strategy,
                after_move(b, moves[i], player_turn),
                !evaluate_for,
                !player_turn,
            ) == GameResult::win_of(evaluate_for) {
            GameResult::win_of(evaluate_for)
        } else if exists|i: int|
            0 <= i < upto && position_is_free(b, #[trigger] moves[i]) && game_value(
                strategy,
                after_move(b, moves[i], player_turn),
                !evaluate_for,
                !player_turn,
            ) == GameResult::Draw {
            GameResult::Draw
        } else {
            GameResult::loss_of(evaluate_for)
        }),
    decreases upto,
{
    reveal(best_among);
    reveal(game_value);
    if upto > 0 {
        lemma_best_among(strategy, b, evaluate_for, player_turn, moves, (upto - 1) as nat);
    }
}

/// `flag` after `steps` moves, each of which flips it.
pub open spec fn flipped(flag: bool, steps: int) -> bool {
    if steps % 2 == 0 {
        flag
    } else {
        !flag
    }
}

/// Every board that `table` holds has its value there: the value for the
/// players that the search reaches it with, when it reaches a board of
/// `pieces` pieces with `evaluate_for` and `player_turn`.
#[verifier::opaque]
pub open spec fn table_is_sound(
    strategy: Strategy,
    table: Map<u64, GameResult>,
    evaluate_for: bool,
    player_turn: bool,
    pieces: nat,
) -> bool {
    forall|b: Board|
        well_formed(b) && table.contains_key(#[trigger] board_key(b) as u64) ==> table[board_key(
            b,
        ) as u64] == game_value(
            strategy,
            b,
            flipped(evaluate_for, occupied(b) - pieces),
            flipped(player_turn, occupied(b) - pieces),
        )
}

/// A table that is sound for a board is sound for the boards one move on,
/// where both players are flipped.
pub proof fn lemma_table_one_move_on(
    strategy: Strategy,
    table: Map<u64, GameResult>,
    evaluate_for: bool,
    player_turn: bool,
    pieces: nat,
)
    ensures
        table_is_sound(strategy, table, evaluate_for, player_turn, pieces) == table_is_sound(
            strategy,
            table,
            !evaluate_for,
            !player_turn,
            pieces + 1,
        ),
{
    reveal(table_is_sound);
    assert forall|b: Board|
        flipped(evaluate_for, occupied(b) - pieces) == flipped(
            !evaluate_for,
            occupied(b) - (pieces + 1),
        ) && flipped(player_turn, occupied(b) - pieces) == flipped(
            !player_turn,
            #[trigger] occupied(b) - (pieces + 1),
        ) by {}
}

/// A sound table stays sound when a board enters it with its value.
pub proof fn lemma_table_insert(
    strategy: Strategy,
    table: Map<u64, GameResult>,
    evaluate_for: bool,
    player_turn: bool,
    b: Board,
)
    requires
        well_formed(b),
        table_is_sound(strategy, table, evaluate_for, player_turn, occupied(b)),
    ensures
        table_is_sound(
            strategy,
            table.insert(board_key(b) as u64, game_value(strategy, b, evaluate_for, player_turn)),
            evaluate_for,
            player_turn,
            occupied(b),
        ),
{
    reveal(table_is_sound);
    let value = game_value(strategy, b, evaluate_for, player_turn);
    let after = table.insert(board_key(b) as u64, value);
    assert forall|other: Board|
        well_formed(other) && after.contains_key(
            #[trigger] board_key(other) as u64,
        ) implies after[board_key(other) as u64] == game_value(
        strategy,
        other,
        flipped(evaluate_for, occupied(other) - occupied(b)),
        flipped(player_turn, occupied(other) - occupied(b)),
    ) by {
        lemma_board_key_injective(b, b);
        lemma_board_key_injective(other, other);
        if board_key(other) == board_key(b) {
            lemma_board_key_injective(other, b);
        }
    }
}

/// A board that a sound table holds has its value there.
pub proof fn lemma_table_lookup(
    strategy: Strategy,
    table: Map<u64, GameResult>,
    evaluate_for: bool,
    player_turn: bool,
    b: Board,
)
    requires
        well_formed(b),
        table_is_sound(strategy, table, evaluate_for, player_turn, occupied(b)),
        table.contains_key(board_key(b) as u64),
    ensures
        table[board_key(b) as u64] == game_value(strategy, b, evaluate_for, player_turn),
{
    reveal(table_is_sound);
}

/// The empty table is sound.
pub proof fn lemma_empty_table(strategy: Strategy, evaluate_for: bool, player_turn: bool, pieces: nat)
    ensures
        table_is_sound(strategy, Map::empty(), evaluate_for, player_turn, pieces),
{
    reveal(table_is_sound);
}

/// One more candidate under `best_among`.
pub proof fn lemma_best_among_step(
    strategy: Strategy,
    b: Board,
    evaluate_for: bool,
    player_turn: bool,
    moves: Seq<Position>,
    upto: nat,
)
    requires
        well_formed(b),
        upto < moves.len(),
    ensures
        best_among(strategy, b, evaluate_for, player_turn, moves, upto + 1) == if position_is_free(
            b,
            moves[upto as int],
        ) {
            better_of(
                best_among(strategy, b, evaluate_for, player_turn, moves, upto),
                game_value(
                    strategy,
                    after_move(b, moves[upto as int], player_turn),
                    !evaluate_for,
                    !player_turn,
                ),
                evaluate_for,
            )
        } else {
            best_among(strategy, b, evaluate_for, player_turn, moves, upto)
        },
        best_among(strategy, b, evaluate_for, player_turn, moves, 0) == GameResult::loss_of(
            evaluate_for,
        ),
{
    reveal(best_among);
    reveal(game_value);
}

/// Once a candidate wins, the best of the candidates is a win.
pub proof fn lemma_win_stays(
    strategy: Strategy,
    b: Board,
    evaluate_for: bool,
    player_turn: bool,
    moves: Seq<Position>,
    from: nat,
    upto: nat,
)
    requires
        well_formed(b),
        from <= upto <= moves.len(),
        best_among(strategy, b, evaluate_for, player_turn, moves, from) == GameResult::win_of(
            evaluate_for,
        ),
    ensures
        best_among(strategy, b, evaluate_for, player_turn, moves, upto) == GameResult::win_of(
            evaluate_for,
        ),
    decreases upto - from,
{
    if from < upto {
        lemma_best_among_step(strategy, b, evaluate_for, player_turn, moves, (upto - 1) as nat);
        lemma_win_stays(strategy, b, evaluate_for, player_turn, moves, from, (upto - 1) as nat);
    }
}

/// The search finds the value of the board, whatever sound table it starts
/// with, and leaves a sound table.
pub proof fn lemma_search_finds_game_value(
    strategy: Strategy,
    b: Board,
    evaluate_for: bool,
    player_turn: bool,
    table: Map<u64, GameResult>,
    nth_move: nat,
)
    requires
        well_formed(b),
        table_is_sound(strategy, table, evaluate_for, player_turn, occupied(b)),
    ensures
        search(strategy, b, evaluate_for, player_turn, table, nth_move).result == game_value(
            strategy,
            b,
            evaluate_for,
            player_turn,
        ),
        table_is_sound(
            strategy,
            search(strategy, b, evaluate_for, player_turn, table, nth_move).table,
            evaluate_for,
            player_turn,
            occupied(b),
        ),
    decreases free_cells(b), 1nat, 0nat,
{
    reveal(search);
    reveal(try_candidates);
    reveal(game_value);
    reveal(best_among);
    if winner_of(b) is Some || loser_of(b) is Some {
    } else if table.contains_key(board_key(b) as u64) {
        lemma_table_lookup(strategy, table, evaluate_for, player_turn, b);
    } else {
        match strategy(b) {
            None => {
                lemma_table_insert(strategy, table, evaluate_for, player_turn, b);
            },
            Some(moves) => {
                let start = Tried {
                    position: Position { x: 0, y: 0 },
                    result: GameResult::loss_of(evaluate_for),
                    depth: 0,
                    table,
                };
                lemma_try_candidates(
                    strategy,
                    b,
                    evaluate_for,
                    player_turn,
                    moves,
                    0,
                    start,
                    nth_move,
                );
                let best = try_candidates(
                    strategy,
                    b,
                    evaluate_for,
                    player_turn,
                    moves,
                    0,
                    start,
                    nth_move,
                );
                lemma_table_insert(strategy, best.table, evaluate_for, player_turn, b);
            },
        }
    }
}

/// The trial of the candidates from `from` on ends with the best value of
/// all candidates, if `best` holds the best value of those before `from`
/// and none of them wins; the table stays sound.
pub proof fn lemma_try_candidates(
    strategy: Strategy,
    b: Board,
    evaluate_for: bool,
    player_turn: bool,
    moves: Seq<Position>,
    from: nat,
    best: Tried,
    nth_move: nat,
)
    requires
        well_formed(b),
        from <= moves.len(),
        table_is_sound(strategy, best.table, evaluate_for, player_turn, occupied(b)),
        best.result == best_among(strategy, b, evaluate_for, player_turn, moves, from),
        best.result != GameResult::win_of(evaluate_for),
    ensures
        try_candidates(
            strategy,
            b,
            evaluate_for,
            player_turn,
            moves,
            from,
            best,
            nth_move,
        ).result == best_among(strategy, b, evaluate_for, player_turn, moves, moves.len()),
        table_is_sound(
            strategy,
            try_candidates(
                strategy,
                b,
                evaluate_for,
                player_turn,
                moves,
                from,
                best,
                nth_move,
            ).table,
            evaluate_for,
            player_turn,
            occupied(b),
        ),
    decreases free_cells(b), 0nat, moves.len() - from,
{
    reveal(search);
    reveal(try_candidates);
    if from >= moves.len() {
    } else if !position_is_free(b, moves[from as int]) {
        lemma_best_among_step(strategy, b, evaluate_for, player_turn, moves, from);
        lemma_try_candidates(
            strategy,
            b,
            evaluate_for,
            player_turn,
            moves,
            from + 1,
            best,
            nth_move,
        );
    } else {
        let p = moves[from as int];
        let next = after_move(b, p, player_turn);
        lemma_best_among_step(strategy, b, evaluate_for, player_turn, moves, from);
        lemma_move_fills_a_cell(b, p.x as int, p.y as int, player_turn);
        lemma_table_one_move_on(strategy, best.table, evaluate_for, player_turn, occupied(b));
        lemma_search_finds_game_value(
            strategy,
            next,
            !evaluate_for,
            !player_turn,
            best.table,
            nth_move + 1,
        );
        let found = search(strategy, next, !evaluate_for, !player_turn, best.table, nth_move + 1);
        lemma_table_one_move_on(strategy, found.table, evaluate_for, player_turn, occupied(b));
        let candidate = Tried {
            position: p,
            result: found.result,
            depth: found.depth,
            table: found.table,
        };
        if found.result == GameResult::win_of(evaluate_for) {
            lemma_win_stays(strategy, b, evaluate_for, player_turn, moves, from + 1, moves.len());
        } else if found.result.rank_for(evaluate_for) >= best.result.rank_for(evaluate_for) {
            lemma_try_candidates(
                strategy,
                b,
                evaluate_for,
                player_turn,
                moves,
                from + 1,
                candidate,
                nth_move,
            );
        } else {
            lemma_try_candidates(
                strategy,
                b,
                evaluate_for,
                player_turn,
                moves,
                from + 1,
                Tried { table: found.table, ..best },
                nth_move,
            );
        }
    }
}

/// The strategy names free cells only, and at least one where it names any.
pub open spec fn names_free_cells(strategy: Strategy) -> bool {
    forall|b: Board| #[trigger]
        strategy(b) matches Some(moves) ==> moves.len() > 0 && forall|i: int|
            0 <= i < moves.len() ==> position_is_free(b, #[trigger] moves[i])
}

/// The search settles a board at the move that led to it or later.
pub proof fn lemma_search_depth(
    strategy: Strategy,
    b: Board,
    evaluate_for: bool,
    player_turn: bool,
    table: Map<u64, GameResult>,
    nth_move: nat,
)
    requires
        well_formed(b),
        names_free_cells(strategy),
    ensures
        search(strategy, b, evaluate_for, player_turn, table, nth_move).depth >= nth_move,
    decreases free_cells(b), 1nat, 0nat,
{
    reveal(search);
    reveal(try_candidates);
    if winner_of(b) is None && loser_of(b) is None && !table.contains_key(board_key(b) as u64) {
        if let Some(moves) = strategy(b) {
            let start = Tried {
                position: Position { x: 0, y: 0 },
                result: GameResult::loss_of(evaluate_for),
                depth: 0,
                table,
            };
            lemma_try_depth(strategy, b, evaluate_for, player_turn, moves, 0, start, nth_move);
        }
    }
}

/// The trial of the candidates ends with a result that was settled after
/// the move that led to the board, if `best` holds such a result or the
/// trial starts with its first candidate.
pub proof fn lemma_try_depth(
    strategy: Strategy,
    b: Board,
    evaluate_for: bool,
    player_turn: bool,
    moves: Seq<Position>,
    from: nat,
    best: Tried,
    nth_move: nat,
)
    requires
        well_formed(b),
        names_free_cells(strategy),
        forall|i: int| 0 <= i < moves.len() ==> position_is_free(b, #[trigger] moves[i]),
        best.depth > nth_move || (from == 0 && moves.len() > 0 && best.result
            == GameResult::loss_of(evaluate_for)),
    ensures
        try_candidates(strategy, b, evaluate_for, player_turn, moves, from, best, nth_move).depth
            > nth_move,
    decreases free_cells(b), 0nat, moves.len() - from,
{
    reveal(search);
    reveal(try_candidates);
    if from < moves.len() {
        let p = moves[from as int];
        assert(position_is_free(b, p));
        let next = after_move(b, p, player_turn);
        lemma_move_fills_a_cell(b, p.x as int, p.y as int, player_turn);
        lemma_search_depth(strategy, next, !evaluate_for, !player_turn, best.table, nth_move + 1);
        let found = search(strategy, next, !evaluate_for, !player_turn, best.table, nth_move + 1);
        let candidate = Tried {
            position: p,
            result: found.result,
            depth: found.depth,
            table: found.table,
        };
        if found.result == GameResult::win_of(evaluate_for) {
        } else if found.result.rank_for(evaluate_for) >= best.result.rank_for(evaluate_for) {
            lemma_try_depth(
                strategy,
                b,
                evaluate_for,
                player_turn,
                moves,
                from + 1,
                candidate,
                nth_move,
            );
        } else {
            lemma_try_depth(
                strategy,
                b,
                evaluate_for,
                player_turn,
                moves,
                from + 1,
                Tried { table: found.table, ..best },
                nth_move,
            );
        }
    }
}

#[via_fn]
proof fn try_candidates_terminates(
    strategy: Strategy,
    b: Board,
    evaluate_for: bool,
    player_turn: bool,
    moves: Seq<Position>,
    from: nat,
    best: Tried,
    nth_move: nat,
) {
    if from < moves.len() && position_is_free(b, moves[from as int]) {
        lemma_move_fills_a_cell(
            b,
            moves[from as int].x as int,
            moves[from as int].y as int,
            player_turn,
        );
    }
}

} // verus!
