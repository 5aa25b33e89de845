//! Exhaustive minimax: full backward induction over every line of play,
//! with depth-adjusted terminal scores so faster wins rank higher.

use vstd::prelude::*;

use crate::ai::{Depth, Score, DRAW, O_WIN, X_WIN};
use crate::game::{self, Game, GameResult, Player, Turn};
use crate::grid::{self, Cell, Grid};

verus! {

pub open spec fn spec_max(a: int, b: int) -> int {
    if b > a {
        b
    } else {
        a
    }
}

pub open spec fn spec_min(a: int, b: int) -> int {
    if b < a {
        b
    } else {
        a
    }
}

/// The exhaustive-search value of a board: terminal boards score by the
/// classification (depth-adjusted), and a live board scores as the best
/// reply of the player whose turn it is, X maximizing, O minimizing.
pub open spec fn spec_minimax(node: Grid, turn: int, depth: int) -> int
    decreases 9 - turn, 0int,
{
    if !(0 <= turn <= 9) {
        DRAW as int
    } else {
        match grid::spec_result(node, turn) {
            GameResult::Draw => DRAW as int,
            GameResult::XWin => X_WIN - depth,
            GameResult::OWin => O_WIN + depth,
            GameResult::Continue => {
                if game::spec_player_from_turn(turn) == Player::X {
                    fold_max(node, turn + 1, depth + 1, grid::spec_empty_cells(node), O_WIN as int)
                } else {
                    fold_min(node, turn + 1, depth + 1, grid::spec_empty_cells(node), X_WIN as int)
                }
            },
        }
    }
}

/// Maximum of `acc` and the values of the boards obtained by letting X
/// claim each cell of `cells` in turn.
pub open spec fn fold_max(node: Grid, turn: int, depth: int, cells: Seq<Cell>, acc: int) -> int
    decreases 9 - turn, cells.len() + 1,
{
    if !(0 <= turn <= 9) || cells.len() == 0 {
        acc
    } else {
        let v = spec_minimax(grid::spec_mark(node, cells[0], Player::X), turn, depth);
        fold_max(node, turn, depth, cells.drop_first(), spec_max(acc, v))
    }
}

/// Minimum of `acc` and the values of the boards obtained by letting O
/// claim each cell of `cells` in turn.
pub open spec fn fold_min(node: Grid, turn: int, depth: int, cells: Seq<Cell>, acc: int) -> int
    decreases 9 - turn, cells.len() + 1,
{
    if !(0 <= turn <= 9) || cells.len() == 0 {
        acc
    } else {
        let v = spec_minimax(grid::spec_mark(node, cells[0], Player::O), turn, depth);
        fold_min(node, turn, depth, cells.drop_first(), spec_min(acc, v))
    }
}

/// Every minimax value lies between the two win scores.
pub proof fn lemma_minimax_bounds(node: Grid, turn: int, depth: int)
    requires
        0 <= depth <= turn,
        turn <= 9,
    ensures
        O_WIN <= spec_minimax(node, turn, depth) <= X_WIN,
    decreases 9 - turn, 0int,
{
    if grid::spec_result(node, turn) == GameResult::Continue {
        if game::spec_player_from_turn(turn) == Player::X {
            lemma_fold_max_bounds(
                node,
                turn + 1,
                depth + 1,
                grid::spec_empty_cells(node),
                O_WIN as int,
            );
        } else {
            lemma_fold_min_bounds(
                node,
                turn + 1,
                depth + 1,
                grid::spec_empty_cells(node),
                X_WIN as int,
            );
        }
    }
}

proof fn lemma_fold_max_bounds(node: Grid, turn: int, depth: int, cells: Seq<Cell>, acc: int)
    requires
        0 <= depth <= turn,
        turn <= 9,
        O_WIN <= acc <= X_WIN,
    ensures
        O_WIN <= fold_max(node, turn, depth, cells, acc) <= X_WIN,
    decreases 9 - turn, cells.len() + 1,
{
    if cells.len() > 0 {
        lemma_minimax_bounds(grid::spec_mark(node, cells[0], Player::X), turn, depth);
        let v = spec_minimax(grid::spec_mark(node, cells[0], Player::X), turn, depth);
        lemma_fold_max_bounds(node, turn, depth, cells.drop_first(), spec_max(acc, v));
    }
}

proof fn lemma_fold_min_bounds(node: Grid, turn: int, depth: int, cells: Seq<Cell>, acc: int)
    requires
        0 <= depth <= turn,
        turn <= 9,
        O_WIN <= acc <= X_WIN,
    ensures
        O_WIN <= fold_min(node, turn, depth, cells, acc) <= X_WIN,
    decreases 9 - turn, cells.len() + 1,
{
    if cells.len() > 0 {
        lemma_minimax_bounds(grid::spec_mark(node, cells[0], Player::O), turn, depth);
        let v = spec_minimax(grid::spec_mark(node, cells[0], Player::O), turn, depth);
        lemma_fold_min_bounds(node, turn, depth, cells.drop_first(), spec_min(acc, v));
    }
}

/// Computes the exhaustive-search value of a board by recursing over
/// every empty cell down to the terminal positions.
#[verifier::loop_isolation(false)]
pub fn minimax(node: Grid, turn: Turn, depth: Depth) -> (s: Score)
    requires
        0 <= depth <= turn,
        turn <= 9,
    ensures
        s as int == spec_minimax(node, turn as int, depth as int),
        O_WIN <= s <= X_WIN,
    decreases 9 - turn as int,
{
    proof {
        lemma_minimax_bounds(node, turn as int, depth as int);
    }
    match grid::get_result(node, turn) {
        GameResult::Draw => DRAW,
        GameResult::XWin => X_WIN - depth,
        GameResult::OWin => O_WIN + depth,
        GameResult::Continue => {
            let player = game::get_player_from_turn(turn);
            let next_turn = turn + 1;
            let next_depth = depth + 1;
            let cells = get_cells_for_search(node);
            let ghost nt = next_turn as int;
            let ghost nd = next_depth as int;
            let mut i: usize = 0;
            let mut value: Score;
            if player == Player::X {
                value = O_WIN;
                assert(cells@.skip(0) =~= cells@);
                while i < cells.len()
                    invariant
                        0 <= i <= cells@.len(),
                        O_WIN <= value <= X_WIN,
                        fold_max(node, nt, nd, cells@.skip(i as int), value as int) == fold_max(
                            node,
                            nt,
                            nd,
                            cells@,
                            O_WIN as int,
                        ),
                    decreases cells@.len() - i,
                {
                    let v = minimax(grid::mark(node, cells[i], Player::X), next_turn, next_depth);
                    proof {
                        assert(cells@.skip(i as int)[0] == cells@[i as int]);
                        assert(cells@.skip(i as int).drop_first() =~= cells@.skip(i as int + 1));
                    }
                    if v > value {
                        value = v;
                    }
                    i = i + 1;
                }
                assert(cells@.skip(cells@.len() as int) =~= Seq::<Cell>::empty());
            } else {
                value = X_WIN;
                assert(cells@.skip(0) =~= cells@);
                while i < cells.len()
                    invariant
                        0 <= i <= cells@.len(),
                        O_WIN <= value <= X_WIN,
                        fold_min(node, nt, nd, cells@.skip(i as int), value as int) == fold_min(
                            node,
                            nt,
                            nd,
                            cells@,
                            X_WIN as int,
                        ),
                    decreases cells@.len() - i,
                {
                    let v = minimax(grid::mark(node, cells[i], Player::O), next_turn, next_depth);
                    proof {
                        assert(cells@.skip(i as int)[0] == cells@[i as int]);
                        assert(cells@.skip(i as int).drop_first() =~= cells@.skip(i as int + 1));
                    }
                    if v < value {
                        value = v;
                    }
                    i = i + 1;
                }
                assert(cells@.skip(cells@.len() as int) =~= Seq::<Cell>::empty());
            }
            value
        },
    }
}

/// The empty cells of a board, with the fact that each is empty.
fn get_cells_for_search(node: Grid) -> (cells: Vec<Cell>)
    ensures
        cells@ == grid::spec_empty_cells(node),
        forall|k: int| 0 <= k < cells@.len() ==> grid::spec_is_empty(node, #[trigger] cells@[k]),
{
    proof {
        grid::lemma_empty_cells_are_empty(node);
    }
    grid::get_empty_cells(node)
}

/// The minimax value of the board a player reaches by claiming `cell`,
/// searched one ply deeper with a fresh depth counter, as the move
/// chooser scores each candidate.
pub open spec fn score_after(g: Grid, turn: int, cell: Cell, player: Player) -> int {
    spec_minimax(grid::spec_mark(g, cell, player), turn + 1, 0)
}

/// Chooses the move whose one-deeper search value is best for the
/// player whose turn it is: among the empty cells in scan order, the
/// first cell strictly improving on every earlier candidate wins.
#[verifier::loop_isolation(false)]
pub fn find_best_move(game: &Game) -> (r: Cell)
    requires
        0 <= game.turn <= 8,
        grid::spec_empty_cells(game.grid).len() > 0,
    ensures
        grid::spec_is_empty(game.grid, r),
        game::spec_player_from_turn(game.turn as int) == Player::X ==> forall|c: Cell|
            grid::spec_is_empty(game.grid, c) ==> score_after(game.grid, game.turn as int, c, Player::X)
                <= score_after(game.grid, game.turn as int, r, Player::X),
        game::spec_player_from_turn(game.turn as int) == Player::O ==> forall|c: Cell|
            grid::spec_is_empty(game.grid, c) ==> score_after(game.grid, game.turn as int, c, Player::O)
                >= score_after(game.grid, game.turn as int, r, Player::O),
        exists|k: int|
            #![trigger grid::spec_empty_cells(game.grid)[k]]
            {
                let cells = grid::spec_empty_cells(game.grid);
                let player = game::spec_player_from_turn(game.turn as int);
                &&& 0 <= k < cells.len()
                &&& r == cells[k]
                &&& forall|j: int|
                    0 <= j < k ==> (if player == Player::X {
                        score_after(game.grid, game.turn as int, #[trigger] cells[j], player)
                            < score_after(game.grid, game.turn as int, cells[k], player)
                    } else {
                        score_after(game.grid, game.turn as int, #[trigger] cells[j], player)
                            > score_after(game.grid, game.turn as int, cells[k], player)
                    })
            },
{
    let g = game.grid;
    let ghost t = game.turn as int;
    let empty_cells = get_cells_for_search(g);
    let turn = game.turn + 1;
    let mut best_move = empty_cells[0];
    let ghost mut kb: int = 0;
    let player = game::get_player_from_turn(game.turn);
    let mut i: usize = 0;
    if player == Player::X {
        proof {
            lemma_minimax_bounds(grid::spec_mark(g, empty_cells@[0], Player::X), t + 1, 0);
        }
        let mut best_score: Score = O_WIN;
        while i < empty_cells.len()
            invariant
                0 <= i <= empty_cells@.len(),
                grid::spec_is_empty(g, best_move),
                best_score as int <= score_after(g, t, best_move, Player::X),
                forall|j: int|
                    0 <= j < i ==> score_after(g, t, #[trigger] empty_cells@[j], Player::X)
                        <= best_score as int,
                0 <= kb < empty_cells@.len(),
                best_move == empty_cells@[kb],
                forall|j: int|
                    0 <= j < kb ==> score_after(g, t, #[trigger] empty_cells@[j], Player::X)
                        < score_after(g, t, empty_cells@[kb], Player::X),
            decreases empty_cells@.len() - i,
        {
            let score = minimax(grid::mark(g, empty_cells[i], Player::X), turn, 0);
            if score > best_score {
                best_score = score;
                best_move = empty_cells[i];
                proof {
                    kb = i as int;
                }
            }
            i = i + 1;
        }
        proof {
            assert forall|c: Cell| grid::spec_is_empty(g, c) implies score_after(g, t, c, Player::X)
                <= score_after(g, t, best_move, Player::X) by {
                grid::lemma_empty_cells_complete(g, c);
                let j = choose|j: int|
                    0 <= j < grid::spec_empty_cells(g).len() && grid::spec_empty_cells(g)[j] == c;
                assert(score_after(g, t, empty_cells@[j], Player::X) <= best_score as int);
            }
        }
    } else {
        proof {
            lemma_minimax_bounds(grid::spec_mark(g, empty_cells@[0], Player::O), t + 1, 0);
        }
        let mut best_score: Score = X_WIN;
        while i < empty_cells.len()
            invariant
                0 <= i <= empty_cells@.len(),
                grid::spec_is_empty(g, best_move),
                best_score as int >= score_after(g, t, best_move, Player::O),
                forall|j: int|
                    0 <= j < i ==> score_after(g, t, #[trigger] empty_cells@[j], Player::O)
                        >= best_score as int,
                0 <= kb < empty_cells@.len(),
                best_move == empty_cells@[kb],
                forall|j: int|
                    0 <= j < kb ==> score_after(g, t, #[trigger] empty_cells@[j], Player::O)
                        > score_after(g, t, empty_cells@[kb], Player::O),
            decreases empty_cells@.len() - i,
        {
            let score = minimax(grid::mark(g, empty_cells[i], Player::O), turn, 0);
            if score < best_score {
                best_score = score;
                best_move = empty_cells[i];
                proof {
                    kb = i as int;
                }
            }
            i = i + 1;
        }
        proof {
            assert forall|c: Cell| grid::spec_is_empty(g, c) implies score_after(g, t, c, Player::O)
                >= score_after(g, t, best_move, Player::O) by {
                grid::lemma_empty_cells_complete(g, c);
                let j = choose|j: int|
                    0 <= j < grid::spec_empty_cells(g).len() && grid::spec_empty_cells(g)[j] == c;
                assert(score_after(g, t, empty_cells@[j], Player::O) >= best_score as int);
            }
        }
    }
    best_move
}

} // verus!
