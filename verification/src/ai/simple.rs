//! One-ply heuristic: take an immediate win if one exists, otherwise
//! block the opponent's immediate win, otherwise take the first empty
//! cell in scan order.

use vstd::prelude::*;

use crate::game::{self, Game, GameResult, Player};
use crate::grid::{self, Cell, Grid};

verus! {

/// Placing `player`'s piece in `cell` ends the game with a win.
pub open spec fn wins_after(g: Grid, turn: int, cell: Cell, player: Player) -> bool {
    let r = grid::spec_result(grid::spec_mark(g, cell, player), turn + 1);
    r == GameResult::XWin || r == GameResult::OWin
}

/// The `k`-th empty cell is the first one, in scan order, whose claim
/// by `player` wins immediately.
pub open spec fn first_winner_at(g: Grid, turn: int, player: Player, k: int) -> bool {
    let cells = grid::spec_empty_cells(g);
    &&& 0 <= k < cells.len()
    &&& wins_after(g, turn, cells[k], player)
    &&& forall|j: int| 0 <= j < k ==> !wins_after(g, turn, #[trigger] cells[j], player)
}

/// The `k`-th empty cell is the last one, in scan order, whose claim by
/// `player` wins immediately.
pub open spec fn last_winner_at(g: Grid, turn: int, player: Player, k: int) -> bool {
    let cells = grid::spec_empty_cells(g);
    &&& 0 <= k < cells.len()
    &&& wins_after(g, turn, cells[k], player)
    &&& forall|j: int| k < j < cells.len() ==> !wins_after(g, turn, #[trigger] cells[j], player)
}

/// The player opposing `player`.
pub open spec fn spec_opponent(player: Player) -> Player {
    if player == Player::X {
        Player::O
    } else {
        Player::X
    }
}

/// Scans the empty cells once: returns the first cell that wins the
/// game for the mover at once; failing that, the last cell where the
/// opponent would win, so the threat is blocked; failing that, the
/// first empty cell.
#[verifier::loop_isolation(false)]
pub fn find_best_move(game: &Game) -> (r: Cell)
    requires
        0 <= game.turn <= 8,
        grid::spec_empty_cells(game.grid).len() > 0,
    ensures
        grid::spec_is_empty(game.grid, r),
        (exists|c: Cell|
            grid::spec_is_empty(game.grid, c) && wins_after(
                game.grid,
                game.turn as int,
                c,
                game::spec_player_from_turn(game.turn as int),
            )) ==> {
            let cells = grid::spec_empty_cells(game.grid);
            exists|k: int|
                #![trigger cells[k]]
                first_winner_at(
                    game.grid,
                    game.turn as int,
                    game::spec_player_from_turn(game.turn as int),
                    k,
                ) && r == cells[k]
        },
        (!(exists|c: Cell|
            grid::spec_is_empty(game.grid, c) && wins_after(
                game.grid,
                game.turn as int,
                c,
                game::spec_player_from_turn(game.turn as int),
            )) && (exists|c: Cell|
            grid::spec_is_empty(game.grid, c) && wins_after(
                game.grid,
                game.turn as int,
                c,
                spec_opponent(game::spec_player_from_turn(game.turn as int)),
            ))) ==> {
            let cells = grid::spec_empty_cells(game.grid);
            exists|k: int|
                #![trigger cells[k]]
                last_winner_at(
                    game.grid,
                    game.turn as int,
                    spec_opponent(game::spec_player_from_turn(game.turn as int)),
                    k,
                ) && r == cells[k]
        },
        (!(exists|c: Cell|
            grid::spec_is_empty(game.grid, c) && (wins_after(
                game.grid,
                game.turn as int,
                c,
                game::spec_player_from_turn(game.turn as int),
            ) || wins_after(
                game.grid,
                game.turn as int,
                c,
                spec_opponent(game::spec_player_from_turn(game.turn as int)),
            )))) ==> r == grid::spec_empty_cells(game.grid)[0],
{
    let g = game.grid;
    let ghost t = game.turn as int;
    let ai = game::get_player_from_turn(game.turn);
    let opponent = if ai == Player::X {
        Player::O
    } else {
        Player::X
    };
    let turn = game.turn + 1;
    proof {
        grid::lemma_empty_cells_are_empty(g);
    }
    let empty_cells = grid::get_empty_cells(g);
    let mut best_move = empty_cells[0];
    let ghost mut seen_block = false;
    let ghost mut kb: int = 0;
    let mut i: usize = 0;
    while i < empty_cells.len()
        invariant
            0 <= i <= empty_cells@.len(),
            forall|j: int| 0 <= j < i ==> !wins_after(g, t, #[trigger] empty_cells@[j], ai),
            seen_block ==> {
                &&& 0 <= kb < i
                &&& best_move == empty_cells@[kb]
                &&& wins_after(g, t, empty_cells@[kb], opponent)
                &&& forall|j: int|
                    kb < j < i ==> !wins_after(g, t, #[trigger] empty_cells@[j], opponent)
            },
            !seen_block ==> {
                &&& best_move == empty_cells@[0]
                &&& forall|j: int|
                    0 <= j < i ==> !wins_after(g, t, #[trigger] empty_cells@[j], opponent)
            },
        decreases empty_cells@.len() - i,
    {
        let cell = empty_cells[i];
        let mut result = grid::get_result(grid::mark(g, cell, ai), turn);
        if result != GameResult::Continue && result != GameResult::Draw {
            proof {
                assert(first_winner_at(g, t, ai, i as int));
            }
            return cell;
        }
        result = grid::get_result(grid::mark(g, cell, opponent), turn);
        if result != GameResult::Continue && result != GameResult::Draw {
            best_move = cell;
            proof {
                seen_block = true;
                kb = i as int;
            }
        }
        i = i + 1;
    }
    proof {
        assert forall|c: Cell| grid::spec_is_empty(g, c) implies !wins_after(g, t, c, ai) by {
            grid::lemma_empty_cells_complete(g, c);
            let j = choose|j: int|
                0 <= j < grid::spec_empty_cells(g).len() && grid::spec_empty_cells(g)[j] == c;
            assert(!wins_after(g, t, empty_cells@[j], ai));
        }
        if seen_block {
            assert(last_winner_at(g, t, opponent, kb));
        } else {
            assert forall|c: Cell| grid::spec_is_empty(g, c) implies !wins_after(
                g,
                t,
                c,
                opponent,
            ) by {
                grid::lemma_empty_cells_complete(g, c);
                let j = choose|j: int|
                    0 <= j < grid::spec_empty_cells(g).len() && grid::spec_empty_cells(g)[j] == c;
                assert(!wins_after(g, t, empty_cells@[j], opponent));
            }
        }
    }
    best_move
}

} // verus!
