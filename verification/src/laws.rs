//! Board-level laws: properties of marking and classification that hold
//! for every board the engine can reach.

use vstd::prelude::*;

use crate::game::{self, GameResult, Player};
use crate::grid;
use crate::grid::{Cell, Grid};

verus! {

/// Occupancy invariant, for every reachable snapshot: a board the game
/// can reach is well formed, carries exactly one mark per elapsed turn,
/// and never has both players' bits set for one cell.
pub proof fn lemma_reachable_boards_valid(g: Grid, turn: int)
    requires
        game::reachable(g, turn),
    ensures
        grid::valid_grid(g),
        grid::count_occupied(g) == turn,
    decreases turn,
{
    if turn == 0 {
        grid::lemma_empty_grid_valid();
        grid::lemma_empty_grid_blank();
    } else {
        let (g0, c) = choose|g0: Grid, c: Cell|
            {
                &&& #[trigger] grid::spec_mark(g0, c, game::spec_player_from_turn(turn - 1)) == g
                &&& game::reachable(g0, turn - 1)
                &&& grid::spec_is_empty(g0, c)
                &&& grid::spec_result(g0, turn - 1) == GameResult::Continue
            };
        lemma_reachable_boards_valid(g0, turn - 1);
        grid::lemma_mark_keeps_valid(g0, c, game::spec_player_from_turn(turn - 1));
        grid::lemma_mark_count(g0, c, game::spec_player_from_turn(turn - 1));
    }
}

/// Occupancy invariant: the empty board is well formed, and marking an
/// empty cell of a well-formed board yields a well-formed board, so no
/// reachable board ever has both players' bits set for one cell.
pub proof fn lemma_occupancy_invariant(g: Grid, cell: Cell, player: Player)
    requires
        grid::valid_grid(g),
        grid::spec_is_empty(g, cell),
    ensures
        grid::valid_grid(grid::EMPTY),
        grid::valid_grid(grid::spec_mark(g, cell, player)),
{
    grid::lemma_empty_grid_valid();
    grid::lemma_mark_keeps_valid(g, cell, player);
}

/// Classification of a winner: whenever exactly one player covers a
/// winning line, classification reports that player's win, whatever the
/// turn counter says.
pub proof fn lemma_single_winner_classified(g: Grid, turn: int)
    ensures
        grid::x_wins(g) && !grid::o_wins(g) ==> grid::spec_result(g, turn) == GameResult::XWin,
        grid::o_wins(g) && !grid::x_wins(g) ==> grid::spec_result(g, turn) == GameResult::OWin,
{
}

/// Draw exactness: a board with a full turn counter and no winning line
/// classifies as a draw, never as a game that continues.
pub proof fn lemma_full_board_draws(g: Grid)
    requires
        !grid::x_wins(g),
        !grid::o_wins(g),
    ensures
        grid::spec_result(g, 9) == GameResult::Draw,
        grid::spec_result(g, 9) != GameResult::Continue,
{
}

/// Round trip of the board encoding: after a player marks an empty
/// cell, that cell reads occupied, and every other cell's emptiness is
/// unchanged.
pub proof fn lemma_mark_round_trip(g: Grid, cell: Cell, player: Player)
    requires
        grid::spec_is_empty(g, cell),
    ensures
        !grid::spec_is_empty(grid::spec_mark(g, cell, player), cell),
        forall|other: Cell|
            other != cell ==> grid::spec_is_empty(grid::spec_mark(g, cell, player), other)
                == grid::spec_is_empty(g, other),
{
    grid::lemma_mark_fills_cell(g, cell, player);
    assert forall|other: Cell| other != cell implies grid::spec_is_empty(
        grid::spec_mark(g, cell, player),
        other,
    ) == grid::spec_is_empty(g, other) by {
        grid::lemma_mark_keeps_others(g, cell, other, player);
    }
}

} // verus!
