//! Uniform-random strategy: any empty cell, each with equal chance.
//! Also the rollout policy of the Monte-Carlo simulations.

use vstd::prelude::*;

use crate::game::Game;
use crate::grid::{self, Cell};

verus! {

/// Picks one of the empty cells uniformly at random.
pub fn find_best_move(game: &Game) -> (r: Cell)
    requires
        grid::spec_empty_cells(game.grid).len() > 0,
    ensures
        grid::spec_is_empty(game.grid, r),
{
    grid::get_random_empty_cell(game.grid)
}

} // verus!
