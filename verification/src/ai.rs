//! The move-selection strategies: exhaustive minimax, Monte-Carlo tree
//! search, a one-ply heuristic, and uniform-random choice.

use vstd::prelude::*;

pub mod mcts;
pub mod minimax;
pub mod random;
pub mod simple;

verus! {

pub type Depth = i8;

pub type Score = i8;

/// Best score for player X; terminal wins are depth-adjusted downward
/// from it, so faster wins score higher.
pub const X_WIN: Score = 32;

/// Best score for player O; terminal losses for X are depth-adjusted
/// upward from it, so slower losses score higher for X.
pub const O_WIN: Score = 0;

/// Midpoint score for a drawn game, halfway between the two win scores.
pub const DRAW: Score = 16;

} // verus!
