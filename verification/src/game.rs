//! Game-level data: players, turn counter, the result of classifying a
//! board, and the snapshot type that every strategy consumes.

use vstd::prelude::*;

use crate::grid;
use crate::grid::Grid;

verus! {

/// Turn counter: number of marks placed so far, in `[0, TURN_MAX]`.
/// Even turn means player X moves next, odd turn means player O.
pub type Turn = i8;

pub const TURN_MAX: Turn = 9;

pub const TURN_MIN: Turn = 0;

#[derive(PartialEq, Eq, Structural, Clone, Copy, Debug)]
pub enum Player {
    X,
    O,
}

/// Classification of a snapshot: the game goes on, ended in a draw, or
/// one of the players has completed a line.
#[derive(PartialEq, Eq, Structural, Clone, Copy, Debug)]
pub enum GameResult {
    Continue,
    Draw,
    XWin,
    OWin,
}

/// One snapshot of a game: the packed board plus the turn counter.
#[derive(Clone, Copy, Debug)]
pub struct Game {
    pub grid: Grid,
    pub turn: Turn,
}

/// The player whose move it is at the given turn: X on even turns, O on odd.
pub open spec fn spec_player_from_turn(turn: int) -> Player {
    if turn % 2 == 0 {
        Player::X
    } else {
        Player::O
    }
}

/// A snapshot a strategy may be asked about: a well-formed board whose
/// mark count does not exceed the turn counter, so that a non-terminal
/// board always offers an empty cell.
pub open spec fn snapshot_ok(g: Grid, turn: int) -> bool {
    &&& grid::valid_grid(g)
    &&& 0 <= turn <= 9
    &&& grid::count_occupied(g) <= turn
}

pub open spec fn game_ok(game: Game) -> bool {
    snapshot_ok(game.grid, game.turn as int)
}

/// A snapshot the game can actually reach: the empty board at turn
/// zero, or one legal mark made on a reachable, still-running board.
pub open spec fn reachable(g: Grid, turn: int) -> bool
    decreases turn,
{
    if turn == 0 {
        g == grid::EMPTY
    } else if turn < 0 {
        false
    } else {
        exists|g0: Grid, c: grid::Cell|
            {
                &&& #[trigger] grid::spec_mark(g0, c, spec_player_from_turn(turn - 1)) == g
                &&& reachable(g0, turn - 1)
                &&& grid::spec_is_empty(g0, c)
                &&& grid::spec_result(g0, turn - 1) == GameResult::Continue
            }
    }
}

pub fn get_player_from_turn(turn: Turn) -> (p: Player)
    requires
        0 <= turn,
    ensures
        p == spec_player_from_turn(turn as int),
{
    if turn % 2 == 0 {
        Player::X
    } else {
        Player::O
    }
}

} // verus!
