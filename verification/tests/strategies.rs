//! Tests of the four strategies and the game driver.

use tictactoe::ai::mcts::{isqrt, ln_fp, log2_fp, mcts, simulate, uct};
use tictactoe::ai::minimax::{find_best_move as minimax_move, minimax};
use tictactoe::ai::random::find_best_move as random_move;
use tictactoe::ai::simple::find_best_move as simple_move;
use tictactoe::ai::{DRAW, X_WIN};
use tictactoe::game::{Game, GameResult, Player};
use tictactoe::grid::{is_cell_empty, mark, Cell, EMPTY};
use tictactoe::players::{play_game, run_series, Strategy};

#[test]
fn minimax_values_the_empty_board_a_draw() {
    // Perfect play from the empty board ends drawn.
    assert_eq!(minimax(EMPTY, 0, 0), DRAW);
}

#[test]
fn minimax_scores_an_immediate_win_highest() {
    // A with two in the top row takes the third cell for the full win
    // score, undiscounted because the win is immediate.
    let mut g = EMPTY;
    g = mark(g, Cell::TopLeft, Player::X);
    g = mark(g, Cell::TopMiddle, Player::X);
    g = mark(g, Cell::MiddleMiddle, Player::O);
    let won = mark(g, Cell::TopRight, Player::X);
    assert_eq!(minimax(won, 3, 0), X_WIN);
}

#[test]
fn minimax_selects_the_forced_win() {
    // A at top-left and top-middle, B at middle-middle, A to move:
    // completing the top row is the only best move.
    let mut g = EMPTY;
    g = mark(g, Cell::TopLeft, Player::X);
    g = mark(g, Cell::TopMiddle, Player::X);
    g = mark(g, Cell::MiddleMiddle, Player::O);
    let game = Game { grid: g, turn: 2 };
    assert_eq!(minimax_move(&game), Cell::TopRight);
}

#[test]
fn minimax_blocks_a_losing_row() {
    // B threatens the middle row; as the mover, B-aware minimax play
    // for X must take the blocking cell.
    let mut g = EMPTY;
    g = mark(g, Cell::MiddleLeft, Player::O);
    g = mark(g, Cell::MiddleMiddle, Player::O);
    g = mark(g, Cell::TopLeft, Player::X);
    g = mark(g, Cell::BottomRight, Player::X);
    let game = Game { grid: g, turn: 4 };
    assert_eq!(minimax_move(&game), Cell::MiddleRight);
}

#[test]
fn heuristic_takes_the_immediate_win() {
    // The mover has two in a row with the third cell open.
    let mut g = EMPTY;
    g = mark(g, Cell::TopLeft, Player::X);
    g = mark(g, Cell::TopMiddle, Player::X);
    g = mark(g, Cell::MiddleMiddle, Player::O);
    g = mark(g, Cell::BottomLeft, Player::O);
    let game = Game { grid: g, turn: 4 };
    assert_eq!(simple_move(&game), Cell::TopRight);
}

#[test]
fn heuristic_blocks_the_opponent() {
    // No immediate win for the mover, but the opponent completes the
    // middle row next move: the heuristic must block it.
    let mut g = EMPTY;
    g = mark(g, Cell::TopLeft, Player::X);
    g = mark(g, Cell::BottomRight, Player::X);
    g = mark(g, Cell::MiddleLeft, Player::O);
    g = mark(g, Cell::MiddleMiddle, Player::O);
    let game = Game { grid: g, turn: 4 };
    assert_eq!(simple_move(&game), Cell::MiddleRight);
}

#[test]
fn heuristic_defaults_to_first_empty_in_scan_order() {
    // Nothing to win, nothing to block: the first scan-order cell (the
    // center) is taken.
    let game = Game { grid: EMPTY, turn: 0 };
    assert_eq!(simple_move(&game), Cell::MiddleMiddle);
}

#[test]
fn random_strategy_returns_an_empty_cell() {
    let mut g = EMPTY;
    g = mark(g, Cell::MiddleMiddle, Player::X);
    g = mark(g, Cell::TopLeft, Player::O);
    let game = Game { grid: g, turn: 2 };
    for _ in 0..50 {
        let cell = random_move(&game);
        assert!(is_cell_empty(g, cell));
    }
}

#[test]
fn simulation_always_ends_the_game() {
    for _ in 0..100 {
        assert_ne!(simulate(EMPTY, 0), GameResult::Continue);
    }
    // A terminal snapshot reports its own classification.
    let mut g = EMPTY;
    g = mark(g, Cell::TopLeft, Player::X);
    g = mark(g, Cell::TopMiddle, Player::X);
    g = mark(g, Cell::TopRight, Player::X);
    g = mark(g, Cell::MiddleLeft, Player::O);
    g = mark(g, Cell::MiddleMiddle, Player::O);
    assert_eq!(simulate(g, 5), GameResult::XWin);
}

#[test]
fn mcts_finds_the_forced_win_in_most_trials() {
    // A one-move forced win: the most-visited root child must be the
    // winning move in the large majority of trials.
    let mut g = EMPTY;
    g = mark(g, Cell::TopLeft, Player::X);
    g = mark(g, Cell::TopMiddle, Player::X);
    g = mark(g, Cell::BottomLeft, Player::O);
    g = mark(g, Cell::BottomMiddle, Player::O);
    let game = Game { grid: g, turn: 4 };
    let mut hits = 0;
    let trials = 20;
    for _ in 0..trials {
        if mcts(&game) == Cell::TopRight {
            hits += 1;
        }
    }
    assert!(hits * 100 >= trials * 95, "forced win found in {hits} of {trials} trials");
}

#[test]
fn mcts_returns_an_empty_cell() {
    let game = Game { grid: EMPTY, turn: 0 };
    let cell = mcts(&game);
    assert!(is_cell_empty(EMPTY, cell));
}

#[test]
fn perfect_play_always_draws() {
    let (x_wins, o_wins, draws) = run_series(Strategy::Minimax, Strategy::Minimax, 3);
    assert_eq!((x_wins, o_wins, draws), (0, 0, 3));
}

#[test]
fn minimax_never_loses_to_random() {
    let (_, o_wins, _) = run_series(Strategy::Minimax, Strategy::Random, 20);
    assert_eq!(o_wins, 0);
}

#[test]
fn heuristic_beats_random_for_a_full_game() {
    let (grid, turn, result) = play_game(Strategy::Simple, Strategy::Random);
    assert!(result != GameResult::Continue);
    assert!(turn >= 5 && turn <= 9);
    // The final board classifies as the reported result.
    assert_eq!(tictactoe::grid::get_result(grid, turn), result);
}

#[test]
fn fixed_point_helpers_match_hand_computed_values() {
    assert_eq!(isqrt(0), 0);
    assert_eq!(isqrt(15), 3);
    assert_eq!(isqrt(16), 4);
    assert_eq!(isqrt(5954138112), 77163);
    assert_eq!(log2_fp(1), 0);
    assert_eq!(log2_fp(2), 65536);
    assert_eq!(log2_fp(3), 98304);
    assert_eq!(log2_fp(8), 3 * 65536);
    assert_eq!(ln_fp(2), 45426);
    assert_eq!(ln_fp(8), 136278);
    assert_eq!(uct(1, 1, 2), 109930);
    assert_eq!(uct(2, 2, 8), 127272);
}

#[test]
fn random_play_keeps_one_mark_per_turn() {
    // Over whole random games, the final board carries exactly one
    // mark per elapsed turn: no cell was ever claimed twice.
    let cells = [
        Cell::TopLeft,
        Cell::TopMiddle,
        Cell::TopRight,
        Cell::MiddleLeft,
        Cell::MiddleMiddle,
        Cell::MiddleRight,
        Cell::BottomLeft,
        Cell::BottomMiddle,
        Cell::BottomRight,
    ];
    for _ in 0..30 {
        let (grid, turn, _) = play_game(Strategy::Random, Strategy::Random);
        let occupied = cells.iter().filter(|c| !is_cell_empty(grid, **c)).count();
        assert_eq!(occupied, turn as usize);
    }
}
