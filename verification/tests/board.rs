//! Tests of the board encoding, terminal detection and cell helpers.

use tictactoe::game::{GameResult, Player};
use tictactoe::grid::{
    cell_char, cell_from_number, get_empty_cells, get_random_empty_cell, get_result, is_cell_empty,
    mark, Cell, Grid, EMPTY,
};

fn all_cells() -> Vec<Cell> {
    vec![
        Cell::TopLeft,
        Cell::TopMiddle,
        Cell::TopRight,
        Cell::MiddleLeft,
        Cell::MiddleMiddle,
        Cell::MiddleRight,
        Cell::BottomLeft,
        Cell::BottomMiddle,
        Cell::BottomRight,
    ]
}

/// A full board with no winning line:
///   x o x
///   x o o
///   o x x
fn drawn_board() -> Grid {
    let mut g = EMPTY;
    g = mark(g, Cell::TopLeft, Player::X);
    g = mark(g, Cell::TopMiddle, Player::O);
    g = mark(g, Cell::TopRight, Player::X);
    g = mark(g, Cell::MiddleLeft, Player::X);
    g = mark(g, Cell::MiddleMiddle, Player::O);
    g = mark(g, Cell::MiddleRight, Player::O);
    g = mark(g, Cell::BottomLeft, Player::O);
    g = mark(g, Cell::BottomMiddle, Player::X);
    g = mark(g, Cell::BottomRight, Player::X);
    g
}

#[test]
fn mark_round_trip_every_cell_and_player() {
    for player in [Player::X, Player::O] {
        for cell in all_cells() {
            let marked = mark(EMPTY, cell, player);
            assert!(!is_cell_empty(marked, cell));
            for other in all_cells() {
                if other != cell {
                    assert!(is_cell_empty(marked, other));
                }
            }
        }
    }
}

#[test]
fn empty_board_is_all_empty() {
    for cell in all_cells() {
        assert!(is_cell_empty(EMPTY, cell));
    }
    assert_eq!(get_result(EMPTY, 0), GameResult::Continue);
}

#[test]
fn empty_cells_follow_scan_order() {
    let cells = get_empty_cells(EMPTY);
    assert_eq!(
        cells,
        vec![
            Cell::MiddleMiddle,
            Cell::TopLeft,
            Cell::TopRight,
            Cell::BottomLeft,
            Cell::BottomRight,
            Cell::TopMiddle,
            Cell::MiddleLeft,
            Cell::MiddleRight,
            Cell::BottomMiddle,
        ]
    );
    let g = mark(EMPTY, Cell::MiddleMiddle, Player::X);
    let cells = get_empty_cells(g);
    assert_eq!(cells.len(), 8);
    assert!(!cells.contains(&Cell::MiddleMiddle));
}

#[test]
fn every_x_line_wins() {
    let lines = [
        [Cell::TopLeft, Cell::TopMiddle, Cell::TopRight],
        [Cell::MiddleLeft, Cell::MiddleMiddle, Cell::MiddleRight],
        [Cell::BottomLeft, Cell::BottomMiddle, Cell::BottomRight],
        [Cell::TopLeft, Cell::MiddleLeft, Cell::BottomLeft],
        [Cell::TopMiddle, Cell::MiddleMiddle, Cell::BottomMiddle],
        [Cell::TopRight, Cell::MiddleRight, Cell::BottomRight],
        [Cell::TopLeft, Cell::MiddleMiddle, Cell::BottomRight],
        [Cell::TopRight, Cell::MiddleMiddle, Cell::BottomLeft],
    ];
    for line in lines {
        let mut g = EMPTY;
        for cell in line {
            g = mark(g, cell, Player::X);
        }
        // The winner is reported whatever the turn counter says.
        assert_eq!(get_result(g, 3), GameResult::XWin);
        assert_eq!(get_result(g, 5), GameResult::XWin);
        assert_eq!(get_result(g, 9), GameResult::XWin);
    }
}

#[test]
fn every_o_line_wins() {
    let lines = [
        [Cell::TopLeft, Cell::TopMiddle, Cell::TopRight],
        [Cell::MiddleLeft, Cell::MiddleMiddle, Cell::MiddleRight],
        [Cell::BottomLeft, Cell::BottomMiddle, Cell::BottomRight],
        [Cell::TopLeft, Cell::MiddleLeft, Cell::BottomLeft],
        [Cell::TopMiddle, Cell::MiddleMiddle, Cell::BottomMiddle],
        [Cell::TopRight, Cell::MiddleRight, Cell::BottomRight],
        [Cell::TopLeft, Cell::MiddleMiddle, Cell::BottomRight],
        [Cell::TopRight, Cell::MiddleMiddle, Cell::BottomLeft],
    ];
    for line in lines {
        let mut g = EMPTY;
        for cell in line {
            g = mark(g, cell, Player::O);
        }
        assert_eq!(get_result(g, 6), GameResult::OWin);
        assert_eq!(get_result(g, 9), GameResult::OWin);
    }
}

#[test]
fn full_board_without_line_is_a_draw() {
    let g = drawn_board();
    assert_eq!(get_result(g, 9), GameResult::Draw);
    // Below the full turn count the same board still reads as ongoing.
    assert_eq!(get_result(g, 8), GameResult::Continue);
}

#[test]
fn end_to_end_top_row_scenario() {
    // A plays top-left, B middle-middle, A top-middle, B bottom-right,
    // A top-right: a win for A exactly at the last mark, not before.
    let mut g = EMPTY;
    let moves = [
        (Cell::TopLeft, Player::X),
        (Cell::MiddleMiddle, Player::O),
        (Cell::TopMiddle, Player::X),
        (Cell::BottomRight, Player::O),
        (Cell::TopRight, Player::X),
    ];
    let mut turn: i8 = 0;
    for (cell, player) in moves {
        assert_eq!(get_result(g, turn), GameResult::Continue);
        g = mark(g, cell, player);
        turn += 1;
    }
    assert_eq!(get_result(g, turn), GameResult::XWin);
}

#[test]
fn random_empty_cell_is_the_single_hole() {
    // Exercises the randomness wrapper: with one empty cell the drawn
    // index must be zero, which fails if the wrapper echoed its bound.
    let mut g = EMPTY;
    g = mark(g, Cell::TopLeft, Player::X);
    g = mark(g, Cell::TopMiddle, Player::O);
    g = mark(g, Cell::TopRight, Player::X);
    g = mark(g, Cell::MiddleLeft, Player::X);
    g = mark(g, Cell::MiddleMiddle, Player::O);
    g = mark(g, Cell::MiddleRight, Player::O);
    g = mark(g, Cell::BottomLeft, Player::O);
    g = mark(g, Cell::BottomMiddle, Player::X);
    for _ in 0..20 {
        assert_eq!(get_random_empty_cell(g), Cell::BottomRight);
    }
}

#[test]
fn cell_char_shows_owner() {
    let g = mark(mark(EMPTY, Cell::TopLeft, Player::X), Cell::MiddleMiddle, Player::O);
    assert_eq!(cell_char(g, Cell::TopLeft), 'x');
    assert_eq!(cell_char(g, Cell::MiddleMiddle), 'o');
    assert_eq!(cell_char(g, Cell::BottomRight), ' ');
}

#[test]
fn cell_from_number_is_keypad_order() {
    assert_eq!(cell_from_number(1), Cell::BottomLeft);
    assert_eq!(cell_from_number(2), Cell::BottomMiddle);
    assert_eq!(cell_from_number(3), Cell::BottomRight);
    assert_eq!(cell_from_number(4), Cell::MiddleLeft);
    assert_eq!(cell_from_number(5), Cell::MiddleMiddle);
    assert_eq!(cell_from_number(6), Cell::MiddleRight);
    assert_eq!(cell_from_number(7), Cell::TopLeft);
    assert_eq!(cell_from_number(8), Cell::TopMiddle);
    assert_eq!(cell_from_number(9), Cell::TopRight);
}
