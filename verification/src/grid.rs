//! The packed board: 18 bits of occupancy, one bit per cell and player.
//!
//! Bits 0-8 record player X's marks, bits 9-17 player O's marks, both in
//! the fixed cell order top-left, top-middle, top-right, middle-left,
//! middle-middle, middle-right, bottom-left, bottom-middle, bottom-right.

use vstd::prelude::*;

use crate::game::{GameResult, Player, Turn};

verus! {

pub type Grid = u32;

/// The board with no marks.
pub const EMPTY: Grid = 0;

/// The nine board positions, in board reading order.
#[derive(PartialEq, Eq, Structural, Clone, Copy, Debug)]
pub enum Cell {
    TopLeft,
    TopMiddle,
    TopRight,
    MiddleLeft,
    MiddleMiddle,
    MiddleRight,
    BottomLeft,
    BottomMiddle,
    BottomRight,
}

pub const CELL_X_TOP_LEFT: Grid = 0b000_000_000_000_000_001;

pub const CELL_X_TOP_MIDDLE: Grid = 0b000_000_000_000_000_010;

pub const CELL_X_TOP_RIGHT: Grid = 0b000_000_000_000_000_100;

pub const CELL_X_MIDDLE_LEFT: Grid = 0b000_000_000_000_001_000;

pub const CELL_X_MIDDLE_MIDDLE: Grid = 0b000_000_000_000_010_000;

pub const CELL_X_MIDDLE_RIGHT: Grid = 0b000_000_000_000_100_000;

pub const CELL_X_BOTTOM_LEFT: Grid = 0b000_000_000_001_000_000;

pub const CELL_X_BOTTOM_MIDDLE: Grid = 0b000_000_000_010_000_000;

pub const CELL_X_BOTTOM_RIGHT: Grid = 0b000_000_000_100_000_000;

pub const CELL_O_TOP_LEFT: Grid = 0b000_000_001_000_000_000;

pub const CELL_O_TOP_MIDDLE: Grid = 0b000_000_010_000_000_000;

pub const CELL_O_TOP_RIGHT: Grid = 0b000_000_100_000_000_000;

pub const CELL_O_MIDDLE_LEFT: Grid = 0b000_001_000_000_000_000;

pub const CELL_O_MIDDLE_MIDDLE: Grid = 0b000_010_000_000_000_000;

pub const CELL_O_MIDDLE_RIGHT: Grid = 0b000_100_000_000_000_000;

pub const CELL_O_BOTTOM_LEFT: Grid = 0b001_000_000_000_000_000;

pub const CELL_O_BOTTOM_MIDDLE: Grid = 0b010_000_000_000_000_000;

pub const CELL_O_BOTTOM_RIGHT: Grid = 0b100_000_000_000_000_000;

/// The bit recording player X's mark in the given cell.
pub open spec fn cell_x_mask(cell: Cell) -> Grid {
    match cell {
        Cell::TopLeft => CELL_X_TOP_LEFT,
        Cell::TopMiddle => CELL_X_TOP_MIDDLE,
        Cell::TopRight => CELL_X_TOP_RIGHT,
        Cell::MiddleLeft => CELL_X_MIDDLE_LEFT,
        Cell::MiddleMiddle => CELL_X_MIDDLE_MIDDLE,
        Cell::MiddleRight => CELL_X_MIDDLE_RIGHT,
        Cell::BottomLeft => CELL_X_BOTTOM_LEFT,
        Cell::BottomMiddle => CELL_X_BOTTOM_MIDDLE,
        Cell::BottomRight => CELL_X_BOTTOM_RIGHT,
    }
}

/// The bit recording player O's mark in the given cell.
pub open spec fn cell_o_mask(cell: Cell) -> Grid {
    match cell {
        Cell::TopLeft => CELL_O_TOP_LEFT,
        Cell::TopMiddle => CELL_O_TOP_MIDDLE,
        Cell::TopRight => CELL_O_TOP_RIGHT,
        Cell::MiddleLeft => CELL_O_MIDDLE_LEFT,
        Cell::MiddleMiddle => CELL_O_MIDDLE_MIDDLE,
        Cell::MiddleRight => CELL_O_MIDDLE_RIGHT,
        Cell::BottomLeft => CELL_O_BOTTOM_LEFT,
        Cell::BottomMiddle => CELL_O_BOTTOM_MIDDLE,
        Cell::BottomRight => CELL_O_BOTTOM_RIGHT,
    }
}

/// Both players' bits for the given cell.
pub open spec fn cell_xo_mask(cell: Cell) -> Grid {
    cell_x_mask(cell) | cell_o_mask(cell)
}

/// The bit the given player sets when marking the given cell.
pub open spec fn player_mask(cell: Cell, player: Player) -> Grid {
    match player {
        Player::X => cell_x_mask(cell),
        Player::O => cell_o_mask(cell),
    }
}

/// The board after the given player claims the given cell.
pub open spec fn spec_mark(g: Grid, cell: Cell, player: Player) -> Grid {
    g | player_mask(cell, player)
}

/// Neither player has a mark in the given cell.
pub open spec fn spec_is_empty(g: Grid, cell: Cell) -> bool {
    g & cell_xo_mask(cell) == 0
}

/// Well-formed board: only the low 18 bits are used and no cell carries
/// both players' marks.
pub open spec fn valid_grid(g: Grid) -> bool {
    &&& g < 0x40000
    &&& ((g & 0x1FF) & (g >> 9)) == 0
}

/// 1 if the cell holds a mark, else 0.
pub open spec fn occ(g: Grid, cell: Cell) -> int {
    if spec_is_empty(g, cell) {
        0
    } else {
        1
    }
}

/// How many of the nine cells hold a mark.
pub open spec fn count_occupied(g: Grid) -> int {
    occ(g, Cell::TopLeft) + occ(g, Cell::TopMiddle) + occ(g, Cell::TopRight) + occ(
        g,
        Cell::MiddleLeft,
    ) + occ(g, Cell::MiddleMiddle) + occ(g, Cell::MiddleRight) + occ(g, Cell::BottomLeft) + occ(
        g,
        Cell::BottomMiddle,
    ) + occ(g, Cell::BottomRight)
}

pub const X_WIN_TOP_LEFT_TO_BOTTOM_RIGHT: Grid = 0b000_000_000_100_010_001;

pub const X_WIN_TOP_RIGHT_TO_BOTTOM_LEFT: Grid = 0b000_000_000_001_010_100;

pub const X_WIN_TOP_ROW: Grid = 0b000_000_000_000_000_111;

pub const X_WIN_MIDDLE_ROW: Grid = 0b000_000_000_000_111_000;

pub const X_WIN_BOTTOM_ROW: Grid = 0b000_000_000_111_000_000;

pub const X_WIN_LEFT_COLUMN: Grid = 0b000_000_000_001_001_001;

pub const X_WIN_MIDDLE_COLUMN: Grid = 0b000_000_000_010_010_010;

pub const X_WIN_RIGHT_COLUMN: Grid = 0b000_000_000_100_100_100;

pub const O_WIN_TOP_LEFT_TO_BOTTOM_RIGHT: Grid = 0b100_010_001_000_000_000;

pub const O_WIN_TOP_RIGHT_TO_BOTTOM_LEFT: Grid = 0b001_010_100_000_000_000;

pub const O_WIN_TOP_ROW: Grid = 0b000_000_111_000_000_000;

pub const O_WIN_MIDDLE_ROW: Grid = 0b000_111_000_000_000_000;

pub const O_WIN_BOTTOM_ROW: Grid = 0b111_000_000_000_000_000;

pub const O_WIN_LEFT_COLUMN: Grid = 0b001_001_001_000_000_000;

pub const O_WIN_MIDDLE_COLUMN: Grid = 0b010_010_010_000_000_000;

pub const O_WIN_RIGHT_COLUMN: Grid = 0b100_100_100_000_000_000;

/// Player X has fully covered one of the eight winning lines.
pub open spec fn x_wins(g: Grid) -> bool {
    ||| g & X_WIN_TOP_LEFT_TO_BOTTOM_RIGHT == X_WIN_TOP_LEFT_TO_BOTTOM_RIGHT
    ||| g & X_WIN_TOP_RIGHT_TO_BOTTOM_LEFT == X_WIN_TOP_RIGHT_TO_BOTTOM_LEFT
    ||| g & X_WIN_TOP_ROW == X_WIN_TOP_ROW
    ||| g & X_WIN_MIDDLE_ROW == X_WIN_MIDDLE_ROW
    ||| g & X_WIN_BOTTOM_ROW == X_WIN_BOTTOM_ROW
    ||| g & X_WIN_LEFT_COLUMN == X_WIN_LEFT_COLUMN
    ||| g & X_WIN_MIDDLE_COLUMN == X_WIN_MIDDLE_COLUMN
    ||| g & X_WIN_RIGHT_COLUMN == X_WIN_RIGHT_COLUMN
}

/// Player O has fully covered one of the eight winning lines.
pub open spec fn o_wins(g: Grid) -> bool {
    ||| g & O_WIN_TOP_LEFT_TO_BOTTOM_RIGHT == O_WIN_TOP_LEFT_TO_BOTTOM_RIGHT
    ||| g & O_WIN_TOP_RIGHT_TO_BOTTOM_LEFT == O_WIN_TOP_RIGHT_TO_BOTTOM_LEFT
    ||| g & O_WIN_TOP_ROW == O_WIN_TOP_ROW
    ||| g & O_WIN_MIDDLE_ROW == O_WIN_MIDDLE_ROW
    ||| g & O_WIN_BOTTOM_ROW == O_WIN_BOTTOM_ROW
    ||| g & O_WIN_LEFT_COLUMN == O_WIN_LEFT_COLUMN
    ||| g & O_WIN_MIDDLE_COLUMN == O_WIN_MIDDLE_COLUMN
    ||| g & O_WIN_RIGHT_COLUMN == O_WIN_RIGHT_COLUMN
}

/// Classification of a board plus turn counter: X's lines are checked
/// first, then O's; a full turn counter with no line means a draw.
pub open spec fn spec_result(g: Grid, turn: int) -> GameResult {
    if x_wins(g) {
        GameResult::XWin
    } else if o_wins(g) {
        GameResult::OWin
    } else if turn == 9 {
        GameResult::Draw
    } else {
        GameResult::Continue
    }
}

/// Classifies a board: a win for whichever player covers a line (X's
/// lines checked first), a draw once the turn counter is full, else the
/// game continues.
pub fn get_result(grid: Grid, turn: Turn) -> (r: GameResult)
    ensures
        r == spec_result(grid, turn as int),
{
    if grid & X_WIN_TOP_LEFT_TO_BOTTOM_RIGHT == X_WIN_TOP_LEFT_TO_BOTTOM_RIGHT
        || grid & X_WIN_TOP_RIGHT_TO_BOTTOM_LEFT == X_WIN_TOP_RIGHT_TO_BOTTOM_LEFT
        || grid & X_WIN_TOP_ROW == X_WIN_TOP_ROW || grid & X_WIN_MIDDLE_ROW == X_WIN_MIDDLE_ROW
        || grid & X_WIN_BOTTOM_ROW == X_WIN_BOTTOM_ROW
        || grid & X_WIN_LEFT_COLUMN == X_WIN_LEFT_COLUMN
        || grid & X_WIN_MIDDLE_COLUMN == X_WIN_MIDDLE_COLUMN
        || grid & X_WIN_RIGHT_COLUMN == X_WIN_RIGHT_COLUMN {
        GameResult::XWin
    } else if grid & O_WIN_TOP_LEFT_TO_BOTTOM_RIGHT == O_WIN_TOP_LEFT_TO_BOTTOM_RIGHT
        || grid & O_WIN_TOP_RIGHT_TO_BOTTOM_LEFT == O_WIN_TOP_RIGHT_TO_BOTTOM_LEFT
        || grid & O_WIN_TOP_ROW == O_WIN_TOP_ROW || grid & O_WIN_MIDDLE_ROW == O_WIN_MIDDLE_ROW
        || grid & O_WIN_BOTTOM_ROW == O_WIN_BOTTOM_ROW
        || grid & O_WIN_LEFT_COLUMN == O_WIN_LEFT_COLUMN
        || grid & O_WIN_MIDDLE_COLUMN == O_WIN_MIDDLE_COLUMN
        || grid & O_WIN_RIGHT_COLUMN == O_WIN_RIGHT_COLUMN {
        GameResult::OWin
    } else if turn == crate::game::TURN_MAX {
        GameResult::Draw
    } else {
        GameResult::Continue
    }
}

/// Sets the given player's bit for the given cell.  The caller
/// guarantees the cell is empty; the function does not re-check it.
pub fn mark(grid: Grid, cell: Cell, player: Player) -> (r: Grid)
    requires
        spec_is_empty(grid, cell),
    ensures
        r == spec_mark(grid, cell, player),
{
    match player {
        Player::X => match cell {
            Cell::TopLeft => grid | CELL_X_TOP_LEFT,
            Cell::TopMiddle => grid | CELL_X_TOP_MIDDLE,
            Cell::TopRight => grid | CELL_X_TOP_RIGHT,
            Cell::MiddleLeft => grid | CELL_X_MIDDLE_LEFT,
            Cell::MiddleMiddle => grid | CELL_X_MIDDLE_MIDDLE,
            Cell::MiddleRight => grid | CELL_X_MIDDLE_RIGHT,
            Cell::BottomLeft => grid | CELL_X_BOTTOM_LEFT,
            Cell::BottomMiddle => grid | CELL_X_BOTTOM_MIDDLE,
            Cell::BottomRight => grid | CELL_X_BOTTOM_RIGHT,
        },
        Player::O => match cell {
            Cell::TopLeft => grid | CELL_O_TOP_LEFT,
            Cell::TopMiddle => grid | CELL_O_TOP_MIDDLE,
            Cell::TopRight => grid | CELL_O_TOP_RIGHT,
            Cell::MiddleLeft => grid | CELL_O_MIDDLE_LEFT,
            Cell::MiddleMiddle => grid | CELL_O_MIDDLE_MIDDLE,
            Cell::MiddleRight => grid | CELL_O_MIDDLE_RIGHT,
            Cell::BottomLeft => grid | CELL_O_BOTTOM_LEFT,
            Cell::BottomMiddle => grid | CELL_O_BOTTOM_MIDDLE,
            Cell::BottomRight => grid | CELL_O_BOTTOM_RIGHT,
        },
    }
}

/// Position of the cell's player-X bit; the player-O bit sits nine
/// places higher.
pub open spec fn cell_index(cell: Cell) -> u32 {
    match cell {
        Cell::TopLeft => 0,
        Cell::TopMiddle => 1,
        Cell::TopRight => 2,
        Cell::MiddleLeft => 3,
        Cell::MiddleMiddle => 4,
        Cell::MiddleRight => 5,
        Cell::BottomLeft => 6,
        Cell::BottomMiddle => 7,
        Cell::BottomRight => 8,
    }
}

/// Position of the cell's player-O bit: nine above the player-X bit.
pub open spec fn cell_o_index(cell: Cell) -> u32 {
    match cell {
        Cell::TopLeft => 9,
        Cell::TopMiddle => 10,
        Cell::TopRight => 11,
        Cell::MiddleLeft => 12,
        Cell::MiddleMiddle => 13,
        Cell::MiddleRight => 14,
        Cell::BottomLeft => 15,
        Cell::BottomMiddle => 16,
        Cell::BottomRight => 17,
    }
}

/// Each cell-mask constant is the single bit at the cell's index, and
/// the all-zero board is well formed.
proof fn lemma_masks_are_bits()
    ensures
        forall|c: Cell| #[trigger] cell_x_mask(c) == 1u32 << cell_index(c),
        forall|c: Cell| #[trigger] cell_o_mask(c) == 1u32 << cell_o_index(c),
        forall|c: Cell| #[trigger] cell_o_index(c) == cell_index(c) + 9,
        forall|c: Cell| #[trigger] cell_index(c) < 9,
        valid_grid(EMPTY),
{
    assert(0b000_000_000_000_000_001u32 == 1u32 << 0 && 0b000_000_000_000_000_010u32 == 1u32 << 1
        && 0b000_000_000_000_000_100u32 == 1u32 << 2 && 0b000_000_000_000_001_000u32 == 1u32 << 3
        && 0b000_000_000_000_010_000u32 == 1u32 << 4 && 0b000_000_000_000_100_000u32 == 1u32 << 5
        && 0b000_000_000_001_000_000u32 == 1u32 << 6 && 0b000_000_000_010_000_000u32 == 1u32 << 7
        && 0b000_000_000_100_000_000u32 == 1u32 << 8 && 0b000_000_001_000_000_000u32 == 1u32 << 9
        && 0b000_000_010_000_000_000u32 == 1u32 << 10 && 0b000_000_100_000_000_000u32 == 1u32
        << 11 && 0b000_001_000_000_000_000u32 == 1u32 << 12 && 0b000_010_000_000_000_000u32
        == 1u32 << 13 && 0b000_100_000_000_000_000u32 == 1u32 << 14
        && 0b001_000_000_000_000_000u32 == 1u32 << 15 && 0b010_000_000_000_000_000u32 == 1u32
        << 16 && 0b100_000_000_000_000_000u32 == 1u32 << 17 && ((0u32 & 0x1FFu32) & (0u32 >> 9u32))
        == 0u32 && 0u32 < 0x40000u32) by (bit_vector);
    assert forall|c: Cell| #[trigger] cell_x_mask(c) == 1u32 << cell_index(c) by {
        match c {
            Cell::TopLeft => {},
            Cell::TopMiddle => {},
            Cell::TopRight => {},
            Cell::MiddleLeft => {},
            Cell::MiddleMiddle => {},
            Cell::MiddleRight => {},
            Cell::BottomLeft => {},
            Cell::BottomMiddle => {},
            Cell::BottomRight => {},
        }
    }
    assert forall|c: Cell| #[trigger] cell_o_mask(c) == 1u32 << cell_o_index(c) by {
        match c {
            Cell::TopLeft => {},
            Cell::TopMiddle => {},
            Cell::TopRight => {},
            Cell::MiddleLeft => {},
            Cell::MiddleMiddle => {},
            Cell::MiddleRight => {},
            Cell::BottomLeft => {},
            Cell::BottomMiddle => {},
            Cell::BottomRight => {},
        }
    }
    assert forall|c: Cell| #[trigger] cell_o_index(c) == cell_index(c) + 9 && #[trigger] cell_index(
        c,
    ) < 9 by {
        match c {
            Cell::TopLeft => {},
            Cell::TopMiddle => {},
            Cell::TopRight => {},
            Cell::MiddleLeft => {},
            Cell::MiddleMiddle => {},
            Cell::MiddleRight => {},
            Cell::BottomLeft => {},
            Cell::BottomMiddle => {},
            Cell::BottomRight => {},
        }
    }
}

/// Distinct single bits do not overlap, and a single bit is absorbed by
/// any union containing it.
proof fn lemma_single_bits(i: u32, j: u32)
    requires
        i < 32,
        j < 32,
        i != j,
    ensures
        (1u32 << i) != 0,
        (1u32 << i) & (1u32 << j) == 0,
        (1u32 << i) & ((1u32 << i) | (1u32 << j)) == (1u32 << i),
        (1u32 << i) & ((1u32 << j) | (1u32 << i)) == (1u32 << i),
{
    assert((1u32 << i) != 0 && (1u32 << i) & (1u32 << j) == 0 && (1u32 << i) & ((1u32 << i) | (1u32
        << j)) == (1u32 << i) && (1u32 << i) & ((1u32 << j) | (1u32 << i)) == (1u32
        << i)) by (bit_vector)
        requires
            i < 32,
            j < 32,
            i != j,
    ;
}

/// A single bit is disjoint from the union of two other single bits.
proof fn lemma_bit_vs_pair(a: u32, b: u32, c: u32)
    requires
        a < 32,
        b < 32,
        c < 32,
        a != b,
        a != c,
    ensures
        (1u32 << a) & ((1u32 << b) | (1u32 << c)) == 0,
{
    assert((1u32 << a) & ((1u32 << b) | (1u32 << c)) == 0) by (bit_vector)
        requires
            a < 32,
            b < 32,
            c < 32,
            a != b,
            a != c,
    ;
}

/// Setting bits disjoint from a mask leaves the masked view unchanged.
proof fn lemma_or_disjoint(g: u32, m: u32, k: u32)
    requires
        m & k == 0,
    ensures
        (g | m) & k == g & k,
{
    assert((g | m) & k == g & k) by (bit_vector)
        requires
            m & k == 0,
    ;
}

/// Setting bits inside a mask makes the masked view nonzero.
proof fn lemma_or_hits(g: u32, m: u32, k: u32)
    requires
        m & k == m,
        m != 0,
    ensures
        (g | m) & k != 0,
{
    assert((g | m) & k != 0) by (bit_vector)
        requires
            m & k == m,
            m != 0,
    ;
}

/// Setting one player's bit of a cell whose two bits are both clear
/// keeps the board well formed.
proof fn lemma_or_keeps_valid(g: u32, i: u32, oi: u32, m: u32)
    requires
        ((g & 0x1FF) & (g >> 9)) == 0,
        g < 0x40000,
        i < 9,
        oi == i + 9,
        m == (1u32 << i) || m == (1u32 << oi),
        g & ((1u32 << i) | (1u32 << oi)) == 0,
    ensures
        (((g | m) & 0x1FF) & ((g | m) >> 9)) == 0,
        (g | m) < 0x40000,
{
    assert((((g | m) & 0x1FF) & ((g | m) >> 9)) == 0 && (g | m) < 0x40000) by (bit_vector)
        requires
            ((g & 0x1FF) & (g >> 9)) == 0,
            g < 0x40000,
            i < 9,
            oi == i + 9,
            m == (1u32 << i) || m == (1u32 << oi),
            g & ((1u32 << i) | (1u32 << oi)) == 0,
    ;
}

/// Conjunction with the zero board clears every mask.
proof fn lemma_zero_and(m: u32)
    ensures
        0u32 & m == 0,
{
    assert(0u32 & m == 0) by (bit_vector);
}

/// The empty board has no marks anywhere.
pub proof fn lemma_empty_grid_blank()
    ensures
        forall|c: Cell| spec_is_empty(EMPTY, c),
        count_occupied(EMPTY) == 0,
{
    assert forall|c: Cell| spec_is_empty(EMPTY, c) by {
        lemma_zero_and(cell_xo_mask(c));
    }
}

/// The empty board is well formed.
pub proof fn lemma_empty_grid_valid()
    ensures
        valid_grid(EMPTY),
{
    lemma_masks_are_bits();
}

/// After a player marks an empty cell, that cell is occupied.
pub proof fn lemma_mark_fills_cell(g: Grid, cell: Cell, player: Player)
    ensures
        !spec_is_empty(spec_mark(g, cell, player), cell),
{
    lemma_masks_are_bits();
    let i = cell_index(cell);
    let oi = cell_o_index(cell);
    lemma_single_bits(i, oi);
    lemma_single_bits(oi, i);
    match player {
        Player::X => lemma_or_hits(g, 1u32 << i, (1u32 << i) | (1u32 << oi)),
        Player::O => lemma_or_hits(g, 1u32 << oi, (1u32 << i) | (1u32 << oi)),
    }
}

/// Marking one cell does not change whether any other cell is empty.
pub proof fn lemma_mark_keeps_others(g: Grid, cell: Cell, other: Cell, player: Player)
    requires
        other != cell,
    ensures
        spec_is_empty(spec_mark(g, cell, player), other) == spec_is_empty(g, other),
{
    lemma_masks_are_bits();
    let i = cell_index(cell);
    let oi = cell_o_index(cell);
    let j = cell_index(other);
    let oj = cell_o_index(other);
    assert(i != j);
    match player {
        Player::X => {
            lemma_bit_vs_pair(i, j, oj);
            lemma_or_disjoint(g, 1u32 << i, (1u32 << j) | (1u32 << oj));
        },
        Player::O => {
            lemma_bit_vs_pair(oi, j, oj);
            lemma_or_disjoint(g, 1u32 << oi, (1u32 << j) | (1u32 << oj));
        },
    }
}

/// Marking an empty cell of a well-formed board yields a well-formed
/// board: no cell ever carries both players' bits.
pub proof fn lemma_mark_keeps_valid(g: Grid, cell: Cell, player: Player)
    requires
        valid_grid(g),
        spec_is_empty(g, cell),
    ensures
        valid_grid(spec_mark(g, cell, player)),
{
    lemma_masks_are_bits();
    let i = cell_index(cell);
    let oi = cell_o_index(cell);
    match player {
        Player::X => lemma_or_keeps_valid(g, i, oi, 1u32 << i),
        Player::O => lemma_or_keeps_valid(g, i, oi, 1u32 << oi),
    }
}

/// Marking an empty cell raises the occupancy count by exactly one.
pub proof fn lemma_mark_count(g: Grid, cell: Cell, player: Player)
    requires
        spec_is_empty(g, cell),
    ensures
        count_occupied(spec_mark(g, cell, player)) == count_occupied(g) + 1,
{
    lemma_mark_fills_cell(g, cell, player);
    if cell != Cell::TopLeft {
        lemma_mark_keeps_others(g, cell, Cell::TopLeft, player);
    }
    if cell != Cell::TopMiddle {
        lemma_mark_keeps_others(g, cell, Cell::TopMiddle, player);
    }
    if cell != Cell::TopRight {
        lemma_mark_keeps_others(g, cell, Cell::TopRight, player);
    }
    if cell != Cell::MiddleLeft {
        lemma_mark_keeps_others(g, cell, Cell::MiddleLeft, player);
    }
    if cell != Cell::MiddleMiddle {
        lemma_mark_keeps_others(g, cell, Cell::MiddleMiddle, player);
    }
    if cell != Cell::MiddleRight {
        lemma_mark_keeps_others(g, cell, Cell::MiddleRight, player);
    }
    if cell != Cell::BottomLeft {
        lemma_mark_keeps_others(g, cell, Cell::BottomLeft, player);
    }
    if cell != Cell::BottomMiddle {
        lemma_mark_keeps_others(g, cell, Cell::BottomMiddle, player);
    }
    if cell != Cell::BottomRight {
        lemma_mark_keeps_others(g, cell, Cell::BottomRight, player);
    }
}

/// True iff neither player has a mark in the given cell.
pub fn is_cell_empty(grid: Grid, cell: Cell) -> (r: bool)
    ensures
        r == spec_is_empty(grid, cell),
{
    match cell {
        Cell::TopLeft => grid & (CELL_X_TOP_LEFT | CELL_O_TOP_LEFT) == 0,
        Cell::TopMiddle => grid & (CELL_X_TOP_MIDDLE | CELL_O_TOP_MIDDLE) == 0,
        Cell::TopRight => grid & (CELL_X_TOP_RIGHT | CELL_O_TOP_RIGHT) == 0,
        Cell::MiddleLeft => grid & (CELL_X_MIDDLE_LEFT | CELL_O_MIDDLE_LEFT) == 0,
        Cell::MiddleMiddle => grid & (CELL_X_MIDDLE_MIDDLE | CELL_O_MIDDLE_MIDDLE) == 0,
        Cell::MiddleRight => grid & (CELL_X_MIDDLE_RIGHT | CELL_O_MIDDLE_RIGHT) == 0,
        Cell::BottomLeft => grid & (CELL_X_BOTTOM_LEFT | CELL_O_BOTTOM_LEFT) == 0,
        Cell::BottomMiddle => grid & (CELL_X_BOTTOM_MIDDLE | CELL_O_BOTTOM_MIDDLE) == 0,
        Cell::BottomRight => grid & (CELL_X_BOTTOM_RIGHT | CELL_O_BOTTOM_RIGHT) == 0,
    }
}

/// The fixed scan order every strategy uses to consider candidate
/// cells: center first, then corners, then edges.
pub open spec fn scan_order() -> Seq<Cell> {
    seq![
        Cell::MiddleMiddle,
        Cell::TopLeft,
        Cell::TopRight,
        Cell::BottomLeft,
        Cell::BottomRight,
        Cell::TopMiddle,
        Cell::MiddleLeft,
        Cell::MiddleRight,
        Cell::BottomMiddle,
    ]
}

/// The scan order has nine entries, one per cell.
pub proof fn lemma_scan_order_cells()
    ensures
        scan_order().len() == 9,
        scan_order()[0] == Cell::MiddleMiddle,
        scan_order()[1] == Cell::TopLeft,
        scan_order()[2] == Cell::TopRight,
        scan_order()[3] == Cell::BottomLeft,
        scan_order()[4] == Cell::BottomRight,
        scan_order()[5] == Cell::TopMiddle,
        scan_order()[6] == Cell::MiddleLeft,
        scan_order()[7] == Cell::MiddleRight,
        scan_order()[8] == Cell::BottomMiddle,
{
}

/// The empty cells among the first `n` cells of `cells`, kept in order.
pub open spec fn empties_prefix(g: Grid, cells: Seq<Cell>, n: int) -> Seq<Cell>
    decreases n,
{
    if n <= 0 {
        Seq::empty()
    } else {
        let rest = empties_prefix(g, cells, n - 1);
        if spec_is_empty(g, cells[n - 1]) {
            rest.push(cells[n - 1])
        } else {
            rest
        }
    }
}

/// The empty cells of the board, in scan order.
pub open spec fn spec_empty_cells(g: Grid) -> Seq<Cell> {
    empties_prefix(g, scan_order(), 9)
}

/// Every cell listed by `empties_prefix` is empty.
proof fn lemma_empties_prefix_empty(g: Grid, cells: Seq<Cell>, n: int)
    ensures
        forall|k: int|
            0 <= k < empties_prefix(g, cells, n).len() ==> spec_is_empty(
                g,
                #[trigger] empties_prefix(g, cells, n)[k],
            ),
    decreases n,
{
    if n > 0 {
        lemma_empties_prefix_empty(g, cells, n - 1);
        let rest = empties_prefix(g, cells, n - 1);
        let s = empties_prefix(g, cells, n);
        if spec_is_empty(g, cells[n - 1]) {
            assert forall|k: int| 0 <= k < s.len() implies spec_is_empty(g, s[k]) by {
                if k < rest.len() {
                    assert(s[k] == rest[k]);
                } else {
                    assert(s[k] == cells[n - 1]);
                }
            }
        }
    }
}

/// `empties_prefix` lists every empty cell among the first `n`.
proof fn lemma_empties_prefix_mem(g: Grid, cells: Seq<Cell>, n: int, j: int)
    requires
        0 <= j < n,
        spec_is_empty(g, cells[j]),
    ensures
        empties_prefix(g, cells, n).contains(cells[j]),
    decreases n,
{
    let rest = empties_prefix(g, cells, n - 1);
    if j == n - 1 {
        assert(empties_prefix(g, cells, n) == rest.push(cells[n - 1]));
        assert(empties_prefix(g, cells, n)[rest.len() as int] == cells[j]);
    } else {
        lemma_empties_prefix_mem(g, cells, n - 1, j);
        let w = choose|w: int| 0 <= w < rest.len() && rest[w] == cells[j];
        assert(empties_prefix(g, cells, n)[w] == cells[j]);
    }
}

/// There are never more empty cells than cells scanned.
proof fn lemma_empties_prefix_len(g: Grid, cells: Seq<Cell>, n: int)
    ensures
        empties_prefix(g, cells, n).len() <= if n >= 0 {
            n
        } else {
            0
        },
    decreases n,
{
    if n > 0 {
        lemma_empties_prefix_len(g, cells, n - 1);
    }
}

/// A board offers at most nine empty cells.
pub proof fn lemma_empty_cells_len(g: Grid)
    ensures
        spec_empty_cells(g).len() <= 9,
{
    lemma_empties_prefix_len(g, scan_order(), 9);
}

/// Every cell of the empty-cell list is in fact empty.
pub proof fn lemma_empty_cells_are_empty(g: Grid)
    ensures
        forall|k: int|
            0 <= k < spec_empty_cells(g).len() ==> spec_is_empty(
                g,
                #[trigger] spec_empty_cells(g)[k],
            ),
{
    lemma_empties_prefix_empty(g, scan_order(), 9);
}

/// Every empty cell appears in the empty-cell list.
pub proof fn lemma_empty_cells_complete(g: Grid, c: Cell)
    requires
        spec_is_empty(g, c),
    ensures
        spec_empty_cells(g).contains(c),
{
    let s = scan_order();
    match c {
        Cell::MiddleMiddle => lemma_empties_prefix_mem(g, s, 9, 0),
        Cell::TopLeft => lemma_empties_prefix_mem(g, s, 9, 1),
        Cell::TopRight => lemma_empties_prefix_mem(g, s, 9, 2),
        Cell::BottomLeft => lemma_empties_prefix_mem(g, s, 9, 3),
        Cell::BottomRight => lemma_empties_prefix_mem(g, s, 9, 4),
        Cell::TopMiddle => lemma_empties_prefix_mem(g, s, 9, 5),
        Cell::MiddleLeft => lemma_empties_prefix_mem(g, s, 9, 6),
        Cell::MiddleRight => lemma_empties_prefix_mem(g, s, 9, 7),
        Cell::BottomMiddle => lemma_empties_prefix_mem(g, s, 9, 8),
    }
}

/// A board with fewer than nine marks has an empty cell to offer.
pub proof fn lemma_not_full_has_empty(g: Grid)
    requires
        count_occupied(g) < 9,
    ensures
        spec_empty_cells(g).len() > 0,
{
    if spec_is_empty(g, Cell::TopLeft) {
        lemma_empty_cells_complete(g, Cell::TopLeft);
    } else if spec_is_empty(g, Cell::TopMiddle) {
        lemma_empty_cells_complete(g, Cell::TopMiddle);
    } else if spec_is_empty(g, Cell::TopRight) {
        lemma_empty_cells_complete(g, Cell::TopRight);
    } else if spec_is_empty(g, Cell::MiddleLeft) {
        lemma_empty_cells_complete(g, Cell::MiddleLeft);
    } else if spec_is_empty(g, Cell::MiddleMiddle) {
        lemma_empty_cells_complete(g, Cell::MiddleMiddle);
    } else if spec_is_empty(g, Cell::MiddleRight) {
        lemma_empty_cells_complete(g, Cell::MiddleRight);
    } else if spec_is_empty(g, Cell::BottomLeft) {
        lemma_empty_cells_complete(g, Cell::BottomLeft);
    } else if spec_is_empty(g, Cell::BottomMiddle) {
        lemma_empty_cells_complete(g, Cell::BottomMiddle);
    } else if spec_is_empty(g, Cell::BottomRight) {
        lemma_empty_cells_complete(g, Cell::BottomRight);
    } else {
        assert(count_occupied(g) == 9);
    }
}

/// Lists the empty cells of the board in the fixed scan order: center
/// first, then corners, then edges.
pub fn get_empty_cells(grid: Grid) -> (cells: Vec<Cell>)
    ensures
        cells@ == spec_empty_cells(grid),
{
    proof {
        lemma_scan_order_cells();
    }
    let mut cells: Vec<Cell> = Vec::with_capacity(9);
    assert(cells@ =~= empties_prefix(grid, scan_order(), 0));
    if is_cell_empty(grid, Cell::MiddleMiddle) {
        cells.push(Cell::MiddleMiddle);
    }
    assert(cells@ =~= empties_prefix(grid, scan_order(), 1));
    if is_cell_empty(grid, Cell::TopLeft) {
        cells.push(Cell::TopLeft);
    }
    assert(cells@ =~= empties_prefix(grid, scan_order(), 2));
    if is_cell_empty(grid, Cell::TopRight) {
        cells.push(Cell::TopRight);
    }
    assert(cells@ =~= empties_prefix(grid, scan_order(), 3));
    if is_cell_empty(grid, Cell::BottomLeft) {
        cells.push(Cell::BottomLeft);
    }
    assert(cells@ =~= empties_prefix(grid, scan_order(), 4));
    if is_cell_empty(grid, Cell::BottomRight) {
        cells.push(Cell::BottomRight);
    }
    assert(cells@ =~= empties_prefix(grid, scan_order(), 5));
    if is_cell_empty(grid, Cell::TopMiddle) {
        cells.push(Cell::TopMiddle);
    }
    assert(cells@ =~= empties_prefix(grid, scan_order(), 6));
    if is_cell_empty(grid, Cell::MiddleLeft) {
        cells.push(Cell::MiddleLeft);
    }
    assert(cells@ =~= empties_prefix(grid, scan_order(), 7));
    if is_cell_empty(grid, Cell::MiddleRight) {
        cells.push(Cell::MiddleRight);
    }
    assert(cells@ =~= empties_prefix(grid, scan_order(), 8));
    if is_cell_empty(grid, Cell::BottomMiddle) {
        cells.push(Cell::BottomMiddle);
    }
    assert(cells@ =~= empties_prefix(grid, scan_order(), 9));
    cells
}

/// Relies on rand's `thread_rng` and `Rng::gen_range`: returns a value
/// of the half-open range `0..n`, and panics only when the range is
/// empty.
#[verifier::external_body]
pub(crate) fn random_below(n: usize) -> (r: usize)
    requires
        0 < n,
    ensures
        r < n,
{
    rand::Rng::gen_range(&mut rand::thread_rng(), 0..n)
}

/// Picks one of the board's empty cells uniformly at random.
pub fn get_random_empty_cell(grid: Grid) -> (r: Cell)
    requires
        spec_empty_cells(grid).len() > 0,
    ensures
        spec_is_empty(grid, r),
{
    proof {
        lemma_empty_cells_are_empty(grid);
    }
    let cells = get_empty_cells(grid);
    let i = random_below(cells.len());
    cells[i]
}

/// The character a rendering shows for the given cell: the owner's
/// letter, or a space for an empty cell.
pub open spec fn spec_cell_char(g: Grid, cell: Cell) -> char {
    if g & cell_xo_mask(cell) == cell_x_mask(cell) {
        'x'
    } else if g & cell_xo_mask(cell) == cell_o_mask(cell) {
        'o'
    } else {
        ' '
    }
}

/// Returns 'x' or 'o' for a claimed cell and a space for an empty one.
pub fn cell_char(grid: Grid, cell: Cell) -> (c: char)
    ensures
        c == spec_cell_char(grid, cell),
{
    match cell {
        Cell::TopLeft => match grid & (CELL_X_TOP_LEFT | CELL_O_TOP_LEFT) {
            CELL_X_TOP_LEFT => 'x',
            CELL_O_TOP_LEFT => 'o',
            _ => ' ',
        },
        Cell::TopMiddle => match grid & (CELL_X_TOP_MIDDLE | CELL_O_TOP_MIDDLE) {
            CELL_X_TOP_MIDDLE => 'x',
            CELL_O_TOP_MIDDLE => 'o',
            _ => ' ',
        },
        Cell::TopRight => match grid & (CELL_X_TOP_RIGHT | CELL_O_TOP_RIGHT) {
            CELL_X_TOP_RIGHT => 'x',
            CELL_O_TOP_RIGHT => 'o',
            _ => ' ',
        },
        Cell::MiddleLeft => match grid & (CELL_X_MIDDLE_LEFT | CELL_O_MIDDLE_LEFT) {
            CELL_X_MIDDLE_LEFT => 'x',
            CELL_O_MIDDLE_LEFT => 'o',
            _ => ' ',
        },
        Cell::MiddleMiddle => match grid & (CELL_X_MIDDLE_MIDDLE | CELL_O_MIDDLE_MIDDLE) {
            CELL_X_MIDDLE_MIDDLE => 'x',
            CELL_O_MIDDLE_MIDDLE => 'o',
            _ => ' ',
        },
        Cell::MiddleRight => match grid & (CELL_X_MIDDLE_RIGHT | CELL_O_MIDDLE_RIGHT) {
            CELL_X_MIDDLE_RIGHT => 'x',
            CELL_O_MIDDLE_RIGHT => 'o',
            _ => ' ',
        },
        Cell::BottomLeft => match grid & (CELL_X_BOTTOM_LEFT | CELL_O_BOTTOM_LEFT) {
            CELL_X_BOTTOM_LEFT => 'x',
            CELL_O_BOTTOM_LEFT => 'o',
            _ => ' ',
        },
        Cell::BottomMiddle => match grid & (CELL_X_BOTTOM_MIDDLE | CELL_O_BOTTOM_MIDDLE) {
            CELL_X_BOTTOM_MIDDLE => 'x',
            CELL_O_BOTTOM_MIDDLE => 'o',
            _ => ' ',
        },
        Cell::BottomRight => match grid & (CELL_X_BOTTOM_RIGHT | CELL_O_BOTTOM_RIGHT) {
            CELL_X_BOTTOM_RIGHT => 'x',
            CELL_O_BOTTOM_RIGHT => 'o',
            _ => ' ',
        },
    }
}

/// The cell a one-based keypad number denotes: 1-3 the bottom row, 4-6
/// the middle row, 7-9 the top row, each left to right.
pub open spec fn spec_cell_from_number(n: int) -> Cell {
    if n == 1 {
        Cell::BottomLeft
    } else if n == 2 {
        Cell::BottomMiddle
    } else if n == 3 {
        Cell::BottomRight
    } else if n == 4 {
        Cell::MiddleLeft
    } else if n == 5 {
        Cell::MiddleMiddle
    } else if n == 6 {
        Cell::MiddleRight
    } else if n == 7 {
        Cell::TopLeft
    } else if n == 8 {
        Cell::TopMiddle
    } else {
        Cell::TopRight
    }
}

/// Maps a keypad number in `[1, 9]` to its cell.
pub fn cell_from_number(number: i8) -> (c: Cell)
    requires
        1 <= number <= 9,
    ensures
        c == spec_cell_from_number(number as int),
{
    match number {
        1 => Cell::BottomLeft,
        2 => Cell::BottomMiddle,
        3 => Cell::BottomRight,
        4 => Cell::MiddleLeft,
        5 => Cell::MiddleMiddle,
        6 => Cell::MiddleRight,
        7 => Cell::TopLeft,
        8 => Cell::TopMiddle,
        _ => Cell::TopRight,
    }
}

} // verus!
