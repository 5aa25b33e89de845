//! Strategy dispatch: the closed set of move providers, the mapping
//! from a numeric player id to one of them, decimal parsing for such
//! ids, and the driving of whole games between two strategies.

use vstd::prelude::*;
use vstd::string::StrSliceExecFns;

use crate::ai::{mcts, minimax, random, simple};
use crate::game::{self, Game, GameResult, Player, Turn};
use crate::grid::{self, Cell, Grid};

verus! {

pub type PlayerId = i8;

pub const MCTS: PlayerId = 0;

pub const RANDOM: PlayerId = 1;

pub const MINIMAX: PlayerId = 2;

pub const SIMPLE: PlayerId = 3;

pub const USER: PlayerId = 4;

/// The closed set of move providers.  `User` stands for the human
/// player whose cells arrive from outside; all others are automated.
#[derive(PartialEq, Eq, Structural, Clone, Copy, Debug)]
pub enum Strategy {
    Mcts,
    Random,
    Minimax,
    Simple,
    User,
}

/// The strategy a numeric player id denotes.
pub open spec fn spec_strategy_of(id: int) -> Strategy {
    if id == 0 {
        Strategy::Mcts
    } else if id == 1 {
        Strategy::Random
    } else if id == 2 {
        Strategy::Minimax
    } else if id == 3 {
        Strategy::Simple
    } else {
        Strategy::User
    }
}

/// Resolves a player id to its strategy, display name and the id back.
pub fn get_player(id: PlayerId) -> (r: (Strategy, &'static str, PlayerId))
    requires
        0 <= id <= 4,
    ensures
        r.0 == spec_strategy_of(id as int),
        r.2 == id,
        id == 0 ==> r.1@ == "mcts"@,
        id == 1 ==> r.1@ == "random"@,
        id == 2 ==> r.1@ == "minimax"@,
        id == 3 ==> r.1@ == "simple"@,
        id == 4 ==> r.1@ == "user"@,
{
    match id {
        0 => (Strategy::Mcts, "mcts", MCTS),
        1 => (Strategy::Random, "random", RANDOM),
        2 => (Strategy::Minimax, "minimax", MINIMAX),
        3 => (Strategy::Simple, "simple", SIMPLE),
        _ => (Strategy::User, "user", USER),
    }
}

/// True iff the id denotes an automated strategy rather than the
/// human player.
pub fn is_ai_player(player: PlayerId) -> (b: bool)
    requires
        0 <= player <= 4,
    ensures
        b == (spec_strategy_of(player as int) != Strategy::User),
{
    player != USER
}

/// The character is a decimal digit.
pub open spec fn is_digit(c: char) -> bool {
    48 <= c as u32 <= 57
}

pub open spec fn all_digits(s: Seq<char>) -> bool {
    forall|i: int| 0 <= i < s.len() ==> is_digit(#[trigger] s[i])
}

/// The number a digit string denotes, most significant digit first.
pub open spec fn digits_val(s: Seq<char>) -> int
    decreases s.len(),
{
    if s.len() == 0 {
        0
    } else {
        digits_val(s.drop_last()) * 10 + (s.last() as u32 - 48)
    }
}

/// The string opens with a minus sign.
pub open spec fn spec_is_negative(s: Seq<char>) -> bool {
    s.len() > 0 && s[0] == '-'
}

/// How many characters the sign takes: one for a leading plus or
/// minus, else none.
pub open spec fn spec_sign_len(s: Seq<char>) -> int {
    if s.len() > 0 && (s[0] == '-' || s[0] == '+') {
        1
    } else {
        0
    }
}

/// The digit part of the string, after any sign.
pub open spec fn digits_of(s: Seq<char>) -> Seq<char> {
    s.skip(spec_sign_len(s))
}

/// The string is exactly what `str::parse::<i8>` accepts: an optional
/// sign, then one or more digits, denoting a value in the i8 range.
pub open spec fn is_i8_decimal(s: Seq<char>) -> bool {
    let ds = digits_of(s);
    &&& ds.len() >= 1
    &&& all_digits(ds)
    &&& (if spec_is_negative(s) {
        digits_val(ds) <= 128
    } else {
        digits_val(ds) <= 127
    })
}

/// The value such a string denotes.
pub open spec fn spec_parse_i8(s: Seq<char>) -> int {
    if spec_is_negative(s) {
        -digits_val(digits_of(s))
    } else {
        digits_val(digits_of(s))
    }
}

/// A digit string's value is nonnegative.
proof fn lemma_digits_val_nonneg(s: Seq<char>)
    requires
        all_digits(s),
    ensures
        digits_val(s) >= 0,
    decreases s.len(),
{
    if s.len() > 0 {
        assert(is_digit(s[s.len() - 1]));
        assert(all_digits(s.drop_last())) by {
            assert(forall|i: int| 0 <= i < s.len() - 1 ==> s.drop_last()[i] == #[trigger] s[i]);
        }
        lemma_digits_val_nonneg(s.drop_last());
    }
}

/// Extending a digit string by further digits never shrinks its value.
proof fn lemma_digits_val_mono(s: Seq<char>, j: int)
    requires
        all_digits(s),
        0 <= j <= s.len(),
    ensures
        digits_val(s.take(j)) <= digits_val(s),
    decreases s.len() - j,
{
    if j == s.len() {
        assert(s.take(j) =~= s);
    } else {
        lemma_digits_val_mono(s, j + 1);
        assert(s.take(j + 1).drop_last() =~= s.take(j));
        assert(s.take(j + 1).last() == s[j]);
        assert(all_digits(s.take(j))) by {
            assert(forall|i: int| 0 <= i < j ==> s.take(j)[i] == #[trigger] s[i]);
        }
        lemma_digits_val_nonneg(s.take(j));
        assert(is_digit(s[j]));
    }
}

/// Parses a decimal i8 exactly as `str::parse::<i8>` would: `Some`
/// for an optional sign followed by digits denoting a value in range,
/// `None` for everything else.
#[verifier::loop_isolation(false)]
pub fn try_parse_i8(s: &str) -> (r: Option<i8>)
    ensures
        r is Some <==> is_i8_decimal(s@),
        r is Some ==> r->0 as int == spec_parse_i8(s@),
{
    let n = s.unicode_len();
    if n == 0 {
        return None;
    }
    let c0 = s.get_char(0);
    let start: usize = if c0 == '-' || c0 == '+' {
        1
    } else {
        0
    };
    let neg = c0 == '-';
    if n == start {
        return None;
    }
    let ghost ds = digits_of(s@);
    proof {
        assert(ds =~= s@.skip(start as int));
    }
    let mut val: u32 = 0;
    let mut i: usize = start;
    while i < n
        invariant
            start <= i <= n,
            val <= 128,
            all_digits(ds.take(i - start)),
            val as int == digits_val(ds.take(i - start)),
        decreases n - i,
    {
        let c = s.get_char(i);
        let d = c as u32;
        proof {
            assert(ds[i - start] == s@[i as int]);
            assert(ds.take(i - start + 1).drop_last() =~= ds.take(i - start));
            assert(ds.take(i - start + 1).last() == ds[i - start]);
        }
        if d < 48 || d > 57 {
            proof {
                assert(!is_digit(ds[i - start]));
            }
            return None;
        }
        val = val * 10 + (d - 48);
        proof {
            assert(all_digits(ds.take(i - start + 1))) by {
                assert(forall|m: int|
                    0 <= m < i - start + 1 ==> ds.take(i - start + 1)[m] == #[trigger] ds[m]);
                assert(forall|m: int| 0 <= m < i - start ==> is_digit(#[trigger] ds.take(i
                    - start)[m]));
            }
        }
        if val > 128 {
            proof {
                assert(ds.take(i - start + 1 as int) =~= ds.take(i - start + 1));
                if all_digits(ds) {
                    lemma_digits_val_mono(ds, i - start + 1);
                }
            }
            return None;
        }
        i = i + 1;
    }
    proof {
        assert(ds.take(n - start) =~= ds);
    }
    if neg {
        let v: i32 = val as i32;
        Some((-v) as i8)
    } else {
        if val > 127 {
            return None;
        }
        Some(val as i8)
    }
}

/// Reads a player id from an optional command-line argument.  The
/// argument must be present and hold a decimal i8, as the program
/// treats anything else as a fatal usage error.
pub fn get_player_id_from_argument(argument: Option<String>) -> (id: PlayerId)
    requires
        argument is Some,
        is_i8_decimal(argument->0@),
    ensures
        id as int == spec_parse_i8(argument->0@),
{
    match argument {
        Some(s) => {
            match try_parse_i8(s.as_str()) {
                Some(id) => id,
                None => vstd::pervasive::unreached(),
            }
        },
        None => vstd::pervasive::unreached(),
    }
}

/// Lets the given automated strategy choose a cell for the snapshot.
pub fn decide(strategy: Strategy, game_arg: &Game) -> (r: Cell)
    requires
        strategy != Strategy::User,
        game::game_ok(*game_arg),
        grid::spec_result(game_arg.grid, game_arg.turn as int) == GameResult::Continue,
    ensures
        grid::spec_is_empty(game_arg.grid, r),
{
    proof {
        grid::lemma_not_full_has_empty(game_arg.grid);
    }
    match strategy {
        Strategy::Mcts => mcts::mcts(game_arg),
        Strategy::Random => random::find_best_move(game_arg),
        Strategy::Minimax => minimax::find_best_move(game_arg),
        Strategy::Simple => simple::find_best_move(game_arg),
        Strategy::User => vstd::pervasive::unreached(),
    }
}

/// Plays one full game between two automated strategies from the
/// empty board, and returns the final snapshot with its terminal
/// classification.
pub fn play_game(player_x: Strategy, player_o: Strategy) -> (r: (Grid, Turn, GameResult))
    requires
        player_x != Strategy::User,
        player_o != Strategy::User,
    ensures
        game::reachable(r.0, r.1 as int),
        game::snapshot_ok(r.0, r.1 as int),
        r.2 == grid::spec_result(r.0, r.1 as int),
        r.2 != GameResult::Continue,
{
    proof {
        grid::lemma_empty_grid_valid();
        grid::lemma_empty_grid_blank();
    }
    let mut game_state = Game { grid: grid::EMPTY, turn: game::TURN_MIN };
    loop
        invariant
            player_x != Strategy::User,
            player_o != Strategy::User,
            game::game_ok(game_state),
            game::reachable(game_state.grid, game_state.turn as int),
        decreases 9 - game_state.turn as int,
    {
        let result = grid::get_result(game_state.grid, game_state.turn);
        if result != GameResult::Continue {
            return (game_state.grid, game_state.turn, result);
        }
        let player = game::get_player_from_turn(game_state.turn);
        let strategy = if player == Player::X {
            player_x
        } else {
            player_o
        };
        let cell = decide(strategy, &game_state);
        proof {
            grid::lemma_mark_keeps_valid(game_state.grid, cell, player);
            grid::lemma_mark_count(game_state.grid, cell, player);
        }
        let ghost prior = game_state;
        game_state = Game {
            grid: grid::mark(game_state.grid, cell, player),
            turn: game_state.turn + 1,
        };
        proof {
            assert(grid::spec_mark(
                prior.grid,
                cell,
                game::spec_player_from_turn(game_state.turn as int - 1),
            ) == game_state.grid);
        }
    }
}

/// Plays a batch of games between two automated strategies and counts
/// how many each side won and how many were drawn.
pub fn run_series(player_x: Strategy, player_o: Strategy, games: u32) -> (r: (u32, u32, u32))
    requires
        player_x != Strategy::User,
        player_o != Strategy::User,
    ensures
        r.0 as int + r.1 as int + r.2 as int == games as int,
{
    let mut x_win: u32 = 0;
    let mut o_win: u32 = 0;
    let mut draw: u32 = 0;
    let mut played: u32 = 0;
    while played < games
        invariant
            player_x != Strategy::User,
            player_o != Strategy::User,
            played <= games,
            x_win as int + o_win as int + draw as int == played as int,
        decreases games - played,
    {
        let (_, _, result) = play_game(player_x, player_o);
        match result {
            GameResult::XWin => x_win = x_win + 1,
            GameResult::OWin => o_win = o_win + 1,
            _ => draw = draw + 1,
        }
        played = played + 1;
    }
    (x_win, o_win, draw)
}

} // verus!
