//! Monte-Carlo tree search with UCT selection.
//!
//! The tree is an arena of nodes addressed by index; parent and child
//! links are indices, the root sits at index 0.  Win credit is kept in
//! half-point units so a draw can add half a point, and the UCT score
//! is computed in 16.16 fixed point: an integer square root over a
//! piecewise-linear base-2 logarithm scaled by ln 2.

use vstd::prelude::*;

use crate::game::{self, Game, GameResult, Player, Turn};
use crate::grid::{self, Cell, Grid};

verus! {

/// The number of search iterations run for one decision.
pub const PLAYOUTS: usize = 8191;

/// The integer square root, built up one argument at a time.
pub open spec fn spec_isqrt(x: int) -> int
    decreases x,
{
    if x <= 0 {
        0
    } else {
        let r = spec_isqrt(x - 1);
        if (r + 1) * (r + 1) <= x {
            r + 1
        } else {
            r
        }
    }
}

/// `spec_isqrt(x)` is the unique nonnegative root whose square is at
/// most `x` while the next square exceeds it.
pub proof fn lemma_isqrt_props(x: int)
    requires
        0 <= x,
    ensures
        0 <= spec_isqrt(x),
        spec_isqrt(x) * spec_isqrt(x) <= x,
        x < (spec_isqrt(x) + 1) * (spec_isqrt(x) + 1),
    decreases x,
{
    if x == 0 {
    } else {
        lemma_isqrt_props(x - 1);
        let rp = spec_isqrt(x - 1);
        if (rp + 1) * (rp + 1) <= x {
            assert(x == (rp + 1) * (rp + 1)) by (nonlinear_arith)
                requires
                    rp * rp <= x - 1,
                    x - 1 < (rp + 1) * (rp + 1),
                    (rp + 1) * (rp + 1) <= x,
            ;
            assert((rp + 1) * (rp + 1) < (rp + 2) * (rp + 2)) by (nonlinear_arith)
                requires
                    0 <= rp,
            ;
        }
    }
}

/// Any value with the square-root property is the integer square root.
pub proof fn lemma_isqrt_unique(x: int, r: int)
    requires
        0 <= r,
        r * r <= x,
        x < (r + 1) * (r + 1),
    ensures
        r == spec_isqrt(x),
{
    lemma_isqrt_props(x);
    let s = spec_isqrt(x);
    if r < s {
        assert((r + 1) * (r + 1) <= s * s) by (nonlinear_arith)
            requires
                0 <= r,
                r + 1 <= s,
        ;
    }
    if s < r {
        assert((s + 1) * (s + 1) <= r * r) by (nonlinear_arith)
            requires
                0 <= s,
                s + 1 <= r,
        ;
    }
}

/// Computes the integer square root by binary search.
pub fn isqrt(x: u64) -> (r: u64)
    ensures
        r as int == spec_isqrt(x as int),
        r * r <= x,
{
    let mut lo: u64 = 0;
    let mut hi: u64 = 0x1_0000_0000;
    while lo + 1 < hi
        invariant
            lo < hi <= 0x1_0000_0000,
            (lo as int) * (lo as int) <= x as int,
            (hi as int) * (hi as int) > x as int,
        decreases hi - lo,
    {
        let mid = lo + (hi - lo) / 2;
        assert((mid as int) * (mid as int) < 0x1_0000_0000_0000_0000) by (nonlinear_arith)
            requires
                mid < 0x1_0000_0000u64,
        ;
        let sq = mid * mid;
        if sq <= x {
            lo = mid;
        } else {
            hi = mid;
        }
    }
    proof {
        lemma_isqrt_unique(x as int, lo as int);
    }
    lo
}

/// Two raised to the given power.
pub open spec fn pow2(k: nat) -> nat
    decreases k,
{
    if k == 0 {
        1
    } else {
        2 * pow2((k - 1) as nat)
    }
}

/// The floor of the base-2 logarithm.
pub open spec fn spec_log2(n: int) -> nat
    decreases n,
{
    if n < 2 {
        0
    } else {
        1 + spec_log2(n / 2)
    }
}

/// The floor logarithm is pinned by the power-of-two window around `n`.
proof fn lemma_log2_val(n: int, k: nat)
    requires
        pow2(k) <= n,
        n < 2 * pow2(k),
    ensures
        spec_log2(n) == k,
    decreases k,
{
    if k == 0 {
    } else {
        assert(pow2(k) == 2 * pow2((k - 1) as nat));
        lemma_log2_val(n / 2, (k - 1) as nat);
    }
}

/// The base-2 logarithm at the fixed-point scale, interpolated
/// linearly between neighbouring powers of two.
pub open spec fn spec_log2_fp(n: int) -> int {
    let k = spec_log2(n);
    k * 65536 + (n - pow2(k)) * 65536 / pow2(k) as int
}

/// Computes the fixed-point base-2 logarithm.
pub fn log2_fp(n: u64) -> (r: u64)
    requires
        1 <= n <= 0x1_0000_0000,
    ensures
        r as int == spec_log2_fp(n as int),
        r <= 33 * 65536,
{
    let mut k: u64 = 0;
    let mut p: u64 = 1;
    while 2 * p <= n
        invariant
            1 <= n <= 0x1_0000_0000,
            p as int == pow2(k as nat),
            1 <= p <= n,
            k <= 32,
        decreases n - p,
    {
        if k == 32 {
            proof {
                assert(pow2(32) == 0x1_0000_0000) by {
                    reveal_with_fuel(pow2, 33);
                }
            }
        }
        p = 2 * p;
        k = k + 1;
    }
    proof {
        lemma_log2_val(n as int, k as nat);
    }
    let frac = ((n - p) * 65536) / p;
    assert(frac < 65536) by (nonlinear_arith)
        requires
            0 < p,
            n < 2 * p,
            p <= n,
            frac as int == ((n as int - p as int) * 65536) / (p as int),
    ;
    k * 65536 + frac
}

/// The natural logarithm at the fixed-point scale, obtained from the
/// base-2 logarithm by one multiplication with ln 2.
pub open spec fn spec_ln_fp(n: int) -> int {
    spec_log2_fp(n) * 45426 / 65536
}

/// Computes the fixed-point natural logarithm.
pub fn ln_fp(n: u64) -> (r: u64)
    requires
        1 <= n <= 0x1_0000_0000,
    ensures
        r as int == spec_ln_fp(n as int),
        r <= 1500000,
{
    let l = log2_fp(n);
    (l * 45426) / 65536
}

/// The UCT score of a child at the fixed-point scale: the win rate
/// plus the exploration bonus `sqrt(2 ln(parent) / child)`.
pub open spec fn spec_uct(wins_half: u64, playouts: u64, parent_playouts: u64) -> int {
    wins_half * 65536 / (2 * playouts) + spec_isqrt(
        2 * 65536 * spec_ln_fp(parent_playouts as int) / playouts as int,
    )
}

/// Computes the fixed-point UCT score of a child node.
pub fn uct(wins_half: u64, playouts: u64, parent_playouts: u64) -> (r: u64)
    requires
        1 <= playouts <= parent_playouts,
        parent_playouts <= 0x1_0000_0000,
        wins_half <= 2 * playouts,
    ensures
        r as int == spec_uct(wins_half, playouts, parent_playouts),
{
    let exploit = (wins_half * 65536) / (2 * playouts);
    assert(exploit <= 65536) by (nonlinear_arith)
        requires
            1 <= playouts,
            wins_half <= 2 * playouts,
            exploit as int == (wins_half as int * 65536) / (2 * playouts as int),
    ;
    let l = ln_fp(parent_playouts);
    assert(2 * 65536 * (l as int) <= 196608000000int) by (nonlinear_arith)
        requires
            l <= 1500000,
    ;
    let num = 2 * 65536 * l;
    let q = num / playouts;
    assert(q <= num) by (nonlinear_arith)
        requires
            1 <= playouts,
            q as int == num as int / playouts as int,
    ;
    let explore = isqrt(q);
    assert(explore <= 500000) by (nonlinear_arith)
        requires
            explore as int * explore as int <= q as int,
            q <= 196608000000u64,
    ;
    exploit + explore
}

/// One node of the search-tree arena.  Children and parent are arena
/// indices; the root carries the parent sentinel.  Win credit is kept
/// in half points so a draw can add one half.
pub struct Node {
    pub childrens: Vec<usize>,
    pub parent: usize,
    pub wins_half: u32,
    pub playouts: u32,
    pub grid: Grid,
    pub turn: Turn,
}

/// The arena index of the root node.
pub const ROOT_NODE: usize = 0;

/// Parent links point strictly downward in the arena and the root
/// carries the sentinel.
pub open spec fn parents_ok(tree: Seq<Node>) -> bool {
    &&& 1 <= tree.len()
    &&& tree[0].parent == usize::MAX
    &&& forall|i: int| 1 <= i < tree.len() ==> (#[trigger] tree[i].parent) < i
}

/// The `k`-th child link of node `i` is consistent: it points upward
/// in the arena, back-links to `i`, and holds the snapshot obtained by
/// one legal move from `i`.
pub open spec fn child_link_ok(tree: Seq<Node>, i: int, k: int) -> bool {
    let c = tree[i].childrens@[k] as int;
    &&& i < c < tree.len()
    &&& tree[c].parent == i
    &&& tree[c].turn == tree[i].turn + 1
    &&& exists|cl: Cell|
        grid::spec_is_empty(tree[i].grid, cl) && tree[c].grid == grid::spec_mark(
            tree[i].grid,
            cl,
            game::spec_player_from_turn(tree[i].turn as int),
        )
}

pub open spec fn children_ok(tree: Seq<Node>) -> bool {
    forall|i: int, k: int|
        0 <= i < tree.len() && 0 <= k < tree[i].childrens@.len() ==> #[trigger] child_link_ok(
            tree,
            i,
            k,
        )
}

/// A node's snapshot a strategy could be asked about.
pub open spec fn node_snapshot_ok(node: Node) -> bool {
    &&& grid::valid_grid(node.grid)
    &&& 0 <= node.turn <= 9
    &&& grid::count_occupied(node.grid) <= node.turn as int
}

pub open spec fn snapshots_ok(tree: Seq<Node>) -> bool {
    forall|i: int| 0 <= i < tree.len() ==> node_snapshot_ok(#[trigger] tree[i])
}

/// Visit counts dominate win credit, never exceed the parent's visit
/// count, and the root's visit count tops them all.
pub open spec fn counters_ok(tree: Seq<Node>) -> bool {
    &&& forall|i: int|
        0 <= i < tree.len() ==> (#[trigger] tree[i].wins_half) <= 2 * tree[i].playouts
    &&& forall|i: int|
        1 <= i < tree.len() ==> (#[trigger] tree[i].playouts) <= tree[tree[i].parent as int].playouts
    &&& forall|i: int| 0 <= i < tree.len() ==> (#[trigger] tree[i].playouts) <= tree[0].playouts
}

/// A well-formed search tree.
pub open spec fn wf(tree: Seq<Node>) -> bool {
    &&& parents_ok(tree)
    &&& children_ok(tree)
    &&& snapshots_ok(tree)
    &&& counters_ok(tree)
}

/// An unvisited node has not been expanded yet.
pub open spec fn leaves_ok(tree: Seq<Node>) -> bool {
    forall|i: int|
        0 <= i < tree.len() ==> ((#[trigger] tree[i]).playouts == 0 ==> tree[i].childrens@.len()
            == 0)
}

/// Node `i` lies on the parent chain from `start` up to the root.
pub open spec fn on_path(tree: Seq<Node>, start: int, i: int) -> bool
    decreases start,
{
    if i == start {
        true
    } else if start <= 0 || start >= tree.len() || tree[start].parent as int >= start {
        false
    } else {
        on_path(tree, tree[start].parent as int, i)
    }
}

/// Path members never sit above the start of the path.
proof fn lemma_on_path_le(tree: Seq<Node>, start: int, i: int)
    requires
        on_path(tree, start, i),
    ensures
        i <= start,
    decreases start,
{
    if i != start {
        lemma_on_path_le(tree, tree[start].parent as int, i);
    }
}

/// The path relation only reads parent links, so trees with equal
/// parent links share it.
proof fn lemma_on_path_same(t1: Seq<Node>, t2: Seq<Node>, start: int, i: int)
    requires
        t1.len() == t2.len(),
        forall|j: int| 0 <= j < t1.len() ==> (#[trigger] t1[j].parent) == t2[j].parent,
    ensures
        on_path(t1, start, i) == on_path(t2, start, i),
    decreases start,
{
    if i != start && 0 < start < t1.len() && (t1[start].parent as int) < start {
        lemma_on_path_same(t1, t2, t1[start].parent as int, i);
    }
}

/// The root lies on every path that starts inside the arena.
proof fn lemma_on_path_root(tree: Seq<Node>, start: int)
    requires
        parents_ok(tree),
        0 <= start < tree.len(),
    ensures
        on_path(tree, start, 0),
    decreases start,
{
    if start != 0 {
        lemma_on_path_root(tree, tree[start].parent as int);
    }
}

/// Every non-root path member brings its parent onto the path.
proof fn lemma_on_path_parent(tree: Seq<Node>, start: int, i: int)
    requires
        parents_ok(tree),
        0 <= start < tree.len(),
        on_path(tree, start, i),
        1 <= i,
    ensures
        on_path(tree, start, tree[i as int].parent as int),
    decreases start,
{
    if i == start {
        assert(on_path(tree, tree[i].parent as int, tree[i].parent as int));
    } else {
        lemma_on_path_parent(tree, tree[start].parent as int, i);
    }
}

/// The half-point win credit a node earns from one simulation result:
/// one half for a draw, a full point when the winner is the player who
/// moved into the node (the opposite of the player to move there),
/// nothing otherwise.
pub open spec fn spec_credit(result: GameResult, turn: int) -> int {
    if result == GameResult::Draw {
        1
    } else {
        let player = game::spec_player_from_turn(turn);
        if (result == GameResult::XWin && player == Player::O) || (result == GameResult::OWin
            && player == Player::X) {
            2
        } else {
            0
        }
    }
}

/// Walks from the given node up to the root, incrementing each visit
/// count and adding the win credit the simulation result earns at each
/// node.
fn backpropagate(tree: &mut Vec<Node>, child: usize, result: GameResult)
    requires
        parents_ok(old(tree)@),
        child < old(tree)@.len(),
        forall|i: int| 0 <= i <= child ==> 0 <= (#[trigger] old(tree)@[i].turn),
        forall|i: int| 0 <= i <= child ==> (#[trigger] old(tree)@[i].playouts) < 0x4000_0000,
        forall|i: int| 0 <= i <= child ==> (#[trigger] old(tree)@[i].wins_half) < 0x4000_0000,
    ensures
        final(tree)@.len() == old(tree)@.len(),
        forall|i: int|
            0 <= i < final(tree)@.len() ==> {
                &&& (#[trigger] final(tree)@[i]).parent == old(tree)@[i].parent
                &&& final(tree)@[i].childrens@ == old(tree)@[i].childrens@
                &&& final(tree)@[i].grid == old(tree)@[i].grid
                &&& final(tree)@[i].turn == old(tree)@[i].turn
            },
        forall|i: int|
            0 <= i < final(tree)@.len() && on_path(old(tree)@, child as int, i) ==> {
                &&& (#[trigger] final(tree)@[i]).playouts == old(tree)@[i].playouts + 1
                &&& final(tree)@[i].wins_half == old(tree)@[i].wins_half + spec_credit(
                    result,
                    old(tree)@[i].turn as int,
                )
            },
        forall|i: int|
            0 <= i < final(tree)@.len() && !on_path(old(tree)@, child as int, i) ==> {
                &&& (#[trigger] final(tree)@[i]).playouts == old(tree)@[i].playouts
                &&& final(tree)@[i].wins_half == old(tree)@[i].wins_half
            },
    decreases child,
{
    tree[child].playouts = tree[child].playouts + 1;
    if result == GameResult::Draw {
        tree[child].wins_half = tree[child].wins_half + 1;
    } else {
        let player = game::get_player_from_turn(tree[child].turn);
        if (result == GameResult::XWin && player == Player::O) || (result == GameResult::OWin
            && player == Player::X) {
            tree[child].wins_half = tree[child].wins_half + 2;
        }
    }
    let parent = tree[child].parent;
    let ghost mid = tree@;
    proof {
        assert(on_path(old(tree)@, child as int, child as int));
    }
    if parent != usize::MAX {
        backpropagate(tree, parent, result);
        proof {
            assert forall|i: int| 0 <= i < tree@.len() implies on_path(
                mid,
                parent as int,
                i,
            ) == on_path(old(tree)@, parent as int, i) by {
                lemma_on_path_same(mid, old(tree)@, parent as int, i);
            }
            assert forall|i: int|
                0 <= i < tree@.len() && on_path(old(tree)@, child as int, i) && i != child implies on_path(
                old(tree)@,
                parent as int,
                i,
            ) by {}
            assert forall|i: int|
                0 <= i < tree@.len() && on_path(old(tree)@, parent as int, i) implies i
                < child as int by {
                lemma_on_path_le(old(tree)@, parent as int, i);
            }
        }
    } else {
        proof {
            assert(child == 0);
            assert forall|i: int|
                0 <= i < tree@.len() && on_path(old(tree)@, child as int, i) implies i == 0 by {
                lemma_on_path_le(old(tree)@, child as int, i);
            }
        }
    }
}

/// Descends from the root: stops at the first node with no children or
/// at a child that has never been visited; otherwise follows the child
/// with the best UCT score and keeps descending.
fn select(tree: &Vec<Node>) -> (leaf: usize)
    requires
        wf(tree@),
    ensures
        leaf < tree@.len(),
        tree@[leaf as int].childrens@.len() == 0 || tree@[leaf as int].playouts == 0,
{
    let mut leaf: usize = ROOT_NODE;
    loop
        invariant
            wf(tree@),
            leaf < tree@.len(),
        decreases tree@.len() - leaf,
    {
        let n = tree[leaf].childrens.len();
        if n == 0 {
            return leaf;
        }
        let parent_playouts = tree[leaf].playouts;
        let mut best: usize = leaf;
        let mut best_score: u64 = 0;
        let mut k: usize = 0;
        while k < n
            invariant
                wf(tree@),
                leaf < tree@.len(),
                n == tree@[leaf as int].childrens@.len(),
                k <= n,
                parent_playouts == tree@[leaf as int].playouts,
                k > 0 ==> leaf < best < tree@.len(),
            decreases n - k,
        {
            let child = tree[leaf].childrens[k];
            proof {
                assert(child_link_ok(tree@, leaf as int, k as int));
            }
            if tree[child].playouts == 0 {
                return child;
            }
            let score = uct(
                tree[child].wins_half as u64,
                tree[child].playouts as u64,
                parent_playouts as u64,
            );
            if k == 0 || score > best_score {
                best_score = score;
                best = child;
            }
            k = k + 1;
        }
        leaf = best;
    }
}

/// Creates one child per empty cell below a leaf whose game goes on,
/// then designates one child, chosen uniformly at random, as the node
/// to simulate from.  A terminal leaf is its own designated node and
/// the tree is unchanged.
#[verifier::loop_isolation(false)]
fn expand(tree: &mut Vec<Node>, leaf: usize) -> (child: usize)
    requires
        wf(old(tree)@),
        leaf < old(tree)@.len(),
        old(tree)@[leaf as int].childrens@.len() == 0,
        old(tree)@.len() + 9 < usize::MAX,
    ensures
        wf(final(tree)@),
        old(tree)@.len() <= final(tree)@.len() <= old(tree)@.len() + 9,
        child < final(tree)@.len(),
        forall|i: int| 0 <= i < old(tree)@.len() && i != leaf ==> final(tree)@[i] == old(tree)@[i],
        final(tree)@[leaf as int].parent == old(tree)@[leaf as int].parent,
        final(tree)@[leaf as int].wins_half == old(tree)@[leaf as int].wins_half,
        final(tree)@[leaf as int].playouts == old(tree)@[leaf as int].playouts,
        final(tree)@[leaf as int].grid == old(tree)@[leaf as int].grid,
        final(tree)@[leaf as int].turn == old(tree)@[leaf as int].turn,
        forall|i: int|
            old(tree)@.len() <= i < final(tree)@.len() ==> (#[trigger] final(tree)@[i]).playouts
                == 0 && final(tree)@[i].wins_half == 0 && final(tree)@[i].childrens@.len() == 0,
        grid::spec_result(old(tree)@[leaf as int].grid, old(tree)@[leaf as int].turn as int)
            != GameResult::Continue ==> (child == leaf && final(tree)@ == old(tree)@),
        grid::spec_result(old(tree)@[leaf as int].grid, old(tree)@[leaf as int].turn as int)
            == GameResult::Continue ==> (old(tree)@.len() <= child
            && final(tree)@[child as int].parent == leaf
            && final(tree)@[leaf as int].childrens@.len() >= 1),
{
    let result = grid::get_result(tree[leaf].grid, tree[leaf].turn);
    if result != GameResult::Continue {
        return leaf;
    }
    proof {
        assert(node_snapshot_ok(old(tree)@[leaf as int]));
    }
    let player = game::get_player_from_turn(tree[leaf].turn);
    let turn = tree[leaf].turn + 1;
    let parent_grid = tree[leaf].grid;
    let ghost t0 = old(tree)@;
    proof {
        grid::lemma_not_full_has_empty(parent_grid);
        grid::lemma_empty_cells_are_empty(parent_grid);
        grid::lemma_empty_cells_len(parent_grid);
    }
    let cells = grid::get_empty_cells(parent_grid);
    let mut kids: Vec<usize> = Vec::with_capacity(9);
    let mut i: usize = 0;
    while i < cells.len()
        invariant
            tree@.len() == t0.len() + i,
            i <= cells@.len(),
            forall|j: int| 0 <= j < t0.len() ==> #[trigger] tree@[j] == t0[j],
            kids@.len() == i,
            forall|m: int| 0 <= m < i ==> #[trigger] kids@[m] == t0.len() + m,
            forall|m: int|
                0 <= m < i ==> ((#[trigger] tree@[t0.len() + m]).parent == leaf && tree@[t0.len()
                    + m].playouts == 0 && tree@[t0.len() + m].wins_half == 0 && tree@[t0.len()
                    + m].childrens@.len() == 0 && tree@[t0.len() + m].turn == turn && tree@[t0.len()
                    + m].grid == grid::spec_mark(parent_grid, cells@[m], player)),
        decreases cells@.len() - i,
    {
        let idx = tree.len();
        tree.push(
            Node {
                childrens: Vec::new(),
                parent: leaf,
                wins_half: 0,
                playouts: 0,
                grid: grid::mark(parent_grid, cells[i], player),
                turn,
            },
        );
        kids.push(idx);
        i = i + 1;
    }
    let n_kids = kids.len();
    let ghost kids_view = kids@;
    let ghost t1 = tree@;
    tree[leaf].childrens = kids;
    let j = grid::random_below(n_kids);
    let child = tree[leaf].childrens[j];
    proof {
        let t2 = tree@;
        assert(t2 =~= t1.update(leaf as int, t2[leaf as int]));
        assert(t2[leaf as int].childrens@ == kids_view);
        assert forall|m: int| 0 <= m < n_kids implies node_snapshot_ok(
            #[trigger] t2[t0.len() + m],
        ) by {
            grid::lemma_mark_keeps_valid(parent_grid, cells@[m], player);
            grid::lemma_mark_count(parent_grid, cells@[m], player);
            assert(node_snapshot_ok(t0[leaf as int]));
        }
        assert forall|i2: int| 0 <= i2 < t2.len() implies node_snapshot_ok(#[trigger] t2[i2]) by {
            if i2 == leaf {
                assert(node_snapshot_ok(t0[leaf as int]));
            } else if i2 < t0.len() {
                assert(node_snapshot_ok(t0[i2]));
            } else {
                assert(node_snapshot_ok(t2[t0.len() + (i2 - t0.len())]));
            }
        }
        assert(parents_ok(t2)) by {
            assert forall|i2: int| 1 <= i2 < t2.len() implies (#[trigger] t2[i2].parent)
                < i2 by {
                if i2 >= t0.len() {
                    assert(t1[t0.len() + (i2 - t0.len())].parent == leaf);
                }
            }
        }
        assert forall|i2: int, k: int|
            0 <= i2 < t2.len() && 0 <= k < t2[i2].childrens@.len() implies #[trigger] child_link_ok(
            t2,
            i2,
            k,
        ) by {
            if i2 == leaf {
                assert(kids_view[k] == t0.len() + k);
                assert(t1[t0.len() + k].grid == grid::spec_mark(parent_grid, cells@[k], player));
                assert(t1[t0.len() + k].turn == turn);
                assert(t1[t0.len() + k].parent == leaf);
                let c = t2[i2].childrens@[k] as int;
                assert(c == t0.len() + k);
                assert(t2[c].grid == grid::spec_mark(parent_grid, cells@[k], player));
                assert(grid::spec_is_empty(t2[i2].grid, cells@[k]) && t2[c].grid
                    == grid::spec_mark(
                    t2[i2].grid,
                    cells@[k],
                    game::spec_player_from_turn(t2[i2].turn as int),
                ));
            } else if i2 < t0.len() {
                assert(child_link_ok(t0, i2, k));
                let c = t0[i2].childrens@[k] as int;
                let cl = choose|cl: Cell|
                    grid::spec_is_empty(t0[i2].grid, cl) && t0[c].grid == grid::spec_mark(
                        t0[i2].grid,
                        cl,
                        game::spec_player_from_turn(t0[i2].turn as int),
                    );
                assert(grid::spec_is_empty(t2[i2].grid, cl) && t2[c].grid == grid::spec_mark(
                    t2[i2].grid,
                    cl,
                    game::spec_player_from_turn(t2[i2].turn as int),
                ));
            } else {
                assert(t1[t0.len() + (i2 - t0.len())].childrens@.len() == 0);
            }
        }
        assert(counters_ok(t2)) by {
            assert forall|i2: int| 0 <= i2 < t2.len() implies (#[trigger] t2[i2].wins_half) <= 2
                * t2[i2].playouts by {
                if i2 >= t0.len() {
                    assert(t1[t0.len() + (i2 - t0.len())].wins_half == 0);
                }
            }
            assert forall|i2: int| 1 <= i2 < t2.len() implies (#[trigger] t2[i2].playouts)
                <= t2[t2[i2].parent as int].playouts by {
                if i2 >= t0.len() {
                    assert(t1[t0.len() + (i2 - t0.len())].playouts == 0);
                }
            }
            assert forall|i2: int| 0 <= i2 < t2.len() implies (#[trigger] t2[i2].playouts)
                <= t2[0].playouts by {
                if i2 >= t0.len() {
                    assert(t1[t0.len() + (i2 - t0.len())].playouts == 0);
                }
            }
        }
        assert forall|i2: int| t0.len() <= i2 < t2.len() implies (#[trigger] t2[i2]).playouts
            == 0 && t2[i2].wins_half == 0 && t2[i2].childrens@.len() == 0 by {
            assert(t1[t0.len() + (i2 - t0.len())].playouts == 0);
            assert(t1[t0.len() + (i2 - t0.len())].wins_half == 0);
            assert(t1[t0.len() + (i2 - t0.len())].childrens@.len() == 0);
        }
        assert(wf(t2));
    }
    child
}

/// Plays uniformly random moves from the given snapshot until the game
/// ends, and reports how it ended.  A snapshot that is already terminal
/// reports its own classification.
pub fn simulate(grid_arg: Grid, turn_arg: Turn) -> (r: GameResult)
    requires
        grid::valid_grid(grid_arg),
        0 <= turn_arg <= 9,
        grid::count_occupied(grid_arg) <= turn_arg as int,
    ensures
        r != GameResult::Continue,
        grid::spec_result(grid_arg, turn_arg as int) != GameResult::Continue ==> r
            == grid::spec_result(grid_arg, turn_arg as int),
{
    let mut g = grid_arg;
    let mut turn = turn_arg;
    loop
        invariant
            grid::valid_grid(g),
            0 <= turn <= 9,
            grid::count_occupied(g) <= turn as int,
            grid::spec_result(grid_arg, turn_arg as int) != GameResult::Continue ==> (g == grid_arg
                && turn == turn_arg),
        decreases 9 - turn as int,
    {
        let result = grid::get_result(g, turn);
        if result != GameResult::Continue {
            return result;
        }
        proof {
            grid::lemma_not_full_has_empty(g);
        }
        let cell = grid::get_random_empty_cell(g);
        let player = game::get_player_from_turn(turn);
        proof {
            grid::lemma_mark_keeps_valid(g, cell, player);
            grid::lemma_mark_count(g, cell, player);
        }
        g = grid::mark(g, cell, player);
        turn = turn + 1;
    }
}

/// Runs the full Monte-Carlo tree search for one decision: builds a
/// fresh tree from the current snapshot, runs the fixed number of
/// select-expand-simulate-backpropagate iterations, then returns the
/// cell whose child of the root was visited most.
#[verifier::loop_isolation(false)]
pub fn mcts(game_arg: &Game) -> (r: Cell)
    requires
        game::game_ok(*game_arg),
        grid::spec_result(game_arg.grid, game_arg.turn as int) == GameResult::Continue,
    ensures
        grid::spec_is_empty(game_arg.grid, r),
{
    let mut tree: Vec<Node> = Vec::with_capacity(262144);
    tree.push(
        Node {
            childrens: Vec::with_capacity(9),
            parent: usize::MAX,
            wins_half: 0,
            playouts: 0,
            grid: game_arg.grid,
            turn: game_arg.turn,
        },
    );
    let mut it: usize = 0;
    while it < PLAYOUTS
        invariant
            wf(tree@),
            leaves_ok(tree@),
            tree@[0].grid == game_arg.grid,
            tree@[0].turn == game_arg.turn,
            it <= PLAYOUTS,
            tree@[0].playouts <= it,
            tree@.len() <= 1 + 9 * it,
            it >= 1 ==> tree@[0].childrens@.len() >= 1,
        decreases PLAYOUTS - it,
    {
        let ghost t0 = tree@;
        let leaf = select(&tree);
        let child = expand(&mut tree, leaf);
        let ghost t1 = tree@;
        let result = simulate(tree[child].grid, tree[child].turn);
        proof {
            assert(node_snapshot_ok(t1[child as int]));
            assert forall|i: int| 0 <= i <= child implies (#[trigger] t1[i].playouts)
                < 0x4000_0000 by {
                if i >= t0.len() {
                } else if i == leaf {
                } else {
                    assert(t1[i] == t0[i]);
                }
            }
            assert forall|i: int| 0 <= i <= child implies (#[trigger] t1[i].wins_half)
                < 0x4000_0000 by {
                if i >= t0.len() {
                } else if i == leaf {
                } else {
                    assert(t1[i] == t0[i]);
                }
            }
            assert forall|i: int| 0 <= i <= child implies 0 <= (#[trigger] t1[i].turn) by {
                assert(node_snapshot_ok(t1[i]));
            }
        }
        backpropagate(&mut tree, child, result);
        proof {
            let t2 = tree@;
            lemma_on_path_root(t1, child as int);
            assert(on_path(t1, child as int, 0));
            assert(t2[0].playouts == t1[0].playouts + 1);
            assert(on_path(t1, child as int, leaf as int)) by {
                if child != leaf {
                    assert(t1[child as int].parent == leaf);
                    assert(on_path(t1, leaf as int, leaf as int));
                }
            }
            assert(parents_ok(t2)) by {
                assert forall|i: int| 1 <= i < t2.len() implies (#[trigger] t2[i].parent)
                    < i by {}
            }
            assert forall|i2: int, k: int|
                0 <= i2 < t2.len() && 0 <= k < t2[i2].childrens@.len() implies #[trigger] child_link_ok(
                t2,
                i2,
                k,
            ) by {
                assert(child_link_ok(t1, i2, k));
                let c = t1[i2].childrens@[k] as int;
                let cl = choose|cl: Cell|
                    grid::spec_is_empty(t1[i2].grid, cl) && t1[c].grid == grid::spec_mark(
                        t1[i2].grid,
                        cl,
                        game::spec_player_from_turn(t1[i2].turn as int),
                    );
                assert(grid::spec_is_empty(t2[i2].grid, cl) && t2[c].grid == grid::spec_mark(
                    t2[i2].grid,
                    cl,
                    game::spec_player_from_turn(t2[i2].turn as int),
                ));
            }
            assert forall|i2: int| 0 <= i2 < t2.len() implies node_snapshot_ok(
                #[trigger] t2[i2],
            ) by {
                assert(node_snapshot_ok(t1[i2]));
            }
            assert(counters_ok(t2)) by {
                assert forall|i2: int| 0 <= i2 < t2.len() implies (#[trigger] t2[i2].wins_half)
                    <= 2 * t2[i2].playouts by {
                    assert(spec_credit(result, t1[i2].turn as int) <= 2);
                }
                assert forall|i2: int| 1 <= i2 < t2.len() implies (#[trigger] t2[i2].playouts)
                    <= t2[t2[i2].parent as int].playouts by {
                    if on_path(t1, child as int, i2) {
                        lemma_on_path_parent(t1, child as int, i2);
                    }
                }
                assert forall|i2: int| 0 <= i2 < t2.len() implies (#[trigger] t2[i2].playouts)
                    <= t2[0].playouts by {}
            }
            assert(leaves_ok(t2)) by {
                assert forall|i2: int|
                    0 <= i2 < t2.len() && (#[trigger] t2[i2]).playouts == 0 implies t2[i2].childrens@.len()
                    == 0 by {
                    if i2 != leaf {
                        if i2 >= t0.len() {
                        } else {
                            assert(t1[i2] == t0[i2]);
                        }
                    }
                }
            }
            assert(t2[0].childrens@.len() >= 1) by {
                if grid::spec_result(t0[leaf as int].grid, t0[leaf as int].turn as int)
                    == GameResult::Continue {
                    if leaf != 0 {
                        assert(t1[0] == t0[0]);
                        assert(leaves_ok(t0));
                        assert(t0[0].childrens@.len() >= 1) by {
                            assert(t0[leaf as int].playouts > 0 || t0[0].childrens@.len() >= 1);
                        }
                    }
                } else {
                    assert(leaf != 0);
                }
            }
        }
        it = it + 1;
    }
    let player = game::get_player_from_turn(game_arg.turn);
    proof {
        grid::lemma_not_full_has_empty(game_arg.grid);
        grid::lemma_empty_cells_are_empty(game_arg.grid);
    }
    let c0 = tree[ROOT_NODE].childrens[0];
    proof {
        assert(child_link_ok(tree@, 0, 0));
    }
    let mut best_grid = tree[c0].grid;
    let mut most_playouts: u32 = 0;
    let mut k: usize = 0;
    let n = tree[ROOT_NODE].childrens.len();
    while k < n
        invariant
            wf(tree@),
            n == tree@[0].childrens@.len(),
            k <= n,
        decreases n - k,
    {
        proof {
            assert(child_link_ok(tree@, 0, k as int));
        }
        let child = tree[ROOT_NODE].childrens[k];
        if most_playouts < tree[child].playouts {
            most_playouts = tree[child].playouts;
            best_grid = tree[child].grid;
        }
        k = k + 1;
    }
    let empty_cells = grid::get_empty_cells(game_arg.grid);
    let mut best_cell = empty_cells[0];
    let mut i: usize = 0;
    let mut found = false;
    while i < empty_cells.len()
        invariant
            i <= empty_cells@.len(),
            grid::spec_is_empty(game_arg.grid, best_cell),
        decreases empty_cells@.len() - i,
    {
        if !found && grid::mark(game_arg.grid, empty_cells[i], player) == best_grid {
            best_cell = empty_cells[i];
            found = true;
        }
        i = i + 1;
    }
    best_cell
}

} // verus!
