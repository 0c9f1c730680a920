//! The board features that a solver scores: empty cells, mergeable and nearly
//! mergeable neighbours, squeezed cards, high cards on walls and in corners,
//! monotone rows and columns, and lines that can shift.
//!
//! Each feature is counted in whole numbers here; the solver weighs the
//! counts.
use vstd::prelude::*;

use crate::board_state::{line_shifts, shift_fits, Card, Direction, Grid};
use crate::game_state::GameState;

verus! {

/// The features that a solver can score.
#[derive(Clone, Copy, Debug, PartialEq, Eq)]
pub enum Algos {
    Empties,
    Merges,
    NearlyMerges,
    Squeezes,
    HighWalls,
    HighCorners,
    Monotones,
}

// ---------------------------------------------------------------------------
// Neighbours

/// The cell next to cell `i` on side `d` (0 left, 1 up, 2 right, 3 down), or
/// -1 at a wall.
pub open spec fn neighbor_cell(i: int, d: int) -> int {
    let row = i / 4;
    let col = i % 4;
    if d == 0 {
        if col > 0 {
            i - 1
        } else {
            -1
        }
    } else if d == 1 {
        if row > 0 {
            i - 4
        } else {
            -1
        }
    } else if d == 2 {
        if col < 3 {
            i + 1
        } else {
            -1
        }
    } else {
        if row < 3 {
            i + 4
        } else {
            -1
        }
    }
}

/// The card next to cell `i` on side `d`; a wall reads as `u16::MAX`.
pub open spec fn neighbor_card(g: Seq<Card>, i: int, d: int) -> Card {
    if neighbor_cell(i, d) < 0 {
        u16::MAX
    } else {
        g[neighbor_cell(i, d)]
    }
}

/// The index of the cell next to cell `i` on side `d`, or `usize::MAX` at a
/// wall.
fn neighbor_index(i: usize, d: usize) -> (j: usize)
    requires
        i < 16,
        d < 4,
    ensures
        neighbor_cell(i as int, d as int) < 0 ==> j == usize::MAX,
        neighbor_cell(i as int, d as int) >= 0 ==> j as int == neighbor_cell(i as int, d as int)
            && j < 16,
{
    let row = i / 4;
    let col = i % 4;
    if d == 0 {
        if col > 0 {
            i - 1
        } else {
            usize::MAX
        }
    } else if d == 1 {
        if row > 0 {
            i - 4
        } else {
            usize::MAX
        }
    } else if d == 2 {
        if col < 3 {
            i + 1
        } else {
            usize::MAX
        }
    } else {
        if row < 3 {
            i + 4
        } else {
            usize::MAX
        }
    }
}

/// The cards next to cell `i`: left, up, right, down; a wall reads as
/// `u16::MAX`.
pub fn neighbors_of(grid: &Grid, i: usize) -> (n: [Card; 4])
    requires
        i < 16,
    ensures
        forall|d: int| 0 <= d < 4 ==> #[trigger] n@[d] == neighbor_card(grid@, i as int, d),
{
    let mut n0 = u16::MAX;
    let idx0 = neighbor_index(i, 0);
    if idx0 != usize::MAX {
        n0 = grid[idx0];
    }
    let mut n1 = u16::MAX;
    let idx1 = neighbor_index(i, 1);
    if idx1 != usize::MAX {
        n1 = grid[idx1];
    }
    let mut n2 = u16::MAX;
    let idx2 = neighbor_index(i, 2);
    if idx2 != usize::MAX {
        n2 = grid[idx2];
    }
    let mut n3 = u16::MAX;
    let idx3 = neighbor_index(i, 3);
    if idx3 != usize::MAX {
        n3 = grid[idx3];
    }
    let n = [n0, n1, n2, n3];
    proof {
        assert forall|d: int| 0 <= d < 4 implies #[trigger] n@[d] == neighbor_card(
            grid@,
            i as int,
            d,
        ) by {
            if d == 0 {
            } else if d == 1 {
            } else if d == 2 {
            } else {
            }
        }
    }
    n
}

// ---------------------------------------------------------------------------
// Empty cells

/// The number of empty cells among the first `n` cells.
pub open spec fn empties_upto(g: Seq<Card>, n: nat) -> nat
    decreases n,
{
    if n == 0 {
        0
    } else {
        empties_upto(g, (n - 1) as nat) + if g[n - 1] == 0 {
            1nat
        } else {
            0nat
        }
    }
}

proof fn lemma_empties_bound(g: Seq<Card>, n: nat)
    ensures
        empties_upto(g, n) <= n,
    decreases n,
{
    if n > 0 {
        lemma_empties_bound(g, (n - 1) as nat);
    }
}

/// The number of empty cells.
pub fn empties(game_state: &GameState) -> (count: u8)
    ensures
        count as int == empties_upto(game_state.board.grid@, 16),
{
    let grid = game_state.get_grid();
    let mut count: u8 = 0;
    let mut i: usize = 0;
    while i < 16
        invariant
            0 <= i <= 16,
            *grid == game_state.board.grid,
            count as int == empties_upto(grid@, i as nat),
            count <= i,
        decreases 16 - i,
    {
        if grid[i] == 0 {
            count = count + 1;
        }
        i = i + 1;
    }
    count
}

// ---------------------------------------------------------------------------
// Merges

/// Whether two cards can merge: a 1 with a 2, or two equal cards of 3 or
/// more. Empty cells and walls never merge.
pub open spec fn can_merge_spec(left: Card, right: Card) -> bool {
    &&& left > 0
    &&& right > 0
    &&& left < u16::MAX
    &&& right < u16::MAX
    &&& (left + right == 3 || (left > 2 && left == right))
}

/// Whether the sum that tests two cards for a merge stays within a card.
pub open spec fn merge_test_fits(left: Card, right: Card) -> bool {
    (left > 0 && right > 0 && left < u16::MAX && right < u16::MAX) ==> left + right <= u16::MAX
}

/// Whether two cards are one merge away from merging: a 1 or a 2 with a 3,
/// or two cards of 3 or more where one is twice the other.
pub open spec fn nearly_mergeable_spec(left: Card, right: Card) -> bool {
    &&& left > 0
    &&& right > 0
    &&& left < u16::MAX
    &&& right < u16::MAX
    &&& ((left < 3 && right == 3 || left == 3 && right < 3) || (left >= 3 && right >= 3 && (left
        == right * 2 || left * 2 == right)))
}

/// Whether the doublings that test two cards for a near merge stay within a
/// card.
pub open spec fn nearly_test_fits(left: Card, right: Card) -> bool {
    (left > 0 && right > 0 && left < u16::MAX && right < u16::MAX && !(left < 3 && right == 3
        || left == 3 && right < 3) && left >= 3 && right >= 3) ==> (right * 2 <= u16::MAX && (left
        != right * 2 ==> left * 2 <= u16::MAX))
}

/// Whether two cards can merge (or, with `nearly`, nearly merge).
pub open spec fn pair_merges(nearly: bool, left: Card, right: Card) -> bool {
    if nearly {
        nearly_mergeable_spec(left, right)
    } else {
        can_merge_spec(left, right)
    }
}

/// Whether testing two cards (for a merge, or with `nearly` for a near
/// merge) stays within a card.
pub open spec fn pair_test_fits(nearly: bool, left: Card, right: Card) -> bool {
    if nearly {
        nearly_test_fits(left, right)
    } else {
        merge_test_fits(left, right)
    }
}

/// Whether testing every card against its neighbours stays within a card.
pub open spec fn merge_tests_fit(g: Seq<Card>, nearly: bool) -> bool {
    forall|i: int, d: int|
        0 <= i < 16 && 0 <= d < 4 ==> #[trigger] pair_test_fits(
            nearly,
            g[i],
            neighbor_card(g, i, d),
        )
}

/// The pairs `(card, neighbour)` of cell `i` that merge (or nearly merge),
/// among its first `d` sides.
pub open spec fn cell_merge_pairs(g: Seq<Card>, nearly: bool, i: int, d: nat) -> Seq<(Card, Card)>
    decreases d,
{
    if d == 0 {
        Seq::empty()
    } else {
        cell_merge_pairs(g, nearly, i, (d - 1) as nat) + if pair_merges(
            nearly,
            g[i],
            neighbor_card(g, i, d - 1),
        ) {
            seq![(g[i], neighbor_card(g, i, d - 1))]
        } else {
            Seq::empty()
        }
    }
}

/// The merging (or nearly merging) pairs `(card, neighbour)` of the first `n`
/// cells, cell by cell and side by side. Each neighbouring pair shows up
/// twice, once from each side.
pub open spec fn merge_pairs_upto(g: Seq<Card>, nearly: bool, n: nat) -> Seq<(Card, Card)>
    decreases n,
{
    if n == 0 {
        Seq::empty()
    } else {
        merge_pairs_upto(g, nearly, (n - 1) as nat) + cell_merge_pairs(g, nearly, n - 1, 4)
    }
}

proof fn lemma_cell_merge_pairs_len(g: Seq<Card>, nearly: bool, i: int, d: nat)
    ensures
        cell_merge_pairs(g, nearly, i, d).len() <= d,
    decreases d,
{
    if d > 0 {
        lemma_cell_merge_pairs_len(g, nearly, i, (d - 1) as nat);
    }
}

proof fn lemma_merge_pairs_len(g: Seq<Card>, nearly: bool, n: nat)
    ensures
        merge_pairs_upto(g, nearly, n).len() <= 4 * n,
    decreases n,
{
    if n > 0 {
        lemma_merge_pairs_len(g, nearly, (n - 1) as nat);
        lemma_cell_merge_pairs_len(g, nearly, n - 1, 4);
    }
}

/// 1 when the card of cell `i` merges (or, with `nearly`, nearly merges) with
/// its neighbour on side `d`, 0 otherwise.
pub open spec fn side_merges(g: Seq<Card>, nearly: bool, i: int, d: int) -> nat {
    if pair_merges(nearly, g[i], neighbor_card(g, i, d)) {
        1
    } else {
        0
    }
}

/// The merging sides of the first `d` sides of cell `i`.
pub open spec fn cell_sides(g: Seq<Card>, nearly: bool, i: int, d: nat) -> nat
    decreases d,
{
    if d == 0 {
        0
    } else {
        cell_sides(g, nearly, i, (d - 1) as nat) + side_merges(g, nearly, i, d - 1)
    }
}

/// The merging sides of the first `n` cells.
pub open spec fn sides_upto(g: Seq<Card>, nearly: bool, n: nat) -> nat
    decreases n,
{
    if n == 0 {
        0
    } else {
        sides_upto(g, nearly, (n - 1) as nat) + cell_sides(g, nearly, n - 1, 4)
    }
}

/// 1 when the cards of cells `a` and `b` merge (or nearly merge), 0
/// otherwise.
pub open spec fn cells_merge(g: Seq<Card>, nearly: bool, a: int, b: int) -> nat {
    if pair_merges(nearly, g[a], g[b]) {
        1
    } else {
        0
    }
}

/// 1 when cell `i` is not in the last column and its card merges (or nearly
/// merges) with the card to its right.
pub open spec fn right_pair(g: Seq<Card>, nearly: bool, i: int) -> nat {
    if i % 4 < 3 {
        cells_merge(g, nearly, i, i + 1)
    } else {
        0
    }
}

/// 1 when cell `i` is not in the last row and its card merges (or nearly
/// merges) with the card below it.
pub open spec fn down_pair(g: Seq<Card>, nearly: bool, i: int) -> nat {
    if i < 12 {
        cells_merge(g, nearly, i, i + 4)
    } else {
        0
    }
}

/// The pairs side by side that merge, among those whose left cell is one of
/// the first `n` cells.
pub open spec fn right_pairs_upto(g: Seq<Card>, nearly: bool, n: nat) -> nat
    decreases n,
{
    if n == 0 {
        0
    } else {
        right_pairs_upto(g, nearly, (n - 1) as nat) + right_pair(g, nearly, n - 1)
    }
}

/// The pairs one above the other that merge, among those whose upper cell is
/// one of the first `n` cells.
pub open spec fn down_pairs_upto(g: Seq<Card>, nearly: bool, n: nat) -> nat
    decreases n,
{
    if n == 0 {
        0
    } else {
        down_pairs_upto(g, nearly, (n - 1) as nat) + down_pair(g, nearly, n - 1)
    }
}

/// The neighbouring pairs of cells, each pair counted once, whose cards merge
/// (or, with `nearly`, nearly merge): each cell with the cell to its right
/// and with the cell below it.
pub open spec fn merging_neighbours(g: Seq<Card>, nearly: bool) -> nat {
    right_pairs_upto(g, nearly, 16) + down_pairs_upto(g, nearly, 16)
}

/// 1 when cell `i` is not in the first column and its card merges with the
/// card to its left.
spec fn left_pair(g: Seq<Card>, nearly: bool, i: int) -> nat {
    if i % 4 > 0 {
        cells_merge(g, nearly, i - 1, i)
    } else {
        0
    }
}

/// 1 when cell `i` is not in the first row and its card merges with the card
/// above it.
spec fn up_pair(g: Seq<Card>, nearly: bool, i: int) -> nat {
    if i >= 4 {
        cells_merge(g, nearly, i - 4, i)
    } else {
        0
    }
}

spec fn left_pairs_upto(g: Seq<Card>, nearly: bool, n: nat) -> nat
    decreases n,
{
    if n == 0 {
        0
    } else {
        left_pairs_upto(g, nearly, (n - 1) as nat) + left_pair(g, nearly, n - 1)
    }
}

spec fn up_pairs_upto(g: Seq<Card>, nearly: bool, n: nat) -> nat
    decreases n,
{
    if n == 0 {
        0
    } else {
        up_pairs_upto(g, nearly, (n - 1) as nat) + up_pair(g, nearly, n - 1)
    }
}

/// Whether two cards merge does not depend on their order.
pub proof fn lemma_pair_merges_symmetric(nearly: bool, a: Card, b: Card)
    ensures
        pair_merges(nearly, a, b) == pair_merges(nearly, b, a),
{
}

proof fn lemma_cell_merge_pairs_count(g: Seq<Card>, nearly: bool, i: int, d: nat)
    ensures
        cell_merge_pairs(g, nearly, i, d).len() == cell_sides(g, nearly, i, d),
    decreases d,
{
    if d > 0 {
        lemma_cell_merge_pairs_count(g, nearly, i, (d - 1) as nat);
    }
}

pub proof fn lemma_merge_pairs_count(g: Seq<Card>, nearly: bool, n: nat)
    ensures
        merge_pairs_upto(g, nearly, n).len() == sides_upto(g, nearly, n),
    decreases n,
{
    if n > 0 {
        lemma_merge_pairs_count(g, nearly, (n - 1) as nat);
        lemma_cell_merge_pairs_count(g, nearly, n - 1, 4);
    }
}

/// The sides of a cell are its pairs with the cells left of, above, right of
/// and below it; a wall merges with nothing.
proof fn lemma_cell_sides(g: Seq<Card>, nearly: bool, i: int)
    requires
        g.len() == 16,
        0 <= i < 16,
    ensures
        cell_sides(g, nearly, i, 4) == left_pair(g, nearly, i) + up_pair(g, nearly, i) + right_pair(
            g,
            nearly,
            i,
        ) + down_pair(g, nearly, i),
{
    reveal_with_fuel(cell_sides, 5);
    if i % 4 > 0 {
        lemma_pair_merges_symmetric(nearly, g[i], g[i - 1]);
    }
    if i >= 4 {
        lemma_pair_merges_symmetric(nearly, g[i], g[i - 4]);
    }
}

proof fn lemma_sides_split(g: Seq<Card>, nearly: bool, n: nat)
    requires
        g.len() == 16,
        n <= 16,
    ensures
        sides_upto(g, nearly, n) == left_pairs_upto(g, nearly, n) + up_pairs_upto(g, nearly, n)
            + right_pairs_upto(g, nearly, n) + down_pairs_upto(g, nearly, n),
    decreases n,
{
    if n > 0 {
        lemma_sides_split(g, nearly, (n - 1) as nat);
        lemma_cell_sides(g, nearly, n - 1);
    }
}

/// Counting each cell with the cell to its left counts the pairs side by side
/// of the cells before it.
proof fn lemma_left_pairs(g: Seq<Card>, nearly: bool, n: nat)
    requires
        1 <= n,
    ensures
        left_pairs_upto(g, nearly, n) == right_pairs_upto(g, nearly, (n - 1) as nat),
    decreases n,
{
    if n > 1 {
        lemma_left_pairs(g, nearly, (n - 1) as nat);
        let k: int = n - 1;
        assert((k % 4 > 0) == ((k - 1) % 4 < 3)) by (nonlinear_arith)
            requires
                k >= 1,
        ;
        assert(left_pair(g, nearly, k) == right_pair(g, nearly, k - 1));
        assert(left_pairs_upto(g, nearly, n) == left_pairs_upto(g, nearly, (n - 1) as nat)
            + left_pair(g, nearly, k));
        assert(right_pairs_upto(g, nearly, (n - 1) as nat) == right_pairs_upto(
            g,
            nearly,
            (n - 2) as nat,
        ) + right_pair(g, nearly, k - 1));
    } else {
        reveal_with_fuel(left_pairs_upto, 2);
    }
}

/// Counting each cell with the cell above it counts the pairs one above the
/// other of the cells four places before it.
proof fn lemma_up_pairs(g: Seq<Card>, nearly: bool, n: nat)
    requires
        4 <= n <= 16,
    ensures
        up_pairs_upto(g, nearly, n) == down_pairs_upto(g, nearly, (n - 4) as nat),
    decreases n,
{
    if n > 4 {
        lemma_up_pairs(g, nearly, (n - 1) as nat);
    } else {
        reveal_with_fuel(up_pairs_upto, 5);
    }
}

/// Each neighbouring pair of cards shows up twice among the merging sides,
/// once from each of its cards.
pub proof fn lemma_sides_are_pairs_twice(g: Seq<Card>, nearly: bool)
    requires
        g.len() == 16,
    ensures
        sides_upto(g, nearly, 16) == 2 * merging_neighbours(g, nearly),
{
    lemma_sides_split(g, nearly, 16);
    lemma_left_pairs(g, nearly, 16);
    lemma_up_pairs(g, nearly, 16);
    reveal_with_fuel(down_pairs_upto, 5);
}

/// Whether two cards can merge: a 1 with a 2, or two equal cards of 3 or
/// more. Empty cells and walls (`u16::MAX`) never merge.
pub fn can_merge(left: &Card, right: &Card) -> (merges: bool)
    requires
        merge_test_fits(*left, *right),
    ensures
        merges == can_merge_spec(*left, *right),
{
    *left > 0 && *right > 0 && *left < Card::MAX && *right < Card::MAX && (*left + *right == 3 || (
    *left > 2 && *left == *right))
}

/// Whether two cards are one merge away from merging: a 1 or a 2 with a 3,
/// or two cards of 3 or more where one is twice the other. Empty cells and
/// walls (`u16::MAX`) never count.
pub fn are_nearly_mergable(left: &Card, right: &Card) -> (nearly: bool)
    requires
        nearly_test_fits(*left, *right),
    ensures
        nearly == nearly_mergeable_spec(*left, *right),
{
    // 1 with 3
    // 2 with 3
    // anything else with 2x itself or 0.5x itself
    *left > 0 && *right > 0 && *left < Card::MAX && *right < Card::MAX && ((*left < 3 && *right
        == 3 || *left == 3 && *right < 3) || (*left >= 3 && *right >= 3 && (*left == *right * 2
        || *left * 2 == *right)))
}

/// Whether testing two cards (for a merge, or with `nearly` for a near merge)
/// stays within a card, worked out in wider numbers.
fn pair_test_holds(nearly: bool, left: Card, right: Card) -> (fits: bool)
    ensures
        fits == pair_test_fits(nearly, left, right),
{
    let (l, r) = (left as u32, right as u32);
    let live = l > 0 && r > 0 && l < 65535 && r < 65535;
    if nearly {
        !(live && !(l < 3 && r == 3 || l == 3 && r < 3) && l >= 3 && r >= 3) || (r * 2 <= 65535
            && (l == r * 2 || l * 2 <= 65535))
    } else {
        !live || l + r <= 65535
    }
}

/// Whether testing every card against its neighbours (for merges, or with
/// `nearly` for near merges) stays within a card.
pub fn merge_tests_hold(game_state: &GameState, nearly: bool) -> (fits: bool)
    ensures
        fits == merge_tests_fit(game_state.board.grid@, nearly),
{
    let grid = game_state.get_grid();
    let ghost g = grid@;
    let mut i: usize = 0;
    while i < 16
        invariant
            0 <= i <= 16,
            g == grid@,
            g == game_state.board.grid@,
            *grid == game_state.board.grid,
            forall|j: int, d: int|
                0 <= j < i && 0 <= d < 4 ==> #[trigger] pair_test_fits(
                    nearly,
                    g[j],
                    neighbor_card(g, j, d),
                ),
        decreases 16 - i,
    {
        let neighbors = neighbors_of(grid, i);
        let mut d: usize = 0;
        while d < 4
            invariant
                0 <= d <= 4,
                i < 16,
                g == grid@,
                g == game_state.board.grid@,
                forall|dd: int| 0 <= dd < 4 ==> #[trigger] neighbors@[dd] == neighbor_card(g, i as int, dd),
                forall|j: int, e: int|
                    0 <= j < i && 0 <= e < 4 ==> #[trigger] pair_test_fits(
                        nearly,
                        g[j],
                        neighbor_card(g, j, e),
                    ),
                forall|e: int|
                    0 <= e < d ==> #[trigger] pair_test_fits(
                        nearly,
                        g[i as int],
                        neighbor_card(g, i as int, e),
                    ),
            decreases 4 - d,
        {
            if !pair_test_holds(nearly, grid[i], neighbors[d]) {
                proof {
                    assert(neighbors@[d as int] == neighbor_card(g, i as int, d as int));
                    assert(!pair_test_fits(nearly, g[i as int], neighbor_card(g, i as int, d as int)));
                    assert(g == game_state.board.grid@);
                }
                return false;
            }
            d = d + 1;
        }
        i = i + 1;
    }
    true
}

/// The pairs `(card, neighbour)` that merge (or, with `nearly`, nearly
/// merge), cell by cell and side by side (left, up, right, down). Each
/// neighbouring pair is listed from both of its cards.
pub fn merge_pairs(game_state: &GameState, nearly: bool) -> (pairs: Vec<(Card, Card)>)
    requires
        merge_tests_fit(game_state.board.grid@, nearly),
    ensures
        pairs@ == merge_pairs_upto(game_state.board.grid@, nearly, 16),
{
    let grid = game_state.get_grid();
    let ghost g = grid@;
    let mut pairs: Vec<(Card, Card)> = Vec::new();
    let mut i: usize = 0;
    while i < 16
        invariant
            0 <= i <= 16,
            g == grid@,
            *grid == game_state.board.grid,
            merge_tests_fit(g, nearly),
            pairs@ == merge_pairs_upto(g, nearly, i as nat),
        decreases 16 - i,
    {
        let card = grid[i];
        let neighbors = neighbors_of(grid, i);
        let ghost start = pairs@;
        let mut d: usize = 0;
        while d < 4
            invariant
                0 <= d <= 4,
                i < 16,
                g == grid@,
                card == g[i as int],
                merge_tests_fit(g, nearly),
                forall|dd: int| 0 <= dd < 4 ==> #[trigger] neighbors@[dd] == neighbor_card(g, i as int, dd),
                pairs@ == start + cell_merge_pairs(g, nearly, i as int, d as nat),
            decreases 4 - d,
        {
            let neighbor = neighbors[d];
            proof {
                assert(pair_test_fits(nearly, g[i as int], neighbor_card(g, i as int, d as int)));
            }
            let hit = if nearly {
                are_nearly_mergable(&card, &neighbor)
            } else {
                can_merge(&card, &neighbor)
            };
            if hit {
                pairs.push((card, neighbor));
            }
            proof {
                assert(pairs@ =~= start + cell_merge_pairs(g, nearly, i as int, (d + 1) as nat));
            }
            d = d + 1;
        }
        proof {
            assert(pairs@ =~= merge_pairs_upto(g, nearly, (i + 1) as nat));
        }
        i = i + 1;
    }
    pairs
}

/// The number of neighbouring pairs of cards that can merge, each pair
/// counted once.
pub fn merges(game_state: &GameState) -> (count: u8)
    requires
        merge_tests_fit(game_state.board.grid@, false),
    ensures
        count == merging_neighbours(game_state.board.grid@, false),
        count <= 32,
{
    let pairs = merge_pairs(game_state, false);
    proof {
        lemma_merge_pairs_len(game_state.board.grid@, false, 16);
        lemma_merge_pairs_count(game_state.board.grid@, false, 16);
        lemma_sides_are_pairs_twice(game_state.board.grid@, false);
    }
    (pairs.len() / 2) as u8
}

/// The number of neighbouring pairs of cards that are one merge away from
/// merging, each pair counted once.
pub fn nearly_merges(game_state: &GameState) -> (count: u8)
    requires
        merge_tests_fit(game_state.board.grid@, true),
    ensures
        count == merging_neighbours(game_state.board.grid@, true),
        count <= 32,
{
    let pairs = merge_pairs(game_state, true);
    proof {
        lemma_merge_pairs_len(game_state.board.grid@, true, 16);
        lemma_merge_pairs_count(game_state.board.grid@, true, 16);
        lemma_sides_are_pairs_twice(game_state.board.grid@, true);
    }
    (pairs.len() / 2) as u8
}


// ---------------------------------------------------------------------------
// Squeezes

/// Whether the card `middle` is squeezed between `a` and `b`: both are cards
/// of 3 or more (or walls, which read as `u16::MAX`) and both beat `middle`.
pub open spec fn squeezing_spec(middle: Card, a: Card, b: Card) -> bool {
    middle > 0 && a > 2 && a > middle && b > 2 && b > middle
}

/// The card of cell `i` once for each of its two axes (left-right, then
/// up-down) on which it is squeezed.
pub open spec fn cell_squeezes(g: Seq<Card>, i: int) -> Seq<Card> {
    (if squeezing_spec(g[i], neighbor_card(g, i, 0), neighbor_card(g, i, 2)) {
        seq![g[i]]
    } else {
        Seq::empty()
    }) + (if squeezing_spec(g[i], neighbor_card(g, i, 1), neighbor_card(g, i, 3)) {
        seq![g[i]]
    } else {
        Seq::empty()
    })
}

/// The squeezed cards of the first `n` cells, cell by cell.
pub open spec fn squeezed_upto(g: Seq<Card>, n: nat) -> Seq<Card>
    decreases n,
{
    if n == 0 {
        Seq::empty()
    } else {
        squeezed_upto(g, (n - 1) as nat) + cell_squeezes(g, n - 1)
    }
}

proof fn lemma_squeezed_len(g: Seq<Card>, n: nat)
    ensures
        squeezed_upto(g, n).len() <= 2 * n,
    decreases n,
{
    if n > 0 {
        lemma_squeezed_len(g, (n - 1) as nat);
    }
}

/// Whether `middle` is squeezed between the two cards of `pair`.
pub fn is_pair_squeezing(middle: Card, pair: (Card, Card)) -> (squeezed: bool)
    ensures
        squeezed == squeezing_spec(middle, pair.0, pair.1),
{
    let (m, (a, b)) = (middle, pair);

    // this 'cleverly' takes advantage of wall-side "neighbors" being Card::MAX
    m > 0 && a > 2 && a > m && b > 2 && b > m
}

/// The squeezed cards, cell by cell: a card once for each axis (left-right,
/// then up-down) on which it is squeezed.
pub fn squeezed_cards(game_state: &GameState) -> (cards: Vec<Card>)
    ensures
        cards@ == squeezed_upto(game_state.board.grid@, 16),
{
    let grid = game_state.get_grid();
    let ghost g = grid@;
    let mut cards: Vec<Card> = Vec::new();
    let mut i: usize = 0;
    while i < 16
        invariant
            0 <= i <= 16,
            g == grid@,
            *grid == game_state.board.grid,
            cards@ == squeezed_upto(g, i as nat),
        decreases 16 - i,
    {
        let card = grid[i];
        let neighbors = neighbors_of(grid, i);
        let ghost start = cards@;
        if is_pair_squeezing(card, (neighbors[0], neighbors[2])) {
            cards.push(card);
        }
        if is_pair_squeezing(card, (neighbors[1], neighbors[3])) {
            cards.push(card);
        }
        proof {
            assert(cards@ =~= start + cell_squeezes(g, i as int));
        }
        i = i + 1;
    }
    cards
}

/// The number of squeezes: a card counts once for each axis on which it is
/// squeezed.
pub fn squeezes(game_state: &GameState) -> (count: u8)
    ensures
        count as int == squeezed_upto(game_state.board.grid@, 16).len(),
{
    let cards = squeezed_cards(game_state);
    proof {
        lemma_squeezed_len(game_state.board.grid@, 16);
    }
    cards.len() as u8
}

// ---------------------------------------------------------------------------
// High cards on walls and in corners

/// The largest of the first `n` cards that is below `bound`, or 0 if there
/// is none.
pub open spec fn max_below(g: Seq<Card>, n: nat, bound: int) -> int
    decreases n,
{
    if n == 0 {
        0
    } else {
        let m = max_below(g, (n - 1) as nat, bound);
        if g[n - 1] < bound && g[n - 1] > m {
            g[n - 1] as int
        } else {
            m
        }
    }
}

/// The three largest distinct card values (0 where there are fewer).
pub open spec fn top_three(g: Seq<Card>) -> (int, int, int) {
    let great_big = max_below(g, 16, u16::MAX + 1);
    let middle = max_below(g, 16, great_big);
    let wee = max_below(g, 16, middle);
    (great_big, middle, wee)
}

/// Whether cell `i` lies on a wall.
pub open spec fn on_wall(i: int) -> bool {
    i % 4 == 0 || i < 4 || (i + 1) % 4 == 0 || i >= 12
}

/// Whether cell `i` is a corner.
pub open spec fn in_corner(i: int) -> bool {
    i == 0 || i == 3 || i == 12 || i == 15
}

/// Whether cell `i` holds a card in the region that counts: the corners, or
/// with `corners_only` false, the walls.
pub open spec fn cell_counted(g: Seq<Card>, i: int, corners_only: bool) -> bool {
    g[i] > 0 && if corners_only {
        in_corner(i)
    } else {
        on_wall(i)
    }
}

/// Points for a card: 3 for the largest value, 2 for the second, 1 for the
/// third, 0 otherwise.
pub open spec fn high_points(card: Card, top: (int, int, int)) -> u8 {
    if card == top.0 {
        3
    } else if card == top.1 {
        2
    } else if card == top.2 {
        1
    } else {
        0
    }
}

/// `(card, points)` for each counted cell among the first `n`.
pub open spec fn high_cells_upto(g: Seq<Card>, corners_only: bool, n: nat) -> Seq<(Card, u8)>
    decreases n,
{
    if n == 0 {
        Seq::empty()
    } else {
        high_cells_upto(g, corners_only, (n - 1) as nat) + if cell_counted(g, n - 1, corners_only) {
            seq![(g[n - 1], high_points(g[n - 1], top_three(g)))]
        } else {
            Seq::empty()
        }
    }
}

/// The sum of the points of `cells`.
pub open spec fn points_sum(cells: Seq<(Card, u8)>) -> int
    decreases cells.len(),
{
    if cells.len() == 0 {
        0
    } else {
        points_sum(cells.drop_last()) + cells.last().1
    }
}

/// The cards below `bound` among the first `n` are at most `max_below`, which
/// is 0 or one of them.
proof fn lemma_max_below(g: Seq<Card>, n: nat, bound: int)
    requires
        n <= g.len(),
    ensures
        forall|j: int| 0 <= j < n && g[j] < bound ==> g[j] <= #[trigger] max_below(g, n, bound),
        max_below(g, n, bound) == 0 || max_below(g, n, bound) < bound,
        0 <= max_below(g, n, bound),
    decreases n,
{
    if n > 0 {
        lemma_max_below(g, (n - 1) as nat, bound);
    }
}

/// Bounds that no card lies between give the same largest card below them.
proof fn lemma_max_below_gap(g: Seq<Card>, n: nat, low: int, high: int)
    requires
        n <= g.len(),
        low <= high,
        forall|j: int| 0 <= j < n ==> !(low <= #[trigger] g[j] < high),
    ensures
        max_below(g, n, low) == max_below(g, n, high),
    decreases n,
{
    if n > 0 {
        lemma_max_below_gap(g, (n - 1) as nat, low, high);
    }
}

proof fn lemma_high_cells_len(g: Seq<Card>, corners_only: bool, n: nat)
    ensures
        high_cells_upto(g, corners_only, n).len() <= n,
        points_sum(high_cells_upto(g, corners_only, n)) <= 3 * high_cells_upto(
            g,
            corners_only,
            n,
        ).len(),
        0 <= points_sum(high_cells_upto(g, corners_only, n)),
        forall|j: int|
            0 <= j < high_cells_upto(g, corners_only, n).len() ==> #[trigger] high_cells_upto(
                g,
                corners_only,
                n,
            )[j].1 <= 3,
    decreases n,
{
    if n > 0 {
        lemma_high_cells_len(g, corners_only, (n - 1) as nat);
        let prev = high_cells_upto(g, corners_only, (n - 1) as nat);
        let cur = high_cells_upto(g, corners_only, n);
        if cell_counted(g, n - 1, corners_only) {
            assert(cur.drop_last() =~= prev);
        } else {
            assert(cur =~= prev);
        }
    }
}

/// The three largest distinct card values on the board, largest first (0
/// where there are fewer).
fn top_three_values(grid: &Grid) -> (top: (Card, Card, Card))
    ensures
        (top.0 as int, top.1 as int, top.2 as int) == top_three(grid@),
{
    let ghost g = grid@;
    // https://americanliterature.com/childrens-stories/goldilocks-and-the-three-bears
    let (mut great_big, mut middle, mut wee): (Card, Card, Card) = (0, 0, 0);
    let mut i: usize = 0;
    while i < 16
        invariant
            0 <= i <= 16,
            g == grid@,
            great_big as int == max_below(g, i as nat, u16::MAX + 1),
            middle as int == max_below(g, i as nat, great_big as int),
            wee as int == max_below(g, i as nat, middle as int),
        decreases 16 - i,
    {
        let card = grid[i];
        let ghost n = i as nat;
        proof {
            lemma_max_below(g, n, u16::MAX + 1);
            lemma_max_below(g, n, great_big as int);
            lemma_max_below(g, n, middle as int);
        }
        if card > great_big {
            proof {
                lemma_max_below_gap(g, n, card as int, u16::MAX + 1);
            }
            wee = middle;
            middle = great_big;
            great_big = card;
        } else if card < great_big && card > middle {
            proof {
                lemma_max_below_gap(g, n, card as int, great_big as int);
            }
            wee = middle;
            middle = card;
        } else if card < middle && card > wee {
            wee = card;
        }
        i = i + 1;
    }
    (great_big, middle, wee)
}

/// `(card, points)` for each cell, in order, that holds a card on a wall (or,
/// with `corners_only`, in a corner): 3 points for the largest card value on
/// the board, 2 for the second, 1 for the third, 0 for the others.
pub fn high_cells(game_state: &GameState, corners_only: bool) -> (cells: Vec<(Card, u8)>)
    ensures
        cells@ == high_cells_upto(game_state.board.grid@, corners_only, 16),
{
    let grid = game_state.get_grid();
    let ghost g = grid@;
    let (great_big, middle, wee) = top_three_values(grid);

    let mut cells: Vec<(Card, u8)> = Vec::new();
    let mut index: usize = 0;
    while index < 16
        invariant
            0 <= index <= 16,
            g == grid@,
            *grid == game_state.board.grid,
            (great_big as int, middle as int, wee as int) == top_three(g),
            cells@ == high_cells_upto(g, corners_only, index as nat),
        decreases 16 - index,
    {
        let card = grid[index];
        let mut count_cell = false;
        if card > 0 {
            if corners_only {
                count_cell = index == 0  // top left
                 || index == 4 - 1  // top right
                 || index == 4 * 4 - 4  // bottom left
                 || index == 4 * 4 - 1;  // bottom right
            } else {
                count_cell = index % 4 == 0  // left wall
                 || index < 4  // top wall
                 || (index + 1) % 4 == 0  // right wall
                 || index >= 4 * 4 - 4;  // bottom wall
            }
        }

        if count_cell {
            let score_increment: u8 = if card == great_big {
                3
            } else if card == middle {
                2
            } else if card == wee {
                1
            } else {
                0
            };
            cells.push((card, score_increment));
        }
        proof {
            assert(cells@ =~= high_cells_upto(g, corners_only, (index + 1) as nat));
        }
        index = index + 1;
    }
    cells
}

/// The points of the high cards on the walls (or, with `corners_only`, in the
/// corners): 3 for each card of the largest value, 2 for the second, 1 for
/// the third. A card in a corner counts once.
pub fn high_impl(game_state: &GameState, corners_only: bool) -> (score: u8)
    ensures
        score as int == points_sum(high_cells_upto(game_state.board.grid@, corners_only, 16)),
{
    let cells = high_cells(game_state, corners_only);
    proof {
        lemma_high_cells_len(game_state.board.grid@, corners_only, 16);
    }
    let mut score: u8 = 0;
    let mut i: usize = 0;
    while i < cells.len()
        invariant
            0 <= i <= cells@.len(),
            cells@.len() <= 16,
            score as int == points_sum(cells@.subrange(0, i as int)),
            forall|j: int| 0 <= j < cells@.len() ==> #[trigger] cells@[j].1 <= 3,
        decreases cells@.len() - i,
    {
        proof {
            assert(cells@.subrange(0, i + 1).drop_last() =~= cells@.subrange(0, i as int));
            lemma_points_prefix_bound(cells@, i as int);
        }
        score = score + cells[i].1;
        i = i + 1;
    }
    proof {
        assert(cells@.subrange(0, cells@.len() as int) =~= cells@);
    }
    score
}

/// A prefix of at most 16 cells of at most 3 points each sums to at most 45.
proof fn lemma_points_prefix_bound(cells: Seq<(Card, u8)>, i: int)
    requires
        0 <= i <= cells.len(),
        forall|j: int| 0 <= j < cells.len() ==> #[trigger] cells[j].1 <= 3,
    ensures
        0 <= points_sum(cells.subrange(0, i)) <= 3 * i,
    decreases i,
{
    if i > 0 {
        lemma_points_prefix_bound(cells, i - 1);
        assert(cells.subrange(0, i).drop_last() =~= cells.subrange(0, i - 1));
    }
}

/// Points for high cards next to a wall.
pub fn high_walls(game_state: &GameState) -> (score: u8)
    ensures
        score as int == points_sum(high_cells_upto(game_state.board.grid@, false, 16)),
{
    high_impl(game_state, false)
}

/// Points for high cards in a corner.
pub fn high_corners(game_state: &GameState) -> (score: u8)
    ensures
        score as int == points_sum(high_cells_upto(game_state.board.grid@, true, 16)),
{
    high_impl(game_state, true)
}

// ---------------------------------------------------------------------------
// Monotone rows and columns

/// +1 when `other` (a card, not a wall) is larger than `card`, -1 when it is
/// smaller, 0 otherwise.
pub open spec fn trend(card: Card, other: Card) -> int {
    if other < u16::MAX {
        if other > card {
            1
        } else if other < card {
            -1
        } else {
            0
        }
    } else {
        0
    }
}

/// The trend of cell `i`: towards its right neighbour plus towards the
/// neighbour below.
pub open spec fn cell_trend(g: Seq<Card>, i: int) -> int {
    trend(g[i], neighbor_card(g, i, 2)) + trend(g[i], neighbor_card(g, i, 3))
}

/// `(card, trend)` for the first `n` cells.
pub open spec fn trends_upto(g: Seq<Card>, n: nat) -> Seq<(Card, i8)>
    decreases n,
{
    if n == 0 {
        Seq::empty()
    } else {
        trends_upto(g, (n - 1) as nat).push((g[n - 1], cell_trend(g, n - 1) as i8))
    }
}

/// The sum of the trends of the first `n` cells.
pub open spec fn trend_sum(g: Seq<Card>, n: nat) -> int
    decreases n,
{
    if n == 0 {
        0
    } else {
        trend_sum(g, (n - 1) as nat) + cell_trend(g, n - 1)
    }
}

proof fn lemma_trend_sum_bound(g: Seq<Card>, n: nat)
    ensures
        -2 * n <= trend_sum(g, n) <= 2 * n,
    decreases n,
{
    if n > 0 {
        lemma_trend_sum_bound(g, (n - 1) as nat);
    }
}

/// `(card, trend)` for each cell, in order: the trend counts +1 for a larger
/// right or lower neighbour, -1 for a smaller one.
pub fn cell_trends(game_state: &GameState) -> (trends: Vec<(Card, i8)>)
    ensures
        trends@ == trends_upto(game_state.board.grid@, 16),
{
    let grid = game_state.get_grid();
    let ghost g = grid@;
    let mut trends: Vec<(Card, i8)> = Vec::new();
    let mut i: usize = 0;
    while i < 16
        invariant
            0 <= i <= 16,
            g == grid@,
            *grid == game_state.board.grid,
            trends@ == trends_upto(g, i as nat),
        decreases 16 - i,
    {
        let card = grid[i];
        let neighbors = neighbors_of(grid, i);
        let mut card_score: i8 = 0;

        let right = neighbors[2];
        if right < Card::MAX {
            if right > card {
                card_score = card_score + 1;
            } else if right < card {
                card_score = card_score - 1;
            }
        }

        let down = neighbors[3];
        if down < Card::MAX {
            if down > card {
                card_score = card_score + 1;
            } else if down < card {
                card_score = card_score - 1;
            }
        }
        trends.push((card, card_score));
        i = i + 1;
    }
    trends
}

/// How monotone the rows (left to right) and columns (top to bottom) are:
/// the size of the sum of all trends. Neighbouring rows or columns may run in
/// opposite directions; 1 and 2 count as distinct values.
pub fn monotones(game_state: &GameState) -> (score: u8)
    ensures
        score as int == (if trend_sum(game_state.board.grid@, 16) >= 0 {
            trend_sum(game_state.board.grid@, 16)
        } else {
            -trend_sum(game_state.board.grid@, 16)
        }),
{
    let trends = cell_trends(game_state);
    let ghost g = game_state.board.grid@;
    let mut score: i8 = 0;
    let mut i: usize = 0;
    while i < 16
        invariant
            0 <= i <= 16,
            trends@ == trends_upto(g, 16),
            score as int == trend_sum(g, i as nat),
        decreases 16 - i,
    {
        proof {
            lemma_trends_index(g, 16, i as int);
            lemma_trend_sum_bound(g, (i + 1) as nat);
        }
        score = score + trends[i].1;
        i = i + 1;
    }
    proof {
        lemma_trend_sum_bound(g, 16);
    }
    if score < 0 {
        (-score) as u8
    } else {
        score as u8
    }
}

proof fn lemma_trends_len(g: Seq<Card>, n: nat)
    ensures
        trends_upto(g, n).len() == n,
    decreases n,
{
    if n > 0 {
        lemma_trends_len(g, (n - 1) as nat);
    }
}

proof fn lemma_trends_index(g: Seq<Card>, n: nat, i: int)
    requires
        0 <= i < n,
    ensures
        trends_upto(g, n).len() == n,
        trends_upto(g, n)[i] == (g[i], cell_trend(g, i) as i8),
        -2 <= cell_trend(g, i) <= 2,
    decreases n,
{
    lemma_trends_len(g, n);
    lemma_trends_len(g, (n - 1) as nat);
    if i < n - 1 {
        lemma_trends_index(g, (n - 1) as nat, i);
    }
}

// ---------------------------------------------------------------------------
// Lines that can shift

/// The number of lines among `0 .. n` that move when shifting towards `dir`.
pub open spec fn shifting_lines(g: Seq<Card>, dir: Direction, n: nat) -> nat
    decreases n,
{
    if n == 0 {
        0
    } else {
        shifting_lines(g, dir, (n - 1) as nat) + if line_shifts(g, dir, n - 1) {
            1nat
        } else {
            0nat
        }
    }
}

/// Whether every direction can be shifted without a card overflowing.
pub open spec fn all_shifts_fit(g: Seq<Card>) -> bool {
    &&& shift_fits(g, Direction::Left)
    &&& shift_fits(g, Direction::Up)
    &&& shift_fits(g, Direction::Right)
    &&& shift_fits(g, Direction::Down)
}

/// The number of lines that would move, summed over the four directions.
pub open spec fn shifts_spec(g: Seq<Card>) -> nat {
    shifting_lines(g, Direction::Left, 4) + shifting_lines(g, Direction::Up, 4) + shifting_lines(
        g,
        Direction::Right,
        4,
    ) + shifting_lines(g, Direction::Down, 4)
}

/// The number of set bits of a shift mask: the lines that would move.
fn mask_lines(mask: u8, Ghost(g): Ghost<Seq<Card>>, Ghost(dir): Ghost<Direction>) -> (count: u8)
    requires
        mask == crate::board_state::shift_mask_of(g, dir),
    ensures
        count as int == shifting_lines(g, dir, 4),
        count <= 4,
{
    proof {
        crate::board_state::lemma_shift_mask_bits(g, dir);
    }
    let mut count: u8 = 0;
    let mut r: u8 = 0;
    while r < 4
        invariant
            0 <= r <= 4,
            count as int == shifting_lines(g, dir, r as nat),
            count <= r,
            forall|b: u8|
                b < 4 ==> (((mask >> b) & 1u8 == 1u8) == #[trigger] line_shifts(g, dir, b as int)),
        decreases 4 - r,
    {
        if (mask >> r) & 1 == 1 {
            count = count + 1;
        }
        r = r + 1;
    }
    count
}

/// The number of rows and columns that would move, over all four directions.
pub fn shifts(game_state: &GameState) -> (count: u8)
    requires
        all_shifts_fit(game_state.board.grid@),
    ensures
        count as int == shifts_spec(game_state.board.grid@),
{
    let ghost g = game_state.board.grid@;
    let left = mask_lines(game_state.shift_mask(Direction::Left), Ghost(g), Ghost(Direction::Left));
    let up = mask_lines(game_state.shift_mask(Direction::Up), Ghost(g), Ghost(Direction::Up));
    let right = mask_lines(
        game_state.shift_mask(Direction::Right),
        Ghost(g),
        Ghost(Direction::Right),
    );
    let down = mask_lines(game_state.shift_mask(Direction::Down), Ghost(g), Ghost(Direction::Down));
    left + up + right + down
}

// ---------------------------------------------------------------------------
// The scores of the features

/// Whether computing `algo` on grid `g` stays within a card.
pub open spec fn score_fits(algo: Algos, g: Seq<Card>) -> bool {
    match algo {
        Algos::Merges => merge_tests_fit(g, false),
        Algos::NearlyMerges => merge_tests_fit(g, true),
        _ => true,
    }
}

/// The score of `algo` for grid `g`: the count of its feature, negated for
/// squeezes, which are bad.
pub open spec fn score_spec(algo: Algos, g: Seq<Card>) -> int {
    match algo {
        Algos::Empties => empties_upto(g, 16) as int,
        Algos::Merges => merging_neighbours(g, false) as int,
        Algos::NearlyMerges => merging_neighbours(g, true) as int,
        Algos::Squeezes => -(squeezed_upto(g, 16).len() as int),
        Algos::HighWalls => points_sum(high_cells_upto(g, false, 16)),
        Algos::HighCorners => points_sum(high_cells_upto(g, true, 16)),
        Algos::Monotones => if trend_sum(g, 16) >= 0 {
            trend_sum(g, 16)
        } else {
            -trend_sum(g, 16)
        },
    }
}

impl Algos {
    /// The score of the feature for a game; 0 when there is no game.
    pub fn score(&self, game_state: &Option<GameState>, _last_move_dir: &Direction) -> (score: i8)
        requires
            game_state matches Some(gs) ==> score_fits(*self, gs.board.grid@),
        ensures
            game_state is None ==> score == 0,
            game_state matches Some(gs) ==> score as int == score_spec(*self, gs.board.grid@),
    {
        if let Some(game_state) = game_state {
            proof {
                lemma_empties_bound(game_state.board.grid@, 16);
                lemma_merge_pairs_len(game_state.board.grid@, false, 16);
                lemma_merge_pairs_len(game_state.board.grid@, true, 16);
                lemma_squeezed_len(game_state.board.grid@, 16);
                lemma_high_cells_len(game_state.board.grid@, false, 16);
                lemma_high_cells_len(game_state.board.grid@, true, 16);
                lemma_trend_sum_bound(game_state.board.grid@, 16);
            }
            let ghost g = game_state.board.grid@;
            match self {
                Algos::Empties => empties(game_state) as i8,
                Algos::Merges => merges(game_state) as i8,
                Algos::NearlyMerges => nearly_merges(game_state) as i8,
                Algos::Squeezes => {
                    let count = squeezes(game_state);
                    assert(count <= 32);
                    -(count as i8)
                },
                Algos::HighWalls => high_walls(game_state) as i8,
                Algos::HighCorners => high_corners(game_state) as i8,
                Algos::Monotones => {
                    let score = monotones(game_state);
                    assert(score <= 32);
                    score as i8
                },
            }
        } else {
            0
        }
    }
}

// ---------------------------------------------------------------------------
// Which variants of each feature a solver scores

/// The variants of a feature that a solver scores: the plain count, counts
/// scaled up or down as the game goes on, counts boosted for 1s and 2s (also
/// scaled over time), counts boosted for high cards, and counts scaled up
/// when few cells are empty (also boosted for 1s and 2s).
#[derive(Clone, Copy, Debug, PartialEq, Eq, Structural)]
pub struct AlgoConfig {
    pub base: bool,
    pub time_positive: bool,
    pub time_negative: bool,
    pub boost_12: bool,
    pub time_positive_boost_12: bool,
    pub time_negative_boost_12: bool,
    pub boost_high: bool,
    pub boost_few_empties: bool,
    pub boost_few_empties_12: bool,
}

/// The variants scored for `algos`: every feature has its plain count, both
/// time scalings and the few-empties scaling, except that Empties has no
/// few-empties scaling; Merges, NearlyMerges and Squeezes have every variant;
/// HighWalls adds the high-card boost; no other feature is boosted.
pub open spec fn config_spec(algos: Algos) -> AlgoConfig {
    let boosted_12 = algos == Algos::Merges || algos == Algos::NearlyMerges || algos
        == Algos::Squeezes;
    AlgoConfig {
        base: true,
        time_positive: true,
        time_negative: true,
        boost_12: boosted_12,
        time_positive_boost_12: boosted_12,
        time_negative_boost_12: boosted_12,
        boost_high: boosted_12 || algos == Algos::HighWalls,
        boost_few_empties: algos != Algos::Empties,
        boost_few_empties_12: boosted_12,
    }
}

/// The variants of `algos` that a solver scores.
pub fn default_config(algos: Algos) -> (config: AlgoConfig)
    ensures
        config == config_spec(algos),
{
    match algos {
        Algos::Empties => AlgoConfig {
            base: true,
            time_positive: true,
            time_negative: true,
            boost_12: false,  // meaningless
            time_positive_boost_12: false,
            time_negative_boost_12: false,
            boost_high: false,  // meaningless
            boost_few_empties: false,  // self-referential
            boost_few_empties_12: false,
        },
        Algos::Merges => AlgoConfig {
            base: true,
            time_positive: true,
            time_negative: true,
            boost_12: true,
            time_positive_boost_12: true,
            time_negative_boost_12: true,
            boost_high: true,
            boost_few_empties: true,
            boost_few_empties_12: true,
        },
        Algos::NearlyMerges => AlgoConfig {
            base: true,
            time_positive: true,
            time_negative: true,
            boost_12: true,
            time_positive_boost_12: true,
            time_negative_boost_12: true,
            boost_high: true,
            boost_few_empties: true,
            boost_few_empties_12: true,
        },
        Algos::Squeezes => AlgoConfig {
            base: true,
            time_positive: true,
            time_negative: true,
            boost_12: true,
            time_positive_boost_12: true,
            time_negative_boost_12: true,
            boost_high: true,
            boost_few_empties: true,
            boost_few_empties_12: true,
        },
        Algos::HighWalls => AlgoConfig {
            base: true,
            time_positive: true,
            time_negative: true,
            boost_12: false,
            time_positive_boost_12: false,
            time_negative_boost_12: false,
            // it credits whatever is highest at any given time; this makes it
            // count more for very high cards
            boost_high: true,
            boost_few_empties: true,
            boost_few_empties_12: false,
        },
        Algos::HighCorners => AlgoConfig {
            base: true,
            time_positive: true,
            time_negative: true,
            boost_12: false,
            time_positive_boost_12: false,
            time_negative_boost_12: false,
            boost_high: false,
            boost_few_empties: true,
            boost_few_empties_12: false,
        },
        Algos::Monotones => AlgoConfig {
            base: true,
            time_positive: true,
            time_negative: true,
            boost_12: false,  // not supported
            time_positive_boost_12: false,  // not supported
            time_negative_boost_12: false,  // not supported
            boost_high: false,  // not supported
            boost_few_empties: true,
            boost_few_empties_12: false,  // not supported
        },
    }
}

/// Every feature, in order.
pub fn all_algos() -> (all: [Algos; 7])
    ensures
        all@ == seq![
            Algos::Empties,
            Algos::Merges,
            Algos::NearlyMerges,
            Algos::Squeezes,
            Algos::HighWalls,
            Algos::HighCorners,
            Algos::Monotones,
        ],
{
    let all = [
        Algos::Empties,
        Algos::Merges,
        Algos::NearlyMerges,
        Algos::Squeezes,
        Algos::HighWalls,
        Algos::HighCorners,
        Algos::Monotones,
    ];
    proof {
        assert(all@ =~= seq![
            Algos::Empties,
            Algos::Merges,
            Algos::NearlyMerges,
            Algos::Squeezes,
            Algos::HighWalls,
            Algos::HighCorners,
            Algos::Monotones,
        ]);
    }
    all
}

/// Whether a value booster for the cards `min ..= max` boosts a score about
/// `values`: when at least one of them lies in the range.
pub fn in_boost_range(values: &[Card], min: Card, max: Card) -> (boosted: bool)
    ensures
        boosted == exists|i: int| 0 <= i < values@.len() && min <= #[trigger] values@[i] <= max,
{
    let mut i: usize = 0;
    while i < values.len()
        invariant
            0 <= i <= values@.len(),
            forall|j: int| 0 <= j < i ==> !(min <= #[trigger] values@[j] <= max),
        decreases values@.len() - i,
    {
        if min <= values[i] && values[i] <= max {
            return true;
        }
        i = i + 1;
    }
    false
}
} // verus!
