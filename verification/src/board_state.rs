//! The 4x4 board of cards and the shift that moves and merges them.
use vstd::prelude::*;

use crate::draw_pile::{draw_chain, DrawPile};
use crate::rng::{choose_from, shuffle_cards, RngType};
use crate::line::{
    lemma_line_after_shape, lemma_line_fits_step, line_after, line_fits, line_high, line_moved,
    shift_line, step, step_fits, step_high, step_moves,
};

verus! {

/// A card; 0 stands for an empty cell.
pub type Card = u16;

/// The board is `BOARD_SIZE` rows of `BOARD_SIZE` cells.
pub const BOARD_SIZE: usize = 4;

/// The cells of the board, row by row.
pub type Grid = [Card; 16];

/// A direction in which the cards can be shifted.
#[derive(Clone, Copy, Debug, PartialEq, Eq, Structural)]
pub enum Direction {
    Left,
    Up,
    Right,
    Down,
}

/// The colour in which a card is shown.
#[derive(Clone, Copy, Debug, PartialEq, Eq, Structural)]
pub enum CardColor {
    Blue,
    Red,
    Yellow,
    Plain,
}

/// The colour of a card: blue for 1, red for 2, yellow from 192 on, plain
/// otherwise.
pub open spec fn card_color_spec(cell: Card) -> CardColor {
    if cell == 1 {
        CardColor::Blue
    } else if cell == 2 {
        CardColor::Red
    } else if cell >= 192 {
        CardColor::Yellow
    } else {
        CardColor::Plain
    }
}

/// A board: its cells and the highest card that a merge has produced so far.
#[derive(Clone, Copy, Debug, PartialEq, Eq)]
pub struct BoardState {
    pub grid: Grid,
    pub high_card: Card,
}

/// The cell at position `k` of line `r` when shifting towards `dir`.
/// Position 0 lies on the wall that the cards move towards. Lines are rows
/// for `Left` and `Right` and columns for `Up` and `Down`; line `r` is bit `r`
/// of a shift mask.
pub open spec fn cell_index(dir: Direction, r: int, k: int) -> int {
    match dir {
        Direction::Left => 4 * r + k,
        Direction::Up => 3 - r + 4 * k,
        Direction::Right => 15 - 4 * r - k,
        Direction::Down => r + 12 - 4 * k,
    }
}

/// The line that holds cell `i` when shifting towards `dir`.
pub open spec fn line_index(dir: Direction, i: int) -> int {
    match dir {
        Direction::Left => i / 4,
        Direction::Up => 3 - i % 4,
        Direction::Right => (15 - i) / 4,
        Direction::Down => i % 4,
    }
}

/// The position of cell `i` in its line when shifting towards `dir`.
pub open spec fn pos_index(dir: Direction, i: int) -> int {
    match dir {
        Direction::Left => i % 4,
        Direction::Up => i / 4,
        Direction::Right => (15 - i) % 4,
        Direction::Down => 3 - i / 4,
    }
}

/// Line `r` of grid `g` when shifting towards `dir`, from the near wall to the
/// far wall.
pub open spec fn line_of(g: Seq<Card>, dir: Direction, r: int) -> Seq<int> {
    Seq::new(4, |k: int| g[cell_index(dir, r, k)] as int)
}

/// Line `r` after the shift.
pub open spec fn shifted_line(g: Seq<Card>, dir: Direction, r: int) -> Seq<int> {
    shift_line(line_of(g, dir, r))
}

/// Whether line `r` moves when shifting towards `dir`.
pub open spec fn line_shifts(g: Seq<Card>, dir: Direction, r: int) -> bool {
    line_moved(line_of(g, dir, r), 3)
}

/// Whether the shift towards `dir` keeps every card within a `u16`.
pub open spec fn shift_fits(g: Seq<Card>, dir: Direction) -> bool {
    forall|r: int| 0 <= r < 4 ==> #[trigger] line_fits(line_of(g, dir, r), 3)
}

/// The grid after shifting every line towards `dir`.
pub open spec fn shifted_grid(g: Seq<Card>, dir: Direction) -> Seq<Card> {
    Seq::new(
        16,
        |i: int| shifted_line(g, dir, line_index(dir, i))[pos_index(dir, i)] as Card,
    )
}

/// The high card after shifting lines `0 .. n`, starting from `h`.
pub open spec fn grid_high(g: Seq<Card>, dir: Direction, h: int, n: nat) -> int
    decreases n,
{
    if n == 0 {
        h
    } else {
        line_high(line_of(g, dir, n - 1), 3, grid_high(g, dir, h, (n - 1) as nat))
    }
}

/// The value of bit `r` of a mask.
pub open spec fn bit(r: int) -> int {
    if r == 0 {
        1
    } else if r == 1 {
        2
    } else if r == 2 {
        4
    } else if r == 3 {
        8
    } else {
        16
    }
}

/// The mask whose bit `r`, for `r < n`, is set when line `r` moves.
pub open spec fn mask_upto(g: Seq<Card>, dir: Direction, n: nat) -> int
    decreases n,
{
    if n == 0 {
        0
    } else {
        mask_upto(g, dir, (n - 1) as nat) + if line_shifts(g, dir, n - 1) {
            bit(n - 1)
        } else {
            0
        }
    }
}

/// The shift mask: bit `r` is set when line `r` moves.
pub open spec fn shift_mask_of(g: Seq<Card>, dir: Direction) -> u8 {
    mask_upto(g, dir, 4) as u8
}

/// Whether some line moves when shifting towards `dir`.
pub open spec fn can_shift(g: Seq<Card>, dir: Direction) -> bool {
    exists|r: int| 0 <= r < 4 && #[trigger] line_shifts(g, dir, r)
}

/// Distinct positions of the lines are distinct cells of the board.
pub proof fn lemma_cell_index_injective(dir: Direction)
    ensures
        forall|r: int, k: int|
            0 <= r < 4 && 0 <= k < 4 ==> 0 <= #[trigger] cell_index(dir, r, k) < 16,
        forall|r1: int, k1: int, r2: int, k2: int|
            0 <= r1 < 4 && 0 <= k1 < 4 && 0 <= r2 < 4 && 0 <= k2 < 4 && #[trigger] cell_index(
                dir,
                r1,
                k1,
            ) == #[trigger] cell_index(dir, r2, k2) ==> r1 == r2 && k1 == k2,
{
}

/// `line_index` and `pos_index` invert `cell_index`.
pub proof fn lemma_cell_index_inverse(dir: Direction)
    ensures
        forall|i: int|
            0 <= i < 16 ==> {
                &&& 0 <= #[trigger] line_index(dir, i) < 4
                &&& 0 <= pos_index(dir, i) < 4
                &&& cell_index(dir, line_index(dir, i), pos_index(dir, i)) == i
            },
        forall|r: int, k: int|
            0 <= r < 4 && 0 <= k < 4 ==> line_index(dir, #[trigger] cell_index(dir, r, k)) == r
                && pos_index(dir, cell_index(dir, r, k)) == k,
{
}

/// Setting bit `r` of a mask below `bit(r)` adds `bit(r)`.
proof fn lemma_set_bit(m: u8, r: u8)
    requires
        r < 4,
        (m as int) < bit(r as int),
    ensures
        (1u8 << r) as int == bit(r as int),
        (m | (1u8 << r)) as int == m + bit(r as int),
{
    assert((1u8 << 0u8) == 1u8) by (bit_vector);
    assert((1u8 << 1u8) == 2u8) by (bit_vector);
    assert((1u8 << 2u8) == 4u8) by (bit_vector);
    assert((1u8 << 3u8) == 8u8) by (bit_vector);
    assert(r < 4 && m < (1u8 << r) ==> (m | (1u8 << r)) == m + (1u8 << r)) by (bit_vector);
}

/// The bits of a mask of four lines.
proof fn lemma_four_bits(m: u8, b0: bool, b1: bool, b2: bool, b3: bool)
    by (bit_vector)
    requires
        m == (if b0 { 1u8 } else { 0u8 }) + (if b1 { 2u8 } else { 0u8 }) + (if b2 {
            4u8
        } else {
            0u8
        }) + (if b3 { 8u8 } else { 0u8 }),
    ensures
        ((m >> 0u8) & 1u8 == 1u8) == b0,
        ((m >> 1u8) & 1u8 == 1u8) == b1,
        ((m >> 2u8) & 1u8 == 1u8) == b2,
        ((m >> 3u8) & 1u8 == 1u8) == b3,
        (m == 0) == (!b0 && !b1 && !b2 && !b3),
{
}

/// Bit `r` of the shift mask is set exactly when line `r` moves, and the mask
/// is 0 exactly when no line moves.
pub proof fn lemma_shift_mask_bits(g: Seq<Card>, dir: Direction)
    ensures
        forall|r: u8|
            r < 4 ==> (((shift_mask_of(g, dir) >> r) & 1u8 == 1u8) == #[trigger] line_shifts(
                g,
                dir,
                r as int,
            )),
        (shift_mask_of(g, dir) == 0) == !can_shift(g, dir),
        0 <= mask_upto(g, dir, 4) < 16,
{
    let b0 = line_shifts(g, dir, 0);
    let b1 = line_shifts(g, dir, 1);
    let b2 = line_shifts(g, dir, 2);
    let b3 = line_shifts(g, dir, 3);
    let m = shift_mask_of(g, dir);
    reveal_with_fuel(mask_upto, 5);
    assert(mask_upto(g, dir, 4) == (if b0 { 1int } else { 0 }) + (if b1 { 2int } else { 0 }) + (
    if b2 {
        4int
    } else {
        0
    }) + (if b3 { 8int } else { 0 }));
    lemma_four_bits(m, b0, b1, b2, b3);
    assert forall|r: u8| r < 4 implies (((m >> r) & 1u8 == 1u8) == #[trigger] line_shifts(
        g,
        dir,
        r as int,
    )) by {
        if r == 0 {
        } else if r == 1 {
        } else if r == 2 {
        } else {
        }
    }
    if !can_shift(g, dir) {
        assert(!b0 && !b1 && !b2 && !b3);
    } else {
        let r = choose|r: int| 0 <= r < 4 && #[trigger] line_shifts(g, dir, r);
        assert(b0 || b1 || b2 || b3);
    }
}

/// The two cells of pair `k` of line `t`, as a line of two.
pub open spec fn pair_of(t: Seq<int>, k: int) -> Seq<int> {
    seq![t[k], t[k + 1]]
}

/// Processing pair `k` of a line only depends on the pair's two cards.
proof fn lemma_step_pair(t: Seq<int>, k: int)
    requires
        0 <= k < 3,
        t.len() == 4,
    ensures
        step(t, k) == t.update(k, step(pair_of(t, k), 0)[0]).update(
            k + 1,
            step(pair_of(t, k), 0)[1],
        ),
        step_moves(t, k) == step_moves(pair_of(t, k), 0),
        forall|h: int| step_high(t, k, h) == #[trigger] step_high(pair_of(t, k), 0, h),
        step_fits(t, k) == step_fits(pair_of(t, k), 0),
{
    assert(step(t, k) =~= t.update(k, step(pair_of(t, k), 0)[0]).update(
        k + 1,
        step(pair_of(t, k), 0)[1],
    ));
}

/// Writing the two cells of pair `k` of line `r` changes that line as
/// `step` says, and no other line.
proof fn lemma_update_pair(
    before: Seq<Card>,
    after: Seq<Card>,
    dir: Direction,
    r: int,
    k: int,
    t: Seq<int>,
)
    requires
        before.len() == 16,
        0 <= r < 4,
        0 <= k < 3,
        t.len() == 4,
        forall|kk: int|
            0 <= kk < 4 ==> before[#[trigger] cell_index(dir, r, kk)] as int == t[kk],
        after == before.update(
            cell_index(dir, r, k),
            step(pair_of(t, k), 0)[0] as Card,
        ).update(cell_index(dir, r, k + 1), step(pair_of(t, k), 0)[1] as Card),
        step_fits(t, k),
    ensures
        forall|kk: int|
            0 <= kk < 4 ==> after[#[trigger] cell_index(dir, r, kk)] as int == step(t, k)[kk],
        forall|rr: int, kk: int|
            0 <= rr < 4 && rr != r && 0 <= kk < 4 ==> after[#[trigger] cell_index(dir, rr, kk)]
                == before[cell_index(dir, rr, kk)],
{
    lemma_cell_index_injective(dir);
    lemma_step_pair(t, k);
    assert(before[cell_index(dir, r, k)] as int == t[k]);
    assert(before[cell_index(dir, r, k + 1)] as int == t[k + 1]);
}

/// Processes the neighbouring cells `cur` and `next` of a shift: the card in
/// `next` moves into an empty `cur`, or merges with the card in `cur`.
fn shift_pair(grid: &mut Grid, cur: usize, next: usize, high: &mut Card, moved: &mut bool)
    requires
        cur < 16,
        next < 16,
        cur != next,
        step_fits(seq![old(grid)@[cur as int] as int, old(grid)@[next as int] as int], 0),
    ensures
        ({
            let p = seq![old(grid)@[cur as int] as int, old(grid)@[next as int] as int];
            &&& final(grid)@ == old(grid)@.update(cur as int, step(p, 0)[0] as Card).update(
                next as int,
                step(p, 0)[1] as Card,
            )
            &&& *final(high) as int == step_high(p, 0, *old(high) as int)
            &&& *final(moved) == (*old(moved) || step_moves(p, 0))
        }),
{
    if grid[cur] == 0 {
        if grid[next] > 0 {
            *moved = true;
        }
        grid[cur] = grid[next];
        grid[next] = 0;
    } else if grid[cur] >= 3 {
        if grid[cur] == grid[next] {
            grid[cur] = grid[cur] * 2;
            grid[next] = 0;

            *moved = true;
            if grid[cur] > *high {
                *high = grid[cur];
            }
        }
    } else if grid[cur] + grid[next] == 3 {
        grid[cur] = 3;
        grid[next] = 0;

        *moved = true;
    }
}

impl BoardState {
    /// Where the loops of a shift start and how they step, for `dir`:
    /// `(outer_start, outer_incr, inner_start, inner_incr)`.
    fn offsets_for(&self, dir: Direction) -> (res: (isize, isize, isize, isize))
        ensures
            res == match dir {
                Direction::Left => (0isize, 4isize, 0isize, 1isize),
                Direction::Up => (3isize, -1isize, 0isize, 4isize),
                Direction::Right => (12isize, -4isize, 3isize, -1isize),
                Direction::Down => (0isize, 1isize, 12isize, -4isize),
            },
    {
        match dir {
            Direction::Left => (0, 4, 0, 1),
            Direction::Up => (3, -1, 0, 4),
            Direction::Right => (12, -4, 3, -1),
            Direction::Down => (0, 1, 12, -4),
        }
    }

    /// Shifts every card on the board towards `dir`. Returns the new grid, the
    /// new high card and the shift mask, whose bit `r` is set when line `r`
    /// moved.
    #[verifier::rlimit(60)]
    fn shift_existing(&self, dir: Direction) -> (res: (Grid, Card, u8))
        requires
            shift_fits(self.grid@, dir),
        ensures
            res.0@ == shifted_grid(self.grid@, dir),
            res.1 as int == grid_high(self.grid@, dir, self.high_card as int, 4),
            res.2 == shift_mask_of(self.grid@, dir),
            res.2 as int == mask_upto(self.grid@, dir, 4),
    {
        let ghost g = self.grid@;
        let ghost h0 = self.high_card as int;
        let mut new_grid = self.grid;
        let mut new_high_card = self.high_card;
        let mut shifted_mask: u8 = 0;
        let (outer_start, outer_incr, inner_start, inner_incr) = self.offsets_for(dir);
        proof {
            lemma_cell_index_injective(dir);
        }
        let mut outer: isize = outer_start;
        let mut outer_round: usize = 0;
        while outer_round < BOARD_SIZE
            invariant
                0 <= outer_round <= 4,
                g == self.grid@,
                h0 == self.high_card as int,
                shift_fits(g, dir),
                (outer_start, outer_incr, inner_start, inner_incr) == match dir {
                    Direction::Left => (0isize, 4isize, 0isize, 1isize),
                    Direction::Up => (3isize, -1isize, 0isize, 4isize),
                    Direction::Right => (12isize, -4isize, 3isize, -1isize),
                    Direction::Down => (0isize, 1isize, 12isize, -4isize),
                },
                outer + inner_start == cell_index(dir, outer_round as int, 0),
                -20 <= outer <= 20,
                forall|r: int, k: int|
                    0 <= r < 4 && 0 <= k < 4 ==> 0 <= #[trigger] cell_index(dir, r, k) < 16,
                forall|r1: int, k1: int, r2: int, k2: int|
                    0 <= r1 < 4 && 0 <= k1 < 4 && 0 <= r2 < 4 && 0 <= k2 < 4
                        && #[trigger] cell_index(dir, r1, k1) == #[trigger] cell_index(dir, r2, k2)
                        ==> r1 == r2 && k1 == k2,
                forall|r: int, k: int|
                    0 <= r < outer_round && 0 <= k < 4 ==> new_grid@[#[trigger] cell_index(
                        dir,
                        r,
                        k,
                    )] as int == shifted_line(g, dir, r)[k],
                forall|r: int, k: int|
                    outer_round <= r < 4 && 0 <= k < 4 ==> new_grid@[#[trigger] cell_index(
                        dir,
                        r,
                        k,
                    )] == g[cell_index(dir, r, k)],
                new_high_card as int == grid_high(g, dir, h0, outer_round as nat),
                shifted_mask as int == mask_upto(g, dir, outer_round as nat),
                (shifted_mask as int) < bit(outer_round as int),
            decreases 4 - outer_round,
        {
            let ghost r = outer_round as int;
            let ghost s = line_of(g, dir, r);
            let ghost high_before = new_high_card as int;
            proof {
                lemma_line_after_shape(s, 0);
                assert(line_fits(s, 3));
            }
            let mut line_moved_flag = false;
            let mut inner: isize = inner_start;
            let mut inner_round: usize = 0;
            while inner_round < BOARD_SIZE - 1
                invariant
                    0 <= inner_round <= 3,
                    0 <= r < 4,
                    r == outer_round as int,
                    s == line_of(g, dir, r),
                    s.len() == 4,
                    line_fits(s, 3),
                    (outer_start, outer_incr, inner_start, inner_incr) == match dir {
                        Direction::Left => (0isize, 4isize, 0isize, 1isize),
                        Direction::Up => (3isize, -1isize, 0isize, 4isize),
                        Direction::Right => (12isize, -4isize, 3isize, -1isize),
                        Direction::Down => (0isize, 1isize, 12isize, -4isize),
                    },
                    outer + inner == cell_index(dir, r, inner_round as int),
                    outer + inner_start == cell_index(dir, r, 0),
                    -20 <= outer <= 20,
                    -40 <= inner <= 40,
                    forall|r: int, k: int|
                        0 <= r < 4 && 0 <= k < 4 ==> 0 <= #[trigger] cell_index(dir, r, k) < 16,
                    forall|r1: int, k1: int, r2: int, k2: int|
                        0 <= r1 < 4 && 0 <= k1 < 4 && 0 <= r2 < 4 && 0 <= k2 < 4
                            && #[trigger] cell_index(dir, r1, k1) == #[trigger] cell_index(
                            dir,
                            r2,
                            k2,
                        ) ==> r1 == r2 && k1 == k2,
                    forall|k: int|
                        0 <= k < 4 ==> new_grid@[#[trigger] cell_index(dir, r, k)] as int
                            == line_after(s, inner_round as nat)[k],
                    forall|rr: int, k: int|
                        0 <= rr < r && 0 <= k < 4 ==> new_grid@[#[trigger] cell_index(
                            dir,
                            rr,
                            k,
                        )] as int == shifted_line(g, dir, rr)[k],
                    forall|rr: int, k: int|
                        r < rr < 4 && 0 <= k < 4 ==> new_grid@[#[trigger] cell_index(
                            dir,
                            rr,
                            k,
                        )] == g[cell_index(dir, rr, k)],
                    line_moved_flag == line_moved(s, inner_round as nat),
                    new_high_card as int == line_high(s, inner_round as nat, high_before),
                decreases 3 - inner_round,
            {
                proof {
                    lemma_line_after_shape(s, inner_round as nat);
                    lemma_line_fits_step(s, 3, inner_round as nat);
                }
                let ghost t = line_after(s, inner_round as nat);
                let ghost k = inner_round as int;
                let cur = (outer + inner) as usize;
                let next = (outer + inner + inner_incr) as usize;
                assert(cur as int == cell_index(dir, r, k));
                assert(next as int == cell_index(dir, r, k + 1));
                assert(new_grid@[cur as int] as int == t[k]);
                assert(new_grid@[next as int] as int == t[k + 1]);
                proof {
                    lemma_step_pair(t, k);
                }
                let ghost before = new_grid@;
                shift_pair(&mut new_grid, cur, next, &mut new_high_card, &mut line_moved_flag);
                proof {
                    lemma_update_pair(before, new_grid@, dir, r, k, t);
                }
                inner = inner + inner_incr;
                inner_round = inner_round + 1;
            }
            if line_moved_flag {
                proof {
                    lemma_set_bit(shifted_mask, outer_round as u8);
                }
                shifted_mask = shifted_mask | (1u8 << (outer_round as u8));
            }
            outer = outer + outer_incr;
            outer_round = outer_round + 1;
        }
        proof {
            lemma_cell_index_inverse(dir);
            assert(new_grid@ =~= shifted_grid(g, dir));
        }
        (new_grid, new_high_card, shifted_mask)
    }
}


/// `result` is `b` shifted towards `dir`, with `card` placed in the far cell of
/// line `r`, where the next card enters.
pub open spec fn is_placement(b: BoardState, dir: Direction, r: int, card: Card, result: BoardState) -> bool {
    &&& result.grid@ == shifted_grid(b.grid@, dir).update(cell_index(dir, r, 3), card)
    &&& result.high_card as int == grid_high(b.grid@, dir, b.high_card as int, 4)
}

/// `result` is `b` shifted towards `dir`, with no card placed.
pub open spec fn is_plain_shift(b: BoardState, dir: Direction, result: BoardState) -> bool {
    &&& result.grid@ == shifted_grid(b.grid@, dir)
    &&& result.high_card as int == grid_high(b.grid@, dir, b.high_card as int, 4)
}

/// The places where the next card can enter after a shift towards `dir`,
/// among lines `0 .. n`: one entry `(line, card)` for each line that moves, in
/// line order, and for each of `cards`, in order.
pub open spec fn placement_keys(g: Seq<Card>, dir: Direction, cards: Seq<Card>, n: nat) -> Seq<(int, Card)>
    decreases n,
{
    if n == 0 {
        Seq::empty()
    } else {
        placement_keys(g, dir, cards, (n - 1) as nat) + if line_shifts(g, dir, n - 1) {
            Seq::new(cards.len(), |j: int| (n - 1, cards[j]))
        } else {
            Seq::empty()
        }
    }
}

/// Every board of `states` is `b` shifted towards `dir` with the next card
/// placed as `keys` lists.
pub open spec fn placements_match(b: BoardState, dir: Direction, keys: Seq<(int, Card)>, states: Seq<BoardState>) -> bool {
    &&& states.len() == keys.len()
    &&& forall|i: int|
        0 <= i < states.len() ==> is_placement(b, dir, keys[i].0, keys[i].1, #[trigger] states[i])
}

/// The 90-degree clockwise rotation of a grid: the cell at row `r` and column
/// `c` moves to row `c` and column `3 - r`.
pub open spec fn rotated(g: Seq<Card>) -> Seq<Card> {
    Seq::new(16, |i: int| g[4 * (3 - i % 4) + i / 4])
}

/// The direction that `dir` becomes when the board turns 90 degrees
/// clockwise.
pub open spec fn clockwise(dir: Direction) -> Direction {
    match dir {
        Direction::Left => Direction::Up,
        Direction::Up => Direction::Right,
        Direction::Right => Direction::Down,
        Direction::Down => Direction::Left,
    }
}

/// The cell at position `k` of line `r` when shifting towards `dir`.
fn cell_at(dir: Direction, r: usize, k: usize) -> (i: usize)
    requires
        r < 4,
        k < 4,
    ensures
        i as int == cell_index(dir, r as int, k as int),
        i < 16,
{
    match dir {
        Direction::Left => 4 * r + k,
        Direction::Up => 3 - r + 4 * k,
        Direction::Right => 15 - 4 * r - k,
        Direction::Down => r + 12 - 4 * k,
    }
}

/// Turns a grid 90 degrees clockwise: the cell at row `r` and column `c`
/// moves to row `c` and column `3 - r`.
pub fn rotate_right(orig: &Grid) -> (rotated_grid: Grid)
    ensures
        rotated_grid@ == rotated(orig@),
{
    let mut rotated_grid: Grid = [0; 16];
    let mut r: usize = 0;
    while r < BOARD_SIZE
        invariant
            0 <= r <= 4,
            forall|i: int| 0 <= i < 16 && 3 - i % 4 < r ==> #[trigger] rotated_grid@[i] == rotated(orig@)[i],
        decreases 4 - r,
    {
        let mut c: usize = 0;
        while c < BOARD_SIZE
            invariant
                0 <= r < 4,
                0 <= c <= 4,
                forall|i: int|
                    0 <= i < 16 && (3 - i % 4 < r || (3 - i % 4 == r && i / 4 < c)) ==> #[trigger] rotated_grid@[i]
                        == rotated(orig@)[i],
            decreases 4 - c,
        {
            rotated_grid[c * BOARD_SIZE + (3 - r)] = orig[r * BOARD_SIZE + c];
            c = c + 1;
        }
        r = r + 1;
    }
    proof {
        assert(rotated_grid@ =~= rotated(orig@));
    }
    rotated_grid
}

impl BoardState {
    /// A new board: nine cards drawn from `draw_pile` and seven empty cells,
    /// shuffled; the high card starts at 3.
    pub fn initialize(draw_pile: &mut DrawPile, rng: &mut RngType) -> (state: Self)
        requires
            old(draw_pile).cards@.len() > 0,
            old(draw_pile).bonus_cards@.len() < 3,
        ensures
            exists|piles: Seq<Seq<Card>>, drawn: Seq<Card>|
                #![trigger draw_chain(piles, drawn)]
                {
                    &&& draw_chain(piles, drawn)
                    &&& drawn.len() == 9
                    &&& piles[0] == old(draw_pile).cards@
                    &&& piles[9] == final(draw_pile).cards@
                    &&& state.grid@.to_multiset() == (drawn + Seq::new(7, |i: int| 0u16)).to_multiset()
                },
            final(draw_pile).bonus_cards@ == old(draw_pile).bonus_cards@,
            final(draw_pile).cards@.len() > 0,
            state.high_card == 3,
    {
        let ghost bonus = draw_pile.bonus_cards@;
        let ghost mut piles: Seq<Seq<Card>> = seq![draw_pile.cards@];
        let mut grid: Vec<Card> = Vec::new();
        let mut i: usize = 0;
        while i < 9
            invariant
                0 <= i <= 9,
                grid@.len() == i,
                draw_pile.bonus_cards@ == bonus,
                bonus.len() < 3,
                draw_pile.cards@.len() > 0,
                draw_chain(piles, grid@),
                piles[0] == old(draw_pile).cards@,
                piles.last() == draw_pile.cards@,
            decreases 9 - i,
        {
            let ghost before = draw_pile.cards@;
            let drawn = draw_pile.draw(rng);
            let card = drawn.unwrap_regular();
            grid.push(card);
            proof {
                let old_piles = piles;
                piles = piles.push(draw_pile.cards@);
                assert forall|j: int| 0 <= j < grid@.len() implies crate::draw_pile::regular_draw(
                    #[trigger] piles[j],
                    piles[j + 1],
                    grid@[j],
                ) by {
                    if j < i {
                        assert(piles[j] == old_piles[j]);
                        assert(piles[j + 1] == old_piles[j + 1]);
                    }
                }
            }
            i = i + 1;
        }
        let ghost drawn_cards = grid@;
        let mut empties: Vec<Card> = vec![0; 7];
        grid.append(&mut empties);
        proof {
            assert(grid@ =~= drawn_cards + Seq::new(7, |i: int| 0u16));
        }
        let ghost unshuffled = grid@;
        shuffle_cards(&mut grid, rng);

        let mut cells: Grid = [0; 16];
        let mut j: usize = 0;
        while j < 16
            invariant
                0 <= j <= 16,
                grid@.len() == 16,
                forall|x: int| 0 <= x < j ==> #[trigger] cells@[x] == grid@[x],
            decreases 16 - j,
        {
            cells[j] = grid[j];
            j = j + 1;
        }
        proof {
            assert(cells@ =~= grid@);
            assert(draw_chain(piles, drawn_cards));
        }
        Self { grid: cells, high_card: 3 }
    }

    /// A board with the given cells and high card.
    pub fn initialize_test_state(grid: Grid, high_card: Card) -> (state: Self)
        ensures
            state.grid == grid,
            state.high_card == high_card,
    {
        Self { grid, high_card }
    }

    /// The highest card that a merge has produced.
    pub fn high_card(&self) -> (card: &Card)
        ensures
            *card == self.high_card,
    {
        &self.high_card
    }

    /// The cells of the board, row by row.
    pub fn get_grid(&self) -> (grid: &Grid)
        ensures
            *grid == self.grid,
    {
        &self.grid
    }

    /// Whether shifting towards `dir` keeps every card within a `u16`: no merge
    /// doubles a card past `u16::MAX`, and no 1-and-2 test sums past it.
    pub fn fits_shift(&self, dir: Direction) -> (fits: bool)
        ensures
            fits == shift_fits(self.grid@, dir),
    {
        let mut r: usize = 0;
        while r < 4
            invariant
                0 <= r <= 4,
                forall|q: int| 0 <= q < r ==> #[trigger] line_fits(line_of(self.grid@, dir, q), 3),
            decreases 4 - r,
        {
            if !self.line_fits_at(dir, r) {
                return false;
            }
            r = r + 1;
        }
        true
    }

    /// Whether line `r` fits when shifting towards `dir`, worked out on a copy
    /// of the line in wider numbers.
    fn line_fits_at(&self, dir: Direction, r: usize) -> (fits: bool)
        requires
            r < 4,
        ensures
            fits == line_fits(line_of(self.grid@, dir, r as int), 3),
    {
        let ghost s = line_of(self.grid@, dir, r as int);
        let mut t: [u32; 4] = [
            self.grid[cell_at(dir, r, 0)] as u32,
            self.grid[cell_at(dir, r, 1)] as u32,
            self.grid[cell_at(dir, r, 2)] as u32,
            self.grid[cell_at(dir, r, 3)] as u32,
        ];
        let mut k: usize = 0;
        while k < 3
            invariant
                0 <= k <= 3,
                s == line_of(self.grid@, dir, r as int),
                s.len() == 4,
                line_fits(s, k as nat),
                line_after(s, k as nat).len() == 4,
                forall|i: int| 0 <= i < 4 ==> #[trigger] t@[i] as int == line_after(s, k as nat)[i],
                forall|i: int| 0 <= i < 4 ==> #[trigger] t@[i] <= u16::MAX,
            decreases 3 - k,
        {
            let ghost before = line_after(s, k as nat);
            let cur = t[k];
            let next = t[k + 1];
            if cur == 0 {
                t[k] = next;
                t[k + 1] = 0;
            } else if cur >= 3 {
                if cur == next {
                    if cur * 2 > 65535 {
                        proof {
                            if line_fits(s, 3) {
                                lemma_line_fits_step(s, 3, k as nat);
                            }
                        }
                        return false;
                    }
                    t[k] = cur * 2;
                    t[k + 1] = 0;
                }
            } else {
                if cur + next > 65535 {
                    proof {
                        if line_fits(s, 3) {
                            lemma_line_fits_step(s, 3, k as nat);
                        }
                    }
                    return false;
                }
                if cur + next == 3 {
                    t[k] = 3;
                    t[k + 1] = 0;
                }
            }
            proof {
                assert(line_after(s, (k + 1) as nat) == step(before, k as int));
                assert(step_fits(before, k as int));
                assert(line_fits(s, (k + 1) as nat));
                assert(step(before, k as int).len() == 4);
            }
            k = k + 1;
        }
        true
    }

    /// The colour in which `cell` is shown.
    pub fn card_color(cell: Card) -> (color: CardColor)
        ensures
            color == card_color_spec(cell),
    {
        match cell {
            1 => CardColor::Blue,
            2 => CardColor::Red,
            n if n >= 192 => CardColor::Yellow,
            _ => CardColor::Plain,
        }
    }

    /// The shift mask of `dir`: bit `r` is set when line `r` would move.
    pub fn shift_mask(&self, dir: Direction) -> (mask: u8)
        requires
            shift_fits(self.grid@, dir),
        ensures
            mask == shift_mask_of(self.grid@, dir),
    {
        let (_, _, shifted_mask) = self.shift_existing(dir);
        shifted_mask
    }

    /// The far cell of line `line` for `dir`, where the next card enters.
    fn insertion_spot(&self, dir: Direction, line: usize) -> (spot: usize)
        requires
            line < 4,
        ensures
            spot as int == cell_index(dir, line as int, 3),
            spot < 16,
    {
        let (outer_start, outer_incr, inner_start, inner_incr) = self.offsets_for(dir);
        (outer_start + outer_incr * line as isize + inner_start + inner_incr * 3) as usize
    }

    /// Every board that a shift towards `dir` can lead to: one for each line
    /// that moves, where the next card can enter, and for each of
    /// `next_cards`, the cards that can come next.
    pub fn shift_all(&self, dir: Direction, next_cards: Vec<u16>) -> (states: Vec<Self>)
        requires
            shift_fits(self.grid@, dir),
        ensures
            placements_match(*self, dir, placement_keys(self.grid@, dir, next_cards@, 4), states@),
    {
        let (new_grid, new_high_card, shifted_mask) = self.shift_existing(dir);
        proof {
            lemma_shift_mask_bits(self.grid@, dir);
        }

        let mut new_states: Vec<Self> = Vec::new();
        let mut i: usize = 0;
        while i < BOARD_SIZE
            invariant
                0 <= i <= 4,
                shifted_mask == shift_mask_of(self.grid@, dir),
                new_grid@ == shifted_grid(self.grid@, dir),
                new_high_card as int == grid_high(self.grid@, dir, self.high_card as int, 4),
                forall|r: u8|
                    r < 4 ==> (((shifted_mask >> r) & 1u8 == 1u8) == #[trigger] line_shifts(
                        self.grid@,
                        dir,
                        r as int,
                    )),
                placements_match(*self, dir, placement_keys(self.grid@, dir, next_cards@, i as nat), new_states@),
            decreases 4 - i,
        {
            proof {
                assert(((shifted_mask >> (i as u8)) & 1u8 == 1u8) == line_shifts(
                    self.grid@,
                    dir,
                    (i as u8) as int,
                ));
            }
            if (shifted_mask >> (i as u8)) & 1 == 1 {
                let mut line_grid = new_grid;
                let new_spot = self.insertion_spot(dir, i);
                let ghost start = new_states@.len();
                let mut j: usize = 0;
                while j < next_cards.len()
                    invariant
                        0 <= j <= next_cards@.len(),
                        i < 4,
                        line_shifts(self.grid@, dir, i as int),
                        new_spot as int == cell_index(dir, i as int, 3),
                        new_spot < 16,
                        new_grid@ == shifted_grid(self.grid@, dir),
                        new_high_card as int == grid_high(self.grid@, dir, self.high_card as int, 4),
                        start == placement_keys(self.grid@, dir, next_cards@, i as nat).len(),
                        new_states@.len() == start + j,
                        forall|a: int|
                            0 <= a < start ==> is_placement(
                                *self,
                                dir,
                                placement_keys(self.grid@, dir, next_cards@, i as nat)[a].0,
                                placement_keys(self.grid@, dir, next_cards@, i as nat)[a].1,
                                #[trigger] new_states@[a],
                            ),
                        forall|a: int|
                            0 <= a < j ==> is_placement(
                                *self,
                                dir,
                                i as int,
                                next_cards@[a],
                                #[trigger] new_states@[start + a],
                            ),
                        line_grid@.len() == 16,
                        forall|x: int|
                            0 <= x < 16 && x != new_spot ==> #[trigger] line_grid@[x] == new_grid@[x],
                    decreases next_cards@.len() - j,
                {
                    line_grid[new_spot] = next_cards[j];
                    proof {
                        assert(line_grid@ =~= shifted_grid(self.grid@, dir).update(
                            cell_index(dir, i as int, 3),
                            next_cards@[j as int],
                        ));
                    }
                    new_states.push(Self { grid: line_grid, high_card: new_high_card });
                    proof {
                        assert(new_states@[start + j] == Self { grid: line_grid, high_card: new_high_card });
                    }
                    j = j + 1;
                }
                proof {
                    let k1 = placement_keys(self.grid@, dir, next_cards@, (i + 1) as nat);
                    assert(k1 =~= placement_keys(self.grid@, dir, next_cards@, i as nat) + Seq::new(
                        next_cards@.len(),
                        |jj: int| (i as int, next_cards@[jj]),
                    ));
                    assert forall|a: int| 0 <= a < new_states@.len() implies is_placement(
                        *self,
                        dir,
                        k1[a].0,
                        k1[a].1,
                        #[trigger] new_states@[a],
                    ) by {
                        if a >= start {
                            assert(new_states@[a] == new_states@[start + (a - start)]);
                        }
                    }
                }
            } else {
                proof {
                    assert(placement_keys(self.grid@, dir, next_cards@, (i + 1) as nat) =~= placement_keys(self.grid@, dir, next_cards@, i as nat));
                }
            }
            i = i + 1;
        }
        new_states
    }

    /// Shifts the board towards `dir`. Returns `None` when no line moves.
    /// Otherwise, when `next` holds a card, the card enters the far cell of one
    /// of the lines that moved, chosen at random. The generator is drawn from
    /// only to place a card.
    pub fn shift(&self, dir: Direction, next: Option<Card>, rng: &mut RngType) -> (result: Option<Self>)
        requires
            shift_fits(self.grid@, dir),
        ensures
            result is None <==> !can_shift(self.grid@, dir),
            result is Some && next is None ==> is_plain_shift(*self, dir, result.unwrap()),
            result is None || next is None ==> *final(rng) == *old(rng),
            result is Some && next is Some ==> exists|r: int|
                0 <= r < 4 && line_shifts(self.grid@, dir, r) && #[trigger] is_placement(
                    *self,
                    dir,
                    r,
                    next.unwrap(),
                    result.unwrap(),
                ),
    {
        let (mut new_grid, new_high_card, shifted_mask) = self.shift_existing(dir);
        proof {
            lemma_shift_mask_bits(self.grid@, dir);
        }

        // If nothing shifted, this direction can't shift
        if shifted_mask == 0 {
            return None;
        }

        if let Some(card) = next {
            // Start by collecting the rows/cols that shifted...
            let mut candidates: Vec<usize> = Vec::new();
            let mut i: usize = 0;
            while i < BOARD_SIZE
                invariant
                    0 <= i <= 4,
                    forall|r: u8|
                        r < 4 ==> (((shifted_mask >> r) & 1u8 == 1u8) == #[trigger] line_shifts(
                            self.grid@,
                            dir,
                            r as int,
                        )),
                    forall|a: int|
                        0 <= a < candidates@.len() ==> #[trigger] candidates@[a] < 4
                            && line_shifts(self.grid@, dir, candidates@[a] as int),
                    shifted_mask != 0,
                    can_shift(self.grid@, dir),
                    forall|r: int|
                        0 <= r < i && line_shifts(self.grid@, dir, r) ==> candidates@.contains(
                            r as usize,
                        ),
                decreases 4 - i,
            {
                proof {
                    assert(((shifted_mask >> (i as u8)) & 1u8 == 1u8) == line_shifts(
                        self.grid@,
                        dir,
                        (i as u8) as int,
                    ));
                }
                let ghost old_candidates = candidates@;
                if (shifted_mask >> (i as u8)) & 1 == 1 {
                    candidates.push(i);
                    proof {
                        assert(candidates@[old_candidates.len() as int] == i);
                    }
                }
                proof {
                    assert forall|r: int|
                        0 <= r < i + 1 && line_shifts(self.grid@, dir, r) implies candidates@.contains(
                        r as usize,
                    ) by {
                        if r < i {
                            let a = choose|a: int|
                                0 <= a < old_candidates.len() && old_candidates[a] == r as usize;
                            assert(candidates@[a] == r as usize);
                        } else {
                            assert(candidates@[old_candidates.len() as int] == i);
                        }
                    }
                }
                i = i + 1;
            }
            proof {
                let r = choose|r: int| 0 <= r < 4 && #[trigger] line_shifts(self.grid@, dir, r);
                assert(candidates@.contains(r as usize));
            }

            // Then pick one row/col at random, and insert the new card there.
            let chosen = choose_from(candidates.as_slice(), rng);
            let outer = chosen.unwrap();
            proof {
                let a = choose|a: int| 0 <= a < candidates@.len() && candidates@[a] == outer;
                assert(candidates@[a] < 4);
            }
            let new_spot = self.insertion_spot(dir, outer);
            new_grid[new_spot] = card;
            proof {
                assert(new_grid@ =~= shifted_grid(self.grid@, dir).update(
                    cell_index(dir, outer as int, 3),
                    card,
                ));
                let a = choose|a: int| 0 <= a < candidates@.len() && candidates@[a] == outer;
                assert(line_shifts(self.grid@, dir, outer as int));
                let b = Self { grid: new_grid, high_card: new_high_card };
                assert(0 <= outer < 4);
                assert(is_placement(*self, dir, outer as int, card, b));
                assert(next == Some(card));
                assert(next.unwrap() == card);
                assert(Some(b).unwrap() == b);
            }
            return Some(Self { grid: new_grid, high_card: new_high_card });
        }

        Some(Self { grid: new_grid, high_card: new_high_card })
    }
}
} // verus!
