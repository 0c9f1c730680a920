//! Properties of the game that hold for every board and every pile: what
//! shifting keeps, how the moves and the bonus cards relate, and which board
//! features do not depend on how the board is turned.
use vstd::prelude::*;

use crate::board_state::{
    bit, cell_index, clockwise, grid_high, lemma_cell_index_inverse, line_index, line_of,
    line_shifts, mask_upto, pos_index, rotated, shift_fits, shift_mask_of, shifted_grid,
    shifted_line, placement_keys, BoardState, Card, Direction,
};
use crate::algo::{
    cell_counted, cell_squeezes, cell_trend, down_pairs_upto, empties_upto, high_cells_upto,
    high_points, in_corner, max_below, on_wall, points_sum, top_three, lemma_merge_pairs_count,
    lemma_pair_merges_symmetric, lemma_sides_are_pairs_twice, merge_pairs_upto,
    merging_neighbours, pair_merges, right_pairs_upto, score_spec, shifting_lines,
    squeezed_upto, trend, trend_sum, Algos, neighbor_card, shifts_spec, squeezing_spec,
};
use crate::draw_pile::bonus_after_high_card;
use crate::game_state::{is_successor, GameState};
use crate::line::{line_after, line_fits, line_high, line_moved, shift_line};

verus! {

/// Turning the board clockwise carries each cell of line `r` at position `k`
/// for `dir` to the cell of line `r` at position `k` for the turned direction.
proof fn lemma_rotated_cell(dir: Direction, r: int, k: int)
    requires
        0 <= r < 4,
        0 <= k < 4,
    ensures
        ({
            let i = cell_index(clockwise(dir), r, k);
            4 * (3 - i % 4) + i / 4 == cell_index(dir, r, k)
        }),
{
}

/// The lines of a turned board, for the turned direction, are the lines of
/// the board.
proof fn lemma_rotated_lines(g: Seq<Card>, dir: Direction)
    requires
        g.len() == 16,
    ensures
        forall|r: int| 0 <= r < 4 ==> #[trigger] line_of(rotated(g), clockwise(dir), r) == line_of(g, dir, r),
{
    assert forall|r: int| 0 <= r < 4 implies #[trigger] line_of(rotated(g), clockwise(dir), r)
        == line_of(g, dir, r) by {
        assert forall|k: int| 0 <= k < 4 implies line_of(rotated(g), clockwise(dir), r)[k] == line_of(
            g,
            dir,
            r,
        )[k] by {
            lemma_rotated_cell(dir, r, k);
            let i = cell_index(clockwise(dir), r, k);
            lemma_cell_index_inverse(clockwise(dir));
            assert(0 <= i < 16);
        }
        assert(line_of(rotated(g), clockwise(dir), r) =~= line_of(g, dir, r));
    }
}

proof fn lemma_rotated_mask(g: Seq<Card>, dir: Direction, n: nat)
    requires
        g.len() == 16,
        n <= 4,
    ensures
        mask_upto(rotated(g), clockwise(dir), n) == mask_upto(g, dir, n),
        forall|h: int| #[trigger] grid_high(rotated(g), clockwise(dir), h, n) == grid_high(g, dir, h, n),
    decreases n,
{
    lemma_rotated_lines(g, dir);
    if n > 0 {
        lemma_rotated_mask(g, dir, (n - 1) as nat);
        assert(line_of(rotated(g), clockwise(dir), n - 1) == line_of(g, dir, n - 1));
        assert forall|h: int| #[trigger] grid_high(rotated(g), clockwise(dir), h, n) == grid_high(
            g,
            dir,
            h,
            n,
        ) by {
            assert(grid_high(rotated(g), clockwise(dir), h, (n - 1) as nat) == grid_high(
                g,
                dir,
                h,
                (n - 1) as nat,
            ));
        }
    }
}

/// Shifting commutes with turning the board: shifting the board turned 90
/// degrees clockwise, in the turned direction, gives the turned result of
/// shifting the board, with the same shift mask and high card, and the same
/// cards overflowing or not. (Shifting up is shifting left on a board turned
/// clockwise, and so on around.)
pub proof fn law_shift_commutes_with_rotation(g: Seq<Card>, dir: Direction)
    requires
        g.len() == 16,
    ensures
        shifted_grid(rotated(g), clockwise(dir)) == rotated(shifted_grid(g, dir)),
        shift_mask_of(rotated(g), clockwise(dir)) == shift_mask_of(g, dir),
        forall|h: int| #[trigger] grid_high(rotated(g), clockwise(dir), h, 4) == grid_high(g, dir, h, 4),
        shift_fits(rotated(g), clockwise(dir)) == shift_fits(g, dir),
        forall|r: int| 0 <= r < 4 ==> #[trigger] line_shifts(rotated(g), clockwise(dir), r) == line_shifts(g, dir, r),
{
    lemma_rotated_lines(g, dir);
    lemma_rotated_mask(g, dir, 4);
    lemma_cell_index_inverse(dir);
    lemma_cell_index_inverse(clockwise(dir));
    assert forall|i: int| 0 <= i < 16 implies shifted_grid(rotated(g), clockwise(dir))[i]
        == rotated(shifted_grid(g, dir))[i] by {
        let r = line_index(clockwise(dir), i);
        let k = pos_index(clockwise(dir), i);
        lemma_rotated_cell(dir, r, k);
        assert(line_of(rotated(g), clockwise(dir), r) == line_of(g, dir, r));
        let j = 4 * (3 - i % 4) + i / 4;
        assert(j == cell_index(dir, r, k));
        assert(line_index(dir, j) == r && pos_index(dir, j) == k);
    }
    assert(shifted_grid(rotated(g), clockwise(dir)) =~= rotated(shifted_grid(g, dir)));
    if shift_fits(g, dir) {
        assert forall|r: int| 0 <= r < 4 implies #[trigger] line_fits(
            line_of(rotated(g), clockwise(dir), r),
            3,
        ) by {
            assert(line_fits(line_of(g, dir, r), 3));
        }
    }
    if shift_fits(rotated(g), clockwise(dir)) {
        assert forall|r: int| 0 <= r < 4 implies #[trigger] line_fits(line_of(g, dir, r), 3) by {
            assert(line_fits(line_of(rotated(g), clockwise(dir), r), 3));
        }
    }
}


/// The sum of the first `n` cards.
pub open spec fn total_upto(g: Seq<Card>, n: nat) -> int
    decreases n,
{
    if n == 0 {
        0
    } else {
        total_upto(g, (n - 1) as nat) + g[n - 1]
    }
}

/// The sum of the cards of a board.
pub open spec fn grid_total(g: Seq<Card>) -> int {
    total_upto(g, 16)
}

/// The sum of a line.
pub open spec fn line_total(s: Seq<int>) -> int {
    s[0] + s[1] + s[2] + s[3]
}

proof fn lemma_line_after_total(s: Seq<int>, j: nat)
    requires
        s.len() == 4,
        j <= 3,
    ensures
        line_after(s, j).len() == 4,
        line_total(line_after(s, j)) == line_total(s),
    decreases j,
{
    if j > 0 {
        lemma_line_after_total(s, (j - 1) as nat);
    }
}

/// A line of cards that fits keeps its cards within a `u16`.
proof fn lemma_line_after_bounds(s: Seq<int>, j: nat)
    requires
        s.len() == 4,
        j <= 3,
        forall|i: int| 0 <= i < 4 ==> 0 <= #[trigger] s[i] <= u16::MAX,
        line_fits(s, j),
    ensures
        forall|i: int| 0 <= i < 4 ==> 0 <= #[trigger] line_after(s, j)[i] <= u16::MAX,
    decreases j,
{
    if j > 0 {
        lemma_line_after_bounds(s, (j - 1) as nat);
        lemma_line_after_total(s, (j - 1) as nat);
    }
}

/// The sum of a board is the sum of its lines, for any direction.
proof fn lemma_total_by_lines(g: Seq<Card>, dir: Direction)
    requires
        g.len() == 16,
    ensures
        grid_total(g) == line_total(line_of(g, dir, 0)) + line_total(line_of(g, dir, 1)) + line_total(
            line_of(g, dir, 2),
        ) + line_total(line_of(g, dir, 3)),
{
    reveal_with_fuel(total_upto, 17);
}

/// Shifting keeps the sum of the cards on the board: a move shifts cards,
/// and a merge replaces two cards by their sum.
pub proof fn law_shift_keeps_total(g: Seq<Card>, dir: Direction)
    requires
        g.len() == 16,
        shift_fits(g, dir),
    ensures
        grid_total(shifted_grid(g, dir)) == grid_total(g),
{
    let sg = shifted_grid(g, dir);
    lemma_cell_index_inverse(dir);
    assert forall|r: int| 0 <= r < 4 implies #[trigger] line_of(sg, dir, r) == shifted_line(g, dir, r) by {
        let s = line_of(g, dir, r);
        assert(line_fits(s, 3));
        lemma_line_after_bounds(s, 3);
        lemma_line_after_total(s, 3);
        assert(line_of(sg, dir, r) =~= shifted_line(g, dir, r));
    }
    lemma_total_by_lines(g, dir);
    lemma_total_by_lines(sg, dir);
    assert forall|r: int| 0 <= r < 4 implies #[trigger] line_total(shifted_line(g, dir, r)) == line_total(line_of(g, dir, r)) by {
        lemma_line_after_total(line_of(g, dir, r), 3);
    }
    assert(line_total(line_of(sg, dir, 0)) == line_total(line_of(g, dir, 0)));
    assert(line_total(line_of(sg, dir, 1)) == line_total(line_of(g, dir, 1)));
    assert(line_total(line_of(sg, dir, 2)) == line_total(line_of(g, dir, 2)));
    assert(line_total(line_of(sg, dir, 3)) == line_total(line_of(g, dir, 3)));
}

proof fn lemma_line_high_grows(s: Seq<int>, j: nat, h: int)
    ensures
        line_high(s, j, h) >= h,
    decreases j,
{
    if j > 0 {
        lemma_line_high_grows(s, (j - 1) as nat, h);
    }
}

proof fn lemma_grid_high_grows(g: Seq<Card>, dir: Direction, h: int, n: nat)
    ensures
        grid_high(g, dir, h, n) >= h,
    decreases n,
{
    if n > 0 {
        lemma_grid_high_grows(g, dir, h, (n - 1) as nat);
        lemma_line_high_grows(line_of(g, dir, n - 1), 3, grid_high(g, dir, h, (n - 1) as nat));
    }
}

/// A shift never lowers the high card.
pub proof fn law_high_card_never_drops(g: Seq<Card>, dir: Direction, high_card: Card)
    ensures
        grid_high(g, dir, high_card as int, 4) >= high_card,
{
    lemma_grid_high_grows(g, dir, high_card as int, 4);
}

/// Boards whose cards are at most half of `u16::MAX` can shift in every
/// direction without a card overflowing.
pub proof fn law_small_cards_fit(g: Seq<Card>, dir: Direction)
    requires
        g.len() == 16,
        forall|i: int| 0 <= i < 16 ==> #[trigger] g[i] <= u16::MAX / 2,
    ensures
        shift_fits(g, dir),
{
    crate::board_state::lemma_cell_index_injective(dir);
    assert forall|r: int| 0 <= r < 4 implies #[trigger] line_fits(line_of(g, dir, r), 3) by {
        let s = line_of(g, dir, r);
        assert forall|i: int| 0 <= i < 4 implies 0 <= #[trigger] s[i] <= u16::MAX / 2 by {
            assert(g[cell_index(dir, r, i)] <= u16::MAX / 2);
        }
        crate::line::lemma_small_line_fits(s, 3);
    }
}

proof fn lemma_keys_contain(g: Seq<Card>, dir: Direction, cards: Seq<Card>, n: nat, r: int, j: int)
    requires
        0 <= r < n,
        0 <= j < cards.len(),
        line_shifts(g, dir, r),
    ensures
        placement_keys(g, dir, cards, n).contains((r, cards[j])),
    decreases n,
{
    let prev = placement_keys(g, dir, cards, (n - 1) as nat);
    if r < n - 1 {
        lemma_keys_contain(g, dir, cards, (n - 1) as nat, r, j);
        let a = choose|a: int| 0 <= a < prev.len() && prev[a] == (r, cards[j]);
        assert(placement_keys(g, dir, cards, n)[a] == (r, cards[j]));
    } else {
        assert(placement_keys(g, dir, cards, n)[prev.len() + j] == (r, cards[j]));
    }
}

proof fn lemma_keys_len(g: Seq<Card>, dir: Direction, cards: Seq<Card>, n: nat)
    ensures
        placement_keys(g, dir, cards, n).len() == shifting_lines(g, dir, n) * cards.len(),
    decreases n,
{
    if n > 0 {
        lemma_keys_len(g, dir, cards, (n - 1) as nat);
        assert(placement_keys(g, dir, cards, n).len() == placement_keys(
            g,
            dir,
            cards,
            (n - 1) as nat,
        ).len() + (if line_shifts(g, dir, n - 1) {
            cards.len() as int
        } else {
            0
        }));
        assert(shifting_lines(g, dir, n) * cards.len() == shifting_lines(g, dir, (n - 1) as nat)
            * cards.len() + (if line_shifts(g, dir, n - 1) {
            cards.len() as int
        } else {
            0
        })) by (nonlinear_arith)
            requires
                shifting_lines(g, dir, n) == shifting_lines(g, dir, (n - 1) as nat) + (if line_shifts(
                    g,
                    dir,
                    n - 1,
                ) {
                    1nat
                } else {
                    0nat
                }),
        ;
    } else {
        assert(0 * cards.len() == 0) by (nonlinear_arith);
    }
}

/// The outcomes of `shift_all` are exactly the possible outcomes of a move:
/// one for each line that moves and each card that can come next, so there
/// are as many as moving lines times cards, and every place where a random
/// move can put the next card is among them.
pub proof fn law_shift_all_covers_every_shift(g: Seq<Card>, dir: Direction, cards: Seq<Card>)
    ensures
        placement_keys(g, dir, cards, 4).len() == shifting_lines(g, dir, 4) * cards.len(),
        forall|r: int, card: Card|
            0 <= r < 4 && line_shifts(g, dir, r) && cards.contains(card) ==> #[trigger] placement_keys(
                g,
                dir,
                cards,
                4,
            ).contains((r, card)),
        forall|i: int|
            0 <= i < placement_keys(g, dir, cards, 4).len() ==> {
                let key = #[trigger] placement_keys(g, dir, cards, 4)[i];
                0 <= key.0 < 4 && line_shifts(g, dir, key.0) && cards.contains(key.1)
            },
{
    lemma_keys_len(g, dir, cards, 4);
    assert forall|r: int, card: Card|
        0 <= r < 4 && line_shifts(g, dir, r) && cards.contains(card) implies #[trigger] placement_keys(
            g,
            dir,
            cards,
            4,
        ).contains((r, card)) by {
        let j = choose|j: int| 0 <= j < cards.len() && cards[j] == card;
        lemma_keys_contain(g, dir, cards, 4, r, j);
    }
    lemma_keys_sound(g, dir, cards, 4);
}

proof fn lemma_keys_sound(g: Seq<Card>, dir: Direction, cards: Seq<Card>, n: nat)
    ensures
        forall|i: int|
            0 <= i < placement_keys(g, dir, cards, n).len() ==> {
                let key = #[trigger] placement_keys(g, dir, cards, n)[i];
                0 <= key.0 < n && line_shifts(g, dir, key.0) && cards.contains(key.1)
            },
    decreases n,
{
    if n > 0 {
        lemma_keys_sound(g, dir, cards, (n - 1) as nat);
        let prev = placement_keys(g, dir, cards, (n - 1) as nat);
        let keys = placement_keys(g, dir, cards, n);
        assert forall|i: int| 0 <= i < keys.len() implies {
            let key = #[trigger] keys[i];
            0 <= key.0 < n && line_shifts(g, dir, key.0) && cards.contains(key.1)
        } by {
            if i < prev.len() {
                assert(keys[i] == prev[i]);
            } else {
                let j = i - prev.len();
                assert(keys[i] == (n - 1, cards[j]));
                assert(cards.contains(cards[j]));
            }
        }
    }
}

/// Whether `s` is strictly increasing.
pub open spec fn strictly_increasing(s: Seq<Card>) -> bool {
    forall|i: int, j: int| 0 <= i < j < s.len() ==> #[trigger] s[i] < #[trigger] s[j]
}

/// Reporting the same high card twice changes the bonus cards no more than
/// reporting it once.
pub proof fn law_new_high_card_idempotent(bonus: Seq<Card>, high: Card)
    ensures
        bonus_after_high_card(bonus_after_high_card(bonus, high), high) == bonus_after_high_card(
            bonus,
            high,
        ),
{
}

/// The bonus cards stay in strictly increasing order when a high card is
/// reported: they start as 6, 12, 24 and only ever gain a card larger than
/// the last.
pub proof fn law_bonus_cards_stay_sorted(bonus: Seq<Card>, high: Card)
    requires
        strictly_increasing(bonus),
    ensures
        strictly_increasing(bonus_after_high_card(bonus, high)),
{
    let after = bonus_after_high_card(bonus, high);
    if high >= 192 {
        let seeded = if bonus.len() == 0 {
            seq![6u16, 12, 24]
        } else {
            bonus
        };
        assert(strictly_increasing(seeded));
        if seeded.last() < high / 8 {
            assert forall|i: int, j: int| 0 <= i < j < after.len() implies #[trigger] after[i]
                < #[trigger] after[j] by {
                if j == after.len() - 1 {
                    if i < seeded.len() - 1 {
                        assert(seeded[i] < seeded[seeded.len() - 1]);
                    }
                }
            }
        }
    }
}

/// A move keeps the bonus cards of a game in strictly increasing order.
pub proof fn law_moves_keep_bonus_sorted(before: GameState, board: BoardState, after: GameState)
    requires
        is_successor(before, board, after),
        strictly_increasing(before.draw_pile.bonus_cards@),
    ensures
        strictly_increasing(after.draw_pile.bonus_cards@),
{
    law_bonus_cards_stay_sorted(before.draw_pile.bonus_cards@, board.high_card);
}

/// The list of merging pairs names each neighbouring pair of cards twice,
/// once from each of its two cards: it is twice as long as the number of
/// neighbouring pairs that merge (or nearly merge), which `merges` and
/// `nearly_merges` count.
pub proof fn law_merge_pairs_list_each_pair_twice(g: Seq<Card>, nearly: bool)
    requires
        g.len() == 16,
    ensures
        merge_pairs_upto(g, nearly, 16).len() == 2 * merging_neighbours(g, nearly),
{
    lemma_merge_pairs_count(g, nearly, 16);
    lemma_sides_are_pairs_twice(g, nearly);
}

/// 1 when two cards merge (or nearly merge), 0 otherwise.
#[verifier::opaque]
spec fn merge_count(nearly: bool, a: Card, b: Card) -> nat {
    if pair_merges(nearly, a, b) {
        1
    } else {
        0
    }
}

proof fn lemma_merge_count_symmetric(nearly: bool, a: Card, b: Card)
    ensures
        merge_count(nearly, a, b) == merge_count(nearly, b, a),
{
    reveal(merge_count);
    lemma_pair_merges_symmetric(nearly, a, b);
}

/// The twelve pairs of cards side by side, written out.
spec fn row_pairs(g: Seq<Card>, nearly: bool) -> nat {
    merge_count(nearly, g[0], g[1]) + merge_count(nearly, g[1], g[2]) + merge_count(nearly, g[2], g[3])
        + merge_count(nearly, g[4], g[5]) + merge_count(nearly, g[5], g[6]) + merge_count(
        nearly,
        g[6],
        g[7],
    ) + merge_count(nearly, g[8], g[9]) + merge_count(nearly, g[9], g[10]) + merge_count(
        nearly,
        g[10],
        g[11],
    ) + merge_count(nearly, g[12], g[13]) + merge_count(nearly, g[13], g[14]) + merge_count(
        nearly,
        g[14],
        g[15],
    )
}

/// The twelve pairs of cards one above the other, written out.
spec fn column_pairs(g: Seq<Card>, nearly: bool) -> nat {
    merge_count(nearly, g[0], g[4]) + merge_count(nearly, g[1], g[5]) + merge_count(nearly, g[2], g[6])
        + merge_count(nearly, g[3], g[7]) + merge_count(nearly, g[4], g[8]) + merge_count(
        nearly,
        g[5],
        g[9],
    ) + merge_count(nearly, g[6], g[10]) + merge_count(nearly, g[7], g[11]) + merge_count(
        nearly,
        g[8],
        g[12],
    ) + merge_count(nearly, g[9], g[13]) + merge_count(nearly, g[10], g[14]) + merge_count(
        nearly,
        g[11],
        g[15],
    )
}

/// One more cell adds its pair with the cell to its right.
proof fn lemma_right_pair_step(g: Seq<Card>, nearly: bool, n: nat)
    ensures
        right_pairs_upto(g, nearly, n + 1) == right_pairs_upto(g, nearly, n) + if n % 4 < 3 {
            merge_count(nearly, g[n as int], g[n + 1int])
        } else {
            0
        },
{
    reveal(merge_count);
}

/// One more cell adds its pair with the cell below it.
proof fn lemma_down_pair_step(g: Seq<Card>, nearly: bool, n: nat)
    ensures
        down_pairs_upto(g, nearly, n + 1) == down_pairs_upto(g, nearly, n) + if n < 12 {
            merge_count(nearly, g[n as int], g[n + 4int])
        } else {
            0
        },
{
    reveal(merge_count);
}

proof fn lemma_row_pairs(g: Seq<Card>, nearly: bool)
    ensures
        right_pairs_upto(g, nearly, 16) == row_pairs(g, nearly),
{
    assert(right_pairs_upto(g, nearly, 0) == 0);
    lemma_right_pair_step(g, nearly, 0);
    lemma_right_pair_step(g, nearly, 1);
    lemma_right_pair_step(g, nearly, 2);
    lemma_right_pair_step(g, nearly, 3);
    lemma_right_pair_step(g, nearly, 4);
    lemma_right_pair_step(g, nearly, 5);
    lemma_right_pair_step(g, nearly, 6);
    lemma_right_pair_step(g, nearly, 7);
    lemma_right_pair_step(g, nearly, 8);
    lemma_right_pair_step(g, nearly, 9);
    lemma_right_pair_step(g, nearly, 10);
    lemma_right_pair_step(g, nearly, 11);
    lemma_right_pair_step(g, nearly, 12);
    lemma_right_pair_step(g, nearly, 13);
    lemma_right_pair_step(g, nearly, 14);
    lemma_right_pair_step(g, nearly, 15);
}

proof fn lemma_column_pairs(g: Seq<Card>, nearly: bool)
    ensures
        down_pairs_upto(g, nearly, 16) == column_pairs(g, nearly),
{
    assert(down_pairs_upto(g, nearly, 0) == 0);
    lemma_down_pair_step(g, nearly, 0);
    lemma_down_pair_step(g, nearly, 1);
    lemma_down_pair_step(g, nearly, 2);
    lemma_down_pair_step(g, nearly, 3);
    lemma_down_pair_step(g, nearly, 4);
    lemma_down_pair_step(g, nearly, 5);
    lemma_down_pair_step(g, nearly, 6);
    lemma_down_pair_step(g, nearly, 7);
    lemma_down_pair_step(g, nearly, 8);
    lemma_down_pair_step(g, nearly, 9);
    lemma_down_pair_step(g, nearly, 10);
    lemma_down_pair_step(g, nearly, 11);
    lemma_down_pair_step(g, nearly, 12);
    lemma_down_pair_step(g, nearly, 13);
    lemma_down_pair_step(g, nearly, 14);
    lemma_down_pair_step(g, nearly, 15);
}

/// The cells of a board turned clockwise, written out.
proof fn lemma_rotated_cells(g: Seq<Card>)
    requires
        g.len() == 16,
    ensures
        rotated(g)[0] == g[12] && rotated(g)[1] == g[8] && rotated(g)[2] == g[4] && rotated(g)[3]
            == g[0],
        rotated(g)[4] == g[13] && rotated(g)[5] == g[9] && rotated(g)[6] == g[5] && rotated(g)[7]
            == g[1],
        rotated(g)[8] == g[14] && rotated(g)[9] == g[10] && rotated(g)[10] == g[6]
            && rotated(g)[11] == g[2],
        rotated(g)[12] == g[15] && rotated(g)[13] == g[11] && rotated(g)[14] == g[7]
            && rotated(g)[15] == g[3],
{
}

/// Turning the board does not change how many neighbouring pairs merge (or
/// nearly merge): pairs side by side become pairs one above the other and
/// the other way round.
pub proof fn law_merges_unchanged_by_turning(g: Seq<Card>, nearly: bool)
    requires
        g.len() == 16,
    ensures
        merging_neighbours(rotated(g), nearly) == merging_neighbours(g, nearly),
{
    let t = rotated(g);
    lemma_row_pairs(g, nearly);
    lemma_row_pairs(t, nearly);
    lemma_column_pairs(g, nearly);
    lemma_column_pairs(t, nearly);
    lemma_rotated_cells(g);
    assert forall|a: Card, b: Card| #[trigger] merge_count(nearly, a, b) == merge_count(nearly, b, a) by {
        lemma_merge_count_symmetric(nearly, a, b);
    }
    assert(row_pairs(t, nearly) == column_pairs(g, nearly));
    assert(column_pairs(t, nearly) == row_pairs(g, nearly));
}

/// 1 for an empty cell, 0 otherwise.
#[verifier::opaque]
spec fn empty_count(card: Card) -> nat {
    if card == 0 {
        1
    } else {
        0
    }
}

proof fn lemma_empties_step(g: Seq<Card>, n: nat)
    ensures
        empties_upto(g, n + 1) == empties_upto(g, n) + empty_count(g[n as int]),
{
    reveal(empty_count);
}

proof fn lemma_empties_written_out(g: Seq<Card>)
    ensures
        empties_upto(g, 16) == empty_count(g[0]) + empty_count(g[1]) + empty_count(g[2])
            + empty_count(g[3]) + empty_count(g[4]) + empty_count(g[5]) + empty_count(g[6])
            + empty_count(g[7]) + empty_count(g[8]) + empty_count(g[9]) + empty_count(g[10])
            + empty_count(g[11]) + empty_count(g[12]) + empty_count(g[13]) + empty_count(g[14])
            + empty_count(g[15]),
{
    assert(empties_upto(g, 0) == 0);
    lemma_empties_step(g, 0);
    lemma_empties_step(g, 1);
    lemma_empties_step(g, 2);
    lemma_empties_step(g, 3);
    lemma_empties_step(g, 4);
    lemma_empties_step(g, 5);
    lemma_empties_step(g, 6);
    lemma_empties_step(g, 7);
    lemma_empties_step(g, 8);
    lemma_empties_step(g, 9);
    lemma_empties_step(g, 10);
    lemma_empties_step(g, 11);
    lemma_empties_step(g, 12);
    lemma_empties_step(g, 13);
    lemma_empties_step(g, 14);
    lemma_empties_step(g, 15);
}

/// Turning the board does not change the number of empty cells.
pub proof fn law_empties_unchanged_by_turning(g: Seq<Card>)
    requires
        g.len() == 16,
    ensures
        empties_upto(rotated(g), 16) == empties_upto(g, 16),
{
    lemma_empties_written_out(g);
    lemma_empties_written_out(rotated(g));
    lemma_rotated_cells(g);
}

/// The number of times cell `i` is squeezed: once per axis.
spec fn squeezes_of(g: Seq<Card>, i: int) -> nat {
    cell_squeezes(g, i).len()
}

proof fn lemma_squeezes_step(g: Seq<Card>, n: nat)
    ensures
        squeezed_upto(g, n + 1).len() == squeezed_upto(g, n).len() + squeezes_of(g, n as int),
{
}

proof fn lemma_squeezes_written_out(g: Seq<Card>)
    ensures
        squeezed_upto(g, 16).len() == squeezes_of(g, 0) + squeezes_of(g, 1) + squeezes_of(g, 2)
            + squeezes_of(g, 3) + squeezes_of(g, 4) + squeezes_of(g, 5) + squeezes_of(g, 6)
            + squeezes_of(g, 7) + squeezes_of(g, 8) + squeezes_of(g, 9) + squeezes_of(g, 10)
            + squeezes_of(g, 11) + squeezes_of(g, 12) + squeezes_of(g, 13) + squeezes_of(g, 14)
            + squeezes_of(g, 15),
{
    assert(squeezed_upto(g, 0).len() == 0);
    lemma_squeezes_step(g, 0);
    lemma_squeezes_step(g, 1);
    lemma_squeezes_step(g, 2);
    lemma_squeezes_step(g, 3);
    lemma_squeezes_step(g, 4);
    lemma_squeezes_step(g, 5);
    lemma_squeezes_step(g, 6);
    lemma_squeezes_step(g, 7);
    lemma_squeezes_step(g, 8);
    lemma_squeezes_step(g, 9);
    lemma_squeezes_step(g, 10);
    lemma_squeezes_step(g, 11);
    lemma_squeezes_step(g, 12);
    lemma_squeezes_step(g, 13);
    lemma_squeezes_step(g, 14);
    lemma_squeezes_step(g, 15);
}

/// A cell of the turned board is squeezed as often as the cell it came from:
/// its left and right neighbours came from below and above, and its upper and
/// lower neighbours from the left and the right.
proof fn lemma_squeezes_of_turned_cell(g: Seq<Card>, k: int)
    requires
        g.len() == 16,
        0 <= k < 16,
    ensures
        squeezes_of(rotated(g), k) == squeezes_of(g, 4 * (3 - k % 4) + k / 4),
{
    lemma_rotated_cells(g);
    if k == 0 {
    } else if k == 1 {
    } else if k == 2 {
    } else if k == 3 {
    } else if k == 4 {
    } else if k == 5 {
    } else if k == 6 {
    } else if k == 7 {
    } else if k == 8 {
    } else if k == 9 {
    } else if k == 10 {
    } else if k == 11 {
    } else if k == 12 {
    } else if k == 13 {
    } else if k == 14 {
    } else {
    }
}

/// Turning the board does not change the number of squeezes: a card squeezed
/// between its left and right neighbours ends up squeezed between its upper
/// and lower neighbours, and the other way round.
pub proof fn law_squeezes_unchanged_by_turning(g: Seq<Card>)
    requires
        g.len() == 16,
    ensures
        squeezed_upto(rotated(g), 16).len() == squeezed_upto(g, 16).len(),
{
    lemma_squeezes_written_out(g);
    lemma_squeezes_written_out(rotated(g));
    assert forall|k: int| 0 <= k < 16 implies #[trigger] squeezes_of(rotated(g), k) == squeezes_of(
        g,
        4 * (3 - k % 4) + k / 4,
    ) by {
        lemma_squeezes_of_turned_cell(g, k);
    }
    assert(squeezes_of(rotated(g), 0) == squeezes_of(g, 12));
    assert(squeezes_of(rotated(g), 1) == squeezes_of(g, 8));
    assert(squeezes_of(rotated(g), 2) == squeezes_of(g, 4));
    assert(squeezes_of(rotated(g), 3) == squeezes_of(g, 0));
    assert(squeezes_of(rotated(g), 4) == squeezes_of(g, 13));
    assert(squeezes_of(rotated(g), 5) == squeezes_of(g, 9));
    assert(squeezes_of(rotated(g), 6) == squeezes_of(g, 5));
    assert(squeezes_of(rotated(g), 7) == squeezes_of(g, 1));
    assert(squeezes_of(rotated(g), 8) == squeezes_of(g, 14));
    assert(squeezes_of(rotated(g), 9) == squeezes_of(g, 10));
    assert(squeezes_of(rotated(g), 10) == squeezes_of(g, 6));
    assert(squeezes_of(rotated(g), 11) == squeezes_of(g, 2));
    assert(squeezes_of(rotated(g), 12) == squeezes_of(g, 15));
    assert(squeezes_of(rotated(g), 13) == squeezes_of(g, 11));
    assert(squeezes_of(rotated(g), 14) == squeezes_of(g, 7));
    assert(squeezes_of(rotated(g), 15) == squeezes_of(g, 3));
}

/// The trend from card `a` to card `b`, as `trend` reads it.
#[verifier::opaque]
spec fn trend_of(a: Card, b: Card) -> int {
    trend(a, b)
}

proof fn lemma_trend_step(g: Seq<Card>, n: nat)
    ensures
        trend_sum(g, n + 1) == trend_sum(g, n) + cell_trend(g, n as int),
{
}

/// The trends of a board, pair by pair: the twelve pairs side by side, left
/// to right, and the twelve pairs one above the other, top to bottom.
spec fn pair_trends(g: Seq<Card>) -> int {
    trend_of(g[0], g[1]) + trend_of(g[1], g[2]) + trend_of(g[2], g[3])
        + trend_of(g[4], g[5]) + trend_of(g[5], g[6]) + trend_of(g[6], g[7])
        + trend_of(g[8], g[9]) + trend_of(g[9], g[10]) + trend_of(g[10], g[11])
        + trend_of(g[12], g[13]) + trend_of(g[13], g[14]) + trend_of(g[14], g[15])
        + trend_of(g[0], g[4]) + trend_of(g[1], g[5]) + trend_of(g[2], g[6])
        + trend_of(g[3], g[7]) + trend_of(g[4], g[8]) + trend_of(g[5], g[9])
        + trend_of(g[6], g[10]) + trend_of(g[7], g[11]) + trend_of(g[8], g[12])
        + trend_of(g[9], g[13]) + trend_of(g[10], g[14]) + trend_of(g[11], g[15])
}

proof fn lemma_trend_sum_written_out(g: Seq<Card>)
    requires
        g.len() == 16,
    ensures
        trend_sum(g, 16) == pair_trends(g),
{
    reveal(trend_of);
    assert(trend_sum(g, 0) == 0);
    assert(cell_trend(g, 0) == trend_of(g[0], g[1]) + trend_of(g[0], g[4]));
    lemma_trend_step(g, 0);
    assert(cell_trend(g, 1) == trend_of(g[1], g[2]) + trend_of(g[1], g[5]));
    lemma_trend_step(g, 1);
    assert(cell_trend(g, 2) == trend_of(g[2], g[3]) + trend_of(g[2], g[6]));
    lemma_trend_step(g, 2);
    assert(cell_trend(g, 3) == trend_of(g[3], g[7]));
    lemma_trend_step(g, 3);
    assert(cell_trend(g, 4) == trend_of(g[4], g[5]) + trend_of(g[4], g[8]));
    lemma_trend_step(g, 4);
    assert(cell_trend(g, 5) == trend_of(g[5], g[6]) + trend_of(g[5], g[9]));
    lemma_trend_step(g, 5);
    assert(cell_trend(g, 6) == trend_of(g[6], g[7]) + trend_of(g[6], g[10]));
    lemma_trend_step(g, 6);
    assert(cell_trend(g, 7) == trend_of(g[7], g[11]));
    lemma_trend_step(g, 7);
    assert(cell_trend(g, 8) == trend_of(g[8], g[9]) + trend_of(g[8], g[12]));
    lemma_trend_step(g, 8);
    assert(cell_trend(g, 9) == trend_of(g[9], g[10]) + trend_of(g[9], g[13]));
    lemma_trend_step(g, 9);
    assert(cell_trend(g, 10) == trend_of(g[10], g[11]) + trend_of(g[10], g[14]));
    lemma_trend_step(g, 10);
    assert(cell_trend(g, 11) == trend_of(g[11], g[15]));
    lemma_trend_step(g, 11);
    assert(cell_trend(g, 12) == trend_of(g[12], g[13]));
    lemma_trend_step(g, 12);
    assert(cell_trend(g, 13) == trend_of(g[13], g[14]));
    lemma_trend_step(g, 13);
    assert(cell_trend(g, 14) == trend_of(g[14], g[15]));
    lemma_trend_step(g, 14);
    assert(cell_trend(g, 15) == 0);
    lemma_trend_step(g, 15);
}

/// Swapping two cards (neither of which reads as a wall) turns their trend
/// around.
proof fn lemma_trend_antisymmetric(a: Card, b: Card)
    requires
        a < u16::MAX,
        b < u16::MAX,
    ensures
        trend_of(a, b) == -trend_of(b, a),
{
    reveal(trend_of);
}

/// The cells of a board turned half-way round, written out.
proof fn lemma_half_turned_cells(g: Seq<Card>)
    requires
        g.len() == 16,
    ensures
        forall|i: int| 0 <= i < 16 ==> #[trigger] rotated(rotated(g))[i] == g[15 - i],
{
    lemma_rotated_cells(g);
    lemma_rotated_cells(rotated(g));
    assert forall|i: int| 0 <= i < 16 implies #[trigger] rotated(rotated(g))[i] == g[15 - i] by {
        if i == 0 {
        } else if i == 1 {
        } else if i == 2 {
        } else if i == 3 {
        } else if i == 4 {
        } else if i == 5 {
        } else if i == 6 {
        } else if i == 7 {
        } else if i == 8 {
        } else if i == 9 {
        } else if i == 10 {
        } else if i == 11 {
        } else if i == 12 {
        } else if i == 13 {
        } else if i == 14 {
        } else {
        }
    }
}

/// Monotone rows and columns score alike on a board and on the board turned
/// half-way round: every row and column then runs the other way, which turns
/// each trend around and leaves the size of their sum. (Cards of `u16::MAX`
/// are left out: a neighbour of that value reads as a wall.)
pub proof fn law_monotones_unchanged_by_half_turn(g: Seq<Card>)
    requires
        g.len() == 16,
        forall|i: int| 0 <= i < 16 ==> #[trigger] g[i] < u16::MAX,
    ensures
        trend_sum(rotated(rotated(g)), 16) == -trend_sum(g, 16),
        score_spec(Algos::Monotones, rotated(rotated(g))) == score_spec(Algos::Monotones, g),
{
    let t = rotated(rotated(g));
    lemma_half_turned_cells(g);
    assert(t.len() == 16);
    lemma_trend_sum_written_out(g);
    lemma_trend_sum_written_out(t);
    assert forall|a: Card, b: Card| a < u16::MAX && b < u16::MAX implies #[trigger] trend_of(a, b) == -trend_of(b, a) by {
        lemma_trend_antisymmetric(a, b);
    }
    assert(g[0] < u16::MAX && g[1] < u16::MAX && g[2] < u16::MAX && g[3] < u16::MAX);
    assert(g[4] < u16::MAX && g[5] < u16::MAX && g[6] < u16::MAX && g[7] < u16::MAX);
    assert(g[8] < u16::MAX && g[9] < u16::MAX && g[10] < u16::MAX && g[11] < u16::MAX);
    assert(g[12] < u16::MAX && g[13] < u16::MAX && g[14] < u16::MAX && g[15] < u16::MAX);
    assert(t[0] == g[15] && t[1] == g[14] && t[2] == g[13] && t[3] == g[12]);
    assert(t[4] == g[11] && t[5] == g[10] && t[6] == g[9] && t[7] == g[8]);
    assert(t[8] == g[7] && t[9] == g[6] && t[10] == g[5] && t[11] == g[4]);
    assert(t[12] == g[3] && t[13] == g[2] && t[14] == g[1] && t[15] == g[0]);
}

/// The largest card below `bound` among the first `n` is at least every card
/// below `bound` among them.
proof fn lemma_max_below_is_largest(g: Seq<Card>, n: nat, bound: int)
    requires
        n <= g.len(),
    ensures
        forall|j: int| 0 <= j < n && #[trigger] g[j] < bound ==> g[j] <= max_below(g, n, bound),
        max_below(g, n, bound) == 0 || max_below(g, n, bound) < bound,
    decreases n,
{
    if n > 0 {
        lemma_max_below_is_largest(g, (n - 1) as nat, bound);
    }
}

/// The largest card below `bound` among the first `n` is 0 or one of them.
proof fn lemma_max_below_is_a_card(g: Seq<Card>, n: nat, bound: int)
    requires
        n <= g.len(),
    ensures
        max_below(g, n, bound) == 0 || exists|j: int|
            0 <= j < n && #[trigger] g[j] == max_below(g, n, bound),
    decreases n,
{
    if n > 0 {
        lemma_max_below_is_a_card(g, (n - 1) as nat, bound);
        if max_below(g, n, bound) != 0 && max_below(g, n, bound) != g[n - 1] {
            let j = choose|j: int|
                0 <= j < n - 1 && #[trigger] g[j] == max_below(g, (n - 1) as nat, bound);
            assert(g[j] == max_below(g, n, bound));
        }
    }
}

/// Turning the board does not change the largest card below any bound.
proof fn lemma_max_below_turned(g: Seq<Card>, bound: int)
    requires
        g.len() == 16,
    ensures
        max_below(rotated(g), 16, bound) == max_below(g, 16, bound),
{
    let t = rotated(g);
    lemma_rotated_cells(g);
    lemma_max_below_is_largest(g, 16, bound);
    lemma_max_below_is_largest(t, 16, bound);
    lemma_max_below_is_a_card(g, 16, bound);
    lemma_max_below_is_a_card(t, 16, bound);
    let mg = max_below(g, 16, bound);
    let mt = max_below(t, 16, bound);
    if mt != 0 {
        let i = choose|i: int| 0 <= i < 16 && #[trigger] t[i] == mt;
        assert(mt <= mg) by {
            if i == 0 {
                assert(t[0] == g[12]);
            } else if i == 1 {
                assert(t[1] == g[8]);
            } else if i == 2 {
                assert(t[2] == g[4]);
            } else if i == 3 {
                assert(t[3] == g[0]);
            } else if i == 4 {
                assert(t[4] == g[13]);
            } else if i == 5 {
                assert(t[5] == g[9]);
            } else if i == 6 {
                assert(t[6] == g[5]);
            } else if i == 7 {
                assert(t[7] == g[1]);
            } else if i == 8 {
                assert(t[8] == g[14]);
            } else if i == 9 {
                assert(t[9] == g[10]);
            } else if i == 10 {
                assert(t[10] == g[6]);
            } else if i == 11 {
                assert(t[11] == g[2]);
            } else if i == 12 {
                assert(t[12] == g[15]);
            } else if i == 13 {
                assert(t[13] == g[11]);
            } else if i == 14 {
                assert(t[14] == g[7]);
            } else if i == 15 {
                assert(t[15] == g[3]);
            }
        }
    }
    if mg != 0 {
        let j = choose|j: int| 0 <= j < 16 && #[trigger] g[j] == mg;
        assert(mg <= mt) by {
            if j == 0 {
                assert(g[0] == t[3]);
            } else if j == 1 {
                assert(g[1] == t[7]);
            } else if j == 2 {
                assert(g[2] == t[11]);
            } else if j == 3 {
                assert(g[3] == t[15]);
            } else if j == 4 {
                assert(g[4] == t[2]);
            } else if j == 5 {
                assert(g[5] == t[6]);
            } else if j == 6 {
                assert(g[6] == t[10]);
            } else if j == 7 {
                assert(g[7] == t[14]);
            } else if j == 8 {
                assert(g[8] == t[1]);
            } else if j == 9 {
                assert(g[9] == t[5]);
            } else if j == 10 {
                assert(g[10] == t[9]);
            } else if j == 11 {
                assert(g[11] == t[13]);
            } else if j == 12 {
                assert(g[12] == t[0]);
            } else if j == 13 {
                assert(g[13] == t[4]);
            } else if j == 14 {
                assert(g[14] == t[8]);
            } else if j == 15 {
                assert(g[15] == t[12]);
            }
        }
    }
}

/// Turning the board does not change its three largest card values.
proof fn lemma_top_three_turned(g: Seq<Card>)
    requires
        g.len() == 16,
    ensures
        top_three(rotated(g)) == top_three(g),
{
    let big = max_below(g, 16, u16::MAX + 1);
    lemma_max_below_turned(g, u16::MAX + 1);
    let middle = max_below(g, 16, big);
    lemma_max_below_turned(g, big);
    lemma_max_below_turned(g, middle);
}

/// Whether cell `i` lies where high cards count: a corner, or with
/// `corners_only` false, a wall.
spec fn place(corners_only: bool, i: int) -> bool {
    if corners_only {
        in_corner(i)
    } else {
        on_wall(i)
    }
}

/// The points of `card` in a cell where high cards count (`counts`), given
/// the three largest card values.
#[verifier::opaque]
spec fn cell_points(card: Card, counts: bool, top: (int, int, int)) -> int {
    if card > 0 && counts {
        high_points(card, top) as int
    } else {
        0
    }
}

proof fn lemma_high_points_step(g: Seq<Card>, corners_only: bool, n: nat)
    ensures
        points_sum(high_cells_upto(g, corners_only, n + 1)) == points_sum(
            high_cells_upto(g, corners_only, n),
        ) + cell_points(g[n as int], place(corners_only, n as int), top_three(g)),
{
    reveal(cell_points);
    let prev = high_cells_upto(g, corners_only, n);
    let next = high_cells_upto(g, corners_only, n + 1);
    if cell_counted(g, n as int, corners_only) {
        assert(next.drop_last() =~= prev);
    } else {
        assert(next =~= prev);
    }
}

proof fn lemma_high_points_written_out(g: Seq<Card>, corners_only: bool)
    ensures
        points_sum(high_cells_upto(g, corners_only, 16))
            == cell_points(g[0], place(corners_only, 0), top_three(g)) + cell_points(g[1], place(corners_only, 1), top_three(g))
            + cell_points(g[2], place(corners_only, 2), top_three(g)) + cell_points(g[3], place(corners_only, 3), top_three(g))
            + cell_points(g[4], place(corners_only, 4), top_three(g)) + cell_points(g[5], place(corners_only, 5), top_three(g))
            + cell_points(g[6], place(corners_only, 6), top_three(g)) + cell_points(g[7], place(corners_only, 7), top_three(g))
            + cell_points(g[8], place(corners_only, 8), top_three(g)) + cell_points(g[9], place(corners_only, 9), top_three(g))
            + cell_points(g[10], place(corners_only, 10), top_three(g)) + cell_points(g[11], place(corners_only, 11), top_three(g))
            + cell_points(g[12], place(corners_only, 12), top_three(g)) + cell_points(g[13], place(corners_only, 13), top_three(g))
            + cell_points(g[14], place(corners_only, 14), top_three(g)) + cell_points(g[15], place(corners_only, 15), top_three(g)),
{
    assert(high_cells_upto(g, corners_only, 0) =~= Seq::<(Card, u8)>::empty());
    lemma_high_points_step(g, corners_only, 0);
    lemma_high_points_step(g, corners_only, 1);
    lemma_high_points_step(g, corners_only, 2);
    lemma_high_points_step(g, corners_only, 3);
    lemma_high_points_step(g, corners_only, 4);
    lemma_high_points_step(g, corners_only, 5);
    lemma_high_points_step(g, corners_only, 6);
    lemma_high_points_step(g, corners_only, 7);
    lemma_high_points_step(g, corners_only, 8);
    lemma_high_points_step(g, corners_only, 9);
    lemma_high_points_step(g, corners_only, 10);
    lemma_high_points_step(g, corners_only, 11);
    lemma_high_points_step(g, corners_only, 12);
    lemma_high_points_step(g, corners_only, 13);
    lemma_high_points_step(g, corners_only, 14);
    lemma_high_points_step(g, corners_only, 15);
}

/// Turning the board does not change the points of high cards on the walls
/// or in the corners: walls turn into walls, corners into corners, and the
/// three largest card values stay the same.
pub proof fn law_high_cards_unchanged_by_turning(g: Seq<Card>, corners_only: bool)
    requires
        g.len() == 16,
    ensures
        points_sum(high_cells_upto(rotated(g), corners_only, 16)) == points_sum(
            high_cells_upto(g, corners_only, 16),
        ),
{
    let t = rotated(g);
    lemma_rotated_cells(g);
    lemma_top_three_turned(g);
    lemma_high_points_written_out(g, corners_only);
    lemma_high_points_written_out(t, corners_only);
    assert(place(corners_only, 0) == place(corners_only, 12));
    assert(place(corners_only, 1) == place(corners_only, 8));
    assert(place(corners_only, 2) == place(corners_only, 4));
    assert(place(corners_only, 3) == place(corners_only, 0));
    assert(place(corners_only, 4) == place(corners_only, 13));
    assert(place(corners_only, 5) == place(corners_only, 9));
    assert(place(corners_only, 6) == place(corners_only, 5));
    assert(place(corners_only, 7) == place(corners_only, 1));
    assert(place(corners_only, 8) == place(corners_only, 14));
    assert(place(corners_only, 9) == place(corners_only, 10));
    assert(place(corners_only, 10) == place(corners_only, 6));
    assert(place(corners_only, 11) == place(corners_only, 2));
    assert(place(corners_only, 12) == place(corners_only, 15));
    assert(place(corners_only, 13) == place(corners_only, 11));
    assert(place(corners_only, 14) == place(corners_only, 7));
    assert(place(corners_only, 15) == place(corners_only, 3));
}

/// 1 when cell `i` is squeezed between its left and right neighbours.
spec fn squeeze_across(g: Seq<Card>, i: int) -> nat {
    if squeezing_spec(g[i], neighbor_card(g, i, 0), neighbor_card(g, i, 2)) {
        1
    } else {
        0
    }
}

/// 1 when cell `i` is squeezed between its upper and lower neighbours.
spec fn squeeze_down(g: Seq<Card>, i: int) -> nat {
    if squeezing_spec(g[i], neighbor_card(g, i, 1), neighbor_card(g, i, 3)) {
        1
    } else {
        0
    }
}

proof fn lemma_squeezes_of_split(g: Seq<Card>, i: int)
    ensures
        squeezes_of(g, i) == squeeze_across(g, i) + squeeze_down(g, i),
{
}

/// The counts of the board features stay within their largest possible
/// values: 16 empty cells, 24 merging (or nearly merging) pairs, 16 squeezes
/// (two neighbours cannot both be squeezed along the line that joins them),
/// 16 moving lines, 36 points on the walls and 12 in the corners, and a
/// monotone score of 24. The corners never score more than the walls, as
/// every corner lies on a wall.
pub proof fn law_feature_maxima(g: Seq<Card>, nearly: bool)
    requires
        g.len() == 16,
    ensures
        empties_upto(g, 16) <= 16,
        merging_neighbours(g, nearly) <= 24,
        squeezed_upto(g, 16).len() <= 16,
        shifts_spec(g) <= 16,
        0 <= points_sum(high_cells_upto(g, true, 16)) <= points_sum(high_cells_upto(g, false, 16))
            <= 36,
        points_sum(high_cells_upto(g, true, 16)) <= 12,
        -24 <= trend_sum(g, 16) <= 24,
{
    lemma_empties_written_out(g);
    assert forall|c: Card| #[trigger] empty_count(c) <= 1 by {
        reveal(empty_count);
    }
    lemma_row_pairs(g, nearly);
    lemma_column_pairs(g, nearly);
    assert forall|a: Card, b: Card| #[trigger] merge_count(nearly, a, b) <= 1 by {
        reveal(merge_count);
    }
    lemma_squeezes_written_out(g);
    lemma_squeezes_of_split(g, 0);
    lemma_squeezes_of_split(g, 1);
    lemma_squeezes_of_split(g, 2);
    lemma_squeezes_of_split(g, 3);
    lemma_squeezes_of_split(g, 4);
    lemma_squeezes_of_split(g, 5);
    lemma_squeezes_of_split(g, 6);
    lemma_squeezes_of_split(g, 7);
    lemma_squeezes_of_split(g, 8);
    lemma_squeezes_of_split(g, 9);
    lemma_squeezes_of_split(g, 10);
    lemma_squeezes_of_split(g, 11);
    lemma_squeezes_of_split(g, 12);
    lemma_squeezes_of_split(g, 13);
    lemma_squeezes_of_split(g, 14);
    lemma_squeezes_of_split(g, 15);
    assert(squeeze_across(g, 0) + squeeze_across(g, 1) <= 1);
    assert(squeeze_across(g, 2) + squeeze_across(g, 3) <= 1);
    assert(squeeze_across(g, 4) + squeeze_across(g, 5) <= 1);
    assert(squeeze_across(g, 6) + squeeze_across(g, 7) <= 1);
    assert(squeeze_across(g, 8) + squeeze_across(g, 9) <= 1);
    assert(squeeze_across(g, 10) + squeeze_across(g, 11) <= 1);
    assert(squeeze_across(g, 12) + squeeze_across(g, 13) <= 1);
    assert(squeeze_across(g, 14) + squeeze_across(g, 15) <= 1);
    assert(squeeze_down(g, 0) + squeeze_down(g, 4) <= 1);
    assert(squeeze_down(g, 8) + squeeze_down(g, 12) <= 1);
    assert(squeeze_down(g, 1) + squeeze_down(g, 5) <= 1);
    assert(squeeze_down(g, 9) + squeeze_down(g, 13) <= 1);
    assert(squeeze_down(g, 2) + squeeze_down(g, 6) <= 1);
    assert(squeeze_down(g, 10) + squeeze_down(g, 14) <= 1);
    assert(squeeze_down(g, 3) + squeeze_down(g, 7) <= 1);
    assert(squeeze_down(g, 11) + squeeze_down(g, 15) <= 1);
    lemma_shifting_lines_bound(g, Direction::Left, 4);
    lemma_shifting_lines_bound(g, Direction::Up, 4);
    lemma_shifting_lines_bound(g, Direction::Right, 4);
    lemma_shifting_lines_bound(g, Direction::Down, 4);
    lemma_high_points_written_out(g, true);
    lemma_high_points_written_out(g, false);
    assert forall|c: Card, counts: bool, top: (int, int, int)|
        #![trigger cell_points(c, counts, top)]
        0 <= cell_points(c, counts, top) <= 3 && (!counts ==> cell_points(c, counts, top) == 0)
            && (counts ==> cell_points(c, false, top) <= cell_points(c, counts, top)) by {
        reveal(cell_points);
    }
    assert(place(true, 0) == true && place(false, 0) == true);
    assert(place(true, 1) == false && place(false, 1) == true);
    assert(place(true, 2) == false && place(false, 2) == true);
    assert(place(true, 3) == true && place(false, 3) == true);
    assert(place(true, 4) == false && place(false, 4) == true);
    assert(place(true, 5) == false && place(false, 5) == false);
    assert(place(true, 6) == false && place(false, 6) == false);
    assert(place(true, 7) == false && place(false, 7) == true);
    assert(place(true, 8) == false && place(false, 8) == true);
    assert(place(true, 9) == false && place(false, 9) == false);
    assert(place(true, 10) == false && place(false, 10) == false);
    assert(place(true, 11) == false && place(false, 11) == true);
    assert(place(true, 12) == true && place(false, 12) == true);
    assert(place(true, 13) == false && place(false, 13) == true);
    assert(place(true, 14) == false && place(false, 14) == true);
    assert(place(true, 15) == true && place(false, 15) == true);
    lemma_trend_sum_written_out(g);
    assert forall|a: Card, b: Card| #[trigger] trend_of(a, b) <= 1 && -1 <= trend_of(a, b) by {
        reveal(trend_of);
    }
}

proof fn lemma_shifting_lines_bound(g: Seq<Card>, dir: Direction, n: nat)
    ensures
        shifting_lines(g, dir, n) <= n,
    decreases n,
{
    if n > 0 {
        lemma_shifting_lines_bound(g, dir, (n - 1) as nat);
    }
}

/// On a board whose sixteen cells hold the same card, every wall cell scores
/// the 3 points of the largest value: the walls reach their largest score of
/// 36 and the corners theirs of 12.
pub proof fn law_uniform_board_scores_most_high_points(g: Seq<Card>, v: Card)
    requires
        g.len() == 16,
        v > 0,
        forall|i: int| 0 <= i < 16 ==> #[trigger] g[i] == v,
    ensures
        points_sum(high_cells_upto(g, false, 16)) == 36,
        points_sum(high_cells_upto(g, true, 16)) == 12,
{
    let bound = u16::MAX + 1;
    lemma_max_below_is_largest(g, 16, bound);
    lemma_max_below_is_a_card(g, 16, bound);
    assert(g[0] == v);
    assert(top_three(g).0 == v);
    lemma_high_points_written_out(g, true);
    lemma_high_points_written_out(g, false);
    assert forall|counts: bool| #[trigger] cell_points(v, counts, top_three(g)) == if counts {
        3int
    } else {
        0int
    } by {
        reveal(cell_points);
    }
    assert(place(true, 0) == true && place(false, 0) == true);
    assert(place(true, 1) == false && place(false, 1) == true);
    assert(place(true, 2) == false && place(false, 2) == true);
    assert(place(true, 3) == true && place(false, 3) == true);
    assert(place(true, 4) == false && place(false, 4) == true);
    assert(place(true, 5) == false && place(false, 5) == false);
    assert(place(true, 6) == false && place(false, 6) == false);
    assert(place(true, 7) == false && place(false, 7) == true);
    assert(place(true, 8) == false && place(false, 8) == true);
    assert(place(true, 9) == false && place(false, 9) == false);
    assert(place(true, 10) == false && place(false, 10) == false);
    assert(place(true, 11) == false && place(false, 11) == true);
    assert(place(true, 12) == true && place(false, 12) == true);
    assert(place(true, 13) == false && place(false, 13) == true);
    assert(place(true, 14) == false && place(false, 14) == true);
    assert(place(true, 15) == true && place(false, 15) == true);
}

/// After a shift, the far cell of every line that moved is empty: the next
/// card always enters an empty cell.
pub proof fn law_next_card_enters_an_empty_cell(g: Seq<Card>, dir: Direction, r: int)
    requires
        g.len() == 16,
        0 <= r < 4,
        line_shifts(g, dir, r),
    ensures
        shifted_grid(g, dir)[cell_index(dir, r, 3)] == 0,
{
    lemma_cell_index_inverse(dir);
    crate::line::lemma_moved_line_ends_empty(line_of(g, dir, r), 3);
}

/// Boards whose cards are at most half of `u16::MAX` keep the sum of their
/// cards when they shift in any direction.
pub proof fn law_small_boards_keep_total(g: Seq<Card>, dir: Direction)
    requires
        g.len() == 16,
        forall|i: int| 0 <= i < 16 ==> #[trigger] g[i] <= u16::MAX / 2,
    ensures
        shift_fits(g, dir),
        grid_total(shifted_grid(g, dir)) == grid_total(g),
{
    law_small_cards_fit(g, dir);
    law_shift_keeps_total(g, dir);
}

/// Whether each game of `games` is what a move makes of the one before (the
/// result of `GameState::shift`, or one of those of `GameState::shift_all`).
pub open spec fn successive_games(games: Seq<GameState>) -> bool {
    forall|i: int|
        0 <= i < games.len() - 1 ==> #[trigger] is_successor(games[i], games[i + 1].board, games[i + 1])
}

/// Every move counts one move: after `k` moves the count has grown by `k`.
pub proof fn law_moves_count_every_move(games: Seq<GameState>)
    requires
        games.len() > 0,
        successive_games(games),
    ensures
        games.last().moves == games[0].moves + games.len() - 1,
    decreases games.len(),
{
    if games.len() > 1 {
        let before = games.drop_last();
        assert(successive_games(before)) by {
            assert forall|i: int| 0 <= i < before.len() - 1 implies #[trigger] is_successor(
                before[i],
                before[i + 1].board,
                before[i + 1],
            ) by {
                assert(is_successor(games[i], games[i + 1].board, games[i + 1]));
            }
        }
        law_moves_count_every_move(before);
        let n = games.len() - 2;
        assert(is_successor(games[n], games[n + 1].board, games[n + 1]));
    }
}

/// Over the first `n` lines, the high card after a shift is at least every
/// card of the shifted lines, and it is the old high card or one of them.
proof fn lemma_grid_high_is_largest(g: Seq<Card>, dir: Direction, h: int, n: nat)
    requires
        g.len() == 16,
        n <= 4,
        h >= 3,
        forall|i: int| 0 <= i < 16 ==> #[trigger] g[i] <= h,
    ensures
        grid_high(g, dir, h, n) >= h,
        forall|r: int, k: int|
            0 <= r < n && 0 <= k < 4 ==> #[trigger] shifted_line(g, dir, r)[k] <= grid_high(
                g,
                dir,
                h,
                n,
            ),
        grid_high(g, dir, h, n) == h || exists|r: int, k: int|
            0 <= r < n && 0 <= k < 4 && #[trigger] shifted_line(g, dir, r)[k] == grid_high(
                g,
                dir,
                h,
                n,
            ),
    decreases n,
{
    if n > 0 {
        lemma_grid_high_is_largest(g, dir, h, (n - 1) as nat);
        lemma_cell_index_inverse(dir);
        let prev = grid_high(g, dir, h, (n - 1) as nat);
        let line = line_of(g, dir, n - 1);
        assert forall|i: int| 0 <= i < 4 implies 0 <= #[trigger] line[i] <= prev by {
            assert(0 <= cell_index(dir, n - 1, i) < 16);
        }
        crate::line::lemma_line_high_is_largest(line, 3, prev);
        let cur = grid_high(g, dir, h, n);
        assert(cur == line_high(line, 3, prev));
        if cur != h && cur == prev && prev != h {
            let (r, k) = choose|r: int, k: int|
                0 <= r < n - 1 && 0 <= k < 4 && #[trigger] shifted_line(g, dir, r)[k] == prev;
            assert(shifted_line(g, dir, r)[k] == cur);
        } else if cur != h && cur != prev {
            let k = choose|k: int| 0 <= k < 4 && #[trigger] line_after(line, 3)[k] == cur;
            assert(shifted_line(g, dir, n - 1)[k] == cur);
        }
    }
}

/// When the high card is at least 3 and no card on the board exceeds it, the
/// high card after a shift is the larger of the old high card and the largest
/// card on the shifted board: no card exceeds it, and it is the old high
/// card or one of the cards. So the high card keeps being at least every card.
pub proof fn law_high_card_is_the_largest(g: Seq<Card>, dir: Direction, high: Card)
    requires
        g.len() == 16,
        high >= 3,
        forall|i: int| 0 <= i < 16 ==> #[trigger] g[i] <= high,
        shift_fits(g, dir),
    ensures
        grid_high(g, dir, high as int, 4) >= high,
        forall|i: int| 0 <= i < 16 ==> #[trigger] shifted_grid(g, dir)[i] <= grid_high(g, dir, high as int, 4),
        grid_high(g, dir, high as int, 4) == high || exists|i: int|
            0 <= i < 16 && #[trigger] shifted_grid(g, dir)[i] == grid_high(g, dir, high as int, 4),
{
    let top = grid_high(g, dir, high as int, 4);
    lemma_grid_high_is_largest(g, dir, high as int, 4);
    lemma_cell_index_inverse(dir);
    let sg = shifted_grid(g, dir);
    assert forall|r: int, k: int| 0 <= r < 4 && 0 <= k < 4 implies 0 <= #[trigger] shifted_line(g, dir, r)[k] <= u16::MAX by {
        let s = line_of(g, dir, r);
        assert(line_fits(s, 3));
        lemma_line_after_bounds(s, 3);
    }
    assert forall|i: int| 0 <= i < 16 implies #[trigger] sg[i] <= top by {
        let r = line_index(dir, i);
        let k = pos_index(dir, i);
        assert(0 <= shifted_line(g, dir, r)[k] <= u16::MAX);
        assert(shifted_line(g, dir, r)[k] <= top);
    }
    if top != high {
        let (r, k) = choose|r: int, k: int|
            0 <= r < 4 && 0 <= k < 4 && #[trigger] shifted_line(g, dir, r)[k] == top;
        let i = cell_index(dir, r, k);
        assert(0 <= shifted_line(g, dir, r)[k] <= u16::MAX);
        assert(sg[i] == top);
    }
}

} // verus!
