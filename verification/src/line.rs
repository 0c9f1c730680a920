//! The mathematical model of shifting one line (a row or a column) of the board.
//!
//! A line is four cells, listed from the wall that the cards move towards
//! (position 0) to the far wall (position 3). A shift walks the three
//! neighbouring pairs in order, `(0, 1)`, `(1, 2)`, `(2, 3)`; each pair sees the
//! values that the earlier pairs left behind.
use vstd::prelude::*;

verus! {

/// What one pair `(k, k + 1)` of a line becomes: a card moves into an empty
/// cell, two equal cards of 3 or more merge into their sum, and a 1 and a 2
/// merge into a 3.
pub open spec fn step(s: Seq<int>, k: int) -> Seq<int> {
    let cur = s[k];
    let next = s[k + 1];
    if cur == 0 {
        s.update(k, next).update(k + 1, 0)
    } else if cur >= 3 {
        if cur == next {
            s.update(k, cur * 2).update(k + 1, 0)
        } else {
            s
        }
    } else if cur + next == 3 {
        s.update(k, 3).update(k + 1, 0)
    } else {
        s
    }
}

/// Whether the pair `(k, k + 1)` moves a card.
pub open spec fn step_moves(s: Seq<int>, k: int) -> bool {
    let cur = s[k];
    let next = s[k + 1];
    if cur == 0 {
        next > 0
    } else if cur >= 3 {
        cur == next
    } else {
        cur + next == 3
    }
}

/// The high card after the pair `(k, k + 1)`: a merge of two cards of 3 or
/// more that beats `h` becomes the new high card.
pub open spec fn step_high(s: Seq<int>, k: int, h: int) -> int {
    let cur = s[k];
    let next = s[k + 1];
    if cur >= 3 && cur == next && cur * 2 > h {
        cur * 2
    } else {
        h
    }
}

/// Whether the arithmetic of the pair `(k, k + 1)` stays within a card
/// (`u16`): the doubling of a merge, and the sum that tests a 1 against a 2.
pub open spec fn step_fits(s: Seq<int>, k: int) -> bool {
    let cur = s[k];
    let next = s[k + 1];
    if cur == 0 {
        true
    } else if cur >= 3 {
        cur == next ==> cur * 2 <= u16::MAX
    } else {
        cur + next <= u16::MAX
    }
}

/// The line after its first `j` pairs were processed.
pub open spec fn line_after(s: Seq<int>, j: nat) -> Seq<int>
    decreases j,
{
    if j == 0 {
        s
    } else {
        step(line_after(s, (j - 1) as nat), j - 1)
    }
}

/// Whether one of the first `j` pairs moved a card.
pub open spec fn line_moved(s: Seq<int>, j: nat) -> bool
    decreases j,
{
    if j == 0 {
        false
    } else {
        line_moved(s, (j - 1) as nat) || step_moves(line_after(s, (j - 1) as nat), j - 1)
    }
}

/// The high card after the first `j` pairs, starting from `h`.
pub open spec fn line_high(s: Seq<int>, j: nat, h: int) -> int
    decreases j,
{
    if j == 0 {
        h
    } else {
        step_high(line_after(s, (j - 1) as nat), j - 1, line_high(s, (j - 1) as nat, h))
    }
}

/// Whether the first `j` pairs stay within a card.
pub open spec fn line_fits(s: Seq<int>, j: nat) -> bool
    decreases j,
{
    if j == 0 {
        true
    } else {
        line_fits(s, (j - 1) as nat) && step_fits(line_after(s, (j - 1) as nat), j - 1)
    }
}

/// The whole line after a shift.
pub open spec fn shift_line(s: Seq<int>) -> Seq<int> {
    line_after(s, 3)
}

/// Before pair `k` is processed, its first cell holds its starting card or 0,
/// and its second cell still holds its starting card; the line keeps its
/// length.
pub proof fn lemma_line_after_shape(s: Seq<int>, j: nat)
    requires
        s.len() == 4,
        j <= 3,
    ensures
        line_after(s, j).len() == 4,
        j < 3 ==> line_after(s, j)[j as int] == s[j as int] || line_after(s, j)[j as int] == 0,
        forall|i: int| j < i < 4 ==> line_after(s, j)[i] == s[i],
    decreases j,
{
    if j > 0 {
        lemma_line_after_shape(s, (j - 1) as nat);
    }
}

/// Every pair among the first `j` fits when the line does.
pub proof fn lemma_line_fits_step(s: Seq<int>, j: nat, k: nat)
    requires
        line_fits(s, j),
        k < j,
    ensures
        step_fits(line_after(s, k), k as int),
    decreases j,
{
    if k + 1 < j {
        lemma_line_fits_step(s, (j - 1) as nat, k);
    }
}

/// A line whose cards are at most half of `u16::MAX` always fits.
pub proof fn lemma_small_line_fits(s: Seq<int>, j: nat)
    requires
        s.len() == 4,
        j <= 3,
        forall|i: int| 0 <= i < 4 ==> 0 <= #[trigger] s[i] <= u16::MAX / 2,
    ensures
        line_fits(s, j),
    decreases j,
{
    if j > 0 {
        lemma_small_line_fits(s, (j - 1) as nat);
        lemma_line_after_shape(s, (j - 1) as nat);
        let t = line_after(s, (j - 1) as nat);
        assert(0 <= s[j - 1] <= u16::MAX / 2 && 0 <= s[j as int] <= u16::MAX / 2);
        assert(t[j as int] == s[j as int]);
    }
}

/// Once a pair has moved a card, the next cell along is empty: the moved card
/// left it, and every later pair either moves into it or leaves it empty.
pub proof fn lemma_moved_line_ends_empty(s: Seq<int>, j: nat)
    requires
        s.len() == 4,
        1 <= j <= 3,
        line_moved(s, j),
    ensures
        line_after(s, j)[j as int] == 0,
    decreases j,
{
    lemma_line_after_shape(s, (j - 1) as nat);
    let k = j - 1;
    let t = line_after(s, (j - 1) as nat);
    assert(line_after(s, j) == step(t, k));
    if j > 1 && line_moved(s, (j - 1) as nat) {
        lemma_moved_line_ends_empty(s, (j - 1) as nat);
        assert(t[k] == 0);
    } else {
        assert(!line_moved(s, (j - 1) as nat));
        assert(step_moves(t, k));
    }
}

/// When no card of a line exceeds `h` (at least 3), the high card after the
/// first `j` pairs is at least `h` and every card of the line, and it is `h`
/// or one of the cards.
pub proof fn lemma_line_high_is_largest(s: Seq<int>, j: nat, h: int)
    requires
        s.len() == 4,
        j <= 3,
        h >= 3,
        forall|i: int| 0 <= i < 4 ==> 0 <= #[trigger] s[i] <= h,
    ensures
        line_high(s, j, h) >= h,
        forall|i: int| 0 <= i < 4 ==> 0 <= #[trigger] line_after(s, j)[i] <= line_high(s, j, h),
        line_high(s, j, h) == h || exists|i: int|
            0 <= i < 4 && #[trigger] line_after(s, j)[i] == line_high(s, j, h),
    decreases j,
{
    if j > 0 {
        let k = j - 1;
        lemma_line_high_is_largest(s, (j - 1) as nat, h);
        lemma_line_after_shape(s, (j - 1) as nat);
        let t = line_after(s, (j - 1) as nat);
        let hh = line_high(s, (j - 1) as nat, h);
        let u = line_after(s, j);
        let hu = line_high(s, j, h);
        assert(u == step(t, k));
        assert(hu == step_high(t, k, hh));
        assert(forall|i: int| 0 <= i < 4 ==> 0 <= #[trigger] u[i] <= hu);
        if hu != h {
            if hu == hh {
                let w = choose|i: int| 0 <= i < 4 && #[trigger] t[i] == hh;
                if w == k || w == k + 1 {
                    if t[k] == 0 {
                        assert(u[k] == t[k + 1]);
                        assert(u[k] == hu);
                    } else {
                        assert(u[w] == hu || u[k] == hu);
                    }
                } else {
                    assert(u[w] == t[w]);
                }
            } else {
                assert(u[k] == hu);
            }
        }
    }
}

} // verus!
