//! The pile from which the next card is drawn, and the bonus cards that join
//! the game once a high card has been made.
use vstd::prelude::*;

use crate::board_state::Card;
use crate::rng::{random_at_most, random_ratio, shuffle_cards, RngType};

verus! {

/// What a draw gives: a regular card, or a bonus draw of three cards of
/// which one will enter the board.
#[derive(Clone, Copy, Debug, PartialEq, Eq)]
pub enum DrawType {
    Regular(Card),
    Bonus([Card; 3]),
}

/// The regular cards still to draw (drawn from the end) and the bonus cards
/// available so far (in increasing order).
#[derive(Clone, Debug, PartialEq, Eq)]
pub struct DrawPile {
    pub cards: Vec<Card>,
    pub bonus_cards: Vec<Card>,
}

/// The twelve cards of a new regular pile, before shuffling.
pub open spec fn base_cards() -> Seq<Card> {
    seq![1, 1, 1, 1, 2, 2, 2, 2, 3, 3, 3, 3]
}

/// `cards` is a shuffled new pile: four each of 1, 2 and 3.
pub open spec fn is_new_pile(cards: Seq<Card>) -> bool {
    cards.len() == 12 && cards.to_multiset() == base_cards().to_multiset()
}

/// A regular draw takes `card` from the end of `before`, which leaves `after`;
/// a pile that runs out is replaced by a new one.
pub open spec fn regular_draw(before: Seq<Card>, after: Seq<Card>, card: Card) -> bool {
    &&& before.len() > 0
    &&& card == before.last()
    &&& if before.len() == 1 {
        is_new_pile(after)
    } else {
        after == before.drop_last()
    }
}

/// `piles` are the regular piles before and after each of the regular draws
/// that gave `drawn`, in order.
pub open spec fn draw_chain(piles: Seq<Seq<Card>>, drawn: Seq<Card>) -> bool {
    &&& piles.len() == drawn.len() + 1
    &&& forall|i: int|
        0 <= i < drawn.len() ==> regular_draw(#[trigger] piles[i], piles[i + 1], drawn[i])
}

/// `cards` are three neighbouring bonus cards of `bonus`.
pub open spec fn is_bonus_run(bonus: Seq<Card>, cards: Seq<Card>) -> bool {
    exists|first: int|
        0 <= first <= bonus.len() - 3 && #[trigger] bonus.subrange(first, first + 3) == cards
}

/// A draw from the pile `(cards, bonus)` that gave `drawn` and left
/// `(cards2, bonus2)`: a regular draw, or, when there are at least three bonus
/// cards, a bonus draw that leaves the pile as it was.
pub open spec fn valid_draw(
    cards: Seq<Card>,
    bonus: Seq<Card>,
    cards2: Seq<Card>,
    bonus2: Seq<Card>,
    drawn: DrawType,
) -> bool {
    &&& bonus2 == bonus
    &&& match drawn {
        DrawType::Regular(card) => regular_draw(cards, cards2, card),
        DrawType::Bonus(three) => bonus.len() >= 3 && cards2 == cards && is_bonus_run(
            bonus,
            three@,
        ),
    }
}

/// The bonus cards after the high card `high` was reached: from 192 on, the
/// pile starts with 6, 12 and 24, and gains `high / 8` when that is larger
/// than its last card.
pub open spec fn bonus_after_high_card(bonus: Seq<Card>, high: Card) -> Seq<Card> {
    if high < 192 {
        bonus
    } else {
        let seeded = if bonus.len() == 0 {
            seq![6u16, 12, 24]
        } else {
            bonus
        };
        if seeded.last() < high / 8 {
            seeded.push(high / 8)
        } else {
            seeded
        }
    }
}

impl DrawType {
    /// The card of a regular draw.
    pub fn unwrap_regular(&self) -> (card: Card)
        requires
            self is Regular,
        ensures
            *self == DrawType::Regular(card),
    {
        match self {
            DrawType::Regular(card) => *card,
            DrawType::Bonus(_) => {
                proof {
                    assert(false);
                }
                0
            },
        }
    }
}

impl DrawPile {
    /// A new pile: the twelve base cards, shuffled, and no bonus cards.
    pub fn initialize(rng: &mut RngType) -> (pile: Self)
        ensures
            is_new_pile(pile.cards@),
            pile.bonus_cards@ == Seq::<Card>::empty(),
    {
        let cards = DrawPile::new_cards(rng);
        DrawPile { cards, bonus_cards: vec![] }
    }

    /// Four each of 1, 2 and 3, shuffled.
    fn new_cards(rng: &mut RngType) -> (cards: Vec<Card>)
        ensures
            is_new_pile(cards@),
    {
        let mut cards: Vec<Card> = vec![1, 1, 1, 1, 2, 2, 2, 2, 3, 3, 3, 3];
        proof {
            assert(cards@ =~= base_cards());
        }
        shuffle_cards(&mut cards, rng);
        cards
    }

    /// A pile of the given regular cards and no bonus cards.
    pub fn initialize_test_pile(cards: Vec<Card>) -> (pile: Self)
        ensures
            pile.cards@ == cards@,
            pile.bonus_cards@ == Seq::<Card>::empty(),
    {
        DrawPile { cards, bonus_cards: vec![] }
    }

    /// Draws the next card. With at least three bonus cards, one draw in 21
    /// is a bonus draw; otherwise the last regular card is taken, and an
    /// emptied pile is replaced by a new one.
    pub fn draw(&mut self, rng: &mut RngType) -> (drawn: DrawType)
        requires
            old(self).cards@.len() > 0,
        ensures
            valid_draw(
                old(self).cards@,
                old(self).bonus_cards@,
                final(self).cards@,
                final(self).bonus_cards@,
                drawn,
            ),
            old(self).bonus_cards@.len() < 3 ==> drawn is Regular,
            final(self).cards@.len() > 0,
    {
        let drawn;
        if self.bonus_cards.len() >= 3 && random_ratio(rng, 1, 21) {
            drawn = DrawType::Bonus(self.draw_bonus(rng));
        } else {
            drawn = DrawType::Regular(self.cards.pop().unwrap());

            if 0 == self.cards.len() {
                self.cards = DrawPile::new_cards(rng);
            }
        }

        drawn
    }

    /// Three neighbouring bonus cards, starting at a random place.
    pub fn draw_bonus(&mut self, rng: &mut RngType) -> (three: [Card; 3])
        requires
            old(self).bonus_cards@.len() >= 3,
        ensures
            *final(self) == *old(self),
            is_bonus_run(old(self).bonus_cards@, three@),
    {
        let first = random_at_most(rng, self.bonus_cards.len() - 3);
        let three = [
            self.bonus_cards[first],
            self.bonus_cards[first + 1],
            self.bonus_cards[first + 2],
        ];
        proof {
            assert(three@ =~= self.bonus_cards@.subrange(first as int, first + 3));
        }
        three
    }

    /// Records a new high card: bonus cards join the pile once the high card
    /// reaches 192.
    pub fn new_high_card(&mut self, new_high_card: &Card)
        ensures
            final(self).cards@ == old(self).cards@,
            final(self).bonus_cards@ == bonus_after_high_card(
                old(self).bonus_cards@,
                *new_high_card,
            ),
    {
        if *new_high_card < 192 {
            return;
        }

        if self.bonus_cards.len() == 0 {
            let mut seed: Vec<Card> = vec![6, 12, 24];
            self.bonus_cards.append(&mut seed);
        }

        if self.bonus_cards[self.bonus_cards.len() - 1] < new_high_card / 8 {
            self.bonus_cards.push(new_high_card / 8);
        }
    }

    /// The number of regular cards and of bonus cards.
    pub fn len(&self) -> (lens: (usize, usize))
        ensures
            lens.0 == self.cards@.len(),
            lens.1 == self.bonus_cards@.len(),
    {
        (self.cards.len(), self.bonus_cards.len())
    }
}

} // verus!
