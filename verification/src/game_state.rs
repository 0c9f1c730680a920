//! A game in progress: the board, the draw pile, the card that comes next and
//! the number of moves made.
use vstd::prelude::*;

pub use crate::board_state::{Card, Direction, Grid};
use crate::board_state::{
    can_shift, is_placement, is_plain_shift, line_shifts, placement_keys, shift_fits, BoardState,
};
pub use crate::draw_pile::DrawType;
use crate::draw_pile::{bonus_after_high_card, draw_chain, is_new_pile, regular_draw, valid_draw, DrawPile};
use crate::algo::{all_shifts_fit, merge_tests_fit, neighbor_card, neighbor_cell, pair_test_fits};
use crate::rng::{choose_card, RngType};

verus! {

#[derive(Clone, Debug, PartialEq, Eq)]
pub struct GameState {
    pub board: BoardState,
    pub draw_pile: DrawPile,
    pub next: DrawType,
    pub moves: usize,
}

/// The cards that the next draw can put on the board.
pub open spec fn cards_of_draw(next: DrawType) -> Seq<Card> {
    match next {
        DrawType::Regular(card) => seq![card],
        DrawType::Bonus(cards) => cards@,
    }
}

/// `after` is what a move that led to the board `board` makes of `before`:
/// the move is counted, the draw pile learns of the new high card, and the
/// next card is drawn from it.
pub open spec fn is_successor(before: GameState, board: BoardState, after: GameState) -> bool {
    &&& after.board == board
    &&& after.moves == before.moves + 1
    &&& valid_draw(
        before.draw_pile.cards@,
        bonus_after_high_card(before.draw_pile.bonus_cards@, board.high_card),
        after.draw_pile.cards@,
        after.draw_pile.bonus_cards@,
        after.next,
    )
    &&& after.draw_pile.cards@.len() > 0
}

/// `states` are what `GameState::shift_all` gives for `before` and `dir`:
/// for each line that moves and each card that can come next, the board
/// with that card placed, followed by its own draw.
pub open spec fn is_shift_all_result(before: GameState, dir: Direction, states: Seq<GameState>) -> bool {
    let keys = placement_keys(before.board.grid@, dir, cards_of_draw(before.next), 4);
    &&& states.len() == keys.len()
    &&& forall|i: int|
        0 <= i < states.len() ==> is_placement(
            before.board,
            dir,
            keys[i].0,
            keys[i].1,
            #[trigger] states[i].board,
        ) && is_successor(before, states[i].board, states[i])
}

/// `after` is a game that `GameState::shift` can give for `before`, `dir`
/// and `choose_next`.
pub open spec fn is_shift_result(before: GameState, dir: Direction, choose_next: bool, after: GameState) -> bool {
    &&& is_successor(before, after.board, after)
    &&& !choose_next ==> is_plain_shift(before.board, dir, after.board)
    &&& choose_next ==> exists|r: int, card: Card|
        0 <= r < 4 && line_shifts(before.board.grid@, dir, r) && cards_of_draw(
            before.next,
        ).contains(card) && #[trigger] is_placement(before.board, dir, r, card, after.board)
}

/// Whether `state` can make a move towards `dir` without a card overflowing
/// and with a card left to draw.
pub open spec fn can_move(state: GameState, dir: Direction) -> bool {
    &&& shift_fits(state.board.grid@, dir)
    &&& state.draw_pile.cards@.len() > 0
    &&& state.moves < usize::MAX
}

/// A regular pile of more cards than are drawn never runs out: each draw
/// takes the last card of what is left.
proof fn lemma_chain_without_refill(piles: Seq<Seq<Card>>, drawn: Seq<Card>, n: int)
    requires
        draw_chain(piles, drawn),
        piles[0].len() > drawn.len(),
        0 <= n <= drawn.len(),
    ensures
        piles[n] == piles[0].subrange(0, piles[0].len() - n),
        forall|i: int| 0 <= i < n ==> #[trigger] drawn[i] == piles[0][piles[0].len() - 1 - i],
    decreases n,
{
    if n > 0 {
        lemma_chain_without_refill(piles, drawn, n - 1);
        assert(regular_draw(piles[n - 1], piles[n], drawn[n - 1]));
        assert(piles[n] =~= piles[0].subrange(0, piles[0].len() - n));
    }
}

impl GameState {
    /// A new game: a new pile, a board of nine cards drawn from it, and the
    /// next card drawn after them.
    pub fn initialize(rng: &mut RngType) -> (state: Self)
        ensures
            exists|pile: Seq<Card>|
                #![trigger is_new_pile(pile)]
                {
                    &&& is_new_pile(pile)
                    &&& state.board.grid@.to_multiset() == (pile.subrange(3, 12).reverse()
                        + Seq::new(7, |i: int| 0u16)).to_multiset()
                    &&& state.draw_pile.cards@ == pile.subrange(0, 2)
                    &&& state.next == DrawType::Regular(pile[2])
                },
            state.board.high_card == 3,
            state.draw_pile.bonus_cards@ == Seq::<Card>::empty(),
            state.moves == 0,
    {
        let mut draw_pile = DrawPile::initialize(rng);
        let ghost pile = draw_pile.cards@;

        let board = BoardState::initialize(&mut draw_pile, rng);
        let ghost after_board = draw_pile.cards@;

        let next = draw_pile.draw(rng);
        proof {
            let (piles, drawn) = choose|piles: Seq<Seq<Card>>, drawn: Seq<Card>|
                {
                    &&& draw_chain(piles, drawn)
                    &&& drawn.len() == 9
                    &&& piles[0] == pile
                    &&& piles[9] == after_board
                    &&& board.grid@.to_multiset() == (drawn + Seq::new(7, |i: int| 0u16)).to_multiset()
                };
            lemma_chain_without_refill(piles, drawn, 9);
            assert(drawn =~= pile.subrange(3, 12).reverse());
            assert(after_board =~= pile.subrange(0, 3));
            assert(draw_pile.cards@ =~= pile.subrange(0, 2));
        }

        Self { board, draw_pile, next, moves: 0 }
    }

    /// A game at move 0 with the given board, pile and next card.
    pub fn initialize_test_state(board: BoardState, draw_pile: DrawPile, next: DrawType) -> (state: Self)
        ensures
            state.board == board,
            state.draw_pile == draw_pile,
            state.next == next,
            state.moves == 0,
    {
        Self { board, draw_pile, next, moves: 0 }
    }

    /// Makes a move towards `dir`. Returns `None` when the board cannot shift
    /// that way. With `choose_next`, the next card (for a bonus draw, one of
    /// its three cards, at random) enters the board.
    pub fn shift(&self, dir: Direction, choose_next: bool, rng: &mut RngType) -> (result: Option<Self>)
        requires
            can_move(*self, dir),
        ensures
            result is None <==> !can_shift(self.board.grid@, dir),
            result is Some ==> is_shift_result(*self, dir, choose_next, result.unwrap()),
    {
        let next = if choose_next {
            Some(self.choose_next_card(rng))
        } else {
            None
        };

        let board = match self.board.shift(dir, next, rng) {
            Some(board) => board,
            None => {
                return None;
            },
        };
        let state = self.shift_new(board, rng);
        proof {
            assert(Some(state).unwrap() == state);
            if choose_next {
                let card = next.unwrap();
                let r = choose|r: int|
                    0 <= r < 4 && line_shifts(self.board.grid@, dir, r) && #[trigger] is_placement(
                        self.board,
                        dir,
                        r,
                        card,
                        board,
                    );
                assert(is_placement(self.board, dir, r, card, state.board));
            }
        }
        Some(state)
    }

    /// Every game that a move towards `dir` can lead to: one for each line that
    /// moves and each card that can come next, in the order of
    /// `BoardState::shift_all`, each followed by its own draw.
    pub fn shift_all(&self, dir: Direction, rng: &mut RngType) -> (states: Vec<Self>)
        requires
            can_move(*self, dir),
        ensures
            is_shift_all_result(*self, dir, states@),
    {
        let next_cards = match self.next {
            DrawType::Regular(card) => vec![card],
            DrawType::Bonus(cards) => {
                let v = vec![cards[0], cards[1], cards[2]];
                proof {
                    assert(v@ =~= cards@);
                }
                v
            },
        };
        proof {
            assert(next_cards@ =~= cards_of_draw(self.next));
        }
        let boards = self.board.shift_all(dir, next_cards);
        let ghost keys = placement_keys(self.board.grid@, dir, cards_of_draw(self.next), 4);

        let mut states: Vec<Self> = Vec::new();
        let mut i: usize = 0;
        while i < boards.len()
            invariant
                0 <= i <= boards@.len(),
                can_move(*self, dir),
                boards@.len() == keys.len(),
                forall|a: int|
                    0 <= a < boards@.len() ==> is_placement(
                        self.board,
                        dir,
                        keys[a].0,
                        keys[a].1,
                        #[trigger] boards@[a],
                    ),
                states@.len() == i,
                forall|a: int|
                    0 <= a < i ==> #[trigger] states@[a].board == boards@[a] && is_successor(
                        *self,
                        boards@[a],
                        states@[a],
                    ),
            decreases boards@.len() - i,
        {
            let state = self.shift_new(boards[i], rng);
            states.push(state);
            i = i + 1;
        }
        states
    }

    /// The card that enters the board: the regular card, or one of the three
    /// cards of a bonus draw, at random.
    fn choose_next_card(&self, rng: &mut RngType) -> (card: Card)
        ensures
            cards_of_draw(self.next).contains(card),
    {
        match self.next {
            DrawType::Regular(card) => {
                proof {
                    assert(cards_of_draw(self.next)[0] == card);
                }
                card
            },
            DrawType::Bonus(cards) => choose_card(&cards, rng).unwrap(),
        }
    }

    /// The game after a move that produced `board`.
    fn shift_new(&self, board: BoardState, rng: &mut RngType) -> (state: Self)
        requires
            self.draw_pile.cards@.len() > 0,
            self.moves < usize::MAX,
        ensures
            is_successor(*self, board, state),
    {
        let mut draw_pile = DrawPile {
            cards: self.draw_pile.cards.clone(),
            bonus_cards: self.draw_pile.bonus_cards.clone(),
        };
        proof {
            assert(draw_pile.cards@ =~= self.draw_pile.cards@);
            assert(draw_pile.bonus_cards@ =~= self.draw_pile.bonus_cards@);
        }
        draw_pile.new_high_card(board.high_card());

        let next = draw_pile.draw(rng);

        Self { board, draw_pile, next, moves: self.moves + 1 }
    }

    /// The cells of the board, row by row.
    pub fn get_grid(&self) -> (grid: &Grid)
        ensures
            *grid == self.board.grid,
    {
        self.board.get_grid()
    }

    /// What the next draw gave.
    pub fn get_next(&self) -> (next: &DrawType)
        ensures
            *next == self.next,
    {
        &self.next
    }

    /// The highest card that a merge has produced.
    pub fn high_card(&self) -> (card: &Card)
        ensures
            *card == self.board.high_card,
    {
        self.board.high_card()
    }

    /// The number of moves made.
    pub fn get_moves(&self) -> (moves: usize)
        ensures
            moves == self.moves,
    {
        self.moves
    }

    /// Whether a move towards `dir` stays within the numbers: no card
    /// overflows in the shift, a card is left to draw, and the move count can
    /// grow.
    pub fn can_move_towards(&self, dir: Direction) -> (fits: bool)
        ensures
            fits == can_move(*self, dir),
    {
        self.board.fits_shift(dir) && self.draw_pile.cards.len() > 0 && self.moves < usize::MAX
    }

    /// Whether every card is at most half of `u16::MAX`, a card is left to
    /// draw and the move count can grow: then a move in any direction stays
    /// within the numbers.
    pub fn moves_fit(&self) -> (fits: bool)
        ensures
            fits == ((forall|i: int| 0 <= i < 16 ==> #[trigger] self.board.grid@[i] <= u16::MAX / 2)
                && self.draw_pile.cards@.len() > 0 && self.moves < usize::MAX),
            fits ==> forall|dir: Direction| #[trigger] can_move(*self, dir),
            fits ==> merge_tests_fit(self.board.grid@, false) && merge_tests_fit(self.board.grid@, true),
            fits ==> all_shifts_fit(self.board.grid@),
    {
        let mut i: usize = 0;
        while i < 16
            invariant
                0 <= i <= 16,
                forall|j: int| 0 <= j < i ==> #[trigger] self.board.grid@[j] <= u16::MAX / 2,
            decreases 16 - i,
        {
            if self.board.grid[i] > u16::MAX / 2 {
                return false;
            }
            i = i + 1;
        }
        if self.draw_pile.cards.len() == 0 || self.moves == usize::MAX {
            return false;
        }
        proof {
            let g = self.board.grid@;
            assert forall|dir: Direction| #[trigger] can_move(*self, dir) by {
                crate::laws::law_small_cards_fit(g, dir);
            }
            assert(can_move(*self, Direction::Left) && can_move(*self, Direction::Up) && can_move(
                *self,
                Direction::Right,
            ) && can_move(*self, Direction::Down));
            assert forall|i: int, d: int|
                0 <= i < 16 && 0 <= d < 4 implies #[trigger] pair_test_fits(
                false,
                g[i],
                neighbor_card(g, i, d),
            ) && pair_test_fits(true, g[i], neighbor_card(g, i, d)) by {
                if neighbor_cell(i, d) >= 0 {
                    assert(neighbor_cell(i, d) < 16);
                }
            }
        }
        true
    }

    /// The shift mask of `dir` for the board.
    pub fn shift_mask(&self, dir: Direction) -> (mask: u8)
        requires
            shift_fits(self.board.grid@, dir),
        ensures
            mask == crate::board_state::shift_mask_of(self.board.grid@, dir),
    {
        self.board.shift_mask(dir)
    }
}

} // verus!
