//! The choice of the games that a solver looks at after a move.
use vstd::prelude::*;

use crate::board_state::{can_shift, Direction};
use crate::game_state::{can_move, is_shift_all_result, is_shift_result, GameState};
use crate::rng::RngType;

verus! {

/// Which places for the next card a solver looks at after a move.
#[derive(Clone, Copy, Debug, PartialEq, Eq)]
pub enum InsertionPoints {
    /// Every line that moved, and every card that can come next.
    All,
    /// One line and one card, chosen at random as in a real move.
    One,
}

/// The games that a move towards `direction` can lead to: all of them, or
/// the one of a real move (none when the board cannot shift that way).
pub fn gen_states_for_insertion_points(
    game_state: &GameState,
    direction: Direction,
    insertion_points: &InsertionPoints,
    rng: &mut RngType,
) -> (states: Vec<GameState>)
    requires
        can_move(*game_state, direction),
    ensures
        *insertion_points == InsertionPoints::All ==> is_shift_all_result(
            *game_state,
            direction,
            states@,
        ),
        *insertion_points == InsertionPoints::One ==> {
            &&& states@.len() <= 1
            &&& states@.len() == 0 <==> !can_shift(game_state.board.grid@, direction)
            &&& states@.len() == 1 ==> is_shift_result(*game_state, direction, true, states@[0])
        },
{
    if let InsertionPoints::All = insertion_points {
        game_state.shift_all(direction, rng)
    } else {
        let dir_state = game_state.shift(
            direction,
            matches!(insertion_points, InsertionPoints::One),
            rng,
        );
        if let Some(actual_dir_state) = dir_state {
            vec![actual_dir_state]
        } else {
            vec![]
        }
    }
}

} // verus!
