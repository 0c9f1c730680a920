//! Interactive play: what a key press does to a game. The terminal reads the
//! keys and shows the game; this module decides each turn.
use vstd::prelude::*;

use crate::board_state::{can_shift, Direction};
use crate::game_state::{can_move, is_shift_result, GameState};
use crate::rng::RngType;

verus! {

/// A key press, as far as the game reads it.
#[derive(Clone, Copy, Debug, PartialEq, Eq, Structural)]
pub enum Key {
    Up,
    Right,
    Down,
    Left,
    Quit,
    Other,
}

/// What a turn did.
#[derive(Clone, Copy, Debug, PartialEq, Eq, Structural)]
pub enum Turn {
    /// The player quit.
    Quit,
    /// The game moved towards the direction.
    Moved(Direction),
    /// Nothing can move towards the direction; the game is unchanged.
    Impossible(Direction),
    /// The key means nothing to the game.
    NotUnderstood,
}

/// The direction that an arrow key asks for.
pub open spec fn key_direction_spec(key: Key) -> Option<Direction> {
    match key {
        Key::Up => Some(Direction::Up),
        Key::Right => Some(Direction::Right),
        Key::Down => Some(Direction::Down),
        Key::Left => Some(Direction::Left),
        _ => None,
    }
}

/// The direction that an arrow key asks for; `None` for other keys.
pub fn key_direction(key: Key) -> (dir: Option<Direction>)
    ensures
        dir == key_direction_spec(key),
{
    match key {
        Key::Up => Some(Direction::Up),
        Key::Right => Some(Direction::Right),
        Key::Down => Some(Direction::Down),
        Key::Left => Some(Direction::Left),
        _ => None,
    }
}

/// Plays one key press: an arrow moves the game that way, with the next card
/// entering the board, unless nothing can move; `q` quits; any other key is
/// not understood. Only a move changes the game.
pub fn play_turn(game: &mut GameState, key: Key, rng: &mut RngType) -> (turn: Turn)
    requires
        key_direction_spec(key) matches Some(dir) ==> can_move(*old(game), dir),
    ensures
        key == Key::Quit ==> turn == Turn::Quit,
        key == Key::Other ==> turn == Turn::NotUnderstood,
        key_direction_spec(key) matches Some(dir) ==> {
            &&& can_shift(old(game).board.grid@, dir) ==> turn == Turn::Moved(dir)
            &&& !can_shift(old(game).board.grid@, dir) ==> turn == Turn::Impossible(dir)
        },
        turn matches Turn::Moved(dir) ==> is_shift_result(*old(game), dir, true, *final(game)),
        !(turn is Moved) ==> *final(game) == *old(game),
{
    if let Key::Quit = key {
        return Turn::Quit;
    }
    match key_direction(key) {
        Some(dir) => {
            match game.shift(dir, true, rng) {
                Some(new_game) => {
                    *game = new_game;
                    Turn::Moved(dir)
                },
                None => Turn::Impossible(dir),
            }
        },
        None => Turn::NotUnderstood,
    }
}

} // verus!
