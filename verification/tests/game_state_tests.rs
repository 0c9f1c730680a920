use threes::board_state::{BoardState, Direction};
use threes::draw_pile::{DrawPile, DrawType};
use threes::game_state::GameState;
use threes::rng::test_rng;
use threes::solver::{gen_states_for_insertion_points, InsertionPoints};

fn assert_board_values(board: &BoardState) {
    let (mut zeros, mut ones, mut twos, mut threes) = (0, 0, 0, 0);
    for &card in board.grid.iter() {
        match card {
            0 => zeros += 1,
            1 => ones += 1,
            2 => twos += 1,
            3 => threes += 1,
            _ => {
                assert!(false, "this shouldn't be possible")
            }
        }
    }

    assert_eq!(7, zeros, "7 empty cards");
    assert!(ones > 0, "at least one 1");
    assert!(twos > 0, "at least one 2");
    assert!(threes > 0, "at least one 3");
    assert_eq!(9, ones + twos + threes, "9 non-empty cards");
}

#[test]
fn game_state_initialize() {
    let mut rng = test_rng();
    let game_state = GameState::initialize(&mut rng);
    assert_board_values(&game_state.board);

    assert!(game_state.next.unwrap_regular() > 0, "'next' has a card");
    assert_eq!(
        2,
        game_state.draw_pile.len().0,
        "the draw pile has been drawn down to 2 cards"
    );
}

#[test]
fn game_state_shift() {
    let mut rng = test_rng();

    let mut grid = [0; 16];
    grid[1] = 1;
    let board = BoardState::initialize_test_state(grid, 1);

    let mut draw_pile = DrawPile::initialize_test_pile(vec![24, 12, 6, 3]);
    let next = draw_pile.draw(&mut rng);

    let game_state = GameState {
        board,
        draw_pile,
        next,
        moves: 0,
    };

    let new_state = game_state.shift(Direction::Left, true, &mut rng).unwrap();
    let expected = BoardState::initialize_test_state([
        1, 0, 0, 3,
        0, 0, 0, 0,
        0, 0, 0, 0,
        0, 0, 0, 0,
    ], 1);
    assert_eq!(expected, new_state.board, "board shifted left as expected");
    assert_eq!(6, new_state.next.unwrap_regular(), "next card was drawn");
    assert_eq!(DrawPile::initialize_test_pile(vec![24, 12]), new_state.draw_pile, "card was drawn from the draw pile");
    assert_eq!(1, new_state.get_moves(), "1 move was logged");

    let no_state = new_state.shift(Direction::Up, false, &mut rng);
    assert_eq!(None, no_state, "board did not shift");
    assert_eq!(expected, new_state.board, "prior board did not shift");
    assert_eq!(6, new_state.next.unwrap_regular(), "prior board did not draw a new card");
    assert_eq!(1, new_state.get_moves(), "prior board did not log a move");

    let second_state = new_state.shift(Direction::Left, true, &mut rng).unwrap();
    let expected = BoardState::initialize_test_state([
        1, 0, 3, 6,
        0, 0, 0, 0,
        0, 0, 0, 0,
        0, 0, 0, 0,
    ], 1);
    assert_eq!(expected, second_state.board, "board shifted left as expected");
    assert_eq!(12, second_state.next.unwrap_regular(), "next card was drawn");
    assert_eq!(DrawPile::initialize_test_pile(vec![24]), second_state.draw_pile, "card was drawn from the draw pile");
    assert_eq!(2, second_state.get_moves(), "another move was logged");
}

#[test]
fn shift_with_bonus() {
    let mut rng = test_rng();

    let mut grid = [0; 16];
    grid[0] = 96;
    grid[1] = 96;
    let board = BoardState::initialize_test_state(grid, 96);

    let mut draw_pile = DrawPile::initialize(&mut rng);
    assert_eq!(0, draw_pile.len().1);
    let next = draw_pile.draw(&mut rng);

    let game_state = GameState {
        board,
        draw_pile,
        next,
        moves: 0,
    };

    let new_state = game_state.shift(Direction::Left, true, &mut rng).unwrap();
    let expected = BoardState::initialize_test_state([
        192, 0, 0, game_state.next.unwrap_regular(),
          0, 0, 0, 0,
          0, 0, 0, 0,
          0, 0, 0, 0,
    ], 192);
    assert_eq!(expected, new_state.board, "board shifted left as expected");
    assert_eq!(3, new_state.draw_pile.len().1, "bonus pile has been populated");
}

#[test]
fn shift_all() {
    let mut rng = test_rng();

    let board = BoardState::initialize_test_state([
        0,  3, 0, 0,
        0,  6, 0, 0,
        0, 12, 0, 0,
        0, 24, 0, 0,
    ], 1);

    let draw_pile = DrawPile::initialize_test_pile(vec![24, 12, 6, 3]);
    let next = DrawType::Bonus([4, 7, 13]);

    let game_state = GameState {
        board,
        draw_pile,
        next,
        moves: 0,
    };

    let new_states = game_state.shift_all(Direction::Left, &mut rng);
    let mut ns_iter = new_states.iter();
    assert_eq!(12, new_states.len(), "Got all 12 possible shifts");
    for row in 0..4 {
        for card in [4, 7, 13] {
            let mut inserted_row_values = [0; 4];
            inserted_row_values[row] = card;
            let expected = BoardState::initialize_test_state([
                 3, 0, 0, inserted_row_values[0],
                 6, 0, 0, inserted_row_values[1],
                12, 0, 0, inserted_row_values[2],
                24, 0, 0, inserted_row_values[3],
            ], 1);
            let next_state = ns_iter.next().unwrap();
            assert_eq!(expected, next_state.board, "board row {row} card {card} shifted left as expected");
            assert_eq!(3, next_state.next.unwrap_regular(), "next card was drawn for board row {row} card {card}");
            assert_eq!(DrawPile::initialize_test_pile(vec![24, 12, 6]), next_state.draw_pile, "card was drawn from the draw pile for board row {row} card {card}");
            assert_eq!(1, next_state.get_moves(), "1 move was logged for board row {row} card {card}");
        }
    }

    let no_new_states = new_states[0].shift_all(Direction::Up, &mut rng);
    assert_eq!(0, no_new_states.len(), "no new states after shifting up");
}

#[test]
fn insertion_points_pick_all_or_one() {
    let mut rng = test_rng();
    let board = BoardState::initialize_test_state([
        0, 3, 0, 0,
        0, 0, 0, 0,
        0, 6, 0, 0,
        0, 0, 0, 0,
    ], 6);
    let game_state = GameState::initialize_test_state(
        board,
        DrawPile::initialize_test_pile(vec![2, 1]),
        DrawType::Bonus([6, 12, 24]),
    );
    let all = gen_states_for_insertion_points(&game_state, Direction::Left, &InsertionPoints::All, &mut rng);
    assert_eq!(6, all.len(), "two moving rows, three possible cards");
    let one = gen_states_for_insertion_points(&game_state, Direction::Left, &InsertionPoints::One, &mut rng);
    assert_eq!(1, one.len());
    assert_eq!(1, one[0].get_moves());
    assert_eq!(&DrawType::Regular(1), one[0].get_next());
    let none = gen_states_for_insertion_points(&one[0], Direction::Right, &InsertionPoints::One, &mut rng);
    let can_right = one[0].get_grid().iter().enumerate().any(|(i, &c)| c > 0 && i % 4 != 3);
    assert_eq!(can_right, none.len() == 1);
}

#[test]
fn moves_fit_checks_the_card_sizes() {
    let mut rng = test_rng();
    let game = GameState::initialize(&mut rng);
    assert!(game.moves_fit(), "a new game can move");

    let mut grid = [0; 16];
    grid[0] = 49152;
    let board = BoardState::initialize_test_state(grid, 49152);
    let mut draw_pile = DrawPile::initialize_test_pile(vec![1, 2, 3]);
    let next = draw_pile.draw(&mut rng);
    let big = GameState::initialize_test_state(board, draw_pile, next);
    assert!(!big.moves_fit(), "a card above half of u16::MAX is refused");

    let mut grid = [0; 16];
    grid[0] = 24576;
    let board = BoardState::initialize_test_state(grid, 24576);
    let mut draw_pile = DrawPile::initialize_test_pile(vec![1]);
    let next = draw_pile.draw(&mut rng);
    let fine = GameState::initialize_test_state(board, draw_pile, next);
    // the single card was drawn and the pile refilled itself
    assert!(fine.moves_fit());
}

#[test]
fn exact_checks_allow_large_cards_that_do_not_overflow() {
    let mut rng = test_rng();
    let mut grid = [0; 16];
    grid[0] = 49152;
    grid[1] = 3;
    let board = BoardState::initialize_test_state(grid, 49152);
    for dir in [Direction::Left, Direction::Up, Direction::Right, Direction::Down] {
        assert!(board.fits_shift(dir), "a lone 49152 shifts safely");
    }
    let mut draw_pile = DrawPile::initialize_test_pile(vec![1, 2, 3]);
    let next = draw_pile.draw(&mut rng);
    let game = GameState::initialize_test_state(board, draw_pile, next);
    assert!(game.can_move_towards(Direction::Right));
    assert!(threes::algo::merge_tests_hold(&game, false));
    assert!(!threes::algo::merge_tests_hold(&game, true), "testing 49152 against a 3 for a near merge doubles it, which overflows");

    let mut grid = [0; 16];
    grid[0] = 49152;
    grid[1] = 49152;
    let board = BoardState::initialize_test_state(grid, 49152);
    assert!(!board.fits_shift(Direction::Left), "two 49152s overflow when they merge");
    // shifting right, the two cards only close up and do not merge
    assert!(board.fits_shift(Direction::Right));
    assert!(board.fits_shift(Direction::Up));
}

#[test]
fn the_generator_is_untouched_unless_a_card_is_placed() {
    let mut grid = [0; 16];
    grid[1] = 3;
    let board = BoardState::initialize_test_state(grid, 3);
    let mut rng = test_rng();
    let before = rng.clone();
    assert!(board.shift(Direction::Left, None, &mut rng).is_some());
    assert_eq!(before, rng, "a plain shift draws nothing");
    let stuck = BoardState::initialize_test_state(
        [3, 6, 12, 24, 6, 3, 24, 12, 3, 6, 12, 24, 6, 3, 24, 12],
        24,
    );
    assert!(stuck.shift(Direction::Up, Some(1), &mut rng).is_none());
    assert_eq!(before, rng, "a shift that moves nothing draws nothing");
}
