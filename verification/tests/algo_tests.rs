use threes::algo::{
    all_algos, default_config, empties, high_cells, high_corners, high_walls, in_boost_range,
    merge_pairs, merges, monotones, nearly_merges, neighbors_of, shifts, squeezed_cards, squeezes,
    AlgoConfig, Algos,
};
use threes::board_state::{BoardState, Card, Direction, Grid};
use threes::draw_pile::DrawPile;
use threes::game_state::GameState;
use threes::rng::test_rng;

fn generate_game_state(grid: Grid) -> GameState {
    let mut rng = test_rng();
    let mut draw_pile = DrawPile::initialize(&mut rng);
    let next = draw_pile.draw(&mut rng);

    let board_state = BoardState::initialize_test_state(grid, *grid.iter().max().unwrap());

    GameState::initialize_test_state(board_state, draw_pile, next)
}

/// The factor by which a value booster for `min ..= max` multiplies a score
/// about `values`.
fn boost_for(values: &[Card], min: Card, max: Card, boost: f64) -> f64 {
    if in_boost_range(values, min, max) {
        boost
    } else {
        1.0
    }
}

fn boosted_merges(game_state: &GameState, nearly: bool, min: Card, max: Card, boost: f64) -> f64 {
    merge_pairs(game_state, nearly)
        .iter()
        .map(|&(card, neighbor)| boost_for(&[card, neighbor], min, max, boost))
        .sum::<f64>()
        / 2.0
}

fn boosted_squeezes(game_state: &GameState, min: Card, max: Card, boost: f64) -> f64 {
    squeezed_cards(game_state)
        .iter()
        .map(|&card| boost_for(&[card], min, max, boost))
        .sum::<f64>()
}

fn boosted_highs(
    game_state: &GameState,
    corners_only: bool,
    min: Card,
    max: Card,
    boost: f64,
) -> f64 {
    high_cells(game_state, corners_only)
        .iter()
        .map(|&(card, points)| points as f64 * boost_for(&[card], min, max, boost))
        .sum::<f64>()
}

// ---------------------------------------------------------------------------
// The whole-number scores

#[test]
fn algo_test_score() {
    assert_eq!(
        0,
        Algos::Empties.score(&None, &Direction::Left),
        "all 'None' states get a 0 score"
    );

    let mut grid = [0; 16];
    grid[1] = 1;
    let game_state = generate_game_state(grid);

    assert!(
        Algos::Empties.score(&Some(game_state), &Direction::Left) > 0,
        "with a valid GameState, the score is greater than 0"
    );
}

#[test]
fn algo_test_empties() {
    let game_state = generate_game_state([
        3, 3, 3, 0,
        0, 3, 3, 3,
        0, 3, 3, 0,
        0, 0, 0, 0,
    ]);

    assert_eq!(8, empties(&game_state), "empty cells are counted correctly");
}

#[test]
fn algo_test_merges() {
    let game_state = generate_game_state([3; 16]);
    assert_eq!(
        // 3 pairs across each row
        // 4 rows
        // then repeat that for columns
        3 * 4 * 2,
        merges(&game_state),
        "max score when everything is mergeable",
    );

    let game_state = generate_game_state([
        3, 0, 3, 0,
        0, 3, 0, 3,
        3, 0, 3, 0,
        0, 3, 0, 3,
    ]);
    assert_eq!(0, merges(&game_state), "no merges gives a score of 0");

    let game_state = generate_game_state([
        3, 3, 0, 0,
        0, 0, 0, 0,
        0, 0, 0, 0,
        0, 0, 0, 0,
    ]);
    assert_eq!(1, merges(&game_state), "1 merge gives a score of 1");

    let game_state = generate_game_state([
        3, 3, 0, 0,
        3, 3, 0, 0,
        0, 0, 0, 0,
        0, 0, 0, 0,
    ]);
    assert_eq!(4, merges(&game_state), "4 pairs of merges in a 2x2");

    let game_state = generate_game_state([
        1, 2, 2, 0,
        0, 2, 2, 1,
        0, 0, 0, 0,
        1, 1, 1, 1,
    ]);
    assert_eq!(2, merges(&game_state), "1's and 2's only merge with their counterpart");

    let game_state = generate_game_state([
        3, 3, 2, 1,  // 2
        0, 3, 6, 6,  // 1
        2, 1, 0, 12, // 1
        1, 2, 1, 2,  // 3  <-- this one was surprising
     // 1  2  0  0
    ]);
    assert_eq!(
        2 + 1 + 1 + 3 + 1 + 2 + 0 + 0,
        merges(&game_state),
        "a big messy example"
    );
}

#[test]
fn algo_test_nearly_merges() {
    for value in 0..=3 {
        let game_state = generate_game_state([value; 16]);
        assert_eq!(0, nearly_merges(&game_state), "0 when everything is {value}");
    }

    let game_state = generate_game_state([
        1, 2, 1, 2,
        2, 1, 2, 1,
        1, 2, 1, 2,
        2, 1, 2, 1,
    ]);
    assert_eq!(0, nearly_merges(&game_state), "1s and 2s aren't nearly mergeable");

    let game_state = generate_game_state([
        1, 2, 3, 0, // 1
        2, 1, 3, 0, // 1
        3, 3, 0, 0, // 0
        0, 0, 0, 0, // 0
    //  1  1  0  0
    ]);
    assert_eq!(4, nearly_merges(&game_state), "1s and 2s merge with 3s");

    let game_state = generate_game_state([
         3, 6, 3, 12, // 2
         6, 0, 3,  0, // 0
        12, 3, 0, 12, // 0
         0, 0, 0, 24, // 0
    //   2  0  0   1
    ]);
    assert_eq!(5, nearly_merges(&game_state), "Cards merge with cards twice their value");

    let game_state = generate_game_state([
        1, 6, 3,  2, // 2
        6, 0, 3,  0, // 0
        2, 3, 0, 12, // 1
        0, 0, 0, 24, // 0
    //  0  0  0   1
    ]);
    assert_eq!(4, nearly_merges(&game_state), "A mix of everything");
}

#[test]
fn algo_test_squeezes() {
    let game_state = generate_game_state([3; 16]);
    assert_eq!(0, squeezes(&game_state), "no squeezes when everything is mergeable");

    let mut grid = [0; 16];
    grid[5] = 3;
    let game_state = generate_game_state(grid);
    assert_eq!(0, squeezes(&game_state), "no squeezes when just one cell filled");

    let game_state = generate_game_state([
        3, 0, 3, 0,
        0, 3, 0, 3,
        3, 0, 3, 0,
        0, 3, 0, 3,
    ]);
    assert_eq!(0, squeezes(&game_state), "no squeezes when cards don't have neighbors");

    let game_state = generate_game_state([
        6, 3, 3, 6,
        3, 0, 0, 3,
        3, 0, 0, 3,
        6, 3, 3, 6,
    ]);
    assert_eq!(0, squeezes(&game_state), "no squeezes when squeezed cards are mergeable");

    let game_state = generate_game_state([
        24, 12, 6, 0,
        12,  6, 3, 0,
         6,  3, 0, 0,
         0,  0, 0, 0,
    ]);
    assert_eq!(
        0,
        squeezes(&game_state),
        "no squeezes when bigger neighbors aren't on opposite sides"
    );

    let game_state = generate_game_state([
        6, 3, 6, 0,
        3, 0, 0, 6,
        6, 0, 0, 3,
        0, 6, 3, 6,
    ]);
    assert_eq!(4, squeezes(&game_state), "obvious squeezes in both directions");

    let game_state = generate_game_state([
        3, 6, 0, 3,
        0, 0, 0, 6,
        6, 0, 0, 0,
        3, 0, 6, 3,
    ]);
    assert_eq!(
        4,
        squeezes(&game_state),
        "you can be squeezed between a card and the wall, in all four directions"
    );

    let game_state = generate_game_state([
        24, 12, 6, 3,
         0,  0, 0, 0,
         0,  0, 0, 0,
         0,  0, 0, 0,
    ]);
    assert_eq!(1, squeezes(&game_state), "the three is squeezed but I'm not sure it should be");

    let game_state = generate_game_state([
        0, 0, 6, 3,
        0, 0, 0, 0,
        0, 0, 0, 0,
        0, 0, 0, 0,
    ]);
    assert_eq!(1, squeezes(&game_state), "the three counts as squeezed but that seems wrong");

    let game_state = generate_game_state([
        24, 6, 12,  3, // 2
        12, 6, 24,  6, // 2
         3, 3,  6,  3, // 1
         3, 0,  6, 12, // 0
     //  0  0   1   2
    ]);
    assert_eq!(
        2 + 2 + 1 + 0 + 0 + 0 + 1 + 2,
        squeezes(&game_state),
        "a big complex example"
    );
}

#[test]
fn algo_test_high_walls() {
    for value in 1..=3 {
        let game_state = generate_game_state([value; 16]);
        assert_eq!(12 * 3, high_walls(&game_state), "36 when all cells have the same value");
    }

    let game_state = generate_game_state([
        3, 3, 3, 3,
        3, 0, 0, 3,
        3, 0, 0, 3,
        3, 3, 3, 3,
    ]);
    assert_eq!(12 * 3, high_walls(&game_state), "double check that all wall spots are counted");

    let game_state = generate_game_state([
        0, 0, 0, 0,
        0, 1, 0, 0,
        0, 0, 0, 0,
        0, 0, 0, 0,
    ]);
    assert_eq!(0, high_walls(&game_state), "0 when no values are near a wall");

    let game_state = generate_game_state([
        0, 1, 0, 0,
        0, 0, 0, 0,
        0, 0, 0, 0,
        0, 0, 0, 0,
    ]);
    assert_eq!(3, high_walls(&game_state), "3 when the highest high value is near a wall");

    let game_state = generate_game_state([
        1, 0, 0, 0,
        0, 0, 0, 0,
        0, 0, 0, 0,
        0, 0, 0, 0,
    ]);
    assert_eq!(3, high_walls(&game_state), "still 3 when the highest value is in a corner");

    let game_state = generate_game_state([
        3,  3,  0, 0,
        3, 48, 24, 0,
        0,  0, 12, 0,
        0,  0,  0, 0,
    ]);
    assert_eq!(0, high_walls(&game_state), "0 when only non-highest values are near the walls");

    let game_state = generate_game_state([
        3,  3, 24, 0,
        3, 48, 24, 0,
        0,  0, 12, 0,
        0,  0,  0, 0,
    ]);
    assert_eq!(
        2,
        high_walls(&game_state),
        "2 when medium-high value is next to a wall, and other high values aren't"
    );

    let game_state = generate_game_state([
        3, 96, 12, 0,
        3,  3, 24, 0,
        0,  0, 12, 0,
        0,  0,  0, 0,
    ]);
    assert_eq!(
        4,
        high_walls(&game_state),
        "The top 3 *actual* high values are used, even if there's a gap"
    );

    let game_state = generate_game_state([
        3, 96, 12, 0,
        3,  3, 24, 0,
        1,  2, 48, 0,
        0,  0,  0, 0,
    ]);
    assert_eq!(3, high_walls(&game_state), "A more complex example");
}

#[test]
fn algo_test_high_corners() {
    for value in 1..=3 {
        let game_state = generate_game_state([value; 16]);
        assert_eq!(4 * 3, high_corners(&game_state), "12 when all cells have the same value");
    }

    let game_state = generate_game_state([
        3, 0, 0, 3,
        0, 0, 0, 0,
        0, 0, 0, 0,
        3, 0, 0, 3,
    ]);
    assert_eq!(4 * 3, high_corners(&game_state), "double check that all corner spots are counted");

    let game_state = generate_game_state([
        0, 0, 0, 0,
        0, 1, 0, 0,
        0, 0, 0, 1,
        0, 0, 0, 0,
    ]);
    assert_eq!(0, high_corners(&game_state), "0 when no values are in a corner");

    let game_state = generate_game_state([
        1, 0, 0, 0,
        0, 0, 0, 0,
        0, 0, 0, 0,
        0, 0, 0, 0,
    ]);
    assert_eq!(3, high_corners(&game_state), "3 when the highest high value is in a corner");

    let game_state = generate_game_state([
        3,  3,  0, 3,
        3, 48, 24, 0,
        0,  0, 12, 0,
        0, 48,  0, 0,
    ]);
    assert_eq!(0, high_corners(&game_state), "0 when only non-highest values are in the corners");

    let game_state = generate_game_state([
        24, 3,  3, 0,
        3, 48, 24, 0,
        0,  0, 12, 0,
        0,  0,  0, 3,
    ]);
    assert_eq!(
        2,
        high_corners(&game_state),
        "2 when medium-high value is in a corner, and other high values aren't"
    );

    let game_state = generate_game_state([
        96, 3, 12, 0,
        3,  3, 24, 0,
        0,  0, 12, 0,
        12, 0,  0, 0,
    ]);
    assert_eq!(
        4,
        high_corners(&game_state),
        "The top 3 *actual* high values are used, even if there's a gap"
    );

    let game_state = generate_game_state([
        24, 96, 3, 96,
        3,  3, 24,  0,
        1,  2, 48,  0,
        48, 0,  0, 24,
    ]);
    assert_eq!(7, high_corners(&game_state), "A more complex example");
}

#[test]
fn algo_test_monotones() {
    for value in 0..=3 {
        let game_state = generate_game_state([value; 16]);
        assert_eq!(0, monotones(&game_state), "0 when all cells have the same value {value}");
    }

    let game_state = generate_game_state([
        0, 0, 0, 0,
        0, 0, 0, 0,
        1, 2, 3, 6,
        0, 0, 0, 0,
    ]);
    assert_eq!(3, monotones(&game_state), "a basic monotone row");

    let game_state = generate_game_state([
        0, 0, 0, 0,
        6, 3, 2, 1,
        0, 0, 0, 0,
        0, 0, 0, 0,
    ]);
    assert_eq!(3, monotones(&game_state), "it works right to left, too");

    let game_state = generate_game_state([
        0, 1, 0, 0,
        0, 2, 0, 0,
        0, 3, 0, 0,
        0, 6, 0, 0,
    ]);
    assert_eq!(3, monotones(&game_state), "a basic monotone col");

    let game_state = generate_game_state([
        0, 0, 6, 0,
        0, 0, 3, 0,
        0, 0, 2, 0,
        0, 0, 1, 0,
    ]);
    assert_eq!(3, monotones(&game_state), "it works down to up, too");

    let game_state = generate_game_state([
        6, 3, 2, 1, // -3
        3, 0, 0, 0, // -1
        2, 0, 0, 0, // -1
        1, 0, 0, 0, // -1
    // -3 -1 -1 -1
    ]);
    assert_eq!(6 + 6, monotones(&game_state), "both directions at the same time");

    let game_state = generate_game_state([
        0, 0, 0, 1, // 1
        0, 0, 0, 2, // 1
        0, 0, 0, 3, // 1
        1, 2, 3, 6, // 3
    //  1  1  1  3
    ]);
    assert_eq!(12, monotones(&game_state), "the other both directions at the same time");

    let game_state = generate_game_state([
        0, 0, 0, 0,
        6, 3, 2, 6,
        0, 0, 0, 0,
        0, 0, 0, 0,
    ]);
    assert_eq!(1, monotones(&game_state), "non-monotones don't score as well");

    let game_state = generate_game_state([
        0, 0, 0, 0,
        6, 2, 3, 6,
        0, 0, 0, 0,
        0, 0, 0, 0,
    ]);
    assert_eq!(1, monotones(&game_state), "non-monotones don't score as well, the other way");

    let game_state = generate_game_state([
        0, 3, 2, 0, // 1
        0, 3, 2, 0, // 1
        0, 6, 0, 0, // 0
        0, 0, 0, 0, // 0
    //  0  0  1  0
    ]);
    assert_eq!(
        3,
        monotones(&game_state),
        "weird behavior in the middle of the board, but that's probably OK in practice"
    );

    let game_state = generate_game_state([
        6, 3, 2, 1, // 3
        6, 3, 2, 1, // 3
        0, 0, 0, 0, // 0
        0, 0, 0, 0, // 0
    //  1  1  1  1
    ]);
    assert_eq!(6 + 4, monotones(&game_state), "a pretty-good state");

    let game_state = generate_game_state([
        6, 3, 2, 1, // 3
        1, 2, 3, 6, // -3
        0, 0, 0, 0, // 0
        0, 0, 0, 0, // 0
    //  2  2  0  0
    ]);
    assert_eq!(
        0 + 4,
        monotones(&game_state),
        "a lower but still positive score, with rows alternating directions, which seems reasonable"
    );

    let game_state = generate_game_state([
        6, 3, 2, 1, // 3
        0, 0, 0, 0, // 0
        1, 2, 3, 6, // -3
        0, 0, 0, 0, // 0
    //  -1 -1 -1 -1
    ]);
    assert_eq!(
        0 + 4,
        monotones(&game_state),
        "interesting to see how it works out with gaps between rows"
    );

    let game_state = generate_game_state([
        48, 24, 12, 6, // 3
        24, 12,  6, 3, // 3
        12,  6,  3, 2, // 3
         6,  3,  2, 1, // 3
    //   3   3   3  3
    ]);
    assert_eq!(3 * 8, monotones(&game_state), "the best possible state for this algo");

    let game_state = generate_game_state([
        6, 3, 2, 1, // 3
        1, 2, 3, 6, // -3
        6, 3, 2, 1, // 3
        1, 2, 3, 6, // -3
    // -1 -1  1  1
    ]);
    assert_eq!(
        0 + 0,
        monotones(&game_state),
        "fully back-and-forth screws you, which is maybe reasonable"
    );

    let game_state = generate_game_state([
        24, 12,  2, 3, // -1
        12,  1,  3, 1, // -1
         2, 48, 24, 3, // -1
         2,  6,  3, 1, // -1
    //  -2  -1   1 -1
    ]);
    assert_eq!(4 + 3, monotones(&game_state), "a complex (dead-end) case");
}

// ---------------------------------------------------------------------------
// The same features as the weighted solver reads them

#[test]
fn empties_test_score() {
    let mut grid = [0; 16];
    grid[1] = 1;
    let game_state = generate_game_state(grid);

    assert!(
        empties(&game_state) as f64 > 0.0,
        "with a valid GameState, the score is greater than 0"
    );
}

#[test]
fn empties_test_empties() {
    let game_state = generate_game_state([
        3, 3, 3, 0,
        0, 3, 3, 3,
        0, 3, 3, 0,
        0, 0, 0, 0,
    ]);

    assert_eq!(8.0, empties(&game_state) as f64, "empty cells are counted correctly");
}

#[test]
fn empties_test_max_possible_score() {
    let game_state = generate_game_state([
        0, 0, 0, 0,
        0, 0, 0, 0,
        0, 0, 0, 0,
        0, 0, 0, 0,
    ]);
    assert_eq!(16.0, empties(&game_state) as f64, "empties max score");
}

#[test]
fn highs_test_high_walls() {
    for value in 1..=3 {
        let game_state = generate_game_state([value; 16]);
        assert_eq!(
            12.0 * 3.0,
            high_walls(&game_state) as f64,
            "36 when all cells have the same value"
        );
    }

    let game_state = generate_game_state([
        3, 3, 3, 3,
        3, 0, 0, 3,
        3, 0, 0, 3,
        3, 3, 3, 3,
    ]);
    assert_eq!(
        12.0 * 3.0,
        high_walls(&game_state) as f64,
        "double check that all wall spots are counted"
    );

    let game_state = generate_game_state([
        0, 0, 0, 0,
        0, 1, 0, 0,
        0, 0, 0, 0,
        0, 0, 0, 0,
    ]);
    assert_eq!(0.0, high_walls(&game_state) as f64, "0 when no values are near a wall");

    let game_state = generate_game_state([
        0, 1, 0, 0,
        0, 0, 0, 0,
        0, 0, 0, 0,
        0, 0, 0, 0,
    ]);
    assert_eq!(3.0, high_walls(&game_state) as f64, "3 when the highest high value is near a wall");

    let game_state = generate_game_state([
        1, 0, 0, 0,
        0, 0, 0, 0,
        0, 0, 0, 0,
        0, 0, 0, 0,
    ]);
    assert_eq!(3.0, high_walls(&game_state) as f64, "still 3 when the highest value is in a corner");

    let game_state = generate_game_state([
        3,  3,  0, 0,
        3, 48, 24, 0,
        0,  0, 12, 0,
        0,  0,  0, 0,
    ]);
    assert_eq!(
        0.0,
        high_walls(&game_state) as f64,
        "0 when only non-highest values are near the walls"
    );

    let game_state = generate_game_state([
        3,  3, 24, 0,
        3, 48, 24, 0,
        0,  0, 12, 0,
        0,  0,  0, 0,
    ]);
    assert_eq!(
        2.0,
        high_walls(&game_state) as f64,
        "2 when medium-high value is next to a wall, and other high values aren't"
    );

    let game_state = generate_game_state([
        3, 96, 12, 0,
        3,  3, 24, 0,
        0,  0, 12, 0,
        0,  0,  0, 0,
    ]);
    assert_eq!(
        4.0,
        high_walls(&game_state) as f64,
        "The top 3 *actual* high values are used, even if there's a gap"
    );

    let game_state = generate_game_state([
        3, 96, 12, 0,
        3,  3, 24, 0,
        1,  2, 48, 0,
        0,  0,  0, 0,
    ]);
    assert_eq!(3.0, high_walls(&game_state) as f64, "A more complex example");

    let test_boost = 2.5;
    let game_state = generate_game_state([
        12, 96, 48, 0, // 96 is great_big (3); 48 is boosted (2 * boost)
        12, 12, 24, 0, // 12 isn't high (0)
         1,  2, 48, 0, // 48 not on a wall doesn't count (0)
         0, 24,  0, 0, // 24 is high and boosted (wee: 1 * boost)
    ]);
    assert_eq!(
        3.0 + 2.0 * test_boost + 1.0 * test_boost,
        boosted_highs(&game_state, false, 12, 48, test_boost),
        "A booster example"
    );
}

#[test]
fn highs_test_high_corners() {
    for value in 1..=3 {
        let game_state = generate_game_state([value; 16]);
        assert_eq!(
            4.0 * 3.0,
            high_corners(&game_state) as f64,
            "12 when all cells have the same value"
        );
    }

    let game_state = generate_game_state([
        3, 0, 0, 3,
        0, 0, 0, 0,
        0, 0, 0, 0,
        3, 0, 0, 3,
    ]);
    assert_eq!(
        4.0 * 3.0,
        high_corners(&game_state) as f64,
        "double check that all corner spots are counted"
    );

    let game_state = generate_game_state([
        0, 0, 0, 0,
        0, 1, 0, 0,
        0, 0, 0, 1,
        0, 0, 0, 0,
    ]);
    assert_eq!(0.0, high_corners(&game_state) as f64, "0 when no values are in a corner");

    let game_state = generate_game_state([
        1, 0, 0, 0,
        0, 0, 0, 0,
        0, 0, 0, 0,
        0, 0, 0, 0,
    ]);
    assert_eq!(
        3.0,
        high_corners(&game_state) as f64,
        "3 when the highest high value is in a corner"
    );

    let game_state = generate_game_state([
        3,  3,  0, 3,
        3, 48, 24, 0,
        0,  0, 12, 0,
        0, 48,  0, 0,
    ]);
    assert_eq!(
        0.0,
        high_corners(&game_state) as f64,
        "0 when only non-highest values are in the corners"
    );

    let game_state = generate_game_state([
        24, 3,  3, 0,
        3, 48, 24, 0,
        0,  0, 12, 0,
        0,  0,  0, 3,
    ]);
    assert_eq!(
        2.0,
        high_corners(&game_state) as f64,
        "2 when medium-high value is in a corner, and other high values aren't"
    );

    let game_state = generate_game_state([
        96, 3, 12, 0,
        3,  3, 24, 0,
        0,  0, 12, 0,
        12, 0,  0, 0,
    ]);
    assert_eq!(
        4.0,
        high_corners(&game_state) as f64,
        "The top 3 *actual* high values are used, even if there's a gap"
    );

    let game_state = generate_game_state([
        24, 96, 3, 96,
        3,  3, 24,  0,
        1,  2, 48,  0,
        48, 0,  0, 24,
    ]);
    assert_eq!(7.0, high_corners(&game_state) as f64, "A more complex example");

    let test_boost = 2.5;
    let game_state = generate_game_state([
        48, 96,  3, 96, // 48 (mid: 2) and 96 (high: 3) aren't boosted
         3,  3, 24,  0, // no corners
         1,  2, 48,  0, // no corners
        24,  0,  0, 12, // 24 is boosted (wee: 1 * boost); 12 is boosted but isn't high
    ]);
    assert_eq!(
        2.0 + 3.0 + 1.0 * test_boost,
        boosted_highs(&game_state, true, 12, 24, test_boost),
        "A booster example"
    );
}

#[test]
fn merges_test_merges() {
    let game_state = generate_game_state([3; 16]);
    assert_eq!(
        // 3 pairs across each row
        // 4 rows
        // then repeat that for columns
        3.0 * 4.0 * 2.0,
        merges(&game_state) as f64,
        "max score when everything is mergeable",
    );

    let game_state = generate_game_state([
        3, 0, 3, 0,
        0, 3, 0, 3,
        3, 0, 3, 0,
        0, 3, 0, 3,
    ]);
    assert_eq!(0.0, merges(&game_state) as f64, "no merges gives a score of 0");

    let game_state = generate_game_state([
        3, 3, 0, 0,
        0, 0, 0, 0,
        0, 0, 0, 0,
        0, 0, 0, 0,
    ]);
    assert_eq!(1.0, merges(&game_state) as f64, "1 merge gives a score of 1");

    let game_state = generate_game_state([
        3, 3, 0, 0,
        3, 3, 0, 0,
        0, 0, 0, 0,
        0, 0, 0, 0,
    ]);
    assert_eq!(4.0, merges(&game_state) as f64, "4 pairs of merges in a 2x2");

    let game_state = generate_game_state([
        1, 2, 2, 0,
        0, 2, 2, 1,
        0, 0, 0, 0,
        1, 1, 1, 1,
    ]);
    assert_eq!(
        2.0,
        merges(&game_state) as f64,
        "1's and 2's only merge with their counterpart"
    );

    let game_state = generate_game_state([
        3, 3, 2, 1,  // 2
        0, 3, 6, 6,  // 1
        2, 1, 0, 12, // 1
        1, 2, 1, 2,  // 3  <-- this one was surprising
     // 1  2  0  0
    ]);
    assert_eq!(
        (2 + 1 + 1 + 3 + 1 + 2 + 0 + 0) as f64,
        merges(&game_state) as f64,
        "a big messy example"
    );
}

#[test]
fn test_boosted_merges() {
    let test_boost = 2.5;

    let game_state = generate_game_state([12; 16]);
    assert_eq!(
        // 3 pairs across each row
        // 4 rows
        // then repeat that for columns
        3.0 * 4.0 * 2.0,
        boosted_merges(&game_state, false, 1, 6, test_boost),
        "default score when nothing matches the booster",
    );

    let game_state = generate_game_state([6; 16]);
    assert_eq!(
        3.0 * 4.0 * 2.0 * test_boost,
        boosted_merges(&game_state, false, 1, 6, test_boost),
        "boosted score when everything matches the booster",
    );

    let game_state = generate_game_state([
        12, 12, 0, 0,
        12, 12, 0, 0,
         0,  0, 6, 6,
         0,  0, 6, 6,
    ]);
    assert_eq!(
        4.0 + 4.0 * test_boost,
        boosted_merges(&game_state, false, 1, 6, test_boost),
        "12s are normal, 6s are boosted"
    );

    let game_state = generate_game_state([
        3, 3, 6, 6, // 2 un-boosted merges
        0, 0, 0, 0, // 0
        1, 2, 3, 6, // 1/2 merges and is boosted by 1
        0, 0, 0, 0, // 0
    ]);
    assert_eq!(
        2.0 + 1.0 * test_boost,
        boosted_merges(&game_state, false, 1, 1, test_boost),
        "1s can merge with 2s if either is matched by the booster"
    );
}

#[test]
fn merges_test_nearly_merges() {
    for value in 0..=3 {
        let game_state = generate_game_state([value; 16]);
        assert_eq!(0.0, nearly_merges(&game_state) as f64, "0 when everything is {value}");
    }

    let game_state = generate_game_state([
        1, 2, 1, 2,
        2, 1, 2, 1,
        1, 2, 1, 2,
        2, 1, 2, 1,
    ]);
    assert_eq!(0.0, nearly_merges(&game_state) as f64, "1s and 2s aren't nearly mergeable");

    let game_state = generate_game_state([
        1, 2, 3, 0, // 1
        2, 1, 3, 0, // 1
        3, 3, 0, 0, // 0
        0, 0, 0, 0, // 0
    //  1  1  0  0
    ]);
    assert_eq!(4.0, nearly_merges(&game_state) as f64, "1s and 2s merge with 3s");

    let game_state = generate_game_state([
         3, 6, 3, 12, // 2
         6, 0, 3,  0, // 0
        12, 3, 0, 12, // 0
         0, 0, 0, 24, // 0
    //   2  0  0   1
    ]);
    assert_eq!(
        5.0,
        nearly_merges(&game_state) as f64,
        "Cards merge with cards twice their value"
    );

    let game_state = generate_game_state([
        1, 6, 3,  2, // 2
        6, 0, 3,  0, // 0
        2, 3, 0, 12, // 1
        0, 0, 0, 24, // 0
    //  0  0  0   1
    ]);
    assert_eq!(4.0, nearly_merges(&game_state) as f64, "A mix of everything");
}

#[test]
fn test_boosted_nearly_merges() {
    let test_boost = 2.5;

    let game_state = generate_game_state([
        1, 2, 1, 2,
        2, 1, 2, 1,
        1, 2, 1, 2,
        2, 1, 2, 1,
    ]);
    assert_eq!(
        0.0,
        boosted_merges(&game_state, true, 1, 6, test_boost),
        "Even though they match the booster, 1s and 2s aren't nearly mergeable"
    );

    let game_state = generate_game_state([
        1, 2, 3, 0, // 1
        2, 1, 3, 0, // 1
        3, 3, 0, 0, // 0
        0, 0, 0, 0, // 0
    //  1  1  0  0
    ]);
    assert_eq!(
        4.0 * test_boost,
        boosted_merges(&game_state, true, 1, 6, test_boost),
        "1s and 2s match the booster and merge with 3s"
    );

    let game_state = generate_game_state([
        24, 12, 6, 3, // 24/12 not boosted; 12/6 boosted; 6/3 boosted
         0,  0, 6, 0,
         0,  0, 0, 0,
         0,  0, 0, 0,
    ]);
    assert_eq!(
        1.0 + 1.0 * test_boost + 1.0 * test_boost,
        boosted_merges(&game_state, true, 1, 6, test_boost),
        "6 is boosted and is nearly mergeable with the values on either side of it"
    );
}

#[test]
fn merges_test_max_possible_score() {
    // 24
    let game_state = generate_game_state([
        3, 3, 3, 3,
        3, 3, 3, 3,
        3, 3, 3, 3,
        3, 3, 3, 3,
    ]);
    assert_eq!(3.0 * 4.0 * 2.0, merges(&game_state) as f64, "merges max score");

    // 24
    let game_state = generate_game_state([
        3, 6, 3, 6,
        6, 3, 6, 3,
        3, 6, 3, 6,
        6, 3, 6, 3,
    ]);
    assert_eq!(3.0 * 4.0 * 2.0, nearly_merges(&game_state) as f64, "nearly_merges max score");
}

#[test]
fn monotones_test_monotones() {
    for value in 0..=3 {
        let game_state = generate_game_state([value; 16]);
        assert_eq!(
            0.0,
            monotones(&game_state) as f64,
            "0 when all cells have the same value {value}"
        );
    }

    let game_state = generate_game_state([
        0, 0, 0, 0,
        0, 0, 0, 0,
        1, 2, 3, 6,
        0, 0, 0, 0,
    ]);
    assert_eq!(3.0, monotones(&game_state) as f64, "a basic monotone row");

    let game_state = generate_game_state([
        0, 0, 0, 0,
        6, 3, 2, 1,
        0, 0, 0, 0,
        0, 0, 0, 0,
    ]);
    assert_eq!(3.0, monotones(&game_state) as f64, "it works right to left, too");

    let game_state = generate_game_state([
        0, 1, 0, 0,
        0, 2, 0, 0,
        0, 3, 0, 0,
        0, 6, 0, 0,
    ]);
    assert_eq!(3.0, monotones(&game_state) as f64, "a basic monotone col");

    let game_state = generate_game_state([
        0, 0, 6, 0,
        0, 0, 3, 0,
        0, 0, 2, 0,
        0, 0, 1, 0,
    ]);
    assert_eq!(3.0, monotones(&game_state) as f64, "it works down to up, too");

    let game_state = generate_game_state([
        6, 3, 2, 1, // -3
        3, 0, 0, 0, // -1
        2, 0, 0, 0, // -1
        1, 0, 0, 0, // -1
    // -3 -1 -1 -1
    ]);
    assert_eq!(6.0 + 6.0, monotones(&game_state) as f64, "both directions at the same time");

    let game_state = generate_game_state([
        0, 0, 0, 1, // 1
        0, 0, 0, 2, // 1
        0, 0, 0, 3, // 1
        1, 2, 3, 6, // 3
    //  1  1  1  3
    ]);
    assert_eq!(
        12.0,
        monotones(&game_state) as f64,
        "the other both directions at the same time"
    );

    let game_state = generate_game_state([
        0, 0, 0, 0,
        6, 3, 2, 6,
        0, 0, 0, 0,
        0, 0, 0, 0,
    ]);
    assert_eq!(1.0, monotones(&game_state) as f64, "non-monotones don't score as well");

    let game_state = generate_game_state([
        0, 0, 0, 0,
        6, 2, 3, 6,
        0, 0, 0, 0,
        0, 0, 0, 0,
    ]);
    assert_eq!(
        1.0,
        monotones(&game_state) as f64,
        "non-monotones don't score as well, the other way"
    );

    let game_state = generate_game_state([
        0, 3, 2, 0, // 1
        0, 3, 2, 0, // 1
        0, 6, 0, 0, // 0
        0, 0, 0, 0, // 0
    //  0  0  1  0
    ]);
    assert_eq!(
        3.0,
        monotones(&game_state) as f64,
        "weird behavior in the middle of the board, but that's probably OK in practice"
    );

    let game_state = generate_game_state([
        6, 3, 2, 1, // 3
        6, 3, 2, 1, // 3
        0, 0, 0, 0, // 0
        0, 0, 0, 0, // 0
    //  1  1  1  1
    ]);
    assert_eq!(6.0 + 4.0, monotones(&game_state) as f64, "a pretty-good state");

    let game_state = generate_game_state([
        6, 3, 2, 1, // 3
        1, 2, 3, 6, // -3
        0, 0, 0, 0, // 0
        0, 0, 0, 0, // 0
    //  2  2  0  0
    ]);
    assert_eq!(
        0.0 + 4.0,
        monotones(&game_state) as f64,
        "a lower but still positive score, with rows alternating directions, which seems reasonable"
    );

    let game_state = generate_game_state([
        6, 3, 2, 1, // 3
        0, 0, 0, 0, // 0
        1, 2, 3, 6, // -3
        0, 0, 0, 0, // 0
    //  -1 -1 -1 -1
    ]);
    assert_eq!(
        0.0 + 4.0,
        monotones(&game_state) as f64,
        "interesting to see how it works out with gaps between rows"
    );

    let game_state = generate_game_state([
        48, 24, 12, 6, // 3
        24, 12,  6, 3, // 3
        12,  6,  3, 2, // 3
         6,  3,  2, 1, // 3
    //   3   3   3  3
    ]);
    assert_eq!(
        3.0 * 8.0,
        monotones(&game_state) as f64,
        "the best possible state for this algo"
    );

    let game_state = generate_game_state([
        6, 3, 2, 1, // 3
        1, 2, 3, 6, // -3
        6, 3, 2, 1, // 3
        1, 2, 3, 6, // -3
    // -1 -1  1  1
    ]);
    assert_eq!(
        0.0 + 0.0,
        monotones(&game_state) as f64,
        "fully back-and-forth screws you, which is maybe reasonable"
    );

    let game_state = generate_game_state([
        24, 12,  2, 3, // -1
        12,  1,  3, 1, // -1
         2, 48, 24, 3, // -1
         2,  6,  3, 1, // -1
    //  -2  -1   1 -1
    ]);
    assert_eq!(4.0 + 3.0, monotones(&game_state) as f64, "a complex (dead-end) case");
}

#[test]
fn test_score_counts_shifted_rows_cols() {
    let game_state = generate_game_state([
        0, 3, 0, 0,
        0, 0, 0, 0,
        0, 0, 0, 0,
        0, 0, 0, 0,
    ]);

    assert_eq!(
        3.0,
        shifts(&game_state) as f64,
        "one row shifts left/right and one column shifts down"
    );
}

#[test]
fn shifts_test_max_possible_score() {
    let game_state = generate_game_state([
        0, 3, 0, 3,
        3, 0, 3, 0,
        0, 3, 0, 3,
        3, 0, 3, 0,
    ]);

    assert_eq!(16.0, shifts(&game_state) as f64, "shifts max score");
}

#[test]
fn squeezes_test_squeezes() {
    let game_state = generate_game_state([3; 16]);
    assert_eq!(0.0, squeezes(&game_state) as f64, "no squeezes when everything is mergeable");

    let mut grid = [0; 16];
    grid[5] = 3;
    let game_state = generate_game_state(grid);
    assert_eq!(0.0, squeezes(&game_state) as f64, "no squeezes when just one cell filled");

    let game_state = generate_game_state([
        3, 0, 3, 0,
        0, 3, 0, 3,
        3, 0, 3, 0,
        0, 3, 0, 3,
    ]);
    assert_eq!(
        0.0,
        squeezes(&game_state) as f64,
        "no squeezes when cards don't have neighbors"
    );

    let game_state = generate_game_state([
        6, 3, 3, 6,
        3, 0, 0, 3,
        3, 0, 0, 3,
        6, 3, 3, 6,
    ]);
    assert_eq!(
        0.0,
        squeezes(&game_state) as f64,
        "no squeezes when squeezed cards are mergeable"
    );

    let game_state = generate_game_state([
        1, 2, 1, 2,
        2, 1, 2, 1,
        1, 2, 1, 2,
        2, 1, 2, 1,
    ]);
    assert_eq!(0.0, squeezes(&game_state) as f64, "1s and 2s can't squeeze each other");

    let game_state = generate_game_state([
        3, 2, 6, 0,
        0, 0, 0, 0,
        3, 1, 6, 0,
        0, 0, 0, 0,
    ]);
    assert_eq!(2.0, squeezes(&game_state) as f64, "1s and 2s can be squeezed by >= 3");

    let game_state = generate_game_state([
        24, 12, 6, 0,
        12,  6, 3, 0,
         6,  3, 0, 0,
         0,  0, 0, 0,
    ]);
    assert_eq!(
        0.0,
        squeezes(&game_state) as f64,
        "no squeezes when bigger neighbors aren't on opposite sides"
    );

    let game_state = generate_game_state([
        6, 3, 6, 0,
        3, 0, 0, 6,
        6, 0, 0, 3,
        0, 6, 3, 6,
    ]);
    assert_eq!(4.0, squeezes(&game_state) as f64, "obvious squeezes in both directions");

    let game_state = generate_game_state([
        3, 6, 0, 3,
        0, 0, 0, 6,
        6, 0, 0, 0,
        3, 0, 6, 3,
    ]);
    assert_eq!(
        4.0,
        squeezes(&game_state) as f64,
        "you can be squeezed between a card and the wall, in all four directions"
    );

    let game_state = generate_game_state([
        24, 12, 6, 3,
         0,  0, 0, 0,
         0,  0, 0, 0,
         0,  0, 0, 0,
    ]);
    assert_eq!(
        1.0,
        squeezes(&game_state) as f64,
        "the three is squeezed but I'm not sure it should be"
    );

    let game_state = generate_game_state([
        0, 0, 6, 3,
        0, 0, 0, 0,
        0, 0, 0, 0,
        0, 0, 0, 0,
    ]);
    assert_eq!(
        1.0,
        squeezes(&game_state) as f64,
        "the three counts as squeezed but that seems wrong"
    );

    let game_state = generate_game_state([
        24, 6, 12,  3, // 2
        12, 6, 24,  6, // 2
         3, 3,  6,  3, // 1
         3, 0,  6, 12, // 0
     //  0  0   1   2
    ]);
    assert_eq!(
        (2 + 2 + 1 + 0 + 0 + 0 + 1 + 2) as f64,
        squeezes(&game_state) as f64,
        "a big complex example"
    );

    let test_boost = 2.5;
    let game_state = generate_game_state([
        12,  2, 24,  0, // 2 is squeezed and boosted (1 * boost)
        12,  1,  6,  0, // 1 is squeezed and boosted (1 * boost)
         6, 12, 24,  6, // 6s are squeezed and boosted (2 * boost)
        24, 24, 12, 24, // 12 is squeezed but not boosted (1)
     //  ^- 6 is squeezed and boosted (1 * boost)
     //      ^- 1 can't be squeezed by 2; 12 isn't squeezed (0)
     //          ^- 12 is squeezed but not boosted (1); 6 is squeezed and boosted (1 * boost)
     //              ^- no squeezes (0)
    ]);
    assert_eq!(
        1.0 * test_boost + 1.0 * test_boost + 2.0 * test_boost + 1.0
            + 1.0 * test_boost + 0.0 + 1.0 + 1.0 * test_boost + 0.0,
        boosted_squeezes(&game_state, 1, 6, test_boost),
        "a big complex boosted example, covering a bunch of cases"
    );
}

#[test]
fn squeezes_test_max_possible_score() {
    let game_state = generate_game_state([
        3, 3, 3, 3,
        6, 6, 6, 6,
        6, 6, 6, 6,
        3, 3, 3, 3,
    ]);
    assert_eq!(8.0, squeezes(&game_state) as f64, "squeezes max score, first case");

    // 16
    let game_state = generate_game_state([
        3, 6, 3, 6,
        6, 3, 6, 3,
        3, 6, 3, 6,
        6, 3, 6, 3,
    ]);
    assert_eq!(8.0 * 2.0, squeezes(&game_state) as f64, "squeezes max score, second case");

    let game_state = generate_game_state([
        3, 6, 3, 6,
        3, 6, 3, 6,
        3, 6, 3, 6,
        3, 6, 3, 6,
    ]);
    assert_eq!(8.0, squeezes(&game_state) as f64, "squeezes max score, third case");

    let game_state = generate_game_state([
        3, 3, 3, 3,
        3, 6, 6, 3,
        3, 6, 6, 3,
        3, 3, 3, 3,
    ]);
    assert_eq!(8.0, squeezes(&game_state) as f64, "squeezes max score, fourth case");
}

// ---------------------------------------------------------------------------
// Further cases

#[test]
fn neighbors_read_walls_as_the_largest_card() {
    let grid = [
        1, 2, 3, 6,
        12, 24, 48, 96,
        0, 0, 0, 0,
        0, 0, 0, 3,
    ];
    assert_eq!([u16::MAX, u16::MAX, 2, 12], neighbors_of(&grid, 0));
    assert_eq!([12, 2, 48, 0], neighbors_of(&grid, 5));
    assert_eq!([0, 0, u16::MAX, u16::MAX], neighbors_of(&grid, 15));
}

#[test]
fn merge_tests_follow_the_card_rules() {
    assert!(threes::algo::can_merge(&1, &2));
    assert!(threes::algo::can_merge(&2, &1));
    assert!(threes::algo::can_merge(&3, &3));
    assert!(!threes::algo::can_merge(&1, &1));
    assert!(!threes::algo::can_merge(&2, &2));
    assert!(!threes::algo::can_merge(&3, &6));
    assert!(!threes::algo::can_merge(&0, &0));
    assert!(!threes::algo::can_merge(&3, &u16::MAX));

    assert!(threes::algo::are_nearly_mergable(&1, &3));
    assert!(threes::algo::are_nearly_mergable(&3, &2));
    assert!(threes::algo::are_nearly_mergable(&3, &6));
    assert!(threes::algo::are_nearly_mergable(&24, &12));
    assert!(!threes::algo::are_nearly_mergable(&1, &2));
    assert!(!threes::algo::are_nearly_mergable(&3, &3));
    assert!(!threes::algo::are_nearly_mergable(&3, &12));
    assert!(!threes::algo::are_nearly_mergable(&0, &3));
}

#[test]
fn merge_pairs_lists_each_pair_from_both_cards() {
    let game_state = generate_game_state([
        3, 3, 0, 0,
        0, 0, 0, 0,
        0, 0, 0, 0,
        0, 0, 0, 0,
    ]);
    assert_eq!(vec![(3, 3), (3, 3)], merge_pairs(&game_state, false));

    let game_state = generate_game_state([
        1, 3, 0, 0,
        6, 0, 0, 0,
        0, 0, 0, 0,
        0, 0, 0, 0,
    ]);
    // cell 0: right 3 (nearly); cell 1: left 1 (nearly); cell 4: nothing
    // next to it nearly merges (1 and 6 do not)
    assert_eq!(vec![(1, 3), (3, 1)], merge_pairs(&game_state, true));
}

#[test]
fn squeezing_needs_two_larger_cards_of_three_or_more() {
    assert!(threes::algo::is_pair_squeezing(3, (6, u16::MAX)));
    assert!(threes::algo::is_pair_squeezing(1, (3, 3)));
    assert!(!threes::algo::is_pair_squeezing(1, (2, 2)));
    assert!(!threes::algo::is_pair_squeezing(3, (3, 6)));
    assert!(!threes::algo::is_pair_squeezing(0, (6, 6)));
}

#[test]
fn high_cells_give_points_by_rank() {
    let game_state = generate_game_state([
        96, 0, 0, 48,
         0, 6, 0,  0,
         0, 0, 0,  0,
        24, 0, 0, 12,
    ]);
    assert_eq!(
        vec![(96, 3), (48, 2), (24, 1), (12, 0)],
        high_cells(&game_state, true)
    );
    assert_eq!(6, high_corners(&game_state));
    assert_eq!(6, high_walls(&game_state));
}

#[test]
fn scores_are_the_feature_counts_with_squeezes_negated() {
    let game_state = generate_game_state([
        24, 6, 12,  3,
        12, 6, 24,  6,
         3, 3,  6,  3,
         3, 0,  6, 12,
    ]);
    let some = Some(game_state.clone());
    let dir = Direction::Up;
    assert_eq!(empties(&game_state) as i8, Algos::Empties.score(&some, &dir));
    assert_eq!(merges(&game_state) as i8, Algos::Merges.score(&some, &dir));
    assert_eq!(nearly_merges(&game_state) as i8, Algos::NearlyMerges.score(&some, &dir));
    assert_eq!(-8, Algos::Squeezes.score(&some, &dir));
    assert_eq!(high_walls(&game_state) as i8, Algos::HighWalls.score(&some, &dir));
    assert_eq!(high_corners(&game_state) as i8, Algos::HighCorners.score(&some, &dir));
    assert_eq!(monotones(&game_state) as i8, Algos::Monotones.score(&some, &dir));
    for algo in all_algos() {
        assert_eq!(0, algo.score(&None, &dir), "{algo:?} scores 0 without a game");
    }
}

#[test]
fn every_direction_counts_towards_shifts() {
    let game_state = generate_game_state([3; 16]);
    // every row merges left and right, every column up and down
    assert_eq!(16, shifts(&game_state));

    let game_state = generate_game_state([
        3, 6, 12, 24,
        6, 3, 24, 12,
        3, 6, 12, 24,
        6, 3, 24, 12,
    ]);
    assert_eq!(0, shifts(&game_state));
}

#[test]
fn all_algos_lists_every_feature_once() {
    assert_eq!(
        [
            Algos::Empties,
            Algos::Merges,
            Algos::NearlyMerges,
            Algos::Squeezes,
            Algos::HighWalls,
            Algos::HighCorners,
            Algos::Monotones,
        ],
        all_algos()
    );
}

#[test]
fn default_config_picks_the_variants() {
    let empties_config = default_config(Algos::Empties);
    assert_eq!(
        AlgoConfig {
            base: true,
            time_positive: true,
            time_negative: true,
            boost_12: false,
            time_positive_boost_12: false,
            time_negative_boost_12: false,
            boost_high: false,
            boost_few_empties: false,
            boost_few_empties_12: false,
        },
        empties_config
    );
    for algo in [Algos::Merges, Algos::NearlyMerges, Algos::Squeezes] {
        let config = default_config(algo);
        assert!(config.boost_12 && config.boost_high && config.boost_few_empties_12, "{algo:?}");
    }
    assert!(default_config(Algos::HighWalls).boost_high);
    assert!(!default_config(Algos::HighCorners).boost_high);
    assert!(!default_config(Algos::Monotones).boost_12);
    assert!(default_config(Algos::Monotones).boost_few_empties);
}

#[test]
fn boost_range_needs_one_value_inside() {
    assert!(!in_boost_range(&[], 1, 6));
    assert!(in_boost_range(&[12, 6], 1, 6));
    assert!(in_boost_range(&[1, 1], 1, 1));
    assert!(!in_boost_range(&[12, 24], 1, 6));
    assert!(!in_boost_range(&[2, 2], 3, 3));
}

#[test]
fn value_booster_wrapper_test_value_booster() {
    let test_boost = 2.5;
    let boost_score_for = |score: f64, values: &[u16]| score * boost_for(values, 3, 6, test_boost);

    assert_eq!(1.0, boost_score_for(1.0, &[1]), "non-boosted values aren't boosted");
    assert_eq!(test_boost, boost_score_for(1.0, &[3]), "boosted values are boosted");
    assert_eq!(test_boost, boost_score_for(1.0, &[6]), "boosted values are boosted");
    assert_eq!(1.0, boost_score_for(1.0, &[9]), "non-boosted values aren't boosted");

    assert_eq!(
        1.0,
        boost_score_for(1.0, &[1, 7, 9]),
        "if none of the values are boosted, the score isn't boosted"
    );
    assert_eq!(
        test_boost,
        boost_score_for(1.0, &[3, 6]),
        "if all of the values are boosted, the score is boosted"
    );
    assert_eq!(
        test_boost,
        boost_score_for(1.0, &[1, 3, 5, 6, 9]),
        "if some of the values are boosted, the score is boosted"
    );
    assert_eq!(1.0, boost_score_for(1.0, &[1, 1, 1]), "duplicates are fine when not boosting");
    assert_eq!(test_boost, boost_score_for(1.0, &[3, 3]), "duplicates are fine when boosting");
    assert_eq!(test_boost, boost_score_for(1.0, &[1, 1, 3, 3]), "duplicates are fine for mixed");
}

#[test]
fn wrappers_test_value_booster() {
    let test_boost = 2.5;
    let boost_score_for = |score: f64, values: &[u16]| score * boost_for(values, 3, 6, test_boost);

    assert_eq!(1.0, boost_score_for(1.0, &[1]), "non-boosted values aren't boosted");
    assert_eq!(test_boost, boost_score_for(1.0, &[3]), "boosted values are boosted");
    assert_eq!(test_boost, boost_score_for(1.0, &[6]), "boosted values are boosted");
    assert_eq!(1.0, boost_score_for(1.0, &[9]), "non-boosted values aren't boosted");

    assert_eq!(
        1.0,
        boost_score_for(1.0, &[1, 7, 9]),
        "if none of the values are boosted, the score isn't boosted"
    );
    assert_eq!(
        test_boost,
        boost_score_for(1.0, &[3, 6]),
        "if all of the values are boosted, the score is boosted"
    );
    assert_eq!(
        test_boost,
        boost_score_for(1.0, &[1, 3, 5, 6, 9]),
        "if some of the values are boosted, the score is boosted"
    );
    assert_eq!(1.0, boost_score_for(1.0, &[1, 1, 1]), "duplicates are fine when not boosting");
    assert_eq!(test_boost, boost_score_for(1.0, &[3, 3]), "duplicates are fine when boosting");
    assert_eq!(test_boost, boost_score_for(1.0, &[1, 1, 3, 3]), "duplicates are fine for mixed");
}
