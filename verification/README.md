# threes

A model of the tile game *Threes!* and of a solver that plays it, with the
game's rules proved correct by Verus.

## Layout

- `src/` is the verified library.
  - `line.rs`, `board_state.rs`: shifting a line and a board, merges, the
    shift mask, the next card's entry point, and turning the board.
  - `draw_pile.rs`: the shuffled pile of 1s, 2s and 3s, refilled when empty,
    and the bonus cards that join once a high card reaches 192.
  - `game_state.rs`: a game in progress; a move shifts the board, draws the
    next card and counts the move.
  - `algo.rs`: the board features that the solver scores (empty cells,
    merges, near merges, squeezed cards, high cards on walls and in corners,
    monotone rows and columns, lines that can move) and which variants of
    each are scored.
  - `solver.rs`, `play.rs`, `batch.rs`, `text.rs`: the games a solver looks
    at after a move, one turn of interactive play, the tally of a batch's
    high cards and an optimizing run's limits, and padding text to terminal
    columns.
  - `rng.rs`, `seed.rs`: the random generator and reading a seed.
  - `laws.rs`: properties of the game over every board, proved.
- `tests/` runs the library on concrete games.
- `app/` is the command-line program: the floating-point weighting of the
  features, the move search, the weight optimizer, the terminal output and the
  log file.

The program has three commands: `optimize` (the default) searches for feature
weights, `simulate` plays one game or a batch with them, and `play` lets you
play with the arrow keys.
