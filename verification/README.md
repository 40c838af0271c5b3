# tui_tetris

A falling-block puzzle on a ten-column, thirty-row well, played in a terminal
through `rltk`.

- `src/` is the verified library:
  - `piece.rs`: the seven kinds, their rotations and colours, the falling piece
    and its in-well cells;
  - `board.rs`: placement checks, locking a piece, clearing full rows and the
    landing row of a straight drop, each against a model of the well as rows of
    cells;
  - `game.rs`: the game state, its view, and every transition (spawn, move,
    rotate with wall kicks, lock, hard drop, gravity, one frame's key) as a
    spec function that the executable methods are proved to follow;
  - `layout.rs`: screen positions of cells, pieces, the preview, the texts and
    the console size;
  - `laws.rs`: properties across operations (undoing a move, idempotent
    clearing, resting place of a drop, key latching, score monotonicity, and
    what a whole frame, key then gravity, keeps);
  - `rng.rs`: the dice drawn from `rltk`'s random number generator.
- `app/main.rs` opens the console, turns key codes into `Key`s, keeps the fall
  timer and speed (floating point), refuses a step whose points would overflow
  the score (asking `score_after_input` / `score_after_gravity`), and draws.
- `tests/` runs the library on concrete games.
