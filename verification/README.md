# tetris

A falling-block puzzle game whose rules come with machine-checked proofs.

- `src/` is the proved library:
  - `shapes`: the seven tetromino shapes and the quarter turn;
  - `piece`: the piece under control and the board cells it covers;
  - `board`: the playfield, with collision, locking, full rows, row
    clearing, column gravity, the landing row of a drop, and how each cell
    is drawn;
  - `scoring`: points per clear;
  - `game`: the game state machine, one frame and one key press at a time,
    with times in microseconds;
  - `rules`: the game's rules as plain functions on game values, which the
    contracts of `game` are stated over;
  - `laws`: properties of the rules and the lemmas behind the proofs.
- `app/` opens the window with macroquad, reads the keys, draws the board
  and runs the explosion particles.  It loads its Japanese font from
  `assets/NotoSansJP.ttf` at start-up and falls back to the built-in font
  without it.
- `tests/` exercises the library on concrete games.
