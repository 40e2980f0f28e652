# game_of_life

Conway's game of life on a fixed board of 825 × 420 cells, shown in a
Direct2D window on Windows.

- `src/grid.rs` — the model: cells, the shape of a filled board, the rule
  that takes one generation to the next, what drawing marks and lists, and
  the proved laws about them.
- `src/life.rs` — the board (`Cells`) and the game state (`GameState`):
  random filling, the generation step, and the list of squares to draw.
- `src/window.rs` — the window's decisions: what each message, each present
  and each turn of the main loop lead to.
- `src/random.rs` — the calls into `rand` that seed a new board.
- `app/main.rs` — the Windows program: Direct2D and DXGI resources, the
  window procedure and the message loop, driven by the library.
- `tests/` — tests of the board, the rule, drawing and the window decisions.
