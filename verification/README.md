# rustgamex

A small 2D platform game and its level editor, with the game's rules and
the editor's logic as a library verified with Verus.

## Layout

- `src/` — the verified library:
  - `level` — the level file format: `LevelData::parse` and `to_text`
    (specified exactly by `parse_spec` / `to_text_spec`), resizing the grid,
    loading a set of level files; `roundtrip` proves that parsing what
    `to_text` writes gives a well-formed level back, and `wellformed` that
    every level `parse` returns is well formed;
  - `tiles`, `tilemap` — tile semantics, the playing grid (platform
    extraction, periodic tiles, crumbling tiles, coins and doors) and the
    traversal of path blocks;
  - `input` — per-frame input, scripted input, and the merging of keyboard,
    d-pad and stick;
  - `engine`, `time` — level order, camera clamping and frame-time limits;
  - `image` — PNG sprite sheets decoded (by the `png` crate) to RGBA;
  - `editor`, `layout`, `path_edit`, `select`, `tools` — the level editor's
    modes and commands, screen layout and hit tests, path-block editing,
    region select and the paint tools;
  - `text` — the character-level helpers the format is built on.
- `tests/` — tests of the library.
- `app/` — the SDL2 program around it: the game loop, player physics and
  moving platforms (floating point), rendering, file I/O, and the editor's
  window (`--editor`).
