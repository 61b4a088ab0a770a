# tile_picker

A viewer for game tilesheets that shows each tile's index and copies it to
the clipboard on a click.

- `src/` is the verified library: tile-size detection from file names
  (`tile_size`), the tile grid and its indexes (`grid`), the configuration
  fallbacks (`config`), the text the viewer shows (`text`) and the
  picker/viewer state machine (`scene`).
- `app/` is the program around it: the raylib window, input and drawing,
  reading `tp.toml`, and the floating-point camera and notice timer.
