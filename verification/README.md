# ratty

A terminal emulator's library, verified with Verus, and a small front end around it.

- `src/ratty_vt/` is the terminal engine: cells, rows, grids, the screen, and the
  parser that drives it. Its contracts are stated over models of the same names
  (`CellModel`, `RowModel`, `GridModel`, `ScreenModel`); `wide.rs`, `reflow_laws.rs`,
  `line_laws.rs`, `text_laws.rs`, `clean_laws.rs`, `redraw.rs`, `differences.rs`,
  `ascii_laws.rs`, `input_laws.rs` and `laws.rs` hold what is proved of the engine as a whole: that wide
  characters stay whole, that a resize keeps every line and the cursor on its
  character, that text holds no control characters, that what is written out for a
  screen draws it again, and that what is written out for the difference between two screens turns the one into the other.
- `src/runtime.rs`, `inline.rs`, `rgp.rs` and `kitty.rs` answer what applications
  ask, and hold the objects and images that they place in the text.
- `src/control.rs`, `commands.rs`, `snapshot.rs` and `observation.rs` are the control
  protocol: what is refused, what is done, and what is told of the screen.
- `src/camera.rs`, `scene.rs`, `mouse.rs`, `keyboard.rs` are what keys, pointers and
  updates do to the view. Single-precision numbers are held by their bits
  (`number.rs`); whatever computes with them stands in `app/`.
- `app/` does the input and output: the pseudo terminal, the configuration file, the
  control socket, and the arithmetic of the camera and of meshes.

Calls into other crates stand behind functions whose doc comments say what is
believed of them.
