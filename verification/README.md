# nekopet

A desktop pet cat for wlr-layer-shell Wayland compositors, written as a verified
library with a thin program around it.

- `src/` is the library, verified with Verus:
  - `state.rs`: the animation states and how long an idle spell lasts.
  - `sheet.rs`: the sprite sheet (rows of 32 by 32 frames), counting a row's frames, and
    turning a row into display-size premultiplied BGRA frames (the resize itself is the
    `image` crate's nearest-neighbour `resize_exact`).
  - `raster.rs`: drawing on BGRA canvases: filled blocks, nearest-neighbour scaled blits,
    and the clipped sprite copy.
  - `effects.rs`: the eyes and pupils, and the pixels that the typing heat tints.
  - `pet.rs`: the behaviour state machine: frame callbacks, pointer events, screen
    configuration, the input region, and its laws.
  - `config.rs`, `input.rs`: settings and the starting corner; keyboard event records.
- `app/` is the program: Wayland plumbing, file and device I/O, the configuration file,
  and the floating-point parts of drawing (breathing, zoom geometry, pupil direction,
  tint blend).
- `tests/` runs the library on concrete values.
