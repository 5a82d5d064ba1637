# render_wasm

The tile grid and the image store of a canvas renderer, verified with Verus.

- `src/tiles/`: tiles and rectangles of tiles, which shapes touch which tile,
  the tiles in view and around it, and the order in which they are rendered.
- `src/images/`: which images are stored, which resolutions of them are
  resident, what they are charged with and which of them are evicted.
- `app/`: geometry in floating point, and Skia: it decodes, rasterizes and
  talks to the GPU when the library asks for that.
- `tests/`: the library on concrete values.

`src/*/laws.rs` and the functions named `law_..` state what holds of several
operations together.
