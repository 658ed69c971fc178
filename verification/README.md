# tuicore

The verified core of a small terminal user-interface toolkit.

`src/` is the library, proved with Verus:

- `geometry` — absolute and percentage positions and sizes. A percentage is
  resolved exactly as single-precision arithmetic resolves it, with integer
  arithmetic that counts in units of 2^-30.
- `color` — colours, character cells, and the ANSI escape sequences that
  select 24-bit colours.
- `framebuffer` — the grid of cells, its creation, clearing and resizing.
- `frame` — composing the grid into the text written to the terminal, and
  the cache of escape sequences.
- `place` — which cells a label, a rectangle or an image covers.
- `picture` — images as cells, and the cache of an image at its last size.
- `events` — event kinds and the numbering of drawn elements.

`app/` holds what runs around it: the application loop, terminal I/O,
user callbacks, image loading, and the colour blending that weighs colours
by a floating-point opacity.
