# glyph-cell

A bitmap font toolkit for small displays, with its logic verified by Verus:
1bpp glyph packing, glyph lookup, cell layout of ASCII and CJK text (horizontal
and vertical, with 3x3 alignment), glyph placement inside cells, debug boxes,
Rust source generation for font data, and the input handling of the
`font_data!` expansion (key order, literals, per-block character indexing and
vertical offsets).

## Layout

- `src/` — the verified library.
  - `bpp1`, `font`: packing pixels into bytes and reading them back.
  - `style`, `geometry`: alignment, cell sizes, points and sizes.
  - `layout`, `aligned_layout`: where every character's cell goes.
  - `render`, `text`, `cell_text`, `debug`: the display points that drawing sets.
  - `rust_text`, `codegen`, `font_macros`: generated Rust source.
  - `literal`, `macro_input`, `raster`, `source`, `font_names`: reading a
    `font_data!` invocation, placing rasterized glyphs, and reading font files
    through `fontdue` (after checking that the full name it decodes is
    well-formed UTF-16).
- `app/` — what touches the outside world: `embedded-graphics` drawing, writing
  files, and the `syn`/`fontdue` side of `font_data!`.
- `tests/` — executable tests of the library.

Drawing functions return the points to set, or `None` where a coordinate would
leave the `i32` range; `app/` hands the points to a draw target.
