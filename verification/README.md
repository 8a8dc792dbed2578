# spf

Reading and writing SimplePixelFont (`.spf`) files, with every function's
behaviour stated as a contract and proved with Verus.

Layout of `src/`:

- `format/` — the file format: bit-level byte reader and writer (`byte`),
  table flags (`flags`), the format as spec functions (`model`), decoding
  (`deserialize`), encoding (`serialize`), the per-table code (`tables/`),
  and the proofs about the format: bit streams (`bits`), pixel packing
  (`packing`), the round trip of a whole layout (`roundtrip`) and what every
  encoding begins with (`framing`).
- `ergonomics/` — builders that assemble a layout from tables that refer to
  each other through shared handles.
- `printer` — surfaces (one-dimensional bitmaps) and printing text with a
  glyph font; `glyphs`, `bitmap_font` and `cache` hold the font types it uses.
- `glyph_stream` — the single-table glyph format (signature `fsF`, a header
  byte, the size, then one record per character) that `glyphs` and
  `bitmap_font` encode to and decode from: what any bytes read as
  (`parse_glyph_font`), and the proof that the bytes of a font read back as
  that font.
- `ffi` — the status codes and named constants a C caller sees.
- `tag` — the value types of the tagging interface.

`app/` is a small command-line front end (`decode <file>`, `sample <file>`).
