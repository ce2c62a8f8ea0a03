# rustium

Reading PDF files: the byte-level lexer, cross-reference tables and streams, object streams,
the recovery scan for damaged files, the standard security handler (RC4 and AES), the stream
filters, the page tree, image dictionaries, and the font tables (encodings, CMaps, glyph names,
built-in metrics). The functions in `src/` carry contracts that Verus proves; the calls into
outside crates (`flate2`, `md-5`, `sha2`, `aes`, `cbc`, `image`) and a few parts of `std` sit
behind small trusted wrappers marked `#[verifier::external_body]`, whose contracts say what the
outside code does and are not proved. Flate's output, the digests, the ciphers and the PNG
encoder are named by uninterpreted spec functions where a few lines cannot state them.

## Layout

- `src/lexer.rs`, `src/object.rs`: tokens and objects, with `object_scan` as the model of
  what `Cursor::read_object` reads.
- `src/parser.rs`: `PdfFile` — the xref chain, object streams, recovery, resolution and
  decryption of the objects it serves.
- `src/crypt.rs`: the standard security handler; digests and AES come from `md-5`, `sha2`,
  `aes` and `cbc`.
- `src/filters.rs`: ASCIIHex, ASCII85, RunLength, LZW, Flate (through `flate2`) and the
  PNG/TIFF predictors.
- `src/document.rs`, `src/page.rs`: the page tree, page contents, image dictionaries and
  colour-space component counts.
- `src/font/`: flags, encodings, CMaps, the built-in encodings Type1 programs declare (which a
  symbolic font without `/Encoding` is read by), standard-14 metrics, substitute-face
  candidates, and the code-to-glyph tables.
- `src/render.rs`: rendered pages and their PNG encoding (through `image`).
- `app/`: opening files, page geometry in floating point, the content-stream interpreter that
  places glyphs, paths and images in user space (`page.rs`), loaded fonts with their advances
  and outlines through `ttf-parser` (`font.rs`, `glyph.rs`), rasterising through `tiny-skia`
  (`render.rs`), error text, and the search for system fonts.

Verify with `verus` on `src/lib.rs`; the tests under `tests/` exercise the library with the
outside crates linked.
