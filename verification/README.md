# cadmus

A library for reading the HBAM storage layer of FileMaker `.fmp12` files,
together with the schema model, schema diffs and the record-keeping parts of
three script emulators. The library is written in Verus: each public
function states what it returns in `requires`/`ensures` over mathematical
models (sequences, maps, parse specifications), and Verus proves it.

Layout:

- `src/hbam2/` — pages, the chunk parser, the page store, and lookups in
  the B+tree (key search, index pages, views, page listings), with checked
  forms that report where a lookup would read past a page or follow the
  page chain for ever.
- `src/fm_format/`, `src/fm_io/`, `src/hbam/` — further readers of the same
  format: instruction parsers and chunk scans, paths of decimal components.
- `src/schema.rs`, `src/diff.rs` — the schema objects and the diff of two
  schemas.
- `src/emulator*/` — tables, records, found sets, windows and script
  variables of the emulators, the lexer of calculations, and the search for
  a shortest path through the relationship graph.
- `src/util/` — big-endian integers, path numbers, and decimal text.
- `tests/` — tests run against the compiled library.
- `app/` — a command-line reader: it loads pages from a file into the page
  store whenever the library reports one missing, and prints what the
  library finds; it also decides which words of a calculation are numbers.
