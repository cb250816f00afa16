# hanzi-sort

Sort Chinese text the way Chinese readers expect: by Hanyu Pinyin, stroke
count, Cantonese Jyutping, Mandarin Zhuyin or Kangxi radical, with
deterministic tie-breaking, phrase-level overrides for polyphonic characters
and tabular output.

The library under `src/` is written in Verus and verified: every public
function carries a contract, and the laws of the library (the sort is a
stable, idempotent permutation ordered by a total order on keys; packed
reading keys order exactly as the readings do; padded cells gain exactly the
missing width; ...) are proof functions.

Layout:

- `src/collator.rs`, `src/order.rs`, `src/sorting.rs`: sort keys, their
  order, and the stable merge sort of indices by key.
- `src/pinyin/`, `src/jyutping/`, `src/name.rs`, `src/stroke.rs`, `src/zhuyin.rs`,
  `src/radical.rs`: the collators and their bundled character tables.
- `src/overrides.rs`: override tables and their validation.
- `src/format.rs`: cell padding and row layout.
- `src/config.rs`, `src/input.rs`, `src/app.rs`, `src/cli.rs`: run
  configuration, header handling, rendering, and the meaning of the
  command-line options.
- `app/`: the `hanzi-sort` command (option parsing, file and standard I/O,
  TOML override files).
- `tests/`: tests of the library.

The bundled character tables hold a small sample of characters; the
sorting, packing and validation logic does not depend on their size.
