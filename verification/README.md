# my_little_db

A small columnar record store, verified with Verus.

- `src/name_map.rs`: a map from names to values that keeps its entries in
  insertion order, with the lemmas that relate the entries to the map.
- `src/record.rs`, `src/schema.rs`: values, fields, records built against a
  schema (defaults, kind checks, primary key), and primary-key hashes made
  with the Fx hasher of `rustc_hash` (`src/fx.rs`).
- `src/store.rs`, `src/buffer.rs`: chunk and store metadata.
- `src/types.rs`: typed values read from text, primary keys encoded as
  postcard does and hashed with xxh3 (`src/wire.rs`), and a buffer of records
  keyed by that hash.
- `src/text.rs`: decimal text of integers, written and read.
- `app/`: the program: files, JSON, logging and float text.
