# cndb

A single-file, embedded document store, verified with Verus.

Everything lives in one portable `.cndb` file: an append-only log of
checksummed records, and a master index that is committed atomically through two
alternating header slots.

- `src/` is the library. It does no I/O: it decides what is read and written,
  and is told when that has been done. Every function carries a contract.
  - `storage/header.rs`, `record.rs`, `index.rs`: the on-disk formats.
  - `storage/engine.rs`, `protocol.rs`: opening, appending, deleting, committing,
    and what is exchanged with the owner of the file.
  - `storage/log.rs`: walking the log and checking every checksum.
  - `storage/state.rs`: what a file means.
  - `storage/consistency.rs`, `recovery.rs`, `history.rs`: what holds of engine
    and file together, whatever is done and wherever it is interrupted.
  - `document/codec.rs`: JSON objects as BSON.
  - `api.rs`: the database handle.
- `app/` puts the library on real files.
- `tests/` drives the library with files in memory.
