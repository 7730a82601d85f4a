# recite-core schema

The schema layer of a dialogue toolchain: it loads generated schema
manifests into a canonical schema model, fingerprints that model, and
compares producer-owned freshness evidence between two manifests.

The library is written in Verus, and the verifier checks its code against
the contracts its functions state. Two small wrappers are trusted rather than verified: the call
to `blake3::hash` (`src/model/fingerprint.rs`) and the call that parses and
prints a number with `serde_json` (`src/model/producer_validation.rs`). The
first names the digest it returns; the second states which texts parse as
numbers and how they print back.

- `src/diagnostics.rs`: schema diagnostics and the `reported` relation that
  contracts use to say which problems a step reports, in order.
- `src/manifest/`: the raw manifest model (`raw.rs`), name and type-reference
  grammars (`validate.rs`), version tokens (`version.rs`), source spans
  (`spans.rs`), the lowering of each section (`lower/`), the whole load
  (`load.rs`), the references a loaded schema resolves (`resolve.rs`) and the
  agreement of the strict and the freshness loading modes (`modes.rs`).
- `src/model/`: the canonical schema, its canonical bytes and BLAKE3
  fingerprint, producer identities, fingerprints and freshness comparison,
  with the comparison laws as proof functions.
- `src/collections.rs`, `src/order.rs`, `src/text.rs`: sorted string maps and
  sets, text order, and character helpers.
- `app/`: reading manifest JSON with serde into the raw model, and the error
  types with their display texts.
- `tests/`: executable tests of the library.
