# model_manager

A store of JSON records grouped by model, with the JSON values it keeps and
the operations on them: reading and writing keys and dotted paths, deep
merge, structural equality, schema checks, iterators, converters and the
plan of a value's hash.  The library under `src/` is verified with Verus.

Layout:

- `src/value.rs`, `src/number.rs`, `src/text.rs`: the JSON value model
  (`JsonValue` and its view `JsonView`, objects kept with sorted, distinct
  keys, so that objects are listed and printed in key order rather than in
  the order their keys were written), numbers, and the text helpers.
- `src/path.rs`, `src/navigation.rs`: dotted paths, reading and writing
  along them.
- `src/analysis.rs`, `src/hashing.rs`, `src/sampling.rs`: merge, equality,
  schema matching, and what goes into a hash.
- `src/core_value.rs`, `src/dynamic_value.rs`, `src/dynamic.rs`: the three
  value types and their traits (`src/traits.rs`).
- `src/iterators.rs`, `src/factories.rs`, `src/converter.rs`: iterators,
  factories and the JSON text converter's rules.
- `src/store.rs`, `src/manager.rs`, `src/model_actor.rs`, `src/assoc.rs`,
  `src/ids.rs`: records under ids, the model manager, the per-model actor
  state, and fresh record ids.
- `src/laws.rs`: the properties that relate several operations.
- `app/`: the program around the library: JSON text through `serde_json`,
  hashing with the standard hasher, the actix actors, and a demonstration.
