# rage_pool

A verified library and a small demo program around it.

- `src/` (Verus): a block pool addressed by handles (`pool`), a byte-level
  corruptor (`corruptor`), a JSON document model (`json`), keyed entries with
  map semantics (`entries`), a recursive type system that validates JSON
  documents and describes itself as JSON (`schema`), the byte-mixing
  computation (`mixing`), byte encodings (`encode`) and a nested sample
  record (`meta`). Random ids and bytes come from `rand`.
- `app/`: the program. It shares the pool between threads behind a mutex,
  runs the mixing tasks on tokio with a semaphore and rayon, draws the
  floating-point random choices, and serialises with serde.
- `tests/`: tests of the library.
