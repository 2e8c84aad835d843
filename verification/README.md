# obadh_engine — next-word autosuggest

A verified library for Bengali next-word suggestion: a static n-gram model
read from a compact binary artifact, a bounded on-device personal overlay
that learns from committed words, and a session that blends both.

Layout:

- `src/` — the library, verified with Verus.
  - `bytes`, `artifact`, `fnv`: little-endian reads, the artifact layout and
    its fingerprints.
  - `text`, `context`, `candidate`, `lm`: token classes, the recent-word
    context, candidate ranking and the n-gram model with suffix backoff;
    `context_laws` shows that committing a typed text and committing its
    words one at a time build the same context.
  - `personal_*`, `personal`: the personal store (bounded transitions and
    out-of-vocabulary words), its ranked caches, queries, aging and the
    compact snapshot format; `personal_laws` and `personal_unigram` hold the
    store's laws (snapshot round trip, suggestion and cache bounds).
  - `merge`, `session`: blending personal and model candidates with the
    repetition guard, and the per-editor session.
  - `open_vocab`, `open_vocab_merge`: the text checks for generated words,
    and the join of static candidates, generated word ids and generated
    texts, each text once.
  - `generator_merge`, `generator_outputs`: the merge (and the scored
    union's membership) of static candidates with a generator's proposals,
    and the preparation and filtering of a generator's inputs and outputs by
    shape.
  - `scorer_inputs`: checked, padded input buffers for a reranking scorer.
  - `manifest_text`, `scorer_manifest`, `generator_manifest`: the checks a
    packaged scorer or generator must pass against the loaded model and the
    mobile budgets, field by field, with the first problem reported.
  - `asset_hash`: SHA-256 digests of packaged model files (through the
    `sha2` crate), their lower-case hex form, and the framing of a directory
    package (files in path order, each as path, NUL, contents).
  - `error_text`: the message each error type reads as.
- `app/` — plain Rust around the library: loading a model file through a
  memory map, reading scorer and generator manifests from JSON and reading
  their files from disk for the library's checks and digests, judging their
  floating-point gates, scoring and ordering candidates by model scores, the
  reusable scorer and generator sessions, and serializable mirrors of report
  types.
- `tests/` — tests run against the compiled library.
