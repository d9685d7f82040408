# cape

A conflict-aware parallel executor for blocks of transactions over a shared
account state, written in Verus.

- `src/` is the verified library: the state and its diffs, the semantics of
  each kind of transaction, the canonical fingerprint of a state, the
  sequential, static-batch and optimistic executors, and the workload
  generators, and the benchmark's runs (which rows, in which order, with
  which labels) in `src/bench.rs`. `src/laws.rs` proves that the static and optimistic executors
  end in the state, with the outcomes, of the sequential run.
- `tests/` runs the library on concrete blocks.
- `app/` is the benchmark's command line: argument parsing, the
  floating-point parts (Zipf weights, throughput, probabilities) and the CSV
  output.
