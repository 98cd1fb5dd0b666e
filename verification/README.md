# gras

A verified core for neural architecture search by racing: a population of small
networks trains in lockstep on one clock, children of the best join it, the
worst leave it, and the champions remain. A generational search over the same
topologies stands beside it.

- `src/` is the library. Every function carries a contract and is proved
  against it: configuration, ranking and protection of elites, the step of a
  net, the checkpoint gate, crossover and immigration, the loop of a run and its
  end, resuming, seeds, the event log, reports, the tensor files and the JSON
  records. `twins` states what holds between two runs: equal starts give equal
  runs, and a net that is replayed goes on as the one that never stopped.
- Measured numbers are held as single-precision bit patterns (`score::Score`)
  and compared exactly; their arithmetic is done outside.
- Outside calls (`fastrand`, `serde_json`, lower-casing) stand behind a handful
  of trusted functions, each with a comment that says what is believed of it.
- `tests/` runs the library on concrete values.
- `app/` is ordinary Rust around it: floating point, files, logging, signals,
  threads and the networks.
