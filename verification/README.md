# quantum_sse

Verified building blocks for finite-temperature stochastic series expansion
(SSE) quantum Monte Carlo of transverse-field Ising and Rydberg models, and
the `sse` command-line program built on them.

## Layout

- `src/` is the library, verified with Verus. It holds the integer logic of
  a simulation: lattices and site indexing, the validated structure of a
  sign-safe local decomposition, the operator string and its propagation
  around imaginary time, the linked-cluster construction and its
  application, world-line move bookkeeping, sweep schedules, the resumable
  chain engine over the qslib sampler, chain seeds, configuration rules, and
  the measurement table. Its laws (for example that the cluster update of
  the transverse-field Ising model keeps the trace closed, or that splitting
  a sweep budget into batches does not change a chain's schedule) are
  public proof functions next to the code they speak about.
- `app/` is the program: command-line parsing, YAML and JSON (de)serializing,
  run directories and durable artifacts, multi-threaded chains, and every
  computation on real numbers (matrix elements, Metropolis acceptance,
  thermodynamic estimators, convergence diagnostics).
- `tests/` exercises the library on concrete inputs.
