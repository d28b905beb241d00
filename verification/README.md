# js_promise

A native Promise runtime with JavaScript semantics, verified with Verus.

Settlement is single-shot, also while a promise adopts another one. Reactions
run in FIFO order as jobs of a microtask queue, at a checkpoint that runs only
outside synchronous turns and never re-enters. The runtime supports chaining,
rejection recovery, `finally`, `all`, `race` and self-resolution rejection. A
rejection that nothing has handled when the queue drains escapes as an uncaught
error.

The runtime does not call code of its host itself. `Runtime::step` runs one job.
When a job needs a handler, an effect or a subscriber of the host, the step
returns `Step::Call` or `Step::Notify`, and the host hands the result back with
`Runtime::complete`.

Layout:

- `src/value.rs`: the values the runtime handles (copyable handles into its tables).
- `src/job.rs`: reactions, jobs, the uncaught-rejection checks and the steps.
- `src/model.rs`: the abstract model of a runtime and every transition, as spec functions.
- `src/runtime.rs`: the runtime. Each operation is proved to perform its model transition
  and to keep the invariant.
- `src/validity.rs`: the invariant (every handle names an existing entry, every `all`
  counts its empty slots) and the proofs that each transition keeps it.
- `src/internal.rs`: the Promise API (`resolve`, `reject`, `new`, `then`, `catch`,
  `finally`, `all`, `race`).
- `src/rejection.rs`: conversion between rejections and native errors.
- `src/laws.rs`: the laws of the runtime, proved over the model.
- `app/lib.rs`: a host that keeps Rust closures as the runtime's functions and runs the
  checkpoint loop.
