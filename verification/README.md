# heap_sentry

Heap allocation bookkeeping, memory-leak detection and detection of unbounded
memory growth, with the bookkeeping and the decisions verified by Verus.

- `src/` — the verified library:
  - `metrics.rs`: allocation counters, metadata of sampled allocations,
    recorded stack traces and per-call-site statistics, with the top-N
    hotspot query; the high-water marks of open scopes; snapshots.
  - `allocator.rs`: the tracking hooks that a global allocator runs on each
    allocation, deallocation and reallocation, and backtrace sampling.
  - `config.rs`: `TrackerConfig`, its presets, validation, and configuration
    from environment-variable values.
  - `analysis.rs`: the sample window, leak and growth detection, and the
    state machine of the sampling loop.
  - `scope.rs`: scoped measurements.
- `app/` — the process-wide side: the `#[global_allocator]`, the shared
  state behind `SafeMutex`, the sampling thread, environment access and output.
- `tests/` — tests of the library.
