# ballista_map_partition

Runs a processor library (a shared object with five exported functions) over the
partitions of a data frame on a Ballista cluster, one processor per partition or, with
`distribute_by`, one per key, and keeps the metrics of a node.

- `src/` is the library, verified with Verus: the logical and physical nodes, the planner
  and optimizer decisions, the messages that carry nodes, the grouping of rows by key, the
  lifecycle of a processor, the processor SDK and the metrics registry.
- `app/` binds the library to DataFusion, Ballista, the C data interface and the HTTP
  server of the monitor.
- `tests/` runs the library with the crates that it calls.

A run looks up `<name>_init`, `_feed`, `_execute`, `_fetch` and `_finish`, and calls them
in that order; see `src/execution/lifecycle.rs` for the steps and
`src/execution/protocol.rs` for what holds of every run.
