//! Bounded-parallelism probing of host/port targets: the target list
//! parser, the scheduler that admits and resolves probes under a
//! concurrency ceiling, and the run summary.
pub mod scheduler;
pub mod summary;
pub mod target;
