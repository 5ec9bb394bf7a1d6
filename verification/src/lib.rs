//! A bulk file scanner: enumerate a directory subtree, hand each file's
//! bytes through a bounded queue to a pool of workers, and match every file
//! against an immutable compiled rule set.
//!
//! The crate holds the verified core of the pipeline: path enumeration over
//! a snapshot of the directory tree, worker-count argument handling, the
//! bounded handoff queue with its exactly-once accounting, and the per-job
//! matching step. File and console I/O, the command-line surface and the
//! task runtime live outside, and hand the library plain values.

pub mod args;
pub mod load;
pub mod pipeline;
pub mod rule;
