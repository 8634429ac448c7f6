//! A parallel benchmark harness: work partitioning, partial-result merging,
//! progress checkpoints and resource-sample arithmetic, each with a proved
//! contract.

pub mod partition;
pub mod matrix;
pub mod progress;
pub mod probe;
pub mod select;
