//! Clone orchestration for manifests of git repositories: the ordering of
//! placements into a nested destination tree, the bookkeeping of a fixed pool
//! of clone workers, and the steps of a single clone job.

pub mod execution;
pub mod job;
pub mod manifest;
pub mod paths;
pub mod placement;
pub mod tree;
pub mod xml;

pub use execution::WorkerPool;
pub use manifest::{Manifest, Source};
pub use tree::LayerTree;
