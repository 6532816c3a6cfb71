use vstd::prelude::*;

verus! {

/// Failures of the pipeline, by cause.
#[derive(Clone, Copy, Debug, PartialEq, Eq, Structural)]
pub enum PipelineError {
    /// Dimension or metric mismatch between a shard and a build or query.
    Configuration,
    /// A reservation, an insertion or a key exceeds the available capacity.
    Capacity,
    /// Creating, reading or writing a shard artifact failed.
    Io,
    /// A vector was requested for a key that its shard does not hold.
    KeyNotFound { key: u64, shard: usize },
    /// Two candidates of one query carry the same key: the shards' key
    /// ranges overlap.
    DuplicateKey { key: u64 },
    /// A search failed, or returned a result that breaks its guarantees.
    Search,
}

} // verus!
