use vstd::prelude::*;

verus! {

/// Similarity metric of an index; lower distance means more similar.
#[derive(Clone, Copy, Debug, PartialEq, Eq, Structural)]
pub enum Metric {
    InnerProduct,
}

/// Scalar type in which an index stores vector components.
#[derive(Clone, Copy, Debug, PartialEq, Eq, Structural)]
pub enum Quantization {
    F32,
}

/// Construction parameters of one index instance.
///
/// `connectivity == 0` describes a flat index: no proximity graph, every
/// search is exhaustive.
#[derive(Clone, Copy, Debug, PartialEq, Eq, Structural)]
pub struct IndexConfig {
    pub dimensions: usize,
    pub metric: Metric,
    pub quantization: Quantization,
    pub multi: bool,
    pub connectivity: usize,
    pub expansion_add: usize,
    pub expansion_search: usize,
}

impl IndexConfig {
    /// A flat index answers every search exactly.
    pub open spec fn is_flat(self) -> bool {
        self.connectivity == 0 && self.expansion_add == 0 && self.expansion_search == 0
    }

    /// Two indexes can exchange vectors and queries when they agree on
    /// dimension, metric and storage type.
    pub open spec fn compatible(self, other: IndexConfig) -> bool {
        self.dimensions == other.dimensions && self.metric == other.metric
            && self.quantization == other.quantization
    }
}

/// Graph connectivity of the shard indexes.
pub const SHARD_CONNECTIVITY: usize = 24;

/// Expansion factor used while inserting into a shard index.
pub const SHARD_EXPANSION_ADD: usize = 200;

/// Expansion factor used while searching a shard index.
pub const SHARD_EXPANSION_SEARCH: usize = 80;

/// The configuration of a persisted shard for `dims` dimensions: a
/// proximity graph over inner-product distances, one vector per key.
pub open spec fn shard_config(dims: usize) -> IndexConfig {
    IndexConfig {
        dimensions: dims,
        metric: Metric::InnerProduct,
        quantization: Quantization::F32,
        multi: false,
        connectivity: SHARD_CONNECTIVITY,
        expansion_add: SHARD_EXPANSION_ADD,
        expansion_search: SHARD_EXPANSION_SEARCH,
    }
}

/// Configuration of a persisted shard.
pub fn create_index_options(dims: usize) -> (r: IndexConfig)
    ensures
        r == shard_config(dims),
        !r.is_flat(),
{
    IndexConfig {
        dimensions: dims,
        metric: Metric::InnerProduct,
        quantization: Quantization::F32,
        multi: false,
        connectivity: SHARD_CONNECTIVITY,
        expansion_add: SHARD_EXPANSION_ADD,
        expansion_search: SHARD_EXPANSION_SEARCH,
    }
}

/// Configuration of the ephemeral rerank index: flat (brute force), with the
/// same dimension, metric and storage type as the shards, one vector per key.
pub fn create_flat_index_options(dims: usize) -> (r: IndexConfig)
    ensures
        r.is_flat(),
        !r.multi,
        r.compatible(shard_config(dims)),
{
    IndexConfig {
        dimensions: dims,
        metric: Metric::InnerProduct,
        quantization: Quantization::F32,
        multi: false,
        connectivity: 0,
        expansion_add: 0,
        expansion_search: 0,
    }
}

} // verus!
