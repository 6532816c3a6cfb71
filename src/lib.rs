//! Sharded approximate nearest-neighbour search with exact reranking.
//!
//! The library holds the decisions of the pipeline: how keys are partitioned
//! across shards, how per-shard candidates are fanned out and tagged, how
//! ranked results are merged and truncated, how a reranked result is checked
//! against the candidates it came from, and how recall is counted. The index
//! engine itself, vector generation and all I/O live outside the library.

pub mod config;
pub mod coordinator;
pub mod error;
pub mod keys;
pub mod ranking;
pub mod recall;

pub use config::{create_flat_index_options, create_index_options, IndexConfig, Metric, Quantization};
pub use coordinator::{accept_rerank, check_fetched, check_unique_keys, fan_out, origin_of, Candidate};
pub use error::PipelineError;
pub use keys::{owner_shard, shard_key, shard_keys, shard_seed};
pub use ranking::{distance_order_key, merge_top_k, per_shard_sample, Match};
pub use recall::{evaluate_query, match_keys, mean_recall, recall_at_k, recall_hits, Recall};
