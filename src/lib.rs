//! Per-shard read-path cache for trie values, with a byte-bounded staging
//! area for speculative reads and the prefetcher that drives both.
pub mod shard_cache;
pub mod staging;
pub mod prefetcher;
pub mod store_stats;
