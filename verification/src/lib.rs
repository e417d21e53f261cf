//! Verified core of an emote ingestion and tiered-caching pipeline.
//!
//! Raw emote records fetched from an external catalog are resolved to one
//! canonical image variant each, named deterministically, and persisted into
//! a blob archive, a relational ledger, and an ephemeral cache. Ad-hoc reads
//! are cache-aside; synced folder reads walk ledger, cache and archive
//! manifest in order, with read-repair back into the cache. A folder resync
//! destructively replaces the folder's contents in all three stores.

pub mod codec;
pub mod config;
pub mod keys;
pub mod laws;
pub mod models;
pub mod naming;
pub mod normalize;
pub mod pipeline;
pub mod resolver;
pub mod resync;
pub mod selector;
pub mod stores;
pub mod strutil;
