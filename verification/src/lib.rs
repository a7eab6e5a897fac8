//! A fetch/cache/dedup pipeline for externally hosted bundles: a durable
//! key-value cache, archive extraction into typed parts, deterministic
//! query-URL construction, and the decision logic of single-consumer
//! background workers that collapse duplicate requests for one cache key.

pub mod archive;
pub mod b64;
pub mod beatsaver;
pub mod lyrics;
pub mod mapdata;
pub mod numbers;
pub mod search;
pub mod status;
pub mod store;
pub mod text;
pub mod wire;
