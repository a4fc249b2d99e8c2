//! Verified core of a model puller: manifest resolution and parsing, chunked
//! byte-range partitioning, per-chunk retry with exponential backoff,
//! two-level bounded concurrency, positional-write modelling, and progress
//! accounting. The network and filesystem shell around it lives outside the
//! library and hands it plain values.

pub mod chunks;
pub mod codec;
pub mod digits;
pub mod engine;
pub mod error;
pub mod manifest;
pub mod ollama;
pub mod paths;
pub mod pool;
pub mod provider;
pub mod retry;
pub mod writes;
