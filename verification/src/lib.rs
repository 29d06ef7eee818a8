//! Verified core of an Ethereum P2P mempool listener: the in-memory
//! transaction deduplication cache, the pipeline counters, and the
//! decisions taken on peer and transaction events.
pub mod dedup;
pub mod metrics;
pub mod network;
pub mod processor;
