//! In-memory index for one epoch of chain data.
//!
//! The library covers the logic of a small ingestion service: an epoch
//! descriptor whose slot range is enumerated, blocks fetched per slot by an
//! external RPC adapter, and an in-memory store that indexes blocks by height
//! and transactions by signature while being read concurrently.  The network
//! adapter and the HTTP read surface live outside the library; everything
//! here is plain data and verified logic.

pub mod kvmap;
pub mod pipeline;
pub mod store;
pub mod types;
