//! State synchronization core for a sharded blockchain client.
//!
//! The library drives a per-shard state machine that downloads a state
//! header and then state parts, either from peers or from an external
//! object store, validates and persists each part, and hands the result
//! to downstream appliers. Network and storage I/O is performed by the
//! caller; the library decides what to request, records what is pending,
//! and ingests the outcomes.

pub mod epoch;
pub mod keycodec;
pub mod pending;
pub mod permits;
pub mod rng;
pub mod sampler;
pub mod state_sync;
pub mod store;
pub mod target_cache;
pub mod types;
pub mod validator;
