//! Client-side subscription and block-walking engine for a TON-family
//! blockchain node.
//!
//! The crate provides the data structures and decision logic of the engine:
//! a pending-message registry keyed by workchain, account and message hash;
//! a shards-edge predicate that bounds backward DAG traversal; an adaptive
//! timeout policy with exponential backoff and a moving-average roundtrip
//! estimator; retry state machines for block downloads; and the step logic
//! of the chain walker that correlates in-message hashes against
//! transactions found in blocks. Network transports, the async runtime and
//! file I/O live outside this crate and hand plain values in and out.

pub mod backoff;
pub mod config;
pub mod crypto;
pub mod edge;
pub mod fetcher;
pub mod registry;
pub mod subscription;
pub mod types;
pub mod udp_rpc;
pub mod walker;
