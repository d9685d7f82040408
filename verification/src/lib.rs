//! A conflict-aware parallel executor for blocks of transactions over a
//! shared account state, with verified sequential, static-batch and
//! optimistic executors.
pub mod model;
pub mod order;
pub mod versions;
pub mod state;
pub mod text;
pub mod timing;
pub mod tx;
pub mod hash;
pub mod sorting;
pub mod metrics;
pub mod executor;
pub mod keyset;
pub mod parallel;
pub mod laws;
pub mod bench;
pub mod dispatch;
pub mod workload;
