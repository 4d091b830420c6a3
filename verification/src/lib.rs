//! Core of the chain synchronization pipeline of a Mimblewimble-style
//! proof-of-work node.
//!
//! The library holds the decision logic of the sync process: the request
//! tracker, the per-peer scoring ledgers, the difficulty retargeting
//! algorithm, the staged syncers (header hashes, headers, state, bodies)
//! and the manager that orders them. Transport, storage and UI are outside
//! collaborators: the syncers read plain-value snapshots of their state and
//! return the actions to perform.

pub mod body_sync;
pub mod chain_view;
pub mod consensus;
pub mod handlers;
pub mod header_hashes_sync;
pub mod header_sync;
pub mod pibd_params;
pub mod pow;
pub mod segments;
pub mod state_sync;
pub mod status;
pub mod sync_manager;
pub mod sync_peers;
pub mod sync_utils;
pub mod text;
pub mod tracker;
pub mod types;
