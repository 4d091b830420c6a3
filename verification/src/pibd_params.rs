//! Tuning parameters of the staged sync: per-peer and global request
//! caps, timeouts and segment sizes.

use vstd::prelude::*;

verus! {

/// Blocks one peer may owe at a time during body sync.
pub const BLOCKS_REQUEST_PER_PEER: usize = 10;

/// Blocks outstanding over all peers during body sync.
pub const BLOCKS_REQUEST_LIMIT: usize = 100;

/// Segments one peer may owe at a time.
pub const SEGMENTS_REQUEST_PER_PEER: usize = 20;

/// Segments outstanding over all peers.
pub const SEGMENTS_REQUEST_LIMIT: usize = 200;

/// Seconds before an unanswered request expires.
pub const SEGMENT_REQUEST_TIMEOUT_SECS: u64 = 60;

/// Header hashes per segment of the header-hash MMR.
pub const HEADERS_HASHES_PER_SEGMENT: u64 = 512;

/// Headers per download batch during header sync.
pub const HEADERS_BATCH_SIZE: u64 = 512;

/// Blocks kept ahead of the fork point in the body request window: at
/// the block size limit of 1.5 MB the block cache stays under ~750 MB.
pub const BODY_WINDOW_BLOCKS: u64 = 500;

/// Matching root reports needed to commit to a root by quorum.
pub const ROOT_VOTE_QUORUM: usize = 3;

/// Seconds a finished sync outcome is served from cache.
pub const SYNC_DONE_CACHE_SECS: u64 = 180;

} // verus!
