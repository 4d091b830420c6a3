//! What the body-sync logic reads of the chain on one tick. The chain
//! itself (storage, validation, orphan pool) is an outside collaborator;
//! the caller snapshots the values the decisions depend on and performs
//! the actions the tick returns.

use vstd::prelude::*;
use crate::pibd_params::BODY_WINDOW_BLOCKS;
use crate::types::Tip;

verus! {

/// Blocks needed between a snapshot and the archive point before state
/// download is preferred over replaying full history: a week of blocks.
pub const CUT_THROUGH_HORIZON: u64 = 10080;

/// Heights at which archive snapshots are taken.
pub const ARCHIVE_INTERVAL: u64 = 720;

/// The archive height for a chain whose best peer reports `height`: the
/// last archive-interval boundary at least a horizon below it.
pub open spec fn spec_archive_height(height: int) -> int {
    (if height > CUT_THROUGH_HORIZON {
        height - CUT_THROUGH_HORIZON
    } else {
        0
    }) / ARCHIVE_INTERVAL as int * ARCHIVE_INTERVAL as int
}

/// The archive height for a chain of `height`, per
/// [`spec_archive_height`].
pub fn height_2_archive_height(height: u64) -> (r: u64)
    ensures
        r as int == spec_archive_height(height as int),
{
    let base = if height > CUT_THROUGH_HORIZON {
        height - CUT_THROUGH_HORIZON
    } else {
        0
    };
    (base / ARCHIVE_INTERVAL) * ARCHIVE_INTERVAL
}

/// One header of the request window: its hash and height.
#[derive(Clone, Copy, PartialEq, Eq, Structural, Debug)]
pub struct HeaderEntry {
    pub hash: crate::types::Hash,
    pub height: u64,
}

/// A snapshot of what body sync reads from the chain: the tips, the
/// archive flag, the headers of the request window past the fork point,
/// and which blocks are already held as orphans or stored.
pub struct ChainView {
    /// Tip of the stored block chain.
    pub head: Tip,
    /// Tip of the stored header chain.
    pub header_head: Tip,
    /// Highest stored ancestor shared with the tracked header chain.
    pub fork_point: Tip,
    /// Whether the node keeps full history.
    pub archive_mode: bool,
    /// Headers directly past the fork point, ascending, at most
    /// [`BODY_WINDOW_BLOCKS`] of them and none past the header tip.
    pub window_headers: Vec<HeaderEntry>,
    /// Hashes held in the orphan pool.
    pub orphans: Vec<crate::types::Hash>,
    /// Hashes of blocks already stored.
    pub existing_blocks: Vec<crate::types::Hash>,
}

impl ChainView {
    /// The window headers climb one by one from the fork point and stay
    /// within the window and under the header tip.
    pub open spec fn wf(&self) -> bool {
        forall|i: int|
            0 <= i < self.window_headers@.len() ==> (#[trigger] self.window_headers@[i]).height
                == self.fork_point.height + 1 + i && self.window_headers@[i].height
                <= self.header_head.height && i < BODY_WINDOW_BLOCKS
    }

    /// Decides [`ChainView::wf`], so an unverified caller can check the
    /// snapshot it built.
    pub fn check_wf(&self) -> (r: bool)
        ensures
            r == self.wf(),
    {
        let n = self.window_headers.len();
        let mut i: usize = 0;
        while i < n
            invariant
                n == self.window_headers@.len(),
                0 <= i <= n,
                forall|j: int|
                    0 <= j < i ==> (#[trigger] self.window_headers@[j]).height
                        == self.fork_point.height + 1 + j && self.window_headers@[j].height
                        <= self.header_head.height && j < BODY_WINDOW_BLOCKS,
            decreases n - i,
        {
            let h = self.window_headers[i];
            let expected_ok = self.fork_point.height < u64::MAX - (i as u64)
                && h.height == self.fork_point.height + 1 + (i as u64);
            if !(expected_ok && h.height <= self.header_head.height && (i as u64)
                < BODY_WINDOW_BLOCKS) {
                return false;
            }
            i += 1;
        }
        true
    }
}

/// Whether `v` holds `h`.
pub fn hash_in(v: &Vec<crate::types::Hash>, h: &crate::types::Hash) -> (r: bool)
    ensures
        r == v@.contains(*h),
{
    let n = v.len();
    let mut i: usize = 0;
    while i < n
        invariant
            n == v@.len(),
            0 <= i <= n,
            forall|j: int| 0 <= j < i ==> v@[j] != *h,
        decreases n - i,
    {
        if v[i].w0 == h.w0 && v[i].w1 == h.w1 && v[i].w2 == h.w2 && v[i].w3 == h.w3 {
            proof {
                assert(v@[i as int] == *h);
            }
            return true;
        }
        i += 1;
    }
    proof {
        if v@.contains(*h) {
            let j = choose|j: int| 0 <= j < v@.len() && v@[j] == *h;
            assert(v@[j] != *h);
        }
    }
    false
}

} // verus!
