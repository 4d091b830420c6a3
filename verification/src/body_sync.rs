//! Body sync: downloading full blocks from the fork point to the header
//! tip. Each tick reads a chain snapshot and the connected peers, expires
//! stale requests, refreshes the request window, and returns the block
//! requests to send, the status to report and the orphan to kick, if one
//! blocks the fork point.

use vstd::prelude::*;
use crate::chain_view::{hash_in, height_2_archive_height, spec_archive_height, ChainView, HeaderEntry};
use crate::pibd_params::{
    BLOCKS_REQUEST_LIMIT, BLOCKS_REQUEST_PER_PEER, SEGMENT_REQUEST_TIMEOUT_SECS,
};
use crate::sync_peers::{spec_inc_sat, SyncPeers};
use crate::sync_utils::{
    get_sync_peers, random_index, spec_excluded_requests, spec_selected_peers,
    SyncRequestResponses,
};
use crate::text::u64_to_string;
use crate::tracker::{
    has_req_key, key_index, lemma_peer_count_push, peer_count, retained, spec_add_sat,
    spec_needed_requests, QueueEntry, RequestRecord, RequestTracker, SyncKey,
};
use crate::types::{Capabilities, PeerAddr, SyncPeerInfo, SyncStatus, CAPS_BLOCK_HIST, CAPS_HEADER_HIST, CAPS_UNKNOWN};

verus! {

/// A block request to put on the wire: which block, from which peer.
#[derive(Clone, Copy, PartialEq, Eq, Structural, Debug)]
pub struct BlockRequest {
    pub hash: crate::types::Hash,
    pub height: u64,
    pub peer: PeerAddr,
}

/// What one body-sync tick decided: the stage response, the status to
/// report upward, the block requests to send, and the orphan to hand to
/// block processing when one sits right past the fork point.
pub struct BodySyncTick {
    pub response: SyncRequestResponses,
    pub status: Option<SyncStatus>,
    pub requests: Vec<BlockRequest>,
    pub kick_orphan: Option<crate::types::Hash>,
}

/// Body sync is finished when the block tip has caught the header tip.
pub open spec fn spec_body_done(chain: ChainView) -> bool {
    chain.head.last_block_h == chain.header_head.last_block_h
}

/// A node without full history cannot body-sync from below the archive
/// point; the manager must fall back to state download.
pub open spec fn spec_body_bad_state(chain: ChainView, best_height: int) -> bool {
    !chain.archive_mode && chain.fork_point.height < spec_archive_height(best_height)
}

/// The capabilities peers are filtered by on this tick.
pub open spec fn spec_peer_caps(chain: ChainView, archive_height: int) -> Capabilities {
    if chain.archive_mode && chain.head.height <= archive_height {
        Capabilities { bits: CAPS_BLOCK_HIST }
    } else {
        Capabilities { bits: CAPS_UNKNOWN }
    }
}

/// The capabilities the stage reports as wanted.
pub open spec fn spec_required_caps(chain: ChainView, archive_height: int) -> Capabilities {
    if chain.archive_mode && chain.head.height <= archive_height {
        Capabilities { bits: CAPS_BLOCK_HIST | CAPS_HEADER_HIST }
    } else {
        Capabilities { bits: CAPS_HEADER_HIST }
    }
}

/// The request window: the window headers that are not orphans, in
/// ascending height order.
pub open spec fn spec_series(headers: Seq<HeaderEntry>, orphans: Seq<crate::types::Hash>) -> Seq<
    HeaderEntry,
>
    decreases headers.len(),
{
    if headers.len() == 0 {
        Seq::empty()
    } else {
        let rest = spec_series(headers.drop_last(), orphans);
        if !orphans.contains(headers.last().hash) {
            rest.push(headers.last())
        } else {
            rest
        }
    }
}

/// Whether the window entry `e` still has to be requested: not asked
/// for, not an orphan, not stored.
pub open spec fn spec_block_wanted(
    e: HeaderEntry,
    recs: Seq<RequestRecord<crate::types::Hash>>,
    chain: ChainView,
) -> bool {
    !has_req_key(recs, e.hash) && !chain.orphans@.contains(e.hash)
        && !chain.existing_blocks@.contains(e.hash)
}

/// Whether `b` matches an entry of the series.
pub open spec fn spec_from_series(b: BlockRequest, ser: Seq<HeaderEntry>) -> bool {
    exists|j: int| 0 <= j < ser.len() && ser[j].hash == b.hash && ser[j].height == b.height
}

/// Whether `b` is addressed to one of `peers`.
pub open spec fn spec_peer_in(b: BlockRequest, peers: Seq<SyncPeerInfo>) -> bool {
    exists|j: int| 0 <= j < peers.len() && peers[j].addr == b.peer
}

/// The text charged to a peer that served a bad block: the block hash
/// and the peer, named in full.
pub open spec fn spec_bad_block_message(h: crate::types::Hash, p: PeerAddr) -> Seq<char> {
    "Get bad block "@ + crate::types::spec_hash_text(h) + " for peer "@
        + crate::types::spec_peer_addr_text(p)
}

/// The orphan blocking the fork point, when there is one: the first
/// window header, if it is held as an orphan.
pub open spec fn spec_stuck_orphan(chain: ChainView) -> Option<crate::types::Hash> {
    if chain.window_headers@.len() > 0 && chain.orphans@.contains(chain.window_headers@[0].hash) {
        Some(chain.window_headers@[0].hash)
    } else {
        None
    }
}

/// The body-sync stage.
pub struct BodySync {
    required_capabilities: Capabilities,
    request_tracker: RequestTracker<crate::types::Hash>,
    request_series: Vec<HeaderEntry>,
}

impl BodySync {
    /// The outstanding block requests.
    pub closed spec fn recs(&self) -> Seq<RequestRecord<crate::types::Hash>> {
        self.request_tracker.recs()
    }

    /// The per-peer depth table of the tracker.
    pub closed spec fn queue(&self) -> Seq<QueueEntry> {
        self.request_tracker.queue()
    }

    /// The current request window.
    pub closed spec fn series(&self) -> Seq<HeaderEntry> {
        self.request_series@
    }

    /// The capabilities wanted of peers for the current mode.
    pub closed spec fn caps(&self) -> Capabilities {
        self.required_capabilities
    }

    /// The refill countdown of the tracker.
    pub closed spec fn next_ask(&self) -> int {
        self.request_tracker.next_ask()
    }

    /// The tracker is well-formed.
    pub closed spec fn tracker_wf(&self) -> bool {
        self.request_tracker.wf()
    }

    /// Well-formed: the tracker is consistent and no peer owes more than
    /// its quota.
    pub open spec fn wf(&self) -> bool {
        &&& self.tracker_wf()
        &&& forall|p: PeerAddr|
            peer_count(self.recs(), p) <= BLOCKS_REQUEST_PER_PEER
    }

    /// A fresh stage.
    pub fn new() -> (r: BodySync)
        ensures
            r.wf(),
            r.recs().len() == 0,
            r.series().len() == 0,
            r.caps().bits == CAPS_UNKNOWN,
    {
        let r = BodySync {
            required_capabilities: Capabilities { bits: CAPS_UNKNOWN },
            request_tracker: RequestTracker::new(),
            request_series: Vec::new(),
        };
        proof {
            assert forall|p: PeerAddr| peer_count(r.recs(), p) <= BLOCKS_REQUEST_PER_PEER by {
                crate::tracker::lemma_peer_count_le_len(r.recs(), p);
            }
        }
        r
    }

    /// The capabilities the stage currently wants in a peer.
    pub fn get_peer_capabilities(&self) -> (r: Capabilities)
        ensures
            r == self.caps(),
    {
        self.required_capabilities
    }

    /// Whether `hash` still has to be requested: not already asked for,
    /// not an orphan, not stored.
    fn is_need_request_block(&self, chain: &ChainView, hash: &crate::types::Hash) -> (r: bool)
        ensures
            r == (!has_req_key(self.recs(), *hash) && !chain.orphans@.contains(*hash)
                && !chain.existing_blocks@.contains(*hash)),
    {
        !self.request_tracker.has_request(hash) && !hash_in(&chain.orphans, hash) && !hash_in(
            &chain.existing_blocks,
            hash,
        )
    }

    /// Picks the peer to ask next: a random one among the given peers
    /// with the smallest queue depth, provided it is under the per-peer
    /// cap.
    fn pick_peer(&self, selected: &Vec<SyncPeerInfo>) -> (r: Option<usize>)
        requires
            self.tracker_wf(),
        ensures
            match r {
                Some(i) => i < selected@.len() && peer_count(self.recs(), selected@[i as int].addr)
                    < BLOCKS_REQUEST_PER_PEER,
                None => forall|j: int|
                    0 <= j < selected@.len() ==> peer_count(
                        self.recs(),
                        (#[trigger] selected@[j]).addr,
                    ) >= BLOCKS_REQUEST_PER_PEER,
            },
    {
        let n = selected.len();
        if n == 0 {
            return None;
        }
        let table = self.request_tracker.get_peers_queue_size();
        let mut best: usize = usize::MAX;
        let mut best_at: usize = 0;
        let mut j: usize = 0;
        while j < n
            invariant
                n == selected@.len(),
                0 <= j <= n,
                self.tracker_wf(),
                table@ == self.queue(),
                j > 0 ==> best_at < n && best as int == crate::sync_utils::depth_lookup(
                    table@,
                    selected@[best_at as int].addr,
                ),
                j == 0 ==> best == usize::MAX,
                forall|k: int|
                    0 <= k < j ==> best as int <= crate::sync_utils::depth_lookup(
                        table@,
                        (#[trigger] selected@[k]).addr,
                    ),
            decreases n - j,
        {
            let d = crate::sync_utils::depth_of(&table, &selected[j].addr);
            if j == 0 || d < best {
                best = d;
                best_at = j;
            }
            j += 1;
        }
        if best >= BLOCKS_REQUEST_PER_PEER {
            proof {
                assert forall|m: int|
                    0 <= m < selected@.len() implies peer_count(
                    self.recs(),
                    (#[trigger] selected@[m]).addr,
                ) >= BLOCKS_REQUEST_PER_PEER by {
                    crate::sync_utils::lemma_depth_lookup_tracker(
                        &self.request_tracker,
                        selected@[m].addr,
                    );
                }
            }
            return None;
        }
        let mut cands: Vec<usize> = Vec::new();
        let mut k: usize = 0;
        while k < n
            invariant
                n == selected@.len(),
                0 <= k <= n,
                self.tracker_wf(),
                table@ == self.queue(),
                best < BLOCKS_REQUEST_PER_PEER,
                best_at < n,
                best as int == crate::sync_utils::depth_lookup(
                    table@,
                    selected@[best_at as int].addr,
                ),
                forall|m: int|
                    0 <= m < cands@.len() ==> (#[trigger] cands@[m]) < n && crate::sync_utils::depth_lookup(
                        table@,
                        selected@[cands@[m] as int].addr,
                    ) == best as int,
                k > best_at ==> cands@.len() >= 1,
            decreases n - k,
        {
            let d = crate::sync_utils::depth_of(&table, &selected[k].addr);
            if d == best {
                cands.push(k);
            } else {
                proof {
                    if k == best_at {
                        assert(false);
                    }
                }
            }
            k += 1;
        }
        let pick = random_index(cands.len());
        let chosen = cands[pick];
        proof {
            crate::sync_utils::lemma_depth_lookup_tracker(
                &self.request_tracker,
                selected@[chosen as int].addr,
            );
        }
        Some(chosen)
    }

    /// Emits up to `need_request` block requests for window blocks still
    /// wanted, registering each with the tracker. Every request goes to a
    /// given peer whose queue depth is under the per-peer cap, so the cap
    /// invariant is kept.
    fn send_requests(
        &mut self,
        need_request: usize,
        selected: &Vec<SyncPeerInfo>,
        chain: &ChainView,
        now: u64,
    ) -> (r: Vec<BlockRequest>)
        requires
            old(self).wf(),
        ensures
            final(self).wf(),
            final(self).series() == old(self).series(),
            final(self).caps() == old(self).caps(),
            final(self).next_ask() == old(self).next_ask(),
            r@.len() <= need_request,
            final(self).recs().len() == old(self).recs().len() + r@.len(),
            final(self).recs().take(old(self).recs().len() as int) == old(self).recs(),
            forall|k: int|
                0 <= k < r@.len() ==> {
                    let rec = #[trigger] final(self).recs()[old(self).recs().len() + k];
                    rec.key == r@[k].hash && rec.peer == r@[k].peer && rec.issued_at == now
                },
            forall|k: int| 0 <= k < r@.len() ==> spec_peer_in(#[trigger] r@[k], selected@),
            forall|k: int|
                0 <= k < r@.len() ==> spec_from_series(#[trigger] r@[k], old(self).series()),
            forall|k: int|
                0 <= k < r@.len() ==> !chain.orphans@.contains((#[trigger] r@[k]).hash)
                    && !chain.existing_blocks@.contains(r@[k].hash) && !has_req_key(
                    old(self).recs(),
                    r@[k].hash,
                ),
            forall|k1: int, k2: int| 0 <= k1 < k2 < r@.len() ==> r@[k1].hash != r@[k2].hash,
            r@.len() == 0 ==> *final(self) == *old(self),
            r@.len() == need_request || (forall|i: int|
                0 <= i < old(self).series().len() ==> !spec_block_wanted(
                    #[trigger] old(self).series()[i],
                    final(self).recs(),
                    *chain,
                )) || (forall|j: int|
                0 <= j < selected@.len() ==> peer_count(
                    final(self).recs(),
                    (#[trigger] selected@[j]).addr,
                ) >= BLOCKS_REQUEST_PER_PEER),
    {
        let ghost start_recs = self.recs();
        let ghost ser = self.series();
        let mut out: Vec<BlockRequest> = Vec::new();
        let mut remaining = need_request;
        let n = self.request_series.len();
        let mut idx: usize = 0;
        let mut stuck = false;
        while idx < n && remaining > 0 && !stuck
            invariant
                n == self.series().len(),
                0 <= idx <= n,
                self.wf(),
                self.series() == ser,
                self.caps() == old(self).caps(),
                self.next_ask() == old(self).next_ask(),
                out@.len() + remaining == need_request,
                out@.len() == 0 ==> *self == *old(self),
                self.recs().len() == start_recs.len() + out@.len(),
                self.recs().take(start_recs.len() as int) == start_recs,
                start_recs == old(self).recs(),
                ser == old(self).series(),
                forall|k: int|
                    0 <= k < out@.len() ==> {
                        let rec = #[trigger] self.recs()[start_recs.len() + k];
                        rec.key == out@[k].hash && rec.peer == out@[k].peer && rec.issued_at
                            == now
                    },
                forall|k: int| 0 <= k < out@.len() ==> spec_peer_in(#[trigger] out@[k], selected@),
                forall|k: int| 0 <= k < out@.len() ==> spec_from_series(#[trigger] out@[k], ser),
                forall|k: int|
                    0 <= k < out@.len() ==> !chain.orphans@.contains((#[trigger] out@[k]).hash)
                        && !chain.existing_blocks@.contains(out@[k].hash) && !has_req_key(
                        start_recs,
                        out@[k].hash,
                    ),
                forall|k: int|
                    0 <= k < out@.len() ==> has_req_key(self.recs(), (#[trigger] out@[k]).hash),
                forall|k1: int, k2: int|
                    0 <= k1 < k2 < out@.len() ==> out@[k1].hash != out@[k2].hash,
                !stuck ==> forall|i: int|
                    0 <= i < idx ==> !spec_block_wanted(#[trigger] ser[i], self.recs(), *chain),
                stuck ==> forall|j: int|
                    0 <= j < selected@.len() ==> peer_count(
                        self.recs(),
                        (#[trigger] selected@[j]).addr,
                    ) >= BLOCKS_REQUEST_PER_PEER,
            decreases n - idx,
        {
            let entry = self.request_series[idx];
            let needed_now = self.is_need_request_block(chain, &entry.hash);
            if needed_now {
                match self.pick_peer(selected) {
                    Some(pi) => {
                        let peer_addr = selected[pi].addr;
                        let mut label = String::from_str("Block ");
                        let hs = u64_to_string(entry.height);
                        label.append(hs.as_str());
                        let ghost prev = self.recs();
                        self.request_tracker.register_request(entry.hash, peer_addr, label, now);
                        let req = BlockRequest { hash: entry.hash, height: entry.height, peer: peer_addr };
                        proof {
                            let rec = self.recs().last();
                            // only the chosen peer's count grows, and it was under the cap
                            assert forall|p: PeerAddr|
                                peer_count(self.recs(), p) <= BLOCKS_REQUEST_PER_PEER by {
                                lemma_peer_count_push(prev, rec, p);
                                assert(prev.push(rec) =~= self.recs());
                            }
                            assert(self.recs().take(start_recs.len() as int) =~= start_recs);
                            // earlier requests stay registered
                            assert forall|k: int|
                                0 <= k < out@.len() implies has_req_key(
                                self.recs(),
                                (#[trigger] out@[k]).hash,
                            ) by {
                                let w = choose|w: int|
                                    0 <= w < prev.len() && prev[w].key == out@[k].hash;
                                assert(self.recs()[w] == prev[w]);
                            }
                            // the fresh key was not among the starting records
                            assert(!has_req_key(start_recs, entry.hash)) by {
                                if has_req_key(start_recs, entry.hash) {
                                    let w = choose|w: int|
                                        0 <= w < start_recs.len() && start_recs[w].key
                                            == entry.hash;
                                    assert(prev[w] == start_recs[w]);
                                    assert(has_req_key(prev, entry.hash));
                                }
                            }
                            assert(spec_from_series(req, ser)) by {
                                assert(ser[idx as int].hash == entry.hash && ser[idx as int].height
                                    == entry.height);
                            }
                            assert(spec_peer_in(req, selected@)) by {
                                assert(selected@[pi as int].addr == peer_addr);
                            }
                        }
                        out.push(req);
                        remaining = remaining - 1;
                        proof {
                            let ghost prev2 = prev;
                            assert forall|k1: int, k2: int|
                                0 <= k1 < k2 < out@.len() implies out@[k1].hash
                                != out@[k2].hash by {
                                if k2 == out@.len() - 1 {
                                    assert(has_req_key(prev2, out@[k1].hash));
                                }
                            }
                            // every window entry looked at so far is no
                            // longer wanted: once a key is registered it
                            // stays registered through this sweep
                            assert forall|i: int|
                                0 <= i < idx + 1 implies !spec_block_wanted(
                                #[trigger] ser[i],
                                self.recs(),
                                *chain,
                            ) by {
                                if i < idx && has_req_key(prev2, ser[i].hash) {
                                    let w = choose|w: int|
                                        0 <= w < prev2.len() && prev2[w].key == ser[i].hash;
                                    assert(self.recs()[w] == prev2[w]);
                                }
                                if i == idx {
                                    assert(has_req_key(self.recs(), entry.hash)) by {
                                        assert(self.recs().last().key == entry.hash);
                                    }
                                }
                            }
                        }
                    },
                    None => {
                        stuck = true;
                    },
                }
            } else {
                proof {
                    assert(!spec_block_wanted(ser[idx as int], self.recs(), *chain));
                }
            }
            idx += 1;
        }
        out
    }

    /// Rebuilds the request window from the chain snapshot: the window
    /// headers that are not orphans, ascending.
    fn build_series(chain: &ChainView) -> (r: Vec<HeaderEntry>)
        ensures
            r@ == spec_series(chain.window_headers@, chain.orphans@),
    {
        let n = chain.window_headers.len();
        let mut r: Vec<HeaderEntry> = Vec::new();
        let mut i: usize = 0;
        while i < n
            invariant
                n == chain.window_headers@.len(),
                0 <= i <= n,
                r@ == spec_series(chain.window_headers@.take(i as int), chain.orphans@),
            decreases n - i,
        {
            proof {
                assert(chain.window_headers@.take(i + 1).drop_last() =~= chain.window_headers@.take(
                    i as int,
                ));
                assert(chain.window_headers@.take(i + 1).last() == chain.window_headers@[i as int]);
            }
            let h = chain.window_headers[i];
            if !hash_in(&chain.orphans, &h.hash) {
                r.push(h);
            }
            i += 1;
        }
        proof {
            assert(chain.window_headers@.take(n as int) =~= chain.window_headers@);
        }
        r
    }

    /// One body-sync tick. Reports `BodyReady` when the block tip has
    /// caught the header tip and `BadState` when a non-archive node would
    /// need blocks from below the archive point. Otherwise it selects
    /// peers, expires stale requests (charging their peers), refreshes
    /// the request window when its nearest block is no longer wanted,
    /// asks to kick the orphan blocking the fork point if one does, and
    /// emits block requests up to the global and per-peer caps.
    pub fn request(
        &mut self,
        chain: &ChainView,
        peers: &Vec<SyncPeerInfo>,
        sync_peers: &mut SyncPeers,
        best_height: u64,
        now: u64,
    ) -> (r: BodySyncTick)
        requires
            old(self).wf(),
            chain.wf(),
            old(sync_peers).wf(),
        ensures
            final(self).wf(),
            final(sync_peers).wf(),
            forall|p: PeerAddr|
                peer_count(final(self).recs(), p) <= BLOCKS_REQUEST_PER_PEER,
            (r.response == SyncRequestResponses::BodyReady) == spec_body_done(*chain),
            ({
                let done = spec_body_done(*chain);
                let arch = spec_archive_height(best_height as int);
                let bad = !done && spec_body_bad_state(*chain, best_height as int);
                let pcaps = spec_peer_caps(*chain, arch);
                let selected = spec_selected_peers(
                    peers@,
                    old(self).queue(),
                    pcaps,
                    chain.head.height,
                    BLOCKS_REQUEST_PER_PEER as int,
                );
                let excluded = spec_excluded_requests(
                    peers@,
                    old(self).queue(),
                    pcaps,
                    chain.head.height,
                    BLOCKS_REQUEST_PER_PEER as int,
                );
                let base = retained(old(self).recs(), now, SEGMENT_REQUEST_TIMEOUT_SECS);
                &&& (done ==> final(self).recs() == old(self).recs() && final(self).series()
                    == old(self).series() && r.requests@.len() == 0 && r.status is None
                    && r.kick_orphan is None && *final(sync_peers) == *old(sync_peers))
                &&& (bad ==> r.response == SyncRequestResponses::BadState && final(self).recs()
                    == old(self).recs() && final(self).series() == old(self).series()
                    && r.requests@.len() == 0 && r.status is None && r.kick_orphan is None
                    && *final(sync_peers) == *old(sync_peers))
                &&& (!done && !bad ==> final(self).caps() == spec_required_caps(*chain, arch))
                &&& (!done && !bad && selected.len() == 0 ==> r.response == (if excluded == 0 {
                    SyncRequestResponses::WaitingForPeers
                } else {
                    SyncRequestResponses::Syncing
                }) && final(self).recs() == old(self).recs() && final(self).series() == old(
                    self,
                ).series() && r.requests@.len() == 0 && r.status is None && r.kick_orphan is None
                    && *final(sync_peers) == *old(sync_peers))
                &&& (!done && !bad && selected.len() > 0 ==> {
                    &&& r.response == SyncRequestResponses::Syncing
                    &&& r.status == Some(
                        SyncStatus::BodySync {
                            archive_height: (if chain.archive_mode {
                                0
                            } else {
                                arch as u64
                            }),
                            current_height: chain.fork_point.height,
                            highest_height: best_height,
                        },
                    )
                    &&& r.kick_orphan == spec_stuck_orphan(*chain)
                    &&& final(self).series() == (if old(self).series().len() == 0 || has_req_key(
                        base,
                        old(self).series()[0].hash,
                    ) || chain.orphans@.contains(old(self).series()[0].hash)
                        || chain.existing_blocks@.contains(old(self).series()[0].hash) {
                        spec_series(chain.window_headers@, chain.orphans@)
                    } else {
                        old(self).series()
                    })
                    &&& final(self).recs().len() == base.len() + r.requests@.len()
                    &&& final(self).recs().take(base.len() as int) == base
                    &&& forall|k: int|
                        0 <= k < r.requests@.len() ==> {
                            let rec = #[trigger] final(self).recs()[base.len() + k];
                            rec.key == r.requests@[k].hash && rec.peer == r.requests@[k].peer
                                && rec.issued_at == now
                        }
                    &&& forall|k: int|
                        0 <= k < r.requests@.len() ==> spec_peer_in(
                            #[trigger] r.requests@[k],
                            selected,
                        )
                    &&& forall|k: int|
                        0 <= k < r.requests@.len() ==> spec_from_series(
                            #[trigger] r.requests@[k],
                            final(self).series(),
                        )
                    &&& forall|k: int|
                        0 <= k < r.requests@.len() ==> !chain.orphans@.contains(
                            (#[trigger] r.requests@[k]).hash,
                        ) && !chain.existing_blocks@.contains(r.requests@[k].hash)
                            && !has_req_key(base, r.requests@[k].hash)
                    &&& r.requests@.len() <= spec_needed_requests(
                        base.len() as int,
                        selected.len() as int,
                        (if excluded > usize::MAX as int {
                            usize::MAX as int
                        } else {
                            excluded
                        }),
                        BLOCKS_REQUEST_PER_PEER as int,
                        BLOCKS_REQUEST_LIMIT as int,
                    )
                    &&& forall|k1: int, k2: int|
                        0 <= k1 < k2 < r.requests@.len() ==> r.requests@[k1].hash
                            != r.requests@[k2].hash
                    &&& (r.requests@.len() == spec_needed_requests(
                        base.len() as int,
                        selected.len() as int,
                        (if excluded > usize::MAX as int {
                            usize::MAX as int
                        } else {
                            excluded
                        }),
                        BLOCKS_REQUEST_PER_PEER as int,
                        BLOCKS_REQUEST_LIMIT as int,
                    ) || (forall|i: int|
                        0 <= i < final(self).series().len() ==> !spec_block_wanted(
                            #[trigger] final(self).series()[i],
                            final(self).recs(),
                            *chain,
                        )) || (forall|j: int|
                        0 <= j < selected.len() ==> peer_count(
                            final(self).recs(),
                            (#[trigger] selected[j]).addr,
                        ) >= BLOCKS_REQUEST_PER_PEER))
                    &&& forall|p: PeerAddr|
                        final(sync_peers).err_of(p) == spec_add_sat(
                            old(sync_peers).err_of(p),
                            peer_count(old(self).recs(), p) - peer_count(base, p),
                        )
                    &&& forall|p: PeerAddr|
                        final(sync_peers).ok_of(p) == old(sync_peers).ok_of(p)
                })
            }),
    {
        if chain.head.last_block_h.key_eq(&chain.header_head.last_block_h) {
            return BodySyncTick {
                response: SyncRequestResponses::BodyReady,
                status: None,
                requests: Vec::new(),
                kick_orphan: None,
            };
        }
        let archive_height = height_2_archive_height(best_height);
        if !chain.archive_mode && chain.fork_point.height < archive_height {
            return BodySyncTick {
                response: SyncRequestResponses::BadState,
                status: None,
                requests: Vec::new(),
                kick_orphan: None,
            };
        }
        let archive_path = chain.archive_mode && chain.head.height <= archive_height;
        let peer_caps = if archive_path {
            Capabilities { bits: CAPS_BLOCK_HIST }
        } else {
            Capabilities { bits: CAPS_UNKNOWN }
        };
        self.required_capabilities = if archive_path {
            Capabilities { bits: CAPS_BLOCK_HIST | CAPS_HEADER_HIST }
        } else {
            Capabilities { bits: CAPS_HEADER_HIST }
        };
        let table = self.request_tracker.get_peers_queue_size();
        let (selected, excluded) = get_sync_peers(
            peers,
            BLOCKS_REQUEST_PER_PEER,
            peer_caps,
            chain.head.height,
            &table,
        );
        if selected.len() == 0 {
            let response = if excluded == 0 {
                SyncRequestResponses::WaitingForPeers
            } else {
                SyncRequestResponses::Syncing
            };
            proof {
                assert(self.recs() == old(self).recs());
                assert(self.tracker_wf());
            }
            return BodySyncTick { response, status: None, requests: Vec::new(), kick_orphan: None };
        }
        let ghost pre_recs = self.recs();
        self.request_tracker.retain_expired(now, SEGMENT_REQUEST_TIMEOUT_SECS, sync_peers);
        proof {
            assert forall|p: PeerAddr|
                peer_count(self.recs(), p) <= BLOCKS_REQUEST_PER_PEER by {
                assert(pre_recs == old(self).recs());
                assert(peer_count(old(self).recs(), p) <= BLOCKS_REQUEST_PER_PEER);
                crate::tracker::lemma_retained_peer_count_le(
                    pre_recs,
                    now,
                    SEGMENT_REQUEST_TIMEOUT_SECS,
                    p,
                );
            }
        }
        let ghost after_retain = self.recs();
        let status = SyncStatus::BodySync {
            archive_height: if chain.archive_mode {
                0
            } else {
                archive_height
            },
            current_height: chain.fork_point.height,
            highest_height: best_height,
        };
        let kick_orphan = if chain.window_headers.len() > 0 && hash_in(
            &chain.orphans,
            &chain.window_headers[0].hash,
        ) {
            Some(chain.window_headers[0].hash)
        } else {
            None
        };
        let refresh = if self.request_series.len() == 0 {
            true
        } else {
            let first = self.request_series[0];
            !self.is_need_request_block(chain, &first.hash)
        };
        if refresh {
            self.request_series = Self::build_series(chain);
        }
        proof {
            assert(self.recs() == after_retain);
            assert forall|p: PeerAddr|
                peer_count(self.recs(), p) <= BLOCKS_REQUEST_PER_PEER by {
                assert(peer_count(after_retain, p) <= BLOCKS_REQUEST_PER_PEER);
            }
        }
        let excluded_usize: usize = if excluded > usize::MAX as u64 {
            usize::MAX
        } else {
            excluded as usize
        };
        let need = self.request_tracker.calculate_needed_requests(
            selected.len(),
            excluded_usize,
            BLOCKS_REQUEST_PER_PEER,
            BLOCKS_REQUEST_LIMIT,
        );
        let requests = if need > 0 {
            self.send_requests(need, &selected, chain, now)
        } else {
            Vec::new()
        };
        BodySyncTick {
            response: SyncRequestResponses::Syncing,
            status: Some(status),
            requests,
            kick_orphan,
        }
    }

    /// Takes in the report on a requested block: frees the request slot,
    /// credits the sender when the block was accepted and it owed the
    /// request, charges it when the block was bad, and refills the
    /// request pipeline once the response countdown has run out.
    pub fn receive_block_reporting(
        &mut self,
        accepted: bool,
        block_hash: &crate::types::Hash,
        peer: &PeerAddr,
        chain: &ChainView,
        peers: &Vec<SyncPeerInfo>,
        sync_peers: &mut SyncPeers,
        now: u64,
    ) -> (r: Vec<BlockRequest>)
        requires
            old(self).wf(),
            chain.wf(),
            old(sync_peers).wf(),
        ensures
            final(self).wf(),
            final(sync_peers).wf(),
            forall|p: PeerAddr|
                peer_count(final(self).recs(), p) <= BLOCKS_REQUEST_PER_PEER,
            ({
                let had = has_req_key(old(self).recs(), *block_hash);
                let base = if had {
                    old(self).recs().remove(key_index(old(self).recs(), *block_hash))
                } else {
                    old(self).recs()
                };
                let owner_ok = had && old(self).recs()[key_index(
                    old(self).recs(),
                    *block_hash,
                )].peer == *peer;
                &&& final(self).recs().len() == base.len() + r@.len()
                &&& final(self).recs().take(base.len() as int) == base
                &&& forall|k: int|
                    0 <= k < r@.len() ==> {
                        let rec = #[trigger] final(self).recs()[base.len() + k];
                        rec.key == r@[k].hash && rec.peer == r@[k].peer && rec.issued_at == now
                    }
                &&& forall|k: int| 0 <= k < r@.len() ==> spec_peer_in(#[trigger] r@[k], peers@)
                &&& forall|k: int|
                    0 <= k < r@.len() ==> !chain.orphans@.contains((#[trigger] r@[k]).hash)
                        && !chain.existing_blocks@.contains(r@[k].hash) && !has_req_key(
                        base,
                        r@[k].hash,
                    )
                &&& forall|k1: int, k2: int| 0 <= k1 < k2 < r@.len() ==> r@[k1].hash != r@[k2].hash
                &&& (accepted && owner_ok ==> final(sync_peers).ok_of(*peer) == spec_inc_sat(
                    old(sync_peers).ok_of(*peer),
                ) && forall|q: PeerAddr|
                    q != *peer ==> final(sync_peers).ok_of(q) == old(sync_peers).ok_of(q))
                &&& (!(accepted && owner_ok) ==> forall|q: PeerAddr|
                    final(sync_peers).ok_of(q) == old(sync_peers).ok_of(q))
                &&& (!accepted ==> final(sync_peers).err_of(*peer) == spec_inc_sat(
                    old(sync_peers).err_of(*peer),
                ) && forall|q: PeerAddr|
                    q != *peer ==> final(sync_peers).err_of(q) == old(sync_peers).err_of(q))
                &&& (!accepted && old(sync_peers).msgs_of(*peer).len()
                    < crate::sync_peers::PEER_ERROR_MESSAGES_CAP ==> final(sync_peers).msgs_of(
                    *peer,
                ).len() == old(sync_peers).msgs_of(*peer).len() + 1 && final(sync_peers).msgs_of(
                    *peer,
                ).last()@ == spec_bad_block_message(*block_hash, *peer))
                &&& (accepted ==> forall|q: PeerAddr|
                    final(sync_peers).err_of(q) == old(sync_peers).err_of(q))
                &&& (r@.len() > 0 ==> (if had {
                    if old(self).next_ask() > 0 {
                        old(self).next_ask() - 1
                    } else {
                        0
                    }
                } else {
                    old(self).next_ask()
                }) == 0)
                &&& final(self).caps() == old(self).caps()
                &&& final(self).series() == old(self).series()
                &&& ({
                    // the refill obligation: once the response countdown
                    // has run out, requests go out unless no peer is
                    // selectable, the budget is spent, nothing in the
                    // window is wanted, or every selected peer is at cap
                    let countdown = if had {
                        if old(self).next_ask() > 0 {
                            old(self).next_ask() - 1
                        } else {
                            0int
                        }
                    } else {
                        old(self).next_ask()
                    };
                    let sel2 = spec_selected_peers(
                        peers@,
                        final(self).queue(),
                        old(self).caps(),
                        chain.head.height,
                        BLOCKS_REQUEST_PER_PEER as int,
                    );
                    let ex2 = spec_excluded_requests(
                        peers@,
                        final(self).queue(),
                        old(self).caps(),
                        chain.head.height,
                        BLOCKS_REQUEST_PER_PEER as int,
                    );
                    ||| r@.len() > 0
                    ||| countdown != 0
                    ||| sel2.len() == 0
                    ||| spec_needed_requests(
                        base.len() as int,
                        sel2.len() as int,
                        (if ex2 > usize::MAX as int {
                            usize::MAX as int
                        } else {
                            ex2
                        }),
                        BLOCKS_REQUEST_PER_PEER as int,
                        BLOCKS_REQUEST_LIMIT as int,
                    ) == 0
                    ||| (forall|i: int|
                        0 <= i < old(self).series().len() ==> !spec_block_wanted(
                            #[trigger] old(self).series()[i],
                            final(self).recs(),
                            *chain,
                        ))
                    ||| (forall|j: int|
                        0 <= j < sel2.len() ==> peer_count(
                            final(self).recs(),
                            (#[trigger] sel2[j]).addr,
                        ) >= BLOCKS_REQUEST_PER_PEER)
                })
            }),
    {
        let ghost old_recs = self.recs();
        let removed = self.request_tracker.remove_request(block_hash);
        proof {
            assert forall|p: PeerAddr|
                peer_count(self.recs(), p) <= BLOCKS_REQUEST_PER_PEER by {
                if has_req_key(old_recs, *block_hash) {
                    crate::tracker::lemma_peer_count_remove(
                        old_recs,
                        key_index(old_recs, *block_hash),
                        p,
                    );
                }
            }
        }
        if accepted {
            match &removed {
                Some(addr) => {
                    if *addr == *peer {
                        sync_peers.report_ok_response(peer);
                    }
                },
                None => {},
            }
        } else {
            let message = Self::bad_block_message(block_hash, peer);
            sync_peers.report_error_response(peer, message);
        }
        let mut out: Vec<BlockRequest> = Vec::new();
        if self.request_tracker.get_update_requests_to_next_ask() == 0 {
            let table = self.request_tracker.get_peers_queue_size();
            let (selected, excluded) = get_sync_peers(
                peers,
                BLOCKS_REQUEST_PER_PEER,
                self.required_capabilities,
                chain.head.height,
                &table,
            );
            if selected.len() > 0 {
                let excluded_usize: usize = if excluded > usize::MAX as u64 {
                    usize::MAX
                } else {
                    excluded as usize
                };
                let need = self.request_tracker.calculate_needed_requests(
                    selected.len(),
                    excluded_usize,
                    BLOCKS_REQUEST_PER_PEER,
                    BLOCKS_REQUEST_LIMIT,
                );
                if need > 0 {
                    out = self.send_requests(need, &selected, chain, now);
                    self.request_tracker.reset_update_requests_to_next_ask();
                    proof {
                        lemma_requests_to_given_peers(out@, selected@, peers@, table@,
                            self.required_capabilities, chain.head.height);
                    }
                }
            }
        }
        out
    }

    /// The text charged for a bad block, exactly
    /// [`spec_bad_block_message`].
    pub fn bad_block_message(block_hash: &crate::types::Hash, peer: &PeerAddr) -> (r: String)
        ensures
            r@ == spec_bad_block_message(*block_hash, *peer),
    {
        let mut r = String::from_str("Get bad block ");
        let h = block_hash.text();
        let p = peer.text();
        r.append(h.as_str());
        r.append(" for peer ");
        r.append(p.as_str());
        r
    }

    /// Frees the slot of a request whose send failed and charges the
    /// peer it was meant for.
    pub fn report_send_failure(
        &mut self,
        block_hash: &crate::types::Hash,
        peer: &PeerAddr,
        message: String,
        sync_peers: &mut SyncPeers,
    )
        requires
            old(self).wf(),
            old(sync_peers).wf(),
        ensures
            final(self).wf(),
            final(sync_peers).wf(),
            forall|p: PeerAddr|
                peer_count(final(self).recs(), p) <= BLOCKS_REQUEST_PER_PEER,
            has_req_key(old(self).recs(), *block_hash) ==> final(self).recs() == old(
                self,
            ).recs().remove(key_index(old(self).recs(), *block_hash)),
            !has_req_key(old(self).recs(), *block_hash) ==> final(self).recs() == old(self).recs(),
            final(sync_peers).err_of(*peer) == spec_inc_sat(old(sync_peers).err_of(*peer)),
            forall|q: PeerAddr|
                q != *peer ==> final(sync_peers).err_of(q) == old(sync_peers).err_of(q),
            forall|q: PeerAddr| final(sync_peers).ok_of(q) == old(sync_peers).ok_of(q),
    {
        let ghost old_recs = self.recs();
        self.request_tracker.remove_request(block_hash);
        proof {
            assert forall|p: PeerAddr|
                peer_count(self.recs(), p) <= BLOCKS_REQUEST_PER_PEER by {
                if has_req_key(old_recs, *block_hash) {
                    crate::tracker::lemma_peer_count_remove(
                        old_recs,
                        key_index(old_recs, *block_hash),
                        p,
                    );
                }
            }
        }
        sync_peers.report_error_response(peer, message);
    }
}

/// Requests addressed to selected peers are addressed to given peers.
proof fn lemma_requests_to_given_peers(
    out: Seq<BlockRequest>,
    selected: Seq<SyncPeerInfo>,
    peers: Seq<SyncPeerInfo>,
    q: Seq<QueueEntry>,
    required: Capabilities,
    min_height: u64,
)
    requires
        selected == crate::sync_utils::spec_selected_peers(
            peers,
            q,
            required,
            min_height,
            BLOCKS_REQUEST_PER_PEER as int,
        ),
        forall|k: int| 0 <= k < out.len() ==> spec_peer_in(#[trigger] out[k], selected),
    ensures
        forall|k: int| 0 <= k < out.len() ==> spec_peer_in(#[trigger] out[k], peers),
{
    crate::sync_utils::lemma_selected_peers_subset(
        peers,
        q,
        required,
        min_height,
        BLOCKS_REQUEST_PER_PEER as int,
    );
    assert forall|k: int| 0 <= k < out.len() implies spec_peer_in(#[trigger] out[k], peers) by {
        let i = choose|i: int| 0 <= i < selected.len() && selected[i].addr == out[k].peer;
        assert(exists|j: int| 0 <= j < peers.len() && peers[j] == selected[i]);
        let j = choose|j: int| 0 <= j < peers.len() && peers[j] == selected[i];
        assert(peers[j].addr == out[k].peer);
    }
}

} // verus!
