//! Header sync: downloading block headers in batches up to the archive
//! point committed by the header-hash stage, verifying that each batch is
//! contiguous and hash-chained before it is handed to storage. Proof of
//! work and the check against the committed header-hash root are
//! delegated to the outside verifier and chain, which report a verdict.

use vstd::prelude::*;
use crate::header_hashes_sync::HeadersHashSync;
use crate::pibd_params::{
    HEADERS_BATCH_SIZE, SEGMENTS_REQUEST_LIMIT, SEGMENTS_REQUEST_PER_PEER,
    SEGMENT_REQUEST_TIMEOUT_SECS,
};
use crate::segments::pick_segment_peer;
use crate::sync_peers::{spec_inc_sat, SyncPeers};
use crate::sync_utils::{get_sync_peers, SyncRequestResponses};
use crate::tracker::{
    has_req_key, key_index, lemma_peer_count_push, lemma_peer_count_remove, peer_count, retained,
    QueueEntry, RequestRecord, RequestTracker,
};
use crate::types::{Capabilities, PeerAddr, SyncPeerInfo, SyncStatus, Tip, CAPS_HEADER_HIST};

verus! {

/// A batch request for headers from `start_height` on.
#[derive(Clone, Copy, PartialEq, Eq, Structural, Debug)]
pub struct HeaderBatchRequest {
    pub peer: PeerAddr,
    pub start_height: u64,
}

/// What one header-sync tick decided.
pub struct HeaderSyncTick {
    pub response: SyncRequestResponses,
    pub status: Option<SyncStatus>,
    pub requests: Vec<HeaderBatchRequest>,
}

/// The header fields batch verification reads: the header's hash, its
/// parent's hash, and its height.
#[derive(Clone, Copy, PartialEq, Eq, Structural, Debug)]
pub struct HeaderLite {
    pub hash: crate::types::Hash,
    pub prev_hash: crate::types::Hash,
    pub height: u64,
}

/// A batch is contiguous when heights climb one by one and each header
/// names its predecessor's hash as parent.
pub open spec fn spec_batch_contiguous(batch: Seq<HeaderLite>) -> bool {
    forall|i: int|
        0 <= i < batch.len() - 1 ==> (#[trigger] batch[i + 1]).height == batch[i].height + 1
            && batch[i + 1].prev_hash == batch[i].hash
}

/// The height header download aims for: the committed archive point,
/// or the best advertised height before a root is committed.
pub open spec fn spec_header_target(hh: HeadersHashSync, best_height: u64) -> int {
    match hh.committed() {
        Some(c) => c.archive_height as int,
        None => best_height as int,
    }
}

/// What one header tick answers, decided by the hash data, the tips and
/// the peer selection.
pub open spec fn spec_headers_response(
    queue: Seq<QueueEntry>,
    hh: HeadersHashSync,
    header_head: Tip,
    peers: Seq<SyncPeerInfo>,
    best_height: u64,
) -> SyncRequestResponses {
    let caps = Capabilities { bits: CAPS_HEADER_HIST };
    let target = spec_header_target(hh, best_height);
    if !crate::header_hashes_sync::spec_hash_data_ready(hh) {
        SyncRequestResponses::WaitingForHeadersHash
    } else if header_head.height >= best_height {
        SyncRequestResponses::HeadersReady
    } else if !hh.is_pibd_ready() && target > 0 && header_head.height >= target {
        SyncRequestResponses::HeadersPibdReady
    } else if crate::sync_utils::spec_selected_peers(
        peers,
        queue,
        caps,
        header_head.height,
        SEGMENTS_REQUEST_PER_PEER as int,
    ).len() == 0 {
        if crate::sync_utils::spec_excluded_requests(
            peers,
            queue,
            caps,
            header_head.height,
            SEGMENTS_REQUEST_PER_PEER as int,
        ) == 0 {
            SyncRequestResponses::WaitingForPeers
        } else {
            SyncRequestResponses::Syncing
        }
    } else {
        SyncRequestResponses::Syncing
    }
}

/// The header-sync stage.
pub struct HeaderSync {
    tracker: RequestTracker<u64>,
}

impl HeaderSync {
    /// The outstanding batch requests, keyed by start height.
    pub closed spec fn recs(&self) -> Seq<RequestRecord<u64>> {
        self.tracker.recs()
    }

    /// The per-peer depth table.
    pub closed spec fn queue(&self) -> Seq<QueueEntry> {
        self.tracker.queue()
    }

    /// The tracker is well-formed.
    pub closed spec fn tracker_wf(&self) -> bool {
        self.tracker.wf()
    }

    /// Well-formed: the tracker is consistent and no peer owes more than
    /// its quota.
    pub open spec fn wf(&self) -> bool {
        &&& self.tracker_wf()
        &&& forall|p: PeerAddr|
            peer_count(self.recs(), p) <= SEGMENTS_REQUEST_PER_PEER
    }

    /// A fresh stage.
    pub fn new() -> (r: HeaderSync)
        ensures
            r.wf(),
            r.recs().len() == 0,
    {
        let r = HeaderSync { tracker: RequestTracker::new() };
        proof {
            assert forall|p: PeerAddr|
                peer_count(r.recs(), p) <= SEGMENTS_REQUEST_PER_PEER by {
                crate::tracker::lemma_peer_count_le_len(r.recs(), p);
            }
        }
        r
    }

    /// One header-sync tick. Waits for the header-hash stage, reports
    /// `HeadersReady` once the header tip has reached the best peer
    /// height and `HeadersPibdReady` once it has reached the committed
    /// archive point; otherwise it requests the next header batches from
    /// qualified peers, keyed by start height.
    pub fn request(
        &mut self,
        header_head: &Tip,
        headers_hashes: &HeadersHashSync,
        peers: &Vec<SyncPeerInfo>,
        sync_peers: &mut SyncPeers,
        best_height: u64,
        now: u64,
    ) -> (r: HeaderSyncTick)
        requires
            old(self).wf(),
            old(sync_peers).wf(),
        ensures
            final(self).wf(),
            final(sync_peers).wf(),
            r.response != SyncRequestResponses::SyncDone,
            r.response == spec_headers_response(
                old(self).queue(),
                *headers_hashes,
                *header_head,
                peers@,
                best_height,
            ),
            forall|k: int|
                0 <= k < r.requests@.len() ==> (#[trigger] r.requests@[k]).start_height
                    > header_head.height && exists|j: int|
                    0 <= j < peers@.len() && peers@[j].addr == r.requests@[k].peer,
            forall|k1: int, k2: int|
                0 <= k1 < k2 < r.requests@.len() ==> r.requests@[k1].start_height
                    != r.requests@[k2].start_height,
            ({
                let hashes_ok = crate::header_hashes_sync::spec_hash_data_ready(*headers_hashes);
                let target = spec_header_target(*headers_hashes, best_height);
                let download = hashes_ok && header_head.height < best_height && !(
                !headers_hashes.is_pibd_ready() && target > 0 && header_head.height >= target);
                let caps = Capabilities { bits: CAPS_HEADER_HIST };
                let sel = crate::sync_utils::spec_selected_peers(
                    peers@,
                    old(self).queue(),
                    caps,
                    header_head.height,
                    SEGMENTS_REQUEST_PER_PEER as int,
                );
                let ex = crate::sync_utils::spec_excluded_requests(
                    peers@,
                    old(self).queue(),
                    caps,
                    header_head.height,
                    SEGMENTS_REQUEST_PER_PEER as int,
                );
                let base = retained(old(self).recs(), now, SEGMENT_REQUEST_TIMEOUT_SECS);
                &&& (!download ==> *final(self) == *old(self)
                    && *final(sync_peers) == *old(sync_peers) && r.status is None
                    && r.requests@.len() == 0)
                &&& (download ==> r.status == Some(
                    SyncStatus::HeaderSync {
                        current_height: header_head.height,
                        archive_height: target as u64,
                    },
                ))
                &&& (download && sel.len() == 0 ==> *final(self) == *old(self)
                    && *final(sync_peers) == *old(sync_peers) && r.requests@.len() == 0)
                &&& (download && sel.len() > 0 ==> {
                    &&& final(self).recs().len() == base.len() + r.requests@.len()
                    &&& final(self).recs().take(base.len() as int) == base
                    &&& forall|m: int|
                        0 <= m < r.requests@.len() ==> {
                            let rec = #[trigger] final(self).recs()[base.len() + m];
                            rec.key == r.requests@[m].start_height && rec.peer
                                == r.requests@[m].peer && rec.issued_at == now
                        }
                    &&& forall|p: PeerAddr|
                        final(sync_peers).err_of(p) == crate::tracker::spec_add_sat(
                            old(sync_peers).err_of(p),
                            peer_count(old(self).recs(), p) - peer_count(base, p),
                        )
                    &&& forall|p: PeerAddr|
                        final(sync_peers).ok_of(p) == old(sync_peers).ok_of(p)
                    &&& (r.requests@.len() > 0 || crate::tracker::spec_needed_requests(
                        base.len() as int,
                        sel.len() as int,
                        (if ex > usize::MAX as int {
                            usize::MAX as int
                        } else {
                            ex
                        }),
                        SEGMENTS_REQUEST_PER_PEER as int,
                        SEGMENTS_REQUEST_LIMIT as int,
                    ) == 0 || has_req_key(base, (header_head.height + 1) as u64) || (forall|
                        j: int,
                    |
                        0 <= j < sel.len() ==> peer_count(
                            final(self).recs(),
                            (#[trigger] sel[j]).addr,
                        ) >= SEGMENTS_REQUEST_PER_PEER))
                })
            }),
    {
        let hashes_done = headers_hashes.is_complete();
        if !headers_hashes.pibd_ready() && !hashes_done {
            return HeaderSyncTick {
                response: SyncRequestResponses::WaitingForHeadersHash,
                status: None,
                requests: Vec::new(),
            };
        }
        let target: u64 = match headers_hashes.get_committed() {
            Some(c) => c.archive_height,
            None => best_height,
        };
        if header_head.height >= best_height {
            return HeaderSyncTick {
                response: SyncRequestResponses::HeadersReady,
                status: None,
                requests: Vec::new(),
            };
        }
        if !headers_hashes.pibd_ready() && target > 0 && header_head.height >= target {
            return HeaderSyncTick {
                response: SyncRequestResponses::HeadersPibdReady,
                status: None,
                requests: Vec::new(),
            };
        }
        let goal: u64 = if target > header_head.height {
            target
        } else {
            best_height
        };
        let caps = Capabilities { bits: CAPS_HEADER_HIST };
        let table = self.tracker.get_peers_queue_size();
        let (selected, excluded) = get_sync_peers(
            peers,
            SEGMENTS_REQUEST_PER_PEER,
            caps,
            header_head.height,
            &table,
        );
        let status = SyncStatus::HeaderSync {
            current_height: header_head.height,
            archive_height: target,
        };
        if selected.len() == 0 {
            let response = if excluded == 0 {
                SyncRequestResponses::WaitingForPeers
            } else {
                SyncRequestResponses::Syncing
            };
            proof {
                assert(self.recs() == old(self).recs());
                assert(table@ == old(self).queue());
            }
            return HeaderSyncTick { response, status: Some(status), requests: Vec::new() };
        }
        let ghost pre_recs = self.recs();
        self.tracker.retain_expired(now, SEGMENT_REQUEST_TIMEOUT_SECS, sync_peers);
        proof {
            assert forall|p: PeerAddr|
                peer_count(self.recs(), p) <= SEGMENTS_REQUEST_PER_PEER by {
                assert(pre_recs == old(self).recs());
                assert(peer_count(old(self).recs(), p) <= SEGMENTS_REQUEST_PER_PEER);
                crate::tracker::lemma_retained_peer_count_le(
                    pre_recs,
                    now,
                    SEGMENT_REQUEST_TIMEOUT_SECS,
                    p,
                );
            }
        }
        let ghost base_recs = self.recs();
        let excluded_usize: usize = if excluded > usize::MAX as u64 {
            usize::MAX
        } else {
            excluded as usize
        };
        let need = self.tracker.calculate_needed_requests(
            selected.len(),
            excluded_usize,
            SEGMENTS_REQUEST_PER_PEER,
            SEGMENTS_REQUEST_LIMIT,
        );
        let bound: u64 = goal - (header_head.height + 1);
        let mut requests: Vec<HeaderBatchRequest> = Vec::new();
        let mut k: usize = 0;
        let mut emitted: usize = 0;
        let mut stuck = false;
        let mut past_goal = false;
        #[verifier::loop_isolation(false)]
        while k < SEGMENTS_REQUEST_LIMIT && emitted < need && !stuck && !past_goal
            invariant
                self.wf(),
                emitted == requests@.len(),
                requests@.len() <= k,
                self.recs().len() == base_recs.len() + requests@.len(),
                self.recs().take(base_recs.len() as int) == base_recs,
                forall|m: int|
                    0 <= m < requests@.len() ==> {
                        let rec = #[trigger] self.recs()[base_recs.len() + m];
                        rec.key == requests@[m].start_height && rec.peer == requests@[m].peer
                            && rec.issued_at == now
                    },
                forall|m: int|
                    0 <= m < requests@.len() ==> (#[trigger] requests@[m]).start_height
                        > header_head.height && exists|j: int|
                        0 <= j < peers@.len() && peers@[j].addr == requests@[m].peer,
                forall|m: int|
                    0 <= m < requests@.len() ==> has_req_key(
                        self.recs(),
                        (#[trigger] requests@[m]).start_height,
                    ),
                forall|m1: int, m2: int|
                    0 <= m1 < m2 < requests@.len() ==> requests@[m1].start_height
                        != requests@[m2].start_height,
                stuck ==> forall|j: int|
                    0 <= j < selected@.len() ==> peer_count(
                        self.recs(),
                        (#[trigger] selected@[j]).addr,
                    ) >= SEGMENTS_REQUEST_PER_PEER,
                past_goal ==> k > 0,
                requests@.len() == 0 && k > 0 && !stuck ==> has_req_key(
                    base_recs,
                    (header_head.height + 1) as u64,
                ),
            decreases SEGMENTS_REQUEST_LIMIT - k,
        {
            let offset: u64 = (k as u64) * HEADERS_BATCH_SIZE;
            if offset > bound {
                past_goal = true;
                proof {
                    // the first batch start is never past the goal
                    assert(k > 0);
                }
                k += 1;
            } else {
                let start: u64 = header_head.height + 1 + offset;
                if !self.tracker.has_request(&start) {
                    match pick_segment_peer(&self.tracker, &selected, SEGMENTS_REQUEST_PER_PEER) {
                        Some(pi) => {
                            let peer_addr = selected[pi].addr;
                            let label = crate::text::u64_to_string(start);
                            let ghost prev = self.recs();
                            self.tracker.register_request(start, peer_addr, label, now);
                            proof {
                                let rec = self.recs().last();
                                assert forall|p: PeerAddr|
                                    peer_count(self.recs(), p) <= SEGMENTS_REQUEST_PER_PEER by {
                                    lemma_peer_count_push(prev, rec, p);
                                    assert(prev.push(rec) =~= self.recs());
                                }
                                assert(self.recs().take(base_recs.len() as int) =~= base_recs);
                                assert forall|m: int|
                                    0 <= m < requests@.len() implies has_req_key(
                                    self.recs(),
                                    (#[trigger] requests@[m]).start_height,
                                ) by {
                                    let w = choose|w: int|
                                        0 <= w < prev.len() && prev[w].key
                                            == requests@[m].start_height;
                                    assert(self.recs()[w] == prev[w]);
                                }
                                crate::sync_utils::lemma_selected_peers_subset(
                                    peers@,
                                    table@,
                                    caps,
                                    header_head.height,
                                    SEGMENTS_REQUEST_PER_PEER as int,
                                );
                                let j0 = choose|j: int|
                                    0 <= j < peers@.len() && peers@[j] == selected@[pi as int];
                                assert(peers@[j0].addr == peer_addr);
                            }
                            let req = HeaderBatchRequest { peer: peer_addr, start_height: start };
                            requests.push(req);
                            emitted = emitted + 1;
                            proof {
                                let ghost prev2 = prev;
                                assert forall|m1: int, m2: int|
                                    0 <= m1 < m2 < requests@.len() implies requests@[m1].start_height
                                    != requests@[m2].start_height by {
                                    if m2 == requests@.len() - 1 {
                                        assert(has_req_key(prev2, requests@[m1].start_height));
                                    }
                                }
                            }
                        },
                        None => {
                            stuck = true;
                        },
                    }
                } else {
                    proof {
                        if k == 0 {
                            assert(self.recs() =~= base_recs);
                            assert(has_req_key(self.recs(), start));
                            assert(start == (header_head.height + 1) as u64);
                            assert(has_req_key(base_recs, (header_head.height + 1) as u64));
                        }
                    }
                }
                k += 1;
            }
        }
        proof {
            assert(table@ == old(self).queue());
            if requests@.len() == 0 && !stuck && need > 0 {
                assert(has_req_key(base_recs, (header_head.height + 1) as u64));
            }
        }
        HeaderSyncTick {
            response: SyncRequestResponses::Syncing,
            status: Some(status),
            requests,
        }
    }

    /// Whether a header batch is contiguous: heights climb one by one
    /// and each header links to its predecessor.
    pub fn batch_contiguous(headers: &Vec<HeaderLite>) -> (r: bool)
        ensures
            r == spec_batch_contiguous(headers@),
    {
        let n = headers.len();
        let mut i: usize = 0;
        if n < 2 {
            return true;
        }
        while i < n - 1
            invariant
                n == headers@.len(),
                n >= 2,
                0 <= i <= n - 1,
                forall|m: int|
                    0 <= m < i ==> (#[trigger] headers@[m + 1]).height == headers@[m].height + 1
                        && headers@[m + 1].prev_hash == headers@[m].hash,
            decreases n - i,
        {
            let a = headers[i];
            let b = headers[i + 1];
            if !(a.height < u64::MAX && b.height == a.height + 1 && b.prev_hash == a.hash) {
                return false;
            }
            i += 1;
        }
        true
    }

    /// Takes in a header batch report: the batch is accepted exactly
    /// when it is non-empty, contiguous and hash-chained, its proof of
    /// work verified, and its hash chain matched the committed root (the
    /// last two reported by the outside verifier and chain). The sender
    /// is credited or charged, and the batch's request slot is freed.
    pub fn receive_headers(
        &mut self,
        peer: &PeerAddr,
        headers: &Vec<HeaderLite>,
        pow_ok: bool,
        root_ok: bool,
        sync_peers: &mut SyncPeers,
    ) -> (accepted: bool)
        requires
            old(self).wf(),
            old(sync_peers).wf(),
        ensures
            final(self).wf(),
            final(sync_peers).wf(),
            accepted == (headers@.len() > 0 && spec_batch_contiguous(headers@) && pow_ok
                && root_ok),
            accepted ==> final(sync_peers).ok_of(*peer) == spec_inc_sat(
                old(sync_peers).ok_of(*peer),
            ) && forall|q: PeerAddr|
                final(sync_peers).err_of(q) == old(sync_peers).err_of(q),
            !accepted ==> final(sync_peers).err_of(*peer) == spec_inc_sat(
                old(sync_peers).err_of(*peer),
            ) && forall|q: PeerAddr|
                final(sync_peers).ok_of(q) == old(sync_peers).ok_of(q),
            headers@.len() > 0 && has_req_key(old(self).recs(), headers@[0].height)
                ==> final(self).recs() == old(self).recs().remove(
                key_index(old(self).recs(), headers@[0].height),
            ),
    {
        if headers.len() > 0 {
            let start = headers[0].height;
            self.tracker.remove_request(&start);
            proof {
                assert(self.recs() == self.tracker.recs());
                assert forall|p: PeerAddr|
                    peer_count(self.recs(), p) <= SEGMENTS_REQUEST_PER_PEER by {
                    assert(peer_count(old(self).recs(), p) <= SEGMENTS_REQUEST_PER_PEER);
                    if has_req_key(old(self).recs(), start) {
                        lemma_peer_count_remove(
                            old(self).recs(),
                            key_index(old(self).recs(), start),
                            p,
                        );
                    }
                }
            }
        }
        let accepted = headers.len() > 0 && Self::batch_contiguous(headers) && pow_ok && root_ok;
        if accepted {
            sync_peers.report_ok_response(peer);
        } else {
            let msg = String::from_str("bad header batch");
            sync_peers.report_error_response(peer, msg);
        }
        accepted
    }

    /// Drops every outstanding batch request: used when the stage rolls
    /// back.
    pub fn reset(&mut self)
        ensures
            final(self).wf(),
            final(self).recs().len() == 0,
    {
        self.tracker = RequestTracker::new();
        proof {
            assert forall|p: PeerAddr|
                peer_count(self.recs(), p) <= SEGMENTS_REQUEST_PER_PEER by {
                crate::tracker::lemma_peer_count_le_len(self.recs(), p);
            }
        }
    }
}

} // verus!
