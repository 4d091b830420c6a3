//! Segment download plumbing shared by the header-hash and state stages:
//! picking the next missing segments and the peers to ask, under the
//! per-peer and global caps.

use vstd::prelude::*;
use crate::sync_utils::random_index;
use crate::tracker::{
    has_req_key, lemma_peer_count_push, peer_count, QueueEntry, RequestTracker,
};
use crate::types::{PeerAddr, SyncPeerInfo};

verus! {

/// One segment request to put on the wire.
#[derive(Clone, Copy, PartialEq, Eq, Structural, Debug)]
pub struct SegmentRequest {
    pub peer: PeerAddr,
    pub segment_id: u64,
}

/// Whether `b` is addressed to one of `peers`.
pub open spec fn spec_seg_peer_in(b: SegmentRequest, peers: Seq<SyncPeerInfo>) -> bool {
    exists|j: int| 0 <= j < peers.len() && peers[j].addr == b.peer
}

/// Picks the peer to ask next: a random one among those with the
/// smallest queue depth, provided it is under `cap`.
pub(crate) fn pick_segment_peer(
    tracker: &RequestTracker<u64>,
    selected: &Vec<SyncPeerInfo>,
    cap: usize,
) -> (r: Option<usize>)
    requires
        tracker.wf(),
    ensures
        match r {
            Some(i) => i < selected@.len() && peer_count(tracker.recs(), selected@[i as int].addr)
                < cap,
            None => forall|j: int|
                0 <= j < selected@.len() ==> peer_count(
                    tracker.recs(),
                    (#[trigger] selected@[j]).addr,
                ) >= cap,
        },
{
    let n = selected.len();
    if n == 0 {
        return None;
    }
    let table = tracker.get_peers_queue_size();
    let mut best: usize = usize::MAX;
    let mut best_at: usize = 0;
    let mut j: usize = 0;
    while j < n
        invariant
            n == selected@.len(),
            0 <= j <= n,
            tracker.wf(),
            table@ == tracker.queue(),
            j > 0 ==> best_at < n && best as int == crate::sync_utils::depth_lookup(
                table@,
                selected@[best_at as int].addr,
            ),
            j == 0 ==> best == usize::MAX,
            forall|m: int|
                0 <= m < j ==> best as int <= crate::sync_utils::depth_lookup(
                    table@,
                    (#[trigger] selected@[m]).addr,
                ),
        decreases n - j,
    {
        let d = crate::sync_utils::depth_of(&table, &selected[j].addr);
        if j == 0 || d < best {
            best = d;
            best_at = j;
        }
        j += 1;
    }
    if best >= cap {
        proof {
            assert forall|m: int|
                0 <= m < selected@.len() implies peer_count(
                tracker.recs(),
                (#[trigger] selected@[m]).addr,
            ) >= cap by {
                crate::sync_utils::lemma_depth_lookup_tracker(tracker, selected@[m].addr);
            }
        }
        return None;
    }
    let mut cands: Vec<usize> = Vec::new();
    let mut k: usize = 0;
    while k < n
        invariant
            n == selected@.len(),
            0 <= k <= n,
            tracker.wf(),
            table@ == tracker.queue(),
            best < cap,
            best_at < n,
            best as int == crate::sync_utils::depth_lookup(
                table@,
                selected@[best_at as int].addr,
            ),
            forall|m: int|
                0 <= m < cands@.len() ==> (#[trigger] cands@[m]) < n
                    && crate::sync_utils::depth_lookup(
                    table@,
                    selected@[cands@[m] as int].addr,
                ) == best as int,
            k > best_at ==> cands@.len() >= 1,
        decreases n - k,
    {
        let d = crate::sync_utils::depth_of(&table, &selected[k].addr);
        if d == best {
            cands.push(k);
        } else {
            proof {
                if k == best_at {
                    assert(false);
                }
            }
        }
        k += 1;
    }
    let pick = random_index(cands.len());
    let chosen = cands[pick];
    proof {
        crate::sync_utils::lemma_depth_lookup_tracker(tracker, selected@[chosen as int].addr);
    }
    Some(chosen)
}

/// Emits up to `need_request` requests for segments not yet received and
/// not in flight, registering each with the tracker under the key
/// `key_offset + id`. Every request goes to a selected peer whose depth
/// is under `per_peer_cap`, so the cap invariant is kept.
pub fn request_missing_segments(
    tracker: &mut RequestTracker<u64>,
    received: &Vec<bool>,
    selected: &Vec<SyncPeerInfo>,
    need_request: usize,
    per_peer_cap: usize,
    key_offset: u64,
    now: u64,
) -> (r: Vec<SegmentRequest>)
    requires
        old(tracker).wf(),
        forall|p: PeerAddr| peer_count(old(tracker).recs(), p) <= per_peer_cap,
        key_offset + received@.len() <= u64::MAX,
    ensures
        final(tracker).wf(),
        forall|p: PeerAddr| peer_count(final(tracker).recs(), p) <= per_peer_cap,
        final(tracker).next_ask() == old(tracker).next_ask(),
        r@.len() <= need_request,
        final(tracker).recs().len() == old(tracker).recs().len() + r@.len(),
        final(tracker).recs().take(old(tracker).recs().len() as int) == old(tracker).recs(),
        forall|k: int|
            0 <= k < r@.len() ==> {
                let rec = #[trigger] final(tracker).recs()[old(tracker).recs().len() + k];
                rec.key == key_offset + r@[k].segment_id && rec.peer == r@[k].peer
                    && rec.issued_at == now
            },
        forall|k: int| 0 <= k < r@.len() ==> spec_seg_peer_in(#[trigger] r@[k], selected@),
        forall|k: int|
            0 <= k < r@.len() ==> (#[trigger] r@[k]).segment_id < received@.len()
                && !received@[r@[k].segment_id as int] && !has_req_key(
                old(tracker).recs(),
                (key_offset + r@[k].segment_id) as u64,
            ),
        forall|k1: int, k2: int|
            0 <= k1 < k2 < r@.len() ==> r@[k1].segment_id != r@[k2].segment_id,
        r@.len() == 0 ==> *final(tracker) == *old(tracker),
        r@.len() == need_request || (forall|i: int|
            0 <= i < received@.len() ==> received@[i] || has_req_key(
                final(tracker).recs(),
                (key_offset + i) as u64,
            )) || (forall|j: int|
            0 <= j < selected@.len() ==> peer_count(
                final(tracker).recs(),
                (#[trigger] selected@[j]).addr,
            ) >= per_peer_cap),
{
    let ghost start_recs = tracker.recs();
    let mut out: Vec<SegmentRequest> = Vec::new();
    let mut remaining = need_request;
    let n = received.len();
    let mut id: usize = 0;
    let mut stuck = false;
    while id < n && remaining > 0 && !stuck
        invariant
            n == received@.len(),
            key_offset + n <= u64::MAX,
            0 <= id <= n,
            tracker.wf(),
            forall|p: PeerAddr| peer_count(tracker.recs(), p) <= per_peer_cap,
            tracker.next_ask() == old(tracker).next_ask(),
            out@.len() + remaining == need_request,
            tracker.recs().len() == start_recs.len() + out@.len(),
            tracker.recs().take(start_recs.len() as int) == start_recs,
            start_recs == old(tracker).recs(),
            forall|k: int|
                0 <= k < out@.len() ==> {
                    let rec = #[trigger] tracker.recs()[start_recs.len() + k];
                    rec.key == key_offset + out@[k].segment_id && rec.peer == out@[k].peer
                        && rec.issued_at == now
                },
            forall|k: int| 0 <= k < out@.len() ==> spec_seg_peer_in(#[trigger] out@[k], selected@),
            forall|k: int|
                0 <= k < out@.len() ==> (#[trigger] out@[k]).segment_id < received@.len()
                    && !received@[out@[k].segment_id as int] && !has_req_key(
                    start_recs,
                    (key_offset + out@[k].segment_id) as u64,
                ),
            forall|k: int|
                0 <= k < out@.len() ==> has_req_key(
                    tracker.recs(),
                    (key_offset + (#[trigger] out@[k]).segment_id) as u64,
                ),
            forall|k1: int, k2: int|
                0 <= k1 < k2 < out@.len() ==> out@[k1].segment_id != out@[k2].segment_id,
            out@.len() == 0 ==> *tracker == *old(tracker),
            !stuck ==> forall|i: int|
                0 <= i < id ==> received@[i] || has_req_key(
                    tracker.recs(),
                    (key_offset + i) as u64,
                ),
            stuck ==> forall|j: int|
                0 <= j < selected@.len() ==> peer_count(
                    tracker.recs(),
                    (#[trigger] selected@[j]).addr,
                ) >= per_peer_cap,
        decreases n - id,
    {
        let key: u64 = key_offset + (id as u64);
        if !received[id] && !tracker.has_request(&key) {
            match pick_segment_peer(tracker, selected, per_peer_cap) {
                Some(pi) => {
                    let peer_addr = selected[pi].addr;
                    let label = crate::text::u64_to_string(id as u64);
                    let ghost prev = tracker.recs();
                    tracker.register_request(key, peer_addr, label, now);
                    let req = SegmentRequest { peer: peer_addr, segment_id: id as u64 };
                    proof {
                        let rec = tracker.recs().last();
                        assert forall|p: PeerAddr|
                            peer_count(tracker.recs(), p) <= per_peer_cap by {
                            lemma_peer_count_push(prev, rec, p);
                            assert(prev.push(rec) =~= tracker.recs());
                        }
                        assert(tracker.recs().take(start_recs.len() as int) =~= start_recs);
                        assert forall|k: int|
                            0 <= k < out@.len() implies has_req_key(
                            tracker.recs(),
                            (key_offset + (#[trigger] out@[k]).segment_id) as u64,
                        ) by {
                            let w = choose|w: int|
                                0 <= w < prev.len() && prev[w].key == (key_offset
                                    + out@[k].segment_id) as u64;
                            assert(tracker.recs()[w] == prev[w]);
                        }
                        assert(!has_req_key(start_recs, key)) by {
                            if has_req_key(start_recs, key) {
                                let w = choose|w: int|
                                    0 <= w < start_recs.len() && start_recs[w].key == key;
                                assert(prev[w] == start_recs[w]);
                                assert(has_req_key(prev, key));
                            }
                        }
                        assert(spec_seg_peer_in(req, selected@)) by {
                            assert(selected@[pi as int].addr == peer_addr);
                        }
                    }
                    out.push(req);
                    remaining = remaining - 1;
                    proof {
                        let ghost prev2 = prev;
                        assert forall|k1: int, k2: int|
                            0 <= k1 < k2 < out@.len() implies out@[k1].segment_id
                            != out@[k2].segment_id by {
                            if k2 == out@.len() - 1 {
                                assert(has_req_key(
                                    prev2,
                                    (key_offset + out@[k1].segment_id) as u64,
                                ));
                            }
                        }
                        // every id looked at so far is covered: received,
                        // or registered and kept registered
                        assert forall|i: int|
                            0 <= i < id + 1 implies received@[i] || has_req_key(
                            tracker.recs(),
                            (key_offset + i) as u64,
                        ) by {
                            if i < id && !received@[i] && has_req_key(
                                prev2,
                                (key_offset + i) as u64,
                            ) {
                                let w = choose|w: int|
                                    0 <= w < prev2.len() && prev2[w].key == (key_offset
                                        + i) as u64;
                                assert(tracker.recs()[w] == prev2[w]);
                            }
                            if i == id {
                                assert(tracker.recs().last().key == key);
                            }
                        }
                    }
                },
                None => {
                    stuck = true;
                },
            }
        } else {
            proof {
                assert(received@[id as int] || has_req_key(
                    tracker.recs(),
                    (key_offset + id) as u64,
                ));
            }
        }
        id += 1;
    }
    out
}

/// Requests addressed to selected peers are addressed to given peers.
pub proof fn lemma_seg_requests_to_given_peers(
    out: Seq<SegmentRequest>,
    selected: Seq<SyncPeerInfo>,
    peers: Seq<SyncPeerInfo>,
    q: Seq<QueueEntry>,
    required: crate::types::Capabilities,
    min_height: u64,
    cap: int,
)
    requires
        selected == crate::sync_utils::spec_selected_peers(peers, q, required, min_height, cap),
        forall|k: int| 0 <= k < out.len() ==> spec_seg_peer_in(#[trigger] out[k], selected),
    ensures
        forall|k: int| 0 <= k < out.len() ==> spec_seg_peer_in(#[trigger] out[k], peers),
{
    crate::sync_utils::lemma_selected_peers_subset(peers, q, required, min_height, cap);
    assert forall|k: int| 0 <= k < out.len() implies spec_seg_peer_in(#[trigger] out[k], peers) by {
        let i = choose|i: int| 0 <= i < selected.len() && selected[i].addr == out[k].peer;
        assert(exists|j: int| 0 <= j < peers.len() && peers[j] == selected[i]);
        let j = choose|j: int| 0 <= j < peers.len() && peers[j] == selected[i];
        assert(peers[j].addr == out[k].peer);
    }
}

} // verus!
