//! Header-hash sync: committing to an archive header-hash root by
//! majority vote of the peers, then downloading the header-hash MMR in
//! segments under that root. Bans issued over conflicting votes are
//! speculative and can be undone when downstream validation contradicts
//! the committed root.

use vstd::prelude::*;
use crate::pibd_params::{
    HEADERS_HASHES_PER_SEGMENT, ROOT_VOTE_QUORUM, SEGMENTS_REQUEST_LIMIT,
    SEGMENTS_REQUEST_PER_PEER, SEGMENT_REQUEST_TIMEOUT_SECS,
};
use crate::segments::{request_missing_segments, spec_seg_peer_in, SegmentRequest};
use crate::sync_peers::{spec_inc_sat, SyncPeers};
use crate::sync_utils::{get_sync_peers, SyncRequestResponses};
use crate::tracker::{peer_count, QueueEntry, RequestRecord, RequestTracker};
use crate::types::{Capabilities, PeerAddr, SyncPeerInfo, SyncStatus, CAPS_HEADER_HIST};

verus! {

/// Archive heights past this are not taken from peer votes; a protocol
/// guard against absurd allocations.
pub const MAX_ARCHIVE_HEIGHT: u64 = 100000000;

/// One peer's report of the archive header-hash root.
#[derive(Clone, Copy, PartialEq, Eq, Structural, Debug)]
pub struct RootVote {
    pub peer: PeerAddr,
    pub archive_height: u64,
    pub root: crate::types::Hash,
}

/// A peer's report of another archive header, kept for failover when
/// the committed root proves inconsistent.
#[derive(Clone, Copy, PartialEq, Eq, Structural, Debug)]
pub struct AltArchiveHeader {
    pub peer: PeerAddr,
    pub header_hash: crate::types::Hash,
    pub height: u64,
}

/// A root the stage committed to: the archive height, the root, and how
/// many segments the header-hash MMR has under it.
#[derive(Clone, Copy, PartialEq, Eq, Structural, Debug)]
pub struct CommittedRoot {
    pub archive_height: u64,
    pub root: crate::types::Hash,
    pub total_segments: u64,
}

/// What one header-hash tick decided.
pub struct HeadersHashTick {
    pub response: SyncRequestResponses,
    pub status: Option<SyncStatus>,
    /// Peers to ask for their archive header-hash root.
    pub root_queries: Vec<PeerAddr>,
    /// Header-hash MMR segments to request.
    pub segment_requests: Vec<SegmentRequest>,
}

/// How many votes in `s` match height `h` and root `root`.
pub open spec fn count_matching_votes(s: Seq<RootVote>, h: u64, root: crate::types::Hash) -> nat
    decreases s.len(),
{
    if s.len() == 0 {
        0
    } else {
        count_matching_votes(s.drop_last(), h, root) + (if s.last().archive_height == h
            && s.last().root == root {
            1nat
        } else {
            0nat
        })
    }
}

/// Whether `s` holds a vote by `p`.
pub open spec fn has_vote(s: Seq<RootVote>, p: PeerAddr) -> bool {
    exists|i: int| 0 <= i < s.len() && s[i].peer == p
}

/// The index of the vote by `p` in `s`.
pub open spec fn vote_index(s: Seq<RootVote>, p: PeerAddr) -> int {
    choose|i: int| 0 <= i < s.len() && s[i].peer == p
}

/// The vote recorded for `p`.
pub open spec fn vote_of(s: Seq<RootVote>, p: PeerAddr) -> RootVote {
    s[vote_index(s, p)]
}

/// Whether `s` holds a vote by `p` against height `h` and root `root`.
pub open spec fn has_mismatching_vote(
    s: Seq<RootVote>,
    p: PeerAddr,
    h: u64,
    root: crate::types::Hash,
) -> bool {
    exists|i: int|
        0 <= i < s.len() && (#[trigger] s[i]).peer == p && (s[i].archive_height != h || s[i].root
            != root)
}

/// The peers of `s` whose votes disagree with height `h` and root
/// `root`, in vote order.
pub open spec fn mismatching_voters(s: Seq<RootVote>, h: u64, root: crate::types::Hash) -> Seq<
    PeerAddr,
>
    decreases s.len(),
{
    if s.len() == 0 {
        Seq::empty()
    } else {
        let rest = mismatching_voters(s.drop_last(), h, root);
        if s.last().archive_height != h || s.last().root != root {
            rest.push(s.last().peer)
        } else {
            rest
        }
    }
}

/// Whether `p` can be asked for the archive header-hash root: it keeps
/// header history and reports a height.
pub open spec fn spec_root_query_peer(p: SyncPeerInfo) -> bool {
    (p.capabilities.bits & CAPS_HEADER_HIST) == CAPS_HEADER_HIST && p.height > 0
}

/// Whether any of `s` can be asked for the root.
pub open spec fn spec_has_root_query_peer(s: Seq<SyncPeerInfo>) -> bool {
    exists|i: int| 0 <= i < s.len() && spec_root_query_peer(#[trigger] s[i])
}

/// Whether the header-hash data is in: the stage either finished and
/// dropped it, or holds a committed root with every segment received.
pub open spec fn spec_hash_data_ready(hh: HeadersHashSync) -> bool {
    hh.is_pibd_ready() || (match hh.committed() {
        Some(c) => hh.received_count() == c.total_segments,
        None => false,
    })
}

/// Every askable peer without a recorded vote is among the queried
/// addresses.
pub open spec fn spec_root_queries_complete(
    votes: Seq<RootVote>,
    peers: Seq<SyncPeerInfo>,
    queries: Seq<PeerAddr>,
) -> bool {
    forall|j: int|
        0 <= j < peers.len() && spec_root_query_peer(#[trigger] peers[j]) && !has_vote(
            votes,
            peers[j].addr,
        ) ==> exists|k: int| 0 <= k < queries.len() && queries[k] == peers[j].addr
}

/// How many flags in `s` are raised.
pub open spec fn count_true(s: Seq<bool>) -> nat
    decreases s.len(),
{
    if s.len() == 0 {
        0
    } else {
        count_true(s.drop_last()) + (if s.last() {
            1nat
        } else {
            0nat
        })
    }
}

proof fn lemma_count_true_update(s: Seq<bool>, i: int)
    requires
        0 <= i < s.len(),
        !s[i],
    ensures
        count_true(s.update(i, true)) == count_true(s) + 1,
    decreases s.len(),
{
    if i == s.len() - 1 {
        assert(s.update(i, true).drop_last() =~= s.drop_last());
        assert(s.update(i, true).last());
    } else {
        assert(s.update(i, true).drop_last() =~= s.drop_last().update(i, true));
        assert(s.update(i, true).last() == s.last());
        lemma_count_true_update(s.drop_last(), i);
    }
}

proof fn lemma_count_true_le_len(s: Seq<bool>)
    ensures
        count_true(s) <= s.len(),
    decreases s.len(),
{
    if s.len() > 0 {
        lemma_count_true_le_len(s.drop_last());
    }
}

/// The header-hash sync stage.
pub struct HeadersHashSync {
    committed: Option<CommittedRoot>,
    votes: Vec<RootVote>,
    banned_for_vote: Vec<PeerAddr>,
    tracker: RequestTracker<u64>,
    received: Vec<bool>,
    received_count: u64,
    pibd_ready: bool,
    alt_headers: Vec<AltArchiveHeader>,
}

impl HeadersHashSync {
    /// The committed root, if a quorum was reached.
    pub closed spec fn committed(&self) -> Option<CommittedRoot> {
        self.committed
    }

    /// The votes received so far, one per peer.
    pub closed spec fn votes(&self) -> Seq<RootVote> {
        self.votes@
    }

    /// The peers charged for conflicting votes.
    pub closed spec fn banned(&self) -> Seq<PeerAddr> {
        self.banned_for_vote@
    }

    /// The outstanding segment requests.
    pub closed spec fn recs(&self) -> Seq<RequestRecord<u64>> {
        self.tracker.recs()
    }

    /// The per-peer depth table.
    pub closed spec fn queue(&self) -> Seq<QueueEntry> {
        self.tracker.queue()
    }

    /// Which segments have arrived.
    pub closed spec fn received(&self) -> Seq<bool> {
        self.received@
    }

    /// How many segments have arrived.
    pub closed spec fn received_count(&self) -> int {
        self.received_count as int
    }

    /// Whether the headers built on this stage are done and the hash
    /// data was dropped.
    pub closed spec fn is_pibd_ready(&self) -> bool {
        self.pibd_ready
    }

    /// Well-formed: the tracker is consistent, depths are capped, one
    /// vote per peer, and the received flags match the committed root.
    pub open spec fn wf(&self) -> bool {
        &&& self.tracker_wf()
        &&& forall|p: PeerAddr|
            peer_count(self.recs(), p) <= SEGMENTS_REQUEST_PER_PEER
        &&& forall|i: int, j: int|
            0 <= i < j < self.votes().len() ==> self.votes()[i].peer != self.votes()[j].peer
        &&& self.received_count() == count_true(self.received())
        &&& match self.committed() {
            Some(c) => self.received().len() == c.total_segments && c.archive_height
                <= MAX_ARCHIVE_HEIGHT && c.total_segments == c.archive_height
                / HEADERS_HASHES_PER_SEGMENT + 1,
            None => self.received().len() == 0,
        }
    }

    /// The tracker is well-formed.
    pub closed spec fn tracker_wf(&self) -> bool {
        self.tracker.wf()
    }

    /// A fresh stage, waiting for root votes.
    pub fn new() -> (r: HeadersHashSync)
        ensures
            r.wf(),
            r.committed() is None,
            r.votes().len() == 0,
            r.recs().len() == 0,
            !r.is_pibd_ready(),
    {
        let r = HeadersHashSync {
            committed: None,
            votes: Vec::new(),
            banned_for_vote: Vec::new(),
            tracker: RequestTracker::new(),
            received: Vec::new(),
            received_count: 0,
            pibd_ready: false,
            alt_headers: Vec::new(),
        };
        proof {
            assert forall|p: PeerAddr|
                peer_count(r.recs(), p) <= SEGMENTS_REQUEST_PER_PEER by {
                crate::tracker::lemma_peer_count_le_len(r.recs(), p);
            }
        }
        r
    }

    /// Takes in one peer's root report. Before a root is committed, the
    /// first vote of each peer is recorded, and a quorum of matching
    /// votes commits that root; the peers whose votes disagree with the
    /// newly committed root are charged. After a commitment, a
    /// conflicting report charges its peer.
    pub fn receive_headers_hash_response(
        &mut self,
        peer: &PeerAddr,
        archive_height: u64,
        headers_hash_root: crate::types::Hash,
        sync_peers: &mut SyncPeers,
    )
        requires
            old(self).wf(),
            old(sync_peers).wf(),
        ensures
            final(self).wf(),
            final(sync_peers).wf(),
            final(self).is_pibd_ready() == old(self).is_pibd_ready(),
            old(self).committed() is Some ==> final(self).committed() == old(self).committed()
                && final(self).votes() == old(self).votes(),
            old(self).committed() is Some && !old(self).is_pibd_ready() ==> {
                let c = old(self).committed()->Some_0;
                &&& (c.archive_height == archive_height && c.root == headers_hash_root
                    ==> *final(self) == *old(self) && *final(sync_peers) == *old(sync_peers))
                &&& (!(c.archive_height == archive_height && c.root == headers_hash_root)
                    ==> final(sync_peers).err_of(*peer) == spec_inc_sat(
                    old(sync_peers).err_of(*peer),
                ) && (forall|q: PeerAddr|
                    q != *peer ==> final(sync_peers).err_of(q) == old(sync_peers).err_of(q))
                    && final(self).banned() == old(self).banned().push(*peer))
            },
            old(self).committed() is None && (old(self).is_pibd_ready() || has_vote(
                old(self).votes(),
                *peer,
            ) || archive_height > MAX_ARCHIVE_HEIGHT) ==> *final(self) == *old(self)
                && *final(sync_peers) == *old(sync_peers),
            old(self).committed() is None && !old(self).is_pibd_ready() && !has_vote(
                old(self).votes(),
                *peer,
            ) && archive_height <= MAX_ARCHIVE_HEIGHT ==> {
                let vote = RootVote { peer: *peer, archive_height, root: headers_hash_root };
                let votes2 = old(self).votes().push(vote);
                &&& final(self).votes() == votes2
                &&& (count_matching_votes(votes2, archive_height, headers_hash_root)
                    >= ROOT_VOTE_QUORUM ==> final(self).committed() == Some(
                    CommittedRoot {
                        archive_height,
                        root: headers_hash_root,
                        total_segments: (archive_height / HEADERS_HASHES_PER_SEGMENT + 1) as u64,
                    },
                ))
                &&& (count_matching_votes(votes2, archive_height, headers_hash_root)
                    < ROOT_VOTE_QUORUM ==> final(self).committed() is None && *final(sync_peers)
                    == *old(sync_peers) && final(self).banned() == old(self).banned())
                &&& (count_matching_votes(votes2, archive_height, headers_hash_root)
                    >= ROOT_VOTE_QUORUM ==> {
                    &&& final(self).banned() == old(self).banned() + mismatching_voters(
                        votes2,
                        archive_height,
                        headers_hash_root,
                    )
                    &&& forall|q: PeerAddr|
                        final(sync_peers).err_of(q) == (
                        if has_mismatching_vote(votes2, q, archive_height, headers_hash_root) {
                            spec_inc_sat(old(sync_peers).err_of(q))
                        } else {
                            old(sync_peers).err_of(q)
                        })
                })
            },
    {
        if self.pibd_ready {
            return ;
        }
        match &self.committed {
            Some(c) => {
                if !(c.archive_height == archive_height && c.root.w0 == headers_hash_root.w0
                    && c.root.w1 == headers_hash_root.w1 && c.root.w2 == headers_hash_root.w2
                    && c.root.w3 == headers_hash_root.w3) {
                    let msg = String::from_str("conflicting headers hash root");
                    sync_peers.report_error_response(peer, msg);
                    self.banned_for_vote.push(*peer);
                }
            },
            None => {
                if archive_height > MAX_ARCHIVE_HEIGHT {
                    return ;
                }
                if self.has_vote_from(peer) {
                    return ;
                }
                let vote = RootVote { peer: *peer, archive_height, root: headers_hash_root };
                self.votes.push(vote);
                proof {
                    assert(self.recs() == old(self).recs());
                    assert forall|i: int, j: int|
                        0 <= i < j < self.votes().len() implies self.votes()[i].peer
                        != self.votes()[j].peer by {
                        if j == self.votes().len() - 1 {
                            assert(self.votes()[i] == old(self).votes()[i]);
                            if old(self).votes()[i].peer == *peer {
                                assert(has_vote(old(self).votes(), *peer));
                            }
                        }
                    }
                }
                let matching = self.count_matching(archive_height, &headers_hash_root);
                if matching >= ROOT_VOTE_QUORUM {
                    let total = archive_height / HEADERS_HASHES_PER_SEGMENT + 1;
                    self.committed = Some(
                        CommittedRoot { archive_height, root: headers_hash_root, total_segments: total },
                    );
                    let mut flags: Vec<bool> = Vec::new();
                    let mut i: u64 = 0;
                    #[verifier::loop_isolation(false)]
                    while i < total
                        invariant
                            0 <= i <= total,
                            flags@.len() == i,
                            count_true(flags@) == 0,
                            forall|j: int| 0 <= j < i ==> !flags@[j],
                        decreases total - i,
                    {
                        let ghost pf = flags@;
                        flags.push(false);
                        proof {
                            assert(flags@.drop_last() =~= pf);
                        }
                        i += 1;
                    }
                    self.received = flags;
                    self.received_count = 0;
                    // charge the peers whose recorded votes disagree
                    let n = self.votes.len();
                    let mut newly_banned: Vec<PeerAddr> = Vec::new();
                    let mut k: usize = 0;
                    #[verifier::loop_isolation(false)]
                    while k < n
                        invariant
                            0 <= k <= n,
                            sync_peers.wf(),
                            newly_banned@ == mismatching_voters(
                                self.votes@.take(k as int),
                                archive_height,
                                headers_hash_root,
                            ),
                            forall|q: PeerAddr|
                                sync_peers.err_of(q) == (if has_mismatching_vote(
                                    self.votes@.take(k as int),
                                    q,
                                    archive_height,
                                    headers_hash_root,
                                ) {
                                    spec_inc_sat(old(sync_peers).err_of(q))
                                } else {
                                    old(sync_peers).err_of(q)
                                }),
                        decreases n - k,
                    {
                        proof {
                            assert(self.votes@.take(k + 1).drop_last() =~= self.votes@.take(
                                k as int,
                            ));
                            assert(self.votes@.take(k + 1).last() == self.votes@[k as int]);
                        }
                        let v = self.votes[k];
                        if !(v.archive_height == archive_height && v.root == headers_hash_root) {
                            let msg = String::from_str("outvoted headers hash root");
                            proof {
                                // one vote per peer: this peer was not charged yet
                                assert(!has_mismatching_vote(
                                    self.votes@.take(k as int),
                                    v.peer,
                                    archive_height,
                                    headers_hash_root,
                                )) by {
                                    if has_mismatching_vote(
                                        self.votes@.take(k as int),
                                        v.peer,
                                        archive_height,
                                        headers_hash_root,
                                    ) {
                                        let w = choose|w: int|
                                            0 <= w < k && (#[trigger] self.votes@.take(
                                                k as int,
                                            )[w]).peer == v.peer && (self.votes@.take(
                                                k as int,
                                            )[w].archive_height != archive_height
                                                || self.votes@.take(k as int)[w].root
                                                != headers_hash_root);
                                        assert(self.votes@[w].peer != self.votes@[k as int].peer);
                                    }
                                }
                            }
                            sync_peers.report_error_response(&v.peer, msg);
                            newly_banned.push(v.peer);
                        }
                        proof {
                            assert forall|q: PeerAddr|
                                sync_peers.err_of(q) == (if has_mismatching_vote(
                                    self.votes@.take(k + 1),
                                    q,
                                    archive_height,
                                    headers_hash_root,
                                ) {
                                    spec_inc_sat(old(sync_peers).err_of(q))
                                } else {
                                    old(sync_peers).err_of(q)
                                }) by {
                                if has_mismatching_vote(
                                    self.votes@.take(k + 1),
                                    q,
                                    archive_height,
                                    headers_hash_root,
                                ) && q != self.votes@[k as int].peer {
                                    let w = choose|w: int|
                                        0 <= w < k + 1 && (#[trigger] self.votes@.take(k + 1)[w]).peer
                                            == q && (self.votes@.take(k + 1)[w].archive_height
                                            != archive_height || self.votes@.take(k + 1)[w].root
                                            != headers_hash_root);
                                    assert(w < k);
                                    assert(self.votes@.take(k as int)[w] == self.votes@.take(
                                        k + 1,
                                    )[w]);
                                }
                                if has_mismatching_vote(
                                    self.votes@.take(k as int),
                                    q,
                                    archive_height,
                                    headers_hash_root,
                                ) {
                                    let w = choose|w: int|
                                        0 <= w < k && (#[trigger] self.votes@.take(
                                            k as int,
                                        )[w]).peer == q && (self.votes@.take(
                                            k as int,
                                        )[w].archive_height != archive_height || self.votes@.take(
                                            k as int,
                                        )[w].root != headers_hash_root);
                                    assert(self.votes@.take(k + 1)[w] == self.votes@.take(
                                        k as int,
                                    )[w]);
                                }
                            }
                        }
                        k += 1;
                    }
                    proof {
                        assert(self.votes@.take(n as int) =~= self.votes@);
                    }
                    self.banned_for_vote.append(&mut newly_banned);
                }
                proof {
                    assert(self.recs() == old(self).recs());
                    assert forall|p: PeerAddr|
                        peer_count(self.recs(), p) <= SEGMENTS_REQUEST_PER_PEER by {
                        assert(peer_count(old(self).recs(), p) <= SEGMENTS_REQUEST_PER_PEER);
                    }
                }
            },
        }
    }

    /// Whether `peer` has voted already.
    fn has_vote_from(&self, peer: &PeerAddr) -> (r: bool)
        ensures
            r == has_vote(self.votes(), *peer),
    {
        let n = self.votes.len();
        let mut i: usize = 0;
        while i < n
            invariant
                n == self.votes@.len(),
                0 <= i <= n,
                forall|j: int| 0 <= j < i ==> self.votes@[j].peer != *peer,
            decreases n - i,
        {
            if self.votes[i].peer == *peer {
                proof {
                    assert(self.votes@[i as int].peer == *peer);
                }
                return true;
            }
            i += 1;
        }
        false
    }

    /// How many recorded votes match the given height and root.
    fn count_matching(&self, archive_height: u64, root: &crate::types::Hash) -> (r: usize)
        ensures
            r == count_matching_votes(self.votes(), archive_height, *root),
    {
        let n = self.votes.len();
        let mut count: usize = 0;
        let mut i: usize = 0;
        while i < n
            invariant
                n == self.votes@.len(),
                0 <= i <= n,
                count == count_matching_votes(self.votes@.take(i as int), archive_height, *root),
                count <= i,
            decreases n - i,
        {
            proof {
                assert(self.votes@.take(i + 1).drop_last() =~= self.votes@.take(i as int));
                assert(self.votes@.take(i + 1).last() == self.votes@[i as int]);
            }
            let v = self.votes[i];
            if v.archive_height == archive_height && v.root == *root {
                count += 1;
            }
            i += 1;
        }
        proof {
            assert(self.votes@.take(n as int) =~= self.votes@);
        }
        count
    }

    /// One header-hash tick. Before commitment the stage asks peers that
    /// have not voted yet for their root; after commitment it downloads
    /// the missing segments; once every segment arrived it reports
    /// `HeadersHashReady`, and `HeadersPibdReady` after the hash data was
    /// dropped.
    #[verifier::rlimit(60)]
    pub fn request(
        &mut self,
        peers: &Vec<SyncPeerInfo>,
        sync_peers: &mut SyncPeers,
        best_height: u64,
        now: u64,
    ) -> (r: HeadersHashTick)
        requires
            old(self).wf(),
            old(sync_peers).wf(),
        ensures
            final(self).wf(),
            final(sync_peers).wf(),
            r.response != SyncRequestResponses::SyncDone,
            final(self).committed() == old(self).committed(),
            final(self).is_pibd_ready() == old(self).is_pibd_ready(),
            final(self).received() == old(self).received(),
            final(self).received_count() == old(self).received_count(),
            final(self).votes() == old(self).votes(),
            old(self).is_pibd_ready() ==> r.response
                == SyncRequestResponses::HeadersPibdReady && *final(self) == *old(self)
                && *final(sync_peers) == *old(sync_peers),
            !old(self).is_pibd_ready() && old(self).committed() is None ==> *final(self) == *old(
                self,
            ) && *final(sync_peers) == *old(sync_peers) && r.response == (
            if spec_has_root_query_peer(peers@) {
                SyncRequestResponses::Syncing
            } else {
                SyncRequestResponses::WaitingForPeers
            }) && (forall|k: int|
                0 <= k < r.root_queries@.len() ==> !has_vote(
                    old(self).votes(),
                    #[trigger] r.root_queries@[k],
                )) && spec_root_queries_complete(old(self).votes(), peers@, r.root_queries@),
            !old(self).is_pibd_ready() && old(self).committed() is Some ==> {
                let c = old(self).committed()->Some_0;
                &&& final(self).committed() == old(self).committed()
                &&& (old(self).received_count() == c.total_segments ==> r.response
                    == SyncRequestResponses::HeadersHashReady && final(self).recs() == old(
                    self,
                ).recs())
                &&& (old(self).received_count() != c.total_segments ==> r.response
                    == SyncRequestResponses::Syncing && r.status == Some(
                    SyncStatus::HeaderHashSync {
                        completed_blocks: old(self).received_count() as u64,
                        total_blocks: c.total_segments,
                    },
                ) && forall|k: int|
                    0 <= k < r.segment_requests@.len() ==> (
                    #[trigger] r.segment_requests@[k]).segment_id < c.total_segments
                        && !old(self).received()[r.segment_requests@[k].segment_id as int]
                        && spec_seg_peer_in(r.segment_requests@[k], peers@))
                &&& (old(self).received_count() != c.total_segments ==> {
                    let caps = Capabilities { bits: CAPS_HEADER_HIST };
                    let sel = crate::sync_utils::spec_selected_peers(
                        peers@,
                        old(self).queue(),
                        caps,
                        0,
                        SEGMENTS_REQUEST_PER_PEER as int,
                    );
                    let ex = crate::sync_utils::spec_excluded_requests(
                        peers@,
                        old(self).queue(),
                        caps,
                        0,
                        SEGMENTS_REQUEST_PER_PEER as int,
                    );
                    let base = crate::tracker::retained(
                        old(self).recs(),
                        now,
                        SEGMENT_REQUEST_TIMEOUT_SECS,
                    );
                    sel.len() > 0 ==> (r.segment_requests@.len() > 0
                        || crate::tracker::spec_needed_requests(
                        base.len() as int,
                        sel.len() as int,
                        (if ex > usize::MAX as int {
                            usize::MAX as int
                        } else {
                            ex
                        }),
                        SEGMENTS_REQUEST_PER_PEER as int,
                        SEGMENTS_REQUEST_LIMIT as int,
                    ) == 0 || (forall|i: int|
                        0 <= i < old(self).received().len() ==> old(self).received()[i]
                            || crate::tracker::has_req_key(final(self).recs(), i as u64)) || (
                    forall|j: int|
                        0 <= j < sel.len() ==> crate::tracker::peer_count(
                            final(self).recs(),
                            (#[trigger] sel[j]).addr,
                        ) >= SEGMENTS_REQUEST_PER_PEER))
                })
            },
    {
        if self.pibd_ready {
            return HeadersHashTick {
                response: SyncRequestResponses::HeadersPibdReady,
                status: None,
                root_queries: Vec::new(),
                segment_requests: Vec::new(),
            };
        }
        let caps = Capabilities { bits: CAPS_HEADER_HIST };
        match &self.committed {
            None => {
                // ask every qualified peer that has not voted yet
                let mut root_queries: Vec<PeerAddr> = Vec::new();
                let n = peers.len();
                let mut i: usize = 0;
                let mut any_qualified = false;
                #[verifier::loop_isolation(false)]
                while i < n
                    invariant
                        0 <= i <= n,
                        any_qualified == spec_has_root_query_peer(peers@.take(i as int)),
                        forall|k: int|
                            0 <= k < root_queries@.len() ==> !has_vote(
                                self.votes(),
                                #[trigger] root_queries@[k],
                            ),
                        forall|j: int|
                            0 <= j < i && spec_root_query_peer(#[trigger] peers@[j]) && !has_vote(
                                self.votes(),
                                peers@[j].addr,
                            ) ==> exists|k: int|
                                0 <= k < root_queries@.len() && root_queries@[k] == peers@[j].addr,
                    decreases n - i,
                {
                    proof {
                        assert(peers@.take(i + 1).drop_last() =~= peers@.take(i as int));
                        assert(peers@.take(i + 1).last() == peers@[i as int]);
                        assert forall|m: int|
                            0 <= m < peers@.take(i as int).len() implies peers@.take(
                            i as int,
                        )[m] == peers@.take(i + 1)[m] by {}
                    }
                    let p = peers[i];
                    let ghost prev_queries = root_queries@;
                    if p.capabilities.contains(caps) && p.height > 0 {
                        any_qualified = true;
                        proof {
                            assert(spec_root_query_peer(peers@.take(i + 1)[i as int]));
                        }
                        if !self.has_vote_from(&p.addr) {
                            root_queries.push(p.addr);
                        }
                    }
                    proof {
                        if !spec_has_root_query_peer(peers@.take(i + 1)) {
                            assert(!spec_root_query_peer(peers@.take(i + 1)[i as int]));
                            if spec_has_root_query_peer(peers@.take(i as int)) {
                                let w = choose|w: int|
                                    0 <= w < i && spec_root_query_peer(
                                        #[trigger] peers@.take(i as int)[w],
                                    );
                                assert(spec_root_query_peer(peers@.take(i + 1)[w]));
                            }
                        }
                        assert forall|j: int|
                            0 <= j < i + 1 && spec_root_query_peer(#[trigger] peers@[j])
                                && !has_vote(self.votes(), peers@[j].addr) implies exists|k: int|
                            0 <= k < root_queries@.len() && root_queries@[k] == peers@[j].addr by {
                            if j < i {
                                let k = choose|k: int|
                                    0 <= k < prev_queries.len() && prev_queries[k]
                                        == peers@[j].addr;
                                assert(root_queries@[k] == peers@[j].addr);
                            } else {
                                assert(root_queries@.last() == peers@[i as int].addr);
                            }
                        }
                    }
                    i += 1;
                }
                proof {
                    assert(peers@.take(n as int) =~= peers@);
                    assert(*self == *old(self));
                    assert(self.wf());
                    assert(spec_root_queries_complete(
                        old(self).votes(),
                        peers@,
                        root_queries@,
                    )) by {
                        assert forall|j: int|
                            0 <= j < peers@.len() && spec_root_query_peer(#[trigger] peers@[j])
                                && !has_vote(old(self).votes(), peers@[j].addr) implies exists|
                            k: int,
                        | 0 <= k < root_queries@.len() && root_queries@[k] == peers@[j].addr by {
                            assert(self.votes() == old(self).votes());
                            assert(!has_vote(self.votes(), peers@[j].addr));
                        }
                    }
                }
                let response = if !any_qualified {
                    SyncRequestResponses::WaitingForPeers
                } else {
                    SyncRequestResponses::Syncing
                };
                HeadersHashTick {
                    response,
                    status: None,
                    root_queries,
                    segment_requests: Vec::new(),
                }
            },
            Some(c) => {
                let total = c.total_segments;
                proof {
                    lemma_count_true_le_len(self.received@);
                }
                if self.received_count >= total {
                    return HeadersHashTick {
                        response: SyncRequestResponses::HeadersHashReady,
                        status: None,
                        root_queries: Vec::new(),
                        segment_requests: Vec::new(),
                    };
                }
                let table = self.tracker.get_peers_queue_size();
                let (selected, excluded) = get_sync_peers(
                    peers,
                    SEGMENTS_REQUEST_PER_PEER,
                    caps,
                    0,
                    &table,
                );
                let status = SyncStatus::HeaderHashSync {
                    completed_blocks: self.received_count,
                    total_blocks: total,
                };
                if selected.len() == 0 {
                    return HeadersHashTick {
                        response: SyncRequestResponses::Syncing,
                        status: Some(status),
                        root_queries: Vec::new(),
                        segment_requests: Vec::new(),
                    };
                }
                let ghost pre_recs = self.recs();
                self.tracker.retain_expired(now, SEGMENT_REQUEST_TIMEOUT_SECS, sync_peers);
                proof {
                    assert forall|p: PeerAddr|
                        peer_count(self.recs(), p) <= SEGMENTS_REQUEST_PER_PEER by {
                        assert(pre_recs == old(self).recs());
                        assert(peer_count(old(self).recs(), p) <= SEGMENTS_REQUEST_PER_PEER);
                        crate::tracker::lemma_retained_peer_count_le(
                            pre_recs,
                            now,
                            SEGMENT_REQUEST_TIMEOUT_SECS,
                            p,
                        );
                    }
                }
                let excluded_usize: usize = if excluded > usize::MAX as u64 {
                    usize::MAX
                } else {
                    excluded as usize
                };
                let need = self.tracker.calculate_needed_requests(
                    selected.len(),
                    excluded_usize,
                    SEGMENTS_REQUEST_PER_PEER,
                    SEGMENTS_REQUEST_LIMIT,
                );
                let segment_requests = if need > 0 {
                    proof {
                        assert(self.recs() == self.tracker.recs());
                        assert forall|p: PeerAddr|
                            peer_count(self.tracker.recs(), p)
                                <= SEGMENTS_REQUEST_PER_PEER by {
                            assert(peer_count(self.recs(), p) <= SEGMENTS_REQUEST_PER_PEER);
                        }
                    }
                    let reqs = request_missing_segments(
                        &mut self.tracker,
                        &self.received,
                        &selected,
                        need,
                        SEGMENTS_REQUEST_PER_PEER,
                        0,
                        now,
                    );
                    proof {
                        crate::segments::lemma_seg_requests_to_given_peers(
                            reqs@,
                            selected@,
                            peers@,
                            table@,
                            caps,
                            0,
                            SEGMENTS_REQUEST_PER_PEER as int,
                        );
                    }
                    reqs
                } else {
                    Vec::new()
                };
                proof {
                    assert(self.recs() == self.tracker.recs());
                    assert(self.votes() == old(self).votes());
                    assert(self.received() == old(self).received());
                    assert(self.received_count() == old(self).received_count());
                    assert(self.committed() == old(self).committed());
                    assert(self.tracker.wf());
                    assert forall|p: PeerAddr|
                        peer_count(self.recs(), p) <= SEGMENTS_REQUEST_PER_PEER by {
                        assert(peer_count(self.tracker.recs(), p) <= SEGMENTS_REQUEST_PER_PEER);
                    }
                    assert forall|i: int, j: int|
                        0 <= i < j < self.votes().len() implies self.votes()[i].peer
                        != self.votes()[j].peer by {
                        assert(old(self).votes()[i].peer != old(self).votes()[j].peer);
                    }
                }
                HeadersHashTick {
                    response: SyncRequestResponses::Syncing,
                    status: Some(status),
                    root_queries: Vec::new(),
                    segment_requests,
                }
            },
        }
    }

    /// Takes in one header-hash segment report. A tracked segment under
    /// the committed root frees its slot; a valid one is recorded and
    /// credits its sender, an invalid one charges it.
    pub fn receive_header_hashes_segment(
        &mut self,
        peer: &PeerAddr,
        header_hashes_root: &crate::types::Hash,
        segment_id: u64,
        valid: bool,
        sync_peers: &mut SyncPeers,
    )
        requires
            old(self).wf(),
            old(sync_peers).wf(),
        ensures
            final(self).wf(),
            final(sync_peers).wf(),
            final(self).committed() == old(self).committed(),
            final(self).is_pibd_ready() == old(self).is_pibd_ready(),
            final(self).received_count() >= old(self).received_count(),
            ({
                let in_flight = (match old(self).committed() {
                    Some(c) => c.root == *header_hashes_root,
                    None => false,
                }) && crate::tracker::has_req_key(old(self).recs(), segment_id);
                &&& (!in_flight ==> *final(self) == *old(self) && *final(sync_peers) == *old(
                    sync_peers,
                ))
                &&& (in_flight ==> final(self).recs() == old(self).recs().remove(
                    crate::tracker::key_index(old(self).recs(), segment_id),
                ))
                &&& (in_flight && valid ==> final(sync_peers).ok_of(*peer) == spec_inc_sat(
                    old(sync_peers).ok_of(*peer),
                ) && (forall|q: PeerAddr|
                    final(sync_peers).err_of(q) == old(sync_peers).err_of(q)) && (segment_id
                    < old(self).received().len() && !old(self).received()[segment_id as int]
                    ==> final(self).received_count() == old(self).received_count() + 1
                        && final(self).received() == old(self).received().update(
                        segment_id as int,
                        true,
                    )))
                &&& (in_flight && !valid ==> final(sync_peers).err_of(*peer) == spec_inc_sat(
                    old(sync_peers).err_of(*peer),
                ) && (forall|q: PeerAddr|
                    final(sync_peers).ok_of(q) == old(sync_peers).ok_of(q))
                    && final(self).received() == old(self).received())
            }),
    {
        let is_tracked = self.tracker.has_request(&segment_id);
        let root_matches = match &self.committed {
            Some(c) => c.root.w0 == header_hashes_root.w0 && c.root.w1 == header_hashes_root.w1
                && c.root.w2 == header_hashes_root.w2 && c.root.w3 == header_hashes_root.w3,
            None => false,
        };
        if !(is_tracked && root_matches) {
            return ;
        }
        self.tracker.remove_request(&segment_id);
        proof {
            assert(self.recs() == self.tracker.recs());
            assert forall|p: PeerAddr|
                peer_count(self.tracker.recs(), p) <= SEGMENTS_REQUEST_PER_PEER by {
                assert(peer_count(old(self).recs(), p) <= SEGMENTS_REQUEST_PER_PEER);
                crate::tracker::lemma_peer_count_remove(
                    old(self).recs(),
                    crate::tracker::key_index(old(self).recs(), segment_id),
                    p,
                );
            }
        }
        if valid {
            if segment_id < self.received.len() as u64 {
                let idx = segment_id as usize;
                if !self.received[idx] {
                    let ghost flags = self.received@;
                    self.received.set(idx, true);
                    proof {
                        lemma_count_true_update(flags, idx as int);
                        lemma_count_true_le_len(flags);
                    }
                    self.received_count = self.received_count + 1;
                }
            }
            sync_peers.report_ok_response(peer);
        } else {
            let msg = String::from_str("bad headers hash segment");
            sync_peers.report_error_response(peer, msg);
        }
        proof {
            assert(self.recs() == self.tracker.recs());
            assert(self.votes() == old(self).votes());
            assert forall|p: PeerAddr|
                peer_count(self.recs(), p) <= SEGMENTS_REQUEST_PER_PEER by {
                assert(peer_count(self.tracker.recs(), p) <= SEGMENTS_REQUEST_PER_PEER);
            }
            assert forall|i: int, j: int|
                0 <= i < j < self.votes().len() implies self.votes()[i].peer
                != self.votes()[j].peer by {
                assert(old(self).votes()[i].peer != old(self).votes()[j].peer);
            }
        }
    }

    /// Undoes the speculative bans handed out over root votes and drops
    /// the commitment, so the vote can run again: used when downstream
    /// validation contradicts the committed root.
    pub fn reset_ban_commited_to_hash(&mut self, sync_peers: &mut SyncPeers)
        requires
            old(self).wf(),
            old(sync_peers).wf(),
        ensures
            final(self).wf(),
            final(sync_peers).wf(),
            final(self).committed() is None,
            final(self).votes().len() == 0,
            final(self).banned().len() == 0,
            final(self).recs().len() == 0,
            final(self).received().len() == 0,
            forall|q: PeerAddr|
                old(self).banned().contains(q) ==> final(sync_peers).err_of(q) == 0
                    && !final(sync_peers).ban_of(q),
            forall|q: PeerAddr|
                !old(self).banned().contains(q) ==> final(sync_peers).err_of(q) == old(
                    sync_peers,
                ).err_of(q),
    {
        let n = self.banned_for_vote.len();
        let mut i: usize = 0;
        #[verifier::loop_isolation(false)]
        while i < n
            invariant
                0 <= i <= n,
                sync_peers.wf(),
                forall|q: PeerAddr|
                    self.banned_for_vote@.take(i as int).contains(q) ==> sync_peers.err_of(q) == 0
                        && !sync_peers.ban_of(q),
                forall|q: PeerAddr|
                    !self.banned_for_vote@.take(i as int).contains(q) ==> sync_peers.err_of(q)
                        == old(sync_peers).err_of(q),
            decreases n - i,
        {
            let p = self.banned_for_vote[i];
            sync_peers.clear_errors(&p);
            proof {
                assert forall|q: PeerAddr|
                    self.banned_for_vote@.take(i + 1).contains(q) implies sync_peers.err_of(q)
                    == 0 && !sync_peers.ban_of(q) by {
                    if q != p {
                        let w = choose|w: int|
                            0 <= w < i + 1 && (#[trigger] self.banned_for_vote@.take(i + 1)[w])
                                == q;
                        if w < i {
                            assert(self.banned_for_vote@.take(i as int)[w] == q);
                        }
                    }
                }
                assert forall|q: PeerAddr|
                    !self.banned_for_vote@.take(i + 1).contains(q) implies sync_peers.err_of(q)
                    == old(sync_peers).err_of(q) by {
                    if !self.banned_for_vote@.take(i as int).contains(q) && q != p {
                    } else if self.banned_for_vote@.take(i as int).contains(q) {
                        let w = choose|w: int|
                            0 <= w < i && (#[trigger] self.banned_for_vote@.take(i as int)[w])
                                == q;
                        assert(self.banned_for_vote@.take(i + 1)[w] == q);
                    } else {
                        assert(self.banned_for_vote@.take(i + 1)[i as int] == p);
                    }
                }
            }
            i += 1;
        }
        proof {
            assert(self.banned_for_vote@.take(n as int) =~= self.banned_for_vote@);
        }
        self.committed = None;
        self.votes = Vec::new();
        self.banned_for_vote = Vec::new();
        self.tracker = RequestTracker::new();
        self.received = Vec::new();
        self.received_count = 0;
        proof {
            assert forall|p: PeerAddr|
                peer_count(self.recs(), p) <= SEGMENTS_REQUEST_PER_PEER by {
                crate::tracker::lemma_peer_count_le_len(self.recs(), p);
            }
        }
    }

    /// Drops the hash data once header sync has consumed it; from then
    /// on the stage reports `HeadersPibdReady`.
    pub fn reset_hash_data(&mut self)
        ensures
            final(self).wf(),
            final(self).is_pibd_ready(),
            final(self).committed() is None,
            final(self).recs().len() == 0,
    {
        self.committed = None;
        self.votes = Vec::new();
        self.banned_for_vote = Vec::new();
        self.tracker = RequestTracker::new();
        self.received = Vec::new();
        self.received_count = 0;
        self.pibd_ready = true;
        proof {
            assert forall|p: PeerAddr|
                peer_count(self.recs(), p) <= SEGMENTS_REQUEST_PER_PEER by {
                crate::tracker::lemma_peer_count_le_len(self.recs(), p);
            }
        }
    }

    /// The alternate archive headers recorded for failover.
    pub closed spec fn alt_headers(&self) -> Seq<AltArchiveHeader> {
        self.alt_headers@
    }

    /// Records that a peer proposed another archive header; kept so a
    /// bad committed root can fail over to a fresh vote.
    pub fn receive_another_archive_header(
        &mut self,
        peer: &PeerAddr,
        header_hash: &crate::types::Hash,
        height: u64,
    )
        requires
            old(self).wf(),
        ensures
            final(self).wf(),
            final(self).committed() == old(self).committed(),
            final(self).votes() == old(self).votes(),
            final(self).recs() == old(self).recs(),
            final(self).alt_headers() == old(self).alt_headers().push(
                AltArchiveHeader { peer: *peer, header_hash: *header_hash, height },
            ),
    {
        self.alt_headers.push(
            AltArchiveHeader { peer: *peer, header_hash: *header_hash, height },
        );
        proof {
            assert(self.recs() == old(self).recs());
            assert(self.votes() == old(self).votes());
            assert(self.received() == old(self).received());
        }
    }

    /// Whether the hash data was dropped after header sync consumed it.
    pub fn pibd_ready(&self) -> (r: bool)
        ensures
            r == self.is_pibd_ready(),
    {
        self.pibd_ready
    }

    /// The committed root, for the header stage to verify against.
    pub fn get_committed(&self) -> (r: Option<CommittedRoot>)
        ensures
            r == self.committed(),
    {
        match &self.committed {
            Some(c) => Some(*c),
            None => None,
        }
    }

    /// Whether every segment under the committed root has arrived.
    pub fn is_complete(&self) -> (r: bool)
        ensures
            r == match self.committed() {
                Some(c) => self.received_count() == c.total_segments,
                None => false,
            },
    {
        match &self.committed {
            Some(c) => self.received_count == c.total_segments,
            None => false,
        }
    }
}

} // verus!
