//! State sync: the segmented download (PIBD) of the four MMRs of the
//! txhashset at the archive height — output bitmap, outputs, range
//! proofs, kernels — under a bitmap root committed by peer quorum,
//! followed by the chain-side validation phases. Segment and validation
//! verdicts come from the outside chain; the stage orders the work,
//! tracks the requests and scores the peers.

use vstd::prelude::*;
use crate::chain_view::height_2_archive_height;
use crate::pibd_params::{
    ROOT_VOTE_QUORUM, SEGMENTS_REQUEST_LIMIT, SEGMENTS_REQUEST_PER_PEER,
    SEGMENT_REQUEST_TIMEOUT_SECS,
};
use crate::segments::{request_missing_segments, SegmentRequest};
use crate::sync_peers::SyncPeers;
use crate::sync_utils::{
    get_sync_peers, spec_excluded_requests, spec_selected_peers, SyncRequestResponses,
};
use crate::header_hashes_sync::count_true;
use crate::sync_peers::spec_inc_sat;
use crate::tracker::{
    key_index, lemma_peer_count_remove, peer_count, retained, spec_add_sat,
    spec_needed_requests, QueueEntry, RequestRecord, RequestTracker,
};
use crate::types::{Capabilities, PeerAddr, SyncPeerInfo, SyncStatus, CAPS_PIBD_HIST};

verus! {

/// Key stride separating the four MMR kinds in the shared tracker.
pub const SEGMENT_KIND_STRIDE: u64 = 4294967296;

/// Segments per MMR kind past which a report is not taken: a protocol
/// guard against absurd allocations.
pub const MAX_SEGMENTS_PER_KIND: u64 = 4000000;

/// The four MMRs downloaded by state sync.
#[derive(Clone, Copy, PartialEq, Eq, Structural, Debug)]
pub enum SegmentKind {
    Bitmap,
    Outputs,
    RangeProofs,
    Kernels,
}

/// The chain-side validation phases that follow the download.
#[derive(Clone, Copy, PartialEq, Eq, Structural, Debug)]
pub enum ValidationKind {
    KernelsHistory,
    Headers,
    KernelsPos,
    RangeProofs,
    Kernels,
}

/// Where the stage stands.
#[derive(Clone, Copy, PartialEq, Eq, Structural, Debug)]
pub enum StatePhase {
    WaitingForStatus,
    Downloading,
    ValidatingKernelsHistory,
    ValidatingHeaders,
    ValidatingKernelsPos,
    ValidatingRangeProofs,
    ValidatingKernels,
    Ready,
}

/// One peer's report of the archive state: the archive header and the
/// output bitmap root it claims.
#[derive(Clone, Copy, PartialEq, Eq, Structural, Debug)]
pub struct StateVote {
    pub peer: PeerAddr,
    pub header_hash: crate::types::Hash,
    pub header_height: u64,
    pub output_bitmap_root: crate::types::Hash,
}

/// The archive state the stage committed to.
#[derive(Clone, Copy, PartialEq, Eq, Structural, Debug)]
pub struct CommittedState {
    pub header_hash: crate::types::Hash,
    pub header_height: u64,
    pub output_bitmap_root: crate::types::Hash,
}

/// How many segments each MMR has at the archive height; read from the
/// locally validated archive header.
#[derive(Clone, Copy, PartialEq, Eq, Structural, Debug)]
pub struct SegmentTotals {
    pub bitmap: u64,
    pub outputs: u64,
    pub rangeproofs: u64,
    pub kernels: u64,
}

/// What one state-sync tick decided.
pub struct StateSyncTick {
    pub response: SyncRequestResponses,
    pub status: Option<SyncStatus>,
    pub bitmap_requests: Vec<SegmentRequest>,
    pub output_requests: Vec<SegmentRequest>,
    pub rangeproof_requests: Vec<SegmentRequest>,
    pub kernel_requests: Vec<SegmentRequest>,
    /// The validation the chain should run now, if one is due.
    pub validate: Option<ValidationKind>,
}

/// The tracker-key offset of one MMR kind.
pub open spec fn spec_kind_offset(kind: SegmentKind) -> int {
    match kind {
        SegmentKind::Bitmap => 0,
        SegmentKind::Outputs => SEGMENT_KIND_STRIDE as int,
        SegmentKind::RangeProofs => 2 * SEGMENT_KIND_STRIDE as int,
        SegmentKind::Kernels => 3 * SEGMENT_KIND_STRIDE as int,
    }
}

/// How many votes in `s` match the state of `v`.
pub open spec fn count_matching_state(s: Seq<StateVote>, v: StateVote) -> nat
    decreases s.len(),
{
    if s.len() == 0 {
        0
    } else {
        count_matching_state(s.drop_last(), v) + (if s.last().header_hash == v.header_hash
            && s.last().header_height == v.header_height && s.last().output_bitmap_root
            == v.output_bitmap_root {
            1nat
        } else {
            0nat
        })
    }
}

/// Whether `s` holds a vote by `p`.
pub open spec fn has_state_vote(s: Seq<StateVote>, p: PeerAddr) -> bool {
    exists|i: int| 0 <= i < s.len() && s[i].peer == p
}

/// Whether every segment of every MMR kind has arrived.
pub open spec fn spec_all_received(st: StateSync) -> bool {
    forall|k2: SegmentKind, i: int|
        0 <= i < st.received_of(k2).len() ==> st.received_of(k2)[i]
}

/// The state-sync stage.
pub struct StateSync {
    phase: StatePhase,
    votes: Vec<StateVote>,
    committed: Option<CommittedState>,
    tracker: RequestTracker<u64>,
    bitmap_received: Vec<bool>,
    outputs_received: Vec<bool>,
    rangeproofs_received: Vec<bool>,
    kernels_received: Vec<bool>,
    alt_headers: Vec<crate::header_hashes_sync::AltArchiveHeader>,
}

impl StateSync {
    /// Where the stage stands.
    pub closed spec fn phase(&self) -> StatePhase {
        self.phase
    }

    /// The state votes recorded, one per peer.
    pub closed spec fn votes(&self) -> Seq<StateVote> {
        self.votes@
    }

    /// The committed archive state.
    pub closed spec fn committed(&self) -> Option<CommittedState> {
        self.committed
    }

    /// The outstanding segment requests.
    pub closed spec fn recs(&self) -> Seq<RequestRecord<u64>> {
        self.tracker.recs()
    }

    /// The per-peer depth table.
    pub closed spec fn queue(&self) -> Seq<QueueEntry> {
        self.tracker.queue()
    }

    /// The tracker is well-formed.
    pub closed spec fn tracker_wf(&self) -> bool {
        self.tracker.wf()
    }

    /// The received flags of one kind.
    pub closed spec fn received_of(&self, kind: SegmentKind) -> Seq<bool> {
        match kind {
            SegmentKind::Bitmap => self.bitmap_received@,
            SegmentKind::Outputs => self.outputs_received@,
            SegmentKind::RangeProofs => self.rangeproofs_received@,
            SegmentKind::Kernels => self.kernels_received@,
        }
    }

    /// Well-formed: the tracker is consistent, depths are capped, one
    /// vote per peer, the flag tables stay within the allocation guard,
    /// and a stage still waiting for status holds no commitment.
    pub open spec fn wf(&self) -> bool {
        &&& (self.phase() == StatePhase::WaitingForStatus ==> self.committed() is None)
        &&& self.tracker_wf()
        &&& forall|p: PeerAddr|
            peer_count(self.recs(), p) <= SEGMENTS_REQUEST_PER_PEER
        &&& forall|i: int, j: int|
            0 <= i < j < self.votes().len() ==> self.votes()[i].peer != self.votes()[j].peer
        &&& self.received_of(SegmentKind::Bitmap).len() <= MAX_SEGMENTS_PER_KIND
        &&& self.received_of(SegmentKind::Outputs).len() <= MAX_SEGMENTS_PER_KIND
        &&& self.received_of(SegmentKind::RangeProofs).len() <= MAX_SEGMENTS_PER_KIND
        &&& self.received_of(SegmentKind::Kernels).len() <= MAX_SEGMENTS_PER_KIND
    }

    /// A fresh stage, waiting for state reports.
    pub fn new() -> (r: StateSync)
        ensures
            r.wf(),
            r.phase() == StatePhase::WaitingForStatus,
            r.committed() is None,
            r.recs().len() == 0,
    {
        let r = StateSync {
            phase: StatePhase::WaitingForStatus,
            votes: Vec::new(),
            committed: None,
            tracker: RequestTracker::new(),
            bitmap_received: Vec::new(),
            outputs_received: Vec::new(),
            rangeproofs_received: Vec::new(),
            kernels_received: Vec::new(),
            alt_headers: Vec::new(),
        };
        proof {
            assert forall|p: PeerAddr|
                peer_count(r.recs(), p) <= SEGMENTS_REQUEST_PER_PEER by {
                crate::tracker::lemma_peer_count_le_len(r.recs(), p);
            }
        }
        r
    }

    /// Records one peer's state report; the first report of each peer
    /// counts.
    pub fn receive_pibd_status(
        &mut self,
        peer: &PeerAddr,
        header_hash: crate::types::Hash,
        header_height: u64,
        output_bitmap_root: crate::types::Hash,
    )
        requires
            old(self).wf(),
        ensures
            final(self).wf(),
            final(self).phase() == old(self).phase(),
            final(self).committed() == old(self).committed(),
            final(self).recs() == old(self).recs(),
            has_state_vote(old(self).votes(), *peer) ==> final(self).votes() == old(self).votes(),
            !has_state_vote(old(self).votes(), *peer) ==> final(self).votes() == old(
                self,
            ).votes().push(
                StateVote { peer: *peer, header_hash, header_height, output_bitmap_root },
            ),
    {
        if self.has_vote_from(peer) {
            return ;
        }
        self.votes.push(
            StateVote { peer: *peer, header_hash, header_height, output_bitmap_root },
        );
        proof {
            assert(self.recs() == old(self).recs());
            assert forall|i: int, j: int|
                0 <= i < j < self.votes().len() implies self.votes()[i].peer
                != self.votes()[j].peer by {
                if j == self.votes().len() - 1 {
                    assert(self.votes()[i] == old(self).votes()[i]);
                    if old(self).votes()[i].peer == *peer {
                        assert(has_state_vote(old(self).votes(), *peer));
                    }
                }
            }
        }
    }

    /// The alternate archive headers recorded for failover.
    pub closed spec fn alt_headers(&self) -> Seq<crate::header_hashes_sync::AltArchiveHeader> {
        self.alt_headers@
    }

    /// Records that a peer reported another archive header. The report is
    /// kept apart from the status votes, so it can never weigh in a
    /// quorum; it only guides failover when the committed state fails.
    pub fn receive_another_archive_header(
        &mut self,
        peer: &PeerAddr,
        header_hash: &crate::types::Hash,
        header_height: u64,
    )
        requires
            old(self).wf(),
        ensures
            final(self).wf(),
            final(self).phase() == old(self).phase(),
            final(self).committed() == old(self).committed(),
            final(self).recs() == old(self).recs(),
            final(self).votes() == old(self).votes(),
            final(self).alt_headers() == old(self).alt_headers().push(
                crate::header_hashes_sync::AltArchiveHeader {
                    peer: *peer,
                    header_hash: *header_hash,
                    height: header_height,
                },
            ),
    {
        self.alt_headers.push(
            crate::header_hashes_sync::AltArchiveHeader {
                peer: *peer,
                header_hash: *header_hash,
                height: header_height,
            },
        );
        proof {
            assert(self.recs() == old(self).recs());
            assert(self.votes() == old(self).votes());
        }
    }

    /// Whether `peer` has reported already.
    fn has_vote_from(&self, peer: &PeerAddr) -> (r: bool)
        ensures
            r == has_state_vote(self.votes(), *peer),
    {
        let n = self.votes.len();
        let mut i: usize = 0;
        while i < n
            invariant
                n == self.votes@.len(),
                0 <= i <= n,
                forall|j: int| 0 <= j < i ==> self.votes@[j].peer != *peer,
            decreases n - i,
        {
            if self.votes[i].peer == *peer {
                proof {
                    assert(self.votes@[i as int].peer == *peer);
                }
                return true;
            }
            i += 1;
        }
        false
    }

    /// Builds a flag table of `total` lowered flags.
    fn blank_flags(total: u64) -> (r: Vec<bool>)
        requires
            total <= MAX_SEGMENTS_PER_KIND,
        ensures
            r@.len() == total,
            forall|j: int| 0 <= j < r@.len() ==> !r@[j],
    {
        let mut flags: Vec<bool> = Vec::new();
        let mut i: u64 = 0;
        #[verifier::loop_isolation(false)]
        while i < total
            invariant
                0 <= i <= total,
                flags@.len() == i,
                forall|j: int| 0 <= j < i ==> !flags@[j],
            decreases total - i,
        {
            flags.push(false);
            i += 1;
        }
        flags
    }

    /// Whether every flag of `v` is raised.
    fn all_received(v: &Vec<bool>) -> (r: bool)
        ensures
            r == (forall|j: int| 0 <= j < v@.len() ==> v@[j]),
    {
        let n = v.len();
        let mut i: usize = 0;
        while i < n
            invariant
                n == v@.len(),
                0 <= i <= n,
                forall|j: int| 0 <= j < i ==> v@[j],
            decreases n - i,
        {
            if !v[i] {
                return false;
            }
            i += 1;
        }
        true
    }

    /// How many flags of `v` are raised.
    fn count_received(v: &Vec<bool>) -> (r: u64)
        requires
            v@.len() <= MAX_SEGMENTS_PER_KIND,
        ensures
            r == crate::header_hashes_sync::count_true(v@),
            r <= v@.len(),
    {
        let n = v.len();
        let mut count: u64 = 0;
        let mut i: usize = 0;
        #[verifier::loop_isolation(false)]
        while i < n
            invariant
                0 <= i <= n,
                count <= i,
                count == crate::header_hashes_sync::count_true(v@.take(i as int)),
            decreases n - i,
        {
            proof {
                assert(v@.take(i + 1).drop_last() =~= v@.take(i as int));
                assert(v@.take(i + 1).last() == v@[i as int]);
            }
            if v[i] {
                count = count + 1;
            }
            i += 1;
        }
        proof {
            assert(v@.take(n as int) =~= v@);
        }
        count
    }

    /// One state-sync tick. Young chains skip straight to
    /// `StatePibdReady`; a header tip below the archive point waits for
    /// headers; otherwise the stage commits an archive state by quorum,
    /// downloads the four MMRs segment by segment, then walks the
    /// validation phases as the chain reports them done.
    pub fn request(
        &mut self,
        peers: &Vec<SyncPeerInfo>,
        sync_peers: &mut SyncPeers,
        totals: &SegmentTotals,
        header_head_height: u64,
        best_height: u64,
        now: u64,
    ) -> (r: StateSyncTick)
        requires
            old(self).wf(),
            old(sync_peers).wf(),
        ensures
            final(self).wf(),
            final(sync_peers).wf(),
            r.response != SyncRequestResponses::SyncDone,
            (r.response == SyncRequestResponses::StatePibdReady) == (old(self).phase()
                == StatePhase::Ready || crate::chain_view::spec_archive_height(
                best_height as int,
            ) == 0),
            (r.response == SyncRequestResponses::WaitingForHeaders) == (old(self).phase()
                != StatePhase::Ready && crate::chain_view::spec_archive_height(
                best_height as int,
            ) > 0 && header_head_height < crate::chain_view::spec_archive_height(
                best_height as int,
            )),
            old(self).phase() == StatePhase::Downloading && r.response
                != SyncRequestResponses::WaitingForHeaders ==> {
                &&& forall|k2: SegmentKind|
                    final(self).received_of(k2) == old(self).received_of(k2)
                &&& forall|k: int|
                    0 <= k < r.bitmap_requests@.len() ==> (
                    #[trigger] r.bitmap_requests@[k]).segment_id < old(self).received_of(
                        SegmentKind::Bitmap,
                    ).len() && !old(self).received_of(
                        SegmentKind::Bitmap,
                    )[r.bitmap_requests@[k].segment_id as int]
                &&& forall|k: int|
                    0 <= k < r.output_requests@.len() ==> (
                    #[trigger] r.output_requests@[k]).segment_id < old(self).received_of(
                        SegmentKind::Outputs,
                    ).len() && !old(self).received_of(
                        SegmentKind::Outputs,
                    )[r.output_requests@[k].segment_id as int]
                &&& forall|k: int|
                    0 <= k < r.rangeproof_requests@.len() ==> (
                    #[trigger] r.rangeproof_requests@[k]).segment_id < old(self).received_of(
                        SegmentKind::RangeProofs,
                    ).len() && !old(self).received_of(
                        SegmentKind::RangeProofs,
                    )[r.rangeproof_requests@[k].segment_id as int]
                &&& forall|k: int|
                    0 <= k < r.kernel_requests@.len() ==> (
                    #[trigger] r.kernel_requests@[k]).segment_id < old(self).received_of(
                        SegmentKind::Kernels,
                    ).len() && !old(self).received_of(
                        SegmentKind::Kernels,
                    )[r.kernel_requests@[k].segment_id as int]
            },
            old(self).phase() == StatePhase::Ready ==> final(self).phase() == StatePhase::Ready,
            r.response == SyncRequestResponses::StatePibdReady ==> final(self).phase()
                == StatePhase::Ready,
            ({
                let arch = crate::chain_view::spec_archive_height(best_height as int);
                let active = old(self).phase() != StatePhase::Ready && arch > 0
                    && header_head_height >= arch;
                &&& (active ==> r.validate == (match old(self).phase() {
                    StatePhase::Downloading => if spec_all_received(*old(self)) {
                        Some(ValidationKind::KernelsHistory)
                    } else {
                        Option::<ValidationKind>::None
                    },
                    StatePhase::ValidatingKernelsHistory => Some(ValidationKind::KernelsHistory),
                    StatePhase::ValidatingHeaders => Some(ValidationKind::Headers),
                    StatePhase::ValidatingKernelsPos => Some(ValidationKind::KernelsPos),
                    StatePhase::ValidatingRangeProofs => Some(ValidationKind::RangeProofs),
                    StatePhase::ValidatingKernels => Some(ValidationKind::Kernels),
                    _ => Option::<ValidationKind>::None,
                }))
                &&& (active && (old(self).phase() == StatePhase::ValidatingKernelsHistory
                    || old(self).phase() == StatePhase::ValidatingHeaders || old(self).phase()
                    == StatePhase::ValidatingKernelsPos || old(self).phase()
                    == StatePhase::ValidatingRangeProofs || old(self).phase()
                    == StatePhase::ValidatingKernels) ==> r.response
                    == SyncRequestResponses::Syncing && final(self).phase() == old(self).phase())
                &&& (active && old(self).phase() == StatePhase::ValidatingKernelsHistory
                    ==> r.status == Some(SyncStatus::ValidatingKernelsHistory))
                &&& (active && old(self).phase() == StatePhase::WaitingForStatus ==> {
                    let any_quorum = exists|i: int|
                        0 <= i < old(self).votes().len() && (
                        #[trigger] old(self).votes()[i]).header_height == (arch as u64)
                            && count_matching_state(old(self).votes(), old(self).votes()[i])
                            >= ROOT_VOTE_QUORUM;
                    let totals_ok = totals.bitmap <= MAX_SEGMENTS_PER_KIND && totals.outputs
                        <= MAX_SEGMENTS_PER_KIND && totals.rangeproofs <= MAX_SEGMENTS_PER_KIND
                        && totals.kernels <= MAX_SEGMENTS_PER_KIND;
                    &&& (!any_quorum ==> r.response == SyncRequestResponses::WaitingForPeers
                        && final(self).phase() == StatePhase::WaitingForStatus
                        && final(self).committed() is None)
                    &&& (any_quorum && totals_ok ==> r.response == SyncRequestResponses::Syncing
                        && final(self).phase() == StatePhase::Downloading
                        && final(self).committed() is Some)
                    &&& (any_quorum && !totals_ok ==> r.response
                        == SyncRequestResponses::BadState)
                })
                &&& (active && old(self).phase() == StatePhase::Downloading ==> {
                    let done_dl = spec_all_received(*old(self));
                    let caps = Capabilities { bits: CAPS_PIBD_HIST };
                    let sel = spec_selected_peers(
                        peers@,
                        old(self).queue(),
                        caps,
                        0,
                        SEGMENTS_REQUEST_PER_PEER as int,
                    );
                    let ex = spec_excluded_requests(
                        peers@,
                        old(self).queue(),
                        caps,
                        0,
                        SEGMENTS_REQUEST_PER_PEER as int,
                    );
                    let base = retained(old(self).recs(), now, SEGMENT_REQUEST_TIMEOUT_SECS);
                    &&& (done_dl ==> r.response == SyncRequestResponses::Syncing
                        && final(self).phase() == StatePhase::ValidatingKernelsHistory
                        && r.status == Some(SyncStatus::ValidatingKernelsHistory))
                    &&& (!done_dl ==> {
                        &&& final(self).phase() == StatePhase::Downloading
                        &&& r.status == Some(
                            SyncStatus::TxHashsetPibd {
                                received_segments: (count_true(
                                    old(self).received_of(SegmentKind::Bitmap),
                                ) + count_true(old(self).received_of(SegmentKind::Outputs))
                                    + count_true(
                                    old(self).received_of(SegmentKind::RangeProofs),
                                ) + count_true(
                                    old(self).received_of(SegmentKind::Kernels),
                                )) as u64,
                                total_segments: (old(self).received_of(
                                    SegmentKind::Bitmap,
                                ).len() + old(self).received_of(SegmentKind::Outputs).len()
                                    + old(self).received_of(SegmentKind::RangeProofs).len()
                                    + old(self).received_of(SegmentKind::Kernels).len()) as u64,
                            },
                        )
                        &&& (sel.len() == 0 ==> r.response == (if ex == 0 {
                            SyncRequestResponses::WaitingForPeers
                        } else {
                            SyncRequestResponses::Syncing
                        }) && final(self).recs() == old(self).recs() && *final(sync_peers)
                            == *old(sync_peers))
                        &&& (sel.len() > 0 ==> {
                            &&& r.response == SyncRequestResponses::Syncing
                            &&& forall|p: PeerAddr|
                                final(sync_peers).err_of(p) == spec_add_sat(
                                    old(sync_peers).err_of(p),
                                    peer_count(old(self).recs(), p) - peer_count(base, p),
                                )
                            &&& forall|p: PeerAddr|
                                final(sync_peers).ok_of(p) == old(sync_peers).ok_of(p)
                            &&& (r.bitmap_requests@.len() + r.output_requests@.len()
                                + r.rangeproof_requests@.len() + r.kernel_requests@.len() > 0
                                || spec_needed_requests(
                                base.len() as int,
                                sel.len() as int,
                                (if ex > usize::MAX as int {
                                    usize::MAX as int
                                } else {
                                    ex
                                }),
                                SEGMENTS_REQUEST_PER_PEER as int,
                                SEGMENTS_REQUEST_LIMIT as int,
                            ) == 0 || (forall|k2: SegmentKind, i: int|
                                0 <= i < final(self).received_of(k2).len()
                                    ==> final(self).received_of(k2)[i]
                                    || crate::tracker::has_req_key(
                                    final(self).recs(),
                                    (spec_kind_offset(k2) + i) as u64,
                                )) || (forall|j: int|
                                0 <= j < sel.len() ==> peer_count(
                                    final(self).recs(),
                                    (#[trigger] sel[j]).addr,
                                ) >= SEGMENTS_REQUEST_PER_PEER))
                        })
                    })
                })
            }),
    {
        if matches!(self.phase, StatePhase::Ready) {
            return Self::tick(SyncRequestResponses::StatePibdReady, None, None);
        }
        let archive_height = height_2_archive_height(best_height);
        if archive_height == 0 {
            // the chain is young: there is no state to download
            self.phase = StatePhase::Ready;
            proof {
                assert(self.recs() == old(self).recs());
                assert(self.votes() == old(self).votes());
            }
            return Self::tick(SyncRequestResponses::StatePibdReady, None, None);
        }
        if header_head_height < archive_height {
            proof {
                assert(self.recs() == old(self).recs());
                assert(self.votes() == old(self).votes());
            }
            return Self::tick(SyncRequestResponses::WaitingForHeaders, None, None);
        }
        match self.phase {
            StatePhase::WaitingForStatus => {
                let quorum = self.find_quorum(archive_height);
                proof {
                    match quorum {
                        Some(v) => {
                            let i = choose|i: int|
                                0 <= i < old(self).votes().len() && old(self).votes()[i] == v;
                            assert((#[trigger] old(self).votes()[i]).header_height
                                == archive_height && count_matching_state(
                                old(self).votes(),
                                old(self).votes()[i],
                            ) >= ROOT_VOTE_QUORUM);
                        },
                        None => {
                            if exists|i: int|
                                0 <= i < old(self).votes().len() && (
                                #[trigger] old(self).votes()[i]).header_height == archive_height
                                    && count_matching_state(
                                    old(self).votes(),
                                    old(self).votes()[i],
                                ) >= ROOT_VOTE_QUORUM {
                                let i = choose|i: int|
                                    0 <= i < old(self).votes().len() && (
                                    #[trigger] old(self).votes()[i]).header_height
                                        == archive_height && count_matching_state(
                                        old(self).votes(),
                                        old(self).votes()[i],
                                    ) >= ROOT_VOTE_QUORUM;
                                assert(count_matching_state(
                                    old(self).votes(),
                                    old(self).votes()[i],
                                ) < ROOT_VOTE_QUORUM);
                            }
                        },
                    }
                }
                match quorum {
                    Some(v) => {
                        if totals.bitmap <= MAX_SEGMENTS_PER_KIND && totals.outputs
                            <= MAX_SEGMENTS_PER_KIND && totals.rangeproofs
                            <= MAX_SEGMENTS_PER_KIND && totals.kernels
                            <= MAX_SEGMENTS_PER_KIND {
                            self.committed = Some(
                                CommittedState {
                                    header_hash: v.header_hash,
                                    header_height: v.header_height,
                                    output_bitmap_root: v.output_bitmap_root,
                                },
                            );
                            self.bitmap_received = Self::blank_flags(totals.bitmap);
                            self.outputs_received = Self::blank_flags(totals.outputs);
                            self.rangeproofs_received = Self::blank_flags(totals.rangeproofs);
                            self.kernels_received = Self::blank_flags(totals.kernels);
                            self.phase = StatePhase::Downloading;
                            proof {
                                assert(self.recs() == old(self).recs());
                                assert(self.votes() == old(self).votes());
                            }
                            Self::tick(SyncRequestResponses::Syncing, None, None)
                        } else {
                            proof {
                                assert(self.recs() == old(self).recs());
                                assert(self.votes() == old(self).votes());
                            }
                            Self::tick(SyncRequestResponses::BadState, None, None)
                        }
                    },
                    None => {
                        proof {
                            assert(self.recs() == old(self).recs());
                            assert(self.votes() == old(self).votes());
                        }
                        Self::tick(SyncRequestResponses::WaitingForPeers, None, None)
                    },
                }
            },
            StatePhase::Downloading => {
                let done = Self::all_received(&self.bitmap_received) && Self::all_received(
                    &self.outputs_received,
                ) && Self::all_received(&self.rangeproofs_received) && Self::all_received(
                    &self.kernels_received,
                );
                proof {
                    assert(*self == *old(self));
                    if done {
                        assert forall|k2: SegmentKind, i: int|
                            0 <= i < self.received_of(k2).len() implies self.received_of(
                            k2,
                        )[i] by {
                            if k2 == SegmentKind::Bitmap {
                                assert(self.received_of(k2) == self.bitmap_received@);
                            }
                            if k2 == SegmentKind::Outputs {
                                assert(self.received_of(k2) == self.outputs_received@);
                            }
                            if k2 == SegmentKind::RangeProofs {
                                assert(self.received_of(k2) == self.rangeproofs_received@);
                            }
                            if k2 == SegmentKind::Kernels {
                                assert(self.received_of(k2) == self.kernels_received@);
                            }
                        }
                        assert(spec_all_received(*old(self)));
                    } else {
                        assert(!spec_all_received(*old(self))) by {
                            if !(forall|i: int|
                                0 <= i < self.bitmap_received@.len()
                                    ==> self.bitmap_received@[i]) {
                                let i = choose|i: int|
                                    0 <= i < self.bitmap_received@.len()
                                        && !self.bitmap_received@[i];
                                assert(0 <= i < old(self).received_of(SegmentKind::Bitmap).len()
                                    && !old(self).received_of(SegmentKind::Bitmap)[i]);
                            } else if !(forall|i: int|
                                0 <= i < self.outputs_received@.len()
                                    ==> self.outputs_received@[i]) {
                                let i = choose|i: int|
                                    0 <= i < self.outputs_received@.len()
                                        && !self.outputs_received@[i];
                                assert(0 <= i < old(self).received_of(SegmentKind::Outputs).len()
                                    && !old(self).received_of(SegmentKind::Outputs)[i]);
                            } else if !(forall|i: int|
                                0 <= i < self.rangeproofs_received@.len()
                                    ==> self.rangeproofs_received@[i]) {
                                let i = choose|i: int|
                                    0 <= i < self.rangeproofs_received@.len()
                                        && !self.rangeproofs_received@[i];
                                assert(0 <= i < old(self).received_of(
                                    SegmentKind::RangeProofs,
                                ).len() && !old(self).received_of(SegmentKind::RangeProofs)[i]);
                            } else {
                                let i = choose|i: int|
                                    0 <= i < self.kernels_received@.len()
                                        && !self.kernels_received@[i];
                                assert(0 <= i < old(self).received_of(SegmentKind::Kernels).len()
                                    && !old(self).received_of(SegmentKind::Kernels)[i]);
                            }
                        }
                    }
                }
                if done {
                    self.phase = StatePhase::ValidatingKernelsHistory;
                    proof {
                        assert(self.recs() == old(self).recs());
                        assert(self.votes() == old(self).votes());
                    }
                    return Self::tick(
                        SyncRequestResponses::Syncing,
                        Some(SyncStatus::ValidatingKernelsHistory),
                        Some(ValidationKind::KernelsHistory),
                    );
                }
                let caps = Capabilities { bits: CAPS_PIBD_HIST };
                let table = self.tracker.get_peers_queue_size();
                let (selected, excluded) = get_sync_peers(
                    peers,
                    SEGMENTS_REQUEST_PER_PEER,
                    caps,
                    0,
                    &table,
                );
                let received = Self::count_received(&self.bitmap_received) + Self::count_received(
                    &self.outputs_received,
                ) + Self::count_received(&self.rangeproofs_received) + Self::count_received(
                    &self.kernels_received,
                );
                let total = self.bitmap_received.len() as u64 + self.outputs_received.len() as u64
                    + self.rangeproofs_received.len() as u64 + self.kernels_received.len() as u64;
                let status = SyncStatus::TxHashsetPibd {
                    received_segments: received,
                    total_segments: total,
                };
                if selected.len() == 0 {
                    let response = if excluded == 0 {
                        SyncRequestResponses::WaitingForPeers
                    } else {
                        SyncRequestResponses::Syncing
                    };
                    proof {
                        assert(self.recs() == old(self).recs());
                        assert(self.votes() == old(self).votes());
                    }
                    return Self::tick(response, Some(status), None);
                }
                proof {
                    assert(table@ == old(self).queue());
                }
                let ghost pre_recs = self.recs();
                self.tracker.retain_expired(now, SEGMENT_REQUEST_TIMEOUT_SECS, sync_peers);
                proof {
                    assert forall|p: PeerAddr|
                        peer_count(self.recs(), p) <= SEGMENTS_REQUEST_PER_PEER by {
                        assert(pre_recs == old(self).recs());
                        assert(peer_count(old(self).recs(), p) <= SEGMENTS_REQUEST_PER_PEER);
                        crate::tracker::lemma_retained_peer_count_le(
                            pre_recs,
                            now,
                            SEGMENT_REQUEST_TIMEOUT_SECS,
                            p,
                        );
                    }
                    assert(self.votes() == old(self).votes());
                }
                let excluded_usize: usize = if excluded > usize::MAX as u64 {
                    usize::MAX
                } else {
                    excluded as usize
                };
                let ghost after_sweep = *self;
                let mut need = self.tracker.calculate_needed_requests(
                    selected.len(),
                    excluded_usize,
                    SEGMENTS_REQUEST_PER_PEER,
                    SEGMENTS_REQUEST_LIMIT,
                );
                let ghost need0 = need as int;
                let mut bitmap_requests: Vec<SegmentRequest> = Vec::new();
                let mut output_requests: Vec<SegmentRequest> = Vec::new();
                let mut rangeproof_requests: Vec<SegmentRequest> = Vec::new();
                let mut kernel_requests: Vec<SegmentRequest> = Vec::new();
                if need > 0 {
                    bitmap_requests = self.ask_kind(SegmentKind::Bitmap, &selected, need, now);
                    need = need - bitmap_requests.len();
                }
                if need > 0 {
                    output_requests = self.ask_kind(SegmentKind::Outputs, &selected, need, now);
                    need = need - output_requests.len();
                }
                if need > 0 {
                    rangeproof_requests = self.ask_kind(
                        SegmentKind::RangeProofs,
                        &selected,
                        need,
                        now,
                    );
                    need = need - rangeproof_requests.len();
                }
                if need > 0 {
                    kernel_requests = self.ask_kind(SegmentKind::Kernels, &selected, need, now);
                }
                proof {
                    assert(self.votes() == old(self).votes());
                    if bitmap_requests@.len() + output_requests@.len()
                        + rangeproof_requests@.len() + kernel_requests@.len() == 0 && need > 0 {
                        // nothing went out although the budget allowed it:
                        // every ask left the stage as it was, so each
                        // kind's outcome speaks of the final state
                        assert(self.recs() == after_sweep.recs());
                        let ghost at_cap = forall|j: int|
                            0 <= j < selected@.len() ==> peer_count(
                                self.recs(),
                                (#[trigger] selected@[j]).addr,
                            ) >= SEGMENTS_REQUEST_PER_PEER;
                        if !at_cap {
                            assert forall|k2: SegmentKind, i: int|
                                0 <= i < self.received_of(k2).len() implies self.received_of(
                                k2,
                            )[i] || crate::tracker::has_req_key(
                                self.recs(),
                                (spec_kind_offset(k2) + i) as u64,
                            ) by {
                                if k2 == SegmentKind::Bitmap {
                                    assert(bitmap_requests@.len() == 0);
                                }
                                if k2 == SegmentKind::Outputs {
                                    assert(output_requests@.len() == 0);
                                }
                                if k2 == SegmentKind::RangeProofs {
                                    assert(rangeproof_requests@.len() == 0);
                                }
                                if k2 == SegmentKind::Kernels {
                                    assert(kernel_requests@.len() == 0);
                                }
                            }
                        }
                    }
                }
                StateSyncTick {
                    response: SyncRequestResponses::Syncing,
                    status: Some(status),
                    bitmap_requests,
                    output_requests,
                    rangeproof_requests,
                    kernel_requests,
                    validate: None,
                }
            },
            StatePhase::ValidatingKernelsHistory => {
                proof {
                    assert(self.recs() == old(self).recs());
                    assert(self.votes() == old(self).votes());
                }
                Self::tick(
                    SyncRequestResponses::Syncing,
                    Some(SyncStatus::ValidatingKernelsHistory),
                    Some(ValidationKind::KernelsHistory),
                )
            },
            StatePhase::ValidatingHeaders => {
                proof {
                    assert(self.recs() == old(self).recs());
                    assert(self.votes() == old(self).votes());
                }
                Self::tick(SyncRequestResponses::Syncing, None, Some(ValidationKind::Headers))
            },
            StatePhase::ValidatingKernelsPos => {
                proof {
                    assert(self.recs() == old(self).recs());
                    assert(self.votes() == old(self).votes());
                }
                Self::tick(SyncRequestResponses::Syncing, None, Some(ValidationKind::KernelsPos))
            },
            StatePhase::ValidatingRangeProofs => {
                proof {
                    assert(self.recs() == old(self).recs());
                    assert(self.votes() == old(self).votes());
                }
                Self::tick(SyncRequestResponses::Syncing, None, Some(ValidationKind::RangeProofs))
            },
            StatePhase::ValidatingKernels => {
                proof {
                    assert(self.recs() == old(self).recs());
                    assert(self.votes() == old(self).votes());
                }
                Self::tick(SyncRequestResponses::Syncing, None, Some(ValidationKind::Kernels))
            },
            StatePhase::Ready => {
                proof {
                    assert(self.recs() == old(self).recs());
                    assert(self.votes() == old(self).votes());
                }
                Self::tick(SyncRequestResponses::StatePibdReady, None, None)
            },
        }
    }

    /// A tick with no requests.
    fn tick(
        response: SyncRequestResponses,
        status: Option<SyncStatus>,
        validate: Option<ValidationKind>,
    ) -> (r: StateSyncTick)
        ensures
            r.response == response,
            r.status == status,
            r.validate == validate,
            r.bitmap_requests@.len() == 0,
            r.output_requests@.len() == 0,
            r.rangeproof_requests@.len() == 0,
            r.kernel_requests@.len() == 0,
    {
        StateSyncTick {
            response,
            status,
            bitmap_requests: Vec::new(),
            output_requests: Vec::new(),
            rangeproof_requests: Vec::new(),
            kernel_requests: Vec::new(),
            validate,
        }
    }

    /// A vote at the archive height whose state a quorum of peers
    /// reports, if any.
    fn find_quorum(&self, archive_height: u64) -> (r: Option<StateVote>)
        ensures
            r is Some ==> count_matching_state(self.votes(), r->Some_0) >= ROOT_VOTE_QUORUM
                && r->Some_0.header_height == archive_height && exists|i: int|
                0 <= i < self.votes().len() && self.votes()[i] == r->Some_0,
            r is None ==> forall|i: int|
                0 <= i < self.votes().len() && (#[trigger] self.votes()[i]).header_height
                    == archive_height ==> count_matching_state(self.votes(), self.votes()[i])
                    < ROOT_VOTE_QUORUM,
    {
        let n = self.votes.len();
        let mut i: usize = 0;
        while i < n
            invariant
                n == self.votes@.len(),
                0 <= i <= n,
                forall|j: int|
                    0 <= j < i && (#[trigger] self.votes@[j]).header_height == archive_height
                        ==> count_matching_state(self.votes@, self.votes@[j])
                        < ROOT_VOTE_QUORUM,
            decreases n - i,
        {
            let v = self.votes[i];
            if v.header_height == archive_height {
                let count = self.count_matching(&v);
                if count >= ROOT_VOTE_QUORUM {
                    proof {
                        assert(self.votes@[i as int] == v);
                    }
                    return Some(v);
                }
            }
            i += 1;
        }
        None
    }

    /// How many recorded votes match the state of `v`.
    fn count_matching(&self, v: &StateVote) -> (r: usize)
        ensures
            r == count_matching_state(self.votes(), *v),
    {
        let n = self.votes.len();
        let mut count: usize = 0;
        let mut i: usize = 0;
        while i < n
            invariant
                n == self.votes@.len(),
                0 <= i <= n,
                count == count_matching_state(self.votes@.take(i as int), *v),
                count <= i,
            decreases n - i,
        {
            proof {
                assert(self.votes@.take(i + 1).drop_last() =~= self.votes@.take(i as int));
                assert(self.votes@.take(i + 1).last() == self.votes@[i as int]);
            }
            let w = self.votes[i];
            if w.header_hash == v.header_hash && w.header_height == v.header_height
                && w.output_bitmap_root == v.output_bitmap_root {
                count += 1;
            }
            i += 1;
        }
        proof {
            assert(self.votes@.take(n as int) =~= self.votes@);
        }
        count
    }

    /// Requests the missing segments of one MMR kind.
    fn ask_kind(
        &mut self,
        kind: SegmentKind,
        selected: &Vec<SyncPeerInfo>,
        need: usize,
        now: u64,
    ) -> (r: Vec<SegmentRequest>)
        requires
            old(self).wf(),
        ensures
            final(self).wf(),
            final(self).phase() == old(self).phase(),
            final(self).committed() == old(self).committed(),
            final(self).votes() == old(self).votes(),
            forall|k2: SegmentKind| final(self).received_of(k2) == old(self).received_of(k2),
            r@.len() <= need,
            forall|k: int|
                0 <= k < r@.len() ==> (#[trigger] r@[k]).segment_id < old(self).received_of(
                    kind,
                ).len() && !old(self).received_of(kind)[r@[k].segment_id as int],
            r@.len() == 0 ==> *final(self) == *old(self),
            r@.len() == need || (forall|i: int|
                0 <= i < final(self).received_of(kind).len() ==> final(self).received_of(
                    kind,
                )[i] || crate::tracker::has_req_key(
                    final(self).recs(),
                    (spec_kind_offset(kind) + i) as u64,
                )) || (forall|j: int|
                0 <= j < selected@.len() ==> peer_count(
                    final(self).recs(),
                    (#[trigger] selected@[j]).addr,
                ) >= SEGMENTS_REQUEST_PER_PEER),
    {
        let offset: u64 = match kind {
            SegmentKind::Bitmap => 0,
            SegmentKind::Outputs => SEGMENT_KIND_STRIDE,
            SegmentKind::RangeProofs => 2 * SEGMENT_KIND_STRIDE,
            SegmentKind::Kernels => 3 * SEGMENT_KIND_STRIDE,
        };
        let flags = match kind {
            SegmentKind::Bitmap => &self.bitmap_received,
            SegmentKind::Outputs => &self.outputs_received,
            SegmentKind::RangeProofs => &self.rangeproofs_received,
            SegmentKind::Kernels => &self.kernels_received,
        };
        proof {
            assert(self.recs() == self.tracker.recs());
            assert forall|p: PeerAddr|
                peer_count(self.tracker.recs(), p) <= SEGMENTS_REQUEST_PER_PEER by {
                assert(peer_count(self.recs(), p) <= SEGMENTS_REQUEST_PER_PEER);
            }
        }
        let r = request_missing_segments(
            &mut self.tracker,
            flags,
            selected,
            need,
            SEGMENTS_REQUEST_PER_PEER,
            offset,
            now,
        );
        proof {
            assert(self.votes() == old(self).votes());
            assert(self.recs() == self.tracker.recs());
            assert(offset as int == spec_kind_offset(kind));
        }
        r
    }

    /// Takes in one segment report: a in_flight segment under the
    /// committed bitmap root frees its slot; a valid one is recorded and
    /// credits its sender, an invalid one charges it.
    pub fn receive_segment(
        &mut self,
        kind: SegmentKind,
        peer: &PeerAddr,
        bitmap_root: &crate::types::Hash,
        segment_id: u64,
        valid: bool,
        sync_peers: &mut SyncPeers,
    )
        requires
            old(self).wf(),
            old(sync_peers).wf(),
        ensures
            final(self).wf(),
            final(sync_peers).wf(),
            final(self).phase() == old(self).phase(),
            final(self).committed() == old(self).committed(),
            final(self).votes() == old(self).votes(),
            ({
                let in_flight = segment_id < SEGMENT_KIND_STRIDE && (match old(self).committed() {
                    Some(c) => c.output_bitmap_root == *bitmap_root,
                    None => false,
                }) && crate::tracker::has_req_key(
                    old(self).recs(),
                    (spec_kind_offset(kind) + segment_id) as u64,
                );
                &&& (!in_flight ==> *final(self) == *old(self) && *final(sync_peers) == *old(
                    sync_peers,
                ))
                &&& (in_flight ==> final(self).recs() == old(self).recs().remove(
                    key_index(
                        old(self).recs(),
                        (spec_kind_offset(kind) + segment_id) as u64,
                    ),
                ))
                &&& (in_flight && valid ==> final(sync_peers).ok_of(*peer) == spec_inc_sat(
                    old(sync_peers).ok_of(*peer),
                ) && (forall|q: PeerAddr|
                    final(sync_peers).err_of(q) == old(sync_peers).err_of(q)) && (segment_id
                    < old(self).received_of(kind).len() ==> final(self).received_of(kind)
                    == old(self).received_of(kind).update(segment_id as int, true)) && (forall|
                    k2: SegmentKind,
                |
                    k2 != kind ==> final(self).received_of(k2) == old(self).received_of(k2)))
                &&& (in_flight && !valid ==> final(sync_peers).err_of(*peer) == spec_inc_sat(
                    old(sync_peers).err_of(*peer),
                ) && (forall|q: PeerAddr|
                    final(sync_peers).ok_of(q) == old(sync_peers).ok_of(q)) && (forall|
                    k2: SegmentKind,
                | final(self).received_of(k2) == old(self).received_of(k2)))
            }),
    {
        let offset: u64 = match kind {
            SegmentKind::Bitmap => 0,
            SegmentKind::Outputs => SEGMENT_KIND_STRIDE,
            SegmentKind::RangeProofs => 2 * SEGMENT_KIND_STRIDE,
            SegmentKind::Kernels => 3 * SEGMENT_KIND_STRIDE,
        };
        if segment_id >= SEGMENT_KIND_STRIDE {
            return ;
        }
        let key: u64 = offset + segment_id;
        let root_matches = match &self.committed {
            Some(c) => c.output_bitmap_root.w0 == bitmap_root.w0 && c.output_bitmap_root.w1
                == bitmap_root.w1 && c.output_bitmap_root.w2 == bitmap_root.w2
                && c.output_bitmap_root.w3 == bitmap_root.w3,
            None => false,
        };
        if !(root_matches && self.tracker.has_request(&key)) {
            return ;
        }
        self.tracker.remove_request(&key);
        proof {
            assert(self.recs() == self.tracker.recs());
            assert forall|p: PeerAddr|
                peer_count(self.tracker.recs(), p) <= SEGMENTS_REQUEST_PER_PEER by {
                assert(peer_count(old(self).recs(), p) <= SEGMENTS_REQUEST_PER_PEER);
                lemma_peer_count_remove(
                    old(self).recs(),
                    key_index(old(self).recs(), key),
                    p,
                );
            }
        }
        if valid {
            let flags = match kind {
                SegmentKind::Bitmap => &mut self.bitmap_received,
                SegmentKind::Outputs => &mut self.outputs_received,
                SegmentKind::RangeProofs => &mut self.rangeproofs_received,
                SegmentKind::Kernels => &mut self.kernels_received,
            };
            if (segment_id as usize) < flags.len() {
                flags.set(segment_id as usize, true);
            }
            sync_peers.report_ok_response(peer);
        } else {
            let msg = String::from_str("bad state segment");
            sync_peers.report_error_response(peer, msg);
        }
        proof {
            assert(self.recs() == self.tracker.recs());
            assert(self.votes() == old(self).votes());
            assert forall|p: PeerAddr|
                peer_count(self.recs(), p) <= SEGMENTS_REQUEST_PER_PEER by {
                assert(peer_count(self.tracker.recs(), p) <= SEGMENTS_REQUEST_PER_PEER);
            }
            assert forall|i: int, j: int|
                0 <= i < j < self.votes().len() implies self.votes()[i].peer
                != self.votes()[j].peer by {
                assert(old(self).votes()[i].peer != old(self).votes()[j].peer);
            }
        }
    }

    /// Takes the chain's verdict on the validation the stage asked for.
    /// Success advances to the next phase, through to `Ready`; failure
    /// wipes the downloaded data, charges the peers whose reports backed
    /// the committed state, and starts the vote over.
    pub fn report_validation(&mut self, kind: ValidationKind, ok: bool, sync_peers: &mut SyncPeers)
        requires
            old(self).wf(),
            old(sync_peers).wf(),
        ensures
            final(self).wf(),
            final(sync_peers).wf(),
            ok ==> final(self).phase() == (match kind {
                ValidationKind::KernelsHistory => StatePhase::ValidatingHeaders,
                ValidationKind::Headers => StatePhase::ValidatingKernelsPos,
                ValidationKind::KernelsPos => StatePhase::ValidatingRangeProofs,
                ValidationKind::RangeProofs => StatePhase::ValidatingKernels,
                ValidationKind::Kernels => StatePhase::Ready,
            }),
            !ok ==> final(self).phase() == StatePhase::WaitingForStatus && final(self).committed()
                is None && final(self).recs().len() == 0 && final(self).votes().len() == 0,
    {
        if ok {
            self.phase = match kind {
                ValidationKind::KernelsHistory => StatePhase::ValidatingHeaders,
                ValidationKind::Headers => StatePhase::ValidatingKernelsPos,
                ValidationKind::KernelsPos => StatePhase::ValidatingRangeProofs,
                ValidationKind::RangeProofs => StatePhase::ValidatingKernels,
                ValidationKind::Kernels => StatePhase::Ready,
            };
            proof {
                assert(self.recs() == old(self).recs());
                assert(self.votes() == old(self).votes());
            }
        } else {
            // charge the peers that backed the failed state
            match &self.committed {
                Some(c) => {
                    let committed = *c;
                    let n = self.votes.len();
                    let mut k: usize = 0;
                    #[verifier::loop_isolation(false)]
                    while k < n
                        invariant
                            sync_peers.wf(),
                        decreases n - k,
                    {
                        let v = self.votes[k];
                        if v.header_hash == committed.header_hash && v.output_bitmap_root
                            == committed.output_bitmap_root {
                            let msg = String::from_str("bad archive state");
                            sync_peers.report_error_response(&v.peer, msg);
                        }
                        k += 1;
                    }
                },
                None => {},
            }
            self.reset_desegmenter_data();
        }
    }

    /// Wipes every downloaded segment and the commitment, so the state
    /// vote and download can start over.
    pub fn reset_desegmenter_data(&mut self)
        ensures
            final(self).wf(),
            final(self).phase() == StatePhase::WaitingForStatus,
            final(self).committed() is None,
            final(self).recs().len() == 0,
            final(self).votes().len() == 0,
    {
        self.phase = StatePhase::WaitingForStatus;
        self.votes = Vec::new();
        self.committed = None;
        self.tracker = RequestTracker::new();
        self.bitmap_received = Vec::new();
        self.outputs_received = Vec::new();
        self.rangeproofs_received = Vec::new();
        self.kernels_received = Vec::new();
        proof {
            assert forall|p: PeerAddr|
                peer_count(self.recs(), p) <= SEGMENTS_REQUEST_PER_PEER by {
                crate::tracker::lemma_peer_count_le_len(self.recs(), p);
            }
        }
    }
}

} // verus!
