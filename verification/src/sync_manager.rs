//! The sync manager: on each tick it consults the four staged syncers in
//! fixed order — header hashes, headers, state, bodies — forwards the
//! first non-ready response, handles the reset transitions between
//! stages, and caches a finished outcome for a grace period. Transport
//! and storage actions decided by the stages are returned for the caller
//! to perform.

use vstd::prelude::*;
use crate::body_sync::{BlockRequest, BodySync};
use crate::chain_view::ChainView;
use crate::header_hashes_sync::HeadersHashSync;
use crate::header_sync::{HeaderBatchRequest, HeaderSync};
use crate::pibd_params::SYNC_DONE_CACHE_SECS;
use crate::segments::SegmentRequest;
use crate::state_sync::{SegmentTotals, StateSync, ValidationKind};
use crate::sync_peers::SyncPeers;
use crate::state_sync::StatePhase;
use crate::sync_utils::{CachedResponse, SyncRequestResponses, SyncResponse};
use crate::types::{Capabilities, PeerAddr, SyncPeerInfo, SyncStatus, CAPS_UNKNOWN};

verus! {

/// The greatest height an outbound peer reports, zero when none does.
pub open spec fn spec_max_outbound_height(s: Seq<SyncPeerInfo>) -> int
    decreases s.len(),
{
    if s.len() == 0 {
        0
    } else {
        let rest = spec_max_outbound_height(s.drop_last());
        if s.last().outbound && s.last().height > rest {
            s.last().height as int
        } else {
            rest
        }
    }
}

/// The greatest height any peer reports, zero when none does.
pub open spec fn spec_max_height(s: Seq<SyncPeerInfo>) -> int
    decreases s.len(),
{
    if s.len() == 0 {
        0
    } else {
        let rest = spec_max_height(s.drop_last());
        if s.last().height > rest {
            s.last().height as int
        } else {
            rest
        }
    }
}

/// The height the sync aims for: the maximum advertised by an outbound
/// connected peer, falling back to every connected peer when no
/// outbound peer reports one.
pub open spec fn spec_best_height(s: Seq<SyncPeerInfo>) -> int {
    if spec_max_outbound_height(s) > 0 {
        spec_max_outbound_height(s)
    } else {
        spec_max_height(s)
    }
}

/// Everything one manager tick decided: the response, the bans to push
/// through, the status to report, and the requests of whichever stage
/// ran.
pub struct ManagerTick {
    pub response: SyncResponse,
    pub bans: Vec<PeerAddr>,
    pub status: Option<SyncStatus>,
    pub root_queries: Vec<PeerAddr>,
    pub hash_segment_requests: Vec<SegmentRequest>,
    pub header_requests: Vec<HeaderBatchRequest>,
    pub bitmap_requests: Vec<SegmentRequest>,
    pub output_requests: Vec<SegmentRequest>,
    pub rangeproof_requests: Vec<SegmentRequest>,
    pub kernel_requests: Vec<SegmentRequest>,
    pub block_requests: Vec<BlockRequest>,
    pub kick_orphan: Option<crate::types::Hash>,
    pub validate: Option<ValidationKind>,
}

/// The manager of the staged sync.
pub struct SyncManager {
    headers_hashes: HeadersHashSync,
    headers: HeaderSync,
    state: StateSync,
    body: BodySync,
    // bad header hashes surface late, so header-class bans are tracked
    // apart and can be undone wholesale
    headers_sync_peers: SyncPeers,
    state_sync_peers: SyncPeers,
    cached_response: Option<CachedResponse<SyncRequestResponses>>,
}

impl SyncManager {
    /// All parts are well-formed.
    pub closed spec fn wf(&self) -> bool {
        &&& self.headers_hashes.wf()
        &&& self.headers.wf()
        &&& self.state.wf()
        &&& self.body.wf()
        &&& self.headers_sync_peers.wf()
        &&& self.state_sync_peers.wf()
    }

    /// Whether a finished outcome is cached.
    pub closed spec fn has_cached(&self) -> bool {
        self.cached_response is Some
    }

    /// The cached outcome.
    pub closed spec fn cached_value(&self) -> SyncRequestResponses {
        self.cached_response->Some_0.spec_response()
    }

    /// The header-hash stage.
    pub closed spec fn headers_hashes_stage(&self) -> HeadersHashSync {
        self.headers_hashes
    }

    /// The header stage.
    pub closed spec fn headers_stage(&self) -> HeaderSync {
        self.headers
    }

    /// The state stage.
    pub closed spec fn state_stage(&self) -> StateSync {
        self.state
    }

    /// The body stage.
    pub closed spec fn body_stage(&self) -> BodySync {
        self.body
    }

    /// The header-class scoring ledger.
    pub closed spec fn headers_ledger(&self) -> SyncPeers {
        self.headers_sync_peers
    }

    /// The state- and body-class scoring ledger.
    pub closed spec fn state_ledger(&self) -> SyncPeers {
        self.state_sync_peers
    }

    /// The second the cached outcome expires at.
    pub closed spec fn cached_expiration(&self) -> int {
        self.cached_response->Some_0.spec_expiration()
    }

    /// A fresh manager: every stage at its start, both ledgers empty,
    /// nothing cached.
    pub fn new() -> (r: SyncManager)
        ensures
            r.wf(),
            !r.has_cached(),
            r.headers_hashes_stage().committed() is None,
            r.headers_hashes_stage().votes().len() == 0,
            r.headers_hashes_stage().recs().len() == 0,
            !r.headers_hashes_stage().is_pibd_ready(),
            r.headers_stage().recs().len() == 0,
            r.state_stage().phase() == StatePhase::WaitingForStatus,
            r.state_stage().committed() is None,
            r.state_stage().recs().len() == 0,
            r.body_stage().recs().len() == 0,
            r.body_stage().series().len() == 0,
            r.headers_ledger().tallies().len() == 0,
            r.state_ledger().tallies().len() == 0,
    {
        SyncManager {
            headers_hashes: HeadersHashSync::new(),
            headers: HeaderSync::new(),
            state: StateSync::new(),
            body: BodySync::new(),
            headers_sync_peers: SyncPeers::new(),
            state_sync_peers: SyncPeers::new(),
            cached_response: None,
        }
    }

    /// The best height advertised by a connected peer: the maximum
    /// height among outbound peers that report one, falling back to
    /// every connected peer, or zero with no usable peer.
    pub fn best_height(peers: &Vec<SyncPeerInfo>) -> (r: u64)
        ensures
            r as int == spec_best_height(peers@),
    {
        let n = peers.len();
        let mut best_out: u64 = 0;
        let mut best_all: u64 = 0;
        let mut i: usize = 0;
        while i < n
            invariant
                n == peers@.len(),
                0 <= i <= n,
                best_out as int == spec_max_outbound_height(peers@.take(i as int)),
                best_all as int == spec_max_height(peers@.take(i as int)),
            decreases n - i,
        {
            proof {
                assert(peers@.take(i + 1).drop_last() =~= peers@.take(i as int));
                assert(peers@.take(i + 1).last() == peers@[i as int]);
            }
            let p = peers[i];
            if p.outbound && p.height > best_out {
                best_out = p.height;
            }
            if p.height > best_all {
                best_all = p.height;
            }
            i += 1;
        }
        proof {
            assert(peers@.take(n as int) =~= peers@);
        }
        if best_out > 0 {
            best_out
        } else {
            best_all
        }
    }

    /// One manager tick: serves a cached finished outcome, pushes
    /// pending bans through, finds the best advertised height, then runs
    /// the stages in order and forwards the first response that is not a
    /// hand-over to the next stage. `BodyReady` with headers done
    /// finishes the sync and caches the outcome for
    /// [`SYNC_DONE_CACHE_SECS`].
    pub fn request(
        &mut self,
        chain: &ChainView,
        peers: &Vec<SyncPeerInfo>,
        totals: &SegmentTotals,
        now: u64,
    ) -> (r: ManagerTick)
        requires
            old(self).wf(),
            chain.wf(),
        ensures
            final(self).wf(),
            old(self).has_cached() && now < old(self).cached_expiration() ==> r.response.response
                == old(self).cached_value() && *final(self) == *old(self) && r.bans@.len() == 0,
            r.response.response == SyncRequestResponses::SyncDone ==> final(self).has_cached()
                && final(self).cached_value() == SyncRequestResponses::SyncDone,
            !(old(self).has_cached() && now < old(self).cached_expiration())
                && r.response.response == SyncRequestResponses::SyncDone
                ==> final(self).cached_expiration() == crate::tracker::spec_add_sat(
                now as int,
                crate::pibd_params::SYNC_DONE_CACHE_SECS as int,
            ),
            ({
                let miss = !(old(self).has_cached() && now < old(self).cached_expiration());
                let best = spec_best_height(peers@);
                let arch = crate::chain_view::spec_archive_height(best);
                let hh0 = old(self).headers_hashes_stage();
                let hashes_ok = crate::header_hashes_sync::spec_hash_data_ready(hh0);
                let headers_ready = hashes_ok && chain.header_head.height >= best;
                let state_ready = old(self).state_stage().phase() == StatePhase::Ready || arch
                    == 0;
                let hresp = crate::header_sync::spec_headers_response(
                    old(self).headers_stage().queue(),
                    hh0,
                    chain.header_head,
                    peers@,
                    best as u64,
                );
                &&& (miss ==> r.bans@ == crate::sync_peers::banned_addrs(
                    old(self).headers_ledger().tallies(),
                ) + crate::sync_peers::banned_addrs(old(self).state_ledger().tallies()))
                &&& (miss && best == 0 ==> r.response.response
                    == SyncRequestResponses::WaitingForPeers && final(self).headers_hashes_stage() == old(self).headers_hashes_stage() && final(self).headers_stage() == old(self).headers_stage() && final(self).state_stage()
                    == old(self).state_stage() && final(self).body_stage() == old(self).body_stage())
                &&& (miss ==> ((r.response.response == SyncRequestResponses::SyncDone) == (best
                    > 0 && headers_ready && state_ready && crate::body_sync::spec_body_done(
                    *chain,
                ))))
                &&& (miss && best > 0 && hashes_ok && hresp
                    == SyncRequestResponses::WaitingForPeers ==> r.response.response
                    == SyncRequestResponses::WaitingForPeers && final(self).headers_hashes_stage().committed() is None && final(self).headers_ledger().tallies().len() == 0)
                &&& (miss && best > 0 && hashes_ok && hresp
                    == SyncRequestResponses::HeadersPibdReady ==> final(self).headers_hashes_stage().is_pibd_ready())
                &&& (miss && best > 0 && hashes_ok && (hresp == SyncRequestResponses::HeadersReady
                    || hresp == SyncRequestResponses::HeadersPibdReady) && state_ready
                    && !crate::body_sync::spec_body_done(*chain)
                    && crate::body_sync::spec_body_bad_state(*chain, best)
                    ==> r.response.response == SyncRequestResponses::BadState && final(self).state_stage().phase() == StatePhase::WaitingForStatus && final(self).state_stage().committed() is None)
                &&& (miss && best > 0 && hashes_ok && hresp
                    == SyncRequestResponses::HeadersPibdReady && state_ready
                    && crate::body_sync::spec_body_done(*chain) ==> r.response.response
                    == SyncRequestResponses::Syncing && r.response.peers_capabilities == final(self).body_stage().caps())
                &&& (miss && best > 0 && !hashes_ok ==> final(self).headers_stage() == old(self).headers_stage()
                    && final(self).state_stage() == old(self).state_stage()
                    && final(self).body_stage() == old(self).body_stage()
                    && r.header_requests@.len() == 0 && r.block_requests@.len() == 0
                    && r.bitmap_requests@.len() == 0 && r.output_requests@.len() == 0
                    && r.rangeproof_requests@.len() == 0 && r.kernel_requests@.len() == 0
                    && r.validate is None && r.kick_orphan is None)
                &&& (miss && best > 0 && hashes_ok && hresp != SyncRequestResponses::HeadersReady
                    && hresp != SyncRequestResponses::HeadersPibdReady ==> final(self).state_stage()
                    == old(self).state_stage() && final(self).body_stage() == old(self).body_stage()
                    && r.block_requests@.len() == 0 && r.bitmap_requests@.len() == 0
                    && r.output_requests@.len() == 0 && r.rangeproof_requests@.len() == 0
                    && r.kernel_requests@.len() == 0 && r.validate is None
                    && r.kick_orphan is None)
                &&& (miss && best > 0 && hashes_ok && (hresp == SyncRequestResponses::HeadersReady
                    || hresp == SyncRequestResponses::HeadersPibdReady) && !state_ready
                    ==> final(self).body_stage() == old(self).body_stage()
                    && r.block_requests@.len() == 0 && r.kick_orphan is None)
            }),
    {
        // a finished sync is served from cache for a grace period
        let mut cache_hit = false;
        match &self.cached_response {
            Some(c) => {
                if !c.is_expired(now) {
                    cache_hit = true;
                } else {
                    cache_hit = false;
                }
            },
            None => {},
        }
        if cache_hit {
            let resp = match &self.cached_response {
                Some(c) => c.get_response(),
                None => SyncRequestResponses::SyncDone,
            };
            proof {
                assert(self.cached_response is Some);
            }
            return Self::tick_of(
                SyncResponse::new(
                    resp,
                    Capabilities { bits: CAPS_UNKNOWN },
                    String::from_str("DONE!"),
                ),
            );
        }
        self.cached_response = None;

        // push pending bans of both ledgers through to the caller
        let mut bans = self.headers_sync_peers.apply_peers_status();
        let mut state_bans = self.state_sync_peers.apply_peers_status();
        bans.append(&mut state_bans);

        let best_height = Self::best_height(peers);
        if best_height == 0 {
            let mut out = Self::tick_of(
                SyncResponse::new(
                    SyncRequestResponses::WaitingForPeers,
                    Capabilities { bits: CAPS_UNKNOWN },
                    String::from_str("Peers height is 0"),
                ),
            );
            out.bans = bans;
            return out;
        }

        // stage one: the header-hash root and its segments
        let hh = self.headers_hashes.request(
            peers,
            &mut self.headers_sync_peers,
            best_height,
            now,
        );
        match hh.response {
            SyncRequestResponses::HeadersPibdReady | SyncRequestResponses::HeadersHashReady => {},
            _ => {
                let mut out = Self::tick_of(
                    SyncResponse::new(
                        hh.response,
                        Capabilities { bits: crate::types::CAPS_HEADER_HIST },
                        String::from_str("headers hashes"),
                    ),
                );
                out.bans = bans;
                out.status = hh.status;
                out.root_queries = hh.root_queries;
                out.hash_segment_requests = hh.segment_requests;
                return out;
            },
        }

        // stage two: the headers up to the committed archive point
        let mut headers_ready = false;
        let hr = self.headers.request(
            &chain.header_head,
            &self.headers_hashes,
            peers,
            &mut self.headers_sync_peers,
            best_height,
            now,
        );
        match hr.response {
            SyncRequestResponses::WaitingForPeers => {
                // the committed root may be bad: undo the speculative
                // bans and start the header work over
                self.headers_hashes.reset_ban_commited_to_hash(&mut self.headers_sync_peers);
                self.headers_sync_peers.reset();
                let mut out = Self::tick_of(
                    SyncResponse::new(
                        hr.response,
                        Capabilities { bits: crate::types::CAPS_HEADER_HIST },
                        String::from_str("headers"),
                    ),
                );
                out.bans = bans;
                out.status = hr.status;
                return out;
            },
            SyncRequestResponses::HeadersPibdReady => {
                self.headers_hashes.reset_hash_data();
            },
            SyncRequestResponses::HeadersReady => {
                headers_ready = true;
            },
            _ => {
                let mut out = Self::tick_of(
                    SyncResponse::new(
                        hr.response,
                        Capabilities { bits: crate::types::CAPS_HEADER_HIST },
                        String::from_str("headers"),
                    ),
                );
                out.bans = bans;
                out.status = hr.status;
                out.header_requests = hr.requests;
                return out;
            },
        }

        // stage three: the txhashset state at the archive point
        let st = self.state.request(
            peers,
            &mut self.state_sync_peers,
            totals,
            chain.header_head.height,
            best_height,
            now,
        );
        match st.response {
            SyncRequestResponses::StatePibdReady => {},
            _ => {
                let mut out = Self::tick_of(
                    SyncResponse::new(
                        st.response,
                        Capabilities { bits: crate::types::CAPS_PIBD_HIST },
                        String::from_str("state"),
                    ),
                );
                out.bans = bans;
                out.status = st.status;
                out.bitmap_requests = st.bitmap_requests;
                out.output_requests = st.output_requests;
                out.rangeproof_requests = st.rangeproof_requests;
                out.kernel_requests = st.kernel_requests;
                out.validate = st.validate;
                return out;
            },
        }

        // stage four: the blocks up to the header tip
        let bt = self.body.request(chain, peers, &mut self.state_sync_peers, best_height, now);
        match bt.response {
            SyncRequestResponses::BodyReady => {
                if headers_ready {
                    let resp = SyncResponse::new(
                        SyncRequestResponses::SyncDone,
                        Capabilities { bits: CAPS_UNKNOWN },
                        String::from_str("DONE!"),
                    );
                    self.cached_response = Some(
                        CachedResponse::new(SyncRequestResponses::SyncDone, SYNC_DONE_CACHE_SECS, now),
                    );
                    let mut out = Self::tick_of(resp);
                    out.bans = bans;
                    return out;
                }
                let mut out = Self::tick_of(
                    SyncResponse::new(
                        SyncRequestResponses::Syncing,
                        self.body.get_peer_capabilities(),
                        String::from_str("Waiting for headers, even body is done"),
                    ),
                );
                out.bans = bans;
                return out;
            },
            SyncRequestResponses::BadState => {
                // body sync fell below the archive point: wipe the
                // partial state and run the state download again
                self.state.reset_desegmenter_data();
                let mut out = Self::tick_of(
                    SyncResponse::new(
                        bt.response,
                        self.body.get_peer_capabilities(),
                        String::from_str("body below archive"),
                    ),
                );
                out.bans = bans;
                return out;
            },
            _ => {},
        }
        let mut out = Self::tick_of(
            SyncResponse::new(
                bt.response,
                self.body.get_peer_capabilities(),
                String::from_str("body"),
            ),
        );
        out.bans = bans;
        out.status = bt.status;
        out.block_requests = bt.requests;
        out.kick_orphan = bt.kick_orphan;
        out
    }

    /// A tick carrying only a response.
    fn tick_of(response: SyncResponse) -> (r: ManagerTick)
        ensures
            r.response == response,
            r.bans@.len() == 0,
            r.status is None,
            r.root_queries@.len() == 0,
            r.hash_segment_requests@.len() == 0,
            r.header_requests@.len() == 0,
            r.bitmap_requests@.len() == 0,
            r.output_requests@.len() == 0,
            r.rangeproof_requests@.len() == 0,
            r.kernel_requests@.len() == 0,
            r.block_requests@.len() == 0,
            r.kick_orphan is None,
            r.validate is None,
    {
        ManagerTick {
            response,
            bans: Vec::new(),
            status: None,
            root_queries: Vec::new(),
            hash_segment_requests: Vec::new(),
            header_requests: Vec::new(),
            bitmap_requests: Vec::new(),
            output_requests: Vec::new(),
            rangeproof_requests: Vec::new(),
            kernel_requests: Vec::new(),
            block_requests: Vec::new(),
            kick_orphan: None,
            validate: None,
        }
    }

    /// Hands a peer's header-hash root report to the header-hash stage.
    pub fn receive_headers_hash_response(
        &mut self,
        peer: &PeerAddr,
        archive_height: u64,
        headers_hash_root: crate::types::Hash,
    )
        requires
            old(self).wf(),
        ensures
            final(self).wf(),
    {
        self.headers_hashes.receive_headers_hash_response(
            peer,
            archive_height,
            headers_hash_root,
            &mut self.headers_sync_peers,
        );
    }

    /// Hands a header-hash segment report to the header-hash stage.
    pub fn receive_header_hashes_segment(
        &mut self,
        peer: &PeerAddr,
        header_hashes_root: &crate::types::Hash,
        segment_id: u64,
        valid: bool,
    )
        requires
            old(self).wf(),
        ensures
            final(self).wf(),
    {
        self.headers_hashes.receive_header_hashes_segment(
            peer,
            header_hashes_root,
            segment_id,
            valid,
            &mut self.headers_sync_peers,
        );
    }

    /// Hands a header batch report to the header stage.
    pub fn receive_headers(
        &mut self,
        peer: &PeerAddr,
        headers: &Vec<crate::header_sync::HeaderLite>,
        pow_ok: bool,
        root_ok: bool,
    ) -> (accepted: bool)
        requires
            old(self).wf(),
        ensures
            final(self).wf(),
            accepted == (headers@.len() > 0 && crate::header_sync::spec_batch_contiguous(headers@)
                && pow_ok && root_ok),
    {
        self.headers.receive_headers(peer, headers, pow_ok, root_ok, &mut self.headers_sync_peers)
    }

    /// Hands a peer's archive state report to the state stage.
    pub fn receive_pibd_status(
        &mut self,
        peer: &PeerAddr,
        header_hash: crate::types::Hash,
        header_height: u64,
        output_bitmap_root: crate::types::Hash,
    )
        requires
            old(self).wf(),
        ensures
            final(self).wf(),
    {
        self.state.receive_pibd_status(peer, header_hash, header_height, output_bitmap_root);
    }

    /// Records that a peer reported another archive header, for later
    /// failover if the committed root turns out bad.
    pub fn receive_another_archive_header(
        &mut self,
        peer: &PeerAddr,
        header_hash: &crate::types::Hash,
        header_height: u64,
    )
        requires
            old(self).wf(),
        ensures
            final(self).wf(),
    {
        self.headers_hashes.receive_another_archive_header(peer, header_hash, header_height);
        self.state.receive_another_archive_header(peer, header_hash, header_height);
    }

    /// Hands a state segment report of one MMR kind to the state stage.
    pub fn receive_state_segment(
        &mut self,
        kind: crate::state_sync::SegmentKind,
        peer: &PeerAddr,
        bitmap_root: &crate::types::Hash,
        segment_id: u64,
        valid: bool,
    )
        requires
            old(self).wf(),
        ensures
            final(self).wf(),
    {
        self.state.receive_segment(
            kind,
            peer,
            bitmap_root,
            segment_id,
            valid,
            &mut self.state_sync_peers,
        );
    }

    /// Hands the chain's validation verdict to the state stage.
    pub fn report_validation(&mut self, kind: ValidationKind, ok: bool)
        requires
            old(self).wf(),
        ensures
            final(self).wf(),
    {
        self.state.report_validation(kind, ok, &mut self.state_sync_peers);
    }

    /// Hands a block report to the body stage; returns the refill
    /// requests its response countdown may have released.
    pub fn receive_block_reporting(
        &mut self,
        accepted: bool,
        peer: &PeerAddr,
        block_hash: &crate::types::Hash,
        chain: &ChainView,
        peers: &Vec<SyncPeerInfo>,
        now: u64,
    ) -> (r: Vec<BlockRequest>)
        requires
            old(self).wf(),
            chain.wf(),
        ensures
            final(self).wf(),
    {
        self.body.receive_block_reporting(
            accepted,
            block_hash,
            peer,
            chain,
            peers,
            &mut self.state_sync_peers,
            now,
        )
    }

    /// Hands a failed block send to the body stage.
    pub fn report_block_send_failure(
        &mut self,
        block_hash: &crate::types::Hash,
        peer: &PeerAddr,
        message: String,
    )
        requires
            old(self).wf(),
        ensures
            final(self).wf(),
    {
        self.body.report_send_failure(block_hash, peer, message, &mut self.state_sync_peers);
    }
}

} // verus!
