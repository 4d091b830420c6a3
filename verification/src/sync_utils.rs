//! Routines shared by the sync stages: the response values a stage
//! returns, the cached terminal response, peer selection under capability
//! and queue-depth constraints, and the two host calls the sync loop
//! needs (wall clock and random choice).

use vstd::prelude::*;
use rand::Rng;
use crate::tracker::{
    entry_index, has_entry, lemma_peer_count_zero, QueueEntry, RequestTracker, SyncKey,
};
use crate::types::{Capabilities, PeerAddr, SyncPeerInfo};

verus! {

/// What a stage reports to the manager on one tick.
#[derive(Clone, Copy, PartialEq, Eq, Structural, Debug)]
pub enum SyncRequestResponses {
    WaitingForPeers,
    Syncing,
    WaitingForHeadersHash,
    WaitingForHeaders,
    HeadersHashReady,
    HeadersPibdReady,
    HeadersReady,
    StatePibdReady,
    BodyReady,
    SyncDone,
    BadState,
}

/// A stage response together with the capabilities the stage currently
/// wants in a peer and a short explanation.
pub struct SyncResponse {
    pub response: SyncRequestResponses,
    pub peers_capabilities: Capabilities,
    pub message: String,
}

impl SyncResponse {
    /// Builds a response value.
    pub fn new(
        response: SyncRequestResponses,
        peers_capabilities: Capabilities,
        message: String,
    ) -> (r: SyncResponse)
        ensures
            r.response == response,
            r.peers_capabilities == peers_capabilities,
            r.message == message,
    {
        SyncResponse { response, peers_capabilities, message }
    }
}

/// A response served from cache until a deadline.
pub struct CachedResponse<T> {
    response: T,
    expiration_time: u64,
}

impl<T: Copy> CachedResponse<T> {
    /// The cached value.
    pub closed spec fn spec_response(&self) -> T {
        self.response
    }

    /// The second the cache expires at.
    pub closed spec fn spec_expiration(&self) -> int {
        self.expiration_time as int
    }

    /// Caches `response` for `lifetime_secs` from `now` on, saturated at
    /// the clock's width.
    pub fn new(response: T, lifetime_secs: u64, now: u64) -> (r: CachedResponse<T>)
        ensures
            r.spec_response() == response,
            r.spec_expiration() == crate::tracker::spec_add_sat(
                now as int,
                lifetime_secs as int,
            ),
    {
        let expiration_time = if now > u64::MAX - lifetime_secs {
            u64::MAX
        } else {
            now + lifetime_secs
        };
        CachedResponse { response, expiration_time }
    }

    /// Whether the cache has expired at `now`.
    pub fn is_expired(&self, now: u64) -> (r: bool)
        ensures
            r == (now >= self.spec_expiration()),
    {
        now >= self.expiration_time
    }

    /// The cached value.
    pub fn get_response(&self) -> (r: T)
        ensures
            r == self.spec_response(),
    {
        self.response
    }
}

/// The depth recorded for `p` in the table `q`: the first matching
/// entry, or zero when none matches.
pub open spec fn depth_lookup(q: Seq<QueueEntry>, p: PeerAddr) -> int
    decreases q.len(),
{
    if q.len() == 0 {
        0
    } else if q.first().peer == p {
        q.first().requests as int
    } else {
        depth_lookup(q.drop_first(), p)
    }
}

/// Whether `p` qualifies for a stage wanting `required` capabilities and
/// data past `min_height`.
pub open spec fn spec_peer_selectable(
    p: SyncPeerInfo,
    required: Capabilities,
    min_height: u64,
) -> bool {
    &&& (p.capabilities.bits & required.bits) == required.bits
    &&& p.height > min_height
}

/// The qualified peers whose queue depth is still under `cap`, in input
/// order.
pub open spec fn spec_selected_peers(
    s: Seq<SyncPeerInfo>,
    q: Seq<QueueEntry>,
    required: Capabilities,
    min_height: u64,
    cap: int,
) -> Seq<SyncPeerInfo>
    decreases s.len(),
{
    if s.len() == 0 {
        Seq::empty()
    } else {
        let rest = spec_selected_peers(s.drop_last(), q, required, min_height, cap);
        if spec_peer_selectable(s.last(), required, min_height) && depth_lookup(q, s.last().addr)
            < cap {
            rest.push(s.last())
        } else {
            rest
        }
    }
}

/// The requests held by qualified peers already at their quota, summed
/// with saturation.
pub open spec fn spec_excluded_requests(
    s: Seq<SyncPeerInfo>,
    q: Seq<QueueEntry>,
    required: Capabilities,
    min_height: u64,
    cap: int,
) -> int
    decreases s.len(),
{
    if s.len() == 0 {
        0
    } else {
        let rest = spec_excluded_requests(s.drop_last(), q, required, min_height, cap);
        if spec_peer_selectable(s.last(), required, min_height) && depth_lookup(q, s.last().addr)
            >= cap {
            crate::tracker::spec_add_sat(rest, depth_lookup(q, s.last().addr))
        } else {
            rest
        }
    }
}

/// The queue depth of `p` in the table `q`.
pub fn depth_of(q: &Vec<QueueEntry>, p: &PeerAddr) -> (r: usize)
    ensures
        r as int == depth_lookup(q@, *p),
{
    let n = q.len();
    let mut i: usize = 0;
    while i < n
        invariant
            n == q@.len(),
            0 <= i <= n,
            forall|k: int| 0 <= k < i ==> q@[k].peer != *p,
        decreases n - i,
    {
        if q[i].peer == *p {
            proof {
                lemma_depth_lookup_prefix(q@, i as int, *p);
            }
            return q[i].requests;
        }
        i += 1;
    }
    proof {
        lemma_depth_lookup_absent(q@, *p);
    }
    0
}

/// With every entry before `j` missing `p` and entry `j` holding it, the
/// lookup lands on entry `j`.
proof fn lemma_depth_lookup_prefix(q: Seq<QueueEntry>, j: int, p: PeerAddr)
    requires
        0 <= j < q.len(),
        forall|k: int| 0 <= k < j ==> q[k].peer != p,
        q[j].peer == p,
    ensures
        depth_lookup(q, p) == q[j].requests,
    decreases j,
{
    if j == 0 {
    } else {
        assert(q.drop_first()[j - 1] == q[j]);
        assert(forall|k: int| 0 <= k < j - 1 ==> q.drop_first()[k] == q[k + 1]);
        lemma_depth_lookup_prefix(q.drop_first(), j - 1, p);
    }
}

/// With no entry for `p`, the lookup gives zero.
proof fn lemma_depth_lookup_absent(q: Seq<QueueEntry>, p: PeerAddr)
    requires
        forall|k: int| 0 <= k < q.len() ==> q[k].peer != p,
    ensures
        depth_lookup(q, p) == 0,
    decreases q.len(),
{
    if q.len() > 0 {
        assert(forall|k: int| 0 <= k < q.drop_first().len() ==> q.drop_first()[k] == q[k + 1]);
        lemma_depth_lookup_absent(q.drop_first(), p);
    }
}

/// On a well-formed tracker, the table lookup agrees with the depth the
/// records define.
pub proof fn lemma_depth_lookup_tracker<K: SyncKey>(t: &RequestTracker<K>, p: PeerAddr)
    requires
        t.wf(),
    ensures
        depth_lookup(t.queue(), p) == t.queue_depth(p),
{
    if has_entry(t.queue(), p) {
        let i = entry_index(t.queue(), p);
        assert(0 <= i < t.queue().len() && t.queue()[i].peer == p);
        assert forall|k: int| 0 <= k < i implies t.queue()[k].peer != p by {
            if t.queue()[k].peer == p {
                assert(t.queue()[k].peer != t.queue()[i].peer);
            }
        }
        lemma_depth_lookup_prefix(t.queue(), i, p);
    } else {
        lemma_depth_lookup_absent(t.queue(), p);
        assert forall|j: int| 0 <= j < t.recs().len() implies (#[trigger] t.recs()[j]).peer
            != p by {
            if t.recs()[j].peer == p {
                assert(has_entry(t.queue(), t.recs()[j].peer));
            }
        }
        lemma_peer_count_zero(t.recs(), p);
    }
}

/// Picks the peers a stage may request from now: those advertising the
/// required capabilities and data past `min_height` whose queue depth is
/// under `request_per_peer`. Also returns how many requests are held by
/// qualified peers already at their quota.
pub fn get_sync_peers(
    peers: &Vec<SyncPeerInfo>,
    request_per_peer: usize,
    capabilities: Capabilities,
    min_height: u64,
    peers_queue: &Vec<QueueEntry>,
) -> (r: (Vec<SyncPeerInfo>, u64))
    ensures
        r.0@ == spec_selected_peers(
            peers@,
            peers_queue@,
            capabilities,
            min_height,
            request_per_peer as int,
        ),
        r.1 as int == spec_excluded_requests(
            peers@,
            peers_queue@,
            capabilities,
            min_height,
            request_per_peer as int,
        ),
{
    let n = peers.len();
    let mut selected: Vec<SyncPeerInfo> = Vec::new();
    let mut excluded: u64 = 0;
    let mut i: usize = 0;
    while i < n
        invariant
            n == peers@.len(),
            0 <= i <= n,
            selected@ == spec_selected_peers(
                peers@.take(i as int),
                peers_queue@,
                capabilities,
                min_height,
                request_per_peer as int,
            ),
            excluded as int == spec_excluded_requests(
                peers@.take(i as int),
                peers_queue@,
                capabilities,
                min_height,
                request_per_peer as int,
            ),
        decreases n - i,
    {
        proof {
            assert(peers@.take(i + 1).drop_last() =~= peers@.take(i as int));
            assert(peers@.take(i + 1).last() == peers@[i as int]);
        }
        let p = peers[i];
        let qualified = p.capabilities.contains(capabilities) && p.height > min_height;
        let depth = depth_of(peers_queue, &p.addr);
        if qualified {
            if depth < request_per_peer {
                selected.push(p);
            } else {
                let d = depth as u64;
                excluded = if excluded > u64::MAX - d {
                    u64::MAX
                } else {
                    excluded + d
                };
            }
        }
        i += 1;
    }
    proof {
        assert(peers@.take(n as int) =~= peers@);
    }
    (selected, excluded)
}

/// The selection policy: every peer the selection hands back advertises
/// the required capability bits and still has room under its quota.
pub proof fn lemma_selected_peers_sound(
    s: Seq<SyncPeerInfo>,
    q: Seq<QueueEntry>,
    required: Capabilities,
    min_height: u64,
    cap: int,
)
    ensures
        forall|i: int|
            0 <= i < spec_selected_peers(s, q, required, min_height, cap).len() ==> {
                let p = #[trigger] spec_selected_peers(s, q, required, min_height, cap)[i];
                spec_peer_selectable(p, required, min_height) && depth_lookup(q, p.addr) < cap
            },
    decreases s.len(),
{
    if s.len() > 0 {
        lemma_selected_peers_sound(s.drop_last(), q, required, min_height, cap);
        let rest = spec_selected_peers(s.drop_last(), q, required, min_height, cap);
        if spec_peer_selectable(s.last(), required, min_height) && depth_lookup(q, s.last().addr)
            < cap {
            assert(forall|i: int|
                0 <= i < rest.len() ==> rest.push(s.last())[i] == rest[i]);
        }
    }
}

/// Every selected peer is one of the given peers.
pub proof fn lemma_selected_peers_subset(
    s: Seq<SyncPeerInfo>,
    q: Seq<QueueEntry>,
    required: Capabilities,
    min_height: u64,
    cap: int,
)
    ensures
        forall|i: int|
            0 <= i < spec_selected_peers(s, q, required, min_height, cap).len() ==> exists|j: int|
                0 <= j < s.len() && s[j] == #[trigger] spec_selected_peers(
                    s,
                    q,
                    required,
                    min_height,
                    cap,
                )[i],
    decreases s.len(),
{
    if s.len() > 0 {
        lemma_selected_peers_subset(s.drop_last(), q, required, min_height, cap);
        let rest = spec_selected_peers(s.drop_last(), q, required, min_height, cap);
        assert forall|i: int|
            0 <= i < spec_selected_peers(s, q, required, min_height, cap).len() implies exists|
            j: int,
        |
            0 <= j < s.len() && s[j] == #[trigger] spec_selected_peers(
                s,
                q,
                required,
                min_height,
                cap,
            )[i] by {
            let sel = spec_selected_peers(s, q, required, min_height, cap);
            if i < rest.len() {
                assert(sel[i] == rest[i]);
                let j = choose|j: int| 0 <= j < s.drop_last().len() && s.drop_last()[j] == rest[i];
                assert(s[j] == sel[i]);
            } else {
                assert(sel[i] == s.last());
                assert(s[s.len() - 1] == sel[i]);
            }
        }
    }
}

/// Relies on chrono's `Utc::now`: a wall-clock reading in seconds since
/// the epoch. Nothing is assumed of the value; callers hand it to the
/// verified logic as a plain input. chrono itself refuses a host clock
/// set before the epoch.
#[verifier::external_body]
pub fn now_utc_seconds() -> (r: i64) {
    chrono::Utc::now().timestamp()
}

/// The wall clock as an unsigned second count. The clamp keeps the
/// conversion total for any reading, though chrono never returns a
/// negative one.
pub fn now_seconds() -> (r: u64) {
    let t = now_utc_seconds();
    if t < 0 {
        0
    } else {
        t as u64
    }
}

/// Relies on rand's `Rng::gen_range` over `0..upper`: the sample lies in
/// that half-open range, which the precondition keeps non-empty.
#[verifier::external_body]
pub fn random_index(upper: usize) -> (r: usize)
    requires
        upper > 0,
    ensures
        r < upper,
{
    rand::thread_rng().gen_range(0..upper)
}

} // verus!
