//! The inflight-request tracker of one sync stage: which key is owed by
//! which peer, since when, and how many requests each peer currently owes.
//! Expiry is swept lazily on each tick; every removal charges an error to
//! the owing peer.

use vstd::prelude::*;
use crate::sync_peers::{spec_inc_sat, SyncPeers};
use crate::types::PeerAddr;

verus! {

/// Responses after which the opportunistic refill fires again.
pub const UPDATE_REQUESTS_TO_NEXT_ASK: usize = 10;

/// A key a request can be registered under. The stages key requests by
/// block hash or by segment index; the tracker needs decided equality.
pub trait SyncKey: Sized {
    /// Equality of keys, agreeing with spec equality.
    fn key_eq(&self, other: &Self) -> (r: bool)
        ensures
            r == (*self == *other),
    ;
}

impl SyncKey for u64 {
    fn key_eq(&self, other: &Self) -> (r: bool) {
        *self == *other
    }
}

impl SyncKey for crate::types::Hash {
    fn key_eq(&self, other: &Self) -> (r: bool) {
        self.w0 == other.w0 && self.w1 == other.w1 && self.w2 == other.w2 && self.w3 == other.w3
    }
}

/// One outstanding request: the key, the peer that owes the response, a
/// short description and the second it was issued at.
pub struct RequestRecord<K> {
    pub key: K,
    pub peer: PeerAddr,
    pub label: String,
    pub issued_at: u64,
}

/// The queue depth of one peer: how many tracked requests it owes.
#[derive(Clone, Copy, PartialEq, Eq, Structural, Debug)]
pub struct QueueEntry {
    pub peer: PeerAddr,
    pub requests: usize,
}

/// How many records in `s` are owed by `p`.
pub open spec fn peer_count<K>(s: Seq<RequestRecord<K>>, p: PeerAddr) -> nat
    decreases s.len(),
{
    if s.len() == 0 {
        0
    } else {
        (if s.first().peer == p {
            1nat
        } else {
            0nat
        }) + peer_count(s.drop_first(), p)
    }
}

/// The keys in `s` are pairwise distinct.
pub open spec fn keys_distinct<K>(s: Seq<RequestRecord<K>>) -> bool {
    forall|i: int, j: int| 0 <= i < j < s.len() ==> s[i].key != s[j].key
}

/// Whether `s` holds a record for key `k`.
pub open spec fn has_req_key<K>(s: Seq<RequestRecord<K>>, k: K) -> bool {
    exists|i: int| 0 <= i < s.len() && s[i].key == k
}

/// The index of the record for key `k` in `s`.
pub open spec fn key_index<K>(s: Seq<RequestRecord<K>>, k: K) -> int {
    choose|i: int| 0 <= i < s.len() && s[i].key == k
}

/// Whether `q` holds a depth entry for `p`.
pub open spec fn has_entry(q: Seq<QueueEntry>, p: PeerAddr) -> bool {
    exists|i: int| 0 <= i < q.len() && q[i].peer == p
}

/// The index of the depth entry for `p` in `q`.
pub open spec fn entry_index(q: Seq<QueueEntry>, p: PeerAddr) -> int {
    choose|i: int| 0 <= i < q.len() && q[i].peer == p
}

/// The sum of the depths in `q`.
pub open spec fn sum_queue(q: Seq<QueueEntry>) -> int
    decreases q.len(),
{
    if q.len() == 0 {
        0
    } else {
        q.first().requests + sum_queue(q.drop_first())
    }
}

/// The records of `s` still fresh at `now` under `timeout`, in order: a
/// record stays exactly when `now - issued_at < timeout`.
pub open spec fn retained<K>(s: Seq<RequestRecord<K>>, now: u64, timeout: u64) -> Seq<
    RequestRecord<K>,
>
    decreases s.len(),
{
    if s.len() == 0 {
        Seq::empty()
    } else if s.first().issued_at + timeout > now {
        seq![s.first()] + retained(s.drop_first(), now, timeout)
    } else {
        retained(s.drop_first(), now, timeout)
    }
}

/// `a + b`, saturated at `u64::MAX`.
pub open spec fn spec_add_sat(a: int, b: int) -> int {
    if a + b > u64::MAX {
        u64::MAX as int
    } else {
        a + b
    }
}

pub proof fn lemma_peer_count_push<K>(s: Seq<RequestRecord<K>>, r: RequestRecord<K>, p: PeerAddr)
    ensures
        peer_count(s.push(r), p) == peer_count(s, p) + (if r.peer == p {
            1nat
        } else {
            0nat
        }),
    decreases s.len(),
{
    if s.len() == 0 {
        assert(s.push(r).drop_first() =~= Seq::<RequestRecord<K>>::empty());
        assert(peer_count(Seq::<RequestRecord<K>>::empty(), p) == 0);
        assert(s.push(r).first() == r);
    } else {
        assert(s.push(r).drop_first() =~= s.drop_first().push(r));
        lemma_peer_count_push(s.drop_first(), r, p);
    }
}

pub proof fn lemma_peer_count_remove<K>(s: Seq<RequestRecord<K>>, i: int, p: PeerAddr)
    requires
        0 <= i < s.len(),
    ensures
        peer_count(s.remove(i), p) + (if s[i].peer == p {
            1nat
        } else {
            0nat
        }) == peer_count(s, p),
    decreases s.len(),
{
    if i == 0 {
        assert(s.remove(0) =~= s.drop_first());
    } else {
        assert(s.remove(i).drop_first() =~= s.drop_first().remove(i - 1));
        assert(s.remove(i).first() == s.first());
        lemma_peer_count_remove(s.drop_first(), i - 1, p);
    }
}

pub proof fn lemma_peer_count_zero<K>(s: Seq<RequestRecord<K>>, p: PeerAddr)
    requires
        forall|j: int| 0 <= j < s.len() ==> s[j].peer != p,
    ensures
        peer_count(s, p) == 0,
    decreases s.len(),
{
    if s.len() > 0 {
        assert(s[0].peer != p);
        assert(forall|j: int|
            0 <= j < s.drop_first().len() ==> s.drop_first()[j] == s[j + 1]);
        lemma_peer_count_zero(s.drop_first(), p);
    }
}

pub proof fn lemma_peer_count_pos<K>(s: Seq<RequestRecord<K>>, i: int)
    requires
        0 <= i < s.len(),
    ensures
        peer_count(s, s[i].peer) >= 1,
    decreases s.len(),
{
    if i == 0 {
    } else {
        assert(s.drop_first()[i - 1] == s[i]);
        lemma_peer_count_pos(s.drop_first(), i - 1);
    }
}

pub proof fn lemma_peer_count_le_len<K>(s: Seq<RequestRecord<K>>, p: PeerAddr)
    ensures
        peer_count(s, p) <= s.len(),
    decreases s.len(),
{
    if s.len() > 0 {
        lemma_peer_count_le_len(s.drop_first(), p);
    }
}

proof fn lemma_sum_queue_push(q: Seq<QueueEntry>, e: QueueEntry)
    ensures
        sum_queue(q.push(e)) == sum_queue(q) + e.requests,
    decreases q.len(),
{
    if q.len() == 0 {
        assert(q.push(e).drop_first() =~= Seq::<QueueEntry>::empty());
        assert(sum_queue(Seq::<QueueEntry>::empty()) == 0);
        assert(q.push(e).first() == e);
    } else {
        assert(q.push(e).drop_first() =~= q.drop_first().push(e));
        lemma_sum_queue_push(q.drop_first(), e);
    }
}

proof fn lemma_sum_queue_remove(q: Seq<QueueEntry>, i: int)
    requires
        0 <= i < q.len(),
    ensures
        sum_queue(q.remove(i)) == sum_queue(q) - q[i].requests,
    decreases q.len(),
{
    if i == 0 {
        assert(q.remove(0) =~= q.drop_first());
    } else {
        assert(q.remove(i).drop_first() =~= q.drop_first().remove(i - 1));
        assert(q.remove(i).first() == q.first());
        lemma_sum_queue_remove(q.drop_first(), i - 1);
    }
}

proof fn lemma_sum_queue_update(q: Seq<QueueEntry>, i: int, e: QueueEntry)
    requires
        0 <= i < q.len(),
    ensures
        sum_queue(q.update(i, e)) == sum_queue(q) - q[i].requests + e.requests,
    decreases q.len(),
{
    if i == 0 {
        assert(q.update(0, e).drop_first() =~= q.drop_first());
        assert(q.update(0, e).first() == e);
    } else {
        assert(q.update(i, e).drop_first() =~= q.drop_first().update(i - 1, e));
        assert(q.update(i, e).first() == q.first());
        lemma_sum_queue_update(q.drop_first(), i - 1, e);
    }
}

/// Fewer records of any peer survive the sweep than went into it.
pub proof fn lemma_retained_peer_count_le<K>(s: Seq<RequestRecord<K>>, now: u64, timeout: u64, p: PeerAddr)
    ensures
        peer_count(retained(s, now, timeout), p) <= peer_count(s, p),
    decreases s.len(),
{
    if s.len() == 0 {
    } else {
        lemma_retained_peer_count_le(s.drop_first(), now, timeout, p);
        if s.first().issued_at + timeout > now {
            let rest = retained(s.drop_first(), now, timeout);
            assert((seq![s.first()] + rest).drop_first() =~= rest);
        }
    }
}

/// Every record the sweep keeps is fresh: `now - issued_at < timeout`.
pub proof fn lemma_retained_fresh<K>(s: Seq<RequestRecord<K>>, now: u64, timeout: u64)
    ensures
        forall|i: int|
            0 <= i < retained(s, now, timeout).len() ==> (#[trigger] retained(s, now, timeout)[i]).issued_at
                + timeout > now,
    decreases s.len(),
{
    if s.len() > 0 {
        lemma_retained_fresh(s.drop_first(), now, timeout);
        let rest = retained(s.drop_first(), now, timeout);
        if s.first().issued_at + timeout > now {
            assert(retained(s, now, timeout) == seq![s.first()] + rest);
            assert forall|i: int|
                0 <= i < retained(s, now, timeout).len() implies (#[trigger] retained(
                s,
                now,
                timeout,
            )[i]).issued_at + timeout > now by {
                if i == 0 {
                    assert(retained(s, now, timeout)[0] == s.first());
                } else {
                    assert(retained(s, now, timeout)[i] == rest[i - 1]);
                }
            }
        } else {
            assert(retained(s, now, timeout) == rest);
        }
    }
}

proof fn lemma_add_sat_step(a: int, b: int)
    requires
        0 <= a <= u64::MAX,
        0 <= b,
    ensures
        spec_inc_sat(spec_add_sat(a, b)) == spec_add_sat(a, b + 1),
{
}

/// The tracker of one stage: the outstanding records in issue order, the
/// per-peer depth table, and the refill countdown.
pub struct RequestTracker<K> {
    records: Vec<RequestRecord<K>>,
    peers_queue: Vec<QueueEntry>,
    update_requests_to_next_ask: usize,
}

impl<K: SyncKey> RequestTracker<K> {
    /// The outstanding records, oldest first.
    pub closed spec fn recs(&self) -> Seq<RequestRecord<K>> {
        self.records@
    }

    /// The per-peer depth table.
    pub closed spec fn queue(&self) -> Seq<QueueEntry> {
        self.peers_queue@
    }

    /// The refill countdown.
    pub closed spec fn next_ask(&self) -> int {
        self.update_requests_to_next_ask as int
    }

    /// How many outstanding requests `p` owes.
    pub open spec fn queue_depth(&self, p: PeerAddr) -> nat {
        peer_count(self.recs(), p)
    }

    /// Whether key `k` is outstanding.
    pub open spec fn has_key(&self, k: K) -> bool {
        has_req_key(self.recs(), k)
    }

    /// Well-formed: keys unique; the depth table has one entry per owing
    /// peer, each holding that peer's exact record count; the depths sum
    /// to the record count.
    pub open spec fn wf(&self) -> bool {
        &&& keys_distinct(self.recs())
        &&& forall|i: int, j: int|
            0 <= i < j < self.queue().len() ==> self.queue()[i].peer != self.queue()[j].peer
        &&& forall|i: int|
            0 <= i < self.queue().len() ==> (#[trigger] self.queue()[i]).requests == peer_count(
                self.recs(),
                self.queue()[i].peer,
            ) && self.queue()[i].requests >= 1
        &&& forall|j: int|
            0 <= j < self.recs().len() ==> has_entry(
                self.queue(),
                (#[trigger] self.recs()[j]).peer,
            )
        &&& sum_queue(self.queue()) == self.recs().len()
    }

    /// An empty tracker.
    pub fn new() -> (r: Self)
        ensures
            r.wf(),
            r.recs().len() == 0,
            r.queue().len() == 0,
            r.next_ask() == UPDATE_REQUESTS_TO_NEXT_ASK,
    {
        RequestTracker {
            records: Vec::new(),
            peers_queue: Vec::new(),
            update_requests_to_next_ask: UPDATE_REQUESTS_TO_NEXT_ASK,
        }
    }

    /// The index of the record for `key`, if one is outstanding.
    fn find_key(&self, key: &K) -> (r: Option<usize>)
        ensures
            match r {
                Some(i) => i < self.recs().len() && self.recs()[i as int].key == *key,
                None => !self.has_key(*key),
            },
    {
        let n = self.records.len();
        let mut i: usize = 0;
        while i < n
            invariant
                n == self.recs().len(),
                0 <= i <= n,
                forall|j: int| 0 <= j < i ==> self.recs()[j].key != *key,
            decreases n - i,
        {
            if self.records[i].key.key_eq(key) {
                return Some(i);
            }
            i += 1;
        }
        None
    }

    /// The index of the depth entry for `p`, if the table has one.
    fn find_entry(&self, p: &PeerAddr) -> (r: Option<usize>)
        ensures
            match r {
                Some(i) => i < self.queue().len() && self.queue()[i as int].peer == *p,
                None => !has_entry(self.queue(), *p),
            },
    {
        let n = self.peers_queue.len();
        let mut i: usize = 0;
        while i < n
            invariant
                n == self.queue().len(),
                0 <= i <= n,
                forall|j: int| 0 <= j < i ==> self.queue()[j].peer != *p,
            decreases n - i,
        {
            if self.peers_queue[i].peer == *p {
                return Some(i);
            }
            i += 1;
        }
        None
    }

    /// Whether key `key` is outstanding.
    pub fn has_request(&self, key: &K) -> (r: bool)
        ensures
            r == self.has_key(*key),
    {
        match self.find_key(key) {
            Some(_) => true,
            None => false,
        }
    }

    /// The number of outstanding requests.
    pub fn get_requests_num(&self) -> (r: usize)
        ensures
            r == self.recs().len(),
    {
        self.records.len()
    }

    /// A copy of the per-peer depth table.
    pub fn get_peers_queue_size(&self) -> (r: Vec<QueueEntry>)
        ensures
            r@ == self.queue(),
    {
        let n = self.peers_queue.len();
        let mut r: Vec<QueueEntry> = Vec::new();
        let mut i: usize = 0;
        while i < n
            invariant
                n == self.queue().len(),
                0 <= i <= n,
                r@ == self.queue().take(i as int),
            decreases n - i,
        {
            r.push(self.peers_queue[i]);
            proof {
                assert(r@ =~= self.queue().take(i + 1));
            }
            i += 1;
        }
        proof {
            assert(self.queue().take(n as int) =~= self.queue());
        }
        r
    }

    /// The refill countdown: zero means a response-driven refill is due.
    pub fn get_update_requests_to_next_ask(&self) -> (r: usize)
        ensures
            r == self.next_ask(),
    {
        self.update_requests_to_next_ask
    }

    /// Restarts the refill countdown; called when a refill runs.
    pub fn reset_update_requests_to_next_ask(&mut self)
        ensures
            final(self).recs() == old(self).recs(),
            final(self).queue() == old(self).queue(),
            final(self).next_ask() == UPDATE_REQUESTS_TO_NEXT_ASK,
            old(self).wf() ==> final(self).wf(),
    {
        self.update_requests_to_next_ask = UPDATE_REQUESTS_TO_NEXT_ASK;
    }

    /// Registers `key` as owed by `peer` from second `now` on. A key
    /// already outstanding is left as it is: the caller must not
    /// double-issue.
    pub fn register_request(&mut self, key: K, peer: PeerAddr, label: String, now: u64)
        requires
            old(self).wf(),
        ensures
            final(self).wf(),
            final(self).next_ask() == old(self).next_ask(),
            old(self).has_key(key) ==> final(self).recs() == old(self).recs(),
            !old(self).has_key(key) ==> final(self).recs() == old(self).recs().push(
                RequestRecord { key, peer, label, issued_at: now },
            ),
    {
        if self.has_request(&key) {
            return ;
        }
        let ghost old_recs = self.recs();
        let rec = RequestRecord { key, peer, label, issued_at: now };
        self.records.push(rec);
        proof {
            assert forall|p: PeerAddr|
                peer_count(self.recs(), p) == peer_count(old_recs, p) + (if peer == p {
                    1nat
                } else {
                    0nat
                }) by {
                lemma_peer_count_push(old_recs, self.recs().last(), p);
                assert(old_recs.push(self.recs().last()) =~= self.recs());
            }
            assert(keys_distinct(self.recs())) by {
                assert(forall|j: int|
                    0 <= j < old_recs.len() ==> (#[trigger] old_recs[j]).key != key);
            }
        }
        match self.find_entry(&peer) {
            Some(i) => {
                let ghost prev_q = self.queue();
                let mut e = self.peers_queue.remove(i);
                let n = self.records.len();
                proof {
                    lemma_peer_count_le_len(old_recs, peer);
                    assert(e.requests == peer_count(old_recs, peer));
                    assert(n == old_recs.len() + 1);
                }
                e.requests = e.requests + 1;
                self.peers_queue.insert(i, e);
                proof {
                    assert(self.queue() =~= prev_q.update(i as int, self.queue()[i as int]));
                    lemma_sum_queue_update(prev_q, i as int, self.queue()[i as int]);
                    assert forall|j: int|
                        0 <= j < self.recs().len() implies has_entry(
                        self.queue(),
                        (#[trigger] self.recs()[j]).peer,
                    ) by {
                        if j < old_recs.len() {
                            assert(self.recs()[j] == old_recs[j]);
                            let k = entry_index(prev_q, old_recs[j].peer);
                            assert(0 <= k < prev_q.len() && prev_q[k].peer == old_recs[j].peer);
                            assert(self.queue()[k].peer == old_recs[j].peer);
                        } else {
                            assert(self.queue()[i as int].peer == peer);
                        }
                    }
                }
            },
            None => {
                let ghost prev_q = self.queue();
                proof {
                    assert(forall|j: int| 0 <= j < old_recs.len() ==> (#[trigger] old_recs[j]).peer != peer);
                    lemma_peer_count_zero(old_recs, peer);
                }
                self.peers_queue.push(QueueEntry { peer, requests: 1 });
                proof {
                    lemma_sum_queue_push(prev_q, QueueEntry { peer, requests: 1 });
                    assert forall|j: int|
                        0 <= j < self.recs().len() implies has_entry(
                        self.queue(),
                        (#[trigger] self.recs()[j]).peer,
                    ) by {
                        if j < old_recs.len() {
                            assert(self.recs()[j] == old_recs[j]);
                            let k = entry_index(prev_q, old_recs[j].peer);
                            assert(0 <= k < prev_q.len() && prev_q[k].peer == old_recs[j].peer);
                            assert(self.queue()[k].peer == old_recs[j].peer);
                        } else {
                            assert(self.queue()[prev_q.len() as int].peer == peer);
                        }
                    }
                }
            },
        }
    }

    /// Removes the record at index `i`, keeping the depth table in step.
    fn remove_index(&mut self, i: usize) -> (rec: RequestRecord<K>)
        requires
            old(self).wf(),
            i < old(self).recs().len(),
        ensures
            final(self).wf(),
            rec == old(self).recs()[i as int],
            final(self).recs() == old(self).recs().remove(i as int),
            final(self).next_ask() == old(self).next_ask(),
    {
        let ghost old_recs = self.recs();
        let rec = self.records.remove(i);
        proof {
            assert forall|p: PeerAddr|
                peer_count(self.recs(), p) + (if rec.peer == p {
                    1nat
                } else {
                    0nat
                }) == peer_count(old_recs, p) by {
                lemma_peer_count_remove(old_recs, i as int, p);
            }
            assert(has_entry(self.queue(), rec.peer));
        }
        let entry = match self.find_entry(&rec.peer) {
            Some(j) => j,
            None => {
                proof {
                    assert(false);
                }
                0
            },
        };
        let ghost prev_q = self.queue();
        let mut e = self.peers_queue.remove(entry);
        if e.requests <= 1 {
            proof {
                lemma_sum_queue_remove(prev_q, entry as int);
                assert forall|j: int|
                    0 <= j < self.recs().len() implies has_entry(
                    self.queue(),
                    (#[trigger] self.recs()[j]).peer,
                ) by {
                    let ghost orig_j = if j < i { j } else { j + 1 };
                    assert(self.recs()[j] == old_recs[orig_j]);
                    let p = old_recs[orig_j].peer;
                    let k = entry_index(prev_q, p);
                    assert(0 <= k < prev_q.len() && prev_q[k].peer == p);
                    if k == entry {
                        lemma_peer_count_pos(self.recs(), j);
                        assert(peer_count(self.recs(), rec.peer) == 0);
                        assert(false);
                    } else {
                        let k2 = if k < entry {
                            k
                        } else {
                            k - 1
                        };
                        assert(self.queue()[k2].peer == p);
                    }
                }
            }
        } else {
            e.requests = e.requests - 1;
            self.peers_queue.insert(entry, e);
            proof {
                assert(self.queue() =~= prev_q.update(entry as int, self.queue()[entry as int]));
                lemma_sum_queue_update(prev_q, entry as int, self.queue()[entry as int]);
                assert forall|j: int|
                    0 <= j < self.recs().len() implies has_entry(
                    self.queue(),
                    (#[trigger] self.recs()[j]).peer,
                ) by {
                    let ghost orig_j = if j < i { j } else { j + 1 };
                    assert(self.recs()[j] == old_recs[orig_j]);
                    let p = old_recs[orig_j].peer;
                    let k = entry_index(prev_q, p);
                    assert(0 <= k < prev_q.len() && prev_q[k].peer == p);
                    assert(self.queue()[k].peer == p);
                }
            }
        }
        rec
    }

    /// Removes the request for `key` and returns the peer that owed it;
    /// `None` when the key is not outstanding. A removal is a handled
    /// response, so the refill countdown steps down.
    pub fn remove_request(&mut self, key: &K) -> (r: Option<PeerAddr>)
        requires
            old(self).wf(),
        ensures
            final(self).wf(),
            !old(self).has_key(*key) ==> r is None && final(self).recs() == old(self).recs()
                && final(self).next_ask() == old(self).next_ask(),
            old(self).has_key(*key) ==> {
                let i = key_index(old(self).recs(), *key);
                &&& r == Some(old(self).recs()[i].peer)
                &&& final(self).recs() == old(self).recs().remove(i)
                &&& !final(self).has_key(*key)
                &&& final(self).next_ask() == (if old(self).next_ask() > 0 {
                    old(self).next_ask() - 1
                } else {
                    0
                })
            },
    {
        match self.find_key(key) {
            None => None,
            Some(i) => {
                proof {
                    assert(has_req_key(self.recs(), *key)) by {
                        assert(self.recs()[i as int].key == *key);
                    }
                    let k = key_index(self.recs(), *key);
                    assert(0 <= k < self.recs().len() && self.recs()[k].key == *key);
                    if k != i as int {
                        assert(false);
                    }
                }
                let ghost old_recs = self.recs();
                let rec = self.remove_index(i);
                if self.update_requests_to_next_ask > 0 {
                    self.update_requests_to_next_ask = self.update_requests_to_next_ask - 1;
                }
                proof {
                    assert forall|j: int|
                        0 <= j < self.recs().len() implies (#[trigger] self.recs()[j]).key
                        != *key by {
                        let orig_j = if j < i as int {
                            j
                        } else {
                            j + 1
                        };
                        assert(self.recs()[j] == old_recs[orig_j]);
                    }
                }
                Some(rec.peer)
            },
        }
    }

    /// Sweeps out every record older than `timeout_secs` at `now`,
    /// charging an error to each owing peer. Afterwards every remaining
    /// record is fresh, and each peer's error count has grown by the
    /// number of its removed records (saturated at the counter's width).
    pub fn retain_expired(&mut self, now: u64, timeout_secs: u64, sync_peers: &mut SyncPeers)
        requires
            old(self).wf(),
            old(sync_peers).wf(),
        ensures
            final(self).wf(),
            final(sync_peers).wf(),
            final(self).recs() == retained(old(self).recs(), now, timeout_secs),
            final(self).next_ask() == old(self).next_ask(),
            forall|p: PeerAddr|
                final(sync_peers).err_of(p) == spec_add_sat(
                    old(sync_peers).err_of(p),
                    peer_count(old(self).recs(), p) - peer_count(final(self).recs(), p),
                ),
            forall|p: PeerAddr| final(sync_peers).ok_of(p) == old(sync_peers).ok_of(p),
    {
        let ghost old_recs = self.recs();
        let mut i: usize = self.records.len();
        proof {
            assert(old_recs.skip(i as int) =~= Seq::<RequestRecord<K>>::empty());
            assert(self.recs() =~= old_recs.take(i as int) + retained(
                old_recs.skip(i as int),
                now,
                timeout_secs,
            ));
            assert forall|p: PeerAddr|
                sync_peers.err_of(p) == spec_add_sat(
                    old(sync_peers).err_of(p),
                    peer_count(old_recs.skip(i as int), p) - peer_count(
                        retained(old_recs.skip(i as int), now, timeout_secs),
                        p,
                    ),
                ) by {}
        }
        while i > 0
            invariant
                i <= old_recs.len(),
                self.wf(),
                sync_peers.wf(),
                self.next_ask() == old(self).next_ask(),
                self.recs() == old_recs.take(i as int) + retained(
                    old_recs.skip(i as int),
                    now,
                    timeout_secs,
                ),
                forall|p: PeerAddr|
                    sync_peers.err_of(p) == spec_add_sat(
                        old(sync_peers).err_of(p),
                        peer_count(old_recs.skip(i as int), p) - peer_count(
                            retained(old_recs.skip(i as int), now, timeout_secs),
                            p,
                        ),
                    ),
                forall|p: PeerAddr| sync_peers.ok_of(p) == old(sync_peers).ok_of(p),
            decreases i,
        {
            let ghost prev_recs = self.recs();
            let ghost tail = old_recs.skip(i as int);
            let ghost tail1 = old_recs.skip(i - 1);
            proof {
                assert(tail1.first() == old_recs[i - 1]);
                assert(tail1.drop_first() =~= tail);
                assert(prev_recs[i - 1] == old_recs[i - 1]);
                lemma_retained_peer_count_le(tail, now, timeout_secs, old_recs[i - 1].peer);
                lemma_peer_count_le_len(tail, old_recs[i - 1].peer);
            }
            let expired = {
                let rec = &self.records[i - 1];
                // a record is stale once `now` has reached `issued_at + timeout`
                !(rec.issued_at > u64::MAX - timeout_secs || rec.issued_at + timeout_secs > now)
            };
            if expired {
                let rec = self.remove_index(i - 1);
                sync_peers.report_error_response(&rec.peer, rec.label);
                proof {
                    assert(self.recs() =~= old_recs.take(i - 1) + retained(
                        tail1,
                        now,
                        timeout_secs,
                    )) by {
                        assert(retained(tail1, now, timeout_secs) == retained(
                            tail,
                            now,
                            timeout_secs,
                        ));
                        assert(self.recs() =~= prev_recs.remove(i - 1));
                        assert(old_recs.take(i as int).remove(i - 1) =~= old_recs.take(i - 1));
                        assert(prev_recs.remove(i - 1) =~= old_recs.take(i - 1) + retained(
                            tail,
                            now,
                            timeout_secs,
                        ));
                    }
                    let p0 = rec.peer;
                    assert forall|p: PeerAddr|
                        sync_peers.err_of(p) == spec_add_sat(
                            old(sync_peers).err_of(p),
                            peer_count(tail1, p) - peer_count(
                                retained(tail1, now, timeout_secs),
                                p,
                            ),
                        ) by {
                        assert(peer_count(tail1, p) == (if p0 == p {
                            1nat
                        } else {
                            0nat
                        }) + peer_count(tail, p));
                        if p == p0 {
                            lemma_add_sat_step(
                                old(sync_peers).err_of(p),
                                peer_count(tail, p) - peer_count(
                                    retained(tail, now, timeout_secs),
                                    p,
                                ),
                            );
                        }
                    }
                }
            } else {
                proof {
                    assert(retained(tail1, now, timeout_secs) =~= seq![old_recs[i - 1]] + retained(
                        tail,
                        now,
                        timeout_secs,
                    ));
                    assert(self.recs() =~= old_recs.take(i - 1) + retained(
                        tail1,
                        now,
                        timeout_secs,
                    ));
                    assert forall|p: PeerAddr|
                        peer_count(retained(tail1, now, timeout_secs), p) == (if old_recs[i
                            - 1].peer == p {
                            1nat
                        } else {
                            0nat
                        }) + peer_count(retained(tail, now, timeout_secs), p) by {
                        assert(retained(tail1, now, timeout_secs).drop_first() =~= retained(
                            tail,
                            now,
                            timeout_secs,
                        ));
                    }
                }
            }
            i = i - 1;
        }
        proof {
            assert(old_recs.take(0) =~= Seq::<RequestRecord<K>>::empty());
            assert(old_recs.skip(0) =~= old_recs);
            assert(self.recs() =~= retained(old_recs, now, timeout_secs));
        }
    }

    /// `min(global_cap - inflight, peers * per_peer_cap - excluded)`,
    /// floored at zero: how many more requests may be issued now. The
    /// `excluded` count stands for requests held by peers over their
    /// quota.
    pub fn calculate_needed_requests(
        &self,
        peer_num: usize,
        excluded_requests: usize,
        request_per_peer: usize,
        requests_limit: usize,
    ) -> (r: usize)
        ensures
            r == spec_needed_requests(
                self.recs().len() as int,
                peer_num as int,
                excluded_requests as int,
                request_per_peer as int,
                requests_limit as int,
            ),
    {
        let inflight = self.records.len();
        let global_avail = if inflight < requests_limit {
            requests_limit - inflight
        } else {
            0
        };
        let cap_total = mul_sat_usize(peer_num, request_per_peer);
        let peer_avail = if excluded_requests < cap_total {
            cap_total - excluded_requests
        } else {
            0
        };
        if global_avail < peer_avail {
            global_avail
        } else {
            peer_avail
        }
    }
}

/// The request budget: the smaller of what the global cap leaves and what
/// the per-peer caps leave, never negative. The peer-side product is
/// saturated at the machine word, as the executable arithmetic is.
pub open spec fn spec_needed_requests(
    inflight: int,
    peers: int,
    excluded: int,
    per_peer: int,
    limit: int,
) -> int {
    let global_avail = if inflight < limit {
        limit - inflight
    } else {
        0
    };
    let cap_total = if peers * per_peer > usize::MAX {
        usize::MAX as int
    } else {
        peers * per_peer
    };
    let peer_avail = if excluded < cap_total {
        cap_total - excluded
    } else {
        0
    };
    if global_avail < peer_avail {
        global_avail
    } else {
        peer_avail
    }
}

/// `a * b`, saturated at `usize::MAX`.
fn mul_sat_usize(a: usize, b: usize) -> (r: usize)
    ensures
        r == (if a * b > usize::MAX {
            usize::MAX as int
        } else {
            a * b
        }),
{
    if b == 0 {
        0
    } else if a > usize::MAX / b {
        proof {
            vstd::arithmetic::div_mod::lemma_fundamental_div_mod(usize::MAX as int, b as int);
            assert(a * b > usize::MAX) by (nonlinear_arith)
                requires
                    a >= usize::MAX / b + 1,
                    b >= 1,
                    usize::MAX == (usize::MAX / b) * b + usize::MAX % b,
                    usize::MAX % b < b,
            ;
        }
        usize::MAX
    } else {
        proof {
            vstd::arithmetic::div_mod::lemma_fundamental_div_mod(usize::MAX as int, b as int);
            assert(a * b <= usize::MAX) by (nonlinear_arith)
                requires
                    a <= usize::MAX / b,
                    b >= 1,
                    usize::MAX == (usize::MAX / b) * b + usize::MAX % b,
                    usize::MAX % b >= 0,
            ;
        }
        a * b
    }
}

/// One peer owes each outstanding key, and owes at least that one
/// request: the record for an outstanding key is unique, and the owing
/// peer's depth counts it.
pub proof fn lemma_request_owner_unique<K: SyncKey>(t: &RequestTracker<K>, k: K)
    requires
        t.wf(),
        t.has_key(k),
    ensures
        ({
            let i = key_index(t.recs(), k);
            &&& 0 <= i < t.recs().len()
            &&& t.recs()[i].key == k
            &&& forall|j: int| 0 <= j < t.recs().len() && t.recs()[j].key == k ==> j == i
            &&& t.queue_depth(t.recs()[i].peer) >= 1
            &&& has_entry(t.queue(), t.recs()[i].peer)
            &&& t.queue()[entry_index(t.queue(), t.recs()[i].peer)].requests == t.queue_depth(
                t.recs()[i].peer,
            )
        }),
{
    let i = key_index(t.recs(), k);
    assert(0 <= i < t.recs().len() && t.recs()[i].key == k);
    assert forall|j: int| 0 <= j < t.recs().len() && t.recs()[j].key == k implies j == i by {
        if j < i {
            assert(t.recs()[j].key != t.recs()[i].key);
        } else if i < j {
            assert(t.recs()[i].key != t.recs()[j].key);
        }
    }
    lemma_peer_count_pos(t.recs(), i);
    let e = entry_index(t.queue(), t.recs()[i].peer);
    assert(0 <= e < t.queue().len() && t.queue()[e].peer == t.recs()[i].peer);
}

/// The depths in the table sum to the number of outstanding requests.
pub proof fn lemma_queue_total<K: SyncKey>(t: &RequestTracker<K>)
    requires
        t.wf(),
    ensures
        sum_queue(t.queue()) == t.recs().len(),
{
}

/// Registering a fresh key and then removing it hands back the owing peer
/// and restores the records: over the model the contracts use, `register`
/// appends the record, `remove` on its key finds exactly it, returns its
/// peer and leaves the records as they were, with the key outstanding no
/// more.
pub proof fn lemma_register_remove_round_trip<K>(s: Seq<RequestRecord<K>>, rec: RequestRecord<K>)
    requires
        keys_distinct(s),
        !has_req_key(s, rec.key),
    ensures
        ({
            let s2 = s.push(rec);
            &&& keys_distinct(s2)
            &&& has_req_key(s2, rec.key)
            &&& key_index(s2, rec.key) == s.len()
            &&& s2[key_index(s2, rec.key)].peer == rec.peer
            &&& s2.remove(key_index(s2, rec.key)) == s
            &&& !has_req_key(s2.remove(key_index(s2, rec.key)), rec.key)
        }),
{
    let s2 = s.push(rec);
    assert(s2[s.len() as int] == rec);
    assert(keys_distinct(s2)) by {
        assert(forall|j: int| 0 <= j < s.len() ==> (#[trigger] s[j]).key != rec.key);
    }
    assert(has_req_key(s2, rec.key));
    let i = key_index(s2, rec.key);
    assert(0 <= i < s2.len() && s2[i].key == rec.key);
    if i < s.len() {
        assert(s[i].key == rec.key);
        assert(false);
    }
    assert(s2.remove(i) =~= s);
}

} // verus!
