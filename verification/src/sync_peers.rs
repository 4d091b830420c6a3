//! Per-peer scoring for one class of sync work: counts of good and bad
//! responses, the recent error texts, and the pending-ban flag raised when
//! a peer crosses the error threshold. Executing a ban is transport work;
//! the ledger only hands the addresses out.

use vstd::prelude::*;
use crate::types::PeerAddr;

verus! {

/// Errors after which a peer is marked for ban.
pub const PEER_BAN_ERROR_LIMIT: u64 = 5;

/// Error texts kept per peer.
pub const PEER_ERROR_MESSAGES_CAP: usize = 10;

/// The counters kept for one peer.
pub struct PeerTally {
    pub addr: PeerAddr,
    pub ok: u64,
    pub err: u64,
    pub messages: Vec<String>,
    pub ban_pending: bool,
}

/// `x + 1`, saturated at `u64::MAX`.
pub open spec fn spec_inc_sat(x: int) -> int {
    if x == u64::MAX {
        x
    } else {
        x + 1
    }
}

/// Whether some tally in `s` is for `p`.
pub open spec fn has_tally(s: Seq<PeerTally>, p: PeerAddr) -> bool {
    exists|i: int| 0 <= i < s.len() && s[i].addr == p
}

/// The index of the tally for `p` in `s`.
pub open spec fn tally_index(s: Seq<PeerTally>, p: PeerAddr) -> int {
    choose|i: int| 0 <= i < s.len() && s[i].addr == p
}

/// The addresses marked for ban in `s`, in tally order.
pub open spec fn banned_addrs(s: Seq<PeerTally>) -> Seq<PeerAddr>
    decreases s.len(),
{
    if s.len() == 0 {
        Seq::empty()
    } else {
        let rest = banned_addrs(s.drop_last());
        if s.last().ban_pending {
            rest.push(s.last().addr)
        } else {
            rest
        }
    }
}

/// One scoring ledger. Tallies are created on first report; addresses are
/// unique.
pub struct SyncPeers {
    peers: Vec<PeerTally>,
}

impl SyncPeers {
    /// The tallies, in creation order.
    pub closed spec fn tallies(&self) -> Seq<PeerTally> {
        self.peers@
    }

    /// Addresses are unique.
    pub open spec fn wf(&self) -> bool {
        forall|i: int, j: int|
            0 <= i < j < self.tallies().len() ==> self.tallies()[i].addr
                != self.tallies()[j].addr
    }

    /// The error count recorded for `p` (zero when `p` has no tally).
    pub open spec fn err_of(&self, p: PeerAddr) -> int {
        if has_tally(self.tallies(), p) {
            self.tallies()[tally_index(self.tallies(), p)].err as int
        } else {
            0
        }
    }

    /// The good-response count recorded for `p`.
    pub open spec fn ok_of(&self, p: PeerAddr) -> int {
        if has_tally(self.tallies(), p) {
            self.tallies()[tally_index(self.tallies(), p)].ok as int
        } else {
            0
        }
    }

    /// The error texts kept for `p`, oldest first.
    pub open spec fn msgs_of(&self, p: PeerAddr) -> Seq<String> {
        if has_tally(self.tallies(), p) {
            self.tallies()[tally_index(self.tallies(), p)].messages@
        } else {
            Seq::empty()
        }
    }

    /// Whether `p` is marked for ban.
    pub open spec fn ban_of(&self, p: PeerAddr) -> bool {
        if has_tally(self.tallies(), p) {
            self.tallies()[tally_index(self.tallies(), p)].ban_pending
        } else {
            false
        }
    }

    /// An empty ledger.
    pub fn new() -> (r: SyncPeers)
        ensures
            r.wf(),
            r.tallies().len() == 0,
            forall|p: PeerAddr| r.err_of(p) == 0 && r.ok_of(p) == 0 && !r.ban_of(p),
    {
        SyncPeers { peers: Vec::new() }
    }

    /// Drops every tally: used when a stage rolls back and peer history
    /// must not carry over.
    pub fn reset(&mut self)
        ensures
            final(self).wf(),
            final(self).tallies().len() == 0,
            forall|p: PeerAddr| final(self).err_of(p) == 0 && final(self).ok_of(p) == 0 && !final(self).ban_of(p),
    {
        self.peers = Vec::new();
    }

    /// The index of the tally for `p`, if one exists.
    fn find_tally(&self, p: &PeerAddr) -> (r: Option<usize>)
        requires
            self.wf(),
        ensures
            match r {
                Some(i) => has_tally(self.tallies(), *p) && i == tally_index(self.tallies(), *p)
                    && i < self.tallies().len() && self.tallies()[i as int].addr == *p,
                None => !has_tally(self.tallies(), *p),
            },
    {
        let n = self.peers.len();
        let mut i: usize = 0;
        while i < n
            invariant
                n == self.tallies().len(),
                0 <= i <= n,
                self.wf(),
                forall|j: int| 0 <= j < i ==> self.tallies()[j].addr != *p,
            decreases n - i,
        {
            if self.peers[i].addr == *p {
                proof {
                    assert(self.tallies()[i as int].addr == *p);
                    let k = tally_index(self.tallies(), *p);
                    assert(0 <= k < self.tallies().len() && self.tallies()[k].addr == *p);
                    assert(k == i as int);
                }
                return Some(i);
            }
            i += 1;
        }
        None
    }

    /// Credits `peer` with a good response.
    pub fn report_ok_response(&mut self, peer: &PeerAddr)
        requires
            old(self).wf(),
        ensures
            final(self).wf(),
            final(self).ok_of(*peer) == spec_inc_sat(old(self).ok_of(*peer)),
            forall|q: PeerAddr| q != *peer ==> final(self).ok_of(q) == old(self).ok_of(q),
            forall|q: PeerAddr| final(self).err_of(q) == old(self).err_of(q),
            forall|q: PeerAddr| final(self).ban_of(q) == old(self).ban_of(q),
    {
        match self.find_tally(peer) {
            Some(i) => {
                let mut t = self.peers.remove(i);
                if t.ok < u64::MAX {
                    t.ok = t.ok + 1;
                }
                self.peers.insert(i, t);
                proof {
                    assert(self.tallies() =~= old(self).tallies().update(
                        i as int,
                        self.tallies()[i as int],
                    ));
                    lemma_same_addrs_same_lookup(old(self).tallies(), self.tallies());
                }
            },
            None => {
                self.peers.push(
                    PeerTally {
                        addr: *peer,
                        ok: 1,
                        err: 0,
                        messages: Vec::new(),
                        ban_pending: false,
                    },
                );
                proof {
                    lemma_lookup_after_push(old(self).tallies(), self.tallies(), *peer);
                }
            },
        }
    }

    /// Charges `peer` with a bad response, keeps the message (up to the
    /// cap), and marks the peer for ban once the error count reaches
    /// [`PEER_BAN_ERROR_LIMIT`].
    pub fn report_error_response(&mut self, peer: &PeerAddr, message: String)
        requires
            old(self).wf(),
        ensures
            final(self).wf(),
            final(self).err_of(*peer) == spec_inc_sat(old(self).err_of(*peer)),
            final(self).ban_of(*peer) == (old(self).ban_of(*peer) || spec_inc_sat(old(self).err_of(*peer))
                >= PEER_BAN_ERROR_LIMIT),
            forall|q: PeerAddr| q != *peer ==> final(self).err_of(q) == old(self).err_of(q),
            forall|q: PeerAddr| q != *peer ==> final(self).ban_of(q) == old(self).ban_of(q),
            forall|q: PeerAddr| final(self).ok_of(q) == old(self).ok_of(q),
            final(self).msgs_of(*peer) == (if old(self).msgs_of(*peer).len()
                < PEER_ERROR_MESSAGES_CAP {
                old(self).msgs_of(*peer).push(message)
            } else {
                old(self).msgs_of(*peer)
            }),
            forall|q: PeerAddr| q != *peer ==> final(self).msgs_of(q) == old(self).msgs_of(q),
    {
        match self.find_tally(peer) {
            Some(i) => {
                let mut t = self.peers.remove(i);
                if t.err < u64::MAX {
                    t.err = t.err + 1;
                }
                if t.err >= PEER_BAN_ERROR_LIMIT {
                    t.ban_pending = true;
                }
                if t.messages.len() < PEER_ERROR_MESSAGES_CAP {
                    t.messages.push(message);
                }
                self.peers.insert(i, t);
                proof {
                    assert(self.tallies() =~= old(self).tallies().update(
                        i as int,
                        self.tallies()[i as int],
                    ));
                    lemma_same_addrs_same_lookup(old(self).tallies(), self.tallies());
                }
            },
            None => {
                let mut messages = Vec::new();
                messages.push(message);
                let ban_pending = 1 >= PEER_BAN_ERROR_LIMIT;
                self.peers.push(
                    PeerTally { addr: *peer, ok: 0, err: 1, messages, ban_pending },
                );
                proof {
                    lemma_lookup_after_push(old(self).tallies(), self.tallies(), *peer);
                }
            },
        }
    }

    /// Hands out the addresses currently marked for ban, in tally order,
    /// and lowers their flags; counters are kept. The caller pushes the
    /// bans through to the transport layer.
    pub fn apply_peers_status(&mut self) -> (r: Vec<PeerAddr>)
        requires
            old(self).wf(),
        ensures
            final(self).wf(),
            r@ == banned_addrs(old(self).tallies()),
            forall|q: PeerAddr| !final(self).ban_of(q),
            forall|q: PeerAddr| final(self).err_of(q) == old(self).err_of(q),
            forall|q: PeerAddr| final(self).ok_of(q) == old(self).ok_of(q),
    {
        let mut r: Vec<PeerAddr> = Vec::new();
        let n = self.peers.len();
        let mut i: usize = 0;
        while i < n
            invariant
                n == self.tallies().len(),
                0 <= i <= n,
                self.wf(),
                self.tallies().len() == old(self).tallies().len(),
                forall|j: int| 0 <= j < n ==> self.tallies()[j].addr == old(self).tallies()[j].addr,
                forall|j: int| 0 <= j < n ==> self.tallies()[j].err == old(self).tallies()[j].err,
                forall|j: int| 0 <= j < n ==> self.tallies()[j].ok == old(self).tallies()[j].ok,
                forall|j: int| 0 <= j < i ==> !self.tallies()[j].ban_pending,
                forall|j: int|
                    i <= j < n ==> self.tallies()[j].ban_pending == old(self).tallies()[j].ban_pending,
                r@ == banned_addrs(old(self).tallies().take(i as int)),
            decreases n - i,
        {
            proof {
                assert(old(self).tallies().take(i + 1).drop_last() =~= old(self).tallies().take(
                    i as int,
                ));
            }
            if self.peers[i].ban_pending {
                r.push(self.peers[i].addr);
                let ghost prev = self.tallies();
                let mut t = self.peers.remove(i);
                t.ban_pending = false;
                self.peers.insert(i, t);
                proof {
                    assert(self.tallies() =~= prev.update(i as int, self.tallies()[i as int]));
                }
            }
            i += 1;
        }
        proof {
            assert(old(self).tallies().take(n as int) =~= old(self).tallies());
            lemma_same_addrs_same_lookup(old(self).tallies(), self.tallies());
        }
        r
    }

    /// The good-response count recorded for `peer`.
    pub fn get_ok_count(&self, peer: &PeerAddr) -> (r: u64)
        requires
            self.wf(),
        ensures
            r as int == self.ok_of(*peer),
    {
        match self.find_tally(peer) {
            Some(i) => self.peers[i].ok,
            None => 0,
        }
    }

    /// The error count recorded for `peer`.
    pub fn get_err_count(&self, peer: &PeerAddr) -> (r: u64)
        requires
            self.wf(),
        ensures
            r as int == self.err_of(*peer),
    {
        match self.find_tally(peer) {
            Some(i) => self.peers[i].err,
            None => 0,
        }
    }

    /// Whether `peer` is marked for ban.
    pub fn is_ban_pending(&self, peer: &PeerAddr) -> (r: bool)
        requires
            self.wf(),
        ensures
            r == self.ban_of(*peer),
    {
        match self.find_tally(peer) {
            Some(i) => self.peers[i].ban_pending,
            None => false,
        }
    }

    /// Clears the error record of `peer`: its error count, messages and
    /// pending ban. Used when a speculative ban is undone.
    pub fn clear_errors(&mut self, peer: &PeerAddr)
        requires
            old(self).wf(),
        ensures
            final(self).wf(),
            final(self).err_of(*peer) == 0,
            !final(self).ban_of(*peer),
            forall|q: PeerAddr| q != *peer ==> final(self).err_of(q) == old(self).err_of(q),
            forall|q: PeerAddr| q != *peer ==> final(self).ban_of(q) == old(self).ban_of(q),
            forall|q: PeerAddr| final(self).ok_of(q) == old(self).ok_of(q),
    {
        match self.find_tally(peer) {
            Some(i) => {
                let mut t = self.peers.remove(i);
                t.err = 0;
                t.ban_pending = false;
                t.messages = Vec::new();
                self.peers.insert(i, t);
                proof {
                    assert(self.tallies() =~= old(self).tallies().update(
                        i as int,
                        self.tallies()[i as int],
                    ));
                    lemma_same_addrs_same_lookup(old(self).tallies(), self.tallies());
                }
            },
            None => {},
        }
    }
}

/// Two tally sequences with the same addresses in the same places agree on
/// who has a tally and where it stands.
proof fn lemma_same_addrs_same_lookup(a: Seq<PeerTally>, b: Seq<PeerTally>)
    requires
        a.len() == b.len(),
        forall|j: int| 0 <= j < a.len() ==> a[j].addr == b[j].addr,
    ensures
        forall|p: PeerAddr| has_tally(a, p) == has_tally(b, p),
        forall|p: PeerAddr|
            has_tally(a, p) && (forall|i: int, j: int|
                0 <= i < j < a.len() ==> a[i].addr != a[j].addr) ==> tally_index(a, p)
                == tally_index(b, p),
{
    assert forall|p: PeerAddr| has_tally(a, p) == has_tally(b, p) by {
        if has_tally(a, p) {
            let i = tally_index(a, p);
            assert(0 <= i < b.len() && b[i].addr == p);
        }
        if has_tally(b, p) {
            let i = tally_index(b, p);
            assert(0 <= i < a.len() && a[i].addr == p);
        }
    }
    assert forall|p: PeerAddr|
        has_tally(a, p) && (forall|i: int, j: int|
            0 <= i < j < a.len() ==> a[i].addr != a[j].addr) implies tally_index(a, p)
        == tally_index(b, p) by {
        let i = tally_index(a, p);
        let j = tally_index(b, p);
        assert(0 <= i < a.len() && a[i].addr == p);
        assert(has_tally(b, p));
        assert(0 <= j < b.len() && b[j].addr == p);
        assert(a[j].addr == p);
        if i != j {
            if i < j {
                assert(a[i].addr != a[j].addr);
            } else {
                assert(a[j].addr != a[i].addr);
            }
            assert(false);
        }
    }
}

/// After pushing a tally for a fresh address, lookups for that address hit
/// the new entry and all other lookups are unchanged.
proof fn lemma_lookup_after_push(a: Seq<PeerTally>, b: Seq<PeerTally>, p: PeerAddr)
    requires
        !has_tally(a, p),
        b.len() == a.len() + 1,
        b[a.len() as int].addr == p,
        forall|j: int| 0 <= j < a.len() ==> b[j] == a[j],
    ensures
        has_tally(b, p),
        tally_index(b, p) == a.len(),
        forall|q: PeerAddr| q != p ==> has_tally(a, q) == has_tally(b, q),
        forall|q: PeerAddr|
            q != p && has_tally(a, q) && (forall|i: int, j: int|
                0 <= i < j < b.len() ==> b[i].addr != b[j].addr) ==> tally_index(a, q)
                == tally_index(b, q),
{
    assert(0 <= a.len() < b.len() && b[a.len() as int].addr == p);
    let i = tally_index(b, p);
    assert(0 <= i < b.len() && b[i].addr == p);
    if i < a.len() {
        assert(a[i].addr == p);
        assert(false);
    }
    assert forall|q: PeerAddr| q != p implies has_tally(a, q) == has_tally(b, q) by {
        if has_tally(a, q) {
            let k = tally_index(a, q);
            assert(0 <= k < b.len() && b[k].addr == q);
        }
        if has_tally(b, q) {
            let k = tally_index(b, q);
            assert(b[k].addr == q);
            assert(k != a.len());
            assert(a[k].addr == q);
        }
    }
    assert forall|q: PeerAddr|
        q != p && has_tally(a, q) && (forall|i: int, j: int|
            0 <= i < j < b.len() ==> b[i].addr != b[j].addr) implies tally_index(a, q)
        == tally_index(b, q) by {
        let k = tally_index(a, q);
        let m = tally_index(b, q);
        assert(0 <= k < a.len() && a[k].addr == q);
        assert(b[k].addr == q);
        assert(has_tally(b, q));
        assert(0 <= m < b.len() && b[m].addr == q);
        if k != m {
            if k < m {
                assert(b[k].addr != b[m].addr);
            } else {
                assert(b[m].addr != b[k].addr);
            }
            assert(false);
        }
    }
}

} // verus!
