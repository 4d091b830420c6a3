use sync_core::body_sync::BodySync;
use sync_core::chain_view::{ChainView, HeaderEntry};
use sync_core::sync_peers::SyncPeers;
use sync_core::sync_utils::SyncRequestResponses;
use sync_core::types::{Capabilities, PeerAddr, SyncPeerInfo, SyncStatus, Tip};
use sync_core::types::Hash as BlockHash;

fn tip(height: u64, id: u64) -> Tip {
    Tip { height, last_block_h: BlockHash::from_u64(id) }
}

fn peer(id: u64, height: u64) -> SyncPeerInfo {
    SyncPeerInfo {
        addr: PeerAddr::from_u64(id),
        capabilities: Capabilities::from_bits(0xf),
        height,
        total_difficulty: height,
        outbound: true,
    }
}

/// A chain whose fork point sits at `fork` with `window` headers past it.
fn chain(head: Tip, header_head: Tip, fork: Tip, window: Vec<HeaderEntry>) -> ChainView {
    let cv = ChainView {
        head,
        header_head,
        fork_point: fork,
        archive_mode: false,
        window_headers: window,
        orphans: Vec::new(),
        existing_blocks: Vec::new(),
    };
    assert!(cv.check_wf());
    cv
}

fn window(fork_height: u64, count: u64) -> Vec<HeaderEntry> {
    (0..count)
        .map(|i| HeaderEntry { hash: BlockHash::from_u64(1000 + fork_height + 1 + i), height: fork_height + 1 + i })
        .collect()
}

#[test]
fn body_ready_when_tips_match() {
    let mut body = BodySync::new();
    let mut sp = SyncPeers::new();
    let cv = chain(tip(20, 5), tip(20, 5), tip(20, 5), Vec::new());
    let t = body.request(&cv, &vec![peer(1, 100)], &mut sp, 100, 0);
    assert_eq!(t.response, SyncRequestResponses::BodyReady);
    assert!(t.requests.is_empty());
    assert!(t.kick_orphan.is_none());
}

#[test]
fn bad_state_below_archive() {
    let mut body = BodySync::new();
    let mut sp = SyncPeers::new();
    // best height far beyond the horizon puts the archive point past the
    // fork point of a non-archive node
    let cv = chain(tip(100, 1), tip(20000, 2), tip(100, 1), Vec::new());
    let t = body.request(&cv, &vec![peer(1, 20000)], &mut sp, 20000, 0);
    assert_eq!(t.response, SyncRequestResponses::BadState);
}

#[test]
fn waiting_for_peers_with_none() {
    let mut body = BodySync::new();
    let mut sp = SyncPeers::new();
    let cv = chain(tip(10, 1), tip(30, 2), tip(10, 1), window(10, 20));
    let t = body.request(&cv, &Vec::new(), &mut sp, 30, 0);
    assert_eq!(t.response, SyncRequestResponses::WaitingForPeers);
}

#[test]
fn requests_go_to_given_peers_and_stay_unique() {
    let mut body = BodySync::new();
    let mut sp = SyncPeers::new();
    let peers = vec![peer(1, 100), peer(2, 100), peer(3, 100)];
    let cv = chain(tip(10, 1), tip(40, 2), tip(10, 1), window(10, 30));
    let t = body.request(&cv, &peers, &mut sp, 100, 0);
    assert_eq!(t.response, SyncRequestResponses::Syncing);
    assert!(!t.requests.is_empty());
    let addrs: Vec<_> = peers.iter().map(|p| p.addr).collect();
    for (i, r) in t.requests.iter().enumerate() {
        assert!(addrs.contains(&r.peer), "request to unknown peer");
        for r2 in &t.requests[i + 1..] {
            assert_ne!(r.hash, r2.hash, "duplicate block request");
        }
    }
    // a second tick does not re-request what is already in flight
    let t2 = body.request(&cv, &peers, &mut sp, 100, 1);
    for r2 in &t2.requests {
        assert!(t.requests.iter().all(|r| r.hash != r2.hash));
    }
}

#[test]
fn per_peer_cap_holds_with_single_peer() {
    let mut body = BodySync::new();
    let mut sp = SyncPeers::new();
    let peers = vec![peer(1, 100)];
    let cv = chain(tip(10, 1), tip(60, 2), tip(10, 1), window(10, 50));
    let t = body.request(&cv, &peers, &mut sp, 100, 0);
    // one peer may owe at most its quota of ten blocks
    assert!(t.requests.len() <= 10, "cap exceeded: {}", t.requests.len());
    assert_eq!(t.requests.len(), 10);
}

#[test]
fn status_update_reports_progress() {
    let mut body = BodySync::new();
    let mut sp = SyncPeers::new();
    let cv = chain(tip(10, 1), tip(40, 2), tip(10, 1), window(10, 30));
    let t = body.request(&cv, &vec![peer(1, 100)], &mut sp, 100, 0);
    assert_eq!(
        t.status,
        Some(SyncStatus::BodySync { archive_height: 0, current_height: 10, highest_height: 100 })
    );
}

/// The stuck-orphan kick-through of body sync: with the block right past
/// the fork point held as an orphan, one tick asks to process it, and
/// applying that to the chain advances the fork point.
#[test]
fn orphan_kick_advances_fork_point() {
    let mut body = BodySync::new();
    let mut sp = SyncPeers::new();
    let mut cv = chain(tip(10, 1), tip(40, 2), tip(10, 1), window(10, 30));
    let orphan_hash = cv.window_headers[0].hash;
    cv.orphans.push(orphan_hash);
    let t = body.request(&cv, &vec![peer(1, 100)], &mut sp, 100, 0);
    assert_eq!(t.kick_orphan, Some(orphan_hash));

    // play the chain's part: processing the orphan advances the fork
    // point and drops the orphan
    cv.fork_point = Tip { height: 11, last_block_h: orphan_hash };
    cv.orphans.retain(|h| *h != orphan_hash);
    cv.window_headers.remove(0);
    assert!(cv.check_wf());
    assert_eq!(cv.fork_point.height, 11);
    let t2 = body.request(&cv, &vec![peer(1, 100)], &mut sp, 100, 1);
    assert_eq!(t2.kick_orphan, None);
}

#[test]
fn block_reports_credit_and_charge() {
    let mut body = BodySync::new();
    let mut sp = SyncPeers::new();
    let peers = vec![peer(1, 100)];
    let cv = chain(tip(10, 1), tip(40, 2), tip(10, 1), window(10, 30));
    let t = body.request(&cv, &peers, &mut sp, 100, 0);
    let req = t.requests[0];
    let refill = body.receive_block_reporting(true, &req.hash, &req.peer, &cv, &peers, &mut sp, 1);
    assert_eq!(sp.get_ok_count(&req.peer), 1);
    assert_eq!(sp.get_err_count(&req.peer), 0);
    let _ = refill;

    let bad = BlockHash::from_u64(999999);
    body.receive_block_reporting(false, &bad, &req.peer, &cv, &peers, &mut sp, 2);
    assert_eq!(sp.get_err_count(&req.peer), 1);
}

#[test]
fn send_failure_frees_slot_and_charges() {
    let mut body = BodySync::new();
    let mut sp = SyncPeers::new();
    let peers = vec![peer(1, 100)];
    let cv = chain(tip(10, 1), tip(40, 2), tip(10, 1), window(10, 30));
    let t = body.request(&cv, &peers, &mut sp, 100, 0);
    let req = t.requests[0];
    body.report_send_failure(&req.hash, &req.peer, String::from("send failed"), &mut sp);
    assert_eq!(sp.get_err_count(&req.peer), 1);
    // the freed block may be requested again
    let t2 = body.request(&cv, &peers, &mut sp, 100, 1);
    assert!(t2.requests.iter().any(|r| r.hash == req.hash));
}

#[test]
fn expiry_charges_owing_peers() {
    let mut body = BodySync::new();
    let mut sp = SyncPeers::new();
    let peers = vec![peer(1, 100), peer(2, 100)];
    let cv = chain(tip(10, 1), tip(30, 2), tip(10, 1), window(10, 15));
    let t = body.request(&cv, &peers, &mut sp, 100, 0);
    let owed = t.requests.len() as u64;
    assert_eq!(owed, 15);
    // long after the timeout, a tick sweeps every request, charging
    // each peer for what it still owed
    let _ = body.request(&cv, &peers, &mut sp, 100, 1000);
    let charged =
        sp.get_err_count(&peers[0].addr) + sp.get_err_count(&peers[1].addr);
    assert_eq!(charged, owed);
}
