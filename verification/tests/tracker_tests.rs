use sync_core::sync_peers::SyncPeers;
use sync_core::tracker::{RequestTracker, UPDATE_REQUESTS_TO_NEXT_ASK};
use sync_core::types::PeerAddr;
use sync_core::types::Hash as BlockHash;

#[test]
fn register_then_remove_round_trip() {
    let mut t: RequestTracker<u64> = RequestTracker::new();
    let p = PeerAddr::from_u64(7);
    t.register_request(5, p, String::from("blk 5"), 100);
    assert!(t.has_request(&5));
    assert_eq!(t.get_requests_num(), 1);
    let owner = t.remove_request(&5);
    assert_eq!(owner, Some(p));
    assert!(!t.has_request(&5));
    assert_eq!(t.get_requests_num(), 0);
}

#[test]
fn double_register_is_ignored() {
    let mut t: RequestTracker<u64> = RequestTracker::new();
    let p1 = PeerAddr::from_u64(1);
    let p2 = PeerAddr::from_u64(2);
    t.register_request(5, p1, String::from("a"), 0);
    t.register_request(5, p2, String::from("b"), 0);
    assert_eq!(t.get_requests_num(), 1);
    // the original peer still owes the request
    assert_eq!(t.remove_request(&5), Some(p1));
}

#[test]
fn queue_depths_sum_to_requests() {
    let mut t: RequestTracker<u64> = RequestTracker::new();
    let p1 = PeerAddr::from_u64(1);
    let p2 = PeerAddr::from_u64(2);
    t.register_request(10, p1, String::from("a"), 0);
    t.register_request(11, p1, String::from("b"), 0);
    t.register_request(12, p2, String::from("c"), 0);
    let table = t.get_peers_queue_size();
    let total: usize = table.iter().map(|e| e.requests).sum();
    assert_eq!(total, t.get_requests_num());
    assert_eq!(t.get_requests_num(), 3);
    let d1 = table.iter().find(|e| e.peer == p1).unwrap().requests;
    let d2 = table.iter().find(|e| e.peer == p2).unwrap().requests;
    assert_eq!(d1, 2);
    assert_eq!(d2, 1);
}

#[test]
fn hash_keys_work() {
    let mut t: RequestTracker<BlockHash> = RequestTracker::new();
    let p = PeerAddr::from_u64(9);
    let h = BlockHash::from_u64(42);
    t.register_request(h, p, String::from("block"), 0);
    assert!(t.has_request(&h));
    assert!(!t.has_request(&BlockHash::from_u64(43)));
    assert_eq!(t.remove_request(&h), Some(p));
}

#[test]
fn retain_expired_sweeps_and_charges() {
    let mut t: RequestTracker<u64> = RequestTracker::new();
    let mut sp = SyncPeers::new();
    let p1 = PeerAddr::from_u64(1);
    let p2 = PeerAddr::from_u64(2);
    t.register_request(10, p1, String::from("a"), 0);
    t.register_request(11, p2, String::from("b"), 100);
    // at second 120 with a 60 second timeout the first is stale, the
    // second still fresh
    t.retain_expired(120, 60, &mut sp);
    assert!(!t.has_request(&10));
    assert!(t.has_request(&11));
    assert_eq!(t.get_requests_num(), 1);
    assert_eq!(sp.get_err_count(&p1), 1);
    assert_eq!(sp.get_err_count(&p2), 0);
}

#[test]
fn calculate_needed_requests_values() {
    let mut t: RequestTracker<u64> = RequestTracker::new();
    // no inflight: bounded by peers * per-peer
    assert_eq!(t.calculate_needed_requests(5, 0, 10, 100), 50);
    // bounded by the global limit
    assert_eq!(t.calculate_needed_requests(20, 0, 10, 100), 100);
    // excluded requests eat into the peer-side budget
    assert_eq!(t.calculate_needed_requests(5, 45, 10, 100), 5);
    assert_eq!(t.calculate_needed_requests(5, 60, 10, 100), 0);
    // inflight requests eat into the global budget
    let p = PeerAddr::from_u64(1);
    t.register_request(1, p, String::from("a"), 0);
    t.register_request(2, p, String::from("b"), 0);
    assert_eq!(t.calculate_needed_requests(20, 0, 10, 100), 98);
}

#[test]
fn next_ask_countdown() {
    let mut t: RequestTracker<u64> = RequestTracker::new();
    let p = PeerAddr::from_u64(1);
    assert_eq!(t.get_update_requests_to_next_ask(), UPDATE_REQUESTS_TO_NEXT_ASK);
    t.register_request(1, p, String::from("a"), 0);
    t.remove_request(&1);
    assert_eq!(t.get_update_requests_to_next_ask(), UPDATE_REQUESTS_TO_NEXT_ASK - 1);
    t.reset_update_requests_to_next_ask();
    assert_eq!(t.get_update_requests_to_next_ask(), UPDATE_REQUESTS_TO_NEXT_ASK);
}

#[test]
fn sync_peers_ban_threshold() {
    let mut sp = SyncPeers::new();
    let p = PeerAddr::from_u64(3);
    for _ in 0..4 {
        sp.report_error_response(&p, String::from("bad"));
    }
    assert!(!sp.is_ban_pending(&p));
    sp.report_error_response(&p, String::from("bad"));
    assert!(sp.is_ban_pending(&p));
    let bans = sp.apply_peers_status();
    assert_eq!(bans, vec![p]);
    assert!(!sp.is_ban_pending(&p));
    // counters survive the ban hand-out
    assert_eq!(sp.get_err_count(&p), 5);
    sp.clear_errors(&p);
    assert_eq!(sp.get_err_count(&p), 0);
}

#[test]
fn sync_peers_ok_counting() {
    let mut sp = SyncPeers::new();
    let p = PeerAddr::from_u64(4);
    sp.report_ok_response(&p);
    sp.report_ok_response(&p);
    assert_eq!(sp.get_ok_count(&p), 2);
    assert_eq!(sp.get_err_count(&p), 0);
    sp.reset();
    assert_eq!(sp.get_ok_count(&p), 0);
}
