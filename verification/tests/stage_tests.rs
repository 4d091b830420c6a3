use sync_core::header_hashes_sync::HeadersHashSync;
use sync_core::header_sync::{HeaderLite, HeaderSync};
use sync_core::state_sync::{
    SegmentKind, SegmentTotals, StateSync, ValidationKind,
};
use sync_core::sync_peers::SyncPeers;
use sync_core::sync_utils::SyncRequestResponses;
use sync_core::types::{Capabilities, PeerAddr, SyncPeerInfo, Tip};
use sync_core::types::Hash as BlockHash;

fn peer(id: u64, height: u64) -> SyncPeerInfo {
    SyncPeerInfo {
        addr: PeerAddr::from_u64(id),
        capabilities: Capabilities::from_bits(0xf),
        height,
        total_difficulty: height,
        outbound: true,
    }
}

#[test]
fn root_vote_quorum_commits() {
    let mut hh = HeadersHashSync::new();
    let mut sp = SyncPeers::new();
    let root = BlockHash::from_u64(77);
    hh.receive_headers_hash_response(&PeerAddr::from_u64(1), 100, root, &mut sp);
    hh.receive_headers_hash_response(&PeerAddr::from_u64(2), 100, root, &mut sp);
    assert!(hh.get_committed().is_none());
    hh.receive_headers_hash_response(&PeerAddr::from_u64(3), 100, root, &mut sp);
    let c = hh.get_committed().expect("quorum should commit");
    assert_eq!(c.archive_height, 100);
    assert_eq!(c.root, root);
    assert_eq!(c.total_segments, 1);
}

#[test]
fn conflicting_vote_is_charged_and_forgiven() {
    let mut hh = HeadersHashSync::new();
    let mut sp = SyncPeers::new();
    let root = BlockHash::from_u64(77);
    let bad_peer = PeerAddr::from_u64(9);
    hh.receive_headers_hash_response(&bad_peer, 100, BlockHash::from_u64(666), &mut sp);
    hh.receive_headers_hash_response(&PeerAddr::from_u64(1), 100, root, &mut sp);
    hh.receive_headers_hash_response(&PeerAddr::from_u64(2), 100, root, &mut sp);
    hh.receive_headers_hash_response(&PeerAddr::from_u64(3), 100, root, &mut sp);
    assert!(hh.get_committed().is_some());
    // the dissenting voter was charged when the quorum committed
    assert_eq!(sp.get_err_count(&bad_peer), 1);
    // a conflicting report after commitment is charged as well
    hh.receive_headers_hash_response(&bad_peer, 100, BlockHash::from_u64(666), &mut sp);
    assert_eq!(sp.get_err_count(&bad_peer), 2);
    // undoing the speculative bans clears the record and the commitment
    hh.reset_ban_commited_to_hash(&mut sp);
    assert_eq!(sp.get_err_count(&bad_peer), 0);
    assert!(hh.get_committed().is_none());
}

#[test]
fn hash_segments_download_to_ready() {
    let mut hh = HeadersHashSync::new();
    let mut sp = SyncPeers::new();
    let root = BlockHash::from_u64(77);
    for id in 1..=3 {
        hh.receive_headers_hash_response(&PeerAddr::from_u64(id), 600, root, &mut sp);
    }
    let c = hh.get_committed().unwrap();
    assert_eq!(c.total_segments, 2);
    let peers = vec![peer(1, 1000)];
    let t = hh.request(&peers, &mut sp, 1000, 0);
    assert_eq!(t.response, SyncRequestResponses::Syncing);
    assert_eq!(t.segment_requests.len(), 2);
    for r in &t.segment_requests {
        hh.receive_header_hashes_segment(&r.peer, &root, r.segment_id, true, &mut sp);
    }
    assert!(hh.is_complete());
    let t = hh.request(&peers, &mut sp, 1000, 1);
    assert_eq!(t.response, SyncRequestResponses::HeadersHashReady);
    // once header sync consumed the data, the stage reports the pibd
    // hand-over
    hh.reset_hash_data();
    let t = hh.request(&peers, &mut sp, 1000, 2);
    assert_eq!(t.response, SyncRequestResponses::HeadersPibdReady);
}

#[test]
fn bad_hash_segment_is_charged() {
    let mut hh = HeadersHashSync::new();
    let mut sp = SyncPeers::new();
    let root = BlockHash::from_u64(77);
    for id in 1..=3 {
        hh.receive_headers_hash_response(&PeerAddr::from_u64(id), 100, root, &mut sp);
    }
    let peers = vec![peer(1, 1000)];
    let t = hh.request(&peers, &mut sp, 1000, 0);
    let r = t.segment_requests[0];
    hh.receive_header_hashes_segment(&r.peer, &root, r.segment_id, false, &mut sp);
    assert_eq!(sp.get_err_count(&r.peer), 1);
    assert!(!hh.is_complete());
}

#[test]
fn header_batches_are_contiguous() {
    let a = HeaderLite { hash: BlockHash::from_u64(1), prev_hash: BlockHash::from_u64(0), height: 10 };
    let b = HeaderLite { hash: BlockHash::from_u64(2), prev_hash: BlockHash::from_u64(1), height: 11 };
    let c = HeaderLite { hash: BlockHash::from_u64(3), prev_hash: BlockHash::from_u64(2), height: 12 };
    assert!(HeaderSync::batch_contiguous(&vec![a, b, c]));
    // a height gap breaks the batch
    let gap = HeaderLite { hash: BlockHash::from_u64(3), prev_hash: BlockHash::from_u64(2), height: 13 };
    assert!(!HeaderSync::batch_contiguous(&vec![a, b, gap]));
    // a wrong parent hash breaks the chain
    let fork = HeaderLite { hash: BlockHash::from_u64(3), prev_hash: BlockHash::from_u64(9), height: 12 };
    assert!(!HeaderSync::batch_contiguous(&vec![a, b, fork]));
}

#[test]
fn receive_headers_credits_and_charges() {
    let mut hs = HeaderSync::new();
    let mut sp = SyncPeers::new();
    let p = PeerAddr::from_u64(5);
    let a = HeaderLite { hash: BlockHash::from_u64(1), prev_hash: BlockHash::from_u64(0), height: 10 };
    let b = HeaderLite { hash: BlockHash::from_u64(2), prev_hash: BlockHash::from_u64(1), height: 11 };
    assert!(hs.receive_headers(&p, &vec![a, b], true, true, &mut sp));
    assert_eq!(sp.get_ok_count(&p), 1);
    // a failed proof of work rejects the batch
    assert!(!hs.receive_headers(&p, &vec![a, b], false, true, &mut sp));
    assert_eq!(sp.get_err_count(&p), 1);
    // an empty batch is an error
    assert!(!hs.receive_headers(&p, &Vec::new(), true, true, &mut sp));
    assert_eq!(sp.get_err_count(&p), 2);
}

#[test]
fn header_sync_waits_for_hashes_then_requests() {
    let mut hs = HeaderSync::new();
    let mut hh = HeadersHashSync::new();
    let mut sp = SyncPeers::new();
    let peers = vec![peer(1, 1000), peer(2, 1000)];
    let head = Tip { height: 0, last_block_h: BlockHash::from_u64(0) };
    let t = hs.request(&head, &hh, &peers, &mut sp, 1000, 0);
    assert_eq!(t.response, SyncRequestResponses::WaitingForHeadersHash);

    let root = BlockHash::from_u64(77);
    for id in 1..=3 {
        hh.receive_headers_hash_response(&PeerAddr::from_u64(id), 600, root, &mut sp);
    }
    let hh_tick = hh.request(&peers, &mut sp, 1000, 0);
    for r in &hh_tick.segment_requests {
        hh.receive_header_hashes_segment(&r.peer, &root, r.segment_id, true, &mut sp);
    }
    let t = hs.request(&head, &hh, &peers, &mut sp, 1000, 1);
    assert_eq!(t.response, SyncRequestResponses::Syncing);
    assert!(!t.requests.is_empty());
    for r in &t.requests {
        assert!(r.start_height > head.height);
    }
    // headers at the archive point hand over to state download
    let head = Tip { height: 600, last_block_h: BlockHash::from_u64(0) };
    let t = hs.request(&head, &hh, &peers, &mut sp, 1000, 2);
    assert_eq!(t.response, SyncRequestResponses::HeadersPibdReady);
    // headers at the best height finish the stage
    let head = Tip { height: 1000, last_block_h: BlockHash::from_u64(0) };
    let t = hs.request(&head, &hh, &peers, &mut sp, 1000, 3);
    assert_eq!(t.response, SyncRequestResponses::HeadersReady);
}

#[test]
fn state_sync_walks_its_phases() {
    let mut st = StateSync::new();
    let mut sp = SyncPeers::new();
    let peers = vec![peer(1, 20000), peer(2, 20000), peer(3, 20000)];
    let totals = SegmentTotals { bitmap: 1, outputs: 2, rangeproofs: 2, kernels: 1 };
    let best: u64 = 20000;
    let archive = sync_core::chain_view::height_2_archive_height(best);
    assert!(archive > 0);

    // headers below the archive point: wait
    let t = st.request(&peers, &mut sp, &totals, archive - 1, best, 0);
    assert_eq!(t.response, SyncRequestResponses::WaitingForHeaders);

    // no state reports yet: wait for peers
    let t = st.request(&peers, &mut sp, &totals, archive, best, 0);
    assert_eq!(t.response, SyncRequestResponses::WaitingForPeers);

    // a quorum of matching reports commits the state
    let header_hash = BlockHash::from_u64(500);
    let bitmap_root = BlockHash::from_u64(600);
    for id in 1..=3 {
        st.receive_pibd_status(&PeerAddr::from_u64(id), header_hash, archive, bitmap_root);
    }
    let t = st.request(&peers, &mut sp, &totals, archive, best, 1);
    assert_eq!(t.response, SyncRequestResponses::Syncing);

    // the next tick requests the six missing segments
    let t = st.request(&peers, &mut sp, &totals, archive, best, 2);
    assert_eq!(t.response, SyncRequestResponses::Syncing);
    let mut reqs: Vec<(SegmentKind, u64, PeerAddr)> = Vec::new();
    for r in &t.bitmap_requests {
        reqs.push((SegmentKind::Bitmap, r.segment_id, r.peer));
    }
    for r in &t.output_requests {
        reqs.push((SegmentKind::Outputs, r.segment_id, r.peer));
    }
    for r in &t.rangeproof_requests {
        reqs.push((SegmentKind::RangeProofs, r.segment_id, r.peer));
    }
    for r in &t.kernel_requests {
        reqs.push((SegmentKind::Kernels, r.segment_id, r.peer));
    }
    assert_eq!(reqs.len(), 6);
    for (kind, id, p) in reqs {
        st.receive_segment(kind, &p, &bitmap_root, id, true, &mut sp);
    }

    // with every segment in, the validations run in order
    let expect = [
        ValidationKind::KernelsHistory,
        ValidationKind::Headers,
        ValidationKind::KernelsPos,
        ValidationKind::RangeProofs,
        ValidationKind::Kernels,
    ];
    for kind in expect {
        let t = st.request(&peers, &mut sp, &totals, archive, best, 3);
        assert_eq!(t.response, SyncRequestResponses::Syncing);
        assert_eq!(t.validate, Some(kind));
        st.report_validation(kind, true, &mut sp);
    }
    let t = st.request(&peers, &mut sp, &totals, archive, best, 4);
    assert_eq!(t.response, SyncRequestResponses::StatePibdReady);
}

#[test]
fn state_validation_failure_restarts_vote() {
    let mut st = StateSync::new();
    let mut sp = SyncPeers::new();
    let peers = vec![peer(1, 20000), peer(2, 20000), peer(3, 20000)];
    let totals = SegmentTotals { bitmap: 1, outputs: 1, rangeproofs: 1, kernels: 1 };
    let best: u64 = 20000;
    let archive = sync_core::chain_view::height_2_archive_height(best);
    let header_hash = BlockHash::from_u64(500);
    let bitmap_root = BlockHash::from_u64(600);
    for id in 1..=3 {
        st.receive_pibd_status(&PeerAddr::from_u64(id), header_hash, archive, bitmap_root);
    }
    let _ = st.request(&peers, &mut sp, &totals, archive, best, 0);
    st.report_validation(ValidationKind::KernelsHistory, false, &mut sp);
    // the backers of the failed state were charged and the vote restarts
    assert_eq!(sp.get_err_count(&PeerAddr::from_u64(1)), 1);
    let t = st.request(&peers, &mut sp, &totals, archive, best, 1);
    assert_eq!(t.response, SyncRequestResponses::WaitingForPeers);
}

#[test]
fn young_chain_skips_state_download() {
    let mut st = StateSync::new();
    let mut sp = SyncPeers::new();
    let totals = SegmentTotals { bitmap: 0, outputs: 0, rangeproofs: 0, kernels: 0 };
    let t = st.request(&Vec::new(), &mut sp, &totals, 0, 1000, 0);
    assert_eq!(t.response, SyncRequestResponses::StatePibdReady);
}
