use sync_core::chain_view::{ChainView, HeaderEntry};
use sync_core::state_sync::SegmentTotals;
use sync_core::sync_manager::SyncManager;
use sync_core::sync_utils::SyncRequestResponses;
use sync_core::types::{Capabilities, PeerAddr, SyncPeerInfo, Tip};
use sync_core::types::Hash as BlockHash;

fn peer(id: u64, height: u64) -> SyncPeerInfo {
    SyncPeerInfo {
        addr: PeerAddr::from_u64(id),
        capabilities: Capabilities::from_bits(0xf),
        height,
        total_difficulty: height,
        outbound: true,
    }
}

fn tip(height: u64, id: u64) -> Tip {
    Tip { height, last_block_h: BlockHash::from_u64(id) }
}

fn chain(head: Tip, header_head: Tip, fork: Tip, window: Vec<HeaderEntry>) -> ChainView {
    let cv = ChainView {
        head,
        header_head,
        fork_point: fork,
        archive_mode: false,
        window_headers: window,
        orphans: Vec::new(),
        existing_blocks: Vec::new(),
    };
    assert!(cv.check_wf());
    cv
}

fn window(fork_height: u64, count: u64) -> Vec<HeaderEntry> {
    (0..count)
        .map(|i| HeaderEntry {
            hash: BlockHash::from_u64(1000 + fork_height + 1 + i),
            height: fork_height + 1 + i,
        })
        .collect()
}

/// The stage sequencing of the manager: no peers waits; with three
/// consistent peers the stages run in order through header hashes,
/// headers, state and bodies to a finished sync, which is then served
/// from cache.
#[test]
fn stage_sequencing_to_sync_done() {
    let mut mgr = SyncManager::new();
    let totals = SegmentTotals { bitmap: 0, outputs: 0, rangeproofs: 0, kernels: 0 };
    let cv0 = chain(tip(0, 1), tip(0, 2), tip(0, 1), Vec::new());

    // no peers: nothing to sync from
    let t = mgr.request(&cv0, &Vec::new(), &totals, 0);
    assert_eq!(t.response.response, SyncRequestResponses::WaitingForPeers);

    let peers = vec![peer(1, 1000), peer(2, 1000), peer(3, 1000)];

    // header-hash stage: asking the peers for their root
    let t = mgr.request(&cv0, &peers, &totals, 1);
    assert_eq!(t.response.response, SyncRequestResponses::Syncing);
    assert_eq!(t.root_queries.len(), 3);

    // the peers agree on a root; the chain is young so its header-hash
    // MMR has one segment
    let root = BlockHash::from_u64(77);
    for id in 1..=3 {
        mgr.receive_headers_hash_response(&PeerAddr::from_u64(id), 0, root);
    }
    let t = mgr.request(&cv0, &peers, &totals, 2);
    assert_eq!(t.response.response, SyncRequestResponses::Syncing);
    assert_eq!(t.hash_segment_requests.len(), 1);
    let seg = t.hash_segment_requests[0];
    mgr.receive_header_hashes_segment(&seg.peer, &root, seg.segment_id, true);

    // header stage: the hash data is in, so header batches go out
    let t = mgr.request(&cv0, &peers, &totals, 3);
    assert_eq!(t.response.response, SyncRequestResponses::Syncing);
    assert!(!t.header_requests.is_empty());

    // headers arrive; with the tip at the best height the state stage
    // finds a young chain and hands over to body sync
    let cv1 = chain(tip(0, 1), tip(1000, 2), tip(0, 1), window(0, 100));
    let t = mgr.request(&cv1, &peers, &totals, 4);
    assert_eq!(t.response.response, SyncRequestResponses::Syncing);
    assert!(!t.block_requests.is_empty());

    // blocks arrive; with both tips equal the sync is done
    let cv2 = chain(tip(1000, 2), tip(1000, 2), tip(1000, 2), Vec::new());
    let t = mgr.request(&cv2, &peers, &totals, 5);
    assert_eq!(t.response.response, SyncRequestResponses::SyncDone);

    // within the grace period the outcome is served from cache
    let t = mgr.request(&cv0, &peers, &totals, 6);
    assert_eq!(t.response.response, SyncRequestResponses::SyncDone);

    // after the grace period the stages run again
    let t = mgr.request(&cv0, &peers, &totals, 5 + 181);
    assert_ne!(t.response.response, SyncRequestResponses::SyncDone);
}

#[test]
fn best_height_is_the_maximum_advertised() {
    let mut peers = vec![peer(1, 500), peer(2, 800)];
    peers[0].total_difficulty = 900;
    // the maximum advertised height wins, whatever work is reported
    assert_eq!(SyncManager::best_height(&peers), 800);
    // inbound peers count only when no outbound peer reports a height
    let mut inbound = peer(3, 700);
    inbound.outbound = false;
    assert_eq!(SyncManager::best_height(&vec![inbound]), 700);
    let both = vec![peer(1, 500), inbound];
    assert_eq!(SyncManager::best_height(&both), 500);
    assert_eq!(SyncManager::best_height(&Vec::new()), 0);
}

#[test]
fn block_report_flows_through_manager() {
    let mut mgr = SyncManager::new();
    let totals = SegmentTotals { bitmap: 0, outputs: 0, rangeproofs: 0, kernels: 0 };
    let peers = vec![peer(1, 1000), peer(2, 1000), peer(3, 1000)];
    let root = BlockHash::from_u64(77);
    for id in 1..=3 {
        mgr.receive_headers_hash_response(&PeerAddr::from_u64(id), 0, root);
    }
    let cv0 = chain(tip(0, 1), tip(0, 2), tip(0, 1), Vec::new());
    let t = mgr.request(&cv0, &peers, &totals, 0);
    let seg = t.hash_segment_requests[0];
    mgr.receive_header_hashes_segment(&seg.peer, &root, seg.segment_id, true);

    let cv1 = chain(tip(0, 1), tip(1000, 2), tip(0, 1), window(0, 100));
    let t = mgr.request(&cv1, &peers, &totals, 1);
    assert!(!t.block_requests.is_empty());
    let req = t.block_requests[0];
    let _ = mgr.receive_block_reporting(true, &req.peer, &req.hash, &cv1, &peers, 2);
}
