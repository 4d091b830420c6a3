use sync_core::body_sync::BodySync;
use sync_core::state_sync::{SegmentTotals, StateSync};
use sync_core::sync_peers::SyncPeers;
use sync_core::sync_utils::SyncRequestResponses;
use sync_core::types::Hash as BlockHash;
use sync_core::types::PeerAddr;

#[test]
fn hash_and_peer_texts() {
    let h = BlockHash::from_u64(0xbeef);
    assert_eq!(
        h.text(),
        "000000000000000000000000000000000000000000000000000000000000beef"
    );
    let p = PeerAddr { ip_hi: 0, ip_lo: 2130706433, port: 13414 };
    assert_eq!(p.text(), "0.2130706433:13414");
}

#[test]
fn bad_block_message_names_hash_and_peer() {
    let h = BlockHash::from_u64(0xab);
    let p = PeerAddr::from_u64(7);
    assert_eq!(
        BodySync::bad_block_message(&h, &p),
        "Get bad block 00000000000000000000000000000000000000000000000000000000000000ab for peer 0.7:0"
    );
}

/// An alternate-archive-header report is no status vote: three such
/// reports never commit a state.
#[test]
fn alt_header_reports_do_not_vote() {
    let mut st = StateSync::new();
    let mut sp = SyncPeers::new();
    let best: u64 = 20000;
    let archive = sync_core::chain_view::height_2_archive_height(best);
    let totals = SegmentTotals { bitmap: 1, outputs: 1, rangeproofs: 1, kernels: 1 };
    let h = BlockHash::from_u64(42);
    for id in 1..=3 {
        st.receive_another_archive_header(&PeerAddr::from_u64(id), &h, archive);
    }
    let peers = Vec::new();
    let t = st.request(&peers, &mut sp, &totals, archive, best, 0);
    assert_eq!(t.response, SyncRequestResponses::WaitingForPeers);
    // the same peers now report properly, and the quorum commits
    for id in 1..=3 {
        st.receive_pibd_status(&PeerAddr::from_u64(id), h, archive, BlockHash::from_u64(9));
    }
    let t = st.request(&peers, &mut sp, &totals, archive, best, 1);
    assert_eq!(t.response, SyncRequestResponses::Syncing);
}
