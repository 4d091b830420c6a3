use sync_core::status::TUIStatusView;
use sync_core::types::SyncStatus;

#[test]
fn test_status_txhashset_kernels() {
    let status = SyncStatus::TxHashsetKernelsValidation { kernels: 201, kernels_total: 5000 };
    let basic_status = TUIStatusView::update_sync_status(status);
    assert!(basic_status.contains("4%"), "{}", basic_status);
}

#[test]
fn test_status_txhashset_rproofs() {
    let status = SyncStatus::TxHashsetRangeProofsValidation { rproofs: 643, rproofs_total: 1000 };
    let basic_status = TUIStatusView::update_sync_status(status);
    assert!(basic_status.contains("64%"), "{}", basic_status);
}

#[test]
fn status_fixed_lines() {
    assert_eq!(TUIStatusView::update_sync_status(SyncStatus::Initial), "Initializing");
    assert_eq!(TUIStatusView::update_sync_status(SyncStatus::NoSync), "Running");
    assert_eq!(TUIStatusView::update_sync_status(SyncStatus::AwaitingPeers), "Waiting for peers");
    assert_eq!(
        TUIStatusView::update_sync_status(SyncStatus::ValidatingKernelsHistory),
        "Sync step 3/7: Validating kernels history"
    );
    assert_eq!(
        TUIStatusView::update_sync_status(SyncStatus::Shutdown),
        "Shutting down, closing connections"
    );
}

#[test]
fn status_header_hash_line() {
    let s = TUIStatusView::update_sync_status(SyncStatus::HeaderHashSync {
        completed_blocks: 2,
        total_blocks: 10,
    });
    assert_eq!(s, "Sync step 1/7: Downloading headers hashes - 2/10");
}

#[test]
fn status_header_sync_percent() {
    let s = TUIStatusView::update_sync_status(SyncStatus::HeaderSync {
        current_height: 50,
        archive_height: 200,
    });
    assert_eq!(s, "Sync step 1/7: Downloading headers: 25%");
    // a zero archive height gives zero percent
    let s = TUIStatusView::update_sync_status(SyncStatus::HeaderSync {
        current_height: 50,
        archive_height: 0,
    });
    assert_eq!(s, "Sync step 1/7: Downloading headers: 0%");
}

#[test]
fn status_pibd_lines() {
    let s = TUIStatusView::update_sync_status(SyncStatus::TxHashsetPibd {
        received_segments: 0,
        total_segments: 100,
    });
    assert_eq!(s, "Sync step 2/7: Selecting peers, waiting for PIBD root hash");
    let s = TUIStatusView::update_sync_status(SyncStatus::TxHashsetPibd {
        received_segments: 5,
        total_segments: 10,
    });
    assert_eq!(s, "Sync step 2/7: Downloading Tx state (PIBD) - 5 / 10 segments - 50%");
}

#[test]
fn status_validation_lines() {
    let s = TUIStatusView::update_sync_status(SyncStatus::TxHashsetHeadersValidation {
        headers: 3,
        headers_total: 4,
    });
    assert_eq!(s, "Sync step 3/7: Validating headers - 3 / 4 segments - 75%");
    let s = TUIStatusView::update_sync_status(SyncStatus::TxHashsetKernelsPosValidation {
        kernel_pos: 1,
        kernel_pos_total: 2,
    });
    assert_eq!(s, "Sync step 4/7: Validation kernel position - 1/2 - 50%");
}

#[test]
fn status_body_sync_percent_formula() {
    // (current - archive) * 100 / (highest - archive)
    let s = TUIStatusView::update_sync_status(SyncStatus::BodySync {
        archive_height: 100,
        current_height: 150,
        highest_height: 200,
    });
    assert_eq!(s, "Sync step 7/7: Downloading blocks: 50%");
    // a zero denominator gives zero percent
    let s = TUIStatusView::update_sync_status(SyncStatus::BodySync {
        archive_height: 100,
        current_height: 150,
        highest_height: 100,
    });
    assert_eq!(s, "Sync step 7/7: Downloading blocks: 0%");
    // differences are floored at zero
    let s = TUIStatusView::update_sync_status(SyncStatus::BodySync {
        archive_height: 200,
        current_height: 150,
        highest_height: 300,
    });
    assert_eq!(s, "Sync step 7/7: Downloading blocks: 0%");
}

#[test]
fn percent_saturates() {
    assert_eq!(sync_core::status::percent(0, 0), 0);
    assert_eq!(sync_core::status::percent(u64::MAX, 1), u64::MAX);
    assert_eq!(sync_core::status::percent(201, 5000), 4);
}
