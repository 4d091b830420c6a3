use sync_core::chain_view::height_2_archive_height;
use sync_core::handlers::{build_router, Handle, HandlerKind, Router, RouterError};
use sync_core::pow::Error;
use sync_core::sync_utils::{get_sync_peers, now_seconds, random_index};
use sync_core::text::u64_to_string;
use sync_core::tracker::QueueEntry;
use sync_core::types::{Capabilities, PeerAddr, SyncPeerInfo};

#[test]
fn decimal_rendering() {
    assert_eq!(u64_to_string(0), "0");
    assert_eq!(u64_to_string(7), "7");
    assert_eq!(u64_to_string(42), "42");
    assert_eq!(u64_to_string(1000), "1000");
    assert_eq!(u64_to_string(u64::MAX), "18446744073709551615");
}

#[test]
fn pow_error_texts() {
    assert_eq!(Error::PrePowError(String::from("x")).text(), "POW prepare error: x");
    assert_eq!(Error::Verification(String::from("y")).text(), "POW Verification Error: y");
    assert_eq!(Error::IOError(String::from("gone")).text(), "POW IO Error, gone");
    assert_eq!(Error::EdgeAddition.text(), "POW Edge Addition Error");
    assert_eq!(Error::Path.text(), "POW Path Error");
    assert_eq!(Error::InvalidCycle(41).text(), "POW Invalid Cycle length: 41");
    assert_eq!(Error::NoCycle.text(), "POW No Cycle");
    assert_eq!(Error::NoSolution.text(), "POW No Solution");
}

#[test]
fn archive_height_formula() {
    // below the horizon there is nothing to archive
    assert_eq!(height_2_archive_height(0), 0);
    assert_eq!(height_2_archive_height(10080), 0);
    // past the horizon the height snaps to the archive interval
    assert_eq!(height_2_archive_height(10080 + 720), 720);
    assert_eq!(height_2_archive_height(10080 + 1000), 720);
    assert_eq!(height_2_archive_height(20000), 9360);
}

#[test]
fn router_holds_the_v1_routes() {
    let h = Handle { id: 1 };
    let router = build_router(h, Handle { id: 2 }, Handle { id: 3 }, Handle { id: 4 }).unwrap();
    assert_eq!(router.len(), 16);
    assert_eq!(router.handler_for("/v1/status"), Some(HandlerKind::Status));
    assert_eq!(router.handler_for("/v1/chain"), Some(HandlerKind::Chain));
    assert_eq!(router.handler_for("/v1/version"), Some(HandlerKind::Version));
    assert_eq!(router.handler_for("/v2/owner"), None);
}

#[test]
fn duplicate_route_is_refused() {
    let mut router = Router::new();
    let h = Handle { id: 1 };
    assert!(router.add_route(String::from("/v1/"), HandlerKind::Index, h).is_ok());
    assert_eq!(
        router.add_route(String::from("/v1/"), HandlerKind::Status, h),
        Err(RouterError::RouteAlreadyExists)
    );
    assert_eq!(router.len(), 1);
}

#[test]
fn peer_selection_filters_and_excludes() {
    let mk = |id: u64, bits: u32, height: u64| SyncPeerInfo {
        addr: PeerAddr::from_u64(id),
        capabilities: Capabilities::from_bits(bits),
        height,
        total_difficulty: height,
        outbound: true,
    };
    let peers = vec![
        mk(1, 0x1, 100), // qualified
        mk(2, 0x0, 100), // missing the capability
        mk(3, 0x1, 5),   // not past our height
        mk(4, 0x1, 100), // qualified but over quota below
    ];
    let queue = vec![QueueEntry { peer: PeerAddr::from_u64(4), requests: 10 }];
    let (selected, excluded) = get_sync_peers(&peers, 10, Capabilities::from_bits(0x1), 10, &queue);
    assert_eq!(selected.len(), 1);
    assert_eq!(selected[0].addr, PeerAddr::from_u64(1));
    assert_eq!(excluded, 10);
}

#[test]
fn random_index_stays_in_range() {
    for upper in [1usize, 2, 3, 10, 100] {
        for _ in 0..50 {
            assert!(random_index(upper) < upper);
        }
    }
}

#[test]
fn clock_reads_a_modern_date() {
    // seconds since the epoch; any run of this code is after 2020
    assert!(now_seconds() > 1_577_836_800);
}
