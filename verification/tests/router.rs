use mesh::mac::packet::{MeshFrame, MeshHeader, BROADCAST};
use mesh::mesh::router::{route, DedupCache, RouteDecision, DEDUP_CAPACITY};

fn frame(to: u32, from: u32, id: u32, hop_limit: u8) -> MeshFrame {
    MeshFrame {
        header: MeshHeader {
            to,
            from,
            id,
            hop_limit,
            want_ack: false,
            via_mqtt: false,
            hop_start: 3,
            channel_hash: 8,
        },
        payload: vec![9, 8, 7],
    }
}

#[test]
fn dedup_reports_second_sighting() {
    let mut d = DedupCache::new();
    assert!(!d.check_and_insert(1, 100));
    assert!(d.check_and_insert(1, 100));
    assert!(!d.check_and_insert(2, 100));
    assert!(!d.check_and_insert(1, 101));
}

#[test]
fn dedup_forgets_oldest_past_capacity() {
    let mut d = DedupCache::new();
    for id in 0..DEDUP_CAPACITY as u32 {
        assert!(!d.check_and_insert(5, id));
    }
    // Still all remembered.
    assert!(d.check_and_insert(5, 0));
    // One more evicts the oldest entry (5, 0).
    assert!(!d.check_and_insert(5, 1000));
    assert!(!d.check_and_insert(5, 0));
    assert!(d.check_and_insert(5, 1000));
}

#[test]
fn route_broadcast_delivers_and_forwards() {
    let mut d = DedupCache::new();
    match route(&frame(BROADCAST, 2, 7, 3), 1, vec![1, 2], &mut d) {
        RouteDecision::DeliverAndForward { plaintext, frame: f } => {
            assert_eq!(plaintext, vec![1, 2]);
            assert_eq!(f.header.hop_limit, 2);
            assert_eq!(f.header.hop_start, 3);
            assert_eq!(f.header.id, 7);
            assert_eq!(f.payload, vec![9, 8, 7]);
        }
        _ => panic!("expected DeliverAndForward"),
    }
    // Same packet again is a duplicate.
    assert!(matches!(route(&frame(BROADCAST, 2, 7, 3), 1, vec![], &mut d), RouteDecision::Drop));
}

#[test]
fn route_last_hop_for_us_delivers_only() {
    let mut d = DedupCache::new();
    match route(&frame(1, 2, 8, 0), 1, vec![5], &mut d) {
        RouteDecision::Deliver { plaintext } => assert_eq!(plaintext, vec![5]),
        _ => panic!("expected Deliver"),
    }
}

#[test]
fn route_for_other_node_forwards_or_drops() {
    let mut d = DedupCache::new();
    match route(&frame(3, 2, 9, 1), 1, vec![], &mut d) {
        RouteDecision::Forward { frame: f } => assert_eq!(f.header.hop_limit, 0),
        _ => panic!("expected Forward"),
    }
    assert!(matches!(route(&frame(3, 2, 10, 0), 1, vec![], &mut d), RouteDecision::Drop));
}
