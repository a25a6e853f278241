use agent::codec::encode_peer_info_wire;
use agent::discovery::{DiscoveryService, PEER_TIMEOUT_MS};
use agent::peer_info::{NetAddr, PeerId, PeerInfo, PEER_ID_LEN};
use agent::price::Price;

fn test_id(seed: u8) -> Vec<u8> {
    let mut bytes = vec![seed; PEER_ID_LEN];
    bytes[0] = 0x00;
    bytes[1] = 0x20;
    bytes
}

fn test_peer_info(seed: u8, port: u16, spare_mbs: u64, price: f32) -> PeerInfo {
    PeerInfo {
        addr: NetAddr { a: 127, b: 0, c: 0, d: 1, port },
        peer_id: PeerId::from_bytes(test_id(seed)).unwrap(),
        spare_mbs,
        price: Price::from_bits(price.to_bits()),
    }
}

#[test]
fn sweep_stale_peer() {
    let mut svc = DiscoveryService::new(test_peer_info(1, 6000, 11, 11.0));
    svc.upsert(test_peer_info(2, 6001, 11, 11.0), 0);
    assert_eq!(svc.get_peers().len(), 1);
    svc.sweep_once(PEER_TIMEOUT_MS + 1);
    assert!(svc.get_peers().is_empty());
}

#[test]
fn sweep_keeps_fresh_peer() {
    let mut svc = DiscoveryService::new(test_peer_info(1, 6000, 11, 11.0));
    let peer = test_peer_info(3, 6002, 42, 2.0);
    svc.upsert(peer.duplicate(), 1000);
    svc.sweep_once(1000 + PEER_TIMEOUT_MS);
    let peers = svc.get_peers();
    assert_eq!(peers.len(), 1);
    assert_eq!(peers[0].peer_id.to_bytes(), peer.peer_id.to_bytes());
    assert_eq!(peers[0].spare_mbs, 42);
    assert_eq!(peers[0].price, peer.price);
}

#[test]
fn sweep_evicts_exactly_past_the_ttl() {
    let mut svc = DiscoveryService::new(test_peer_info(1, 6000, 11, 11.0));
    svc.upsert(test_peer_info(4, 6003, 1, 1.0), 1000);
    svc.sweep_once(1000 + PEER_TIMEOUT_MS + 1);
    assert!(svc.get_peers().is_empty());
}

#[test]
fn announcement_decodes_to_own_record() {
    let me = test_peer_info(5, 6004, 7, 0.5);
    let svc = DiscoveryService::new(me.duplicate());
    let datagram = svc.announcement();
    assert_eq!(datagram, encode_peer_info_wire(&me.to_wire()));

    let mut other = DiscoveryService::new(test_peer_info(6, 6005, 9, 1.5));
    other.handle_datagram(&datagram, 10).unwrap();
    let peers = other.get_peers();
    assert_eq!(peers.len(), 1);
    assert_eq!(peers[0].peer_id.to_bytes(), me.peer_id.to_bytes());
    assert_eq!(peers[0].spare_mbs, 7);
}

#[test]
fn two_directories_see_each_other() {
    let info_a = test_peer_info(7, 6100, 14, 15.0);
    let info_b = test_peer_info(8, 6102, 50, 1.0);
    let mut svc_a = DiscoveryService::new(info_a.duplicate());
    let mut svc_b = DiscoveryService::new(info_b.duplicate());

    svc_b.handle_datagram(&svc_a.announcement(), 100).unwrap();
    svc_a.handle_datagram(&svc_b.announcement(), 100).unwrap();

    let peers_a = svc_a.get_peers();
    let peers_b = svc_b.get_peers();
    assert!(
        peers_a
            .iter()
            .any(|p| p.peer_id.to_bytes() == info_b.peer_id.to_bytes()),
        "A should see B"
    );
    assert!(
        peers_b
            .iter()
            .any(|p| p.peer_id.to_bytes() == info_a.peer_id.to_bytes()),
        "B should see A"
    );
}

#[test]
fn own_announcement_lands_in_table() {
    // The listen loop does not filter this instance's own identifier:
    // an agent that hears its own announcement records itself.
    let me = test_peer_info(11, 6008, 4, 4.0);
    let mut svc = DiscoveryService::new(me.duplicate());
    let datagram = svc.announcement();
    svc.handle_datagram(&datagram, 50).unwrap();
    let peers = svc.get_peers();
    assert_eq!(peers.len(), 1);
    assert_eq!(peers[0].peer_id.to_bytes(), me.peer_id.to_bytes());
}

#[test]
fn malformed_datagram_leaves_table_alone() {
    let mut svc = DiscoveryService::new(test_peer_info(1, 6000, 11, 11.0));
    svc.upsert(test_peer_info(9, 6006, 3, 3.0), 0);

    assert!(svc.handle_datagram(&[0xff, 0x13, 0x37], 1).is_err());
    assert!(svc.handle_datagram(&[], 1).is_err());
    let garbage = vec![0xabu8; 1024];
    assert!(svc.handle_datagram(&garbage, 1).is_err());

    let peers = svc.get_peers();
    assert_eq!(peers.len(), 1);
    assert_eq!(peers[0].spare_mbs, 3);
}

#[test]
fn announce_refreshes_existing_entry() {
    let mut svc = DiscoveryService::new(test_peer_info(1, 6000, 11, 11.0));
    let mut peer = test_peer_info(10, 6007, 5, 5.0);
    svc.upsert(peer.duplicate(), 0);
    peer.spare_mbs = 6;
    svc.upsert(peer.duplicate(), 4000);

    let peers = svc.get_peers();
    assert_eq!(peers.len(), 1);
    assert_eq!(peers[0].spare_mbs, 6);

    // The refreshed timestamp keeps the entry past the first one's TTL.
    svc.sweep_once(4000 + PEER_TIMEOUT_MS);
    assert_eq!(svc.get_peers().len(), 1);
}
