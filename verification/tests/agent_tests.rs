use agent::agent::Agent;
use agent::codec::encode_deal;
use agent::deal::{Deal, BYTES_PER_MEBIBYTE};
use agent::peer_info::{NetAddr, PeerId, PeerInfo, PEER_ID_LEN};
use agent::price::Price;

fn test_id(seed: u8) -> Vec<u8> {
    let mut bytes = vec![seed; PEER_ID_LEN];
    bytes[0] = 0x00;
    bytes[1] = 0x20;
    bytes
}

fn test_peer_info(seed: u8, port: u16, spare_mbs: u64, price: f32) -> PeerInfo {
    PeerInfo {
        addr: NetAddr { a: 127, b: 0, c: 0, d: 1, port },
        peer_id: PeerId::from_bytes(test_id(seed)).unwrap(),
        spare_mbs,
        price: Price::from_bits(price.to_bits()),
    }
}

fn control_deal(origin: &PeerInfo, file_mbs: u64, price_per_mb: f32) -> Deal {
    Deal {
        peer_info_wire: origin.to_wire(),
        file_len: file_mbs * BYTES_PER_MEBIBYTE,
        price_per_mb: Price::from_bits(price_per_mb.to_bits()),
    }
}

#[test]
fn deal_match_table() {
    let arbiter = Agent::new(test_peer_info(1, 6000, 1, 1.0));
    let deal = control_deal(&test_peer_info(2, 6001, 14, 15.0), 40, 10.0);

    // Insufficient capacity: 14 MiB < 40 MiB, whatever the price says.
    let small = test_peer_info(3, 6002, 14, 15.0);
    assert!(!arbiter.deal_match(&small, &deal));

    // Capacity sufficient and price 1.0 <= 10.0.
    let roomy = test_peer_info(4, 6003, 50, 1.0);
    assert!(arbiter.deal_match(&roomy, &deal));
}

#[test]
fn deal_match_boundaries_are_inclusive() {
    let arbiter = Agent::new(test_peer_info(1, 6000, 1, 1.0));
    let deal = control_deal(&test_peer_info(2, 6001, 14, 15.0), 40, 10.0);

    // Exactly enough capacity counts.
    let exact_capacity = test_peer_info(5, 6004, 40, 1.0);
    assert!(arbiter.deal_match(&exact_capacity, &deal));

    // Exactly the offered price counts.
    let exact_price = test_peer_info(6, 6005, 50, 10.0);
    assert!(arbiter.deal_match(&exact_price, &deal));

    // One mebibyte short, or one cent over, does not.
    let short = test_peer_info(7, 6006, 39, 1.0);
    assert!(!arbiter.deal_match(&short, &deal));
    let pricey = test_peer_info(8, 6007, 50, 10.5);
    assert!(!arbiter.deal_match(&pricey, &deal));
}

#[test]
fn capacity_scaling_saturates() {
    let arbiter = Agent::new(test_peer_info(1, 6000, 1, 1.0));
    let mut deal = control_deal(&test_peer_info(2, 6001, 1, 1.0), 1, 10.0);
    deal.file_len = u64::MAX;

    // A capacity whose byte count overflows 64 bits still covers any file.
    let huge = test_peer_info(9, 6008, u64::MAX / 2, 1.0);
    assert!(arbiter.deal_match(&huge, &deal));
}

#[test]
fn price_order_agrees_with_floating_point() {
    let samples: [f32; 10] = [
        0.0, -0.0, 1.0, -1.0, 10.0, 15.0, 0.1, 1.0e30, f32::INFINITY, f32::NEG_INFINITY,
    ];
    for &x in &samples {
        for &y in &samples {
            let px = Price::from_bits(x.to_bits());
            let py = Price::from_bits(y.to_bits());
            assert_eq!(px.le(&py), x <= y, "{} <= {}", x, y);
        }
    }
    let nan = Price::from_bits(f32::NAN.to_bits());
    let one = Price::from_bits(1.0f32.to_bits());
    assert!(!nan.le(&one));
    assert!(!one.le(&nan));
    assert!(!nan.le(&nan));
}

#[test]
fn two_agents_communicate() {
    let peer_info1 = test_peer_info(11, 6101, 14, 15.0);
    let peer_info2 = test_peer_info(12, 6103, 50, 1.0);

    let deal1 = control_deal(&peer_info1, 40, 10.0);

    let mut agent1 = Agent::new(peer_info1.duplicate());
    let mut agent2 = Agent::new(peer_info2.duplicate());

    // Each agent's announcement reaches the other's directory.
    let announce1 = agent1.discovery.announcement();
    let announce2 = agent2.discovery.announcement();
    agent1.discovery.handle_datagram(&announce2, 100).unwrap();
    agent2.discovery.handle_datagram(&announce1, 100).unwrap();

    assert!(
        agent1
            .discovery
            .get_peers()
            .iter()
            .any(|peer| peer.peer_id.to_bytes() == peer_info2.peer_id.to_bytes()),
        "agent1 should see agent2"
    );
    assert!(
        agent2
            .discovery
            .get_peers()
            .iter()
            .any(|peer| peer.peer_id.to_bytes() == peer_info1.peer_id.to_bytes()),
        "agent2 should see agent1"
    );

    // Agent 1 fans the deal out to every matching peer: only agent 2.
    let targets = agent1.matched_peers(&deal1);
    assert_eq!(targets.len(), 1);
    assert_eq!(targets[0].addr, peer_info2.addr);

    // The encoded deal reaches agent 2, keyed by agent 1's address.
    let payload = encode_deal(&deal1);
    agent2.handle_deal_bytes(&payload).unwrap();

    let received_deal = agent2
        .incoming_deal(&agent1.get_peer_info().addr)
        .expect("not found");
    assert_eq!(received_deal.peer_info_wire.addr, agent1.get_peer_info().addr);
    assert_eq!(received_deal.file_len, deal1.file_len);
    assert_eq!(received_deal.price_per_mb, deal1.price_per_mb);
    assert_eq!(agent2.incoming_len(), 1);
}

#[test]
fn fan_out_picks_every_matching_peer() {
    let origin = test_peer_info(21, 6400, 14, 15.0);
    let deal = control_deal(&origin, 40, 10.0);

    let mut sender = Agent::new(origin.duplicate());
    let roomy = test_peer_info(22, 6401, 50, 1.0);
    let exact = test_peer_info(23, 6402, 40, 10.0);
    let small = test_peer_info(24, 6403, 14, 1.0);
    let pricey = test_peer_info(25, 6404, 50, 11.0);
    for peer in [&roomy, &exact, &small, &pricey] {
        let announce = agent::discovery::DiscoveryService::new(peer.duplicate()).announcement();
        sender.discovery.handle_datagram(&announce, 100).unwrap();
    }
    assert_eq!(sender.discovery.get_peers().len(), 4);

    let targets = sender.matched_peers(&deal);
    assert_eq!(targets.len(), 2);
    assert!(targets.iter().any(|p| p.addr == roomy.addr));
    assert!(targets.iter().any(|p| p.addr == exact.addr));
}

#[test]
fn capacity_at_the_saturation_boundary() {
    let arbiter = Agent::new(test_peer_info(1, 6000, 1, 1.0));
    let mut deal = control_deal(&test_peer_info(2, 6001, 1, 1.0), 1, 10.0);

    // The largest capacity that scales without saturating.
    let spare_mbs = u64::MAX / BYTES_PER_MEBIBYTE;
    let peer = test_peer_info(26, 6405, spare_mbs, 1.0);
    deal.file_len = spare_mbs * BYTES_PER_MEBIBYTE;
    assert!(arbiter.deal_match(&peer, &deal));
    deal.file_len = spare_mbs * BYTES_PER_MEBIBYTE + 1;
    assert!(!arbiter.deal_match(&peer, &deal));
}

#[test]
fn negative_delivery_small_capacity() {
    let peer_info1 = test_peer_info(13, 6101, 14, 15.0);
    // With 10 MiB of capacity the predicate rejects before any send.
    let peer_info2 = test_peer_info(14, 6103, 10, 1.0);

    let deal1 = control_deal(&peer_info1, 40, 10.0);

    let mut agent1 = Agent::new(peer_info1.duplicate());
    let agent2 = Agent::new(peer_info2.duplicate());

    let announce2 = agent2.discovery.announcement();
    agent1.discovery.handle_datagram(&announce2, 100).unwrap();
    assert_eq!(agent1.discovery.get_peers().len(), 1);

    let targets = agent1.matched_peers(&deal1);
    assert!(targets.is_empty());
    assert!(agent2.incoming_deal(&peer_info1.addr).is_none());
    assert_eq!(agent2.incoming_len(), 0);
}

#[test]
fn later_deal_from_same_sender_wins() {
    let sender = test_peer_info(15, 6200, 14, 15.0);
    let mut receiver = Agent::new(test_peer_info(16, 6201, 50, 1.0));

    receiver.handle_deal_bytes(&encode_deal(&control_deal(&sender, 10, 2.0))).unwrap();
    receiver.handle_deal_bytes(&encode_deal(&control_deal(&sender, 25, 3.0))).unwrap();

    assert_eq!(receiver.incoming_len(), 1);
    let deal = receiver.incoming_deal(&sender.addr).unwrap();
    assert_eq!(deal.file_len, 25 * BYTES_PER_MEBIBYTE);
}

#[test]
fn corrupt_deal_bytes_leave_table_alone() {
    let sender = test_peer_info(17, 6300, 14, 15.0);
    let mut receiver = Agent::new(test_peer_info(18, 6301, 50, 1.0));
    receiver.handle_deal_bytes(&encode_deal(&control_deal(&sender, 10, 2.0))).unwrap();

    assert!(receiver.handle_deal_bytes(&[0x01, 0x02]).is_err());
    assert_eq!(receiver.incoming_len(), 1);
}
