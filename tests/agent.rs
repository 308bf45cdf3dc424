use netloc::agent::{
    choose_probe_target, handle_datagram, probe_tick, round_trip_nanos, LocationSample,
    NodeType, Timestamp, GOSSIP_MAX_NEIGHBOURS_IN_MSG, LANDMARK_NODE_NAME,
};
use netloc::messages::{BootstrapRequest, Message, ProbeRequest, ProbeResponse};
use netloc::storage::Storage;
use netloc::types::{IpAddress, NodeCoordinates, NodeInfo, SocketAddress};

const LOOPBACK: u32 = 0x7f00_0001;

fn local(port: u16) -> SocketAddress {
    SocketAddress { ip: IpAddress::V4(LOOPBACK), port }
}

fn at(sec: u64) -> Timestamp {
    Timestamp { sec, nsec: 0 }
}

fn peer(i: u32) -> NodeInfo {
    NodeInfo::new(IpAddress::V4(0x0a00_0000 + i), 4000, format!("peer{}", i))
}

#[test]
fn rtt_from_timestamps() {
    let now = Timestamp { sec: 10, nsec: 500 };
    assert_eq!(round_trip_nanos(9, 999_999_000, now), Some(1_500));
    assert_eq!(round_trip_nanos(10, 500, now), Some(0));
    assert_eq!(round_trip_nanos(10, 501, now), None);
    assert_eq!(round_trip_nanos(11, 0, now), None);
    assert_eq!(
        round_trip_nanos(0, 0, Timestamp { sec: u64::MAX, nsec: 999_999_999 }),
        Some(u64::MAX as u128 * 1_000_000_000 + 999_999_999)
    );
}

#[test]
fn landmark_only_scenario() {
    let landmark_addr = local(3738);
    let r1_addr = local(3737);
    let mut landmark = Storage::new_landmark();
    let mut r1 = Storage::new();
    let landmark_name = LANDMARK_NODE_NAME.to_string();
    let r1_name = "r1".to_string();
    let mut samples: Vec<LocationSample> = Vec::new();
    for cycle in 0..3u64 {
        let (target, probe) =
            probe_tick(&mut r1, &r1_name, &landmark_addr, &r1_addr, at(100 + cycle)).unwrap();
        assert_eq!(target, landmark_addr);
        let reaction = handle_datagram(
            NodeType::Landmark,
            &landmark_name,
            &landmark_addr,
            &mut landmark,
            &r1_addr,
            &probe,
            at(100 + cycle),
        );
        let reply = reaction.reply.unwrap();
        let back = handle_datagram(
            NodeType::Regular,
            &r1_name,
            &r1_addr,
            &mut r1,
            &landmark_addr,
            &reply,
            Timestamp { sec: 100 + cycle, nsec: 2_000_000 },
        );
        assert!(back.reply.is_none());
        samples.push(back.sample.unwrap());
    }
    let record = r1.find_node(&landmark_addr).unwrap();
    assert_eq!(record.info.name, "landmark");
    assert_eq!(record.info.location, NodeCoordinates::origin());
    assert_eq!(samples.len(), 3);
    assert!(samples.iter().all(|s| s.rtt_nanos == 2_000_000));
    assert!(samples.iter().all(|s| s.remote == NodeCoordinates::origin()));
    assert!(landmark.find_node(&r1_addr).is_some());
}

#[test]
fn exclusion_in_gossip() {
    let r1_addr = local(3737);
    let r2_addr = local(3740);
    let mut r1 = Storage::seeded(3);
    r1.add_node(NodeInfo::new(IpAddress::V4(LOOPBACK), 3740, "r2".to_string()), 1);
    r1.add_node(NodeInfo::new(IpAddress::V4(LOOPBACK), 3737, "r1".to_string()), 1);
    for i in 0..6 {
        r1.add_node(peer(i), 1);
    }
    let mut probe = ProbeRequest::new("r2".to_string());
    probe.set_current_time(5, 0);
    let bytes = probe.serialize().unwrap();
    for _ in 0..20 {
        let reaction = handle_datagram(
            NodeType::Regular,
            &"r1".to_string(),
            &r1_addr,
            &mut r1,
            &r2_addr,
            &bytes,
            at(6),
        );
        let reply = reaction.reply.unwrap();
        match Message::decode(&reply) {
            Some(Message::ProbeResponse(resp)) => {
                assert_eq!(resp.sent_at_sec, 5);
                assert_eq!(resp.respondent_name, "r1");
                let gossip = resp.neighbours.unwrap();
                assert_eq!(gossip.len(), GOSSIP_MAX_NEIGHBOURS_IN_MSG);
                for n in gossip.iter() {
                    let a = SocketAddress { ip: n.ip, port: n.port };
                    assert_ne!(a, r2_addr);
                    assert_ne!(a, r1_addr);
                }
            }
            other => panic!("unexpected {:?}", other),
        }
    }
}

#[test]
fn landmark_pinning() {
    let landmark_addr = local(3738);
    let mut landmark = Storage::new_landmark();
    let name = LANDMARK_NODE_NAME.to_string();
    let mut resp = ProbeResponse::new(
        "r1".to_string(),
        NodeCoordinates { x1_bits: 3.0f32.to_bits(), ..NodeCoordinates::empty() },
    );
    resp.set_neighbours(vec![peer(1)]);
    let bytes = resp.serialize().unwrap();
    for i in 0..5u64 {
        let reaction =
            handle_datagram(NodeType::Landmark, &name, &landmark_addr, &mut landmark, &local(3737), &bytes, at(i));
        assert!(reaction.sample.is_none());
        assert!(reaction.reply.is_none());
    }
    let probe = ProbeRequest::new("r1".to_string()).serialize().unwrap();
    handle_datagram(NodeType::Landmark, &name, &landmark_addr, &mut landmark, &local(3737), &probe, at(9));
    assert_eq!(landmark.get_location(), NodeCoordinates::origin());
    assert_eq!(landmark.get_location().iteration, 0);
}

#[test]
fn clock_skew_keeps_location_and_merges_gossip() {
    let mut r1 = Storage::new();
    let before = r1.get_location();
    let mut resp = ProbeResponse::new("r2".to_string(), NodeCoordinates::empty());
    let mut req = ProbeRequest::new("r1".to_string());
    req.set_current_time(200, 0);
    resp.copy_time(&req);
    resp.set_neighbours(vec![peer(1), peer(2)]);
    let bytes = resp.serialize().unwrap();
    let reaction =
        handle_datagram(NodeType::Regular, &"r1".to_string(), &local(3737), &mut r1, &local(3740), &bytes, at(199));
    assert!(reaction.sample.is_none());
    assert_eq!(r1.get_location(), before);
    assert!(r1.find_node(&SocketAddress { ip: peer(1).ip, port: 4000 }).is_some());
    assert!(r1.find_node(&SocketAddress { ip: peer(2).ip, port: 4000 }).is_some());
    assert!(r1.find_node(&local(3740)).is_some());
}

#[test]
fn bootstrap_exchange() {
    let landmark_addr = local(3738);
    let mut landmark = Storage::new_landmark();
    for i in 0..3 {
        landmark.add_node(peer(i), 1);
    }
    let newcomer = local(5000);
    let req = BootstrapRequest::new("fresh".to_string()).serialize().unwrap();
    let reaction = handle_datagram(
        NodeType::Landmark,
        &LANDMARK_NODE_NAME.to_string(),
        &landmark_addr,
        &mut landmark,
        &newcomer,
        &req,
        at(10),
    );
    let reply = reaction.reply.unwrap();
    assert_eq!(reply[0], 2);
    assert_eq!(landmark.find_node(&newcomer).unwrap().info.name, "fresh");

    let mut fresh = Storage::new();
    let back = handle_datagram(NodeType::Regular, &"fresh".to_string(), &newcomer, &mut fresh, &landmark_addr, &reply, at(11));
    assert!(back.reply.is_none());
    let known = fresh.get_all_nodes();
    assert_eq!(known.len(), 3);
    assert!(known.iter().all(|n| SocketAddress { ip: n.ip, port: n.port } != newcomer));
}

#[test]
fn regular_node_ignores_bootstrap_request() {
    let mut s = Storage::new();
    let req = BootstrapRequest::new("x".to_string()).serialize().unwrap();
    let reaction = handle_datagram(NodeType::Regular, &"r".to_string(), &local(1), &mut s, &local(2), &req, at(1));
    assert!(reaction.reply.is_none());
    assert_eq!(s.get_all_nodes().len(), 0);
}

#[test]
fn garbage_changes_nothing() {
    let mut s = Storage::new();
    for data in [&[][..], &[99, 1, 2][..], &[10, 1][..]] {
        let reaction = handle_datagram(NodeType::Regular, &"r".to_string(), &local(1), &mut s, &local(2), data, at(1));
        assert!(reaction.reply.is_none());
        assert!(reaction.sample.is_none());
    }
    assert_eq!(s.get_all_nodes().len(), 0);
}

#[test]
fn node_samples() {
    let mut store = Storage::new();
    for i in 1..10u16 {
        store.add_node(NodeInfo::new(IpAddress::V4(LOOPBACK), i, format!("{}", i)), 1);
    }
    let landmark = SocketAddress { ip: IpAddress::V4(0x0505_0505), port: 12345 };
    let me = local(12345);
    for _ in 1..100 {
        match choose_probe_target(&mut store, &landmark, &me) {
            (receiver, Some(nodes)) => {
                assert!(!nodes.iter().any(|n| n.ip == receiver.ip && n.port == receiver.port));
                assert_eq!(nodes.len(), GOSSIP_MAX_NEIGHBOURS_IN_MSG);
            }
            _ => panic!("get_nodes() failed"),
        }
    }
}

#[test]
fn probe_goes_to_landmark_when_only_landmark_known() {
    let landmark = local(3738);
    let me = local(3737);
    let mut store = Storage::new();
    store.add_node(NodeInfo::new(IpAddress::V4(LOOPBACK), 3738, "landmark".to_string()), 1);
    store.add_node(NodeInfo::new(IpAddress::V4(LOOPBACK), 3737, "me".to_string()), 1);
    let (target, gossip) = choose_probe_target(&mut store, &landmark, &me);
    assert_eq!(target, landmark);
    assert!(gossip.is_none());
    let too_long: String = ['x'; 255].iter().collect();
    assert!(probe_tick(&mut store, &too_long, &landmark, &me, at(1)).is_none());
}
