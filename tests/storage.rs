use netloc::storage::Storage;
use netloc::types::{IpAddress, NodeCoordinates, NodeInfo, SocketAddress};

fn v4_node() -> NodeInfo {
    NodeInfo::new(IpAddress::V4(0x0102_0304), 11001, "test_node_v4".to_string())
}

fn v6_node() -> NodeInfo {
    NodeInfo::new(
        IpAddress::V6(0x001a_002b_003c_004d_005e_006f_0070_0080),
        11002,
        "test_node_v6".to_string(),
    )
}

fn addr(n: &NodeInfo) -> SocketAddress {
    SocketAddress { ip: n.ip, port: n.port }
}

#[test]
fn empty_storage() {
    let mut s = Storage::new();

    assert_eq!(s.get_random_nodes(0, &[]), None);
    assert_eq!(s.get_random_nodes(1, &[]), None);
    assert_eq!(s.get_all_nodes().len(), 0);
}

#[test]
fn single_entry() {
    let mut s = Storage::new();
    let node_ipv4 = v4_node();

    s.add_node(node_ipv4.clone(), 100);

    let res: Vec<NodeInfo> = s.get_random_nodes(2, &[]).unwrap();

    assert_eq!(res, vec![node_ipv4]);
    assert_eq!(s.get_all_nodes().len(), 1);
}

#[test]
fn ignored_address() {
    let mut s = Storage::new();
    let node_ipv4 = v4_node();

    s.add_node(node_ipv4.clone(), 100);

    assert_eq!(s.get_random_nodes(10, &[]).unwrap().len(), 1);
    assert_eq!(s.get_random_nodes(10, &[addr(&node_ipv4)]), None);
}

#[test]
fn more_than_one_entry() {
    let mut s = Storage::new();
    let node_ipv4 = v4_node();
    let node_ipv6 = v6_node();

    s.add_node(node_ipv4.clone(), 100);
    s.add_node(node_ipv6.clone(), 100);

    assert_eq!(s.get_random_nodes(1, &[]).unwrap().len(), 1);
    assert_eq!(s.get_random_nodes(2, &[]).unwrap().len(), 2);
    assert_eq!(s.get_random_nodes(3, &[]).unwrap().len(), 2);
    assert_eq!(s.get_all_nodes().len(), 2);
}

#[test]
fn recently_updated() {
    let mut s = Storage::new();
    assert_eq!(s.get_most_recent(0), None);

    let node_1 = v4_node();
    let node_2 = v6_node();

    s.add_node(node_1.clone(), 1000);
    s.add_node(node_2.clone(), 1001);

    assert_eq!(s.get_most_recent(1).unwrap()[0], node_2);
    assert_eq!(s.get_most_recent(2).unwrap(), vec![node_2, node_1]);
}

#[test]
fn node_location() {
    let mut s = Storage::new();
    let coord = NodeCoordinates {
        x1_bits: 12.45f32.to_bits(),
        x2_bits: 76.001f32.to_bits(),
        height_bits: 10.23f32.to_bits(),
        pos_err_bits: 0.05f32.to_bits(),
        iteration: 0,
    };

    s.set_location(coord.clone());
    assert_eq!(s.get_location(), coord);
}

#[test]
fn newborn_and_landmark_locations() {
    assert_eq!(Storage::new().get_location().pos_err_bits, 1.0f32.to_bits());
    assert_eq!(Storage::new_landmark().get_location(), NodeCoordinates::origin());
    assert_eq!(NodeCoordinates::origin().pos_err_bits, 0);
}

#[test]
fn reinsertion_replaces_record() {
    let mut s = Storage::new();
    let first = NodeInfo::new(IpAddress::V4(0x0a00_0001), 1, "x".to_string());
    let second = NodeInfo::new(IpAddress::V4(0x0a00_0001), 1, "y".to_string());
    s.add_node(first, 10);
    s.add_node(second.clone(), 20);
    let all = s.get_all_nodes();
    assert_eq!(all, vec![second.clone()]);
    let found = s.find_node(&addr(&second)).unwrap();
    assert_eq!(found.info.name, "y");
    assert_eq!(found.last_updated_sec, 20);
}

#[test]
fn find_node_misses_other_port() {
    let mut s = Storage::new();
    let n = v4_node();
    s.add_node(n.clone(), 5);
    assert!(s.find_node(&SocketAddress { ip: n.ip, port: 11002 }).is_none());
    assert!(s.find_node(&addr(&n)).is_some());
}

#[test]
fn sampling_exclusion() {
    let a = NodeInfo::new(IpAddress::V4(1), 1, "A".to_string());
    let b = NodeInfo::new(IpAddress::V4(2), 2, "B".to_string());
    let c = NodeInfo::new(IpAddress::V4(3), 3, "C".to_string());
    let mut s = Storage::seeded(7);
    s.add_node(a.clone(), 1);
    s.add_node(b.clone(), 1);
    s.add_node(c.clone(), 1);
    for max in 3..8 {
        for _ in 0..20 {
            let got = s.get_random_nodes(max, &[addr(&a)]).unwrap();
            assert_eq!(got.len(), 2);
            assert!(got.iter().all(|n| *n == b || *n == c));
            assert_ne!(got[0], got[1]);
        }
        assert_eq!(s.get_random_nodes(max, &[addr(&a), addr(&b), addr(&c)]), None);
    }
}

#[test]
fn random_sample_is_distinct() {
    let mut s = Storage::seeded(42);
    for i in 0..30u32 {
        s.add_node(NodeInfo::new(IpAddress::V4(i), 1000, format!("{}", i)), 1);
    }
    for _ in 0..20 {
        let got = s.get_random_nodes(4, &[]).unwrap();
        assert_eq!(got.len(), 4);
        for i in 0..4 {
            for j in 0..4 {
                if i != j {
                    assert_ne!(got[i].ip, got[j].ip);
                }
            }
        }
    }
}

#[test]
fn most_recent_order_and_limit() {
    let mut s = Storage::new();
    for (i, t) in [5u64, 9, 1, 7, 3].iter().enumerate() {
        s.add_node(NodeInfo::new(IpAddress::V4(i as u32), 1, format!("n{}", i)), *t);
    }
    let got = s.get_most_recent(3).unwrap();
    let names: Vec<&str> = got.iter().map(|n| n.name.as_str()).collect();
    assert_eq!(names, vec!["n1", "n3", "n0"]);
    assert_eq!(s.get_most_recent(10).unwrap().len(), 5);
}

#[test]
fn update_location_advances_iteration() {
    let mut s = Storage::new();
    let mut fitted = NodeCoordinates::empty();
    fitted.x1_bits = 2.5f32.to_bits();
    fitted.iteration = 77;
    s.update_location(fitted);
    let loc = s.get_location();
    assert_eq!(loc.x1_bits, 2.5f32.to_bits());
    assert_eq!(loc.iteration, 1);
    s.set_location(NodeCoordinates { iteration: u64::MAX, ..loc });
    s.update_location(fitted);
    assert_eq!(s.get_location().iteration, u64::MAX);
}
