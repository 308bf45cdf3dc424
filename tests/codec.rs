use netloc::messages::{BootstrapRequest, BootstrapResponse, Message, ProbeRequest, ProbeResponse};
use netloc::types::{IpAddress, MsgType, NodeCoordinates, NodeFlags, NodeInfo};
use netloc::wire::{deserialize_str, serialize_str};

fn coords(x1: f32, x2: f32, height: f32, pos_err: f32, iteration: u64) -> NodeCoordinates {
    NodeCoordinates {
        x1_bits: x1.to_bits(),
        x2_bits: x2.to_bits(),
        height_bits: height.to_bits(),
        pos_err_bits: pos_err.to_bits(),
        iteration,
    }
}

#[test]
fn str_serialization() {
    // normal
    assert_eq!(serialize_str("test"), Some(vec![4, 116, 101, 115, 116]));

    // non-ascii
    assert_eq!(
        serialize_str("узел"),
        Some(vec![8, 209, 131, 208, 183, 208, 181, 208, 187])
    );

    // empty
    assert_eq!(serialize_str(""), Some(vec![0]));

    // too long
    let long: String = ['x'; 300].iter().collect();
    assert_eq!(serialize_str(long.as_str()), None);
}

#[test]
fn str_deserialization_exact() {
    let data = vec![4, 116, 101, 115, 116];
    if let Some((s, rest)) = deserialize_str(&data) {
        assert_eq!(s, "test");
        let empty: &[u8] = &[];
        assert_eq!(rest, empty);
    } else {
        panic!("cannot deserialize string");
    }
}

#[test]
fn str_deserialization_redundant() {
    let data = vec![4, 116, 101, 115, 116, 112, 221, 12];
    if let Some((s, rest)) = deserialize_str(&data) {
        assert_eq!(s, "test");
        assert_eq!(rest, &[112, 221, 12]);
    } else {
        panic!("cannot deserialize string");
    }
}

#[test]
fn str_deserialization_empty() {
    let data = vec![];
    assert_eq!(deserialize_str(&data), None);
}

#[test]
fn str_deserialization_no_str() {
    // only length - must return rest without zero length prefix
    let data = &[0, 1, 2, 3];
    if let Some((s, rest)) = deserialize_str(data) {
        assert_eq!(s, "");
        assert_eq!(rest, &[1, 2, 3]);
    } else {
        panic!("cannot deserialize string");
    }
}

#[test]
fn str_deserialization_bad_len_prefix() {
    assert_eq!(deserialize_str(&[12, 23, 32]), None);
}

#[test]
fn str_deserialization_bad_utf8() {
    assert_eq!(deserialize_str(&[2, 0xc3, 0x28]), None);
    assert_eq!(deserialize_str(&[1, 0xff]), None);
}

#[test]
fn str_deserialization_multibyte() {
    let data = vec![8, 209, 131, 208, 183, 208, 181, 208, 187, 7];
    let (s, rest) = deserialize_str(&data).unwrap();
    assert_eq!(s, "узел");
    assert_eq!(rest, &[7]);
}

#[test]
fn str_serialization_limit() {
    let longest: String = ['y'; 254].iter().collect();
    let encoded = serialize_str(longest.as_str()).unwrap();
    assert_eq!(encoded.len(), 255);
    assert_eq!(encoded[0], 254);
    let too_long: String = ['y'; 255].iter().collect();
    assert_eq!(serialize_str(too_long.as_str()), None);
}

#[test]
fn serialize_bootstrap_request() {
    let req = BootstrapRequest::new("test".to_string());
    assert_eq!(req.serialize(), Some(vec![1, 4, 116, 101, 115, 116]));

    let empty = BootstrapRequest::new("".to_string());
    assert_eq!(empty.serialize(), Some(vec![1, 0]));
}

#[test]
fn codec_homomorphism_bootstrap_request() {
    let req = BootstrapRequest::new("test_node".to_string());

    let encoded = req.serialize().unwrap();
    let decoded = BootstrapRequest::deserialize(&encoded[1..]).unwrap();

    assert_eq!(req, decoded);
}

#[test]
fn bootstrap_request_long_name_fails() {
    let name: String = ['n'; 255].iter().collect();
    assert_eq!(BootstrapRequest::new(name).serialize(), None);
}

#[test]
fn codec_homomorphism_bootstrap_response() {
    let nodes = vec![
        NodeInfo::new(IpAddress::V4(0x0102_0304), 1001, "first".to_string()),
        NodeInfo::new(
            IpAddress::V6(0x0001_0002_0003_0004_0005_0006_0007_0008),
            1002,
            "second".to_string(),
        ),
        NodeInfo::new(IpAddress::V4(0x0afc_2111), 1003, "third".to_string()),
    ];
    let resp = BootstrapResponse { neighbours: nodes };

    let encoded = resp.serialize().unwrap();
    let decoded = BootstrapResponse::deserialize(&encoded[1..]).unwrap();

    assert_eq!(resp, decoded);
}

#[test]
fn codec_homomorphism_probe_request() {
    let mut req = ProbeRequest::new("test_node".to_string());
    req.set_current_time(1_700_000_000, 123_456_789);

    let encoded = req.serialize().unwrap();
    let decoded = ProbeRequest::deserialize(&encoded[1..]).unwrap();

    assert_eq!(req, decoded);
}

#[test]
fn codec_homomorphism_probe_response() {
    let mut req = ProbeRequest::new("test_node".to_string());
    req.set_current_time(1_700_000_000, 987_654_321);

    let location = coords(1.5, 23.65, 0.34, 0.5, 127);

    let mut resp = ProbeResponse::new("respondent_node".to_string(), location);
    resp.copy_time(&req);

    let encoded = resp.serialize().unwrap();
    let decoded = ProbeResponse::deserialize(&encoded[1..]).unwrap();

    assert_eq!(resp, decoded);
}

#[test]
fn node_info_serialization_zero_coordinates() {
    let info = NodeInfo::new(IpAddress::V4(0x0102_0304), 1028, "test".to_string());

    let encoded = info.serialize();

    if let Some((decoded, _rest)) = NodeInfo::deserialize(&encoded) {
        assert_eq!(decoded, info);
    } else {
        panic!("deserialization failed");
    }
}

#[test]
fn node_info_serialization_filled_coordinates() {
    let mut info = NodeInfo::new(IpAddress::V4(0x0102_0304), 1028, "test".to_string());
    info.set_coordinates(&coords(1.0, 2.0, 3.0, 0.5, 12));

    let encoded = info.serialize();

    if let Some((decoded, _rest)) = NodeInfo::deserialize(&encoded) {
        assert_eq!(decoded, info);
    } else {
        panic!("deserialization failed");
    }
}

#[test]
fn node_info_golden_layout() {
    let mut info = NodeInfo::new(IpAddress::V4(0x0102_0304), 0x0405, "ab".to_string());
    info.set_coordinates(&coords(1.0, 0.0, 0.0, 0.5, 0x0102));
    assert_eq!(
        info.serialize(),
        vec![
            0, 1, 2, 3, 4, 4, 5, 2, 97, 98, 0x3f, 0x80, 0, 0, 0, 0, 0, 0, 0, 0, 0, 0, 0x3f, 0, 0,
            0, 0, 0, 0, 0, 0, 0, 1, 2,
        ]
    );
}

#[test]
fn node_info_ipv6_round_trip_with_trailing_bytes() {
    let mut info = NodeInfo::new(
        IpAddress::V6(0x001a_002b_003c_004d_005e_006f_0070_0080),
        11002,
        "test_node_v6".to_string(),
    );
    info.set_coordinates(&coords(f32::MAX, -f32::MAX, f32::MIN_POSITIVE, 1.0, u64::MAX));
    let mut encoded = info.serialize();
    assert_eq!(encoded[0], 1);
    assert_eq!(encoded.len(), 1 + 16 + 2 + 1 + 12 + 24);
    encoded.extend_from_slice(&[9, 9]);
    let (decoded, rest) = NodeInfo::deserialize(&encoded).unwrap();
    assert_eq!(decoded, info);
    assert_eq!(rest, &[9, 9]);
}

#[test]
fn node_info_long_name_sent_empty() {
    let name: String = ['z'; 300].iter().collect();
    let info = NodeInfo::new(IpAddress::V4(7), 1, name);
    let (decoded, _) = NodeInfo::deserialize(&info.serialize()).unwrap();
    assert_eq!(decoded.name, "");
    assert_eq!(decoded.ip, IpAddress::V4(7));
}

#[test]
fn node_info_truncated_rejected() {
    let info = NodeInfo::new(IpAddress::V4(0x0102_0304), 1028, "test".to_string());
    let encoded = info.serialize();
    for cut in 0..encoded.len() {
        assert!(NodeInfo::deserialize(&encoded[..cut]).is_none());
    }
}

#[test]
fn gossip_round_trip_four_records() {
    let mut req = ProbeRequest::new("".to_string());
    req.set_current_time(u64::MAX, 999_999_999);
    let longest: String = ['q'; 254].iter().collect();
    req.set_neighbours(vec![
        NodeInfo::new(IpAddress::V4(1), 1, "a".to_string()),
        NodeInfo::new(IpAddress::V6(2), 2, longest),
        NodeInfo::new(IpAddress::V4(3), 3, "".to_string()),
        NodeInfo::new(IpAddress::V6(u128::MAX), 65535, "d".to_string()),
    ]);
    let encoded = req.serialize().unwrap();
    assert_eq!(encoded[0], 10);
    match Message::decode(&encoded) {
        Some(Message::ProbeRequest(decoded)) => assert_eq!(decoded, req),
        other => panic!("unexpected {:?}", other),
    }
}

#[test]
fn gossip_partial_trailing_record_ignored() {
    let mut resp = ProbeResponse::new("r".to_string(), NodeCoordinates::empty());
    resp.set_neighbours(vec![NodeInfo::new(IpAddress::V4(1), 1, "a".to_string())]);
    let mut encoded = resp.serialize().unwrap();
    encoded.extend_from_slice(&[0, 1, 2, 3]);
    let decoded = ProbeResponse::deserialize(&encoded[1..]).unwrap();
    assert_eq!(decoded, resp);
}

#[test]
fn probe_request_without_gossip_decodes_none() {
    let mut req = ProbeRequest::new("x".to_string());
    req.set_neighbours(vec![]);
    let decoded = ProbeRequest::deserialize(&req.serialize().unwrap()[1..]).unwrap();
    assert_eq!(decoded.neighbours, None);
}

#[test]
fn malformed_datagrams_rejected() {
    assert!(Message::decode(&[]).is_none());
    assert!(Message::decode(&[3, 0]).is_none());
    assert!(Message::decode(&[10, 0, 0, 0]).is_none());
    assert!(Message::decode(&[11, 0, 0, 0, 0, 0, 0, 0, 0, 0, 0, 0, 0, 1, b'a']).is_none());
    assert!(Message::decode(&[1, 5, b'a']).is_none());
    assert!(Message::decode(&[1, 1, 0xff]).is_none());
    match Message::decode(&[2]) {
        Some(Message::BootstrapResponse(r)) => assert!(r.neighbours.is_empty()),
        other => panic!("unexpected {:?}", other),
    }
}

#[test]
fn msg_type_codes() {
    assert_eq!(MsgType::BootstrapRequest.to_code(), 1);
    assert_eq!(MsgType::BootstrapResponse.to_code(), 2);
    assert_eq!(MsgType::ProbeRequest.to_code(), 10);
    assert_eq!(MsgType::ProbeResponse.to_code(), 11);
    assert_eq!(MsgType::from_code(10), Some(MsgType::ProbeRequest));
    assert_eq!(MsgType::from_code(11), Some(MsgType::ProbeResponse));
    assert_eq!(MsgType::from_code(0), None);
    assert_eq!(MsgType::from_code(3), None);
}

#[test]
fn node_flags_low_bit() {
    assert!(NodeFlags::deserialize(1).is_addr_ipv6);
    assert!(NodeFlags::deserialize(0xff).is_addr_ipv6);
    assert!(!NodeFlags::deserialize(0xfe).is_addr_ipv6);
    assert_eq!(NodeFlags { is_addr_ipv6: true }.serialize(), 1);
    assert_eq!(NodeFlags { is_addr_ipv6: false }.serialize(), 0);
}
