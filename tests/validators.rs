use netloc::arg_validator::{
    parse_log_level, validate_interval, validate_name, validate_port, LogLevel,
};
use netloc::interface::{
    process_request, Request, Response, REASON_BAD_NODE_ADDR, REASON_NODE_NOT_FOUND,
    REASON_NO_INFORMATION,
};
use netloc::storage::Storage;
use netloc::types::{IpAddress, NodeInfo, SocketAddress};

#[test]
fn name_validation() {
    assert_eq!(validate_name("r1".to_string()), Ok(()));
    assert_eq!(validate_name(['a'; 254].iter().collect()), Ok(()));
    assert_eq!(
        validate_name(['a'; 255].iter().collect()),
        Err("Provided name is too long".to_string())
    );
    assert_eq!(
        validate_name(['ж'; 128].iter().collect()),
        Err("Provided name is too long".to_string())
    );
}

#[test]
fn port_and_interval_validation() {
    assert_eq!(validate_port("3737".to_string()), Ok(()));
    assert_eq!(validate_port("+80".to_string()), Ok(()));
    assert_eq!(validate_port("65535".to_string()), Ok(()));
    assert_eq!(validate_port("65536".to_string()), Err("Bad port provided".to_string()));
    assert_eq!(validate_port("".to_string()), Err("Bad port provided".to_string()));
    assert_eq!(validate_port("-1".to_string()), Err("Bad port provided".to_string()));
    assert_eq!(validate_port(" 1".to_string()), Err("Bad port provided".to_string()));
    assert_eq!(validate_interval("10".to_string()), Ok(()));
    assert_eq!(
        validate_interval("ten".to_string()),
        Err("Bad probe interval provided".to_string())
    );
}

#[test]
fn log_levels() {
    assert_eq!(parse_log_level("debug"), Some(LogLevel::Debug));
    assert_eq!(parse_log_level("info"), Some(LogLevel::Info));
    assert_eq!(parse_log_level("warn"), Some(LogLevel::Warn));
    assert_eq!(parse_log_level("error"), Some(LogLevel::Error));
    assert_eq!(parse_log_level("trace"), None);
    assert_eq!(parse_log_level("Debug"), None);
}

#[test]
fn interface_queries() {
    let mut s = Storage::new();
    assert_eq!(
        process_request(Request::GetRecentNodes { max_nodes: None }, &s),
        Response::Failure { reason: REASON_NO_INFORMATION }
    );
    let n = NodeInfo::new(IpAddress::V4(0x0102_0304), 9, "n".to_string());
    s.add_node(n.clone(), 33);
    let a = SocketAddress { ip: n.ip, port: 9 };
    match process_request(Request::GetNodeInfo { node_addr: Some(a) }, &s) {
        Response::NodeInfo { info } => {
            assert_eq!(info.name, "n");
            assert_eq!(info.updated_at, 33);
        }
        other => panic!("unexpected {:?}", other),
    }
    assert_eq!(
        process_request(Request::GetNodeInfo { node_addr: Some(SocketAddress { ip: n.ip, port: 10 }) }, &s),
        Response::Failure { reason: REASON_NODE_NOT_FOUND }
    );
    assert_eq!(
        process_request(Request::GetNodeInfo { node_addr: None }, &s),
        Response::Failure { reason: REASON_BAD_NODE_ADDR }
    );
    assert_eq!(
        process_request(Request::GetFullMap, &s),
        Response::FullMap { nodes: vec![n.clone()] }
    );
    assert_eq!(
        process_request(Request::GetRecentNodes { max_nodes: Some(0) }, &s),
        Response::Failure { reason: REASON_NO_INFORMATION }
    );
    assert_eq!(
        process_request(Request::GetRecentNodes { max_nodes: None }, &s),
        Response::RecentNodes { nodes: vec![n] }
    );
    assert_eq!(
        process_request(Request::GetLocation, &s),
        Response::Location { loc: s.get_location() }
    );
}
