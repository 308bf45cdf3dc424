//! Read-only queries of the observer interface, answered from a storage.
//! The JSON framing of requests and responses is the caller's.
use vstd::prelude::*;
use crate::storage::{is_all_records, is_most_recent, Node, NodeView, Storage};
use crate::types::{views, IpAddress, NodeCoordinates, NodeInfo, SocketAddress};

verus! {

pub const REASON_BAD_REQUEST: &'static str = "bad request";

pub const REASON_BAD_NODE_ADDR: &'static str = "bad node address";

pub const REASON_NODE_NOT_FOUND: &'static str = "node not found";

pub const REASON_NO_INFORMATION: &'static str = "no information";

/// How many records a request for recent nodes gets when it names no number.
pub const NUM_RECENT_NODES_DEFAULT: usize = 10;

/// A query of the observer interface.
#[derive(Debug, PartialEq, Eq)]
pub enum Request {
    GetLocation,
    GetFullMap,
    /// The peer at an address; `None` when the text sent did not name a
    /// socket address.
    GetNodeInfo { node_addr: Option<SocketAddress> },
    GetRecentNodes { max_nodes: Option<usize> },
}

/// A peer's record together with the time it was last written.
#[derive(Debug, PartialEq, Eq)]
pub struct NodeInfoFull {
    pub ip: IpAddress,
    pub port: u16,
    pub name: String,
    pub location: NodeCoordinates,
    pub updated_at: u64,
}

impl NodeInfoFull {
    pub fn from_node(node: Node) -> (r: Self)
        ensures
            r.ip == node.info.ip,
            r.port == node.info.port,
            r.name@ == node.info.name@,
            r.location == node.info.location,
            r.updated_at == node.last_updated_sec,
    {
        NodeInfoFull {
            ip: node.info.ip,
            port: node.info.port,
            name: node.info.name,
            location: node.info.location,
            updated_at: node.last_updated_sec,
        }
    }
}

/// The answer to a query.
#[derive(Debug, PartialEq, Eq)]
pub enum Response {
    Location { loc: NodeCoordinates },
    FullMap { nodes: Vec<NodeInfo> },
    NodeInfo { info: NodeInfoFull },
    RecentNodes { nodes: Vec<NodeInfo> },
    Failure { reason: &'static str },
}

/// `info` shows the record `n`.
pub open spec fn shows(info: NodeInfoFull, n: NodeView) -> bool {
    &&& info.ip == n.info.ip
    &&& info.port == n.info.port
    &&& info.name@ == n.info.name
    &&& info.location == n.info.location
    &&& info.updated_at == n.last_updated_sec
}

/// Answer a query from the storage.
pub fn process_request(request: Request, store: &Storage) -> (r: Response)
    requires
        store.wf(),
    ensures
        match request {
            Request::GetLocation => r == Response::Location { loc: store@.location },
            Request::GetFullMap => r matches Response::FullMap { nodes } && is_all_records(
                views(nodes@),
                store@,
            ),
            Request::GetNodeInfo { node_addr: None } => r == Response::Failure {
                reason: REASON_BAD_NODE_ADDR,
            },
            Request::GetNodeInfo { node_addr: Some(a) } => if store@.records.contains_key(a) {
                r matches Response::NodeInfo { info } && shows(info, store@.records[a])
            } else {
                r == Response::Failure { reason: REASON_NODE_NOT_FOUND }
            },
            Request::GetRecentNodes { max_nodes } => {
                let m = match max_nodes {
                    Some(m) => m,
                    None => NUM_RECENT_NODES_DEFAULT,
                };
                if m == 0 || store@.records.len() == 0 {
                    r == Response::Failure { reason: REASON_NO_INFORMATION }
                } else {
                    r matches Response::RecentNodes { nodes } && is_most_recent(
                        views(nodes@),
                        store@,
                        m as int,
                    )
                }
            },
        },
{
    match request {
        Request::GetLocation => Response::Location { loc: store.get_location() },
        Request::GetFullMap => Response::FullMap { nodes: store.get_all_nodes() },
        Request::GetNodeInfo { node_addr } => match node_addr {
            None => Response::Failure { reason: REASON_BAD_NODE_ADDR },
            Some(addr) => match store.find_node(&addr) {
                Some(node) => Response::NodeInfo { info: NodeInfoFull::from_node(node) },
                None => Response::Failure { reason: REASON_NODE_NOT_FOUND },
            },
        },
        Request::GetRecentNodes { max_nodes } => {
            let m = match max_nodes {
                Some(m) => m,
                None => NUM_RECENT_NODES_DEFAULT,
            };
            match store.get_most_recent(m) {
                Some(nodes) => Response::RecentNodes { nodes },
                None => Response::Failure { reason: REASON_NO_INFORMATION },
            }
        },
    }
}

} // verus!
