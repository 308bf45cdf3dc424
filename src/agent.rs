//! What a node decides on each datagram it receives and on each probe tick.
//! Sockets, clocks, threads and the coordinate arithmetic stay with the
//! caller, who hands in the bytes, the sender and the time, and performs
//! the reply that comes back.
use vstd::prelude::*;
use crate::messages::{
    gossip_of, message_bytes, parse_message, BootstrapRequest, BootstrapResponse, Message,
    MessageView, ProbeRequest, ProbeRequestView, ProbeResponse, ProbeResponseView,
};
use crate::storage::{candidates, distinct_addrs, is_sample, NodeView, Storage, StorageView};
use crate::types::{newborn_location, views, NodeCoordinates, NodeInfo, NodeInfoView, SocketAddress};
use crate::wire::short_str_fits;

verus! {

/// Most peer records carried by one datagram.
pub const GOSSIP_MAX_NEIGHBOURS_IN_MSG: usize = 4;

/// Name that the landmark goes by.
pub const LANDMARK_NODE_NAME: &'static str = "landmark";

/// The two roles a node can play.
#[derive(Clone, Copy, Debug, PartialEq, Eq, Structural)]
pub enum NodeType {
    /// Probes, answers probes, moves, gossips.
    Regular,
    /// Pinned at the origin; answers probes and bootstrap requests only.
    Landmark,
}

/// A reading of the wall clock: seconds and nanoseconds since the epoch.
#[derive(Clone, Copy, Debug, PartialEq, Eq, Structural)]
pub struct Timestamp {
    pub sec: u64,
    pub nsec: u32,
}

pub open spec fn nanos(sec: u64, nsec: u32) -> int {
    sec * 1_000_000_000 + nsec
}

fn to_nanos(sec: u64, nsec: u32) -> (r: u128)
    ensures
        r == nanos(sec, nsec),
{
    assert(sec * 1_000_000_000 + nsec <= u64::MAX * 1_000_000_000 + u32::MAX) by (nonlinear_arith);
    (sec as u128) * 1_000_000_000u128 + (nsec as u128)
}

/// The round-trip time, in nanoseconds, of a probe stamped `sent_sec.sent_nsec`
/// and answered at `received_at`; nothing when the stamp lies after
/// `received_at` (the clock stepped back).
pub fn round_trip_nanos(sent_sec: u64, sent_nsec: u32, received_at: Timestamp) -> (r: Option<u128>)
    ensures
        r == (if nanos(sent_sec, sent_nsec) <= nanos(received_at.sec, received_at.nsec) {
            Some((nanos(received_at.sec, received_at.nsec) - nanos(sent_sec, sent_nsec)) as u128)
        } else {
            None::<u128>
        }),
{
    let sent = to_nanos(sent_sec, sent_nsec);
    let received = to_nanos(received_at.sec, received_at.nsec);
    if sent <= received {
        Some(received - sent)
    } else {
        None
    }
}

/// One RTT sample for the coordinate engine: the remote's coordinates and
/// the time the probe took.
#[derive(Clone, Copy, Debug, PartialEq, Eq, Structural)]
pub struct LocationSample {
    pub remote: NodeCoordinates,
    pub rtt_nanos: u128,
}

/// The records `m` holds after each record of `ns` was added, in order, at
/// time `now`.
pub open spec fn merged(m: Map<SocketAddress, NodeView>, ns: Seq<NodeInfoView>, now: u64) -> Map<
    SocketAddress,
    NodeView,
>
    decreases ns.len(),
{
    if ns.len() == 0 {
        m
    } else {
        merged(m, ns.drop_last(), now).insert(
            ns.last().addr(),
            NodeView { info: ns.last(), last_updated_sec: now },
        )
    }
}

/// The record kept of the peer that a datagram came from.
pub open spec fn sender_record(
    sender: SocketAddress,
    name: Seq<char>,
    location: NodeCoordinates,
    now: u64,
) -> NodeView {
    NodeView {
        info: NodeInfoView { ip: sender.ip, port: sender.port, name, location },
        last_updated_sec: now,
    }
}

/// Add each record of `neighbours`, in order.
fn merge_gossip(store: &mut Storage, neighbours: &Option<Vec<NodeInfo>>, now_sec: u64)
    requires
        old(store).wf(),
    ensures
        final(store).wf(),
        final(store)@.location == old(store)@.location,
        final(store)@.records == merged(old(store)@.records, gossip_of(*neighbours), now_sec),
{
    match neighbours {
        None => {},
        Some(list) => {
            let n = list.len();
            let mut i: usize = 0;
            while i < n
                invariant
                    i <= n,
                    n == list@.len(),
                    store.wf(),
                    store@.location == old(store)@.location,
                    store@.records == merged(old(store)@.records, views(list@).take(i as int), now_sec),
                decreases n - i,
            {
                store.add_node(list[i].clone(), now_sec);
                proof {
                    let t = views(list@).take(i + 1);
                    assert(t.drop_last() =~= views(list@).take(i as int));
                    assert(t.last() == list@[i as int]@);
                }
                i += 1;
            }
            assert(views(list@).take(n as int) =~= views(list@));
        },
    }
}

/// Draw a gossip sample from `store`.
fn sample_gossip(store: &mut Storage, exclude: &[SocketAddress]) -> (r: Option<Vec<NodeInfo>>)
    requires
        old(store).wf(),
    ensures
        final(store).wf(),
        final(store)@ == old(store)@,
        is_sample(gossip_of(r), old(store)@, exclude@, GOSSIP_MAX_NEIGHBOURS_IN_MSG as int),
        r matches Some(v) ==> v@.len() > 0,
{
    store.get_random_nodes(GOSSIP_MAX_NEIGHBOURS_IN_MSG, exclude)
}

/// Answer a probe request from `sender`, and learn from it: the sender's
/// record (with the name it gives) and then the records it gossips are added
/// at `now_sec`. The answer echoes the request's timestamp and carries this
/// node's name and coordinates; a regular node adds a gossip sample that
/// leaves out the sender and itself, a landmark adds none.
pub fn handle_probe_request(
    node_type: NodeType,
    name: &String,
    local_addr: &SocketAddress,
    store: &mut Storage,
    sender: &SocketAddress,
    request: &ProbeRequest,
    now_sec: u64,
) -> (r: ProbeResponse)
    requires
        old(store).wf(),
    ensures
        final(store).wf(),
        final(store)@.location == old(store)@.location,
        final(store)@.records == merged(
            old(store)@.records.insert(
                *sender,
                sender_record(*sender, request.sender_name@, newborn_location(), now_sec),
            ),
            request@.neighbours,
            now_sec,
        ),
        r@.sent_at_sec == request.sent_at_sec,
        r@.sent_at_nsec == request.sent_at_nsec,
        r@.respondent_name == name@,
        r@.location == old(store)@.location,
        node_type == NodeType::Landmark ==> r@.neighbours.len() == 0,
        node_type == NodeType::Regular ==> is_sample(
            r@.neighbours,
            old(store)@,
            seq![*sender, *local_addr],
            GOSSIP_MAX_NEIGHBOURS_IN_MSG as int,
        ),
{
    let mut response = ProbeResponse::new(name.clone(), store.get_location());
    response.copy_time(request);
    match node_type {
        NodeType::Regular => {
            let exclude = [*sender, *local_addr];
            assert(exclude@ =~= seq![*sender, *local_addr]);
            match sample_gossip(store, &exclude) {
                Some(neighbours) => response.set_neighbours(neighbours),
                None => {},
            }
        },
        NodeType::Landmark => {},
    }
    let info = NodeInfo::new(sender.ip, sender.port, request.sender_name.clone());
    store.add_node(info, now_sec);
    merge_gossip(store, &request.neighbours, now_sec);
    response
}

/// Take a probe response from `sender`, received at `received_at`: learn the
/// respondent's record, with the coordinates it advertises, and the records
/// it gossips. The RTT sample for the coordinate engine comes back, unless
/// the echoed stamp lies after `received_at`; the local coordinates are left
/// for the caller to move.
pub fn handle_probe_response(
    store: &mut Storage,
    sender: &SocketAddress,
    response: &ProbeResponse,
    received_at: Timestamp,
) -> (r: Option<LocationSample>)
    requires
        old(store).wf(),
    ensures
        final(store).wf(),
        final(store)@.location == old(store)@.location,
        final(store)@.records == merged(
            old(store)@.records.insert(
                *sender,
                sender_record(*sender, response.respondent_name@, response.location, received_at.sec),
            ),
            response@.neighbours,
            received_at.sec,
        ),
        r == (if nanos(response.sent_at_sec, response.sent_at_nsec) <= nanos(
            received_at.sec,
            received_at.nsec,
        ) {
            Some(
                LocationSample {
                    remote: response.location,
                    rtt_nanos: (nanos(received_at.sec, received_at.nsec) - nanos(
                        response.sent_at_sec,
                        response.sent_at_nsec,
                    )) as u128,
                },
            )
        } else {
            None::<LocationSample>
        }),
{
    let sample = match round_trip_nanos(response.sent_at_sec, response.sent_at_nsec, received_at) {
        Some(rtt_nanos) => Some(LocationSample { remote: response.location, rtt_nanos }),
        None => None,
    };
    let mut info = NodeInfo::new(sender.ip, sender.port, response.respondent_name.clone());
    info.set_coordinates(&response.location);
    store.add_node(info, received_at.sec);
    merge_gossip(store, &response.neighbours, received_at.sec);
    sample
}

/// Answer a newcomer's bootstrap request: record the newcomer, then return a
/// sample of the other peers.
pub fn handle_bootstrap_request(
    store: &mut Storage,
    sender: &SocketAddress,
    request: &BootstrapRequest,
    now_sec: u64,
) -> (r: BootstrapResponse)
    requires
        old(store).wf(),
    ensures
        final(store).wf(),
        final(store)@.location == old(store)@.location,
        final(store)@.records == old(store)@.records.insert(
            *sender,
            sender_record(*sender, request.local_name@, newborn_location(), now_sec),
        ),
        is_sample(
            views(r.neighbours@),
            final(store)@,
            seq![*sender],
            GOSSIP_MAX_NEIGHBOURS_IN_MSG as int,
        ),
{
    let info = NodeInfo::new(sender.ip, sender.port, request.local_name.clone());
    store.add_node(info, now_sec);
    let exclude = [*sender];
    assert(exclude@ =~= seq![*sender]);
    let mut response = BootstrapResponse::empty();
    match sample_gossip(store, &exclude) {
        Some(neighbours) => {
            response.neighbours = neighbours;
        },
        None => {
            assert(views(response.neighbours@) =~= Seq::<NodeInfoView>::empty());
        },
    }
    response
}

/// Take the peers that a bootstrap response lists.
pub fn handle_bootstrap_response(store: &mut Storage, response: &BootstrapResponse, now_sec: u64)
    requires
        old(store).wf(),
    ensures
        final(store).wf(),
        final(store)@.location == old(store)@.location,
        final(store)@.records == merged(old(store)@.records, views(response.neighbours@), now_sec),
{
    let n = response.neighbours.len();
    let mut i: usize = 0;
    while i < n
        invariant
            i <= n,
            n == response.neighbours@.len(),
            store.wf(),
            store@.location == old(store)@.location,
            store@.records == merged(
                old(store)@.records,
                views(response.neighbours@).take(i as int),
                now_sec,
            ),
        decreases n - i,
    {
        store.add_node(response.neighbours[i].clone(), now_sec);
        proof {
            let t = views(response.neighbours@).take(i + 1);
            assert(t.drop_last() =~= views(response.neighbours@).take(i as int));
        }
        i += 1;
    }
    assert(views(response.neighbours@).take(n as int) =~= views(response.neighbours@));
}

/// The RTT sample that a probe response received at `now` yields.
pub open spec fn probe_sample(p: ProbeResponseView, now: Timestamp) -> Option<LocationSample> {
    if nanos(p.sent_at_sec, p.sent_at_nsec) <= nanos(now.sec, now.nsec) {
        Some(
            LocationSample {
                remote: p.location,
                rtt_nanos: (nanos(now.sec, now.nsec) - nanos(p.sent_at_sec, p.sent_at_nsec)) as u128,
            },
        )
    } else {
        None
    }
}

/// A node's answer to a probe request `p`, given its name and its storage
/// `v` at the time: the stamp echoed, its own name and coordinates, and
/// gossip from a regular node only, none about the sender or itself.
pub open spec fn is_probe_answer(
    q: ProbeResponseView,
    p: ProbeRequestView,
    node_type: NodeType,
    name: Seq<char>,
    local_addr: SocketAddress,
    sender: SocketAddress,
    v: StorageView,
) -> bool {
    &&& q.sent_at_sec == p.sent_at_sec
    &&& q.sent_at_nsec == p.sent_at_nsec
    &&& q.respondent_name == name
    &&& q.location == v.location
    &&& node_type == NodeType::Landmark ==> q.neighbours.len() == 0
    &&& node_type == NodeType::Regular ==> is_sample(
        q.neighbours,
        v,
        seq![sender, local_addr],
        GOSSIP_MAX_NEIGHBOURS_IN_MSG as int,
    )
}

/// What a node does with one datagram: bytes to send back to the sender,
/// and an RTT sample for its coordinate engine.
pub struct Reaction {
    pub reply: Option<Vec<u8>>,
    pub sample: Option<LocationSample>,
}

/// Handle one datagram `data` from `sender`, received at `now`. Malformed
/// datagrams, and kinds that the role does not take, change nothing. A
/// regular node takes probe requests, probe responses and bootstrap
/// responses; the landmark takes probe requests and bootstrap requests.
/// The local coordinates never change here: a sample, which only a regular
/// node's probe response yields, is for the caller to fit.
pub fn handle_datagram(
    node_type: NodeType,
    name: &String,
    local_addr: &SocketAddress,
    store: &mut Storage,
    sender: &SocketAddress,
    data: &[u8],
    now: Timestamp,
) -> (r: Reaction)
    requires
        old(store).wf(),
    ensures
        final(store).wf(),
        final(store)@.location == old(store)@.location,
        node_type == NodeType::Landmark ==> r.sample is None,
        match parse_message(data@) {
            Some(MessageView::ProbeRequest(p)) => {
                &&& final(store)@.records == merged(
                    old(store)@.records.insert(
                        *sender,
                        sender_record(*sender, p.sender_name, newborn_location(), now.sec),
                    ),
                    p.neighbours,
                    now.sec,
                )
                &&& r.sample is None
                &&& (r.reply is Some <==> short_str_fits(name@))
                &&& r.reply matches Some(b) ==> exists|q: ProbeResponseView|
                    #![trigger message_bytes(MessageView::ProbeResponse(q))]
                    b@ == message_bytes(MessageView::ProbeResponse(q)) && is_probe_answer(
                        q,
                        p,
                        node_type,
                        name@,
                        *local_addr,
                        *sender,
                        old(store)@,
                    )
            },
            Some(MessageView::ProbeResponse(p)) => {
                &&& r.reply is None
                &&& node_type == NodeType::Regular ==> {
                    &&& final(store)@.records == merged(
                        old(store)@.records.insert(
                            *sender,
                            sender_record(*sender, p.respondent_name, p.location, now.sec),
                        ),
                        p.neighbours,
                        now.sec,
                    )
                    &&& r.sample == probe_sample(p, now)
                }
                &&& node_type == NodeType::Landmark ==> final(store)@ == old(store)@
            },
            Some(MessageView::BootstrapResponse(ns)) => {
                &&& r.reply is None
                &&& r.sample is None
                &&& node_type == NodeType::Regular ==> final(store)@.records == merged(
                    old(store)@.records,
                    ns,
                    now.sec,
                )
                &&& node_type == NodeType::Landmark ==> final(store)@ == old(store)@
            },
            Some(MessageView::BootstrapRequest(n)) => {
                &&& r.sample is None
                &&& node_type == NodeType::Landmark ==> {
                    &&& final(store)@.records == old(store)@.records.insert(
                        *sender,
                        sender_record(*sender, n, newborn_location(), now.sec),
                    )
                    &&& r.reply matches Some(b) && exists|g: Seq<NodeInfoView>|
                        #![trigger message_bytes(MessageView::BootstrapResponse(g))]
                        b@ == message_bytes(MessageView::BootstrapResponse(g)) && is_sample(
                            g,
                            final(store)@,
                            seq![*sender],
                            GOSSIP_MAX_NEIGHBOURS_IN_MSG as int,
                        )
                }
                &&& node_type == NodeType::Regular ==> final(store)@ == old(store)@ && r.reply is None
            },
            None => final(store)@ == old(store)@ && r.reply is None && r.sample is None,
        },
{
    match Message::decode(data) {
        None => Reaction { reply: None, sample: None },
        Some(Message::ProbeRequest(request)) => {
            let ghost before = store@;
            let response = handle_probe_request(
                node_type,
                name,
                local_addr,
                store,
                sender,
                &request,
                now.sec,
            );
            let reply = response.serialize();
            proof {
                if reply is Some {
                    assert(is_probe_answer(
                        response@,
                        request@,
                        node_type,
                        name@,
                        *local_addr,
                        *sender,
                        before,
                    ));
                }
            }
            Reaction { reply, sample: None }
        },
        Some(Message::ProbeResponse(response)) => match node_type {
            NodeType::Regular => {
                let sample = handle_probe_response(store, sender, &response, now);
                Reaction { reply: None, sample }
            },
            NodeType::Landmark => Reaction { reply: None, sample: None },
        },
        Some(Message::BootstrapResponse(response)) => match node_type {
            NodeType::Regular => {
                handle_bootstrap_response(store, &response, now.sec);
                Reaction { reply: None, sample: None }
            },
            NodeType::Landmark => Reaction { reply: None, sample: None },
        },
        Some(Message::BootstrapRequest(request)) => match node_type {
            NodeType::Landmark => {
                let response = handle_bootstrap_request(store, sender, &request, now.sec);
                let reply = response.serialize();
                Reaction { reply, sample: None }
            },
            NodeType::Regular => Reaction { reply: None, sample: None },
        },
    }
}

/// Pick the peer to probe on this tick and the gossip to send it: up to
/// five distinct peers are drawn, leaving out this node and the landmark;
/// the first is probed and the others are gossiped. With no such peer, the
/// landmark is probed, with no gossip.
pub fn choose_probe_target(
    store: &mut Storage,
    landmark_addr: &SocketAddress,
    local_addr: &SocketAddress,
) -> (r: (SocketAddress, Option<Vec<NodeInfo>>))
    requires
        old(store).wf(),
    ensures
        final(store).wf(),
        final(store)@ == old(store)@,
        candidates(old(store)@, seq![*local_addr, *landmark_addr]).len() == 0 ==> r.0
            == *landmark_addr && r.1 is None,
        candidates(old(store)@, seq![*local_addr, *landmark_addr]).len() > 0 ==> {
            &&& candidates(old(store)@, seq![*local_addr, *landmark_addr]).contains(r.0)
            &&& is_sample(
                gossip_of(r.1),
                old(store)@,
                seq![*local_addr, *landmark_addr, r.0],
                GOSSIP_MAX_NEIGHBOURS_IN_MSG as int,
            )
        },
{
    let ghost v = store@;
    let exclude = [*local_addr, *landmark_addr];
    assert(exclude@ =~= seq![*local_addr, *landmark_addr]);
    proof {
        store.lemma_records();
    }
    match store.get_random_nodes(GOSSIP_MAX_NEIGHBOURS_IN_MSG + 1, &exclude) {
        None => (*landmark_addr, None),
        Some(mut drawn) => {
            let ghost all = drawn@;
            let target = drawn[0].address();
            let ghost c = candidates(v, seq![*local_addr, *landmark_addr]);
            let ghost c3 = candidates(v, seq![*local_addr, *landmark_addr, target]);
            let _ = drawn.remove(0);
            proof {
                let ga = views(all);
                assert(ga[0] == all[0]@);
                assert(c.contains(target));
                assert(c3 =~= c.remove(target));
                lemma_set_remove_len(c, target);
                let g = views(drawn@);
                assert forall|i: int| #![trigger g[i]] 0 <= i < g.len() implies g[i] == ga[i + 1] by {
                    assert(drawn@[i] == all[i + 1]);
                }
                assert forall|i: int| #![trigger g[i]] 0 <= i < g.len() implies c3.contains(g[i].addr()) && !seq![*local_addr, *landmark_addr, target].contains(g[i].addr()) by {
                    assert(ga[i + 1].addr() != ga[0].addr());
                    assert(c.contains(ga[i + 1].addr()));
                }
                assert(distinct_addrs(g)) by {
                    assert forall|a: int, b: int| 0 <= a < g.len() && 0 <= b < g.len() && a != b implies g[a].addr() != g[b].addr() by {
                        assert(ga[a + 1].addr() != ga[b + 1].addr());
                    }
                }
            }
            if drawn.len() == 0 {
                assert(views(drawn@) =~= Seq::<NodeInfoView>::empty());
                (target, None)
            } else {
                (target, Some(drawn))
            }
        },
    }
}

proof fn lemma_set_remove_len(s: Set<SocketAddress>, x: SocketAddress)
    requires
        s.finite(),
        s.contains(x),
    ensures
        s.remove(x).len() == s.len() - 1,
{
}

/// One probe tick of a regular node: pick the target and the gossip, then
/// build the probe request stamped with `now`, the wall-clock time read
/// right before. Nothing comes back when the node's name does not fit a
/// datagram.
pub fn probe_tick(
    store: &mut Storage,
    name: &String,
    landmark_addr: &SocketAddress,
    local_addr: &SocketAddress,
    now: Timestamp,
) -> (r: Option<(SocketAddress, Vec<u8>)>)
    requires
        old(store).wf(),
    ensures
        final(store).wf(),
        final(store)@ == old(store)@,
        r is Some <==> short_str_fits(name@),
        r matches Some((target, b)) ==> exists|q: ProbeRequestView|
            #![trigger message_bytes(MessageView::ProbeRequest(q))]
            {
                &&& b@ == message_bytes(MessageView::ProbeRequest(q))
                &&& q.sent_at_sec == now.sec
                &&& q.sent_at_nsec == now.nsec
                &&& q.sender_name == name@
                &&& candidates(old(store)@, seq![*local_addr, *landmark_addr]).len() == 0 ==> target
                    == *landmark_addr && q.neighbours.len() == 0
                &&& candidates(old(store)@, seq![*local_addr, *landmark_addr]).len() > 0 ==> {
                    &&& candidates(old(store)@, seq![*local_addr, *landmark_addr]).contains(target)
                    &&& is_sample(
                        q.neighbours,
                        old(store)@,
                        seq![*local_addr, *landmark_addr, target],
                        GOSSIP_MAX_NEIGHBOURS_IN_MSG as int,
                    )
                }
            },
{
    let (target, neighbours) = choose_probe_target(store, landmark_addr, local_addr);
    let mut request = ProbeRequest::new(name.clone());
    match neighbours {
        Some(list) => request.set_neighbours(list),
        None => {},
    }
    request.set_current_time(now.sec, now.nsec);
    match request.serialize() {
        None => None,
        Some(b) => Some((target, b)),
    }
}

} // verus!
