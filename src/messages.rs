//! The four datagrams of the probe and bootstrap protocol.
use vstd::prelude::*;
use crate::wire::{
    be32, be64, deserialize_str, get_u32, get_u64, lemma_read_be32, lemma_read_be64,
    lemma_short_str_round_trip, parse_short_str, put_bytes, put_u32, put_u64, read_be32,
    read_be64, serialize_str, short_str_bytes, short_str_fits,
};
use crate::types::{
    coords_bytes, get_coords, lemma_coords_round_trip, lemma_node_info_round_trip, msg_code,
    msg_type_of, node_info_bytes, parse_coords, parse_node_info, put_coords, lemma_parse_node_info_consumes, views, MsgType,
    NodeCoordinates, NodeInfo, NodeInfoView,
};

verus! {

/* Runs of peer records */

/// Wire form of a run of peer records: each record after the other.
pub open spec fn node_list_bytes(ns: Seq<NodeInfoView>) -> Seq<u8>
    decreases ns.len(),
{
    if ns.len() == 0 {
        Seq::empty()
    } else {
        node_list_bytes(ns.drop_last()) + node_info_bytes(ns.last())
    }
}

/// The records at the start of `s`, read one after the other until one does
/// not decode; a partial trailing record ends the run.
pub open spec fn parse_node_list(s: Seq<u8>) -> Seq<NodeInfoView>
    decreases s.len(),
    via parse_node_list_decreases
{
    match parse_node_info(s) {
        None => Seq::empty(),
        Some((n, used)) => seq![n] + parse_node_list(s.subrange(used, s.len() as int)),
    }
}

#[via_fn]
proof fn parse_node_list_decreases(s: Seq<u8>) {
    lemma_parse_node_info_consumes(s);
}

/// Whether every record of `ns` has a name that fits a short string.
pub open spec fn names_fit(ns: Seq<NodeInfoView>) -> bool {
    forall|i: int| 0 <= i < ns.len() ==> short_str_fits(#[trigger] ns[i].name)
}

proof fn lemma_node_list_bytes_front(ns: Seq<NodeInfoView>)
    requires
        ns.len() > 0,
    ensures
        node_list_bytes(ns) == node_info_bytes(ns[0]) + node_list_bytes(ns.drop_first()),
    decreases ns.len(),
{
    if ns.len() == 1 {
        assert(ns.drop_last() =~= Seq::<NodeInfoView>::empty());
        assert(ns.drop_first() =~= Seq::<NodeInfoView>::empty());
        assert(node_list_bytes(ns) =~= node_info_bytes(ns[0]) + node_list_bytes(ns.drop_first()));
    } else {
        lemma_node_list_bytes_front(ns.drop_last());
        assert(ns.drop_last().drop_first() =~= ns.drop_first().drop_last());
        assert(ns.drop_first().last() == ns.last());
        assert(node_list_bytes(ns) =~= node_info_bytes(ns[0]) + node_list_bytes(ns.drop_first()));
    }
}

/// A run of records whose names fit decodes back to itself.
pub proof fn lemma_node_list_round_trip(ns: Seq<NodeInfoView>)
    requires
        names_fit(ns),
    ensures
        parse_node_list(node_list_bytes(ns)) == ns,
    decreases ns.len(),
{
    if ns.len() == 0 {
        reveal(parse_node_info);
        assert(parse_node_info(Seq::<u8>::empty()) is None);
    } else {
        lemma_node_list_bytes_front(ns);
        let rest = node_list_bytes(ns.drop_first());
        let s = node_info_bytes(ns[0]) + rest;
        lemma_node_info_round_trip(ns[0], rest);
        let used = node_info_bytes(ns[0]).len() as int;
        assert(s.subrange(used, s.len() as int) =~= rest);
        assert(names_fit(ns.drop_first())) by {
            assert forall|i: int| 0 <= i < ns.drop_first().len() implies short_str_fits(
                #[trigger] ns.drop_first()[i].name,
            ) by {
                assert(ns.drop_first()[i] == ns[i + 1]);
            }
        }
        lemma_node_list_round_trip(ns.drop_first());
        assert(parse_node_list(s) =~= ns);
    }
}

/// Append the wire form of each record of `ns` to `out`.
pub fn put_node_list(out: &mut Vec<u8>, ns: &Vec<NodeInfo>)
    ensures
        final(out)@ == old(out)@ + node_list_bytes(views(ns@)),
{
    let n = ns.len();
    let mut i: usize = 0;
    while i < n
        invariant
            i <= n,
            n == ns@.len(),
            out@ == old(out)@ + node_list_bytes(views(ns@).take(i as int)),
        decreases n - i,
    {
        let ghost before = out@;
        let b = ns[i].serialize();
        put_bytes(out, b.as_slice());
        proof {
            let t = views(ns@).take(i + 1);
            assert(t.drop_last() =~= views(ns@).take(i as int));
            assert(t.last() == ns@[i as int]@);
            assert(out@ =~= old(out)@ + node_list_bytes(t));
        }
        i += 1;
    }
    assert(views(ns@).take(n as int) =~= views(ns@));
}

/// Decode the records at the start of `data`, until one does not decode.
pub fn deserialize_node_list(data: &[u8]) -> (r: Vec<NodeInfo>)
    ensures
        views(r@) == parse_node_list(data@),
{
    let mut out: Vec<NodeInfo> = Vec::new();
    let mut unparsed = data;
    loop
        invariant
            views(out@) + parse_node_list(unparsed@) == parse_node_list(data@),
        decreases unparsed@.len(),
    {
        match NodeInfo::deserialize(unparsed) {
            None => {
                assert(views(out@) =~= views(out@) + parse_node_list(unparsed@));
                return out;
            },
            Some((info, rest)) => {
                proof {
                    lemma_parse_node_info_consumes(unparsed@);
                }
                let ghost before = out@;
                out.push(info);
                assert(views(out@) =~= views(before).push(info@));
                assert(views(out@) + parse_node_list(rest@) =~= views(before) + parse_node_list(
                    unparsed@,
                ));
                unparsed = rest;
            },
        }
    }
}

/// The records that an optional gossip list holds; none when it is absent.
pub open spec fn gossip_of(n: Option<Vec<NodeInfo>>) -> Seq<NodeInfoView> {
    match n {
        None => Seq::empty(),
        Some(v) => views(v@),
    }
}

/// A decoded gossip list: absent when no record came.
fn gossip_from(list: Vec<NodeInfo>) -> (r: Option<Vec<NodeInfo>>)
    ensures
        gossip_of(r) == views(list@),
        r matches Some(v) ==> v@.len() > 0,
{
    if list.len() == 0 {
        assert(views(list@) =~= Seq::<NodeInfoView>::empty());
        None
    } else {
        Some(list)
    }
}

fn put_gossip(out: &mut Vec<u8>, n: &Option<Vec<NodeInfo>>)
    ensures
        final(out)@ == old(out)@ + node_list_bytes(gossip_of(*n)),
{
    match n {
        None => {
            assert(out@ =~= out@ + node_list_bytes(Seq::<NodeInfoView>::empty()));
        },
        Some(v) => put_node_list(out, v),
    }
}

/* Bootstrap request */

/// First message of a newcomer, asking for a few peers:
/// `type(1) | sender name(str)`.
#[derive(Debug, PartialEq, Eq)]
pub struct BootstrapRequest {
    pub local_name: String,
}

impl BootstrapRequest {
    pub fn new(local_name: String) -> (r: Self)
        ensures
            r.local_name@ == local_name@,
    {
        BootstrapRequest { local_name }
    }

    /// Wire form; nothing for a name longer than 254 bytes.
    pub fn serialize(&self) -> (r: Option<Vec<u8>>)
        ensures
            r is Some <==> short_str_fits(self.local_name@),
            r matches Some(b) ==> b@ == message_bytes(MessageView::BootstrapRequest(self.local_name@)),
    {
        match serialize_str(self.local_name.as_str()) {
            None => None,
            Some(name) => {
                let mut out: Vec<u8> = Vec::new();
                out.push(MsgType::BootstrapRequest.to_code());
                put_bytes(&mut out, name.as_slice());
                Some(out)
            },
        }
    }

    /// Decode the body of a bootstrap request, the bytes after its type code.
    pub fn deserialize(data: &[u8]) -> (r: Option<Self>)
        ensures
            match parse_short_str(data@) {
                None => r is None,
                Some((name, _)) => r matches Some(q) && q.local_name@ == name,
            },
    {
        match deserialize_str(data) {
            None => None,
            Some((name, _)) => Some(BootstrapRequest { local_name: name.to_owned() }),
        }
    }
}

/* Bootstrap response */

/// Answer to a bootstrap request: `type(1) | peer record x 0..4`.
#[derive(Debug, PartialEq, Eq)]
pub struct BootstrapResponse {
    pub neighbours: Vec<NodeInfo>,
}

impl BootstrapResponse {
    pub fn empty() -> (r: Self)
        ensures
            r.neighbours@.len() == 0,
    {
        BootstrapResponse { neighbours: Vec::new() }
    }

    /// Wire form; it always exists.
    pub fn serialize(&self) -> (r: Option<Vec<u8>>)
        ensures
            r matches Some(b) && b@ == message_bytes(
                MessageView::BootstrapResponse(views(self.neighbours@)),
            ),
    {
        let mut out: Vec<u8> = Vec::new();
        out.push(MsgType::BootstrapResponse.to_code());
        put_node_list(&mut out, &self.neighbours);
        Some(out)
    }

    /// Decode the body of a bootstrap response, the bytes after its type code.
    pub fn deserialize(data: &[u8]) -> (r: Option<Self>)
        ensures
            r matches Some(m) && views(m.neighbours@) == parse_node_list(data@),
    {
        Some(BootstrapResponse { neighbours: deserialize_node_list(data) })
    }
}

/* Probe request */

/// Periodic probe: `type(1) | sent_at_sec(8) | sent_at_nsec(4) | sender name(str) | peer record x 0..4`.
#[derive(Debug, PartialEq, Eq)]
pub struct ProbeRequest {
    pub sent_at_sec: u64,
    pub sent_at_nsec: u32,
    pub sender_name: String,
    pub neighbours: Option<Vec<NodeInfo>>,
}

pub struct ProbeRequestView {
    pub sent_at_sec: u64,
    pub sent_at_nsec: u32,
    pub sender_name: Seq<char>,
    pub neighbours: Seq<NodeInfoView>,
}

impl View for ProbeRequest {
    type V = ProbeRequestView;

    open spec fn view(&self) -> ProbeRequestView {
        ProbeRequestView {
            sent_at_sec: self.sent_at_sec,
            sent_at_nsec: self.sent_at_nsec,
            sender_name: self.sender_name@,
            neighbours: gossip_of(self.neighbours),
        }
    }
}

/// The probe request whose body, after the type code, is `s`.
pub open spec fn parse_probe_request(s: Seq<u8>) -> Option<ProbeRequestView> {
    if s.len() < 12 {
        None
    } else {
        match parse_short_str(s.subrange(12, s.len() as int)) {
            None => None,
            Some((name, used)) => Some(
                ProbeRequestView {
                    sent_at_sec: read_be64(s, 0),
                    sent_at_nsec: read_be32(s, 8),
                    sender_name: name,
                    neighbours: parse_node_list(s.subrange(12 + used, s.len() as int)),
                },
            ),
        }
    }
}

impl ProbeRequest {
    pub fn new(name: String) -> (r: Self)
        ensures
            r@ == (ProbeRequestView {
                sent_at_sec: 0,
                sent_at_nsec: 0,
                sender_name: name@,
                neighbours: Seq::empty(),
            }),
            r.neighbours is None,
    {
        ProbeRequest { sender_name: name, sent_at_sec: 0, sent_at_nsec: 0, neighbours: None }
    }

    /// Stamp the request with the time read from the wall clock, as seconds
    /// and nanoseconds since the epoch; to be done right before it is sent.
    pub fn set_current_time(&mut self, now_sec: u64, now_nsec: u32)
        ensures
            final(self)@ == (ProbeRequestView {
                sent_at_sec: now_sec,
                sent_at_nsec: now_nsec,
                ..old(self)@
            }),
    {
        self.sent_at_sec = now_sec;
        self.sent_at_nsec = now_nsec;
    }

    pub fn set_neighbours(&mut self, neighbours: Vec<NodeInfo>)
        ensures
            final(self)@ == (ProbeRequestView { neighbours: views(neighbours@), ..old(self)@ }),
    {
        self.neighbours = Some(neighbours);
    }

    /// Wire form; nothing for a sender name longer than 254 bytes.
    pub fn serialize(&self) -> (r: Option<Vec<u8>>)
        ensures
            r is Some <==> short_str_fits(self.sender_name@),
            r matches Some(b) ==> b@ == message_bytes(MessageView::ProbeRequest(self@)),
    {
        match serialize_str(self.sender_name.as_str()) {
            None => None,
            Some(name) => {
                let mut out: Vec<u8> = Vec::new();
                out.push(MsgType::ProbeRequest.to_code());
                put_u64(&mut out, self.sent_at_sec);
                put_u32(&mut out, self.sent_at_nsec);
                put_bytes(&mut out, name.as_slice());
                put_gossip(&mut out, &self.neighbours);
                assert(out@ =~= message_bytes(MessageView::ProbeRequest(self@)));
                Some(out)
            },
        }
    }

    /// Decode the body of a probe request, the bytes after its type code.
    pub fn deserialize(data: &[u8]) -> (r: Option<Self>)
        ensures
            match parse_probe_request(data@) {
                None => r is None,
                Some(v) => r matches Some(m) && m@ == v && (m.neighbours matches Some(l)
                    ==> l@.len() > 0),
            },
    {
        let len = data.len();
        if len < 12 {
            return None;
        }
        let secs = get_u64(data, 0);
        let nsecs = get_u32(data, 8);
        match deserialize_str(&data[12..len]) {
            None => None,
            Some((name, rest)) => {
                let at = len - rest.len();
                let list = deserialize_node_list(&data[at..len]);
                Some(
                    ProbeRequest {
                        sent_at_sec: secs,
                        sent_at_nsec: nsecs,
                        sender_name: name.to_owned(),
                        neighbours: gossip_from(list),
                    },
                )
            },
        }
    }
}

/* Probe response */

/// Answer to a probe, echoing its timestamp:
/// `type(1) | sent_at_sec(8) | sent_at_nsec(4) | respondent name(str) | coordinates(24) | peer record x 0..4`.
#[derive(Debug, PartialEq, Eq)]
pub struct ProbeResponse {
    pub sent_at_sec: u64,
    pub sent_at_nsec: u32,
    pub respondent_name: String,
    pub location: NodeCoordinates,
    pub neighbours: Option<Vec<NodeInfo>>,
}

pub struct ProbeResponseView {
    pub sent_at_sec: u64,
    pub sent_at_nsec: u32,
    pub respondent_name: Seq<char>,
    pub location: NodeCoordinates,
    pub neighbours: Seq<NodeInfoView>,
}

impl View for ProbeResponse {
    type V = ProbeResponseView;

    open spec fn view(&self) -> ProbeResponseView {
        ProbeResponseView {
            sent_at_sec: self.sent_at_sec,
            sent_at_nsec: self.sent_at_nsec,
            respondent_name: self.respondent_name@,
            location: self.location,
            neighbours: gossip_of(self.neighbours),
        }
    }
}

/// The probe response whose body, after the type code, is `s`.
pub open spec fn parse_probe_response(s: Seq<u8>) -> Option<ProbeResponseView> {
    if s.len() < 12 {
        None
    } else {
        match parse_short_str(s.subrange(12, s.len() as int)) {
            None => None,
            Some((name, used)) => {
                let at = 12 + used;
                if s.len() < at + 24 {
                    None
                } else {
                    Some(
                        ProbeResponseView {
                            sent_at_sec: read_be64(s, 0),
                            sent_at_nsec: read_be32(s, 8),
                            respondent_name: name,
                            location: parse_coords(s, at),
                            neighbours: parse_node_list(s.subrange(at + 24, s.len() as int)),
                        },
                    )
                }
            },
        }
    }
}

impl ProbeResponse {
    pub fn new(name: String, location: NodeCoordinates) -> (r: Self)
        ensures
            r@ == (ProbeResponseView {
                sent_at_sec: 0,
                sent_at_nsec: 0,
                respondent_name: name@,
                location,
                neighbours: Seq::empty(),
            }),
            r.neighbours is None,
    {
        ProbeResponse {
            respondent_name: name,
            sent_at_sec: 0,
            sent_at_nsec: 0,
            location,
            neighbours: None,
        }
    }

    pub fn set_neighbours(&mut self, neighbours: Vec<NodeInfo>)
        ensures
            final(self)@ == (ProbeResponseView { neighbours: views(neighbours@), ..old(self)@ }),
    {
        self.neighbours = Some(neighbours);
    }

    /// Echo the timestamp of `request`.
    pub fn copy_time(&mut self, request: &ProbeRequest)
        ensures
            final(self)@ == (ProbeResponseView {
                sent_at_sec: request.sent_at_sec,
                sent_at_nsec: request.sent_at_nsec,
                ..old(self)@
            }),
    {
        self.sent_at_sec = request.sent_at_sec;
        self.sent_at_nsec = request.sent_at_nsec;
    }

    /// Wire form; nothing for a respondent name longer than 254 bytes.
    pub fn serialize(&self) -> (r: Option<Vec<u8>>)
        ensures
            r is Some <==> short_str_fits(self.respondent_name@),
            r matches Some(b) ==> b@ == message_bytes(MessageView::ProbeResponse(self@)),
    {
        match serialize_str(self.respondent_name.as_str()) {
            None => None,
            Some(name) => {
                let mut out: Vec<u8> = Vec::new();
                out.push(MsgType::ProbeResponse.to_code());
                put_u64(&mut out, self.sent_at_sec);
                put_u32(&mut out, self.sent_at_nsec);
                put_bytes(&mut out, name.as_slice());
                put_coords(&mut out, &self.location);
                put_gossip(&mut out, &self.neighbours);
                assert(out@ =~= message_bytes(MessageView::ProbeResponse(self@)));
                Some(out)
            },
        }
    }

    /// Decode the body of a probe response, the bytes after its type code.
    pub fn deserialize(data: &[u8]) -> (r: Option<Self>)
        ensures
            match parse_probe_response(data@) {
                None => r is None,
                Some(v) => r matches Some(m) && m@ == v && (m.neighbours matches Some(l)
                    ==> l@.len() > 0),
            },
    {
        let len = data.len();
        if len < 12 {
            return None;
        }
        let secs = get_u64(data, 0);
        let nsecs = get_u32(data, 8);
        match deserialize_str(&data[12..len]) {
            None => None,
            Some((name, rest)) => {
                let at = len - rest.len();
                if rest.len() < 24 {
                    return None;
                }
                let location = get_coords(data, at);
                let list = deserialize_node_list(&data[at + 24..len]);
                Some(
                    ProbeResponse {
                        sent_at_sec: secs,
                        sent_at_nsec: nsecs,
                        respondent_name: name.to_owned(),
                        location,
                        neighbours: gossip_from(list),
                    },
                )
            },
        }
    }
}

/* Whole datagrams */

/// A decoded datagram.
#[derive(Debug, PartialEq, Eq)]
pub enum Message {
    BootstrapRequest(BootstrapRequest),
    BootstrapResponse(BootstrapResponse),
    ProbeRequest(ProbeRequest),
    ProbeResponse(ProbeResponse),
}

/// What a datagram says.
pub enum MessageView {
    BootstrapRequest(Seq<char>),
    BootstrapResponse(Seq<NodeInfoView>),
    ProbeRequest(ProbeRequestView),
    ProbeResponse(ProbeResponseView),
}

impl View for Message {
    type V = MessageView;

    open spec fn view(&self) -> MessageView {
        match self {
            Message::BootstrapRequest(m) => MessageView::BootstrapRequest(m.local_name@),
            Message::BootstrapResponse(m) => MessageView::BootstrapResponse(views(m.neighbours@)),
            Message::ProbeRequest(m) => MessageView::ProbeRequest(m@),
            Message::ProbeResponse(m) => MessageView::ProbeResponse(m@),
        }
    }
}

/// Wire form of a datagram.
pub open spec fn message_bytes(m: MessageView) -> Seq<u8> {
    match m {
        MessageView::BootstrapRequest(name) => seq![msg_code(MsgType::BootstrapRequest)]
            + short_str_bytes(name),
        MessageView::BootstrapResponse(ns) => seq![msg_code(MsgType::BootstrapResponse)]
            + node_list_bytes(ns),
        MessageView::ProbeRequest(p) => seq![msg_code(MsgType::ProbeRequest)] + be64(
            p.sent_at_sec,
        ) + be32(p.sent_at_nsec) + short_str_bytes(p.sender_name) + node_list_bytes(
            p.neighbours,
        ),
        MessageView::ProbeResponse(p) => seq![msg_code(MsgType::ProbeResponse)] + be64(
            p.sent_at_sec,
        ) + be32(p.sent_at_nsec) + short_str_bytes(p.respondent_name) + coords_bytes(p.location)
            + node_list_bytes(p.neighbours),
    }
}

/// Whether a datagram can be encoded so that it decodes back: every name it
/// carries fits a short string.
pub open spec fn message_encodable(m: MessageView) -> bool {
    match m {
        MessageView::BootstrapRequest(name) => short_str_fits(name),
        MessageView::BootstrapResponse(ns) => names_fit(ns),
        MessageView::ProbeRequest(p) => short_str_fits(p.sender_name) && names_fit(p.neighbours),
        MessageView::ProbeResponse(p) => short_str_fits(p.respondent_name) && names_fit(
            p.neighbours,
        ),
    }
}

/// The datagram that `s` holds, if it is well formed: a known type code, then
/// a body that decodes. Trailing bytes after a bootstrap request's name are
/// ignored.
pub open spec fn parse_message(s: Seq<u8>) -> Option<MessageView> {
    if s.len() < 1 {
        None
    } else {
        let body = s.subrange(1, s.len() as int);
        match msg_type_of(s[0]) {
            None => None,
            Some(MsgType::BootstrapRequest) => match parse_short_str(body) {
                None => None,
                Some((name, _)) => Some(MessageView::BootstrapRequest(name)),
            },
            Some(MsgType::BootstrapResponse) => Some(
                MessageView::BootstrapResponse(parse_node_list(body)),
            ),
            Some(MsgType::ProbeRequest) => match parse_probe_request(body) {
                None => None,
                Some(p) => Some(MessageView::ProbeRequest(p)),
            },
            Some(MsgType::ProbeResponse) => match parse_probe_response(body) {
                None => None,
                Some(p) => Some(MessageView::ProbeResponse(p)),
            },
        }
    }
}

impl Message {
    /// Decode a whole datagram; nothing when it is malformed.
    pub fn decode(data: &[u8]) -> (r: Option<Message>)
        ensures
            match parse_message(data@) {
                None => r is None,
                Some(v) => r matches Some(m) && m@ == v,
            },
    {
        let len = data.len();
        if len < 1 {
            return None;
        }
        let body = &data[1..len];
        match MsgType::from_code(data[0]) {
            None => None,
            Some(MsgType::BootstrapRequest) => match BootstrapRequest::deserialize(body) {
                None => None,
                Some(m) => Some(Message::BootstrapRequest(m)),
            },
            Some(MsgType::BootstrapResponse) => match BootstrapResponse::deserialize(body) {
                None => None,
                Some(m) => Some(Message::BootstrapResponse(m)),
            },
            Some(MsgType::ProbeRequest) => match ProbeRequest::deserialize(body) {
                None => None,
                Some(m) => Some(Message::ProbeRequest(m)),
            },
            Some(MsgType::ProbeResponse) => match ProbeResponse::deserialize(body) {
                None => None,
                Some(m) => Some(Message::ProbeResponse(m)),
            },
        }
    }
}

proof fn lemma_probe_request_round_trip(p: ProbeRequestView)
    requires
        short_str_fits(p.sender_name),
        names_fit(p.neighbours),
    ensures
        parse_probe_request(
            be64(p.sent_at_sec) + be32(p.sent_at_nsec) + short_str_bytes(p.sender_name)
                + node_list_bytes(p.neighbours),
        ) == Some(p),
{
    let list = node_list_bytes(p.neighbours);
    let body = be64(p.sent_at_sec) + be32(p.sent_at_nsec) + short_str_bytes(p.sender_name) + list;
    assert(body.subrange(0, 8) =~= be64(p.sent_at_sec));
    assert(body.subrange(8, 12) =~= be32(p.sent_at_nsec));
    lemma_read_be64(body, 0, p.sent_at_sec);
    lemma_read_be32(body, 8, p.sent_at_nsec);
    assert(body.subrange(12, body.len() as int) =~= short_str_bytes(p.sender_name) + list);
    lemma_short_str_round_trip(p.sender_name, list);
    let used = short_str_bytes(p.sender_name).len() as int;
    assert(body.subrange(12 + used, body.len() as int) =~= list);
    lemma_node_list_round_trip(p.neighbours);
}

proof fn lemma_probe_response_round_trip(p: ProbeResponseView)
    requires
        short_str_fits(p.respondent_name),
        names_fit(p.neighbours),
    ensures
        parse_probe_response(
            be64(p.sent_at_sec) + be32(p.sent_at_nsec) + short_str_bytes(p.respondent_name)
                + coords_bytes(p.location) + node_list_bytes(p.neighbours),
        ) == Some(p),
{
    let list = node_list_bytes(p.neighbours);
    let tail = coords_bytes(p.location) + list;
    let body = be64(p.sent_at_sec) + be32(p.sent_at_nsec) + short_str_bytes(p.respondent_name)
        + coords_bytes(p.location) + list;
    assert(body.subrange(0, 8) =~= be64(p.sent_at_sec));
    assert(body.subrange(8, 12) =~= be32(p.sent_at_nsec));
    lemma_read_be64(body, 0, p.sent_at_sec);
    lemma_read_be32(body, 8, p.sent_at_nsec);
    assert(body.subrange(12, body.len() as int) =~= short_str_bytes(p.respondent_name) + tail);
    lemma_short_str_round_trip(p.respondent_name, tail);
    let at = 12 + short_str_bytes(p.respondent_name).len() as int;
    assert(body.subrange(at, at + 24) =~= coords_bytes(p.location));
    lemma_coords_round_trip(body, at, p.location);
    assert(body.subrange(at + 24, body.len() as int) =~= list);
    lemma_node_list_round_trip(p.neighbours);
}

/// Codec round trip: every datagram whose names fit decodes back to itself
/// from its wire form, for each of the four kinds.
pub proof fn message_round_trip(m: MessageView)
    requires
        message_encodable(m),
    ensures
        parse_message(message_bytes(m)) == Some(m),
{
    let s = message_bytes(m);
    let body = s.subrange(1, s.len() as int);
    match m {
        MessageView::BootstrapRequest(name) => {
            assert(body =~= short_str_bytes(name) + Seq::<u8>::empty());
            lemma_short_str_round_trip(name, Seq::<u8>::empty());
        },
        MessageView::BootstrapResponse(ns) => {
            assert(body =~= node_list_bytes(ns));
            lemma_node_list_round_trip(ns);
        },
        MessageView::ProbeRequest(p) => {
            assert(body =~= be64(p.sent_at_sec) + be32(p.sent_at_nsec) + short_str_bytes(
                p.sender_name,
            ) + node_list_bytes(p.neighbours));
            lemma_probe_request_round_trip(p);
        },
        MessageView::ProbeResponse(p) => {
            assert(body =~= be64(p.sent_at_sec) + be32(p.sent_at_nsec) + short_str_bytes(
                p.respondent_name,
            ) + coords_bytes(p.location) + node_list_bytes(p.neighbours));
            lemma_probe_response_round_trip(p);
        },
    }
}

} // verus!
