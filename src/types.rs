//! Records carried in datagrams: addresses, coordinates and peer records,
//! with their wire layout.
use vstd::prelude::*;
use vstd::utf8::*;
use crate::wire::{
    be128, be16, be32, be64, get_u128, get_u16, get_u32, get_u64, lemma_read_be128,
    lemma_read_be16, lemma_read_be32, lemma_read_be64, lemma_short_str_round_trip,
    parse_short_str, put_bytes, put_u128, put_u16, put_u32, put_u64, read_be128, read_be16,
    read_be32, read_be64, serialize_str, deserialize_str, short_str_bytes, short_str_fits,
};

verus! {

/// Kind of a datagram, announced by its first byte.
#[derive(Clone, Copy, Debug, PartialEq, Eq, Structural)]
pub enum MsgType {
    BootstrapRequest,
    BootstrapResponse,
    ProbeRequest,
    ProbeResponse,
}

/// The type code of each kind of datagram.
pub open spec fn msg_code(t: MsgType) -> u8 {
    match t {
        MsgType::BootstrapRequest => 1,
        MsgType::BootstrapResponse => 2,
        MsgType::ProbeRequest => 10,
        MsgType::ProbeResponse => 11,
    }
}

/// The kind of datagram that a type code announces, if any.
pub open spec fn msg_type_of(code: u8) -> Option<MsgType> {
    if code == 1 {
        Some(MsgType::BootstrapRequest)
    } else if code == 2 {
        Some(MsgType::BootstrapResponse)
    } else if code == 10 {
        Some(MsgType::ProbeRequest)
    } else if code == 11 {
        Some(MsgType::ProbeResponse)
    } else {
        None
    }
}

impl MsgType {
    pub fn to_code(&self) -> (r: u8)
        ensures
            r == msg_code(*self),
            msg_type_of(r) == Some(*self),
    {
        match *self {
            MsgType::BootstrapRequest => 1,
            MsgType::BootstrapResponse => 2,
            MsgType::ProbeRequest => 10,
            MsgType::ProbeResponse => 11,
        }
    }

    pub fn from_code(code: u8) -> (r: Option<MsgType>)
        ensures
            r == msg_type_of(code),
            r matches Some(t) ==> msg_code(t) == code,
    {
        match code {
            1 => Some(MsgType::BootstrapRequest),
            2 => Some(MsgType::BootstrapResponse),
            10 => Some(MsgType::ProbeRequest),
            11 => Some(MsgType::ProbeResponse),
            _ => None,
        }
    }
}

/// An IP address: IPv4 as its 32 bits, IPv6 as its 128 bits, most
/// significant first as in the dotted and colon notations.
#[derive(Clone, Copy, Debug, PartialEq, Eq, Structural, Hash)]
pub enum IpAddress {
    V4(u32),
    V6(u128),
}

/// An IP address with a UDP port: the identity of a peer.
#[derive(Clone, Copy, Debug, PartialEq, Eq, Structural, Hash)]
pub struct SocketAddress {
    pub ip: IpAddress,
    pub port: u16,
}

/// The informational flags byte that opens a peer record.
#[derive(Clone, Copy, Debug, PartialEq, Eq, Structural)]
pub struct NodeFlags {
    pub is_addr_ipv6: bool,
}

/// The flags byte of a record whose address is `ip`: the low bit tells an
/// IPv6 address, the other bits are zero.
pub open spec fn flags_byte(ip: IpAddress) -> u8 {
    if ip is V6 {
        1
    } else {
        0
    }
}

impl NodeFlags {
    pub fn serialize(&self) -> (r: u8)
        ensures
            r == (if self.is_addr_ipv6 {
                1u8
            } else {
                0u8
            }),
    {
        if self.is_addr_ipv6 {
            1
        } else {
            0
        }
    }

    /// Only the low bit is read; the reserved bits are ignored.
    pub fn deserialize(data: u8) -> (r: Self)
        ensures
            r.is_addr_ipv6 == (data % 2 == 1),
    {
        NodeFlags { is_addr_ipv6: data % 2 == 1 }
    }
}

/// Bit pattern of the IEEE-754 binary32 value 1.0.
pub const F32_ONE_BITS: u32 = 0x3f80_0000;

/// Position of a node in the coordinate space. The four real-valued fields
/// hold the bit patterns of IEEE-754 binary32 values, exactly as they travel
/// on the wire.
#[derive(Clone, Copy, Debug, PartialEq, Eq, Structural)]
pub struct NodeCoordinates {
    pub x1_bits: u32,
    pub x2_bits: u32,
    pub height_bits: u32,
    /// Confidence: 1.0 means no information, 0.0 a perfect estimate.
    pub pos_err_bits: u32,
    /// Number of updates this position has seen.
    pub iteration: u64,
}

impl NodeCoordinates {
    /// Coordinates of a newborn node: at the origin, with position error 1.0.
    pub fn empty() -> (r: Self)
        ensures
            r == newborn_location(),
    {
        NodeCoordinates { x1_bits: 0, x2_bits: 0, height_bits: 0, pos_err_bits: F32_ONE_BITS, iteration: 0 }
    }

    /// Coordinates of the landmark: the origin, with position error 0.0.
    pub fn origin() -> (r: Self)
        ensures
            r == landmark_location(),
    {
        NodeCoordinates { x1_bits: 0, x2_bits: 0, height_bits: 0, pos_err_bits: 0, iteration: 0 }
    }
}

/// Where a newborn node starts: the origin, knowing nothing.
pub open spec fn newborn_location() -> NodeCoordinates {
    NodeCoordinates { x1_bits: 0, x2_bits: 0, height_bits: 0, pos_err_bits: F32_ONE_BITS, iteration: 0 }
}

/// Where the landmark stands, for good.
pub open spec fn landmark_location() -> NodeCoordinates {
    NodeCoordinates { x1_bits: 0, x2_bits: 0, height_bits: 0, pos_err_bits: 0, iteration: 0 }
}

/// The gossip record of one peer.
#[derive(Debug, PartialEq, Eq)]
pub struct NodeInfo {
    pub ip: IpAddress,
    pub port: u16,
    pub name: String,
    pub location: NodeCoordinates,
}

/// What a `NodeInfo` holds, with its name as text.
pub struct NodeInfoView {
    pub ip: IpAddress,
    pub port: u16,
    pub name: Seq<char>,
    pub location: NodeCoordinates,
}

impl NodeInfoView {
    pub open spec fn addr(self) -> SocketAddress {
        SocketAddress { ip: self.ip, port: self.port }
    }
}

impl View for NodeInfo {
    type V = NodeInfoView;

    open spec fn view(&self) -> NodeInfoView {
        NodeInfoView { ip: self.ip, port: self.port, name: self.name@, location: self.location }
    }
}

pub open spec fn views(s: Seq<NodeInfo>) -> Seq<NodeInfoView> {
    s.map_values(|n: NodeInfo| n@)
}

impl Clone for NodeInfo {
    fn clone(&self) -> (r: Self)
        ensures
            r@ == self@,
    {
        NodeInfo { ip: self.ip, port: self.port, name: self.name.clone(), location: self.location }
    }
}

/* Wire layout of a peer record */

pub open spec fn ip_bytes(ip: IpAddress) -> Seq<u8> {
    match ip {
        IpAddress::V4(a) => be32(a),
        IpAddress::V6(a) => be128(a),
    }
}

pub open spec fn coords_bytes(c: NodeCoordinates) -> Seq<u8> {
    be32(c.x1_bits) + be32(c.x2_bits) + be32(c.height_bits) + be32(c.pos_err_bits) + be64(
        c.iteration,
    )
}

/// The coordinates stored at `s[at..at + 24]`.
pub open spec fn parse_coords(s: Seq<u8>, at: int) -> NodeCoordinates {
    NodeCoordinates {
        x1_bits: read_be32(s, at),
        x2_bits: read_be32(s, at + 4),
        height_bits: read_be32(s, at + 8),
        pos_err_bits: read_be32(s, at + 12),
        iteration: read_be64(s, at + 16),
    }
}

/// The name that a record carries on the wire: one too long for a short
/// string goes out empty.
pub open spec fn wire_name(name: Seq<char>) -> Seq<char> {
    if short_str_fits(name) {
        name
    } else {
        Seq::empty()
    }
}

/// Wire form of a peer record:
/// `flags(1) | address(4 or 16) | port(2) | name(1 + L) | x1 | x2 | height | pos_err | iteration`.
#[verifier::opaque]
pub open spec fn node_info_bytes(n: NodeInfoView) -> Seq<u8> {
    seq![flags_byte(n.ip)] + ip_bytes(n.ip) + be16(n.port) + short_str_bytes(wire_name(n.name))
        + coords_bytes(n.location)
}

/// The peer record at the start of `s`, with the number of bytes it takes.
#[verifier::opaque]
pub open spec fn parse_node_info(s: Seq<u8>) -> Option<(NodeInfoView, int)> {
    if s.len() < 1 {
        None
    } else {
        let v6 = s[0] % 2 == 1;
        let alen: int = if v6 {
            16
        } else {
            4
        };
        if s.len() < 3 + alen {
            None
        } else {
            let ip = if v6 {
                IpAddress::V6(read_be128(s, 1))
            } else {
                IpAddress::V4(read_be32(s, 1))
            };
            let port = read_be16(s, 1 + alen);
            match parse_short_str(s.subrange(3 + alen, s.len() as int)) {
                None => None,
                Some((name, used)) => {
                    let at = 3 + alen + used;
                    if s.len() < at + 24 {
                        None
                    } else {
                        Some(
                            (
                                NodeInfoView { ip, port, name, location: parse_coords(s, at) },
                                at + 24,
                            ),
                        )
                    }
                },
            }
        }
    }
}

/// A record that decodes takes at least one byte, and no more than there are.
pub proof fn lemma_parse_node_info_consumes(s: Seq<u8>)
    ensures
        parse_node_info(s) matches Some((_, used)) ==> 0 < used <= s.len(),
{
    reveal(parse_node_info);
}

pub proof fn lemma_coords_round_trip(s: Seq<u8>, at: int, c: NodeCoordinates)
    requires
        0 <= at,
        at + 24 <= s.len(),
        s.subrange(at, at + 24) == coords_bytes(c),
    ensures
        parse_coords(s, at) == c,
{
    let w = s.subrange(at, at + 24);
    let e = coords_bytes(c);
    assert(s.subrange(at, at + 4) =~= e.subrange(0, 4));
    assert(e.subrange(0, 4) =~= be32(c.x1_bits));
    assert(s.subrange(at + 4, at + 8) =~= e.subrange(4, 8));
    assert(e.subrange(4, 8) =~= be32(c.x2_bits));
    assert(s.subrange(at + 8, at + 12) =~= e.subrange(8, 12));
    assert(e.subrange(8, 12) =~= be32(c.height_bits));
    assert(s.subrange(at + 12, at + 16) =~= e.subrange(12, 16));
    assert(e.subrange(12, 16) =~= be32(c.pos_err_bits));
    assert(s.subrange(at + 16, at + 24) =~= e.subrange(16, 24));
    assert(e.subrange(16, 24) =~= be64(c.iteration));
    lemma_read_be32(s, at, c.x1_bits);
    lemma_read_be32(s, at + 4, c.x2_bits);
    lemma_read_be32(s, at + 8, c.height_bits);
    lemma_read_be32(s, at + 12, c.pos_err_bits);
    lemma_read_be64(s, at + 16, c.iteration);
}

/// A peer record whose name fits decodes back to itself, whatever follows it.
#[verifier::rlimit(40)]
pub proof fn lemma_node_info_round_trip(n: NodeInfoView, rest: Seq<u8>)
    requires
        short_str_fits(n.name),
    ensures
        parse_node_info(node_info_bytes(n) + rest) == Some((n, node_info_bytes(n).len() as int)),
{
    reveal(node_info_bytes);
    reveal(parse_node_info);
    let e = node_info_bytes(n);
    let s = e + rest;
    let alen: int = if n.ip is V6 {
        16
    } else {
        4
    };
    let str_len = short_str_bytes(n.name).len() as int;
    assert(wire_name(n.name) == n.name);
    assert(e.len() == 3 + alen + str_len + 24);
    assert(s[0] == flags_byte(n.ip));
    match n.ip {
        IpAddress::V4(a) => {
            assert(s.subrange(1, 5) =~= be32(a));
            lemma_read_be32(s, 1, a);
        },
        IpAddress::V6(a) => {
            assert(s.subrange(1, 17) =~= be128(a));
            lemma_read_be128(s, 1, a);
        },
    }
    assert(s.subrange(1 + alen, 3 + alen) =~= be16(n.port));
    lemma_read_be16(s, 1 + alen, n.port);
    let tail = coords_bytes(n.location) + rest;
    assert(s.subrange(3 + alen, s.len() as int) =~= short_str_bytes(n.name) + tail);
    lemma_short_str_round_trip(n.name, tail);
    let at = 3 + alen + str_len;
    assert(s.subrange(at, at + 24) =~= coords_bytes(n.location));
    lemma_coords_round_trip(s, at, n.location);
}

proof fn lemma_parse_node_info_needs(s: Seq<u8>)
    ensures
        parse_node_info(s) is Some ==> s.len() >= 1 && s.len() >= (if s[0] % 2 == 1 {
            16int
        } else {
            4int
        }) + 4 && s.len() >= (if s[0] % 2 == 1 {
            16int
        } else {
            4int
        }) + 28 + s[(if s[0] % 2 == 1 {
            16int
        } else {
            4int
        }) + 3] as int,
{
    reveal(parse_node_info);
}

/// Malformed input: a peer record cut short anywhere does not decode.
pub proof fn truncated_record_rejected(n: NodeInfoView, k: int)
    requires
        0 <= k < node_info_bytes(n).len(),
    ensures
        parse_node_info(node_info_bytes(n).take(k)) is None,
{
    reveal(node_info_bytes);
    let e = node_info_bytes(n);
    let t = e.take(k);
    let alen: int = if n.ip is V6 {
        16
    } else {
        4
    };
    let name = wire_name(n.name);
    assert(encode_utf8(Seq::<char>::empty()) =~= Seq::<u8>::empty());
    let len = encode_utf8(name).len() as int;
    assert(len <= 254);
    assert(e.len() == 3 + alen + 1 + len + 24);
    assert(e[0] == flags_byte(n.ip));
    assert(e[3 + alen] == len as u8);
    lemma_parse_node_info_needs(t);
    if k >= 1 {
        assert(t[0] == e[0]);
    }
    if k > 3 + alen {
        assert(t[3 + alen] == e[3 + alen]);
    }
}

pub fn put_coords(out: &mut Vec<u8>, c: &NodeCoordinates)
    ensures
        final(out)@ == old(out)@ + coords_bytes(*c),
{
    put_u32(out, c.x1_bits);
    put_u32(out, c.x2_bits);
    put_u32(out, c.height_bits);
    put_u32(out, c.pos_err_bits);
    put_u64(out, c.iteration);
    assert(out@ =~= old(out)@ + coords_bytes(*c));
}

pub fn get_coords(data: &[u8], at: usize) -> (r: NodeCoordinates)
    requires
        at + 24 <= data@.len(),
    ensures
        r == parse_coords(data@, at as int),
{
    let len = data.len();
    assert(at + 24 <= len);
    NodeCoordinates {
        x1_bits: get_u32(data, at),
        x2_bits: get_u32(data, at + 4),
        height_bits: get_u32(data, at + 8),
        pos_err_bits: get_u32(data, at + 12),
        iteration: get_u64(data, at + 16),
    }
}

impl NodeInfo {
    /// A record for the peer at `ip:port`, with the coordinates of a newborn node.
    pub fn new(ip: IpAddress, port: u16, name: String) -> (r: Self)
        ensures
            r@ == (NodeInfoView { ip, port, name: name@, location: newborn_location() }),
    {
        NodeInfo { ip, port, name, location: NodeCoordinates::empty() }
    }

    pub fn address(&self) -> (r: SocketAddress)
        ensures
            r == self@.addr(),
    {
        SocketAddress { ip: self.ip, port: self.port }
    }

    /// The flags byte's meaning for this record.
    pub fn flags(&self) -> (r: NodeFlags)
        ensures
            r.is_addr_ipv6 == (self.ip is V6),
    {
        let is_addr_ipv6 = match self.ip {
            IpAddress::V4(_) => false,
            IpAddress::V6(_) => true,
        };
        NodeFlags { is_addr_ipv6 }
    }

    pub fn get_coordinates(&self) -> (r: &NodeCoordinates)
        ensures
            *r == self.location,
    {
        &self.location
    }

    pub fn set_coordinates(&mut self, coordinates: &NodeCoordinates)
        ensures
            final(self)@ == (NodeInfoView { location: *coordinates, ..old(self)@ }),
    {
        self.location = *coordinates;
    }

    /// Wire form of this record. A name too long for a short string is sent
    /// empty.
    pub fn serialize(&self) -> (r: Vec<u8>)
        ensures
            r@ == node_info_bytes(self@),
    {
        reveal(node_info_bytes);
        let mut out: Vec<u8> = Vec::with_capacity(19);
        let ghost start = out@;
        out.push(self.flags().serialize());
        match self.ip {
            IpAddress::V4(a) => put_u32(&mut out, a),
            IpAddress::V6(a) => put_u128(&mut out, a),
        }
        put_u16(&mut out, self.port);
        match serialize_str(self.name.as_str()) {
            Some(b) => put_bytes(&mut out, b.as_slice()),
            None => {
                assert(encode_utf8(Seq::<char>::empty()) =~= Seq::<u8>::empty());
                out.push(0u8);
                assert(short_str_bytes(wire_name(self.name@)) =~= seq![0u8]);
            },
        }
        put_coords(&mut out, &self.location);
        assert(out@ =~= node_info_bytes(self@));
        out
    }

    /// Decode the record at the start of `data`; return it with the bytes
    /// that follow it.
    pub fn deserialize(data: &[u8]) -> (r: Option<(NodeInfo, &[u8])>)
        ensures
            match parse_node_info(data@) {
                None => r is None,
                Some((v, used)) => r matches Some((n, rest)) && n@ == v && rest@
                    == data@.subrange(used, data@.len() as int),
            },
    {
        reveal(parse_node_info);
        let len = data.len();
        if len < 1 {
            return None;
        }
        let flags = NodeFlags::deserialize(data[0]);
        let alen: usize = if flags.is_addr_ipv6 {
            16
        } else {
            4
        };
        if len < 3 + alen {
            return None;
        }
        let ip = if flags.is_addr_ipv6 {
            IpAddress::V6(get_u128(data, 1))
        } else {
            IpAddress::V4(get_u32(data, 1))
        };
        let port = get_u16(data, 1 + alen);
        let unparsed = &data[3 + alen..len];
        match deserialize_str(unparsed) {
            None => None,
            Some((name, rest)) => {
                let at = len - rest.len();
                if rest.len() < 24 {
                    return None;
                }
                let location = get_coords(data, at);
                let info = NodeInfo { ip, port, name: name.to_owned(), location };
                Some((info, &data[at + 24..len]))
            },
        }
    }
}

} // verus!
