//! Big-endian integers and length-prefixed strings, the building blocks of
//! every datagram.
use vstd::prelude::*;
use vstd::utf8::*;
use vstd::string::*;

verus! {

broadcast use vstd::utf8::encode_utf8_decode_utf8;

/* Big-endian layout of fixed-width integers */

pub open spec fn be16(v: u16) -> Seq<u8> {
    seq![(v >> 8u16) as u8, v as u8]
}

pub open spec fn be32(v: u32) -> Seq<u8> {
    seq![(v >> 24u32) as u8, (v >> 16u32) as u8, (v >> 8u32) as u8, v as u8]
}

pub open spec fn be64(v: u64) -> Seq<u8> {
    be32((v >> 32u64) as u32) + be32(v as u32)
}

pub open spec fn be128(v: u128) -> Seq<u8> {
    be64((v >> 64u128) as u64) + be64(v as u64)
}

/// The `u16` stored big-endian at `s[at..at + 2]`.
pub open spec fn read_be16(s: Seq<u8>, at: int) -> u16 {
    ((s[at] as u16) << 8u16) | (s[at + 1] as u16)
}

/// The `u32` stored big-endian at `s[at..at + 4]`.
pub open spec fn read_be32(s: Seq<u8>, at: int) -> u32 {
    ((s[at] as u32) << 24u32) | ((s[at + 1] as u32) << 16u32) | ((s[at + 2] as u32) << 8u32) | (
    s[at + 3] as u32)
}

/// The `u64` stored big-endian at `s[at..at + 8]`.
pub open spec fn read_be64(s: Seq<u8>, at: int) -> u64 {
    ((read_be32(s, at) as u64) << 32u64) | (read_be32(s, at + 4) as u64)
}

/// The `u128` stored big-endian at `s[at..at + 16]`.
pub open spec fn read_be128(s: Seq<u8>, at: int) -> u128 {
    ((read_be64(s, at) as u128) << 64u128) | (read_be64(s, at + 8) as u128)
}

pub proof fn lemma_read_be16(s: Seq<u8>, at: int, v: u16)
    requires
        0 <= at,
        at + 2 <= s.len(),
        s.subrange(at, at + 2) == be16(v),
    ensures
        read_be16(s, at) == v,
{
    assert(s[at] == be16(v)[0] && s[at + 1] == be16(v)[1]);
    assert(v == ((((v >> 8u16) as u8) as u16) << 8u16) | ((v as u8) as u16)) by (bit_vector);
}

pub proof fn lemma_read_be32(s: Seq<u8>, at: int, v: u32)
    requires
        0 <= at,
        at + 4 <= s.len(),
        s.subrange(at, at + 4) == be32(v),
    ensures
        read_be32(s, at) == v,
{
    assert(s[at] == be32(v)[0] && s[at + 1] == be32(v)[1]);
    assert(s[at + 2] == be32(v)[2] && s[at + 3] == be32(v)[3]);
    assert(v == ((((v >> 24u32) as u8) as u32) << 24u32) | ((((v >> 16u32) as u8) as u32)
        << 16u32) | ((((v >> 8u32) as u8) as u32) << 8u32) | ((v as u8) as u32)) by (bit_vector);
}

pub proof fn lemma_read_be64(s: Seq<u8>, at: int, v: u64)
    requires
        0 <= at,
        at + 8 <= s.len(),
        s.subrange(at, at + 8) == be64(v),
    ensures
        read_be64(s, at) == v,
{
    let w = s.subrange(at, at + 8);
    assert(s.subrange(at, at + 4) =~= w.subrange(0, 4));
    assert(s.subrange(at + 4, at + 8) =~= w.subrange(4, 8));
    assert(be64(v).subrange(0, 4) =~= be32((v >> 32u64) as u32));
    assert(be64(v).subrange(4, 8) =~= be32(v as u32));
    lemma_read_be32(s, at, (v >> 32u64) as u32);
    lemma_read_be32(s, at + 4, v as u32);
    assert(v == ((((v >> 32u64) as u32) as u64) << 32u64) | ((v as u32) as u64)) by (bit_vector);
}

pub proof fn lemma_read_be128(s: Seq<u8>, at: int, v: u128)
    requires
        0 <= at,
        at + 16 <= s.len(),
        s.subrange(at, at + 16) == be128(v),
    ensures
        read_be128(s, at) == v,
{
    let w = s.subrange(at, at + 16);
    assert(s.subrange(at, at + 8) =~= w.subrange(0, 8));
    assert(s.subrange(at + 8, at + 16) =~= w.subrange(8, 16));
    assert(be128(v).subrange(0, 8) =~= be64((v >> 64u128) as u64));
    assert(be128(v).subrange(8, 16) =~= be64(v as u64));
    lemma_read_be64(s, at, (v >> 64u128) as u64);
    lemma_read_be64(s, at + 8, v as u64);
    assert(v == ((((v >> 64u128) as u64) as u128) << 64u128) | ((v as u64) as u128))
        by (bit_vector);
}

pub fn put_u16(out: &mut Vec<u8>, v: u16)
    ensures
        final(out)@ == old(out)@ + be16(v),
{
    out.push((v >> 8u16) as u8);
    out.push(v as u8);
}

pub fn put_u32(out: &mut Vec<u8>, v: u32)
    ensures
        final(out)@ == old(out)@ + be32(v),
{
    out.push((v >> 24u32) as u8);
    out.push((v >> 16u32) as u8);
    out.push((v >> 8u32) as u8);
    out.push(v as u8);
}

pub fn put_u64(out: &mut Vec<u8>, v: u64)
    ensures
        final(out)@ == old(out)@ + be64(v),
{
    put_u32(out, (v >> 32u64) as u32);
    put_u32(out, v as u32);
}

pub fn put_u128(out: &mut Vec<u8>, v: u128)
    ensures
        final(out)@ == old(out)@ + be128(v),
{
    put_u64(out, (v >> 64u128) as u64);
    put_u64(out, v as u64);
}

pub fn get_u16(data: &[u8], at: usize) -> (r: u16)
    requires
        at + 2 <= data@.len(),
    ensures
        r == read_be16(data@, at as int),
{
    ((data[at] as u16) << 8u16) | (data[at + 1] as u16)
}

pub fn get_u32(data: &[u8], at: usize) -> (r: u32)
    requires
        at + 4 <= data@.len(),
    ensures
        r == read_be32(data@, at as int),
{
    ((data[at] as u32) << 24u32) | ((data[at + 1] as u32) << 16u32) | ((data[at + 2] as u32)
        << 8u32) | (data[at + 3] as u32)
}

pub fn get_u64(data: &[u8], at: usize) -> (r: u64)
    requires
        at + 8 <= data@.len(),
    ensures
        r == read_be64(data@, at as int),
{
    let len = data.len();
    assert(at + 8 <= len);
    ((get_u32(data, at) as u64) << 32u64) | (get_u32(data, at + 4) as u64)
}

pub fn get_u128(data: &[u8], at: usize) -> (r: u128)
    requires
        at + 16 <= data@.len(),
    ensures
        r == read_be128(data@, at as int),
{
    let len = data.len();
    assert(at + 16 <= len);
    ((get_u64(data, at) as u128) << 64u128) | (get_u64(data, at + 8) as u128)
}

/// Append `b` to `out`.
pub fn put_bytes(out: &mut Vec<u8>, b: &[u8])
    ensures
        final(out)@ == old(out)@ + b@,
{
    let n = b.len();
    let mut i: usize = 0;
    while i < n
        invariant
            i <= n,
            n == b@.len(),
            out@ == old(out)@ + b@.subrange(0, i as int),
        decreases n - i,
    {
        out.push(b[i]);
        i += 1;
        assert(out@ =~= old(out)@ + b@.subrange(0, i as int));
    }
    assert(b@.subrange(0, n as int) =~= b@);
}

/* Short strings: a one-byte length, then that many bytes of UTF-8 */

/// Longest string, in bytes, that a one-byte length prefix may announce.
pub const MAX_SHORT_STR_LEN: usize = 254;

/// Whether `s` fits a short string.
pub open spec fn short_str_fits(s: Seq<char>) -> bool {
    encode_utf8(s).len() <= MAX_SHORT_STR_LEN
}

/// Wire form of a short string.
pub open spec fn short_str_bytes(s: Seq<char>) -> Seq<u8> {
    seq![encode_utf8(s).len() as u8] + encode_utf8(s)
}

/// The short string at the start of `s`, with the number of bytes that it
/// takes, or nothing when the prefix overruns `s` or the bytes are not UTF-8.
pub open spec fn parse_short_str(s: Seq<u8>) -> Option<(Seq<char>, int)> {
    if s.len() < 1 {
        None
    } else {
        let n = s[0] as int;
        if s.len() < n + 1 || !valid_utf8(s.subrange(1, n + 1)) {
            None
        } else {
            Some((decode_utf8(s.subrange(1, n + 1)), n + 1))
        }
    }
}

/// A short string followed by anything decodes back to itself.
pub proof fn lemma_short_str_round_trip(s: Seq<char>, rest: Seq<u8>)
    requires
        short_str_fits(s),
    ensures
        parse_short_str(short_str_bytes(s) + rest) == Some((s, short_str_bytes(s).len() as int)),
{
    let b = short_str_bytes(s) + rest;
    let n = encode_utf8(s).len() as int;
    assert(b[0] as int == n);
    assert(b.subrange(1, n + 1) =~= encode_utf8(s));
    encode_utf8_valid_utf8(s);
}

/// Relies on std::str::from_utf8: it accepts exactly the well-formed UTF-8
/// byte strings, and the text it returns is made of the bytes it was given.
#[verifier::external_body]
fn utf8_str(b: &[u8]) -> (r: Option<&str>)
    ensures
        r is Some <==> valid_utf8(b@),
        r matches Some(s) ==> s.spec_bytes() == b@,
{
    std::str::from_utf8(b).ok()
}

/// Serialize a short string: a length byte, then the UTF-8 bytes.
/// Nothing is returned for a string longer than 254 bytes.
pub fn serialize_str(s: &str) -> (r: Option<Vec<u8>>)
    ensures
        r is Some <==> short_str_fits(s@),
        r matches Some(b) ==> b@ == short_str_bytes(s@),
{
    let bytes = s.as_bytes();
    let n = bytes.len();
    if n > MAX_SHORT_STR_LEN {
        return None;
    }
    let mut buff: Vec<u8> = Vec::with_capacity(n + 1);
    buff.push(n as u8);
    put_bytes(&mut buff, bytes);
    Some(buff)
}

/// Consume the short string at the start of `data`; return it with the bytes
/// that follow it.
pub fn deserialize_str(data: &[u8]) -> (r: Option<(&str, &[u8])>)
    ensures
        match parse_short_str(data@) {
            None => r is None,
            Some((text, used)) => r matches Some((s, rest)) && s@ == text && rest@
                == data@.subrange(used, data@.len() as int),
        },
{
    if data.len() < 1 {
        return None;
    }
    let n = data[0] as usize;
    if data.len() < n + 1 {
        return None;
    }
    let body = &data[1..n + 1];
    match utf8_str(body) {
        None => None,
        Some(s) => {
            proof {
                encode_utf8_decode_utf8(s@);
            }
            Some((s, &data[n + 1..data.len()]))
        },
    }
}

} // verus!
