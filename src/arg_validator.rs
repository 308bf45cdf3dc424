//! Checks on the values a node is configured with.
use vstd::prelude::*;
use vstd::utf8::*;
use crate::wire::short_str_fits;

verus! {

broadcast use vstd::utf8::encode_utf8_decode_utf8;

pub open spec fn is_ascii_digit(c: char) -> bool {
    '0' as u32 <= c as u32 <= '9' as u32
}

/// Value of a run of decimal digits.
pub open spec fn digits_value(d: Seq<char>) -> int
    decreases d.len(),
{
    if d.len() == 0 {
        0
    } else {
        digits_value(d.drop_last()) * 10 + (d.last() as u32 - '0' as u32)
    }
}

/// What `u16` parses from `s`: an optional `+`, then one or more decimal
/// digits, of value at most 65535; nothing otherwise.
pub open spec fn decimal_u16(s: Seq<char>) -> Option<u16> {
    let d = if s.len() > 0 && s[0] == '+' {
        s.drop_first()
    } else {
        s
    };
    if d.len() > 0 && (forall|i: int| 0 <= i < d.len() ==> is_ascii_digit(#[trigger] d[i]))
        && digits_value(d) <= u16::MAX {
        Some(digits_value(d) as u16)
    } else {
        None
    }
}

/// Relies on `str::parse::<u16>` (u16's `FromStr`): it accepts an optional
/// `+` followed by one or more ASCII digits whose value fits in 16 bits, and
/// nothing else.
#[verifier::external_body]
fn parse_u16(s: &str) -> (r: Option<u16>)
    ensures
        r == decimal_u16(s@),
{
    s.parse::<u16>().ok()
}

/// A node's name must fit in a datagram: at most 254 bytes of UTF-8.
pub fn validate_name(name: String) -> (r: Result<(), String>)
    ensures
        r is Ok <==> short_str_fits(name@),
        r matches Err(e) ==> e@ == "Provided name is too long"@,
{
    if name.as_str().as_bytes().len() > 254 {
        return Err("Provided name is too long".to_owned());
    }
    Ok(())
}

/// A probe interval is a whole number of seconds that fits in 16 bits.
pub fn validate_interval(interval: String) -> (r: Result<(), String>)
    ensures
        r is Ok <==> decimal_u16(interval@) is Some,
        r matches Err(e) ==> e@ == "Bad probe interval provided"@,
{
    match parse_u16(interval.as_str()) {
        Some(_) => Ok(()),
        None => Err("Bad probe interval provided".to_owned()),
    }
}

/// A port is a number that fits in 16 bits.
pub fn validate_port(port: String) -> (r: Result<(), String>)
    ensures
        r is Ok <==> decimal_u16(port@) is Some,
        r matches Err(e) ==> e@ == "Bad port provided"@,
{
    match parse_u16(port.as_str()) {
        Some(_) => Ok(()),
        None => Err("Bad port provided".to_owned()),
    }
}

/// How much a node logs.
#[derive(Clone, Copy, Debug, PartialEq, Eq, Structural)]
pub enum LogLevel {
    Debug,
    Info,
    Warn,
    Error,
}

pub open spec fn log_level_of(s: Seq<char>) -> Option<LogLevel> {
    if s == "debug"@ {
        Some(LogLevel::Debug)
    } else if s == "info"@ {
        Some(LogLevel::Info)
    } else if s == "warn"@ {
        Some(LogLevel::Warn)
    } else if s == "error"@ {
        Some(LogLevel::Error)
    } else {
        None
    }
}

/// Whether two strings hold the same text.
fn same_text(a: &str, b: &str) -> (r: bool)
    ensures
        r == (a@ == b@),
{
    let x = a.as_bytes();
    let y = b.as_bytes();
    if x.len() != y.len() {
        proof {
            if a@ == b@ {
                assert(x@ == y@);
            }
        }
        return false;
    }
    let n = x.len();
    let mut i: usize = 0;
    while i < n
        invariant
            i <= n,
            n == x@.len(),
            n == y@.len(),
            x@ == encode_utf8(a@),
            y@ == encode_utf8(b@),
            forall|j: int| 0 <= j < i ==> x@[j] == y@[j],
        decreases n - i,
    {
        if x[i] != y[i] {
            proof {
                if a@ == b@ {
                    assert(x@ == y@);
                }
            }
            return false;
        }
        i += 1;
    }
    proof {
        assert(x@ =~= y@);
        assert(decode_utf8(encode_utf8(a@)) == decode_utf8(encode_utf8(b@)));
    }
    true
}

/// The log level that `level` names: `debug`, `info`, `warn` or `error`.
pub fn parse_log_level(level: &str) -> (r: Option<LogLevel>)
    ensures
        r == log_level_of(level@),
{
    if same_text(level, "debug") {
        Some(LogLevel::Debug)
    } else if same_text(level, "info") {
        Some(LogLevel::Info)
    } else if same_text(level, "warn") {
        Some(LogLevel::Warn)
    } else if same_text(level, "error") {
        Some(LogLevel::Error)
    } else {
        None
    }
}

} // verus!
