//! IPv4 addresses and the decoder for the table's hex address fields.
use vstd::prelude::*;
use crate::errors::{ParseHexError, RouteError};

verus! {

/// An IPv4 address, `a.b.c.d`.
#[derive(Clone, Copy, Debug, PartialEq, Eq, Structural, Hash)]
pub struct Ipv4 {
    pub a: u8,
    pub b: u8,
    pub c: u8,
    pub d: u8,
}

impl Ipv4 {
    pub fn new(a: u8, b: u8, c: u8, d: u8) -> (r: Ipv4)
        ensures
            r == (Ipv4 { a, b, c, d }),
    {
        Ipv4 { a, b, c, d }
    }

    /// The four octets, most significant first.
    pub fn octets(&self) -> (r: [u8; 4])
        ensures
            r@ == seq![self.a, self.b, self.c, self.d],
    {
        [self.a, self.b, self.c, self.d]
    }
}

pub open spec fn is_hex_digit(c: char) -> bool {
    ('0' <= c && c <= '9') || ('a' <= c && c <= 'f') || ('A' <= c && c <= 'F')
}

/// The value of a hex digit.
pub open spec fn hex_value(c: char) -> int {
    if '0' <= c && c <= '9' {
        c as int - '0' as int
    } else if 'a' <= c && c <= 'f' {
        c as int - 'a' as int + 10
    } else {
        c as int - 'A' as int + 10
    }
}

pub open spec fn all_hex(s: Seq<char>) -> bool {
    forall|i: int| 0 <= i < s.len() ==> is_hex_digit(#[trigger] s[i])
}

/// The position of the first character of `s` that is not a hex digit.
pub open spec fn first_non_hex(s: Seq<char>) -> int
    recommends
        !all_hex(s),
{
    choose|i: int|
        0 <= i < s.len() && !is_hex_digit(s[i]) && forall|j: int|
            0 <= j < i ==> is_hex_digit(#[trigger] s[j])
}

/// How many chunks `s` splits into when cut every two characters; the last
/// chunk of an odd-length string has a single character.
pub open spec fn num_chunks(s: Seq<char>) -> int {
    (s.len() as int + 1) / 2
}

/// The number written by the `k`-th chunk of `s`, read as hex.
pub open spec fn chunk_value(s: Seq<char>, k: int) -> int {
    if 2 * k + 1 < s.len() {
        16 * hex_value(s[2 * k]) + hex_value(s[2 * k + 1])
    } else {
        hex_value(s[2 * k])
    }
}

/// The address written by a valid field: its four chunks are the address
/// bytes, least significant first.
pub open spec fn field_address(s: Seq<char>) -> Ipv4 {
    Ipv4 {
        a: chunk_value(s, 3) as u8,
        b: chunk_value(s, 2) as u8,
        c: chunk_value(s, 1) as u8,
        d: chunk_value(s, 0) as u8,
    }
}

/// What decoding an address field gives: a non-hex character is reported
/// first, then a chunk count other than four, else the address.
pub open spec fn decode_ip(s: Seq<char>) -> Result<Ipv4, RouteError> {
    if !all_hex(s) {
        let p = first_non_hex(s);
        Err(RouteError::Parse(ParseHexError { position: p as usize, found: s[p] }))
    } else if num_chunks(s) != 4 {
        Err(RouteError::BadInput)
    } else {
        Ok(field_address(s))
    }
}

/// The characters of `s`, in order.
pub(crate) fn chars_of(s: &str) -> (r: Vec<char>)
    ensures
        r@ == s@,
{
    let mut r: Vec<char> = Vec::new();
    for c in it: s.chars()
        invariant
            it.seq() == s@,
            r@ == it.seq().take(it.index() as int),
    {
        r.push(c);
    }
    r
}

fn hex_digit(c: char) -> (r: Option<u8>)
    ensures
        r is Some <==> is_hex_digit(c),
        r is Some ==> r->0 as int == hex_value(c) && r->0 < 16,
{
    if '0' <= c && c <= '9' {
        Some((c as u32 - '0' as u32) as u8)
    } else if 'a' <= c && c <= 'f' {
        Some((c as u32 - 'a' as u32 + 10) as u8)
    } else if 'A' <= c && c <= 'F' {
        Some((c as u32 - 'A' as u32 + 10) as u8)
    } else {
        None
    }
}

/// Reads chunk `k` of a field made of hex digits.
fn read_chunk(s: &Vec<char>, k: usize) -> (r: u8)
    requires
        all_hex(s@),
        k < 4,
        2 * k < s@.len(),
    ensures
        r as int == chunk_value(s@, k as int),
{
    let hi = hex_digit(s[2 * k]).unwrap();
    if 2 * k + 1 < s.len() {
        let lo = hex_digit(s[2 * k + 1]).unwrap();
        hi * 16 + lo
    } else {
        hi
    }
}

/// Decodes an address field of the table: eight hex digits, two per byte,
/// with the address bytes in reverse order (`"0101A8C0"` is `192.168.1.1`).
pub fn parse_ip(s: &str) -> (r: Result<Ipv4, RouteError>)
    ensures
        r == decode_ip(s@),
{
    let cs = chars_of(s);
    let mut i: usize = 0;
    while i < cs.len()
        invariant
            cs@ == s@,
            i <= cs.len(),
            forall|j: int| 0 <= j < i ==> is_hex_digit(#[trigger] s@[j]),
        decreases cs.len() - i,
    {
        if hex_digit(cs[i]).is_none() {
            let e = ParseHexError { position: i, found: cs[i] };
            proof {
                let p = first_non_hex(s@);
                assert(!is_hex_digit(s@[i as int]));
                assert(0 <= p < s@.len() && !is_hex_digit(s@[p]));
                assert(p == i) by {
                    if p < i {
                        assert(is_hex_digit(s@[p]));
                    } else if p > i {
                        assert(is_hex_digit(s@[i as int]));
                    }
                }
            }
            return Err(RouteError::Parse(e));
        }
        i = i + 1;
    }
    if cs.len() != 7 && cs.len() != 8 {
        return Err(RouteError::BadInput);
    }
    let d = read_chunk(&cs, 0);
    let c = read_chunk(&cs, 1);
    let b = read_chunk(&cs, 2);
    let a = read_chunk(&cs, 3);
    Ok(Ipv4 { a, b, c, d })
}

} // verus!
