//! IPv4 addresses and their dotted notation.

use vstd::prelude::*;
use crate::number::{decimal, decimal_of, decimal_round_trip, parse, parsed};
use crate::text::{chars_of, free_of, lemma_last_piece, lemma_one_piece, pieces, split, views};

verus! {

/// An IPv4 address.
#[derive(Clone, Copy, Debug, PartialEq, Eq, Structural)]
pub struct Ipv4Addr {
    /// The four octets, the first one highest.
    pub bits: u32,
}

/// The octet `i` of the address `bits`, counted from the left.
pub open spec fn octet(bits: u32, i: int) -> nat {
    if i == 0 {
        (bits as nat / 0x100_0000) % 256
    } else if i == 1 {
        (bits as nat / 0x1_0000) % 256
    } else if i == 2 {
        (bits as nat / 0x100) % 256
    } else {
        bits as nat % 256
    }
}

/// The address `bits` in dotted notation.
pub open spec fn dotted(bits: u32) -> Seq<char> {
    decimal(octet(bits, 0)) + seq!['.'] + decimal(octet(bits, 1)) + seq!['.'] + decimal(
        octet(bits, 2),
    ) + seq!['.'] + decimal(octet(bits, 3))
}

/// What an octet in dotted notation stands for: one to three digits, with no
/// zero in front.
pub open spec fn octet_value(s: Seq<char>) -> Option<nat> {
    if 1 <= s.len() <= 3 && '0' <= s[0] <= '9' && (s.len() > 1 ==> s[0] != '0') {
        parsed(s, 10, 255)
    } else {
        None
    }
}

/// The address that `s` stands for in dotted notation, if it is one.
pub open spec fn undotted(s: Seq<char>) -> Option<u32> {
    let p = pieces(s, '.');
    if p.len() == 4 && octet_value(p[0]) is Some && octet_value(p[1]) is Some && octet_value(p[2])
        is Some && octet_value(p[3]) is Some {
        Some(
            (octet_value(p[0])->0 * 0x100_0000 + octet_value(p[1])->0 * 0x1_0000 + octet_value(
                p[2],
            )->0 * 0x100 + octet_value(p[3])->0) as u32,
        )
    } else {
        None
    }
}

/// What an octet in dotted notation stands for.
fn parse_octet(s: &str) -> (r: Option<u32>)
    ensures
        match octet_value(s@) {
            Some(v) => r == Some(v as u32),
            None => r is None,
        },
        r is Some ==> r->0 <= 255,
{
    let v = chars_of(s);
    if v.len() < 1 || v.len() > 3 {
        return None;
    }
    if v[0] < '0' || v[0] > '9' || (v.len() > 1 && v[0] == '0') {
        return None;
    }
    match parse(s, 10, 255) {
        Some(n) => Some(n as u32),
        None => None,
    }
}

impl Ipv4Addr {
    /// The address with the four octets `a.b.c.d`.
    pub fn new(a: u8, b: u8, c: u8, d: u8) -> (r: Ipv4Addr)
        ensures
            r.bits == a * 0x100_0000 + b * 0x1_0000 + c * 0x100 + d,
    {
        Ipv4Addr {
            bits: (a as u32) * 0x100_0000 + (b as u32) * 0x1_0000 + (c as u32) * 0x100 + d as u32,
        }
    }

    /// The address in dotted notation.
    pub fn text(&self) -> (s: String)
        ensures
            s@ == dotted(self.bits),
    {
        let mut s = decimal_of(((self.bits / 0x100_0000) % 256) as u64);
        s.push('.');
        let b = decimal_of(((self.bits / 0x1_0000) % 256) as u64);
        s.append(b.as_str());
        s.push('.');
        let c = decimal_of(((self.bits / 0x100) % 256) as u64);
        s.append(c.as_str());
        s.push('.');
        let d = decimal_of((self.bits % 256) as u64);
        s.append(d.as_str());
        assert(s@ == dotted(self.bits));
        s
    }

    /// The address that `s` stands for in dotted notation, if it is one.
    pub fn parse(s: &str) -> (r: Option<Ipv4Addr>)
        ensures
            match undotted(s@) {
                Some(bits) => r == Some(Ipv4Addr { bits }),
                None => r is None,
            },
    {
        let p = split(s, '.');
        let ghost q = pieces(s@, '.');
        if p.len() != 4 {
            assert(views(p@).len() == p@.len());
            return None;
        }
        assert(q[0] == p@[0]@ && q[1] == p@[1]@ && q[2] == p@[2]@ && q[3] == p@[3]@);
        match (
            parse_octet(p[0].as_str()),
            parse_octet(p[1].as_str()),
            parse_octet(p[2].as_str()),
            parse_octet(p[3].as_str()),
        ) {
            (Some(a), Some(b), Some(c), Some(d)) => {
                Some(Ipv4Addr { bits: a * 0x100_0000 + b * 0x1_0000 + c * 0x100 + d })
            },
            _ => None,
        }
    }
}

/// A number has no zero in front, and up to 255 at most three digits.
proof fn lemma_octet_round_trip(n: nat)
    requires
        n <= 255,
    ensures
        octet_value(decimal(n)) == Some(n),
        free_of(decimal(n), '.'),
{
    decimal_round_trip(n);
    reveal_with_fuel(decimal, 4);
    let s = decimal(n);
    if n >= 100 {
        assert(s.len() == 3);
        assert(n / 10 / 10 >= 1);
        assert(s[0] == decimal(n / 10 / 10)[0]);
    } else if n >= 10 {
        assert(s.len() == 2);
        assert(n / 10 >= 1);
        assert(s[0] == decimal(n / 10)[0]);
    }
    assert(s[0] != '+');
    assert(parsed(s, 10, 255) == Some(n));
}

/// The octets make up the address.
proof fn lemma_octets(bits: u32)
    ensures
        octet(bits, 0) * 0x100_0000 + octet(bits, 1) * 0x1_0000 + octet(bits, 2) * 0x100 + octet(
            bits,
            3,
        ) == bits,
{
}

/// Reading the dotted notation of an address gives it back.
pub proof fn dotted_round_trip(bits: u32)
    ensures
        undotted(dotted(bits)) == Some(bits),
{
    let a = decimal(octet(bits, 0));
    let b = decimal(octet(bits, 1));
    let c = decimal(octet(bits, 2));
    let d = decimal(octet(bits, 3));
    lemma_octet_round_trip(octet(bits, 0));
    lemma_octet_round_trip(octet(bits, 1));
    lemma_octet_round_trip(octet(bits, 2));
    lemma_octet_round_trip(octet(bits, 3));
    lemma_one_piece(a, '.');
    lemma_last_piece(a, '.', b);
    lemma_last_piece(a + seq!['.'] + b, '.', c);
    lemma_last_piece(a + seq!['.'] + b + seq!['.'] + c, '.', d);
    assert(pieces(dotted(bits), '.') == seq![a].push(b).push(c).push(d));
    lemma_octets(bits);
}

} // verus!
