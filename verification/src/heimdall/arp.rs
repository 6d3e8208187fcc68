//! Reading the kernel's neighbour table.

use vstd::prelude::*;
use crate::net::{undotted, Ipv4Addr};
use crate::number::{parse, parsed};
use crate::text::{
    chars_of, lines, lines_of, lowered, split_words, substring, to_lower, views, words,
};

verus! {

/// `s` without the prefixes `0x` at its start.
pub open spec fn bare_hex(s: Seq<char>) -> Seq<char>
    decreases s.len(),
{
    if s.len() >= 2 && s[0] == '0' && s[1] == 'x' {
        bare_hex(s.skip(2))
    } else {
        s
    }
}

/// The address and hardware address that a row of the table gives, if its
/// entry is complete: bit 1 of the flags is set and the hardware address is not
/// all zeros.
pub open spec fn arp_row(row: Seq<char>) -> Option<(u32, Seq<char>)> {
    let f = words(row);
    if f.len() < 4 || undotted(f[0]) is None || parsed(bare_hex(f[2]), 16, 0xffff_ffff) is None {
        None
    } else {
        let flags = parsed(bare_hex(f[2]), 16, 0xffff_ffff)->0;
        let mac = lowered(f[3]);
        if (flags / 2) % 2 == 0 || mac == "00:00:00:00:00:00"@ {
            None
        } else {
            Some((undotted(f[0])->0, mac))
        }
    }
}

/// The complete entries of the first `n` of `rows`, in order.
pub open spec fn arp_rows(rows: Seq<Seq<char>>, n: int) -> Seq<(u32, Seq<char>)>
    decreases n,
{
    if n <= 0 {
        seq![]
    } else {
        match arp_row(rows[n - 1]) {
            Some(e) => arp_rows(rows, n - 1).push(e),
            None => arp_rows(rows, n - 1),
        }
    }
}

/// The complete entries of the table `text`, whose first line is a header.
pub open spec fn arp_table(text: Seq<char>) -> Seq<(u32, Seq<char>)> {
    let rows = lines_of(text);
    if rows.len() == 0 {
        seq![]
    } else {
        arp_rows(rows.drop_first(), rows.len() - 1)
    }
}

/// The views of the entries of `v`.
pub open spec fn neighbours(v: Seq<(Ipv4Addr, String)>) -> Seq<(u32, Seq<char>)> {
    Seq::new(v.len(), |i: int| (v[i].0.bits, v[i].1@))
}

/// `s` without the prefixes `0x` at its start.
fn strip_hex(s: &str) -> (r: String)
    ensures
        r@ == bare_hex(s@),
{
    let v = chars_of(s);
    let mut k: usize = 0;
    assert(v@.skip(0) == v@);
    while v.len() - k >= 2 && v[k] == '0' && v[k + 1] == 'x'
        invariant
            k <= v@.len(),
            bare_hex(v@) == bare_hex(v@.skip(k as int)),
        decreases v@.len() - k,
    {
        assert(v@.skip(k as int).skip(2) == v@.skip(k + 2));
        k += 2;
    }
    assert(v@.skip(k as int) == v@.subrange(k as int, v@.len() as int));
    substring(&v, k, v.len())
}

/// The address and hardware address that a row of the table gives, if its
/// entry is complete. The columns are address, type, flags, hardware address,
/// mask and device.
pub fn parse_arp_line(line: &str) -> (r: Option<(Ipv4Addr, String)>)
    ensures
        match r {
            Some(e) => arp_row(line@) == Some((e.0.bits, e.1@)),
            None => arp_row(line@) is None,
        },
{
    let f = split_words(line);
    let ghost w = words(line@);
    assert(views(f@).len() == f@.len());
    if f.len() < 4 {
        return None;
    }
    assert(w[0] == f@[0]@ && w[2] == f@[2]@ && w[3] == f@[3]@);
    let ip = match Ipv4Addr::parse(f[0].as_str()) {
        Some(ip) => ip,
        None => return None,
    };
    let bare = strip_hex(f[2].as_str());
    let flags = match parse(bare.as_str(), 16, 0xffff_ffff) {
        Some(n) => n,
        None => return None,
    };
    let mac = to_lower(f[3].as_str());
    if (flags / 2) % 2 == 0 || mac.as_str().eq("00:00:00:00:00:00") {
        return None;
    }
    Some((ip, mac))
}

/// The complete entries of the table `text`, whose first line is a header.
pub fn read_arp_cache(text: &str) -> (r: Vec<(Ipv4Addr, String)>)
    ensures
        neighbours(r@) == arp_table(text@),
{
    let rows = lines(text);
    let ghost all = lines_of(text@);
    assert(views(rows@).len() == rows@.len());
    let mut r: Vec<(Ipv4Addr, String)> = Vec::new();
    if rows.len() == 0 {
        assert(neighbours(r@) == Seq::<(u32, Seq<char>)>::empty());
        return r;
    }
    let ghost rest = all.drop_first();
    let mut i: usize = 1;
    assert(neighbours(r@) == arp_rows(rest, 0));
    while i < rows.len()
        invariant
            1 <= i <= rows@.len(),
            views(rows@) == all,
            rest == all.drop_first(),
            rows@.len() == all.len(),
            neighbours(r@) == arp_rows(rest, i - 1),
        decreases rows@.len() - i,
    {
        assert(rest[i - 1] == rows@[i as int]@);
        match parse_arp_line(rows[i].as_str()) {
            Some(e) => {
                let ghost done = r@;
                let ghost ev = (e.0.bits, e.1@);
                r.push(e);
                assert(neighbours(r@) == neighbours(done).push(ev));
            },
            None => {},
        }
        i += 1;
    }
    r
}

} // verus!
