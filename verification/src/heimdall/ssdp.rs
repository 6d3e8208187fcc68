//! What an SSDP response says of a device.

use vstd::prelude::*;
use crate::heimdall::device::{Seen, SeenView};
use crate::net::Ipv4Addr;
use crate::text::{
    chars_of, find_char, first_at, lines, lines_of, lowered, opt_view, pieces, split, substring,
    to_lower, trim, trimmed, views,
};
use crate::utf8::{byte_len, read_lossy, size, utf8_lossy};

verus! {

/// The search that devices answer to.
pub const MSEARCH: &'static str =
    "M-SEARCH * HTTP/1.1\r\nHOST: 239.255.255.250:1900\r\nMAN: \"ssdp:discover\"\r\nMX: 1\r\nST: ssdp:all\r\n\r\n";

/// A device that answered, and what it says it is.
pub struct SsdpHit {
    pub ip: Ipv4Addr,
    pub service: String,
}

/// What an [`SsdpHit`] says.
pub ghost struct SsdpHitView {
    pub ip: u32,
    pub service: Seq<char>,
}

impl View for SsdpHit {
    type V = SsdpHitView;

    open spec fn view(&self) -> SsdpHitView {
        SsdpHitView { ip: self.ip.bits, service: self.service@ }
    }
}

/// The views of the hits of `v`.
pub open spec fn ssdp_views(v: Seq<SsdpHit>) -> Seq<SsdpHitView> {
    Seq::new(v.len(), |i: int| v[i]@)
}

/// Whether `line` is a header of the name `name`, in any case.
pub open spec fn is_header(line: Seq<char>, name: Seq<char>) -> bool {
    let k = first_at(line, ':');
    k < line.len() && lowered(trimmed(line.take(k))) == lowered(name)
}

/// What the header `line` says.
pub open spec fn header_of(line: Seq<char>) -> Seq<char> {
    trimmed(line.skip(first_at(line, ':') + 1))
}

/// What the first header of the name `name` from the line `from` on says.
pub open spec fn header_from(rows: Seq<Seq<char>>, name: Seq<char>, from: int) -> Option<Seq<char>>
    decreases rows.len() - from,
{
    if from >= rows.len() {
        None
    } else if is_header(rows[from], name) {
        Some(header_of(rows[from]))
    } else {
        header_from(rows, name, from + 1)
    }
}

/// What the header `name` of `text` says, if there is one.
pub open spec fn header_value(text: Seq<char>, name: Seq<char>) -> Option<Seq<char>> {
    header_from(lines_of(text), name, 0)
}

/// The first part from `from` on that announces a name: `device` or `service`.
pub open spec fn announced(parts: Seq<Seq<char>>, from: int) -> Option<int>
    decreases parts.len() - from,
{
    if from >= parts.len() {
        None
    } else if parts[from] == "device"@ || parts[from] == "service"@ {
        Some(from)
    } else {
        announced(parts, from + 1)
    }
}

/// The telling part of the search target `st`: what follows the first `device`
/// or `service`, or else the last part, unless that is an identifier (long,
/// and with a hyphen in it).
pub open spec fn target_name(st: Seq<char>) -> Seq<char> {
    let parts = pieces(st, ':');
    let at = announced(parts, 0);
    if at is Some && at->0 + 1 < parts.len() {
        parts[at->0 + 1]
    } else if size(parts.last()) > 20 && parts.last().contains('-') {
        "upnp"@
    } else {
        parts.last()
    }
}

/// What the response `text` says the device is: its search target, or else its
/// server.
pub open spec fn response_label(text: Seq<char>) -> Seq<char> {
    match header_value(text, "ST"@) {
        Some(st) if target_name(st).len() > 0 => target_name(st),
        _ => match header_value(text, "SERVER"@) {
            Some(s) => s,
            None => "upnp"@,
        },
    }
}

/// What the header `name` of `text` says, if there is one. The name may stand
/// in any case.
pub fn header(text: &str, name: &str) -> (r: Option<String>)
    ensures
        opt_view(r) == header_value(text@, name@),
{
    let rows = lines(text);
    let ghost all = lines_of(text@);
    assert(views(rows@).len() == rows@.len());
    let wanted = to_lower(name);
    let mut i: usize = 0;
    while i < rows.len()
        invariant
            i <= rows@.len(),
            views(rows@) == all,
            all == lines_of(text@),
            rows@.len() == all.len(),
            wanted@ == lowered(name@),
            header_from(all, name@, 0) == header_from(all, name@, i as int),
        decreases rows@.len() - i,
    {
        assert(all[i as int] == rows@[i as int]@);
        let v = chars_of(rows[i].as_str());
        let k = find_char(&v, ':');
        if k < v.len() {
            let key = substring(&v, 0, k);
            assert(key@ == v@.take(k as int));
            let key = trim(key.as_str());
            let key = to_lower(key.as_str());
            if key.as_str().eq(wanted.as_str()) {
                let rest = substring(&v, k + 1, v.len());
                assert(rest@ == v@.skip(k + 1));
                return Some(trim(rest.as_str()));
            }
        }
        i += 1;
    }
    None
}

/// The telling part of the search target `st`:
/// `urn:schemas-upnp-org:device:MediaServer:1` is `MediaServer`,
/// `upnp:rootdevice` is `rootdevice`, and a bare identifier is `upnp`.
pub fn simplify_st(st: &str) -> (s: String)
    ensures
        s@ == target_name(st@),
{
    let parts = split(st, ':');
    let ghost p = pieces(st@, ':');
    assert(views(parts@).len() == parts@.len());
    let n = parts.len();
    let mut i: usize = 0;
    while i < n && !parts[i].as_str().eq("device") && !parts[i].as_str().eq("service")
        invariant
            n == parts@.len(),
            i <= n,
            views(parts@) == p,
            p.len() == n,
            announced(p, 0) == announced(p, i as int),
        decreases n - i,
    {
        assert(p[i as int] == parts@[i as int]@);
        i += 1;
    }
    assert(i < n ==> p[i as int] == parts@[i as int]@);
    assert(announced(p, 0) == if i < n { Some(i as int) } else { None });
    if i < n && n - i > 1 {
        assert(p[i + 1] == parts@[i + 1]@);
        return parts[i + 1].clone();
    }
    let last = parts[n - 1].clone();
    assert(last@ == p.last());
    if byte_len(last.as_str()) > 20 {
        let v = chars_of(last.as_str());
        let k = find_char(&v, '-');
        if k < v.len() {
            assert(v@[k as int] == '-');
            return "upnp".to_owned();
        }
    }
    last
}

/// What the response `text` says the device is: its search target, or else its
/// server.
pub fn parse_label(text: &str) -> (s: String)
    ensures
        s@ == response_label(text@),
{
    if let Some(st) = header(text, "ST") {
        let s = simplify_st(st.as_str());
        if !s.as_str().is_empty() {
            return s;
        }
    }
    match header(text, "SERVER") {
        Some(s) => s,
        None => "upnp".to_owned(),
    }
}

/// What the device at `ip` that sent `datagram` says it is.
pub fn answered(ip: Ipv4Addr, datagram: &Vec<u8>) -> (hit: SsdpHit)
    ensures
        hit@ == (SsdpHitView { ip: ip.bits, service: response_label(utf8_lossy(datagram@)) }),
{
    let text = read_lossy(datagram);
    SsdpHit { ip, service: parse_label(text.as_str()) }
}

impl SsdpHit {
    /// The answer as a fact about the device.
    pub fn seen(self) -> (s: Seen)
        ensures
            s@ == (SeenView {
                ip: self@.ip,
                mac: None,
                vendor: None,
                hostname: None,
                service: Some(self@.service),
            }),
    {
        Seen {
            ip: self.ip,
            mac: None,
            vendor: None,
            hostname: None,
            service: Some(self.service),
        }
    }
}

} // verus!
