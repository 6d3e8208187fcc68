//! What a resolved mDNS record says of a device.

use vstd::prelude::*;
use crate::heimdall::device::{Seen, SeenView};
use crate::net::Ipv4Addr;
use crate::text::{
    chars_of, opt_copy, opt_view, substring, trim_leading, trim_trailing, without_leading,
    without_trailing,
};

verus! {

/// The types of service that are listened for: those that most devices offer.
pub const TYPES: [&'static str; 19] = [
    "_http._tcp.local.",
    "_https._tcp.local.",
    "_ssh._tcp.local.",
    "_sftp-ssh._tcp.local.",
    "_ipp._tcp.local.",
    "_ipps._tcp.local.",
    "_printer._tcp.local.",
    "_pdl-datastream._tcp.local.",
    "_airplay._tcp.local.",
    "_raop._tcp.local.",
    "_googlecast._tcp.local.",
    "_spotify-connect._tcp.local.",
    "_smb._tcp.local.",
    "_afpovertcp._tcp.local.",
    "_workstation._tcp.local.",
    "_device-info._tcp.local.",
    "_companion-link._tcp.local.",
    "_homekit._tcp.local.",
    "_hap._tcp.local.",
];

/// A resolved record.
pub struct MdnsHit {
    pub ip: Ipv4Addr,
    pub hostname: Option<String>,
    pub service: String,
}

/// What an [`MdnsHit`] says.
pub ghost struct MdnsHitView {
    pub ip: u32,
    pub hostname: Option<Seq<char>>,
    pub service: Seq<char>,
}

impl View for MdnsHit {
    type V = MdnsHitView;

    open spec fn view(&self) -> MdnsHitView {
        MdnsHitView {
            ip: self.ip.bits,
            hostname: opt_view(self.hostname),
            service: self.service@,
        }
    }
}

/// The views of the hits of `v`.
pub open spec fn mdns_views(v: Seq<MdnsHit>) -> Seq<MdnsHitView> {
    Seq::new(v.len(), |i: int| v[i]@)
}

/// The beginning of `s`, up to the first `._`.
pub open spec fn before_protocol(s: Seq<char>) -> Seq<char>
    decreases s.len(),
{
    if s.len() == 0 || (s.len() >= 2 && s[0] == '.' && s[1] == '_') {
        seq![]
    } else {
        seq![s[0]] + before_protocol(s.drop_first())
    }
}

/// The name of the service type `ty`: `_googlecast._tcp.local.` is `googlecast`.
pub open spec fn service_name(ty: Seq<char>) -> Seq<char> {
    before_protocol(without_leading(ty, '_'))
}

/// The host name in a record, without the dots at its end; none where nothing
/// is left.
pub open spec fn host_name(host: Seq<char>) -> Option<Seq<char>> {
    let h = without_trailing(host, '.');
    if h.len() == 0 {
        None
    } else {
        Some(h)
    }
}

/// The name of the service type `ty`: `_googlecast._tcp.local.` is `googlecast`.
pub fn service_label(ty: &str) -> (s: String)
    ensures
        s@ == service_name(ty@),
{
    let bare = trim_leading(ty, '_');
    let v = chars_of(bare.as_str());
    let mut k: usize = 0;
    assert(v@.skip(0) == v@);
    assert(v@.take(0) + before_protocol(v@) == before_protocol(v@));
    while k < v.len() && !(v.len() - k >= 2 && v[k] == '.' && v[k + 1] == '_')
        invariant
            k <= v@.len(),
            v@.take(k as int) + before_protocol(v@.skip(k as int)) == before_protocol(v@),
        decreases v@.len() - k,
    {
        let ghost rest = v@.skip(k as int);
        assert(rest.drop_first() == v@.skip(k + 1));
        assert(v@.take(k as int) + (seq![rest[0]] + before_protocol(rest.drop_first()))
            == v@.take(k + 1) + before_protocol(v@.skip(k + 1)));
        k += 1;
    }
    assert(v@.take(k as int) + Seq::<char>::empty() == v@.subrange(0, k as int));
    substring(&v, 0, k)
}

/// The host name in a record, without the dots at its end; none where nothing
/// is left.
pub fn clean_host(host: &str) -> (r: Option<String>)
    ensures
        opt_view(r) == host_name(host@),
{
    let h = trim_trailing(host, '.');
    if h.as_str().is_empty() {
        None
    } else {
        Some(h)
    }
}

/// What a record of the type `ty` says: the host `host` has each of the
/// addresses `ips`.
pub fn resolved(ty: &str, host: &str, ips: &Vec<Ipv4Addr>) -> (r: Vec<MdnsHit>)
    ensures
        mdns_views(r@) == Seq::new(
            ips@.len(),
            |i: int|
                MdnsHitView {
                    ip: ips@[i].bits,
                    hostname: host_name(host@),
                    service: service_name(ty@),
                },
        ),
{
    let name = clean_host(host);
    let service = service_label(ty);
    let ghost wanted = Seq::new(
        ips@.len(),
        |i: int|
            MdnsHitView {
                ip: ips@[i].bits,
                hostname: host_name(host@),
                service: service_name(ty@),
            },
    );
    let mut r: Vec<MdnsHit> = Vec::new();
    let mut i: usize = 0;
    while i < ips.len()
        invariant
            i <= ips@.len(),
            opt_view(name) == host_name(host@),
            service@ == service_name(ty@),
            wanted == Seq::new(
                ips@.len(),
                |i: int|
                    MdnsHitView {
                        ip: ips@[i].bits,
                        hostname: host_name(host@),
                        service: service_name(ty@),
                    },
            ),
            mdns_views(r@) == wanted.take(i as int),
        decreases ips@.len() - i,
    {
        let hit = MdnsHit { ip: ips[i], hostname: opt_copy(&name), service: service.clone() };
        let ghost done = r@;
        let ghost hv = hit@;
        assert(hv == wanted[i as int]);
        r.push(hit);
        assert(mdns_views(r@) == mdns_views(done).push(hv));
        assert(wanted.take(i as int).push(hv) == wanted.take(i + 1));
        i += 1;
    }
    assert(wanted.take(ips@.len() as int) == wanted);
    r
}

impl MdnsHit {
    /// The record as a fact about the device.
    pub fn seen(self) -> (s: Seen)
        ensures
            s@ == (SeenView {
                ip: self@.ip,
                mac: None,
                vendor: None,
                hostname: self@.hostname,
                service: Some(self@.service),
            }),
    {
        Seen {
            ip: self.ip,
            mac: None,
            vendor: None,
            hostname: self.hostname,
            service: Some(self.service),
        }
    }
}

} // verus!
