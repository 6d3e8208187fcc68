//! A one-shot scan: what the three sources found, fused by address.

use std::collections::BTreeMap;
use vstd::prelude::*;
use crate::heimdall::arp::neighbours;
use crate::heimdall::device::{fresh, informed, vendor_text, Device, DeviceView, Seen, SeenView};
use crate::heimdall::laws::neighbours_carry_their_vendor;
use crate::heimdall::mdns::{mdns_views, MdnsHit, MdnsHitView};
use crate::heimdall::ssdp::{ssdp_views, SsdpHit, SsdpHitView};
use crate::net::{dotted, Ipv4Addr};
use crate::number::{decimal, decimal_of};
use crate::oui::{lookup_if_loaded, vendor_if_loaded, Vendors};
use crate::table::{
    are_entries, entries, lemma_entry, lemma_keys_grow, lemma_row, row_of, rows_of,
};
use crate::text::{
    clip, clipped, join, joined, left_aligned, opt_or, opt_view, pad_right, text_or, views,
};

verus! {

/// What is known of the device at `ip`, or a device of which nothing else is.
pub open spec fn known(m: Map<u32, DeviceView>, ip: u32) -> DeviceView {
    if m.dom().contains(ip) {
        m[ip]
    } else {
        fresh(ip)
    }
}

/// `m` with the first `n` of the neighbours `arp` taken in.
pub open spec fn with_neighbours(
    m: Map<u32, DeviceView>,
    arp: Seq<(u32, Seq<char>)>,
    vendors: Option<Vendors>,
    n: int,
) -> Map<u32, DeviceView>
    decreases n,
{
    if n <= 0 {
        m
    } else {
        let before = with_neighbours(m, arp, vendors, n - 1);
        let (ip, mac) = arp[n - 1];
        before.insert(
            ip,
            DeviceView {
                mac: Some(mac),
                vendor: vendor_if_loaded(vendors, mac),
                ..known(before, ip)
            },
        )
    }
}

/// `m` with the first `n` of the facts `seen` taken in.
pub open spec fn with_facts(
    m: Map<u32, DeviceView>,
    seen: Seq<SeenView>,
    n: int,
) -> Map<u32, DeviceView>
    decreases n,
{
    if n <= 0 {
        m
    } else {
        let before = with_facts(m, seen, n - 1);
        before.insert(seen[n - 1].ip, informed(known(before, seen[n - 1].ip), seen[n - 1]))
    }
}

/// What the mDNS records `hits` say.
pub open spec fn mdns_facts(hits: Seq<MdnsHitView>) -> Seq<SeenView> {
    Seq::new(
        hits.len(),
        |i: int|
            SeenView {
                ip: hits[i].ip,
                mac: None,
                vendor: None,
                hostname: hits[i].hostname,
                service: Some(hits[i].service),
            },
    )
}

/// What the SSDP answers `hits` say.
pub open spec fn ssdp_facts(hits: Seq<SsdpHitView>) -> Seq<SeenView> {
    Seq::new(
        hits.len(),
        |i: int|
            SeenView {
                ip: hits[i].ip,
                mac: None,
                vendor: None,
                hostname: None,
                service: Some(hits[i].service),
            },
    )
}

/// What the three sources say together: first the neighbours, for the hardware
/// address and vendor, and then the mDNS records and the SSDP answers.
pub open spec fn fused(
    arp: Seq<(u32, Seq<char>)>,
    vendors: Option<Vendors>,
    mdns: Seq<MdnsHitView>,
    ssdp: Seq<SsdpHitView>,
) -> Map<u32, DeviceView> {
    let a = with_neighbours(Map::empty(), arp, vendors, arp.len() as int);
    let b = with_facts(a, mdns_facts(mdns), mdns.len() as int);
    with_facts(b, ssdp_facts(ssdp), ssdp.len() as int)
}

/// The views of the values of `m`.
pub open spec fn device_map(m: Map<u32, Device>) -> Map<u32, DeviceView> {
    Map::new(|k: u32| m.dom().contains(k), |k: u32| m[k]@)
}

/// Whether `list` holds the devices of `m`, each once, by growing address.
pub open spec fn lists(list: Seq<DeviceView>, m: Map<u32, DeviceView>) -> bool {
    &&& forall|i: int|
        0 <= i < list.len() ==> m.dom().contains((#[trigger] list[i]).ip) && list[i]
            == m[list[i].ip]
    &&& forall|i: int, j: int|
        0 <= i < j < list.len() ==> (#[trigger] list[i]).ip < (#[trigger] list[j]).ip
    &&& forall|ip: u32| #[trigger]
        m.dom().contains(ip) ==> exists|i: int| 0 <= i < list.len() && (#[trigger] list[i]).ip == ip
}

/// The views of the devices of `v`.
pub open spec fn device_views(v: Seq<Device>) -> Seq<DeviceView> {
    Seq::new(v.len(), |i: int| v[i]@)
}

/// Whether each device of `m` stands under its own address.
pub open spec fn keyed(m: Map<u32, DeviceView>) -> bool {
    forall|ip: u32| #[trigger] m.dom().contains(ip) ==> m[ip].ip == ip
}

/// The neighbour with the address `ip` and the hardware address `mac` as a fact
/// about the device.
pub fn neighbour_seen(ip: Ipv4Addr, mac: String, vendors: &Option<Vendors>) -> (s: Seen)
    ensures
        s@ == (SeenView {
            ip: ip.bits,
            mac: Some(mac@),
            vendor: vendor_if_loaded(*vendors, mac@),
            hostname: None,
            service: None,
        }),
{
    let vendor = lookup_if_loaded(vendors, mac.as_str());
    Seen { ip, mac: Some(mac), vendor, hostname: None, service: None }
}

/// The device at `ip`, taken out of `t`; a fresh one where there is none.
fn take_known(t: &mut BTreeMap<u32, Device>, ip: Ipv4Addr) -> (d: Device)
    ensures
        final(t)@ == old(t)@.remove(ip.bits),
        d@ == known(device_map(old(t)@), ip.bits),
{
    match t.remove(&ip.bits) {
        Some(d) => d,
        None => Device::new(ip),
    }
}

/// Putting a device back under its address.
proof fn lemma_put(before: Map<u32, Device>, ip: u32, d: Device)
    ensures
        device_map(before.remove(ip).insert(ip, d)) == device_map(before).insert(ip, d@),
{
    assert(device_map(before.remove(ip).insert(ip, d)) =~= device_map(before).insert(ip, d@));
}

/// Take in the fact `seen`.
fn learn(t: &mut BTreeMap<u32, Device>, seen: Seen)
    ensures
        device_map(final(t)@) == device_map(old(t)@).insert(
            seen@.ip,
            informed(known(device_map(old(t)@), seen@.ip), seen@),
        ),
{
    let ghost before = t@;
    let ip = seen.ip;
    let mut d = take_known(t, ip);
    d.learn(seen);
    t.insert(ip.bits, d);
    proof {
        lemma_put(before, ip.bits, d);
    }
}

/// What the three sources found, fused by address and listed by growing
/// address.
pub fn fuse(
    arp: Vec<(Ipv4Addr, String)>,
    vendors: &Option<Vendors>,
    mdns: Vec<MdnsHit>,
    ssdp: Vec<SsdpHit>,
) -> (list: Vec<Device>)
    ensures
        lists(
            device_views(list@),
            fused(neighbours(arp@), *vendors, mdns_views(mdns@), ssdp_views(ssdp@)),
        ),
        forall|i: int, k: int|
            0 <= i < list@.len() && 0 <= k < arp@.len() && (#[trigger] arp@[k]).0.bits == (
            #[trigger] list@[i]).ip.bits && (forall|j: int|
                k < j < arp@.len() ==> (#[trigger] arp@[j]).0.bits != list@[i].ip.bits) ==> {
                &&& opt_view(list@[i].mac) == Some(arp@[k].1@)
                &&& *vendors matches Some(v) ==> opt_view(list@[i].vendor) == (
                if v@.dom().contains(arp@[k].1@) {
                    Some(v@[arp@[k].1@])
                } else {
                    None
                })
            },
{
    let ghost near = neighbours(arp@);
    let ghost heard = mdns_facts(mdns_views(mdns@));
    let ghost told = ssdp_facts(ssdp_views(ssdp@));
    let ghost empty = Map::<u32, DeviceView>::empty();
    let mut t: BTreeMap<u32, Device> = BTreeMap::new();
    assert(device_map(t@) =~= empty);
    let mut i: usize = 0;
    while i < arp.len()
        invariant
            i <= arp@.len(),
            near == neighbours(arp@),
            device_map(t@) == with_neighbours(empty, near, *vendors, i as int),
        decreases arp@.len() - i,
    {
        let ghost before = t@;
        let ip = arp[i].0;
        assert(near[i as int] == (ip.bits, arp@[i as int].1@));
        let mut d = take_known(&mut t, ip);
        d.vendor = lookup_if_loaded(vendors, arp[i].1.as_str());
        d.mac = Some(arp[i].1.clone());
        t.insert(ip.bits, d);
        proof {
            lemma_put(before, ip.bits, d);
        }
        i += 1;
    }
    let ghost a = device_map(t@);
    let mut mdns = mdns;
    let ghost hits = mdns_views(mdns@);
    let ghost n = mdns@.len();
    while mdns.len() > 0
        invariant
            mdns@.len() <= n,
            hits.len() == n,
            heard == mdns_facts(hits),
            mdns_views(mdns@) == hits.skip(n - mdns@.len()),
            device_map(t@) == with_facts(a, heard, n - mdns@.len()),
        decreases mdns@.len(),
    {
        let ghost at = n - mdns@.len();
        let ghost rest = mdns@;
        let hit = mdns.remove(0);
        assert(mdns_views(rest)[0] == hit@);
        assert(hits[at] == hit@);
        learn(&mut t, hit.seen());
        assert(mdns_views(mdns@) == hits.skip(at + 1)) by {
            assert forall|j: int| 0 <= j < mdns@.len() implies mdns_views(mdns@)[j]
                == hits.skip(at + 1)[j] by {
                assert(mdns@[j] == rest[j + 1]);
                assert(mdns_views(rest)[j + 1] == hits.skip(at)[j + 1]);
            }
        }
    }
    let ghost b = device_map(t@);
    let mut ssdp = ssdp;
    let ghost answers = ssdp_views(ssdp@);
    let ghost k = ssdp@.len();
    while ssdp.len() > 0
        invariant
            ssdp@.len() <= k,
            answers.len() == k,
            told == ssdp_facts(answers),
            ssdp_views(ssdp@) == answers.skip(k - ssdp@.len()),
            device_map(t@) == with_facts(b, told, k - ssdp@.len()),
        decreases ssdp@.len(),
    {
        let ghost at = k - ssdp@.len();
        let ghost rest = ssdp@;
        let hit = ssdp.remove(0);
        assert(ssdp_views(rest)[0] == hit@);
        assert(answers[at] == hit@);
        learn(&mut t, hit.seen());
        assert(ssdp_views(ssdp@) == answers.skip(at + 1)) by {
            assert forall|j: int| 0 <= j < ssdp@.len() implies ssdp_views(ssdp@)[j]
                == answers.skip(at + 1)[j] by {
                assert(ssdp@[j] == rest[j + 1]);
                assert(ssdp_views(rest)[j + 1] == answers.skip(at)[j + 1]);
            }
        }
    }
    proof {
        lemma_fused_keyed(near, *vendors, hits, answers);
    }
    let list = values(t);
    proof {
        let seen = device_views(list@);
        assert forall|i: int, k: int|
            0 <= i < list@.len() && 0 <= k < arp@.len() && (#[trigger] arp@[k]).0.bits == (
            #[trigger] list@[i]).ip.bits && (forall|j: int|
                k < j < arp@.len() ==> (#[trigger] arp@[j]).0.bits != list@[i].ip.bits) implies {
            &&& opt_view(list@[i].mac) == Some(arp@[k].1@)
            &&& *vendors matches Some(v) ==> opt_view(list@[i].vendor) == (
            if v@.dom().contains(arp@[k].1@) {
                Some(v@[arp@[k].1@])
            } else {
                None
            })
        } by {
            assert(seen[i] == list@[i]@);
            assert forall|j: int| k < j < near.len() implies (#[trigger] near[j]).0
                != seen[i].ip by {
                assert(near[j].0 == arp@[j].0.bits);
            }
            neighbours_carry_their_vendor(seen, near, *vendors, hits, answers, i, k);
        }
    }
    list
}

proof fn lemma_neighbours_keyed(arp: Seq<(u32, Seq<char>)>, vendors: Option<Vendors>, n: int)
    ensures
        keyed(with_neighbours(Map::empty(), arp, vendors, n)),
    decreases n,
{
    if n > 0 {
        lemma_neighbours_keyed(arp, vendors, n - 1);
    }
}

proof fn lemma_facts_keyed(m: Map<u32, DeviceView>, seen: Seq<SeenView>, n: int)
    requires
        keyed(m),
    ensures
        keyed(with_facts(m, seen, n)),
    decreases n,
{
    if n > 0 {
        lemma_facts_keyed(m, seen, n - 1);
    }
}

/// Each device stands under its own address.
proof fn lemma_fused_keyed(
    arp: Seq<(u32, Seq<char>)>,
    vendors: Option<Vendors>,
    mdns: Seq<MdnsHitView>,
    ssdp: Seq<SsdpHitView>,
)
    ensures
        keyed(fused(arp, vendors, mdns, ssdp)),
{
    lemma_neighbours_keyed(arp, vendors, arp.len() as int);
    let a = with_neighbours(Map::empty(), arp, vendors, arp.len() as int);
    lemma_facts_keyed(a, mdns_facts(mdns), mdns.len() as int);
    let b = with_facts(a, mdns_facts(mdns), mdns.len() as int);
    lemma_facts_keyed(b, ssdp_facts(ssdp), ssdp.len() as int);
}

/// The devices of `t`, by growing address.
fn values(t: BTreeMap<u32, Device>) -> (list: Vec<Device>)
    requires
        keyed(device_map(t@)),
    ensures
        lists(device_views(list@), device_map(t@)),
{
    let all = entries(&t);
    let ghost rows = rows_of(t@);
    let mut list: Vec<Device> = Vec::new();
    let mut i: usize = 0;
    while i < all.len()
        invariant
            i <= all@.len(),
            rows == rows_of(t@),
            are_entries(all@, t@),
            list@.len() == i,
            forall|j: int| 0 <= j < i ==> (#[trigger] list@[j])@ == rows[j].1@,
        decreases all@.len() - i,
    {
        list.push(all[i].1.duplicate());
        i += 1;
    }
    proof {
        let v = device_views(list@);
        let m = device_map(t@);
        lemma_keys_grow(t@);
        assert forall|j: int| 0 <= j < v.len() implies m.dom().contains((#[trigger] v[j]).ip)
            && v[j] == m[v[j].ip] && v[j].ip == rows[j].0 by {
            lemma_row(t@, j);
            assert(m.dom().contains(rows[j].0));
            assert(m[rows[j].0] == v[j]);
        }
        assert forall|ip: u32| #[trigger] m.dom().contains(ip) implies exists|j: int|
            0 <= j < v.len() && (#[trigger] v[j]).ip == ip by {
            lemma_entry(t@, ip);
            let j = row_of(rows, ip);
            assert(v[j].ip == ip);
        }
    }
    list
}

// ---- the printed table ----------------------------------------------------------

/// The header of the printed table.
pub open spec fn scan_header() -> Seq<char> {
    left_aligned("IP"@, 15) + seq![' '] + left_aligned("MAC"@, 17) + seq![' '] + left_aligned(
        "VENDOR"@,
        22,
    ) + seq![' '] + left_aligned("HOST"@, 22) + seq![' '] + "SERVICES"@
}

/// The row of the printed table for a device.
pub open spec fn scan_row(d: DeviceView) -> Seq<char> {
    left_aligned(dotted(d.ip), 15) + seq![' '] + left_aligned(text_or(d.mac, "-"@), 17) + seq![' ']
        + left_aligned(clipped(vendor_text(d), 22), 22) + seq![' '] + left_aligned(
        clipped(text_or(d.hostname, "-"@), 22),
        22,
    ) + seq![' '] + joined(d.services, ","@)
}

/// Four columns and a rest, with a space between each two.
fn columns(a: &str, b: &str, c: &str, d: &str, rest: &str) -> (s: String)
    ensures
        s@ == left_aligned(a@, 15) + seq![' '] + left_aligned(b@, 17) + seq![' '] + left_aligned(
            c@,
            22,
        ) + seq![' '] + left_aligned(d@, 22) + seq![' '] + rest@,
{
    let mut s = pad_right(a, 15);
    s.push(' ');
    let b = pad_right(b, 17);
    s.append(b.as_str());
    s.push(' ');
    let c = pad_right(c, 22);
    s.append(c.as_str());
    s.push(' ');
    let d = pad_right(d, 22);
    s.append(d.as_str());
    s.push(' ');
    s.append(rest);
    s
}

/// The header of the printed table.
pub fn header_line() -> (s: String)
    ensures
        s@ == scan_header(),
{
    columns("IP", "MAC", "VENDOR", "HOST", "SERVICES")
}

/// The row of the printed table for a device.
pub fn device_line(d: &Device) -> (s: String)
    ensures
        s@ == scan_row(d@),
{
    let ip = d.ip.text();
    let mac = opt_or(&d.mac, "-");
    let vendor = d.vendor_label();
    let vendor = clip(vendor.as_str(), 22);
    let host = opt_or(&d.hostname, "-");
    let host = clip(host.as_str(), 22);
    let services = join(&d.services, ",");
    columns(ip.as_str(), mac.as_str(), vendor.as_str(), host.as_str(), services.as_str())
}

/// What is said before the scan of the networks `cidrs`.
pub fn scanning_line(cidrs: &Vec<String>) -> (s: String)
    ensures
        s@ == "scanning "@ + (if cidrs@.len() == 0 {
            "(no IPv4 subnet found)"@
        } else {
            joined(views(cidrs@), ", "@)
        }) + " …"@,
{
    let mut s = "scanning ".to_owned();
    if cidrs.len() == 0 {
        s.append("(no IPv4 subnet found)");
    } else {
        let list = join(cidrs, ", ");
        s.append(list.as_str());
    }
    s.append(" …");
    s
}

/// What is said after a scan that found `n` devices.
pub fn online_line(n: usize) -> (s: String)
    ensures
        s@ == decimal(n as nat) + " device(s) online"@,
{
    let mut s = decimal_of(n as u64);
    s.append(" device(s) online");
    s
}

} // verus!
