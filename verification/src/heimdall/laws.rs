//! What the finder of devices promises from end to end: what becomes of each thing that
//! was found out about a device, and how the sources of that are read.

use vstd::prelude::*;
use crate::base::fuzzy::score_of;
use crate::base::sanitize::shown;
use crate::heimdall::arp::{arp_row, arp_rows, arp_table, bare_hex};
use crate::heimdall::cache::{all_restored, restored, revived, row_for, CachedView, StoredView};
use crate::heimdall::device::{
    informed, search_text, vendor_text, with_service, DeviceView, SeenView,
};
use crate::heimdall::discover::{
    fused, known, lists, mdns_facts, scan_row, ssdp_facts, with_facts, with_neighbours,
};
use crate::heimdall::mac::{classified, Kind};
use crate::heimdall::mdns::{before_protocol, host_name, service_name, MdnsHitView};
use crate::heimdall::picker::{
    after_command, command, detail_lines, is_kept_selection, is_listing, list_row, listed_before, port_names,
    seed_time, seeded, status_text, EntryView, StateView, StepView,
};
use crate::heimdall::ssdp::{
    announced, header_from, header_of, header_value, is_header, response_label, target_name,
    SsdpHitView,
};
use crate::heimdall::subnet::{
    all_swept, first_host, hosts_of, is_virtual_name, ones, swept, Interface,
};
use crate::laws::{
    blank, first_place_is_found, lines_are_read_back, the_first_piece_stands_in_front, the_stretch_before_a_stop, tight,
    trimming_takes_the_ends,
};
use crate::net::{dotted, dotted_round_trip, undotted, Ipv4Addr};
use crate::number::{decimal, digit_value, digits_value, parsed};
use crate::oui::{vendor_if_loaded, Vendors};
use crate::text::{
    free_of, has_prefix, joined, lines_of, lowered, pieces, split_undoes_join, trimmed,
    without_leading, without_trailing, words,
};
use crate::utf8::size;
use crate::ui::keys::{KeyCode, KeyEvent, KeyEventKind};
use crate::ui::picker::{cell_runs, Tone};

verus! {

// ---- what is found of a device --------------------------------------------------------

/// Whether entry `k` is the last of the neighbour table for the address `ip`.
pub open spec fn last_neighbour(arp: Seq<(u32, Seq<char>)>, ip: u32, k: int) -> bool {
    &&& 0 <= k < arp.len()
    &&& arp[k].0 == ip
    &&& forall|j: int| k < j < arp.len() ==> (#[trigger] arp[j]).0 != ip
}

/// Whether the address `ip` is in the neighbour table.
pub open spec fn is_neighbour(arp: Seq<(u32, Seq<char>)>, ip: u32) -> bool {
    exists|k: int| 0 <= k < arp.len() && (#[trigger] arp[k]).0 == ip
}

/// Whether the address `ip` answered over mDNS.
pub open spec fn answered_mdns(hits: Seq<MdnsHitView>, ip: u32) -> bool {
    exists|k: int| 0 <= k < hits.len() && (#[trigger] hits[k]).ip == ip
}

/// Whether the address `ip` answered over SSDP.
pub open spec fn answered_ssdp(hits: Seq<SsdpHitView>, ip: u32) -> bool {
    exists|k: int| 0 <= k < hits.len() && (#[trigger] hits[k]).ip == ip
}

proof fn lemma_neighbours(arp: Seq<(u32, Seq<char>)>, vendors: Option<Vendors>, n: int, ip: u32)
    requires
        0 <= n <= arp.len(),
    ensures
        ({
            let m = with_neighbours(Map::empty(), arp, vendors, n);
            let d = known(m, ip);
            &&& m.dom().contains(ip) <==> is_neighbour(arp.take(n), ip)
            &&& d.ip == ip
            &&& d.hostname is None
            &&& d.services.len() == 0
            &&& d.open_ports.len() == 0
            &&& !is_neighbour(arp.take(n), ip) ==> d.mac is None && d.vendor is None
            &&& forall|k: int|
                #![trigger last_neighbour(arp.take(n), ip, k)]
                last_neighbour(arp.take(n), ip, k) ==> d.mac == Some(arp[k].1) && d.vendor
                    == vendor_if_loaded(vendors, arp[k].1)
        }),
    decreases n,
{
    let t = arp.take(n);
    if n > 0 {
        lemma_neighbours(arp, vendors, n - 1, ip);
        let s = arp.take(n - 1);
        assert(t.drop_last() == s);
        if is_neighbour(s, ip) {
            let k = choose|k: int| 0 <= k < s.len() && (#[trigger] s[k]).0 == ip;
            assert(t[k] == s[k]);
        }
        if is_neighbour(t, ip) && arp[n - 1].0 != ip {
            let k = choose|k: int| 0 <= k < t.len() && (#[trigger] t[k]).0 == ip;
            assert(s[k] == t[k]);
        }
        assert(t[n - 1] == arp[n - 1]);
        assert forall|k: int| #[trigger] last_neighbour(t, ip, k) implies known(
            with_neighbours(Map::empty(), arp, vendors, n),
            ip,
        ).mac == Some(arp[k].1) && known(
            with_neighbours(Map::empty(), arp, vendors, n),
            ip,
        ).vendor == vendor_if_loaded(vendors, arp[k].1) by {
            if arp[n - 1].0 == ip {
                assert(k == n - 1);
            } else {
                assert(k < n - 1);
                assert(s[k] == t[k]);
                assert forall|j: int| k < j < s.len() implies (#[trigger] s[j]).0 != ip by {
                    assert(s[j] == t[j]);
                }
                assert(last_neighbour(s, ip, k));
            }
        }
    } else {
        assert(t.len() == 0);
    }
}

/// Whether a list of services holds `svc`, without the white space round it.
pub open spec fn offers(d: DeviceView, svc: Seq<char>) -> bool {
    d.services.contains(trimmed(svc))
}

proof fn lemma_facts(m: Map<u32, DeviceView>, seen: Seq<SeenView>, n: int, ip: u32)
    requires
        0 <= n <= seen.len(),
        known(m, ip).ip == ip,
        forall|i: int|
            0 <= i < seen.len() ==> (#[trigger] seen[i]).mac is None && seen[i].vendor is None,
    ensures
        ({
            let a = known(m, ip);
            let b = known(with_facts(m, seen, n), ip);
            &&& b.ip == ip
            &&& b.mac == a.mac
            &&& b.vendor == a.vendor
            &&& b.open_ports == a.open_ports
            &&& a.hostname is Some ==> b.hostname == a.hostname
            &&& with_facts(m, seen, n).dom().contains(ip) <==> (m.dom().contains(ip) || exists|
                i: int,
            |
                0 <= i < n && (#[trigger] seen[i]).ip == ip)
            &&& forall|i: int|
                0 <= i < n && (#[trigger] seen[i]).ip == ip && seen[i].service is Some && trimmed(
                    seen[i].service->0,
                ).len() > 0 ==> offers(b, seen[i].service->0)
            &&& forall|t: Seq<char>| #[trigger]
                a.services.contains(t) ==> b.services.contains(t)
            &&& forall|t: Seq<char>| #[trigger]
                b.services.contains(t) ==> a.services.contains(t) || exists|i: int|
                    0 <= i < n && (#[trigger] seen[i]).ip == ip && seen[i].service is Some
                        && trimmed(seen[i].service->0) == t
            &&& a.hostname is None ==> forall|i: int|
                0 <= i < n && (#[trigger] seen[i]).ip == ip && seen[i].hostname is Some && (
                forall|j: int|
                    0 <= j < i && (#[trigger] seen[j]).ip == ip ==> seen[j].hostname is None)
                    ==> b.hostname == seen[i].hostname
            &&& a.hostname is None && (forall|i: int|
                0 <= i < n && (#[trigger] seen[i]).ip == ip ==> seen[i].hostname is None)
                ==> b.hostname is None
        }),
    decreases n,
{
    if n > 0 {
        lemma_facts(m, seen, n - 1, ip);
        let c = known(with_facts(m, seen, n - 1), ip);
        let x = seen[n - 1];
        if x.ip == ip {
            let b = informed(c, x);
            assert(known(with_facts(m, seen, n), ip) == b);
            if x.service is Some {
                let t = trimmed(x.service->0);
                if t.len() > 0 && !c.services.contains(t) {
                    assert(b.services == c.services.push(t));
                    assert(b.services[c.services.len() as int] == t);
                    assert forall|u: Seq<char>| #[trigger] c.services.contains(u) implies
                        b.services.contains(u) by {
                        let k = choose|k: int| 0 <= k < c.services.len() && c.services[k] == u;
                        assert(b.services[k] == u);
                    }
                    assert forall|u: Seq<char>| #[trigger] b.services.contains(u) implies
                        c.services.contains(u) || u == t by {
                        let k = choose|k: int| 0 <= k < b.services.len() && b.services[k] == u;
                        if k < c.services.len() {
                            assert(c.services[k] == u);
                        }
                    }
                }
            }
        } else {
            assert(known(with_facts(m, seen, n), ip) == c);
        }
    }
}

proof fn lemma_device_of_list(list: Seq<DeviceView>, m: Map<u32, DeviceView>, i: int)
    requires
        lists(list, m),
        0 <= i < list.len(),
    ensures
        m.dom().contains(list[i].ip),
        known(m, list[i].ip) == list[i],
{
}

/// A device in the neighbour table carries the hardware address that the table gives it,
/// the last where there are several, and the manufacturer that is known for that
/// address.
pub proof fn neighbours_carry_their_vendor(
    list: Seq<DeviceView>,
    arp: Seq<(u32, Seq<char>)>,
    vendors: Option<Vendors>,
    mdns: Seq<MdnsHitView>,
    ssdp: Seq<SsdpHitView>,
    i: int,
    k: int,
)
    requires
        lists(list, fused(arp, vendors, mdns, ssdp)),
        0 <= i < list.len(),
        last_neighbour(arp, list[i].ip, k),
    ensures
        list[i].mac == Some(arp[k].1),
        vendors is Some && (vendors->0)@.dom().contains(arp[k].1) ==> list[i].vendor == Some(
            (vendors->0)@[arp[k].1],
        ),
        vendors is Some && !(vendors->0)@.dom().contains(arp[k].1) ==> list[i].vendor is None,
        vendors is None ==> list[i].vendor is None,
{
    let ip = list[i].ip;
    lemma_fused(arp, vendors, mdns, ssdp, ip);
    lemma_device_of_list(list, fused(arp, vendors, mdns, ssdp), i);
    lemma_neighbours(arp, vendors, arp.len() as int, ip);
    assert(arp.take(arp.len() as int) == arp);
    assert(last_neighbour(arp.take(arp.len() as int), ip, k));
}

/// The steps from the neighbour table to all that is known of an address.
proof fn lemma_fused(
    arp: Seq<(u32, Seq<char>)>,
    vendors: Option<Vendors>,
    mdns: Seq<MdnsHitView>,
    ssdp: Seq<SsdpHitView>,
    ip: u32,
)
    ensures
        ({
            let a = with_neighbours(Map::empty(), arp, vendors, arp.len() as int);
            let d = known(fused(arp, vendors, mdns, ssdp), ip);
            &&& d.ip == ip
            &&& d.mac == known(a, ip).mac
            &&& d.vendor == known(a, ip).vendor
            &&& d.open_ports.len() == 0
            &&& fused(arp, vendors, mdns, ssdp).dom().contains(ip) <==> (is_neighbour(arp, ip)
                || answered_mdns(mdns, ip) || answered_ssdp(ssdp, ip))
            &&& forall|j: int|
                0 <= j < mdns.len() && (#[trigger] mdns[j]).ip == ip && trimmed(
                    mdns[j].service,
                ).len() > 0 ==> offers(d, mdns[j].service)
            &&& forall|j: int|
                0 <= j < ssdp.len() && (#[trigger] ssdp[j]).ip == ip && trimmed(
                    ssdp[j].service,
                ).len() > 0 ==> offers(d, ssdp[j].service)
            &&& forall|t: Seq<char>| #[trigger]
                d.services.contains(t) ==> (exists|j: int|
                    0 <= j < mdns.len() && (#[trigger] mdns[j]).ip == ip && trimmed(
                        mdns[j].service,
                    ) == t) || (exists|j: int|
                    0 <= j < ssdp.len() && (#[trigger] ssdp[j]).ip == ip && trimmed(
                        ssdp[j].service,
                    ) == t)
            &&& forall|j: int|
                0 <= j < mdns.len() && (#[trigger] mdns[j]).ip == ip && mdns[j].hostname is Some
                    && (forall|l: int|
                    0 <= l < j && (#[trigger] mdns[l]).ip == ip ==> mdns[l].hostname is None)
                    ==> d.hostname == mdns[j].hostname
            &&& (forall|j: int|
                0 <= j < mdns.len() && (#[trigger] mdns[j]).ip == ip ==> mdns[j].hostname is None)
                ==> d.hostname is None
        }),
{
    let a = with_neighbours(Map::empty(), arp, vendors, arp.len() as int);
    let f = mdns_facts(mdns);
    let g = ssdp_facts(ssdp);
    let b = with_facts(a, f, mdns.len() as int);
    let c = with_facts(b, g, ssdp.len() as int);
    assert(arp.take(arp.len() as int) == arp);
    lemma_neighbours(arp, vendors, arp.len() as int, ip);
    lemma_facts(a, f, mdns.len() as int, ip);
    lemma_facts(b, g, ssdp.len() as int, ip);
    let d = known(c, ip);
    let e = known(b, ip);
    assert(c == fused(arp, vendors, mdns, ssdp));
    assert(b.dom().contains(ip) <==> is_neighbour(arp, ip) || answered_mdns(mdns, ip)) by {
        if answered_mdns(mdns, ip) {
            let k = choose|k: int| 0 <= k < mdns.len() && (#[trigger] mdns[k]).ip == ip;
            assert(f[k].ip == ip);
        }
        if b.dom().contains(ip) && !a.dom().contains(ip) {
            let k = choose|k: int| 0 <= k < mdns.len() && (#[trigger] f[k]).ip == ip;
            assert(mdns[k].ip == ip);
        }
    }
    assert(c.dom().contains(ip) <==> b.dom().contains(ip) || answered_ssdp(ssdp, ip)) by {
        if answered_ssdp(ssdp, ip) {
            let k = choose|k: int| 0 <= k < ssdp.len() && (#[trigger] ssdp[k]).ip == ip;
            assert(g[k].ip == ip);
        }
        if c.dom().contains(ip) && !b.dom().contains(ip) {
            let k = choose|k: int| 0 <= k < ssdp.len() && (#[trigger] g[k]).ip == ip;
            assert(ssdp[k].ip == ip);
        }
    }
    assert forall|j: int|
        0 <= j < mdns.len() && (#[trigger] mdns[j]).ip == ip && trimmed(mdns[j].service).len()
            > 0 implies offers(d, mdns[j].service) by {
        assert(f[j].ip == ip && f[j].service == Some(mdns[j].service));
        assert(offers(e, f[j].service->0));
    }
    assert forall|j: int|
        0 <= j < ssdp.len() && (#[trigger] ssdp[j]).ip == ip && trimmed(ssdp[j].service).len()
            > 0 implies offers(d, ssdp[j].service) by {
        assert(g[j].ip == ip && g[j].service == Some(ssdp[j].service));
        assert(offers(d, g[j].service->0));
    }
    assert forall|t: Seq<char>| #[trigger] d.services.contains(t) implies (exists|j: int|
        0 <= j < mdns.len() && (#[trigger] mdns[j]).ip == ip && trimmed(mdns[j].service) == t) || (
    exists|j: int|
        0 <= j < ssdp.len() && (#[trigger] ssdp[j]).ip == ip && trimmed(ssdp[j].service) == t) by {
        if e.services.contains(t) {
            let j = choose|j: int|
                0 <= j < mdns.len() && (#[trigger] f[j]).ip == ip && f[j].service is Some
                    && trimmed(f[j].service->0) == t;
            assert(mdns[j].ip == ip);
        } else {
            let j = choose|j: int|
                0 <= j < ssdp.len() && (#[trigger] g[j]).ip == ip && g[j].service is Some
                    && trimmed(g[j].service->0) == t;
            assert(ssdp[j].ip == ip);
        }
    }
    assert forall|j: int|
        0 <= j < mdns.len() && (#[trigger] mdns[j]).ip == ip && mdns[j].hostname is Some && (
        forall|l: int|
            0 <= l < j && (#[trigger] mdns[l]).ip == ip ==> mdns[l].hostname is None) implies
        d.hostname == mdns[j].hostname by {
        assert(f[j].ip == ip);
        assert forall|l: int| 0 <= l < j && (#[trigger] f[l]).ip == ip implies f[l].hostname
            is None by {
            assert(mdns[l].ip == ip);
        }
        assert(e.hostname == f[j].hostname);
    }
    if forall|j: int|
        0 <= j < mdns.len() && (#[trigger] mdns[j]).ip == ip ==> mdns[j].hostname is None {
        assert forall|l: int| 0 <= l < mdns.len() && (#[trigger] f[l]).ip == ip implies
            f[l].hostname is None by {
            assert(mdns[l].ip == ip);
        }
        assert(e.hostname is None);
        assert forall|l: int| 0 <= l < ssdp.len() && (#[trigger] g[l]).ip == ip implies
            g[l].hostname is None by {
        }
    }
}

/// A device that is not in the neighbour table has no hardware address, and so no
/// manufacturer.
pub proof fn strangers_carry_no_vendor(
    list: Seq<DeviceView>,
    arp: Seq<(u32, Seq<char>)>,
    vendors: Option<Vendors>,
    mdns: Seq<MdnsHitView>,
    ssdp: Seq<SsdpHitView>,
    i: int,
)
    requires
        lists(list, fused(arp, vendors, mdns, ssdp)),
        0 <= i < list.len(),
        !is_neighbour(arp, list[i].ip),
    ensures
        list[i].mac is None,
        list[i].vendor is None,
{
    let ip = list[i].ip;
    lemma_fused(arp, vendors, mdns, ssdp, ip);
    lemma_device_of_list(list, fused(arp, vendors, mdns, ssdp), i);
    lemma_neighbours(arp, vendors, arp.len() as int, ip);
    assert(arp.take(arp.len() as int) == arp);
}

/// The devices are those that any of the sources knows, each once, in the order of
/// their addresses.
pub proof fn every_source_is_listed(
    list: Seq<DeviceView>,
    arp: Seq<(u32, Seq<char>)>,
    vendors: Option<Vendors>,
    mdns: Seq<MdnsHitView>,
    ssdp: Seq<SsdpHitView>,
    ip: u32,
)
    requires
        lists(list, fused(arp, vendors, mdns, ssdp)),
    ensures
        (exists|i: int| 0 <= i < list.len() && (#[trigger] list[i]).ip == ip) <==> (is_neighbour(
            arp,
            ip,
        ) || answered_mdns(mdns, ip) || answered_ssdp(ssdp, ip)),
        forall|i: int, j: int|
            0 <= i < j < list.len() ==> (#[trigger] list[i]).ip < (#[trigger] list[j]).ip,
{
    lemma_fused(arp, vendors, mdns, ssdp, ip);
}

/// A device goes by the first name that it gave over mDNS, and by none where it gave
/// none.
pub proof fn devices_go_by_their_first_name(
    list: Seq<DeviceView>,
    arp: Seq<(u32, Seq<char>)>,
    vendors: Option<Vendors>,
    mdns: Seq<MdnsHitView>,
    ssdp: Seq<SsdpHitView>,
    i: int,
    j: int,
)
    requires
        lists(list, fused(arp, vendors, mdns, ssdp)),
        0 <= i < list.len(),
    ensures
        0 <= j < mdns.len() && mdns[j].ip == list[i].ip && mdns[j].hostname is Some && (forall|
            l: int,
        |
            0 <= l < j && (#[trigger] mdns[l]).ip == list[i].ip ==> mdns[l].hostname is None)
            ==> list[i].hostname == mdns[j].hostname,
        (forall|l: int|
            0 <= l < mdns.len() && (#[trigger] mdns[l]).ip == list[i].ip ==> mdns[l].hostname
                is None) ==> list[i].hostname is None,
{
    lemma_fused(arp, vendors, mdns, ssdp, list[i].ip);
    lemma_device_of_list(list, fused(arp, vendors, mdns, ssdp), i);
}

/// The services of a device are those that it answered with, over mDNS or SSDP, without
/// the white space round them, and no others; no port is known to be open before one
/// was tried.
pub proof fn services_are_those_answered(
    list: Seq<DeviceView>,
    arp: Seq<(u32, Seq<char>)>,
    vendors: Option<Vendors>,
    mdns: Seq<MdnsHitView>,
    ssdp: Seq<SsdpHitView>,
    i: int,
    t: Seq<char>,
)
    requires
        lists(list, fused(arp, vendors, mdns, ssdp)),
        0 <= i < list.len(),
    ensures
        forall|j: int|
            0 <= j < mdns.len() && (#[trigger] mdns[j]).ip == list[i].ip && trimmed(
                mdns[j].service,
            ) == t && t.len() > 0 ==> list[i].services.contains(t),
        forall|j: int|
            0 <= j < ssdp.len() && (#[trigger] ssdp[j]).ip == list[i].ip && trimmed(
                ssdp[j].service,
            ) == t && t.len() > 0 ==> list[i].services.contains(t),
        list[i].services.contains(t) ==> (exists|j: int|
            0 <= j < mdns.len() && (#[trigger] mdns[j]).ip == list[i].ip && trimmed(
                mdns[j].service,
            ) == t) || (exists|j: int|
            0 <= j < ssdp.len() && (#[trigger] ssdp[j]).ip == list[i].ip && trimmed(
                ssdp[j].service,
            ) == t),
        list[i].open_ports.len() == 0,
{
    lemma_fused(arp, vendors, mdns, ssdp, list[i].ip);
    lemma_device_of_list(list, fused(arp, vendors, mdns, ssdp), i);
    let d = list[i];
    assert forall|j: int|
        0 <= j < mdns.len() && (#[trigger] mdns[j]).ip == d.ip && trimmed(mdns[j].service) == t
            && t.len() > 0 implies d.services.contains(t) by {
        assert(offers(d, mdns[j].service));
    }
    assert forall|j: int|
        0 <= j < ssdp.len() && (#[trigger] ssdp[j]).ip == d.ip && trimmed(ssdp[j].service) == t
            && t.len() > 0 implies d.services.contains(t) by {
        assert(offers(d, ssdp[j].service));
    }
}

// ---- the neighbour table -------------------------------------------------------------------

proof fn lemma_bare_hex(s: Seq<char>)
    requires
        s.len() < 2 || s[1] != 'x',
    ensures
        bare_hex(seq!['0', 'x'] + s) == s,
{
    let t = seq!['0', 'x'] + s;
    assert(t[0] == '0' && t[1] == 'x');
    assert(t.skip(2) == s);
    assert(bare_hex(s) == s);
}

/// A row of the table is a neighbour exactly where the flag that marks a complete entry is
/// set and the hardware address is not all noughts: the one at the address in its
/// first column, with the hardware address in its fourth in small letters.
pub proof fn complete_rows_are_neighbours(
    row: Seq<char>,
    ip: u32,
    flags: Seq<char>,
    n: nat,
)
    requires
        words(row).len() >= 4,
        words(row)[0] == dotted(ip),
        words(row)[2] == seq!['0', 'x'] + flags,
        flags.len() > 0,
        digits_value(flags, 16) == Some(n),
        n <= 0xffff_ffff,
        flags[0] != '+',
        flags.len() < 2 || flags[1] != 'x',
    ensures
        n % 4 >= 2 && lowered(words(row)[3]) != "00:00:00:00:00:00"@ ==> arp_row(row) == Some(
            (ip, lowered(words(row)[3])),
        ),
        n % 4 < 2 ==> arp_row(row) is None,
        lowered(words(row)[3]) == "00:00:00:00:00:00"@ ==> arp_row(row) is None,
{
    let f = words(row);
    lemma_bare_hex(flags);
    dotted_round_trip(ip);
    lemma_second_bit(n);
    assert(parsed(bare_hex(f[2]), 16, 0xffff_ffff) == Some(n));
    assert(undotted(f[0]) == Some(ip));
}

proof fn lemma_second_bit(n: nat)
    ensures
        (n / 2) % 2 == 0 <==> n % 4 < 2,
{
}

/// A row with less than four columns is no neighbour.
pub proof fn short_rows_are_no_neighbours(row: Seq<char>)
    requires
        words(row).len() < 4,
    ensures
        arp_row(row) is None,
{
}

/// Each row that is a neighbour is one, in the order of the rows.
pub proof fn neighbours_stand_in_the_order_of_rows(rows: Seq<Seq<char>>, row: Seq<char>)
    ensures
        ({
            let n = rows.len() as int;
            let more = arp_rows(rows.push(row), n + 1);
            &&& arp_rows(Seq::<Seq<char>>::empty(), 0).len() == 0
            &&& arp_row(row) is Some ==> more == arp_rows(rows, n).push(arp_row(row)->0)
            &&& arp_row(row) is None ==> more == arp_rows(rows, n)
        }),
{
    lemma_same_rows(rows, rows.push(row), rows.len() as int);
}

proof fn lemma_same_rows(a: Seq<Seq<char>>, b: Seq<Seq<char>>, n: int)
    requires
        0 <= n <= a.len(),
        n <= b.len(),
        forall|i: int| 0 <= i < n ==> a[i] == b[i],
    ensures
        arp_rows(a, n) == arp_rows(b, n),
    decreases n,
{
    if n > 0 {
        lemma_same_rows(a, b, n - 1);
        assert(a[n - 1] == b[n - 1]);
    }
}

/// The heading of the table is no row of it, whatever it says.
pub proof fn the_heading_is_skipped(a: Seq<char>, b: Seq<char>, rest: Seq<char>)
    requires
        free_of(a, '\n'),
        free_of(b, '\n'),
    ensures
        arp_table(a + seq!['\n'] + rest) == arp_table(b + seq!['\n'] + rest),
{
    the_first_piece_stands_in_front(a, '\n', rest);
    the_first_piece_stands_in_front(b, '\n', rest);
    crate::text::lemma_pieces_nonempty(rest, '\n');
    let p = lines_of(a + seq!['\n'] + rest);
    let q = lines_of(b + seq!['\n'] + rest);
    let r = pieces(rest, '\n');
    assert((seq![a] + r).last() == r.last());
    assert((seq![b] + r).last() == r.last());
    assert(p.len() == q.len() && p.len() > 0);
    assert(p.drop_first() =~= q.drop_first());
}

// ---- mDNS -----------------------------------------------------------------------------------

proof fn lemma_before_protocol(n: Seq<char>, rest: Seq<char>)
    requires
        free_of(n, '.'),
    ensures
        before_protocol(n + seq!['.', '_'] + rest) == n,
        before_protocol(n) == n,
    decreases n.len(),
{
    let s = n + seq!['.', '_'] + rest;
    if n.len() > 0 {
        let m = n.drop_first();
        assert(s[0] == n[0]);
        assert(s.drop_first() == m + seq!['.', '_'] + rest);
        assert forall|i: int| 0 <= i < m.len() implies #[trigger] m[i] != '.' by {
            assert(m[i] == n[i + 1]);
        }
        lemma_before_protocol(m, rest);
        assert(seq![n[0]] + m == n);
    } else {
        assert(s[0] == '.' && s[1] == '_');
    }
}

/// A service goes by its name, without the mark before it and the protocol behind it.
pub proof fn services_go_by_their_name(n: Seq<char>, rest: Seq<char>)
    requires
        free_of(n, '.'),
        n.len() > 0,
        n[0] != '_',
    ensures
        service_name(seq!['_'] + n + seq!['.', '_'] + rest) == n,
        service_name(n) == n,
{
    let t = n + seq!['.', '_'] + rest;
    let s = seq!['_'] + n + seq!['.', '_'] + rest;
    lemma_before_protocol(n, rest);
    assert(t[0] == n[0]);
    assert(s[0] == '_');
    assert(s.drop_first() == t);
    assert(without_leading(t, '_') == t);
    assert(without_leading(s, '_') == t);
    assert(without_leading(n, '_') == n);
}

/// A host goes by its name without the dot that ends it, and by none where nothing is
/// left.
pub proof fn hosts_go_by_their_name(h: Seq<char>)
    requires
        h.len() > 0,
        h.last() != '.',
    ensures
        host_name(h) == Some(h),
        host_name(h.push('.')) == Some(h),
        host_name(seq!['.']) is None,
        host_name(seq![]) is None,
{
    assert(h.push('.').drop_last() == h);
    assert(without_trailing(h, '.') == h);
    assert(without_trailing(h.push('.'), '.') == h);
    let dot = seq!['.'];
    assert(dot.drop_last() == Seq::<char>::empty());
    assert(without_trailing(dot.drop_last(), '.') == Seq::<char>::empty());
}

// ---- SSDP -----------------------------------------------------------------------------------

/// A header goes by its name, in capitals or not, and its value is what stands behind the
/// colon, without the white space round it.
pub proof fn headers_go_by_their_name(
    name: Seq<char>,
    n: Seq<char>,
    a: Seq<char>,
    v: Seq<char>,
    b: Seq<char>,
)
    requires
        free_of(n, ':'),
        tight(n),
        blank(a),
        tight(v),
        blank(b),
    ensures
        is_header(n + seq![':'] + (a + v + b), name) <==> lowered(n) == lowered(name),
        header_of(n + seq![':'] + (a + v + b)) == v,
{
    let e = Seq::<char>::empty();
    let rest = a + v + b;
    let line = n + seq![':'] + rest;
    first_place_is_found(n, ':', rest);
    assert(line.take(n.len() as int) == n);
    assert(line.skip(n.len() as int + 1) == rest);
    trimming_takes_the_ends(e, n, e);
    assert(e + n + e == n);
    trimming_takes_the_ends(a, v, b);
}

/// The first header of a name counts.
pub proof fn the_first_header_counts(rows: Seq<Seq<char>>, name: Seq<char>, k: int)
    requires
        0 <= k < rows.len(),
        is_header(rows[k], name),
        forall|i: int| 0 <= i < k ==> !is_header(#[trigger] rows[i], name),
    ensures
        header_from(rows, name, 0) == Some(header_of(rows[k])),
{
    lemma_header(rows, name, k, 0);
}

proof fn lemma_header(rows: Seq<Seq<char>>, name: Seq<char>, k: int, from: int)
    requires
        0 <= from <= k < rows.len(),
        is_header(rows[k], name),
        forall|i: int| 0 <= i < k ==> !is_header(#[trigger] rows[i], name),
    ensures
        header_from(rows, name, from) == Some(header_of(rows[k])),
    decreases k - from,
{
    if from < k {
        lemma_header(rows, name, k, from + 1);
    }
}

/// Where no line is the header, there is none.
pub proof fn missing_headers_are_not_found(rows: Seq<Seq<char>>, name: Seq<char>, from: int)
    requires
        0 <= from <= rows.len(),
        forall|i: int| 0 <= i < rows.len() ==> !is_header(#[trigger] rows[i], name),
    ensures
        header_from(rows, name, from) is None,
    decreases rows.len() - from,
{
    if from < rows.len() {
        missing_headers_are_not_found(rows, name, from + 1);
    }
}

proof fn lemma_announced(parts: Seq<Seq<char>>, k: int, from: int)
    requires
        0 <= from <= k < parts.len(),
        parts[k] == "device"@ || parts[k] == "service"@,
        forall|i: int|
            0 <= i < k ==> #[trigger] parts[i] != "device"@ && parts[i] != "service"@,
    ensures
        announced(parts, from) == Some(k),
    decreases k - from,
{
    if from < k {
        lemma_announced(parts, k, from + 1);
    }
}

proof fn lemma_not_announced(parts: Seq<Seq<char>>, from: int)
    requires
        0 <= from <= parts.len(),
        forall|i: int|
            0 <= i < parts.len() ==> #[trigger] parts[i] != "device"@ && parts[i] != "service"@,
    ensures
        announced(parts, from) is None,
    decreases parts.len() - from,
{
    if from < parts.len() {
        lemma_not_announced(parts, from + 1);
    }
}

/// A target goes by what stands behind the word that says whether it is a device or a
/// service.
pub proof fn targets_go_by_what_they_are(parts: Seq<Seq<char>>, k: int)
    requires
        0 <= k,
        k + 1 < parts.len(),
        forall|i: int| 0 <= i < parts.len() ==> free_of(#[trigger] parts[i], ':'),
        parts[k] == "device"@ || parts[k] == "service"@,
        forall|i: int|
            0 <= i < k ==> #[trigger] parts[i] != "device"@ && parts[i] != "service"@,
    ensures
        target_name(joined(parts, seq![':'])) == parts[k + 1],
{
    split_undoes_join(parts, ':');
    lemma_announced(parts, k, 0);
}

/// Any other target goes by its last part, unless that is a long identifier.
pub proof fn other_targets_go_by_their_last_part(parts: Seq<Seq<char>>)
    requires
        parts.len() > 0,
        forall|i: int| 0 <= i < parts.len() ==> free_of(#[trigger] parts[i], ':'),
        forall|i: int|
            0 <= i < parts.len() ==> #[trigger] parts[i] != "device"@ && parts[i] != "service"@,
        !parts.last().contains('-'),
    ensures
        target_name(joined(parts, seq![':'])) == parts.last(),
{
    split_undoes_join(parts, ':');
    lemma_not_announced(parts, 0);
}

/// A device that answers goes by its target, or by its server where the target says
/// nothing, and by a word where neither does.
pub proof fn answers_go_by_their_target(text: Seq<char>, st: Seq<char>, server: Seq<char>)
    ensures
        header_value(text, "ST"@) == Some(st) && target_name(st).len() > 0 ==> response_label(text)
            == target_name(st),
        header_value(text, "ST"@) is None && header_value(text, "SERVER"@) == Some(server)
            ==> response_label(text) == server,
        header_value(text, "ST"@) is None && header_value(text, "SERVER"@) is None
            ==> response_label(text) == "upnp"@,
        header_value(text, "ST"@) == Some(st) && target_name(st).len() == 0 && header_value(
            text,
            "SERVER"@,
        ) == Some(server) ==> response_label(text) == server,
{
}

// ---- hardware addresses -----------------------------------------------------------------------

/// The first octet of a hardware address tells its kind: the lowest bit that it is a
/// group's, the next that it was made up on the spot.
pub proof fn the_first_octet_tells_the_kind(s: Seq<char>, n: nat, rest: Seq<char>)
    requires
        s.len() == 2,
        digits_value(s, 16) == Some(n),
    ensures
        n % 2 == 1 <==> classified(s + seq![':'] + rest) == Some(Kind::Group),
        n % 4 == 2 <==> classified(s + seq![':'] + rest) == Some(Kind::Local),
        n % 4 == 0 <==> classified(s + seq![':'] + rest) == Some(Kind::Universal),
{
    let stops = seq![':', '-'];
    assert(stops[0] == ':' && stops[1] == '-');
    assert(stops.contains(':'));
    assert(s.drop_last().len() == 1);
    assert(digits_value(s.drop_last(), 16) == digit_value(s[0], 16));
    assert(digit_value(s[0], 16) is Some && digit_value(s[1], 16) is Some);
    assert(s.last() == s[1]);
    let (x, y) = (digit_value(s[0], 16)->0, digit_value(s[1], 16)->0);
    assert(n == x * 16 + y);
    assert forall|i: int| 0 <= i < s.len() implies !stops.contains(#[trigger] s[i]) by {
        if stops.contains(s[i]) {
            let j = choose|j: int| 0 <= j < stops.len() && stops[j] == s[i];
            assert(j == 0 || j == 1);
        }
    }
    the_stretch_before_a_stop(s, ':', rest, stops);
    let e = Seq::<char>::empty();
    trimming_takes_the_ends(e, s, e);
    assert(e + s + e == s);
}

/// A device goes by its manufacturer; one without goes by the kind of its address.
pub proof fn vendors_are_shown(d: DeviceView, vendor: Seq<char>)
    ensures
        d.vendor == Some(vendor) ==> vendor_text(d) == vendor,
        d.vendor is None && d.mac is None ==> vendor_text(d) == "?"@,
        d.vendor is None && d.mac is Some && classified(d.mac->0) == Some(Kind::Local)
            ==> vendor_text(d) == "random"@,
        d.vendor is None && d.mac is Some && classified(d.mac->0) == Some(Kind::Group)
            ==> vendor_text(d) == "multicast"@,
        d.vendor is None && d.mac is Some && classified(d.mac->0) == Some(Kind::Universal)
            ==> vendor_text(d) == "?"@,
{
}

/// What is seen of a device adds to what is known: a hardware address and a manufacturer
/// replace the old ones, a first name stays, and a service comes behind the others.
pub proof fn sightings_add_to_what_is_known(d: DeviceView, seen: SeenView)
    ensures
        informed(d, seen).ip == d.ip,
        seen.mac is Some ==> informed(d, seen).mac == seen.mac,
        seen.mac is None ==> informed(d, seen).mac == d.mac,
        seen.vendor is Some ==> informed(d, seen).vendor == seen.vendor,
        seen.vendor is None ==> informed(d, seen).vendor == d.vendor,
        d.hostname is Some ==> informed(d, seen).hostname == d.hostname,
        d.hostname is None ==> informed(d, seen).hostname == seen.hostname,
        seen.service is None ==> informed(d, seen).services == d.services,
        informed(d, seen).open_ports == d.open_ports,
{
}

/// A new service comes behind the others, without the white space round it; one that is
/// known already, or that is nothing but white space, adds nothing.
pub proof fn services_come_behind_the_others(
    services: Seq<Seq<char>>,
    a: Seq<char>,
    t: Seq<char>,
    b: Seq<char>,
)
    requires
        blank(a),
        tight(t),
        blank(b),
    ensures
        t.len() > 0 && !services.contains(t) ==> with_service(services, a + t + b)
            == services.push(t),
        services.contains(t) ==> with_service(services, a + t + b) == services,
        t.len() == 0 ==> with_service(services, a + t + b) == services,
{
    trimming_takes_the_ends(a, t, b);
}

// ---- the networks -----------------------------------------------------------------------------

/// The bits of a mask are counted.
pub proof fn bits_are_counted(n: nat)
    ensures
        ones(2 * n) == ones(n),
        ones(2 * n + 1) == ones(n) + 1,
        ones(0) == 0,
{
    assert((2 * n) / 2 == n);
    assert((2 * n + 1) / 2 == n);
}

/// Every address between that of the network and that of the broadcast is swept, and
/// neither of the two, as long as there are not more than 4096.
pub proof fn every_host_is_swept(net: u32, mask: u32, a: u32)
    requires
        net < 0xffff_ffff,
        (net | !mask) - net - 1 <= 4096,
    ensures
        net < a < (net | !mask) <==> hosts_of(net, mask).contains(Ipv4Addr { bits: a }),
{
    let h = hosts_of(net, mask);
    let last = net | !mask;
    assert(first_host(net) == net + 1);
    if net < a && a < last {
        let i = a - net - 1;
        assert(h[i] == Ipv4Addr { bits: a });
    }
    if h.contains(Ipv4Addr { bits: a }) {
        let i = choose|i: int| 0 <= i < h.len() && h[i] == Ipv4Addr { bits: a };
        assert(h[i].bits == (net + 1 + i) as u32);
    }
}

/// A wide network is swept from its first host, 4096 hosts and no more.
pub proof fn wide_networks_are_cut_short(net: u32, mask: u32)
    requires
        net < 0xffff_ffff,
        (net | !mask) - net - 1 > 4096,
    ensures
        hosts_of(net, mask).len() == 4096,
        hosts_of(net, mask)[0].bits == net + 1,
{
}

/// An interface is swept where it is neither the loopback nor made by software and its
/// prefix has from 16 to 30 bits; its network is the part of its address under the mask.
pub proof fn real_networks_are_swept(i: Interface, addr: Ipv4Addr, mask: Ipv4Addr)
    requires
        i.v4 == Some((addr, mask)),
    ensures
        swept(i) is Some <==> !i.is_loopback && !is_virtual_name(i.name@) && 16 <= ones(
            mask.bits as nat,
        ) <= 30,
        swept(i) is Some ==> (swept(i)->0).cidr == dotted(addr.bits & mask.bits) + seq!['/']
            + decimal(ones(mask.bits as nat)),
        swept(i) is Some ==> (swept(i)->0).hosts == hosts_of(addr.bits & mask.bits, mask.bits),
{
}

/// Interfaces that software makes are told by the beginning of their name, and those of
/// cables and radio are none of them.
pub proof fn virtual_interfaces_are_told_by_name(x: Seq<char>)
    ensures
        is_virtual_name("docker"@ + x),
        is_virtual_name("br-"@ + x),
        is_virtual_name("veth"@ + x),
        is_virtual_name("virbr"@ + x),
        is_virtual_name("vmnet"@ + x),
        is_virtual_name("tailscale"@ + x),
        is_virtual_name("tun"@ + x),
        is_virtual_name("tap"@ + x),
        is_virtual_name("wg"@ + x),
        is_virtual_name("zt"@ + x),
        is_virtual_name("podman"@ + x),
        is_virtual_name("cni"@ + x),
        is_virtual_name("flannel"@ + x),
        is_virtual_name("kube"@ + x),
        is_virtual_name("lxc"@ + x),
        is_virtual_name("lxd"@ + x),
        !is_virtual_name("eth"@ + x),
        !is_virtual_name("en"@ + x),
        !is_virtual_name("wl"@ + x),
{
    assert(("docker"@ + x).take("docker"@.len() as int) == "docker"@);
    assert(("br-"@ + x).take("br-"@.len() as int) == "br-"@);
    assert(("veth"@ + x).take("veth"@.len() as int) == "veth"@);
    assert(("virbr"@ + x).take("virbr"@.len() as int) == "virbr"@);
    assert(("vmnet"@ + x).take("vmnet"@.len() as int) == "vmnet"@);
    assert(("tailscale"@ + x).take("tailscale"@.len() as int) == "tailscale"@);
    assert(("tun"@ + x).take("tun"@.len() as int) == "tun"@);
    assert(("tap"@ + x).take("tap"@.len() as int) == "tap"@);
    assert(("wg"@ + x).take("wg"@.len() as int) == "wg"@);
    assert(("zt"@ + x).take("zt"@.len() as int) == "zt"@);
    assert(("podman"@ + x).take("podman"@.len() as int) == "podman"@);
    assert(("cni"@ + x).take("cni"@.len() as int) == "cni"@);
    assert(("flannel"@ + x).take("flannel"@.len() as int) == "flannel"@);
    assert(("kube"@ + x).take("kube"@.len() as int) == "kube"@);
    assert(("lxc"@ + x).take("lxc"@.len() as int) == "lxc"@);
    assert(("lxd"@ + x).take("lxd"@.len() as int) == "lxd"@);
    reveal_strlit("eth");
    reveal_strlit("en");
    reveal_strlit("wl");
    lemma_no_virtual_name("eth"@ + x);
    lemma_no_virtual_name("en"@ + x);
    lemma_no_virtual_name("wl"@ + x);
}

proof fn lemma_begins(s: Seq<char>, p: Seq<char>, i: int)
    requires
        0 <= i < p.len(),
        s.len() > i,
        s[i] != p[i],
    ensures
        !has_prefix(s, p),
{
    if has_prefix(s, p) {
        assert(s.take(p.len() as int)[i] == s[i]);
    }
}

proof fn lemma_no_virtual_name(s: Seq<char>)
    requires
        s.len() >= 2,
        s[0] == 'e' || (s[0] == 'w' && s[1] == 'l'),
    ensures
        !is_virtual_name(s),
{
    reveal_strlit("docker");
    reveal_strlit("br-");
    reveal_strlit("veth");
    reveal_strlit("virbr");
    reveal_strlit("vmnet");
    reveal_strlit("tailscale");
    reveal_strlit("tun");
    reveal_strlit("tap");
    reveal_strlit("wg");
    reveal_strlit("zt");
    reveal_strlit("podman");
    reveal_strlit("cni");
    reveal_strlit("flannel");
    reveal_strlit("kube");
    reveal_strlit("lxc");
    reveal_strlit("lxd");
    lemma_begins(s, "docker"@, 0);
    lemma_begins(s, "br-"@, 0);
    lemma_begins(s, "veth"@, 0);
    lemma_begins(s, "virbr"@, 0);
    lemma_begins(s, "vmnet"@, 0);
    lemma_begins(s, "tailscale"@, 0);
    lemma_begins(s, "tun"@, 0);
    lemma_begins(s, "tap"@, 0);
    if s[0] == 'w' {
        lemma_begins(s, "wg"@, 1);
    } else {
        lemma_begins(s, "wg"@, 0);
    }
    lemma_begins(s, "zt"@, 0);
    lemma_begins(s, "podman"@, 0);
    lemma_begins(s, "cni"@, 0);
    lemma_begins(s, "flannel"@, 0);
    lemma_begins(s, "kube"@, 0);
    lemma_begins(s, "lxc"@, 0);
    lemma_begins(s, "lxd"@, 0);
}

// ---- the cache ----------------------------------------------------------------------------------

/// A device with a hardware address is stored under it, with what is known of it; one
/// without is not stored.
pub proof fn devices_are_stored_by_hardware_address(d: DeviceView)
    ensures
        d.mac is None ==> row_for(d) is None,
        d.mac is Some ==> (row_for(d) matches Some(r) && r.mac == d.mac->0 && r.ip == dotted(d.ip)
            && r.vendor == d.vendor && r.hostname == d.hostname),
{
}

/// Each row with a readable address is restored, in the order of the rows, with what it
/// holds; the others are passed over.
pub proof fn rows_are_restored_in_order(rows: Seq<StoredView>, row: StoredView, ip: u32)
    ensures
        ({
            let n = rows.len() as int;
            let more = all_restored(rows.push(row), n + 1);
            &&& row.ip == dotted(ip) ==> (restored(row) matches Some(c) && c.ip == ip && c.mac
                == row.mac && c.vendor == row.vendor && c.hostname == row.hostname)
            &&& restored(row) is Some ==> more == all_restored(rows, n).push(restored(row)->0)
            &&& restored(row) is None ==> more == all_restored(rows, n)
            &&& all_restored(Seq::<StoredView>::empty(), 0).len() == 0
        }),
{
    dotted_round_trip(ip);
    lemma_same_restored(rows, rows.push(row), rows.len() as int);
}

proof fn lemma_same_restored(a: Seq<StoredView>, b: Seq<StoredView>, n: int)
    requires
        0 <= n <= a.len(),
        n <= b.len(),
        forall|i: int| 0 <= i < n ==> a[i] == b[i],
    ensures
        all_restored(a, n) == all_restored(b, n),
    decreases n,
{
    if n > 0 {
        lemma_same_restored(a, b, n - 1);
        assert(a[n - 1] == b[n - 1]);
    }
}

/// A device from the cache is known as it was stored, with no port tried yet.
pub proof fn cached_devices_are_known_as_stored(c: CachedView)
    ensures
        revived(c).ip == c.ip,
        revived(c).mac == Some(c.mac),
        revived(c).vendor == c.vendor,
        revived(c).hostname == c.hostname,
        revived(c).services == c.services,
        revived(c).open_ports.len() == 0,
{
}

/// The devices of the cache are known at the start, each under its address, the last row
/// of an address counting, and every other device stays.
pub proof fn the_cache_is_known_at_the_start(
    devices: Map<u32, EntryView>,
    cached: Seq<CachedView>,
    n: int,
    seen: u64,
    ip: u32,
)
    requires
        0 <= n <= cached.len(),
    ensures
        forall|k: int|
            #![trigger cached[k]]
            0 <= k < n && cached[k].ip == ip && (forall|j: int|
                k < j < n ==> (#[trigger] cached[j]).ip != ip) ==> seeded(
                devices,
                cached,
                n,
                seen,
            ).dom().contains(ip) && seeded(devices, cached, n, seen)[ip].device == revived(
                cached[k],
            ) && seeded(devices, cached, n, seen)[ip].last_seen == seen,
        (forall|k: int| 0 <= k < n ==> (#[trigger] cached[k]).ip != ip) ==> (seeded(
            devices,
            cached,
            n,
            seen,
        ).dom().contains(ip) <==> devices.dom().contains(ip)) && seeded(
            devices,
            cached,
            n,
            seen,
        )[ip] == devices[ip],
    decreases n,
{
    if n > 0 {
        the_cache_is_known_at_the_start(devices, cached, n - 1, seen, ip);
        assert(cached[n - 1] == cached[n - 1]);
    }
}

// ---- the picker -----------------------------------------------------------------------------------

/// What a key does with the selected device: Enter opens it in the browser, Ctrl-S
/// connects to it, Ctrl-Y copies its address and Tab tries its ports.
pub proof fn keys_act_on_the_selected_device(s: StateView, i: usize, key: KeyEvent, now: u64)
    requires
        s.selected == Some(i),
        i < s.results.len(),
        key.kind == KeyEventKind::Press,
    ensures
        ({
            let ip = s.results[i as int].device.ip;
            let step = after_command(s, command(key, s.line.text().len() == 0), now).1;
            &&& key.code == KeyCode::Enter ==> step == StepView::OpenUrl("http://"@ + dotted(ip))
            &&& key.code == KeyCode::Tab ==> step == StepView::ScanPorts(ip)
            &&& key.code == KeyCode::Char('s') && key.ctrl ==> step == StepView::Ssh(ip)
            &&& key.code == KeyCode::Char('y') && key.ctrl ==> step == StepView::Copy(ip)
            &&& key.code == KeyCode::Esc ==> step == StepView::Quit
            &&& key.code == KeyCode::Char('c') && key.ctrl ==> step == StepView::Quit
        }),
{
}

/// Keys leave what is known of the devices; without a device to act on they do nothing
/// outside the picker; and only a press is a key.
pub proof fn keys_leave_the_devices(s: StateView, key: KeyEvent, now: u64)
    ensures
        ({
            let (t, step) = after_command(s, command(key, s.line.text().len() == 0), now);
            &&& t.devices == s.devices
            &&& t.results == s.results
            &&& s.selected is None ==> step is Continue || step is Quit
            &&& key.kind != KeyEventKind::Press ==> t == s && step is Continue
        }),
{
}

/// A letter without a modifier is typed into the search.
pub proof fn plain_letters_are_typed(s: StateView, key: KeyEvent, c: char, now: u64)
    requires
        key.kind == KeyEventKind::Press,
        key.code == KeyCode::Char(c),
        !key.ctrl,
    ensures
        ({
            let (t, step) = after_command(s, command(key, s.line.text().len() == 0), now);
            &&& step is Continue
            &&& t.line.text() == s.line.before + seq![c] + s.line.after
            &&& t.selected == s.selected
        }),
{
    assert(s.line.before.push(c) + s.line.after == s.line.before + seq![c] + s.line.after);
}

/// Devices stand in the order of their addresses; in a search the one that the matcher
/// scores higher stands first.
pub proof fn devices_stand_in_order(
    results: Seq<EntryView>,
    devices: Map<u32, EntryView>,
    q: Seq<char>,
    i: int,
    j: int,
)
    requires
        is_listing(results, devices, q),
        0 <= i < results.len(),
        0 <= j < results.len(),
    ensures
        q.len() == 0 && results[i].device.ip < results[j].device.ip ==> i < j,
        q.len() > 0 && score_of(q, search_text(results[i].device))->0 > score_of(
            q,
            search_text(results[j].device),
        )->0 ==> i < j,
        q.len() > 0 && score_of(q, search_text(results[i].device))->0 == score_of(
            q,
            search_text(results[j].device),
        )->0 && results[i].device.ip < results[j].device.ip ==> i < j,
{
    if j < i {
        assert(listed_before(q, results[j].device, results[i].device));
    }
}

/// The list holds what is known and found, all of it and nothing else.
pub proof fn the_list_holds_what_is_found(
    results: Seq<EntryView>,
    devices: Map<u32, EntryView>,
    q: Seq<char>,
    ip: u32,
)
    requires
        is_listing(results, devices, q),
        devices.dom().contains(ip),
        devices[ip].device.ip == ip,
    ensures
        (q.len() == 0 || score_of(q, search_text(devices[ip].device)) is Some) <==> exists|i: int|
            0 <= i < results.len() && (#[trigger] results[i]) == devices[ip],
{
    if q.len() == 0 || score_of(q, search_text(devices[ip].device)) is Some {
        let i = choose|i: int| 0 <= i < results.len() && (#[trigger] results[i]).device.ip == ip;
        assert(results[i] == devices[ip]);
    } else if exists|i: int| 0 <= i < results.len() && (#[trigger] results[i]) == devices[ip] {
        let i = choose|i: int| 0 <= i < results.len() && (#[trigger] results[i]) == devices[ip];
        assert(results[i].device.ip == ip);
    }
}

/// A search looks at the address of a device and at its name.
pub proof fn searches_look_at_address_and_name(d: DeviceView, mac: Seq<char>, host: Seq<char>)
    requires
        d.services.len() == 0,
        d.vendor is None,
        d.mac is None,
        d.hostname is None,
    ensures
        search_text(d) == dotted(d.ip),
        search_text(DeviceView { hostname: Some(host), ..d }) == dotted(d.ip) + seq![' '] + host,
        forall|v: Seq<char>|
            v != "?"@ ==> #[trigger] search_text(DeviceView { vendor: Some(v), ..d }) == dotted(
                d.ip,
            ) + seq![' '] + v,
        forall|t: Seq<char>| #[trigger]
            search_text(DeviceView { services: seq![t], ..d }) == dotted(d.ip) + seq![' '] + t,
{
    assert(search_text(d) =~= dotted(d.ip));
    assert(search_text(DeviceView { hostname: Some(host), ..d }) =~= dotted(d.ip) + seq![' ']
        + host);
    assert forall|v: Seq<char>| v != "?"@ implies #[trigger] search_text(
        DeviceView { vendor: Some(v), ..d },
    ) == dotted(d.ip) + seq![' '] + v by {
        assert(search_text(DeviceView { vendor: Some(v), ..d }) =~= dotted(d.ip) + seq![' '] + v);
    }
    assert forall|t: Seq<char>| #[trigger]
        search_text(DeviceView { services: seq![t], ..d }) == dotted(d.ip) + seq![' '] + t by {
        let one = seq![t];
        assert(one.drop_last().len() == 0);
        assert(crate::text::all_spaced(one.drop_last()) == Seq::<char>::empty());
        assert(search_text(DeviceView { services: seq![t], ..d }) =~= dotted(d.ip) + seq![' '] + t);
    }
}

/// A device is shown as quiet once it has not been seen for 26 whole seconds.
pub proof fn devices_grow_quiet(e: EntryView, q: Seq<char>, now: u64)
    requires
        e.last_seen <= now,
    ensures
        list_row(e, q, now).quiet <==> now - e.last_seen >= 26 * 1_000_000_000,
{
}

/// A message is shown for four seconds, and then the help again.
pub proof fn messages_are_shown_for_a_while(s: StateView, msg: Seq<char>, since: u64, now: u64)
    requires
        s.status == Some((msg, since)),
        since <= now,
    ensures
        now - since < 4 * 1_000_000_000 ==> status_text(s, now) == (" "@ + msg, Tone::Warn),
        now - since >= 4 * 1_000_000_000 ==> status_text(s, now) == status_text(
            StateView { status: None, ..s },
            now,
        ),
{
}

/// A device that was selected stays so as long as it is listed; otherwise the first one is.
pub proof fn the_selected_device_stays(
    results: Seq<EntryView>,
    ip: u32,
    selected: Option<usize>,
    i: int,
)
    requires
        is_kept_selection(results, Some(ip), selected),
        0 <= i < results.len(),
    ensures
        selected is Some && selected->0 < results.len(),
        results[i].device.ip == ip ==> results[selected->0 as int].device.ip == ip,
        (forall|j: int| 0 <= j < results.len() ==> (#[trigger] results[j]).device.ip != ip)
            ==> selected == Some(0usize),
{
    if results[i].device.ip == ip {
        assert(exists|j: int| 0 <= j < results.len() && (#[trigger] results[j]).device.ip == ip);
    }
}

/// How long a device is listed without a sign of life, and how often the cache is written.
pub proof fn times_are_as_documented()
    ensures
        crate::heimdall::picker::DROP_SECS * crate::ui::clock::SECOND == 2 * 60 * 1_000_000_000,
        crate::heimdall::picker::FLUSH_SECS * crate::ui::clock::SECOND == 15 * 1_000_000_000,
        crate::heimdall::picker::WARN_SECS * crate::ui::clock::SECOND == 25 * 1_000_000_000,
{
}

/// Each interface that is swept is a network, in the order of the interfaces.
pub proof fn networks_stand_in_order(ifaces: Seq<Interface>, i: Interface)
    ensures
        ({
            let n = ifaces.len() as int;
            let more = all_swept(ifaces.push(i), n + 1);
            &&& swept(i) is Some ==> more == all_swept(ifaces, n).push(swept(i)->0)
            &&& swept(i) is None ==> more == all_swept(ifaces, n)
            &&& all_swept(Seq::<Interface>::empty(), 0).len() == 0
        }),
{
    lemma_same_swept(ifaces, ifaces.push(i), ifaces.len() as int);
}

proof fn lemma_same_swept(a: Seq<Interface>, b: Seq<Interface>, n: int)
    requires
        0 <= n <= a.len(),
        n <= b.len(),
        forall|i: int| 0 <= i < n ==> a[i] == b[i],
    ensures
        all_swept(a, n) == all_swept(b, n),
    decreases n,
{
    if n > 0 {
        lemma_same_swept(a, b, n - 1);
        assert(a[n - 1] == b[n - 1]);
    }
}

/// A device is printed with its addresses first, each in its column.
pub proof fn devices_are_printed_in_columns(d: DeviceView, mac: Seq<char>)
    requires
        dotted(d.ip).len() <= 15,
        d.mac == Some(mac),
        mac.len() == 17,
    ensures
        scan_row(d).take(dotted(d.ip).len() as int) == dotted(d.ip),
        scan_row(d).subrange(16, 33) == mac,
{
    let row = scan_row(d);
    assert(row.take(dotted(d.ip).len() as int) =~= dotted(d.ip));
    assert(row.subrange(16, 33) =~= mac);
}

/// The details of a device tell its addresses, its manufacturer and its name.
pub proof fn details_tell_the_device(e: EntryView, now: u64)
    requires
        e.last_seen <= now,
    ensures
        detail_lines(e, now)[0][1].text == shown(dotted(e.device.ip)),
        e.device.mac is Some ==> detail_lines(e, now)[0][3].text == e.device.mac->0,
        e.device.vendor is Some ==> detail_lines(e, now)[0][5].text == shown(e.device.vendor->0),
        e.device.hostname is Some ==> detail_lines(e, now)[1][1].text == shown(
            e.device.hostname->0,
        ),
        detail_lines(e, now)[2][3].text == decimal(
            ((now - e.last_seen) / 1_000_000_000) as nat,
        ) + "s ago"@,
{
}

/// The row of a device shows its addresses, its manufacturer, its name and its services.
pub proof fn rows_show_the_device(e: EntryView, q: Seq<char>, now: u64)
    ensures
        list_row(e, q, now).cells.len() == 5,
        list_row(e, q, now).cells[0] == cell_runs(dotted(e.device.ip), q),
        e.device.mac is Some ==> list_row(e, q, now).cells[1] == cell_runs(e.device.mac->0, q),
        e.device.vendor is Some ==> list_row(e, q, now).cells[2] == cell_runs(
            e.device.vendor->0,
            q,
        ),
        e.device.hostname is Some ==> list_row(e, q, now).cells[3] == cell_runs(
            e.device.hostname->0,
            q,
        ),
        list_row(e, q, now).cells[4] == cell_runs(joined(e.device.services, ", "@), q),
{
}

/// Devices of the cache count as last seen half a minute ago, as soon as the clock is that
/// old.
pub proof fn cached_devices_were_seen_a_while_ago(now: u64)
    ensures
        now >= 30 * 1_000_000_000 ==> seed_time(now) == now - 30 * 1_000_000_000,
        now < 30 * 1_000_000_000 ==> seed_time(now) == now,
{
}

/// Ctrl-D leaves where nothing is typed, and otherwise does nothing; other keys without a
/// meaning do nothing, and neither do any where nothing is selected.
pub proof fn other_keys_do_nothing(s: StateView, key: KeyEvent, now: u64)
    requires
        key.kind == KeyEventKind::Press,
    ensures
        ({
            let (t, step) = after_command(s, command(key, s.line.text().len() == 0), now);
            &&& key.code == KeyCode::Char('d') && key.ctrl && s.line.text().len() == 0 ==> step
                is Quit
            &&& key.code == KeyCode::Char('d') && key.ctrl && s.line.text().len() > 0 ==> step
                is Continue && t == s
            &&& key.code == KeyCode::Other ==> t == s && step is Continue
            &&& s.selected is Some && s.selected->0 >= s.results.len() ==> step is Continue || step
                is Quit
        }),
{
}

/// What a key begins is said.
pub proof fn keys_say_what_they_begin(s: StateView, i: usize, key: KeyEvent, now: u64)
    requires
        s.selected == Some(i),
        i < s.results.len(),
        key.kind == KeyEventKind::Press,
    ensures
        ({
            let t = after_command(s, command(key, s.line.text().len() == 0), now).0;
            let ip = s.results[i as int].device.ip;
            &&& key.code == KeyCode::Enter ==> t.status == Some(
                ("opening http://"@ + dotted(ip), now),
            )
            &&& key.code == KeyCode::Tab ==> t.status == Some(
                ("scanning ports on "@ + dotted(ip) + "…"@, now),
            )
        }),
{
}

/// A first octet above 255 tells no kind.
pub proof fn large_octets_tell_no_kind(s: Seq<char>, n: nat, rest: Seq<char>)
    requires
        s.len() == 3,
        digits_value(s, 16) == Some(n),
        n > 255,
    ensures
        classified(s + seq![':'] + rest) is None,
{
    let stops = seq![':', '-'];
    assert(stops[0] == ':' && stops[1] == '-');
    assert(stops.contains(':'));
    let t = s.drop_last();
    assert(digits_value(t, 16) is Some && digit_value(s.last(), 16) is Some);
    assert(digits_value(t.drop_last(), 16) == digit_value(t[0], 16));
    assert(digit_value(t.last(), 16) is Some);
    assert(t[0] == s[0] && t.last() == s[1] && s.last() == s[2]);
    assert forall|i: int| 0 <= i < s.len() implies !stops.contains(#[trigger] s[i]) by {
        if stops.contains(s[i]) {
            let j = choose|j: int| 0 <= j < stops.len() && stops[j] == s[i];
            assert(j == 0 || j == 1);
        }
    }
    the_stretch_before_a_stop(s, ':', rest, stops);
    let e = Seq::<char>::empty();
    trimming_takes_the_ends(e, s, e);
    assert(e + s + e == s);
}

/// A target that is nothing but a long identifier goes by a word.
pub proof fn identifiers_go_by_a_word(parts: Seq<Seq<char>>)
    requires
        parts.len() > 0,
        forall|i: int| 0 <= i < parts.len() ==> free_of(#[trigger] parts[i], ':'),
        forall|i: int|
            0 <= i < parts.len() ==> #[trigger] parts[i] != "device"@ && parts[i] != "service"@,
        parts.last().contains('-'),
        size(parts.last()) > 20,
    ensures
        target_name(joined(parts, seq![':'])) == "upnp"@,
{
    split_undoes_join(parts, ':');
    lemma_not_announced(parts, 0);
}

/// A header is looked for in every line of an answer, from the first on.
pub proof fn headers_are_looked_for_in_every_line(
    lines: Seq<Seq<char>>,
    name: Seq<char>,
    k: int,
)
    requires
        0 <= k < lines.len(),
        forall|i: int|
            0 <= i < lines.len() ==> free_of(#[trigger] lines[i], '\n') && (lines[i].len() > 0
                ==> lines[i].last() != '\r'),
        is_header(lines[k], name),
        forall|i: int| 0 <= i < k ==> !is_header(#[trigger] lines[i], name),
    ensures
        header_value(joined(lines, seq!['\n']) + seq!['\n'], name) == Some(header_of(lines[k])),
{
    lines_are_read_back(lines);
    the_first_header_counts(lines, name, k);
}

/// What is not known of a device is shown by a dash.
pub proof fn what_is_missing_is_shown_by_a_dash(e: EntryView, q: Seq<char>, now: u64)
    ensures
        e.device.mac is None ==> list_row(e, q, now).cells[1] == cell_runs("-"@, q),
        e.device.hostname is None ==> list_row(e, q, now).cells[3] == cell_runs("-"@, q),
        e.device.mac is None ==> detail_lines(e, now)[0][3].text == "—"@,
{
}

/// Open ports are shown by their numbers, each behind a colon.
pub proof fn ports_are_shown_by_number(ports: Seq<u16>, i: int)
    requires
        0 <= i < ports.len(),
    ensures
        port_names(ports).len() == ports.len(),
        port_names(ports)[i] == ":"@ + decimal(ports[i] as nat),
{
}

/// Every line of the table below its heading is a row of it.
pub proof fn every_line_below_the_heading_is_a_row(heading: Seq<char>, rows: Seq<Seq<char>>)
    requires
        free_of(heading, '\n'),
        heading.len() > 0 ==> heading.last() != '\r',
        forall|i: int|
            0 <= i < rows.len() ==> free_of(#[trigger] rows[i], '\n') && (rows[i].len() > 0
                ==> rows[i].last() != '\r'),
    ensures
        arp_table(joined(seq![heading] + rows, seq!['\n']) + seq!['\n']) == arp_rows(
            rows,
            rows.len() as int,
        ),
{
    let lines = seq![heading] + rows;
    assert forall|i: int| 0 <= i < lines.len() implies free_of(#[trigger] lines[i], '\n') && (
    lines[i].len() > 0 ==> lines[i].last() != '\r') by {
        if i > 0 {
            assert(lines[i] == rows[i - 1]);
        }
    }
    lines_are_read_back(lines);
    assert(lines.drop_first() == rows);
}

/// What is not known of a device is printed as a dash.
pub proof fn what_is_missing_is_printed_as_a_dash(d: DeviceView)
    requires
        dotted(d.ip).len() <= 15,
        d.mac is None,
    ensures
        scan_row(d).subrange(16, 18) == seq!['-', ' '],
        d.hostname is None ==> scan_row(d)[57] == '-' && scan_row(d)[58] == ' ',
{
    reveal_strlit("-");
    let row = scan_row(d);
    assert(row.subrange(16, 18) =~= seq!['-', ' ']);
    crate::laws::clipping_keeps_the_beginning(vendor_text(d), 22);
    crate::laws::clipping_keeps_the_beginning("-"@, 22);
    if d.hostname is None {
        assert(row[57] == '-' && row[58] == ' ');
    }
}

} // verus!
