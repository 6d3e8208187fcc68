//! The local network: discovery, the cache and the picker.

use levelup::heimdall::arp::{parse_arp_line, read_arp_cache};
use levelup::heimdall::cache::{
    load, restore, save, Stored, CACHE_SCHEMA_SQL, LOAD_SQL, SAVE_SQL,
};
use levelup::heimdall::device::{Device, Seen};
use levelup::heimdall::discover::{
    device_line, fuse, header_line, neighbour_seen, online_line, scanning_line,
};
use levelup::heimdall::mac::{classify, Kind};
use levelup::heimdall::mdns::{clean_host, resolved, service_label, MdnsHit, TYPES};
use levelup::heimdall::picker::{State, Step};
use levelup::heimdall::ports::{sort_ports, COMMON_PORTS};
use levelup::heimdall::ssdp::{answered, header, parse_label, simplify_st, SsdpHit, MSEARCH};
use levelup::heimdall::subnet::{
    detect, host_list, is_virtual, local_cidrs, mask_to_prefix, Interface,
};
use levelup::net::Ipv4Addr;
use levelup::oui::{lookup_if_loaded, Vendors};
use levelup::ui::clock::SECOND;
use levelup::ui::keys::{KeyCode, KeyEvent, KeyEventKind};
use levelup::ui::picker::Tone;
use rusqlite::Connection;

fn ip(d: u8) -> Ipv4Addr {
    Ipv4Addr::new(192, 168, 1, d)
}

fn strings(v: &[&str]) -> Vec<String> {
    v.iter().map(|s| s.to_string()).collect()
}

// ---- sources -------------------------------------------------------------------

#[test]
fn parses_complete_entry_skips_incomplete() {
    let complete =
        "192.168.1.1     0x1         0x2         aa:bb:cc:dd:ee:ff     *        wlan0";
    assert_eq!(
        parse_arp_line(complete),
        Some((Ipv4Addr::new(192, 168, 1, 1), "aa:bb:cc:dd:ee:ff".into()))
    );
    // Flags 0x0 = incomplete → skipped.
    let incomplete =
        "192.168.1.9     0x1         0x0         00:00:00:00:00:00     *        wlan0";
    assert_eq!(parse_arp_line(incomplete), None);
}

#[test]
fn the_neighbour_table_is_read_line_by_line() {
    let text = "IP address       HW type     Flags       HW address            Mask     Device\n\
                192.168.1.1     0x1         0x2         aa:bb:cc:dd:ee:ff     *        wlan0\n\
                192.168.1.9     0x1         0x0         00:00:00:00:00:00     *        wlan0\n\
                garbage\n\
                192.168.1.7     0x1         0x6         aa:bb:cc:dd:ee:07     *        wlan0\n";
    assert_eq!(
        read_arp_cache(text),
        vec![
            (ip(1), "aa:bb:cc:dd:ee:ff".to_string()),
            (ip(7), "aa:bb:cc:dd:ee:07".to_string())
        ]
    );
    assert_eq!(parse_arp_line("192.168.1.1 0x1 0x2 00:00:00:00:00:00 * wlan0"), None);
    assert_eq!(parse_arp_line("192.168.1.1 0x1 zz aa:bb:cc:dd:ee:ff * wlan0"), None);
    assert_eq!(parse_arp_line(""), None);
    assert!(read_arp_cache("").is_empty());
}

#[test]
fn label_strips_dnssd_decoration() {
    assert_eq!(service_label("_googlecast._tcp.local."), "googlecast");
    assert_eq!(service_label("_ipp._tcp.local."), "ipp");
}

#[test]
fn resolved_services_are_hits_of_their_hosts() {
    assert_eq!(clean_host("printer.local."), Some("printer.local".to_string()));
    assert_eq!(clean_host("."), None);
    let hits = resolved("_ipp._tcp.local.", "printer.local.", &vec![ip(5), ip(6)]);
    assert_eq!(hits.len(), 2);
    assert_eq!(hits[1].ip, ip(6));
    assert_eq!(hits[1].hostname.as_deref(), Some("printer.local"));
    assert_eq!(hits[1].service, "ipp");
}

#[test]
fn st_simplification() {
    assert_eq!(
        simplify_st("urn:schemas-upnp-org:device:MediaServer:1"),
        "MediaServer"
    );
    assert_eq!(simplify_st("upnp:rootdevice"), "rootdevice");
    assert_eq!(
        simplify_st("uuid:2f402f80-da50-11e1-9b23-0017881234ab"),
        "upnp"
    );
}

#[test]
fn header_is_case_insensitive() {
    let resp = "HTTP/1.1 200 OK\r\nST: upnp:rootdevice\r\nSERVER: Linux UPnP/1.0\r\n\r\n";
    assert_eq!(header(resp, "st").as_deref(), Some("upnp:rootdevice"));
    assert_eq!(header(resp, "server").as_deref(), Some("Linux UPnP/1.0"));
}

#[test]
fn answers_carry_a_label() {
    assert!(MSEARCH.starts_with("M-SEARCH * HTTP/1.1\r\n"));
    let resp = b"HTTP/1.1 200 OK\r\nST: urn:schemas-upnp-org:device:MediaServer:1\r\n\r\n";
    let hit = answered(ip(9), &resp.to_vec());
    assert_eq!(hit.ip, ip(9));
    assert_eq!(hit.service, "MediaServer");
    // Bytes that are no text still have a label.
    let hit = answered(ip(9), &vec![0xff, 0xfe]);
    assert_eq!(hit.service, "upnp");
    assert_eq!(parse_label("SERVER: Linux UPnP/1.0\r\n"), "Linux UPnP/1.0");
    assert_eq!(parse_label(""), "upnp");
}

#[test]
fn slash_24_yields_254_hosts() {
    let net = Ipv4Addr::new(192, 168, 1, 0).bits;
    let mask = Ipv4Addr::new(255, 255, 255, 0).bits;
    let hosts = host_list(net, mask);
    assert_eq!(hosts.len(), 254);
    assert_eq!(hosts[0], Ipv4Addr::new(192, 168, 1, 1));
    assert_eq!(hosts[253], Ipv4Addr::new(192, 168, 1, 254));
}

#[test]
fn prefix_from_mask() {
    assert_eq!(mask_to_prefix(Ipv4Addr::new(255, 255, 255, 0)), 24);
    assert_eq!(mask_to_prefix(Ipv4Addr::new(255, 255, 0, 0)), 16);
}

#[test]
fn small_and_large_networks() {
    assert_eq!(mask_to_prefix(Ipv4Addr::new(0, 0, 0, 0)), 0);
    assert_eq!(mask_to_prefix(Ipv4Addr::new(255, 255, 255, 255)), 32);
    // A network of one address, and one of two, have no hosts between the ends.
    assert!(host_list(ip(0).bits, 0xffff_ffff).is_empty());
    assert!(host_list(ip(0).bits, 0xffff_fffe).is_empty());
    assert_eq!(host_list(ip(0).bits, 0xffff_fffc), vec![ip(1), ip(2)]);
    // Large networks are cut.
    assert_eq!(host_list(0x0a00_0000, 0xff00_0000).len(), 4096);
}

#[test]
fn networks_come_from_real_interfaces() {
    let iface = |name: &str, is_loopback: bool, v4| Interface {
        name: name.to_string(),
        is_loopback,
        v4,
    };
    let mask = Ipv4Addr::new(255, 255, 255, 0);
    let ifaces = vec![
        iface("lo", true, Some((Ipv4Addr::new(127, 0, 0, 1), mask))),
        iface("wlan0", false, Some((ip(23), mask))),
        iface("docker0", false, Some((Ipv4Addr::new(172, 17, 0, 1), mask))),
        iface("eth0", false, None),
    ];
    assert_eq!(local_cidrs(&ifaces), strings(&["192.168.1.0/24"]));
    let nets = detect(&ifaces);
    assert_eq!(nets.len(), 1);
    assert_eq!(nets[0].cidr, "192.168.1.0/24");
    assert_eq!(nets[0].hosts.len(), 254);
    assert!(is_virtual("docker0"));
    assert!(is_virtual("veth12"));
    assert!(!is_virtual("enp3s0"));
}

#[test]
fn universal_unicast() {
    // Apple OUI, U/L and I/G both clear.
    assert_eq!(classify("a4:83:e7:12:34:56"), Some(Kind::Universal));
}

#[test]
fn locally_administered() {
    // Second hex digit 2/6/a/e => U/L set, I/G clear.
    for m in ["a2:00:00:00:00:01", "de:ad:be:ef:00:01", "06:11:22:33:44:55"] {
        assert_eq!(classify(m), Some(Kind::Local), "{m}");
    }
}

#[test]
fn group_and_broadcast() {
    assert_eq!(classify("01:00:5e:00:00:fb"), Some(Kind::Group)); // multicast
    assert_eq!(classify("ff:ff:ff:ff:ff:ff"), Some(Kind::Group)); // broadcast
}

#[test]
fn uppercase_and_bad_input() {
    assert_eq!(classify("A4:83:E7:00:00:01"), Some(Kind::Universal));
    assert_eq!(classify("zz:00"), None);
    assert_eq!(classify(""), None);
}

#[test]
fn vendors_come_from_the_embedded_database() {
    let v = Vendors::load();
    assert!(v.is_some());
    let apple = lookup_if_loaded(&v, "a4:83:e7:12:34:56").unwrap();
    assert!(apple.contains("Apple"), "{apple}");
    assert_eq!(lookup_if_loaded(&v, "not a mac"), None);
    assert_eq!(lookup_if_loaded(&None, "a4:83:e7:12:34:56"), None);
    let seen = neighbour_seen(ip(3), "a4:83:e7:12:34:56".to_string(), &v);
    assert_eq!(seen.vendor, Some(apple));
    assert_eq!(seen.mac.as_deref(), Some("a4:83:e7:12:34:56"));
}

// ---- devices --------------------------------------------------------------------

fn seen(d: u8) -> Seen {
    Seen { ip: ip(d), mac: None, vendor: None, hostname: None, service: None }
}

#[test]
fn a_device_keeps_its_first_name() {
    let mut d = Device::new(ip(4));
    d.learn(Seen { hostname: Some("a".into()), service: Some(" ipp ".into()), ..seen(4) });
    d.learn(Seen { hostname: Some("b".into()), service: Some("ipp".into()), ..seen(4) });
    d.learn(Seen { mac: Some("x".into()), service: Some("  ".into()), ..seen(4) });
    d.learn(Seen { mac: Some("y".into()), service: Some("http".into()), ..seen(4) });
    assert_eq!(d.hostname.as_deref(), Some("a"));
    assert_eq!(d.mac.as_deref(), Some("y"));
    assert_eq!(d.services, strings(&["ipp", "http"]));
}

#[test]
fn vendors_have_labels() {
    let mut d = Device::new(ip(4));
    assert_eq!(d.vendor_label(), "?");
    assert_eq!(d.haystack(), "192.168.1.4");
    d.mac = Some("a2:00:00:00:00:01".into());
    assert_eq!(d.vendor_label(), "random");
    assert_eq!(d.haystack(), "192.168.1.4 a2:00:00:00:00:01 random");
    d.mac = Some("01:00:5e:00:00:fb".into());
    assert_eq!(d.vendor_label(), "multicast");
    d.vendor = Some("ACME".into());
    assert_eq!(d.vendor_label(), "ACME");
}

#[test]
fn sources_are_fused_by_address() {
    let arp = vec![(ip(9), "a2:00:00:00:00:09".to_string()), (ip(2), "m2".to_string())];
    let mdns = vec![
        MdnsHit { ip: ip(9), hostname: Some("tv".into()), service: "googlecast".into() },
        MdnsHit { ip: ip(9), hostname: Some("other".into()), service: "googlecast".into() },
    ];
    let ssdp = vec![
        SsdpHit { ip: ip(9), service: "MediaServer".into() },
        SsdpHit { ip: ip(1), service: "rootdevice".into() },
    ];
    let list = fuse(arp, &None, mdns, ssdp);
    assert_eq!(list.iter().map(|d| d.ip).collect::<Vec<_>>(), vec![ip(1), ip(2), ip(9)]);
    assert_eq!(list[2].hostname.as_deref(), Some("tv"));
    assert_eq!(list[2].services, strings(&["googlecast", "MediaServer"]));
    assert_eq!(list[0].mac, None);
    assert_eq!(
        device_line(&list[2]),
        "192.168.1.9     a2:00:00:00:00:09 random                 tv                     \
         googlecast,MediaServer"
    );
    assert_eq!(
        header_line(),
        "IP              MAC               VENDOR                 HOST                   SERVICES"
    );
    assert_eq!(online_line(3), "3 device(s) online");
    assert_eq!(scanning_line(&vec![]), "scanning (no IPv4 subnet found) …");
    assert_eq!(scanning_line(&strings(&["a", "b"])), "scanning a, b …");
}

#[test]
fn the_cache_gives_back_what_was_saved() {
    let mut d = Device::new(ip(8));
    assert!(save(&d).is_none());
    d.mac = Some("m".into());
    d.vendor = Some("v".into());
    d.services = strings(&["a", "b"]);
    let row = save(&d).unwrap();
    assert_eq!(row.ip, "192.168.1.8");
    assert_eq!(row.services.as_deref(), Some("a,b"));
    let back = restore(&row).unwrap().revive();
    assert_eq!(back.ip, d.ip);
    assert_eq!(back.mac, d.mac);
    assert_eq!(back.vendor, d.vendor);
    assert_eq!(back.hostname, d.hostname);
    assert_eq!(back.services, d.services);
    let bad = Stored {
        mac: "m".into(),
        ip: "nowhere".into(),
        vendor: None,
        hostname: None,
        services: Some(",x,,".into()),
    };
    assert!(restore(&bad).is_none());
    let odd = Stored { ip: "10.0.0.1".into(), ..bad };
    let all = load(&vec![odd]);
    assert_eq!(all.len(), 1);
    assert_eq!(all[0].services, strings(&["x"]));
}

fn keep(conn: &Connection, d: &Device, last_seen: i64) {
    let row = save(d).unwrap();
    conn.execute(
        SAVE_SQL,
        (row.mac, row.ip, row.vendor, row.hostname, row.services, last_seen),
    )
    .unwrap();
}

#[test]
fn the_cache_lists_the_last_seen_first() {
    let conn = Connection::open_in_memory().unwrap();
    conn.execute_batch(CACHE_SCHEMA_SQL).unwrap();
    let mut d = Device::new(ip(8));
    d.mac = Some("m".into());
    d.vendor = Some("v".into());
    keep(&conn, &d, 10);
    let mut other = Device::new(ip(9));
    other.mac = Some("n".into());
    keep(&conn, &other, 20);
    // The same device at another address, of which less is known now.
    let mut moved = Device::new(ip(10));
    moved.mac = Some("m".into());
    moved.hostname = Some("h".into());
    keep(&conn, &moved, 30);

    let mut stmt = conn.prepare(LOAD_SQL).unwrap();
    let rows: Vec<Stored> = stmt
        .query_map([], |r| {
            Ok(Stored {
                mac: r.get(0)?,
                ip: r.get(1)?,
                vendor: r.get(2)?,
                hostname: r.get(3)?,
                services: r.get(4)?,
            })
        })
        .unwrap()
        .map(|r| r.unwrap())
        .collect();
    let all = load(&rows);
    assert_eq!(all.iter().map(|c| c.ip).collect::<Vec<_>>(), vec![ip(10), ip(9)]);
    assert_eq!(all[0].vendor.as_deref(), Some("v"));
    assert_eq!(all[0].hostname.as_deref(), Some("h"));
}

#[test]
fn listened_types_have_short_names() {
    let labels: Vec<String> = TYPES.iter().map(|t| service_label(t)).collect();
    assert_eq!(labels.len(), 19);
    assert_eq!(labels[0], "http");
    assert_eq!(labels[11], "spotify-connect");
    assert_eq!(labels[18], "hap");
}

#[test]
fn ports_are_sorted() {
    assert_eq!(COMMON_PORTS.len(), 32);
    assert_eq!(sort_ports(&vec![443, 22, 80]), vec![22, 80, 443]);
    assert!(sort_ports(&vec![]).is_empty());
}

// ---- the picker -------------------------------------------------------------------

fn press(code: KeyCode, ctrl: bool) -> KeyEvent {
    KeyEvent { code, ctrl, alt: false, shift: false, kind: KeyEventKind::Press }
}

fn picker() -> State {
    let mut s = State::new("192.168.1.0/24".to_string(), 0);
    for d in [9, 2, 5] {
        s.merge(Seen { mac: Some(format!("mac-{d}")), ..seen(d) }, SECOND);
    }
    s.merge(Seen { hostname: Some("router".into()), ..seen(2) }, SECOND);
    s.refresh();
    s
}

fn listed(s: &State) -> Vec<Ipv4Addr> {
    s.results.iter().map(|e| e.device.ip).collect()
}

#[test]
fn devices_are_listed_by_address() {
    let mut s = picker();
    assert_eq!(listed(&s), vec![ip(2), ip(5), ip(9)]);
    assert_eq!(s.selected, Some(0));
    s.handle_key(press(KeyCode::Down, false), 0);
    assert_eq!(s.selected_ip(), Some(ip(5)));
    // The selection stays on its device when others come.
    s.merge(seen(1), SECOND);
    s.refresh();
    assert_eq!(listed(&s), vec![ip(1), ip(2), ip(5), ip(9)]);
    assert_eq!(s.selected_ip(), Some(ip(5)));
}

#[test]
fn typing_searches() {
    let mut s = picker();
    for c in "router".chars() {
        assert!(matches!(s.handle_key(press(KeyCode::Char(c), false), 0), Step::Continue));
    }
    s.refresh();
    assert_eq!(listed(&s), vec![ip(2)]);
    let rows = s.list_rows(SECOND);
    assert_eq!(rows.len(), 1);
    assert_eq!(rows[0].cells[3][0].text, "router");
    assert!(rows[0].cells[3][0].matched);
    assert!(!rows[0].quiet);
}

#[test]
fn keys_ask_for_work() {
    let mut s = picker();
    match s.handle_key(press(KeyCode::Enter, false), 7) {
        Step::OpenUrl(u) => assert_eq!(u, "http://192.168.1.2"),
        _ => panic!(),
    }
    assert_eq!(s.status_line(7), (" opening http://192.168.1.2".to_string(), Tone::Warn));
    assert!(matches!(s.handle_key(press(KeyCode::Char('s'), true), 0), Step::Ssh(a) if a == ip(2)));
    assert!(
        matches!(s.handle_key(press(KeyCode::Char('y'), true), 0), Step::Copy(a) if a == ip(2))
    );
    assert!(
        matches!(s.handle_key(press(KeyCode::Tab, false), 0), Step::ScanPorts(a) if a == ip(2))
    );
    assert!(matches!(s.handle_key(press(KeyCode::Esc, false), 0), Step::Quit));
    assert!(matches!(s.handle_key(press(KeyCode::Char('d'), true), 0), Step::Quit));
    s.copied(ip(2), true, 0);
    assert_eq!(s.status_line(0).0, " copied 192.168.1.2");
    s.copied(ip(2), false, 0);
    assert_eq!(s.status_line(0).0, " no clipboard helper (wl-copy/xclip)");
    s.returned(ip(2), 0);
    assert_eq!(s.status_line(0).0, " returned from ssh 192.168.1.2");
    assert_eq!(
        s.status_line(4 * SECOND),
        (
            " 3 online · 192.168.1.0/24 · Enter open · ^S ssh · ^Y copy · Tab port-scan · Esc"
                .to_string(),
            Tone::Dim
        )
    );
    // Nothing is selected in an empty list.
    let mut s = State::new(String::new(), 0);
    s.refresh();
    assert!(matches!(s.handle_key(press(KeyCode::Enter, false), 0), Step::Continue));
    assert!(s.detail(0).is_none());
}

#[test]
fn only_keys_that_go_down_count() {
    let mut s = picker();
    let before = s.query.text.clone();
    for kind in [KeyEventKind::Repeat, KeyEventKind::Release] {
        let key = KeyEvent { kind, ..press(KeyCode::Esc, false) };
        assert!(matches!(s.handle_key(key, 0), Step::Continue));
        let key = KeyEvent { kind, ..press(KeyCode::Char('x'), false) };
        assert!(matches!(s.handle_key(key, 0), Step::Continue));
    }
    assert_eq!(s.query.text, before);
    assert!(matches!(s.handle_key(press(KeyCode::Esc, false), 0), Step::Quit));
}

#[test]
fn silent_devices_fade_and_go() {
    let mut s = picker();
    assert!(!s.list_rows(26 * SECOND)[0].quiet);
    assert!(s.list_rows(27 * SECOND)[0].quiet);
    s.drop_offline(120 * SECOND);
    s.refresh();
    assert_eq!(s.results.len(), 3);
    s.merge(seen(5), 2 * SECOND);
    s.drop_offline(121 * SECOND);
    s.refresh();
    assert_eq!(listed(&s), vec![ip(5)]);
}

#[test]
fn details_and_ports() {
    let mut s = picker();
    s.set_ports(ip(2), vec![443, 22]);
    s.set_ports(ip(77), vec![1]);
    s.refresh();
    let lines = s.detail(4 * SECOND).unwrap();
    let text: Vec<String> =
        lines.iter().map(|l| l.iter().map(|p| p.text.as_str()).collect()).collect();
    assert_eq!(text[0], "ip 192.168.1.2   mac mac-2   vendor ?");
    assert_eq!(text[1], "host router   services —");
    assert_eq!(text[2], "ports :443 :22   seen 3s ago");
    assert_eq!(s.flush().len(), 3);
    // Where no maker is known the list says what the address tells, the detail `?`.
    s.merge(Seen { mac: Some("a2:00:00:00:00:01".into()), ..seen(2) }, SECOND);
    s.refresh();
    let text: String =
        s.detail(SECOND).unwrap()[0].iter().map(|p| p.text.as_str()).collect();
    assert_eq!(text, "ip 192.168.1.2   mac a2:00:00:00:00:01   vendor ?");
    assert_eq!(s.list_rows(SECOND)[0].cells[2][0].text, "random");
    assert!(!s.due(15 * SECOND));
    assert!(s.due(15 * SECOND + 1));
    assert!(!s.due(15 * SECOND + 2));
}

#[test]
fn seeded_devices_are_quiet() {
    let rows = picker().flush();
    let mut s = State::new(String::new(), 0);
    s.seed(&load(&rows), 1000 * SECOND);
    s.refresh();
    assert_eq!(listed(&s), vec![ip(2), ip(5), ip(9)]);
    assert!(s.list_rows(1000 * SECOND).iter().all(|r| r.quiet));
    s.merge(seen(9), 1000 * SECOND);
    s.refresh();
    assert!(!s.list_rows(1000 * SECOND)[2].quiet);
}
