//! The cache of devices seen before, by hardware address: how a device is
//! written to a row of it and read back.
//!
//! The cache only makes the start faster. What it holds shows dimmed until a
//! device is seen again.

use vstd::prelude::*;
use crate::heimdall::device::{fresh, Device, DeviceView};
use crate::net::{dotted, dotted_round_trip, undotted, Ipv4Addr};
use crate::text::{
    copy_strings, free_of, join, joined, opt_copy, opt_view, pieces, split, split_undoes_join,
    views,
};

verus! {

/// The schema of the cache.
pub const CACHE_SCHEMA_SQL: &'static str = "\
    PRAGMA journal_mode = WAL; \
    CREATE TABLE IF NOT EXISTS devices (\
        mac       TEXT PRIMARY KEY, \
        ip        TEXT NOT NULL, \
        vendor    TEXT, \
        hostname  TEXT, \
        services  TEXT, \
        last_seen INTEGER NOT NULL\
    );";

/// The devices in the cache, those seen last first.
pub const LOAD_SQL: &'static str = "\
    SELECT mac, ip, vendor, hostname, services \
    FROM devices ORDER BY last_seen DESC LIMIT 1000";

/// Put a device into the cache; what is not known of it now stays.
pub const SAVE_SQL: &'static str = "\
    INSERT INTO devices(mac, ip, vendor, hostname, services, last_seen) \
    VALUES(?1, ?2, ?3, ?4, ?5, ?6) \
    ON CONFLICT(mac) DO UPDATE SET \
        ip=?2, vendor=COALESCE(?3, vendor), hostname=COALESCE(?4, hostname), \
        services=?5, last_seen=?6";

/// A row of the cache.
pub struct Stored {
    pub mac: String,
    pub ip: String,
    pub vendor: Option<String>,
    pub hostname: Option<String>,
    pub services: Option<String>,
}

/// What a [`Stored`] row holds.
pub ghost struct StoredView {
    pub mac: Seq<char>,
    pub ip: Seq<char>,
    pub vendor: Option<Seq<char>>,
    pub hostname: Option<Seq<char>>,
    pub services: Option<Seq<char>>,
}

impl View for Stored {
    type V = StoredView;

    open spec fn view(&self) -> StoredView {
        StoredView {
            mac: self.mac@,
            ip: self.ip@,
            vendor: opt_view(self.vendor),
            hostname: opt_view(self.hostname),
            services: opt_view(self.services),
        }
    }
}

/// A device read from the cache.
pub struct Cached {
    pub ip: Ipv4Addr,
    pub mac: String,
    pub vendor: Option<String>,
    pub hostname: Option<String>,
    pub services: Vec<String>,
}

/// What a [`Cached`] device holds.
#[verifier::ext_equal]
pub ghost struct CachedView {
    pub ip: u32,
    pub mac: Seq<char>,
    pub vendor: Option<Seq<char>>,
    pub hostname: Option<Seq<char>>,
    pub services: Seq<Seq<char>>,
}

impl View for Cached {
    type V = CachedView;

    open spec fn view(&self) -> CachedView {
        CachedView {
            ip: self.ip.bits,
            mac: self.mac@,
            vendor: opt_view(self.vendor),
            hostname: opt_view(self.hostname),
            services: views(self.services@),
        }
    }
}

/// The views of the rows of `v`.
pub open spec fn stored_views(v: Seq<Stored>) -> Seq<StoredView> {
    Seq::new(v.len(), |i: int| v[i]@)
}

/// The views of the devices of `v`.
pub open spec fn cached_views(v: Seq<Cached>) -> Seq<CachedView> {
    Seq::new(v.len(), |i: int| v[i]@)
}

/// Those of the first `n` of `parts` that are not empty.
pub open spec fn nonempty(parts: Seq<Seq<char>>, n: int) -> Seq<Seq<char>>
    decreases n,
{
    if n <= 0 {
        seq![]
    } else if parts[n - 1].len() == 0 {
        nonempty(parts, n - 1)
    } else {
        nonempty(parts, n - 1).push(parts[n - 1])
    }
}

/// The services that the text of a row lists, separated by commas.
pub open spec fn listed_services(text: Option<Seq<char>>) -> Seq<Seq<char>> {
    match text {
        Some(s) => nonempty(pieces(s, ','), pieces(s, ',').len() as int),
        None => seq![],
    }
}

/// The device that a row holds; none where its address is none.
pub open spec fn restored(row: StoredView) -> Option<CachedView> {
    match undotted(row.ip) {
        Some(ip) => Some(
            CachedView {
                ip,
                mac: row.mac,
                vendor: row.vendor,
                hostname: row.hostname,
                services: listed_services(row.services),
            },
        ),
        None => None,
    }
}

/// The devices that the first `n` of `rows` hold, in order.
pub open spec fn all_restored(rows: Seq<StoredView>, n: int) -> Seq<CachedView>
    decreases n,
{
    if n <= 0 {
        seq![]
    } else {
        match restored(rows[n - 1]) {
            Some(c) => all_restored(rows, n - 1).push(c),
            None => all_restored(rows, n - 1),
        }
    }
}

/// The row for a device; none for one without a hardware address.
pub open spec fn row_for(d: DeviceView) -> Option<StoredView> {
    match d.mac {
        Some(mac) => Some(
            StoredView {
                mac,
                ip: dotted(d.ip),
                vendor: d.vendor,
                hostname: d.hostname,
                services: Some(joined(d.services, ","@)),
            },
        ),
        None => None,
    }
}

/// The device as the picker shows it at first.
pub open spec fn revived(c: CachedView) -> DeviceView {
    DeviceView {
        mac: Some(c.mac),
        vendor: c.vendor,
        hostname: c.hostname,
        services: c.services,
        ..fresh(c.ip)
    }
}

/// The services that the text of a row lists.
fn services_from(text: &Option<String>) -> (r: Vec<String>)
    ensures
        views(r@) == listed_services(opt_view(*text)),
{
    let mut r: Vec<String> = Vec::new();
    match text {
        Some(s) => {
            let parts = split(s.as_str(), ',');
            let ghost p = pieces(s@, ',');
            assert(views(parts@).len() == parts@.len());
            let mut i: usize = 0;
            assert(views(r@) == nonempty(p, 0));
            while i < parts.len()
                invariant
                    i <= parts@.len(),
                    views(parts@) == p,
                    parts@.len() == p.len(),
                    views(r@) == nonempty(p, i as int),
                decreases parts@.len() - i,
            {
                assert(p[i as int] == parts@[i as int]@);
                if !parts[i].as_str().is_empty() {
                    let ghost done = r@;
                    r.push(parts[i].clone());
                    assert(views(r@) == views(done).push(p[i as int]));
                }
                i += 1;
            }
            r
        },
        None => {
            assert(views(r@) == Seq::<Seq<char>>::empty());
            r
        },
    }
}

/// The device that a row holds; none where its address is none.
pub fn restore(row: &Stored) -> (r: Option<Cached>)
    ensures
        match r {
            Some(c) => restored(row@) == Some(c@),
            None => restored(row@) is None,
        },
{
    match Ipv4Addr::parse(row.ip.as_str()) {
        Some(ip) => Some(
            Cached {
                ip,
                mac: row.mac.clone(),
                vendor: opt_copy(&row.vendor),
                hostname: opt_copy(&row.hostname),
                services: services_from(&row.services),
            },
        ),
        None => None,
    }
}

/// The devices that `rows` hold, in order.
pub fn load(rows: &Vec<Stored>) -> (r: Vec<Cached>)
    ensures
        cached_views(r@) == all_restored(stored_views(rows@), rows@.len() as int),
{
    let ghost all = stored_views(rows@);
    let mut r: Vec<Cached> = Vec::new();
    let mut i: usize = 0;
    assert(cached_views(r@) == all_restored(all, 0));
    while i < rows.len()
        invariant
            i <= rows@.len(),
            all == stored_views(rows@),
            cached_views(r@) == all_restored(all, i as int),
        decreases rows@.len() - i,
    {
        assert(all[i as int] == rows@[i as int]@);
        match restore(&rows[i]) {
            Some(c) => {
                let ghost done = r@;
                let ghost cv = c@;
                r.push(c);
                assert(cached_views(r@) == cached_views(done).push(cv));
            },
            None => {},
        }
        i += 1;
    }
    r
}

/// The row for a device; none for one without a hardware address, which is what
/// the cache goes by.
pub fn save(d: &Device) -> (r: Option<Stored>)
    ensures
        match r {
            Some(row) => row_for(d@) == Some(row@),
            None => row_for(d@) is None,
        },
{
    match &d.mac {
        Some(mac) => Some(
            Stored {
                mac: mac.clone(),
                ip: d.ip.text(),
                vendor: opt_copy(&d.vendor),
                hostname: opt_copy(&d.hostname),
                services: Some(join(&d.services, ",")),
            },
        ),
        None => None,
    }
}

impl Cached {
    /// The device as the picker shows it at first.
    pub fn revive(&self) -> (d: Device)
        ensures
            d@ == revived(self@),
    {
        let mut d = Device::new(self.ip);
        d.mac = Some(self.mac.clone());
        d.vendor = opt_copy(&self.vendor);
        d.hostname = opt_copy(&self.hostname);
        d.services = copy_strings(&self.services);
        d
    }
}

proof fn lemma_nothing_dropped(parts: Seq<Seq<char>>, n: int)
    requires
        0 <= n <= parts.len(),
        forall|i: int| 0 <= i < parts.len() ==> (#[trigger] parts[i]).len() > 0,
    ensures
        nonempty(parts, n) == parts.take(n),
    decreases n,
{
    if n > 0 {
        lemma_nothing_dropped(parts, n - 1);
        assert(parts[n - 1].len() > 0);
        assert(parts.take(n - 1).push(parts[n - 1]) == parts.take(n));
    } else {
        assert(nonempty(parts, n) == parts.take(n));
    }
}

/// A device that is written to the cache is read back as it was, but for the
/// ports, which are not kept. No service may be blank or hold a comma.
pub proof fn cache_round_trip(d: DeviceView)
    requires
        d.mac is Some,
        forall|i: int|
            0 <= i < d.services.len() ==> (#[trigger] d.services[i]).len() > 0 && free_of(
                d.services[i],
                ',',
            ),
    ensures
        restored(row_for(d)->0) is Some,
        revived(restored(row_for(d)->0)->0) == (DeviceView { open_ports: seq![], ..d }),
{
    reveal_strlit(",");
    assert(","@ == seq![',']);
    dotted_round_trip(d.ip);
    let text = joined(d.services, ","@);
    if d.services.len() > 0 {
        split_undoes_join(d.services, ',');
        lemma_nothing_dropped(d.services, d.services.len() as int);
        assert(d.services.take(d.services.len() as int) == d.services);
    } else {
        assert(text == Seq::<char>::empty());
        assert(pieces(text, ',') == seq![Seq::<char>::empty()]);
        assert(nonempty(pieces(text, ','), 1) == Seq::<Seq<char>>::empty()) by {
            assert(pieces(text, ',')[0].len() == 0);
            assert(nonempty(pieces(text, ','), 0) == Seq::<Seq<char>>::empty());
        }
        assert(d.services == Seq::<Seq<char>>::empty());
    }
    assert(revived(restored(row_for(d)->0)->0) =~= (DeviceView { open_ports: seq![], ..d }));
}

} // verus!
