//! What is known of one host on the local network.

use vstd::prelude::*;
use crate::heimdall::mac::{classified, classify, Kind};
use crate::net::{dotted, Ipv4Addr};
use crate::text::{
    all_spaced, contains_string, copy_strings, opt_copy, opt_view, push_all_spaced, push_spaced,
    push_spaced_opt, spaced, trim, trimmed, views,
};

verus! {

/// One fact about a device, from one source. Each source fills in what it
/// knows.
pub struct Seen {
    pub ip: Ipv4Addr,
    pub mac: Option<String>,
    pub vendor: Option<String>,
    pub hostname: Option<String>,
    pub service: Option<String>,
}

/// What a [`Seen`] says.
pub ghost struct SeenView {
    pub ip: u32,
    pub mac: Option<Seq<char>>,
    pub vendor: Option<Seq<char>>,
    pub hostname: Option<Seq<char>>,
    pub service: Option<Seq<char>>,
}

impl View for Seen {
    type V = SeenView;

    open spec fn view(&self) -> SeenView {
        SeenView {
            ip: self.ip.bits,
            mac: opt_view(self.mac),
            vendor: opt_view(self.vendor),
            hostname: opt_view(self.hostname),
            service: opt_view(self.service),
        }
    }
}

/// A device.
pub struct Device {
    pub ip: Ipv4Addr,
    /// The hardware address, its stable identity where it is known.
    pub mac: Option<String>,
    /// The manufacturer, from the hardware address.
    pub vendor: Option<String>,
    /// The name, from mDNS.
    pub hostname: Option<String>,
    /// What the device advertises.
    pub services: Vec<String>,
    /// The open ports, from a port scan.
    pub open_ports: Vec<u16>,
}

/// What is known of a [`Device`].
#[verifier::ext_equal]
pub ghost struct DeviceView {
    pub ip: u32,
    pub mac: Option<Seq<char>>,
    pub vendor: Option<Seq<char>>,
    pub hostname: Option<Seq<char>>,
    pub services: Seq<Seq<char>>,
    pub open_ports: Seq<u16>,
}

impl View for Device {
    type V = DeviceView;

    open spec fn view(&self) -> DeviceView {
        DeviceView {
            ip: self.ip.bits,
            mac: opt_view(self.mac),
            vendor: opt_view(self.vendor),
            hostname: opt_view(self.hostname),
            services: views(self.services@),
            open_ports: self.open_ports@,
        }
    }
}

/// A device of which only the address is known.
pub open spec fn fresh(ip: u32) -> DeviceView {
    DeviceView {
        ip,
        mac: None,
        vendor: None,
        hostname: None,
        services: seq![],
        open_ports: seq![],
    }
}

/// What the vendor column shows of a device.
pub open spec fn vendor_text(d: DeviceView) -> Seq<char> {
    match d.vendor {
        Some(v) => v,
        None => {
            let kind = match d.mac {
                Some(m) => classified(m),
                None => None,
            };
            if kind == Some(Kind::Local) {
                "random"@
            } else if kind == Some(Kind::Group) {
                "multicast"@
            } else {
                "?"@
            }
        },
    }
}

/// The text in which a search looks for a device.
pub open spec fn search_text(d: DeviceView) -> Seq<char> {
    dotted(d.ip) + spaced(d.mac) + spaced(d.hostname) + (if vendor_text(d) == "?"@ {
        seq![]
    } else {
        spaced(Some(vendor_text(d)))
    }) + all_spaced(d.services)
}

/// `services` with `svc` behind them, unless that is blank or among them.
pub open spec fn with_service(services: Seq<Seq<char>>, svc: Seq<char>) -> Seq<Seq<char>> {
    let t = trimmed(svc);
    if t.len() == 0 || services.contains(t) {
        services
    } else {
        services.push(t)
    }
}

/// `d` with what `seen` says of it: a name once known stays, everything else is
/// replaced by what is newer.
pub open spec fn informed(d: DeviceView, seen: SeenView) -> DeviceView {
    DeviceView {
        ip: d.ip,
        mac: if seen.mac is Some {
            seen.mac
        } else {
            d.mac
        },
        vendor: if seen.vendor is Some {
            seen.vendor
        } else {
            d.vendor
        },
        hostname: if d.hostname is Some {
            d.hostname
        } else {
            seen.hostname
        },
        services: match seen.service {
            Some(s) => with_service(d.services, s),
            None => d.services,
        },
        open_ports: d.open_ports,
    }
}

impl Device {
    /// A device of which only the address is known.
    pub fn new(ip: Ipv4Addr) -> (d: Device)
        ensures
            d@ == fresh(ip.bits),
    {
        let d = Device {
            ip,
            mac: None,
            vendor: None,
            hostname: None,
            services: Vec::new(),
            open_ports: Vec::new(),
        };
        assert(d@ =~= fresh(ip.bits));
        d
    }

    /// A copy of the device.
    pub fn duplicate(&self) -> (d: Device)
        ensures
            d@ == self@,
    {
        let mut ports: Vec<u16> = Vec::new();
        ports.extend_from_slice(self.open_ports.as_slice());
        assert(ports@ == self.open_ports@);
        Device {
            ip: self.ip,
            mac: opt_copy(&self.mac),
            vendor: opt_copy(&self.vendor),
            hostname: opt_copy(&self.hostname),
            services: copy_strings(&self.services),
            open_ports: ports,
        }
    }

    /// What the vendor column shows: the manufacturer where it is known, and
    /// otherwise what the bits of the hardware address say. One that was set
    /// locally has no vendor, so `random` says more than a bare `?`; a group
    /// address shows as `multicast`.
    pub fn vendor_label(&self) -> (s: String)
        ensures
            s@ == vendor_text(self@),
    {
        match &self.vendor {
            Some(v) => v.clone(),
            None => {
                let kind = match &self.mac {
                    Some(m) => classify(m.as_str()),
                    None => None,
                };
                match kind {
                    Some(Kind::Local) => "random".to_owned(),
                    Some(Kind::Group) => "multicast".to_owned(),
                    _ => "?".to_owned(),
                }
            },
        }
    }

    /// The text in which a search looks for the device: address, hardware
    /// address, name, vendor and services. A bare `?` carries no signal and is
    /// left out.
    pub fn haystack(&self) -> (s: String)
        ensures
            s@ == search_text(self@),
    {
        let mut s = self.ip.text();
        push_spaced_opt(&mut s, &self.mac);
        push_spaced_opt(&mut s, &self.hostname);
        let label = self.vendor_label();
        let ghost before = s@;
        if !label.as_str().eq("?") {
            push_spaced(&mut s, label.as_str());
        } else {
            assert(before + Seq::<char>::empty() == before);
        }
        push_all_spaced(&mut s, &self.services);
        s
    }

    /// Add a service, unless it is blank or already there.
    pub fn add_service(&mut self, svc: &str)
        ensures
            final(self)@ == (DeviceView {
                services: with_service(old(self)@.services, svc@),
                ..old(self)@
            }),
    {
        let t = trim(svc);
        if !t.as_str().is_empty() && !contains_string(&self.services, t.as_str()) {
            let ghost before = self.services@;
            let ghost tv = t@;
            self.services.push(t);
            assert(views(self.services@) == views(before).push(tv));
        }
    }

    /// Take in what `seen` says of the device.
    pub fn learn(&mut self, seen: Seen)
        ensures
            final(self)@ == informed(old(self)@, seen@),
    {
        if let Some(m) = seen.mac {
            self.mac = Some(m);
        }
        if let Some(v) = seen.vendor {
            self.vendor = Some(v);
        }
        if let Some(h) = seen.hostname {
            if self.hostname.is_none() {
                self.hostname = Some(h);
            }
        }
        if let Some(s) = seen.service {
            self.add_service(s.as_str());
        }
    }
}

/// A device never lists a service twice, nor a blank one.
pub proof fn services_stay_distinct(services: Seq<Seq<char>>, svc: Seq<char>)
    requires
        services.no_duplicates(),
        forall|i: int| 0 <= i < services.len() ==> (#[trigger] services[i]).len() > 0,
    ensures
        with_service(services, svc).no_duplicates(),
        forall|i: int|
            0 <= i < with_service(services, svc).len() ==> (#[trigger] with_service(
                services,
                svc,
            )[i]).len() > 0,
        trimmed(svc).len() > 0 ==> with_service(services, svc).contains(trimmed(svc)),
{
    let t = trimmed(svc);
    let w = with_service(services, svc);
    if t.len() > 0 && !services.contains(t) {
        assert(w.last() == t);
        assert(w[w.len() - 1] == t);
        assert forall|i: int, j: int| 0 <= i < w.len() && 0 <= j < w.len() && i != j implies w[i]
            != w[j] by {
            if i == w.len() - 1 {
                assert(services[j] == w[j]);
            } else if j == w.len() - 1 {
                assert(services[i] == w[i]);
            }
        }
    }
}

/// Adding a service twice is the same as adding it once.
pub proof fn adding_a_service_is_idempotent(services: Seq<Seq<char>>, svc: Seq<char>)
    ensures
        with_service(with_service(services, svc), svc) == with_service(services, svc),
{
    let t = trimmed(svc);
    let w = with_service(services, svc);
    if t.len() > 0 && !services.contains(t) {
        assert(w[w.len() - 1] == t);
    }
}

/// A name that is known is not replaced by what is seen later.
pub proof fn first_name_stays(d: DeviceView, seen: SeenView)
    requires
        d.hostname is Some,
    ensures
        informed(d, seen).hostname == d.hostname,
        informed(d, seen).ip == d.ip,
{
}

} // verus!
