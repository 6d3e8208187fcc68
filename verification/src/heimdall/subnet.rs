//! The local networks to sweep.

use vstd::arithmetic::power2::{lemma2_to64, lemma_pow2_unfold, pow2};
use vstd::prelude::*;
use crate::net::{dotted, Ipv4Addr};
use crate::number::{decimal, decimal_of};
use crate::text::{has_prefix, starts_with};

verus! {

/// No more hosts than this are swept from one interface, so that a wide prefix
/// cannot start a giant scan.
pub const MAX_HOSTS: usize = 4096;

/// A network interface of this machine.
pub struct Interface {
    pub name: String,
    pub is_loopback: bool,
    /// The address and mask, where it has an IPv4 address.
    pub v4: Option<(Ipv4Addr, Ipv4Addr)>,
}

/// A network to sweep.
pub struct LocalNet {
    /// The network with its prefix, such as `192.168.1.0/24`.
    pub cidr: String,
    /// The addresses to probe.
    pub hosts: Vec<Ipv4Addr>,
}

/// What a [`LocalNet`] holds.
pub ghost struct LocalNetView {
    pub cidr: Seq<char>,
    pub hosts: Seq<Ipv4Addr>,
}

impl View for LocalNet {
    type V = LocalNetView;

    open spec fn view(&self) -> LocalNetView {
        LocalNetView { cidr: self.cidr@, hosts: self.hosts@ }
    }
}

/// The views of the networks of `v`.
pub open spec fn net_views(v: Seq<LocalNet>) -> Seq<LocalNetView> {
    Seq::new(v.len(), |i: int| v[i]@)
}

/// The number of ones in `n`.
pub open spec fn ones(n: nat) -> nat
    decreases n,
{
    if n == 0 {
        0
    } else {
        n % 2 + ones(n / 2)
    }
}

/// The first address behind the network address.
pub open spec fn first_host(net: u32) -> u32 {
    if net == 0xffff_ffff {
        0
    } else {
        (net + 1) as u32
    }
}

/// How many hosts are listed for a network: those before the broadcast address,
/// up to the cap.
pub open spec fn host_count(net: u32, mask: u32) -> nat {
    let broadcast = net | !mask;
    if broadcast <= first_host(net) {
        0
    } else if broadcast - first_host(net) < MAX_HOSTS {
        (broadcast - first_host(net)) as nat
    } else {
        MAX_HOSTS as nat
    }
}

/// The addresses to probe in a network.
pub open spec fn hosts_of(net: u32, mask: u32) -> Seq<Ipv4Addr> {
    Seq::new(host_count(net, mask), |i: int| Ipv4Addr { bits: (first_host(net) + i) as u32 })
}

/// The interface names that stand for bridges, containers and tunnels.
pub open spec fn is_virtual_name(name: Seq<char>) -> bool {
    ||| has_prefix(name, "docker"@)
    ||| has_prefix(name, "br-"@)
    ||| has_prefix(name, "veth"@)
    ||| has_prefix(name, "virbr"@)
    ||| has_prefix(name, "vmnet"@)
    ||| has_prefix(name, "tailscale"@)
    ||| has_prefix(name, "tun"@)
    ||| has_prefix(name, "tap"@)
    ||| has_prefix(name, "wg"@)
    ||| has_prefix(name, "zt"@)
    ||| has_prefix(name, "podman"@)
    ||| has_prefix(name, "cni"@)
    ||| has_prefix(name, "flannel"@)
    ||| has_prefix(name, "kube"@)
    ||| has_prefix(name, "lxc"@)
    ||| has_prefix(name, "lxd"@)
}

/// The network to sweep on an interface, if there is one: it has an IPv4
/// address and a prefix from 16 to 30, and is neither the loopback nor virtual.
pub open spec fn swept(i: Interface) -> Option<LocalNetView> {
    match i.v4 {
        Some(a) => {
            let net = a.0.bits & a.1.bits;
            let prefix = ones(a.1.bits as nat);
            if i.is_loopback || is_virtual_name(i.name@) || prefix < 16 || prefix > 30 {
                None
            } else {
                Some(
                    LocalNetView {
                        cidr: dotted(net) + seq!['/'] + decimal(prefix),
                        hosts: hosts_of(net, a.1.bits),
                    },
                )
            }
        },
        None => None,
    }
}

/// The networks to sweep on the first `n` of `ifaces`.
pub open spec fn all_swept(ifaces: Seq<Interface>, n: int) -> Seq<LocalNetView>
    decreases n,
{
    if n <= 0 {
        seq![]
    } else {
        match swept(ifaces[n - 1]) {
            Some(net) => all_swept(ifaces, n - 1).push(net),
            None => all_swept(ifaces, n - 1),
        }
    }
}

/// The addresses to probe in a network: those behind the network address and
/// before the broadcast address, up to the cap.
pub fn host_list(net: u32, mask: u32) -> (hosts: Vec<Ipv4Addr>)
    ensures
        hosts@ == hosts_of(net, mask),
{
    let broadcast = net | !mask;
    let first: u32 = if net == 0xffff_ffff {
        0
    } else {
        net + 1
    };
    let mut hosts: Vec<Ipv4Addr> = Vec::new();
    let mut a: u32 = first;
    while a < broadcast && hosts.len() < MAX_HOSTS
        invariant
            broadcast == net | !mask,
            first == first_host(net),
            first <= a,
            hosts@.len() == a - first,
            hosts@.len() <= host_count(net, mask),
            a <= broadcast || a == first,
            forall|i: int|
                0 <= i < hosts@.len() ==> #[trigger] hosts@[i] == (Ipv4Addr {
                    bits: (first + i) as u32,
                }),
        decreases broadcast - a,
    {
        hosts.push(Ipv4Addr { bits: a });
        a += 1;
    }
    hosts
}

/// Every address to probe lies between the network address and the broadcast
/// address, where the network has those.
pub proof fn hosts_lie_inside(net: u32, mask: u32, i: int)
    requires
        net < 0xffff_ffff,
        0 <= i < hosts_of(net, mask).len(),
    ensures
        net < hosts_of(net, mask)[i].bits < net | !mask,
        hosts_of(net, mask).len() <= MAX_HOSTS,
{
}

/// The length of the prefix that `mask` stands for.
pub fn mask_to_prefix(mask: Ipv4Addr) -> (n: u8)
    ensures
        n == ones(mask.bits as nat),
        n <= 32,
{
    let mut rest: u32 = mask.bits;
    let mut n: u8 = 0;
    let mut i: u8 = 0;
    proof {
        lemma2_to64();
    }
    while i < 32
        invariant
            i <= 32,
            n <= i,
            rest < pow2((32 - i) as nat),
            n + ones(rest as nat) == ones(mask.bits as nat),
        decreases 32 - i,
    {
        proof {
            lemma_pow2_unfold((32 - i) as nat);
        }
        n += (rest % 2) as u8;
        rest = rest / 2;
        i += 1;
    }
    proof {
        lemma2_to64();
    }
    n
}

/// Whether `name` is that of a bridge, a container or a tunnel, whose networks
/// hold none of the devices nearby.
pub fn is_virtual(name: &str) -> (r: bool)
    ensures
        r == is_virtual_name(name@),
{
    starts_with(name, "docker") || starts_with(name, "br-") || starts_with(name, "veth")
        || starts_with(name, "virbr") || starts_with(name, "vmnet") || starts_with(
        name,
        "tailscale",
    ) || starts_with(name, "tun") || starts_with(name, "tap") || starts_with(name, "wg")
        || starts_with(name, "zt") || starts_with(name, "podman") || starts_with(name, "cni")
        || starts_with(name, "flannel") || starts_with(name, "kube") || starts_with(name, "lxc")
        || starts_with(name, "lxd")
}

/// The network to sweep on an interface, if there is one.
fn sweep_of(i: &Interface) -> (r: Option<LocalNet>)
    ensures
        match r {
            Some(net) => swept(*i) == Some(net@),
            None => swept(*i) is None,
        },
{
    match i.v4 {
        Some(a) => {
            if i.is_loopback || is_virtual(i.name.as_str()) {
                return None;
            }
            let prefix = mask_to_prefix(a.1);
            if prefix < 16 || prefix > 30 {
                return None;
            }
            let net: u32 = a.0.bits & a.1.bits;
            let mut cidr = Ipv4Addr { bits: net }.text();
            cidr.push('/');
            let p = decimal_of(prefix as u64);
            cidr.append(p.as_str());
            assert(cidr@ == dotted(net) + seq!['/'] + decimal(prefix as nat));
            Some(LocalNet { cidr, hosts: host_list(net, a.1.bits) })
        },
        None => None,
    }
}

/// The networks to sweep: on every interface with an IPv4 address and a prefix
/// from 16 to 30 that is neither the loopback nor virtual.
pub fn detect(ifaces: &Vec<Interface>) -> (nets: Vec<LocalNet>)
    ensures
        net_views(nets@) == all_swept(ifaces@, ifaces@.len() as int),
{
    let mut nets: Vec<LocalNet> = Vec::new();
    let mut i: usize = 0;
    assert(net_views(nets@) == all_swept(ifaces@, 0));
    while i < ifaces.len()
        invariant
            i <= ifaces@.len(),
            net_views(nets@) == all_swept(ifaces@, i as int),
        decreases ifaces@.len() - i,
    {
        match sweep_of(&ifaces[i]) {
            Some(net) => {
                let ghost done = nets@;
                let ghost nv = net@;
                nets.push(net);
                assert(net_views(nets@) == net_views(done).push(nv));
            },
            None => {},
        }
        i += 1;
    }
    nets
}

/// The networks to sweep, for display.
pub fn local_cidrs(ifaces: &Vec<Interface>) -> (r: Vec<String>)
    ensures
        r@.len() == all_swept(ifaces@, ifaces@.len() as int).len(),
        forall|i: int|
            0 <= i < r@.len() ==> (#[trigger] r@[i])@ == all_swept(
                ifaces@,
                ifaces@.len() as int,
            )[i].cidr,
{
    let nets = detect(ifaces);
    let ghost all = all_swept(ifaces@, ifaces@.len() as int);
    assert(net_views(nets@).len() == nets@.len());
    let mut r: Vec<String> = Vec::new();
    let mut i: usize = 0;
    while i < nets.len()
        invariant
            i <= nets@.len(),
            net_views(nets@) == all,
            nets@.len() == all.len(),
            r@.len() == i,
            forall|j: int| 0 <= j < i ==> (#[trigger] r@[j])@ == all[j].cidr,
        decreases nets@.len() - i,
    {
        assert(all[i as int] == nets@[i as int]@);
        r.push(nets[i].cidr.clone());
        i += 1;
    }
    r
}

} // verus!
