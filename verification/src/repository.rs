//! The devices of a simulated network, the cables between them, and one step of the whole
//! network.

use vstd::prelude::*;
use vstd::string::StringExecFns;
use crate::network::device::cable::{cabled, carry_all, empty_port, uncabled, CableSimulator, EthernetPortView};
use crate::network::device::desktop::Desktop;
use crate::network::device::router::{router_disconnected, router_ticked, Router, RouterView};
use crate::network::device::switch::{disconnected, switch_ticked, Switch, SwitchView};
use crate::tick::{Tickable, NANOS_PER_SEC};
use crate::network::ethernet::interface::EthernetInterface;
use crate::network::ethernet::mac_bytes;
use crate::network::ipv4::interface::{receive_spec, Ipv4InterfaceView};

verus! {

/// A device of the repository: its kind and its index among the devices of that kind.
#[derive(Debug, Clone, Copy, PartialEq, Eq, Structural, Hash)]
pub enum DeviceId {
    Router(usize),
    Switch(usize),
    Desktop(usize),
}

impl DeviceId {
    /// The index of the device among the devices of its kind.
    pub open spec fn index(self) -> usize {
        match self {
            DeviceId::Router(i) => i,
            DeviceId::Switch(i) => i,
            DeviceId::Desktop(i) => i,
        }
    }

    /// The index of the device among the devices of its kind.
    pub fn as_usize(&self) -> (r: usize)
        ensures
            r == self.index(),
    {
        match self {
            DeviceId::Router(i) => *i,
            DeviceId::Switch(i) => *i,
            DeviceId::Desktop(i) => *i,
        }
    }
}

/// The kinds of device.
#[derive(Debug, Clone, Copy, PartialEq, Eq, Structural)]
pub enum DeviceKind {
    Desktop,
    Switch,
    Router,
}

/// A cable seen from one end: a device's port, and the device and port at the other end.
#[derive(Debug, Clone, Copy, PartialEq, Eq, Structural)]
pub struct Adjacency {
    pub device: DeviceId,
    pub port: usize,
    pub other: DeviceId,
    pub other_port: usize,
}

/// The abstract state of a repository: the devices of each kind, in the order they were added,
/// with their labels; the adjacencies; the simulator; the seeds of labels and MAC
/// addresses.
pub struct RepositoryView {
    pub routers: Seq<RouterView>,
    pub switches: Seq<SwitchView>,
    pub desktops: Seq<Ipv4InterfaceView>,
    pub router_labels: Seq<Seq<char>>,
    pub switch_labels: Seq<Seq<char>>,
    pub desktop_labels: Seq<Seq<char>>,
    pub label_seeds: (i32, i32, i32),
    pub adjacencies: Seq<Adjacency>,
    pub ports: Seq<EthernetPortView>,
    pub simulated: Seq<usize>,
    pub mac_seed: u64,
}

/// The number of ports of a device of the given kind.
pub open spec fn port_count(d: DeviceId) -> nat {
    match d {
        DeviceId::Router(_) => 8,
        DeviceId::Switch(_) => 32,
        DeviceId::Desktop(_) => 1,
    }
}

impl RepositoryView {
    /// The number of devices of the kind of `d`.
    pub open spec fn kind_len(self, d: DeviceId) -> nat {
        match d {
            DeviceId::Router(_) => self.routers.len(),
            DeviceId::Switch(_) => self.switches.len(),
            DeviceId::Desktop(_) => self.desktops.len(),
        }
    }

    /// `d` is a device of the repository.
    pub open spec fn has_device(self, d: DeviceId) -> bool {
        d.index() < self.kind_len(d)
    }

    /// `d` is a device of the repository and `p` one of its ports; a desktop has one port,
    /// which every port number names.
    pub open spec fn valid_port(self, d: DeviceId, p: usize) -> bool {
        &&& (d is Desktop || p < port_count(d))
        &&& self.has_device(d)
    }

    /// The MAC address of the interface of port `p` of device `d`.
    pub open spec fn mac_of(self, d: DeviceId, p: usize) -> Seq<u8> {
        match d {
            DeviceId::Router(i) => self.routers[i as int].ports[p as int].interface.ethernet.mac_address@,
            DeviceId::Switch(i) => self.switches[i as int].ports[p as int].interface.mac_address@,
            DeviceId::Desktop(i) => self.desktops[i as int].ethernet.mac_address@,
        }
    }

    /// Every interface has the MAC address of a number from 1 to the MAC seed, and no two
    /// interfaces have the same MAC address.
    pub open spec fn macs_distinct(self) -> bool {
        &&& forall|d: DeviceId, p: usize| #[trigger] self.valid_port(d, p)
            ==> exists|m: u64| 0 < m <= self.mac_seed && self.mac_of(d, p) == #[trigger] mac_bytes(m)
        &&& forall|d1: DeviceId, p1: usize, d2: DeviceId, p2: usize|
            self.valid_port(d1, p1) && self.valid_port(d2, p2) && #[trigger] self.mac_of(d1, p1) == #[trigger] self.mac_of(d2, p2)
                ==> d1 == d2 && (d1 is Desktop || p1 == p2)
    }

    /// The simulator port of port `p` of device `d`.
    pub open spec fn port_of(self, d: DeviceId, p: usize) -> usize {
        match d {
            DeviceId::Router(i) => self.routers[i as int].ports[p as int].interface.ethernet.port,
            DeviceId::Switch(i) => self.switches[i as int].ports[p as int].interface.port,
            DeviceId::Desktop(i) => self.desktops[i as int].ethernet.port,
        }
    }

    /// Every device is valid in the simulator, no two device ports share a simulator port, and
    /// every adjacency joins ports of the repository.
    pub open spec fn wf(self) -> bool {
        let n = self.ports.len();
        &&& self.router_labels.len() == self.routers.len()
        &&& self.switch_labels.len() == self.switches.len()
        &&& self.desktop_labels.len() == self.desktops.len()
        &&& self.label_seeds.0 == self.routers.len()
        &&& self.label_seeds.1 == self.switches.len()
        &&& self.label_seeds.2 == self.desktops.len()
        &&& forall|i: int| 0 <= i < self.routers.len() ==> (#[trigger] self.routers[i]).wf(n)
        &&& forall|i: int| 0 <= i < self.switches.len() ==> (#[trigger] self.switches[i]).wf(n)
        &&& forall|i: int| 0 <= i < self.desktops.len() ==> (#[trigger] self.desktops[i]).ethernet.port < n
        &&& forall|d1: DeviceId, p1: usize, d2: DeviceId, p2: usize|
            self.valid_port(d1, p1) && self.valid_port(d2, p2) && #[trigger] self.port_of(d1, p1) == #[trigger] self.port_of(d2, p2)
                ==> d1 == d2 && (d1 is Desktop || p1 == p2)
        &&& forall|k: int| 0 <= k < self.adjacencies.len() ==> self.valid_port((#[trigger] self.adjacencies[k]).device, self.adjacencies[k].port)
            && self.valid_port(self.adjacencies[k].other, self.adjacencies[k].other_port)
    }

    /// The label of device `d`.
    pub open spec fn label_of(self, d: DeviceId) -> Seq<char> {
        match d {
            DeviceId::Router(i) => self.router_labels[i as int],
            DeviceId::Switch(i) => self.switch_labels[i as int],
            DeviceId::Desktop(i) => self.desktop_labels[i as int],
        }
    }

    /// The repository has the devices of `v`, each port of which keeps its simulator port.
    pub open spec fn keeps_ports_of(self, v: RepositoryView) -> bool {
        &&& self.routers.len() == v.routers.len()
        &&& self.switches.len() == v.switches.len()
        &&& self.desktops.len() == v.desktops.len()
        &&& forall|d: DeviceId, p: usize| v.valid_port(d, p) ==> #[trigger] self.port_of(d, p) == v.port_of(d, p)
    }

    /// The repository with the cables of the simulator replaced.
    pub open spec fn with_ports(self, ports: Seq<EthernetPortView>) -> Self {
        RepositoryView { ports, ..self }
    }

    /// Port `p` of device `d` is unplugged: a desktop's cable is unplugged; a switch reworks its
    /// spanning tree (see `disconnected`); a router drops the port's routes and disables it (see
    /// `router_disconnected`).
    pub open spec fn device_disconnected(self, d: DeviceId, p: usize) -> Self {
        match d {
            DeviceId::Desktop(i) => self.with_ports(uncabled(self.ports, self.desktops[i as int].ethernet.port)),
            DeviceId::Switch(i) => {
                let r = disconnected(self.switches[i as int], self.ports, p);
                RepositoryView { switches: self.switches.update(i as int, r.0), ports: r.1, ..self }
            },
            DeviceId::Router(i) => {
                let r = router_disconnected(self.routers[i as int], self.ports, p);
                RepositoryView { routers: self.routers.update(i as int, r.0), ports: r.1, ..self }
            },
        }
    }
}

/// The number of a port among the ports of its device: a desktop's one port is its port 0.
pub open spec fn slot(d: DeviceId, p: usize) -> nat {
    match d {
        DeviceId::Desktop(_) => 0,
        _ => p as nat,
    }
}

/// A repository that grows from `v` into `v2` by one device, added after the existing ones, whose
/// ports follow the port table of `v`, is well formed.
proof fn lemma_extended_wf(v: RepositoryView, v2: RepositoryView)
    requires
        v.wf(),
        v2.ports.len() >= v.ports.len(),
        v2.routers.len() >= v.routers.len(),
        v2.switches.len() >= v.switches.len(),
        v2.desktops.len() >= v.desktops.len(),
        v2.routers.len() + v2.switches.len() + v2.desktops.len() == v.routers.len() + v.switches.len() + v.desktops.len() + 1,
        forall|i: int| 0 <= i < v.routers.len() ==> #[trigger] v2.routers[i] == v.routers[i],
        forall|i: int| 0 <= i < v.switches.len() ==> #[trigger] v2.switches[i] == v.switches[i],
        forall|i: int| 0 <= i < v.desktops.len() ==> #[trigger] v2.desktops[i] == v.desktops[i],
        v2.router_labels.len() == v2.routers.len(),
        v2.switch_labels.len() == v2.switches.len(),
        v2.desktop_labels.len() == v2.desktops.len(),
        v2.label_seeds.0 == v2.routers.len(),
        v2.label_seeds.1 == v2.switches.len(),
        v2.label_seeds.2 == v2.desktops.len(),
        v2.adjacencies == v.adjacencies,
        forall|i: int| v.routers.len() <= i < v2.routers.len() ==> (#[trigger] v2.routers[i]).wf(v2.ports.len()),
        forall|i: int| v.switches.len() <= i < v2.switches.len() ==> (#[trigger] v2.switches[i]).wf(v2.ports.len()),
        forall|i: int| v.desktops.len() <= i < v2.desktops.len() ==> (#[trigger] v2.desktops[i]).ethernet.port < v2.ports.len(),
        forall|d: DeviceId, p: usize| #[trigger] v2.valid_port(d, p) && !v.has_device(d)
            ==> v2.port_of(d, p) == v.ports.len() + slot(d, p),
    ensures
        v2.wf(),
{
    let n = v.ports.len();
    let n2 = v2.ports.len();
    assert forall|i: int| 0 <= i < v2.routers.len() implies (#[trigger] v2.routers[i]).wf(n2) by {
        if i < v.routers.len() {
            assert(v.routers[i].wf(n));
            assert forall|k: int| 0 <= k < 8 implies (#[trigger] v2.routers[i].ports[k]).interface.ethernet.port < n2 by {
                assert(v.routers[i].ports[k].interface.ethernet.port < n);
            }
        }
    }
    assert forall|i: int| 0 <= i < v2.switches.len() implies (#[trigger] v2.switches[i]).wf(n2) by {
        if i < v.switches.len() {
            assert(v.switches[i].wf(n));
            assert forall|k: int| 0 <= k < 32 implies (#[trigger] v2.switches[i].ports[k]).id == k && v2.switches[i].ports[k].interface.port < n2 by {
                assert(v.switches[i].ports[k].interface.port < n);
            }
        }
    }
    assert forall|i: int| 0 <= i < v2.desktops.len() implies (#[trigger] v2.desktops[i]).ethernet.port < n2 by {
        if i < v.desktops.len() {
            assert(v.desktops[i].ethernet.port < n);
        }
    }
    // A port of an existing device keeps its simulator port, which is below `n`.
    assert forall|d: DeviceId, p: usize| v2.valid_port(d, p) && v.has_device(d) implies
        #[trigger] v2.port_of(d, p) == v.port_of(d, p) && v.valid_port(d, p) && v.port_of(d, p) < n by {
        match d {
            DeviceId::Router(i) => {
                assert(v.routers[i as int].wf(n));
                assert(v.routers[i as int].ports[p as int].interface.ethernet.port < n);
            },
            DeviceId::Switch(i) => {
                assert(v.switches[i as int].wf(n));
                assert(v.switches[i as int].ports[p as int].interface.port < n);
            },
            DeviceId::Desktop(i) => {
                assert(v.desktops[i as int].ethernet.port < n);
            },
        }
    }
    assert forall|d1: DeviceId, p1: usize, d2: DeviceId, p2: usize|
        v2.valid_port(d1, p1) && v2.valid_port(d2, p2) && #[trigger] v2.port_of(d1, p1) == #[trigger] v2.port_of(d2, p2)
        implies d1 == d2 && (d1 is Desktop || p1 == p2) by {
        if v.has_device(d1) && v.has_device(d2) {
            assert(v.port_of(d1, p1) == v.port_of(d2, p2));
        } else if v.has_device(d1) {
            assert(v2.port_of(d2, p2) == n + slot(d2, p2));
        } else if v.has_device(d2) {
            assert(v2.port_of(d1, p1) == n + slot(d1, p1));
        } else {
            assert(v2.port_of(d1, p1) == n + slot(d1, p1));
            assert(v2.port_of(d2, p2) == n + slot(d2, p2));
            // One device was added.
            assert(d1.index() == v.kind_len(d1) && d2.index() == v.kind_len(d2));
        }
    }
    assert forall|k: int| 0 <= k < v2.adjacencies.len() implies v2.valid_port((#[trigger] v2.adjacencies[k]).device, v2.adjacencies[k].port)
        && v2.valid_port(v2.adjacencies[k].other, v2.adjacencies[k].other_port) by {
        assert(v.valid_port(v.adjacencies[k].device, v.adjacencies[k].port));
        assert(v.valid_port(v.adjacencies[k].other, v.adjacencies[k].other_port));
    }
}

/// A repository whose devices keep their ports and stay valid in a port table of the same size,
/// and whose adjacencies are among the earlier ones, is well formed, with the same simulator
/// ports for the same device ports.
proof fn lemma_same_devices_wf(v: RepositoryView, v2: RepositoryView)
    requires
        v.wf(),
        v2.ports.len() == v.ports.len(),
        v2.routers.len() == v.routers.len(),
        v2.switches.len() == v.switches.len(),
        v2.desktops.len() == v.desktops.len(),
        v2.router_labels.len() == v2.routers.len(),
        v2.switch_labels.len() == v2.switches.len(),
        v2.desktop_labels.len() == v2.desktops.len(),
        v2.label_seeds == v.label_seeds,
        forall|i: int| 0 <= i < v2.routers.len() ==> (#[trigger] v2.routers[i]).wf(v2.ports.len()) && v2.routers[i].same_ports(v.routers[i]),
        forall|i: int| 0 <= i < v2.switches.len() ==> (#[trigger] v2.switches[i]).wf(v2.ports.len()) && v2.switches[i].same_ports(v.switches[i]),
        forall|i: int| 0 <= i < v2.desktops.len() ==> (#[trigger] v2.desktops[i]).ethernet == v.desktops[i].ethernet,
        forall|k: int| 0 <= k < v2.adjacencies.len() ==> v.adjacencies.contains(#[trigger] v2.adjacencies[k]),
    ensures
        v2.wf(),
        forall|d: DeviceId, p: usize| v2.valid_port(d, p) ==> #[trigger] v2.port_of(d, p) == v.port_of(d, p) && v.valid_port(d, p),
        v2.keeps_ports_of(v),
{
    let n = v.ports.len();
    assert forall|i: int| 0 <= i < v2.desktops.len() implies (#[trigger] v2.desktops[i]).ethernet.port < n by {
        assert(v.desktops[i].ethernet.port < n);
    }
    assert forall|d: DeviceId, p: usize| v2.valid_port(d, p) implies #[trigger] v2.port_of(d, p) == v.port_of(d, p) && v.valid_port(d, p) by {
        match d {
            DeviceId::Router(i) => assert(v2.routers[i as int].ports[p as int].interface.ethernet == v.routers[i as int].ports[p as int].interface.ethernet),
            DeviceId::Switch(i) => assert(v2.switches[i as int].ports[p as int].interface == v.switches[i as int].ports[p as int].interface),
            DeviceId::Desktop(i) => assert(v2.desktops[i as int].ethernet == v.desktops[i as int].ethernet),
        }
    }
    assert forall|d1: DeviceId, p1: usize, d2: DeviceId, p2: usize|
        v2.valid_port(d1, p1) && v2.valid_port(d2, p2) && #[trigger] v2.port_of(d1, p1) == #[trigger] v2.port_of(d2, p2)
        implies d1 == d2 && (d1 is Desktop || p1 == p2) by {
        assert(v.port_of(d1, p1) == v.port_of(d2, p2));
    }
    assert forall|k: int| 0 <= k < v2.adjacencies.len() implies v2.valid_port((#[trigger] v2.adjacencies[k]).device, v2.adjacencies[k].port)
        && v2.valid_port(v2.adjacencies[k].other, v2.adjacencies[k].other_port) by {
        let j = choose|j: int| 0 <= j < v.adjacencies.len() && v.adjacencies[j] == v2.adjacencies[k];
        assert(v.valid_port(v.adjacencies[j].device, v.adjacencies[j].port));
    }
}

/// Numbers below 2^40 have different MAC addresses.
pub proof fn lemma_mac_bytes_injective(a: u64, b: u64)
    requires
        a < 0x100_0000_0000,
        b < 0x100_0000_0000,
        mac_bytes(a) == mac_bytes(b),
    ensures
        a == b,
{
    assert(mac_bytes(a)[1] == mac_bytes(b)[1]);
    assert(mac_bytes(a)[2] == mac_bytes(b)[2]);
    assert(mac_bytes(a)[3] == mac_bytes(b)[3]);
    assert(mac_bytes(a)[4] == mac_bytes(b)[4]);
    assert(mac_bytes(a)[5] == mac_bytes(b)[5]);
    lemma_low_bytes_determine(a, b);
}

/// A number below 2^40 is determined by its five low bytes.
proof fn lemma_low_bytes_determine(a: u64, b: u64)
    requires
        a < 0x100_0000_0000,
        b < 0x100_0000_0000,
        ((a / 0x1_0000_0000) % 0x100) as u8 == ((b / 0x1_0000_0000) % 0x100) as u8,
        ((a / 0x100_0000) % 0x100) as u8 == ((b / 0x100_0000) % 0x100) as u8,
        ((a / 0x1_0000) % 0x100) as u8 == ((b / 0x1_0000) % 0x100) as u8,
        ((a / 0x100) % 0x100) as u8 == ((b / 0x100) % 0x100) as u8,
        (a % 0x100) as u8 == (b % 0x100) as u8,
    ensures
        a == b,
{
    assert((a / 0x1_0000_0000) % 0x100 == (b / 0x1_0000_0000) % 0x100);
    assert((a / 0x100_0000) % 0x100 == (b / 0x100_0000) % 0x100);
    assert((a / 0x1_0000) % 0x100 == (b / 0x1_0000) % 0x100);
    assert((a / 0x100) % 0x100 == (b / 0x100) % 0x100);
    assert(a % 0x100 == b % 0x100);
    lemma_low_bytes_bv(a, b);
}

proof fn lemma_low_bytes_bv(a: u64, b: u64)
    by (bit_vector)
    requires
        a < 0x100_0000_0000,
        b < 0x100_0000_0000,
        (a / 0x1_0000_0000) % 0x100 == (b / 0x1_0000_0000) % 0x100,
        (a / 0x100_0000) % 0x100 == (b / 0x100_0000) % 0x100,
        (a / 0x1_0000) % 0x100 == (b / 0x1_0000) % 0x100,
        (a / 0x100) % 0x100 == (b / 0x100) % 0x100,
        a % 0x100 == b % 0x100,
    ensures
        a == b,
{
}

/// Where the MAC numbers of the ports of a device added with the seed `seed` start: a switch
/// keeps the seed itself for its own address.
pub open spec fn mac_offset(d: DeviceId, p: usize) -> nat {
    match d {
        DeviceId::Router(_) => p as nat,
        DeviceId::Switch(_) => (p + 1) as nat,
        DeviceId::Desktop(_) => 0,
    }
}

/// A repository that grows from `v` into `v2` by one device, whose interfaces take the MAC
/// numbers from `v`'s seed plus one on, below 2^40, keeps the MAC addresses distinct.
proof fn lemma_extended_macs(v: RepositoryView, v2: RepositoryView)
    requires
        v.macs_distinct(),
        v.mac_seed < v2.mac_seed < 0x100_0000_0000,
        v2.routers.len() >= v.routers.len(),
        v2.switches.len() >= v.switches.len(),
        v2.desktops.len() >= v.desktops.len(),
        v2.routers.len() + v2.switches.len() + v2.desktops.len() == v.routers.len() + v.switches.len() + v.desktops.len() + 1,
        forall|i: int| 0 <= i < v.routers.len() ==> #[trigger] v2.routers[i] == v.routers[i],
        forall|i: int| 0 <= i < v.switches.len() ==> #[trigger] v2.switches[i] == v.switches[i],
        forall|i: int| 0 <= i < v.desktops.len() ==> #[trigger] v2.desktops[i] == v.desktops[i],
        forall|d: DeviceId, p: usize| #[trigger] v2.valid_port(d, p) && !v.has_device(d)
            ==> v.mac_seed + 1 + mac_offset(d, p) <= v2.mac_seed
                && v2.mac_of(d, p) == mac_bytes((v.mac_seed + 1 + mac_offset(d, p)) as u64),
    ensures
        v2.macs_distinct(),
{
    // A port of an existing device keeps its MAC address.
    assert forall|d: DeviceId, p: usize| v2.valid_port(d, p) && v.has_device(d) implies
        #[trigger] v2.mac_of(d, p) == v.mac_of(d, p) && v.valid_port(d, p) by {
        match d {
            DeviceId::Router(i) => assert(v2.routers[i as int] == v.routers[i as int]),
            DeviceId::Switch(i) => assert(v2.switches[i as int] == v.switches[i as int]),
            DeviceId::Desktop(i) => assert(v2.desktops[i as int] == v.desktops[i as int]),
        }
    }
    assert forall|d: DeviceId, p: usize| #[trigger] v2.valid_port(d, p)
        implies exists|m: u64| 0 < m <= v2.mac_seed && v2.mac_of(d, p) == #[trigger] mac_bytes(m) by {
        if v.has_device(d) {
            assert(v.valid_port(d, p));
            let m = choose|m: u64| 0 < m <= v.mac_seed && v.mac_of(d, p) == #[trigger] mac_bytes(m);
            assert(v2.mac_of(d, p) == mac_bytes(m));
        } else {
            let m = (v.mac_seed + 1 + mac_offset(d, p)) as u64;
            assert(v2.mac_of(d, p) == mac_bytes(m));
        }
    }
    assert forall|d1: DeviceId, p1: usize, d2: DeviceId, p2: usize|
        v2.valid_port(d1, p1) && v2.valid_port(d2, p2) && #[trigger] v2.mac_of(d1, p1) == #[trigger] v2.mac_of(d2, p2)
        implies d1 == d2 && (d1 is Desktop || p1 == p2) by {
        if v.has_device(d1) && v.has_device(d2) {
            assert(v.valid_port(d1, p1) && v.valid_port(d2, p2));
            assert(v.mac_of(d1, p1) == v.mac_of(d2, p2));
        } else if v.has_device(d1) || v.has_device(d2) {
            let (od, op, nd, np) = if v.has_device(d1) { (d1, p1, d2, p2) } else { (d2, p2, d1, p1) };
            assert(v.valid_port(od, op));
            let m = choose|m: u64| 0 < m <= v.mac_seed && v.mac_of(od, op) == #[trigger] mac_bytes(m);
            let m2 = (v.mac_seed + 1 + mac_offset(nd, np)) as u64;
            assert(v2.mac_of(nd, np) == mac_bytes(m2));
            assert(v2.mac_of(od, op) == mac_bytes(m));
            lemma_mac_bytes_injective(m, m2);
        } else {
            let m1 = (v.mac_seed + 1 + mac_offset(d1, p1)) as u64;
            let m2 = (v.mac_seed + 1 + mac_offset(d2, p2)) as u64;
            lemma_mac_bytes_injective(m1, m2);
            assert(d1.index() == v.kind_len(d1) && d2.index() == v.kind_len(d2));
        }
    }
}

/// The label seeds count the devices of each kind, so the k-th device added of a kind gets the
/// index k - 1 and the label "<Kind> k": adding a device to a well-formed repository appends it
/// after the devices of its kind, with the label of their number plus one.
pub proof fn lemma_added_label_and_id(v: RepositoryView, v2: RepositoryView, kind: DeviceKind)
    requires
        v.wf(),
        added(v, v2, kind),
        label_seed(v, kind) < i32::MAX,
    ensures
        match kind {
            DeviceKind::Router => {
                &&& v2.routers.len() == v.routers.len() + 1
                &&& v2.label_of(DeviceId::Router(v.routers.len() as usize)) == label_text("Router"@, (v.routers.len() + 1) as int)
            },
            DeviceKind::Switch => {
                &&& v2.switches.len() == v.switches.len() + 1
                &&& v2.label_of(DeviceId::Switch(v.switches.len() as usize)) == label_text("Switch"@, (v.switches.len() + 1) as int)
            },
            DeviceKind::Desktop => {
                &&& v2.desktops.len() == v.desktops.len() + 1
                &&& v2.label_of(DeviceId::Desktop(v.desktops.len() as usize)) == label_text("Desktop"@, (v.desktops.len() + 1) as int)
            },
        },
{
}

/// Adding a device keeps the MAC addresses of all interfaces (every router port, every switch
/// port, every desktop) pairwise distinct, as long as the MAC seed stays below 2^40 (the
/// numbers that `mac_bytes` tells apart). The empty repository has no interfaces, so this holds
/// after any sequence of `add` from `DeviceRepository::default()`.
pub proof fn lemma_added_macs_distinct(v: RepositoryView, v2: RepositoryView, kind: DeviceKind)
    requires
        v.macs_distinct(),
        added(v, v2, kind),
        v.mac_seed + mac_span(kind) <= u64::MAX,
        v2.mac_seed < 0x100_0000_0000,
    ensures
        v2.macs_distinct(),
{
    match kind {
        DeviceKind::Router => lemma_router_added_macs(v, v2),
        DeviceKind::Switch => lemma_switch_added_macs(v, v2),
        DeviceKind::Desktop => lemma_desktop_added_macs(v, v2),
    }
}

proof fn lemma_router_added_macs(v: RepositoryView, v2: RepositoryView)
    requires
        v.macs_distinct(),
        added(v, v2, DeviceKind::Router),
        v.mac_seed + 9 <= u64::MAX,
        v2.mac_seed < 0x100_0000_0000,
    ensures
        v2.macs_distinct(),
{
    let seed = (v.mac_seed + 1) as u64;
    let r = v2.routers.last();
    assert(r.is_seeded(v.ports.len(), seed));
    assert(forall|k: int| 0 <= k < 8 ==> (#[trigger] r.ports[k]).interface.ethernet.mac_address@ == mac_bytes((seed + k) as u64)) by {
        reveal(RouterView::is_seeded);
    }
    assert forall|i: int| 0 <= i < v.routers.len() implies #[trigger] v2.routers[i] == v.routers[i] by {
        assert(v2.routers.drop_last()[i] == v2.routers[i]);
    }
    assert forall|d: DeviceId, p: usize| #[trigger] v2.valid_port(d, p) && !v.has_device(d)
        implies v.mac_seed + 1 + mac_offset(d, p) <= v2.mac_seed
            && v2.mac_of(d, p) == mac_bytes((v.mac_seed + 1 + mac_offset(d, p)) as u64) by {
        match d {
            DeviceId::Router(i) => {
                assert(v2.routers[i as int] == r);
                assert(r.ports[p as int].interface.ethernet.mac_address@ == mac_bytes((seed + p) as u64));
            },
            _ => assert(v2.kind_len(d) == v.kind_len(d)),
        }
    }
    lemma_extended_macs(v, v2);
}

proof fn lemma_switch_added_macs(v: RepositoryView, v2: RepositoryView)
    requires
        v.macs_distinct(),
        added(v, v2, DeviceKind::Switch),
        v.mac_seed + 33 <= u64::MAX,
        v2.mac_seed < 0x100_0000_0000,
    ensures
        v2.macs_distinct(),
{
    let seed = (v.mac_seed + 1) as u64;
    let w = v2.switches.last();
    assert forall|i: int| 0 <= i < v.switches.len() implies #[trigger] v2.switches[i] == v.switches[i] by {
        assert(v2.switches.drop_last()[i] == v2.switches[i]);
    }
    assert forall|d: DeviceId, p: usize| #[trigger] v2.valid_port(d, p) && !v.has_device(d)
        implies v.mac_seed + 1 + mac_offset(d, p) <= v2.mac_seed
            && v2.mac_of(d, p) == mac_bytes((v.mac_seed + 1 + mac_offset(d, p)) as u64) by {
        match d {
            DeviceId::Switch(i) => {
                assert(v2.switches[i as int] == w);
                assert(w.ports[p as int].interface.mac_address@ == mac_bytes((seed + p + 1) as u64));
            },
            _ => assert(v2.kind_len(d) == v.kind_len(d)),
        }
    }
    lemma_extended_macs(v, v2);
}

proof fn lemma_desktop_added_macs(v: RepositoryView, v2: RepositoryView)
    requires
        v.macs_distinct(),
        added(v, v2, DeviceKind::Desktop),
        v.mac_seed + 2 <= u64::MAX,
        v2.mac_seed < 0x100_0000_0000,
    ensures
        v2.macs_distinct(),
{
    assert forall|i: int| 0 <= i < v.desktops.len() implies #[trigger] v2.desktops[i] == v.desktops[i] by {
        assert(v2.desktops.drop_last()[i] == v2.desktops[i]);
    }
    assert forall|d: DeviceId, p: usize| #[trigger] v2.valid_port(d, p) && !v.has_device(d)
        implies v.mac_seed + 1 + mac_offset(d, p) <= v2.mac_seed
            && v2.mac_of(d, p) == mac_bytes((v.mac_seed + 1 + mac_offset(d, p)) as u64) by {
        match d {
            DeviceId::Desktop(i) => assert(v2.desktops[i as int] == v2.desktops.last()),
            _ => assert(v2.kind_len(d) == v.kind_len(d)),
        }
    }
    lemma_extended_macs(v, v2);
}

/// The index, among the first `n` adjacencies, of the first one from port `p` of device `d`.
pub open spec fn find_adjacency(adj: Seq<Adjacency>, d: DeviceId, p: usize, n: int) -> Option<int>
    decreases n,
{
    if n <= 0 {
        None
    } else {
        match find_adjacency(adj, d, p, n - 1) {
            Some(k) => Some(k),
            None => if adj[n - 1].device == d && adj[n - 1].port == p {
                Some(n - 1)
            } else {
                None
            },
        }
    }
}

/// The first `n` adjacencies, without those from port `p1` of `d1` or from port `p2` of `d2`.
pub open spec fn without_ends(adj: Seq<Adjacency>, d1: DeviceId, p1: usize, d2: DeviceId, p2: usize, n: int) -> Seq<Adjacency>
    decreases n,
{
    if n <= 0 {
        Seq::empty()
    } else {
        let prev = without_ends(adj, d1, p1, d2, p2, n - 1);
        let a = adj[n - 1];
        if (a.device == d1 && a.port == p1) || (a.device == d2 && a.port == p2) {
            prev
        } else {
            prev.push(a)
        }
    }
}

/// Disconnecting port `port` of `id`: when an adjacency leaves that port, both ends of its cable
/// forget their adjacencies and are unplugged (see `device_disconnected`); otherwise nothing
/// happens.
pub open spec fn repository_disconnected(v: RepositoryView, id: DeviceId, port: usize) -> RepositoryView {
    match find_adjacency(v.adjacencies, id, port, v.adjacencies.len() as int) {
        Some(k) => {
            let a = v.adjacencies[k];
            let v1 = RepositoryView {
                adjacencies: without_ends(v.adjacencies, a.device, a.port, a.other, a.other_port, v.adjacencies.len() as int),
                ..v
            };
            v1.device_disconnected(a.device, a.port).device_disconnected(a.other, a.other_port)
        },
        None => v,
    }
}

/// No adjacency among the first `n` leaves port `p` of `d`.
pub open spec fn none_from(adj: Seq<Adjacency>, d: DeviceId, p: usize, n: int) -> bool {
    forall|k: int| 0 <= k < n ==> !((#[trigger] adj[k]).device == d && adj[k].port == p)
}

/// The search finds nothing exactly when no adjacency leaves the port.
proof fn lemma_find_adjacency_none(adj: Seq<Adjacency>, d: DeviceId, p: usize, n: int)
    requires
        0 <= n <= adj.len(),
    ensures
        find_adjacency(adj, d, p, n) is None <==> none_from(adj, d, p, n),
        find_adjacency(adj, d, p, n) matches Some(k) ==> 0 <= k < n && adj[k].device == d && adj[k].port == p,
    decreases n,
{
    if n > 0 {
        lemma_find_adjacency_none(adj, d, p, n - 1);
    }
}

/// Dropping the adjacencies from two ports leaves none from either, and keeps only earlier
/// adjacencies.
proof fn lemma_without_ends(adj: Seq<Adjacency>, d1: DeviceId, p1: usize, d2: DeviceId, p2: usize, n: int)
    requires
        0 <= n <= adj.len(),
    ensures
        none_from(without_ends(adj, d1, p1, d2, p2, n), d1, p1, without_ends(adj, d1, p1, d2, p2, n).len() as int),
        none_from(without_ends(adj, d1, p1, d2, p2, n), d2, p2, without_ends(adj, d1, p1, d2, p2, n).len() as int),
        forall|d: DeviceId, p: usize| none_from(adj, d, p, n)
            ==> #[trigger] none_from(without_ends(adj, d1, p1, d2, p2, n), d, p, without_ends(adj, d1, p1, d2, p2, n).len() as int),
    decreases n,
{
    if n > 0 {
        lemma_without_ends(adj, d1, p1, d2, p2, n - 1);
        let prev = without_ends(adj, d1, p1, d2, p2, n - 1);
        let r = without_ends(adj, d1, p1, d2, p2, n);
        assert forall|d: DeviceId, p: usize| none_from(adj, d, p, n) implies #[trigger] none_from(r, d, p, r.len() as int) by {
            assert(none_from(adj, d, p, n - 1));
            assert(none_from(prev, d, p, prev.len() as int));
            assert forall|k: int| 0 <= k < r.len() implies !((#[trigger] r[k]).device == d && r[k].port == p) by {
                if k < prev.len() {
                    assert(r[k] == prev[k]);
                } else {
                    assert(r[k] == adj[n - 1]);
                }
            }
        }
        assert forall|k: int| 0 <= k < r.len() implies !((#[trigger] r[k]).device == d1 && r[k].port == p1) by {
            if k < prev.len() {
                assert(r[k] == prev[k]);
            }
        }
        assert forall|k: int| 0 <= k < r.len() implies !((#[trigger] r[k]).device == d2 && r[k].port == p2) by {
            if k < prev.len() {
                assert(r[k] == prev[k]);
            }
        }
    }
}

/// Unplugging a device port leaves the adjacencies as they are.
proof fn lemma_device_disconnected_adjacencies(v: RepositoryView, d: DeviceId, p: usize)
    ensures
        v.device_disconnected(d, p).adjacencies == v.adjacencies,
{
}

/// After a port is disconnected no adjacency leaves it, and no adjacency leaves a port that
/// had none before.
pub proof fn lemma_disconnect_forgets(v: RepositoryView, id: DeviceId, port: usize)
    ensures
        find_adjacency(
            repository_disconnected(v, id, port).adjacencies,
            id,
            port,
            repository_disconnected(v, id, port).adjacencies.len() as int,
        ) is None,
        forall|d: DeviceId, p: usize| #[trigger] none_from(v.adjacencies, d, p, v.adjacencies.len() as int)
            ==> none_from(repository_disconnected(v, id, port).adjacencies, d, p, repository_disconnected(v, id, port).adjacencies.len() as int),
{
    let n = v.adjacencies.len() as int;
    let r = repository_disconnected(v, id, port);
    lemma_find_adjacency_none(v.adjacencies, id, port, n);
    match find_adjacency(v.adjacencies, id, port, n) {
        Some(k) => {
            let a = v.adjacencies[k];
            let v1 = RepositoryView { adjacencies: without_ends(v.adjacencies, a.device, a.port, a.other, a.other_port, n), ..v };
            lemma_without_ends(v.adjacencies, a.device, a.port, a.other, a.other_port, n);
            lemma_device_disconnected_adjacencies(v1, a.device, a.port);
            lemma_device_disconnected_adjacencies(v1.device_disconnected(a.device, a.port), a.other, a.other_port);
            assert(r.adjacencies == v1.adjacencies);
        },
        None => {},
    }
    lemma_find_adjacency_none(r.adjacencies, id, port, r.adjacencies.len() as int);
}

/// After two ports of different devices are connected, each port's adjacency leads to the
/// other port.
pub proof fn lemma_connect_records(v: RepositoryView, d1: DeviceId, p1: usize, d2: DeviceId, p2: usize)
    requires
        d1 != d2,
    ensures
        ({
            let adj = repository_connected(v, d1, p1, d2, p2).adjacencies;
            &&& find_adjacency(adj, d1, p1, adj.len() as int) == Some(adj.len() - 2)
            &&& find_adjacency(adj, d2, p2, adj.len() as int) == Some(adj.len() - 1)
            &&& adj[adj.len() - 2] == Adjacency { device: d1, port: p1, other: d2, other_port: p2 }
            &&& adj[adj.len() - 1] == Adjacency { device: d2, port: p2, other: d1, other_port: p1 }
        }),
{
    let v0 = repository_disconnected(v, d1, p1);
    let v1 = repository_disconnected(v0, d2, p2);
    lemma_disconnect_forgets(v, d1, p1);
    lemma_disconnect_forgets(v0, d2, p2);
    let m = v0.adjacencies.len() as int;
    lemma_find_adjacency_none(v0.adjacencies, d1, p1, m);
    assert(none_from(v0.adjacencies, d1, p1, m));
    let n = v1.adjacencies.len() as int;
    lemma_find_adjacency_none(v1.adjacencies, d1, p1, n);
    lemma_find_adjacency_none(v1.adjacencies, d2, p2, n);
    let adj = repository_connected(v, d1, p1, d2, p2).adjacencies;
    assert(adj.subrange(0, n) =~= v1.adjacencies);
    assert(v1.adjacencies.subrange(0, n) =~= v1.adjacencies);
    assert(find_adjacency(adj, d1, p1, n) == find_adjacency(v1.adjacencies, d1, p1, n)) by {
        lemma_find_adjacency_prefix(adj, v1.adjacencies, d1, p1, n);
    }
    assert(find_adjacency(adj, d2, p2, n) == find_adjacency(v1.adjacencies, d2, p2, n)) by {
        lemma_find_adjacency_prefix(adj, v1.adjacencies, d2, p2, n);
    }
    assert(adj.len() == n + 2);
    assert(find_adjacency(adj, d1, p1, n + 1) == Some(n));
    assert(find_adjacency(adj, d1, p1, n + 2) == Some(n));
    assert(find_adjacency(adj, d2, p2, n + 1) is None);
    assert(find_adjacency(adj, d2, p2, n + 2) == Some(n + 1));
}

/// The search among the first `n` adjacencies only reads those.
proof fn lemma_find_adjacency_prefix(a: Seq<Adjacency>, b: Seq<Adjacency>, d: DeviceId, p: usize, n: int)
    requires
        0 <= n <= a.len(),
        n <= b.len(),
        a.subrange(0, n) == b.subrange(0, n),
    ensures
        find_adjacency(a, d, p, n) == find_adjacency(b, d, p, n),
    decreases n,
{
    if n > 0 {
        assert(a[n - 1] == a.subrange(0, n)[n - 1]);
        assert(b[n - 1] == b.subrange(0, n)[n - 1]);
        assert(a.subrange(0, n - 1) =~= a.subrange(0, n).subrange(0, n - 1));
        assert(b.subrange(0, n - 1) =~= b.subrange(0, n).subrange(0, n - 1));
        lemma_find_adjacency_prefix(a, b, d, p, n - 1);
    }
}

/// Connecting port `p1` of `d1` to port `p2` of `d2` (two different devices): both ports are
/// disconnected first, then cabled together, and the adjacency is recorded from both ends.
pub open spec fn repository_connected(v: RepositoryView, d1: DeviceId, p1: usize, d2: DeviceId, p2: usize) -> RepositoryView {
    if d1 == d2 {
        v
    } else {
        let v1 = repository_disconnected(repository_disconnected(v, d1, p1), d2, p2);
        RepositoryView {
            ports: cabled(v1.ports, v1.port_of(d1, p1), v1.port_of(d2, p2)),
            adjacencies: v1.adjacencies.push(Adjacency { device: d1, port: p1, other: d2, other_port: p2 }).push(
                Adjacency { device: d2, port: p2, other: d1, other_port: p1 },
            ),
            ..v1
        }
    }
}


/// The first `k` routers ticked at `now`, one after the other.
pub open spec fn routers_ticked(rs: Seq<RouterView>, ports: Seq<EthernetPortView>, now: u128, k: int) -> (Seq<RouterView>, Seq<EthernetPortView>)
    decreases k,
{
    if k <= 0 {
        (rs, ports)
    } else {
        let prev = routers_ticked(rs, ports, now, k - 1);
        let r = router_ticked(prev.0[k - 1], prev.1, now);
        (prev.0.update(k - 1, r.0), r.1)
    }
}

/// The first `k` switches ticked at `now`, one after the other.
pub open spec fn switches_ticked(ss: Seq<SwitchView>, ports: Seq<EthernetPortView>, now: u128, k: int) -> (Seq<SwitchView>, Seq<EthernetPortView>)
    decreases k,
{
    if k <= 0 {
        (ss, ports)
    } else {
        let prev = switches_ticked(ss, ports, now, k - 1);
        let r = switch_ticked(prev.0[k - 1], prev.1, now);
        (prev.0.update(k - 1, r.0), r.1)
    }
}

/// The first `k` desktops ticked, one after the other: each receives its frames.
pub open spec fn desktops_ticked(ds: Seq<Ipv4InterfaceView>, ports: Seq<EthernetPortView>, k: int) -> (Seq<Ipv4InterfaceView>, Seq<EthernetPortView>)
    decreases k,
{
    if k <= 0 {
        (ds, ports)
    } else {
        let prev = desktops_ticked(ds, ports, k - 1);
        let r = receive_spec(prev.0[k - 1], prev.1);
        (prev.0.update(k - 1, r.0), r.1)
    }
}

/// One step of the whole network at `now`: every router ticks, then every switch, then every
/// desktop, each in the order they were added; then the simulator carries the frames they sent.
pub open spec fn repository_updated(v: RepositoryView, now: u128) -> RepositoryView {
    let r = routers_ticked(v.routers, v.ports, now, v.routers.len() as int);
    let s = switches_ticked(v.switches, r.1, now, v.switches.len() as int);
    let d = desktops_ticked(v.desktops, s.1, v.desktops.len() as int);
    RepositoryView { routers: r.0, switches: s.0, desktops: d.0, ports: carry_all(d.1, v.simulated), ..v }
}

// ----- Labels -----

/// The character of a decimal digit.
pub open spec fn digit_char(d: nat) -> char {
    ((48 + d) as u32) as char
}

/// The decimal digits of `n`, without leading zeros.
pub open spec fn decimal(n: nat) -> Seq<char>
    decreases n,
{
    if n < 10 {
        seq![digit_char(n)]
    } else {
        decimal(n / 10).push(digit_char(n % 10))
    }
}

/// The decimal text of `n`, with a minus sign when it is negative.
pub open spec fn int_text(n: int) -> Seq<char> {
    if n < 0 {
        seq!['-'] + decimal((-n) as nat)
    } else {
        decimal(n as nat)
    }
}

/// Calls `i32::to_string` (its `Display`): the decimal digits of `n`, with a minus sign when it
/// is negative.
#[verifier::external_body]
pub(crate) fn decimal_text(n: i32) -> (r: String)
    ensures
        r@ == int_text(n as int),
{
    n.to_string()
}

/// The label `prefix`, a space and the number `n`.
fn label_string(prefix: &str, n: i32) -> (r: String)
    ensures
        r@ == prefix@ + seq![' '] + int_text(n as int),
{
    let digits = decimal_text(n);
    let space = " ";
    proof {
        reveal_strlit(" ");
    }
    let label = String::from_str(prefix).concat(space).concat(digits.as_str());
    assert(space@ =~= seq![' ']);
    label
}

/// The label of a new device: its kind, a space and its number.
pub open spec fn label_text(kind: Seq<char>, n: int) -> Seq<char> {
    kind + seq![' '] + int_text(n)
}

/// How far adding a device of the kind moves the MAC seed.
pub open spec fn mac_span(kind: DeviceKind) -> nat {
    match kind {
        DeviceKind::Router => 9,
        DeviceKind::Switch => 33,
        DeviceKind::Desktop => 2,
    }
}

/// The number of the last label of the kind.
pub open spec fn label_seed(v: RepositoryView, kind: DeviceKind) -> i32 {
    match kind {
        DeviceKind::Router => v.label_seeds.0,
        DeviceKind::Switch => v.label_seeds.1,
        DeviceKind::Desktop => v.label_seeds.2,
    }
}

/// `v2` is `v` with a device of the kind added. The MAC seed moves on by one first; the device
/// takes the next label of its kind and new ports of the simulator, which carries them from then
/// on; a router takes the MAC addresses from the seed on, and the seed moves past them (8); so
/// does a switch (32, its priority being its label number as a `u16`); a desktop takes the MAC
/// address of the seed, which moves on by one.
pub open spec fn added(v: RepositoryView, v2: RepositoryView, kind: DeviceKind) -> bool {
    let n = v.ports.len();
    let seed = (v.mac_seed + 1) as u64;
    match kind {
        DeviceKind::Router => {
            let label = (v.label_seeds.0 + 1) as i32;
            &&& v2 == RepositoryView {
                routers: v2.routers,
                router_labels: v.router_labels.push(label_text("Router"@, label as int)),
                label_seeds: (label, v.label_seeds.1, v.label_seeds.2),
                ports: v.ports + Seq::new(8, |k: int| empty_port()),
                simulated: v.simulated + Seq::new(8, |k: int| (n + k) as usize),
                mac_seed: (seed + 8) as u64,
                ..v
            }
            &&& v2.routers.len() == v.routers.len() + 1
            &&& v2.routers.drop_last() == v.routers
            &&& v2.routers.last().is_seeded(n, seed)
        },
        DeviceKind::Switch => {
            let label = (v.label_seeds.1 + 1) as i32;
            &&& v2 == RepositoryView {
                switches: v2.switches,
                switch_labels: v.switch_labels.push(label_text("Switch"@, label as int)),
                label_seeds: (v.label_seeds.0, label, v.label_seeds.2),
                ports: v.ports + Seq::new(32, |k: int| empty_port()),
                simulated: v.simulated + Seq::new(32, |k: int| (n + k) as usize),
                mac_seed: (seed + 32) as u64,
                ..v
            }
            &&& v2.switches.len() == v.switches.len() + 1
            &&& v2.switches.drop_last() == v.switches
            &&& v2.switches.last().is_seeded(n, seed, label as u16)
        },
        DeviceKind::Desktop => {
            let label = (v.label_seeds.2 + 1) as i32;
            &&& v2 == RepositoryView {
                desktops: v2.desktops,
                desktop_labels: v.desktop_labels.push(label_text("Desktop"@, label as int)),
                label_seeds: (v.label_seeds.0, v.label_seeds.1, label),
                ports: v.ports.push(empty_port()),
                simulated: v.simulated.push(n as usize),
                mac_seed: (seed + 1) as u64,
                ..v
            }
            &&& v2.desktops.len() == v.desktops.len() + 1
            &&& v2.desktops.drop_last() == v.desktops
            &&& v2.desktops.last() == (Ipv4InterfaceView {
                ethernet: EthernetInterface { port: n as usize, mac_address: v2.desktops.last().ethernet.mac_address },
                ip_address: seq![192u8, 168, 1, 1],
                subnet_mask: seq![255u8, 255, 255, 0],
                default_gateway: None,
                arp_buf: Seq::empty(),
                arp_table: Map::empty(),
                router_interface: false,
            })
            &&& v2.desktops.last().ethernet.mac_address@ == mac_bytes(seed)
        },
    }
}

// ----- Repository -----

/// A router of the repository.
pub struct RouterDevice {
    pub id: usize,
    pub label: String,
    pub router: Router,
}

/// A switch of the repository.
pub struct SwitchDevice {
    pub id: usize,
    pub label: String,
    pub switch: Switch,
}

/// A desktop of the repository.
pub struct DesktopDevice {
    pub id: usize,
    pub label: String,
    pub desktop: Desktop,
}

/// The devices of a simulated network and the simulator that carries frames between them.
pub struct DeviceRepository {
    routers: Vec<RouterDevice>,
    switches: Vec<SwitchDevice>,
    desktops: Vec<DesktopDevice>,
    /// The numbers of the last router, switch and desktop labels.
    label_seeds: (i32, i32, i32),
    adjacencies: Vec<Adjacency>,
    cable_simulator: CableSimulator,
    mac_seed: u64,
}

impl View for DeviceRepository {
    type V = RepositoryView;

    closed spec fn view(&self) -> RepositoryView {
        RepositoryView {
            routers: self.routers@.map_values(|d: RouterDevice| d.router@),
            switches: self.switches@.map_values(|d: SwitchDevice| d.switch@),
            desktops: self.desktops@.map_values(|d: DesktopDevice| d.desktop.interface@),
            router_labels: self.routers@.map_values(|d: RouterDevice| d.label@),
            switch_labels: self.switches@.map_values(|d: SwitchDevice| d.label@),
            desktop_labels: self.desktops@.map_values(|d: DesktopDevice| d.label@),
            label_seeds: self.label_seeds,
            adjacencies: self.adjacencies@,
            ports: self.cable_simulator@.ports,
            simulated: self.cable_simulator@.simulated,
            mac_seed: self.mac_seed,
        }
    }
}

impl DeviceRepository {
    /// The devices know their own indices, the simulator is valid, and so is the abstract state.
    pub closed spec fn wf(&self) -> bool {
        &&& self.cable_simulator.wf()
        &&& self@.wf()
        &&& forall|i: int| 0 <= i < self.routers@.len() ==> (#[trigger] self.routers@[i]).id == i
        &&& forall|i: int| 0 <= i < self.switches@.len() ==> (#[trigger] self.switches@[i]).id == i
        &&& forall|i: int| 0 <= i < self.desktops@.len() ==> (#[trigger] self.desktops@[i]).id == i
    }

    /// Adds a device of the given kind; see `added`.
    pub fn add(&mut self, kind: DeviceKind)
        requires
            old(self).wf(),
            old(self)@.mac_seed + mac_span(kind) <= u64::MAX,
            label_seed(old(self)@, kind) < i32::MAX,
        ensures
            final(self).wf(),
            added(old(self)@, final(self)@, kind),
            old(self)@.macs_distinct() && final(self)@.mac_seed < 0x100_0000_0000 ==> final(self)@.macs_distinct(),
    {
        match kind {
            DeviceKind::Router => self.add_router(),
            DeviceKind::Switch => self.add_switch(),
            DeviceKind::Desktop => self.add_desktop(),
        }
        proof {
            if old(self)@.macs_distinct() && self@.mac_seed < 0x100_0000_0000 {
                lemma_added_macs_distinct(old(self)@, self@, kind);
            }
        }
    }

    /// Adds a router; see `added`.
    fn add_router(&mut self)
        requires
            old(self).wf(),
            old(self)@.mac_seed + 9 <= u64::MAX,
            old(self)@.label_seeds.0 < i32::MAX,
        ensures
            final(self).wf(),
            added(old(self)@, final(self)@, DeviceKind::Router),
    {
        let ghost v = self@;
        let ghost n = self@.ports.len();
        self.mac_seed = self.mac_seed + 1;
        self.label_seeds.0 = self.label_seeds.0 + 1;
        let label = self.label_seeds.0;
        let router = Router::from_seed(&mut self.cable_simulator, self.mac_seed);
        let ghost rv = router@;
        let ports = router.ports();
        assert(ports@ =~= Seq::new(8, |k: int| (n + k) as usize)) by {
            assert forall|k: int| 0 <= k < 8 implies ports@[k] == (n + k) as usize by {
                assert(router@.ports[k].interface.ethernet.port == (n + k) as usize);
            }
        }
        self.cable_simulator.adds(ports);
        let id = self.routers.len();
        self.routers.push(RouterDevice { id, label: label_string("Router", label), router });
        self.mac_seed = self.mac_seed + 8;
        proof {
            let v2 = self@;
            assert(v2.routers.drop_last() =~= v.routers);
            assert(v2.router_labels =~= v.router_labels.push(label_text("Router"@, label as int)));
            assert(v2.switches =~= v.switches);
            assert(v2.desktops =~= v.desktops);
            assert(v2.switch_labels =~= v.switch_labels);
            assert(v2.desktop_labels =~= v.desktop_labels);
            assert forall|d: DeviceId, p: usize| #[trigger] v2.valid_port(d, p) && !v.has_device(d)
                implies v2.port_of(d, p) == n + slot(d, p) by {
                match d {
                    DeviceId::Router(i) => {
                        assert(v2.routers[i as int] == rv);
                        assert(rv.ports[p as int].interface.ethernet.port == n + p);
                    },
                    _ => assert(v2.kind_len(d) == v.kind_len(d)),
                }
            }
            lemma_extended_wf(v, v2);
        }
    }

    /// Adds a switch; see `added`.
    fn add_switch(&mut self)
        requires
            old(self).wf(),
            old(self)@.mac_seed + 33 <= u64::MAX,
            old(self)@.label_seeds.1 < i32::MAX,
        ensures
            final(self).wf(),
            added(old(self)@, final(self)@, DeviceKind::Switch),
    {
        let ghost v = self@;
        let ghost n = self@.ports.len();
        self.mac_seed = self.mac_seed + 1;
        self.label_seeds.1 = self.label_seeds.1 + 1;
        let label = self.label_seeds.1;
        let switch = Switch::from_seed(&mut self.cable_simulator, self.mac_seed, label as u16);
        let ports = switch.ports();
        assert(ports@ =~= Seq::new(32, |k: int| (n + k) as usize)) by {
            assert forall|k: int| 0 <= k < 32 implies ports@[k] == (n + k) as usize by {
                assert(switch@.ports[k].interface.port == n + k);
            }
        }
        self.cable_simulator.adds(ports);
        let id = self.switches.len();
        self.switches.push(SwitchDevice { id, label: label_string("Switch", label), switch });
        self.mac_seed = self.mac_seed + 32;
        proof {
            let v2 = self@;
            assert(v2.switches.drop_last() =~= v.switches);
            assert(v2.switch_labels =~= v.switch_labels.push(label_text("Switch"@, label as int)));
            assert(v2.routers =~= v.routers);
            assert(v2.desktops =~= v.desktops);
            assert(v2.router_labels =~= v.router_labels);
            assert(v2.desktop_labels =~= v.desktop_labels);
            assert forall|d: DeviceId, p: usize| #[trigger] v2.valid_port(d, p) && !v.has_device(d)
                implies v2.port_of(d, p) == n + slot(d, p) by {
                assert(v2.switches[d.index() as int].ports[p as int].interface.port == n + p);
            }
            lemma_extended_wf(v, v2);
        }
    }

    /// Adds a desktop; see `added`.
    fn add_desktop(&mut self)
        requires
            old(self).wf(),
            old(self)@.mac_seed + 2 <= u64::MAX,
            old(self)@.label_seeds.2 < i32::MAX,
        ensures
            final(self).wf(),
            added(old(self)@, final(self)@, DeviceKind::Desktop),
    {
        let ghost v = self@;
        let ghost n = self@.ports.len();
        self.mac_seed = self.mac_seed + 1;
        self.label_seeds.2 = self.label_seeds.2 + 1;
        let label = self.label_seeds.2;
        let desktop = Desktop::from_seed(&mut self.cable_simulator, self.mac_seed);
        let ghost dv = desktop.interface@;
        self.cable_simulator.add(desktop.interface.ethernet().port);
        let id = self.desktops.len();
        self.desktops.push(DesktopDevice { id, label: label_string("Desktop", label), desktop });
        self.mac_seed = self.mac_seed + 1;
        proof {
            let v2 = self@;
            assert(v2.desktops.drop_last() =~= v.desktops);
            assert(v2.desktop_labels =~= v.desktop_labels.push(label_text("Desktop"@, label as int)));
            assert(v2.routers =~= v.routers);
            assert(v2.switches =~= v.switches);
            assert(v2.router_labels =~= v.router_labels);
            assert(v2.switch_labels =~= v.switch_labels);
            assert forall|d: DeviceId, p: usize| #[trigger] v2.valid_port(d, p) && !v.has_device(d)
                implies v2.port_of(d, p) == n + slot(d, p) by {
                match d {
                    DeviceId::Desktop(i) => assert(v2.desktops[i as int] == dv),
                    _ => assert(v2.kind_len(d) == v.kind_len(d)),
                }
            }
            lemma_extended_wf(v, v2);
        }
    }

    /// The index of the first adjacency from port `port` of `id`.
    fn find_adjacency(&self, id: DeviceId, port: usize) -> (r: Option<usize>)
        ensures
            r matches Some(k) ==> k < self.adjacencies@.len()
                && find_adjacency(self@.adjacencies, id, port, self@.adjacencies.len() as int) == Some(k as int),
            r is None ==> find_adjacency(self@.adjacencies, id, port, self@.adjacencies.len() as int) is None,
    {
        let mut i: usize = 0;
        while i < self.adjacencies.len()
            invariant
                0 <= i <= self.adjacencies@.len(),
                find_adjacency(self@.adjacencies, id, port, i as int) is None,
            decreases self.adjacencies@.len() - i,
        {
            let a = self.adjacencies[i];
            if a.device == id && a.port == port {
                assert(find_adjacency(self@.adjacencies, id, port, i + 1) == Some(i as int));
                proof {
                    lemma_find_adjacency_stable(self@.adjacencies, id, port, i + 1, self@.adjacencies.len() as int);
                }
                return Some(i);
            }
            i = i + 1;
        }
        None
    }

    /// Forgets the adjacencies from port `p1` of `d1` and from port `p2` of `d2`.
    fn remove_ends(&mut self, d1: DeviceId, p1: usize, d2: DeviceId, p2: usize)
        requires
            old(self).wf(),
        ensures
            final(self).wf(),
            final(self)@ == (RepositoryView {
                adjacencies: without_ends(old(self)@.adjacencies, d1, p1, d2, p2, old(self)@.adjacencies.len() as int),
                ..old(self)@
            }),
            final(self)@.keeps_ports_of(old(self)@),
    {
        let ghost v = self@;
        let mut kept: Vec<Adjacency> = Vec::new();
        let mut i: usize = 0;
        while i < self.adjacencies.len()
            invariant
                0 <= i <= self.adjacencies@.len(),
                self@ == v,
                kept@ == without_ends(v.adjacencies, d1, p1, d2, p2, i as int),
                forall|k: int| 0 <= k < kept@.len() ==> v.adjacencies.contains(#[trigger] kept@[k]),
            decreases self.adjacencies@.len() - i,
        {
            let a = self.adjacencies[i];
            if !((a.device == d1 && a.port == p1) || (a.device == d2 && a.port == p2)) {
                kept.push(a);
                assert(v.adjacencies[i as int] == a);
            }
            i = i + 1;
        }
        self.adjacencies = kept;
        proof {
            let v2 = self@;
            assert(v2.routers == v.routers && v2.switches == v.switches && v2.desktops == v.desktops);
            lemma_same_devices_wf(v, v2);
        }
    }

    /// Unplugs port `p` of device `d`; see `RepositoryView::device_disconnected`.
    fn disconnect_device(&mut self, d: DeviceId, p: usize)
        requires
            old(self).wf(),
            old(self)@.valid_port(d, p),
        ensures
            final(self).wf(),
            final(self)@ == old(self)@.device_disconnected(d, p),
            final(self)@.keeps_ports_of(old(self)@),
    {
        let ghost v = self@;
        let ghost n = v.ports.len();
        proof {
            use_wf_device(v, d);
        }
        match d {
            DeviceId::Desktop(i) => {
                self.desktops[i].desktop.interface.disconnect(&mut self.cable_simulator);
                proof {
                    let v2 = self@;
                    assert(v2.desktops =~= v.desktops);
                    assert(v2.routers =~= v.routers);
                    assert(v2.switches =~= v.switches);
                    assert(v2.router_labels =~= v.router_labels);
                    assert(v2.switch_labels =~= v.switch_labels);
                    assert(v2.desktop_labels =~= v.desktop_labels);
                    lemma_same_devices_wf(v, v2);
                }
            },
            DeviceId::Switch(i) => {
                self.switches[i].switch.disconnect(&mut self.cable_simulator, p);
                proof {
                    let v2 = self@;
                    assert(v2.switches =~= v.switches.update(i as int, v2.switches[i as int]));
                    assert(v2.desktops =~= v.desktops);
                    assert(v2.routers =~= v.routers);
                    assert(v2.router_labels =~= v.router_labels);
                    assert(v2.switch_labels =~= v.switch_labels);
                    assert(v2.desktop_labels =~= v.desktop_labels);
                    lemma_same_devices_wf(v, v2);
                }
            },
            DeviceId::Router(i) => {
                self.routers[i].router.disconnect(&mut self.cable_simulator, p);
                proof {
                    let v2 = self@;
                    assert(v2.routers =~= v.routers.update(i as int, v2.routers[i as int]));
                    assert(v2.desktops =~= v.desktops);
                    assert(v2.switches =~= v.switches);
                    assert(v2.router_labels =~= v.router_labels);
                    assert(v2.switch_labels =~= v.switch_labels);
                    assert(v2.desktop_labels =~= v.desktop_labels);
                    lemma_same_devices_wf(v, v2);
                }
            },
        }
    }

    /// Disconnects port `port` of device `id`: when an adjacency leaves that port, both ends of
    /// its cable forget their adjacencies and are unplugged; see `repository_disconnected`.
    pub fn disconnect(&mut self, id: DeviceId, port: usize)
        requires
            old(self).wf(),
        ensures
            final(self).wf(),
            final(self)@ == repository_disconnected(old(self)@, id, port),
            final(self)@.keeps_ports_of(old(self)@),
    {
        let ghost v = self@;
        match self.find_adjacency(id, port) {
            Some(k) => {
                let a = self.adjacencies[k];
                proof {
                    assert(self@.valid_port(a.device, a.port) && self@.valid_port(a.other, a.other_port));
                }
                self.remove_ends(a.device, a.port, a.other, a.other_port);
                let ghost v1 = self@;
                self.disconnect_device(a.device, a.port);
                let ghost v2 = self@;
                self.disconnect_device(a.other, a.other_port);
                proof {
                    lemma_keeps_ports_of_trans(v2, v1, v);
                    lemma_keeps_ports_of_trans(self@, v2, v);
                }
            },
            None => {},
        }
        proof {
            if self@ == v {
                lemma_keeps_ports_of_refl(v);
            }
        }
    }

    /// The simulator port of port `p` of device `d`.
    fn sim_port(&self, d: DeviceId, p: usize) -> (r: usize)
        requires
            self.wf(),
            self@.valid_port(d, p),
        ensures
            r == self@.port_of(d, p),
            r < self@.ports.len(),
    {
        proof {
            use_wf_device(self@, d);
        }
        match d {
            DeviceId::Router(i) => {
                let ports = self.routers[i].router.ports();
                ports[p]
            },
            DeviceId::Switch(i) => {
                let ports = self.switches[i].switch.ports();
                ports[p]
            },
            DeviceId::Desktop(i) => self.desktops[i].desktop.interface.ethernet().port,
        }
    }

    /// Connects port `p1` of `d1` to port `p2` of `d2` with a cable, after disconnecting both
    /// ports, and records the adjacency from both ends; nothing happens when `d1` and `d2` are
    /// the same device. See `repository_connected`.
    pub fn connect(&mut self, d1: DeviceId, p1: usize, d2: DeviceId, p2: usize)
        requires
            old(self).wf(),
            d1 != d2 ==> old(self)@.valid_port(d1, p1) && old(self)@.valid_port(d2, p2),
        ensures
            final(self).wf(),
            final(self)@ == repository_connected(old(self)@, d1, p1, d2, p2),
            final(self)@.keeps_ports_of(old(self)@),
            d1 != d2 ==> final(self)@.ports[old(self)@.port_of(d1, p1) as int].connection == Some(old(self)@.port_of(d2, p2)),
            d1 != d2 ==> final(self)@.ports[old(self)@.port_of(d2, p2) as int].connection == Some(old(self)@.port_of(d1, p1)),
    {
        let ghost v = self@;
        if d1 == d2 {
            proof {
                lemma_keeps_ports_of_refl(v);
            }
            return;
        }
        self.disconnect(d1, p1);
        let ghost v0 = self@;
        self.disconnect(d2, p2);
        let ghost v1 = self@;
        proof {
            lemma_keeps_ports_of_trans(v1, v0, v);
        }
        let a = self.sim_port(d1, p1);
        let b = self.sim_port(d2, p2);
        assert(a != b) by {
            if a == b {
                assert(v1.port_of(d1, p1) == v1.port_of(d2, p2));
            }
        }
        self.cable_simulator.connect(a, b);
        proof {
            let v3 = self@;
            assert(v3.routers == v1.routers && v3.switches == v1.switches && v3.desktops == v1.desktops);
            assert forall|k: int| 0 <= k < v3.adjacencies.len() implies v1.adjacencies.contains(#[trigger] v3.adjacencies[k]) by {
                assert(v1.adjacencies[k] == v3.adjacencies[k]);
            }
            lemma_same_devices_wf(v1, v3);
        }
        let e1 = Adjacency { device: d1, port: p1, other: d2, other_port: p2 };
        let e2 = Adjacency { device: d2, port: p2, other: d1, other_port: p1 };
        proof {
            lemma_push_adjacency(self@, e1);
        }
        self.adjacencies.push(e1);
        proof {
            lemma_push_adjacency(self@, e2);
        }
        self.adjacencies.push(e2);
        proof {
            assert(self@.keeps_ports_of(v1));
            lemma_keeps_ports_of_trans(self@, v1, v);
        }
    }

    /// One step of the whole network at `now`; see `repository_updated`.
    pub fn update(&mut self, now: u128)
        requires
            old(self).wf(),
            now + 15 * NANOS_PER_SEC <= u128::MAX,
        ensures
            final(self).wf(),
            final(self)@ == repository_updated(old(self)@, now),
            final(self)@.keeps_ports_of(old(self)@),
    {
        let ghost v = self@;
        self.tick_routers(now);
        let ghost v1 = self@;
        self.tick_switches(now);
        let ghost v2 = self@;
        self.tick_desktops();
        let ghost v3 = self@;
        self.cable_simulator.tick();
        proof {
            let v4 = self@;
            assert(v4.routers == v3.routers && v4.switches == v3.switches && v4.desktops == v3.desktops);
            assert forall|k: int| 0 <= k < v4.adjacencies.len() implies v3.adjacencies.contains(#[trigger] v4.adjacencies[k]) by {
                assert(v3.adjacencies[k] == v4.adjacencies[k]);
            }
            lemma_same_devices_wf(v3, v4);
            lemma_keeps_ports_of_trans(v2, v1, v);
            lemma_keeps_ports_of_trans(v3, v2, v);
            lemma_keeps_ports_of_trans(v4, v3, v);
        }
    }

    /// Ticks every router, in order.
    fn tick_routers(&mut self, now: u128)
        requires
            old(self).wf(),
            now + 15 * NANOS_PER_SEC <= u128::MAX,
        ensures
            final(self).wf(),
            final(self)@ == (RepositoryView {
                routers: routers_ticked(old(self)@.routers, old(self)@.ports, now, old(self)@.routers.len() as int).0,
                ports: routers_ticked(old(self)@.routers, old(self)@.ports, now, old(self)@.routers.len() as int).1,
                ..old(self)@
            }),
            final(self)@.keeps_ports_of(old(self)@),
    {
        let ghost v = self@;
        let ghost n = v.ports.len();
        let mut i: usize = 0;
        while i < self.routers.len()
            invariant
                0 <= i <= self.routers@.len(),
                v.wf(),
                self.cable_simulator.wf(),
                now + 15 * NANOS_PER_SEC <= u128::MAX,
                self@.ports.len() == n,
                self@ == (RepositoryView {
                    routers: routers_ticked(v.routers, v.ports, now, i as int).0,
                    ports: routers_ticked(v.routers, v.ports, now, i as int).1,
                    ..v
                }),
                self@.routers.len() == v.routers.len(),
                forall|j: int| 0 <= j < v.routers.len() ==> (#[trigger] self@.routers[j]).wf(n) && self@.routers[j].same_ports(v.routers[j]),
                forall|j: int| 0 <= j < self.routers@.len() ==> (#[trigger] self.routers@[j]).id == j,
                forall|j: int| 0 <= j < self.switches@.len() ==> (#[trigger] self.switches@[j]).id == j,
                forall|j: int| 0 <= j < self.desktops@.len() ==> (#[trigger] self.desktops@[j]).id == j,
            decreases self.routers@.len() - i,
        {
            let ghost before = self@;
            assert(before.routers[i as int].wf(n));
            self.routers[i].router.tick(&mut self.cable_simulator, now);
            proof {
                let after = self@;
                assert(after.routers =~= before.routers.update(i as int, after.routers[i as int]));
                assert(after.router_labels =~= before.router_labels);
                assert(after.routers[i as int].same_ports(v.routers[i as int])) by {
                    assert(before.routers[i as int].same_ports(v.routers[i as int]));
                }
            }
            i = i + 1;
        }
        proof {
            lemma_same_devices_wf(v, self@);
        }
    }

    /// Ticks every switch, in order.
    fn tick_switches(&mut self, now: u128)
        requires
            old(self).wf(),
            now + 15 * NANOS_PER_SEC <= u128::MAX,
        ensures
            final(self).wf(),
            final(self)@ == (RepositoryView {
                switches: switches_ticked(old(self)@.switches, old(self)@.ports, now, old(self)@.switches.len() as int).0,
                ports: switches_ticked(old(self)@.switches, old(self)@.ports, now, old(self)@.switches.len() as int).1,
                ..old(self)@
            }),
            final(self)@.keeps_ports_of(old(self)@),
    {
        let ghost v = self@;
        let ghost n = v.ports.len();
        let mut i: usize = 0;
        while i < self.switches.len()
            invariant
                0 <= i <= self.switches@.len(),
                v.wf(),
                self.cable_simulator.wf(),
                now + 15 * NANOS_PER_SEC <= u128::MAX,
                self@.ports.len() == n,
                self@ == (RepositoryView {
                    switches: switches_ticked(v.switches, v.ports, now, i as int).0,
                    ports: switches_ticked(v.switches, v.ports, now, i as int).1,
                    ..v
                }),
                self@.switches.len() == v.switches.len(),
                forall|j: int| 0 <= j < v.switches.len() ==> (#[trigger] self@.switches[j]).wf(n) && self@.switches[j].same_ports(v.switches[j]),
                forall|j: int| 0 <= j < self.routers@.len() ==> (#[trigger] self.routers@[j]).id == j,
                forall|j: int| 0 <= j < self.switches@.len() ==> (#[trigger] self.switches@[j]).id == j,
                forall|j: int| 0 <= j < self.desktops@.len() ==> (#[trigger] self.desktops@[j]).id == j,
            decreases self.switches@.len() - i,
        {
            let ghost before = self@;
            assert(before.switches[i as int].wf(n));
            self.switches[i].switch.tick(&mut self.cable_simulator, now);
            proof {
                let after = self@;
                assert(after.switches =~= before.switches.update(i as int, after.switches[i as int]));
                assert(after.switch_labels =~= before.switch_labels);
                assert(after.switches[i as int].same_ports(v.switches[i as int])) by {
                    assert(before.switches[i as int].same_ports(v.switches[i as int]));
                }
            }
            i = i + 1;
        }
        proof {
            lemma_same_devices_wf(v, self@);
        }
    }

    /// Ticks every desktop, in order.
    fn tick_desktops(&mut self)
        requires
            old(self).wf(),
        ensures
            final(self).wf(),
            final(self)@ == (RepositoryView {
                desktops: desktops_ticked(old(self)@.desktops, old(self)@.ports, old(self)@.desktops.len() as int).0,
                ports: desktops_ticked(old(self)@.desktops, old(self)@.ports, old(self)@.desktops.len() as int).1,
                ..old(self)@
            }),
            final(self)@.keeps_ports_of(old(self)@),
    {
        let ghost v = self@;
        let ghost n = v.ports.len();
        let mut i: usize = 0;
        while i < self.desktops.len()
            invariant
                0 <= i <= self.desktops@.len(),
                v.wf(),
                n == v.ports.len(),
                self.cable_simulator.wf(),
                self@.ports.len() == n,
                self@ == (RepositoryView {
                    desktops: desktops_ticked(v.desktops, v.ports, i as int).0,
                    ports: desktops_ticked(v.desktops, v.ports, i as int).1,
                    ..v
                }),
                self@.desktops.len() == v.desktops.len(),
                forall|j: int| 0 <= j < v.desktops.len() ==> (#[trigger] self@.desktops[j]).ethernet == v.desktops[j].ethernet,
                forall|j: int| 0 <= j < self.routers@.len() ==> (#[trigger] self.routers@[j]).id == j,
                forall|j: int| 0 <= j < self.switches@.len() ==> (#[trigger] self.switches@[j]).id == j,
                forall|j: int| 0 <= j < self.desktops@.len() ==> (#[trigger] self.desktops@[j]).id == j,
            decreases self.desktops@.len() - i,
        {
            let ghost before = self@;
            proof {
                use_wf_device(v, DeviceId::Desktop(i));
            }
            assert(self@.desktops[i as int].ethernet == v.desktops[i as int].ethernet);
            self.desktops[i].desktop.tick(&mut self.cable_simulator, 0);
            proof {
                let after = self@;
                assert(after.desktops =~= before.desktops.update(i as int, after.desktops[i as int]));
                assert(after.desktop_labels =~= before.desktop_labels);
            }
            i = i + 1;
        }
        proof {
            lemma_same_devices_wf(v, self@);
        }
    }

    /// The label of device `id`, when it is a device of the repository.
    pub fn label(&self, id: DeviceId) -> (r: Option<&str>)
        requires
            self.wf(),
        ensures
            r is Some <==> self@.has_device(id),
            r matches Some(l) ==> l@ == self@.label_of(id),
    {
        match id {
            DeviceId::Router(i) => if i < self.routers.len() {
                Some(self.routers[i].label.as_str())
            } else {
                None
            },
            DeviceId::Switch(i) => if i < self.switches.len() {
                Some(self.switches[i].label.as_str())
            } else {
                None
            },
            DeviceId::Desktop(i) => if i < self.desktops.len() {
                Some(self.desktops[i].label.as_str())
            } else {
                None
            },
        }
    }

    /// The number of ports of device `id`, when it is a device of the repository.
    pub fn ports_len(&self, id: DeviceId) -> (r: Option<usize>)
        ensures
            r == (if self@.has_device(id) { Some(port_count(id) as usize) } else { None }),
    {
        match id {
            DeviceId::Router(i) => if i < self.routers.len() {
                Some(8)
            } else {
                None
            },
            DeviceId::Switch(i) => if i < self.switches.len() {
                Some(32)
            } else {
                None
            },
            DeviceId::Desktop(i) => if i < self.desktops.len() {
                Some(1)
            } else {
                None
            },
        }
    }

    /// The device and port at the other end of the cable recorded from port `port` of `id`.
    pub fn adjacent(&self, id: DeviceId, port: usize) -> (r: Option<(DeviceId, usize)>)
        ensures
            r == (match find_adjacency(self@.adjacencies, id, port, self@.adjacencies.len() as int) {
                Some(k) => Some((self@.adjacencies[k].other, self@.adjacencies[k].other_port)),
                None => None::<(DeviceId, usize)>,
            }),
    {
        match self.find_adjacency(id, port) {
            Some(k) => Some((self.adjacencies[k].other, self.adjacencies[k].other_port)),
            None => None,
        }
    }

    /// The router with index `i`.
    pub fn router(&self, i: usize) -> (r: Option<&Router>)
        ensures
            r is Some <==> i < self@.routers.len(),
            r matches Some(rt) ==> rt@ == self@.routers[i as int],
    {
        if i < self.routers.len() {
            Some(&self.routers[i].router)
        } else {
            None
        }
    }

    /// The switch with index `i`.
    pub fn switch(&self, i: usize) -> (r: Option<&Switch>)
        ensures
            r is Some <==> i < self@.switches.len(),
            r matches Some(sw) ==> sw@ == self@.switches[i as int],
    {
        if i < self.switches.len() {
            Some(&self.switches[i].switch)
        } else {
            None
        }
    }

    /// The desktop with index `i`.
    pub fn desktop(&self, i: usize) -> (r: Option<&Desktop>)
        ensures
            r is Some <==> i < self@.desktops.len(),
            r matches Some(dt) ==> dt.interface@ == self@.desktops[i as int],
    {
        if i < self.desktops.len() {
            Some(&self.desktops[i].desktop)
        } else {
            None
        }
    }

    /// The simulator that carries the frames between the devices.
    pub fn simulator(&self) -> (r: &CableSimulator)
        ensures
            r@.ports == self@.ports,
            r@.simulated == self@.simulated,
    {
        &self.cable_simulator
    }
}

/// Recording a cable between two ports of the repository keeps it well formed.
proof fn lemma_push_adjacency(v: RepositoryView, a: Adjacency)
    requires
        v.wf(),
        v.valid_port(a.device, a.port),
        v.valid_port(a.other, a.other_port),
    ensures
        (RepositoryView { adjacencies: v.adjacencies.push(a), ..v }).wf(),
{
    let v2 = RepositoryView { adjacencies: v.adjacencies.push(a), ..v };
    assert forall|d1: DeviceId, p1: usize, d2: DeviceId, p2: usize|
        v2.valid_port(d1, p1) && v2.valid_port(d2, p2) && #[trigger] v2.port_of(d1, p1) == #[trigger] v2.port_of(d2, p2)
        implies d1 == d2 && (d1 is Desktop || p1 == p2) by {
        assert(v.port_of(d1, p1) == v2.port_of(d1, p1) && v.port_of(d2, p2) == v2.port_of(d2, p2));
    }
    assert forall|k: int| 0 <= k < v2.adjacencies.len() implies v2.valid_port((#[trigger] v2.adjacencies[k]).device, v2.adjacencies[k].port)
        && v2.valid_port(v2.adjacencies[k].other, v2.adjacencies[k].other_port) by {
        if k < v.adjacencies.len() {
            assert(v2.adjacencies[k] == v.adjacencies[k]);
        }
    }
}

/// A device of a well-formed repository is valid in its port table.
proof fn use_wf_device(v: RepositoryView, d: DeviceId)
    requires
        v.wf(),
        v.has_device(d),
    ensures
        match d {
            DeviceId::Router(i) => v.routers[i as int].wf(v.ports.len()),
            DeviceId::Switch(i) => v.switches[i as int].wf(v.ports.len()),
            DeviceId::Desktop(i) => v.desktops[i as int].ethernet.port < v.ports.len(),
        },
{
    match d {
        DeviceId::Router(i) => assert(v.routers[i as int].wf(v.ports.len())),
        DeviceId::Switch(i) => assert(v.switches[i as int].wf(v.ports.len())),
        DeviceId::Desktop(i) => assert(v.desktops[i as int].ethernet.port < v.ports.len()),
    }
}

/// Keeping the ports is reflexive.
proof fn lemma_keeps_ports_of_refl(v: RepositoryView)
    ensures
        v.keeps_ports_of(v),
{
}

/// Keeping the ports is transitive.
proof fn lemma_keeps_ports_of_trans(a: RepositoryView, b: RepositoryView, c: RepositoryView)
    requires
        a.keeps_ports_of(b),
        b.keeps_ports_of(c),
    ensures
        a.keeps_ports_of(c),
{
    assert forall|d: DeviceId, p: usize| c.valid_port(d, p) implies #[trigger] a.port_of(d, p) == c.port_of(d, p) by {
        assert(b.port_of(d, p) == c.port_of(d, p));
        assert(b.valid_port(d, p));
    }
}

/// Finding an adjacency among more of them finds the same one.
proof fn lemma_find_adjacency_stable(adj: Seq<Adjacency>, d: DeviceId, p: usize, m: int, m2: int)
    requires
        0 <= m <= m2,
        find_adjacency(adj, d, p, m) is Some,
    ensures
        find_adjacency(adj, d, p, m2) == find_adjacency(adj, d, p, m),
    decreases m2 - m,
{
    if m2 > m {
        lemma_find_adjacency_stable(adj, d, p, m, m2 - 1);
    }
}

impl Default for DeviceRepository {
    /// An empty repository.
    fn default() -> (r: DeviceRepository)
        ensures
            r.wf(),
            r@.macs_distinct(),
            r@ == (RepositoryView {
                routers: Seq::empty(),
                switches: Seq::empty(),
                desktops: Seq::empty(),
                router_labels: Seq::empty(),
                switch_labels: Seq::empty(),
                desktop_labels: Seq::empty(),
                label_seeds: (0, 0, 0),
                adjacencies: Seq::empty(),
                ports: Seq::empty(),
                simulated: Seq::empty(),
                mac_seed: 0,
            }),
    {
        let r = DeviceRepository {
            routers: Vec::new(),
            switches: Vec::new(),
            desktops: Vec::new(),
            label_seeds: (0, 0, 0),
            adjacencies: Vec::new(),
            cable_simulator: CableSimulator::new(),
            mac_seed: 0,
        };
        assert(r@.routers =~= Seq::empty());
        assert(r@.switches =~= Seq::empty());
        assert(r@.desktops =~= Seq::empty());
        assert(r@.router_labels =~= Seq::empty());
        assert(r@.switch_labels =~= Seq::empty());
        assert(r@.desktop_labels =~= Seq::empty());
        assert(r@.adjacencies =~= Seq::empty());
        r
    }
}

} // verus!
