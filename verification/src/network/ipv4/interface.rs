//! A layer 3 interface: sends and receives IPv4 frames through an Ethernet interface, resolving
//! MAC addresses with ARP.

use vstd::prelude::*;
use std::collections::HashMap;
use crate::bytes::{copy_range, read_u16_be, read_u32_be, u32_of};
use crate::network::device::cable::{cabled, uncabled, CableSimulator, EthernetPortView};
use crate::network::ethernet::interface::{
    arp_reply_sent, arp_request_sent, eth2_sent, parse_frames, frame_views, EthernetInterface,
};
use crate::network::ethernet::{
    mac_eq, ByteSerializable, EtherType, EthernetFrame, EthernetFrameView, MacAddress,
};
use crate::network::ipv4::{
    ip_eq, localhost, localhost_bytes, network_address, spec_network_address, ArpFrame,
    ArpFrameView, ArpOperation, IcmpFrame, IcmpFrameView, IcmpType, Ipv4Address, Ipv4Frame,
    Ipv4FrameView, Ipv4Protocol,
};

verus! {

/// The key under which an address is kept in an ARP table.
pub open spec fn ip_key(ip: Seq<u8>) -> u32 {
    u32_of(ip)
}

fn ip_to_key(ip: &Ipv4Address) -> (r: u32)
    ensures
        r == ip_key(ip@),
{
    let r = read_u32_be(ip.as_slice(), 0);
    assert(ip@.subrange(0, 4) =~= ip@);
    r
}

/// The multicast group address 224.0.0.0.
pub open spec fn ipv4_multicast_bytes() -> Seq<u8> {
    seq![224u8, 0, 0, 0]
}

/// The MAC address 01:00:5e:00:00:00 of IPv4 multicast.
pub open spec fn mac_multicast_bytes() -> Seq<u8> {
    seq![0x01u8, 0x00, 0x5e, 0x00, 0x00, 0x00]
}

/// A frame waiting for the MAC address of `ip` to be resolved.
pub struct WaitForArpResolveView {
    pub ip: Seq<u8>,
    pub ttl: u8,
    pub retry: u8,
    pub frame: Ipv4FrameView,
}

#[derive(Debug)]
struct WaitForArpResolve {
    ip: Ipv4Address,
    ttl: u8,
    retry: u8,
    frame: Ipv4Frame,
}

impl View for WaitForArpResolve {
    type V = WaitForArpResolveView;

    closed spec fn view(&self) -> WaitForArpResolveView {
        WaitForArpResolveView { ip: self.ip@, ttl: self.ttl, retry: self.retry, frame: self.frame@ }
    }
}

/// The abstract state of an IPv4 interface.
pub struct Ipv4InterfaceView {
    pub ethernet: EthernetInterface,
    pub ip_address: Seq<u8>,
    pub subnet_mask: Seq<u8>,
    pub default_gateway: Option<Seq<u8>>,
    pub arp_buf: Seq<WaitForArpResolveView>,
    pub arp_table: Map<u32, Seq<u8>>,
    pub router_interface: bool,
}

/// An `Option` of an address as an `Option` of its bytes.
pub open spec fn opt_ip(o: Option<Ipv4Address>) -> Option<Seq<u8>> {
    match o {
        Some(a) => Some(a@),
        None => None,
    }
}

/// What the send functions report: `Ok(true)` when the frame left, `Ok(false)` when it waits
/// for ARP, `Err(())` when the destination cannot be reached (the error's text is stated
/// beside it).
pub open spec fn result_view(r: Result<bool, &'static str>) -> Result<bool, ()> {
    match r {
        Ok(b) => Ok(b),
        Err(_) => Err(()),
    }
}

/// The state of an interface and its port table while frames are received.
pub struct RxState {
    pub iface: Ipv4InterfaceView,
    pub ports: Seq<EthernetPortView>,
    pub received: Seq<Ipv4FrameView>,
}

impl Ipv4InterfaceView {
    /// The address is this interface's address or the loopback address.
    pub open spec fn is_self(self, ip: Seq<u8>) -> bool {
        ip == self.ip_address || ip == localhost_bytes()
    }

    /// The address is on this interface's subnet.
    pub open spec fn subnets_match(self, d: Seq<u8>) -> bool {
        self.is_self(d) || spec_network_address(d, self.subnet_mask) == spec_network_address(
            self.ip_address,
            self.subnet_mask,
        )
    }

    /// The address whose MAC address a frame to `d` is sent to: `d` itself on the subnet, else
    /// the proxied destination, else the default gateway.
    pub open spec fn arp_key(self, d: Seq<u8>, proxied: Option<Seq<u8>>) -> Option<Seq<u8>> {
        if self.subnets_match(d) {
            Some(d)
        } else if proxied is Some {
            proxied
        } else {
            self.default_gateway
        }
    }

    /// The MAC address the ARP table holds for `ip`.
    pub open spec fn lookup(self, ip: Seq<u8>) -> Option<Seq<u8>> {
        if self.arp_table.contains_key(ip_key(ip)) {
            Some(self.arp_table[ip_key(ip)])
        } else {
            None
        }
    }

    /// The interface after learning that `ip` has address `mac`; the interface's own addresses
    /// are never entered.
    pub open spec fn add_arp(self, ip: Seq<u8>, mac: Seq<u8>) -> Self {
        if self.is_self(ip) {
            self
        } else {
            Ipv4InterfaceView { arp_table: self.arp_table.insert(ip_key(ip), mac), ..self }
        }
    }

    /// Sends an IPv4 frame of `data` to the Ethernet address `dst`.
    pub open spec fn eth_send(self, ports: Seq<EthernetPortView>, dst: Seq<u8>, frame: Ipv4FrameView) -> Seq<EthernetPortView> {
        eth2_sent(ports, self.ethernet.port, self.ethernet.mac_address@, dst, EtherType::Ipv4, frame.bytes())
    }

    /// The interface, the port table and the report after `sendv`.
    pub open spec fn sendv_spec(
        self,
        ports: Seq<EthernetPortView>,
        src: Seq<u8>,
        dst: Seq<u8>,
        proxied: Option<Seq<u8>>,
        ttl: u8,
        data: Seq<u8>,
        protocol: Ipv4Protocol,
    ) -> (Self, Seq<EthernetPortView>, Result<bool, ()>) {
        let frame = Ipv4FrameView::built(src, dst, ttl, data, protocol);
        let own = self.ethernet.mac_address@;
        if self.is_self(dst) {
            (self, self.eth_send(ports, own, frame), Ok(true))
        } else {
            match self.arp_key(dst, proxied) {
                None => if self.router_interface {
                    (self, self.eth_send(ports, own, frame), Ok(true))
                } else {
                    (self, ports, Err(()))
                },
                Some(k) => match self.lookup(k) {
                    Some(m) => (self, self.eth_send(ports, m, frame), Ok(true)),
                    None => (
                        Ipv4InterfaceView {
                            arp_buf: self.arp_buf.push(
                                WaitForArpResolveView { ip: k, ttl: 30, retry: 3, frame },
                            ),
                            ..self
                        },
                        arp_request_sent(ports, self.ethernet.port, own, self.ip_address, k),
                        Ok(false),
                    ),
                },
            }
        }
    }

    /// The bytes of the ICMP message that `send_icmp` sends to `dst` for `kind`: an echo reply
    /// when `dst` is this interface.
    pub open spec fn icmp_bytes(self, dst: Seq<u8>, kind: IcmpType) -> Seq<u8> {
        let k = if self.is_self(dst) { IcmpType::EchoReply } else { kind };
        IcmpFrameView::built(k.spec_value(), 0, 0, 0, Seq::empty()).bytes()
    }

    /// The interface, the port table and the report after `send_icmp`.
    pub open spec fn send_icmp_spec(self, ports: Seq<EthernetPortView>, dst: Seq<u8>, kind: IcmpType) -> (Self, Seq<EthernetPortView>, Result<bool, ()>) {
        self.sendv_spec(ports, self.ip_address, dst, None, 64, self.icmp_bytes(dst, kind), Ipv4Protocol::Icmp)
    }
}

/// The bytes read as an ICMP echo request.
pub open spec fn is_echo_request(data: Seq<u8>) -> bool {
    IcmpFrameView::from_bytes(data) is Ok && (IcmpFrameView::from_bytes(data)->Ok_0).icmp_type == 8
}

/// Receiving an IPv4 frame from `src_mac`: learn the sender, answer an echo request addressed
/// to this interface (from another address) with an echo reply, and keep any other frame.
pub open spec fn rx_ipv4(st: RxState, frame: Ipv4FrameView, src_mac: Seq<u8>) -> RxState {
    let v = st.iface.add_arp(frame.source, src_mac);
    if frame.destination == v.ip_address && frame.source != v.ip_address && frame.protocol == 1
        && is_echo_request(frame.data) {
        let r = v.send_icmp_spec(st.ports, frame.source, IcmpType::EchoReply);
        RxState { iface: r.0, ports: r.1, received: st.received }
    } else {
        RxState { iface: v, ports: st.ports, received: st.received.push(frame) }
    }
}

/// Receiving an ARP frame: learn the sender; on a reply also learn the target; on a request
/// for this interface, or for an address in the ARP table, send a reply.
pub open spec fn rx_arp(st: RxState, a: ArpFrameView) -> RxState {
    let v = st.iface.add_arp(a.sender_ip, a.sender_mac);
    if a.opcode == ArpOperation::Reply {
        RxState { iface: v.add_arp(a.target_ip, a.target_mac), ..st }
    } else {
        let dm = if a.target_ip == v.ip_address { Some(a.sender_mac) } else { v.lookup(a.target_ip) };
        match dm {
            Some(m) => RxState {
                iface: v,
                ports: arp_reply_sent(st.ports, v.ethernet.port, v.ethernet.mac_address@, v.ip_address, m, a.sender_ip),
                received: st.received,
            },
            None => RxState { iface: v, ..st },
        }
    }
}

/// Receiving one Ethernet frame: Ethernet II frames carrying IPv4 or ARP are read; others are
/// dropped, as are payloads that do not read.
pub open spec fn rx_frame(st: RxState, f: EthernetFrameView) -> RxState {
    match f {
        EthernetFrameView::Ethernet2(g) => if g.ether_type == EtherType::Ipv4 {
            if Ipv4FrameView::accepts(g.data) && Ipv4FrameView::from_bytes(g.data) is Ok {
                rx_ipv4(st, Ipv4FrameView::from_bytes(g.data)->Ok_0, g.source_address)
            } else {
                st
            }
        } else if g.ether_type == EtherType::Arp {
            if ArpFrameView::accepts(g.data) && ArpFrameView::from_bytes(g.data) is Ok {
                rx_arp(st, ArpFrameView::from_bytes(g.data)->Ok_0)
            } else {
                st
            }
        } else {
            st
        },
        _ => st,
    }
}

/// Receiving the frames `fs` in order.
pub open spec fn rx_frames(st: RxState, fs: Seq<EthernetFrameView>) -> RxState
    decreases fs.len(),
{
    if fs.len() == 0 {
        st
    } else {
        rx_frame(rx_frames(st, fs.drop_last()), fs.last())
    }
}

/// One tick of the entry `i` of the ARP buffer: its time to live runs down; when it runs out
/// with retries left, the ARP request is sent again (for the address the entry waits on: the
/// destination, or the default gateway of an off-subnet destination) and the time
/// restarts; when the MAC address is known, the frame is sent and the entry is done.
pub open spec fn arp_entry_step(v: Ipv4InterfaceView, ports: Seq<EthernetPortView>, i: int) -> (Ipv4InterfaceView, Seq<EthernetPortView>) {
    let w = v.arp_buf[i];
    let ttl = if w.ttl == 0 { 0u8 } else { (w.ttl - 1) as u8 };
    if ttl == 0 && w.retry == 0 {
        (Ipv4InterfaceView { arp_buf: v.arp_buf.update(i, WaitForArpResolveView { ttl, ..w }), ..v }, ports)
    } else {
        let (w2, ports2) = if ttl == 0 {
            (
                WaitForArpResolveView { ttl: 30, retry: (w.retry - 1) as u8, ..w },
                arp_request_sent(ports, v.ethernet.port, v.ethernet.mac_address@, v.ip_address, w.ip),
            )
        } else {
            (WaitForArpResolveView { ttl, ..w }, ports)
        };
        match v.lookup(w.ip) {
            Some(m) => (
                Ipv4InterfaceView { arp_buf: v.arp_buf.update(i, WaitForArpResolveView { ttl: 0, retry: 0, ..w2 }), ..v },
                v.eth_send(ports2, m, w.frame),
            ),
            None => (Ipv4InterfaceView { arp_buf: v.arp_buf.update(i, w2), ..v }, ports2),
        }
    }
}

/// The entries `0..n` of the ARP buffer, each ticked once, in order.
pub open spec fn arp_entries_step(v: Ipv4InterfaceView, ports: Seq<EthernetPortView>, n: int) -> (Ipv4InterfaceView, Seq<EthernetPortView>)
    decreases n,
{
    if n <= 0 {
        (v, ports)
    } else {
        let r = arp_entries_step(v, ports, n - 1);
        arp_entry_step(r.0, r.1, n - 1)
    }
}

/// The buffer without its trailing entries that are done.
pub open spec fn pop_done(buf: Seq<WaitForArpResolveView>) -> Seq<WaitForArpResolveView>
    decreases buf.len(),
{
    if buf.len() > 0 && buf.last().ttl == 0 && buf.last().retry == 0 {
        pop_done(buf.drop_last())
    } else {
        buf
    }
}

/// What `Ipv4Interface::receive` does: read the frames received since the last call, then
/// tick the ARP buffer and drop its trailing finished entries. Gives the interface, the port
/// table and the IPv4 frames kept.
pub open spec fn receive_spec(v: Ipv4InterfaceView, ports: Seq<EthernetPortView>) -> (Ipv4InterfaceView, Seq<EthernetPortView>, Seq<Ipv4FrameView>) {
    let p = v.ethernet.port as int;
    let ports0 = ports.update(p, EthernetPortView { incoming: Seq::empty(), ..ports[p] });
    let st = rx_frames(RxState { iface: v, ports: ports0, received: Seq::empty() }, parse_frames(ports[p].incoming));
    let stepped = arp_entries_step(st.iface, st.ports, st.iface.arp_buf.len() as int);
    (Ipv4InterfaceView { arp_buf: pop_done(stepped.0.arp_buf), ..stepped.0 }, stepped.1, st.received)
}

/// The views of a vector of IPv4 frames.
pub open spec fn ipv4_views(v: Seq<Ipv4Frame>) -> Seq<Ipv4FrameView> {
    v.map_values(|f: Ipv4Frame| f@)
}

/// A layer 3 interface for IPv4 actions, sending and receiving IPv4 frames through an
/// Ethernet interface.
///
/// Holds an ARP table mapping IPv4 addresses to MAC addresses, and a buffer of frames waiting
/// for their MAC address to be resolved.
#[derive(Debug)]
pub struct Ipv4Interface {
    pub ethernet: EthernetInterface,
    pub ip_address: Ipv4Address,
    pub subnet_mask: Ipv4Address,
    pub default_gateway: Option<Ipv4Address>,
    arp_buf: Vec<WaitForArpResolve>,
    arp_table: HashMap<u32, MacAddress>,
    router_interface: bool,
}

impl View for Ipv4Interface {
    type V = Ipv4InterfaceView;

    closed spec fn view(&self) -> Ipv4InterfaceView {
        Ipv4InterfaceView {
            ethernet: self.ethernet,
            ip_address: self.ip_address@,
            subnet_mask: self.subnet_mask@,
            default_gateway: opt_ip(self.default_gateway),
            arp_buf: self.arp_buf@.map_values(|w: WaitForArpResolve| w@),
            arp_table: self.arp_table@.map_values(|m: MacAddress| m@),
            router_interface: self.router_interface,
        }
    }
}

impl Ipv4Interface {
    /// The interface's port is in the port table, and the buffered frames fit their length field.
    pub open spec fn valid_in(&self, ports: Seq<EthernetPortView>) -> bool {
        self@.ethernet.port < ports.len()
    }

    /// The Ethernet interface that carries the frames.
    pub fn ethernet(&self) -> (r: EthernetInterface)
        ensures
            r == self@.ethernet,
    {
        self.ethernet
    }

    /// The address of the interface.
    pub fn ip_address(&self) -> (r: Ipv4Address)
        ensures
            r@ == self@.ip_address,
    {
        self.ip_address
    }

    /// The subnet mask of the interface.
    pub fn subnet_mask(&self) -> (r: Ipv4Address)
        ensures
            r@ == self@.subnet_mask,
    {
        self.subnet_mask
    }

    /// The default gateway of the interface.
    pub fn default_gateway(&self) -> (r: Option<Ipv4Address>)
        ensures
            opt_ip(r) == self@.default_gateway,
    {
        self.default_gateway
    }

    /// Gives the interface a new default gateway.
    pub fn set_default_gateway(&mut self, gateway: Option<Ipv4Address>)
        ensures
            final(self)@ == (Ipv4InterfaceView { default_gateway: opt_ip(gateway), ..old(self)@ }),
    {
        self.default_gateway = gateway;
    }

    /// Gives the interface a new address and subnet mask.
    pub fn set_address(&mut self, ip_address: Ipv4Address, subnet_mask: Ipv4Address)
        ensures
            final(self)@ == (Ipv4InterfaceView { ip_address: ip_address@, subnet_mask: subnet_mask@, ..old(self)@ }),
    {
        self.ip_address = ip_address;
        self.subnet_mask = subnet_mask;
    }

    /// An interface without ARP entries, with a new port in the simulator's port table.
    pub fn new(
        sim: &mut CableSimulator,
        mac_address: MacAddress,
        ip_address: Ipv4Address,
        subnet_mask: Ipv4Address,
        default_gateway: Option<Ipv4Address>,
    ) -> (r: Self)
        requires
            old(sim).wf(),
        ensures
            final(sim).wf(),
            final(sim)@.ports == old(sim)@.ports.push(crate::network::device::cable::empty_port()),
            final(sim)@.simulated == old(sim)@.simulated,
            r@.ethernet.port == old(sim)@.ports.len(),
            r@ == (Ipv4InterfaceView {
                ethernet: EthernetInterface { port: old(sim)@.ports.len() as usize, mac_address },
                ip_address: ip_address@,
                subnet_mask: subnet_mask@,
                default_gateway: opt_ip(default_gateway),
                arp_buf: Seq::empty(),
                arp_table: Map::empty(),
                router_interface: false,
            }),
    {
        let ethernet = EthernetInterface::new(sim, mac_address);
        let r = Ipv4Interface {
            ethernet,
            ip_address,
            subnet_mask,
            default_gateway,
            arp_buf: Vec::new(),
            arp_table: HashMap::new(),
            router_interface: false,
        };
        assert(r@.arp_buf =~= Seq::empty());
        assert(r@.arp_table =~= Map::empty());
        r
    }

    /// A router interface: it has no default gateway, and frames it cannot resolve are sent to
    /// itself, for the router to route.
    pub fn new_router_interface(
        sim: &mut CableSimulator,
        mac_address: MacAddress,
        ip_address: Ipv4Address,
        subnet_mask: Ipv4Address,
    ) -> (r: Self)
        requires
            old(sim).wf(),
        ensures
            final(sim).wf(),
            final(sim)@.ports == old(sim)@.ports.push(crate::network::device::cable::empty_port()),
            final(sim)@.simulated == old(sim)@.simulated,
            r@.ethernet.port == old(sim)@.ports.len(),
            r@ == (Ipv4InterfaceView {
                ethernet: EthernetInterface { port: old(sim)@.ports.len() as usize, mac_address },
                ip_address: ip_address@,
                subnet_mask: subnet_mask@,
                default_gateway: None,
                arp_buf: Seq::empty(),
                arp_table: Map::empty(),
                router_interface: true,
            }),
    {
        let mut r = Self::new(sim, mac_address, ip_address, subnet_mask, None);
        r.router_interface = true;
        r
    }

    /// An interface whose ARP table holds the given entries (later entries win).
    pub fn from_arp_table(
        sim: &mut CableSimulator,
        mac_address: MacAddress,
        ip_address: Ipv4Address,
        subnet_mask: Ipv4Address,
        default_gateway: Option<Ipv4Address>,
        arp_table: Vec<(Ipv4Address, MacAddress)>,
    ) -> (r: Self)
        requires
            old(sim).wf(),
        ensures
            final(sim).wf(),
            final(sim)@.ports == old(sim)@.ports.push(crate::network::device::cable::empty_port()),
            final(sim)@.simulated == old(sim)@.simulated,
            r@.ethernet.port == old(sim)@.ports.len(),
            r@ == (Ipv4InterfaceView {
                ethernet: EthernetInterface { port: old(sim)@.ports.len() as usize, mac_address },
                ip_address: ip_address@,
                subnet_mask: subnet_mask@,
                default_gateway: opt_ip(default_gateway),
                arp_buf: Seq::empty(),
                arp_table: table_of(arp_table@),
                router_interface: false,
            }),
    {
        let mut r = Self::new(sim, mac_address, ip_address, subnet_mask, default_gateway);
        let mut i: usize = 0;
        while i < arp_table.len()
            invariant
                0 <= i <= arp_table@.len(),
                r@ == (Ipv4InterfaceView {
                    ethernet: EthernetInterface { port: old(sim)@.ports.len() as usize, mac_address },
                    ip_address: ip_address@,
                    subnet_mask: subnet_mask@,
                    default_gateway: opt_ip(default_gateway),
                    arp_buf: Seq::empty(),
                    arp_table: table_of(arp_table@.subrange(0, i as int)),
                    router_interface: false,
                }),
            decreases arp_table@.len() - i,
        {
            let (ip, mac) = arp_table[i];
            let key = ip_to_key(&ip);
            let ghost t0 = r.arp_table@;
            r.arp_table.insert(key, mac);
            proof {
                assert(arp_table@.subrange(0, i + 1).drop_last() =~= arp_table@.subrange(0, i as int));
                assert(r.arp_table@.map_values(|m: MacAddress| m@) =~= t0.map_values(|m: MacAddress| m@).insert(key, mac@));
            }
            i = i + 1;
        }
        assert(arp_table@.subrange(0, i as int) =~= arp_table@);
        r
    }
}

impl Ipv4Interface {
    /// Connects this interface to another interface with a cable.
    pub fn connect(&mut self, sim: &mut CableSimulator, other: &mut Ipv4Interface)
        requires
            old(sim).wf(),
            old(self).valid_in(old(sim)@.ports),
            old(other).valid_in(old(sim)@.ports),
            old(self)@.ethernet.port != old(other)@.ethernet.port,
        ensures
            final(sim).wf(),
            final(self)@ == old(self)@,
            final(other)@ == old(other)@,
            final(sim)@.simulated == old(sim)@.simulated,
            final(sim)@.ports == cabled(old(sim)@.ports, old(self)@.ethernet.port, old(other)@.ethernet.port),
    {
        self.ethernet.connect(sim, &other.ethernet);
    }

    /// Unplugs this interface's cable from both its ends.
    pub fn disconnect(&mut self, sim: &mut CableSimulator)
        requires
            old(sim).wf(),
            old(self).valid_in(old(sim)@.ports),
        ensures
            final(sim).wf(),
            final(self)@ == old(self)@,
            final(sim)@.simulated == old(sim)@.simulated,
            final(sim)@.ports == uncabled(old(sim)@.ports, old(self)@.ethernet.port),
    {
        self.ethernet.disconnect(sim);
    }

    fn ip_is_self(&self, ip: &Ipv4Address) -> (r: bool)
        ensures
            r == self@.is_self(ip@),
    {
        let lh = localhost();
        ip_eq(ip, &self.ip_address) || ip_eq(ip, &lh)
    }

    fn subnets_match(&self, destination: &Ipv4Address) -> (r: bool)
        ensures
            r == self@.subnets_match(destination@),
    {
        if self.ip_is_self(destination) {
            return true;
        }
        let a = network_address(destination, &self.subnet_mask);
        let b = network_address(&self.ip_address, &self.subnet_mask);
        ip_eq(&a, &b)
    }

    fn lookup(&self, ip: &Ipv4Address) -> (r: Option<MacAddress>)
        ensures
            match r {
                Some(m) => self@.lookup(ip@) == Some(m@),
                None => self@.lookup(ip@) is None,
            },
    {
        let key = ip_to_key(ip);
        match self.arp_table.get(&key) {
            Some(m) => Some(*m),
            None => None,
        }
    }

    fn add_arp_entry(&mut self, ip: Ipv4Address, mac: MacAddress)
        ensures
            final(self)@ == old(self)@.add_arp(ip@, mac@),
    {
        if self.ip_is_self(&ip) {
            return;
        }
        let key = ip_to_key(&ip);
        let ghost t0 = self.arp_table@;
        self.arp_table.insert(key, mac);
        assert(self.arp_table@.map_values(|m: MacAddress| m@) =~= t0.map_values(|m: MacAddress| m@).insert(key, mac@));
        assert(self@ =~= old(self)@.add_arp(ip@, mac@));
    }

    /// Attempts to send data to the destination as an IPv4 frame.
    ///
    /// * `source` - The source IP address of the frame.
    /// * `destination` - The destination IP address of the frame.
    /// * `proxied_destination` - The address whose MAC address the frame is sent to, when the
    ///   destination is on another subnet (used by routers, whose ports have no default gateway).
    /// * `ttl` - Time to live of the frame.
    /// * `data` - Byte data to send in the frame.
    /// * `protocol` - The IPv4 protocol of the frame.
    ///
    /// A frame to this interface is looped back. Otherwise the frame goes to the MAC address
    /// of the destination (same subnet), else of the proxied destination, else of the default
    /// gateway; when that MAC address is not in the ARP table, an ARP request is broadcast and
    /// the frame waits in the ARP buffer.
    ///
    /// Returns `Ok(true)` when the frame was sent, `Ok(false)` when it waits for ARP, and an
    /// error when there is no address to send it to.
    pub fn sendv(
        &mut self,
        sim: &mut CableSimulator,
        source: Ipv4Address,
        destination: Ipv4Address,
        proxied_destination: Option<Ipv4Address>,
        ttl: u8,
        data: Vec<u8>,
        protocol: Ipv4Protocol,
    ) -> (r: Result<bool, &'static str>)
        requires
            old(sim).wf(),
            old(self).valid_in(old(sim)@.ports),
            data@.len() % 0x1_0000 + 20 <= 0xFFFF,
        ensures
            final(sim).wf(),
            final(sim)@.simulated == old(sim)@.simulated,
            final(self)@.ethernet == old(self)@.ethernet,
            final(sim)@.ports.len() == old(sim)@.ports.len(),
            (final(self)@, final(sim)@.ports, result_view(r)) == old(self)@.sendv_spec(
                old(sim)@.ports,
                source@,
                destination@,
                opt_ip(proxied_destination),
                ttl,
                data@,
                protocol,
            ),
            r matches Err(e) ==> e@ == "Destination is unreachable. No default gateway."@,
    {
        let own = self.ethernet.mac_address;
        if self.ip_is_self(&destination) {
            let frame = Ipv4Frame::new(source, destination, ttl, data, protocol);
            self.ethernet.send(sim, own, EtherType::Ipv4, frame.to_bytes());
            return Ok(true);
        }
        let arp_key: Option<Ipv4Address> = if self.subnets_match(&destination) {
            Some(destination)
        } else {
            match proxied_destination {
                Some(p) => Some(p),
                None => self.default_gateway,
            }
        };
        let frame = Ipv4Frame::new(source, destination, ttl, data, protocol);
        match arp_key {
            None => {
                if self.router_interface {
                    self.ethernet.send(sim, own, EtherType::Ipv4, frame.to_bytes());
                    Ok(true)
                } else {
                    Err("Destination is unreachable. No default gateway.")
                }
            },
            Some(k) => {
                match self.lookup(&k) {
                    Some(m) => {
                        self.ethernet.send(sim, m, EtherType::Ipv4, frame.to_bytes());
                        Ok(true)
                    },
                    None => {
                        let ghost b0 = self.arp_buf@;
                        let w = WaitForArpResolve { ip: k, ttl: 30, retry: 3, frame };
                        self.arp_buf.push(w);
                        assert(self.arp_buf@.map_values(|w: WaitForArpResolve| w@) =~= b0.map_values(|w: WaitForArpResolve| w@).push(w@));
                        let ip = self.ip_address;
                        self.ethernet.arp_request(sim, ip, k);
                        Ok(false)
                    },
                }
            },
        }
    }

    /// Attempts to send data from this interface's address, with a time to live of 64; see
    /// `sendv`.
    pub fn send(&mut self, sim: &mut CableSimulator, destination: Ipv4Address, data: Vec<u8>, protocol: Ipv4Protocol) -> (r: Result<bool, &'static str>)
        requires
            old(sim).wf(),
            old(self).valid_in(old(sim)@.ports),
            data@.len() % 0x1_0000 + 20 <= 0xFFFF,
        ensures
            final(sim).wf(),
            final(sim)@.simulated == old(sim)@.simulated,
            final(self)@.ethernet == old(self)@.ethernet,
            final(sim)@.ports.len() == old(sim)@.ports.len(),
            (final(self)@, final(sim)@.ports, result_view(r)) == old(self)@.sendv_spec(
                old(sim)@.ports,
                old(self)@.ip_address,
                destination@,
                None,
                64,
                data@,
                protocol,
            ),
            r matches Err(e) ==> e@ == "Destination is unreachable. No default gateway."@,
    {
        let ip = self.ip_address;
        self.sendv(sim, ip, destination, None, 64, data, protocol)
    }

    /// Sends one byte of test data from this interface's address; the destination must be
    /// reachable (on the subnet, through a gateway, or from a router interface).
    pub fn send_t(&mut self, sim: &mut CableSimulator, destination: Ipv4Address, data: u8)
        requires
            old(sim).wf(),
            old(self).valid_in(old(sim)@.ports),
            old(self)@.sendv_spec(old(sim)@.ports, old(self)@.ip_address, destination@, None, 64, seq![data], Ipv4Protocol::Test).2 is Ok,
        ensures
            final(sim).wf(),
            final(sim)@.simulated == old(sim)@.simulated,
            final(self)@.ethernet == old(self)@.ethernet,
            final(sim)@.ports.len() == old(sim)@.ports.len(),
            ({
                let r = old(self)@.sendv_spec(old(sim)@.ports, old(self)@.ip_address, destination@, None, 64, seq![data], Ipv4Protocol::Test);
                final(self)@ == r.0 && final(sim)@.ports == r.1
            }),
    {
        let mut v: Vec<u8> = Vec::new();
        v.push(data);
        assert(v@ =~= seq![data]);
        let _ = self.send(sim, destination, v, Ipv4Protocol::Test);
    }

    /// Sends an ICMP message of the given kind to the destination; a message to this interface
    /// is an echo reply.
    pub fn send_icmp(&mut self, sim: &mut CableSimulator, destination: Ipv4Address, kind: IcmpType) -> (r: Result<bool, &'static str>)
        requires
            old(sim).wf(),
            old(self).valid_in(old(sim)@.ports),
        ensures
            final(sim).wf(),
            final(sim)@.simulated == old(sim)@.simulated,
            final(self)@.ethernet == old(self)@.ethernet,
            final(sim)@.ports.len() == old(sim)@.ports.len(),
            (final(self)@, final(sim)@.ports, result_view(r)) == old(self)@.send_icmp_spec(old(sim)@.ports, destination@, kind),
            r matches Err(e) ==> e@ == "Destination is unreachable. No default gateway."@,
    {
        let k = if self.ip_is_self(&destination) {
            IcmpType::EchoReply
        } else {
            kind
        };
        let icmp_frame = match k {
            IcmpType::EchoRequest => IcmpFrame::echo_request(0, 0, Vec::new()),
            IcmpType::EchoReply => IcmpFrame::echo_reply(0, 0, Vec::new()),
            IcmpType::Unreachable => IcmpFrame::destination_unreachable(0, Vec::new()),
        };
        let bytes = icmp_frame.to_bytes();
        assert(bytes@ == self@.icmp_bytes(destination@, kind));
        let ip = self.ip_address;
        self.sendv(sim, ip, destination, None, 64, bytes, Ipv4Protocol::Icmp)
    }

    /// Sends data to the IPv4 multicast group 224.0.0.0, on the multicast MAC address.
    pub fn multicast(&mut self, sim: &mut CableSimulator, data: Vec<u8>, protocol: Ipv4Protocol)
        requires
            old(sim).wf(),
            old(self).valid_in(old(sim)@.ports),
            data@.len() % 0x1_0000 + 20 <= 0xFFFF,
        ensures
            final(sim).wf(),
            final(self)@ == old(self)@,
            final(sim)@.simulated == old(sim)@.simulated,
            final(sim)@.ports.len() == old(sim)@.ports.len(),
            final(sim)@.ports == old(self)@.eth_send(
                old(sim)@.ports,
                mac_multicast_bytes(),
                Ipv4FrameView::built(old(self)@.ip_address, ipv4_multicast_bytes(), 64, data@, protocol),
            ),
    {
        let group = [224u8, 0, 0, 0];
        let mac = [0x01u8, 0x00, 0x5e, 0x00, 0x00, 0x00];
        assert(group@ =~= ipv4_multicast_bytes());
        assert(mac@ =~= mac_multicast_bytes());
        let frame = Ipv4Frame::new(self.ip_address, group, 64, data, protocol);
        self.ethernet.send(sim, mac, EtherType::Ipv4, frame.to_bytes());
    }
}

fn ipv4_accepts(b: &[u8]) -> (r: bool)
    ensures
        r == Ipv4FrameView::accepts(b@),
{
    if b.len() < 20 || b.len() > 65535 {
        return true;
    }
    let hl = ((b[0] % 16) as usize) * 4;
    20 <= hl && hl <= b.len()
}

fn arp_accepts(b: &[u8]) -> (r: bool)
    ensures
        r == ArpFrameView::accepts(b@),
{
    if b.len() != 28 {
        return true;
    }
    let op = read_u16_be(b, 6);
    op == 1 || op == 2
}

impl Ipv4Interface {
    fn receive_ipv4(&mut self, sim: &mut CableSimulator, frame: Ipv4Frame, source_mac: MacAddress, out: &mut Vec<Ipv4Frame>)
        requires
            old(sim).wf(),
            old(self).valid_in(old(sim)@.ports),
        ensures
            final(sim).wf(),
            final(sim)@.simulated == old(sim)@.simulated,
            final(self)@.ethernet == old(self)@.ethernet,
            final(sim)@.ports.len() == old(sim)@.ports.len(),
            (RxState { iface: final(self)@, ports: final(sim)@.ports, received: ipv4_views(final(out)@) }) == rx_ipv4(
                (RxState { iface: old(self)@, ports: old(sim)@.ports, received: ipv4_views(old(out)@) }),
                frame@,
                source_mac@,
            ),
    {
        self.add_arp_entry(frame.source, source_mac);
        if ip_eq(&frame.destination, &self.ip_address) && !ip_eq(&frame.source, &self.ip_address)
            && frame.protocol == 1 {
            let d = copy_range(frame.data.as_slice(), 0, frame.data.len());
            assert(d@ =~= frame.data@);
            match IcmpFrame::from_bytes(d) {
                Ok(ic) => {
                    if ic.icmp_type == 8 {
                        let _ = self.send_icmp(sim, frame.source, IcmpType::EchoReply);
                        return;
                    }
                },
                Err(_) => {},
            }
        }
        let ghost o0 = out@;
        out.push(frame);
        assert(ipv4_views(out@) =~= ipv4_views(o0).push(frame@));
    }

    fn receive_arp(&mut self, sim: &mut CableSimulator, frame: ArpFrame)
        requires
            old(sim).wf(),
            old(self).valid_in(old(sim)@.ports),
        ensures
            final(sim).wf(),
            final(sim)@.simulated == old(sim)@.simulated,
            final(self)@.ethernet == old(self)@.ethernet,
            final(sim)@.ports.len() == old(sim)@.ports.len(),
            (RxState { iface: final(self)@, ports: final(sim)@.ports, received: Seq::empty() }) == rx_arp(
                (RxState { iface: old(self)@, ports: old(sim)@.ports, received: Seq::empty() }),
                frame@,
            ),
    {
        self.add_arp_entry(frame.sender_ip, frame.sender_mac);
        if frame.opcode == ArpOperation::Reply {
            self.add_arp_entry(frame.target_ip, frame.target_mac);
            return;
        }
        let destination_mac: Option<MacAddress> = if ip_eq(&frame.target_ip, &self.ip_address) {
            Some(frame.sender_mac)
        } else {
            self.lookup(&frame.target_ip)
        };
        match destination_mac {
            Some(m) => {
                let ip = self.ip_address;
                self.ethernet.arp_reply(sim, ip, m, frame.sender_ip);
            },
            None => {},
        }
    }

    fn process_arp_buf(&mut self, sim: &mut CableSimulator)
        requires
            old(sim).wf(),
            old(self).valid_in(old(sim)@.ports),
        ensures
            final(sim).wf(),
            final(sim)@.simulated == old(sim)@.simulated,
            final(self)@.ethernet == old(self)@.ethernet,
            final(sim)@.ports.len() == old(sim)@.ports.len(),
            final(sim)@.ports == arp_entries_step(old(self)@, old(sim)@.ports, old(self)@.arp_buf.len() as int).1,
            final(self)@ == (Ipv4InterfaceView {
                arp_buf: pop_done(arp_entries_step(old(self)@, old(sim)@.ports, old(self)@.arp_buf.len() as int).0.arp_buf),
                ..arp_entries_step(old(self)@, old(sim)@.ports, old(self)@.arp_buf.len() as int).0
            }),
    {
        let n = self.arp_buf.len();
        let mut i: usize = 0;
        while i < n
            invariant
                0 <= i <= n,
                n == old(self)@.arp_buf.len(),
                sim.wf(),
                sim@.simulated == old(sim)@.simulated,
                self.valid_in(sim@.ports),
                self@.ethernet == old(self)@.ethernet,
                sim@.ports.len() == old(sim)@.ports.len(),
                (self@, sim@.ports) == arp_entries_step(old(self)@, old(sim)@.ports, i as int),
                self@.arp_buf.len() == n,
            decreases n - i,
        {
            proof {
                assert(arp_entries_step(old(self)@, old(sim)@.ports, i + 1) == arp_entry_step(self@, sim@.ports, i as int));
            }
            let ghost v = self@;
            let ghost p0 = sim@.ports;
            let ghost b0 = self.arp_buf@;
            let mut w = self.arp_buf.remove(i);
            assert(w@ == v.arp_buf[i as int]);
            w.ttl = if w.ttl == 0 { 0 } else { w.ttl - 1 };
            if w.ttl == 0 && w.retry == 0 {
                self.arp_buf.insert(i, w);
                assert(self.arp_buf@ =~= b0.update(i as int, w));
                assert(self@.arp_buf =~= v.arp_buf.update(i as int, w@));
                assert(self@ =~= arp_entry_step(v, sim@.ports, i as int).0);
                i = i + 1;
                continue;
            }
            if w.ttl == 0 {
                w.retry = w.retry - 1;
                w.ttl = 30;
                let ip = self.ip_address;
                let target = w.ip;
                self.ethernet.arp_request(sim, ip, target);
            }
            match self.lookup(&w.ip) {
                Some(m) => {
                    let bytes = w.frame.to_bytes();
                    self.ethernet.send(sim, m, EtherType::Ipv4, bytes);
                    w.retry = 0;
                    w.ttl = 0;
                },
                None => {},
            }
            self.arp_buf.insert(i, w);
            assert(self.arp_buf@ =~= b0.update(i as int, w));
            assert(self@.arp_buf =~= v.arp_buf.update(i as int, w@));
            assert(self@ =~= arp_entry_step(v, p0, i as int).0);
            assert(sim@.ports == arp_entry_step(v, p0, i as int).1);
            i = i + 1;
        }
        let ghost stepped = self@;
        while self.arp_buf.len() > 0
            invariant
                pop_done(self@.arp_buf) == pop_done(stepped.arp_buf),
                self@ == (Ipv4InterfaceView { arp_buf: self@.arp_buf, ..stepped }),
            ensures
                self@.arp_buf == pop_done(stepped.arp_buf),
                self@ == (Ipv4InterfaceView { arp_buf: self@.arp_buf, ..stepped }),
            decreases self@.arp_buf.len(),
        {
            let l = self.arp_buf.len();
            if self.arp_buf[l - 1].ttl == 0 && self.arp_buf[l - 1].retry == 0 {
                let ghost b0 = self.arp_buf@;
                let ghost vb = self@.arp_buf;
                assert(vb.last().ttl == 0 && vb.last().retry == 0);
                self.arp_buf.pop();
                assert(self.arp_buf@ =~= b0.drop_last());
                assert(self@.arp_buf =~= vb.drop_last());
            } else {
                break;
            }
        }
    }
}

impl Ipv4Interface {
    /// Receives the frames that arrived since the last call: IPv4 frames are returned (and
    /// teach the ARP table their sender), except echo requests to this interface, which are
    /// answered; ARP frames fill the ARP table, and requests for this interface or for a known
    /// address are answered. Then the ARP buffer is ticked: waiting frames whose MAC address is
    /// now known are sent, and ARP requests are retried.
    pub fn receive(&mut self, sim: &mut CableSimulator) -> (r: Vec<Ipv4Frame>)
        requires
            old(sim).wf(),
            old(self).valid_in(old(sim)@.ports),
        ensures
            final(sim).wf(),
            final(sim)@.simulated == old(sim)@.simulated,
            final(self)@.ethernet == old(self)@.ethernet,
            final(sim)@.ports.len() == old(sim)@.ports.len(),
            (final(self)@, final(sim)@.ports, ipv4_views(r@)) == receive_spec(old(self)@, old(sim)@.ports),
    {
        let mut frames = self.ethernet.receive(sim);
        let ghost fs = frame_views(frames@);
        let ghost n = fs.len();
        let ghost st0 = RxState { iface: old(self)@, ports: sim@.ports, received: Seq::empty() };
        let mut out: Vec<Ipv4Frame> = Vec::new();
        assert(frame_views(frames@) =~= fs.subrange(0, n as int));
        assert(ipv4_views(out@) =~= Seq::empty());
        while frames.len() > 0
            invariant
                n == fs.len(),
                frames@.len() <= n,
                frame_views(frames@) =~= fs.subrange(n - frames@.len(), n as int),
                sim.wf(),
                sim@.simulated == old(sim)@.simulated,
                self.valid_in(sim@.ports),
                self@.ethernet == old(self)@.ethernet,
                sim@.ports.len() == old(sim)@.ports.len(),
                (RxState { iface: self@, ports: sim@.ports, received: ipv4_views(out@) }) == rx_frames(st0, fs.subrange(0, n - frames@.len())),
            decreases frames@.len(),
        {
            let ghost k = n - frames@.len();
            let ghost before = frames@;
            let ghost st = RxState { iface: self@, ports: sim@.ports, received: ipv4_views(out@) };
            let f = frames.remove(0);
            assert(frame_views(before)[0] == f@);
            assert(fs[k] == f@);
            assert(fs.subrange(0, k + 1).drop_last() =~= fs.subrange(0, k));
            match f {
                EthernetFrame::Ethernet2(g) => {
                    if g.ether_type == EtherType::Ipv4 {
                        if ipv4_accepts(g.data.as_slice()) {
                            let src = g.source_address;
                            match Ipv4Frame::from_bytes(g.data) {
                                Ok(fr) => {
                                    self.receive_ipv4(sim, fr, src, &mut out);
                                },
                                Err(_) => {},
                            }
                        }
                    } else if g.ether_type == EtherType::Arp {
                        if arp_accepts(g.data.as_slice()) {
                            match ArpFrame::from_bytes(g.data) {
                                Ok(a) => {
                                    self.receive_arp(sim, a);
                                },
                                Err(_) => {},
                            }
                        }
                    }
                },
                _ => {},
            }
            assert(RxState { iface: self@, ports: sim@.ports, received: ipv4_views(out@) } == rx_frame(st, fs[k]));
            assert forall|j: int| 0 <= j < frames@.len() implies frame_views(frames@)[j] == fs[k + 1 + j] by {
                assert(frames@[j] == before[j + 1]);
                assert(frame_views(before)[j + 1] == fs.subrange(k, n as int)[j + 1]);
            }
        }
        assert(fs.subrange(0, n as int) =~= fs);
        self.process_arp_buf(sim);
        out
    }
}

/// The ARP table holding the given entries, later entries winning.
pub open spec fn table_of(entries: Seq<(Ipv4Address, MacAddress)>) -> Map<u32, Seq<u8>>
    decreases entries.len(),
{
    if entries.len() == 0 {
        Map::empty()
    } else {
        table_of(entries.drop_last()).insert(ip_key(entries.last().0@), entries.last().1@)
    }
}

} // verus!
