//! A layer 2 interface: sends and receives Ethernet frames through a port, stamped with a MAC
//! address.

use vstd::prelude::*;
use crate::bytes::copy_range;
use crate::network::ipv4::{ArpFrame, ArpFrameView, ArpOperation, Ipv4Address};
use crate::network::device::cable::{
    cabled, cables_in_table, carry_all, frames, lemma_tick_delivers, uncabled, CableSimulator,
    EthernetPortView,
};
use crate::network::ethernet::{
    broadcast_bytes, lemma_ethernet_frame_roundtrip_eth2, mac_addr, mac_broadcast_addr, mac_bytes, mac_eq, ByteSerializable, EtherType, Ethernet2Frame, Ethernet2FrameView,
    Ethernet802_3Frame, Ethernet802_3FrameView, EthernetFrame, EthernetFrameView, MacAddress,
};

verus! {

/// The frames that `EthernetInterface::receive` reads from the buffered byte frames `s`: each
/// buffer of at least 22 bytes that reads as a frame, in order.
pub open spec fn parse_frames(s: Seq<Seq<u8>>) -> Seq<EthernetFrameView>
    decreases s.len(),
{
    if s.len() == 0 {
        Seq::empty()
    } else {
        let prev = parse_frames(s.drop_last());
        let b = s.last();
        if b.len() >= 22 && EthernetFrameView::from_bytes(b) is Ok {
            prev.push(EthernetFrameView::from_bytes(b)->Ok_0)
        } else {
            prev
        }
    }
}

/// The Ethernet II frames of `s`, in order.
pub open spec fn eth2_frames(s: Seq<EthernetFrameView>) -> Seq<Ethernet2FrameView>
    decreases s.len(),
{
    if s.len() == 0 {
        Seq::empty()
    } else {
        let prev = eth2_frames(s.drop_last());
        match s.last() {
            EthernetFrameView::Ethernet2(f) => prev.push(f),
            _ => prev,
        }
    }
}

/// The views of a vector of frames.
pub open spec fn frame_views(v: Seq<EthernetFrame>) -> Seq<EthernetFrameView> {
    v.map_values(|f: EthernetFrame| f@)
}

/// The views of a vector of Ethernet II frames.
pub open spec fn eth2_views(v: Seq<Ethernet2Frame>) -> Seq<Ethernet2FrameView> {
    v.map_values(|f: Ethernet2Frame| f@)
}

/// The port table after port `p` sends `bytes`: onto its outgoing buffer, or, when the frame is
/// addressed to the port's own interface, straight onto its incoming buffer.
pub open spec fn sent(ports: Seq<EthernetPortView>, p: usize, loopback: bool, bytes: Seq<u8>) -> Seq<EthernetPortView> {
    if loopback {
        ports.update(
            p as int,
            EthernetPortView { incoming: ports[p as int].incoming.push(bytes), ..ports[p as int] },
        )
    } else {
        ports.update(
            p as int,
            EthernetPortView { outgoing: ports[p as int].outgoing.push(bytes), ..ports[p as int] },
        )
    }
}

/// The port table after the interface with port `p` and address `mac` sends an Ethernet II
/// frame with the given source, destination, EtherType and data.
pub open spec fn eth2_sent_from(
    ports: Seq<EthernetPortView>,
    p: usize,
    mac: Seq<u8>,
    src: Seq<u8>,
    dst: Seq<u8>,
    t: EtherType,
    data: Seq<u8>,
) -> Seq<EthernetPortView> {
    sent(ports, p, dst == mac, Ethernet2FrameView::built(dst, src, data, t).bytes())
}

/// The port table after the interface with port `p` and address `mac` sends an Ethernet II
/// frame from its own address.
pub open spec fn eth2_sent(ports: Seq<EthernetPortView>, p: usize, mac: Seq<u8>, dst: Seq<u8>, t: EtherType, data: Seq<u8>) -> Seq<EthernetPortView> {
    eth2_sent_from(ports, p, mac, mac, dst, t, data)
}

/// The port table after the interface broadcasts an ARP request for `tip`.
pub open spec fn arp_request_sent(ports: Seq<EthernetPortView>, p: usize, mac: Seq<u8>, sip: Seq<u8>, tip: Seq<u8>) -> Seq<EthernetPortView> {
    eth2_sent(
        ports,
        p,
        mac,
        broadcast_bytes(),
        EtherType::Arp,
        ArpFrameView::built(ArpOperation::Request, mac, sip, mac_bytes(0), tip).bytes(),
    )
}

/// The port table after the interface sends an ARP reply to `dmac`, `dip`.
pub open spec fn arp_reply_sent(ports: Seq<EthernetPortView>, p: usize, mac: Seq<u8>, sip: Seq<u8>, dmac: Seq<u8>, dip: Seq<u8>) -> Seq<EthernetPortView> {
    eth2_sent(
        ports,
        p,
        mac,
        dmac,
        EtherType::Arp,
        ArpFrameView::built(ArpOperation::Reply, mac, sip, dmac, dip).bytes(),
    )
}

/// The port table after the interface sends an IEEE 802.3 frame.
pub open spec fn e802_3_sent(ports: Seq<EthernetPortView>, p: usize, mac: Seq<u8>, dst: Seq<u8>, data: Seq<u8>) -> Seq<EthernetPortView> {
    sent(ports, p, dst == mac, Ethernet802_3FrameView::built(dst, mac, data).bytes())
}

/// What one interface sends over a cable, the other receives: in a simulator where each port
/// is simulated once and cables go both ways, an Ethernet II frame that port `ids[ka]` sends
/// (to an address other than its own, with nothing else waiting on it) is, after a tick, the one
/// frame read at the other end `b` of its cable (which held nothing).
pub proof fn lemma_sent_frame_received(
    ports: Seq<EthernetPortView>,
    ids: Seq<usize>,
    ka: int,
    b: usize,
    mac: Seq<u8>,
    dst: Seq<u8>,
    t: EtherType,
    data: Seq<u8>,
)
    requires
        cables_in_table(ports),
        forall|k: int| 0 <= k < ids.len() ==> #[trigger] ids[k] < ports.len(),
        forall|k: int, m: int| 0 <= k < m < ids.len() ==> ids[k] != ids[m],
        forall|k: int| 0 <= k < ids.len() ==> ((#[trigger] ports[ids[k] as int]).connection matches Some(c) ==> ports[c as int].connection == Some(ids[k])),
        0 <= ka < ids.len(),
        ports[ids[ka] as int].connection == Some(b),
        ports[ids[ka] as int].outgoing.len() == 0,
        ports[b as int].incoming.len() == 0,
        mac.len() == 6,
        dst.len() == 6,
        dst != mac,
        20 <= data.len() <= 1474,
    ensures
        parse_frames(carry_all(eth2_sent(ports, ids[ka], mac, dst, t, data), ids)[b as int].incoming)
            == seq![EthernetFrameView::Ethernet2(Ethernet2FrameView::built(dst, mac, data, t))],
{
    let a = ids[ka];
    let g = Ethernet2FrameView::built(dst, mac, data, t);
    let bytes = g.bytes();
    let ports1 = eth2_sent(ports, a, mac, dst, t, data);
    assert(ports1 == ports.update(a as int, EthernetPortView { outgoing: ports[a as int].outgoing.push(bytes), ..ports[a as int] }));
    assert forall|i: int| 0 <= i < ports1.len() implies #[trigger] ports1[i].connection == ports[i].connection by {}
    assert(cables_in_table(ports1)) by {
        assert forall|i: int| 0 <= i < ports1.len() implies (#[trigger] ports1[i].connection matches Some(c) ==> c < ports1.len()) by {
            assert(ports1[i].connection == ports[i].connection);
        }
    }
    assert forall|k: int| 0 <= k < ids.len() implies ((#[trigger] ports1[ids[k] as int]).connection matches Some(c) ==> ports1[c as int].connection == Some(ids[k])) by {
        assert(ports1[ids[k] as int].connection == ports[ids[k] as int].connection);
        match ports[ids[k] as int].connection {
            Some(c) => {
                assert(ports1[c as int].connection == ports[c as int].connection);
            },
            None => {},
        }
    }
    lemma_tick_delivers(ports1, ids, ka, b);
    let inc = carry_all(ports1, ids)[b as int].incoming;
    assert(ports1[a as int].outgoing =~= seq![bytes]);
    assert(ports1[b as int].incoming.len() == 0);
    assert(inc =~= seq![bytes]);
    lemma_ethernet_frame_roundtrip_eth2(g);
    assert(inc.drop_last() =~= Seq::<Seq<u8>>::empty());
    assert(parse_frames(inc.drop_last()) =~= Seq::<EthernetFrameView>::empty());
}

/// A layer 2 interface for Ethernet actions: sends and receives Ethernet frames through a
/// physical port, stamped with a MAC address.
#[derive(Debug, Clone, Copy, PartialEq, Eq)]
pub struct EthernetInterface {
    pub port: usize,
    pub mac_address: MacAddress,
}

impl EthernetInterface {
    /// The index of the interface's port in the simulator's port table.
    pub open spec fn port_id(&self) -> usize {
        self.port
    }

    /// The interface's port is in the port table of `sim`.
    pub open spec fn valid_in(&self, ports: Seq<EthernetPortView>) -> bool {
        self.port_id() < ports.len()
    }

    /// An interface with a new port, without a cable, in the simulator's port table.
    pub fn new(sim: &mut CableSimulator, mac_address: MacAddress) -> (r: EthernetInterface)
        requires
            old(sim).wf(),
        ensures
            final(sim).wf(),
            r.mac_address == mac_address,
            r.port_id() == old(sim)@.ports.len(),
            final(sim)@.ports == old(sim)@.ports.push(crate::network::device::cable::empty_port()),
            final(sim)@.simulated == old(sim)@.simulated,
    {
        let port = sim.new_port();
        EthernetInterface { port, mac_address }
    }

    /// The index of the interface's port.
    pub fn port(&self) -> (r: usize)
        ensures
            r == self.port_id(),
    {
        self.port
    }

    /// Connects two interfaces together with a cable (bi-directional).
    pub fn connect(&self, sim: &mut CableSimulator, other: &EthernetInterface)
        requires
            old(sim).wf(),
            self.valid_in(old(sim)@.ports),
            other.valid_in(old(sim)@.ports),
            self.port_id() != other.port_id(),
        ensures
            final(sim).wf(),
            final(sim)@.simulated == old(sim)@.simulated,
            final(sim)@.ports == cabled(old(sim)@.ports, self.port_id(), other.port_id()),
    {
        sim.connect(self.port, other.port);
    }

    /// Unplugs the interface's cable from both of its ends.
    pub fn disconnect(&self, sim: &mut CableSimulator)
        requires
            old(sim).wf(),
            self.valid_in(old(sim)@.ports),
        ensures
            final(sim).wf(),
            final(sim)@.simulated == old(sim)@.simulated,
            final(sim)@.ports == uncabled(old(sim)@.ports, self.port_id()),
    {
        sim.disconnect(self.port);
    }

    /// Broadcasts an ARP request for the MAC address of `target_ip`, over Ethernet II.
    pub fn arp_request(&mut self, sim: &mut CableSimulator, sender_ip: Ipv4Address, target_ip: Ipv4Address)
        requires
            old(sim).wf(),
            old(self).valid_in(old(sim)@.ports),
        ensures
            final(sim).wf(),
            *final(self) == *old(self),
            final(sim)@.simulated == old(sim)@.simulated,
            final(sim)@.ports == arp_request_sent(old(sim)@.ports, old(self).port_id(), old(self).mac_address@, sender_ip@, target_ip@),
    {
        let arp = ArpFrame::new(ArpOperation::Request, self.mac_address, sender_ip, mac_addr(0), target_ip).to_bytes();
        let bc = mac_broadcast_addr();
        self.send(sim, bc, EtherType::Arp, arp);
    }

    /// Unicasts an ARP reply to the destination MAC address, over Ethernet II.
    pub fn arp_reply(
        &mut self,
        sim: &mut CableSimulator,
        sender_ip: Ipv4Address,
        destination_mac: MacAddress,
        destination_ip: Ipv4Address,
    )
        requires
            old(sim).wf(),
            old(self).valid_in(old(sim)@.ports),
        ensures
            final(sim).wf(),
            *final(self) == *old(self),
            final(sim)@.simulated == old(sim)@.simulated,
            final(sim)@.ports == arp_reply_sent(old(sim)@.ports, old(self).port_id(), old(self).mac_address@, sender_ip@, destination_mac@, destination_ip@),
    {
        let arp = ArpFrame::new(ArpOperation::Reply, self.mac_address, sender_ip, destination_mac, destination_ip).to_bytes();
        self.send(sim, destination_mac, EtherType::Arp, arp);
    }

    /// Sends data as Ethernet II from this interface to the destination MAC address.
    ///
    /// The source MAC address is this interface's MAC address.
    pub fn send(&mut self, sim: &mut CableSimulator, destination: MacAddress, ether_type: EtherType, data: Vec<u8>)
        requires
            old(sim).wf(),
            old(self).valid_in(old(sim)@.ports),
        ensures
            final(sim).wf(),
            *final(self) == *old(self),
            final(sim)@.simulated == old(sim)@.simulated,
            final(sim)@.ports == eth2_sent(old(sim)@.ports, old(self).port_id(), old(self).mac_address@, destination@, ether_type, data@),
    {
        let source = self.mac_address;
        self.sendv(sim, source, destination, ether_type, data);
    }

    /// Sends data as Ethernet II from this interface to the destination MAC address, with the
    /// given source MAC address.
    ///
    /// A frame addressed to this interface's own MAC address is looped back onto the port's
    /// incoming buffer; any other frame waits in the outgoing buffer for the simulator.
    pub fn sendv(
        &mut self,
        sim: &mut CableSimulator,
        source: MacAddress,
        destination: MacAddress,
        ether_type: EtherType,
        data: Vec<u8>,
    )
        requires
            old(sim).wf(),
            old(self).valid_in(old(sim)@.ports),
        ensures
            final(sim).wf(),
            *final(self) == *old(self),
            final(sim)@.simulated == old(sim)@.simulated,
            final(sim)@.ports == eth2_sent_from(old(sim)@.ports, old(self).port_id(), old(self).mac_address@, source@, destination@, ether_type, data@),
    {
        let frame = Ethernet2Frame::new(destination, source, data, ether_type);
        let bytes = frame.to_bytes();
        if mac_eq(&destination, &self.mac_address) {
            sim.deliver(self.port, bytes);
        } else {
            sim.send(self.port, bytes);
        }
    }

    /// Sends data as IEEE 802.3 from this interface to the destination MAC address.
    pub fn send802_3(&mut self, sim: &mut CableSimulator, destination: MacAddress, data: Vec<u8>)
        requires
            old(sim).wf(),
            old(self).valid_in(old(sim)@.ports),
        ensures
            final(sim).wf(),
            *final(self) == *old(self),
            final(sim)@.simulated == old(sim)@.simulated,
            final(sim)@.ports == e802_3_sent(old(sim)@.ports, old(self).port_id(), old(self).mac_address@, destination@, data@),
    {
        let frame = Ethernet802_3Frame::new(destination, self.mac_address, data);
        let bytes = frame.to_bytes();
        if mac_eq(&destination, &self.mac_address) {
            sim.deliver(self.port, bytes);
        } else {
            sim.send(self.port, bytes);
        }
    }

    /// Returns the Ethernet frames received since the last call, in order; byte buffers that are
    /// not frames are dropped.
    pub fn receive(&mut self, sim: &mut CableSimulator) -> (r: Vec<EthernetFrame>)
        requires
            old(sim).wf(),
            old(self).valid_in(old(sim)@.ports),
        ensures
            final(sim).wf(),
            *final(self) == *old(self),
            frame_views(r@) == parse_frames(old(sim)@.ports[old(self).port_id() as int].incoming),
            final(sim)@.simulated == old(sim)@.simulated,
            final(sim)@.ports == old(sim)@.ports.update(
                old(self).port_id() as int,
                EthernetPortView { incoming: Seq::empty(), ..old(sim)@.ports[old(self).port_id() as int] },
            ),
    {
        let bytes = sim.consume_incoming(self.port);
        let ghost s = frames(bytes@);
        let mut result: Vec<EthernetFrame> = Vec::new();
        let mut i: usize = 0;
        while i < bytes.len()
            invariant
                0 <= i <= bytes@.len(),
                s == frames(bytes@),
                frame_views(result@) == parse_frames(s.subrange(0, i as int)),
            decreases bytes@.len() - i,
        {
            let b = copy_range(bytes[i].as_slice(), 0, bytes[i].len());
            assert(b@ =~= s[i as int]);
            assert(s.subrange(0, i + 1).drop_last() =~= s.subrange(0, i as int));
            assert(s.subrange(0, i + 1).last() == s[i as int]);
            if b.len() >= 22 {
                match EthernetFrame::from_bytes(b) {
                    Ok(f) => {
                        result.push(f);
                        assert(frame_views(result@) =~= parse_frames(s.subrange(0, i + 1)));
                    },
                    Err(_) => {},
                }
            }
            i = i + 1;
        }
        assert(s.subrange(0, i as int) =~= s);
        result
    }

    /// Returns the Ethernet II frames received since the last call, in order; other frames are
    /// dropped.
    pub fn receive_eth2(&mut self, sim: &mut CableSimulator) -> (r: Vec<Ethernet2Frame>)
        requires
            old(sim).wf(),
            old(self).valid_in(old(sim)@.ports),
        ensures
            final(sim).wf(),
            *final(self) == *old(self),
            eth2_views(r@) == eth2_frames(parse_frames(old(sim)@.ports[old(self).port_id() as int].incoming)),
            final(sim)@.simulated == old(sim)@.simulated,
            final(sim)@.ports == old(sim)@.ports.update(
                old(self).port_id() as int,
                EthernetPortView { incoming: Seq::empty(), ..old(sim)@.ports[old(self).port_id() as int] },
            ),
    {
        let mut frames = self.receive(sim);
        let ghost fs = frame_views(frames@);
        let mut eth2: Vec<Ethernet2Frame> = Vec::new();
        let ghost n = fs.len();
        assert(frame_views(frames@) =~= fs.subrange(0, n as int));
        while frames.len() > 0
            invariant
                n == fs.len(),
                frames@.len() <= n,
                frame_views(frames@) =~= fs.subrange(n - frames@.len(), n as int),
                eth2_views(eth2@) == eth2_frames(fs.subrange(0, n - frames@.len())),
            decreases frames@.len(),
        {
            let ghost k = n - frames@.len();
            let ghost before = frames@;
            let f = frames.remove(0);
            assert(frame_views(before)[0] == f@);
            assert(fs[k] == f@);
            assert(fs.subrange(0, k + 1).drop_last() =~= fs.subrange(0, k));
            match f {
                EthernetFrame::Ethernet2(g) => {
                    eth2.push(g);
                    assert(eth2_views(eth2@) =~= eth2_frames(fs.subrange(0, k + 1)));
                },
                _ => {
                    assert(eth2_views(eth2@) =~= eth2_frames(fs.subrange(0, k + 1)));
                },
            }
            assert forall|j: int| 0 <= j < frames@.len() implies frame_views(frames@)[j] == fs[k + 1 + j] by {
                assert(frames@[j] == before[j + 1]);
                assert(frame_views(before)[j + 1] == fs.subrange(k, n as int)[j + 1]);
            }
            assert(frame_views(frames@) =~= fs.subrange(n - frames@.len(), n as int));
        }
        assert(fs.subrange(0, n as int) =~= fs);
        eth2
    }
}

} // verus!
