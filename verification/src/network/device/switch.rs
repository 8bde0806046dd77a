//! A layer 2 switch with MAC learning and the IEEE 802.1W Rapid Spanning Tree Protocol.

use vstd::prelude::*;
use std::collections::HashMap;
use crate::bytes::{
    copy_range, lemma_u16_roundtrip, lemma_u32_roundtrip, lemma_u64_roundtrip, push_all, push_u16_be,
    push_u32_be, push_u64_be, read_u16_be, read_u32_be, read_u64_be, u16_be, u16_of, u32_be,
    u32_of, u64_be, u64_of,
};
use crate::network::device::cable::{cabled, empty_port, uncabled, CableSimulator, EthernetPortView};
use crate::network::ethernet::interface::{
    e802_3_sent, eth2_sent_from, frame_views, parse_frames, EthernetInterface,
};
use crate::network::ethernet::{
    bpdu_bytes, is_mac_multicast_or_broadcast, mac_addr, mac_bpdu_addr, mac_bytes,
    spec_is_multicast_or_broadcast, ByteSerializable, EtherType, Ethernet2Frame,
    Ethernet2FrameView, EthernetFrame, EthernetFrameView, MacAddress, ParseError, FrameKind,
};
use crate::tick::{ready_keys, scheduled, ticked, TickTimer, Tickable, TimerEntryView, NANOS_PER_SEC};

verus! {

/// The 48-bit number whose big-endian bytes are the six bytes of `mac`.
pub open spec fn mac_key(mac: Seq<u8>) -> u64 {
    (mac[0] * 0x100_0000_0000 + mac[1] * 0x1_0000_0000 + mac[2] * 0x100_0000 + mac[3] * 0x1_0000
        + mac[4] * 0x100 + mac[5]) as u64
}

fn mac_to_key(mac: &MacAddress) -> (r: u64)
    ensures
        r == mac_key(mac@),
        r < 0x1_0000_0000_0000,
{
    (mac[0] as u64) * 0x100_0000_0000 + (mac[1] as u64) * 0x1_0000_0000 + (mac[2] as u64)
        * 0x100_0000 + (mac[3] as u64) * 0x1_0000 + (mac[4] as u64) * 0x100 + (mac[5] as u64)
}

/// Bridge ID: the MAC address (as a 48-bit number) followed by the 16-bit priority.
pub open spec fn spec_bridge_id(mac: Seq<u8>, priority: u16) -> u64 {
    (mac_key(mac) * 0x1_0000 + priority) as u64
}

/// Takes a MAC address and a priority to create a bridge ID.
pub fn bridge_id(mac: &MacAddress, priority: u16) -> (r: u64)
    ensures
        r == spec_bridge_id(mac@, priority),
{
    let k = mac_to_key(mac);
    k * 0x1_0000 + (priority as u64)
}

/// Compares two bridge IDs: `None` if equal, `Some(true)` if `bid1` is better (a lower
/// priority, or an equal priority and a lower ID), `Some(false)` otherwise.
pub open spec fn spec_compare_bids(bid1: u64, bid2: u64) -> Option<bool> {
    if bid1 == bid2 {
        None
    } else if bid1 % 0x1_0000 < bid2 % 0x1_0000 {
        Some(true)
    } else if bid1 % 0x1_0000 == bid2 % 0x1_0000 && bid1 < bid2 {
        Some(true)
    } else {
        Some(false)
    }
}

/// Compares two bridge IDs; see `spec_compare_bids`.
pub fn compare_bids(bid1: u64, bid2: u64) -> (r: Option<bool>)
    ensures
        r == spec_compare_bids(bid1, bid2),
{
    if bid1 == bid2 {
        return None;
    }
    let priority1 = bid1 % 0x1_0000;
    let priority2 = bid2 % 0x1_0000;
    if priority1 < priority2 {
        return Some(true);
    }
    if priority1 == priority2 && bid1 < bid2 {
        return Some(true);
    }
    Some(false)
}

/// Comparing bridge IDs is a strict order: two IDs are unordered exactly when they are equal,
/// and exactly one of two different IDs is the better.
pub proof fn lemma_compare_bids_order(a: u64, b: u64)
    ensures
        (spec_compare_bids(a, b) is None) == (a == b),
        spec_compare_bids(a, b) == Some(true) <==> spec_compare_bids(b, a) == Some(false),
{
}

/// The spanning tree invariant: a switch has no root port exactly when it takes itself as the
/// root bridge, then its root cost is 0, and the root bridge it knows is never worse than the
/// switch itself. `Switch::from_seed` establishes it and every operation on a switch keeps it
/// (each ensures `wf`).
pub proof fn lemma_spanning_tree_invariant(sw: SwitchView, n: nat)
    requires
        sw.wf(n),
    ensures
        sw.root_port is None <==> sw.root_bid == sw.bid(),
        sw.root_bid == sw.bid() ==> sw.root_cost == 0,
        spec_compare_bids(sw.bid(), sw.root_bid) != Some(true),
{
}

/// Being a better bridge ID is transitive.
pub proof fn lemma_compare_bids_transitive(a: u64, b: u64, c: u64)
    requires
        spec_compare_bids(a, b) == Some(true),
        spec_compare_bids(b, c) == Some(true),
    ensures
        spec_compare_bids(a, c) == Some(true),
{
}

/// The last 16 bits of a bridge ID are the priority, and the bits above them the MAC address.
pub proof fn lemma_bridge_id_parts(mac: Seq<u8>, priority: u16)
    requires
        mac.len() == 6,
    ensures
        spec_bridge_id(mac, priority) % 0x1_0000 == priority,
        spec_bridge_id(mac, priority) / 0x1_0000 == mac_key(mac),
{
    let k = mac_key(mac) as int;
    assert(mac_key(mac) == (mac[0] * 0x100_0000_0000 + mac[1] * 0x1_0000_0000 + mac[2] * 0x100_0000 + mac[3] * 0x1_0000 + mac[4] * 0x100 + mac[5]) as u64);
    assert(0 <= mac[0] * 0x100_0000_0000 + mac[1] * 0x1_0000_0000 + mac[2] * 0x100_0000 + mac[3] * 0x1_0000 + mac[4] * 0x100 + mac[5] < 0x1_0000_0000_0000);
    assert(k * 0x1_0000 + priority < 0x1_0000_0000_0000_0000) by (nonlinear_arith)
        requires
            0 <= k < 0x1_0000_0000_0000,
            priority < 0x1_0000,
    ;
    assert((k * 0x1_0000 + priority) % 0x1_0000 == priority && (k * 0x1_0000 + priority) / 0x1_0000 == k) by (nonlinear_arith)
        requires
            0 <= k,
            0 <= priority < 0x1_0000,
    ;
}

/// The flags field of a BPDU.
pub open spec fn spec_flags(tcn: bool, proposal: bool, port_role: u8, learning: bool, forwarding: bool, agreement: bool) -> u8 {
    (if tcn { 0x01u8 } else { 0u8 }) | (if proposal { 0x02u8 } else { 0u8 }) | (port_role << 2u8)
        | (if learning { 0x10u8 } else { 0u8 }) | (if forwarding { 0x20u8 } else { 0u8 }) | (
    if agreement {
        0x40u8
    } else {
        0u8
    })
}

/// The abstract content of a Bridge Protocol Data Unit.
pub struct BpduFrameView {
    pub destination_address: Seq<u8>,
    pub source_address: Seq<u8>,
    pub protocol_id: u16,
    pub version: u8,
    pub bpdu_type: u8,
    pub flags: u8,
    pub root_bid: u64,
    pub root_cost: u32,
    pub bid: u64,
    pub port: u16,
    pub message_age: u16,
    pub max_age: u16,
    pub hello_time: u16,
    pub forward_delay: u16,
}

impl BpduFrameView {
    pub open spec fn bytes(self) -> Seq<u8> {
        self.destination_address + self.source_address + u16_be(self.protocol_id) + seq![
            self.version,
            self.bpdu_type,
            self.flags,
        ] + u64_be(self.root_bid) + u32_be(self.root_cost) + u64_be(self.bid) + u16_be(self.port)
            + u16_be(self.message_age) + u16_be(self.max_age) + u16_be(self.hello_time) + u16_be(
            self.forward_delay,
        )
    }

    /// The BPDU built by `BpduFrame::new`: RSTP version 2, timers at zero.
    pub open spec fn built(
        dst: Seq<u8>,
        src: Seq<u8>,
        config_type: bool,
        flags: u8,
        root_bid: u64,
        root_cost: u32,
        bid: u64,
        port: u16,
    ) -> Self {
        BpduFrameView {
            destination_address: dst,
            source_address: src,
            protocol_id: 0,
            version: 2,
            bpdu_type: if config_type { 2 } else { 0 },
            flags,
            root_bid,
            root_cost,
            bid,
            port,
            message_age: 0,
            max_age: 0,
            hello_time: 0,
            forward_delay: 0,
        }
    }

    /// The hello BPDU built by `BpduFrame::hello`: a designated, forwarding port.
    pub open spec fn hello(src: Seq<u8>, root_bid: u64, root_cost: u32, bid: u64, port: usize) -> Self {
        Self::built(
            bpdu_bytes(),
            src,
            false,
            spec_flags(false, false, 1, false, true, false),
            root_bid,
            root_cost,
            bid,
            (port % 0x1_0000) as u16,
        )
    }

    /// The buffers on which `BpduFrame::from_bytes` is defined: 35 bytes or more must be 47
    /// bytes or more.
    pub open spec fn accepts(b: Seq<u8>) -> bool {
        b.len() < 35 || b.len() >= 47
    }

    pub open spec fn parse(b: Seq<u8>) -> Self {
        BpduFrameView {
            destination_address: b.subrange(0, 6),
            source_address: b.subrange(6, 12),
            protocol_id: u16_of(b[12], b[13]),
            version: b[14],
            bpdu_type: b[15],
            flags: b[16],
            root_bid: u64_of(b.subrange(17, 25)),
            root_cost: u32_of(b.subrange(25, 29)),
            bid: u64_of(b.subrange(29, 37)),
            port: u16_of(b[37], b[38]),
            message_age: u16_of(b[39], b[40]),
            max_age: u16_of(b[41], b[42]),
            hello_time: u16_of(b[43], b[44]),
            forward_delay: u16_of(b[45], b[46]),
        }
    }

    pub open spec fn from_bytes(b: Seq<u8>) -> Result<Self, ParseError> {
        if b.len() < 35 {
            Err(ParseError::Runt(FrameKind::Bpdu))
        } else {
            Ok(Self::parse(b))
        }
    }

    /// The port role in the flags is "designated".
    pub open spec fn is_designated(self) -> bool {
        (self.flags & 0x0C) == 4
    }
}

/// A Bridge Protocol Data Unit of the Spanning Tree Protocol.
#[derive(Debug, PartialEq, Eq, Clone)]
pub struct BpduFrame {
    pub destination_address: MacAddress,
    pub source_address: MacAddress,
    pub protocol_id: u16,
    pub version: u8,
    pub bpdu_type: u8,
    pub flags: u8,
    pub root_bid: u64,
    pub root_cost: u32,
    pub bid: u64,
    pub port: u16,
    pub message_age: u16,
    pub max_age: u16,
    pub hello_time: u16,
    pub forward_delay: u16,
}

impl View for BpduFrame {
    type V = BpduFrameView;

    open spec fn view(&self) -> BpduFrameView {
        BpduFrameView {
            destination_address: self.destination_address@,
            source_address: self.source_address@,
            protocol_id: self.protocol_id,
            version: self.version,
            bpdu_type: self.bpdu_type,
            flags: self.flags,
            root_bid: self.root_bid,
            root_cost: self.root_cost,
            bid: self.bid,
            port: self.port,
            message_age: self.message_age,
            max_age: self.max_age,
            hello_time: self.hello_time,
            forward_delay: self.forward_delay,
        }
    }
}

fn mac_at(b: &[u8], i: usize) -> (r: MacAddress)
    requires
        i + 6 <= b@.len(),
    ensures
        r@ == b@.subrange(i as int, i + 6),
{
    let r = [b[i], b[i + 1], b[i + 2], b[i + 3], b[i + 4], b[i + 5]];
    assert(r@ =~= b@.subrange(i as int, i + 6));
    r
}

impl BpduFrame {
    /// The flags field of a BPDU.
    /// * `tcn` - Topology Change Notification.
    /// * `proposal` - The BPDU is a proposal.
    /// * `port_role` - 0 = Root, 1 = Designated, 2 = Alternate, 3 = Backup, 4 = Disabled.
    /// * `learning` - The port is learning.
    /// * `forwarding` - The port is forwarding.
    /// * `agreement` - The port has reached agreement with the other end of the link.
    pub fn flags(tcn: bool, proposal: bool, port_role: u8, learning: bool, forwarding: bool, agreement: bool) -> (r: u8)
        ensures
            r == spec_flags(tcn, proposal, port_role, learning, forwarding, agreement),
    {
        (if tcn { 0x01u8 } else { 0u8 }) | (if proposal { 0x02u8 } else { 0u8 }) | (port_role << 2u8)
            | (if learning { 0x10u8 } else { 0u8 }) | (if forwarding { 0x20u8 } else { 0u8 }) | (
        if agreement {
            0x40u8
        } else {
            0u8
        })
    }

    /// A BPDU of RSTP version 2 with zero timers. `config_type` true gives BPDU type 2 (a TCN
    /// BPDU), false gives type 0 (a Configuration BPDU): the configuration BPDUs that switches
    /// send, and that the tests expect, are built with false.
    pub fn new(
        destination_address: MacAddress,
        source_address: MacAddress,
        config_type: bool,
        flags: u8,
        root_bid: u64,
        root_cost: u32,
        bid: u64,
        port: u16,
    ) -> (r: BpduFrame)
        ensures
            r@ == BpduFrameView::built(destination_address@, source_address@, config_type, flags, root_bid, root_cost, bid, port),
    {
        let bpdu_type = if config_type { 0x02 } else { 0x00 };
        BpduFrame {
            destination_address,
            source_address,
            protocol_id: 0x0000,
            version: 2,
            bpdu_type,
            flags,
            root_bid,
            root_cost,
            bid,
            port,
            message_age: 0,
            max_age: 0,
            hello_time: 0,
            forward_delay: 0,
        }
    }

    /// A hello BPDU to the spanning tree group address, from a designated forwarding port.
    pub fn hello(source_address: MacAddress, root_bid: u64, root_cost: u32, bid: u64, port: usize) -> (r: BpduFrame)
        ensures
            r@ == BpduFrameView::hello(source_address@, root_bid, root_cost, bid, port),
    {
        let flags = BpduFrame::flags(false, false, 1, false, true, false);
        BpduFrame::new(mac_bpdu_addr(), source_address, false, flags, root_bid, root_cost, bid, (port % 0x1_0000) as u16)
    }

    /// Returns true if the port role in the flags is "designated".
    pub fn is_designated(&self) -> (r: bool)
        ensures
            r == self@.is_designated(),
    {
        (self.flags & 0x0C) == 4
    }
}

impl ByteSerializable for BpduFrame {
    open spec fn accepts(bytes: Seq<u8>) -> bool {
        BpduFrameView::accepts(bytes)
    }

    /// Reads a BPDU from its first 47 bytes; fewer than 35 bytes is a runt.
    fn from_bytes(bytes: Vec<u8>) -> (r: Result<BpduFrame, ParseError>)
        ensures
            (match r {
                Ok(f) => Ok(f@),
                Err(e) => Err(e),
            }) == BpduFrameView::from_bytes(bytes@),
    {
        if bytes.len() < 35 {
            return Err(ParseError::Runt(FrameKind::Bpdu));
        }
        let b = bytes.as_slice();
        let f = BpduFrame {
            destination_address: mac_at(b, 0),
            source_address: mac_at(b, 6),
            protocol_id: read_u16_be(b, 12),
            version: bytes[14],
            bpdu_type: bytes[15],
            flags: bytes[16],
            root_bid: read_u64_be(b, 17),
            root_cost: read_u32_be(b, 25),
            bid: read_u64_be(b, 29),
            port: read_u16_be(b, 37),
            message_age: read_u16_be(b, 39),
            max_age: read_u16_be(b, 41),
            hello_time: read_u16_be(b, 43),
            forward_delay: read_u16_be(b, 45),
        };
        assert(f@ == BpduFrameView::parse(bytes@));
        Ok(f)
    }

    fn to_bytes(&self) -> (r: Vec<u8>)
        ensures
            r@ == self@.bytes(),
    {
        let mut bytes: Vec<u8> = Vec::new();
        push_all(&mut bytes, self.destination_address.as_slice());
        push_all(&mut bytes, self.source_address.as_slice());
        push_u16_be(&mut bytes, self.protocol_id);
        bytes.push(self.version);
        bytes.push(self.bpdu_type);
        bytes.push(self.flags);
        push_u64_be(&mut bytes, self.root_bid);
        push_u32_be(&mut bytes, self.root_cost);
        push_u64_be(&mut bytes, self.bid);
        push_u16_be(&mut bytes, self.port);
        push_u16_be(&mut bytes, self.message_age);
        push_u16_be(&mut bytes, self.max_age);
        push_u16_be(&mut bytes, self.hello_time);
        push_u16_be(&mut bytes, self.forward_delay);
        assert(bytes@ =~= self@.bytes());
        bytes
    }
}

/// Writing a BPDU and reading the bytes back gives the same BPDU.
pub proof fn lemma_bpdu_roundtrip(f: BpduFrameView)
    requires
        f.destination_address.len() == 6,
        f.source_address.len() == 6,
    ensures
        f.bytes().len() == 47,
        BpduFrameView::accepts(f.bytes()),
        BpduFrameView::from_bytes(f.bytes()) == Ok::<BpduFrameView, ParseError>(f),
{
    let b = f.bytes();
    lemma_u16_roundtrip(f.protocol_id);
    lemma_u64_roundtrip(f.root_bid);
    lemma_u32_roundtrip(f.root_cost);
    lemma_u64_roundtrip(f.bid);
    lemma_u16_roundtrip(f.port);
    lemma_u16_roundtrip(f.message_age);
    lemma_u16_roundtrip(f.max_age);
    lemma_u16_roundtrip(f.hello_time);
    lemma_u16_roundtrip(f.forward_delay);
    assert(b.subrange(0, 6) =~= f.destination_address);
    assert(b.subrange(6, 12) =~= f.source_address);
    assert(b[12] == u16_be(f.protocol_id)[0] && b[13] == u16_be(f.protocol_id)[1]);
    assert(b.subrange(17, 25) =~= u64_be(f.root_bid));
    assert(b.subrange(25, 29) =~= u32_be(f.root_cost));
    assert(b.subrange(29, 37) =~= u64_be(f.bid));
    assert(b[37] == u16_be(f.port)[0] && b[38] == u16_be(f.port)[1]);
    assert(b[39] == u16_be(f.message_age)[0] && b[40] == u16_be(f.message_age)[1]);
    assert(b[41] == u16_be(f.max_age)[0] && b[42] == u16_be(f.max_age)[1]);
    assert(b[43] == u16_be(f.hello_time)[0] && b[44] == u16_be(f.hello_time)[1]);
    assert(b[45] == u16_be(f.forward_delay)[0] && b[46] == u16_be(f.forward_delay)[1]);
    assert(BpduFrameView::parse(b) =~= f);
}

/// The port role that a hello BPDU announces is "designated".
pub proof fn lemma_hello_is_designated(src: Seq<u8>, root_bid: u64, root_cost: u32, bid: u64, port: usize)
    ensures
        BpduFrameView::hello(src, root_bid, root_cost, bid, port).is_designated(),
{
    let f = spec_flags(false, false, 1, false, true, false);
    assert((f & 0x0C) == 4) by (bit_vector)
        requires
            f == ((0u8 | 0u8) | (1u8 << 2u8) | 0u8 | 0x20u8 | 0u8),
    ;
}


// ----- Switch -----

/// The role of a port in the spanning tree.
#[derive(Debug, PartialEq, Eq, Clone, Copy, Structural)]
pub enum StpRole {
    /// The port that leads to the root bridge.
    Root,
    /// The lowest cost path to the root bridge for a network segment.
    Designated,
    /// A lower cost path to the root bridge that is not the root port.
    Alternate,
    /// A higher cost path to the root bridge for a network segment.
    Backup,
}

/// The state of a port in the spanning tree.
#[derive(Debug, PartialEq, Eq, Clone, Copy, Structural)]
pub enum StpState {
    /// No forwarded frames, receives and transmits BPDUs, no learning of MAC addresses.
    Discarding,
    /// No forwarded frames, receives and transmits BPDUs, learning of MAC addresses.
    Learning,
    /// Forwarded frames, receives and transmits BPDUs, learning of MAC addresses.
    Forwarding,
}

/// An Ethernet interface that takes part in the Spanning Tree Protocol.
#[derive(Debug, Clone, Copy)]
pub struct SwitchPort {
    pub interface: EthernetInterface,
    pub stp_state: StpState,
    /// `None` until the port has a role.
    pub stp_role: Option<StpRole>,
    pub id: usize,
    /// 0 for the root bridge or a port that has not received a BPDU.
    pub root_cost: u32,
    /// The bridge ID at the other end of the port; `None` until a BPDU is received.
    pub bid: Option<u64>,
}

/// Timer key of the periodic hello BPDUs.
pub const BPDU_MULTICAST: u64 = 0;
/// Timer key of the end of the spanning tree initialization.
pub const RSTP_INIT: u64 = 1;

/// The abstract state of a switch.
pub struct SwitchView {
    pub ports: Seq<SwitchPort>,
    pub table: Map<u64, usize>,
    pub mac_address: MacAddress,
    pub bridge_priority: u16,
    pub root_bid: u64,
    pub root_cost: u32,
    pub root_port: Option<usize>,
    pub timer: Seq<TimerEntryView>,
}

/// `x + 1`, or `x` at the largest value.
pub open spec fn sat_inc(x: u32) -> u32 {
    if x == u32::MAX { x } else { (x + 1) as u32 }
}

/// The number of a port role in the BPDU flags; a port without a role is announced as 0.
pub open spec fn role_code(r: Option<StpRole>) -> u8 {
    match r {
        Some(StpRole::Root) => 0,
        Some(StpRole::Designated) => 1,
        Some(StpRole::Alternate) => 2,
        Some(StpRole::Backup) => 3,
        None => 0,
    }
}

impl SwitchView {
    pub open spec fn bid(self) -> u64 {
        spec_bridge_id(self.mac_address@, self.bridge_priority)
    }

    pub open spec fn is_root_bridge(self) -> bool {
        self.root_bid == self.bid()
    }

    /// The switch has 32 ports, numbered in order, in a port table of `n` ports; its MAC table
    /// and root port name its own ports; it has no root port exactly when it is the root bridge,
    /// the root bridge has cost 0, and the root bridge it knows is never worse than itself.
    pub open spec fn wf(self, n: nat) -> bool {
        &&& self.ports.len() == 32
        &&& forall|i: int| 0 <= i < 32 ==> (#[trigger] self.ports[i]).id == i && self.ports[i].interface.port < n
        &&& forall|k: u64| #[trigger] self.table.contains_key(k) ==> self.table[k] < 32
        &&& (self.root_port matches Some(p) ==> p < 32)
        &&& (self.root_port is None <==> self.is_root_bridge())
        &&& (self.is_root_bridge() ==> self.root_cost == 0)
        &&& spec_compare_bids(self.bid(), self.root_bid) != Some(true)
    }

    /// The switch as `Switch::from_seed` makes it: 32 forwarding ports without a role, cost or
    /// bridge ID, on the simulator ports `first` to `first + 31`, with the MAC addresses
    /// `mac_seed + 1` to `mac_seed + 32`; the switch's own MAC address is `mac_seed`; an empty
    /// MAC table; the switch is its own root bridge; nothing scheduled.
    pub open spec fn is_seeded(self, first: nat, mac_seed: u64, bridge_priority: u16) -> bool {
        &&& self.ports.len() == 32
        &&& forall|k: int| 0 <= k < 32 ==> {
            let sp = #[trigger] self.ports[k];
            &&& sp.interface.port == first + k
            &&& sp.interface.mac_address@ == mac_bytes((mac_seed + k + 1) as u64)
            &&& sp.stp_state == StpState::Forwarding
            &&& sp.stp_role is None
            &&& sp.id == k
            &&& sp.root_cost == 0
            &&& sp.bid is None
        }
        &&& self.table == Map::<u64, usize>::empty()
        &&& self.mac_address@ == mac_bytes(mac_seed)
        &&& self.bridge_priority == bridge_priority
        &&& self.root_bid == spec_bridge_id(mac_bytes(mac_seed), bridge_priority)
        &&& self.root_cost == 0
        &&& self.root_port is None
        &&& self.timer == Seq::<TimerEntryView>::empty()
    }

    /// The two switches have the same ports: the same numbers and the same interfaces.
    pub open spec fn same_ports(self, other: SwitchView) -> bool {
        &&& self.ports.len() == other.ports.len()
        &&& forall|i: int| 0 <= i < self.ports.len() ==> (#[trigger] self.ports[i]).interface == other.ports[i].interface && self.ports[i].id == other.ports[i].id
    }

    pub open spec fn set_port(self, i: int, sp: SwitchPort) -> Self {
        SwitchView { ports: self.ports.update(i, sp), ..self }
    }

    /// The BPDU that `_send_bpdus` sends on port `sp`.
    pub open spec fn port_bpdu(self, sp: SwitchPort, tcn: bool, proposal: bool) -> BpduFrameView {
        let role = role_code(sp.stp_role);
        BpduFrameView {
            port: (sp.id % 0x1_0000) as u16,
            flags: spec_flags(tcn, proposal, role, sp.stp_state == StpState::Learning, role == 0 || role == 1, false),
            ..BpduFrameView::hello(self.mac_address@, self.root_bid, self.root_cost, self.bid(), 0)
        }
    }
}

/// The port table after the switch sends its BPDU on each of its ports `0..n` (only on ports
/// that have received a BPDU, unless `all`).
#[verifier::opaque]
pub open spec fn send_bpdus_upto(sw: SwitchView, ports: Seq<EthernetPortView>, tcn: bool, proposal: bool, all: bool, n: int) -> Seq<EthernetPortView>
    decreases n,
{
    if n <= 0 {
        ports
    } else {
        let prev = send_bpdus_upto(sw, ports, tcn, proposal, all, n - 1);
        let sp = sw.ports[n - 1];
        if !all && sp.bid is None {
            prev
        } else {
            e802_3_sent(prev, sp.interface.port, sp.interface.mac_address@, bpdu_bytes(), sw.port_bpdu(sp, tcn, proposal).bytes())
        }
    }
}

/// The switch after learning that `src` is reached through `port` (the first port a source
/// is seen on is kept).
pub open spec fn learn(sw: SwitchView, src: Seq<u8>, port: usize) -> SwitchView {
    if sw.table.contains_key(mac_key(src)) {
        sw
    } else {
        SwitchView { table: sw.table.insert(mac_key(src), port), ..sw }
    }
}

/// The port table after the frame is sent out of each port `0..n`, except the port it came
/// from and discarding ports.
#[verifier::opaque]
pub open spec fn flood_upto(sw: SwitchView, ports: Seq<EthernetPortView>, f: Ethernet2FrameView, from: usize, n: int) -> Seq<EthernetPortView>
    decreases n,
{
    if n <= 0 {
        ports
    } else {
        let prev = flood_upto(sw, ports, f, from, n - 1);
        let sp = sw.ports[n - 1];
        if n - 1 == from || sp.stp_state == StpState::Discarding {
            prev
        } else {
            eth2_sent_from(prev, sp.interface.port, sp.interface.mac_address@, f.source_address, f.destination_address, f.ether_type, f.data)
        }
    }
}

/// Receiving an Ethernet II frame on `port`: learn its source, then forward it to the port of
/// its destination, or flood it when the destination is unknown.
pub open spec fn rx_eth2(sw: SwitchView, ports: Seq<EthernetPortView>, f: Ethernet2FrameView, port: usize) -> (SwitchView, Seq<EthernetPortView>) {
    let sw1 = learn(sw, f.source_address, port);
    let k = mac_key(f.destination_address);
    if sw1.table.contains_key(k) {
        let sp = sw1.ports[sw1.table[k] as int];
        (sw1, eth2_sent_from(ports, sp.interface.port, sp.interface.mac_address@, f.source_address, f.destination_address, f.ether_type, f.data))
    } else {
        (sw1, flood_upto(sw1, ports, f, port, 32))
    }
}

/// Learning never moves an address the switch already knows, and afterwards the source is
/// known.
pub proof fn lemma_learn_keeps(sw: SwitchView, src: Seq<u8>, port: usize, k: u64)
    ensures
        learn(sw, src, port).table.contains_key(mac_key(src)),
        sw.table.contains_key(k) ==> learn(sw, src, port).table.contains_key(k) && learn(sw, src, port).table[k] == sw.table[k],
        learn(sw, src, port).ports == sw.ports,
{
}

/// A frame whose source is a group address changes nothing: it is dropped.
pub proof fn lemma_group_source_dropped(sw: SwitchView, ports: Seq<EthernetPortView>, f: EthernetFrameView, i: usize, state: StpState)
    requires
        spec_is_multicast_or_broadcast(f.source_address()),
    ensures
        fwd_frame(sw, ports, f, i, state) == (sw, ports),
{
}

/// A discarding port forwards no Ethernet II frame and learns no address from it.
pub proof fn lemma_discarding_port_forwards_nothing(sw: SwitchView, ports: Seq<EthernetPortView>, g: Ethernet2FrameView, i: usize)
    ensures
        fwd_frame(sw, ports, EthernetFrameView::Ethernet2(g), i, StpState::Discarding) == (sw, ports),
{
}

/// Step `i` of the search for the lowest cost port of each network segment (ports facing the
/// same bridge): the port's cost is raised to the switch's root cost, and the port is kept for
/// its segment when it is the first, cheaper, or (on equal cost, or after a root change) has the
/// higher port number.
pub open spec fn seg_step(sw: SwitchView, map: Map<u64, usize>, i: int, root_changed: bool) -> (SwitchView, Map<u64, usize>) {
    let sp = sw.ports[i];
    if sp.bid is None || sp.id == sw.root_port->Some_0 {
        (sw, map)
    } else {
        let cost = if sp.root_cost > sw.root_cost { sp.root_cost } else { sw.root_cost };
        let sw1 = sw.set_port(i, SwitchPort { root_cost: cost, ..sp });
        let bid = sp.bid->Some_0;
        if map.contains_key(bid) {
            let m = map[bid];
            let min_cost = sw1.ports[m as int].root_cost;
            let min_bid = sw1.ports[m as int].bid->Some_0;
            let is_min = if !root_changed && min_cost != cost {
                cost < min_cost
            } else if bid == min_bid {
                sp.id > m
            } else {
                spec_compare_bids(bid, min_bid)->Some_0
            };
            (sw1, if is_min { map.insert(bid, sp.id) } else { map })
        } else {
            (sw1, map.insert(bid, sp.id))
        }
    }
}

pub open spec fn seg_upto(sw: SwitchView, root_changed: bool, n: int) -> (SwitchView, Map<u64, usize>)
    decreases n,
{
    if n <= 0 {
        (sw, Map::empty())
    } else {
        let r = seg_upto(sw, root_changed, n - 1);
        seg_step(r.0, r.1, n - 1, root_changed)
    }
}

/// The role of port `i` once the segments are known: a port facing the root bridge is an
/// alternate, a port of no segment is a backup, and any other port becomes designated unless
/// it is a backup and the root has not changed.
pub open spec fn assign_role(sw: SwitchView, map: Map<u64, usize>, i: int, root_changed: bool) -> SwitchView {
    let sp = sw.ports[i];
    if sp.id == sw.root_port->Some_0 || sp.bid is None {
        sw
    } else {
        let bid = sp.bid->Some_0;
        if bid == sw.root_bid {
            sw.set_port(i, SwitchPort { stp_role: Some(StpRole::Alternate), stp_state: StpState::Discarding, ..sp })
        } else if !map.contains_key(bid) {
            sw.set_port(i, SwitchPort { stp_role: Some(StpRole::Backup), stp_state: StpState::Discarding, ..sp })
        } else if sp.stp_role != Some(StpRole::Backup) || root_changed {
            sw.set_port(i, SwitchPort { stp_role: Some(StpRole::Designated), stp_state: StpState::Forwarding, ..sp })
        } else {
            sw
        }
    }
}

pub open spec fn assign_upto(sw: SwitchView, map: Map<u64, usize>, root_changed: bool, n: int) -> SwitchView
    decreases n,
{
    if n <= 0 {
        sw
    } else {
        assign_role(assign_upto(sw, map, root_changed, n - 1), map, n - 1, root_changed)
    }
}

/// The switch after its port roles are computed again (it must have a root port).
#[verifier::opaque]
pub open spec fn calc_roles(sw: SwitchView, root_changed: bool) -> SwitchView {
    let r = seg_upto(sw, root_changed, 32);
    assign_upto(r.0, r.1, root_changed, 32)
}

/// A switch that is not the root bridge receiving on `port` (updated to `sp`) a BPDU with the
/// same root: the port becomes the root port when it is a cheaper path to the root, or as cheap
/// with a better sender; otherwise a port that is not the root port records the cost and becomes
/// a backup when the sender is a better designated bridge, while a backup port whose sender is
/// not becomes designated again. The roles are then computed again.
pub open spec fn same_root(sw: SwitchView, sp: SwitchPort, b: BpduFrameView, port: usize) -> SwitchView {
    let inc = sat_inc(b.root_cost);
    let root = SwitchPort { stp_role: Some(StpRole::Root), stp_state: StpState::Forwarding, ..sp };
    let cb = spec_compare_bids(b.bid, sw.bid());
    let sw1 = if inc < sw.root_cost {
        SwitchView { root_cost: inc, root_port: Some(port), ..sw.set_port(port as int, root) }
    } else if inc == sw.root_cost && cb == Some(true) {
        SwitchView { root_port: Some(port), ..sw.set_port(port as int, root) }
    } else if sp.stp_role != Some(StpRole::Root) {
        let sp3 = SwitchPort { root_cost: inc, ..sp };
        sw.set_port(
            port as int,
            if b.is_designated() && cb == Some(true) {
                SwitchPort { stp_role: Some(StpRole::Backup), stp_state: StpState::Discarding, ..sp3 }
            } else if sp.stp_role == Some(StpRole::Backup) {
                SwitchPort { stp_role: Some(StpRole::Designated), stp_state: StpState::Forwarding, ..sp3 }
            } else {
                sp3
            },
        )
    } else {
        sw.set_port(port as int, sp)
    };
    calc_roles(sw1, false)
}

/// Receiving a BPDU on `port`.
///
/// The port records the sender's bridge ID. If this switch knows a better root, it answers
/// with its own hello (and, being the root bridge, makes the port designated). If the roots
/// are the same, the root bridge makes the port designated; another switch takes the port as
/// root port when it is a cheaper path, or as cheap with a better sender, else records the
/// port's cost and makes it a backup when the sender is a better designated bridge, and
/// computes its roles again. If the sender knows a better root, the port becomes the root
/// port, the roles are computed again and new BPDUs are flooded.
pub open spec fn rx_bpdu(sw: SwitchView, ports: Seq<EthernetPortView>, b: BpduFrameView, port: usize) -> (SwitchView, Seq<EthernetPortView>) {
    let sp = SwitchPort { bid: Some(b.bid), ..sw.ports[port as int] };
    let c = spec_compare_bids(sw.root_bid, b.root_bid);
    let inc = sat_inc(b.root_cost);
    let designated = SwitchPort { stp_role: Some(StpRole::Designated), stp_state: StpState::Forwarding, root_cost: 0, ..sp };
    let root = SwitchPort { stp_role: Some(StpRole::Root), stp_state: StpState::Forwarding, ..sp };
    if c == Some(true) {
        let ports1 = e802_3_sent(
            ports,
            sp.interface.port,
            sp.interface.mac_address@,
            bpdu_bytes(),
            BpduFrameView::hello(sw.mac_address@, sw.root_bid, sw.root_cost, sw.bid(), port).bytes(),
        );
        (sw.set_port(port as int, if sw.is_root_bridge() { designated } else { sp }), ports1)
    } else if c is None {
        if sw.is_root_bridge() {
            (sw.set_port(port as int, designated), ports)
        } else {
            (same_root(sw, sp, b, port), ports)
        }
    } else {
        let sw1 = SwitchView { root_bid: b.root_bid, root_cost: inc, root_port: Some(port), ..sw.set_port(port as int, root) };
        let sw2 = calc_roles(sw1, true);
        (sw2, send_bpdus_upto(sw2, ports, true, true, true, 32))
    }
}

/// Receiving one frame on port `i`, whose state was `state0` when its frames were read.
/// Frames from a group address are dropped; Ethernet II frames are forwarded unless the port
/// is discarding; IEEE 802.3 frames carrying a BPDU are read as BPDUs.
pub open spec fn fwd_frame(sw: SwitchView, ports: Seq<EthernetPortView>, f: EthernetFrameView, i: usize, state0: StpState) -> (SwitchView, Seq<EthernetPortView>) {
    if spec_is_multicast_or_broadcast(f.source_address()) {
        (sw, ports)
    } else {
        match f {
            EthernetFrameView::Ethernet2(g) => if state0 != StpState::Discarding {
                rx_eth2(sw, ports, g, i)
            } else {
                (sw, ports)
            },
            EthernetFrameView::Ethernet802_3(g) => if BpduFrameView::accepts(g.data) && BpduFrameView::from_bytes(g.data) is Ok {
                rx_bpdu(sw, ports, BpduFrameView::from_bytes(g.data)->Ok_0, i)
            } else {
                (sw, ports)
            },
        }
    }
}

#[verifier::opaque]
pub open spec fn fwd_frames(sw: SwitchView, ports: Seq<EthernetPortView>, fs: Seq<EthernetFrameView>, i: usize, state0: StpState) -> (SwitchView, Seq<EthernetPortView>)
    decreases fs.len(),
{
    if fs.len() == 0 {
        (sw, ports)
    } else {
        let r = fwd_frames(sw, ports, fs.drop_last(), i, state0);
        fwd_frame(r.0, r.1, fs.last(), i, state0)
    }
}

/// Reading the frames of port `i` and handling them in order.
pub open spec fn fwd_port(sw: SwitchView, ports: Seq<EthernetPortView>, i: usize) -> (SwitchView, Seq<EthernetPortView>) {
    let p = sw.ports[i as int].interface.port as int;
    let cleared = ports.update(p, EthernetPortView { incoming: Seq::empty(), ..ports[p] });
    fwd_frames(sw, cleared, parse_frames(ports[p].incoming), i, sw.ports[i as int].stp_state)
}

/// Handling the frames of ports `0..n`, port by port.
#[verifier::opaque]
pub open spec fn fwd_upto(sw: SwitchView, ports: Seq<EthernetPortView>, n: int) -> (SwitchView, Seq<EthernetPortView>)
    decreases n,
{
    if n <= 0 {
        (sw, ports)
    } else {
        let r = fwd_upto(sw, ports, n - 1);
        fwd_port(r.0, r.1, (n - 1) as usize)
    }
}


/// The first port among `0..n` with the alternate role.
pub open spec fn first_alternate(ports: Seq<SwitchPort>, n: int) -> Option<int>
    decreases n,
{
    if n <= 0 {
        None
    } else {
        match first_alternate(ports, n - 1) {
            Some(j) => Some(j),
            None => if ports[n - 1].stp_role == Some(StpRole::Alternate) {
                Some(n - 1)
            } else {
                None
            },
        }
    }
}

/// Once some port among `0..m` is an alternate, the first alternate stays the same among any
/// larger range of ports.
pub proof fn lemma_first_alternate_stable(ports: Seq<SwitchPort>, m: int, m2: int)
    requires
        0 <= m <= m2,
        first_alternate(ports, m) is Some,
    ensures
        first_alternate(ports, m2) == first_alternate(ports, m),
    decreases m2 - m,
{
    if m2 > m {
        lemma_first_alternate_stable(ports, m, m2 - 1);
    }
}

/// Disconnecting port `port_id`.
///
/// The root bridge only unplugs the cable. Another switch makes the port an edge port
/// (designated, forwarding, no bridge ID, no cost) and unplugs it. If it was the root port, the
/// first alternate port becomes the root port and the roles are computed again; without an
/// alternate, the switch takes itself as the root bridge, makes every port designated and
/// forwarding, and floods its BPDUs. For a port of any other role the roles are computed again.
pub open spec fn disconnected(sw: SwitchView, ports: Seq<EthernetPortView>, port_id: usize) -> (SwitchView, Seq<EthernetPortView>) {
    let sp = sw.ports[port_id as int];
    let ports1 = uncabled(ports, sp.interface.port);
    if sw.is_root_bridge() {
        (sw, ports1)
    } else {
        let edge = SwitchPort {
            stp_role: Some(StpRole::Designated),
            stp_state: StpState::Forwarding,
            bid: None,
            root_cost: 0,
            ..sp
        };
        let sw1 = sw.set_port(port_id as int, edge);
        if sp.stp_role == Some(StpRole::Root) {
            match first_alternate(sw1.ports, 32) {
                Some(j) => {
                    let a = sw1.ports[j];
                    let sw2 = SwitchView {
                        root_port: Some(j as usize),
                        root_cost: a.root_cost,
                        ..sw1.set_port(j, SwitchPort { stp_role: Some(StpRole::Root), stp_state: StpState::Forwarding, ..a })
                    };
                    (calc_roles(sw2, false), ports1)
                },
                None => {
                    let sw2 = SwitchView {
                        root_bid: sw.bid(),
                        root_cost: 0,
                        root_port: None,
                        ports: Seq::new(
                            32,
                            |k: int| SwitchPort { stp_role: Some(StpRole::Designated), stp_state: StpState::Forwarding, root_cost: 0, ..sw1.ports[k] },
                        ),
                        ..sw1
                    };
                    (sw2, send_bpdus_upto(sw2, ports1, true, true, true, 32))
                },
            }
        } else {
            (calc_roles(sw1, false), ports1)
        }
    }
}

/// Every port of the switch in the discarding state.
pub open spec fn all_discarding(sw: SwitchView) -> SwitchView {
    SwitchView { ports: Seq::new(32, |k: int| SwitchPort { stp_state: StpState::Discarding, ..sw.ports[k] }), ..sw }
}

/// The end of the spanning tree initialization at `now`: each port that has not received a
/// BPDU becomes designated and forwarding, and hello BPDUs are scheduled every 2 seconds.
pub open spec fn finished_init(sw: SwitchView, now: u128) -> SwitchView {
    SwitchView {
        ports: Seq::new(
            32,
            |k: int|
                if sw.ports[k].bid is None {
                    SwitchPort { stp_role: Some(StpRole::Designated), stp_state: StpState::Forwarding, ..sw.ports[k] }
                } else {
                    sw.ports[k]
                },
        ),
        timer: scheduled(sw.timer, BPDU_MULTICAST, 2, true, now),
        ..sw
    }
}

/// Running the timer action `key` at `now`.
pub open spec fn run_action(sw: SwitchView, ports: Seq<EthernetPortView>, key: u64, now: u128) -> (SwitchView, Seq<EthernetPortView>) {
    if key == BPDU_MULTICAST {
        (sw, send_bpdus_upto(sw, ports, false, false, false, 32))
    } else if key == RSTP_INIT {
        (finished_init(sw, now), ports)
    } else {
        (sw, ports)
    }
}

/// Running the timer actions `keys` in order.
pub open spec fn run_actions(sw: SwitchView, ports: Seq<EthernetPortView>, keys: Seq<u64>, now: u128) -> (SwitchView, Seq<EthernetPortView>)
    decreases keys.len(),
{
    if keys.len() == 0 {
        (sw, ports)
    } else {
        let r = run_actions(sw, ports, keys.drop_last(), now);
        run_action(r.0, r.1, keys.last(), now)
    }
}

/// One tick of the switch at `now`: forwarding, then the actions that are ready, then the
/// timer's own tick.
pub open spec fn switch_ticked(sw: SwitchView, ports: Seq<EthernetPortView>, now: u128) -> (SwitchView, Seq<EthernetPortView>) {
    let r = fwd_upto(sw, ports, 32);
    let r2 = run_actions(r.0, r.1, ready_keys(r.0.timer, now), now);
    (SwitchView { timer: ticked(r2.0.timer, now), ..r2.0 }, r2.1)
}

/// The indices, in order, of the ports among `0..n` with the role `role`.
pub open spec fn ports_with_role(ports: Seq<SwitchPort>, role: StpRole, n: int) -> Seq<usize>
    decreases n,
{
    if n <= 0 {
        Seq::empty()
    } else {
        let prev = ports_with_role(ports, role, n - 1);
        if ports[n - 1].stp_role == Some(role) {
            prev.push((n - 1) as usize)
        } else {
            prev
        }
    }
}

/// The indices, in order, of the ports among `0..n` in the state `state`.
pub open spec fn ports_in_state(ports: Seq<SwitchPort>, state: StpState, n: int) -> Seq<usize>
    decreases n,
{
    if n <= 0 {
        Seq::empty()
    } else {
        let prev = ports_in_state(ports, state, n - 1);
        if ports[n - 1].stp_state == state {
            prev.push((n - 1) as usize)
        } else {
            prev
        }
    }
}

/// A layer 2 switch: forwards Ethernet frames to the port of their destination.
///
/// Takes part in the IEEE 802.1W Rapid Spanning Tree Protocol (RSTP) to prevent loops.
pub struct Switch {
    ports: Vec<SwitchPort>,
    table: HashMap<u64, usize>,
    mac_address: MacAddress,
    bridge_priority: u16,
    root_bid: u64,
    root_cost: u32,
    root_port: Option<usize>,
    timer: TickTimer,
}

impl View for Switch {
    type V = SwitchView;

    closed spec fn view(&self) -> SwitchView {
        SwitchView {
            ports: self.ports@,
            table: self.table@,
            mac_address: self.mac_address,
            bridge_priority: self.bridge_priority,
            root_bid: self.root_bid,
            root_cost: self.root_cost,
            root_port: self.root_port,
            timer: self.timer@,
        }
    }
}

/// The role of `r` is `role`.
fn has_role(r: Option<StpRole>, role: StpRole) -> (b: bool)
    ensures
        b == (r == Some(role)),
{
    match r {
        Some(x) => x == role,
        None => false,
    }
}

fn role_number(r: Option<StpRole>) -> (n: u8)
    ensures
        n == role_code(r),
{
    match r {
        Some(StpRole::Root) => 0,
        Some(StpRole::Designated) => 1,
        Some(StpRole::Alternate) => 2,
        Some(StpRole::Backup) => 3,
        None => 0,
    }
}

impl Switch {
    /// Creates a switch with 32 ports, whose interfaces take new ports of the simulator and the
    /// MAC addresses `mac_seed + 1` to `mac_seed + 32`; the switch's own MAC address is
    /// `mac_seed`. Every port is forwarding without a role, and the switch takes itself as the
    /// root bridge.
    /// * `bridge_priority` - The priority of the switch in the spanning tree protocol; the lowest
    ///   becomes the root bridge.
    pub fn from_seed(sim: &mut CableSimulator, mac_seed: u64, bridge_priority: u16) -> (r: Switch)
        requires
            old(sim).wf(),
            mac_seed + 32 <= u64::MAX,
        ensures
            final(sim).wf(),
            final(sim)@.simulated == old(sim)@.simulated,
            final(sim)@.ports == old(sim)@.ports + Seq::new(32, |k: int| empty_port()),
            r@.wf(final(sim)@.ports.len()),
            r@.is_seeded(old(sim)@.ports.len(), mac_seed, bridge_priority),
    {
        let mut ports: Vec<SwitchPort> = Vec::new();
        let mut i: u64 = 0;
        while i < 32
            invariant
                0 <= i <= 32,
                mac_seed + 32 <= u64::MAX,
                sim.wf(),
                sim@.simulated == old(sim)@.simulated,
                sim@.ports == old(sim)@.ports + Seq::new(i as nat, |k: int| empty_port()),
                ports@.len() == i,
                forall|k: int| 0 <= k < i ==> {
                    let sp = #[trigger] ports@[k];
                    &&& sp.interface.port == old(sim)@.ports.len() + k
                    &&& sp.interface.mac_address@ == mac_bytes((mac_seed + k + 1) as u64)
                    &&& sp.stp_state == StpState::Forwarding
                    &&& sp.stp_role is None
                    &&& sp.id == k
                    &&& sp.root_cost == 0
                    &&& sp.bid is None
                },
            decreases 32 - i,
        {
            let interface = EthernetInterface::new(sim, mac_addr(mac_seed + i + 1));
            ports.push(SwitchPort {
                interface,
                stp_state: StpState::Forwarding,
                stp_role: None,
                id: i as usize,
                root_cost: 0,
                bid: None,
            });
            i = i + 1;
            assert(sim@.ports =~= old(sim)@.ports + Seq::new(i as nat, |k: int| empty_port()));
        }
        let mac_address = mac_addr(mac_seed);
        let r = Switch {
            ports,
            table: HashMap::new(),
            mac_address,
            bridge_priority,
            root_bid: bridge_id(&mac_address, bridge_priority),
            root_cost: 0,
            root_port: None,
            timer: TickTimer::new(),
        };
        assert(r@.table =~= Map::<u64, usize>::empty());
        r
    }

    /// Connects port `port_id` of this switch to `interface` with a cable (bi-directional).
    pub fn connect(&mut self, sim: &mut CableSimulator, port_id: usize, interface: &EthernetInterface)
        requires
            old(self)@.wf(old(sim)@.ports.len()),
            old(sim).wf(),
            port_id < 32,
            interface.valid_in(old(sim)@.ports),
            old(self)@.ports[port_id as int].interface.port != interface.port,
        ensures
            final(self)@ == old(self)@,
            final(sim).wf(),
            final(sim)@.simulated == old(sim)@.simulated,
            final(sim)@.ports == cabled(old(sim)@.ports, old(self)@.ports[port_id as int].interface.port, interface.port),
    {
        let iface = self.ports[port_id].interface;
        iface.connect(sim, interface);
    }

    /// Connects port `port_id` of this switch to port `other_port_id` of `other_switch` with a
    /// cable (bi-directional).
    pub fn connect_switch(&mut self, sim: &mut CableSimulator, port_id: usize, other_switch: &Switch, other_port_id: usize)
        requires
            old(self)@.wf(old(sim)@.ports.len()),
            other_switch@.wf(old(sim)@.ports.len()),
            old(sim).wf(),
            port_id < 32,
            other_port_id < 32,
            old(self)@.ports[port_id as int].interface.port != other_switch@.ports[other_port_id as int].interface.port,
        ensures
            final(self)@ == old(self)@,
            final(sim).wf(),
            final(sim)@.simulated == old(sim)@.simulated,
            final(sim)@.ports == cabled(
                old(sim)@.ports,
                old(self)@.ports[port_id as int].interface.port,
                other_switch@.ports[other_port_id as int].interface.port,
            ),
    {
        let other = other_switch.ports[other_port_id].interface;
        self.connect(sim, port_id, &other);
    }

    /// Returns the simulator ports of the switch's interfaces, in port order.
    pub fn ports(&self) -> (r: Vec<usize>)
        ensures
            r@ == self@.ports.map_values(|sp: SwitchPort| sp.interface.port),
    {
        let mut r: Vec<usize> = Vec::new();
        let mut i: usize = 0;
        while i < self.ports.len()
            invariant
                0 <= i <= self@.ports.len(),
                r@ == self@.ports.subrange(0, i as int).map_values(|sp: SwitchPort| sp.interface.port),
            decreases self@.ports.len() - i,
        {
            r.push(self.ports[i].interface.port);
            i = i + 1;
            assert(r@ =~= self@.ports.subrange(0, i as int).map_values(|sp: SwitchPort| sp.interface.port));
        }
        assert(self@.ports.subrange(0, i as int) =~= self@.ports);
        r
    }

    /// Returns the MAC address of the switch.
    pub fn mac_address(&self) -> (r: MacAddress)
        ensures
            r == self@.mac_address,
    {
        self.mac_address
    }

    /// Returns the bridge priority of the switch.
    pub fn bridge_priority(&self) -> (r: u16)
        ensures
            r == self@.bridge_priority,
    {
        self.bridge_priority
    }

    /// Returns the bridge ID of the root bridge, as this switch knows it.
    pub fn root_bid(&self) -> (r: u64)
        ensures
            r == self@.root_bid,
    {
        self.root_bid
    }

    /// Returns the cost of the path to the root bridge; 0 on the root bridge.
    pub fn root_cost(&self) -> (r: u32)
        ensures
            r == self@.root_cost,
    {
        self.root_cost
    }

    /// Returns the port that leads to the root bridge; `None` on the root bridge.
    pub fn root_port(&self) -> (r: Option<usize>)
        ensures
            r == self@.root_port,
    {
        self.root_port
    }

    /// Returns the ports in the designated role, in order.
    pub fn designated_ports(&self) -> (r: Vec<usize>)
        ensures
            r@ == ports_with_role(self@.ports, StpRole::Designated, self@.ports.len() as int),
    {
        let mut r: Vec<usize> = Vec::new();
        let mut i: usize = 0;
        while i < self.ports.len()
            invariant
                0 <= i <= self@.ports.len(),
                r@ == ports_with_role(self@.ports, StpRole::Designated, i as int),
            decreases self@.ports.len() - i,
        {
            if has_role(self.ports[i].stp_role, StpRole::Designated) {
                r.push(i);
            }
            i = i + 1;
        }
        r
    }

    /// Returns the ports in the discarding state, in order.
    pub fn discarding_ports(&self) -> (r: Vec<usize>)
        ensures
            r@ == ports_in_state(self@.ports, StpState::Discarding, self@.ports.len() as int),
    {
        let mut r: Vec<usize> = Vec::new();
        let mut i: usize = 0;
        while i < self.ports.len()
            invariant
                0 <= i <= self@.ports.len(),
                r@ == ports_in_state(self@.ports, StpState::Discarding, i as int),
            decreases self@.ports.len() - i,
        {
            if self.ports[i].stp_state == StpState::Discarding {
                r.push(i);
            }
            i = i + 1;
        }
        r
    }

    /// Returns the bridge ID of the switch (its MAC address and bridge priority).
    pub fn bid(&self) -> (r: u64)
        ensures
            r == self@.bid(),
    {
        bridge_id(&self.mac_address, self.bridge_priority)
    }

    /// Returns true if the switch is the root bridge of the network.
    pub fn is_root_bridge(&self) -> (r: bool)
        ensures
            r == self@.is_root_bridge(),
    {
        self.root_bid == self.bid()
    }

    fn set_port(&mut self, i: usize, sp: SwitchPort)
        requires
            i < old(self)@.ports.len(),
        ensures
            final(self)@ == old(self)@.set_port(i as int, sp),
    {
        self.ports.set(i, sp);
    }

    /// Computes the roles and states of the ports again: for each network segment (the ports
    /// facing one bridge) the lowest cost port is found, then each port that has received a
    /// BPDU, other than the root port, becomes an alternate, a backup or a designated port.
    fn calculate_port_roles(&mut self, root_changed: bool)
        requires
            old(self)@.root_port is Some,
            old(self)@.ports.len() == 32,
            forall|j: int| 0 <= j < 32 ==> (#[trigger] old(self)@.ports[j]).id == j,
        ensures
            final(self)@ == calc_roles(old(self)@, root_changed),
            final(self)@ == (SwitchView { ports: final(self)@.ports, ..old(self)@ }),
            final(self)@.ports.len() == 32,
            forall|j: int| 0 <= j < 32 ==> (#[trigger] final(self)@.ports[j]).id == j
                && final(self)@.ports[j].interface == old(self)@.ports[j].interface,
    {
        let root_port = match self.root_port {
            Some(p) => p,
            None => 0,
        };
        let mut segs: HashMap<u64, usize> = HashMap::new();
        let mut i: usize = 0;
        while i < 32
            invariant
                0 <= i <= 32,
                old(self)@.root_port == Some(root_port),
                (self@, segs@) == seg_upto(old(self)@, root_changed, i as int),
                self@ == (SwitchView { ports: self@.ports, ..old(self)@ }),
                self@.ports.len() == 32,
                forall|j: int| 0 <= j < 32 ==> (#[trigger] self@.ports[j]).id == j
                    && self@.ports[j].interface == old(self)@.ports[j].interface
                    && self@.ports[j].bid == old(self)@.ports[j].bid,
                forall|j: int| i <= j < 32 ==> #[trigger] self@.ports[j] == old(self)@.ports[j],
                forall|k: u64| #[trigger] segs@.contains_key(k) ==> segs@[k] < i && self@.ports[segs@[k] as int].bid == Some(k),
            decreases 32 - i,
        {
            let ghost before = (self@, segs@);
            let sp = self.ports[i];
            assert(sp == self@.ports[i as int]);
            match sp.bid {
                Some(bid) => {
                    if sp.id != root_port {
                        let cost = if sp.root_cost > self.root_cost { sp.root_cost } else { self.root_cost };
                        self.set_port(i, SwitchPort { root_cost: cost, ..sp });
                        match segs.get(&bid) {
                            Some(m) => {
                                let m = *m;
                                let min_cost = self.ports[m].root_cost;
                                let min_bid = match self.ports[m].bid {
                                    Some(b) => b,
                                    None => 0,
                                };
                                let is_min = if !root_changed && min_cost != cost {
                                    cost < min_cost
                                } else if bid == min_bid {
                                    sp.id > m
                                } else {
                                    match compare_bids(bid, min_bid) {
                                        Some(x) => x,
                                        None => false,
                                    }
                                };
                                if is_min {
                                    segs.insert(bid, sp.id);
                                }
                            },
                            None => {
                                segs.insert(bid, sp.id);
                            },
                        }
                    }
                },
                None => {},
            }
            assert((self@, segs@) == seg_step(before.0, before.1, i as int, root_changed));
            i = i + 1;
        }
        let ghost segmented = self@;
        let mut i: usize = 0;
        while i < 32
            invariant
                0 <= i <= 32,
                old(self)@.root_port == Some(root_port),
                segmented == (SwitchView { ports: segmented.ports, ..old(self)@ }),
                self@ == assign_upto(segmented, segs@, root_changed, i as int),
                self@ == (SwitchView { ports: self@.ports, ..old(self)@ }),
                self@.ports.len() == 32,
                forall|j: int| 0 <= j < 32 ==> (#[trigger] self@.ports[j]).id == j
                    && self@.ports[j].interface == old(self)@.ports[j].interface,
                forall|j: int| i <= j < 32 ==> #[trigger] self@.ports[j] == segmented.ports[j],
            decreases 32 - i,
        {
            let ghost before = self@;
            let sp = self.ports[i];
            assert(sp == self@.ports[i as int]);
            if sp.id != root_port {
                match sp.bid {
                    Some(bid) => {
                        if bid == self.root_bid {
                            self.set_port(i, SwitchPort { stp_role: Some(StpRole::Alternate), stp_state: StpState::Discarding, ..sp });
                        } else if !segs.contains_key(&bid) {
                            self.set_port(i, SwitchPort { stp_role: Some(StpRole::Backup), stp_state: StpState::Discarding, ..sp });
                        } else if !has_role(sp.stp_role, StpRole::Backup) || root_changed {
                            self.set_port(i, SwitchPort { stp_role: Some(StpRole::Designated), stp_state: StpState::Forwarding, ..sp });
                        }
                    },
                    None => {},
                }
            }
            assert(self@ == assign_role(before, segs@, i as int, root_changed));
            i = i + 1;
        }
        proof {
            reveal(calc_roles);
        }
    }

    /// Handles a BPDU with the same root received on port `port_id` (updated to `sp`) by a
    /// switch that is not the root bridge; see `same_root`.
    fn receive_same_root(&mut self, sp: SwitchPort, b: &BpduFrame, port_id: usize, Ghost(n): Ghost<nat>)
        requires
            old(self)@.wf(n),
            !old(self)@.is_root_bridge(),
            port_id < 32,
            sp.id == old(self)@.ports[port_id as int].id,
            sp.interface == old(self)@.ports[port_id as int].interface,
        ensures
            final(self)@.same_ports(old(self)@),
            final(self)@.wf(n),
            final(self)@ == same_root(old(self)@, sp, b@, port_id),
    {
        let inc = if b.root_cost == u32::MAX { b.root_cost } else { b.root_cost + 1 };
        let root = SwitchPort { stp_role: Some(StpRole::Root), stp_state: StpState::Forwarding, ..sp };
        let sender_better = compare_bids(b.bid, self.bid());
        if inc < self.root_cost {
            self.set_port(port_id, root);
            self.root_cost = inc;
            self.root_port = Some(port_id);
        } else if inc == self.root_cost && sender_better == Some(true) {
            self.set_port(port_id, root);
            self.root_port = Some(port_id);
        } else if !has_role(sp.stp_role, StpRole::Root) {
            let sp3 = SwitchPort { root_cost: inc, ..sp };
            if b.is_designated() && sender_better == Some(true) {
                self.set_port(port_id, SwitchPort { stp_role: Some(StpRole::Backup), stp_state: StpState::Discarding, ..sp3 });
            } else if has_role(sp.stp_role, StpRole::Backup) {
                // The other end is no longer a better designated port: the redundancy is gone.
                self.set_port(port_id, SwitchPort { stp_role: Some(StpRole::Designated), stp_state: StpState::Forwarding, ..sp3 });
            } else {
                self.set_port(port_id, sp3);
            }
        } else {
            self.set_port(port_id, sp);
        }
        proof {
            assert forall|i: int| 0 <= i < 32 implies (#[trigger] self@.ports[i]).id == i && self@.ports[i].interface.port < n by {
                assert(old(self)@.ports[i].id == i);
            }
        }
        self.calculate_port_roles(false);
    }

    /// Forwards the frames received on each port, port by port: frames from a group address
    /// are dropped; Ethernet II frames are forwarded to the port of their destination, or
    /// flooded when it is not known (not on a port that was discarding); BPDUs update the port
    /// roles and states.
    ///
    /// A buffer of 35 to 46 bytes in an IEEE 802.3 frame is too short for a BPDU and is dropped.
    pub fn forward(&mut self, sim: &mut CableSimulator)
        requires
            old(self)@.wf(old(sim)@.ports.len()),
            old(sim).wf(),
        ensures
            final(self)@.same_ports(old(self)@),
            final(self)@.wf(old(sim)@.ports.len()),
            final(sim).wf(),
            final(sim)@.ports.len() == old(sim)@.ports.len(),
            final(sim)@.simulated == old(sim)@.simulated,
            (final(self)@, final(sim)@.ports) == fwd_upto(old(self)@, old(sim)@.ports, 32),
    {
        let ghost n = old(sim)@.ports.len();
        proof {
            reveal_with_fuel(fwd_upto, 1);
        }
        let mut i: usize = 0;
        while i < 32
            invariant
                0 <= i <= 32,
                self@.wf(n),
                sim.wf(),
                sim@.ports.len() == n,
                sim@.simulated == old(sim)@.simulated,
                self@.same_ports(old(self)@),
                (self@, sim@.ports) == fwd_upto(old(self)@, old(sim)@.ports, i as int),
            decreases 32 - i,
        {
            proof {
                reveal_with_fuel(fwd_upto, 2);
                reveal_with_fuel(fwd_frames, 1);
            }
            let ghost sw0 = self@;
            let ghost ports0 = sim@.ports;
            let state = self.ports[i].stp_state;
            let mut iface = self.ports[i].interface;
            assert(iface == sw0.ports[i as int].interface);
            let mut frames = iface.receive(sim);
            let ghost fs = frame_views(frames@);
            let ghost cleared = sim@.ports;
            assert(cleared == ports0.update(
                iface.port as int,
                EthernetPortView { incoming: Seq::empty(), ..ports0[iface.port as int] },
            ));
            let ghost len = frames@.len();
            assert(frame_views(frames@) =~= fs.subrange(0, len as int));
            while frames.len() > 0
                invariant
                    len == fs.len(),
                    frames@.len() <= len,
                    i < 32,
                    self@.wf(n),
                    sim.wf(),
                    sim@.ports.len() == n,
                    sim@.simulated == old(sim)@.simulated,
                    self@.same_ports(old(self)@),
                    frame_views(frames@) =~= fs.subrange(len - frames@.len(), len as int),
                    (self@, sim@.ports) == fwd_frames(sw0, cleared, fs.subrange(0, len - frames@.len()), i, state),
                decreases frames@.len(),
            {
                proof {
                    reveal_with_fuel(fwd_frames, 2);
                }
                let ghost k = len - frames@.len();
                let ghost rest = frames@;
                let f = frames.remove(0);
                assert(frame_views(rest)[0] == f@);
                assert(fs[k] == f@);
                assert(fs.subrange(0, k + 1).drop_last() =~= fs.subrange(0, k));
                assert(fs.subrange(0, k + 1).last() == fs[k]);
                self.forward_frame(sim, f, i, state);
                assert forall|j: int| 0 <= j < frames@.len() implies frame_views(frames@)[j] == fs[k + 1 + j] by {
                    assert(frames@[j] == rest[j + 1]);
                    assert(frame_views(rest)[j + 1] == fs.subrange(k, len as int)[j + 1]);
                }
                assert(frame_views(frames@) =~= fs.subrange(len - frames@.len(), len as int));
            }
            assert(fs.subrange(0, len as int) =~= fs);
            i = i + 1;
        }
    }

    /// Begins the spanning tree protocol: every port goes to the discarding state and hello
    /// BPDUs are flooded on every port; the initialization ends 15 seconds after `now`.
    pub fn init_stp(&mut self, sim: &mut CableSimulator, now: u128)
        requires
            old(self)@.wf(old(sim)@.ports.len()),
            old(sim).wf(),
            now + 15 * NANOS_PER_SEC <= u128::MAX,
        ensures
            final(self)@.same_ports(old(self)@),
            final(self)@.wf(old(sim)@.ports.len()),
            final(sim).wf(),
            final(sim)@.ports.len() == old(sim)@.ports.len(),
            final(sim)@.simulated == old(sim)@.simulated,
            final(sim)@.ports == send_bpdus_upto(all_discarding(old(self)@), old(sim)@.ports, true, true, true, 32),
            final(self)@ == (SwitchView { timer: scheduled(old(self)@.timer, RSTP_INIT, 15, false, now), ..all_discarding(old(self)@) }),
    {
        let ghost n = old(sim)@.ports.len();
        let mut i: usize = 0;
        while i < 32
            invariant
                0 <= i <= 32,
                old(self)@.wf(n),
                self@ == (SwitchView { ports: self@.ports, ..old(self)@ }),
                self@.ports.len() == 32,
                forall|k: int| 0 <= k < 32 ==> #[trigger] self@.ports[k] == if k < i {
                    SwitchPort { stp_state: StpState::Discarding, ..old(self)@.ports[k] }
                } else {
                    old(self)@.ports[k]
                },
            decreases 32 - i,
        {
            let sp = self.ports[i];
            self.set_port(i, SwitchPort { stp_state: StpState::Discarding, ..sp });
            i = i + 1;
        }
        assert(self@.ports =~= all_discarding(old(self)@).ports);
        self.send_bpdus(sim, true, true, true);
        self.timer.schedule(RSTP_INIT, 15, false, now);
    }

    /// Ends the spanning tree initialization: each port that has not received a BPDU becomes
    /// designated and forwarding, and hello BPDUs are sent every 2 seconds from `now` on.
    pub fn finish_init_stp(&mut self, now: u128)
        requires
            old(self)@.ports.len() == 32,
            now + 2 * NANOS_PER_SEC <= u128::MAX,
        ensures
            final(self)@.same_ports(old(self)@),
            final(self)@ == finished_init(old(self)@, now),
    {
        let mut i: usize = 0;
        while i < 32
            invariant
                0 <= i <= 32,
                self@ == (SwitchView { ports: self@.ports, ..old(self)@ }),
                self@.ports.len() == 32,
                old(self)@.ports.len() == 32,
                forall|k: int| 0 <= k < 32 ==> #[trigger] self@.ports[k] == if k < i && old(self)@.ports[k].bid is None {
                    SwitchPort { stp_role: Some(StpRole::Designated), stp_state: StpState::Forwarding, ..old(self)@.ports[k] }
                } else {
                    old(self)@.ports[k]
                },
            decreases 32 - i,
        {
            let sp = self.ports[i];
            if sp.bid.is_none() {
                self.set_port(i, SwitchPort { stp_role: Some(StpRole::Designated), stp_state: StpState::Forwarding, ..sp });
            }
            i = i + 1;
        }
        self.timer.schedule(BPDU_MULTICAST, 2, true, now);
        assert(self@.ports =~= finished_init(old(self)@, now).ports);
    }

    /// Disconnects port `port_id` and reworks the spanning tree roles and states; see
    /// `disconnected`.
    pub fn disconnect(&mut self, sim: &mut CableSimulator, port_id: usize)
        requires
            old(self)@.wf(old(sim)@.ports.len()),
            old(sim).wf(),
            port_id < 32,
        ensures
            final(self)@.same_ports(old(self)@),
            final(self)@.wf(old(sim)@.ports.len()),
            final(sim).wf(),
            final(sim)@.ports.len() == old(sim)@.ports.len(),
            final(sim)@.simulated == old(sim)@.simulated,
            (final(self)@, final(sim)@.ports) == disconnected(old(self)@, old(sim)@.ports, port_id),
    {
        let ghost n = old(sim)@.ports.len();
        let sp = self.ports[port_id];
        if self.is_root_bridge() {
            sp.interface.disconnect(sim);
            return;
        }
        // The port becomes an edge port: designated and forwarding, with no bridge ID and no cost.
        self.set_port(port_id, SwitchPort {
            stp_role: Some(StpRole::Designated),
            stp_state: StpState::Forwarding,
            bid: None,
            root_cost: 0,
            ..sp
        });
        sp.interface.disconnect(sim);
        let ghost sw1 = self@;
        assert(sw1.wf(n)) by {
            assert forall|i: int| 0 <= i < 32 implies (#[trigger] sw1.ports[i]).id == i && sw1.ports[i].interface.port < n by {
                assert(old(self)@.ports[i].id == i);
            }
        }
        if !has_role(sp.stp_role, StpRole::Root) {
            self.calculate_port_roles(false);
            return;
        }
        let mut alternate: Option<usize> = None;
        let mut j: usize = 0;
        while j < 32 && alternate.is_none()
            invariant
                0 <= j <= 32,
                self@ == sw1,
                sw1.ports.len() == 32,
                alternate matches Some(a) ==> a < 32 && first_alternate(sw1.ports, a + 1) == Some(a as int),
                alternate is None ==> first_alternate(sw1.ports, j as int) is None,
            decreases 32 - j,
        {
            if has_role(self.ports[j].stp_role, StpRole::Alternate) {
                alternate = Some(j);
            }
            j = j + 1;
        }
        match alternate {
            Some(a) => {
                proof {
                    lemma_first_alternate_stable(sw1.ports, a + 1, 32);
                }
                let alt = self.ports[a];
                self.set_port(a, SwitchPort { stp_role: Some(StpRole::Root), stp_state: StpState::Forwarding, ..alt });
                self.root_port = Some(a);
                self.root_cost = alt.root_cost;
                self.calculate_port_roles(false);
                proof {
                    assert forall|i: int| 0 <= i < 32 implies (#[trigger] self@.ports[i]).id == i && self@.ports[i].interface.port < n by {
                        assert(sw1.ports[i].id == i);
                    }
                }
            },
            None => {
                // No alternate: this switch takes itself as the root bridge.
                self.root_bid = self.bid();
                self.root_cost = 0;
                self.root_port = None;
                let mut i: usize = 0;
                while i < 32
                    invariant
                        0 <= i <= 32,
                        sw1.wf(n),
                        self@ == (SwitchView { ports: self@.ports, root_bid: sw1.bid(), root_cost: 0, root_port: None, ..sw1 }),
                        self@.ports.len() == 32,
                        forall|k: int| 0 <= k < 32 ==> #[trigger] self@.ports[k] == if k < i {
                            SwitchPort { stp_role: Some(StpRole::Designated), stp_state: StpState::Forwarding, root_cost: 0, ..sw1.ports[k] }
                        } else {
                            sw1.ports[k]
                        },
                    decreases 32 - i,
                {
                    let q = self.ports[i];
                    self.set_port(i, SwitchPort { stp_role: Some(StpRole::Designated), stp_state: StpState::Forwarding, root_cost: 0, ..q });
                    i = i + 1;
                }
                let ghost sw2 = disconnected(old(self)@, old(sim)@.ports, port_id).0;
                assert(self@.ports =~= sw2.ports);
                assert(self@ == sw2);
                self.send_bpdus(sim, true, true, true);
            },
        }
    }


    /// Handles one frame received on port `i`, whose state was `state` when its frames were read.
    fn forward_frame(&mut self, sim: &mut CableSimulator, frame: EthernetFrame, i: usize, state: StpState)
        requires
            old(self)@.wf(old(sim)@.ports.len()),
            old(sim).wf(),
            i < 32,
        ensures
            final(self)@.same_ports(old(self)@),
            final(self)@.wf(old(sim)@.ports.len()),
            final(sim).wf(),
            final(sim)@.ports.len() == old(sim)@.ports.len(),
            final(sim)@.simulated == old(sim)@.simulated,
            (final(self)@, final(sim)@.ports) == fwd_frame(old(self)@, old(sim)@.ports, frame@, i, state),
    {
        let source = frame.source_address();
        if is_mac_multicast_or_broadcast(&source) {
            // A source address cannot be a group address.
            return;
        }
        match frame {
            EthernetFrame::Ethernet2(g) => {
                if state != StpState::Discarding {
                    self.receive_ethernet2(sim, g, i);
                }
            },
            EthernetFrame::Ethernet802_3(g) => {
                if g.data.len() < 35 || g.data.len() >= 47 {
                    match BpduFrame::from_bytes(g.data) {
                        Ok(b) => {
                            self.receive_bpdu(sim, b, i);
                        },
                        Err(_) => {},
                    }
                }
            },
        }
    }

    /// Handles an Ethernet II frame received on port `port`; see `rx_eth2`.
    fn receive_ethernet2(&mut self, sim: &mut CableSimulator, f: Ethernet2Frame, port: usize)
        requires
            old(self)@.wf(old(sim)@.ports.len()),
            old(sim).wf(),
            port < 32,
        ensures
            final(self)@.same_ports(old(self)@),
            final(self)@.wf(old(sim)@.ports.len()),
            final(sim).wf(),
            final(sim)@.ports.len() == old(sim)@.ports.len(),
            final(sim)@.simulated == old(sim)@.simulated,
            (final(self)@, final(sim)@.ports) == rx_eth2(old(self)@, old(sim)@.ports, f@, port),
    {
        let ghost n = old(sim)@.ports.len();
        let source = mac_to_key(&f.source_address);
        if !self.table.contains_key(&source) {
            self.table.insert(source, port);
        }
        assert(self@ == learn(old(self)@, f@.source_address, port));
        let destination = mac_to_key(&f.destination_address);
        match self.table.get(&destination) {
            Some(d) => {
                let d = *d;
                let mut iface = self.ports[d].interface;
                iface.sendv(sim, f.source_address, f.destination_address, f.ether_type, f.data);
                return;
            },
            None => {},
        }
        // The destination is unknown: flood to every other port that is not discarding.
        let ghost sw1 = self@;
        let ghost ports0 = sim@.ports;
        proof {
            reveal_with_fuel(flood_upto, 1);
        }
        let mut i: usize = 0;
        while i < 32
            invariant
                0 <= i <= 32,
                self@ == sw1,
                sw1.wf(n),
                sim.wf(),
                sim@.ports.len() == n,
                sim@.simulated == old(sim)@.simulated,
                port < 32,
                sim@.ports == flood_upto(sw1, ports0, f@, port, i as int),
            decreases 32 - i,
        {
            proof {
                reveal_with_fuel(flood_upto, 2);
            }
            let sp = self.ports[i];
            assert(sp == sw1.ports[i as int]);
            if i != port && sp.stp_state != StpState::Discarding {
                let data = copy_range(f.data.as_slice(), 0, f.data.len());
                assert(data@ =~= f.data@);
                let mut iface = sp.interface;
                iface.sendv(sim, f.source_address, f.destination_address, f.ether_type, data);
            }
            i = i + 1;
        }
    }

    /// Handles a BPDU whose root is better than this switch's, received on port `port_id`
    /// (updated to `sp`): the port becomes the root port, the roles are computed again and the
    /// new BPDUs are flooded.
    fn receive_better_root(&mut self, sim: &mut CableSimulator, sp: SwitchPort, b: &BpduFrame, port_id: usize)
        requires
            old(self)@.wf(old(sim)@.ports.len()),
            old(sim).wf(),
            port_id < 32,
            sp.id == old(self)@.ports[port_id as int].id,
            sp.interface == old(self)@.ports[port_id as int].interface,
            spec_compare_bids(old(self)@.root_bid, b@.root_bid) == Some(false),
        ensures
            final(self)@.same_ports(old(self)@),
            final(self)@.wf(old(sim)@.ports.len()),
            final(sim).wf(),
            final(sim)@.ports.len() == old(sim)@.ports.len(),
            final(sim)@.simulated == old(sim)@.simulated,
            ({
                let root = SwitchPort { stp_role: Some(StpRole::Root), stp_state: StpState::Forwarding, ..sp };
                let sw1 = SwitchView { root_bid: b@.root_bid, root_cost: sat_inc(b@.root_cost), root_port: Some(port_id), ..old(self)@.set_port(port_id as int, root) };
                let sw2 = calc_roles(sw1, true);
                final(self)@ == sw2 && final(sim)@.ports == send_bpdus_upto(sw2, old(sim)@.ports, true, true, true, 32)
            }),
    {
        let ghost n = old(sim)@.ports.len();
        proof {
            let own = old(self)@.bid();
            lemma_compare_bids_order(old(self)@.root_bid, b@.root_bid);
            if spec_compare_bids(own, b@.root_bid) == Some(true) {
                lemma_compare_bids_transitive(own, b@.root_bid, old(self)@.root_bid);
            }
            lemma_compare_bids_order(own, old(self)@.root_bid);
        }
        let inc = if b.root_cost == u32::MAX { b.root_cost } else { b.root_cost + 1 };
        let root = SwitchPort { stp_role: Some(StpRole::Root), stp_state: StpState::Forwarding, ..sp };
        self.set_port(port_id, root);
        self.root_bid = b.root_bid;
        self.root_cost = inc;
        self.root_port = Some(port_id);
        proof {
            assert forall|i: int| 0 <= i < 32 implies (#[trigger] self@.ports[i]).id == i && self@.ports[i].interface.port < n by {
                assert(old(self)@.ports[i].id == i);
            }
        }
        self.calculate_port_roles(true);
        proof {
            assert forall|i: int| 0 <= i < 32 implies (#[trigger] self@.ports[i]).id == i && self@.ports[i].interface.port < n by {
                assert(old(self)@.ports[i].interface.port < n);
            }
        }
        self.send_bpdus(sim, true, true, true);
    }

    /// Handles a BPDU received on port `port_id`; see `rx_bpdu`.
    fn receive_bpdu(&mut self, sim: &mut CableSimulator, b: BpduFrame, port_id: usize)
        requires
            old(self)@.wf(old(sim)@.ports.len()),
            old(sim).wf(),
            port_id < 32,
        ensures
            final(self)@.same_ports(old(self)@),
            final(self)@.wf(old(sim)@.ports.len()),
            final(sim).wf(),
            final(sim)@.ports.len() == old(sim)@.ports.len(),
            final(sim)@.simulated == old(sim)@.simulated,
            (final(self)@, final(sim)@.ports) == rx_bpdu(old(self)@, old(sim)@.ports, b@, port_id),
    {
        let ghost n = old(sim)@.ports.len();
        let mut sp = self.ports[port_id];
        sp.bid = Some(b.bid);
        let better = compare_bids(self.root_bid, b.root_bid);
        let inc = if b.root_cost == u32::MAX { b.root_cost } else { b.root_cost + 1 };
        let designated = SwitchPort { stp_role: Some(StpRole::Designated), stp_state: StpState::Forwarding, root_cost: 0, ..sp };
        match better {
            Some(true) => {
                // This switch knows a better root: answer with its own hello.
                let hello = BpduFrame::hello(self.mac_address, self.root_bid, self.root_cost, self.bid(), port_id);
                let mut iface = sp.interface;
                iface.send802_3(sim, mac_bpdu_addr(), hello.to_bytes());
                if self.is_root_bridge() {
                    self.set_port(port_id, designated);
                } else {
                    self.set_port(port_id, sp);
                }
            },
            None => {
                if self.is_root_bridge() {
                    self.set_port(port_id, designated);
                    return;
                }
                self.receive_same_root(sp, &b, port_id, Ghost(n));
            },
            Some(false) => {
                self.receive_better_root(sim, sp, &b, port_id);
            },
        }
    }

    /// Sends this switch's BPDU on each of its ports; only on ports that have received a BPDU,
    /// unless `flood_to_all`.
    /// * `tcn` - the BPDU announces a topology change.
    /// * `proposal` - the BPDU is a proposal.
    fn send_bpdus(&self, sim: &mut CableSimulator, tcn: bool, proposal: bool, flood_to_all: bool)
        requires
            self@.wf(old(sim)@.ports.len()),
            old(sim).wf(),
        ensures
            final(sim).wf(),
            final(sim)@.simulated == old(sim)@.simulated,
            final(sim)@.ports.len() == old(sim)@.ports.len(),
            final(sim)@.ports == send_bpdus_upto(self@, old(sim)@.ports, tcn, proposal, flood_to_all, 32),
    {
        proof {
            reveal_with_fuel(send_bpdus_upto, 1);
        }
        let bid = self.bid();
        let hello = BpduFrame::hello(self.mac_address, self.root_bid, self.root_cost, bid, 0);
        let mut i: usize = 0;
        while i < 32
            invariant
                0 <= i <= 32,
                self@.wf(old(sim)@.ports.len()),
                sim.wf(),
                sim@.ports.len() == old(sim)@.ports.len(),
                sim@.simulated == old(sim)@.simulated,
                hello@ == BpduFrameView::hello(self@.mac_address@, self@.root_bid, self@.root_cost, self@.bid(), 0),
                sim@.ports == send_bpdus_upto(self@, old(sim)@.ports, tcn, proposal, flood_to_all, i as int),
            decreases 32 - i,
        {
            let sp = self.ports[i];
            assert(sp == self@.ports[i as int]);
            proof {
                reveal_with_fuel(send_bpdus_upto, 2);
            }
            if flood_to_all || sp.bid.is_some() {
                let role = role_number(sp.stp_role);
                let learning = sp.stp_state == StpState::Learning;
                let flags = BpduFrame::flags(tcn, proposal, role, learning, role == 0 || role == 1, false);
                let bpdu = BpduFrame { port: (sp.id % 0x1_0000) as u16, flags, ..hello };
                assert(bpdu@ == self@.port_bpdu(sp, tcn, proposal));
                let mut iface = sp.interface;
                iface.send802_3(sim, mac_bpdu_addr(), bpdu.to_bytes());
            }
            i = i + 1;
        }
    }
}


impl Tickable for Switch {
    open spec fn valid_in(&self, n: nat) -> bool {
        self@.wf(n)
    }

    /// One tick of the switch at `now`: forwards the received frames, runs the timer actions
    /// that are ready (hello BPDUs, the end of the spanning tree initialization) and ticks the
    /// timer.
    fn tick(&mut self, sim: &mut CableSimulator, now: u128)
        ensures
            final(self)@.same_ports(old(self)@),
            final(self)@.wf(old(sim)@.ports.len()),
            final(sim).wf(),
            final(sim)@.ports.len() == old(sim)@.ports.len(),
            final(sim)@.simulated == old(sim)@.simulated,
            (final(self)@, final(sim)@.ports) == switch_ticked(old(self)@, old(sim)@.ports, now),
    {
        let ghost n = old(sim)@.ports.len();
        self.forward(sim);
        let ghost sw0 = self@;
        let ghost ports0 = sim@.ports;
        let keys = self.timer.ready(now);
        let mut i: usize = 0;
        while i < keys.len()
            invariant
                0 <= i <= keys@.len(),
                now + 2 * NANOS_PER_SEC <= u128::MAX,
                self@.wf(n),
                sim.wf(),
                sim@.ports.len() == n,
                sim@.simulated == old(sim)@.simulated,
                self@.same_ports(old(self)@),
                (self@, sim@.ports) == run_actions(sw0, ports0, keys@.subrange(0, i as int), now),
            decreases keys@.len() - i,
        {
            assert(keys@.subrange(0, i + 1).drop_last() =~= keys@.subrange(0, i as int));
            let key = keys[i];
            if key == BPDU_MULTICAST {
                self.send_bpdus(sim, false, false, false);
            } else if key == RSTP_INIT {
                let ghost before = self@;
                self.finish_init_stp(now);
                proof {
                    assert forall|k: int| 0 <= k < 32 implies (#[trigger] self@.ports[k]).id == k && self@.ports[k].interface.port < n by {
                        assert(before.ports[k].id == k);
                    }
                }
            }
            i = i + 1;
        }
        assert(keys@.subrange(0, i as int) =~= keys@);
        let ghost before = self@;
        self.timer.tick(now);
        assert(self@.ports == before.ports && self@.table == before.table);
    }
}

} // verus!
