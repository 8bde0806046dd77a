//! IPv4, ARP and ICMP frames.

use vstd::prelude::*;
use crate::bytes::{
    copy_range, lemma_u16_of_bytes, lemma_u16_roundtrip, push_all, push_u16_be, read_u16_be,
    u16_be, u16_of,
};
use crate::network::ethernet::{ByteSerializable, MacAddress, ParseError, FrameKind};

pub mod interface;

verus! {

/// Internet Protocol version 4 (IPv4) address.
pub type Ipv4Address = [u8; 4];

pub open spec fn localhost_bytes() -> Seq<u8> {
    seq![127u8, 0, 0, 1]
}

/// The loopback address 127.0.0.1.
pub fn localhost() -> (r: Ipv4Address)
    ensures
        r@ == localhost_bytes(),
{
    let r = [127u8, 0, 0, 1];
    assert(r@ =~= localhost_bytes());
    r
}

/// Whether two IPv4 addresses are equal.
pub fn ip_eq(a: &Ipv4Address, b: &Ipv4Address) -> (r: bool)
    ensures
        r == (a@ == b@),
        r == (*a == *b),
{
    let r = a[0] == b[0] && a[1] == b[1] && a[2] == b[2] && a[3] == b[3];
    proof {
        if r {
            assert(a@ =~= b@);
            vstd::array::axiom_array_ext_equal(*a, *b);
        } else if a@ == b@ {
            assert(a@[0] == b@[0] && a@[1] == b@[1] && a@[2] == b@[2] && a@[3] == b@[3]);
        }
    }
    r
}

/// The network address of `ip` under `mask`: the bytewise AND of the two.
pub open spec fn spec_network_address(ip: Seq<u8>, mask: Seq<u8>) -> Seq<u8> {
    seq![ip[0] & mask[0], ip[1] & mask[1], ip[2] & mask[2], ip[3] & mask[3]]
}

/// Subnet & mask => network address.
pub fn network_address(ip: &Ipv4Address, mask: &Ipv4Address) -> (r: Ipv4Address)
    ensures
        r@ == spec_network_address(ip@, mask@),
{
    let r = [ip[0] & mask[0], ip[1] & mask[1], ip[2] & mask[2], ip[3] & mask[3]];
    assert(r@ =~= spec_network_address(ip@, mask@));
    r
}

/// 224.0.0.0 to 239.255.255.255, or 255.255.255.255.
pub open spec fn spec_is_ipv4_multicast_or_broadcast(a: Seq<u8>) -> bool {
    (224 <= a[0] <= 239) || a == seq![255u8, 255, 255, 255]
}

/// Returns true for a multicast (224.0.0.0 to 239.255.255.255) or the broadcast address.
pub fn is_ipv4_multicast_or_broadcast(a: &Ipv4Address) -> (r: bool)
    ensures
        r == spec_is_ipv4_multicast_or_broadcast(a@),
{
    if 224 <= a[0] && a[0] <= 239 {
        true
    } else {
        let bc = [255u8, 255, 255, 255];
        let r = ip_eq(a, &bc);
        assert(bc@ =~= seq![255u8, 255, 255, 255]);
        r
    }
}

fn ip_at(b: &[u8], i: usize) -> (r: Ipv4Address)
    requires
        i + 4 <= b@.len(),
    ensures
        r@ == b@.subrange(i as int, i + 4),
{
    let r = [b[i], b[i + 1], b[i + 2], b[i + 3]];
    assert(r@ =~= b@.subrange(i as int, i + 4));
    r
}

fn mac_at(b: &[u8], i: usize) -> (r: MacAddress)
    requires
        i + 6 <= b@.len(),
    ensures
        r@ == b@.subrange(i as int, i + 6),
{
    let r = [b[i], b[i + 1], b[i + 2], b[i + 3], b[i + 4], b[i + 5]];
    assert(r@ =~= b@.subrange(i as int, i + 6));
    r
}

// ----- IPv4 -----

/// The IPv4 protocol numbers the simulator knows.
#[derive(Debug, PartialEq, Eq, Clone, Copy, Structural)]
pub enum Ipv4Protocol {
    Icmp,
    Rip,
    Test,
}

impl Ipv4Protocol {
    pub open spec fn spec_value(self) -> u8 {
        match self {
            Ipv4Protocol::Icmp => 1,
            Ipv4Protocol::Rip => 17,
            Ipv4Protocol::Test => 255,
        }
    }

    /// A protocol number the simulator knows.
    pub open spec fn known(v: u8) -> bool {
        v == 1 || v == 17 || v == 255
    }

    pub open spec fn spec_from_value(v: u8) -> Ipv4Protocol {
        if v == 1 {
            Ipv4Protocol::Icmp
        } else if v == 17 {
            Ipv4Protocol::Rip
        } else {
            Ipv4Protocol::Test
        }
    }

    /// The protocol number on the wire.
    pub fn value(&self) -> (r: u8)
        ensures
            r == self.spec_value(),
    {
        match self {
            Ipv4Protocol::Icmp => 1,
            Ipv4Protocol::Rip => 17,
            Ipv4Protocol::Test => 255,
        }
    }

    /// The protocol of a known protocol number.
    pub fn from_value(v: u8) -> (r: Ipv4Protocol)
        requires
            Self::known(v),
        ensures
            r == Self::spec_from_value(v),
            r.spec_value() == v,
    {
        if v == 1 {
            Ipv4Protocol::Icmp
        } else if v == 17 {
            Ipv4Protocol::Rip
        } else {
            Ipv4Protocol::Test
        }
    }
}

/// The abstract content of an IPv4 frame.
pub struct Ipv4FrameView {
    pub version_hlen: u8,
    pub tos: u8,
    pub total_length: u16,
    pub id: u16,
    pub flags_fragment_offset: u16,
    pub ttl: u8,
    pub protocol: u8,
    pub checksum: u16,
    pub source: Seq<u8>,
    pub destination: Seq<u8>,
    pub option: Seq<u8>,
    pub data: Seq<u8>,
}

/// The header length in bytes that the first byte of an IPv4 header announces.
pub open spec fn header_len(version_hlen: u8) -> int {
    (version_hlen % 16) * 4
}

impl Ipv4FrameView {
    pub open spec fn bytes(self) -> Seq<u8> {
        seq![self.version_hlen, self.tos] + u16_be(self.total_length) + u16_be(self.id) + u16_be(
            self.flags_fragment_offset,
        ) + seq![self.ttl, self.protocol] + u16_be(self.checksum) + self.source
            + self.destination + self.option + self.data
    }

    /// The frame as built by `Ipv4Frame::new`: a 20-byte header, no options, a zero checksum.
    pub open spec fn built(src: Seq<u8>, dst: Seq<u8>, ttl: u8, data: Seq<u8>, protocol: Ipv4Protocol) -> Self {
        Ipv4FrameView {
            version_hlen: 0x45,
            tos: 0,
            total_length: (20 + data.len() % 0x1_0000) as u16,
            id: 0,
            flags_fragment_offset: 0,
            ttl,
            protocol: protocol.spec_value(),
            checksum: 0,
            source: src,
            destination: dst,
            option: Seq::empty(),
            data,
        }
    }

    /// The buffers on which `Ipv4Frame::from_bytes` is defined: the announced header length must
    /// lie between 20 bytes and the length of the buffer.
    pub open spec fn accepts(b: Seq<u8>) -> bool {
        b.len() < 20 || b.len() > 65535 || (20 <= header_len(b[0]) <= b.len())
    }

    pub open spec fn parse(b: Seq<u8>) -> Self {
        Ipv4FrameView {
            version_hlen: b[0],
            tos: b[1],
            total_length: u16_of(b[2], b[3]),
            id: u16_of(b[4], b[5]),
            flags_fragment_offset: u16_of(b[6], b[7]),
            ttl: b[8],
            protocol: b[9],
            checksum: u16_of(b[10], b[11]),
            source: b.subrange(12, 16),
            destination: b.subrange(16, 20),
            option: b.subrange(20, header_len(b[0])),
            data: b.subrange(header_len(b[0]), b.len() as int),
        }
    }

    pub open spec fn from_bytes(b: Seq<u8>) -> Result<Self, ParseError> {
        if b.len() < 20 {
            Err(ParseError::Runt(FrameKind::Ipv4))
        } else if b.len() > 65535 {
            Err(ParseError::Giant(FrameKind::Ipv4))
        } else {
            Ok(Self::parse(b))
        }
    }
}

/// A network layer frame for IPv4 communication.
#[derive(Debug, PartialEq, Eq, Clone)]
pub struct Ipv4Frame {
    pub version_hlen: u8,
    pub tos: u8,
    pub total_length: u16,
    pub id: u16,
    pub flags_fragment_offset: u16,
    pub ttl: u8,
    pub protocol: u8,
    pub checksum: u16,
    pub source: Ipv4Address,
    pub destination: Ipv4Address,
    pub option: Vec<u8>,
    pub data: Vec<u8>,
}

impl View for Ipv4Frame {
    type V = Ipv4FrameView;

    open spec fn view(&self) -> Ipv4FrameView {
        Ipv4FrameView {
            version_hlen: self.version_hlen,
            tos: self.tos,
            total_length: self.total_length,
            id: self.id,
            flags_fragment_offset: self.flags_fragment_offset,
            ttl: self.ttl,
            protocol: self.protocol,
            checksum: self.checksum,
            source: self.source@,
            destination: self.destination@,
            option: self.option@,
            data: self.data@,
        }
    }
}

impl Ipv4Frame {
    /// A frame with a 20-byte header; the total length is that of the header plus the data
    /// length modulo 2^16.
    pub fn new(
        source: Ipv4Address,
        destination: Ipv4Address,
        ttl: u8,
        data: Vec<u8>,
        protocol: Ipv4Protocol,
    ) -> (r: Self)
        requires
            data@.len() % 0x1_0000 + 20 <= 0xFFFF,
        ensures
            r@ == Ipv4FrameView::built(source@, destination@, ttl, data@, protocol),
    {
        let total_length = 20 + (data.len() % 0x1_0000) as u16;
        Ipv4Frame {
            version_hlen: 0x45,
            tos: 0,
            total_length,
            id: 0,
            flags_fragment_offset: 0,
            ttl,
            protocol: protocol.value(),
            checksum: 0,
            source,
            destination,
            option: Vec::new(),
            data,
        }
    }

    /// A test-protocol frame carrying one byte.
    pub fn test(source: Ipv4Address, destination: Ipv4Address, ttl: u8, data: u8) -> (r: Self)
        ensures
            r@ == Ipv4FrameView::built(source@, destination@, ttl, seq![data], Ipv4Protocol::Test),
    {
        let mut v: Vec<u8> = Vec::new();
        v.push(data);
        assert(v@ =~= seq![data]);
        Self::new(source, destination, ttl, v, Ipv4Protocol::Test)
    }
}

impl ByteSerializable for Ipv4Frame {
    open spec fn accepts(bytes: Seq<u8>) -> bool {
        Ipv4FrameView::accepts(bytes)
    }

    /// Reads a frame of 20 to 65535 bytes; the options are the bytes between the fixed header
    /// and the announced header length.
    fn from_bytes(bytes: Vec<u8>) -> (r: Result<Self, ParseError>)
        ensures
            (match r {
                Ok(f) => Ok(f@),
                Err(e) => Err(e),
            }) == Ipv4FrameView::from_bytes(bytes@),
    {
        if bytes.len() < 20 {
            return Err(ParseError::Runt(FrameKind::Ipv4));
        }
        if bytes.len() > 65535 {
            return Err(ParseError::Giant(FrameKind::Ipv4));
        }
        let b = bytes.as_slice();
        let n = bytes.len();
        let hl = ((bytes[0] % 16) as usize) * 4;
        let f = Ipv4Frame {
            version_hlen: bytes[0],
            tos: bytes[1],
            total_length: read_u16_be(b, 2),
            id: read_u16_be(b, 4),
            flags_fragment_offset: read_u16_be(b, 6),
            ttl: bytes[8],
            protocol: bytes[9],
            checksum: read_u16_be(b, 10),
            source: ip_at(b, 12),
            destination: ip_at(b, 16),
            option: copy_range(b, 20, hl),
            data: copy_range(b, hl, n),
        };
        assert(f@ == Ipv4FrameView::parse(bytes@));
        Ok(f)
    }

    fn to_bytes(&self) -> (r: Vec<u8>)
        ensures
            r@ == self@.bytes(),
    {
        let mut bytes: Vec<u8> = Vec::new();
        bytes.push(self.version_hlen);
        bytes.push(self.tos);
        push_u16_be(&mut bytes, self.total_length);
        push_u16_be(&mut bytes, self.id);
        push_u16_be(&mut bytes, self.flags_fragment_offset);
        bytes.push(self.ttl);
        bytes.push(self.protocol);
        push_u16_be(&mut bytes, self.checksum);
        push_all(&mut bytes, self.source.as_slice());
        push_all(&mut bytes, self.destination.as_slice());
        push_all(&mut bytes, self.option.as_slice());
        push_all(&mut bytes, self.data.as_slice());
        assert(bytes@ =~= self@.bytes());
        bytes
    }
}

/// Writing an IPv4 frame whose options fill the announced header and reading the bytes back
/// gives the same frame.
pub proof fn lemma_ipv4_roundtrip(f: Ipv4FrameView)
    requires
        f.source.len() == 4,
        f.destination.len() == 4,
        f.option.len() + 20 == header_len(f.version_hlen),
        f.bytes().len() <= 65535,
    ensures
        Ipv4FrameView::accepts(f.bytes()),
        Ipv4FrameView::from_bytes(f.bytes()) == Ok::<Ipv4FrameView, ParseError>(f),
{
    let b = f.bytes();
    let h = header_len(f.version_hlen);
    lemma_u16_roundtrip(f.total_length);
    lemma_u16_roundtrip(f.id);
    lemma_u16_roundtrip(f.flags_fragment_offset);
    lemma_u16_roundtrip(f.checksum);
    assert(b[0] == f.version_hlen);
    assert(b[2] == u16_be(f.total_length)[0] && b[3] == u16_be(f.total_length)[1]);
    assert(b[4] == u16_be(f.id)[0] && b[5] == u16_be(f.id)[1]);
    assert(b[6] == u16_be(f.flags_fragment_offset)[0] && b[7] == u16_be(f.flags_fragment_offset)[1]);
    assert(b[10] == u16_be(f.checksum)[0] && b[11] == u16_be(f.checksum)[1]);
    assert(b.subrange(12, 16) =~= f.source);
    assert(b.subrange(16, 20) =~= f.destination);
    assert(b.subrange(20, h) =~= f.option);
    assert(b.subrange(h, b.len() as int) =~= f.data);
    assert(Ipv4FrameView::parse(b) =~= f);
}

// ----- ARP -----

/// Address Resolution Protocol (ARP) operation code.
#[derive(Copy, Clone, PartialEq, Eq, Debug, Structural)]
pub enum ArpOperation {
    Request,
    Reply,
}

impl ArpOperation {
    pub open spec fn spec_value(self) -> u16 {
        match self {
            ArpOperation::Request => 1,
            ArpOperation::Reply => 2,
        }
    }

    pub fn value(&self) -> (r: u16)
        ensures
            r == self.spec_value(),
    {
        match self {
            ArpOperation::Request => 1,
            ArpOperation::Reply => 2,
        }
    }

    /// The operation of code 1 (request) or 2 (reply).
    pub fn from_value(v: u16) -> (r: ArpOperation)
        requires
            v == 1 || v == 2,
        ensures
            r.spec_value() == v,
    {
        if v == 1 {
            ArpOperation::Request
        } else {
            ArpOperation::Reply
        }
    }
}

/// The abstract content of an ARP frame.
pub struct ArpFrameView {
    pub hardware_type: u16,
    pub protocol_type: u16,
    pub hardware_size: u8,
    pub protocol_size: u8,
    pub opcode: ArpOperation,
    pub sender_mac: Seq<u8>,
    pub sender_ip: Seq<u8>,
    pub target_mac: Seq<u8>,
    pub target_ip: Seq<u8>,
}

impl ArpFrameView {
    pub open spec fn bytes(self) -> Seq<u8> {
        u16_be(self.hardware_type) + u16_be(self.protocol_type) + seq![self.hardware_size, self.protocol_size]
            + u16_be(self.opcode.spec_value()) + self.sender_mac + self.sender_ip + self.target_mac
            + self.target_ip
    }

    /// The frame built by `ArpFrame::new`: Ethernet hardware, IPv4 protocol.
    pub open spec fn built(op: ArpOperation, smac: Seq<u8>, sip: Seq<u8>, tmac: Seq<u8>, tip: Seq<u8>) -> Self {
        ArpFrameView {
            hardware_type: 1,
            protocol_type: 0x0800,
            hardware_size: 6,
            protocol_size: 4,
            opcode: op,
            sender_mac: smac,
            sender_ip: sip,
            target_mac: tmac,
            target_ip: tip,
        }
    }

    /// The buffers on which `ArpFrame::from_bytes` is defined: a 28-byte buffer must carry a
    /// request or a reply.
    pub open spec fn accepts(b: Seq<u8>) -> bool {
        b.len() != 28 || u16_of(b[6], b[7]) == 1 || u16_of(b[6], b[7]) == 2
    }

    pub open spec fn parse(b: Seq<u8>) -> Self {
        ArpFrameView {
            hardware_type: u16_of(b[0], b[1]),
            protocol_type: u16_of(b[2], b[3]),
            hardware_size: b[4],
            protocol_size: b[5],
            opcode: if u16_of(b[6], b[7]) == 1 { ArpOperation::Request } else { ArpOperation::Reply },
            sender_mac: b.subrange(8, 14),
            sender_ip: b.subrange(14, 18),
            target_mac: b.subrange(18, 24),
            target_ip: b.subrange(24, 28),
        }
    }

    pub open spec fn from_bytes(b: Seq<u8>) -> Result<Self, ParseError> {
        if b.len() != 28 {
            Err(ParseError::Invalid(FrameKind::Arp))
        } else {
            Ok(Self::parse(b))
        }
    }
}

/// Address Resolution Protocol (ARP) frame.
#[derive(Debug, PartialEq, Eq, Clone)]
pub struct ArpFrame {
    pub hardware_type: u16,
    pub protocol_type: u16,
    pub hardware_size: u8,
    pub protocol_size: u8,
    pub opcode: ArpOperation,
    pub sender_mac: MacAddress,
    pub sender_ip: Ipv4Address,
    pub target_mac: MacAddress,
    pub target_ip: Ipv4Address,
}

impl View for ArpFrame {
    type V = ArpFrameView;

    open spec fn view(&self) -> ArpFrameView {
        ArpFrameView {
            hardware_type: self.hardware_type,
            protocol_type: self.protocol_type,
            hardware_size: self.hardware_size,
            protocol_size: self.protocol_size,
            opcode: self.opcode,
            sender_mac: self.sender_mac@,
            sender_ip: self.sender_ip@,
            target_mac: self.target_mac@,
            target_ip: self.target_ip@,
        }
    }
}

impl ArpFrame {
    /// An ARP frame for Ethernet hardware and IPv4 addresses.
    pub fn new(
        opcode: ArpOperation,
        sender_mac: MacAddress,
        sender_ip: Ipv4Address,
        target_mac: MacAddress,
        target_ip: Ipv4Address,
    ) -> (r: Self)
        ensures
            r@ == ArpFrameView::built(opcode, sender_mac@, sender_ip@, target_mac@, target_ip@),
    {
        ArpFrame {
            hardware_type: 1,
            protocol_type: 0x0800,
            hardware_size: 6,
            protocol_size: 4,
            opcode,
            sender_mac,
            sender_ip,
            target_mac,
            target_ip,
        }
    }
}

impl ByteSerializable for ArpFrame {
    open spec fn accepts(bytes: Seq<u8>) -> bool {
        ArpFrameView::accepts(bytes)
    }

    /// Reads a frame of exactly 28 bytes.
    fn from_bytes(bytes: Vec<u8>) -> (r: Result<Self, ParseError>)
        ensures
            (match r {
                Ok(f) => Ok(f@),
                Err(e) => Err(e),
            }) == ArpFrameView::from_bytes(bytes@),
    {
        if bytes.len() != 28 {
            return Err(ParseError::Invalid(FrameKind::Arp));
        }
        let b = bytes.as_slice();
        let f = ArpFrame {
            hardware_type: read_u16_be(b, 0),
            protocol_type: read_u16_be(b, 2),
            hardware_size: bytes[4],
            protocol_size: bytes[5],
            opcode: ArpOperation::from_value(read_u16_be(b, 6)),
            sender_mac: mac_at(b, 8),
            sender_ip: ip_at(b, 14),
            target_mac: mac_at(b, 18),
            target_ip: ip_at(b, 24),
        };
        assert(f@ == ArpFrameView::parse(bytes@));
        Ok(f)
    }

    fn to_bytes(&self) -> (r: Vec<u8>)
        ensures
            r@ == self@.bytes(),
    {
        let mut bytes: Vec<u8> = Vec::new();
        push_u16_be(&mut bytes, self.hardware_type);
        push_u16_be(&mut bytes, self.protocol_type);
        bytes.push(self.hardware_size);
        bytes.push(self.protocol_size);
        push_u16_be(&mut bytes, self.opcode.value());
        push_all(&mut bytes, self.sender_mac.as_slice());
        push_all(&mut bytes, self.sender_ip.as_slice());
        push_all(&mut bytes, self.target_mac.as_slice());
        push_all(&mut bytes, self.target_ip.as_slice());
        assert(bytes@ =~= self@.bytes());
        bytes
    }
}

/// Writing an ARP frame and reading the bytes back gives the same frame.
pub proof fn lemma_arp_roundtrip(f: ArpFrameView)
    requires
        f.sender_mac.len() == 6,
        f.sender_ip.len() == 4,
        f.target_mac.len() == 6,
        f.target_ip.len() == 4,
    ensures
        f.bytes().len() == 28,
        ArpFrameView::accepts(f.bytes()),
        ArpFrameView::from_bytes(f.bytes()) == Ok::<ArpFrameView, ParseError>(f),
{
    let b = f.bytes();
    lemma_u16_roundtrip(f.hardware_type);
    lemma_u16_roundtrip(f.protocol_type);
    lemma_u16_roundtrip(f.opcode.spec_value());
    assert(b[0] == u16_be(f.hardware_type)[0] && b[1] == u16_be(f.hardware_type)[1]);
    assert(b[2] == u16_be(f.protocol_type)[0] && b[3] == u16_be(f.protocol_type)[1]);
    assert(b[6] == u16_be(f.opcode.spec_value())[0] && b[7] == u16_be(f.opcode.spec_value())[1]);
    assert(b.subrange(8, 14) =~= f.sender_mac);
    assert(b.subrange(14, 18) =~= f.sender_ip);
    assert(b.subrange(18, 24) =~= f.target_mac);
    assert(b.subrange(24, 28) =~= f.target_ip);
    assert(ArpFrameView::parse(b) =~= f);
}

// ----- ICMP -----

/// The ICMP message types the simulator sends.
#[derive(Debug, PartialEq, Eq, Clone, Copy, Structural)]
pub enum IcmpType {
    EchoRequest,
    EchoReply,
    Unreachable,
}

impl IcmpType {
    pub open spec fn spec_value(self) -> u8 {
        match self {
            IcmpType::EchoRequest => 8,
            IcmpType::EchoReply => 0,
            IcmpType::Unreachable => 3,
        }
    }

    /// The type number on the wire.
    pub fn value(&self) -> (r: u8)
        ensures
            r == self.spec_value(),
    {
        match self {
            IcmpType::EchoRequest => 8,
            IcmpType::EchoReply => 0,
            IcmpType::Unreachable => 3,
        }
    }
}

/// The abstract content of an ICMP frame.
pub struct IcmpFrameView {
    pub icmp_type: u8,
    pub code: u8,
    pub checksum: u16,
    pub identifier: u16,
    pub sequence_number: u16,
    pub data: Seq<u8>,
}

impl IcmpFrameView {
    pub open spec fn bytes(self) -> Seq<u8> {
        seq![self.icmp_type, self.code] + u16_be(self.checksum) + u16_be(self.identifier) + u16_be(
            self.sequence_number,
        ) + self.data
    }

    pub open spec fn built(t: u8, code: u8, identifier: u16, sequence_number: u16, data: Seq<u8>) -> Self {
        IcmpFrameView { icmp_type: t, code, checksum: 0, identifier, sequence_number, data }
    }

    pub open spec fn parse(b: Seq<u8>) -> Self {
        IcmpFrameView {
            icmp_type: b[0],
            code: b[1],
            checksum: u16_of(b[2], b[3]),
            identifier: u16_of(b[4], b[5]),
            sequence_number: u16_of(b[6], b[7]),
            data: b.skip(8),
        }
    }

    pub open spec fn from_bytes(b: Seq<u8>) -> Result<Self, ParseError> {
        if b.len() < 8 {
            Err(ParseError::Runt(FrameKind::Icmp))
        } else if b.len() > 65535 {
            Err(ParseError::Giant(FrameKind::Icmp))
        } else {
            Ok(Self::parse(b))
        }
    }
}

/// An ICMP message.
#[derive(Debug, PartialEq, Eq, Clone)]
pub struct IcmpFrame {
    pub icmp_type: u8,
    pub code: u8,
    pub checksum: u16,
    pub identifier: u16,
    pub sequence_number: u16,
    pub data: Vec<u8>,
}

impl View for IcmpFrame {
    type V = IcmpFrameView;

    open spec fn view(&self) -> IcmpFrameView {
        IcmpFrameView {
            icmp_type: self.icmp_type,
            code: self.code,
            checksum: self.checksum,
            identifier: self.identifier,
            sequence_number: self.sequence_number,
            data: self.data@,
        }
    }
}

impl IcmpFrame {
    /// An ICMP message with a zero checksum.
    pub fn new(icmp_type: u8, icmp_code: u8, identifier: u16, sequence_number: u16, data: Vec<u8>) -> (r: Self)
        ensures
            r@ == IcmpFrameView::built(icmp_type, icmp_code, identifier, sequence_number, data@),
    {
        IcmpFrame { icmp_type, code: icmp_code, checksum: 0, identifier, sequence_number, data }
    }

    /// An echo request (type 8).
    pub fn echo_request(identifier: u16, sequence_number: u16, data: Vec<u8>) -> (r: Self)
        ensures
            r@ == IcmpFrameView::built(8, 0, identifier, sequence_number, data@),
    {
        Self::new(8, 0, identifier, sequence_number, data)
    }

    /// An echo reply (type 0).
    pub fn echo_reply(identifier: u16, sequence_number: u16, data: Vec<u8>) -> (r: Self)
        ensures
            r@ == IcmpFrameView::built(0, 0, identifier, sequence_number, data@),
    {
        Self::new(0, 0, identifier, sequence_number, data)
    }

    /// A destination unreachable message (type 3) with the given code.
    pub fn destination_unreachable(code: u8, data: Vec<u8>) -> (r: Self)
        ensures
            r@ == IcmpFrameView::built(3, code, 0, 0, data@),
    {
        Self::new(3, code, 0, 0, data)
    }
}

impl ByteSerializable for IcmpFrame {
    open spec fn accepts(bytes: Seq<u8>) -> bool {
        true
    }

    /// Reads a message of 8 to 65535 bytes.
    fn from_bytes(bytes: Vec<u8>) -> (r: Result<Self, ParseError>)
        ensures
            (match r {
                Ok(f) => Ok(f@),
                Err(e) => Err(e),
            }) == IcmpFrameView::from_bytes(bytes@),
    {
        if bytes.len() < 8 {
            return Err(ParseError::Runt(FrameKind::Icmp));
        }
        if bytes.len() > 65535 {
            return Err(ParseError::Giant(FrameKind::Icmp));
        }
        let b = bytes.as_slice();
        let f = IcmpFrame {
            icmp_type: bytes[0],
            code: bytes[1],
            checksum: read_u16_be(b, 2),
            identifier: read_u16_be(b, 4),
            sequence_number: read_u16_be(b, 6),
            data: copy_range(b, 8, bytes.len()),
        };
        assert(f@ == IcmpFrameView::parse(bytes@));
        Ok(f)
    }

    fn to_bytes(&self) -> (r: Vec<u8>)
        ensures
            r@ == self@.bytes(),
    {
        let mut bytes: Vec<u8> = Vec::new();
        bytes.push(self.icmp_type);
        bytes.push(self.code);
        push_u16_be(&mut bytes, self.checksum);
        push_u16_be(&mut bytes, self.identifier);
        push_u16_be(&mut bytes, self.sequence_number);
        push_all(&mut bytes, self.data.as_slice());
        assert(bytes@ =~= self@.bytes());
        bytes
    }
}

/// Writing an ICMP message of at most 65535 bytes and reading the bytes back gives the same
/// message.
pub proof fn lemma_icmp_roundtrip(f: IcmpFrameView)
    requires
        f.data.len() + 8 <= 65535,
    ensures
        IcmpFrameView::from_bytes(f.bytes()) == Ok::<IcmpFrameView, ParseError>(f),
{
    let b = f.bytes();
    lemma_u16_roundtrip(f.checksum);
    lemma_u16_roundtrip(f.identifier);
    lemma_u16_roundtrip(f.sequence_number);
    assert(b[2] == u16_be(f.checksum)[0] && b[3] == u16_be(f.checksum)[1]);
    assert(b[4] == u16_be(f.identifier)[0] && b[5] == u16_be(f.identifier)[1]);
    assert(b[6] == u16_be(f.sequence_number)[0] && b[7] == u16_be(f.sequence_number)[1]);
    assert(b.skip(8) =~= f.data);
    assert(IcmpFrameView::parse(b) =~= f);
}

} // verus!
