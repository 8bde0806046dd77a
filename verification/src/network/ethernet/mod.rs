//! Ethernet II and IEEE 802.3 frames, MAC addresses, and byte (de)serialization.

use vstd::prelude::*;
use crate::bytes::{lemma_u16_of_bytes, lemma_u16_roundtrip, lemma_u32_of_bytes, lemma_u32_roundtrip, copy_range, push_all, push_u16_be, push_u32_be, read_u16_be, read_u32_be, u16_be, u16_of, u32_be, u32_of};

pub mod interface;

verus! {

/// A data link physical address.
pub type MacAddress = [u8; 6];

/// The kinds of frame that are read from bytes.
#[derive(Debug, Clone, Copy, PartialEq, Eq, Structural)]
pub enum FrameKind {
    Ethernet,
    Bpdu,
    Ipv4,
    Arp,
    Icmp,
    RipRoute,
    Rip,
}

/// Why a byte buffer could not be read as a frame of the given kind.
#[derive(Debug, Clone, Copy, PartialEq, Eq, Structural)]
pub enum ParseError {
    /// Fewer bytes than the smallest frame of the kind.
    Runt(FrameKind),
    /// More bytes than the largest frame of the kind.
    Giant(FrameKind),
    /// The bytes are not a frame of the kind.
    Invalid(FrameKind),
}

/// The description of a parse error.
pub open spec fn error_text(e: ParseError) -> Seq<char> {
    match e {
        ParseError::Runt(k) => match k {
            FrameKind::Ethernet => "Insufficient bytes for Ethernet frame; Runt frame."@,
            FrameKind::Bpdu => "Insufficient bytes for BPDU frame; Runt frame."@,
            FrameKind::Ipv4 => "Insufficient bytes for Ipv4 frame; Runt frame."@,
            FrameKind::Arp => "Insufficient bytes for ARP frame; Runt frame."@,
            FrameKind::Icmp => "Insufficient bytes for ICMP frame; Runt frame."@,
            FrameKind::RipRoute => "RIP route must be 20 bytes."@,
            FrameKind::Rip => "RIP frame must be at least 2 bytes."@,
        },
        ParseError::Giant(k) => match k {
            FrameKind::Ethernet => "Oversized Ethernet frame; Giant frame."@,
            FrameKind::Bpdu => "Oversized BPDU frame; Giant frame."@,
            FrameKind::Ipv4 => "Oversized Ipv4 frame; Giant frame."@,
            FrameKind::Arp => "Oversized ARP frame; Giant frame."@,
            FrameKind::Icmp => "Oversized ICMP frame; Giant frame."@,
            FrameKind::RipRoute => "RIP route must be 20 bytes."@,
            FrameKind::Rip => "Oversized RIP frame; Giant frame."@,
        },
        ParseError::Invalid(k) => match k {
            FrameKind::Ethernet => "Invalid Ethernet frame"@,
            FrameKind::Bpdu => "Invalid BPDU frame"@,
            FrameKind::Ipv4 => "Invalid Ipv4 frame"@,
            FrameKind::Arp => "Invalid ARP frame"@,
            FrameKind::Icmp => "Invalid ICMP frame"@,
            FrameKind::RipRoute => "RIP route must be 20 bytes."@,
            FrameKind::Rip => "Invalid RIP frame"@,
        },
    }
}

impl ParseError {
    /// A short description of the error; see `error_text`.
    pub fn message(&self) -> (r: &'static str)
        ensures
            r@ == error_text(*self),
    {
        match self {
            ParseError::Runt(k) => match k {
                FrameKind::Ethernet => "Insufficient bytes for Ethernet frame; Runt frame.",
                FrameKind::Bpdu => "Insufficient bytes for BPDU frame; Runt frame.",
                FrameKind::Ipv4 => "Insufficient bytes for Ipv4 frame; Runt frame.",
                FrameKind::Arp => "Insufficient bytes for ARP frame; Runt frame.",
                FrameKind::Icmp => "Insufficient bytes for ICMP frame; Runt frame.",
                FrameKind::RipRoute => "RIP route must be 20 bytes.",
                FrameKind::Rip => "RIP frame must be at least 2 bytes.",
            },
            ParseError::Giant(k) => match k {
                FrameKind::Ethernet => "Oversized Ethernet frame; Giant frame.",
                FrameKind::Bpdu => "Oversized BPDU frame; Giant frame.",
                FrameKind::Ipv4 => "Oversized Ipv4 frame; Giant frame.",
                FrameKind::Arp => "Oversized ARP frame; Giant frame.",
                FrameKind::Icmp => "Oversized ICMP frame; Giant frame.",
                FrameKind::RipRoute => "RIP route must be 20 bytes.",
                FrameKind::Rip => "Oversized RIP frame; Giant frame.",
            },
            ParseError::Invalid(k) => match k {
                FrameKind::Ethernet => "Invalid Ethernet frame",
                FrameKind::Bpdu => "Invalid BPDU frame",
                FrameKind::Ipv4 => "Invalid Ipv4 frame",
                FrameKind::Arp => "Invalid ARP frame",
                FrameKind::Icmp => "Invalid ICMP frame",
                FrameKind::RipRoute => "RIP route must be 20 bytes.",
                FrameKind::Rip => "Invalid RIP frame",
            },
        }
    }
}

/// Conversion of a frame to and from its bytes on the wire.
pub trait ByteSerializable: Sized {
    /// The byte buffers on which `from_bytes` is defined.
    spec fn accepts(bytes: Seq<u8>) -> bool;

    /// Reads a frame from its bytes.
    fn from_bytes(bytes: Vec<u8>) -> (r: Result<Self, ParseError>)
        requires
            Self::accepts(bytes@),
    ;

    /// Writes the frame as bytes.
    fn to_bytes(&self) -> (r: Vec<u8>);
}

// ----- MAC addresses -----

/// The MAC address whose six bytes are those of `num` (big-endian, low 48 bits), with the
/// multicast bit of the first byte cleared.
pub open spec fn mac_bytes(num: u64) -> Seq<u8> {
    seq![
        ((num / 0x100_0000_0000) % 0x100 - (num / 0x100_0000_0000) % 0x100 % 2) as u8,
        ((num / 0x1_0000_0000) % 0x100) as u8,
        ((num / 0x100_0000) % 0x100) as u8,
        ((num / 0x1_0000) % 0x100) as u8,
        ((num / 0x100) % 0x100) as u8,
        (num % 0x100) as u8,
    ]
}

pub open spec fn broadcast_bytes() -> Seq<u8> {
    seq![0xFFu8, 0xFF, 0xFF, 0xFF, 0xFF, 0xFF]
}

pub open spec fn bpdu_bytes() -> Seq<u8> {
    seq![0x01u8, 0x80, 0xC2, 0x00, 0x00, 0x00]
}

/// The address is a group (multicast) address or the broadcast address.
pub open spec fn spec_is_multicast_or_broadcast(a: Seq<u8>) -> bool {
    a[0] % 2 == 1 || a == broadcast_bytes()
}

/// Creates a MAC address from a number; the multicast bit is cleared.
pub fn mac_addr(num: u64) -> (r: MacAddress)
    ensures
        r@ == mac_bytes(num),
{
    let b0 = ((num / 0x100_0000_0000) % 0x100) as u8;
    let r = [
        b0 - b0 % 2,
        ((num / 0x1_0000_0000) % 0x100) as u8,
        ((num / 0x100_0000) % 0x100) as u8,
        ((num / 0x1_0000) % 0x100) as u8,
        ((num / 0x100) % 0x100) as u8,
        (num % 0x100) as u8,
    ];
    assert(r@ =~= mac_bytes(num));
    r
}

/// The broadcast MAC address.
pub fn mac_broadcast_addr() -> (r: MacAddress)
    ensures
        r@ == broadcast_bytes(),
{
    let r = [0xFFu8, 0xFF, 0xFF, 0xFF, 0xFF, 0xFF];
    assert(r@ =~= broadcast_bytes());
    r
}

/// The multicast MAC address of the Spanning Tree Protocol.
pub fn mac_bpdu_addr() -> (r: MacAddress)
    ensures
        r@ == bpdu_bytes(),
{
    let r = [0x01u8, 0x80, 0xC2, 0x00, 0x00, 0x00];
    assert(r@ =~= bpdu_bytes());
    r
}

/// Whether two MAC addresses are equal.
pub fn mac_eq(a: &MacAddress, b: &MacAddress) -> (r: bool)
    ensures
        r == (a@ == b@),
        r == (*a == *b),
{
    let r = a[0] == b[0] && a[1] == b[1] && a[2] == b[2] && a[3] == b[3] && a[4] == b[4] && a[5]
        == b[5];
    proof {
        if r {
            assert(a@ =~= b@);
            vstd::array::axiom_array_ext_equal(*a, *b);
        } else if a@ == b@ {
            assert(a@[0] == b@[0] && a@[1] == b@[1] && a@[2] == b@[2]);
            assert(a@[3] == b@[3] && a@[4] == b@[4] && a@[5] == b@[5]);
        }
    }
    r
}

/// Returns true if the address is a multicast or broadcast address.
pub fn is_mac_multicast_or_broadcast(a: &MacAddress) -> (r: bool)
    ensures
        r == spec_is_multicast_or_broadcast(a@),
{
    let bc = mac_broadcast_addr();
    a[0] % 2 == 1 || mac_eq(a, &bc)
}

// ----- EtherType -----

/// Ethernet II EtherType field.
#[derive(Debug, PartialEq, Eq, Clone, Copy, Structural)]
pub enum EtherType {
    Ipv4,
    Arp,
    Debug,
}

impl EtherType {
    /// The value of the field on the wire.
    pub open spec fn spec_value(self) -> u16 {
        match self {
            EtherType::Ipv4 => 0x0800,
            EtherType::Arp => 0x0806,
            EtherType::Debug => 0xFFFF,
        }
    }

    /// The EtherType that a value on the wire reads as; unknown values read as `Debug`.
    pub open spec fn spec_from_value(v: u16) -> EtherType {
        if v == 0x0800 {
            EtherType::Ipv4
        } else if v == 0x0806 {
            EtherType::Arp
        } else {
            EtherType::Debug
        }
    }

    /// The value of the field on the wire.
    pub fn value(&self) -> (r: u16)
        ensures
            r == self.spec_value(),
    {
        match self {
            EtherType::Ipv4 => 0x0800,
            EtherType::Arp => 0x0806,
            EtherType::Debug => 0xFFFF,
        }
    }

    /// Reads a value on the wire; unknown values read as `Debug`.
    pub fn from_value(v: u16) -> (r: EtherType)
        ensures
            r == Self::spec_from_value(v),
    {
        if v == 0x0800 {
            EtherType::Ipv4
        } else if v == 0x0806 {
            EtherType::Arp
        } else {
            EtherType::Debug
        }
    }
}

/// Reading the wire value of an EtherType gives the EtherType back.
pub proof fn lemma_ether_type_roundtrip(t: EtherType)
    ensures
        EtherType::spec_from_value(t.spec_value()) == t,
{
}

// ----- Frames -----

/// The seven preamble bytes.
pub open spec fn preamble_bytes() -> Seq<u8> {
    seq![0x55u8, 0x55, 0x55, 0x55, 0x55, 0x55, 0x55]
}

/// The start frame delimiter.
pub open spec fn sfd() -> u8 {
    0xD5
}

fn new_preamble() -> (r: [u8; 7])
    ensures
        r@ == preamble_bytes(),
{
    let r = [0x55u8, 0x55, 0x55, 0x55, 0x55, 0x55, 0x55];
    assert(r@ =~= preamble_bytes());
    r
}

fn mac_at(b: &[u8], i: usize) -> (r: MacAddress)
    requires
        i + 6 <= b@.len(),
    ensures
        r@ == b@.subrange(i as int, i + 6),
{
    let r = [b[i], b[i + 1], b[i + 2], b[i + 3], b[i + 4], b[i + 5]];
    assert(r@ =~= b@.subrange(i as int, i + 6));
    r
}

/// The abstract content of an Ethernet II frame.
pub struct Ethernet2FrameView {
    pub preamble: Seq<u8>,
    pub start_frame_delimiter: u8,
    pub destination_address: Seq<u8>,
    pub source_address: Seq<u8>,
    pub ether_type: EtherType,
    pub data: Seq<u8>,
    pub frame_check_sequence: u32,
}

impl Ethernet2FrameView {
    /// The bytes of the frame on the wire.
    pub open spec fn bytes(self) -> Seq<u8> {
        self.preamble + seq![self.start_frame_delimiter] + self.destination_address
            + self.source_address + u16_be(self.ether_type.spec_value()) + self.data + u32_be(
            self.frame_check_sequence,
        )
    }

    /// The frame as built by `Ethernet2Frame::new`.
    pub open spec fn built(dst: Seq<u8>, src: Seq<u8>, data: Seq<u8>, t: EtherType) -> Self {
        Ethernet2FrameView {
            preamble: preamble_bytes(),
            start_frame_delimiter: sfd(),
            destination_address: dst,
            source_address: src,
            ether_type: t,
            data,
            frame_check_sequence: 0,
        }
    }

    /// The frame read from `b`, which holds between 46 and 1500 bytes.
    pub open spec fn parse(b: Seq<u8>) -> Self {
        Ethernet2FrameView {
            preamble: preamble_bytes(),
            start_frame_delimiter: sfd(),
            destination_address: b.subrange(8, 14),
            source_address: b.subrange(14, 20),
            ether_type: EtherType::spec_from_value(u16_of(b[20], b[21])),
            data: b.subrange(22, b.len() - 4),
            frame_check_sequence: u32_of(b.subrange(b.len() - 4, b.len() as int)),
        }
    }

    /// What `Ethernet2Frame::from_bytes` gives for `b`.
    pub open spec fn from_bytes(b: Seq<u8>) -> Result<Self, ParseError> {
        if b.len() < 46 {
            Err(ParseError::Runt(FrameKind::Ethernet))
        } else if b.len() > 1500 {
            Err(ParseError::Giant(FrameKind::Ethernet))
        } else {
            Ok(Self::parse(b))
        }
    }
}

/// Ethernet II frame format.
#[derive(Debug, PartialEq, Eq, Clone)]
pub struct Ethernet2Frame {
    pub preamble: [u8; 7],
    pub start_frame_delimiter: u8,
    pub destination_address: MacAddress,
    pub source_address: MacAddress,
    pub ether_type: EtherType,
    pub data: Vec<u8>,
    pub frame_check_sequence: u32,
}

impl View for Ethernet2Frame {
    type V = Ethernet2FrameView;

    open spec fn view(&self) -> Ethernet2FrameView {
        Ethernet2FrameView {
            preamble: self.preamble@,
            start_frame_delimiter: self.start_frame_delimiter,
            destination_address: self.destination_address@,
            source_address: self.source_address@,
            ether_type: self.ether_type,
            data: self.data@,
            frame_check_sequence: self.frame_check_sequence,
        }
    }
}

impl Ethernet2Frame {
    /// A frame with the standard preamble and delimiter, and a zero check sequence.
    pub fn new(
        destination_address: MacAddress,
        source_address: MacAddress,
        data: Vec<u8>,
        ether_type: EtherType,
    ) -> (r: Self)
        ensures
            r@ == Ethernet2FrameView::built(
                destination_address@,
                source_address@,
                data@,
                ether_type,
            ),
    {
        Ethernet2Frame {
            preamble: new_preamble(),
            start_frame_delimiter: 0xD5,
            destination_address,
            source_address,
            ether_type,
            data,
            frame_check_sequence: 0,
        }
    }
}

impl ByteSerializable for Ethernet2Frame {
    open spec fn accepts(bytes: Seq<u8>) -> bool {
        true
    }

    /// Reads a frame of 46 to 1500 bytes; the preamble and delimiter are not read.
    fn from_bytes(bytes: Vec<u8>) -> (r: Result<Self, ParseError>)
        ensures
            (match r {
                Ok(f) => Ok(f@),
                Err(e) => Err(e),
            }) == Ethernet2FrameView::from_bytes(bytes@),
    {
        if bytes.len() < 46 {
            return Err(ParseError::Runt(FrameKind::Ethernet));
        }
        if bytes.len() > 1500 {
            return Err(ParseError::Giant(FrameKind::Ethernet));
        }
        let n = bytes.len();
        let destination_address = mac_at(bytes.as_slice(), 8);
        let source_address = mac_at(bytes.as_slice(), 14);
        let ether_type = EtherType::from_value(read_u16_be(bytes.as_slice(), 20));
        let data = copy_range(bytes.as_slice(), 22, n - 4);
        let frame_check_sequence = read_u32_be(bytes.as_slice(), n - 4);
        let f = Ethernet2Frame {
            preamble: new_preamble(),
            start_frame_delimiter: 0xD5,
            destination_address,
            source_address,
            ether_type,
            data,
            frame_check_sequence,
        };
        assert(f@ == Ethernet2FrameView::parse(bytes@));
        Ok(f)
    }

    fn to_bytes(&self) -> (r: Vec<u8>)
        ensures
            r@ == self@.bytes(),
    {
        let mut bytes: Vec<u8> = Vec::new();
        push_all(&mut bytes, self.preamble.as_slice());
        bytes.push(self.start_frame_delimiter);
        push_all(&mut bytes, self.destination_address.as_slice());
        push_all(&mut bytes, self.source_address.as_slice());
        push_u16_be(&mut bytes, self.ether_type.value());
        push_all(&mut bytes, self.data.as_slice());
        push_u32_be(&mut bytes, self.frame_check_sequence);
        assert(bytes@ =~= self@.bytes());
        bytes
    }
}


/// Writing an Ethernet II frame and reading the bytes back gives the same frame, for every
/// frame with the standard preamble and delimiter whose bytes are neither runt nor giant.
pub proof fn lemma_ethernet2_roundtrip(f: Ethernet2FrameView)
    requires
        f.preamble == preamble_bytes(),
        f.start_frame_delimiter == sfd(),
        f.destination_address.len() == 6,
        f.source_address.len() == 6,
        20 <= f.data.len() <= 1474,
    ensures
        f.bytes().len() == f.data.len() + 26,
        Ethernet2FrameView::from_bytes(f.bytes()) == Ok::<Ethernet2FrameView, ParseError>(f),
{
    let b = f.bytes();
    let n = b.len();
    lemma_u16_roundtrip(f.ether_type.spec_value());
    lemma_u32_roundtrip(f.frame_check_sequence);
    assert(n == f.data.len() + 26);
    assert(b.subrange(8, 14) =~= f.destination_address);
    assert(b.subrange(14, 20) =~= f.source_address);
    assert(b[20] == u16_be(f.ether_type.spec_value())[0]);
    assert(b[21] == u16_be(f.ether_type.spec_value())[1]);
    assert(b.subrange(22, n - 4) =~= f.data);
    assert(b.subrange(n - 4, n as int) =~= u32_be(f.frame_check_sequence));
    assert(Ethernet2FrameView::parse(b) =~= f);
}

/// Reading a buffer as an Ethernet II frame and writing the frame gives the buffer back, when
/// the buffer starts with the standard preamble and delimiter and carries a known EtherType.
pub proof fn lemma_ethernet2_bytes_roundtrip(b: Seq<u8>)
    requires
        46 <= b.len() <= 1500,
        b.subrange(0, 7) == preamble_bytes(),
        b[7] == sfd(),
        u16_of(b[20], b[21]) == 0x0800 || u16_of(b[20], b[21]) == 0x0806 || u16_of(b[20], b[21])
            == 0xFFFF,
    ensures
        Ethernet2FrameView::from_bytes(b) matches Ok(f) && f.bytes() == b,
{
    let f = Ethernet2FrameView::parse(b);
    let n = b.len();
    lemma_u16_of_bytes(b[20], b[21]);
    lemma_u32_of_bytes(b.subrange(n - 4, n as int));
    assert(f.ether_type.spec_value() == u16_of(b[20], b[21]));
    assert(f.bytes() =~= b);
}

/// The abstract content of an IEEE 802.3 frame.
pub struct Ethernet802_3FrameView {
    pub preamble: Seq<u8>,
    pub start_frame_delimiter: u8,
    pub destination_address: Seq<u8>,
    pub source_address: Seq<u8>,
    pub length: u16,
    pub dsap: u8,
    pub ssap: u8,
    pub control: u8,
    pub data: Seq<u8>,
    pub frame_check_sequence: u32,
}

impl Ethernet802_3FrameView {
    /// The bytes of the frame on the wire.
    pub open spec fn bytes(self) -> Seq<u8> {
        self.preamble + seq![self.start_frame_delimiter] + self.destination_address
            + self.source_address + u16_be(self.length) + seq![self.dsap, self.ssap, self.control]
            + self.data + u32_be(self.frame_check_sequence)
    }

    /// The frame as built by `Ethernet802_3Frame::new`: the length field holds the data length
    /// modulo 2^16, and the service access points are those of the Spanning Tree Protocol.
    pub open spec fn built(dst: Seq<u8>, src: Seq<u8>, data: Seq<u8>) -> Self {
        Ethernet802_3FrameView {
            preamble: preamble_bytes(),
            start_frame_delimiter: sfd(),
            destination_address: dst,
            source_address: src,
            length: (data.len() % 0x1_0000) as u16,
            dsap: 0x42,
            ssap: 0x42,
            control: 0x03,
            data,
            frame_check_sequence: 0,
        }
    }

    /// The frame read from `b`, which holds between 64 and 1518 bytes.
    pub open spec fn parse(b: Seq<u8>) -> Self {
        Ethernet802_3FrameView {
            preamble: preamble_bytes(),
            start_frame_delimiter: sfd(),
            destination_address: b.subrange(8, 14),
            source_address: b.subrange(14, 20),
            length: u16_of(b[20], b[21]),
            dsap: b[22],
            ssap: b[23],
            control: b[24],
            data: b.subrange(25, b.len() - 4),
            frame_check_sequence: u32_of(b.subrange(b.len() - 4, b.len() as int)),
        }
    }

    /// What `Ethernet802_3Frame::from_bytes` gives for `b`.
    pub open spec fn from_bytes(b: Seq<u8>) -> Result<Self, ParseError> {
        if b.len() < 64 {
            Err(ParseError::Runt(FrameKind::Ethernet))
        } else if b.len() > 1518 {
            Err(ParseError::Giant(FrameKind::Ethernet))
        } else {
            Ok(Self::parse(b))
        }
    }
}

/// IEEE 802.3 Ethernet frame (LLC); used for spanning tree BPDUs.
#[derive(Debug, PartialEq, Eq, Clone)]
pub struct Ethernet802_3Frame {
    pub preamble: [u8; 7],
    pub start_frame_delimiter: u8,
    pub destination_address: MacAddress,
    pub source_address: MacAddress,
    pub length: u16,
    pub dsap: u8,
    pub ssap: u8,
    pub control: u8,
    pub data: Vec<u8>,
    pub frame_check_sequence: u32,
}

impl View for Ethernet802_3Frame {
    type V = Ethernet802_3FrameView;

    open spec fn view(&self) -> Ethernet802_3FrameView {
        Ethernet802_3FrameView {
            preamble: self.preamble@,
            start_frame_delimiter: self.start_frame_delimiter,
            destination_address: self.destination_address@,
            source_address: self.source_address@,
            length: self.length,
            dsap: self.dsap,
            ssap: self.ssap,
            control: self.control,
            data: self.data@,
            frame_check_sequence: self.frame_check_sequence,
        }
    }
}

impl Ethernet802_3Frame {
    /// A Spanning Tree LLC frame carrying `data`.
    pub fn new(destination_address: MacAddress, source_address: MacAddress, data: Vec<u8>) -> (r:
        Self)
        ensures
            r@ == Ethernet802_3FrameView::built(destination_address@, source_address@, data@),
    {
        let length = (data.len() % 0x1_0000) as u16;
        Ethernet802_3Frame {
            preamble: new_preamble(),
            start_frame_delimiter: 0xD5,
            destination_address,
            source_address,
            length,
            dsap: 0x42,
            ssap: 0x42,
            control: 0x03,
            data,
            frame_check_sequence: 0,
        }
    }
}

impl ByteSerializable for Ethernet802_3Frame {
    open spec fn accepts(bytes: Seq<u8>) -> bool {
        true
    }

    /// Reads a frame of 64 to 1518 bytes; the preamble and delimiter are not read.
    fn from_bytes(bytes: Vec<u8>) -> (r: Result<Self, ParseError>)
        ensures
            (match r {
                Ok(f) => Ok(f@),
                Err(e) => Err(e),
            }) == Ethernet802_3FrameView::from_bytes(bytes@),
    {
        if bytes.len() < 64 {
            return Err(ParseError::Runt(FrameKind::Ethernet));
        }
        if bytes.len() > 1518 {
            return Err(ParseError::Giant(FrameKind::Ethernet));
        }
        let n = bytes.len();
        let destination_address = mac_at(bytes.as_slice(), 8);
        let source_address = mac_at(bytes.as_slice(), 14);
        let length = read_u16_be(bytes.as_slice(), 20);
        let data = copy_range(bytes.as_slice(), 25, n - 4);
        let frame_check_sequence = read_u32_be(bytes.as_slice(), n - 4);
        let f = Ethernet802_3Frame {
            preamble: new_preamble(),
            start_frame_delimiter: 0xD5,
            destination_address,
            source_address,
            length,
            dsap: bytes[22],
            ssap: bytes[23],
            control: bytes[24],
            data,
            frame_check_sequence,
        };
        assert(f@ == Ethernet802_3FrameView::parse(bytes@));
        Ok(f)
    }

    fn to_bytes(&self) -> (r: Vec<u8>)
        ensures
            r@ == self@.bytes(),
    {
        let mut bytes: Vec<u8> = Vec::new();
        push_all(&mut bytes, self.preamble.as_slice());
        bytes.push(self.start_frame_delimiter);
        push_all(&mut bytes, self.destination_address.as_slice());
        push_all(&mut bytes, self.source_address.as_slice());
        push_u16_be(&mut bytes, self.length);
        bytes.push(self.dsap);
        bytes.push(self.ssap);
        bytes.push(self.control);
        push_all(&mut bytes, self.data.as_slice());
        push_u32_be(&mut bytes, self.frame_check_sequence);
        assert(bytes@ =~= self@.bytes());
        bytes
    }
}

/// Writing an IEEE 802.3 frame and reading the bytes back gives the same frame, for every frame
/// with the standard preamble and delimiter whose bytes are neither runt nor giant.
pub proof fn lemma_ethernet802_3_roundtrip(f: Ethernet802_3FrameView)
    requires
        f.preamble == preamble_bytes(),
        f.start_frame_delimiter == sfd(),
        f.destination_address.len() == 6,
        f.source_address.len() == 6,
        35 <= f.data.len() <= 1489,
    ensures
        f.bytes().len() == f.data.len() + 29,
        Ethernet802_3FrameView::from_bytes(f.bytes()) == Ok::<Ethernet802_3FrameView, ParseError>(f),
{
    let b = f.bytes();
    let n = b.len();
    lemma_u16_roundtrip(f.length);
    lemma_u32_roundtrip(f.frame_check_sequence);
    assert(n == f.data.len() + 29);
    assert(b.subrange(8, 14) =~= f.destination_address);
    assert(b.subrange(14, 20) =~= f.source_address);
    assert(b[20] == u16_be(f.length)[0]);
    assert(b[21] == u16_be(f.length)[1]);
    assert(b.subrange(25, n - 4) =~= f.data);
    assert(b.subrange(n - 4, n as int) =~= u32_be(f.frame_check_sequence));
    assert(Ethernet802_3FrameView::parse(b) =~= f);
}

/// Reading a buffer as an IEEE 802.3 frame and writing the frame gives the buffer back, when the
/// buffer starts with the standard preamble and delimiter.
pub proof fn lemma_ethernet802_3_bytes_roundtrip(b: Seq<u8>)
    requires
        64 <= b.len() <= 1518,
        b.subrange(0, 7) == preamble_bytes(),
        b[7] == sfd(),
    ensures
        Ethernet802_3FrameView::from_bytes(b) matches Ok(f) && f.bytes() == b,
{
    let f = Ethernet802_3FrameView::parse(b);
    let n = b.len();
    lemma_u16_of_bytes(b[20], b[21]);
    lemma_u32_of_bytes(b.subrange(n - 4, n as int));
    assert(f.bytes() =~= b);
}

/// The abstract content of an Ethernet frame of either kind.
pub enum EthernetFrameView {
    Ethernet2(Ethernet2FrameView),
    Ethernet802_3(Ethernet802_3FrameView),
}

impl EthernetFrameView {
    /// What `EthernetFrame::from_bytes` gives for `b` (at least 22 bytes): an EtherType of
    /// 0x0600 or more marks Ethernet II, a smaller value is the length of an 802.3 frame.
    pub open spec fn from_bytes(b: Seq<u8>) -> Result<Self, ParseError> {
        if u16_of(b[20], b[21]) >= 0x0600 {
            match Ethernet2FrameView::from_bytes(b) {
                Ok(f) => Ok(EthernetFrameView::Ethernet2(f)),
                Err(_) => Err(ParseError::Invalid(FrameKind::Ethernet)),
            }
        } else {
            match Ethernet802_3FrameView::from_bytes(b) {
                Ok(f) => Ok(EthernetFrameView::Ethernet802_3(f)),
                Err(_) => Err(ParseError::Invalid(FrameKind::Ethernet)),
            }
        }
    }

    pub open spec fn source_address(self) -> Seq<u8> {
        match self {
            EthernetFrameView::Ethernet2(f) => f.source_address,
            EthernetFrameView::Ethernet802_3(f) => f.source_address,
        }
    }

    pub open spec fn destination_address(self) -> Seq<u8> {
        match self {
            EthernetFrameView::Ethernet2(f) => f.destination_address,
            EthernetFrameView::Ethernet802_3(f) => f.destination_address,
        }
    }
}

/// An Ethernet frame that can be Ethernet II or IEEE 802.3.
#[derive(Debug, PartialEq, Eq)]
pub enum EthernetFrame {
    Ethernet2(Ethernet2Frame),
    Ethernet802_3(Ethernet802_3Frame),
}

impl View for EthernetFrame {
    type V = EthernetFrameView;

    open spec fn view(&self) -> EthernetFrameView {
        match self {
            EthernetFrame::Ethernet2(f) => EthernetFrameView::Ethernet2(f@),
            EthernetFrame::Ethernet802_3(f) => EthernetFrameView::Ethernet802_3(f@),
        }
    }
}

impl EthernetFrame {
    /// The destination MAC address of the frame.
    pub fn destination_address(&self) -> (r: MacAddress)
        ensures
            r@ == self@.destination_address(),
    {
        match self {
            EthernetFrame::Ethernet2(frame) => frame.destination_address,
            EthernetFrame::Ethernet802_3(frame) => frame.destination_address,
        }
    }

    /// The source MAC address of the frame.
    pub fn source_address(&self) -> (r: MacAddress)
        ensures
            r@ == self@.source_address(),
    {
        match self {
            EthernetFrame::Ethernet2(frame) => frame.source_address,
            EthernetFrame::Ethernet802_3(frame) => frame.source_address,
        }
    }
}

impl ByteSerializable for EthernetFrame {
    /// The type-or-length field must be present.
    open spec fn accepts(bytes: Seq<u8>) -> bool {
        bytes.len() >= 22
    }

    /// Reads the bytes as Ethernet II or as IEEE 802.3, by the type-or-length field.
    fn from_bytes(bytes: Vec<u8>) -> (r: Result<Self, ParseError>)
        ensures
            (match r {
                Ok(f) => Ok(f@),
                Err(e) => Err(e),
            }) == EthernetFrameView::from_bytes(bytes@),
    {
        let ether_type_or_length = read_u16_be(bytes.as_slice(), 20);
        if ether_type_or_length >= 0x0600 {
            match Ethernet2Frame::from_bytes(bytes) {
                Ok(f) => Ok(EthernetFrame::Ethernet2(f)),
                Err(_) => Err(ParseError::Invalid(FrameKind::Ethernet)),
            }
        } else {
            match Ethernet802_3Frame::from_bytes(bytes) {
                Ok(f) => Ok(EthernetFrame::Ethernet802_3(f)),
                Err(_) => Err(ParseError::Invalid(FrameKind::Ethernet)),
            }
        }
    }

    /// An `EthernetFrame` is written through its variant; as a whole it writes no bytes.
    fn to_bytes(&self) -> (r: Vec<u8>)
        ensures
            r@ == Seq::<u8>::empty(),
    {
        Vec::new()
    }
}

/// The bytes of an Ethernet II frame with a known EtherType read back as that frame.
pub proof fn lemma_ethernet_frame_roundtrip_eth2(g: Ethernet2FrameView)
    requires
        g.preamble == preamble_bytes(),
        g.start_frame_delimiter == sfd(),
        g.destination_address.len() == 6,
        g.source_address.len() == 6,
        20 <= g.data.len() <= 1474,
    ensures
        EthernetFrameView::from_bytes(g.bytes()) == Ok::<EthernetFrameView, ParseError>(
            EthernetFrameView::Ethernet2(g),
        ),
{
    lemma_ethernet2_roundtrip(g);
    lemma_u16_roundtrip(g.ether_type.spec_value());
    let b = g.bytes();
    assert(b[20] == u16_be(g.ether_type.spec_value())[0]);
    assert(b[21] == u16_be(g.ether_type.spec_value())[1]);
}

/// The bytes of an IEEE 802.3 frame whose length field is below 0x0600 read back as that frame.
pub proof fn lemma_ethernet_frame_roundtrip_802_3(g: Ethernet802_3FrameView)
    requires
        g.preamble == preamble_bytes(),
        g.start_frame_delimiter == sfd(),
        g.destination_address.len() == 6,
        g.source_address.len() == 6,
        35 <= g.data.len() <= 1489,
        g.length < 0x0600,
    ensures
        EthernetFrameView::from_bytes(g.bytes()) == Ok::<EthernetFrameView, ParseError>(
            EthernetFrameView::Ethernet802_3(g),
        ),
{
    lemma_ethernet802_3_roundtrip(g);
    lemma_u16_roundtrip(g.length);
    let b = g.bytes();
    assert(b[20] == u16_be(g.length)[0]);
    assert(b[21] == u16_be(g.length)[1]);
}

} // verus!
