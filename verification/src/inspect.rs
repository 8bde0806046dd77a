//! Packet inspection: telling the kinds of packets on the wire apart, and reading text
//! buffers.

use vstd::prelude::*;
use crate::bytes::{read_u16_be, u16_of};
use crate::network::ethernet::{
    ByteSerializable, EtherType, Ethernet2Frame, Ethernet2FrameView, Ethernet802_3Frame,
    Ethernet802_3FrameView, MacAddress,
};
use crate::network::ipv4::{Ipv4Frame, Ipv4FrameView};

verus! {

/// The abstract content of a classified packet.
pub enum PacketKindView {
    Arp(Ethernet2FrameView),
    Bpdu(Ethernet802_3FrameView),
    Rip(Ethernet2FrameView),
    Icmp(Ethernet2FrameView),
}

/// A packet seen on a cable, by the protocol it carries.
#[derive(Debug)]
pub enum PacketKind {
    Arp(Ethernet2Frame),
    Bpdu(Ethernet802_3Frame),
    Rip(Ethernet2Frame),
    Icmp(Ethernet2Frame),
}

impl View for PacketKind {
    type V = PacketKindView;

    open spec fn view(&self) -> PacketKindView {
        match self {
            PacketKind::Arp(f) => PacketKindView::Arp(f@),
            PacketKind::Bpdu(f) => PacketKindView::Bpdu(f@),
            PacketKind::Rip(f) => PacketKindView::Rip(f@),
            PacketKind::Icmp(f) => PacketKindView::Icmp(f@),
        }
    }
}

impl PacketKindView {
    pub open spec fn source_mac(self) -> Seq<u8> {
        match self {
            PacketKindView::Arp(f) => f.source_address,
            PacketKindView::Bpdu(f) => f.source_address,
            PacketKindView::Rip(f) => f.source_address,
            PacketKindView::Icmp(f) => f.source_address,
        }
    }

    /// The packets the simulator sends: an IEEE 802.3 frame (a BPDU), or an Ethernet II frame
    /// that carries ARP, or IPv4 with ICMP or RIP.
    pub open spec fn classifiable(b: Seq<u8>) -> bool {
        &&& b.len() >= 22
        &&& if u16_of(b[20], b[21]) >= 0x0600 {
            &&& Ethernet2FrameView::from_bytes(b) is Ok
            &&& {
                let f = Ethernet2FrameView::from_bytes(b)->Ok_0;
                ||| f.ether_type == EtherType::Arp
                ||| (f.ether_type == EtherType::Ipv4 && Ipv4FrameView::accepts(f.data)
                    && Ipv4FrameView::from_bytes(f.data) is Ok && ((Ipv4FrameView::from_bytes(f.data)->Ok_0).protocol == 1
                    || (Ipv4FrameView::from_bytes(f.data)->Ok_0).protocol == 17))
            }
        } else {
            Ethernet802_3FrameView::from_bytes(b) is Ok
        }
    }

    /// The kind of a classifiable packet: a type-or-length field of 0x0600 or more marks
    /// Ethernet II (ARP, or IPv4 with ICMP for protocol 1 and RIP for protocol 17); a smaller
    /// value marks a BPDU.
    pub open spec fn from_bytes(b: Seq<u8>) -> Self {
        if u16_of(b[20], b[21]) >= 0x0600 {
            let f = Ethernet2FrameView::from_bytes(b)->Ok_0;
            if f.ether_type == EtherType::Arp {
                PacketKindView::Arp(f)
            } else if (Ipv4FrameView::from_bytes(f.data)->Ok_0).protocol == 1 {
                PacketKindView::Icmp(f)
            } else {
                PacketKindView::Rip(f)
            }
        } else {
            PacketKindView::Bpdu(Ethernet802_3FrameView::from_bytes(b)->Ok_0)
        }
    }
}

impl PacketKind {
    /// The source MAC address of the packet.
    pub fn source_mac(&self) -> (r: MacAddress)
        ensures
            r@ == self@.source_mac(),
    {
        match self {
            PacketKind::Arp(frame) => frame.source_address,
            PacketKind::Bpdu(frame) => frame.source_address,
            PacketKind::Rip(frame) => frame.source_address,
            PacketKind::Icmp(frame) => frame.source_address,
        }
    }

    /// Classifies the bytes of a packet the simulator sent; see `PacketKindView::from_bytes`.
    pub fn from_bytes(packet: &Vec<u8>) -> (r: PacketKind)
        requires
            PacketKindView::classifiable(packet@),
        ensures
            r@ == PacketKindView::from_bytes(packet@),
    {
        let ether_type_or_length = read_u16_be(packet.as_slice(), 20);
        if ether_type_or_length < 0x0600 {
            let f = match Ethernet802_3Frame::from_bytes(packet.clone()) {
                Ok(f) => f,
                Err(_) => {
                    proof {
                        assert(false);
                    }
                    return PacketKind::Bpdu(Ethernet802_3Frame::new([0; 6], [0; 6], Vec::new()));
                },
            };
            return PacketKind::Bpdu(f);
        }
        let f = match Ethernet2Frame::from_bytes(packet.clone()) {
            Ok(f) => f,
            Err(_) => {
                proof {
                    assert(false);
                }
                return PacketKind::Arp(Ethernet2Frame::new([0; 6], [0; 6], Vec::new(), EtherType::Arp));
            },
        };
        match f.ether_type {
            EtherType::Arp => PacketKind::Arp(f),
            _ => {
                let data = f.data.clone();
                let protocol = match Ipv4Frame::from_bytes(data) {
                    Ok(ip) => ip.protocol,
                    Err(_) => 0,
                };
                if protocol == 1 {
                    PacketKind::Icmp(f)
                } else {
                    PacketKind::Rip(f)
                }
            },
        }
    }
}

// ----- Text buffers -----

/// The text of `b`, each invalid UTF-8 sequence replaced by U+FFFD: what
/// `String::from_utf8_lossy` gives.
pub uninterp spec fn utf8_lossy(b: Seq<u8>) -> Seq<char>;

/// Calls `String::from_utf8_lossy` and takes the text it gives. The contract says the result is
/// `utf8_lossy` of the bytes, and that ASCII bytes (valid UTF-8) give one character each; what
/// it gives for other bytes is left unsaid.
#[verifier::external_body]
fn from_utf8_lossy(b: &[u8]) -> (r: String)
    ensures
        r@ == utf8_lossy(b@),
        (forall|i: int| 0 <= i < b@.len() ==> b@[i] < 128) ==> r@ == b@.map_values(|c: u8| c as char),
{
    String::from_utf8_lossy(b).into_owned()
}

/// The index of the first zero byte of `b`, or its length when it holds none.
pub open spec fn nul_end(b: Seq<u8>) -> int {
    if exists|i: int| 0 <= i < b.len() && b[i] == 0 {
        choose|i: int| 0 <= i < b.len() && b[i] == 0 && forall|k: int| 0 <= k < i ==> b[k] != 0
    } else {
        b.len() as int
    }
}

/// Converts a zero-terminated buffer to text: the bytes before the first zero byte (all of them
/// when there is none), read as UTF-8 with invalid sequences replaced; ASCII bytes give one
/// character each.
pub fn array_to_string(array: &[u8]) -> (r: String)
    ensures
        r@ == utf8_lossy(array@.subrange(0, nul_end(array@))),
        (forall|i: int| 0 <= i < nul_end(array@) ==> array@[i] < 128)
            ==> r@ == array@.subrange(0, nul_end(array@)).map_values(|c: u8| c as char),
{
    let mut end: usize = 0;
    while end < array.len() && array[end] != 0
        invariant
            0 <= end <= array@.len(),
            forall|k: int| 0 <= k < end ==> array@[k] != 0,
        decreases array@.len() - end,
    {
        end = end + 1;
    }
    proof {
        let b = array@;
        if end < b.len() {
            assert(b[end as int] == 0);
            let j = choose|i: int| 0 <= i < b.len() && b[i] == 0 && forall|k: int| 0 <= k < i ==> b[k] != 0;
            assert(j == end) by {
                if j < end {
                    assert(b[j] != 0);
                } else if j > end {
                    assert(b[end as int] != 0);
                }
            }
        } else {
            assert(!(exists|i: int| 0 <= i < b.len() && b[i] == 0));
        }
    }
    let slice = slice_to(array, end);
    from_utf8_lossy(slice)
}

fn slice_to(b: &[u8], end: usize) -> (r: &[u8])
    requires
        end <= b@.len(),
    ensures
        r@ == b@.subrange(0, end as int),
{
    let (head, _) = b.split_at(end);
    head
}

} // verus!
