//! A packet-level network simulator: Ethernet II / IEEE 802.3 framing, ARP, IPv4, ICMP,
//! RIP routing and a Rapid Spanning Tree switch, over simulated cables.
//!
//! Every frame is serialized to bytes before it crosses a cable, and every device parses the
//! bytes it receives. Ports live in a port table owned by the [`network::device::cable::CableSimulator`];
//! devices refer to their ports by index.

pub mod bytes;
pub mod inspect;
pub mod network;
pub mod repository;
pub mod terminal;
pub mod tick;
