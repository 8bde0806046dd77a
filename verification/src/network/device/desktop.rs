//! A desktop computer: an end device with one IPv4 interface.

use vstd::prelude::*;
use crate::network::device::cable::{empty_port, CableSimulator};
use crate::network::ethernet::interface::EthernetInterface;
use crate::network::ethernet::{mac_addr, mac_bytes};
use crate::network::ipv4::interface::{receive_spec, Ipv4Interface, Ipv4InterfaceView};
use crate::tick::Tickable;

verus! {

/// A desktop computer with one IPv4 interface.
pub struct Desktop {
    pub interface: Ipv4Interface,
}

impl Desktop {
    /// A desktop whose interface takes a new port of the simulator, the MAC address
    /// `mac_seed`, the address 192.168.1.1 on the subnet 255.255.255.0, and no default gateway.
    pub fn from_seed(sim: &mut CableSimulator, mac_seed: u64) -> (r: Desktop)
        requires
            old(sim).wf(),
        ensures
            final(sim).wf(),
            final(sim)@.ports == old(sim)@.ports.push(empty_port()),
            final(sim)@.simulated == old(sim)@.simulated,
            r.interface@.ethernet.port == old(sim)@.ports.len(),
            r.interface@ == (Ipv4InterfaceView {
                ethernet: EthernetInterface { port: old(sim)@.ports.len() as usize, mac_address: r.interface@.ethernet.mac_address },
                ip_address: seq![192u8, 168, 1, 1],
                subnet_mask: seq![255u8, 255, 255, 0],
                default_gateway: None,
                arp_buf: Seq::empty(),
                arp_table: Map::empty(),
                router_interface: false,
            }),
            r.interface@.ethernet.mac_address@ == mac_bytes(mac_seed),
    {
        let ip_address = [192u8, 168, 1, 1];
        let subnet_mask = [255u8, 255, 255, 0];
        assert(ip_address@ =~= seq![192u8, 168, 1, 1]);
        assert(subnet_mask@ =~= seq![255u8, 255, 255, 0]);
        Desktop { interface: Ipv4Interface::new(sim, mac_addr(mac_seed), ip_address, subnet_mask, None) }
    }
}

impl Tickable for Desktop {
    open spec fn valid_in(&self, n: nat) -> bool {
        self.interface@.ethernet.port < n
    }

    /// One tick of the desktop: its interface receives its frames (answering ARP and echo
    /// requests); the IPv4 frames it keeps are dropped.
    fn tick(&mut self, sim: &mut CableSimulator, now: u128)
        ensures
            final(self).interface@ == receive_spec(old(self).interface@, old(sim)@.ports).0,
            final(sim)@.ports == receive_spec(old(self).interface@, old(sim)@.ports).1,
            final(self).interface@.ethernet == old(self).interface@.ethernet,
    {
        let _ = self.interface.receive(sim);
    }
}

} // verus!
