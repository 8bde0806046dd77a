#![allow(non_snake_case)]

use packet_tracer::network::device::cable::CableSimulator;
use packet_tracer::network::ethernet::interface::EthernetInterface;
use packet_tracer::network::ethernet::{
    mac_addr, mac_broadcast_addr, ByteSerializable, EtherType, Ethernet2Frame, EthernetFrame,
};
use packet_tracer::network::ipv4::interface::Ipv4Interface;
use packet_tracer::network::ipv4::{ArpFrame, ArpOperation, Ipv4Frame, Ipv4Protocol};

fn eth2_data(value: u8) -> Vec<u8> {
    vec![value; 28]
}

fn eth2(destination: [u8; 6], source: [u8; 6], data: Vec<u8>, ether_type: EtherType) -> EthernetFrame {
    EthernetFrame::Ethernet2(Ethernet2Frame::new(destination, source, data, ether_type))
}

fn same_subnet_filled_arp_tables() -> (CableSimulator, Ipv4Interface, Ipv4Interface) {
    let mut sim = CableSimulator::new();

    let i1_ip = [192, 168, 1, 1];
    let i1_mac_addr = mac_addr(1);

    let i2_ip = [192, 168, 1, 2];
    let i2_mac_addr = mac_addr(2);

    let mut i1 = Ipv4Interface::from_arp_table(
        &mut sim,
        i1_mac_addr,
        i1_ip,
        [255, 255, 255, 0],
        None,
        vec![(i2_ip, i2_mac_addr)],
    );

    let mut i2 = Ipv4Interface::from_arp_table(
        &mut sim,
        i2_mac_addr,
        i2_ip,
        [255, 255, 255, 0],
        None,
        vec![(i1_ip, i1_mac_addr)],
    );

    sim.adds(vec![i1.ethernet.port(), i2.ethernet.port()]);

    i1.connect(&mut sim, &mut i2);

    (sim, i1, i2)
}

#[test]
fn Send_UnknownIpV4_ReceiveArpRequest() {
    // Arrange
    let mut sim = CableSimulator::new();
    let mut i1 = Ipv4Interface::new(&mut sim, mac_addr(1), [192, 168, 1, 1], [255, 255, 255, 0], None);
    let mut i2 = Ipv4Interface::new(&mut sim, mac_addr(2), [192, 168, 1, 2], [255, 255, 255, 0], None);

    sim.adds(vec![i1.ethernet.port(), i2.ethernet.port()]);
    i1.connect(&mut sim, &mut i2);

    // Act
    let i1_sent_arp = i1.send(&mut sim, i2.ip_address, eth2_data(1), Ipv4Protocol::Test) == Ok(false);
    sim.tick();

    let i1_data = i1.ethernet.receive(&mut sim);
    let i2_data = i2.ethernet.receive(&mut sim);

    // Assert
    assert!(i1_sent_arp);
    assert!(i1_data.is_empty());
    assert_eq!(i2_data.len(), 1);

    assert_eq!(
        i2_data[0],
        eth2(
            mac_broadcast_addr(),
            i1.ethernet.mac_address,
            ArpFrame::new(
                ArpOperation::Request,
                i1.ethernet.mac_address,
                i1.ip_address,
                mac_addr(0),
                i2.ip_address
            )
            .to_bytes(),
            EtherType::Arp
        )
    );
}

#[test]
fn Send_UnknownIpV4_ReceiveArpReply() {
    // Arrange
    let mut sim = CableSimulator::new();
    let mut i1 = Ipv4Interface::new(&mut sim, mac_addr(1), [192, 168, 1, 1], [255, 255, 255, 0], None);
    let mut i2 = Ipv4Interface::new(&mut sim, mac_addr(2), [192, 168, 1, 2], [255, 255, 255, 0], None);

    sim.adds(vec![i1.ethernet.port(), i2.ethernet.port()]);
    i1.connect(&mut sim, &mut i2);

    // Act
    let _ = i1.send(&mut sim, i2.ip_address, eth2_data(1), Ipv4Protocol::Test); // Fails, sends ARP request
    sim.tick();

    i2.receive(&mut sim); // Sends ARP reply

    sim.tick();

    let i1_data = i1.ethernet.receive(&mut sim);

    // Assert
    assert_eq!(i1_data.len(), 1);
    assert_eq!(
        i1_data[0],
        eth2(
            i1.ethernet.mac_address,
            i2.ethernet.mac_address,
            ArpFrame::new(
                ArpOperation::Reply,
                i2.ethernet.mac_address,
                i2.ip_address,
                i1.ethernet.mac_address,
                i1.ip_address
            )
            .to_bytes(),
            EtherType::Arp
        )
    );
}

#[test]
fn Send_UnknownIpV4AfterMultipleRetries_ReceiveMultipleArpRequests() {
    // Arrange
    let mut sim = CableSimulator::new();
    let mut i1 = Ipv4Interface::new(&mut sim, mac_addr(1), [192, 168, 1, 1], [255, 255, 255, 0], None);
    let mut i2 = Ipv4Interface::new(&mut sim, mac_addr(2), [192, 168, 1, 2], [255, 255, 255, 0], None);

    sim.adds(vec![i1.ethernet.port(), i2.ethernet.port()]);
    i1.connect(&mut sim, &mut i2);

    // Act
    let _ = i1.send(&mut sim, i2.ip_address, eth2_data(1), Ipv4Protocol::Test); // Fails, places in buffer
    sim.tick();

    for _ in 0..90 {
        i1.receive(&mut sim);
        sim.tick(); // 30 ticks to retry
    }

    let i2_data = i2.ethernet.receive(&mut sim);

    // Assert
    assert_eq!(i2_data.len(), 4); // 1 + (90 / 30) = 4
}

#[test]
fn Send_UniSameSubnet_ReceivesIpv4Frame() {
    // Arrange
    let (mut sim, mut i1, mut i2) = same_subnet_filled_arp_tables();

    // Act
    let i1_sent = i1.send(&mut sim, i2.ip_address, eth2_data(1), Ipv4Protocol::Test) == Ok(true); // Sends Ipv4 frame
    sim.tick();

    let i2_data = i2.receive(&mut sim);

    // Assert
    assert!(i1_sent);
    assert_eq!(i2_data.len(), 1);
    assert_eq!(
        i2_data[0],
        Ipv4Frame::new(i1.ip_address, i2.ip_address, 64, eth2_data(1), Ipv4Protocol::Test)
    );
}

#[test]
fn Send_UnknownIpv4AfterMultipleRetries_ReturnsOriginalRequest() {
    // Arrange
    let mut sim = CableSimulator::new();
    let mut i1 = Ipv4Interface::new(&mut sim, mac_addr(1), [192, 168, 1, 1], [255, 255, 255, 0], None);
    let mut i2 = Ipv4Interface::new(&mut sim, mac_addr(2), [192, 168, 1, 2], [255, 255, 255, 0], None);

    sim.adds(vec![i1.ethernet.port(), i2.ethernet.port()]);
    i1.connect(&mut sim, &mut i2);

    // Act
    let _ = i1.send(&mut sim, i2.ip_address, eth2_data(1), Ipv4Protocol::Test); // Fails, places in buffer
    sim.tick();

    for _ in 0..60 {
        i1.receive(&mut sim);
        sim.tick(); // 30 ticks to retry
    }

    i2.receive(&mut sim); // Sends ARP reply(s)

    sim.tick();
    i1.receive(&mut sim); // Receives arp reply, now table is filled, sends the waiting request
    sim.tick();

    let i2_data = i2.receive(&mut sim);

    // Assert
    assert_eq!(i2_data.len(), 1);
    assert_eq!(
        i2_data[0],
        Ipv4Frame::new(i1.ip_address, i2.ip_address, 64, eth2_data(1), Ipv4Protocol::Test)
    );
}

#[test]
fn Send_UniDifferentSubnet_SendsToDefaultGateway() {
    // Arrange
    let mut sim = CableSimulator::new();

    let default_gateway =
        Ipv4Interface::new(&mut sim, mac_addr(1), [192, 168, 1, 254], [255, 255, 255, 0], None);
    let mut i1 = Ipv4Interface::from_arp_table(
        &mut sim,
        mac_addr(2),
        [192, 168, 1, 1],
        [255, 255, 255, 0],
        Some(default_gateway.ip_address),
        vec![([192, 168, 1, 1], mac_addr(1))],
    );

    EthernetInterface::connect(&i1.ethernet, &mut sim, &default_gateway.ethernet);

    sim.adds(vec![i1.ethernet.port(), default_gateway.ethernet.port()]);

    // Act
    let i1_sent = i1.send(&mut sim, [192, 168, 2, 1], eth2_data(1), Ipv4Protocol::Test) == Ok(true);
    sim.tick();
    let mut gateway_ethernet = default_gateway.ethernet;
    let dg_received = gateway_ethernet.receive(&mut sim);

    // Assert
    assert!(!i1_sent);
    assert_eq!(dg_received.len(), 1);
}

#[test]
fn Send_FillsArpTableOnReceive_SendsWithoutArp() {
    // Arrange
    let mut sim = CableSimulator::new();
    let mut i1 = Ipv4Interface::from_arp_table(
        &mut sim,
        mac_addr(1),
        [192, 168, 1, 1],
        [255, 255, 255, 0],
        None,
        vec![([192, 168, 1, 2], mac_addr(2))], // Prefill with i2
    );
    let mut i2 = Ipv4Interface::new(&mut sim, mac_addr(2), [192, 168, 1, 2], [255, 255, 255, 0], None);

    sim.adds(vec![i1.ethernet.port(), i2.ethernet.port()]);
    i1.connect(&mut sim, &mut i2);

    // Act
    let i1_sends = i1.send(&mut sim, i2.ip_address, eth2_data(1), Ipv4Protocol::Test) == Ok(true);
    sim.tick();

    let i2_data = i2.receive(&mut sim); // Should fill ARP table passively
    sim.tick();

    let i2_sends = i2.send(&mut sim, i1.ip_address, eth2_data(2), Ipv4Protocol::Test) == Ok(true);
    sim.tick();

    let i1_data = i1.receive(&mut sim);

    // Assert
    assert!(i1_sends);
    assert!(i2_sends);
    assert_eq!(i2_data.len(), 1);
    assert_eq!(i1_data.len(), 1);
}

#[test]
fn Arp_TwoInterfaces_BothInterfacesFillArpTable() {
    // Arrange
    let (mut sim, mut i1, mut i2) = same_subnet_filled_arp_tables();

    // Act
    let i1_sent = i1.send(&mut sim, i2.ip_address, eth2_data(1), Ipv4Protocol::Test) == Ok(true); // Sends Ipv4 frame
    let i2_sent = i2.send(&mut sim, i1.ip_address, eth2_data(2), Ipv4Protocol::Test) == Ok(true); // Sends Ipv4 frame

    // Assert
    assert!(i1_sent);
    assert!(i2_sent);
}
