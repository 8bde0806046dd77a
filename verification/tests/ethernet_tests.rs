#![allow(non_snake_case)]

use packet_tracer::network::device::cable::CableSimulator;
use packet_tracer::network::ethernet::interface::EthernetInterface;
use packet_tracer::network::ethernet::{
    mac_addr, mac_broadcast_addr, ByteSerializable, EtherType, Ethernet2Frame, EthernetFrame,
};

fn eth2_data(value: u8) -> Vec<u8> {
    vec![value; 28]
}

fn eth802_3_data(value: u8) -> Vec<u8> {
    vec![value; 46]
}

fn eth2(destination: [u8; 6], source: [u8; 6], data: Vec<u8>, ether_type: EtherType) -> EthernetFrame {
    EthernetFrame::Ethernet2(Ethernet2Frame::new(destination, source, data, ether_type))
}

#[test]
fn Ethernet2Frame_ToBytes_ReturnsValidByteArray() {
    // Arrange
    let ethernet_frame = Ethernet2Frame::new(
        mac_broadcast_addr(),
        [0x01, 0x01, 0x01, 0x01, 0x01, 0x01],
        eth2_data(1),
        EtherType::Debug,
    );

    // Act
    let bytes = ethernet_frame.to_bytes();

    // Assert
    for i in 0..7 {
        assert_eq!(bytes[i], 0x55); // Preamble
    }

    assert_eq!(bytes[7], 0xD5); // Start Frame Delimiter

    for i in 0..6 {
        assert_eq!(bytes[8 + i], 0xFF); // Destination Address
    }

    for i in 0..6 {
        assert_eq!(bytes[14 + i], 0x01); // Source Address
    }

    assert_eq!(bytes[20..22], [0xFF, 0xFF]); // EtherType
    assert_eq!(bytes[22..50], eth2_data(1)); // Data
    assert_eq!(bytes[50..54], [0x00, 0x00, 0x00, 0x00]); // Frame Check Sequence
}

#[test]
fn Ethernet2Frame_FromBytes_CreatesIdenticalEthernetFrame() {
    // Arrange
    let ethernet_frame = Ethernet2Frame::new(
        mac_broadcast_addr(),
        [0x01, 0x01, 0x01, 0x01, 0x01, 0x01],
        eth2_data(1),
        EtherType::Debug,
    );

    let bytes = ethernet_frame.to_bytes();

    // Act
    let result = Ethernet2Frame::from_bytes(bytes);

    // Assert
    assert!(result.is_ok());
    assert_eq!(result.unwrap(), ethernet_frame);
}

#[test]
fn Ethernet802_3Frame_ToBytes_ReturnsValidByteArray() {
    // Arrange
    let ethernet_frame = Ethernet2Frame::new(
        mac_broadcast_addr(),
        [0x01, 0x01, 0x01, 0x01, 0x01, 0x01],
        eth2_data(1),
        EtherType::Debug,
    );

    // Act
    let bytes = ethernet_frame.to_bytes();

    // Assert
    for i in 0..7 {
        assert_eq!(bytes[i], 0x55); // Preamble
    }

    assert_eq!(bytes[7], 0xD5); // Start Frame Delimiter

    for i in 0..6 {
        assert_eq!(bytes[8 + i], 0xFF); // Destination Address
    }

    for i in 0..6 {
        assert_eq!(bytes[14 + i], 0x01); // Source Address
    }

    assert_eq!(bytes[20..22], [0xFF, 0xFF]); // EtherType
    assert_eq!(bytes[22..50], eth2_data(1)); // Data
    assert_eq!(bytes[50..54], [0x00, 0x00, 0x00, 0x00]); // Frame Check Sequence
}

#[test]
fn Ethernet802_3Frame_FromBytes_CreatesIdenticalEthernetFrame() {
    // Arrange
    let ethernet_frame = Ethernet2Frame::new(
        mac_broadcast_addr(),
        [0x01, 0x01, 0x01, 0x01, 0x01, 0x01],
        eth2_data(1),
        EtherType::Debug,
    );

    let bytes = ethernet_frame.to_bytes();

    // Act
    let result = Ethernet2Frame::from_bytes(bytes);

    // Assert
    assert!(result.is_ok());
    assert_eq!(result.unwrap(), ethernet_frame);
}

#[test]
fn Send_Uni_ReceiveFrame() {
    // Arrange
    let mut sim = CableSimulator::default();
    let mut i1 = EthernetInterface::new(&mut sim, mac_addr(1));
    let mut i2 = EthernetInterface::new(&mut sim, mac_addr(2));

    sim.adds(vec![i1.port(), i2.port()]);

    EthernetInterface::connect(&i1, &mut sim, &i2);

    // Act
    i1.send(&mut sim, i2.mac_address, EtherType::Debug, eth2_data(1));
    sim.tick();

    let i1_data = i1.receive(&mut sim);
    let i2_data = i2.receive(&mut sim);

    // Assert
    assert!(i1_data.is_empty());
    assert_eq!(i2_data.len(), 1);

    assert_eq!(
        i2_data[0],
        eth2(i2.mac_address, i1.mac_address, eth2_data(1), EtherType::Debug)
    );
}

#[test]
fn Send_Bi_ReceivesFrames() {
    // Arrange
    let mut sim = CableSimulator::default();
    let mut i1 = EthernetInterface::new(&mut sim, mac_addr(1));
    let mut i2 = EthernetInterface::new(&mut sim, mac_addr(2));

    sim.adds(vec![i1.port(), i2.port()]);

    EthernetInterface::connect(&i1, &mut sim, &i2);

    // Act
    i1.send(&mut sim, i2.mac_address, EtherType::Debug, eth2_data(1));
    i2.send(&mut sim, i1.mac_address, EtherType::Debug, eth2_data(2));
    sim.tick();

    let i1_data = i1.receive(&mut sim);
    let i2_data = i2.receive(&mut sim);

    // Assert
    assert_eq!(i1_data.len(), 1);
    assert_eq!(i2_data.len(), 1);

    assert_eq!(
        i1_data[0],
        eth2(i1.mac_address, i2.mac_address, eth2_data(2), EtherType::Debug)
    );

    assert_eq!(
        i2_data[0],
        eth2(i2.mac_address, i1.mac_address, eth2_data(1), EtherType::Debug)
    );
}

#[test]
fn Send_MultipleUniFrames_ReceiveAllData() {
    // Arrange
    let mut sim = CableSimulator::default();
    let mut i1 = EthernetInterface::new(&mut sim, mac_addr(1));
    let mut i2 = EthernetInterface::new(&mut sim, mac_addr(2));

    sim.adds(vec![i1.port(), i2.port()]);

    EthernetInterface::connect(&i1, &mut sim, &i2);

    // Act
    i1.send(&mut sim, i2.mac_address, EtherType::Debug, eth2_data(1));
    i1.send(&mut sim, i2.mac_address, EtherType::Debug, eth2_data(2));
    i1.send(&mut sim, i2.mac_address, EtherType::Debug, eth2_data(3));
    sim.tick();
    let received_data = i2.receive_eth2(&mut sim);

    // Assert
    assert_eq!(received_data.len(), 3);
    assert_eq!(received_data[0].data, eth2_data(1));
    assert_eq!(received_data[1].data, eth2_data(2));
    assert_eq!(received_data[2].data, eth2_data(3));
}

#[test]
fn Send_MultipleBiFrames_ReceivesAllData() {
    // Arrange
    let mut sim = CableSimulator::default();
    let mut i1 = EthernetInterface::new(&mut sim, mac_addr(1));
    let mut i2 = EthernetInterface::new(&mut sim, mac_addr(2));

    sim.adds(vec![i1.port(), i2.port()]);

    EthernetInterface::connect(&i1, &mut sim, &i2);

    // Act
    i1.send(&mut sim, i2.mac_address, EtherType::Debug, eth2_data(1));
    i1.send(&mut sim, i2.mac_address, EtherType::Debug, eth2_data(2));
    i1.send(&mut sim, i2.mac_address, EtherType::Debug, eth2_data(3));

    i2.send(&mut sim, i1.mac_address, EtherType::Debug, eth2_data(4));
    i2.send(&mut sim, i1.mac_address, EtherType::Debug, eth2_data(5));
    i2.send(&mut sim, i1.mac_address, EtherType::Debug, eth2_data(6));
    sim.tick();
    let i1_data = i1.receive_eth2(&mut sim);
    let i2_data = i2.receive_eth2(&mut sim);

    // Assert
    assert_eq!(i1_data.len(), 3);
    assert_eq!(i2_data.len(), 3);

    assert_eq!(i1_data[0].data, eth2_data(4));
    assert_eq!(i1_data[1].data, eth2_data(5));
    assert_eq!(i1_data[2].data, eth2_data(6));

    assert_eq!(i2_data[0].data, eth2_data(1));
    assert_eq!(i2_data[1].data, eth2_data(2));
    assert_eq!(i2_data[2].data, eth2_data(3));
}

#[test]
fn Send_ToSelf_ReturnsData() {
    // Arrange
    let mut sim = CableSimulator::default();
    let mut i1 = EthernetInterface::new(&mut sim, mac_addr(1));

    sim.add(i1.port());

    // Act
    i1.send(&mut sim, i1.mac_address, EtherType::Debug, eth2_data(1));
    sim.tick();

    let i1_data = i1.receive(&mut sim);

    // Assert
    assert_eq!(i1_data.len(), 1);
    assert_eq!(
        i1_data[0],
        eth2(i1.mac_address, i1.mac_address, eth2_data(1), EtherType::Debug)
    );
}

#[test]
fn Receive_NoData_ReturnsEmptyVec() {
    // Arrange
    let mut sim = CableSimulator::default();
    let mut i1 = EthernetInterface::new(&mut sim, mac_addr(1));

    // Act
    let i1_data = i1.receive(&mut sim);

    // Assert
    assert!(i1_data.is_empty());
}

#[test]
fn Receive_Ethernet2AndEthernet8023_ReturnsBothFrames() {
    // Arrange
    let mut sim = CableSimulator::default();
    let mut i1 = EthernetInterface::new(&mut sim, mac_addr(1));
    let mut i2 = EthernetInterface::new(&mut sim, mac_addr(2));

    sim.adds(vec![i1.port(), i2.port()]);

    EthernetInterface::connect(&i1, &mut sim, &i2);

    // Act
    i1.send(&mut sim, i2.mac_address, EtherType::Debug, eth2_data(1));
    i1.send802_3(&mut sim, i2.mac_address, eth802_3_data(2));
    sim.tick();

    let i2_data = i2.receive(&mut sim);

    // Assert
    assert_eq!(i2_data.len(), 2);

    assert!(matches!(i2_data[0], EthernetFrame::Ethernet2(_)));
    assert!(matches!(i2_data[1], EthernetFrame::Ethernet802_3(_)));
}
