#![allow(non_snake_case)]

use packet_tracer::network::device::cable::CableSimulator;
use packet_tracer::network::device::switch::{BpduFrame, Switch};
use packet_tracer::network::ethernet::interface::EthernetInterface;
use packet_tracer::network::ethernet::{
    mac_addr, mac_bpdu_addr, mac_broadcast_addr, ByteSerializable, EtherType, Ethernet2Frame,
    EthernetFrame,
};

const NOW: u128 = 0;

fn eth2_data(value: u8) -> Vec<u8> {
    vec![value; 28]
}

fn eth2(destination: [u8; 6], source: [u8; 6], data: Vec<u8>, ether_type: EtherType) -> EthernetFrame {
    EthernetFrame::Ethernet2(Ethernet2Frame::new(destination, source, data, ether_type))
}

#[test]
fn switch_tests_Forward_ReceiveNotInTable_FloodsFrame() {
    // Arrange
    let mut sim = CableSimulator::new();
    let mut i1 = EthernetInterface::new(&mut sim, mac_addr(1));
    let mut i2 = EthernetInterface::new(&mut sim, mac_addr(2));
    let mut i3 = EthernetInterface::new(&mut sim, mac_addr(3));
    let mut switch = Switch::from_seed(&mut sim, 4, 1);

    switch.connect(&mut sim, 0, &i1);
    switch.connect(&mut sim, 1, &i2);
    switch.connect(&mut sim, 2, &i3);

    sim.adds(vec![i1.port(), i2.port(), i3.port()]);

    sim.adds(switch.ports());

    // Act
    i1.send(&mut sim, i2.mac_address, EtherType::Debug, eth2_data(1));
    sim.tick();
    switch.forward(&mut sim);
    sim.tick();

    let i1_data = i1.receive(&mut sim);
    let i2_data = i2.receive(&mut sim);
    let i3_data = i3.receive(&mut sim);

    // Assert
    assert!(i1_data.is_empty());

    assert_eq!(i2_data.len(), 1);
    assert_eq!(i2_data[0], eth2(i2.mac_address, i1.mac_address, eth2_data(1), EtherType::Debug));

    assert_eq!(i3_data.len(), 1);
    assert_eq!(i3_data[0], eth2(i2.mac_address, i1.mac_address, eth2_data(1), EtherType::Debug));
}

#[test]
fn switch_tests_Forward_ReceiveInTable_ForwardsFrame() {
    // Arrange
    let mut sim = CableSimulator::new();
    let mut i1 = EthernetInterface::new(&mut sim, mac_addr(1));
    let mut i2 = EthernetInterface::new(&mut sim, mac_addr(2));
    let mut i3 = EthernetInterface::new(&mut sim, mac_addr(3));
    let mut switch = Switch::from_seed(&mut sim, 4, 1);

    switch.connect(&mut sim, 0, &i1);
    switch.connect(&mut sim, 1, &i2);
    switch.connect(&mut sim, 2, &i3);

    sim.adds(vec![i1.port(), i2.port(), i3.port()]);

    sim.adds(switch.ports());

    i1.send(&mut sim, i2.mac_address, EtherType::Debug, eth2_data(1));
    sim.tick();
    switch.forward(&mut sim); // Switch learns MAC address of i1
    sim.tick();
    i2.receive(&mut sim); // dump incoming data
    i3.receive(&mut sim); // dump incoming data

    // Act
    i2.send(&mut sim, i1.mac_address, EtherType::Debug, eth2_data(1));
    sim.tick();
    switch.forward(&mut sim);
    sim.tick();

    let i1_data = i1.receive(&mut sim);
    let received_data3 = i3.receive(&mut sim);

    // Assert
    assert_eq!(i1_data.len(), 1);
    assert_eq!(i1_data[0], eth2(i1.mac_address, i2.mac_address, eth2_data(1), EtherType::Debug));

    assert!(received_data3.is_empty());
}

#[test]
fn switch_tests_Forward_ReceiveBroadcastAddr_DoesNotUpdateTableAndFloodsFrame() {
    // Arrange
    let mut sim = CableSimulator::new();
    let mut i1 = EthernetInterface::new(&mut sim, mac_addr(1));
    let mut i2 = EthernetInterface::new(&mut sim, mac_addr(2));
    let mut i3 = EthernetInterface::new(&mut sim, mac_addr(3));
    let mut switch = Switch::from_seed(&mut sim, 4, 1);

    switch.connect(&mut sim, 0, &i1);
    switch.connect(&mut sim, 1, &i2);
    switch.connect(&mut sim, 2, &i3);

    sim.adds(vec![i1.port(), i2.port(), i3.port()]);

    sim.adds(switch.ports());

    // Act
    i1.send(&mut sim, mac_broadcast_addr(), EtherType::Debug, eth2_data(1)); // Send broadcast
    sim.tick();
    switch.forward(&mut sim);
    sim.tick();

    let i2_data = i2.receive(&mut sim); // Receive broadcast
    let i3_data = i3.receive(&mut sim); // Receive broadcast

    i1.send(&mut sim, mac_broadcast_addr(), EtherType::Debug, eth2_data(2)); // Send broadcast
    sim.tick();
    switch.forward(&mut sim);
    sim.tick();

    let i2_data2 = i2.receive(&mut sim); // Receive broadcast
    let i3_data2 = i3.receive(&mut sim); // Receive broadcast

    // Assert
    let frame1 = eth2(mac_broadcast_addr(), i1.mac_address, eth2_data(1), EtherType::Debug);

    assert_eq!(i2_data.len(), 1);
    assert_eq!(i2_data[0], frame1);

    assert_eq!(i3_data.len(), 1);
    assert_eq!(i3_data[0], frame1);

    let frame2 = eth2(mac_broadcast_addr(), i1.mac_address, eth2_data(2), EtherType::Debug);

    assert_eq!(i2_data2.len(), 1);
    assert_eq!(i2_data2[0], frame2);

    assert_eq!(i3_data2.len(), 1);
    assert_eq!(i3_data2[0], frame2);
}

#[test]
fn switch_tests_SpanningTree_Init_SendsBpdus() {
    // Arrange
    let mut sim = CableSimulator::new();
    let mut i1 = EthernetInterface::new(&mut sim, mac_addr(1));
    let mut switch = Switch::from_seed(&mut sim, 2, 1);

    let switch_port = 0;
    switch.connect(&mut sim, switch_port, &i1);

    sim.add(i1.port());
    sim.adds(switch.ports());

    // Act
    switch.init_stp(&mut sim, NOW);
    sim.tick();

    let i1_data = i1.receive(&mut sim);

    // Assert
    assert_eq!(i1_data.len(), 1);
    let e802_3 = match &i1_data[0] {
        EthernetFrame::Ethernet802_3(frame) => frame,
        _ => panic!("Expected Ethernet802_3 frame"),
    };

    assert_eq!(e802_3.destination_address, mac_bpdu_addr());

    let bpdu = match BpduFrame::from_bytes(e802_3.data.clone()) {
        Ok(bpdu) => bpdu,
        Err(_) => panic!("Expected BpduFrame"),
    };

    assert_eq!(
        bpdu,
        BpduFrame::new(
            mac_bpdu_addr(),
            switch.mac_address(),
            false,
            BpduFrame::flags(true, true, 0, false, true, false),
            switch.bid(),
            0,
            switch.bid(),
            switch_port as u16
        )
    )
}

#[test]
fn switch_tests_SpanningTree_Init_DiscardsEndDevices() {
    // Arrange
    let mut sim = CableSimulator::new();
    let mut i1 = EthernetInterface::new(&mut sim, mac_addr(1));
    let mut i2 = EthernetInterface::new(&mut sim, mac_addr(2));
    let mut switch = Switch::from_seed(&mut sim, 3, 1);

    let i1_s_port = 0;
    let i2_s_port = 1;
    switch.connect(&mut sim, i1_s_port, &i1);
    switch.connect(&mut sim, i2_s_port, &i2);

    sim.adds(vec![i1.port(), i2.port()]);
    sim.adds(switch.ports());

    // Act
    i1.send(&mut sim, i2.mac_address, EtherType::Debug, eth2_data(1));
    switch.init_stp(&mut sim, NOW);
    sim.tick();
    switch.forward(&mut sim);
    sim.tick();

    let i2_data = i2.receive_eth2(&mut sim);

    // Assert
    assert!(i2_data.is_empty());
}

#[test]
fn SpanningTree_SingleSwitch_ElectsSelfAsRoot() {
    // Arrange
    let mut sim = CableSimulator::new();
    let mut switch = Switch::from_seed(&mut sim, 1, 1);

    sim.adds(switch.ports());

    // Act
    switch.init_stp(&mut sim, NOW);
    sim.tick();
    switch.forward(&mut sim);
    sim.tick();
    switch.finish_init_stp(NOW);

    // Assert
    assert!(switch.is_root_bridge());
    assert!(switch.root_port().is_none());
    assert_eq!(switch.designated_ports().len(), 32);
}

#[test]
fn SpanningTree_FinishInit_NoMoreBpdus() {
    // Arrange
    let mut sim = CableSimulator::new();
    let mut switch = Switch::from_seed(&mut sim, 1, 1);

    sim.adds(switch.ports());

    // Act
    switch.init_stp(&mut sim, NOW);
    let has_outgoing1 = sim.has_outgoing(switch.ports()[0]);
    sim.tick();

    switch.forward(&mut sim);
    let has_outgoing2 = sim.has_outgoing(switch.ports()[0]);
    sim.tick();

    switch.finish_init_stp(NOW);
    let has_outgoing3 = sim.has_outgoing(switch.ports()[0]);
    sim.tick();

    // Assert
    assert!(has_outgoing1);
    assert!(!has_outgoing2);
    assert!(!has_outgoing3);
}

#[test]
fn switch_tests_SpanningTree_FinishInit_ForwardsEndDevices() {
    // Arrange
    let mut sim = CableSimulator::new();
    let mut i1 = EthernetInterface::new(&mut sim, mac_addr(1));
    let mut i2 = EthernetInterface::new(&mut sim, mac_addr(2));
    let mut switch = Switch::from_seed(&mut sim, 3, 1);

    let i1_s_port = 0;
    let i2_s_port = 1;
    switch.connect(&mut sim, i1_s_port, &i1);
    switch.connect(&mut sim, i2_s_port, &i2);

    sim.adds(vec![i1.port(), i2.port()]);
    sim.adds(switch.ports());

    // Act
    switch.init_stp(&mut sim, NOW);
    sim.tick();

    switch.forward(&mut sim);
    i1.send(&mut sim, i2.mac_address, EtherType::Debug, eth2_data(1));
    switch.finish_init_stp(NOW);

    sim.tick();
    switch.forward(&mut sim);
    sim.tick();

    let i2_data = i2.receive_eth2(&mut sim);

    // Assert
    assert_eq!(i2_data.len(), 1);
}

#[test]
fn SpanningTree_TwoConnectedFinishStp_BpdusEnd() {
    // Arrange
    let mut sim = CableSimulator::new();
    let mut s1 = Switch::from_seed(&mut sim, 1, 1);
    let mut s2 = Switch::from_seed(&mut sim, 35, 2);

    let s1_s2_port = 0;
    let s2_s1_port = 1;
    s1.connect_switch(&mut sim, s1_s2_port, &mut s2, s2_s1_port);

    sim.adds(s1.ports());
    sim.adds(s2.ports());

    // Act
    s1.init_stp(&mut sim, NOW);
    s2.init_stp(&mut sim, NOW);
    let s1_has_outgoing1 = sim.has_outgoing(s1.ports()[0]);
    let s2_has_outgoing1 = sim.has_outgoing(s2.ports()[1]);

    sim.tick();
    s1.forward(&mut sim);
    s2.forward(&mut sim);
    let s1_has_outgoing2 = sim.has_outgoing(s1.ports()[0]);
    let s2_has_outgoing2 = sim.has_outgoing(s2.ports()[1]);

    sim.tick();
    let s1_has_outgoing3 = sim.has_outgoing(s1.ports()[0]);
    let s2_has_outgoing3 = sim.has_outgoing(s2.ports()[1]);

    // Assert
    assert!(s1_has_outgoing1);
    assert!(s2_has_outgoing1);

    assert!(s1_has_outgoing2);
    assert!(s2_has_outgoing2);

    assert!(!s1_has_outgoing3);
    assert!(!s2_has_outgoing3);
}

#[test]
fn SpanningTree_TwoConnectedFinishStp_ElectsRootPortAndDesignatedPort() {
    // Arrange
    let mut sim = CableSimulator::new();
    let mut s1 = Switch::from_seed(&mut sim, 1, 1);
    let mut s2 = Switch::from_seed(&mut sim, 35, 2);

    let s1_s2_port = 0;
    let s2_s1_port = 1;
    s1.connect_switch(&mut sim, s1_s2_port, &mut s2, s2_s1_port);

    sim.adds(s1.ports());
    sim.adds(s2.ports());

    // Act
    s1.init_stp(&mut sim, NOW);
    s2.init_stp(&mut sim, NOW);
    sim.tick();
    s1.forward(&mut sim);
    s2.forward(&mut sim);
    sim.tick();
    s1.forward(&mut sim);
    s2.forward(&mut sim);
    s1.finish_init_stp(NOW);
    s2.finish_init_stp(NOW);

    // Assert
    assert!(s1.root_port().is_none());
    assert!(s1.is_root_bridge());
    assert_eq!(s1.root_cost(), 0);
    assert!(s1.designated_ports().contains(&s1_s2_port));
    assert_eq!(s1.discarding_ports().len(), 0);

    assert_eq!(s2.root_bid(), s1.bid());
    assert_eq!(s2.root_port(), Some(s2_s1_port));
    assert!(!s2.designated_ports().contains(&s2_s1_port));
    assert_eq!(s2.discarding_ports().len(), 0);
}

#[test]
fn SpanningTree_BiConnectEquivalentPriorities_ElectsWithBidTiebreaker() {
    // Arrange
    let mut sim = CableSimulator::new();
    let mut s1 = Switch::from_seed(&mut sim, 100, 1); // Same priority, higher mac address
    let mut s2 = Switch::from_seed(&mut sim, 35, 1); // Same priority, lower mac address    => S2 should win

    let s1_s2_port = 0;
    let s2_s1_port = 1;
    s1.connect_switch(&mut sim, s1_s2_port, &mut s2, s2_s1_port);

    sim.adds(s1.ports());
    sim.adds(s2.ports());

    // Act
    s1.init_stp(&mut sim, NOW);
    s2.init_stp(&mut sim, NOW);
    sim.tick();
    s1.forward(&mut sim);
    s2.forward(&mut sim);
    sim.tick();
    s1.finish_init_stp(NOW);
    s2.finish_init_stp(NOW);

    // Assert
    assert_eq!(s1.root_port(), Some(s1_s2_port));
    assert_eq!(s1.root_bid(), s2.bid());
    assert_eq!(s1.root_cost(), 1);
    assert!(!s1.designated_ports().contains(&s1_s2_port));
    assert_eq!(s1.discarding_ports().len(), 0);

    assert!(s2.is_root_bridge());
    assert_eq!(s2.root_port(), None);
    assert!(s2.designated_ports().contains(&s2_s1_port));
    assert_eq!(s2.discarding_ports().len(), 0);
}

// A complete graph of 3 switches and 2 end devices:
//      s1
//     /  \
// i2-s2---s3-i1
fn complete_network() -> (
    CableSimulator,
    Switch,
    Switch,
    Switch,
    EthernetInterface,
    EthernetInterface,
    (usize, usize, usize, usize, usize, usize),
) {
    let mut sim = CableSimulator::new();
    let mut s1 = Switch::from_seed(&mut sim, 1, 1);
    let mut s2 = Switch::from_seed(&mut sim, 33, 2);
    let mut s3 = Switch::from_seed(&mut sim, 65, 3);

    let i1 = EthernetInterface::new(&mut sim, mac_addr(100));
    let i2 = EthernetInterface::new(&mut sim, mac_addr(200));

    let s1_s2_port = 0;
    let s1_s3_port = 1;

    let s2_s1_port = 0;
    let s2_s3_port = 1;

    let s3_s1_port = 0;
    let s3_s2_port = 1;

    s1.connect_switch(&mut sim, s1_s2_port, &mut s2, s2_s1_port);
    s1.connect_switch(&mut sim, s1_s3_port, &mut s3, s3_s1_port);
    s2.connect_switch(&mut sim, s2_s3_port, &mut s3, s3_s2_port);

    s3.connect(&mut sim, 3, &i1);
    s2.connect(&mut sim, 2, &i2);

    sim.adds(s1.ports());
    sim.adds(s2.ports());
    sim.adds(s3.ports());
    sim.adds(vec![i1.port(), i2.port()]);
    (sim, s1, s2, s3, i1, i2, (s1_s2_port, s1_s3_port, s2_s1_port, s2_s3_port, s3_s1_port, s3_s2_port))
}

#[test]
fn SpanningTree_CompleteNetwork_BpdusEnd() {
    // Arrange
    let (mut sim, mut s1, mut s2, mut s3, _, _, (s1_s2_port, s1_s3_port, s2_s1_port, s2_s3_port, s3_s1_port, s3_s2_port)) =
        complete_network();

    // Act
    s1.init_stp(&mut sim, NOW);
    s2.init_stp(&mut sim, NOW);
    s3.init_stp(&mut sim, NOW);
    let s1_has_outgoing_s2_1 = sim.has_outgoing(s1.ports()[s1_s2_port]);
    let s1_has_outgoing_s3_1 = sim.has_outgoing(s1.ports()[s1_s3_port]);
    let s2_has_outgoing_s1_1 = sim.has_outgoing(s2.ports()[s2_s1_port]);
    let s2_has_outgoing_s3_1 = sim.has_outgoing(s2.ports()[s2_s3_port]);
    let s3_has_outgoing_s1_1 = sim.has_outgoing(s3.ports()[s3_s1_port]);
    let s3_has_outgoing_s2_1 = sim.has_outgoing(s3.ports()[s3_s2_port]);

    sim.tick();
    s1.forward(&mut sim);
    s2.forward(&mut sim);
    s3.forward(&mut sim);
    let s1_has_outgoing_s2_2 = sim.has_outgoing(s1.ports()[s1_s2_port]);
    let s1_has_outgoing_s3_2 = sim.has_outgoing(s1.ports()[s1_s3_port]);
    let s2_has_outgoing_s1_2 = sim.has_outgoing(s2.ports()[s2_s1_port]);
    let s2_has_outgoing_s3_2 = sim.has_outgoing(s2.ports()[s2_s3_port]);
    let s3_has_outgoing_s1_2 = sim.has_outgoing(s3.ports()[s3_s1_port]);
    let s3_has_outgoing_s2_2 = sim.has_outgoing(s3.ports()[s3_s2_port]);

    sim.tick();
    s1.forward(&mut sim);
    s2.forward(&mut sim);
    s3.forward(&mut sim);
    let s1_has_outgoing_s2_3 = sim.has_outgoing(s1.ports()[s1_s2_port]);
    let s1_has_outgoing_s3_3 = sim.has_outgoing(s1.ports()[s1_s3_port]);
    let s2_has_outgoing_s1_3 = sim.has_outgoing(s2.ports()[s2_s1_port]);
    let s2_has_outgoing_s3_3 = sim.has_outgoing(s2.ports()[s2_s3_port]);
    let s3_has_outgoing_s1_3 = sim.has_outgoing(s3.ports()[s3_s1_port]);
    let s3_has_outgoing_s2_3 = sim.has_outgoing(s3.ports()[s3_s2_port]);

    // Assert
    assert!(s1_has_outgoing_s2_1);
    assert!(s1_has_outgoing_s3_1);
    assert!(s2_has_outgoing_s1_1);
    assert!(s2_has_outgoing_s3_1);
    assert!(s3_has_outgoing_s1_1);
    assert!(s3_has_outgoing_s2_1);

    assert!(s1_has_outgoing_s2_2);
    assert!(s1_has_outgoing_s3_2);
    assert!(s2_has_outgoing_s1_2);
    assert!(s2_has_outgoing_s3_2);
    assert!(s3_has_outgoing_s1_2);
    assert!(s3_has_outgoing_s2_2);

    assert!(!s1_has_outgoing_s2_3); // Everything settled
    assert!(!s1_has_outgoing_s3_3);
    assert!(!s2_has_outgoing_s1_3);
    assert!(!s2_has_outgoing_s3_3);
    assert!(!s3_has_outgoing_s1_3);
    assert!(!s3_has_outgoing_s2_3);
}

fn stp_complete_network() -> (
    CableSimulator,
    Switch,
    Switch,
    Switch,
    EthernetInterface,
    EthernetInterface,
    (usize, usize, usize, usize, usize, usize),
) {
    let (mut sim, mut s1, mut s2, mut s3, mut i1, mut i2, ports) = complete_network();

    s1.init_stp(&mut sim, NOW);
    s2.init_stp(&mut sim, NOW);
    s3.init_stp(&mut sim, NOW);

    for _ in 0..3 {
        sim.tick();
        s1.forward(&mut sim);
        s2.forward(&mut sim);
        s3.forward(&mut sim);
    }
    i1.receive(&mut sim); // dump incoming data, just bpdu frames we don't care about
    i2.receive(&mut sim); // dump incoming data, just bpdu frames we don't care about
    s1.finish_init_stp(NOW);
    s2.finish_init_stp(NOW);
    s3.finish_init_stp(NOW);
    (sim, s1, s2, s3, i1, i2, ports)
}

#[test]
fn SpanningTree_CompleteGraph_BlocksPort() {
    // Arrange
    let (_, s1, s2, s3, _, _, (s1_s2_port, s1_s3_port, s2_s1_port, s2_s3_port, s3_s1_port, s3_s2_port)) =
        stp_complete_network();

    // Assert
    assert!(s1.is_root_bridge());
    assert!(s1.root_port().is_none());
    assert!(s1.designated_ports().contains(&s1_s2_port) && s1.designated_ports().contains(&s1_s3_port));
    assert_eq!(s1.discarding_ports().len(), 0);

    assert_eq!(s2.root_bid(), s1.bid());
    assert_eq!(s2.root_port(), Some(s2_s1_port));
    assert!(s2.designated_ports().contains(&s2_s3_port));
    assert_eq!(s2.discarding_ports().len(), 0);

    assert_eq!(s3.root_bid(), s1.bid());
    assert_eq!(s3.root_port(), Some(s3_s1_port));
    assert!(!s3.designated_ports().contains(&s3_s2_port));
    assert!(s3.discarding_ports().contains(&s3_s2_port));
}

//                      (DP) s1 (DP)
//                      /         \
//                  (RP)           (RP)
//      i2 --- (DP) s2 (DP)----(BP) s3 (DP) --- i1
//
// i1 to i2 = i1 -> s3 -> s1 -> s2 -> i2
// i2 to i1 = i2 -> s2 -> s1 -> s3 -> i1
#[test]
fn SpanningTree_CompleteGraphFinishedStp_Ethernet2FramesDoNotUseBlockedPort() {
    // Arrange
    let (mut sim, mut s1, mut s2, mut s3, mut i1, mut i2, _) = stp_complete_network();

    // Act
    i1.send(&mut sim, i2.mac_address, EtherType::Debug, eth2_data(1));
    i2.send(&mut sim, i1.mac_address, EtherType::Debug, eth2_data(2));

    for _ in 0..3 {
        sim.tick();
        s1.forward(&mut sim);
        s2.forward(&mut sim);
        s3.forward(&mut sim);

        assert!(i1.receive(&mut sim).is_empty());
        assert!(i2.receive(&mut sim).is_empty());
    }

    sim.tick();

    let i1_data = i1.receive(&mut sim);
    let i2_data = i2.receive(&mut sim);

    // Assert
    assert_eq!(i1_data.len(), 1);
    assert_eq!(i1_data[0], eth2(i1.mac_address, i2.mac_address, eth2_data(2), EtherType::Debug));

    assert_eq!(i2_data.len(), 1);
    assert_eq!(i2_data[0], eth2(i2.mac_address, i1.mac_address, eth2_data(1), EtherType::Debug));
}

#[test]
fn SpanningTree_ExistingNetworkReceiveTcnBpdu_UpdateDesignatedPorts() {
    // Arrange
    //
    //      s1
    //     /  \
    // i2-s2---s3-i1
    //          |
    //          s4
    //
    let (mut sim, mut s1, mut s2, mut s3, _, _, _) = stp_complete_network();
    let mut s4 = Switch::from_seed(&mut sim, 97, 4);
    let s3_s4_port = 2;
    let s4_s3_port = 0;

    s3.connect_switch(&mut sim, s3_s4_port, &mut s4, s4_s3_port);
    sim.adds(s4.ports());

    // Act
    s4.init_stp(&mut sim, NOW);
    for _ in 0..10 {
        sim.tick();
        s1.forward(&mut sim);
        s2.forward(&mut sim);
        s3.forward(&mut sim);
        s4.forward(&mut sim);
    }

    // Assert
    assert!(s3.designated_ports().contains(&s3_s4_port));

    assert_eq!(s4.root_bid(), s1.bid());
    assert_eq!(s4.root_port(), Some(s4_s3_port));
}

#[test]
fn SpanningTree_ExistingNetworkRecieveTcnBpdu_UpdateRoot() {
    // Arrange
    //
    //      s1
    //     /  \
    // i2-s2---s3-i1
    //          |
    //          s4
    //
    let (mut sim, mut s1, mut s2, mut s3, _, _, (s1_s2_port, s1_s3_port, s2_s1_port, s2_s3_port, s3_s1_port, s3_s2_port)) =
        stp_complete_network();
    let mut s4 = Switch::from_seed(&mut sim, 97, 0);
    let s3_s4_port = 2;
    let s4_s3_port = 0;

    s3.connect_switch(&mut sim, s3_s4_port, &mut s4, s4_s3_port);
    sim.adds(s4.ports());

    // Act
    s4.init_stp(&mut sim, NOW);
    for _ in 0..100 {
        sim.tick();
        s1.forward(&mut sim);
        s2.forward(&mut sim);
        s3.forward(&mut sim);
        s4.forward(&mut sim);
    }
    s4.finish_init_stp(NOW);

    // Assert
    assert_eq!(s4.root_bid(), s4.bid());
    assert!(s4.root_port().is_none());
    assert_eq!(s4.root_cost(), 0);
    assert_eq!(s4.discarding_ports().len(), 0);
    assert!(s4.designated_ports().contains(&s4_s3_port));

    assert_eq!(s3.root_bid(), s4.bid());
    assert_eq!(s3.root_port(), Some(s3_s4_port));
    assert_eq!(s3.root_cost(), 1);
    assert_eq!(s3.discarding_ports().len(), 0);
    assert!(s3.designated_ports().contains(&s3_s1_port));
    assert!(s3.designated_ports().contains(&s3_s2_port));

    assert_eq!(s2.root_bid(), s4.bid());
    assert_eq!(s2.root_port(), Some(s2_s3_port));
    assert_eq!(s2.root_cost(), 2);
    assert!(!s2.designated_ports().contains(&s2_s1_port));
    assert!(s2.discarding_ports().contains(&s2_s1_port));

    assert_eq!(s1.root_bid(), s4.bid());
    assert_eq!(s1.root_port(), Some(s1_s3_port));
    assert_eq!(s1.root_cost(), 2);
    assert!(s1.designated_ports().contains(&s1_s2_port));
    assert_eq!(s1.discarding_ports().len(), 0);
}

#[test]
fn SpanningTree_DisconnectedRootPort_ElectSelfAsRootBridge() {
    // Arrange
    let mut sim = CableSimulator::new();
    let mut s1 = Switch::from_seed(&mut sim, 1, 1);
    let mut s2 = Switch::from_seed(&mut sim, 35, 2);

    let s1_s2_port = 0;
    let s2_s1_port = 1;
    s1.connect_switch(&mut sim, s1_s2_port, &mut s2, s2_s1_port);

    sim.adds(s1.ports());
    sim.adds(s2.ports());

    s1.init_stp(&mut sim, NOW);
    s2.init_stp(&mut sim, NOW);
    sim.tick();

    s1.forward(&mut sim);
    s2.forward(&mut sim);
    sim.tick();

    s1.forward(&mut sim);
    s2.forward(&mut sim);
    sim.tick();

    s1.finish_init_stp(NOW);
    s2.finish_init_stp(NOW);

    // Act
    s1.disconnect(&mut sim, s1_s2_port);
    s2.disconnect(&mut sim, s2_s1_port);

    // Assert
    assert!(s1.is_root_bridge());
    assert!(s1.root_port().is_none());
    assert_eq!(s1.designated_ports().len(), 32);
    assert_eq!(s1.discarding_ports().len(), 0);

    assert!(s2.is_root_bridge());
    assert!(s2.root_port().is_none());
    assert_eq!(s2.designated_ports().len(), 32);
    assert_eq!(s2.discarding_ports().len(), 0);
}

#[test]
fn SpanningTree_CompleteNetworkDisconnectRootPort_ElectsNewRoot() {
    // Arrange
    let (mut sim, mut s1, mut s2, mut s3, _, _, (_, _, s2_s1_port, _, s3_s1_port, s3_s2_port)) = stp_complete_network();

    // Act
    s2.disconnect(&mut sim, s2_s1_port);
    s3.disconnect(&mut sim, s3_s1_port);

    for _ in 0..2 {
        sim.tick();
        s1.forward(&mut sim);
        s2.forward(&mut sim);
        s3.forward(&mut sim);
    }

    // Assert
    assert!(s2.is_root_bridge());
    assert!(s2.root_port().is_none());
    assert_eq!(s2.designated_ports().len(), 32);
    assert_eq!(s2.discarding_ports().len(), 0);

    assert_eq!(s3.root_bid(), s2.bid());
    assert_eq!(s3.root_port(), Some(s3_s2_port));
    assert_eq!(s3.discarding_ports().len(), 0);
}

//                          s1
//                      (DP)   (DP)
//                      /         \
//                  (RP)           (RP)
//                   s2 (DP)----(BP) s3
#[test]
fn SpanningTree_RemoveRedundancy_UnblocksPort() {
    // Arrange
    let (mut sim, mut s1, mut s2, mut s3, _, _, (s1_s2_port, s1_s3_port, s2_s1_port, s2_s3_port, s3_s1_port, s3_s2_port)) =
        stp_complete_network();

    // Act
    s2.disconnect(&mut sim, s2_s1_port);

    for _ in 0..3 {
        sim.tick();
        s1.forward(&mut sim);
        s2.forward(&mut sim);
        s3.forward(&mut sim);
    }

    // Assert
    assert!(s1.is_root_bridge());
    assert!(s1.root_port().is_none());
    assert!(s1.designated_ports().contains(&s1_s2_port) && s1.designated_ports().contains(&s1_s3_port));
    assert_eq!(s1.discarding_ports().len(), 0);

    assert_eq!(s2.root_bid(), s1.bid());
    assert_eq!(s2.root_port(), Some(s2_s3_port));
    assert!(!s2.designated_ports().contains(&s2_s3_port));
    assert_eq!(s2.discarding_ports().len(), 0);

    assert_eq!(s3.root_bid(), s1.bid());
    assert_eq!(s3.root_port(), Some(s3_s1_port));
    assert!(s3.designated_ports().contains(&s3_s2_port));
    assert!(s3.discarding_ports().is_empty());
}
