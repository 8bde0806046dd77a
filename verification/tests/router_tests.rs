#![allow(non_snake_case)]

use packet_tracer::network::device::cable::CableSimulator;
use packet_tracer::network::device::router::Router;
use packet_tracer::network::ethernet::{mac_addr, ByteSerializable};
use packet_tracer::network::ipv4::interface::Ipv4Interface;
use packet_tracer::network::ipv4::{IcmpFrame, Ipv4Frame, Ipv4Protocol};

const NOW: u128 = 0;

#[test]
fn Route_DoesNotExist_ReceiveDestinationUnreachable() {
    // Arrange
    let mut sim = CableSimulator::new();
    let mut i1 = Ipv4Interface::new(&mut sim, mac_addr(1), [192, 168, 1, 2], [255, 255, 255, 0], Some([192, 168, 1, 1]));
    let mut r = Router::from_seed(&mut sim, 2);

    r.enable_interface(0, [192, 168, 1, 1], [255, 255, 255, 0]);
    r.connect(&mut sim, 0, &mut i1);

    sim.add(i1.ethernet.port());
    sim.adds(r.ports());

    let data: Vec<u8> = "Hello, world!".as_bytes().into();

    // Act
    let _ = i1.send(&mut sim, [192, 168, 2, 1], data.clone(), Ipv4Protocol::Test); // ---- i1 -> r ARP
    sim.tick();

    r.route(&mut sim);
    sim.tick();

    i1.receive(&mut sim); // ---- i1 -> r send frame
    sim.tick();

    r.route(&mut sim);
    sim.tick();

    let i1_data = i1.receive(&mut sim);

    // Assert
    assert_eq!(i1_data.len(), 1);
    assert_eq!(
        i1_data[0],
        Ipv4Frame::new(
            i1.default_gateway.unwrap(),
            [192, 168, 1, 2],
            64,
            IcmpFrame::destination_unreachable(0, vec![]).to_bytes(),
            Ipv4Protocol::Icmp
        )
    );
}

#[test]
fn router_tests_Route_ConnectedInterfaceCanResolveDefaultGateway_ReceiveFrame() {
    // Arrange
    let mut sim = CableSimulator::new();
    let mut i1 = Ipv4Interface::new(&mut sim, mac_addr(10), [192, 168, 1, 1], [255, 255, 255, 0], Some([192, 168, 1, 0]));
    let mut r = Router::from_seed(&mut sim, 1);

    r.enable_interface(0, i1.default_gateway.unwrap(), [255, 255, 255, 0]);
    r.connect(&mut sim, 0, &mut i1);

    sim.add(i1.ethernet.port());
    sim.adds(r.ports());

    let data: Vec<u8> = "Hello, world!".as_bytes().into();

    // Act
    let _ = i1.send(&mut sim, i1.default_gateway.unwrap(), data.clone(), Ipv4Protocol::Test);
    sim.tick();

    r.route(&mut sim);
    sim.tick();

    i1.receive(&mut sim);
    sim.tick();

    // Assert
    let r_p0_receive = r.receive_port(&mut sim, 0);
    assert_eq!(r_p0_receive.len(), 1);
    assert_eq!(
        r_p0_receive[0],
        Ipv4Frame::new(i1.ip_address, i1.default_gateway.unwrap(), 64, data.clone(), Ipv4Protocol::Test)
    );
}

#[test]
fn router_tests_Route_SendAcrossSubnetworks_ReceiveFrame() {
    // Arrange
    let mut sim = CableSimulator::new();
    let mut i1 = Ipv4Interface::new(&mut sim, mac_addr(1), [192, 168, 1, 2], [255, 255, 255, 0], Some([192, 168, 1, 1]));
    let mut i2 = Ipv4Interface::new(&mut sim, mac_addr(2), [192, 168, 2, 2], [255, 255, 255, 0], Some([192, 168, 2, 1]));
    let mut r = Router::from_seed(&mut sim, 3);

    r.enable_interface(0, i1.default_gateway.unwrap(), [255, 255, 255, 0]);
    r.connect(&mut sim, 0, &mut i1);

    r.enable_interface(1, i2.default_gateway.unwrap(), [255, 255, 255, 0]);
    r.connect(&mut sim, 1, &mut i2);

    sim.adds(vec![i1.ethernet.port(), i2.ethernet.port()]);
    sim.adds(r.ports());

    let data: Vec<u8> = "Hello, world!".as_bytes().into();

    // Act
    let _ = i1.send(&mut sim, i2.ip_address, data.clone(), Ipv4Protocol::Test); // ---- i1 -> r Resolve mac addresses
    sim.tick();

    r.route(&mut sim);
    sim.tick();

    i1.receive(&mut sim); // ---- i1 -> r send frame
    sim.tick();

    r.route(&mut sim); // ---- r -> i2 Resolve mac addresses
    sim.tick();

    i2.receive(&mut sim);
    sim.tick();

    r.route(&mut sim); // ---- r -> i2 send frame
    sim.tick();

    let i2_data = i2.receive(&mut sim);

    // Assert
    assert_eq!(i2_data.len(), 1);
    assert_eq!(i2_data[0], Ipv4Frame::new(i1.ip_address, i2.ip_address, 63, data.clone(), Ipv4Protocol::Test));
}

#[test]
fn router_tests_Route_SendAcrossRoutersWithRipConfig_ReceiveFrame() {
    // Arrange
    let mut sim = CableSimulator::new();
    let mut i1 = Ipv4Interface::new(&mut sim, mac_addr(1), [192, 168, 1, 2], [255, 255, 255, 0], Some([192, 168, 1, 1]));
    let mut i2 = Ipv4Interface::new(&mut sim, mac_addr(2), [192, 168, 2, 2], [255, 255, 255, 0], Some([192, 168, 2, 1]));
    let mut r1 = Router::from_seed(&mut sim, 3);
    let mut r2 = Router::from_seed(&mut sim, 12);

    r1.enable_interface(0, i1.default_gateway.unwrap(), [255, 255, 255, 0]);
    r1.connect(&mut sim, 0, &mut i1);

    r2.enable_interface(0, i2.default_gateway.unwrap(), [255, 255, 255, 0]);
    r2.connect(&mut sim, 0, &mut i2);

    r1.enable_interface(1, [10, 0, 0, 1], [255, 255, 255, 252]);
    r2.enable_interface(1, [10, 0, 0, 2], [255, 255, 255, 252]);
    r1.enable_rip(&mut sim, 1, NOW);
    r2.enable_rip(&mut sim, 1, NOW);
    r1.connect_router(&mut sim, 1, &mut r2, 1);

    sim.adds(vec![i1.ethernet.port(), i2.ethernet.port()]);
    sim.adds(r1.ports());
    sim.adds(r2.ports());

    let data: Vec<u8> = "Hello, world!".as_bytes().into();

    // Act
    sim.tick();

    r1.route(&mut sim);
    r2.route(&mut sim);
    sim.tick();

    let _ = i1.send(&mut sim, i2.ip_address, data.clone(), Ipv4Protocol::Test);

    for _ in 0..6 {
        sim.tick();
        i1.receive(&mut sim);
        i2.receive(&mut sim);
        r1.route(&mut sim);
        r2.route(&mut sim);
    }

    sim.tick();
    let i2_data = i2.receive(&mut sim);

    // Assert
    assert_eq!(i2_data.len(), 1);
    assert_eq!(i2_data[0], Ipv4Frame::new(i1.ip_address, i2.ip_address, 62, data.clone(), Ipv4Protocol::Test));
}
