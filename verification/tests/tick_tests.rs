#![allow(non_snake_case)]

use packet_tracer::network::device::cable::CableSimulator;
use packet_tracer::network::device::router::Router;
use packet_tracer::network::device::switch::Switch;
use packet_tracer::network::ethernet::interface::EthernetInterface;
use packet_tracer::network::ethernet::{mac_addr, EtherType};
use packet_tracer::network::ipv4::interface::Ipv4Interface;
use packet_tracer::tick::{TimeProvider, Tickable, NANOS_PER_SEC};

fn eth2_data(value: u8) -> Vec<u8> {
    vec![value; 28]
}

#[test]
fn Tick_SwitchRstpInit_FinishesAfter15Seconds() {
    // Arrange
    let mut tp = TimeProvider::new();
    let mut sim = CableSimulator::new();
    let mut s = Switch::from_seed(&mut sim, 1, 1);
    let mut i1 = EthernetInterface::new(&mut sim, mac_addr(33));
    let mut i2 = EthernetInterface::new(&mut sim, mac_addr(44));

    sim.adds(vec![i1.port(), i2.port()]);
    sim.adds(s.ports());

    s.connect(&mut sim, 0, &i1);
    s.connect(&mut sim, 1, &i2);

    s.init_stp(&mut sim, tp.now());

    tp.freeze();

    // Act
    sim.tick();
    s.tick(&mut sim, tp.now());
    sim.tick();
    s.tick(&mut sim, tp.now());

    tp.advance(15 * NANOS_PER_SEC);

    s.tick(&mut sim, tp.now());

    i1.send(&mut sim, i2.mac_address, EtherType::Debug, eth2_data(0));
    sim.tick();
    s.forward(&mut sim);
    sim.tick();

    let i2_data = i2.receive_eth2(&mut sim);

    // Assert
    assert_eq!(i2_data.len(), 1);
}

#[test]
fn Tick_RouterRipMulticast_SendsEveryFiveSeconds() {
    // Arrange
    let mut tp = TimeProvider::new();
    let mut sim = CableSimulator::new();
    let mut r = Router::from_seed(&mut sim, 1);
    let mut i1 = Ipv4Interface::new(&mut sim, mac_addr(9), [192, 168, 1, 2], [255, 255, 255, 0], Some([192, 168, 1, 1]));

    sim.add(i1.ethernet.port());
    sim.adds(r.ports());

    r.connect(&mut sim, 0, &mut i1);
    r.enable_interface(0, [192, 168, 1, 1], [255, 255, 255, 0]);
    r.enable_rip(&mut sim, 0, tp.now());

    tp.freeze();

    // Act
    for _ in 0..2 {
        sim.tick();
        r.tick(&mut sim, tp.now());
        tp.advance(5 * NANOS_PER_SEC);
        sim.tick();
        r.tick(&mut sim, tp.now());
    }

    // Assert
    assert_eq!(i1.receive(&mut sim).len(), 2);
}
