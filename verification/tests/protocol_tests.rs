use packet_tracer::inspect::{array_to_string, PacketKind};
use packet_tracer::network::device::cable::CableSimulator;
use packet_tracer::network::device::desktop::Desktop;
use packet_tracer::network::device::router::{RipFrame, RipRoute, Route, Router};
use packet_tracer::network::device::switch::{bridge_id, compare_bids, BpduFrame, Switch};
use packet_tracer::network::ethernet::interface::EthernetInterface;
use packet_tracer::network::ethernet::{
    is_mac_multicast_or_broadcast, mac_addr, mac_bpdu_addr, mac_broadcast_addr, ByteSerializable,
    EtherType, Ethernet2Frame, Ethernet802_3Frame, EthernetFrame, FrameKind, ParseError,
};
use packet_tracer::network::ipv4::interface::Ipv4Interface;
use packet_tracer::network::ipv4::{
    network_address, ArpFrame, ArpOperation, IcmpFrame, Ipv4Frame, Ipv4Protocol,
};
use packet_tracer::tick::{TickTimer, Tickable, TimeProvider, NANOS_PER_SEC};

#[test]
fn rip_frame_roundtrip_keeps_routes() {
    let mut frame = RipFrame::new_response();
    frame.routes.push(RipRoute::new([192, 168, 1, 0], [255, 255, 255, 0], [0, 0, 0, 0], 0));
    frame.routes.push(RipRoute::new([10, 0, 0, 0], [255, 255, 255, 252], [0, 0, 0, 0], 7));
    let bytes = frame.to_bytes();
    assert_eq!(bytes.len(), 2 + 2 * 20);
    assert_eq!(bytes[0], 2);
    assert_eq!(bytes[1], 2);
    assert_eq!(bytes[2..4], [0x00, 0x02]); // address family
    assert_eq!(bytes[6..10], [192, 168, 1, 0]);
    assert_eq!(bytes[38..42], [0, 0, 0, 7]); // metric of the second route
    assert_eq!(RipFrame::from_bytes(bytes), Ok(frame));
}

#[test]
fn rip_frame_ignores_trailing_bytes_and_rejects_runts() {
    let mut bytes = vec![1, 2];
    bytes.extend_from_slice(&[0; 25]);
    let frame = RipFrame::from_bytes(bytes).unwrap();
    assert_eq!(frame.command, 1);
    assert_eq!(frame.routes.len(), 1);
    assert_eq!(RipFrame::from_bytes(vec![2]), Err(ParseError::Runt(FrameKind::Rip)));
    assert_eq!(RipRoute::from_bytes(vec![0; 19]), Err(ParseError::Invalid(FrameKind::RipRoute)));
    assert_eq!(RipFrame::new_request().command, 1);
}

#[test]
fn route_new_has_metric_zero() {
    let r = Route::new([192, 168, 1, 1], [255, 255, 255, 0], 3);
    assert_eq!(r.metric, 0);
    assert_eq!(r.port, 3);
}

#[test]
fn bpdu_roundtrip_and_runt() {
    let b = BpduFrame::hello(mac_addr(7), 0x0001_0000_0000_0001, 3, bridge_id(&mac_addr(7), 2), 5);
    assert!(b.is_designated());
    let bytes = b.to_bytes();
    assert_eq!(bytes.len(), 47);
    assert_eq!(BpduFrame::from_bytes(bytes), Ok(b));
    assert_eq!(BpduFrame::from_bytes(vec![0; 34]), Err(ParseError::Runt(FrameKind::Bpdu)));
}

#[test]
fn bpdu_flags_set_each_bit() {
    assert_eq!(BpduFrame::flags(true, false, 0, false, false, false), 0x01);
    assert_eq!(BpduFrame::flags(false, true, 0, false, false, false), 0x02);
    assert_eq!(BpduFrame::flags(false, false, 3, false, false, false), 0x0C);
    assert_eq!(BpduFrame::flags(false, false, 0, true, false, false), 0x10);
    assert_eq!(BpduFrame::flags(false, false, 0, false, true, false), 0x20);
    assert_eq!(BpduFrame::flags(false, false, 0, false, false, true), 0x40);
}

#[test]
fn bridge_ids_order_by_priority_then_address() {
    assert_eq!(bridge_id(&mac_addr(1), 5), (1 << 16) | 5);
    let low_priority = bridge_id(&mac_addr(100), 1);
    let high_priority = bridge_id(&mac_addr(1), 2);
    assert_eq!(compare_bids(low_priority, high_priority), Some(true));
    assert_eq!(compare_bids(high_priority, low_priority), Some(false));
    let a = bridge_id(&mac_addr(35), 1);
    let b = bridge_id(&mac_addr(100), 1);
    assert_eq!(compare_bids(a, b), Some(true));
    assert_eq!(compare_bids(a, a), None);
}

#[test]
fn mac_group_addresses() {
    assert!(is_mac_multicast_or_broadcast(&mac_broadcast_addr()));
    assert!(is_mac_multicast_or_broadcast(&mac_bpdu_addr()));
    assert!(!is_mac_multicast_or_broadcast(&mac_addr(2)));
    // The group bit of the first byte is cleared: the address is always unicast.
    assert_eq!(mac_addr(0x0102_0304_0506), [0, 2, 3, 4, 5, 6]);
    assert_eq!(mac_addr(0x0202_0304_0506), [2, 2, 3, 4, 5, 6]);
}

#[test]
fn ethernet_frames_reject_runts_and_giants() {
    assert_eq!(Ethernet2Frame::from_bytes(vec![0; 45]), Err(ParseError::Runt(FrameKind::Ethernet)));
    assert_eq!(Ethernet2Frame::from_bytes(vec![0; 1501]), Err(ParseError::Giant(FrameKind::Ethernet)));
    assert_eq!(Ethernet802_3Frame::from_bytes(vec![0; 63]), Err(ParseError::Runt(FrameKind::Ethernet)));
    assert_eq!(Ethernet802_3Frame::from_bytes(vec![0; 1519]), Err(ParseError::Giant(FrameKind::Ethernet)));
    assert_eq!(
        ParseError::Runt(FrameKind::Ethernet).message(),
        "Insufficient bytes for Ethernet frame; Runt frame."
    );
    assert_eq!(ParseError::Giant(FrameKind::Icmp).message(), "Oversized ICMP frame; Giant frame.");
    assert_eq!(ParseError::Invalid(FrameKind::Arp).message(), "Invalid ARP frame");
    assert_eq!(ParseError::Runt(FrameKind::Rip).message(), "RIP frame must be at least 2 bytes.");
    assert_eq!(ParseError::Invalid(FrameKind::RipRoute).message(), "RIP route must be 20 bytes.");
    assert_eq!(EtherType::from_value(0x0806), EtherType::Arp);
    assert_eq!(EtherType::from_value(0x1234), EtherType::Debug);
    assert_eq!(EtherType::Ipv4.value(), 0x0800);
}

#[test]
fn ethernet_802_3_roundtrip() {
    let f = Ethernet802_3Frame::new(mac_bpdu_addr(), mac_addr(3), vec![9; 46]);
    let bytes = f.to_bytes();
    assert_eq!(EthernetFrame::from_bytes(bytes.clone()), Ok(EthernetFrame::Ethernet802_3(f.clone())));
    assert_eq!(Ethernet802_3Frame::from_bytes(bytes), Ok(f));
}

#[test]
fn ipv4_and_arp_and_icmp_roundtrips() {
    let f = Ipv4Frame::new([1, 2, 3, 4], [5, 6, 7, 8], 9, vec![1, 2, 3], Ipv4Protocol::Rip);
    assert_eq!(f.total_length, 23);
    assert_eq!(Ipv4Frame::from_bytes(f.to_bytes()), Ok(f));
    assert_eq!(Ipv4Frame::from_bytes(vec![0; 19]), Err(ParseError::Runt(FrameKind::Ipv4)));
    let t = Ipv4Frame::test([1, 1, 1, 1], [2, 2, 2, 2], 64, 7);
    assert_eq!(t.data, vec![7]);
    assert_eq!(t.protocol, 255);

    let a = ArpFrame::new(ArpOperation::Reply, mac_addr(1), [10, 0, 0, 1], mac_addr(2), [10, 0, 0, 2]);
    assert_eq!(ArpFrame::from_bytes(a.to_bytes()), Ok(a));

    let i = IcmpFrame::echo_request(1, 2, vec![3]);
    assert_eq!(i.icmp_type, 8);
    assert_eq!(IcmpFrame::from_bytes(i.to_bytes()), Ok(i));
    assert_eq!(IcmpFrame::echo_reply(0, 0, vec![]).icmp_type, 0);
    assert_eq!(IcmpFrame::destination_unreachable(1, vec![]).icmp_type, 3);
    assert_eq!(network_address(&[192, 168, 5, 77], &[255, 255, 255, 0]), [192, 168, 5, 0]);
}

#[test]
fn cable_tick_moves_frames_in_order_and_drops_unplugged() {
    let mut sim = CableSimulator::new();
    let a = sim.new_port();
    let b = sim.new_port();
    let c = sim.new_port();
    sim.adds(vec![a, b, c]);
    sim.connect(a, b);
    sim.send(a, vec![1]);
    sim.send(a, vec![2]);
    sim.send(c, vec![3]);
    sim.tick();
    assert!(!sim.has_outgoing(a));
    assert!(!sim.has_outgoing(c));
    assert_eq!(sim.consume_incoming(b), vec![vec![1], vec![2]]);
    assert!(sim.consume_incoming(a).is_empty());
    sim.disconnect(b);
    sim.send(a, vec![4]);
    sim.tick();
    assert!(sim.consume_incoming(b).is_empty());
    assert_eq!(sim.port(a).connection(), None);
}

#[test]
fn timer_fires_once_or_repeats() {
    let mut timer = TickTimer::new();
    timer.schedule(1, 2, false, 0);
    timer.schedule(1, 9, false, 0); // already scheduled: kept as it was
    timer.schedule(2, 3, true, 0);
    assert!(timer.ready(NANOS_PER_SEC).is_empty());
    assert_eq!(timer.ready(2 * NANOS_PER_SEC), vec![1]);
    assert_eq!(timer.ready(3 * NANOS_PER_SEC), vec![1, 2]);
    timer.tick(3 * NANOS_PER_SEC);
    assert!(timer.ready(3 * NANOS_PER_SEC).is_empty());
    assert_eq!(timer.ready(6 * NANOS_PER_SEC), vec![2]);
}

#[test]
fn time_provider_freezes_and_advances() {
    let mut tp = TimeProvider::new();
    assert_eq!(tp.last_frozen(), None);
    tp.freeze();
    let t = tp.now();
    assert_eq!(tp.last_frozen(), Some(t));
    tp.advance(5);
    assert_eq!(tp.now(), t + 5);
    tp.unfreeze();
    assert!(tp.now() >= 5);
}

#[test]
fn packets_are_classified_by_protocol() {
    let arp = ArpFrame::new(ArpOperation::Request, mac_addr(1), [10, 0, 0, 1], mac_addr(0), [10, 0, 0, 2]);
    let arp_bytes = Ethernet2Frame::new(mac_broadcast_addr(), mac_addr(1), arp.to_bytes(), EtherType::Arp).to_bytes();
    match PacketKind::from_bytes(&arp_bytes) {
        PacketKind::Arp(f) => assert_eq!(f.source_address, mac_addr(1)),
        other => panic!("expected ARP, got {:?}", other),
    }

    let icmp = Ipv4Frame::new([1, 1, 1, 1], [2, 2, 2, 2], 64, IcmpFrame::echo_request(0, 0, vec![]).to_bytes(), Ipv4Protocol::Icmp);
    let icmp_bytes = Ethernet2Frame::new(mac_addr(2), mac_addr(4), icmp.to_bytes(), EtherType::Ipv4).to_bytes();
    let kind = PacketKind::from_bytes(&icmp_bytes);
    assert!(matches!(kind, PacketKind::Icmp(_)));
    assert_eq!(kind.source_mac(), mac_addr(4));

    let rip = Ipv4Frame::new([1, 1, 1, 1], [224, 0, 0, 0], 64, RipFrame::new_response().to_bytes(), Ipv4Protocol::Rip);
    let rip_bytes = Ethernet2Frame::new(mac_addr(2), mac_addr(5), rip.to_bytes(), EtherType::Ipv4).to_bytes();
    assert!(matches!(PacketKind::from_bytes(&rip_bytes), PacketKind::Rip(_)));

    let bpdu_bytes = Ethernet802_3Frame::new(mac_bpdu_addr(), mac_addr(6), vec![0; 47]).to_bytes();
    assert!(matches!(PacketKind::from_bytes(&bpdu_bytes), PacketKind::Bpdu(_)));
}

#[test]
fn array_to_string_stops_at_the_first_zero() {
    assert_eq!(array_to_string(b"ping 10.0.0.1\0garbage"), "ping 10.0.0.1");
    assert_eq!(array_to_string(b"no zero"), "no zero");
    assert_eq!(array_to_string(b"\0abc"), "");
    assert_eq!(array_to_string(&[0xff, b'a', 0]), "\u{fffd}a");
}

#[test]
fn desktop_answers_ping() {
    let mut sim = CableSimulator::new();
    let mut d = Desktop::from_seed(&mut sim, 5);
    assert_eq!(d.interface.ip_address, [192, 168, 1, 1]);
    assert_eq!(d.interface.subnet_mask, [255, 255, 255, 0]);
    assert_eq!(d.interface.ethernet.mac_address, mac_addr(5));
    let mut other = Ipv4Interface::from_arp_table(&mut sim, mac_addr(6), [192, 168, 1, 2], [255, 255, 255, 0], None, vec![([192, 168, 1, 1], mac_addr(5))]);
    sim.adds(vec![d.interface.ethernet.port(), other.ethernet.port()]);
    other.connect(&mut sim, &mut d.interface);

    assert_eq!(other.send_icmp(&mut sim, [192, 168, 1, 1], packet_tracer::network::ipv4::IcmpType::EchoRequest), Ok(true));
    sim.tick();
    d.tick(&mut sim, 0); // answers the echo request
    sim.tick();
    let received = other.receive(&mut sim);
    assert_eq!(received.len(), 1);
    assert_eq!(received[0].protocol, 1);
    assert_eq!(IcmpFrame::from_bytes(received[0].data.clone()).unwrap().icmp_type, 0);
}

#[test]
fn switch_and_router_accessors() {
    let mut sim = CableSimulator::new();
    let s = Switch::from_seed(&mut sim, 10, 7);
    assert_eq!(s.ports().len(), 32);
    assert_eq!(s.mac_address(), mac_addr(10));
    assert_eq!(s.bridge_priority(), 7);
    assert_eq!(s.bid(), bridge_id(&mac_addr(10), 7));
    assert!(s.is_root_bridge());
    assert_eq!(s.root_cost(), 0);

    let mut r = Router::from_seed(&mut sim, 100);
    assert_eq!(r.ports().len(), 8);
    assert_eq!(r.mac_addr(3), mac_addr(103));
    assert!(!r.is_port_up(3));
    r.enable_interface(3, [10, 0, 0, 1], [255, 0, 0, 0]);
    assert!(r.is_port_up(3));
    r.disconnect(&mut sim, 3);
    assert!(!r.is_port_up(3));
}

#[test]
fn router_forgets_routes_of_a_disconnected_port() {
    let mut sim = CableSimulator::new();
    let mut i1 = Ipv4Interface::new(&mut sim, mac_addr(1), [192, 168, 1, 2], [255, 255, 255, 0], Some([192, 168, 1, 1]));
    let mut i2 = Ipv4Interface::new(&mut sim, mac_addr(2), [192, 168, 2, 2], [255, 255, 255, 0], Some([192, 168, 2, 1]));
    let mut r = Router::from_seed(&mut sim, 3);
    r.enable_interface(0, [192, 168, 1, 1], [255, 255, 255, 0]);
    r.enable_interface(1, [192, 168, 2, 1], [255, 255, 255, 0]);
    r.connect(&mut sim, 0, &mut i1);
    r.connect(&mut sim, 1, &mut i2);
    sim.adds(vec![i1.ethernet.port(), i2.ethernet.port()]);
    sim.adds(r.ports());
    r.disconnect(&mut sim, 1); // the route to 192.168.2.0 is dropped

    let _ = i1.send(&mut sim, [192, 168, 2, 2], vec![1, 2, 3], Ipv4Protocol::Test);
    let mut answers = Vec::new();
    for _ in 0..3 {
        sim.tick();
        r.route(&mut sim);
        sim.tick();
        answers.extend(i1.receive(&mut sim));
    }
    assert!(answers.iter().any(|f| f.protocol == 1 && f.data[0] == 3)); // destination unreachable
    assert!(i2.receive(&mut sim).is_empty());
}

#[test]
fn ethernet_interface_disconnect_unplugs_both_ends() {
    let mut sim = CableSimulator::new();
    let mut i1 = EthernetInterface::new(&mut sim, mac_addr(1));
    let i2 = EthernetInterface::new(&mut sim, mac_addr(2));
    sim.adds(vec![i1.port(), i2.port()]);
    i1.connect(&mut sim, &i2);
    i1.disconnect(&mut sim);
    assert_eq!(sim.port(i2.port()).connection(), None);
    i1.send(&mut sim, i2.mac_address, EtherType::Debug, vec![0; 28]);
    sim.tick();
    let mut i2 = i2;
    assert!(i2.receive(&mut sim).is_empty());
}

#[test]
fn arp_retries_ask_for_the_default_gateway() {
    let mut sim = CableSimulator::new();
    let gateway = [192, 168, 1, 254];
    let mut i1 = Ipv4Interface::new(&mut sim, mac_addr(1), [192, 168, 1, 1], [255, 255, 255, 0], Some(gateway));
    let mut listener = EthernetInterface::new(&mut sim, mac_addr(2));
    sim.adds(vec![i1.ethernet.port(), listener.port()]);
    i1.ethernet.connect(&mut sim, &listener);

    assert_eq!(i1.send(&mut sim, [10, 0, 0, 5], vec![7], Ipv4Protocol::Test), Ok(false));
    for _ in 0..30 {
        let _ = i1.receive(&mut sim);
    }
    sim.tick();
    let frames = listener.receive_eth2(&mut sim);
    assert_eq!(frames.len(), 2); // the first request and one retry
    for f in frames {
        let arp = ArpFrame::from_bytes(f.data).unwrap();
        assert_eq!(arp.target_ip, gateway);
    }
}

#[test]
fn send_without_gateway_reports_the_reason() {
    let mut sim = CableSimulator::new();
    let mut i1 = Ipv4Interface::new(&mut sim, mac_addr(1), [192, 168, 1, 1], [255, 255, 255, 0], None);
    assert_eq!(
        i1.send(&mut sim, [10, 0, 0, 5], vec![7], Ipv4Protocol::Test),
        Err("Destination is unreachable. No default gateway.")
    );
}

#[test]
fn time_provider_now_at_adds_the_offset_or_gives_the_frozen_time() {
    let mut tp = TimeProvider::new();
    assert_eq!(tp.now_at(1_000), 1_000);
    assert_eq!(tp.now_at(u128::MAX), u128::MAX);
    assert!(!tp.can_unfreeze());
    tp.freeze();
    let t = tp.now();
    assert_eq!(tp.now_at(7), t);
    assert!(tp.can_unfreeze());
    tp.advance(10);
    assert_eq!(tp.now_at(7), t + 10);
}

#[test]
fn array_to_string_reads_ascii() {
    assert_eq!(array_to_string(&[104, 105, 0, 120]), "hi");
    assert_eq!(array_to_string(&[104, 105]), "hi");
    assert_eq!(array_to_string(&[]), "");
}

#[test]
fn router_disconnect_unplugs_a_disabled_port() {
    let mut sim = CableSimulator::new();
    let mut i1 = Ipv4Interface::new(&mut sim, mac_addr(1), [192, 168, 1, 2], [255, 255, 255, 0], None);
    let mut r = Router::from_seed(&mut sim, 3);
    r.connect(&mut sim, 4, &mut i1);
    let p = r.ports()[4];
    assert_eq!(sim.port(p).connection(), Some(i1.ethernet.port()));
    r.disconnect(&mut sim, 4);
    assert_eq!(sim.port(p).connection(), None);
    assert_eq!(sim.port(i1.ethernet.port()).connection(), None);
    assert!(!r.is_port_up(4));
}
