use packet_tracer::network::ethernet::mac_addr;
use packet_tracer::repository::{DeviceId, DeviceKind, DeviceRepository};

fn sample_repository() -> DeviceRepository {
    let mut repo = DeviceRepository::default();
    repo.add(DeviceKind::Router);
    repo.add(DeviceKind::Router);
    repo.add(DeviceKind::Switch);
    repo.add(DeviceKind::Desktop);
    repo.add(DeviceKind::Desktop);
    repo
}

#[test]
fn repository_labels_number_each_kind() {
    let repo = sample_repository();
    assert_eq!(repo.label(DeviceId::Router(0)), Some("Router 1"));
    assert_eq!(repo.label(DeviceId::Router(1)), Some("Router 2"));
    assert_eq!(repo.label(DeviceId::Switch(0)), Some("Switch 1"));
    assert_eq!(repo.label(DeviceId::Desktop(0)), Some("Desktop 1"));
    assert_eq!(repo.label(DeviceId::Desktop(1)), Some("Desktop 2"));
    assert_eq!(repo.label(DeviceId::Router(2)), None);
    assert_eq!(repo.label(DeviceId::Switch(1)), None);
}

#[test]
fn repository_ports_len_by_kind() {
    let repo = sample_repository();
    assert_eq!(repo.ports_len(DeviceId::Router(1)), Some(8));
    assert_eq!(repo.ports_len(DeviceId::Switch(0)), Some(32));
    assert_eq!(repo.ports_len(DeviceId::Desktop(1)), Some(1));
    assert_eq!(repo.ports_len(DeviceId::Desktop(2)), None);
    assert_eq!(DeviceId::Switch(7).as_usize(), 7);
}

#[test]
fn repository_mac_addresses_follow_the_seed() {
    let repo = sample_repository();
    // Router 1 takes the seed 1 and 8 addresses; router 2 the seed 10.
    assert_eq!(repo.router(0).unwrap().mac_addr(0), mac_addr(1));
    assert_eq!(repo.router(0).unwrap().mac_addr(7), mac_addr(8));
    assert_eq!(repo.router(1).unwrap().mac_addr(0), mac_addr(10));
    // The switch takes the seed 19 and the addresses after it; its priority is its number.
    let switch = repo.switch(0).unwrap();
    assert_eq!(switch.mac_address(), mac_addr(19));
    assert_eq!(switch.bridge_priority(), 1);
    // The desktops take the seeds 52 and 54.
    assert_eq!(repo.desktop(0).unwrap().interface.ethernet().mac_address, mac_addr(52));
    assert_eq!(repo.desktop(1).unwrap().interface.ethernet().mac_address, mac_addr(54));
    assert!(repo.router(2).is_none());
    assert!(repo.desktop(2).is_none());
}

#[test]
fn repository_simulator_carries_every_port() {
    let repo = sample_repository();
    let sim = repo.simulator();
    // 2 routers, one switch, two desktops.
    for id in 0..(2 * 8 + 32 + 2) {
        assert_eq!(sim.port(id).connection(), None);
    }
    let switch_ports = repo.switch(0).unwrap().ports();
    assert_eq!(switch_ports[0], 16);
    assert_eq!(repo.desktop(1).unwrap().interface.ethernet().port(), 49);
}

#[test]
fn repository_connect_cables_and_records_both_ends() {
    let mut repo = sample_repository();
    repo.connect(DeviceId::Switch(0), 2, DeviceId::Desktop(0), 0);
    assert_eq!(repo.adjacent(DeviceId::Switch(0), 2), Some((DeviceId::Desktop(0), 0)));
    assert_eq!(repo.adjacent(DeviceId::Desktop(0), 0), Some((DeviceId::Switch(0), 2)));
    let a = repo.switch(0).unwrap().ports()[2];
    let b = repo.desktop(0).unwrap().interface.ethernet().port();
    assert_eq!(repo.simulator().port(a).connection(), Some(b));
    assert_eq!(repo.simulator().port(b).connection(), Some(a));
}

#[test]
fn repository_reconnect_replaces_the_old_cable() {
    let mut repo = sample_repository();
    repo.connect(DeviceId::Switch(0), 2, DeviceId::Desktop(0), 0);
    repo.connect(DeviceId::Desktop(0), 0, DeviceId::Router(1), 4);
    assert_eq!(repo.adjacent(DeviceId::Switch(0), 2), None);
    assert_eq!(repo.adjacent(DeviceId::Desktop(0), 0), Some((DeviceId::Router(1), 4)));
    assert_eq!(repo.adjacent(DeviceId::Router(1), 4), Some((DeviceId::Desktop(0), 0)));
    let s = repo.switch(0).unwrap().ports()[2];
    let d = repo.desktop(0).unwrap().interface.ethernet().port();
    let r = repo.router(1).unwrap().ports()[4];
    assert_eq!(repo.simulator().port(s).connection(), None);
    assert_eq!(repo.simulator().port(d).connection(), Some(r));
    assert_eq!(repo.simulator().port(r).connection(), Some(d));
}

#[test]
fn repository_connect_to_itself_does_nothing() {
    let mut repo = sample_repository();
    repo.connect(DeviceId::Router(0), 1, DeviceId::Router(0), 2);
    assert_eq!(repo.adjacent(DeviceId::Router(0), 1), None);
    assert_eq!(repo.adjacent(DeviceId::Router(0), 2), None);
    let a = repo.router(0).unwrap().ports()[1];
    assert_eq!(repo.simulator().port(a).connection(), None);
}

#[test]
fn repository_disconnect_unplugs_both_ends() {
    let mut repo = sample_repository();
    repo.connect(DeviceId::Desktop(1), 0, DeviceId::Switch(0), 5);
    repo.connect(DeviceId::Desktop(0), 0, DeviceId::Switch(0), 6);
    repo.disconnect(DeviceId::Switch(0), 5);
    assert_eq!(repo.adjacent(DeviceId::Switch(0), 5), None);
    assert_eq!(repo.adjacent(DeviceId::Desktop(1), 0), None);
    // The other cable stays.
    assert_eq!(repo.adjacent(DeviceId::Switch(0), 6), Some((DeviceId::Desktop(0), 0)));
    let s5 = repo.switch(0).unwrap().ports()[5];
    let s6 = repo.switch(0).unwrap().ports()[6];
    let d1 = repo.desktop(1).unwrap().interface.ethernet().port();
    assert_eq!(repo.simulator().port(s5).connection(), None);
    assert_eq!(repo.simulator().port(d1).connection(), None);
    assert!(repo.simulator().port(s6).connection().is_some());
    // Disconnecting a port without a cable changes nothing.
    repo.disconnect(DeviceId::Router(0), 3);
    assert_eq!(repo.adjacent(DeviceId::Switch(0), 6), Some((DeviceId::Desktop(0), 0)));
}

#[test]
fn repository_update_keeps_the_topology() {
    let mut repo = sample_repository();
    repo.connect(DeviceId::Desktop(0), 0, DeviceId::Switch(0), 0);
    repo.connect(DeviceId::Desktop(1), 0, DeviceId::Switch(0), 1);
    repo.connect(DeviceId::Router(0), 0, DeviceId::Switch(0), 2);
    for step in 0..5u128 {
        repo.update(step);
    }
    assert_eq!(repo.adjacent(DeviceId::Switch(0), 1), Some((DeviceId::Desktop(1), 0)));
    let s2 = repo.switch(0).unwrap().ports()[2];
    let r0 = repo.router(0).unwrap().ports()[0];
    assert_eq!(repo.simulator().port(s2).connection(), Some(r0));
    for id in 0..(2 * 8 + 32 + 2) {
        assert!(!repo.simulator().has_outgoing(id));
    }
}
