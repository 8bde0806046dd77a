use packet_tracer::network::device::cable::CableSimulator;
use packet_tracer::network::device::desktop::Desktop;
use packet_tracer::network::device::router::Router;
use packet_tracer::network::device::switch::Switch;
use packet_tracer::repository::DeviceKind;
use packet_tracer::terminal::{parse_command, read_ipv4, read_unsigned, Command, TerminalState};
use packet_tracer::tick::{Tickable, NANOS_PER_SEC};

fn words(line: &str) -> Vec<String> {
    line.split_whitespace().map(String::from).collect()
}

#[test]
fn terminal_reads_addresses_and_numbers() {
    assert_eq!(read_ipv4("192.168.1.20"), Some([192, 168, 1, 20]));
    assert_eq!(read_ipv4("0.0.0.0"), Some([0, 0, 0, 0]));
    assert_eq!(read_ipv4("1.2.3"), None);
    assert_eq!(read_ipv4("1.2.3.4.5"), None);
    assert_eq!(read_ipv4("1.2.3.256"), None);
    assert_eq!(read_ipv4("01.2.3.4"), None);
    assert_eq!(read_ipv4("1..3.4"), None);
    assert_eq!(read_ipv4("a.b.c.d"), None);
    assert_eq!(read_unsigned("42", 100), Some(42));
    assert_eq!(read_unsigned("+7", 100), Some(7));
    assert_eq!(read_unsigned("101", 100), None);
    assert_eq!(read_unsigned("", 100), None);
    assert_eq!(read_unsigned("-1", 100), None);
}

#[test]
fn terminal_parses_commands_of_each_device() {
    assert_eq!(
        parse_command(DeviceKind::Desktop, words("ipset 192.168.1.5 255.255.255.0")),
        Ok(Command::IpSet([192, 168, 1, 5], [255, 255, 255, 0]))
    );
    assert_eq!(
        parse_command(DeviceKind::Desktop, words("ipset 192.168.1.5")),
        Err(String::from("Usage: ipset <ipv4 addr> <subnet mask>"))
    );
    assert_eq!(
        parse_command(DeviceKind::Desktop, words("ipset 1.2.3.256 255.0.0.0")),
        Err(String::from("Error: '1.2.3.256' is not a valid IPv4 address"))
    );
    assert_eq!(
        parse_command(DeviceKind::Desktop, words("ipset 1.2.3.4 255.0.0")),
        Err(String::from("Error: '255.0.0' is not a valid subnet mask"))
    );
    assert_eq!(parse_command(DeviceKind::Desktop, words("ping 10.0.0.1")), Ok(Command::Ping([10, 0, 0, 1])));
    assert_eq!(parse_command(DeviceKind::Desktop, words("ping")), Err(String::from("Usage: ping <ipv4 addr>")));
    assert_eq!(parse_command(DeviceKind::Desktop, words("enable 1 1.1.1.1 255.0.0.0")), Ok(Command::Invalid(String::from("enable"))));
    assert_eq!(
        parse_command(DeviceKind::Router, words("enable 1 1.1.1.1 255.0.0.0")),
        Ok(Command::Enable(1, [1, 1, 1, 1], [255, 0, 0, 0]))
    );
    assert_eq!(
        parse_command(DeviceKind::Router, words("enable 9 1.1.1.1 255.0.0.0")),
        Err(String::from("Error: '9' is not a valid port"))
    );
    assert_eq!(parse_command(DeviceKind::Router, words("rip +3")), Ok(Command::Rip(3)));
    assert_eq!(parse_command(DeviceKind::Router, words("rip")), Err(String::from("Usage: rip <port>")));
    assert_eq!(parse_command(DeviceKind::Switch, words("help me")), Ok(Command::Help));
    assert_eq!(parse_command(DeviceKind::Switch, words("ipconfig")), Ok(Command::Invalid(String::from("ipconfig"))));
    assert_eq!(parse_command(DeviceKind::Router, vec![]), Ok(Command::Invalid(String::new())));
}

#[test]
fn desktop_terminal_sets_and_prints_its_configuration() {
    let mut sim = CableSimulator::new();
    let mut d = Desktop::from_seed(&mut sim, 0x0A_0B);
    let mut t = TerminalState::new();
    d.input(&mut t, &mut sim, words("ipset 10.0.0.2 255.0.0.0"), 0);
    d.input(&mut t, &mut sim, words("dgateway 10.0.0.1"), 0);
    d.input(&mut t, &mut sim, words("ipconfig"), 0);
    d.input(&mut t, &mut sim, words("foo bar"), 0);
    d.input(&mut t, &mut sim, words("dgateway x"), 0);
    assert_eq!(
        t.out_buf,
        vec![
            "IP address set to 10.0.0.2 with subnet mask 255.0.0.0",
            "Default gateway set to 10.0.0.1",
            "IP Address: 10.0.0.2",
            "Subnet Mask: 255.0.0.0",
            "Default Gateway: 10.0.0.1",
            "MAC Address: 00:00:00:00:0A:0B",
            "Error: 'foo' is not a valid command",
            "Error: 'x' is not a valid IPv4 address",
        ]
    );
    assert_eq!(d.interface.ip_address(), [10, 0, 0, 2]);
    assert_eq!(d.interface.default_gateway(), Some([10, 0, 0, 1]));
}

#[test]
fn desktop_terminal_ping_gets_pong() {
    let mut sim = CableSimulator::new();
    let mut d1 = Desktop::from_seed(&mut sim, 1);
    let mut d2 = Desktop::from_seed(&mut sim, 2);
    d2.interface.set_address([192, 168, 1, 2], [255, 255, 255, 0]);
    sim.adds(vec![d1.interface.ethernet().port(), d2.interface.ethernet().port()]);
    d1.interface.connect(&mut sim, &mut d2.interface);
    let mut t = TerminalState::new();
    d1.input(&mut t, &mut sim, words("ping 192.168.1.2"), 0);
    assert_eq!(t.out_buf, vec!["Pinging 192.168.1.2..."]);
    assert!(t.awaiting_ping);
    for step in 0..4u128 {
        sim.tick();
        d2.tick(&mut sim, step);
        sim.tick();
        d1.terminal_tick(&mut t, &mut sim, step);
    }
    assert_eq!(t.out_buf, vec!["Pinging 192.168.1.2...", "Pong!"]);
    assert!(!t.awaiting_ping);
}

#[test]
fn desktop_terminal_ping_times_out() {
    let mut sim = CableSimulator::new();
    let mut d1 = Desktop::from_seed(&mut sim, 1);
    let mut t = TerminalState::new();
    d1.input(&mut t, &mut sim, words("ping 192.168.1.9"), 0);
    d1.terminal_tick(&mut t, &mut sim, NANOS_PER_SEC);
    assert!(t.awaiting_ping);
    d1.terminal_tick(&mut t, &mut sim, 3 * NANOS_PER_SEC);
    assert_eq!(t.out_buf, vec!["Pinging 192.168.1.9...", "'ping' timed out."]);
    assert!(!t.awaiting_ping);
    // A ping off the subnet without a gateway reports the error.
    d1.input(&mut t, &mut sim, words("ping 10.0.0.1"), 0);
    assert_eq!(t.out_buf[2], "Error: Destination is unreachable. No default gateway.");
}

#[test]
fn router_terminal_enables_ports_and_prints_routes() {
    let mut sim = CableSimulator::new();
    let mut r = Router::from_seed(&mut sim, 1);
    sim.adds(r.ports());
    let mut t = TerminalState::new();
    r.input(&mut t, &mut sim, words("enable 1 10.0.0.1 255.0.0.0"), 0);
    r.input(&mut t, &mut sim, words("rip 2"), 0);
    r.input(&mut t, &mut sim, words("rip 1"), 0);
    r.input(&mut t, &mut sim, words("routes"), 0);
    r.input(&mut t, &mut sim, words("enable 8 10.0.0.1 255.0.0.0"), 0);
    assert_eq!(
        t.out_buf,
        vec![
            "Port 1 enabled with IP 10.0.0.1 and subnet mask 255.0.0.0",
            "Error: Port 2 is disabled.",
            "RIP enabled on port 1",
            "Routing Table:",
            "10.0.0.0 -> 10.0.0.1 via port 1",
            "Error: '8' is not a valid port",
        ]
    );
    let mut t2 = TerminalState::new();
    r.input(&mut t2, &mut sim, words("ipconfig"), 0);
    assert_eq!(t2.out_buf.len(), 9);
    assert_eq!(t2.out_buf[0], "IP Configuration:");
    assert_eq!(t2.out_buf[1], "Port 0: IP: 0.0.0.0, Subnet: 0.0.0.0, Enabled: false, RIP: false");
    assert_eq!(t2.out_buf[2], "Port 1: IP: 10.0.0.1, Subnet: 255.0.0.0, Enabled: true, RIP: true");
}

#[test]
fn switch_terminal_helps_and_clears() {
    let mut sim = CableSimulator::new();
    let s = Switch::from_seed(&mut sim, 1, 1);
    let mut t = TerminalState::new();
    s.input(&mut t, words("help"));
    assert_eq!(t.out_buf, vec!["help: Prints this help message", "clear: Clear the terminal screen"]);
    s.input(&mut t, words("clear"));
    assert_eq!(t.out_buf.len(), 102);
    assert_eq!(t.out_buf[101], "");
    s.input(&mut t, words("stp 4"));
    assert_eq!(t.out_buf[102], "Error: 'stp' is not a valid command");
}
