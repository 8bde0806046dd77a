# packet_tracer

A small network simulator: Ethernet, ARP, IPv4 and ICMP frames, interfaces that send
and receive them over simulated cables, learning switches that run a rapid spanning
tree, routers that route and learn routes by RIP, desktops, and a repository that
adds devices, cables them together and steps the whole network.

The library under `src/` is written in Verus: every function carries a contract over
a mathematical model of its data (views as `Seq`, `Map` and plain values). The laws of
the library are proof functions: frame round trips, what a cable delivers, how the
routing table learns routes, the spanning tree invariant that every switch operation
keeps (no root port exactly for the root bridge, whose cost is 0; the known root is
never worse than the switch), the life of a timer key, and what the repository records
(cables, adjacencies, distinct MAC addresses of all interfaces).

The window of the simulator (drawing, mouse and keyboard input) is not part of the
library; `app/` opens the program's window.

- `src/bytes.rs`: big-endian integers over byte sequences.
- `src/network/ethernet/`: MAC addresses, Ethernet II and 802.3 frames, Ethernet
  interfaces.
- `src/network/ipv4/`: IPv4, ARP and ICMP frames; IPv4 interfaces with ARP.
- `src/network/device/`: the cable simulator, switches, routers, desktops.
- `src/tick.rs`: timers and the time provider.
- `src/inspect.rs`: classifying captured frames.
- `src/repository.rs`: the devices of a simulated network and their cables.
- `src/terminal.rs`: the device terminals: reading command lines (dotted addresses,
  port numbers), running `help`, `clear`, `ipset`, `dgateway`, `ipconfig`, `ping`,
  `enable`, `rip` and `routes`, and the wait for a ping's answer.

`tests/` holds the tests; `app/` holds the window of the program.
