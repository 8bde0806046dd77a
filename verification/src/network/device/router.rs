//! A layer 3 router: routes IPv4 frames between its interfaces, and learns routes from its
//! neighbours with the Routing Information Protocol (RIP).

use vstd::prelude::*;
use crate::bytes::{
    copy_range, lemma_u16_roundtrip, lemma_u32_roundtrip, push_all, push_u16_be, push_u32_be, read_u16_be,
    read_u32_be, u16_be, u16_of, u32_be, u32_of,
};
use crate::network::ethernet::{ByteSerializable, MacAddress, ParseError, FrameKind};
use crate::network::device::cable::{cabled, empty_port, uncabled, CableSimulator, EthernetPortView};
use crate::network::ethernet::interface::EthernetInterface;
use crate::network::ethernet::{mac_addr, mac_bytes};
use crate::network::device::switch::sat_inc;
use crate::network::ipv4::interface::{
    ipv4_views, ipv4_multicast_bytes, mac_multicast_bytes, receive_spec, Ipv4Interface, Ipv4InterfaceView,
};
use crate::network::ipv4::{
    ip_eq, is_ipv4_multicast_or_broadcast, network_address, Ipv4Frame, spec_is_ipv4_multicast_or_broadcast, spec_network_address, IcmpType,
    Ipv4Address, Ipv4FrameView, Ipv4Protocol,
};
use crate::tick::{ready_keys, scheduled, ticked, TickTimer, Tickable, TimerEntryView, NANOS_PER_SEC};

verus! {

// ----- RIP frames -----

/// The abstract content of a route in a RIP frame.
pub struct RipRouteView {
    pub address_family: u16,
    pub route_tag: u16,
    pub ip_address: Seq<u8>,
    pub subnet_mask: Seq<u8>,
    pub next_hop: Seq<u8>,
    pub metric: u32,
}

impl RipRouteView {
    pub open spec fn bytes(self) -> Seq<u8> {
        u16_be(self.address_family) + u16_be(self.route_tag) + self.ip_address + self.subnet_mask
            + self.next_hop + u32_be(self.metric)
    }

    /// The route as built by `RipRoute::new`: address family 2 (IP), route tag 0.
    pub open spec fn built(ip_address: Seq<u8>, subnet_mask: Seq<u8>, next_hop: Seq<u8>, metric: u32) -> Self {
        RipRouteView { address_family: 2, route_tag: 0, ip_address, subnet_mask, next_hop, metric }
    }

    /// Reads a route from 20 bytes.
    pub open spec fn parse(b: Seq<u8>) -> Self {
        RipRouteView {
            address_family: u16_of(b[0], b[1]),
            route_tag: u16_of(b[2], b[3]),
            ip_address: b.subrange(4, 8),
            subnet_mask: b.subrange(8, 12),
            next_hop: b.subrange(12, 16),
            metric: u32_of(b.subrange(16, 20)),
        }
    }

    /// A route is exactly 20 bytes.
    pub open spec fn from_bytes(b: Seq<u8>) -> Result<Self, ParseError> {
        if b.len() != 20 {
            Err(ParseError::Invalid(FrameKind::RipRoute))
        } else {
            Ok(Self::parse(b))
        }
    }
}

/// A route in a RIP frame.
#[derive(Debug, Clone, Copy, PartialEq, Eq)]
pub struct RipRoute {
    pub address_family: u16,
    pub route_tag: u16,
    pub ip_address: Ipv4Address,
    pub subnet_mask: Ipv4Address,
    pub next_hop: Ipv4Address,
    pub metric: u32,
}

impl View for RipRoute {
    type V = RipRouteView;

    open spec fn view(&self) -> RipRouteView {
        RipRouteView {
            address_family: self.address_family,
            route_tag: self.route_tag,
            ip_address: self.ip_address@,
            subnet_mask: self.subnet_mask@,
            next_hop: self.next_hop@,
            metric: self.metric,
        }
    }
}

fn ip_at(b: &[u8], i: usize) -> (r: Ipv4Address)
    requires
        i + 4 <= b@.len(),
    ensures
        r@ == b@.subrange(i as int, i + 4),
{
    let r = [b[i], b[i + 1], b[i + 2], b[i + 3]];
    assert(r@ =~= b@.subrange(i as int, i + 4));
    r
}

impl RipRoute {
    /// A route of address family 2 (IP) with route tag 0.
    pub fn new(ip_address: Ipv4Address, subnet_mask: Ipv4Address, next_hop: Ipv4Address, metric: u32) -> (r: RipRoute)
        ensures
            r@ == RipRouteView::built(ip_address@, subnet_mask@, next_hop@, metric),
    {
        RipRoute { address_family: 0x0002, route_tag: 0x0000, ip_address, subnet_mask, next_hop, metric }
    }

    /// Reads a route from the 20 bytes of `b` that start at `i`.
    fn read(b: &[u8], i: usize) -> (r: RipRoute)
        requires
            i + 20 <= b@.len() <= usize::MAX,
        ensures
            r@ == RipRouteView::parse(b@.subrange(i as int, i + 20)),
    {
        let r = RipRoute {
            address_family: read_u16_be(b, i),
            route_tag: read_u16_be(b, i + 2),
            ip_address: ip_at(b, i + 4),
            subnet_mask: ip_at(b, i + 8),
            next_hop: ip_at(b, i + 12),
            metric: read_u32_be(b, i + 16),
        };
        let ghost s = b@.subrange(i as int, i + 20);
        assert(s.subrange(4, 8) =~= b@.subrange(i + 4, i + 8));
        assert(s.subrange(8, 12) =~= b@.subrange(i + 8, i + 12));
        assert(s.subrange(12, 16) =~= b@.subrange(i + 12, i + 16));
        assert(s.subrange(16, 20) =~= b@.subrange(i + 16, i + 20));
        r
    }

    fn write(&self, bytes: &mut Vec<u8>)
        ensures
            final(bytes)@ == old(bytes)@ + self@.bytes(),
    {
        push_u16_be(bytes, self.address_family);
        push_u16_be(bytes, self.route_tag);
        push_all(bytes, self.ip_address.as_slice());
        push_all(bytes, self.subnet_mask.as_slice());
        push_all(bytes, self.next_hop.as_slice());
        push_u32_be(bytes, self.metric);
        assert(bytes@ =~= old(bytes)@ + self@.bytes());
    }
}

impl ByteSerializable for RipRoute {
    open spec fn accepts(bytes: Seq<u8>) -> bool {
        true
    }

    /// Reads a route; it must be exactly 20 bytes.
    fn from_bytes(bytes: Vec<u8>) -> (r: Result<RipRoute, ParseError>)
        ensures
            (match r {
                Ok(f) => Ok(f@),
                Err(e) => Err(e),
            }) == RipRouteView::from_bytes(bytes@),
    {
        if bytes.len() != 20 {
            return Err(ParseError::Invalid(FrameKind::RipRoute));
        }
        let r = RipRoute::read(bytes.as_slice(), 0);
        assert(bytes@.subrange(0, 20) =~= bytes@);
        Ok(r)
    }

    fn to_bytes(&self) -> (r: Vec<u8>)
        ensures
            r@ == self@.bytes(),
    {
        let mut bytes: Vec<u8> = Vec::new();
        self.write(&mut bytes);
        assert(bytes@ =~= self@.bytes());
        bytes
    }
}

/// The bytes of the routes, one after the other.
pub open spec fn routes_bytes(routes: Seq<RipRouteView>) -> Seq<u8>
    decreases routes.len(),
{
    if routes.len() == 0 {
        Seq::empty()
    } else {
        routes_bytes(routes.drop_last()) + routes.last().bytes()
    }
}

/// The abstract content of a RIP frame.
pub struct RipFrameView {
    pub command: u8,
    pub version: u8,
    pub routes: Seq<RipRouteView>,
}

impl RipFrameView {
    pub open spec fn bytes(self) -> Seq<u8> {
        seq![self.command, self.version] + routes_bytes(self.routes)
    }

    /// Reads a frame: the command and version, then one route for each whole 20 bytes that
    /// follow (trailing bytes are ignored). Fewer than 2 bytes is a runt.
    pub open spec fn from_bytes(b: Seq<u8>) -> Result<Self, ParseError> {
        if b.len() < 2 {
            Err(ParseError::Runt(FrameKind::Rip))
        } else {
            Ok(RipFrameView {
                command: b[0],
                version: b[1],
                routes: Seq::new(
                    ((b.len() - 2) / 20) as nat,
                    |j: int| RipRouteView::parse(b.subrange(2 + 20 * j, 22 + 20 * j)),
                ),
            })
        }
    }
}

/// A frame of the Routing Information Protocol, version 2.
#[derive(Debug, Clone, PartialEq, Eq)]
pub struct RipFrame {
    /// 1 = Request, 2 = Response.
    pub command: u8,
    pub version: u8,
    pub routes: Vec<RipRoute>,
}

impl View for RipFrame {
    type V = RipFrameView;

    open spec fn view(&self) -> RipFrameView {
        RipFrameView {
            command: self.command,
            version: self.version,
            routes: self.routes@.map_values(|r: RipRoute| r@),
        }
    }
}

impl RipFrame {
    /// An empty response of version 2.
    pub fn new_response() -> (r: RipFrame)
        ensures
            r@ == (RipFrameView { command: 2, version: 2, routes: Seq::empty() }),
    {
        let r = RipFrame { command: 2, version: 2, routes: Vec::new() };
        assert(r@.routes =~= Seq::<RipRouteView>::empty());
        r
    }

    /// An empty request of version 2.
    pub fn new_request() -> (r: RipFrame)
        ensures
            r@ == (RipFrameView { command: 1, version: 2, routes: Seq::empty() }),
    {
        let r = RipFrame { command: 1, version: 2, routes: Vec::new() };
        assert(r@.routes =~= Seq::<RipRouteView>::empty());
        r
    }
}

impl ByteSerializable for RipFrame {
    open spec fn accepts(bytes: Seq<u8>) -> bool {
        true
    }

    /// Reads a frame; see `RipFrameView::from_bytes`.
    fn from_bytes(bytes: Vec<u8>) -> (r: Result<RipFrame, ParseError>)
        ensures
            (match r {
                Ok(f) => Ok(f@),
                Err(e) => Err(e),
            }) == RipFrameView::from_bytes(bytes@),
    {
        if bytes.len() < 2 {
            return Err(ParseError::Runt(FrameKind::Rip));
        }
        let b = bytes.as_slice();
        let mut routes: Vec<RipRoute> = Vec::new();
        let mut i: usize = 2;
        while bytes.len() - i >= 20
            invariant
                b@ == bytes@,
                2 <= i <= bytes@.len(),
                (i - 2) % 20 == 0,
                routes@.len() == (i - 2) / 20,
                forall|j: int| 0 <= j < routes@.len() ==> (#[trigger] routes@[j])@ == RipRouteView::parse(b@.subrange(2 + 20 * j, 22 + 20 * j)),
            decreases bytes@.len() - i,
        {
            let r = RipRoute::read(b, i);
            routes.push(r);
            i = i + 20;
        }
        let f = RipFrame { command: bytes[0], version: bytes[1], routes };
        assert(f@.routes =~= Seq::new(
            ((bytes@.len() - 2) / 20) as nat,
            |j: int| RipRouteView::parse(bytes@.subrange(2 + 20 * j, 22 + 20 * j)),
        ));
        Ok(f)
    }

    fn to_bytes(&self) -> (r: Vec<u8>)
        ensures
            r@ == self@.bytes(),
    {
        let mut bytes: Vec<u8> = Vec::new();
        bytes.push(self.command);
        bytes.push(self.version);
        let mut i: usize = 0;
        while i < self.routes.len()
            invariant
                0 <= i <= self.routes@.len(),
                bytes@ == seq![self.command, self.version] + routes_bytes(self@.routes.subrange(0, i as int)),
            decreases self.routes@.len() - i,
        {
            assert(self@.routes.subrange(0, i + 1).drop_last() =~= self@.routes.subrange(0, i as int));
            self.routes[i].write(&mut bytes);
            i = i + 1;
            assert(bytes@ =~= seq![self.command, self.version] + routes_bytes(self@.routes.subrange(0, i as int)));
        }
        assert(self@.routes.subrange(0, i as int) =~= self@.routes);
        bytes
    }
}


/// Writing a route and reading the 20 bytes back gives the same route.
pub proof fn lemma_rip_route_roundtrip(r: RipRouteView)
    requires
        r.ip_address.len() == 4,
        r.subnet_mask.len() == 4,
        r.next_hop.len() == 4,
    ensures
        r.bytes().len() == 20,
        RipRouteView::parse(r.bytes()) == r,
        RipRouteView::from_bytes(r.bytes()) == Ok::<RipRouteView, ParseError>(r),
{
    let b = r.bytes();
    lemma_u16_roundtrip(r.address_family);
    lemma_u16_roundtrip(r.route_tag);
    lemma_u32_roundtrip(r.metric);
    assert(b[0] == u16_be(r.address_family)[0] && b[1] == u16_be(r.address_family)[1]);
    assert(b[2] == u16_be(r.route_tag)[0] && b[3] == u16_be(r.route_tag)[1]);
    assert(b.subrange(4, 8) =~= r.ip_address);
    assert(b.subrange(8, 12) =~= r.subnet_mask);
    assert(b.subrange(12, 16) =~= r.next_hop);
    assert(b.subrange(16, 20) =~= u32_be(r.metric));
    assert(RipRouteView::parse(b) =~= r);
}

/// The routes take 20 bytes each, and route `j` is written at bytes `20 * j` to `20 * j + 20`.
pub proof fn lemma_routes_bytes(rs: Seq<RipRouteView>)
    requires
        forall|j: int| 0 <= j < rs.len() ==> (#[trigger] rs[j]).ip_address.len() == 4 && rs[j].subnet_mask.len() == 4 && rs[j].next_hop.len() == 4,
    ensures
        routes_bytes(rs).len() == 20 * rs.len(),
        forall|j: int| 0 <= j < rs.len() ==> routes_bytes(rs).subrange(20 * j, 20 * j + 20) == (#[trigger] rs[j]).bytes(),
    decreases rs.len(),
{
    if rs.len() > 0 {
        let prev = rs.drop_last();
        lemma_routes_bytes(prev);
        lemma_rip_route_roundtrip(rs.last());
        let b = routes_bytes(rs);
        assert(b == routes_bytes(prev) + rs.last().bytes());
        assert forall|j: int| 0 <= j < rs.len() implies b.subrange(20 * j, 20 * j + 20) == (#[trigger] rs[j]).bytes() by {
            if j < rs.len() - 1 {
                assert(prev[j] == rs[j]);
                assert(b.subrange(20 * j, 20 * j + 20) =~= routes_bytes(prev).subrange(20 * j, 20 * j + 20));
            } else {
                assert(b.subrange(20 * j, 20 * j + 20) =~= rs.last().bytes());
            }
        }
    }
}

/// Writing a RIP frame and reading the bytes back gives the same frame.
pub proof fn lemma_rip_roundtrip(f: RipFrameView)
    requires
        forall|j: int| 0 <= j < f.routes.len() ==> (#[trigger] f.routes[j]).ip_address.len() == 4 && f.routes[j].subnet_mask.len() == 4 && f.routes[j].next_hop.len() == 4,
    ensures
        RipFrameView::from_bytes(f.bytes()) == Ok::<RipFrameView, ParseError>(f),
{
    lemma_routes_bytes(f.routes);
    let b = f.bytes();
    let n = f.routes.len();
    assert(b.len() == 2 + 20 * n);
    assert((b.len() - 2) / 20 == n) by (nonlinear_arith)
        requires
            b.len() == 2 + 20 * n,
    ;
    let parsed = Seq::new(((b.len() - 2) / 20) as nat, |j: int| RipRouteView::parse(b.subrange(2 + 20 * j, 22 + 20 * j)));
    assert forall|j: int| 0 <= j < n implies parsed[j] == f.routes[j] by {
        lemma_rip_route_roundtrip(f.routes[j]);
        assert(b.subrange(2 + 20 * j, 22 + 20 * j) =~= routes_bytes(f.routes).subrange(20 * j, 20 * j + 20));
    }
    assert(parsed =~= f.routes);
}

// ----- Routing table -----

/// The abstract content of a route: the address of the next router (or of this router's own
/// interface for a network it is connected to), the subnet mask, the hops to the destination,
/// and the port to send on.
pub struct RouteView {
    pub ip_address: Seq<u8>,
    pub subnet_mask: Seq<u8>,
    pub metric: u32,
    pub port: usize,
}

/// A route in the routing table of a router.
#[derive(Debug, Clone, Copy, PartialEq, Eq)]
pub struct Route {
    pub ip_address: Ipv4Address,
    pub subnet_mask: Ipv4Address,
    /// Hops until the destination.
    pub metric: u32,
    pub port: usize,
}

impl View for Route {
    type V = RouteView;

    open spec fn view(&self) -> RouteView {
        RouteView { ip_address: self.ip_address@, subnet_mask: self.subnet_mask@, metric: self.metric, port: self.port }
    }
}

impl Route {
    /// A route of metric 0 (a network the router is connected to).
    pub fn new(ip_address: Ipv4Address, subnet_mask: Ipv4Address, port: usize) -> (r: Route)
        ensures
            r@ == (RouteView { ip_address: ip_address@, subnet_mask: subnet_mask@, metric: 0, port }),
    {
        Route { ip_address, subnet_mask, metric: 0, port }
    }
}

/// A routing table: routes under the address of the network they lead to, in the order the
/// networks were first entered.
pub type TableView = Seq<(Seq<u8>, RouteView)>;

/// The index of the first entry among `0..n` for network `k`.
pub open spec fn find_key(t: TableView, k: Seq<u8>, n: int) -> Option<int>
    decreases n,
{
    if n <= 0 {
        None
    } else {
        match find_key(t, k, n - 1) {
            Some(i) => Some(i),
            None => if t[n - 1].0 == k {
                Some(n - 1)
            } else {
                None
            },
        }
    }
}

/// The route for network `k`.
pub open spec fn table_get(t: TableView, k: Seq<u8>) -> Option<RouteView> {
    match find_key(t, k, t.len() as int) {
        Some(i) => Some(t[i].1),
        None => None,
    }
}

/// The table with `r` as the route for network `k`: the entry of `k` is replaced in place, or
/// a new entry is added at the end.
pub open spec fn table_insert(t: TableView, k: Seq<u8>, r: RouteView) -> TableView {
    match find_key(t, k, t.len() as int) {
        Some(i) => t.update(i, (k, r)),
        None => t.push((k, r)),
    }
}

/// The entries among the first `n` whose route is not on `port`, in order.
pub open spec fn table_without_port(t: TableView, port: usize, n: int) -> TableView
    decreases n,
{
    if n <= 0 {
        Seq::empty()
    } else {
        let prev = table_without_port(t, port, n - 1);
        if t[n - 1].1.port != port {
            prev.push(t[n - 1])
        } else {
            prev
        }
    }
}

/// The index of the first entry among `0..n` whose network holds `dst`.
pub open spec fn find_route(t: TableView, dst: Seq<u8>, n: int) -> Option<int>
    decreases n,
{
    if n <= 0 {
        None
    } else {
        match find_route(t, dst, n - 1) {
            Some(i) => Some(i),
            None => if spec_network_address(dst, t[n - 1].1.subnet_mask) == t[n - 1].0 {
                Some(n - 1)
            } else {
                None
            },
        }
    }
}

/// No network has two entries.
pub open spec fn unique_keys(t: TableView) -> bool {
    forall|i: int, j: int| 0 <= i < j < t.len() ==> t[i].0 != t[j].0
}

/// The table after hearing RIP route `rr` from `src` on `port`: the route, one hop further,
/// is kept when its network is new or when it is shorter than the known one.
pub open spec fn learn_route(t: TableView, rr: RipRouteView, src: Seq<u8>, port: usize) -> TableView {
    let new = RouteView { ip_address: src, subnet_mask: rr.subnet_mask, metric: sat_inc(rr.metric), port };
    match table_get(t, rr.ip_address) {
        Some(cur) => if cur.metric > new.metric {
            table_insert(t, rr.ip_address, new)
        } else {
            t
        },
        None => table_insert(t, rr.ip_address, new),
    }
}

/// The table after hearing the RIP routes `rrs` in order.
pub open spec fn learn_routes(t: TableView, rrs: Seq<RipRouteView>, src: Seq<u8>, port: usize) -> TableView
    decreases rrs.len(),
{
    if rrs.len() == 0 {
        t
    } else {
        learn_route(learn_routes(t, rrs.drop_last(), src, port), rrs.last(), src, port)
    }
}

/// The RIP routes that announce the table, in order: each network with the route's mask and
/// metric, and no next hop.
pub open spec fn rip_routes(t: TableView) -> Seq<RipRouteView> {
    t.map_values(|e: (Seq<u8>, RouteView)| RipRouteView::built(e.0, e.1.subnet_mask, seq![0u8, 0, 0, 0], e.1.metric))
}

/// The RIP response that announces the table.
pub open spec fn rip_announcement(t: TableView) -> RipFrameView {
    RipFrameView { command: 2, version: 2, routes: rip_routes(t) }
}


/// What `find_key` says of the table.
pub proof fn lemma_find_key(t: TableView, k: Seq<u8>, n: int)
    requires
        0 <= n <= t.len(),
    ensures
        find_key(t, k, n) is None <==> forall|j: int| 0 <= j < n ==> t[j].0 != k,
        find_key(t, k, n) matches Some(i) ==> 0 <= i < n && t[i].0 == k,
    decreases n,
{
    if n > 0 {
        lemma_find_key(t, k, n - 1);
    }
}

/// Once network `k` has an entry among `0..m`, its first entry stays the same among any larger
/// range.
pub proof fn lemma_find_key_stable(t: TableView, k: Seq<u8>, m: int, m2: int)
    requires
        0 <= m <= m2,
        find_key(t, k, m) is Some,
    ensures
        find_key(t, k, m2) == find_key(t, k, m),
    decreases m2 - m,
{
    if m2 > m {
        lemma_find_key_stable(t, k, m, m2 - 1);
    }
}

/// Once some route among `0..m` holds `dst`, the first such route stays the same among any
/// larger range.
pub proof fn lemma_find_route_stable(t: TableView, dst: Seq<u8>, m: int, m2: int)
    requires
        0 <= m <= m2,
        find_route(t, dst, m) is Some,
    ensures
        find_route(t, dst, m2) == find_route(t, dst, m),
    decreases m2 - m,
{
    if m2 > m {
        lemma_find_route_stable(t, dst, m, m2 - 1);
    }
}

/// Entering a route keeps every network to one entry.
pub proof fn lemma_insert_unique(t: TableView, k: Seq<u8>, r: RouteView)
    requires
        unique_keys(t),
    ensures
        unique_keys(table_insert(t, k, r)),
        table_insert(t, k, r).len() >= t.len(),
        forall|i: int| 0 <= i < table_insert(t, k, r).len() ==> #[trigger] table_insert(t, k, r)[i] == (if i < t.len() && t[i].0 != k { t[i] } else { (k, r) }),
{
    lemma_find_key(t, k, t.len() as int);
}

/// Reading the table after entering a route: the network entered has the new route, every
/// other network keeps its route.
pub proof fn lemma_table_insert_get(t: TableView, k: Seq<u8>, r: RouteView, k2: Seq<u8>)
    requires
        unique_keys(t),
    ensures
        table_get(table_insert(t, k, r), k2) == if k2 == k { Some(r) } else { table_get(t, k2) },
{
    let t2 = table_insert(t, k, r);
    lemma_find_key(t, k, t.len() as int);
    lemma_find_key(t, k2, t.len() as int);
    lemma_insert_unique(t, k, r);
    lemma_find_key(t2, k2, t2.len() as int);
    if k2 == k {
        let w = match find_key(t, k, t.len() as int) {
            Some(i0) => i0,
            None => t.len() as int,
        };
        assert(t2[w] == (k, r));
        let i = find_key(t2, k2, t2.len() as int)->Some_0;
        assert(t2[i].0 == k);
        assert(t2[i] == (k, r));
    } else {
        match find_key(t, k2, t.len() as int) {
            Some(i) => {
                assert(t2[i] == t[i]);
                let j = find_key(t2, k2, t2.len() as int)->Some_0;
                assert(j == i) by {
                    if j != i {
                        if j < t.len() && t[j].0 != k {
                            assert(t2[j] == t[j]);
                            if j < i {
                                assert(t[j].0 != t[i].0);
                            } else {
                                assert(t[i].0 != t[j].0);
                            }
                        } else {
                            assert(t2[j] == (k, r));
                        }
                    }
                }
            },
            None => {
                assert forall|j: int| 0 <= j < t2.len() implies t2[j].0 != k2 by {
                    if j < t.len() && t[j].0 != k {
                        assert(t2[j] == t[j]);
                    }
                }
            },
        }
    }
}

/// RIP keeps the shortest route: after hearing a route, the network it announces has a route
/// whose metric is the smaller of the known one and the heard one plus a hop; every other
/// network keeps its route.
pub proof fn lemma_learn_route_keeps_shortest(t: TableView, rr: RipRouteView, src: Seq<u8>, port: usize, k: Seq<u8>)
    requires
        unique_keys(t),
    ensures
        k != rr.ip_address ==> table_get(learn_route(t, rr, src, port), k) == table_get(t, k),
        table_get(learn_route(t, rr, src, port), rr.ip_address) matches Some(r) && r.metric == match table_get(t, rr.ip_address) {
            Some(cur) => if cur.metric > sat_inc(rr.metric) { sat_inc(rr.metric) } else { cur.metric },
            None => sat_inc(rr.metric),
        },
        table_get(learn_route(t, rr, src, port), rr.ip_address) == match table_get(t, rr.ip_address) {
            Some(cur) => if cur.metric > sat_inc(rr.metric) {
                Some(RouteView { ip_address: src, subnet_mask: rr.subnet_mask, metric: sat_inc(rr.metric), port })
            } else {
                Some(cur)
            },
            None => Some(RouteView { ip_address: src, subnet_mask: rr.subnet_mask, metric: sat_inc(rr.metric), port }),
        },
        (table_get(t, rr.ip_address) matches Some(cur) && cur.metric <= sat_inc(rr.metric)) ==> learn_route(t, rr, src, port) == t,
{
    let new = RouteView { ip_address: src, subnet_mask: rr.subnet_mask, metric: sat_inc(rr.metric), port };
    lemma_table_insert_get(t, rr.ip_address, new, k);
    lemma_table_insert_get(t, rr.ip_address, new, rr.ip_address);
}

/// A connected route (metric 0) is never replaced by a route heard by RIP: a heard route is at
/// least one hop long. Whatever routes are heard, the route of a connected network stays.
pub proof fn lemma_learn_routes_keeps_connected(t: TableView, rrs: Seq<RipRouteView>, src: Seq<u8>, port: usize, k: Seq<u8>)
    requires
        unique_keys(t),
        table_get(t, k) matches Some(r) && r.metric == 0,
    ensures
        table_get(learn_routes(t, rrs, src, port), k) == table_get(t, k),
        unique_keys(learn_routes(t, rrs, src, port)),
    decreases rrs.len(),
{
    if rrs.len() > 0 {
        lemma_learn_routes_keeps_connected(t, rrs.drop_last(), src, port, k);
        let t1 = learn_routes(t, rrs.drop_last(), src, port);
        let rr = rrs.last();
        lemma_learn_route_keeps_shortest(t1, rr, src, port, k);
        let new = RouteView { ip_address: src, subnet_mask: rr.subnet_mask, metric: sat_inc(rr.metric), port };
        lemma_insert_unique(t1, rr.ip_address, new);
    }
}

/// Dropping the routes of a port keeps every network to one entry, and keeps only entries of
/// the table.
pub proof fn lemma_without_port(t: TableView, port: usize, n: int)
    requires
        unique_keys(t),
        0 <= n <= t.len(),
    ensures
        unique_keys(table_without_port(t, port, n)),
        forall|m: int| 0 <= m < table_without_port(t, port, n).len() ==> exists|j: int| 0 <= j < n && #[trigger] table_without_port(t, port, n)[m] == t[j],
        forall|m: int| 0 <= m < table_without_port(t, port, n).len() ==> (#[trigger] table_without_port(t, port, n)[m]).1.port != port,
        forall|j: int| 0 <= j < n && (#[trigger] t[j]).1.port != port ==> table_without_port(t, port, n).contains(t[j]),
    decreases n,
{
    if n > 0 {
        lemma_without_port(t, port, n - 1);
        let p1 = table_without_port(t, port, n - 1);
        let c1 = table_without_port(t, port, n);
        assert forall|j: int| 0 <= j < n && (#[trigger] t[j]).1.port != port implies c1.contains(t[j]) by {
            if j < n - 1 {
                let m = choose|m: int| 0 <= m < p1.len() && p1[m] == t[j];
                assert(c1[m] == p1[m]);
            } else {
                assert(c1[c1.len() - 1] == t[j]);
            }
        }
        let prev0 = table_without_port(t, port, n - 1);
        let cur0 = table_without_port(t, port, n);
        assert forall|m: int| 0 <= m < cur0.len() implies (#[trigger] cur0[m]).1.port != port by {
            if m < prev0.len() {
                assert(cur0[m] == prev0[m]);
            }
        }
        let prev = table_without_port(t, port, n - 1);
        let cur = table_without_port(t, port, n);
        assert forall|m: int| 0 <= m < cur.len() implies exists|j: int| 0 <= j < n && #[trigger] cur[m] == t[j] by {
            if m < prev.len() {
                let j = choose|j: int| 0 <= j < n - 1 && prev[m] == t[j];
                assert(cur[m] == t[j]);
            } else {
                assert(cur[m] == t[n - 1]);
            }
        }
        assert forall|a: int, b: int| 0 <= a < b < cur.len() implies cur[a].0 != cur[b].0 by {
            if b < prev.len() {
            } else {
                let j = choose|j: int| 0 <= j < n - 1 && prev[a] == t[j];
                assert(cur[a] == t[j]);
                assert(cur[b] == t[n - 1]);
            }
        }
    }
}

/// Disconnecting a port drops exactly that port's routes: every route of the table on another
/// port is still in the table, and every route left was in the table and is on another port.
pub proof fn lemma_disconnect_keeps_other_routes(rt: RouterView, ports: Seq<EthernetPortView>, port: usize, n: nat)
    requires
        rt.wf(n),
        port < 8,
    ensures
        forall|j: int| 0 <= j < rt.table.len() && (#[trigger] rt.table[j]).1.port != port
            ==> router_disconnected(rt, ports, port).0.table.contains(rt.table[j]),
        forall|m: int| 0 <= m < router_disconnected(rt, ports, port).0.table.len()
            ==> rt.table.contains(#[trigger] router_disconnected(rt, ports, port).0.table[m])
                && router_disconnected(rt, ports, port).0.table[m].1.port != port,
{
    let t2 = router_disconnected(rt, ports, port).0.table;
    if rt.ports[port as int].enabled {
        lemma_without_port(rt.table, port, rt.table.len() as int);
        assert forall|m: int| 0 <= m < t2.len() implies rt.table.contains(#[trigger] t2[m]) && t2[m].1.port != port by {
            let j = choose|j: int| 0 <= j < rt.table.len() && t2[m] == rt.table[j];
        }
    } else {
        assert forall|j: int| 0 <= j < rt.table.len() && (#[trigger] rt.table[j]).1.port != port implies t2.contains(rt.table[j]) by {
            assert(t2[j] == rt.table[j]);
        }
        assert forall|m: int| 0 <= m < t2.len() implies rt.table.contains(#[trigger] t2[m]) && t2[m].1.port != port by {
            assert(rt.table[m] == t2[m]);
            assert(rt.ports[rt.table[m].1.port as int].enabled);
        }
    }
}

// ----- Router -----

/// The abstract state of a router port.
pub struct RouterPortView {
    pub interface: Ipv4InterfaceView,
    pub enabled: bool,
    pub rip_enabled: bool,
}

/// A port of a router: an IPv4 interface that routes once enabled.
#[derive(Debug)]
pub struct RouterPort {
    pub interface: Ipv4Interface,
    pub enabled: bool,
    pub rip_enabled: bool,
}

impl View for RouterPort {
    type V = RouterPortView;

    open spec fn view(&self) -> RouterPortView {
        RouterPortView { interface: self.interface@, enabled: self.enabled, rip_enabled: self.rip_enabled }
    }
}

/// Timer key of the periodic RIP announcements.
pub const RIP_MULTICAST: u64 = 0;

/// The abstract state of a router.
pub struct RouterView {
    pub ports: Seq<RouterPortView>,
    pub table: TableView,
    pub mac_address: Seq<u8>,
    pub rip_enabled: bool,
    pub timer: Seq<TimerEntryView>,
}

impl RouterView {
    /// The router has 8 ports, whose interfaces are in a port table of `n` ports; its routes
    /// lead to its own ports, and no network has two routes.
    pub open spec fn wf(self, n: nat) -> bool {
        &&& self.ports.len() == 8
        &&& forall|i: int| 0 <= i < 8 ==> (#[trigger] self.ports[i]).interface.ethernet.port < n
        &&& forall|i: int| 0 <= i < self.table.len() ==> (#[trigger] self.table[i]).1.port < 8
        &&& unique_keys(self.table)
        &&& forall|i: int| 0 <= i < self.table.len() ==> self.ports[(#[trigger] self.table[i]).1.port as int].enabled
        &&& forall|i: int| 0 <= i < 8 ==> (#[trigger] self.ports[i]).rip_enabled ==> self.ports[i].enabled
    }

    /// The router as `Router::from_seed` makes it: 8 disabled router interfaces with the address
    /// and mask 0.0.0.0, on the simulator ports `first` to `first + 7`, with the MAC addresses
    /// `mac_seed` to `mac_seed + 7`; the router's own MAC address is `mac_seed`; no routes, no
    /// RIP, nothing scheduled.
    #[verifier::opaque]
    pub open spec fn is_seeded(self, first: nat, mac_seed: u64) -> bool {
        &&& self.ports.len() == 8
        &&& forall|k: int| 0 <= k < 8 ==> #[trigger] self.ports[k] == (RouterPortView {
            interface: Ipv4InterfaceView {
                ethernet: EthernetInterface { port: (first + k) as usize, mac_address: self.ports[k].interface.ethernet.mac_address },
                ip_address: seq![0u8, 0, 0, 0],
                subnet_mask: seq![0u8, 0, 0, 0],
                default_gateway: None,
                arp_buf: Seq::empty(),
                arp_table: Map::empty(),
                router_interface: true,
            },
            enabled: false,
            rip_enabled: false,
        })
        &&& forall|k: int| 0 <= k < 8 ==> (#[trigger] self.ports[k]).interface.ethernet.mac_address@ == mac_bytes((mac_seed + k) as u64)
        &&& self.table == Seq::<(Seq<u8>, RouteView)>::empty()
        &&& self.mac_address == mac_bytes(mac_seed)
        &&& !self.rip_enabled
        &&& self.timer == Seq::<TimerEntryView>::empty()
    }

    /// The two routers have the same ports: the same Ethernet interfaces.
    pub open spec fn same_ports(self, other: RouterView) -> bool {
        &&& self.ports.len() == other.ports.len()
        &&& forall|i: int| 0 <= i < self.ports.len() ==> (#[trigger] self.ports[i]).interface.ethernet == other.ports[i].interface.ethernet
    }

    pub open spec fn set_iface(self, i: int, v: Ipv4InterfaceView) -> Self {
        RouterView { ports: self.ports.update(i, RouterPortView { interface: v, ..self.ports[i] }), ..self }
    }
}

/// A received frame that can be forwarded: it has time to live left, a known protocol, and
/// room for its header.
pub open spec fn forwardable(f: Ipv4FrameView) -> bool {
    f.ttl > 0 && Ipv4Protocol::known(f.protocol) && f.data.len() + 20 <= 0xFFFF
}

/// The RIP announcement of the table can be framed: its length, taken modulo 2^16 as the
/// 16-bit total-length field takes it, leaves room for the 20-byte IPv4 header.
pub open spec fn announcement_fits(t: TableView) -> bool {
    rip_announcement(t).bytes().len() % 0x1_0000 + 20 <= 0xFFFF
}

/// Port `port` enabled with an address and a subnet mask, and the route to its network
/// entered.
pub open spec fn interface_enabled(rt: RouterView, port: usize, ip: Seq<u8>, mask: Seq<u8>) -> RouterView {
    RouterView {
        ports: rt.ports.update(
            port as int,
            RouterPortView {
                interface: Ipv4InterfaceView { ip_address: ip, subnet_mask: mask, ..rt.ports[port as int].interface },
                enabled: true,
                ..rt.ports[port as int]
            },
        ),
        table: table_insert(
            rt.table,
            spec_network_address(ip, mask),
            RouteView { ip_address: ip, subnet_mask: mask, metric: 0, port },
        ),
        ..rt
    }
}

/// RIP started on port `port` at `now`: the announcement of the table is multicast on the port
/// (when it can be framed) and repeated every 5 seconds.
pub open spec fn rip_started(rt: RouterView, ports: Seq<EthernetPortView>, port: usize, now: u128) -> (RouterView, Seq<EthernetPortView>) {
    (
        RouterView {
            ports: rt.ports.update(port as int, RouterPortView { rip_enabled: true, ..rt.ports[port as int] }),
            rip_enabled: true,
            timer: scheduled(rt.timer, RIP_MULTICAST, 5, true, now),
            ..rt
        },
        if announcement_fits(rt.table) {
            rt.ports[port as int].interface.eth_send(
                ports,
                mac_multicast_bytes(),
                Ipv4FrameView::built(
                    rt.ports[port as int].interface.ip_address,
                    ipv4_multicast_bytes(),
                    64,
                    rip_announcement(rt.table).bytes(),
                    Ipv4Protocol::Rip,
                ),
            )
        } else {
            ports
        },
    )
}

/// Port `i` tells `dst` that a destination is unreachable.
pub open spec fn unreachable_answered(rt: RouterView, ports: Seq<EthernetPortView>, dst: Seq<u8>, i: int) -> (RouterView, Seq<EthernetPortView>) {
    let r = rt.ports[i].interface.send_icmp_spec(ports, dst, IcmpType::Unreachable);
    (rt.set_iface(i, r.0), r.1)
}

/// Routing one frame received on port `i`.
///
/// A frame to a multicast or broadcast address is read as a RIP frame, whose routes are
/// learned. Another frame is sent on, from the port of the first route whose network holds its
/// destination, toward the route's address, with one less time to live (a frame that cannot be
/// forwarded is dropped); with no such route, the sender is told the destination is
/// unreachable.
pub open spec fn route_frame(rt: RouterView, ports: Seq<EthernetPortView>, f: Ipv4FrameView, i: usize) -> (RouterView, Seq<EthernetPortView>) {
    if spec_is_ipv4_multicast_or_broadcast(f.destination) {
        match RipFrameView::from_bytes(f.data) {
            Ok(rip) => (RouterView { table: learn_routes(rt.table, rip.routes, f.source, i), ..rt }, ports),
            Err(_) => (rt, ports),
        }
    } else {
        match find_route(rt.table, f.destination, rt.table.len() as int) {
            Some(j) => {
                let route = rt.table[j].1;
                let d = route.port as int;
                if forwardable(f) {
                    let r = rt.ports[d].interface.sendv_spec(
                        ports,
                        f.source,
                        f.destination,
                        Some(route.ip_address),
                        (f.ttl - 1) as u8,
                        f.data,
                        Ipv4Protocol::spec_from_value(f.protocol),
                    );
                    (rt.set_iface(d, r.0), r.1)
                } else {
                    (rt, ports)
                }
            },
            None => unreachable_answered(rt, ports, f.source, i as int),
        }
    }
}

/// Routing the frames `fs` received on port `i`, in order.
#[verifier::opaque]
pub open spec fn route_frames(rt: RouterView, ports: Seq<EthernetPortView>, fs: Seq<Ipv4FrameView>, i: usize) -> (RouterView, Seq<EthernetPortView>)
    decreases fs.len(),
{
    if fs.len() == 0 {
        (rt, ports)
    } else {
        let r = route_frames(rt, ports, fs.drop_last(), i);
        route_frame(r.0, r.1, fs.last(), i)
    }
}

/// Port `i` receives its frames: a disabled port drops them; an enabled port's interface
/// receives them (answering ARP, ...) and the IPv4 frames it keeps are routed.
pub open spec fn route_port(rt: RouterView, ports: Seq<EthernetPortView>, i: usize) -> (RouterView, Seq<EthernetPortView>) {
    let rp = rt.ports[i as int];
    let p = rp.interface.ethernet.port as int;
    if !rp.enabled {
        (rt, ports.update(p, EthernetPortView { incoming: Seq::empty(), ..ports[p] }))
    } else {
        let r = receive_spec(rp.interface, ports);
        route_frames(rt.set_iface(i as int, r.0), r.1, r.2, i)
    }
}

/// Ports `0..n` receive and route their frames, port by port.
#[verifier::opaque]
pub open spec fn route_upto(rt: RouterView, ports: Seq<EthernetPortView>, n: int) -> (RouterView, Seq<EthernetPortView>)
    decreases n,
{
    if n <= 0 {
        (rt, ports)
    } else {
        let r = route_upto(rt, ports, n - 1);
        route_port(r.0, r.1, (n - 1) as usize)
    }
}

/// The port table after the announcement of the table is multicast on each of the ports
/// `0..n` that is enabled with RIP.
#[verifier::opaque]
pub open spec fn announce_upto(rt: RouterView, ports: Seq<EthernetPortView>, n: int) -> Seq<EthernetPortView>
    decreases n,
{
    if n <= 0 {
        ports
    } else {
        let prev = announce_upto(rt, ports, n - 1);
        let rp = rt.ports[n - 1];
        if rp.enabled && rp.rip_enabled {
            rp.interface.eth_send(
                prev,
                mac_multicast_bytes(),
                Ipv4FrameView::built(rp.interface.ip_address, ipv4_multicast_bytes(), 64, rip_announcement(rt.table).bytes(), Ipv4Protocol::Rip),
            )
        } else {
            prev
        }
    }
}

/// Sending the RIP announcements: on every port enabled with RIP, unless the announcement
/// cannot be framed (see `announcement_fits`).
pub open spec fn announced(rt: RouterView, ports: Seq<EthernetPortView>) -> Seq<EthernetPortView> {
    if announcement_fits(rt.table) {
        announce_upto(rt, ports, 8)
    } else {
        ports
    }
}

/// Disconnecting port `port` unplugs its cable; an enabled port also loses its routes and is
/// disabled (RIP too).
pub open spec fn router_disconnected(rt: RouterView, ports: Seq<EthernetPortView>, port: usize) -> (RouterView, Seq<EthernetPortView>) {
    if !rt.ports[port as int].enabled {
        (rt, uncabled(ports, rt.ports[port as int].interface.ethernet.port))
    } else {
        (
            RouterView {
                ports: rt.ports.update(port as int, RouterPortView { enabled: false, rip_enabled: false, ..rt.ports[port as int] }),
                table: table_without_port(rt.table, port, rt.table.len() as int),
                ..rt
            },
            uncabled(ports, rt.ports[port as int].interface.ethernet.port),
        )
    }
}

/// One tick of the router at `now`: routing, then the RIP announcements if they are due, then
/// the timer's own tick.
pub open spec fn router_ticked(rt: RouterView, ports: Seq<EthernetPortView>, now: u128) -> (RouterView, Seq<EthernetPortView>) {
    let r = route_upto(rt, ports, 8);
    let keys = ready_keys(r.0.timer, now);
    let ports2 = announce_times(r.0, r.1, keys);
    (RouterView { timer: ticked(r.0.timer, now), ..r.0 }, ports2)
}

/// The port table after one announcement for each RIP key among `keys`.
pub open spec fn announce_times(rt: RouterView, ports: Seq<EthernetPortView>, keys: Seq<u64>) -> Seq<EthernetPortView>
    decreases keys.len(),
{
    if keys.len() == 0 {
        ports
    } else {
        let prev = announce_times(rt, ports, keys.drop_last());
        if keys.last() == RIP_MULTICAST {
            announced(rt, prev)
        } else {
            prev
        }
    }
}


/// A layer 3 router with 8 ports: routes IPv4 frames between its interfaces, and multicasts
/// RIP announcements on the ports where RIP is enabled.
pub struct Router {
    ports: Vec<RouterPort>,
    table: Vec<(Ipv4Address, Route)>,
    mac_address: MacAddress,
    rip_enabled: bool,
    timer: TickTimer,
}

impl View for Router {
    type V = RouterView;

    closed spec fn view(&self) -> RouterView {
        RouterView {
            ports: self.ports@.map_values(|p: RouterPort| p@),
            table: self.table@.map_values(|e: (Ipv4Address, Route)| (e.0@, e.1@)),
            mac_address: self.mac_address@,
            rip_enabled: self.rip_enabled,
            timer: self.timer@,
        }
    }
}

fn known_protocol(v: u8) -> (r: bool)
    ensures
        r == Ipv4Protocol::known(v),
{
    v == 1 || v == 17 || v == 255
}

impl Router {
    /// The index of the entry for network `key`.
    fn table_find(&self, key: &Ipv4Address) -> (r: Option<usize>)
        ensures
            (match r {
                Some(i) => Some(i as int),
                None => None,
            }) == find_key(self@.table, key@, self@.table.len() as int),
            r matches Some(i) ==> i < self@.table.len() && self@.table[i as int].0 == key@,
    {
        proof {
            lemma_find_key(self@.table, key@, self@.table.len() as int);
        }
        let mut i: usize = 0;
        while i < self.table.len()
            invariant
                0 <= i <= self@.table.len(),
                self@.table.len() == self.table@.len(),
                find_key(self@.table, key@, i as int) is None,
            decreases self@.table.len() - i,
        {
            assert(self@.table[i as int] == (self.table@[i as int].0@, self.table@[i as int].1@));
            if ip_eq(&self.table[i].0, key) {
                proof {
                    lemma_find_key_stable(self@.table, key@, i + 1, self@.table.len() as int);
                }
                return Some(i);
            }
            i = i + 1;
        }
        None
    }

    /// Enters `route` as the route for network `key`.
    fn table_insert(&mut self, key: Ipv4Address, route: Route)
        ensures
            final(self)@ == (RouterView { table: table_insert(old(self)@.table, key@, route@), ..old(self)@ }),
    {
        let ghost t0 = self.table@;
        match self.table_find(&key) {
            Some(i) => {
                self.table.set(i, (key, route));
                assert(self@.table =~= t0.map_values(|e: (Ipv4Address, Route)| (e.0@, e.1@)).update(i as int, (key@, route@)));
            },
            None => {
                self.table.push((key, route));
                assert(self@.table =~= t0.map_values(|e: (Ipv4Address, Route)| (e.0@, e.1@)).push((key@, route@)));
            },
        }
    }

    /// Learns RIP route `rr`, heard from `src` on `port`; see `learn_route`.
    fn learn_route(&mut self, rr: &RipRoute, src: Ipv4Address, port: usize)
        ensures
            final(self)@ == (RouterView { table: learn_route(old(self)@.table, rr@, src@, port), ..old(self)@ }),
    {
        let metric = if rr.metric == u32::MAX { rr.metric } else { rr.metric + 1 };
        let new = Route { ip_address: src, subnet_mask: rr.subnet_mask, metric, port };
        match self.table_find(&rr.ip_address) {
            Some(i) => {
                assert(self@.table[i as int] == (self.table@[i as int].0@, self.table@[i as int].1@));
                if self.table[i].1.metric > metric {
                    self.table_insert(rr.ip_address, new);
                }
            },
            None => {
                self.table_insert(rr.ip_address, new);
            },
        }
    }

    /// The index of the first route whose network holds `dst`.
    fn find_route_index(&self, dst: &Ipv4Address) -> (r: Option<usize>)
        ensures
            (match r {
                Some(i) => Some(i as int),
                None => None,
            }) == find_route(self@.table, dst@, self@.table.len() as int),
            r matches Some(i) ==> i < self@.table.len(),
    {
        let mut i: usize = 0;
        while i < self.table.len()
            invariant
                0 <= i <= self@.table.len(),
                self@.table.len() == self.table@.len(),
                find_route(self@.table, dst@, i as int) is None,
            decreases self@.table.len() - i,
        {
            assert(self@.table[i as int] == (self.table@[i as int].0@, self.table@[i as int].1@));
            let mask = self.table[i].1.subnet_mask;
            let net = network_address(dst, &mask);
            if ip_eq(&net, &self.table[i].0) {
                proof {
                    lemma_find_route_stable(self@.table, dst@, i + 1, self@.table.len() as int);
                }
                return Some(i);
            }
            i = i + 1;
        }
        None
    }

    /// The RIP response that announces the routing table.
    fn create_rip_frame(&self) -> (r: RipFrame)
        ensures
            r@ == rip_announcement(self@.table),
    {
        let mut frame = RipFrame::new_response();
        assert(rip_routes(self@.table.subrange(0, 0)) =~= Seq::<RipRouteView>::empty());
        let mut i: usize = 0;
        while i < self.table.len()
            invariant
                0 <= i <= self@.table.len(),
                self@.table.len() == self.table@.len(),
                frame@ == rip_announcement(self@.table.subrange(0, i as int)),
            decreases self@.table.len() - i,
        {
            let e = self.table[i];
            assert(self@.table[i as int] == (e.0@, e.1@));
            let none = [0u8, 0, 0, 0];
            assert(none@ =~= seq![0u8, 0, 0, 0]);
            let ghost v0 = frame@.routes;
            let ghost r0 = frame.routes@;
            let rr = RipRoute::new(e.0, e.1.subnet_mask, none, e.1.metric);
            frame.routes.push(rr);
            assert(frame@.routes =~= v0.push(rr@));
            i = i + 1;
            assert(frame@.routes =~= rip_routes(self@.table.subrange(0, i as int)));
        }
        assert(self@.table.subrange(0, i as int) =~= self@.table);
        frame
    }
}


impl Router {
    /// Creates a router with 8 disabled ports, whose interfaces take new ports of the simulator
    /// and the MAC addresses `mac_seed` to `mac_seed + 7`, with the address and mask 0.0.0.0;
    /// the router's own MAC address is `mac_seed`.
    pub fn from_seed(sim: &mut CableSimulator, mac_seed: u64) -> (r: Router)
        requires
            old(sim).wf(),
            mac_seed + 8 <= u64::MAX,
        ensures
            final(sim).wf(),
            final(sim)@.simulated == old(sim)@.simulated,
            final(sim)@.ports == old(sim)@.ports + Seq::new(8, |k: int| empty_port()),
            r@.wf(final(sim)@.ports.len()),
            r@.is_seeded(old(sim)@.ports.len(), mac_seed),
            forall|k: int| 0 <= k < 8 ==> #[trigger] r@.ports[k].interface.ethernet.port == old(sim)@.ports.len() + k,
    {
        let mut ports: Vec<RouterPort> = Vec::new();
        let zero = [0u8, 0, 0, 0];
        assert(zero@ =~= seq![0u8, 0, 0, 0]);
        let mut i: u64 = 0;
        while i < 8
            invariant
                0 <= i <= 8,
                mac_seed + 8 <= u64::MAX,
                zero@ == seq![0u8, 0, 0, 0],
                sim.wf(),
                sim@.simulated == old(sim)@.simulated,
                sim@.ports == old(sim)@.ports + Seq::new(i as nat, |k: int| empty_port()),
                ports@.len() == i,
                forall|k: int| 0 <= k < i ==> #[trigger] ports@[k]@ == (RouterPortView {
                    interface: Ipv4InterfaceView {
                        ethernet: EthernetInterface { port: (old(sim)@.ports.len() + k) as usize, mac_address: ports@[k]@.interface.ethernet.mac_address },
                        ip_address: seq![0u8, 0, 0, 0],
                        subnet_mask: seq![0u8, 0, 0, 0],
                        default_gateway: None,
                        arp_buf: Seq::empty(),
                        arp_table: Map::empty(),
                        router_interface: true,
                    },
                    enabled: false,
                    rip_enabled: false,
                }),
                forall|k: int| 0 <= k < i ==> (#[trigger] ports@[k])@.interface.ethernet.mac_address@ == mac_bytes((mac_seed + k) as u64),
                forall|k: int| 0 <= k < i ==> (#[trigger] ports@[k])@.interface.ethernet.port == old(sim)@.ports.len() + k,
            decreases 8 - i,
        {
            let interface = Ipv4Interface::new_router_interface(sim, mac_addr(mac_seed + i), zero, zero);
            ports.push(RouterPort { interface, enabled: false, rip_enabled: false });
            i = i + 1;
            assert(sim@.ports =~= old(sim)@.ports + Seq::new(i as nat, |k: int| empty_port()));
        }
        let r = Router { ports, table: Vec::new(), mac_address: mac_addr(mac_seed), rip_enabled: false, timer: TickTimer::new() };
        assert(r@.table =~= Seq::<(Seq<u8>, RouteView)>::empty());
        assert forall|k: int| 0 <= k < 8 implies #[trigger] r@.ports[k].interface.ethernet.port == old(sim)@.ports.len() + k by {
            assert(r@.ports[k] == ports@[k]@);
        }
        assert(r@.is_seeded(old(sim)@.ports.len(), mac_seed)) by {
            reveal(RouterView::is_seeded);
        }
        r
    }

    /// Enables port `port` with the given address and subnet mask, and enters the route to the
    /// port's network.
    pub fn enable_interface(&mut self, port: usize, ipv4_address: Ipv4Address, subnet_mask: Ipv4Address)
        requires
            old(self)@.ports.len() == 8,
            port < 8,
        ensures
            final(self)@.same_ports(old(self)@),
            forall|n: nat| old(self)@.wf(n) ==> #[trigger] final(self)@.wf(n),
            final(self)@ == interface_enabled(old(self)@, port, ipv4_address@, subnet_mask@),
    {
        self.ports[port].enabled = true;
        self.ports[port].interface.set_address(ipv4_address, subnet_mask);
        let ghost rp = RouterPortView {
            interface: Ipv4InterfaceView { ip_address: ipv4_address@, subnet_mask: subnet_mask@, ..old(self)@.ports[port as int].interface },
            enabled: true,
            ..old(self)@.ports[port as int]
        };
        assert(self@.ports =~= old(self)@.ports.update(port as int, rp));
        let net = network_address(&ipv4_address, &subnet_mask);
        let route = Route::new(ipv4_address, subnet_mask, port);
        self.table_insert(net, route);
        proof {
            assert forall|n: nat| old(self)@.wf(n) implies #[trigger] self@.wf(n) by {
                lemma_insert_unique(old(self)@.table, net@, route@);
                let t = self@.table;
                assert forall|i: int| 0 <= i < t.len() implies (#[trigger] t[i]).1.port < 8 by {
                    if i < old(self)@.table.len() && old(self)@.table[i].0 != net@ {
                        assert(t[i] == old(self)@.table[i]);
                    }
                }
                assert forall|i: int| 0 <= i < 8 implies (#[trigger] self@.ports[i]).interface.ethernet.port < n by {
                    assert(old(self)@.ports[i].interface.ethernet.port < n);
                }
            }
        }
    }

    /// The MAC address of the interface of port `port`.
    pub fn mac_addr(&self, port: usize) -> (r: MacAddress)
        requires
            port < self@.ports.len(),
        ensures
            r == self@.ports[port as int].interface.ethernet.mac_address,
    {
        self.ports[port].interface.ethernet().mac_address
    }

    /// Returns true if port `port` is enabled.
    /// The address, subnet mask, enabled flag and RIP flag of port `port`.
    pub fn interface_config(&self, port: usize) -> (r: (Ipv4Address, Ipv4Address, bool, bool))
        requires
            port < self@.ports.len(),
        ensures
            r.0@ == self@.ports[port as int].interface.ip_address,
            r.1@ == self@.ports[port as int].interface.subnet_mask,
            r.2 == self@.ports[port as int].enabled,
            r.3 == self@.ports[port as int].rip_enabled,
    {
        let p = &self.ports[port];
        (p.interface.ip_address(), p.interface.subnet_mask(), p.enabled, p.rip_enabled)
    }

    /// The number of entries of the routing table.
    pub fn routes_len(&self) -> (r: usize)
        ensures
            r == self@.table.len(),
    {
        self.table.len()
    }

    /// Entry `i` of the routing table: a network address and its route.
    pub fn route_entry(&self, i: usize) -> (r: (Ipv4Address, Route))
        requires
            i < self@.table.len(),
        ensures
            (r.0@, r.1@) == self@.table[i as int],
    {
        self.table[i]
    }

    pub fn is_port_up(&self, port: usize) -> (r: bool)
        requires
            port < self@.ports.len(),
        ensures
            r == self@.ports[port as int].enabled,
    {
        self.ports[port].enabled
    }

    /// Returns the simulator ports of the router's interfaces, in port order.
    pub fn ports(&self) -> (r: Vec<usize>)
        ensures
            r@ == self@.ports.map_values(|p: RouterPortView| p.interface.ethernet.port),
    {
        let mut r: Vec<usize> = Vec::new();
        let mut i: usize = 0;
        while i < self.ports.len()
            invariant
                0 <= i <= self.ports@.len(),
                self@.ports.len() == self.ports@.len(),
                r@ == self@.ports.subrange(0, i as int).map_values(|p: RouterPortView| p.interface.ethernet.port),
            decreases self.ports@.len() - i,
        {
            r.push(self.ports[i].interface.ethernet().port);
            i = i + 1;
            assert(r@ =~= self@.ports.subrange(0, i as int).map_values(|p: RouterPortView| p.interface.ethernet.port));
        }
        assert(self@.ports.subrange(0, i as int) =~= self@.ports);
        r
    }
}


impl Router {
    /// Learns the routes of a RIP frame heard from `src` on `port`, in order.
    fn learn_routes(&mut self, rip: &RipFrame, src: Ipv4Address, port: usize, Ghost(n): Ghost<nat>)
        requires
            old(self)@.wf(n),
            port < 8,
            old(self)@.ports[port as int].enabled,
        ensures
            final(self)@.wf(n),
            final(self)@ == (RouterView { table: learn_routes(old(self)@.table, rip@.routes, src@, port), ..old(self)@ }),
    {
        let mut k: usize = 0;
        while k < rip.routes.len()
            invariant
                0 <= k <= rip@.routes.len(),
                rip@.routes.len() == rip.routes@.len(),
                port < 8,
                self@.wf(n),
                self@.ports == old(self)@.ports,
                self@.ports[port as int].enabled,
                self@ == (RouterView { table: learn_routes(old(self)@.table, rip@.routes.subrange(0, k as int), src@, port), ..old(self)@ }),
            decreases rip@.routes.len() - k,
        {
            assert(rip@.routes.subrange(0, k + 1).drop_last() =~= rip@.routes.subrange(0, k as int));
            let ghost t0 = self@.table;
            let rr = rip.routes[k];
            self.learn_route(&rr, src, port);
            proof {
                let metric = sat_inc(rr@.metric);
                let new = RouteView { ip_address: src@, subnet_mask: rr@.subnet_mask, metric, port };
                lemma_insert_unique(t0, rr@.ip_address, new);
                let t = self@.table;
                assert forall|i: int| 0 <= i < t.len() implies (#[trigger] t[i]).1.port < 8 && self@.ports[t[i].1.port as int].enabled by {
                    if t != t0 {
                        if i < t0.len() && t0[i].0 != rr@.ip_address {
                            assert(t[i] == t0[i]);
                        }
                    } else {
                        assert(t[i] == t0[i]);
                    }
                }
            }
            k = k + 1;
        }
        assert(rip@.routes.subrange(0, k as int) =~= rip@.routes);
    }

    /// Port `i` tells `dst` that a destination is unreachable.
    fn answer_unreachable(&mut self, sim: &mut CableSimulator, dst: Ipv4Address, i: usize, Ghost(k): Ghost<int>)
        requires
            old(self)@.wf(old(sim)@.ports.len()),
            old(sim).wf(),
            i < 8,
            k == i,
        ensures
            final(self)@.same_ports(old(self)@),
            final(self)@.wf(old(sim)@.ports.len()),
            final(sim).wf(),
            final(sim)@.ports.len() == old(sim)@.ports.len(),
            final(sim)@.simulated == old(sim)@.simulated,
            (final(self)@, final(sim)@.ports) == unreachable_answered(old(self)@, old(sim)@.ports, dst@, k),
    {
        let ghost p0 = self@.ports;
        let _ = self.ports[i].interface.send_icmp(sim, dst, IcmpType::Unreachable);
        assert(self@.ports =~= p0.update(k, RouterPortView { interface: self.ports@[k].interface@, ..p0[k] }));
    }

    /// Routes one frame received on port `i`; see `route_frame`.
    fn route_frame(&mut self, sim: &mut CableSimulator, frame: Ipv4Frame, i: usize)
        requires
            old(self)@.wf(old(sim)@.ports.len()),
            old(sim).wf(),
            i < 8,
            old(self)@.ports[i as int].enabled,
        ensures
            forall|k: int| 0 <= k < 8 ==> (#[trigger] final(self)@.ports[k]).enabled == old(self)@.ports[k].enabled,
            final(self)@.same_ports(old(self)@),
            final(self)@.wf(old(sim)@.ports.len()),
            final(sim).wf(),
            final(sim)@.ports.len() == old(sim)@.ports.len(),
            final(sim)@.simulated == old(sim)@.simulated,
            (final(self)@, final(sim)@.ports) == route_frame(old(self)@, old(sim)@.ports, frame@, i),
    {
        let ghost n = old(sim)@.ports.len();
        if is_ipv4_multicast_or_broadcast(&frame.destination) {
            match RipFrame::from_bytes(frame.data) {
                Ok(rip) => {
                    self.learn_routes(&rip, frame.source, i, Ghost(n));
                },
                Err(_) => {},
            }
            return;
        }
        match self.find_route_index(&frame.destination) {
            Some(j) => {
                let route = self.table[j].1;
                assert(self@.table[j as int] == (self.table@[j as int].0@, route@));
                if frame.ttl > 0 && known_protocol(frame.protocol) && frame.data.len() <= 65515 {
                    let protocol = Ipv4Protocol::from_value(frame.protocol);
                    let d = route.port;
                    let ghost p0 = self@.ports;
                    let _ = self.ports[d].interface.sendv(
                        sim,
                        frame.source,
                        frame.destination,
                        Some(route.ip_address),
                        frame.ttl - 1,
                        frame.data,
                        protocol,
                    );
                    assert(self@.ports =~= p0.update(d as int, RouterPortView { interface: self.ports@[d as int].interface@, ..p0[d as int] }));
                    proof {
                        assert forall|q: int| 0 <= q < 8 implies (#[trigger] self@.ports[q]).interface.ethernet.port < n by {
                            assert(old(self)@.ports[q].interface.ethernet.port < n);
                        }
                    }
                }
            },
            None => {
                self.answer_unreachable(sim, frame.source, i, Ghost(i as int));
            },
        }
    }
}


impl Router {
    /// Routes the frames received on each port, port by port: a disabled port drops its frames;
    /// the frames of an enabled port are received by its interface, and the IPv4 frames it keeps
    /// are routed; see `route_frame`.
    pub fn route(&mut self, sim: &mut CableSimulator)
        requires
            old(self)@.wf(old(sim)@.ports.len()),
            old(sim).wf(),
        ensures
            final(self)@.same_ports(old(self)@),
            final(self)@.wf(old(sim)@.ports.len()),
            final(sim).wf(),
            final(sim)@.ports.len() == old(sim)@.ports.len(),
            final(sim)@.simulated == old(sim)@.simulated,
            (final(self)@, final(sim)@.ports) == route_upto(old(self)@, old(sim)@.ports, 8),
    {
        let ghost n = old(sim)@.ports.len();
        proof {
            reveal_with_fuel(route_upto, 1);
        }
        let mut i: usize = 0;
        while i < 8
            invariant
                0 <= i <= 8,
                self@.wf(n),
                sim.wf(),
                sim@.ports.len() == n,
                sim@.simulated == old(sim)@.simulated,
                self@.same_ports(old(self)@),
                (self@, sim@.ports) == route_upto(old(self)@, old(sim)@.ports, i as int),
            decreases 8 - i,
        {
            proof {
                reveal_with_fuel(route_upto, 2);
                reveal_with_fuel(route_frames, 1);
            }
            let ghost rt0 = self@;
            let ghost ports0 = sim@.ports;
            assert(self@.ports[i as int] == self.ports@[i as int]@);
            if !self.ports[i].enabled {
                let mut eth = self.ports[i].interface.ethernet();
                let _ = eth.receive(sim);
            } else {
                let ghost p0 = self@.ports;
                let mut frames = self.ports[i].interface.receive(sim);
                assert(self@.ports =~= p0.update(i as int, RouterPortView { interface: self.ports@[i as int].interface@, ..p0[i as int] }));
                proof {
                    assert forall|q: int| 0 <= q < 8 implies (#[trigger] self@.ports[q]).interface.ethernet.port < n by {
                        assert(rt0.ports[q].interface.ethernet.port < n);
                    }
                }
                let ghost rt1 = self@;
                let ghost ports1 = sim@.ports;
                let ghost fs = ipv4_views(frames@);
                let ghost len = fs.len();
                assert(ipv4_views(frames@) =~= fs.subrange(0, len as int));
                while frames.len() > 0
                    invariant
                        len == fs.len(),
                        frames@.len() <= len,
                        i < 8,
                        self@.wf(n),
                        sim.wf(),
                        sim@.ports.len() == n,
                        sim@.simulated == old(sim)@.simulated,
                        self@.same_ports(old(self)@),
                        self@.ports[i as int].enabled,
                        ipv4_views(frames@) =~= fs.subrange(len - frames@.len(), len as int),
                        (self@, sim@.ports) == route_frames(rt1, ports1, fs.subrange(0, len - frames@.len()), i),
                    decreases frames@.len(),
                {
                    proof {
                        reveal_with_fuel(route_frames, 2);
                    }
                    let ghost k = len - frames@.len();
                    let ghost rest = frames@;
                    let f = frames.remove(0);
                    assert(ipv4_views(rest)[0] == f@);
                    assert(fs[k] == f@);
                    assert(fs.subrange(0, k + 1).drop_last() =~= fs.subrange(0, k));
                    assert(fs.subrange(0, k + 1).last() == fs[k]);
                    self.route_frame(sim, f, i);
                    assert forall|j: int| 0 <= j < frames@.len() implies ipv4_views(frames@)[j] == fs[k + 1 + j] by {
                        assert(frames@[j] == rest[j + 1]);
                        assert(ipv4_views(rest)[j + 1] == fs.subrange(k, len as int)[j + 1]);
                    }
                    assert(ipv4_views(frames@) =~= fs.subrange(len - frames@.len(), len as int));
                }
                assert(fs.subrange(0, len as int) =~= fs);
            }
            i = i + 1;
        }
    }

    /// Multicasts the announcement of the routing table on every port enabled with RIP; see
    /// `announced`.
    pub fn send_rip_frames(&mut self, sim: &mut CableSimulator)
        requires
            old(self)@.wf(old(sim)@.ports.len()),
            old(sim).wf(),
        ensures
            final(self)@ == old(self)@,
            final(sim).wf(),
            final(sim)@.ports.len() == old(sim)@.ports.len(),
            final(sim)@.simulated == old(sim)@.simulated,
            final(sim)@.ports == announced(old(self)@, old(sim)@.ports),
    {
        let ghost n = old(sim)@.ports.len();
        let data = self.create_rip_frame().to_bytes();
        if data.len() % 65536 > 65515 {
            return;
        }
        proof {
            reveal_with_fuel(announce_upto, 1);
        }
        let mut i: usize = 0;
        while i < 8
            invariant
                0 <= i <= 8,
                self@ == old(self)@,
                self@.wf(n),
                data@ == rip_announcement(self@.table).bytes(),
                data@.len() % 0x1_0000 + 20 <= 0xFFFF,
                sim.wf(),
                sim@.ports.len() == n,
                sim@.simulated == old(sim)@.simulated,
                sim@.ports == announce_upto(self@, old(sim)@.ports, i as int),
            decreases 8 - i,
        {
            proof {
                reveal_with_fuel(announce_upto, 2);
            }
            assert(self@.ports[i as int] == self.ports@[i as int]@);
            if self.ports[i].enabled && self.ports[i].rip_enabled {
                let copy = copy_range(data.as_slice(), 0, data.len());
                assert(copy@ =~= data@);
                let ghost p0 = self@.ports;
                self.ports[i].interface.multicast(sim, copy, Ipv4Protocol::Rip);
                assert(self@.ports =~= p0);
            }
            i = i + 1;
        }
    }

    /// Enables RIP on port `port`: multicasts the announcement of the routing table on it (unless
    /// it cannot be framed, see `announcement_fits`), and schedules the announcements every 5 seconds from `now` on.
    pub fn enable_rip(&mut self, sim: &mut CableSimulator, port: usize, now: u128)
        requires
            old(self)@.wf(old(sim)@.ports.len()),
            old(sim).wf(),
            port < 8,
            old(self)@.ports[port as int].enabled,
            now + 5 * NANOS_PER_SEC <= u128::MAX,
        ensures
            final(self)@.same_ports(old(self)@),
            final(self)@.wf(old(sim)@.ports.len()),
            final(sim).wf(),
            final(sim)@.ports.len() == old(sim)@.ports.len(),
            final(sim)@.simulated == old(sim)@.simulated,
            (final(self)@, final(sim)@.ports) == rip_started(old(self)@, old(sim)@.ports, port, now),
    {
        let data = self.create_rip_frame().to_bytes();
        self.rip_enabled = true;
        self.ports[port].rip_enabled = true;
        let ghost p0 = self@.ports;
        if data.len() % 65536 <= 65515 {
            self.ports[port].interface.multicast(sim, data, Ipv4Protocol::Rip);
        }
        assert(self@.ports =~= p0);
        assert(self@.ports =~= old(self)@.ports.update(port as int, RouterPortView { rip_enabled: true, ..old(self)@.ports[port as int] }));
        self.timer.schedule(RIP_MULTICAST, 5, true, now);
    }

    /// Connects `interface` to port `port` of the router with a cable (bi-directional).
    pub fn connect(&mut self, sim: &mut CableSimulator, port: usize, interface: &mut Ipv4Interface)
        requires
            old(self)@.wf(old(sim)@.ports.len()),
            old(sim).wf(),
            port < 8,
            old(interface).valid_in(old(sim)@.ports),
            old(self)@.ports[port as int].interface.ethernet.port != old(interface)@.ethernet.port,
        ensures
            final(self)@ == old(self)@,
            final(interface)@ == old(interface)@,
            final(sim).wf(),
            final(sim)@.simulated == old(sim)@.simulated,
            final(sim)@.ports == cabled(old(sim)@.ports, old(self)@.ports[port as int].interface.ethernet.port, old(interface)@.ethernet.port),
    {
        let ghost p0 = self@.ports;
        self.ports[port].interface.connect(sim, interface);
        assert(self@.ports =~= p0);
    }

    /// Connects port `port` of this router to port `other_port` of `other_router` with a cable
    /// (bi-directional); both ports must be enabled.
    pub fn connect_router(&mut self, sim: &mut CableSimulator, port: usize, other_router: &mut Router, other_port: usize)
        requires
            old(self)@.wf(old(sim)@.ports.len()),
            old(other_router)@.wf(old(sim)@.ports.len()),
            old(sim).wf(),
            port < 8,
            other_port < 8,
            old(self)@.ports[port as int].enabled,
            old(other_router)@.ports[other_port as int].enabled,
            old(self)@.ports[port as int].interface.ethernet.port != old(other_router)@.ports[other_port as int].interface.ethernet.port,
        ensures
            final(self)@ == old(self)@,
            final(other_router)@ == old(other_router)@,
            final(sim).wf(),
            final(sim)@.simulated == old(sim)@.simulated,
            final(sim)@.ports == cabled(
                old(sim)@.ports,
                old(self)@.ports[port as int].interface.ethernet.port,
                old(other_router)@.ports[other_port as int].interface.ethernet.port,
            ),
    {
        let ghost p0 = self@.ports;
        let ghost q0 = other_router@.ports;
        self.ports[port].interface.connect(sim, &mut other_router.ports[other_port].interface);
        assert(self@.ports =~= p0);
        assert(other_router@.ports =~= q0);
    }

    /// Disconnects port `port`: its cable is unplugged; when it is enabled, its routes are also
    /// dropped and it is disabled (RIP too).
    pub fn disconnect(&mut self, sim: &mut CableSimulator, port: usize)
        requires
            old(self)@.wf(old(sim)@.ports.len()),
            old(sim).wf(),
            port < 8,
        ensures
            final(self)@.same_ports(old(self)@),
            final(self)@.wf(old(sim)@.ports.len()),
            final(sim).wf(),
            final(sim)@.simulated == old(sim)@.simulated,
            final(sim)@.ports.len() == old(sim)@.ports.len(),
            (final(self)@, final(sim)@.ports) == router_disconnected(old(self)@, old(sim)@.ports, port),
            !final(self)@.ports[port as int].enabled,
            !final(self)@.ports[port as int].rip_enabled,
            forall|i: int| 0 <= i < final(self)@.table.len() ==> (#[trigger] final(self)@.table[i]).1.port != port,
            final(sim)@.ports[old(self)@.ports[port as int].interface.ethernet.port as int].connection is None,
            forall|j: int| 0 <= j < old(self)@.table.len() && (#[trigger] old(self)@.table[j]).1.port != port
                ==> final(self)@.table.contains(old(self)@.table[j]),
            forall|m: int| 0 <= m < final(self)@.table.len() ==> old(self)@.table.contains(#[trigger] final(self)@.table[m]),
    {
        let ghost n = old(sim)@.ports.len();
        proof {
            lemma_disconnect_keeps_other_routes(old(self)@, old(sim)@.ports, port, n);
        }
        if !self.ports[port].enabled {
            let ghost p0 = self@.ports;
            self.ports[port].interface.disconnect(sim);
            assert(self@.ports =~= p0);
            return;
        }
        let mut kept: Vec<(Ipv4Address, Route)> = Vec::new();
        let mut i: usize = 0;
        while i < self.table.len()
            invariant
                0 <= i <= self.table@.len(),
                self@ == old(self)@,
                self@.table.len() == self.table@.len(),
                kept@.map_values(|e: (Ipv4Address, Route)| (e.0@, e.1@)) == table_without_port(self@.table, port, i as int),
            decreases self.table@.len() - i,
        {
            let e = self.table[i];
            assert(self@.table[i as int] == (e.0@, e.1@));
            let ghost k0 = kept@;
            if e.1.port != port {
                kept.push(e);
                assert(kept@.map_values(|e: (Ipv4Address, Route)| (e.0@, e.1@)) =~= k0.map_values(|e: (Ipv4Address, Route)| (e.0@, e.1@)).push((e.0@, e.1@)));
            }
            i = i + 1;
        }
        proof {
            lemma_without_port(old(self)@.table, port, old(self)@.table.len() as int);
        }
        self.table = kept;
        let ghost p0 = self@.ports;
        self.ports[port].interface.disconnect(sim);
        self.ports[port].enabled = false;
        self.ports[port].rip_enabled = false;
        assert(self@.ports =~= old(self)@.ports.update(port as int, RouterPortView { enabled: false, rip_enabled: false, ..old(self)@.ports[port as int] }));
        proof {
            let t = self@.table;
            let t0 = old(self)@.table;
            assert forall|m: int| 0 <= m < t.len() implies (#[trigger] t[m]).1.port < 8 && self@.ports[t[m].1.port as int].enabled by {
                let j = choose|j: int| 0 <= j < t0.len() && t[m] == t0[j];
                assert(t0[j].1.port < 8);
                assert(old(self)@.ports[t0[j].1.port as int].enabled);
            }
            assert forall|q: int| 0 <= q < 8 implies (#[trigger] self@.ports[q]).interface.ethernet.port < n by {
                assert(old(self)@.ports[q].interface.ethernet.port < n);
            }
        }
    }

    /// Receives the IPv4 frames of port `port` with its interface, instead of routing them.
    pub fn receive_port(&mut self, sim: &mut CableSimulator, port: usize) -> (r: Vec<Ipv4Frame>)
        requires
            old(self)@.wf(old(sim)@.ports.len()),
            old(sim).wf(),
            port < 8,
        ensures
            final(self)@.same_ports(old(self)@),
            final(self)@.wf(old(sim)@.ports.len()),
            final(sim).wf(),
            final(sim)@.ports.len() == old(sim)@.ports.len(),
            final(sim)@.simulated == old(sim)@.simulated,
            ({
                let rx = receive_spec(old(self)@.ports[port as int].interface, old(sim)@.ports);
                &&& final(self)@ == old(self)@.set_iface(port as int, rx.0)
                &&& final(sim)@.ports == rx.1
                &&& ipv4_views(r@) == rx.2
            }),
    {
        let ghost n = old(sim)@.ports.len();
        let ghost p0 = self@.ports;
        let r = self.ports[port].interface.receive(sim);
        assert(self@.ports =~= p0.update(port as int, RouterPortView { interface: self.ports@[port as int].interface@, ..p0[port as int] }));
        proof {
            assert forall|q: int| 0 <= q < 8 implies (#[trigger] self@.ports[q]).interface.ethernet.port < n by {
                assert(old(self)@.ports[q].interface.ethernet.port < n);
            }
        }
        r
    }

}


impl Tickable for Router {
    open spec fn valid_in(&self, n: nat) -> bool {
        self@.wf(n)
    }

    /// One tick of the router at `now`: routes the received frames, sends the RIP announcements
    /// if they are due, and ticks the timer.
    fn tick(&mut self, sim: &mut CableSimulator, now: u128)
        ensures
            final(self)@.same_ports(old(self)@),
            final(self)@.wf(old(sim)@.ports.len()),
            final(sim).wf(),
            final(sim)@.ports.len() == old(sim)@.ports.len(),
            final(sim)@.simulated == old(sim)@.simulated,
            (final(self)@, final(sim)@.ports) == router_ticked(old(self)@, old(sim)@.ports, now),
    {
        let ghost n = old(sim)@.ports.len();
        self.route(sim);
        let ghost rt0 = self@;
        let ghost ports0 = sim@.ports;
        let keys = self.timer.ready(now);
        let mut i: usize = 0;
        while i < keys.len()
            invariant
                0 <= i <= keys@.len(),
                self@ == rt0,
                rt0.wf(n),
                sim.wf(),
                sim@.ports.len() == n,
                sim@.simulated == old(sim)@.simulated,
                sim@.ports == announce_times(rt0, ports0, keys@.subrange(0, i as int)),
            decreases keys@.len() - i,
        {
            assert(keys@.subrange(0, i + 1).drop_last() =~= keys@.subrange(0, i as int));
            if keys[i] == RIP_MULTICAST {
                self.send_rip_frames(sim);
            }
            i = i + 1;
        }
        assert(keys@.subrange(0, i as int) =~= keys@);
        self.timer.tick(now);
        assert(self@.ports == rt0.ports && self@.table == rt0.table);
    }
}

} // verus!
