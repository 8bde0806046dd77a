//! Physical ports and the cables between them.
//!
//! All ports live in the port table of a [`CableSimulator`]; devices hold the index of their
//! ports. A tick of the simulator moves every outgoing frame of the simulated ports onto the
//! incoming buffer of the port at the other end of the cable.

use vstd::prelude::*;

verus! {

/// The bytes of each frame in a buffer.
pub open spec fn frames(v: Seq<Vec<u8>>) -> Seq<Seq<u8>> {
    v.map_values(|x: Vec<u8>| x@)
}

pub proof fn lemma_frames_add(a: Seq<Vec<u8>>, b: Seq<Vec<u8>>)
    ensures
        frames(a + b) == frames(a) + frames(b),
{
    assert(frames(a + b) =~= frames(a) + frames(b));
}

pub proof fn lemma_frames_push(a: Seq<Vec<u8>>, x: Vec<u8>)
    ensures
        frames(a.push(x)) == frames(a).push(x@),
{
    assert(frames(a.push(x)) =~= frames(a).push(x@));
}

/// The abstract state of a port: frames received but not yet read, frames sent but not yet
/// carried, and the index of the port at the other end of its cable.
pub struct EthernetPortView {
    pub incoming: Seq<Seq<u8>>,
    pub outgoing: Seq<Seq<u8>>,
    pub connection: Option<usize>,
}

/// A physical ethernet port capable of sending and receiving frames via a cable.
///
/// Frames are kept apart in the buffers (one `Vec<u8>` per frame), as the interpacket gap keeps
/// them apart on a real cable.
#[derive(Debug, Clone)]
pub struct EthernetPort {
    /// Frames received from the cable.
    incoming_buffer: Vec<Vec<u8>>,
    /// Frames to be carried to the other end by the simulator.
    outgoing_buffer: Vec<Vec<u8>>,
    /// The port at the other end of the cable; `None` if no cable is plugged in.
    connection: Option<usize>,
}

impl View for EthernetPort {
    type V = EthernetPortView;

    closed spec fn view(&self) -> EthernetPortView {
        EthernetPortView {
            incoming: frames(self.incoming_buffer@),
            outgoing: frames(self.outgoing_buffer@),
            connection: self.connection,
        }
    }
}

impl EthernetPort {
    /// A port with empty buffers and no cable.
    pub fn new() -> (r: EthernetPort)
        ensures
            r@ == (EthernetPortView {
                incoming: Seq::empty(),
                outgoing: Seq::empty(),
                connection: None,
            }),
    {
        let r = EthernetPort {
            incoming_buffer: Vec::new(),
            outgoing_buffer: Vec::new(),
            connection: None,
        };
        assert(r@.incoming =~= Seq::empty());
        assert(r@.outgoing =~= Seq::empty());
        r
    }

    /// The port at the other end of the cable, if any.
    pub fn connection(&self) -> (r: Option<usize>)
        ensures
            r == self@.connection,
    {
        self.connection
    }

    /// Appends a frame to the outgoing buffer.
    pub fn send(&mut self, data: Vec<u8>)
        ensures
            final(self)@ == (EthernetPortView { outgoing: old(self)@.outgoing.push(data@), ..old(self)@ }),
    {
        proof {
            lemma_frames_push(self.outgoing_buffer@, data);
        }
        self.outgoing_buffer.push(data);
    }

    /// Appends a frame to the incoming buffer, as the cable does.
    pub fn deliver(&mut self, data: Vec<u8>)
        ensures
            final(self)@ == (EthernetPortView { incoming: old(self)@.incoming.push(data@), ..old(self)@ }),
    {
        proof {
            lemma_frames_push(self.incoming_buffer@, data);
        }
        self.incoming_buffer.push(data);
    }

    /// Clears the outgoing buffer and appends it to the other's incoming buffer.
    pub fn consume_outgoing(&mut self, consumable: &mut EthernetPort)
        ensures
            final(self)@ == (EthernetPortView { outgoing: Seq::empty(), ..old(self)@ }),
            final(consumable)@ == (EthernetPortView {
                incoming: old(consumable)@.incoming + old(self)@.outgoing,
                ..old(consumable)@
            }),
    {
        proof {
            lemma_frames_add(consumable.incoming_buffer@, self.outgoing_buffer@);
        }
        consumable.incoming_buffer.append(&mut self.outgoing_buffer);
        assert(frames(self.outgoing_buffer@) =~= Seq::empty());
    }

    /// Clears the incoming buffer and returns it.
    pub fn consume_incoming(&mut self) -> (r: Vec<Vec<u8>>)
        ensures
            frames(r@) == old(self)@.incoming,
            final(self)@ == (EthernetPortView { incoming: Seq::empty(), ..old(self)@ }),
    {
        let mut incoming: Vec<Vec<u8>> = Vec::new();
        incoming.append(&mut self.incoming_buffer);
        assert(incoming@ =~= old(self).incoming_buffer@);
        assert(frames(self.incoming_buffer@) =~= Seq::empty());
        incoming
    }

    /// Returns true if there are frames in the outgoing buffer.
    pub fn has_outgoing(&self) -> (r: bool)
        ensures
            r == (self@.outgoing.len() > 0),
    {
        self.outgoing_buffer.len() > 0
    }

    /// Unplugs the cable from this end.
    pub fn disconnect(&mut self)
        ensures
            final(self)@ == (EthernetPortView { connection: None, ..old(self)@ }),
    {
        self.connection = None;
    }
}


/// The abstract state of the simulator: its port table, and the ports it carries frames for,
/// in the order they were added.
pub struct CableSimulatorView {
    pub ports: Seq<EthernetPortView>,
    pub simulated: Seq<usize>,
}

/// An empty port.
pub open spec fn empty_port() -> EthernetPortView {
    EthernetPortView { incoming: Seq::empty(), outgoing: Seq::empty(), connection: None }
}

/// Carries the outgoing frames of port `id` to the port at the other end of its cable; frames
/// of a port without a cable are dropped.
pub open spec fn carry(ports: Seq<EthernetPortView>, id: usize) -> Seq<EthernetPortView> {
    let p = ports[id as int];
    let cleared = ports.update(id as int, EthernetPortView { outgoing: Seq::empty(), ..p });
    match p.connection {
        Some(c) => cleared.update(
            c as int,
            EthernetPortView { incoming: cleared[c as int].incoming + p.outgoing, ..cleared[c as int] },
        ),
        None => cleared,
    }
}

/// The port table after carrying the frames of each port of `ids`, in order.
pub open spec fn carry_all(ports: Seq<EthernetPortView>, ids: Seq<usize>) -> Seq<EthernetPortView>
    decreases ids.len(),
{
    if ids.len() == 0 {
        ports
    } else {
        carry(carry_all(ports, ids.drop_last()), ids.last())
    }
}

/// The port table after plugging a cable between ports `a` and `b`.
pub open spec fn cabled(ports: Seq<EthernetPortView>, a: usize, b: usize) -> Seq<EthernetPortView> {
    let p1 = ports.update(a as int, EthernetPortView { connection: Some(b), ..ports[a as int] });
    p1.update(b as int, EthernetPortView { connection: Some(a), ..p1[b as int] })
}

/// The port table after unplugging the cable of port `a` from both its ends.
pub open spec fn uncabled(ports: Seq<EthernetPortView>, a: usize) -> Seq<EthernetPortView> {
    let p1 = match ports[a as int].connection {
        Some(b) => if ports[b as int].connection == Some(a) {
            ports.update(b as int, EthernetPortView { connection: None, ..ports[b as int] })
        } else {
            ports
        },
        None => ports,
    };
    p1.update(a as int, EthernetPortView { connection: None, ..ports[a as int] })
}

/// Every cable leads to another port of the table.
pub open spec fn cables_in_table(ports: Seq<EthernetPortView>) -> bool {
    forall|i: int|
        0 <= i < ports.len() ==> (#[trigger] ports[i].connection matches Some(c) ==> c < ports.len() && c != i)
}

/// Carrying frames changes no cable.
pub proof fn lemma_carry_keeps_cables(ports: Seq<EthernetPortView>, id: usize, i: int)
    requires
        id < ports.len(),
        cables_in_table(ports),
        0 <= i < ports.len(),
    ensures
        carry(ports, id).len() == ports.len(),
        carry(ports, id)[i].connection == ports[i].connection,
{
}

/// The frames that the carrying of ports `ids[0..j]` brings to port `q`: the outgoing frames of
/// each of them whose cable leads to `q`, in order.
pub open spec fn carried_to(ports: Seq<EthernetPortView>, ids: Seq<usize>, q: int, j: int) -> Seq<Seq<u8>>
    decreases j,
{
    if j <= 0 {
        Seq::empty()
    } else {
        carried_to(ports, ids, q, j - 1) + if ports[ids[j - 1] as int].connection matches Some(c) && c == q {
            ports[ids[j - 1] as int].outgoing
        } else {
            Seq::empty()
        }
    }
}

/// A tick of the simulator, over ports that are each simulated once: every simulated port's
/// outgoing buffer is emptied, other outgoing buffers are kept, no cable changes, and each port
/// receives, after what it already held, the outgoing frames of the simulated ports cabled to
/// it, in the order the ports were added.
pub proof fn lemma_tick_carries(ports: Seq<EthernetPortView>, ids: Seq<usize>, j: int)
    requires
        0 <= j <= ids.len(),
        cables_in_table(ports),
        forall|k: int| 0 <= k < ids.len() ==> #[trigger] ids[k] < ports.len(),
        forall|k: int, m: int| 0 <= k < m < ids.len() ==> ids[k] != ids[m],
    ensures
        carry_all(ports, ids.subrange(0, j)).len() == ports.len(),
        forall|q: int| 0 <= q < ports.len() ==> {
            let r = #[trigger] carry_all(ports, ids.subrange(0, j))[q];
            &&& r.connection == ports[q].connection
            &&& r.incoming == ports[q].incoming + carried_to(ports, ids, q, j)
            &&& r.outgoing == if (exists|k: int| 0 <= k < j && ids[k] == q) {
                Seq::<Seq<u8>>::empty()
            } else {
                ports[q].outgoing
            }
        },
    decreases j,
{
    let pre = ids.subrange(0, j);
    if j == 0 {
        assert forall|q: int| 0 <= q < ports.len() implies {
            let r = #[trigger] carry_all(ports, pre)[q];
            &&& r.connection == ports[q].connection
            &&& r.incoming == ports[q].incoming + carried_to(ports, ids, q, j)
            &&& r.outgoing == if (exists|k: int| 0 <= k < j && ids[k] == q) {
                Seq::<Seq<u8>>::empty()
            } else {
                ports[q].outgoing
            }
        } by {
            assert(ports[q].incoming + carried_to(ports, ids, q, 0) =~= ports[q].incoming);
        }
    } else {
        lemma_tick_carries(ports, ids, j - 1);
        let prev_ids = ids.subrange(0, j - 1);
        assert(pre.drop_last() =~= prev_ids);
        assert(pre.last() == ids[j - 1]);
        let prev = carry_all(ports, prev_ids);
        let id = ids[j - 1];
        assert(prev[id as int].outgoing == ports[id as int].outgoing) by {
            if exists|k: int| 0 <= k < j - 1 && ids[k] == id {
                let k = choose|k: int| 0 <= k < j - 1 && ids[k] == id;
                assert(ids[k] != ids[j - 1]);
            }
        }
        assert(prev[id as int].connection == ports[id as int].connection);
        assert forall|q: int| 0 <= q < ports.len() implies {
            let r = #[trigger] carry_all(ports, pre)[q];
            &&& r.connection == ports[q].connection
            &&& r.incoming == ports[q].incoming + carried_to(ports, ids, q, j)
            &&& r.outgoing == if (exists|k: int| 0 <= k < j && ids[k] == q) {
                Seq::<Seq<u8>>::empty()
            } else {
                ports[q].outgoing
            }
        } by {
            let r = carry_all(ports, pre)[q];
            assert(carry_all(ports, pre) == carry(prev, id));
            assert(prev[q].incoming == ports[q].incoming + carried_to(ports, ids, q, j - 1));
            if ports[id as int].connection matches Some(c) && c == q {
                assert(carried_to(ports, ids, q, j) == carried_to(ports, ids, q, j - 1) + ports[id as int].outgoing);
                let pid = prev[id as int];
                let cleared = prev.update(id as int, EthernetPortView { outgoing: Seq::empty(), ..pid });
                assert(cleared[q].incoming == prev[q].incoming);
                assert(carry(prev, id) == cleared.update(q, EthernetPortView { incoming: cleared[q].incoming + pid.outgoing, ..cleared[q] }));
                assert(r.incoming == prev[q].incoming + prev[id as int].outgoing);
                assert(r.incoming =~= ports[q].incoming + carried_to(ports, ids, q, j));
            } else {
                assert(r.incoming =~= ports[q].incoming + carried_to(ports, ids, q, j));
            }
            if q == id {
                assert(exists|k: int| 0 <= k < j && ids[k] == q) by {
                    assert(ids[j - 1] == q);
                }
            } else {
                assert((exists|k: int| 0 <= k < j && ids[k] == q) == (exists|k: int| 0 <= k < j - 1 && ids[k] == q)) by {
                    if exists|k: int| 0 <= k < j && ids[k] == q {
                        let k = choose|k: int| 0 <= k < j && ids[k] == q;
                        assert(k < j - 1);
                    }
                }
            }
        }
    }
}

/// When cables between simulated ports go both ways, the only simulated port that carries to
/// port `b` is the one at the other end of `b`'s cable.
pub proof fn lemma_carried_from_peer(ports: Seq<EthernetPortView>, ids: Seq<usize>, b: usize, k0: int, j: int)
    requires
        0 <= j <= ids.len(),
        0 <= k0 < ids.len(),
        ports[ids[k0] as int].connection == Some(b),
        forall|k: int, m: int| 0 <= k < m < ids.len() ==> ids[k] != ids[m],
        forall|k: int| 0 <= k < ids.len() ==> ((#[trigger] ports[ids[k] as int]).connection matches Some(c) ==> ports[c as int].connection == Some(ids[k])),
    ensures
        carried_to(ports, ids, b as int, j) == if k0 < j { ports[ids[k0] as int].outgoing } else { Seq::<Seq<u8>>::empty() },
    decreases j,
{
    if j > 0 {
        lemma_carried_from_peer(ports, ids, b, k0, j - 1);
        let k = j - 1;
        if k != k0 {
            if ports[ids[k] as int].connection matches Some(c) && c == b {
                assert(ports[b as int].connection == Some(ids[k]));
                assert(ports[b as int].connection == Some(ids[k0]));
                if k < k0 {
                    assert(ids[k] != ids[k0]);
                } else {
                    assert(ids[k0] != ids[k]);
                }
            }
            assert(carried_to(ports, ids, b as int, j) =~= carried_to(ports, ids, b as int, j - 1));
        } else {
            assert(carried_to(ports, ids, b as int, j) =~= carried_to(ports, ids, b as int, j - 1) + ports[ids[k0] as int].outgoing);
        }
    }
}

/// A tick delivers over each cable: when the simulated ports are each simulated once and their
/// cables go both ways, the frames waiting at the port `ids[k0]` arrive, in order, after the
/// frames already received at the other end `b` of its cable; the sending port's outgoing
/// buffer is emptied.
pub proof fn lemma_tick_delivers(ports: Seq<EthernetPortView>, ids: Seq<usize>, k0: int, b: usize)
    requires
        cables_in_table(ports),
        forall|k: int| 0 <= k < ids.len() ==> #[trigger] ids[k] < ports.len(),
        forall|k: int, m: int| 0 <= k < m < ids.len() ==> ids[k] != ids[m],
        forall|k: int| 0 <= k < ids.len() ==> ((#[trigger] ports[ids[k] as int]).connection matches Some(c) ==> ports[c as int].connection == Some(ids[k])),
        0 <= k0 < ids.len(),
        ports[ids[k0] as int].connection == Some(b),
    ensures
        carry_all(ports, ids)[b as int].incoming == ports[b as int].incoming + ports[ids[k0] as int].outgoing,
        carry_all(ports, ids)[ids[k0] as int].outgoing == Seq::<Seq<u8>>::empty(),
{
    lemma_tick_carries(ports, ids, ids.len() as int);
    assert(ids.subrange(0, ids.len() as int) =~= ids);
    lemma_carried_from_peer(ports, ids, b, k0, ids.len() as int);
    assert(b < ports.len());
    let r = carry_all(ports, ids);
    assert(r[b as int] == carry_all(ports, ids.subrange(0, ids.len() as int))[b as int]);
    assert(r[ids[k0] as int] == carry_all(ports, ids.subrange(0, ids.len() as int))[ids[k0] as int]);
    assert(exists|k: int| 0 <= k < ids.len() && ids[k] == ids[k0]);
}

/// Simulates the movement of data over the cables between ports.
///
/// Holds the table of all ports, and the ports whose outgoing frames it carries.
pub struct CableSimulator {
    ports: Vec<EthernetPort>,
    simulated: Vec<usize>,
}

impl View for CableSimulator {
    type V = CableSimulatorView;

    closed spec fn view(&self) -> CableSimulatorView {
        CableSimulatorView { ports: self.ports@.map_values(|p: EthernetPort| p@), simulated: self.simulated@ }
    }
}

impl CableSimulator {
    /// The simulated ports and every cable are in the port table.
    pub open spec fn wf(&self) -> bool {
        &&& cables_in_table(self@.ports)
        &&& forall|k: int| 0 <= k < self@.simulated.len() ==> #[trigger] self@.simulated[k] < self@.ports.len()
    }

    /// A simulator with no ports.
    pub fn new() -> (r: CableSimulator)
        ensures
            r.wf(),
            r@.ports == Seq::<EthernetPortView>::empty(),
            r@.simulated == Seq::<usize>::empty(),
    {
        let r = CableSimulator { ports: Vec::new(), simulated: Vec::new() };
        assert(r@.ports =~= Seq::<EthernetPortView>::empty());
        r
    }

    /// Adds a new port, with empty buffers and no cable, to the port table.
    pub fn new_port(&mut self) -> (id: usize)
        requires
            old(self).wf(),
        ensures
            final(self).wf(),
            id == old(self)@.ports.len(),
            final(self)@.ports == old(self)@.ports.push(empty_port()),
            final(self)@.simulated == old(self)@.simulated,
    {
        let id = self.ports.len();
        let p = EthernetPort::new();
        self.ports.push(p);
        assert(self@.ports =~= old(self)@.ports.push(empty_port()));
        proof {
            let ports = self@.ports;
            assert forall|i: int| 0 <= i < ports.len() implies (#[trigger] ports[i].connection matches Some(c) ==> c < ports.len()) by {
                if i < old(self)@.ports.len() {
                    assert(old(self)@.ports[i].connection == ports[i].connection);
                }
            }
            assert forall|k: int| 0 <= k < self@.simulated.len() implies #[trigger] self@.simulated[k] < self@.ports.len() by {
                assert(old(self)@.simulated[k] < old(self)@.ports.len());
            }
        }
        id
    }

    /// Adds a port to the ports whose frames the simulator carries.
    pub fn add(&mut self, ethernet_port: usize)
        requires
            old(self).wf(),
            ethernet_port < old(self)@.ports.len(),
        ensures
            final(self).wf(),
            final(self)@.ports == old(self)@.ports,
            final(self)@.simulated == old(self)@.simulated.push(ethernet_port),
    {
        self.simulated.push(ethernet_port);
        assert(self@.ports =~= old(self)@.ports);
        assert forall|k: int| 0 <= k < self@.simulated.len() implies #[trigger] self@.simulated[k] < self@.ports.len() by {
            if k < old(self)@.simulated.len() {
                assert(old(self)@.simulated[k] < old(self)@.ports.len());
            }
        }
    }

    /// Adds several ports to the ports whose frames the simulator carries.
    pub fn adds(&mut self, ethernet_ports: Vec<usize>)
        requires
            old(self).wf(),
            forall|k: int| 0 <= k < ethernet_ports@.len() ==> #[trigger] ethernet_ports@[k] < old(self)@.ports.len(),
        ensures
            final(self).wf(),
            final(self)@.ports == old(self)@.ports,
            final(self)@.simulated == old(self)@.simulated + ethernet_ports@,
    {
        let mut i: usize = 0;
        while i < ethernet_ports.len()
            invariant
                0 <= i <= ethernet_ports@.len(),
                self.wf(),
                self@.ports == old(self)@.ports,
                self@.simulated == old(self)@.simulated + ethernet_ports@.subrange(0, i as int),
                forall|k: int| 0 <= k < ethernet_ports@.len() ==> #[trigger] ethernet_ports@[k] < old(self)@.ports.len(),
            decreases ethernet_ports@.len() - i,
        {
            self.add(ethernet_ports[i]);
            i = i + 1;
            assert(self@.simulated =~= old(self)@.simulated + ethernet_ports@.subrange(0, i as int));
        }
        assert(ethernet_ports@.subrange(0, i as int) =~= ethernet_ports@);
    }

    /// The port with index `id`.
    pub fn port(&self, id: usize) -> (r: &EthernetPort)
        requires
            id < self@.ports.len(),
        ensures
            r@ == self@.ports[id as int],
    {
        &self.ports[id]
    }

    /// Returns true if the port has frames waiting to be carried.
    pub fn has_outgoing(&self, id: usize) -> (r: bool)
        requires
            id < self@.ports.len(),
        ensures
            r == (self@.ports[id as int].outgoing.len() > 0),
    {
        self.ports[id].has_outgoing()
    }

    /// Replaces port `id` by `p`.
    fn put(&mut self, id: usize, p: EthernetPort)
        requires
            id < old(self)@.ports.len(),
        ensures
            final(self)@.ports == old(self)@.ports.update(id as int, p@),
            final(self)@.simulated == old(self)@.simulated,
    {
        self.ports.set(id, p);
        assert(self@.ports =~= old(self)@.ports.update(id as int, p@));
    }

    /// Takes port `id` out of the table, leaving an empty port in its place.
    fn take(&mut self, id: usize) -> (r: EthernetPort)
        requires
            id < old(self)@.ports.len(),
        ensures
            r@ == old(self)@.ports[id as int],
            final(self)@.ports == old(self)@.ports.update(id as int, empty_port()),
            final(self)@.simulated == old(self)@.simulated,
    {
        let mut p = EthernetPort::new();
        std::mem::swap(&mut p, &mut self.ports[id]);
        assert(self@.ports =~= old(self)@.ports.update(id as int, empty_port()));
        p
    }

    /// Appends a frame to the outgoing buffer of port `id`.
    pub fn send(&mut self, id: usize, data: Vec<u8>)
        requires
            old(self).wf(),
            id < old(self)@.ports.len(),
        ensures
            final(self).wf(),
            final(self)@.simulated == old(self)@.simulated,
            final(self)@.ports == old(self)@.ports.update(
                id as int,
                EthernetPortView { outgoing: old(self)@.ports[id as int].outgoing.push(data@), ..old(self)@.ports[id as int] },
            ),
    {
        let mut p = self.take(id);
        p.send(data);
        self.put(id, p);
        proof {
            let ports = self@.ports;
            assert forall|i: int| 0 <= i < ports.len() implies (#[trigger] ports[i].connection matches Some(c) ==> c < ports.len()) by {
                assert(old(self)@.ports[i].connection == ports[i].connection);
            }
        }
    }

    /// Appends a frame to the incoming buffer of port `id`.
    pub fn deliver(&mut self, id: usize, data: Vec<u8>)
        requires
            old(self).wf(),
            id < old(self)@.ports.len(),
        ensures
            final(self).wf(),
            final(self)@.simulated == old(self)@.simulated,
            final(self)@.ports == old(self)@.ports.update(
                id as int,
                EthernetPortView { incoming: old(self)@.ports[id as int].incoming.push(data@), ..old(self)@.ports[id as int] },
            ),
    {
        let mut p = self.take(id);
        p.deliver(data);
        self.put(id, p);
        proof {
            let ports = self@.ports;
            assert forall|i: int| 0 <= i < ports.len() implies (#[trigger] ports[i].connection matches Some(c) ==> c < ports.len()) by {
                assert(old(self)@.ports[i].connection == ports[i].connection);
            }
        }
    }

    /// Plugs a cable between ports `a` and `b` (both directions); a port cannot be cabled to
    /// itself.
    pub fn connect(&mut self, a: usize, b: usize)
        requires
            old(self).wf(),
            a < old(self)@.ports.len(),
            b < old(self)@.ports.len(),
            a != b,
        ensures
            final(self).wf(),
            final(self)@.simulated == old(self)@.simulated,
            final(self)@.ports == cabled(old(self)@.ports, a, b),
    {
        let mut p = self.take(a);
        p.connection = Some(b);
        self.put(a, p);
        let mut q = self.take(b);
        q.connection = Some(a);
        self.put(b, q);
        proof {
            let ports = self@.ports;
            assert forall|i: int| 0 <= i < ports.len() implies (#[trigger] ports[i].connection matches Some(c) ==> c < ports.len()) by {
                if i != a && i != b {
                    assert(old(self)@.ports[i].connection == ports[i].connection);
                }
            }
        }
    }

    /// Unplugs the cable of port `a` from both its ends.
    pub fn disconnect(&mut self, a: usize)
        requires
            old(self).wf(),
            a < old(self)@.ports.len(),
        ensures
            final(self).wf(),
            final(self)@.simulated == old(self)@.simulated,
            final(self)@.ports == uncabled(old(self)@.ports, a),
    {
        let c = self.ports[a].connection();
        match c {
            Some(b) => {
                assert(self@.ports[a as int].connection == Some(b));
                assert(b < self@.ports.len());
                if self.ports[b].connection() == Some(a) {
                    let mut q = self.take(b);
                    q.disconnect();
                    self.put(b, q);
                }
            },
            None => {},
        }
        let mut p = self.take(a);
        p.disconnect();
        self.put(a, p);
        proof {
            let ports = self@.ports;
            assert forall|i: int| 0 <= i < ports.len() implies (#[trigger] ports[i].connection matches Some(c) ==> c < ports.len()) by {
                if ports[i].connection is Some {
                    assert(old(self)@.ports[i].connection == ports[i].connection);
                }
            }
        }
    }

    /// Carries the outgoing frames of every simulated port, in the order the ports were added,
    /// to the incoming buffer of the port at the other end of its cable. Frames of a port
    /// without a cable are dropped.
    pub fn tick(&mut self)
        requires
            old(self).wf(),
        ensures
            final(self).wf(),
            final(self)@.simulated == old(self)@.simulated,
            final(self)@.ports == carry_all(old(self)@.ports, old(self)@.simulated),
            final(self)@.ports.len() == old(self)@.ports.len(),
    {
        let mut k: usize = 0;
        while k < self.simulated.len()
            invariant
                0 <= k <= self@.simulated.len(),
                self.wf(),
                self@.simulated == old(self)@.simulated,
                self@.ports == carry_all(old(self)@.ports, old(self)@.simulated.subrange(0, k as int)),
                self@.ports.len() == old(self)@.ports.len(),
                forall|i: int| 0 <= i < self@.ports.len() ==> #[trigger] self@.ports[i].connection == old(self)@.ports[i].connection,
                old(self).wf(),
            decreases self@.simulated.len() - k,
        {
            let id = self.simulated[k];
            let mut p = self.take(id);
            let conn = p.connection();
            match conn {
                Some(c) => {
                    assert(old(self)@.ports[id as int].connection == Some(c));
                    let mut q = self.take(c);
                    p.consume_outgoing(&mut q);
                    self.put(c, q);
                    self.put(id, p);
                },
                None => {
                    let mut sink = EthernetPort::new();
                    p.consume_outgoing(&mut sink);
                    self.put(id, p);
                },
            }
            proof {
                let ghost prefix = old(self)@.simulated.subrange(0, k as int);
                assert(old(self)@.simulated.subrange(0, k + 1).drop_last() =~= prefix);
                let ports = self@.ports;
                assert forall|i: int| 0 <= i < ports.len() implies (#[trigger] ports[i].connection matches Some(c) ==> c < ports.len()) by {
                    lemma_carry_keeps_cables(carry_all(old(self)@.ports, prefix), id, i);
                }
                assert forall|i: int| 0 <= i < ports.len() implies #[trigger] ports[i].connection == old(self)@.ports[i].connection by {
                    lemma_carry_keeps_cables(carry_all(old(self)@.ports, prefix), id, i);
                }
            }
            k = k + 1;
            assert(self@.ports =~= carry_all(old(self)@.ports, old(self)@.simulated.subrange(0, k as int)));
        }
        assert(old(self)@.simulated.subrange(0, k as int) =~= old(self)@.simulated);
    }

    /// Clears the incoming buffer of port `id` and returns its frames.
    pub fn consume_incoming(&mut self, id: usize) -> (r: Vec<Vec<u8>>)
        requires
            old(self).wf(),
            id < old(self)@.ports.len(),
        ensures
            final(self).wf(),
            frames(r@) == old(self)@.ports[id as int].incoming,
            final(self)@.simulated == old(self)@.simulated,
            final(self)@.ports == old(self)@.ports.update(
                id as int,
                EthernetPortView { incoming: Seq::empty(), ..old(self)@.ports[id as int] },
            ),
    {
        let mut p = self.take(id);
        let r = p.consume_incoming();
        self.put(id, p);
        proof {
            let ports = self@.ports;
            assert forall|i: int| 0 <= i < ports.len() implies (#[trigger] ports[i].connection matches Some(c) ==> c < ports.len()) by {
                assert(old(self)@.ports[i].connection == ports[i].connection);
            }
        }
        r
    }
}


impl Default for CableSimulator {
    /// A simulator with no ports.
    fn default() -> (r: CableSimulator)
        ensures
            r.wf(),
            r@.ports == Seq::<EthernetPortView>::empty(),
            r@.simulated == Seq::<usize>::empty(),
    {
        CableSimulator::new()
    }
}

} // verus!
