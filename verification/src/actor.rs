//! Capabilities, envelopes, and what it is to be an actor.
use crate::cell::CellEvent;
use crate::fault::Fault;
use crate::hub::HubEvent;
use crate::link::LinkEvent;
use crate::pollster::PollsterEvent;
use crate::port::PortEvent;
use crate::rendezvous::RendezvousEvent;
use crate::wire::WireEvent;
use vstd::prelude::*;

verus! {

/// The capability to send events to one actor.
///
/// Capabilities compare by identifier: equal capabilities denote the same
/// actor. Whoever creates actors hands out identifiers that are unique in the
/// process.
#[derive(Debug, Clone, Copy, PartialEq, Eq, Hash, Structural)]
pub struct Cap {
    pub id: usize,
}

impl Cap {
    /// The capability with identifier `id`.
    pub fn new(id: usize) -> (cap: Cap)
        ensures
            cap == (Cap { id }),
    {
        Cap { id }
    }

    /// The identifier behind the capability.
    pub fn get_id(&self) -> (id: usize)
        ensures
            id == self.id,
    {
        self.id
    }
}

/// An event on its way to the actor that a capability denotes.
#[derive(Debug, Clone, Copy, PartialEq, Eq)]
pub enum Envelope {
    Wire(Cap, WireEvent),
    Link(Cap, LinkEvent),
    Port(Cap, PortEvent),
    Hub(Cap, HubEvent),
    Cell(Cap, CellEvent),
    Pollster(Cap, PollsterEvent),
    Rendezvous(Cap, RendezvousEvent),
}

/// What an actor answers to an event: the envelopes it sends, in order, or the
/// fault that stops it.
pub open spec fn reaction(out: Result<Vec<Envelope>, Fault>) -> Result<Seq<Envelope>, Fault> {
    match out {
        Ok(sent) => Ok(sent@),
        Err(fault) => Err(fault),
    }
}

/// A state machine that handles one event at a time.
pub trait Actor {
    /// The events that this actor handles.
    type Event;

    /// The actor's invariant.
    spec fn wf(&self) -> bool;

    /// Handles `event`: changes the actor's state and returns the envelopes to
    /// deliver, in the order in which the actor sends them.
    fn on_event(&mut self, event: Self::Event) -> (out: Result<Vec<Envelope>, Fault>)
        requires
            old(self).wf(),
        ensures
            final(self).wf(),
    ;
}

/// The number of the first port in `ports` that is `port`, if there is one.
pub open spec fn spec_port_num(ports: Seq<Cap>, port: Cap) -> Option<int>
    decreases ports.len(),
{
    if ports.len() == 0 {
        None
    } else if ports[0] == port {
        Some(0)
    } else {
        match spec_port_num(ports.drop_first(), port) {
            Some(n) => Some(n + 1),
            None => None,
        }
    }
}

/// `spec_port_num` finds the first place at which `port` stands, and finds
/// none exactly when `port` stands nowhere.
pub proof fn lemma_port_num(ports: Seq<Cap>, port: Cap)
    ensures
        match spec_port_num(ports, port) {
            Some(n) => 0 <= n < ports.len() && ports[n] == port && forall|j: int|
                0 <= j < n ==> ports[j] != port,
            None => forall|j: int| 0 <= j < ports.len() ==> ports[j] != port,
        },
    decreases ports.len(),
{
    if ports.len() > 0 && ports[0] != port {
        let rest = ports.drop_first();
        lemma_port_num(rest, port);
        match spec_port_num(rest, port) {
            Some(n) => {
                assert forall|j: int| 0 <= j < n + 1 implies ports[j] != port by {
                    if j > 0 {
                        assert(rest[j - 1] == ports[j]);
                    }
                }
            },
            None => {
                assert forall|j: int| 0 <= j < ports.len() implies ports[j] != port by {
                    if j > 0 {
                        assert(rest[j - 1] == ports[j]);
                    }
                }
            },
        }
    }
}

/// The number of the first port in `ports` that is `port`.
pub fn port_to_port_num(ports: &Vec<Cap>, port: &Cap) -> (found: Option<usize>)
    ensures
        match found {
            Some(n) => spec_port_num(ports@, *port) == Some(n as int),
            None => spec_port_num(ports@, *port) is None,
        },
{
    let mut n: usize = 0;
    while n < ports.len()
        invariant
            n <= ports.len(),
            forall|j: int| 0 <= j < n ==> ports@[j] != *port,
        decreases ports.len() - n,
    {
        if ports[n].id == port.id {
            proof {
                lemma_port_num(ports@, *port);
            }
            return Some(n);
        }
        n += 1;
    }
    proof {
        lemma_port_num(ports@, *port);
    }
    None
}

} // verus!
