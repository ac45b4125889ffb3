//! The liveness surveyor: it polls every port, counts the rounds in which a
//! port's link showed no traffic, and stops the ports that stay idle.
use crate::actor::{port_to_port_num, reaction, spec_port_num, Actor, Cap, Envelope};
use crate::fault::Fault;
use crate::link::LinkState;
use crate::port::{PortActivity, PortEvent};
use vstd::prelude::*;

verus! {

#[derive(Debug, Clone, Copy, PartialEq, Eq)]
pub enum PollsterEvent {
    /// The pollster's own capability.
    Init(Cap),
    /// Survey the ports on behalf of this hub.
    Poll(Cap),
    /// A port answers the survey.
    Activity(Cap, PortActivity),
}

impl PollsterEvent {
    pub fn new_init(pollster: &Cap) -> (event: PollsterEvent)
        ensures
            event == PollsterEvent::Init(*pollster),
    {
        PollsterEvent::Init(*pollster)
    }

    pub fn new_poll(hub: &Cap) -> (event: PollsterEvent)
        ensures
            event == PollsterEvent::Poll(*hub),
    {
        PollsterEvent::Poll(*hub)
    }

    pub fn new_port_activity(port: &Cap, activity: &PortActivity) -> (event: PollsterEvent)
        ensures
            event == PollsterEvent::Activity(*port, *activity),
    {
        PollsterEvent::Activity(*port, *activity)
    }
}

/// A port whose link has been idle for more rounds than this is declared dead.
pub const IDLE_LIMIT: usize = 3;

/// The pollster of one hub.
#[derive(Debug, PartialEq, Eq)]
pub struct Pollster {
    pub myself: Option<Cap>,
    /// The hub on whose behalf a round is in flight.
    pub hub: Option<Cap>,
    pub ports: Vec<Cap>,
    /// The answers that the round in flight still waits for.
    pub pending: usize,
    /// For each port, the rounds in a row in which its link was not live.
    pub idle: Vec<usize>,
}

/// The pollster as a value: its ports and counters as sequences.
pub struct PollsterView {
    pub myself: Option<Cap>,
    pub hub: Option<Cap>,
    pub ports: Seq<Cap>,
    pub pending: usize,
    pub idle: Seq<usize>,
}

impl View for Pollster {
    type V = PollsterView;

    open spec fn view(&self) -> PollsterView {
        PollsterView {
            myself: self.myself,
            hub: self.hub,
            ports: self.ports@,
            pending: self.pending,
            idle: self.idle@,
        }
    }
}

impl PollsterView {
    /// The invariant: one counter for each port; outside a round nothing is
    /// pending and no counter is over the limit; within a round each counter
    /// has grown by no more than the answers that have come in.
    pub open spec fn wf(self) -> bool {
        &&& self.idle.len() == self.ports.len()
        &&& self.ports.len() + IDLE_LIMIT < usize::MAX
        &&& self.pending <= self.ports.len()
        &&& self.hub is None ==> self.pending == 0
        &&& forall|k: int|
            0 <= k < self.idle.len() ==> #[trigger] self.idle[k] + self.pending <= IDLE_LIMIT
                + self.ports.len()
        &&& self.hub is None ==> forall|k: int|
            0 <= k < self.idle.len() ==> #[trigger] self.idle[k] <= IDLE_LIMIT
    }

    /// A poll for each of the first `n` ports, in port order.
    pub open spec fn polls(ports: Seq<Cap>, myself: Cap, n: int) -> Seq<Envelope>
        decreases n,
    {
        if n <= 0 {
            seq![]
        } else {
            PollsterView::polls(ports, myself, n - 1).push(
                Envelope::Port(ports[n - 1], PortEvent::Poll(myself)),
            )
        }
    }

    /// A stop for each of the first `n` ports whose counter in `idle` is over
    /// the limit, in port order.
    pub open spec fn stops(ports: Seq<Cap>, idle: Seq<usize>, hub: Cap, n: int) -> Seq<Envelope>
        decreases n,
    {
        if n <= 0 {
            seq![]
        } else if idle[n - 1] > IDLE_LIMIT {
            PollsterView::stops(ports, idle, hub, n - 1).push(
                Envelope::Port(ports[n - 1], PortEvent::Stop(hub)),
            )
        } else {
            PollsterView::stops(ports, idle, hub, n - 1)
        }
    }

    /// The counters after a round: those over the limit start again at zero.
    pub open spec fn settled(idle: Seq<usize>) -> Seq<usize> {
        Seq::new(
            idle.len(),
            |k: int|
                if idle[k] > IDLE_LIMIT {
                    0usize
                } else {
                    idle[k]
                },
        )
    }

    /// A port answers the poll: a live link clears the port's counter, any
    /// other state adds one to it. With the last answer of the round every
    /// port over the limit is told to stop, and the round is over.
    pub open spec fn on_activity(self, n: int, activity: PortActivity) -> (
        PollsterView,
        Result<Seq<Envelope>, Fault>,
    ) {
        let count = if activity.link_state == LinkState::Live {
            0usize
        } else {
            (self.idle[n] + 1) as usize
        };
        let idle = self.idle.update(n, count);
        if self.pending == 1 {
            match self.hub {
                Some(hub) => (
                    PollsterView {
                        hub: None,
                        pending: 0,
                        idle: PollsterView::settled(idle),
                        ..self
                    },
                    Ok(PollsterView::stops(self.ports, idle, hub, self.ports.len() as int)),
                ),
                None => (PollsterView { pending: 0, idle, ..self }, Ok(seq![])),
            }
        } else {
            (PollsterView { pending: (self.pending - 1) as usize, idle, ..self }, Ok(seq![]))
        }
    }

    /// The pollster's next state and what it sends when it handles `event`.
    pub open spec fn step(self, event: PollsterEvent) -> (
        PollsterView,
        Result<Seq<Envelope>, Fault>,
    ) {
        match event {
            PollsterEvent::Init(myself) => match self.myself {
                None => (PollsterView { myself: Some(myself), ..self }, Ok(seq![])),
                Some(_) => (self, Err(Fault::AlreadyInitialized)),
            },
            PollsterEvent::Poll(hub) => match self.myself {
                None => (self, Err(Fault::NotInitialized)),
                Some(myself) => if self.hub is None {
                    (
                        PollsterView {
                            hub: Some(hub),
                            pending: self.ports.len() as usize,
                            ..self
                        },
                        Ok(PollsterView::polls(self.ports, myself, self.ports.len() as int)),
                    )
                } else {
                    (self, Ok(seq![]))
                },
            },
            PollsterEvent::Activity(port, activity) => match spec_port_num(self.ports, port) {
                None => (self, Err(Fault::UnknownPort)),
                Some(n) => if self.pending == 0 {
                    (self, Err(Fault::UnexpectedEvent))
                } else {
                    self.on_activity(n, activity)
                },
            },
        }
    }
}

impl Pollster {
    /// A pollster for `ports`, and the envelope that tells it its own capability.
    pub fn create(myself: &Cap, ports: &Vec<Cap>) -> (made: (Pollster, Vec<Envelope>))
        requires
            ports@.len() + IDLE_LIMIT < usize::MAX,
        ensures
            made.0@ == (PollsterView {
                myself: None,
                hub: None,
                ports: ports@,
                pending: 0,
                idle: Seq::new(ports@.len(), |k: int| 0usize),
            }),
            made.0.wf(),
            made.1@ == seq![Envelope::Pollster(*myself, PollsterEvent::Init(*myself))],
    {
        let mut own: Vec<Cap> = Vec::new();
        let mut idle: Vec<usize> = Vec::new();
        let mut k: usize = 0;
        while k < ports.len()
            invariant
                k <= ports.len(),
                own@ == ports@.subrange(0, k as int),
                idle@ == Seq::new(k as nat, |j: int| 0usize),
            decreases ports.len() - k,
        {
            own.push(ports[k]);
            idle.push(0);
            k += 1;
            proof {
                assert(own@ =~= ports@.subrange(0, k as int));
                assert(idle@ =~= Seq::new(k as nat, |j: int| 0usize));
            }
        }
        proof {
            assert(own@ =~= ports@);
        }
        let mut sent: Vec<Envelope> = Vec::new();
        sent.push(Envelope::Pollster(*myself, PollsterEvent::new_init(myself)));
        proof {
            assert(sent@ =~= seq![Envelope::Pollster(*myself, PollsterEvent::Init(*myself))]);
        }
        (Pollster { myself: None, hub: None, ports: own, pending: 0, idle }, sent)
    }

    /// The rounds in a row in which port `n` was not live.
    pub fn idle_count(&self, n: usize) -> (count: Option<usize>)
        ensures
            count == if n < self.idle@.len() {
                Some(self.idle@[n as int])
            } else {
                None
            },
    {
        if n < self.idle.len() {
            Some(self.idle[n])
        } else {
            None
        }
    }

    fn close_round(&mut self, hub: Cap) -> (sent: Vec<Envelope>)
        requires
            old(self).idle@.len() == old(self).ports@.len(),
        ensures
            sent@ == PollsterView::stops(
                old(self).ports@,
                old(self).idle@,
                hub,
                old(self).ports@.len() as int,
            ),
            final(self)@ == (PollsterView {
                idle: PollsterView::settled(old(self).idle@),
                ..old(self)@
            }),
    {
        let mut sent: Vec<Envelope> = Vec::new();
        let mut k: usize = 0;
        while k < self.ports.len()
            invariant
                k <= self.ports@.len(),
                self.idle@.len() == self.ports@.len(),
                self.ports == old(self).ports,
                self.myself == old(self).myself,
                self.hub == old(self).hub,
                self.pending == old(self).pending,
                old(self).idle@.len() == old(self).ports@.len(),
                sent@ == PollsterView::stops(old(self).ports@, old(self).idle@, hub, k as int),
                forall|j: int|
                    0 <= j < k ==> self.idle@[j] == PollsterView::settled(old(self).idle@)[j],
                forall|j: int| k <= j < self.idle@.len() ==> self.idle@[j] == old(self).idle@[j],
            decreases self.ports@.len() - k,
        {
            if self.idle[k] > IDLE_LIMIT {
                sent.push(Envelope::Port(self.ports[k], PortEvent::new_stop(&hub)));
                self.idle[k] = 0;
            }
            k += 1;
        }
        proof {
            assert(self.idle@ =~= PollsterView::settled(old(self).idle@));
        }
        sent
    }
}

impl Actor for Pollster {
    type Event = PollsterEvent;

    open spec fn wf(&self) -> bool {
        self@.wf()
    }

    fn on_event(&mut self, event: PollsterEvent) -> (out: Result<Vec<Envelope>, Fault>)
        ensures
            (final(self)@, reaction(out)) == old(self)@.step(event),
    {
        let mut sent: Vec<Envelope> = Vec::new();
        match event {
            PollsterEvent::Init(myself) => match self.myself {
                None => {
                    self.myself = Some(myself);
                },
                Some(_) => {
                    return Err(Fault::AlreadyInitialized);
                },
            },
            PollsterEvent::Poll(hub) => {
                let myself = match self.myself {
                    Some(myself) => myself,
                    None => {
                        return Err(Fault::NotInitialized);
                    },
                };
                if self.hub.is_none() {
                    self.hub = Some(hub);
                    self.pending = self.ports.len();
                    let mut k: usize = 0;
                    while k < self.ports.len()
                        invariant
                            k <= self.ports@.len(),
                            self.ports == old(self).ports,
                            sent@ == PollsterView::polls(old(self).ports@, myself, k as int),
                        decreases self.ports@.len() - k,
                    {
                        sent.push(Envelope::Port(self.ports[k], PortEvent::new_poll(&myself)));
                        k += 1;
                    }
                }
            },
            PollsterEvent::Activity(port, activity) => {
                let n = match port_to_port_num(&self.ports, &port) {
                    Some(n) => n,
                    None => {
                        return Err(Fault::UnknownPort);
                    },
                };
                if self.pending == 0 {
                    return Err(Fault::UnexpectedEvent);
                }
                proof {
                    crate::actor::lemma_port_num(self.ports@, port);
                }
                if activity.link_state == LinkState::Live {
                    self.idle[n] = 0;
                } else {
                    self.idle[n] = self.idle[n] + 1;
                }
                self.pending = self.pending - 1;
                if self.pending == 0 {
                    if let Some(hub) = self.hub {
                        sent = self.close_round(hub);
                    }
                    self.hub = None;
                }
                proof {
                    let next = old(self)@.on_activity(n as int, activity);
                    assert(final(self)@.idle =~= next.0.idle);
                    assert(sent@ =~= next.1->Ok_0);
                }
            },
        }
        proof {
            assert(sent@ =~= old(self)@.step(event).1->Ok_0);
            assert(self@.idle =~= old(self)@.step(event).0.idle);
        }
        Ok(sent)
    }
}

/// The word to a port that it is declared dead.
pub open spec fn stop(port: Cap, hub: Cap) -> Envelope {
    Envelope::Port(port, PortEvent::Stop(hub))
}

/// At the end of a round the ports that are told to stop are the ports
/// whose counter is over the limit: each of them is told, and nobody else.
pub proof fn lemma_stops_the_idle(ports: Seq<Cap>, idle: Seq<usize>, hub: Cap, n: int)
    requires
        0 <= n <= ports.len(),
        idle.len() == ports.len(),
    ensures
        forall|k: int|
            0 <= k < n && #[trigger] idle[k] > IDLE_LIMIT ==> PollsterView::stops(
                ports,
                idle,
                hub,
                n,
            ).contains(stop(ports[k], hub)),
        forall|told: Envelope| #[trigger]
            PollsterView::stops(ports, idle, hub, n).contains(told) ==> exists|k: int|
                0 <= k < n && #[trigger] idle[k] > IDLE_LIMIT && told == stop(ports[k], hub),
    decreases n,
{
    if n > 0 {
        lemma_stops_the_idle(ports, idle, hub, n - 1);
        let before = PollsterView::stops(ports, idle, hub, n - 1);
        let all = PollsterView::stops(ports, idle, hub, n);
        assert forall|k: int| 0 <= k < n && #[trigger] idle[k] > IDLE_LIMIT implies all.contains(
            stop(ports[k], hub),
        ) by {
            if k < n - 1 {
                let at = choose|j: int| 0 <= j < before.len() && before[j] == stop(ports[k], hub);
                assert(all[at] == before[at]);
            } else {
                assert(all[all.len() - 1] == stop(ports[k], hub));
            }
        }
        assert forall|told: Envelope| #[trigger] all.contains(told) implies exists|k: int|
            0 <= k < n && #[trigger] idle[k] > IDLE_LIMIT && told == stop(ports[k], hub) by {
            let j = choose|j: int| 0 <= j < all.len() && all[j] == told;
            if j < before.len() {
                assert(before[j] == told);
                assert(before.contains(told));
                let k = choose|k: int|
                    0 <= k < n - 1 && #[trigger] idle[k] > IDLE_LIMIT && told == stop(ports[k], hub);
                assert(idle[k] > IDLE_LIMIT && told == stop(ports[k], hub));
            } else {
                assert(idle[n - 1] > IDLE_LIMIT && told == stop(ports[n - 1], hub));
            }
        }
    }
}

/// Handling an event keeps the pollster's invariant.
pub proof fn lemma_step_keeps_invariant(pollster: PollsterView, event: PollsterEvent)
    requires
        pollster.wf(),
    ensures
        pollster.step(event).0.wf(),
{
    match event {
        PollsterEvent::Activity(port, activity) => {
            crate::actor::lemma_port_num(pollster.ports, port);
        },
        _ => {},
    }
}

} // verus!
