//! The per-link protocol engine: reset handshake, entanglement, and the
//! TICK / TECK / TACK / RTECK cycle that moves one payload at a time.
use crate::actor::{reaction, Actor, Cap, Envelope};
use crate::fault::Fault;
use crate::frame::{
    lemma_entangled_round_trip, lemma_payload_round_trip, Frame, Payload, RTECK, TACK, TECK, TICK,
};
use crate::port::{PortActivity, PortEvent, PortStatus};
use crate::wire::WireEvent;
use rand::Rng;
use vstd::prelude::*;

verus! {

#[derive(Debug, Clone, Copy, PartialEq, Eq)]
pub enum LinkEvent {
    /// A frame arrived from the peer.
    Frame(Frame),
    /// Start the link.
    Start(Cap),
    /// Report the link's activity.
    Poll(Cap),
    /// Stop the link.
    Stop(Cap),
    /// The port is ready for an inbound payload.
    Read(Cap),
    /// The port hands over an outbound payload.
    Write(Cap, Payload),
}

impl LinkEvent {
    pub fn new_frame(frame: &Frame) -> (event: LinkEvent)
        ensures
            event == LinkEvent::Frame(*frame),
    {
        LinkEvent::Frame(*frame)
    }

    pub fn new_start(port: &Cap) -> (event: LinkEvent)
        ensures
            event == LinkEvent::Start(*port),
    {
        LinkEvent::Start(*port)
    }

    pub fn new_poll(port: &Cap) -> (event: LinkEvent)
        ensures
            event == LinkEvent::Poll(*port),
    {
        LinkEvent::Poll(*port)
    }

    pub fn new_stop(port: &Cap) -> (event: LinkEvent)
        ensures
            event == LinkEvent::Stop(*port),
    {
        LinkEvent::Stop(*port)
    }

    pub fn new_read(port: &Cap) -> (event: LinkEvent)
        ensures
            event == LinkEvent::Read(*port),
    {
        LinkEvent::Read(*port)
    }

    pub fn new_write(port: &Cap, payload: &Payload) -> (event: LinkEvent)
        ensures
            event == LinkEvent::Write(*port, *payload),
    {
        LinkEvent::Write(*port, *payload)
    }
}

#[derive(Debug, Clone, Copy, PartialEq, Eq, Structural)]
pub enum LinkState {
    /// The link is disabled.
    Stop,
    /// Ready to become entangled.
    Init,
    /// Entangled, but quiet since the last poll.
    Run,
    /// Entangled, with traffic since the last poll.
    Live,
}

/// One end of a link.
#[derive(Debug, PartialEq, Eq)]
pub struct Link {
    /// The wire that carries this link's frames.
    pub wire: Cap,
    /// Breaks the symmetry of the reset handshake; never zero.
    pub nonce: u32,
    /// The sequence number of the last entangled frame received.
    pub sequence: u16,
    pub state: LinkState,
    /// `-1`: a payload was sent and is not yet acknowledged; `+1`: a payload
    /// was received and is not yet released; `0`: quiescent.
    pub balance: isize,
    /// The port's credit for one inbound payload.
    pub reader: Option<Cap>,
    /// The payload received and not yet released.
    pub inbound: Option<Payload>,
    /// The port that waits for its outbound payload to be delivered.
    pub writer: Option<Cap>,
    /// The payload to send, or sent and not yet acknowledged.
    pub outbound: Option<Payload>,
}

/// A uniform draw from `low..=high`.
///
/// Calls `rand::Rng::gen_range` on `rand::thread_rng()` with the inclusive
/// range `low..=high`. The range must not be empty; the draw lies in it.
/// Which number comes out is not stated.
#[verifier::external_body]
fn random_between(low: u32, high: u32) -> (n: u32)
    requires
        low <= high,
    ensures
        low <= n <= high,
{
    rand::thread_rng().gen_range(low..=high)
}

impl Link {
    /// What the link reports of itself.
    pub open spec fn spec_activity(self) -> PortActivity {
        PortActivity { link_state: self.state, ait_balance: self.balance, sequence: self.sequence }
    }

    /// What the link reports of itself and of the payloads it holds.
    pub open spec fn spec_status(self) -> PortStatus {
        PortStatus {
            activity: self.spec_activity(),
            inbound: self.inbound,
            outbound: self.outbound,
        }
    }

    /// The reply to `frame` with I-state `i`: its sequence number is the
    /// frame's plus one, its U-state the frame's I-state.
    pub open spec fn spec_reply(frame: Frame, i: u8) -> Frame {
        Frame::spec_new_entangled((frame.spec_sequence() + 1) as u16, i, frame.spec_i_state())
    }

    /// A frame on its way to the wire.
    pub open spec fn to_wire(self, frame: Frame) -> Envelope {
        Envelope::Wire(self.wire, WireEvent::Frame(frame))
    }

    /// Whether `event` is a reset frame that carries this link's own nonce,
    /// so that handling it draws a fresh one.
    pub open spec fn spec_collides(self, event: LinkEvent) -> bool {
        event matches LinkEvent::Frame(frame) && self.state != LinkState::Stop
            && frame.spec_is_reset() && frame.spec_nonce() == self.nonce
    }

    /// A reset frame reboots the handshake: the sequence number is cleared and
    /// the link is ready to entangle. The end with the larger nonce sends the
    /// first entangled frame; the end with the smaller one waits for it; equal
    /// nonces make this end take `fresh` as its nonce and send a new reset.
    pub open spec fn on_reset(self, frame: Frame, fresh: u32) -> (Link, Result<Seq<Envelope>, Fault>) {
        let ready = Link { sequence: 0, state: LinkState::Init, ..self };
        if self.nonce < frame.spec_nonce() {
            (ready, Ok(seq![]))
        } else if self.nonce > frame.spec_nonce() {
            if frame.spec_sequence() == u16::MAX {
                (self, Err(Fault::SequenceExhausted))
            } else {
                (
                    ready,
                    Ok(
                        seq![
                            self.to_wire(
                                Frame::spec_new_entangled(
                                    (frame.spec_sequence() + 1) as u16,
                                    TICK,
                                    TICK,
                                ),
                            ),
                        ],
                    ),
                )
            }
        } else {
            (
                Link { nonce: fresh, ..ready },
                Ok(seq![self.to_wire(Frame::spec_new_reset(fresh))]),
            )
        }
    }

    /// TICK, the peer's liveness: a payload held in surplus is released to
    /// the port; then a queued outbound payload departs as TECK and leaves a
    /// deficit, or, with nothing queued, TICK goes back.
    pub open spec fn on_tick(self, frame: Frame) -> (Link, Result<Seq<Envelope>, Fault>) {
        let live = Link { sequence: frame.spec_sequence(), state: LinkState::Live, ..self };
        let surplus = self.balance == 1 && self.reader is Some && self.inbound is Some;
        let released = if surplus {
            Link { reader: None, inbound: None, balance: 0, ..live }
        } else {
            live
        };
        let release = if surplus {
            seq![
                Envelope::Port(
                    self.reader->Some_0,
                    PortEvent::LinkToPortWrite(self.inbound->Some_0),
                ),
            ]
        } else {
            seq![]
        };
        match self.outbound {
            None => (
                Link { balance: 0, ..released },
                Ok(release.push(self.to_wire(Link::spec_reply(frame, TICK)))),
            ),
            Some(payload) => (
                Link { balance: -1isize, ..released },
                Ok(
                    release.push(
                        self.to_wire(Link::spec_reply(frame, TECK).spec_set_payload(payload)),
                    ),
                ),
            ),
        }
    }

    /// TECK, the peer begins a transfer: with a read credit the payload is
    /// kept in surplus and TACK goes back; without one the payload goes back
    /// as RTECK and the balance stays.
    pub open spec fn on_teck(self, frame: Frame) -> (Link, Result<Seq<Envelope>, Fault>) {
        let live = Link { sequence: frame.spec_sequence(), state: LinkState::Live, ..self };
        match self.reader {
            Some(_) => (
                Link { inbound: Some(frame.spec_payload()), balance: 1, ..live },
                Ok(seq![self.to_wire(Link::spec_reply(frame, TACK))]),
            ),
            None => (
                live,
                Ok(
                    seq![
                        self.to_wire(
                            Link::spec_reply(frame, RTECK).spec_set_payload(frame.spec_payload()),
                        ),
                    ],
                ),
            ),
        }
    }

    /// TACK, the peer took our payload: the port's write is complete, the
    /// deficit is cleared, and TICK goes back. A TACK without a deficit is a
    /// fault.
    pub open spec fn on_tack(self, frame: Frame) -> (Link, Result<Seq<Envelope>, Fault>) {
        let live = Link { sequence: frame.spec_sequence(), state: LinkState::Live, ..self };
        if self.balance != -1 {
            (self, Err(Fault::BalanceInvariantViolated))
        } else {
            match self.writer {
                Some(writer) => (
                    Link { writer: None, outbound: None, balance: 0, ..live },
                    Ok(
                        seq![
                            Envelope::Port(writer, PortEvent::LinkToPortRead),
                            self.to_wire(Link::spec_reply(frame, TICK)),
                        ],
                    ),
                ),
                None => (live, Ok(seq![])),
            }
        }
    }

    /// RTECK, the peer rejected our payload: the deficit is cleared and TICK
    /// goes back; the payload stays queued for the next TICK.
    pub open spec fn on_rteck(self, frame: Frame) -> (Link, Result<Seq<Envelope>, Fault>) {
        let live = Link { sequence: frame.spec_sequence(), state: LinkState::Live, ..self };
        (Link { balance: 0, ..live }, Ok(seq![self.to_wire(Link::spec_reply(frame, TICK))]))
    }

    /// An entangled frame makes the link live, records the frame's sequence
    /// number, and is answered according to its I-state.
    pub open spec fn on_entangled(self, frame: Frame) -> (Link, Result<Seq<Envelope>, Fault>) {
        let i = frame.spec_i_state();
        if i != TICK && i != TECK && i != TACK && i != RTECK {
            (self, Err(Fault::BadIState))
        } else if i == TACK && self.balance != -1 {
            (self, Err(Fault::BalanceInvariantViolated))
        } else if frame.spec_sequence() == u16::MAX && !(i == TACK && self.writer is None) {
            (self, Err(Fault::SequenceExhausted))
        } else if i == TICK {
            self.on_tick(frame)
        } else if i == TECK {
            self.on_teck(frame)
        } else if i == TACK {
            self.on_tack(frame)
        } else {
            self.on_rteck(frame)
        }
    }

    /// A stopped link ignores frames. A running one takes reset and entangled
    /// frames; any other EtherType is a fault.
    pub open spec fn on_frame(self, frame: Frame, fresh: u32) -> (Link, Result<Seq<Envelope>, Fault>) {
        if self.state == LinkState::Stop {
            (self, Ok(seq![]))
        } else if frame.spec_is_reset() {
            self.on_reset(frame, fresh)
        } else if frame.spec_is_entangled() {
            self.on_entangled(frame)
        } else {
            (self, Err(Fault::BadEtherType))
        }
    }

    /// The link's next state and what it sends when it handles `event`;
    /// `fresh` is the nonce it takes if the event is a colliding reset.
    pub open spec fn step(self, event: LinkEvent, fresh: u32) -> (Link, Result<Seq<Envelope>, Fault>) {
        match event {
            LinkEvent::Frame(frame) => self.on_frame(frame, fresh),
            LinkEvent::Start(cust) => {
                let started = Link { state: LinkState::Init, ..self };
                (
                    started,
                    Ok(
                        seq![
                            self.to_wire(Frame::spec_new_reset(self.nonce)),
                            Envelope::Port(cust, PortEvent::Status(started.spec_status())),
                        ],
                    ),
                )
            },
            LinkEvent::Stop(cust) => {
                let stopped = Link { state: LinkState::Stop, ..self };
                (
                    Link {
                        balance: 0,
                        reader: None,
                        inbound: None,
                        writer: None,
                        outbound: None,
                        ..stopped
                    },
                    Ok(seq![Envelope::Port(cust, PortEvent::Status(stopped.spec_status()))]),
                )
            },
            LinkEvent::Poll(cust) => (
                Link {
                    state: if self.state == LinkState::Live {
                        LinkState::Run
                    } else {
                        self.state
                    },
                    ..self
                },
                Ok(seq![Envelope::Port(cust, PortEvent::Activity(self.spec_activity()))]),
            ),
            LinkEvent::Read(cust) => match self.reader {
                None => (Link { reader: Some(cust), ..self }, Ok(seq![])),
                Some(_) => (self, Err(Fault::CreditDuplicated)),
            },
            LinkEvent::Write(cust, payload) => match self.writer {
                None => (Link { outbound: Some(payload), writer: Some(cust), ..self }, Ok(seq![])),
                Some(_) => (self, Err(Fault::CreditDuplicated)),
            },
        }
    }

    /// The link as it is created: stopped, quiescent, holding nothing.
    pub open spec fn spec_create(wire: Cap, nonce: u32) -> Link {
        Link {
            wire,
            nonce,
            sequence: 0,
            state: LinkState::Stop,
            balance: 0,
            reader: None,
            inbound: None,
            writer: None,
            outbound: None,
        }
    }

    /// A stopped link on `wire` with the given nonce.
    pub fn create(wire: &Cap, nonce: u32) -> (link: Link)
        requires
            nonce != 0,
        ensures
            link == Link::spec_create(*wire, nonce),
            link.wf(),
    {
        Link {
            wire: *wire,
            nonce,
            sequence: 0,
            state: LinkState::Stop,
            balance: 0,
            reader: None,
            inbound: None,
            writer: None,
            outbound: None,
        }
    }

    /// A random nonce: any 32-bit number but zero.
    pub fn fresh_nonce() -> (nonce: u32)
        ensures
            nonce != 0,
    {
        random_between(1, u32::MAX)
    }

    /// A random nonce to take in place of `taken`: any 32-bit number but
    /// zero and `taken`, each as likely as any other.
    pub fn other_nonce(taken: u32) -> (nonce: u32)
        ensures
            nonce != 0,
            nonce != taken,
    {
        if taken == 0 {
            random_between(1, u32::MAX)
        } else {
            // One draw among the numbers that are left: those from `taken`
            // on stand for their successors.
            let drawn: u32 = random_between(1, u32::MAX - 1);
            if drawn >= taken {
                drawn + 1
            } else {
                drawn
            }
        }
    }

    /// Whether handling `event` draws a fresh nonce.
    pub fn collides(&self, event: &LinkEvent) -> (b: bool)
        ensures
            b == self.spec_collides(*event),
    {
        match event {
            LinkEvent::Frame(frame) => self.state != LinkState::Stop && frame.is_reset()
                && frame.get_nonce() == self.nonce,
            _ => false,
        }
    }

    fn status(&self) -> (status: PortStatus)
        ensures
            status == self.spec_status(),
    {
        let activity = PortActivity::new(&self.state, self.balance, self.sequence);
        PortStatus::new(&activity, &self.inbound, &self.outbound)
    }

    fn reply(frame: &Frame, i: u8) -> (reply: Frame)
        requires
            frame.spec_sequence() < u16::MAX,
        ensures
            reply == Link::spec_reply(*frame, i),
    {
        let seq: u16 = frame.get_sequence() + 1;
        Frame::new_entangled(seq, i, frame.get_i_state())
    }

    fn send(&self, sent: &mut Vec<Envelope>, frame: &Frame)
        ensures
            final(sent)@ == old(sent)@.push(self.to_wire(*frame)),
    {
        sent.push(Envelope::Wire(self.wire, WireEvent::new_frame(frame)));
    }

    fn handle_reset(&mut self, frame: &Frame, fresh: u32) -> (out: Result<Vec<Envelope>, Fault>)
        requires
            old(self).wf(),
            fresh != 0,
        ensures
            (*final(self), reaction(out)) == old(self).on_reset(*frame, fresh),
            final(self).wf(),
    {
        let mut sent: Vec<Envelope> = Vec::new();
        let nonce: u32 = frame.get_nonce();
        if self.nonce < nonce {
            self.sequence = 0;
            self.state = LinkState::Init;
        } else if self.nonce > nonce {
            let seq: u16 = frame.get_sequence();
            if seq == u16::MAX {
                return Err(Fault::SequenceExhausted);
            }
            self.sequence = 0;
            self.state = LinkState::Init;
            let reply = Frame::new_entangled(seq + 1, TICK, TICK);
            self.send(&mut sent, &reply);
        } else {
            self.sequence = 0;
            self.state = LinkState::Init;
            self.nonce = fresh;
            let reply = Frame::new_reset(fresh);
            self.send(&mut sent, &reply);
        }
        proof {
            assert(sent@ =~= old(self).on_reset(*frame, fresh).1->Ok_0);
        }
        Ok(sent)
    }

    fn handle_entangled(&mut self, frame: &Frame) -> (out: Result<Vec<Envelope>, Fault>)
        requires
            old(self).wf(),
            old(self).state != LinkState::Stop,
        ensures
            (*final(self), reaction(out)) == old(self).on_entangled(*frame),
            final(self).wf(),
    {
        let mut sent: Vec<Envelope> = Vec::new();
        let i_state: u8 = frame.get_i_state();
        let seq: u16 = frame.get_sequence();
        if i_state == TICK {
            if seq == u16::MAX {
                return Err(Fault::SequenceExhausted);
            }
            self.sequence = seq;
            self.state = LinkState::Live;
            if self.balance == 1 {
                if let Some(reader) = self.reader {
                    if let Some(payload) = self.inbound {
                        sent.push(
                            Envelope::Port(reader, PortEvent::new_link_to_port_write(&payload)),
                        );
                        self.reader = None;
                        self.inbound = None;
                        self.balance = 0;
                    }
                }
            }
            match self.outbound {
                None => {
                    let reply = Link::reply(frame, TICK);
                    self.send(&mut sent, &reply);
                    self.balance = 0;
                },
                Some(payload) => {
                    let mut reply = Link::reply(frame, TECK);
                    reply.set_payload(&payload);
                    self.send(&mut sent, &reply);
                    self.balance = -1;
                },
            }
        } else if i_state == TECK {
            if seq == u16::MAX {
                return Err(Fault::SequenceExhausted);
            }
            self.sequence = seq;
            self.state = LinkState::Live;
            let payload = frame.get_payload();
            match self.reader {
                Some(_) => {
                    self.inbound = Some(payload);
                    let reply = Link::reply(frame, TACK);
                    self.send(&mut sent, &reply);
                    self.balance = 1;
                },
                None => {
                    let mut reply = Link::reply(frame, RTECK);
                    reply.set_payload(&payload);
                    self.send(&mut sent, &reply);
                },
            }
        } else if i_state == TACK {
            if self.balance != -1 {
                return Err(Fault::BalanceInvariantViolated);
            }
            match self.writer {
                Some(writer) => {
                    if seq == u16::MAX {
                        return Err(Fault::SequenceExhausted);
                    }
                    self.sequence = seq;
                    self.state = LinkState::Live;
                    sent.push(Envelope::Port(writer, PortEvent::new_link_to_port_read()));
                    self.writer = None;
                    self.outbound = None;
                    self.balance = 0;
                    let reply = Link::reply(frame, TICK);
                    self.send(&mut sent, &reply);
                },
                None => {
                    self.sequence = seq;
                    self.state = LinkState::Live;
                },
            }
        } else if i_state == RTECK {
            if seq == u16::MAX {
                return Err(Fault::SequenceExhausted);
            }
            self.sequence = seq;
            self.state = LinkState::Live;
            let reply = Link::reply(frame, TICK);
            self.send(&mut sent, &reply);
            self.balance = 0;
        } else {
            return Err(Fault::BadIState);
        }
        proof {
            assert(sent@ =~= old(self).on_entangled(*frame).1->Ok_0);
        }
        Ok(sent)
    }

    /// Handles `event`, taking `fresh` as the new nonce where the event is a
    /// reset frame that carries this link's own. A fresh nonce is not zero,
    /// and it is not the nonce that collided.
    pub fn handle(&mut self, event: LinkEvent, fresh: u32) -> (out: Result<Vec<Envelope>, Fault>)
        requires
            old(self).wf(),
            fresh != 0,
            old(self).spec_collides(event) ==> fresh != old(self).nonce,
        ensures
            (*final(self), reaction(out)) == old(self).step(event, fresh),
            final(self).wf(),
            old(self).spec_collides(event) ==> final(self).nonce == fresh && final(self).nonce
                != old(self).nonce,
            !old(self).spec_collides(event) ==> final(self).nonce == old(self).nonce,
    {
        let mut sent: Vec<Envelope> = Vec::new();
        match event {
            LinkEvent::Frame(frame) => {
                if self.state == LinkState::Stop {
                    return Ok(sent);
                } else if frame.is_reset() {
                    return self.handle_reset(&frame, fresh);
                } else if frame.is_entangled() {
                    return self.handle_entangled(&frame);
                } else {
                    return Err(Fault::BadEtherType);
                }
            },
            LinkEvent::Start(cust) => {
                let init = Frame::new_reset(self.nonce);
                self.send(&mut sent, &init);
                self.state = LinkState::Init;
                let status = self.status();
                sent.push(Envelope::Port(cust, PortEvent::new_status(&status)));
            },
            LinkEvent::Stop(cust) => {
                self.state = LinkState::Stop;
                let status = self.status();
                sent.push(Envelope::Port(cust, PortEvent::new_status(&status)));
                self.balance = 0;
                self.reader = None;
                self.inbound = None;
                self.writer = None;
                self.outbound = None;
            },
            LinkEvent::Poll(cust) => {
                let activity = PortActivity::new(&self.state, self.balance, self.sequence);
                sent.push(Envelope::Port(cust, PortEvent::new_activity(&activity)));
                if self.state == LinkState::Live {
                    self.state = LinkState::Run;
                }
            },
            LinkEvent::Read(cust) => match self.reader {
                None => {
                    self.reader = Some(cust);
                },
                Some(_) => {
                    return Err(Fault::CreditDuplicated);
                },
            },
            LinkEvent::Write(cust, payload) => match self.writer {
                None => {
                    self.outbound = Some(payload);
                    self.writer = Some(cust);
                },
                Some(_) => {
                    return Err(Fault::CreditDuplicated);
                },
            },
        }
        proof {
            assert(sent@ =~= old(self).step(event, fresh).1->Ok_0);
        }
        Ok(sent)
    }
}

impl Actor for Link {
    type Event = LinkEvent;

    /// The nonce is not zero; the balance is -1, 0 or +1; a surplus has its
    /// payload and the credit to release it; a deficit has its payload; a
    /// payload to send has its writer; a stopped link is quiescent.
    open spec fn wf(&self) -> bool {
        &&& self.nonce != 0
        &&& -1 <= self.balance <= 1
        &&& self.balance == 1 ==> self.inbound is Some && self.reader is Some
        &&& self.balance == -1 ==> self.outbound is Some
        &&& self.outbound is Some <==> self.writer is Some
        &&& self.state == LinkState::Stop ==> self.balance == 0 && self.inbound is None
    }

    /// Handles `event`. Only a reset frame that carries this link's own nonce
    /// makes the outcome depend on chance: the link then draws a new nonce,
    /// which is neither zero nor the nonce that collided.
    fn on_event(&mut self, event: LinkEvent) -> (out: Result<Vec<Envelope>, Fault>)
        ensures
            exists|fresh: u32|
                fresh != 0 && fresh != old(self).nonce && (*final(self), reaction(out))
                    == #[trigger] old(self).step(event, fresh),
            old(self).spec_collides(event) ==> final(self).nonce != 0 && final(self).nonce != old(
                self,
            ).nonce,
            !old(self).spec_collides(event) ==> final(self).nonce == old(self).nonce,
            !old(self).spec_collides(event) ==> forall|fresh: u32|
                (*final(self), reaction(out)) == #[trigger] old(self).step(event, fresh),
    {
        let fresh: u32 = if self.collides(&event) {
            Link::other_nonce(self.nonce)
        } else if self.nonce == 1 {
            2
        } else {
            1
        };
        self.handle(event, fresh)
    }
}

impl Link {
    /// The link after it has handled `events` in order, where `nonces[k]` is
    /// the nonce on offer when it handles `events[k]`. An event that faults
    /// leaves the link as it was.
    pub open spec fn after(self, events: Seq<LinkEvent>, nonces: Seq<u32>) -> Link
        decreases events.len(),
    {
        if events.len() == 0 {
            self
        } else {
            self.after(events.drop_last(), nonces.drop_last()).step(events.last(), nonces.last()).0
        }
    }

    /// Whether `frame` is among the frames that `sent` hands to the wire.
    pub open spec fn ships(self, sent: Result<Seq<Envelope>, Fault>, frame: Frame) -> bool {
        sent matches Ok(envelopes) && envelopes.contains(self.to_wire(frame))
    }
}

/// Handling an event keeps the link's invariant.
pub proof fn lemma_step_keeps_invariant(link: Link, event: LinkEvent, fresh: u32)
    requires
        link.wf(),
        fresh != 0,
    ensures
        link.step(event, fresh).0.wf(),
{
}

/// In every state that a link reaches from its creation, whatever events it
/// is given, its invariant holds; in particular its balance is -1, 0 or +1.
pub proof fn lemma_balance_bounded(wire: Cap, nonce: u32, events: Seq<LinkEvent>, nonces: Seq<u32>)
    requires
        nonce != 0,
        nonces.len() == events.len(),
        forall|k: int| 0 <= k < nonces.len() ==> nonces[k] != 0,
    ensures
        Link::spec_create(wire, nonce).after(events, nonces).wf(),
        -1 <= Link::spec_create(wire, nonce).after(events, nonces).balance <= 1,
    decreases events.len(),
{
    if events.len() > 0 {
        lemma_balance_bounded(wire, nonce, events.drop_last(), nonces.drop_last());
        lemma_step_keeps_invariant(
            Link::spec_create(wire, nonce).after(events.drop_last(), nonces.drop_last()),
            events.last(),
            nonces.last(),
        );
    }
}

/// Every frame that a running link sends in answer to an entangled frame is
/// entangled and carries the sequence number of the frame it answers plus
/// one; the link records the number of the frame it was given.
pub proof fn lemma_reply_follows(link: Link, frame: Frame, fresh: u32, reply: Frame)
    requires
        link.state != LinkState::Stop,
        frame.spec_is_entangled(),
        link.ships(link.step(LinkEvent::Frame(frame), fresh).1, reply),
    ensures
        link.step(LinkEvent::Frame(frame), fresh).0.sequence == frame.spec_sequence(),
        reply.spec_is_entangled(),
        reply.spec_sequence() == frame.spec_sequence() + 1,
{
    let next = (frame.spec_sequence() + 1) as u16;
    let u = frame.spec_i_state();
    lemma_entangled_round_trip(next, TICK, u);
    lemma_entangled_round_trip(next, TACK, u);
    if link.outbound is Some {
        lemma_payload_round_trip(next, TECK, u, link.outbound->Some_0);
    }
    lemma_payload_round_trip(next, RTECK, u, frame.spec_payload());
}

/// Between resets the sequence numbers that a link records strictly
/// increase: when link `a` answers the entangled frame `f` with `g`, and its
/// peer `b` answers `g` with `h`, then `h` is an entangled frame whose
/// number, which `a` records when it takes `h`, is the number of `f` plus two.
pub proof fn lemma_sequence_increases(
    a: Link,
    b: Link,
    f: Frame,
    g: Frame,
    h: Frame,
    fresh_a: u32,
    fresh_b: u32,
)
    requires
        a.state != LinkState::Stop,
        b.state != LinkState::Stop,
        f.spec_is_entangled(),
        a.ships(a.step(LinkEvent::Frame(f), fresh_a).1, g),
        b.ships(b.step(LinkEvent::Frame(g), fresh_b).1, h),
    ensures
        ({
            let a1 = a.step(LinkEvent::Frame(f), fresh_a).0;
            let a2 = a1.step(LinkEvent::Frame(h), fresh_a);
            &&& a1.sequence == f.spec_sequence()
            &&& a1.state == LinkState::Live
            &&& h.spec_is_entangled()
            &&& h.spec_sequence() == f.spec_sequence() + 2
            &&& a2.1 is Ok ==> a2.0.sequence == h.spec_sequence() && a2.0.sequence > a1.sequence
        }),
{
    lemma_reply_follows(a, f, fresh_a, g);
    lemma_reply_follows(b, g, fresh_b, h);
}

} // verus!
