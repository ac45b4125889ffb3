//! Two entangled links and the one frame that travels between them.
//!
//! Once two links are entangled, exactly one frame is under way at any time:
//! each end answers the frame it receives with one frame. This module states
//! what that exchange does to the payloads that the ports hand to the links,
//! and proves that each link releases to its port the payloads that the
//! other link was given, in the order in which it was given them, none
//! twice and none left out in between.
use crate::actor::{Actor, Cap, Envelope};
use crate::frame::{
    lemma_decode_encode, lemma_entangled_round_trip, lemma_payload_round_trip,
    lemma_reset_round_trip, Frame, Payload, RTECK, TACK, TECK, TICK,
};
use crate::link::{Link, LinkEvent, LinkState};
use crate::port::PortEvent;
use vstd::prelude::*;

verus! {

/// Two links joined by a reliable wire, the frame under way, and what the
/// ports have handed in and got out so far.
pub struct Duplex {
    pub a: Link,
    pub b: Link,
    /// The frame under way.
    pub token: Frame,
    /// Whether the frame under way goes to `b`.
    pub to_b: bool,
    /// The payloads that `a` was given to send, oldest first.
    pub sent_a: Seq<Payload>,
    /// The payloads that `a` has released to its port, oldest first.
    pub got_a: Seq<Payload>,
    /// The payloads that `b` was given to send, oldest first.
    pub sent_b: Seq<Payload>,
    /// The payloads that `b` has released to its port, oldest first.
    pub got_b: Seq<Payload>,
}

/// What can happen next to two entangled links.
pub enum Move {
    /// The frame under way arrives.
    Deliver,
    /// The port of `a`, or of `b`, grants its link a read credit.
    Read { at_b: bool, port: Cap },
    /// The port of `a`, or of `b`, hands its link a payload.
    Write { at_b: bool, port: Cap, payload: Payload },
    /// The port of `a`, or of `b`, asks its link for its activity.
    Poll { at_b: bool, port: Cap },
}

/// The payload that a link holds in surplus, if it holds one.
pub open spec fn held(link: Link) -> Seq<Payload> {
    if link.balance == 1 && link.inbound is Some {
        seq![link.inbound->Some_0]
    } else {
        seq![]
    }
}

/// The payload that a link has yet to get across, if it has one.
pub open spec fn queued(link: Link) -> Seq<Payload> {
    match link.outbound {
        Some(payload) => seq![payload],
        None => seq![],
    }
}

/// The frames that a link hands to its wire among `sent`.
pub open spec fn frames(sent: Seq<Envelope>) -> Seq<Frame> {
    sent.filter_map(
        |envelope: Envelope|
            match envelope {
                Envelope::Wire(_, crate::wire::WireEvent::Frame(frame)) => Some(frame),
                _ => None,
            },
    )
}

/// The payloads that a link releases to its port among `sent`.
pub open spec fn releases(sent: Seq<Envelope>) -> Seq<Payload> {
    sent.filter_map(
        |envelope: Envelope|
            match envelope {
                Envelope::Port(_, PortEvent::LinkToPortWrite(payload)) => Some(payload),
                _ => None,
            },
    )
}

impl Duplex {
    /// The link that the frame under way goes to.
    pub open spec fn receiver(self) -> Link {
        if self.to_b {
            self.b
        } else {
            self.a
        }
    }

    /// The link that sent the frame under way.
    pub open spec fn sender(self) -> Link {
        if self.to_b {
            self.a
        } else {
            self.b
        }
    }

    /// The payloads given to the link that sent the frame under way, and
    /// those released by the link that it goes to.
    pub open spec fn forth(self) -> (Seq<Payload>, Seq<Payload>) {
        if self.to_b {
            (self.sent_a, self.got_b)
        } else {
            (self.sent_b, self.got_a)
        }
    }

    /// The payloads given to the link that the frame under way goes to, and
    /// those released by the link that sent it.
    pub open spec fn back(self) -> (Seq<Payload>, Seq<Payload>) {
        if self.to_b {
            (self.sent_b, self.got_a)
        } else {
            (self.sent_a, self.got_b)
        }
    }

    /// What holds of two entangled links at every moment.
    ///
    /// Both links meet their own invariant and run. The frame under way is
    /// entangled; its sequence number is one more than the number that its
    /// sender recorded last, and more than the number that its receiver
    /// recorded last. Its kind fixes both balances: after TICK and RTECK
    /// the sender owes nothing; after TECK it has a deficit for the payload
    /// in the frame; after TACK it holds the receiver's payload in surplus.
    /// In each direction the payloads handed in are those released, then
    /// the one held in surplus at the far end, then the one that waits at
    /// the near end; under TACK these two are one and the same.
    pub open spec fn inv(self) -> bool {
        let s = self.sender();
        let r = self.receiver();
        let i = self.token.spec_i_state();
        &&& s.wf() && r.wf()
        &&& s.state != LinkState::Stop && r.state != LinkState::Stop
        &&& self.token.spec_is_entangled()
        &&& !self.token.spec_is_reset()
        &&& i == TICK || i == TECK || i == TACK || i == RTECK
        &&& s.sequence + 1 == self.token.spec_sequence()
        &&& r.sequence < self.token.spec_sequence()
        &&& i == TICK ==> s.balance == 0 && r.balance >= 0
        &&& i == TECK ==> s.balance == -1 && r.balance == 0 && s.outbound == Some(
            self.token.spec_payload(),
        )
        &&& i == TACK ==> s.balance == 1 && r.balance == -1 && s.inbound == r.outbound
        &&& i == RTECK ==> s.balance == 0 && r.balance == -1
        &&& self.forth().0 == self.forth().1 + held(r) + queued(s)
        &&& self.back().0 == self.back().1 + held(s) + if i == TACK {
            seq![]
        } else {
            queued(r)
        }
    }

    /// Whether `step` can happen: a frame can be answered as long as its
    /// sequence number is not the last; a port grants a credit, or hands
    /// over a payload, only when the one before is used up.
    pub open spec fn enabled(self, step: Move) -> bool {
        match step {
            Move::Deliver => self.token.spec_sequence() < u16::MAX,
            Move::Read { at_b, port } => (if at_b {
                self.b
            } else {
                self.a
            }).reader is None,
            Move::Write { at_b, port, payload } => (if at_b {
                self.b
            } else {
                self.a
            }).writer is None,
            Move::Poll { at_b, port } => true,
        }
    }

    /// The two links after the frame under way has arrived: the receiver has
    /// handled it, its answer is under way, and what it released to its port
    /// is on record.
    pub open spec fn delivered(self) -> Duplex {
        let (next, out) = self.receiver().step(LinkEvent::Frame(self.token), 1);
        let sent = out->Ok_0;
        if self.to_b {
            Duplex {
                b: next,
                token: frames(sent).last(),
                to_b: false,
                got_b: self.got_b + releases(sent),
                ..self
            }
        } else {
            Duplex {
                a: next,
                token: frames(sent).last(),
                to_b: true,
                got_a: self.got_a + releases(sent),
                ..self
            }
        }
    }

    /// The two links after `step`.
    pub open spec fn next(self, step: Move) -> Duplex {
        match step {
            Move::Deliver => self.delivered(),
            Move::Read { at_b, port } => if at_b {
                Duplex { b: self.b.step(LinkEvent::Read(port), 1).0, ..self }
            } else {
                Duplex { a: self.a.step(LinkEvent::Read(port), 1).0, ..self }
            },
            Move::Write { at_b, port, payload } => if at_b {
                Duplex {
                    b: self.b.step(LinkEvent::Write(port, payload), 1).0,
                    sent_b: self.sent_b.push(payload),
                    ..self
                }
            } else {
                Duplex {
                    a: self.a.step(LinkEvent::Write(port, payload), 1).0,
                    sent_a: self.sent_a.push(payload),
                    ..self
                }
            },
            Move::Poll { at_b, port } => if at_b {
                Duplex { b: self.b.step(LinkEvent::Poll(port), 1).0, ..self }
            } else {
                Duplex { a: self.a.step(LinkEvent::Poll(port), 1).0, ..self }
            },
        }
    }

    /// The two links after the steps `steps`, in order.
    pub open spec fn after(self, steps: Seq<Move>) -> Duplex
        decreases steps.len(),
    {
        if steps.len() == 0 {
            self
        } else {
            self.after(steps.drop_last()).next(steps.last())
        }
    }

    /// Whether each of `steps` can happen when its turn comes.
    pub open spec fn admits(self, steps: Seq<Move>) -> bool
        decreases steps.len(),
    {
        steps.len() == 0 || (self.admits(steps.drop_last()) && self.after(
            steps.drop_last(),
        ).enabled(steps.last()))
    }
}

/// What a running link answers to an entangled frame: exactly one frame,
/// entangled, of the kind that the protocol asks for; and it releases to its
/// port the payload it held in surplus when the frame is a TICK, and nothing
/// otherwise.
pub proof fn lemma_answer(link: Link, token: Frame)
    requires
        link.wf(),
        link.state != LinkState::Stop,
        token.spec_is_entangled(),
        !token.spec_is_reset(),
        token.spec_sequence() < u16::MAX,
        ({
            let i = token.spec_i_state();
            i == TICK || i == TECK || i == RTECK || (i == TACK && link.balance == -1)
        }),
    ensures
        ({
            let i = token.spec_i_state();
            let (next, out) = link.step(LinkEvent::Frame(token), 1);
            let answer = frames(out->Ok_0).last();
            &&& out is Ok
            &&& frames(out->Ok_0).len() == 1
            &&& answer.spec_is_entangled()
            &&& !answer.spec_is_reset()
            &&& answer.spec_sequence() == token.spec_sequence() + 1
            &&& answer.spec_i_state() == if i == TICK {
                if link.outbound is Some {
                    TECK
                } else {
                    TICK
                }
            } else if i == TECK {
                if link.reader is Some {
                    TACK
                } else {
                    RTECK
                }
            } else {
                TICK
            }
            &&& answer.spec_i_state() == TECK ==> Some(answer.spec_payload()) == link.outbound
            &&& releases(out->Ok_0) == if i == TICK {
                held(link)
            } else {
                seq![]
            }
        }),
{
    reveal_with_fuel(Seq::filter_map, 3);
    let i = token.spec_i_state();
    let sequence = (token.spec_sequence() + 1) as u16;
    let sent = link.step(LinkEvent::Frame(token), 1).1->Ok_0;
    lemma_entangled_round_trip(sequence, TICK, i);
    lemma_entangled_round_trip(sequence, TACK, i);
    lemma_decode_encode(Frame::spec_new_entangled(sequence, TICK, i));
    lemma_decode_encode(Frame::spec_new_entangled(sequence, TACK, i));
    lemma_payload_round_trip(sequence, RTECK, i, token.spec_payload());
    if link.outbound is Some {
        lemma_payload_round_trip(sequence, TECK, i, link.outbound->Some_0);
    }
    if sent.len() == 2 {
        assert(sent.drop_last() =~= seq![sent[0]]);
        assert(sent.drop_last().drop_last() =~= Seq::<Envelope>::empty());
    } else {
        assert(sent.drop_last() =~= Seq::<Envelope>::empty());
    }
    assert(frames(sent) =~= seq![frames(sent).last()]);
    if i == TICK {
        assert(releases(sent) =~= held(link));
    } else {
        assert(releases(sent) =~= Seq::<Payload>::empty());
    }
}

/// Every step that can happen keeps what holds of two entangled links.
pub proof fn lemma_step_keeps_invariant(duplex: Duplex, step: Move)
    requires
        duplex.inv(),
        duplex.enabled(step),
    ensures
        duplex.next(step).inv(),
{
    match step {
        Move::Deliver => {
            let r = duplex.receiver();
            let s = duplex.sender();
            lemma_answer(r, duplex.token);
            let next = duplex.delivered();
            let i = duplex.token.spec_i_state();
            let r1 = next.sender();
            assert(next.receiver() == s);
            assert(r1 == r.step(LinkEvent::Frame(duplex.token), 1).0);
            assert(next.forth().0 =~= next.forth().1 + held(s) + queued(r1));
            assert(next.back().0 =~= next.back().1 + held(r1) + if next.token.spec_i_state()
                == TACK {
                seq![]
            } else {
                queued(s)
            });
        },
        Move::Read { at_b, port } => {},
        Move::Write { at_b, port, payload } => {
            let next = duplex.next(step);
            assert(next.forth().0 =~= next.forth().1 + held(next.receiver()) + queued(
                next.sender(),
            ));
            assert(next.back().0 =~= next.back().1 + held(next.sender()) + if next.token.spec_i_state()
                == TACK {
                seq![]
            } else {
                queued(next.receiver())
            });
        },
        Move::Poll { at_b, port } => {},
    }
}

/// Two links at the moment of entanglement: both run, neither owes or holds
/// anything, nothing has been handed in or released, and the first TICK is
/// under way, numbered one more than the reset that it answers.
pub open spec fn entangled(duplex: Duplex) -> bool {
    &&& duplex.a.wf() && duplex.b.wf()
    &&& duplex.sender().sequence + 1 == duplex.token.spec_sequence()
    &&& duplex.receiver().sequence < duplex.token.spec_sequence()
    &&& duplex.a.state != LinkState::Stop && duplex.b.state != LinkState::Stop
    &&& duplex.a.balance == 0 && duplex.b.balance == 0
    &&& duplex.a.outbound is None && duplex.b.outbound is None
    &&& duplex.token.spec_is_entangled() && !duplex.token.spec_is_reset()
    &&& duplex.token.spec_i_state() == TICK
    &&& duplex.sent_a.len() == 0 && duplex.got_a.len() == 0
    &&& duplex.sent_b.len() == 0 && duplex.got_b.len() == 0
}

/// The invariant holds from entanglement on, whatever the ports do and
/// however long the exchange of frames goes on, as long as no sequence
/// number runs out.
pub proof fn lemma_invariant_always(duplex: Duplex, steps: Seq<Move>)
    requires
        entangled(duplex),
        duplex.admits(steps),
    ensures
        duplex.after(steps).inv(),
    decreases steps.len(),
{
    if steps.len() == 0 {
        assert(duplex.forth().0 =~= duplex.forth().1 + held(duplex.receiver()) + queued(
            duplex.sender(),
        ));
        assert(duplex.back().0 =~= duplex.back().1 + held(duplex.sender()) + queued(
            duplex.receiver(),
        ));
    } else {
        lemma_invariant_always(duplex, steps.drop_last());
        lemma_step_keeps_invariant(duplex.after(steps.drop_last()), steps.last());
    }
}

/// Exactly once, in order: at every moment after entanglement, what a link
/// has released to its port is the beginning of what the other link was
/// given to send, with no payload left out, repeated or out of place; and
/// of what it was given, at most two payloads are still on their way, the
/// one held at the far end and the one that waits at the near end.
pub proof fn lemma_exactly_once_in_order(duplex: Duplex, steps: Seq<Move>)
    requires
        entangled(duplex),
        duplex.admits(steps),
    ensures
        ({
            let now = duplex.after(steps);
            &&& now.got_b.len() <= now.sent_a.len() <= now.got_b.len() + 2
            &&& now.got_b == now.sent_a.subrange(0, now.got_b.len() as int)
            &&& now.got_a.len() <= now.sent_b.len() <= now.got_a.len() + 2
            &&& now.got_a == now.sent_b.subrange(0, now.got_a.len() as int)
        }),
{
    lemma_invariant_always(duplex, steps);
    let now = duplex.after(steps);
    assert(now.forth().1 =~= now.forth().0.subrange(0, now.forth().1.len() as int));
    assert(now.back().1 =~= now.back().0.subrange(0, now.back().1.len() as int));
}

/// One arrival, seen from outside: the invariant is kept, the answer goes
/// the other way with the next sequence number, the link that sent the frame
/// is as it was, and the records of the two directions change places.
pub proof fn lemma_arrival(duplex: Duplex)
    requires
        duplex.inv(),
        duplex.token.spec_sequence() < u16::MAX,
    ensures
        ({
            let next = duplex.delivered();
            &&& next.inv()
            &&& next.to_b != duplex.to_b
            &&& next.receiver() == duplex.sender()
            &&& next.sender() == duplex.receiver().step(LinkEvent::Frame(duplex.token), 1).0
            &&& next.token.spec_sequence() == duplex.token.spec_sequence() + 1
            &&& next.forth() == duplex.back()
            &&& next.back().0 == duplex.forth().0
            &&& next.back().1 == duplex.forth().1 + if duplex.token.spec_i_state() == TICK {
                held(duplex.receiver())
            } else {
                seq![]
            }
        }),
{
    lemma_answer(duplex.receiver(), duplex.token);
    lemma_step_keeps_invariant(duplex, Move::Deliver);
}

/// Between resets the sequence numbers that a link records strictly
/// increase: with every frame that arrives, the link that takes it records
/// the frame's number, which is larger than the number it held.
pub proof fn lemma_sequence_strictly_increases(duplex: Duplex)
    requires
        duplex.inv(),
        duplex.token.spec_sequence() < u16::MAX,
    ensures
        duplex.delivered().sender().sequence == duplex.token.spec_sequence(),
        duplex.delivered().sender().sequence > duplex.receiver().sequence,
        duplex.delivered().receiver().sequence == duplex.sender().sequence,
{
    lemma_answer(duplex.receiver(), duplex.token);
    lemma_arrival(duplex);
}

/// TICK at a link that owes nothing and has a payload waiting: the payload
/// leaves as TECK.
pub proof fn lemma_tick_begins(duplex: Duplex, payload: Payload)
    requires
        duplex.inv(),
        duplex.token.spec_sequence() < u16::MAX,
        duplex.token.spec_i_state() == TICK,
        duplex.receiver().outbound == Some(payload),
        duplex.receiver().balance == 0,
    ensures
        duplex.delivered().token.spec_i_state() == TECK,
        duplex.delivered().sender().outbound == Some(payload),
        duplex.delivered().back().1 == duplex.forth().1,
{
    lemma_answer(duplex.receiver(), duplex.token);
    lemma_arrival(duplex);
    assert(held(duplex.receiver()) =~= seq![]);
    assert(duplex.forth().1 + Seq::<Payload>::empty() =~= duplex.forth().1);
}

/// TECK at a link that holds a read credit: the payload is kept in surplus
/// and TACK goes back.
pub proof fn lemma_teck_taken(duplex: Duplex)
    requires
        duplex.inv(),
        duplex.token.spec_sequence() < u16::MAX,
        duplex.token.spec_i_state() == TECK,
        duplex.receiver().reader is Some,
    ensures
        duplex.delivered().token.spec_i_state() == TACK,
        duplex.delivered().sender().balance == 1,
        duplex.delivered().sender().inbound == duplex.sender().outbound,
        duplex.delivered().sender().outbound == duplex.receiver().outbound,
        duplex.delivered().sender().reader is Some,
        duplex.delivered().back().1 == duplex.forth().1,
{
    lemma_answer(duplex.receiver(), duplex.token);
    lemma_arrival(duplex);
    assert(duplex.forth().1 + Seq::<Payload>::empty() =~= duplex.forth().1);
}

/// TACK at the link that sent the payload: the link is free again, and TICK
/// goes back.
pub proof fn lemma_tack_settles(duplex: Duplex)
    requires
        duplex.inv(),
        duplex.token.spec_sequence() < u16::MAX,
        duplex.token.spec_i_state() == TACK,
    ensures
        duplex.delivered().token.spec_i_state() == TICK,
        duplex.delivered().sender().outbound is None,
        duplex.delivered().sender().balance == 0,
        duplex.delivered().back().1 == duplex.forth().1,
{
    lemma_answer(duplex.receiver(), duplex.token);
    lemma_arrival(duplex);
    assert(duplex.forth().1 + Seq::<Payload>::empty() =~= duplex.forth().1);
}

/// TICK at a link that holds a payload in surplus: the payload is released
/// to the port.
pub proof fn lemma_tick_releases(duplex: Duplex, payload: Payload)
    requires
        duplex.inv(),
        duplex.token.spec_sequence() < u16::MAX,
        duplex.token.spec_i_state() == TICK,
        duplex.receiver().balance == 1,
        duplex.receiver().inbound == Some(payload),
    ensures
        duplex.delivered().back().1 == duplex.forth().1.push(payload),
        duplex.delivered().sender().balance <= 0,
        duplex.receiver().outbound is None ==> duplex.delivered().token.spec_i_state() == TICK,
{
    lemma_answer(duplex.receiver(), duplex.token);
    lemma_arrival(duplex);
    assert(held(duplex.receiver()) =~= seq![payload]);
    assert(duplex.forth().1 + seq![payload] =~= duplex.forth().1.push(payload));
}

/// A transfer runs to its end in four frames. When a TICK arrives at a
/// link that has a payload waiting and owes nothing, and the far end holds a
/// read credit, then TECK, TACK and TICK follow, and with that TICK the far
/// end releases the payload to its port: the payload is the next one that
/// the port gets, and the near end is free again.
pub proof fn lemma_transfer_completes(duplex: Duplex, payload: Payload)
    requires
        duplex.inv(),
        duplex.token.spec_i_state() == TICK,
        duplex.token.spec_sequence() + 4 <= u16::MAX,
        duplex.receiver().outbound == Some(payload),
        duplex.receiver().balance == 0,
        duplex.sender().reader is Some,
    ensures
        ({
            let done = duplex.delivered().delivered().delivered().delivered();
            &&& done.inv()
            &&& done.to_b == duplex.to_b
            &&& done.back().0 == duplex.back().0
            &&& done.back().1 == duplex.back().1.push(payload)
            &&& done.receiver().outbound is None
            &&& done.receiver().balance == 0
            &&& duplex.sender().outbound is None ==> done.token.spec_i_state() == TICK
            &&& duplex.delivered().token.spec_sequence() == duplex.token.spec_sequence() + 1
            &&& duplex.delivered().delivered().token.spec_sequence()
                == duplex.token.spec_sequence() + 2
            &&& duplex.delivered().delivered().delivered().token.spec_sequence()
                == duplex.token.spec_sequence() + 3
            &&& done.token.spec_sequence() == duplex.token.spec_sequence() + 4
        }),
{
    let teck = duplex.delivered();
    lemma_arrival(duplex);
    lemma_tick_begins(duplex, payload);
    let tack = teck.delivered();
    lemma_arrival(teck);
    lemma_teck_taken(teck);
    let tick = tack.delivered();
    lemma_arrival(tack);
    lemma_tack_settles(tack);
    let done = tick.delivered();
    lemma_arrival(tick);
    lemma_tick_releases(tick, payload);
}

/// A link that owes nothing and holds nothing: a link as it is created, or
/// one that has been stopped.
pub open spec fn idle(link: Link) -> bool {
    &&& link.wf()
    &&& link.balance == 0
    &&& link.inbound is None
    &&& link.outbound is None
}

/// The two links and the frame under way after `first` has answered the
/// reset of `second` with the first TICK.
pub open spec fn joined(first: Link, second: Link, tick: Frame) -> Duplex {
    Duplex {
        a: first,
        b: second,
        token: tick,
        to_b: true,
        sent_a: seq![],
        got_a: seq![],
        sent_b: seq![],
        got_b: seq![],
    }
}

/// The handshake. Two idle links are started, and each takes the reset
/// frame of the other. The link with the smaller nonce waits; the link with
/// the larger nonce sends the first TICK, numbered 1; and with that the two
/// are entangled.
pub proof fn lemma_handshake(a: Link, b: Link, port_a: Cap, port_b: Cap, fresh: u32)
    requires
        idle(a),
        idle(b),
        a.nonce > b.nonce,
    ensures
        ({
            let a1 = a.step(LinkEvent::Start(port_a), fresh).0;
            let b1 = b.step(LinkEvent::Start(port_b), fresh).0;
            let (a2, answer) = a1.step(LinkEvent::Frame(Frame::spec_new_reset(b.nonce)), fresh);
            let (b2, silence) = b1.step(LinkEvent::Frame(Frame::spec_new_reset(a.nonce)), fresh);
            let tick = Frame::spec_new_entangled(1, TICK, TICK);
            &&& a.step(LinkEvent::Start(port_a), fresh).1->Ok_0[0] == a.to_wire(
                Frame::spec_new_reset(a.nonce),
            )
            &&& b.step(LinkEvent::Start(port_b), fresh).1->Ok_0[0] == b.to_wire(
                Frame::spec_new_reset(b.nonce),
            )
            &&& answer == Ok::<Seq<Envelope>, crate::fault::Fault>(seq![a.to_wire(tick)])
            &&& silence == Ok::<Seq<Envelope>, crate::fault::Fault>(seq![])
            &&& entangled(joined(a2, b2, tick))
        }),
{
    lemma_reset_round_trip(a.nonce);
    lemma_reset_round_trip(b.nonce);
    lemma_decode_encode(Frame::spec_new_reset(a.nonce));
    lemma_decode_encode(Frame::spec_new_reset(b.nonce));
    let tick = Frame::spec_new_entangled(1, TICK, TICK);
    lemma_entangled_round_trip(1, TICK, TICK);
    lemma_decode_encode(tick);
}

/// A collision is resolved. Two idle links with the same nonce are started,
/// and each takes the reset frame of the other: both give up their nonce
/// for a fresh one and send a reset again. If the fresh nonces differ, the
/// handshake then goes through: the link with the larger one sends the
/// first TICK, and the two are entangled.
pub proof fn lemma_collision(a: Link, b: Link, port_a: Cap, port_b: Cap, fresh_a: u32, fresh_b: u32)
    requires
        idle(a),
        idle(b),
        a.nonce == b.nonce,
        fresh_a > fresh_b > 0,
    ensures
        ({
            let a1 = a.step(LinkEvent::Start(port_a), fresh_a).0;
            let b1 = b.step(LinkEvent::Start(port_b), fresh_b).0;
            let (a2, again_a) = a1.step(LinkEvent::Frame(Frame::spec_new_reset(b.nonce)), fresh_a);
            let (b2, again_b) = b1.step(LinkEvent::Frame(Frame::spec_new_reset(a.nonce)), fresh_b);
            let (a3, answer) = a2.step(LinkEvent::Frame(Frame::spec_new_reset(fresh_b)), fresh_a);
            let (b3, silence) = b2.step(LinkEvent::Frame(Frame::spec_new_reset(fresh_a)), fresh_b);
            let tick = Frame::spec_new_entangled(1, TICK, TICK);
            &&& a2.nonce == fresh_a && b2.nonce == fresh_b
            &&& again_a == Ok::<Seq<Envelope>, crate::fault::Fault>(
                seq![a.to_wire(Frame::spec_new_reset(fresh_a))],
            )
            &&& again_b == Ok::<Seq<Envelope>, crate::fault::Fault>(
                seq![b.to_wire(Frame::spec_new_reset(fresh_b))],
            )
            &&& answer == Ok::<Seq<Envelope>, crate::fault::Fault>(seq![a.to_wire(tick)])
            &&& silence == Ok::<Seq<Envelope>, crate::fault::Fault>(seq![])
            &&& entangled(joined(a3, b3, tick))
        }),
{
    lemma_reset_round_trip(a.nonce);
    lemma_reset_round_trip(fresh_a);
    lemma_reset_round_trip(fresh_b);
    lemma_decode_encode(Frame::spec_new_reset(a.nonce));
    lemma_decode_encode(Frame::spec_new_reset(fresh_a));
    lemma_decode_encode(Frame::spec_new_reset(fresh_b));
    let tick = Frame::spec_new_entangled(1, TICK, TICK);
    lemma_entangled_round_trip(1, TICK, TICK);
    lemma_decode_encode(tick);
}

} // verus!
