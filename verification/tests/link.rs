use std::collections::VecDeque;

use ether::actor::{Actor, Cap, Envelope};
use ether::fault::Fault;
use ether::frame::{Frame, Payload, TreeId, PAYLOAD_SIZE, RTECK, TACK, TECK, TICK};
use ether::link::{Link, LinkEvent, LinkState};
use ether::port::{PortActivity, PortEvent, PortStatus};
use ether::wire::WireEvent;

const WIRE: Cap = Cap { id: 1 };
const PORT: Cap = Cap { id: 2 };

fn payload(first: u8) -> Payload {
    Payload::new(&TreeId::new(144), &[first; PAYLOAD_SIZE])
}

fn to_wire(frame: Frame) -> Envelope {
    Envelope::Wire(WIRE, WireEvent::Frame(frame))
}

fn to_port(event: PortEvent) -> Envelope {
    Envelope::Port(PORT, event)
}

// A link that has been started and is entangled.
fn running() -> Link {
    let mut link = Link::create(&WIRE, 12345);
    link.on_event(LinkEvent::new_start(&PORT)).unwrap();
    link.on_event(LinkEvent::new_frame(&Frame::new_entangled(1, TICK, TICK))).unwrap();
    assert_eq!(LinkState::Live, link.state);
    link
}

fn with_payload(first: u8, i: u8, seq: u16) -> Frame {
    let mut frame = Frame::new_entangled(seq, i, TICK);
    frame.set_payload(&payload(first));
    frame
}

#[test]
fn created_link_is_stopped_and_empty() {
    let link = Link::create(&WIRE, 12345);
    assert_eq!(
        Link {
            wire: WIRE,
            nonce: 12345,
            sequence: 0,
            state: LinkState::Stop,
            balance: 0,
            reader: None,
            inbound: None,
            writer: None,
            outbound: None,
        },
        link
    );
}

#[test]
fn stopped_link_ignores_frames() {
    let mut link = Link::create(&WIRE, 12345);
    let before = Link::create(&WIRE, 12345);
    for frame in [
        Frame::new_reset(7),
        Frame::new_entangled(3, TICK, TICK),
        Frame::new(&[0u8; 60]).unwrap(),
    ] {
        assert_eq!(Ok(vec![]), link.on_event(LinkEvent::new_frame(&frame)));
        assert_eq!(before, link);
    }
}

#[test]
fn start_sends_reset_and_reports_status() {
    let mut link = Link::create(&WIRE, 12345);
    let sent = link.on_event(LinkEvent::new_start(&PORT)).unwrap();
    assert_eq!(
        vec![
            to_wire(Frame::new_reset(12345)),
            to_port(PortEvent::Status(PortStatus {
                activity: PortActivity { link_state: LinkState::Init, ait_balance: 0, sequence: 0 },
                inbound: None,
                outbound: None,
            })),
        ],
        sent
    );
    assert_eq!(LinkState::Init, link.state);
}

#[test]
fn reset_with_larger_nonce_makes_the_link_wait() {
    let mut link = running();
    let sent = link.on_event(LinkEvent::new_frame(&Frame::new_reset(12346))).unwrap();
    assert!(sent.is_empty());
    assert_eq!((LinkState::Init, 0, 12345), (link.state, link.sequence, link.nonce));
}

#[test]
fn reset_with_smaller_nonce_makes_the_link_entangle() {
    let mut link = running();
    let mut reset = Frame::new_reset(12344);
    reset.set_sequence(40);
    let sent = link.on_event(LinkEvent::new_frame(&reset)).unwrap();
    assert_eq!(vec![to_wire(Frame::new_entangled(41, TICK, TICK))], sent);
    assert_eq!((LinkState::Init, 0, 12345), (link.state, link.sequence, link.nonce));
}

#[test]
fn reset_with_equal_nonce_makes_the_link_rekey() {
    let mut link = running();
    let sent = link.handle(LinkEvent::new_frame(&Frame::new_reset(12345)), 777).unwrap();
    assert_eq!(vec![to_wire(Frame::new_reset(777))], sent);
    assert_eq!((LinkState::Init, 0, 777), (link.state, link.sequence, link.nonce));
}

#[test]
fn rekeying_draws_a_nonce_that_is_not_zero() {
    let mut drawn = Vec::new();
    for _ in 0..16 {
        let mut link = running();
        let event = LinkEvent::new_frame(&Frame::new_reset(12345));
        assert!(link.collides(&event));
        let sent = link.on_event(event).unwrap();
        assert_ne!(0, link.nonce);
        assert_ne!(12345, link.nonce);
        assert_eq!(vec![to_wire(Frame::new_reset(link.nonce))], sent);
        drawn.push(link.nonce);
    }
    // The draws are random: sixteen of them are not all at one bound.
    assert!(drawn.iter().any(|nonce| *nonce != 1));
    assert!(drawn.iter().any(|nonce| *nonce != u32::MAX));
    assert!(drawn.iter().any(|nonce| *nonce != drawn[0]));
    assert_ne!(0, Link::fresh_nonce());
}

#[test]
fn a_nonce_drawn_in_place_of_another_differs_from_it() {
    for taken in [0u32, 1, 2, 12345, u32::MAX - 1, u32::MAX] {
        let mut drawn = Vec::new();
        for _ in 0..16 {
            let nonce = Link::other_nonce(taken);
            assert_ne!(0, nonce);
            assert_ne!(taken, nonce);
            drawn.push(nonce);
        }
        assert!(drawn.iter().any(|nonce| *nonce != drawn[0]));
    }
}

#[test]
fn only_a_colliding_reset_draws_a_nonce() {
    let link = running();
    assert!(!link.collides(&LinkEvent::new_frame(&Frame::new_reset(1))));
    assert!(!link.collides(&LinkEvent::new_frame(&Frame::new_entangled(0, TICK, TICK))));
    assert!(!link.collides(&LinkEvent::new_start(&PORT)));
    let stopped = Link::create(&WIRE, 12345);
    assert!(!stopped.collides(&LinkEvent::new_frame(&Frame::new_reset(12345))));
}

#[test]
fn tick_is_answered_with_tick() {
    let mut link = running();
    let sent = link.on_event(LinkEvent::new_frame(&Frame::new_entangled(7, TICK, TACK))).unwrap();
    assert_eq!(vec![to_wire(Frame::new_entangled(8, TICK, TICK))], sent);
    assert_eq!((LinkState::Live, 7, 0), (link.state, link.sequence, link.balance));
}

#[test]
fn tick_with_a_payload_waiting_is_answered_with_teck() {
    let mut link = running();
    assert_eq!(Ok(vec![]), link.on_event(LinkEvent::new_write(&PORT, &payload(5))));
    let sent = link.on_event(LinkEvent::new_frame(&Frame::new_entangled(7, TICK, TICK))).unwrap();
    assert_eq!(vec![to_wire(with_payload(5, TECK, 8))], sent);
    assert_eq!(-1, link.balance);
    assert_eq!(Some(payload(5)), link.outbound);
    assert_eq!(Some(PORT), link.writer);
}

#[test]
fn teck_with_a_reader_is_answered_with_tack() {
    let mut link = running();
    assert_eq!(Ok(vec![]), link.on_event(LinkEvent::new_read(&PORT)));
    let sent = link.on_event(LinkEvent::new_frame(&with_payload(9, TECK, 11))).unwrap();
    assert_eq!(vec![to_wire(Frame::new_entangled(12, TACK, TECK))], sent);
    assert_eq!(1, link.balance);
    assert_eq!(Some(payload(9)), link.inbound);
    assert_eq!(Some(PORT), link.reader);
    // The payload is released with the next TICK, and the credit is used up.
    let sent = link.on_event(LinkEvent::new_frame(&Frame::new_entangled(13, TICK, TACK))).unwrap();
    assert_eq!(
        vec![
            to_port(PortEvent::LinkToPortWrite(payload(9))),
            to_wire(Frame::new_entangled(14, TICK, TICK)),
        ],
        sent
    );
    assert_eq!((0, None, None), (link.balance, link.inbound, link.reader));
}

#[test]
fn teck_without_a_reader_is_answered_with_rteck() {
    let mut link = running();
    let sent = link.on_event(LinkEvent::new_frame(&with_payload(9, TECK, 11))).unwrap();
    let mut reply = Frame::new_entangled(12, RTECK, TECK);
    reply.set_payload(&payload(9));
    assert_eq!(vec![to_wire(reply)], sent);
    assert_eq!((0, None), (link.balance, link.inbound));
}

#[test]
fn tack_completes_the_write() {
    let mut link = running();
    link.on_event(LinkEvent::new_write(&PORT, &payload(5))).unwrap();
    link.on_event(LinkEvent::new_frame(&Frame::new_entangled(7, TICK, TICK))).unwrap();
    let sent = link.on_event(LinkEvent::new_frame(&Frame::new_entangled(9, TACK, TECK))).unwrap();
    assert_eq!(
        vec![to_port(PortEvent::LinkToPortRead), to_wire(Frame::new_entangled(10, TICK, TACK))],
        sent
    );
    assert_eq!((0, None, None), (link.balance, link.outbound, link.writer));
}

#[test]
fn rteck_keeps_the_payload_for_the_next_tick() {
    let mut link = running();
    link.on_event(LinkEvent::new_write(&PORT, &payload(5))).unwrap();
    link.on_event(LinkEvent::new_frame(&Frame::new_entangled(7, TICK, TICK))).unwrap();
    let sent = link.on_event(LinkEvent::new_frame(&with_payload(5, RTECK, 9))).unwrap();
    assert_eq!(vec![to_wire(Frame::new_entangled(10, TICK, RTECK))], sent);
    assert_eq!((0, Some(payload(5)), Some(PORT)), (link.balance, link.outbound, link.writer));
    let sent = link.on_event(LinkEvent::new_frame(&Frame::new_entangled(11, TICK, TICK))).unwrap();
    assert_eq!(vec![to_wire(with_payload(5, TECK, 12))], sent);
    assert_eq!(-1, link.balance);
}

#[test]
fn poll_reports_activity_and_clears_live() {
    let mut link = running();
    let live = PortActivity { link_state: LinkState::Live, ait_balance: 0, sequence: 1 };
    assert_eq!(Ok(vec![to_port(PortEvent::Activity(live))]), link.on_event(LinkEvent::new_poll(&PORT)));
    assert_eq!(LinkState::Run, link.state);
    let run = PortActivity { link_state: LinkState::Run, ait_balance: 0, sequence: 1 };
    assert_eq!(Ok(vec![to_port(PortEvent::Activity(run))]), link.on_event(LinkEvent::new_poll(&PORT)));
    assert_eq!(LinkState::Run, link.state);
    link.on_event(LinkEvent::new_frame(&Frame::new_entangled(3, TICK, TICK))).unwrap();
    assert_eq!(LinkState::Live, link.state);
}

#[test]
fn stop_reports_what_the_link_held_and_clears_it() {
    let mut link = running();
    link.on_event(LinkEvent::new_read(&PORT)).unwrap();
    link.on_event(LinkEvent::new_write(&PORT, &payload(5))).unwrap();
    link.on_event(LinkEvent::new_frame(&with_payload(9, TECK, 11))).unwrap();
    let sent = link.on_event(LinkEvent::new_stop(&PORT)).unwrap();
    assert_eq!(
        vec![to_port(PortEvent::Status(PortStatus {
            activity: PortActivity { link_state: LinkState::Stop, ait_balance: 1, sequence: 11 },
            inbound: Some(payload(9)),
            outbound: Some(payload(5)),
        }))],
        sent
    );
    assert_eq!(
        Link {
            wire: WIRE,
            nonce: 12345,
            sequence: 11,
            state: LinkState::Stop,
            balance: 0,
            reader: None,
            inbound: None,
            writer: None,
            outbound: None,
        },
        link
    );
    // Stopping again reports the empty link.
    let sent = link.on_event(LinkEvent::new_stop(&PORT)).unwrap();
    assert_eq!(
        vec![to_port(PortEvent::Status(PortStatus {
            activity: PortActivity { link_state: LinkState::Stop, ait_balance: 0, sequence: 11 },
            inbound: None,
            outbound: None,
        }))],
        sent
    );
}

#[test]
fn faults_leave_the_link_as_it_was() {
    let mut link = running();
    link.on_event(LinkEvent::new_read(&PORT)).unwrap();
    link.on_event(LinkEvent::new_write(&PORT, &payload(5))).unwrap();
    let before = format!("{:?}", link);
    let mut unknown = Frame::new_entangled(3, TICK, TICK);
    unknown.data[13] = 0xB7;
    let mut last_reset = Frame::new_reset(1);
    last_reset.set_sequence(u16::MAX);
    for (event, fault) in [
        (LinkEvent::new_frame(&unknown), Fault::BadEtherType),
        (LinkEvent::new_frame(&Frame::new_entangled(3, 0x05, TICK)), Fault::BadIState),
        (LinkEvent::new_frame(&Frame::new_entangled(3, TACK, TICK)), Fault::BalanceInvariantViolated),
        (LinkEvent::new_frame(&Frame::new_entangled(u16::MAX, TICK, TICK)), Fault::SequenceExhausted),
        (LinkEvent::new_frame(&Frame::new_entangled(u16::MAX, TECK, TICK)), Fault::SequenceExhausted),
        (LinkEvent::new_frame(&Frame::new_entangled(u16::MAX, RTECK, TICK)), Fault::SequenceExhausted),
        (LinkEvent::new_frame(&last_reset), Fault::SequenceExhausted),
        (LinkEvent::new_read(&PORT), Fault::CreditDuplicated),
        (LinkEvent::new_write(&PORT, &payload(6)), Fault::CreditDuplicated),
    ] {
        assert_eq!(Err(fault), link.on_event(event));
        assert_eq!(before, format!("{:?}", link));
    }
}

// Two links joined back to back: what one hands to its wire arrives at the
// other. What they send to their ports is kept for the test to look at.
struct Pair {
    links: [Link; 2],
    frames: VecDeque<(usize, Frame)>,
    to_ports: [Vec<PortEvent>; 2],
    on_wire: Vec<(usize, Frame)>,
}

impl Pair {
    fn new(nonce_a: u32, nonce_b: u32) -> Pair {
        Pair {
            links: [Link::create(&WIRE, nonce_a), Link::create(&WIRE, nonce_b)],
            frames: VecDeque::new(),
            to_ports: [Vec::new(), Vec::new()],
            on_wire: Vec::new(),
        }
    }

    fn send(&mut self, at: usize, event: LinkEvent) {
        let sent = self.links[at].on_event(event).expect("no fault");
        assert!((-1..=1).contains(&self.links[at].balance));
        for envelope in sent {
            match envelope {
                Envelope::Wire(_, WireEvent::Frame(frame)) => {
                    self.on_wire.push((at, frame));
                    self.frames.push_back((1 - at, frame));
                }
                Envelope::Port(_, event) => self.to_ports[at].push(event),
                other => panic!("unexpected {:?}", other),
            }
        }
    }

    // Delivers the oldest frame under way.
    fn deliver(&mut self) -> bool {
        match self.frames.pop_front() {
            Some((to, frame)) => {
                self.send(to, LinkEvent::new_frame(&frame));
                true
            }
            None => false,
        }
    }

    fn start(&mut self) {
        self.send(0, LinkEvent::new_start(&PORT));
        self.send(1, LinkEvent::new_start(&PORT));
        for _ in 0..4 {
            self.deliver();
        }
    }
}

#[test]
fn exactly_once_in_order_ait_port_to_port() {
    const N_END: u8 = 0x03;
    // The ports behind the links: each hands in the payloads 1, 2, 3, one
    // after the other is through, and grants a credit for each one it gets.
    let mut pair = Pair::new(12345, 67890);
    pair.start();
    let mut n_send = [0u8; 2];
    let mut n_recv = [0u8; 2];
    let mut in_order = [true; 2];
    for at in 0..2 {
        pair.to_ports[at].clear();
        pair.to_ports[at].push(PortEvent::new_link_to_port_read());
        pair.send(at, LinkEvent::new_read(&PORT));
    }
    for _ in 0..250 {
        for at in 0..2 {
            for event in std::mem::take(&mut pair.to_ports[at]) {
                match event {
                    PortEvent::LinkToPortWrite(payload) => {
                        n_recv[at] += 1;
                        if payload.data[0] != n_recv[at] {
                            in_order[at] = false;
                        }
                        pair.send(at, LinkEvent::new_read(&PORT));
                    }
                    PortEvent::LinkToPortRead => {
                        if n_send[at] < N_END {
                            n_send[at] += 1;
                            let payload = payload(n_send[at]);
                            pair.send(at, LinkEvent::new_write(&PORT, &payload));
                        }
                    }
                    other => panic!("unexpected {:?}", other),
                }
            }
        }
        assert!(pair.deliver());
    }
    for at in 0..2 {
        assert_eq!(N_END, n_send[at]);
        assert_eq!(N_END, n_recv[at]);
        assert_eq!(true, in_order[at]);
        assert_eq!(0, pair.links[at].balance);
    }
}

#[test]
fn sequence_numbers_increase_by_two_at_each_link() {
    let mut pair = Pair::new(12345, 67890);
    pair.start();
    pair.send(0, LinkEvent::new_write(&PORT, &payload(1)));
    pair.send(1, LinkEvent::new_read(&PORT));
    let mut seen: [Vec<u16>; 2] = [Vec::new(), Vec::new()];
    for _ in 0..40 {
        let (to, frame) = *pair.frames.front().expect("a frame is under way");
        assert!(pair.frames.len() == 1);
        pair.deliver();
        assert_eq!(frame.get_sequence(), pair.links[to].sequence);
        seen[to].push(frame.get_sequence());
    }
    for at in 0..2 {
        assert!(seen[at].windows(2).all(|pair| pair[0] + 2 == pair[1]));
    }
    let numbers: Vec<u16> = pair.on_wire.iter().filter(|(_, frame)| frame.is_entangled()).map(|(_, frame)| frame.get_sequence()).collect();
    assert_eq!((1..=numbers.len() as u16).collect::<Vec<u16>>(), numbers);
}

#[test]
fn rteck_under_back_pressure() {
    // Bob's port never grants a read credit: every offer of the payload is
    // one TECK, one RTECK and one TICK, and the payload stays with Alice.
    let mut pair = Pair::new(12345, 67890);
    pair.start();
    pair.send(0, LinkEvent::new_write(&PORT, &payload(1)));
    pair.on_wire.clear();
    for _ in 0..5 {
        // A TICK is under way to Alice.
        let (to, frame) = *pair.frames.front().unwrap();
        assert_eq!((0, TICK), (to, frame.get_i_state()));
        assert_eq!(0, pair.links[0].balance);
        assert_eq!(0, pair.links[1].balance);
        pair.deliver();
        assert_eq!(-1, pair.links[0].balance);
        pair.deliver();
        assert_eq!(0, pair.links[1].balance);
        assert_eq!(None, pair.links[1].inbound);
        pair.deliver();
        assert_eq!(0, pair.links[0].balance);
        assert_eq!(Some(payload(1)), pair.links[0].outbound);
        pair.deliver();
    }
    let kinds: Vec<(usize, u8)> = pair.on_wire.iter().map(|(from, frame)| (*from, frame.get_i_state())).collect();
    let cycle = vec![(0, TECK), (1, RTECK), (0, TICK), (1, TICK)];
    assert_eq!(cycle.repeat(5), kinds);
    for (from, frame) in &pair.on_wire {
        if frame.get_i_state() == TECK || frame.get_i_state() == RTECK {
            assert_eq!(payload(1), frame.get_payload(), "from {}", from);
        }
    }
    assert!(pair.to_ports[0].iter().all(|event| matches!(event, PortEvent::Status(_))));
    assert!(pair.to_ports[1].iter().all(|event| matches!(event, PortEvent::Status(_))));
}

#[test]
fn detect_link_failure_by_harvesting_events() {
    let mut pair = Pair::new(12345, 67890);
    let states = |pair: &mut Pair, at: usize| -> Vec<(LinkState, isize)> {
        std::mem::take(&mut pair.to_ports[at])
            .iter()
            .map(|event| match event {
                PortEvent::Activity(activity) => (activity.link_state, activity.ait_balance),
                PortEvent::Status(status) => (status.activity.link_state, status.activity.ait_balance),
                other => panic!("unexpected {:?}", other),
            })
            .collect()
    };
    // Polled before they start, the links are stopped.
    for at in 0..2 {
        pair.send(at, LinkEvent::new_poll(&PORT));
        pair.send(at, LinkEvent::new_start(&PORT));
        assert_eq!(vec![(LinkState::Stop, 0), (LinkState::Init, 0)], states(&mut pair, at));
    }
    // Entangled, they are live at the first poll and quiet at the second.
    for _ in 0..10 {
        assert!(pair.deliver());
    }
    for at in 0..2 {
        pair.send(at, LinkEvent::new_poll(&PORT));
        pair.send(at, LinkEvent::new_poll(&PORT));
        assert_eq!(vec![(LinkState::Live, 0), (LinkState::Run, 0)], states(&mut pair, at));
    }
    for _ in 0..10 {
        assert!(pair.deliver());
    }
    for at in 0..2 {
        pair.send(at, LinkEvent::new_poll(&PORT));
        assert_eq!(vec![(LinkState::Live, 0)], states(&mut pair, at));
    }
    // Stopping one side freezes the other.
    pair.send(0, LinkEvent::new_stop(&PORT));
    assert_eq!(vec![(LinkState::Stop, 0)], states(&mut pair, 0));
    while pair.deliver() {}
    pair.send(1, LinkEvent::new_poll(&PORT));
    pair.send(0, LinkEvent::new_poll(&PORT));
    pair.send(1, LinkEvent::new_poll(&PORT));
    assert_eq!(vec![(LinkState::Stop, 0)], states(&mut pair, 0));
    let at_bob = states(&mut pair, 1);
    assert_eq!(LinkState::Run, at_bob[1].0);
    assert!(!pair.deliver());
}
