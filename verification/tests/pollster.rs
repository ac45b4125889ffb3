use ether::actor::{Actor, Cap, Envelope};
use ether::fault::Fault;
use ether::link::LinkState;
use ether::pollster::{Pollster, PollsterEvent, IDLE_LIMIT};
use ether::port::{PortActivity, PortEvent};

const ME: Cap = Cap { id: 9 };
const HUB: Cap = Cap { id: 8 };

fn ports(n: usize) -> Vec<Cap> {
    (1..=n).map(Cap::new).collect()
}

fn ready(n: usize) -> Pollster {
    let (mut pollster, sent) = Pollster::create(&ME, &ports(n));
    assert_eq!(vec![Envelope::Pollster(ME, PollsterEvent::Init(ME))], sent);
    assert_eq!(Ok(vec![]), pollster.on_event(PollsterEvent::new_init(&ME)));
    pollster
}

fn answer(pollster: &mut Pollster, port: usize, state: LinkState) -> Vec<Envelope> {
    let activity = PortActivity::new(&state, 0, 0);
    pollster.on_event(PollsterEvent::new_port_activity(&Cap::new(port), &activity)).unwrap()
}

#[test]
fn created_pollster_counts_from_zero() {
    let (pollster, _) = Pollster::create(&ME, &ports(3));
    assert_eq!(
        Pollster { myself: None, hub: None, ports: ports(3), pending: 0, idle: vec![0, 0, 0] },
        pollster
    );
    assert_eq!(3, IDLE_LIMIT);
    assert_eq!(Some(0), pollster.idle_count(2));
    assert_eq!(None, pollster.idle_count(3));
}

#[test]
fn pollster_needs_its_capability_first() {
    let (mut pollster, _) = Pollster::create(&ME, &ports(1));
    assert_eq!(Err(Fault::NotInitialized), pollster.on_event(PollsterEvent::new_poll(&HUB)));
    let mut pollster = ready(1);
    assert_eq!(Err(Fault::AlreadyInitialized), pollster.on_event(PollsterEvent::new_init(&ME)));
}

#[test]
fn poll_asks_every_port_once_per_round() {
    let mut pollster = ready(3);
    assert_eq!(
        Ok(vec![
            Envelope::Port(Cap::new(1), PortEvent::Poll(ME)),
            Envelope::Port(Cap::new(2), PortEvent::Poll(ME)),
            Envelope::Port(Cap::new(3), PortEvent::Poll(ME)),
        ]),
        pollster.on_event(PollsterEvent::new_poll(&HUB))
    );
    assert_eq!((Some(HUB), 3), (pollster.hub, pollster.pending));
    // A poll while the round is in flight changes nothing.
    assert_eq!(Ok(vec![]), pollster.on_event(PollsterEvent::new_poll(&Cap::new(77))));
    assert_eq!((Some(HUB), 3), (pollster.hub, pollster.pending));
}

#[test]
fn live_clears_the_counter_and_anything_else_adds_one() {
    let mut pollster = ready(3);
    pollster.on_event(PollsterEvent::new_poll(&HUB)).unwrap();
    assert!(answer(&mut pollster, 2, LinkState::Run).is_empty());
    assert!(answer(&mut pollster, 1, LinkState::Init).is_empty());
    assert_eq!(vec![1, 1, 0], pollster.idle);
    assert_eq!(1, pollster.pending);
    assert!(answer(&mut pollster, 3, LinkState::Stop).is_empty());
    assert_eq!((vec![1, 1, 1], 0, None), (pollster.idle.clone(), pollster.pending, pollster.hub));
    pollster.on_event(PollsterEvent::new_poll(&HUB)).unwrap();
    answer(&mut pollster, 1, LinkState::Live);
    assert_eq!(vec![0, 1, 1], pollster.idle);
}

#[test]
fn a_port_idle_for_more_than_three_rounds_is_stopped() {
    let mut pollster = ready(2);
    for round in 1..=4 {
        pollster.on_event(PollsterEvent::new_poll(&HUB)).unwrap();
        assert!(answer(&mut pollster, 1, LinkState::Run).is_empty());
        let sent = answer(&mut pollster, 2, LinkState::Live);
        if round <= 3 {
            assert!(sent.is_empty());
            assert_eq!(Some(round), pollster.idle_count(0));
        } else {
            assert_eq!(vec![Envelope::Port(Cap::new(1), PortEvent::Stop(HUB))], sent);
            assert_eq!(Some(0), pollster.idle_count(0));
        }
        assert_eq!(Some(0), pollster.idle_count(1));
        assert_eq!(None, pollster.hub);
    }
}

#[test]
fn dead_ports_are_stopped_in_port_order() {
    let mut pollster = ready(3);
    for _ in 0..3 {
        pollster.on_event(PollsterEvent::new_poll(&HUB)).unwrap();
        for port in [3, 1, 2] {
            assert!(answer(&mut pollster, port, LinkState::Run).is_empty());
        }
    }
    pollster.on_event(PollsterEvent::new_poll(&HUB)).unwrap();
    answer(&mut pollster, 3, LinkState::Run);
    answer(&mut pollster, 2, LinkState::Live);
    assert_eq!(
        vec![
            Envelope::Port(Cap::new(1), PortEvent::Stop(HUB)),
            Envelope::Port(Cap::new(3), PortEvent::Stop(HUB)),
        ],
        answer(&mut pollster, 1, LinkState::Init)
    );
    assert_eq!(vec![0, 0, 0], pollster.idle);
}

#[test]
fn answers_out_of_turn_are_faults() {
    let mut pollster = ready(2);
    let activity = PortActivity::new(&LinkState::Live, 0, 0);
    assert_eq!(
        Err(Fault::UnexpectedEvent),
        pollster.on_event(PollsterEvent::new_port_activity(&Cap::new(1), &activity))
    );
    pollster.on_event(PollsterEvent::new_poll(&HUB)).unwrap();
    assert_eq!(
        Err(Fault::UnknownPort),
        pollster.on_event(PollsterEvent::new_port_activity(&Cap::new(5), &activity))
    );
    assert_eq!((Some(HUB), 2, vec![0, 0]), (pollster.hub, pollster.pending, pollster.idle.clone()));
}

#[test]
fn pollster_without_ports_never_ends_its_round() {
    let mut pollster = ready(0);
    assert_eq!(Ok(vec![]), pollster.on_event(PollsterEvent::new_poll(&HUB)));
    assert_eq!((Some(HUB), 0), (pollster.hub, pollster.pending));
}
