use ether::actor::{Actor, Cap, Envelope};
use ether::cell::CellEvent;
use ether::fault::Fault;
use ether::frame::{Payload, TreeId, FAILOVER_D, FAILOVER_R, PAYLOAD_SIZE};
use ether::hub::{Failover, Hub, HubEvent, Route, FAILOVER_MARK, MAX_PORTS, PEER_TREE};
use ether::link::LinkState;
use ether::port::{PortActivity, PortEvent, PortStatus};

const HUB: Cap = Cap { id: 10 };
const CELL: Cap = Cap { id: 11 };
const PORT0: Cap = Cap { id: 1 };
const PORT1: Cap = Cap { id: 2 };
const PORT2: Cap = Cap { id: 3 };

fn payload(first: u8) -> Payload {
    Payload::new(&TreeId::new(144), &[first; PAYLOAD_SIZE])
}

fn ctrl(op: u8, balance: u8, sequence: u16) -> Payload {
    Payload::ctrl_msg(&TreeId::new(0x8888), op, balance, sequence, 0x44556677)
}

fn stopped(balance: isize, sequence: u16, outbound: Option<Payload>) -> PortStatus {
    PortStatus::new(&PortActivity::new(&LinkState::Stop, balance, sequence), &None, &outbound)
}

fn ready(ports: &[Cap]) -> Hub {
    let (mut hub, _) = Hub::create(&HUB, ports);
    assert_eq!(Ok(vec![]), hub.on_event(HubEvent::new_init(&HUB)));
    hub
}

fn to_port(port: Cap, payload: Payload) -> Envelope {
    Envelope::Port(port, PortEvent::HubToPortWrite(HUB, payload))
}

#[test]
fn created_hub_greets_itself_and_its_ports() {
    let (hub, sent) = Hub::create(&HUB, &[PORT0, PORT1]);
    assert_eq!(
        vec![
            Envelope::Hub(HUB, HubEvent::Init(HUB)),
            Envelope::Port(PORT0, PortEvent::Init(PORT0, HUB)),
            Envelope::Port(PORT0, PortEvent::Start(HUB)),
            Envelope::Port(PORT1, PortEvent::Init(PORT1, HUB)),
            Envelope::Port(PORT1, PortEvent::Start(HUB)),
        ],
        sent
    );
    assert_eq!(None, hub.myself);
    assert_eq!(vec![PORT0, PORT1], hub.ports);
    assert_eq!(0, hub.route_port);
    assert_eq!(None, hub.cell_in.reader);
    assert_eq!((None, None, vec![]), (hub.cell_out.writer, hub.cell_out.payload, hub.cell_out.send_to.clone()));
    for (n, port) in [PORT0, PORT1].iter().enumerate() {
        assert_eq!(Some(*port), hub.port_out[n].reader);
        assert!(hub.port_out[n].ctrl_msgs.is_empty());
        assert_eq!((None, None), (hub.port_in[n].writer, hub.port_in[n].payload));
        assert!(hub.port_in[n].send_to.is_empty());
        assert_eq!(Failover { payload_r: None, status_r: None, status_d: None }, hub.failover[n]);
    }
    assert_eq!((3, 0x8888, 0x44556677), (MAX_PORTS, PEER_TREE, FAILOVER_MARK));
}

#[test]
fn hub_needs_its_capability_first() {
    for event in [
        HubEvent::new_status(&PORT0, &stopped(0, 0, None)),
        HubEvent::new_port_to_hub_write(&PORT0, &payload(1)),
        HubEvent::new_port_to_hub_write(&PORT0, &ctrl(FAILOVER_R, 0, 0)),
        HubEvent::new_cell_to_hub_write(&CELL, &payload(1)),
        HubEvent::new_cell_to_hub_read(&CELL),
    ] {
        let (mut hub, _) = Hub::create(&HUB, &[PORT0]);
        assert_eq!(Err(Fault::NotInitialized), hub.on_event(event));
        assert_eq!(Hub::create(&HUB, &[PORT0]).0, hub);
    }
    let mut hub = ready(&[PORT0]);
    assert_eq!(Err(Fault::AlreadyInitialized), hub.on_event(HubEvent::new_init(&HUB)));
}

#[test]
fn unknown_ports_are_faults() {
    let stranger = Cap::new(99);
    for event in [
        HubEvent::new_status(&stranger, &stopped(0, 0, None)),
        HubEvent::new_port_to_hub_write(&stranger, &payload(1)),
        HubEvent::new_port_to_hub_read(&stranger),
    ] {
        let mut hub = ready(&[PORT0, PORT1]);
        assert_eq!(Err(Fault::UnknownPort), hub.on_event(event));
        assert_eq!(ready(&[PORT0, PORT1]), hub);
    }
    // A hub without ports has no way out for the cell.
    let mut hub = ready(&[]);
    assert_eq!(Err(Fault::UnknownPort), hub.on_event(HubEvent::new_cell_to_hub_write(&CELL, &payload(1))));
}

#[test]
fn payload_of_the_cell_leaves_by_the_route_port() {
    let mut hub = ready(&[PORT0, PORT1]);
    assert_eq!(
        Ok(vec![to_port(PORT0, payload(1))]),
        hub.on_event(HubEvent::new_cell_to_hub_write(&CELL, &payload(1)))
    );
    assert_eq!(None, hub.port_out[0].reader);
    assert_eq!(Some(PORT1), hub.port_out[1].reader);
    assert_eq!((Some(CELL), Some(payload(1))), (hub.cell_out.writer, hub.cell_out.payload));
    assert!(hub.cell_out.send_to.is_empty());
    assert_eq!(
        Err(Fault::CreditDuplicated),
        hub.on_event(HubEvent::new_cell_to_hub_write(&CELL, &payload(2)))
    );
    assert_eq!(Err(Fault::CreditDuplicated), hub.on_event(HubEvent::new_port_to_hub_read(&PORT1)));
    // With the next change the cell is told that its payload is through.
    assert_eq!(
        Ok(vec![Envelope::Cell(CELL, CellEvent::HubToCellRead)]),
        hub.on_event(HubEvent::new_port_to_hub_read(&PORT0))
    );
    assert_eq!((None, None), (hub.cell_out.writer, hub.cell_out.payload));
    assert_eq!(Some(PORT0), hub.port_out[0].reader);
}

#[test]
fn payload_of_the_cell_waits_for_the_ports_credit() {
    let mut hub = ready(&[PORT0]);
    hub.on_event(HubEvent::new_cell_to_hub_write(&CELL, &payload(1))).unwrap();
    hub.on_event(HubEvent::new_cell_to_hub_read(&CELL)).unwrap();
    assert_eq!(Ok(vec![]), hub.on_event(HubEvent::new_cell_to_hub_write(&CELL, &payload(2))));
    assert_eq!(vec![Route::Port(0)], hub.cell_out.send_to);
    assert_eq!(
        Ok(vec![to_port(PORT0, payload(2))]),
        hub.on_event(HubEvent::new_port_to_hub_read(&PORT0))
    );
    assert!(hub.cell_out.send_to.is_empty());
}

#[test]
fn payload_of_a_port_goes_to_the_cell() {
    let mut hub = ready(&[PORT0, PORT1]);
    // Without the cell's credit the payload waits.
    assert_eq!(Ok(vec![]), hub.on_event(HubEvent::new_port_to_hub_write(&PORT1, &payload(7))));
    assert_eq!(vec![Route::Cell], hub.port_in[1].send_to);
    assert_eq!(
        Err(Fault::CreditDuplicated),
        hub.on_event(HubEvent::new_port_to_hub_write(&PORT1, &payload(8)))
    );
    assert_eq!(
        Ok(vec![Envelope::Cell(CELL, CellEvent::HubToCellWrite(payload(7)))]),
        hub.on_event(HubEvent::new_cell_to_hub_read(&CELL))
    );
    assert_eq!(None, hub.cell_in.reader);
    assert_eq!(Some(PORT1), hub.port_in[1].writer);
    // With the next change the port gets its read credit back.
    assert_eq!(
        Ok(vec![Envelope::Port(PORT1, PortEvent::HubToPortRead(HUB))]),
        hub.on_event(HubEvent::new_cell_to_hub_read(&CELL))
    );
    assert_eq!((None, None), (hub.port_in[1].writer, hub.port_in[1].payload));
    assert_eq!(Err(Fault::CreditDuplicated), hub.on_event(HubEvent::new_cell_to_hub_read(&CELL)));
}

#[test]
fn status_of_a_running_link_changes_nothing() {
    let mut hub = ready(&[PORT0, PORT1]);
    for state in [LinkState::Init, LinkState::Run, LinkState::Live] {
        let status = PortStatus::new(&PortActivity::new(&state, 1, 5), &Some(payload(1)), &None);
        assert_eq!(Ok(vec![]), hub.on_event(HubEvent::new_status(&PORT0, &status)));
        assert_eq!(ready(&[PORT0, PORT1]), hub);
    }
}

#[test]
fn stopped_port_fails_over_to_the_next_port() {
    let mut hub = ready(&[PORT0, PORT1, PORT2]);
    hub.on_event(HubEvent::new_cell_to_hub_write(&CELL, &payload(1))).unwrap();
    hub.on_event(HubEvent::new_cell_to_hub_read(&CELL)).unwrap();
    hub.on_event(HubEvent::new_cell_to_hub_write(&CELL, &payload(2))).unwrap();
    assert_eq!(vec![Route::Port(0)], hub.cell_out.send_to);
    let status = stopped(-1, 0x0102, Some(payload(1)));
    // FAILOVER_R takes the credit of port 1: the payload of the cell, now
    // routed to port 1, waits behind it.
    assert_eq!(
        Ok(vec![to_port(PORT1, ctrl(FAILOVER_R, 0xFF, 0x0102))]),
        hub.on_event(HubEvent::new_status(&PORT0, &status))
    );
    assert_eq!(1, hub.route_port);
    assert_eq!(vec![Route::Port(1)], hub.cell_out.send_to);
    assert_eq!((None, None, Some(PORT2)), (hub.port_out[0].reader, hub.port_out[1].reader, hub.port_out[2].reader));
    assert_eq!(
        Failover { payload_r: None, status_r: Some(status), status_d: Some(status) },
        hub.failover[0]
    );
    assert_eq!(
        Ok(vec![to_port(PORT1, payload(2))]),
        hub.on_event(HubEvent::new_port_to_hub_read(&PORT1))
    );
}

#[test]
fn last_port_fails_over_to_the_first() {
    let mut hub = ready(&[PORT0, PORT1, PORT2]);
    assert_eq!(
        Ok(vec![to_port(PORT0, ctrl(FAILOVER_R, 1, 9))]),
        hub.on_event(HubEvent::new_status(&PORT2, &stopped(1, 9, None)))
    );
    assert_eq!(0, hub.route_port);
    // A single port fails over to itself: the message waits for its credit.
    let mut hub = ready(&[PORT0]);
    assert_eq!(Ok(vec![]), hub.on_event(HubEvent::new_status(&PORT0, &stopped(0, 9, None))));
    assert_eq!(vec![ctrl(FAILOVER_R, 0, 9)], hub.port_out[0].ctrl_msgs.iter().cloned().collect::<Vec<Payload>>());
}

#[test]
fn failover_r_after_the_stop_is_answered_with_failover_d() {
    let mut hub = ready(&[PORT0, PORT1]);
    let status = stopped(0, 300, None);
    hub.on_event(HubEvent::new_status(&PORT0, &status)).unwrap();
    hub.on_event(HubEvent::new_port_to_hub_read(&PORT1)).unwrap();
    assert_eq!(
        Ok(vec![
            Envelope::Port(PORT1, PortEvent::HubToPortRead(HUB)),
            to_port(PORT1, ctrl(FAILOVER_D, 0, 300)),
        ]),
        hub.on_event(HubEvent::new_port_to_hub_write(&PORT1, &ctrl(FAILOVER_R, 0xFF, 299)))
    );
    assert_eq!(
        Failover { payload_r: None, status_r: None, status_d: Some(status) },
        hub.failover[0]
    );
}

#[test]
fn failover_r_on_the_first_port_speaks_of_the_last() {
    let mut hub = ready(&[PORT0, PORT1, PORT2]);
    let early = ctrl(FAILOVER_R, 0, 7);
    hub.on_event(HubEvent::new_port_to_hub_write(&PORT0, &early)).unwrap();
    assert_eq!(Failover { payload_r: Some(early), status_r: None, status_d: None }, hub.failover[2]);
    let early = ctrl(FAILOVER_R, 1, 8);
    hub.on_event(HubEvent::new_port_to_hub_write(&PORT2, &early)).unwrap();
    assert_eq!(Failover { payload_r: Some(early), status_r: None, status_d: None }, hub.failover[1]);
    assert_eq!(Failover { payload_r: None, status_r: None, status_d: None }, hub.failover[0]);
}

#[test]
fn balances_travel_as_signed_octets() {
    for (balance, octet) in [(-1isize, 0xFFu8), (0, 0), (1, 1), (-128, 0x80), (255, 0xFF), (256, 0), (-257, 0xFF)] {
        let mut hub = ready(&[PORT0, PORT1]);
        assert_eq!(
            Ok(vec![to_port(PORT1, ctrl(FAILOVER_R, octet, 5))]),
            hub.on_event(HubEvent::new_status(&PORT0, &stopped(balance, 5, None)))
        );
    }
    // The peer's octet 0x00 is the balance 0, and 0x80 and above are negative.
    for (octet, resent) in [(0x00u8, true), (0x01, false), (0xFF, false), (0x80, false)] {
        let mut hub = after_stop(&stopped(-1, 300, Some(payload(2))));
        let sent = hub.on_event(HubEvent::new_port_to_hub_write(&PORT1, &ctrl(FAILOVER_D, octet, 299))).unwrap();
        assert_eq!(resent, sent.contains(&to_port(PORT1, payload(2))));
    }
}

#[test]
fn failover_r_before_the_stop_is_kept() {
    let mut hub = ready(&[PORT0, PORT1]);
    let early = ctrl(FAILOVER_R, 0xFF, 299);
    assert_eq!(
        Ok(vec![Envelope::Port(PORT1, PortEvent::HubToPortRead(HUB))]),
        hub.on_event(HubEvent::new_port_to_hub_write(&PORT1, &early))
    );
    assert_eq!(Failover { payload_r: Some(early), status_r: None, status_d: None }, hub.failover[0]);
    // At the stop both messages are queued; the credit takes the first.
    let status = stopped(0, 300, None);
    assert_eq!(
        Ok(vec![to_port(PORT1, ctrl(FAILOVER_R, 0, 300))]),
        hub.on_event(HubEvent::new_status(&PORT0, &status))
    );
    assert_eq!(Failover { payload_r: None, status_r: None, status_d: Some(status) }, hub.failover[0]);
    assert_eq!(
        Ok(vec![to_port(PORT1, ctrl(FAILOVER_D, 0, 300))]),
        hub.on_event(HubEvent::new_port_to_hub_read(&PORT1))
    );
}

fn after_stop(status: &PortStatus) -> Hub {
    let mut hub = ready(&[PORT0, PORT1]);
    hub.on_event(HubEvent::new_status(&PORT0, status)).unwrap();
    hub.on_event(HubEvent::new_port_to_hub_read(&PORT1)).unwrap();
    hub
}

#[test]
fn failover_d_resends_what_the_peer_never_got() {
    // We sent it (-1) and the peer holds nothing (0): send it again.
    let mut hub = after_stop(&stopped(-1, 300, Some(payload(2))));
    assert_eq!(
        Ok(vec![
            Envelope::Port(PORT0, PortEvent::Start(HUB)),
            Envelope::Port(PORT1, PortEvent::HubToPortRead(HUB)),
            to_port(PORT1, payload(2)),
        ]),
        hub.on_event(HubEvent::new_port_to_hub_write(&PORT1, &ctrl(FAILOVER_D, 0, 299)))
    );
    assert_eq!(1, hub.route_port);
    assert_eq!(Some(PORT0), hub.port_out[0].reader);
    assert_eq!(Failover { payload_r: None, status_r: Some(stopped(-1, 300, Some(payload(2)))), status_d: None }, hub.failover[0]);

    // We never sent it (0): send it.
    let mut hub = after_stop(&stopped(0, 300, Some(payload(2))));
    let sent = hub.on_event(HubEvent::new_port_to_hub_write(&PORT1, &ctrl(FAILOVER_D, 1, 299))).unwrap();
    assert_eq!(Some(&to_port(PORT1, payload(2))), sent.last());
}

#[test]
fn failover_d_does_not_resend_what_the_peer_holds() {
    // We sent it (-1) and the peer holds it (+1).
    let mut hub = after_stop(&stopped(-1, 300, Some(payload(2))));
    assert_eq!(
        Ok(vec![
            Envelope::Port(PORT0, PortEvent::Start(HUB)),
            Envelope::Port(PORT1, PortEvent::HubToPortRead(HUB)),
        ]),
        hub.on_event(HubEvent::new_port_to_hub_write(&PORT1, &ctrl(FAILOVER_D, 1, 299)))
    );
    assert!(hub.port_out[1].ctrl_msgs.is_empty());
    // We hold the peer's (+1), or nothing at all.
    for status in [stopped(1, 300, None), stopped(0, 300, None), stopped(-1, 300, None)] {
        let mut hub = after_stop(&status);
        let sent = hub.on_event(HubEvent::new_port_to_hub_write(&PORT1, &ctrl(FAILOVER_D, 0xFF, 299))).unwrap();
        assert_eq!(2, sent.len());
    }
}

#[test]
fn failover_d_out_of_turn_is_a_fault() {
    let mut hub = ready(&[PORT0, PORT1]);
    assert_eq!(
        Err(Fault::UnexpectedEvent),
        hub.on_event(HubEvent::new_port_to_hub_write(&PORT1, &ctrl(FAILOVER_D, 0, 299)))
    );
    assert_eq!(ready(&[PORT0, PORT1]), hub);
    // A deficit without the payload that made it cannot be settled.
    let mut hub = after_stop(&stopped(-1, 300, None));
    let before = format!("{:?}", hub);
    assert_eq!(
        Err(Fault::UnexpectedEvent),
        hub.on_event(HubEvent::new_port_to_hub_write(&PORT1, &ctrl(FAILOVER_D, 0, 299)))
    );
    assert_eq!(before, format!("{:?}", hub));
}

#[test]
fn restarted_port_gets_no_credit_while_its_payload_waits() {
    let mut hub = ready(&[PORT0, PORT1]);
    hub.on_event(HubEvent::new_port_to_hub_write(&PORT0, &payload(7))).unwrap();
    hub.on_event(HubEvent::new_status(&PORT0, &stopped(0, 300, None))).unwrap();
    hub.on_event(HubEvent::new_port_to_hub_read(&PORT1)).unwrap();
    hub.on_event(HubEvent::new_port_to_hub_write(&PORT1, &ctrl(FAILOVER_D, 0, 299))).unwrap();
    assert_eq!(None, hub.port_out[0].reader);
    assert_eq!(Some(payload(7)), hub.port_in[0].payload);
}

#[test]
fn unknown_control_message_is_acknowledged_only() {
    let mut hub = ready(&[PORT0, PORT1]);
    assert_eq!(
        Ok(vec![Envelope::Port(PORT1, PortEvent::HubToPortRead(HUB))]),
        hub.on_event(HubEvent::new_port_to_hub_write(&PORT1, &ctrl(0x55, 0, 0)))
    );
    assert_eq!(ready(&[PORT0, PORT1]), hub);
}

#[test]
fn control_messages_go_before_payloads() {
    let mut hub = ready(&[PORT0, PORT1]);
    hub.route_port = 1;
    hub.port_out[1].reader = None;
    hub.on_event(HubEvent::new_cell_to_hub_write(&CELL, &payload(3))).unwrap();
    hub.on_event(HubEvent::new_status(&PORT0, &stopped(0, 300, None))).unwrap();
    assert_eq!(
        Ok(vec![to_port(PORT1, ctrl(FAILOVER_R, 0, 300))]),
        hub.on_event(HubEvent::new_port_to_hub_read(&PORT1))
    );
    assert_eq!(
        Ok(vec![to_port(PORT1, payload(3))]),
        hub.on_event(HubEvent::new_port_to_hub_read(&PORT1))
    );
}
