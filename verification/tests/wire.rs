use crossbeam::channel::unbounded;

use ether::actor::{Actor, Cap, Envelope};
use ether::cell::{Cell, CellEvent, Delivery};
use ether::channel::Received;
use ether::fault::Fault;
use ether::frame::{Frame, Payload, TreeId, PAYLOAD_SIZE, TICK};
use ether::hub::HubEvent;
use ether::link::LinkEvent;
use ether::wire::{inbound, shipped, FaultyWire, Wire, WireEvent};

const LINK: Cap = Cap { id: 1 };
const CELL: Cap = Cap { id: 2 };
const HUB: Cap = Cap { id: 3 };

fn payload(first: u8) -> Payload {
    Payload::new(&TreeId::new(144), &[first; PAYLOAD_SIZE])
}

#[test]
fn wire_ships_frames_and_forwards_what_arrives() {
    let (out_tx, out_rx) = unbounded::<Frame>();
    let (in_tx, in_rx) = unbounded::<Frame>();
    let mut wire = Wire::create(&out_tx, &in_rx);
    assert!(wire.tx.same_channel(&out_tx));
    assert!(wire.rx.same_channel(&in_rx));
    assert!(!wire.tx.same_channel(&in_tx));
    assert!(wire.link.is_none());
    let first = Frame::new_reset(5);
    let second = Frame::new_entangled(1, TICK, TICK);
    assert_eq!(Ok(vec![]), wire.on_event(WireEvent::new_frame(&first)));
    assert_eq!(Ok(vec![]), wire.on_event(WireEvent::new_frame(&second)));
    assert_eq!(vec![first, second], out_rx.try_iter().collect::<Vec<Frame>>());

    // Until a link listens, what arrives stays in the channel.
    in_tx.send(first).unwrap();
    in_tx.send(second).unwrap();
    assert_eq!(Ok(vec![]), wire.listen());
    assert_eq!(2, in_rx.len());
    assert_eq!(Ok(vec![]), wire.on_event(WireEvent::new_listen(&LINK)));
    assert_eq!(Some(LINK), wire.link);
    assert_eq!(Ok(vec![Envelope::Link(LINK, LinkEvent::Frame(first))]), wire.listen());
    assert_eq!(Ok(vec![Envelope::Link(LINK, LinkEvent::Frame(second))]), wire.listen());
    assert_eq!(Ok(vec![]), wire.listen());
}

#[test]
fn closed_transport_is_a_fault() {
    let (out_tx, out_rx) = unbounded::<Frame>();
    let (in_tx, in_rx) = unbounded::<Frame>();
    let mut wire = Wire::create(&out_tx, &in_rx);
    wire.on_event(WireEvent::new_listen(&LINK)).unwrap();
    drop(out_rx);
    assert_eq!(Err(Fault::TransportClosed), wire.on_event(WireEvent::new_frame(&Frame::new_reset(5))));
    in_tx.send(Frame::new_reset(6)).unwrap();
    drop(in_tx);
    assert_eq!(Ok(vec![Envelope::Link(LINK, LinkEvent::Frame(Frame::new_reset(6)))]), wire.listen());
    assert_eq!(Err(Fault::TransportClosed), wire.listen());
}

#[test]
fn answers_for_each_outcome_of_the_transport() {
    let frame = Frame::new_reset(5);
    assert_eq!(Ok(vec![]), shipped(true));
    assert_eq!(Err(Fault::TransportClosed), shipped(false));
    assert_eq!(
        Ok(vec![Envelope::Link(LINK, LinkEvent::Frame(frame))]),
        inbound(Some(LINK), Received::Message(frame))
    );
    assert_eq!(Ok(vec![]), inbound(None, Received::Message(frame)));
    assert_eq!(Ok(vec![]), inbound(Some(LINK), Received::Empty));
    assert_eq!(Err(Fault::TransportClosed), inbound(Some(LINK), Received::Closed));
}

#[test]
fn faulty_wire_drops_one_frame() {
    let (out_tx, out_rx) = unbounded::<Frame>();
    let (in_tx, in_rx) = unbounded::<Frame>();
    let mut wire = FaultyWire::create(&out_tx, &in_rx, 17);
    assert!(wire.tx.same_channel(&out_tx));
    assert!(wire.rx.same_channel(&in_rx));
    assert_eq!(Some(17), wire.filter);
    let frames: Vec<Frame> = [15, 17, 19, 17].iter().map(|seq| Frame::new_entangled(*seq, TICK, TICK)).collect();
    assert!(!wire.drops(&frames[0]));
    assert!(wire.drops(&frames[1]));
    assert_eq!(Ok(vec![]), wire.on_event(WireEvent::new_frame(&frames[0])));
    assert_eq!(Some(17), wire.filter);
    assert_eq!(Ok(vec![]), wire.on_event(WireEvent::new_frame(&frames[1])));
    assert_eq!(None, wire.filter);
    assert!(!wire.drops(&frames[1]));
    assert_eq!(Ok(vec![]), wire.on_event(WireEvent::new_frame(&frames[2])));
    assert_eq!(Ok(vec![]), wire.on_event(WireEvent::new_frame(&frames[3])));
    assert_eq!(
        vec![frames[0], frames[2], frames[3]],
        out_rx.try_iter().collect::<Vec<Frame>>()
    );
    // The receiving side is that of a reliable wire.
    wire.on_event(WireEvent::new_listen(&LINK)).unwrap();
    in_tx.send(frames[1]).unwrap();
    assert_eq!(Ok(vec![Envelope::Link(LINK, LinkEvent::Frame(frames[1]))]), wire.listen());
    drop(out_rx);
    assert_eq!(Err(Fault::TransportClosed), wire.on_event(WireEvent::new_frame(&frames[0])));
}

#[test]
fn faulty_wire_drops_a_reset_frame_with_that_number_too() {
    let (out_tx, out_rx) = unbounded::<Frame>();
    let (_in_tx, in_rx) = unbounded::<Frame>();
    let mut wire = FaultyWire::create(&out_tx, &in_rx, 0);
    assert_eq!(Ok(vec![]), wire.on_event(WireEvent::new_frame(&Frame::new_reset(9))));
    assert_eq!(None, wire.filter);
    assert!(out_rx.is_empty());
}

fn cell() -> (Cell, crossbeam::channel::Receiver<Payload>, crossbeam::channel::Sender<Payload>) {
    let (in_tx, in_rx) = unbounded::<Payload>();
    let (out_tx, out_rx) = unbounded::<Payload>();
    let (mut cell, sent) = Cell::create(&CELL, &HUB, &in_tx, &out_rx);
    assert_eq!(vec![Envelope::Cell(CELL, CellEvent::Init(CELL))], sent);
    assert!(cell.tx.same_channel(&in_tx));
    assert!(cell.rx.same_channel(&out_rx));
    assert_eq!(HUB, cell.hub);
    assert_eq!(None, cell.myself);
    // Before it knows itself the cell lets the hub's events pass.
    assert_eq!(Ok(vec![]), cell.on_event(CellEvent::new_hub_to_cell_read()));
    assert_eq!(Ok(vec![]), cell.on_event(CellEvent::new_hub_to_cell_write(&payload(1))));
    assert!(in_rx.is_empty());
    assert_eq!(Ok(vec![]), cell.on_event(CellEvent::new_init(&CELL)));
    assert_eq!(Err(Fault::AlreadyInitialized), cell.on_event(CellEvent::new_init(&CELL)));
    (cell, in_rx, out_tx)
}

#[test]
fn cell_hands_payloads_to_the_application_one_at_a_time() {
    let (mut cell, in_rx, _out_tx) = cell();
    assert_eq!(
        Ok(vec![Envelope::Hub(HUB, HubEvent::CellToHubRead(CELL))]),
        cell.on_event(CellEvent::new_hub_to_cell_write(&payload(1)))
    );
    // The slot is taken: the event comes back to the cell.
    let again = CellEvent::new_hub_to_cell_write(&payload(2));
    assert_eq!(Ok(vec![Envelope::Cell(CELL, again)]), cell.on_event(again));
    assert_eq!(Ok(payload(1)), in_rx.try_recv());
    assert_eq!(
        Ok(vec![Envelope::Hub(HUB, HubEvent::CellToHubRead(CELL))]),
        cell.on_event(again)
    );
    assert_eq!(Ok(payload(2)), in_rx.try_recv());
    drop(in_rx);
    assert_eq!(Err(Fault::TransportClosed), cell.on_event(again));
}

#[test]
fn cell_takes_payloads_from_the_application_in_order() {
    let (mut cell, _in_rx, out_tx) = cell();
    let ready = CellEvent::new_hub_to_cell_read();
    assert_eq!(Ok(vec![Envelope::Cell(CELL, ready)]), cell.on_event(ready));
    out_tx.send(payload(1)).unwrap();
    out_tx.send(payload(2)).unwrap();
    assert_eq!(
        Ok(vec![Envelope::Hub(HUB, HubEvent::CellToHubWrite(CELL, payload(1)))]),
        cell.on_event(ready)
    );
    assert_eq!(
        Ok(vec![Envelope::Hub(HUB, HubEvent::CellToHubWrite(CELL, payload(2)))]),
        cell.on_event(ready)
    );
    drop(out_tx);
    assert_eq!(Ok(vec![Envelope::Cell(CELL, ready)]), cell.on_event(ready));
}

#[test]
fn cell_answers_for_each_outcome_of_its_queues() {
    assert_eq!(
        Ok(vec![Envelope::Hub(HUB, HubEvent::CellToHubRead(CELL))]),
        Cell::written(&CELL, &HUB, &payload(1), Delivery::Taken)
    );
    assert_eq!(
        Ok(vec![Envelope::Cell(CELL, CellEvent::HubToCellWrite(payload(1)))]),
        Cell::written(&CELL, &HUB, &payload(1), Delivery::Busy)
    );
    assert_eq!(Err(Fault::TransportClosed), Cell::written(&CELL, &HUB, &payload(1), Delivery::Closed));
    assert_eq!(
        vec![Envelope::Hub(HUB, HubEvent::CellToHubWrite(CELL, payload(1)))],
        Cell::read(&CELL, &HUB, Some(payload(1)))
    );
    assert_eq!(vec![Envelope::Cell(CELL, CellEvent::HubToCellRead)], Cell::read(&CELL, &HUB, None));
}
