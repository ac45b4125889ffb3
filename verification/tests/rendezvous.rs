use ether::actor::{Actor, Cap, Envelope};
use ether::fault::Fault;
use ether::frame::{Payload, TreeId, PAYLOAD_SIZE};
use ether::rendezvous::{Rendezvous, RendezvousEvent};

const ME: Cap = Cap { id: 1 };
const READER: Cap = Cap { id: 2 };
const WRITER: Cap = Cap { id: 3 };

fn payload(first: u8) -> Payload {
    Payload::new(&TreeId::new(144), &[first; PAYLOAD_SIZE])
}

fn ready() -> Rendezvous {
    let (mut point, sent) = Rendezvous::create(&ME);
    assert_eq!(vec![Envelope::Rendezvous(ME, RendezvousEvent::Init(ME))], sent);
    assert_eq!(Ok(vec![]), point.on_event(RendezvousEvent::new_init(&ME)));
    assert_eq!(Err(Fault::AlreadyInitialized), point.on_event(RendezvousEvent::new_init(&ME)));
    point
}

fn exchange(first: u8) -> Vec<Envelope> {
    vec![
        Envelope::Rendezvous(READER, RendezvousEvent::Write(ME, payload(first))),
        Envelope::Rendezvous(WRITER, RendezvousEvent::Read(ME)),
    ]
}

#[test]
fn reader_waits_for_writer() {
    let mut point = ready();
    assert_eq!(Ok(vec![]), point.on_event(RendezvousEvent::new_read(&READER)));
    assert_eq!(Some(READER), point.reader);
    assert_eq!(Err(Fault::CreditDuplicated), point.on_event(RendezvousEvent::new_read(&READER)));
    assert_eq!(Ok(exchange(4)), point.on_event(RendezvousEvent::new_write(&WRITER, &payload(4))));
    assert_eq!(
        Rendezvous { myself: Some(ME), reader: None, writer: None, payload: None },
        point
    );
}

#[test]
fn writer_waits_for_reader() {
    let mut point = ready();
    assert_eq!(Ok(vec![]), point.on_event(RendezvousEvent::new_write(&WRITER, &payload(4))));
    assert_eq!((Some(WRITER), Some(payload(4))), (point.writer, point.payload));
    assert_eq!(
        Err(Fault::CreditDuplicated),
        point.on_event(RendezvousEvent::new_write(&WRITER, &payload(5)))
    );
    assert_eq!(Ok(exchange(4)), point.on_event(RendezvousEvent::new_read(&READER)));
    assert_eq!(
        Rendezvous { myself: Some(ME), reader: None, writer: None, payload: None },
        point
    );
}

#[test]
fn nobody_meets_at_a_point_that_does_not_know_itself() {
    let (mut point, _) = Rendezvous::create(&ME);
    assert_eq!(Ok(vec![]), point.on_event(RendezvousEvent::new_read(&READER)));
    assert_eq!(Ok(vec![]), point.on_event(RendezvousEvent::new_write(&WRITER, &payload(4))));
    assert_eq!(
        Rendezvous { myself: None, reader: Some(READER), writer: None, payload: None },
        point
    );
}
