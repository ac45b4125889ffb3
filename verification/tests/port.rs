use ether::actor::{Actor, Cap, Envelope};
use ether::fault::Fault;
use ether::frame::{Payload, TreeId, PAYLOAD_SIZE};
use ether::hub::HubEvent;
use ether::link::{LinkEvent, LinkState};
use ether::pollster::PollsterEvent;
use ether::port::{Port, PortActivity, PortEvent, PortStatus};

const LINK: Cap = Cap { id: 1 };
const PORT: Cap = Cap { id: 2 };
const HUB: Cap = Cap { id: 3 };
const POLLSTER: Cap = Cap { id: 4 };

fn payload(first: u8) -> Payload {
    Payload::new(&TreeId::new(144), &[first; PAYLOAD_SIZE])
}

fn ready() -> Port {
    let mut port = Port::create(&LINK);
    assert_eq!(Ok(vec![]), port.on_event(PortEvent::new_init(&PORT, &HUB)));
    port
}

fn status(link_state: LinkState, ait_balance: isize, inbound: Option<Payload>) -> PortStatus {
    let activity = PortActivity::new(&link_state, ait_balance, 17);
    PortStatus::new(&activity, &inbound, &None)
}

#[test]
fn created_port_knows_its_link_only() {
    assert_eq!(
        Port { myself: None, hub: None, link: LINK, pollster: None, reader: None, writer: None },
        Port::create(&LINK)
    );
}

#[test]
fn port_needs_its_capability_first() {
    for event in [
        PortEvent::new_start(&HUB),
        PortEvent::new_stop(&HUB),
        PortEvent::new_status(&status(LinkState::Init, 0, None)),
        PortEvent::new_poll(&POLLSTER),
        PortEvent::new_activity(&PortActivity::new(&LinkState::Run, 0, 0)),
        PortEvent::new_link_to_port_write(&payload(1)),
        PortEvent::new_link_to_port_read(),
        PortEvent::new_hub_to_port_write(&HUB, &payload(1)),
        PortEvent::new_hub_to_port_read(&HUB),
    ] {
        let mut port = Port::create(&LINK);
        assert_eq!(Err(Fault::NotInitialized), port.on_event(event));
        assert_eq!(Port::create(&LINK), port);
    }
    let mut port = ready();
    assert_eq!(Err(Fault::AlreadyInitialized), port.on_event(PortEvent::new_init(&PORT, &HUB)));
    assert_eq!(ready(), port);
}

#[test]
fn start_starts_the_link_and_grants_it_a_credit() {
    let mut port = ready();
    assert_eq!(
        Ok(vec![
            Envelope::Link(LINK, LinkEvent::Start(PORT)),
            Envelope::Link(LINK, LinkEvent::Read(PORT)),
        ]),
        port.on_event(PortEvent::new_start(&HUB))
    );
    assert_eq!((Some(HUB), Some(HUB)), (port.hub, port.reader));
    // A second start finds the credit in place.
    assert_eq!(
        Ok(vec![Envelope::Link(LINK, LinkEvent::Start(PORT))]),
        port.on_event(PortEvent::new_start(&HUB))
    );
}

#[test]
fn status_goes_to_the_hub_that_asked_and_the_hub_is_forgotten() {
    let mut port = ready();
    port.on_event(PortEvent::new_start(&HUB)).unwrap();
    let report = status(LinkState::Init, 0, None);
    assert_eq!(
        Ok(vec![Envelope::Hub(HUB, HubEvent::Status(PORT, report))]),
        port.on_event(PortEvent::new_status(&report))
    );
    assert_eq!(None, port.hub);
    assert_eq!(Some(HUB), port.reader);
    // Without a hub that asked there is no one to report to.
    assert_eq!(Err(Fault::NotInitialized), port.on_event(PortEvent::new_status(&report)));
}

#[test]
fn stop_is_forwarded_and_a_surplus_is_still_delivered() {
    let mut port = ready();
    port.on_event(PortEvent::new_start(&HUB)).unwrap();
    port.on_event(PortEvent::new_status(&status(LinkState::Init, 0, None))).unwrap();
    port.on_event(PortEvent::new_hub_to_port_write(&HUB, &payload(8))).unwrap();
    let other_hub = Cap::new(33);
    assert_eq!(
        Ok(vec![Envelope::Link(LINK, LinkEvent::Stop(PORT))]),
        port.on_event(PortEvent::new_stop(&other_hub))
    );
    let report = status(LinkState::Stop, 1, Some(payload(5)));
    assert_eq!(
        Ok(vec![
            Envelope::Hub(other_hub, HubEvent::Status(PORT, report)),
            Envelope::Hub(HUB, HubEvent::PortToHubWrite(PORT, payload(5))),
        ]),
        port.on_event(PortEvent::new_status(&report))
    );
    assert_eq!((None, None, None), (port.hub, port.reader, port.writer));
}

#[test]
fn stop_without_surplus_or_credit_delivers_nothing() {
    for (balance, inbound, credit) in [
        (0, Some(payload(5)), true),
        (-1, Some(payload(5)), true),
        (1, None, true),
        (1, Some(payload(5)), false),
    ] {
        let mut port = ready();
        if credit {
            port.on_event(PortEvent::new_hub_to_port_read(&HUB)).unwrap();
        }
        port.on_event(PortEvent::new_stop(&HUB)).unwrap();
        let report = status(LinkState::Stop, balance, inbound);
        assert_eq!(
            Ok(vec![Envelope::Hub(HUB, HubEvent::Status(PORT, report))]),
            port.on_event(PortEvent::new_status(&report))
        );
        assert_eq!((None, None), (port.reader, port.writer));
    }
}

#[test]
fn poll_and_activity_pass_through() {
    let mut port = ready();
    assert_eq!(
        Ok(vec![Envelope::Link(LINK, LinkEvent::Poll(PORT))]),
        port.on_event(PortEvent::new_poll(&POLLSTER))
    );
    assert_eq!(Err(Fault::CreditDuplicated), port.on_event(PortEvent::new_poll(&POLLSTER)));
    let activity = PortActivity::new(&LinkState::Live, -1, 9);
    assert_eq!(
        Ok(vec![Envelope::Pollster(POLLSTER, PollsterEvent::Activity(PORT, activity))]),
        port.on_event(PortEvent::new_activity(&activity))
    );
    assert_eq!(None, port.pollster);
    // An answer that no one asked for is dropped.
    assert_eq!(Ok(vec![]), port.on_event(PortEvent::new_activity(&activity)));
}

#[test]
fn inbound_payload_needs_the_hubs_credit() {
    let mut port = ready();
    assert_eq!(
        Err(Fault::CreditMissing),
        port.on_event(PortEvent::new_link_to_port_write(&payload(1)))
    );
    assert_eq!(
        Ok(vec![Envelope::Link(LINK, LinkEvent::Read(PORT))]),
        port.on_event(PortEvent::new_hub_to_port_read(&HUB))
    );
    // A second credit is let pass: it can cross a restart.
    assert_eq!(Ok(vec![]), port.on_event(PortEvent::new_hub_to_port_read(&Cap::new(9))));
    assert_eq!(Some(HUB), port.reader);
    assert_eq!(
        Ok(vec![Envelope::Hub(HUB, HubEvent::PortToHubWrite(PORT, payload(1)))]),
        port.on_event(PortEvent::new_link_to_port_write(&payload(1)))
    );
    assert_eq!(None, port.reader);
}

#[test]
fn outbound_payload_is_one_at_a_time() {
    let mut port = ready();
    assert_eq!(Err(Fault::CreditMissing), port.on_event(PortEvent::new_link_to_port_read()));
    assert_eq!(
        Ok(vec![Envelope::Link(LINK, LinkEvent::Write(PORT, payload(2)))]),
        port.on_event(PortEvent::new_hub_to_port_write(&HUB, &payload(2)))
    );
    assert_eq!(
        Err(Fault::CreditDuplicated),
        port.on_event(PortEvent::new_hub_to_port_write(&HUB, &payload(3)))
    );
    assert_eq!(
        Ok(vec![Envelope::Hub(HUB, HubEvent::PortToHubRead(PORT))]),
        port.on_event(PortEvent::new_link_to_port_read())
    );
    assert_eq!(None, port.writer);
}
