//! The adapter between one link and the hub.
use crate::actor::{reaction, Actor, Cap, Envelope};
use crate::fault::Fault;
use crate::frame::Payload;
use crate::hub::HubEvent;
use crate::link::{LinkEvent, LinkState};
use crate::pollster::PollsterEvent;
use vstd::prelude::*;

verus! {

#[derive(Debug, Clone, Copy, PartialEq, Eq)]
pub enum PortEvent {
    /// The port's own capability, and its hub's.
    Init(Cap, Cap),
    /// The hub asks to start the link.
    Start(Cap),
    /// The hub's pollster asks to stop the link.
    Stop(Cap),
    /// The link reports its state after a start or a stop.
    Status(PortStatus),
    /// The pollster asks for the link's activity.
    Poll(Cap),
    /// The link answers a poll.
    Activity(PortActivity),
    /// The link releases a payload that arrived.
    LinkToPortWrite(Payload),
    /// The link has delivered the outbound payload.
    LinkToPortRead,
    /// The hub hands down a payload to send.
    HubToPortWrite(Cap, Payload),
    /// The hub is ready for the next inbound payload.
    HubToPortRead(Cap),
}

impl PortEvent {
    pub fn new_init(port: &Cap, hub: &Cap) -> (event: PortEvent)
        ensures
            event == PortEvent::Init(*port, *hub),
    {
        PortEvent::Init(*port, *hub)
    }

    pub fn new_start(cust: &Cap) -> (event: PortEvent)
        ensures
            event == PortEvent::Start(*cust),
    {
        PortEvent::Start(*cust)
    }

    pub fn new_stop(cust: &Cap) -> (event: PortEvent)
        ensures
            event == PortEvent::Stop(*cust),
    {
        PortEvent::Stop(*cust)
    }

    pub fn new_status(status: &PortStatus) -> (event: PortEvent)
        ensures
            event == PortEvent::Status(*status),
    {
        PortEvent::Status(*status)
    }

    pub fn new_poll(cust: &Cap) -> (event: PortEvent)
        ensures
            event == PortEvent::Poll(*cust),
    {
        PortEvent::Poll(*cust)
    }

    pub fn new_activity(activity: &PortActivity) -> (event: PortEvent)
        ensures
            event == PortEvent::Activity(*activity),
    {
        PortEvent::Activity(*activity)
    }

    pub fn new_link_to_port_write(payload: &Payload) -> (event: PortEvent)
        ensures
            event == PortEvent::LinkToPortWrite(*payload),
    {
        PortEvent::LinkToPortWrite(*payload)
    }

    pub fn new_link_to_port_read() -> (event: PortEvent)
        ensures
            event == PortEvent::LinkToPortRead,
    {
        PortEvent::LinkToPortRead
    }

    pub fn new_hub_to_port_write(hub: &Cap, payload: &Payload) -> (event: PortEvent)
        ensures
            event == PortEvent::HubToPortWrite(*hub, *payload),
    {
        PortEvent::HubToPortWrite(*hub, *payload)
    }

    pub fn new_hub_to_port_read(hub: &Cap) -> (event: PortEvent)
        ensures
            event == PortEvent::HubToPortRead(*hub),
    {
        PortEvent::HubToPortRead(*hub)
    }
}

/// What a poll learns of a link.
#[derive(Debug, Clone, Copy, PartialEq, Eq)]
pub struct PortActivity {
    pub link_state: LinkState,
    pub ait_balance: isize,
    pub sequence: u16,
}

impl PortActivity {
    pub fn new(link_state: &LinkState, ait_balance: isize, sequence: u16) -> (activity:
        PortActivity)
        ensures
            activity == (PortActivity { link_state: *link_state, ait_balance, sequence }),
    {
        PortActivity { link_state: *link_state, ait_balance, sequence }
    }
}

/// A link's state together with the payloads it holds: what fail-over needs
/// to know of a link that stopped.
#[derive(Debug, Clone, Copy, PartialEq, Eq)]
pub struct PortStatus {
    pub activity: PortActivity,
    pub inbound: Option<Payload>,
    pub outbound: Option<Payload>,
}

impl PortStatus {
    pub fn new(
        activity: &PortActivity,
        inbound: &Option<Payload>,
        outbound: &Option<Payload>,
    ) -> (status: PortStatus)
        ensures
            status == (PortStatus {
                activity: *activity,
                inbound: *inbound,
                outbound: *outbound,
            }),
    {
        PortStatus { activity: *activity, inbound: *inbound, outbound: *outbound }
    }
}

/// One port: it holds at most one credit of the hub in each direction, the
/// hub that awaits the link's next status, and the pollster that awaits the
/// link's activity.
#[derive(Debug, PartialEq, Eq)]
pub struct Port {
    pub myself: Option<Cap>,
    /// The hub that the next status report goes to.
    pub hub: Option<Cap>,
    pub link: Cap,
    /// The pollster whose poll is with the link.
    pub pollster: Option<Cap>,
    /// The hub's credit for one inbound payload.
    pub reader: Option<Cap>,
    /// The hub that waits for its outbound payload to be delivered.
    pub writer: Option<Cap>,
}

impl Port {
    /// The port as it is created: it knows its link and nothing else.
    pub open spec fn spec_create(link: Cap) -> Port {
        Port { myself: None, hub: None, link, pollster: None, reader: None, writer: None }
    }

    /// An envelope for the port's link.
    pub open spec fn to_link(self, event: LinkEvent) -> Envelope {
        Envelope::Link(self.link, event)
    }

    /// A status report goes up to the hub that asked for the start or stop,
    /// and that hub is then forgotten. A link that has stopped with a surplus
    /// still owes its payload: the port hands it up on the hub's credit, or
    /// drops it if there is none. A stopped link ends both credits.
    pub open spec fn on_status(self, myself: Cap, hub: Cap, status: PortStatus) -> (
        Port,
        Result<Seq<Envelope>, Fault>,
    ) {
        let report = seq![Envelope::Hub(hub, HubEvent::Status(myself, status))];
        if status.activity.link_state == LinkState::Stop {
            let release = if status.activity.ait_balance > 0 && status.inbound is Some
                && self.reader is Some {
                report.push(
                    Envelope::Hub(
                        self.reader->Some_0,
                        HubEvent::PortToHubWrite(myself, status.inbound->Some_0),
                    ),
                )
            } else {
                report
            };
            (Port { hub: None, reader: None, writer: None, ..self }, Ok(release))
        } else {
            (Port { hub: None, ..self }, Ok(report))
        }
    }

    /// The events of a port that knows itself.
    pub open spec fn on_running(self, myself: Cap, event: PortEvent) -> (
        Port,
        Result<Seq<Envelope>, Fault>,
    ) {
        match event {
            PortEvent::Init(_, _) => (self, Err(Fault::AlreadyInitialized)),
            PortEvent::Start(cust) => match self.reader {
                None => (
                    Port { hub: Some(cust), reader: Some(cust), ..self },
                    Ok(
                        seq![
                            self.to_link(LinkEvent::Start(myself)),
                            self.to_link(LinkEvent::Read(myself)),
                        ],
                    ),
                ),
                Some(_) => (
                    Port { hub: Some(cust), ..self },
                    Ok(seq![self.to_link(LinkEvent::Start(myself))]),
                ),
            },
            PortEvent::Stop(cust) => (
                Port { hub: Some(cust), ..self },
                Ok(seq![self.to_link(LinkEvent::Stop(myself))]),
            ),
            PortEvent::Status(status) => match self.hub {
                None => (self, Err(Fault::NotInitialized)),
                Some(hub) => self.on_status(myself, hub, status),
            },
            PortEvent::Poll(cust) => match self.pollster {
                None => (
                    Port { pollster: Some(cust), ..self },
                    Ok(seq![self.to_link(LinkEvent::Poll(myself))]),
                ),
                Some(_) => (self, Err(Fault::CreditDuplicated)),
            },
            PortEvent::Activity(activity) => match self.pollster {
                Some(cust) => (
                    Port { pollster: None, ..self },
                    Ok(seq![Envelope::Pollster(cust, PollsterEvent::Activity(myself, activity))]),
                ),
                None => (self, Ok(seq![])),
            },
            PortEvent::LinkToPortWrite(payload) => match self.reader {
                Some(hub) => (
                    Port { reader: None, ..self },
                    Ok(seq![Envelope::Hub(hub, HubEvent::PortToHubWrite(myself, payload))]),
                ),
                None => (self, Err(Fault::CreditMissing)),
            },
            PortEvent::LinkToPortRead => match self.writer {
                Some(hub) => (
                    Port { writer: None, ..self },
                    Ok(seq![Envelope::Hub(hub, HubEvent::PortToHubRead(myself))]),
                ),
                None => (self, Err(Fault::CreditMissing)),
            },
            PortEvent::HubToPortWrite(cust, payload) => match self.writer {
                None => (
                    Port { writer: Some(cust), ..self },
                    Ok(seq![self.to_link(LinkEvent::Write(myself, payload))]),
                ),
                Some(_) => (self, Err(Fault::CreditDuplicated)),
            },
            PortEvent::HubToPortRead(cust) => match self.reader {
                None => (
                    Port { reader: Some(cust), ..self },
                    Ok(seq![self.to_link(LinkEvent::Read(myself))]),
                ),
                // A second read credit can cross a restart: it is let pass.
                Some(_) => (self, Ok(seq![])),
            },
        }
    }

    /// The port's next state and what it sends when it handles `event`.
    pub open spec fn step(self, event: PortEvent) -> (Port, Result<Seq<Envelope>, Fault>) {
        match self.myself {
            Some(myself) => self.on_running(myself, event),
            None => match event {
                PortEvent::Init(myself, hub) => (
                    Port { myself: Some(myself), hub: Some(hub), ..self },
                    Ok(seq![]),
                ),
                _ => (self, Err(Fault::NotInitialized)),
            },
        }
    }

    /// A port for `link`.
    pub fn create(link: &Cap) -> (port: Port)
        ensures
            port == Port::spec_create(*link),
            port.wf(),
    {
        Port { myself: None, hub: None, link: *link, pollster: None, reader: None, writer: None }
    }

    fn handle_status(&mut self, myself: Cap, hub: Cap, status: &PortStatus) -> (sent: Vec<
        Envelope,
    >)
        ensures
            (*final(self), Ok::<Seq<Envelope>, Fault>(sent@)) == old(self).on_status(
                myself,
                hub,
                *status,
            ),
    {
        let mut sent: Vec<Envelope> = Vec::new();
        sent.push(Envelope::Hub(hub, HubEvent::new_status(&myself, status)));
        if status.activity.link_state == LinkState::Stop {
            if status.activity.ait_balance > 0 {
                if let Some(payload) = status.inbound {
                    if let Some(cust) = self.reader {
                        sent.push(
                            Envelope::Hub(cust, HubEvent::new_port_to_hub_write(&myself, &payload)),
                        );
                    }
                }
            }
            self.reader = None;
            self.writer = None;
        }
        self.hub = None;
        proof {
            assert(sent@ =~= old(self).on_status(myself, hub, *status).1->Ok_0);
        }
        sent
    }
}

impl Actor for Port {
    type Event = PortEvent;

    /// A port that does not know itself holds nothing.
    open spec fn wf(&self) -> bool {
        self.myself is None ==> self.hub is None && self.pollster is None && self.reader is None
            && self.writer is None
    }

    fn on_event(&mut self, event: PortEvent) -> (out: Result<Vec<Envelope>, Fault>)
        ensures
            (*final(self), reaction(out)) == old(self).step(event),
    {
        let mut sent: Vec<Envelope> = Vec::new();
        let myself = match self.myself {
            Some(myself) => myself,
            None => {
                match event {
                    PortEvent::Init(myself, hub) => {
                        self.myself = Some(myself);
                        self.hub = Some(hub);
                        return Ok(sent);
                    },
                    _ => {
                        return Err(Fault::NotInitialized);
                    },
                }
            },
        };
        match event {
            PortEvent::Init(_, _) => {
                return Err(Fault::AlreadyInitialized);
            },
            PortEvent::Start(cust) => {
                self.hub = Some(cust);
                sent.push(Envelope::Link(self.link, LinkEvent::new_start(&myself)));
                if self.reader.is_none() {
                    self.reader = Some(cust);
                    sent.push(Envelope::Link(self.link, LinkEvent::new_read(&myself)));
                }
            },
            PortEvent::Stop(cust) => {
                self.hub = Some(cust);
                sent.push(Envelope::Link(self.link, LinkEvent::new_stop(&myself)));
            },
            PortEvent::Status(status) => match self.hub {
                None => {
                    return Err(Fault::NotInitialized);
                },
                Some(hub) => {
                    return Ok(self.handle_status(myself, hub, &status));
                },
            },
            PortEvent::Poll(cust) => match self.pollster {
                None => {
                    self.pollster = Some(cust);
                    sent.push(Envelope::Link(self.link, LinkEvent::new_poll(&myself)));
                },
                Some(_) => {
                    return Err(Fault::CreditDuplicated);
                },
            },
            PortEvent::Activity(activity) => match self.pollster {
                Some(cust) => {
                    sent.push(
                        Envelope::Pollster(
                            cust,
                            PollsterEvent::new_port_activity(&myself, &activity),
                        ),
                    );
                    self.pollster = None;
                },
                None => {},
            },
            PortEvent::LinkToPortWrite(payload) => match self.reader {
                Some(hub) => {
                    sent.push(
                        Envelope::Hub(hub, HubEvent::new_port_to_hub_write(&myself, &payload)),
                    );
                    self.reader = None;
                },
                None => {
                    return Err(Fault::CreditMissing);
                },
            },
            PortEvent::LinkToPortRead => match self.writer {
                Some(hub) => {
                    sent.push(Envelope::Hub(hub, HubEvent::new_port_to_hub_read(&myself)));
                    self.writer = None;
                },
                None => {
                    return Err(Fault::CreditMissing);
                },
            },
            PortEvent::HubToPortWrite(cust, payload) => match self.writer {
                None => {
                    self.writer = Some(cust);
                    sent.push(Envelope::Link(self.link, LinkEvent::new_write(&myself, &payload)));
                },
                Some(_) => {
                    return Err(Fault::CreditDuplicated);
                },
            },
            PortEvent::HubToPortRead(cust) => match self.reader {
                None => {
                    self.reader = Some(cust);
                    sent.push(Envelope::Link(self.link, LinkEvent::new_read(&myself)));
                },
                Some(_) => {},
            },
        }
        proof {
            assert(sent@ =~= old(self).step(event).1->Ok_0);
        }
        Ok(sent)
    }
}

} // verus!
