//! Two nodes with one port each, joined by one cable, from cell to cell.
//!
//! Each node is a cell, a hub, a port and a link; the two links are the two
//! ends of a `Duplex`. Every envelope that a component sends waits in the
//! mail of its node until the component it is addressed to handles it;
//! which envelope is handled next is open. The components are the state
//! machines of this crate: a hub moves as `HubView::step` says, a port as
//! `Port::step`, a link as `Link::step`, and a cell that knows itself
//! answers as `Cell::on_read` and `Cell::on_write` say.
//!
//! This module proves that whatever order the envelopes are handled in,
//! each cell is handed the payloads that the other cell took from its
//! application, in the order in which it took them, none twice and none left
//! out in between; and that on the way no actor reports a fault
//! (`lemma_cell_to_cell`). It also proves that the payloads do arrive: there
//! is a run at whose end the far application has got every payload that the
//! near one offered (`lemma_all_delivered`).
//!
//! The circuit is the two nodes in steady state: set up, started and
//! entangled, with no port stopped or started again and no poll under way.
use crate::actor::{spec_port_num, Actor, Cap, Envelope};
use crate::cell::{Cell, CellEvent, Delivery};
use crate::duplex::{
    entangled, held, lemma_answer, lemma_arrival, lemma_step_keeps_invariant,
    lemma_transfer_completes, Duplex, Move,
};
use crate::fault::Fault;
use crate::frame::{Frame, Payload, TACK, TICK};
use crate::hub::{
    forward_from, HubEvent, HubView, PendingView, PortOutView, Route,
};
use crate::link::{Link, LinkEvent, LinkState};
use crate::port::{Port, PortEvent};
use vstd::prelude::*;

verus! {

/// What a single-port hub's dispatcher does when no control message waits:
/// the payload of the cell goes to the port if the port holds a credit, or,
/// once it has gone, the cell is told; then the payload of the port goes to
/// the cell if the cell holds a credit, or, once it has gone, the port gets
/// its read credit back.
pub open spec fn tried_single(hub: HubView, myself: Cap) -> (HubView, Seq<Envelope>) {
    let out = hub.cell_out;
    let credit = hub.port_out[0].reader;
    let leaves = out.writer is Some && out.payload is Some && out.routes.len() > 0
        && credit is Some;
    let left = out.writer is Some && out.payload is Some && out.routes.len() == 0;
    let cell_out = if leaves {
        PendingView { routes: seq![], ..out }
    } else if left {
        PendingView { writer: None, payload: None, routes: seq![] }
    } else {
        out
    };
    let port_out = if leaves {
        seq![PortOutView { reader: None, ctrl: seq![] }]
    } else {
        hub.port_out
    };
    let down = if leaves {
        seq![Envelope::Port(credit->Some_0, PortEvent::HubToPortWrite(myself, out.payload->Some_0))]
    } else if left {
        seq![Envelope::Cell(out.writer->Some_0, CellEvent::HubToCellRead)]
    } else {
        seq![]
    };
    let inn = hub.port_in[0];
    let arrives = inn.writer is Some && inn.payload is Some && inn.routes.len() > 0
        && hub.cell_reader is Some;
    let arrived = inn.writer is Some && inn.payload is Some && inn.routes.len() == 0;
    let port_in = if arrives {
        seq![PendingView { routes: seq![], ..inn }]
    } else if arrived {
        seq![PendingView { writer: None, payload: None, routes: seq![] }]
    } else {
        hub.port_in
    };
    let up = if arrives {
        seq![
            Envelope::Cell(hub.cell_reader->Some_0, CellEvent::HubToCellWrite(inn.payload->Some_0)),
        ]
    } else if arrived {
        seq![Envelope::Port(inn.writer->Some_0, PortEvent::HubToPortRead(myself))]
    } else {
        seq![]
    };
    (
        HubView {
            cell_reader: if arrives {
                None
            } else {
                hub.cell_reader
            },
            cell_out,
            port_in,
            port_out,
            ..hub
        },
        down + up,
    )
}

/// A hub with one port and no control message waiting, whose routes are
/// those of the routing stub: what the cell sends goes to port 0, what the
/// port hands up goes to the cell.
pub open spec fn single(hub: HubView) -> bool {
    &&& hub.wf()
    &&& hub.ports.len() == 1
    &&& hub.route_port == 0
    &&& hub.port_out[0].ctrl.len() == 0
    &&& hub.cell_out.routes.len() == 0 || hub.cell_out.routes == seq![Route::Port(0)]
    &&& hub.port_in[0].routes.len() == 0 || hub.port_in[0].routes == seq![Route::Cell]
}

/// The dispatcher of a single-port hub does what `tried_single` says.
pub proof fn lemma_tried_single(hub: HubView, myself: Cap)
    requires
        single(hub),
    ensures
        hub.tried(myself) == tried_single(hub, myself),
{
    reveal_with_fuel(HubView::drained, 2);
    reveal_with_fuel(HubView::ports_offered, 2);
    reveal_with_fuel(forward_from, 2);
    let (drained, ctrl) = hub.drained(myself, 1);
    assert(drained =~= hub.port_out);
    assert(ctrl =~= Seq::<Envelope>::empty());
    let out = hub.cell_out;
    if out.routes.len() > 0 {
        assert(out.routes.drop_first() =~= Seq::<Route>::empty());
    }
    let inn = hub.port_in[0];
    if inn.routes.len() > 0 {
        assert(inn.routes.drop_first() =~= Seq::<Route>::empty());
    }
    let got = hub.tried(myself);
    let want = tried_single(hub, myself);
    assert(got.0.cell_out.routes =~= want.0.cell_out.routes);
    assert(hub.port_out[0].ctrl =~= Seq::<Payload>::empty());
    assert(got.0.port_out[0].ctrl =~= want.0.port_out[0].ctrl);
    assert(got.0.port_out =~= want.0.port_out);
    assert(got.0.port_in[0].routes =~= want.0.port_in[0].routes);
    assert(got.0.port_in =~= want.0.port_in);
    assert(got.1 =~= want.1);
}

/// The capabilities of the four actors of one node.
pub struct Names {
    pub cell: Cap,
    pub hub: Cap,
    pub port: Cap,
    pub link: Cap,
}

/// The envelopes that are under way within one node, sorted by the actor
/// they go to and by their kind, oldest first.
pub struct Mail {
    /// To the cell: the hub is ready for the next payload.
    pub ready: nat,
    /// To the cell: payloads for the application.
    pub inward: Seq<Payload>,
    /// To the hub: payloads of the cell, with the cell's capability.
    pub cell_write: Seq<(Cap, Payload)>,
    /// To the hub: read credits of the cell.
    pub cell_read: Seq<Cap>,
    /// To the hub: payloads of the port, with the port's capability.
    pub port_write: Seq<(Cap, Payload)>,
    /// To the hub: read credits of the port.
    pub port_read: Seq<Cap>,
    /// To the port: payloads of the hub, with the hub's capability.
    pub hub_write: Seq<(Cap, Payload)>,
    /// To the port: read credits of the hub.
    pub hub_read: Seq<Cap>,
    /// To the port: payloads that the link releases.
    pub link_write: Seq<Payload>,
    /// To the port: the link has delivered the outbound payload.
    pub link_read: nat,
    /// To the link: read credits of the port.
    pub read: Seq<Cap>,
    /// To the link: payloads of the port, with the port's capability.
    pub write: Seq<(Cap, Payload)>,
    /// Envelopes that no actor of the node takes.
    pub stray: Seq<Envelope>,
}

/// One node: its hub and port, its mail, and the application's side of its
/// cell. The node's link is one end of the `Duplex`.
pub struct Station {
    pub names: Names,
    pub hub: HubView,
    pub port: Port,
    pub mail: Mail,
    /// The payloads that the application has offered and the cell has not
    /// taken yet, oldest first.
    pub outbox: Seq<Payload>,
    /// The payloads that the cell has taken from the application, oldest first.
    pub injected: Seq<Payload>,
    /// The payloads that the cell has handed to the application, oldest first.
    pub delivered: Seq<Payload>,
    /// The faults that the node's actors have reported.
    pub faults: nat,
}

/// The payloads among envelopes that carry a capability with them.
pub open spec fn payloads(mail: Seq<(Cap, Payload)>) -> Seq<Payload> {
    Seq::new(mail.len(), |k: int| mail[k].1)
}

impl Mail {
    /// The mail with `envelope` added. A frame for the wire is not mail: it
    /// travels in the `Duplex`.
    pub open spec fn with(self, names: Names, envelope: Envelope) -> Mail {
        match envelope {
            Envelope::Cell(to, CellEvent::HubToCellRead) if to == names.cell => Mail {
                ready: self.ready + 1,
                ..self
            },
            Envelope::Cell(to, CellEvent::HubToCellWrite(payload)) if to == names.cell => Mail {
                inward: self.inward.push(payload),
                ..self
            },
            Envelope::Hub(to, HubEvent::CellToHubWrite(from, payload)) if to == names.hub => Mail {
                cell_write: self.cell_write.push((from, payload)),
                ..self
            },
            Envelope::Hub(to, HubEvent::CellToHubRead(from)) if to == names.hub => Mail {
                cell_read: self.cell_read.push(from),
                ..self
            },
            Envelope::Hub(to, HubEvent::PortToHubWrite(from, payload)) if to == names.hub => Mail {
                port_write: self.port_write.push((from, payload)),
                ..self
            },
            Envelope::Hub(to, HubEvent::PortToHubRead(from)) if to == names.hub => Mail {
                port_read: self.port_read.push(from),
                ..self
            },
            Envelope::Port(to, PortEvent::HubToPortWrite(from, payload)) if to == names.port => Mail {
                hub_write: self.hub_write.push((from, payload)),
                ..self
            },
            Envelope::Port(to, PortEvent::HubToPortRead(from)) if to == names.port => Mail {
                hub_read: self.hub_read.push(from),
                ..self
            },
            Envelope::Port(to, PortEvent::LinkToPortWrite(payload)) if to == names.port => Mail {
                link_write: self.link_write.push(payload),
                ..self
            },
            Envelope::Port(to, PortEvent::LinkToPortRead) if to == names.port => Mail {
                link_read: self.link_read + 1,
                ..self
            },
            Envelope::Link(to, LinkEvent::Read(from)) if to == names.link => Mail {
                read: self.read.push(from),
                ..self
            },
            Envelope::Link(to, LinkEvent::Write(from, payload)) if to == names.link => Mail {
                write: self.write.push((from, payload)),
                ..self
            },
            Envelope::Wire(_, _) => self,
            _ => Mail { stray: self.stray.push(envelope), ..self },
        }
    }

    /// The mail with the envelopes `sent` added, in order.
    pub open spec fn posted(self, names: Names, sent: Seq<Envelope>) -> Mail
        decreases sent.len(),
    {
        if sent.len() == 0 {
            self
        } else {
            self.posted(names, sent.drop_last()).with(names, sent.last())
        }
    }
}

/// What can happen next at one node, apart from what concerns its link.
pub enum Turn {
    /// The application offers a payload.
    Offer(Payload),
    /// The cell learns that the hub is ready, and takes the application's
    /// next payload if there is one.
    CellReady,
    /// The cell is handed a payload; `taken` says whether the application
    /// has room for it.
    CellInward { taken: bool },
    /// The hub is handed a payload of the cell.
    HubCellWrite,
    /// The hub is granted a read credit of the cell.
    HubCellRead,
    /// The hub is handed a payload of the port.
    HubPortWrite,
    /// The hub is granted a read credit of the port.
    HubPortRead,
    /// The port is handed a payload of the hub.
    PortHubWrite,
    /// The port is granted a read credit of the hub.
    PortHubRead,
    /// The port is handed a payload that the link releases.
    PortLinkWrite,
    /// The port learns that the link has delivered the outbound payload.
    PortLinkRead,
}

impl Station {
    /// The station after an actor has answered `out` to an event.
    pub open spec fn answered(self, out: Result<Seq<Envelope>, Fault>) -> Station {
        match out {
            Ok(sent) => Station { mail: self.mail.posted(self.names, sent), ..self },
            Err(_) => Station { faults: self.faults + 1, ..self },
        }
    }

    /// Whether `turn` can happen: the envelope that it handles is under way.
    pub open spec fn can(self, turn: Turn) -> bool {
        match turn {
            Turn::Offer(payload) => !payload.ctrl,
            Turn::CellReady => self.mail.ready > 0,
            Turn::CellInward { taken } => self.mail.inward.len() > 0,
            Turn::HubCellWrite => self.mail.cell_write.len() > 0,
            Turn::HubCellRead => self.mail.cell_read.len() > 0,
            Turn::HubPortWrite => self.mail.port_write.len() > 0,
            Turn::HubPortRead => self.mail.port_read.len() > 0,
            Turn::PortHubWrite => self.mail.hub_write.len() > 0,
            Turn::PortHubRead => self.mail.hub_read.len() > 0,
            Turn::PortLinkWrite => self.mail.link_write.len() > 0,
            Turn::PortLinkRead => self.mail.link_read > 0,
        }
    }

    /// The station after the hub has handled `event`.
    pub open spec fn hub_handles(self, event: HubEvent) -> Station {
        let (hub, out) = self.hub.step(event);
        (Station { hub, ..self }).answered(out)
    }

    /// The station after the port has handled `event`.
    pub open spec fn port_handles(self, event: PortEvent) -> Station {
        let (port, out) = self.port.step(event);
        (Station { port, ..self }).answered(out)
    }

    /// The station after `turn`: the oldest envelope of the kind is taken out
    /// of the mail, the actor it is addressed to handles it, and what the
    /// actor sends is added to the mail.
    pub open spec fn after(self, turn: Turn) -> Station {
        let mail = self.mail;
        match turn {
            Turn::Offer(payload) => Station { outbox: self.outbox.push(payload), ..self },
            Turn::CellReady => {
                let taken = Station { mail: Mail { ready: (mail.ready - 1) as nat, ..mail }, ..self };
                if self.outbox.len() > 0 {
                    (Station {
                        outbox: self.outbox.drop_first(),
                        injected: self.injected.push(self.outbox[0]),
                        ..taken
                    }).answered(
                        Ok(Cell::on_read(self.names.cell, self.names.hub, Some(self.outbox[0]))),
                    )
                } else {
                    taken.answered(Ok(Cell::on_read(self.names.cell, self.names.hub, None)))
                }
            },
            Turn::CellInward { taken } => {
                let payload = mail.inward[0];
                let opened = Station {
                    mail: Mail { inward: mail.inward.drop_first(), ..mail },
                    ..self
                };
                if taken {
                    (Station { delivered: self.delivered.push(payload), ..opened }).answered(
                        Cell::on_write(self.names.cell, self.names.hub, payload, Delivery::Taken),
                    )
                } else {
                    opened.answered(
                        Cell::on_write(self.names.cell, self.names.hub, payload, Delivery::Busy),
                    )
                }
            },
            Turn::HubCellWrite => (Station {
                mail: Mail { cell_write: mail.cell_write.drop_first(), ..mail },
                ..self
            }).hub_handles(HubEvent::CellToHubWrite(mail.cell_write[0].0, mail.cell_write[0].1)),
            Turn::HubCellRead => (Station {
                mail: Mail { cell_read: mail.cell_read.drop_first(), ..mail },
                ..self
            }).hub_handles(HubEvent::CellToHubRead(mail.cell_read[0])),
            Turn::HubPortWrite => (Station {
                mail: Mail { port_write: mail.port_write.drop_first(), ..mail },
                ..self
            }).hub_handles(HubEvent::PortToHubWrite(mail.port_write[0].0, mail.port_write[0].1)),
            Turn::HubPortRead => (Station {
                mail: Mail { port_read: mail.port_read.drop_first(), ..mail },
                ..self
            }).hub_handles(HubEvent::PortToHubRead(mail.port_read[0])),
            Turn::PortHubWrite => (Station {
                mail: Mail { hub_write: mail.hub_write.drop_first(), ..mail },
                ..self
            }).port_handles(PortEvent::HubToPortWrite(mail.hub_write[0].0, mail.hub_write[0].1)),
            Turn::PortHubRead => (Station {
                mail: Mail { hub_read: mail.hub_read.drop_first(), ..mail },
                ..self
            }).port_handles(PortEvent::HubToPortRead(mail.hub_read[0])),
            Turn::PortLinkWrite => (Station {
                mail: Mail { link_write: mail.link_write.drop_first(), ..mail },
                ..self
            }).port_handles(PortEvent::LinkToPortWrite(mail.link_write[0])),
            Turn::PortLinkRead => (Station {
                mail: Mail { link_read: (mail.link_read - 1) as nat, ..mail },
                ..self
            }).port_handles(PortEvent::LinkToPortRead),
        }
    }
}

/// One if `present`, zero if not.
pub open spec fn one(present: bool) -> nat {
    if present {
        1
    } else {
        0
    }
}

/// The payload that waits at a hub for a route to become ready.
pub open spec fn waiting(pending: PendingView) -> Seq<Payload> {
    if pending.payload is Some && pending.routes.len() > 0 {
        seq![pending.payload->Some_0]
    } else {
        seq![]
    }
}

/// Every payload of `payloads` is data, not a control message of the hubs.
pub open spec fn all_data(payloads: Seq<Payload>) -> bool {
    forall|k: int| 0 <= k < payloads.len() ==> !(#[trigger] payloads[k]).ctrl
}

impl Station {
    /// The actors of the node know themselves and each other, and nothing
    /// has gone wrong: no fault, no envelope that nobody takes.
    pub open spec fn wired(self, link: Link) -> bool {
        let names = self.names;
        let mail = self.mail;
        let hub = self.hub;
        &&& self.faults == 0
        &&& mail.stray.len() == 0
        &&& single(hub)
        &&& hub.myself == Some(names.hub)
        &&& hub.ports == seq![names.port]
        &&& self.port.myself == Some(names.port)
        &&& self.port.link == names.link
        &&& hub.cell_out.writer is Some ==> hub.cell_out.writer == Some(names.cell)
        &&& hub.cell_out.writer is Some <==> hub.cell_out.payload is Some
        &&& hub.port_in[0].writer is Some ==> hub.port_in[0].writer == Some(names.port)
        &&& hub.port_in[0].writer is Some <==> hub.port_in[0].payload is Some
        &&& hub.cell_reader is Some ==> hub.cell_reader == Some(names.cell)
        &&& hub.port_out[0].reader is Some ==> hub.port_out[0].reader == Some(names.port)
        &&& self.port.reader is Some ==> self.port.reader == Some(names.hub)
        &&& self.port.writer is Some ==> self.port.writer == Some(names.hub)
        &&& link.reader is Some ==> link.reader == Some(names.port)
        &&& link.writer is Some ==> link.writer == Some(names.port)
        &&& forall|k: int| 0 <= k < mail.cell_write.len() ==> (#[trigger] mail.cell_write[k]).0 == names.cell
        &&& forall|k: int| 0 <= k < mail.cell_read.len() ==> #[trigger] mail.cell_read[k] == names.cell
        &&& forall|k: int| 0 <= k < mail.port_write.len() ==> (#[trigger] mail.port_write[k]).0 == names.port
        &&& forall|k: int| 0 <= k < mail.port_read.len() ==> #[trigger] mail.port_read[k] == names.port
        &&& forall|k: int| 0 <= k < mail.hub_write.len() ==> (#[trigger] mail.hub_write[k]).0 == names.hub
        &&& forall|k: int| 0 <= k < mail.hub_read.len() ==> #[trigger] mail.hub_read[k] == names.hub
        &&& forall|k: int| 0 <= k < mail.read.len() ==> #[trigger] mail.read[k] == names.port
        &&& forall|k: int| 0 <= k < mail.write.len() ==> (#[trigger] mail.write[k]).0 == names.port
    }

    /// One credit on every hop, each way: it is held at one end, or under
    /// way as a credit, or under way as the payload that used it up, or
    /// with the payload further along.
    pub open spec fn credits(self, link: Link) -> bool {
        let mail = self.mail;
        let hub = self.hub;
        let port = self.port;
        // The cell's payloads to the hub.
        &&& mail.ready + mail.cell_write.len() + one(hub.cell_out.writer is Some) == 1
        // The hub's payloads to the port.
        &&& one(hub.port_out[0].reader is Some) + mail.hub_write.len() + one(port.writer is Some)
            + mail.port_read.len() == 1
        // The port's payloads to the link.
        &&& mail.write.len() + one(link.writer is Some) + mail.link_read == one(port.writer is Some)
        // The link's payloads to the port.
        &&& mail.read.len() + one(link.reader is Some) + mail.link_write.len() == one(
            port.reader is Some,
        )
        // The port's payloads to the hub.
        &&& one(port.reader is Some) + mail.port_write.len() + one(hub.port_in[0].writer is Some)
            + mail.hub_read.len() == 1
        // The hub's payloads to the cell.
        &&& one(hub.cell_reader is Some) + mail.inward.len() + mail.cell_read.len() == 1
    }

    /// The payloads on their way out: what the cell took from the
    /// application is what has reached the link, then what is under way to
    /// the link, to the port, waiting at the hub, and under way to the hub.
    pub open spec fn outbound(self, sent: Seq<Payload>) -> bool {
        self.injected == sent + payloads(self.mail.write) + payloads(self.mail.hub_write)
            + waiting(self.hub.cell_out) + payloads(self.mail.cell_write)
    }

    /// The payloads on their way in: what the link has released is what the
    /// application has got, then what is under way to the cell, waiting at
    /// the hub, under way to the hub, and under way to the port.
    pub open spec fn inbound(self, got: Seq<Payload>) -> bool {
        got == self.delivered + self.mail.inward + waiting(self.hub.port_in[0]) + payloads(
            self.mail.port_write,
        ) + self.mail.link_write
    }

    /// What holds of a node at every moment; `link` is its link, `sent` the
    /// payloads that have reached the link, `got` those it has released.
    pub open spec fn inv(self, link: Link, sent: Seq<Payload>, got: Seq<Payload>) -> bool {
        &&& self.wired(link)
        &&& self.credits(link)
        &&& self.outbound(sent)
        &&& self.inbound(got)
        &&& all_data(self.outbox)
        &&& all_data(self.injected)
        &&& all_data(got)
    }
}

/// Posting one envelope adds it to the mail.
pub proof fn lemma_posted_one(mail: Mail, names: Names, envelope: Envelope)
    ensures
        mail.posted(names, seq![envelope]) == mail.with(names, envelope),
{
    reveal_with_fuel(Mail::posted, 2);
    assert(seq![envelope].drop_last() =~= Seq::<Envelope>::empty());
}

/// Posting two envelopes adds the first, then the second.
pub proof fn lemma_posted_two(mail: Mail, names: Names, first: Envelope, second: Envelope)
    ensures
        mail.posted(names, seq![first, second]) == mail.with(names, first).with(names, second),
{
    reveal_with_fuel(Mail::posted, 3);
    assert(seq![first, second].drop_last() =~= seq![first]);
    assert(seq![first].drop_last() =~= Seq::<Envelope>::empty());
}

impl Station {
    /// The station after its hub's dispatcher has run.
    pub open spec fn dispatched(self) -> Station {
        let (hub, sent) = self.hub.tried(self.names.hub);
        Station { hub, mail: self.mail.posted(self.names, sent), ..self }
    }
}

/// The dispatcher of the hub keeps what holds of a node: it moves the
/// payload of the cell on to the port, or tells the cell that it is
/// through, and the same for the payload of the port, each time with the
/// credit of the hop that the payload takes.
pub proof fn lemma_dispatched(station: Station, link: Link, sent: Seq<Payload>, got: Seq<Payload>)
    requires
        station.inv(link, sent, got),
    ensures
        station.dispatched().inv(link, sent, got),
{
    let hub = station.hub;
    let names = station.names;
    let mail = station.mail;
    lemma_tried_single(hub, names.hub);
    let (next, out) = tried_single(hub, names.hub);
    let after = station.dispatched();
    let leaves = hub.cell_out.writer is Some && hub.cell_out.payload is Some
        && hub.cell_out.routes.len() > 0 && hub.port_out[0].reader is Some;
    let left = hub.cell_out.writer is Some && hub.cell_out.payload is Some
        && hub.cell_out.routes.len() == 0;
    let arrives = hub.port_in[0].writer is Some && hub.port_in[0].payload is Some
        && hub.port_in[0].routes.len() > 0 && hub.cell_reader is Some;
    let arrived = hub.port_in[0].writer is Some && hub.port_in[0].payload is Some
        && hub.port_in[0].routes.len() == 0;
    let down = if leaves {
        seq![
            Envelope::Port(
                names.port,
                PortEvent::HubToPortWrite(names.hub, hub.cell_out.payload->Some_0),
            ),
        ]
    } else if left {
        seq![Envelope::Cell(names.cell, CellEvent::HubToCellRead)]
    } else {
        seq![]
    };
    let up = if arrives {
        seq![Envelope::Cell(names.cell, CellEvent::HubToCellWrite(hub.port_in[0].payload->Some_0))]
    } else if arrived {
        seq![Envelope::Port(names.port, PortEvent::HubToPortRead(names.hub))]
    } else {
        seq![]
    };
    assert(out == down + up);
    if down.len() == 1 && up.len() == 1 {
        assert(out =~= seq![down[0], up[0]]);
        lemma_posted_two(mail, names, down[0], up[0]);
    } else if down.len() == 1 {
        assert(out =~= seq![down[0]]);
        lemma_posted_one(mail, names, down[0]);
    } else if up.len() == 1 {
        assert(out =~= seq![up[0]]);
        lemma_posted_one(mail, names, up[0]);
    } else {
        assert(out =~= Seq::<Envelope>::empty());
    }
    let posted = after.mail;
    // The payloads on their way out.
    assert(payloads(posted.write) =~= payloads(mail.write));
    assert(payloads(posted.cell_write) =~= payloads(mail.cell_write));
    if leaves {
        assert(payloads(posted.hub_write) =~= payloads(mail.hub_write).push(
            hub.cell_out.payload->Some_0,
        ));
        assert(payloads(mail.hub_write) =~= Seq::<Payload>::empty());
    } else {
        assert(payloads(posted.hub_write) =~= payloads(mail.hub_write));
    }
    assert(after.injected =~= sent + payloads(posted.write) + payloads(posted.hub_write) + waiting(
        next.cell_out,
    ) + payloads(posted.cell_write));
    // The payloads on their way in.
    assert(payloads(posted.port_write) =~= payloads(mail.port_write));
    assert(got =~= after.delivered + posted.inward + waiting(next.port_in[0]) + payloads(
        posted.port_write,
    ) + posted.link_write);
    assert(single(next));
}

/// Every turn that can happen at a node keeps what holds of the node.
pub proof fn lemma_turn(
    station: Station,
    link: Link,
    sent: Seq<Payload>,
    got: Seq<Payload>,
    turn: Turn,
)
    requires
        station.inv(link, sent, got),
        station.can(turn),
    ensures
        station.after(turn).inv(link, sent, got),
{
    match turn {
        Turn::Offer(payload) => {},
        Turn::CellReady => lemma_cell_ready(station, link, sent, got),
        Turn::CellInward { taken } => lemma_cell_inward(station, link, sent, got, taken),
        Turn::HubCellWrite => lemma_hub_cell_write(station, link, sent, got),
        Turn::HubCellRead => lemma_hub_cell_read(station, link, sent, got),
        Turn::HubPortWrite => lemma_hub_port_write(station, link, sent, got),
        Turn::HubPortRead => lemma_hub_port_read(station, link, sent, got),
        Turn::PortHubWrite => lemma_port_hub_write(station, link, sent, got),
        Turn::PortHubRead => lemma_port_hub_read(station, link, sent, got),
        Turn::PortLinkWrite => lemma_port_link_write(station, link, sent, got),
        Turn::PortLinkRead => lemma_port_link_read(station, link, sent, got),
    }
}

proof fn lemma_cell_ready(station: Station, link: Link, sent: Seq<Payload>, got: Seq<Payload>)
    requires
        station.inv(link, sent, got),
        station.can(Turn::CellReady),
    ensures
        station.after(Turn::CellReady).inv(link, sent, got),
{
    let names = station.names;
    let mail = station.mail;
    let opened = Mail { ready: (mail.ready - 1) as nat, ..mail };
    let after = station.after(Turn::CellReady);
    if station.outbox.len() > 0 {
        let payload = station.outbox[0];
        lemma_posted_one(
            opened,
            names,
            Envelope::Hub(names.hub, HubEvent::CellToHubWrite(names.cell, payload)),
        );
        assert(payloads(after.mail.cell_write) =~= payloads(mail.cell_write).push(payload));
        assert(after.injected =~= sent + payloads(after.mail.write) + payloads(
            after.mail.hub_write,
        ) + waiting(after.hub.cell_out) + payloads(after.mail.cell_write));
    } else {
        lemma_posted_one(opened, names, Envelope::Cell(names.cell, CellEvent::HubToCellRead));
    }
}

proof fn lemma_cell_inward(
    station: Station,
    link: Link,
    sent: Seq<Payload>,
    got: Seq<Payload>,
    taken: bool,
)
    requires
        station.inv(link, sent, got),
        station.can(Turn::CellInward { taken }),
    ensures
        station.after(Turn::CellInward { taken }).inv(link, sent, got),
{
    let names = station.names;
    let mail = station.mail;
    let payload = mail.inward[0];
    let opened = Mail { inward: mail.inward.drop_first(), ..mail };
    let after = station.after(Turn::CellInward { taken });
    if taken {
        lemma_posted_one(opened, names, Envelope::Hub(names.hub, HubEvent::CellToHubRead(names.cell)));
    } else {
        lemma_posted_one(
            opened,
            names,
            Envelope::Cell(names.cell, CellEvent::HubToCellWrite(payload)),
        );
    }
    assert(got =~= after.delivered + after.mail.inward + waiting(after.hub.port_in[0]) + payloads(
        after.mail.port_write,
    ) + after.mail.link_write);
}

/// The first port of a hub with one port is port 0.
proof fn lemma_only_port(station: Station, link: Link)
    requires
        station.wired(link),
    ensures
        spec_port_num(station.hub.ports, station.names.port) == Some(0int),
{
    reveal_with_fuel(spec_port_num, 2);
}

proof fn lemma_hub_cell_write(station: Station, link: Link, sent: Seq<Payload>, got: Seq<Payload>)
    requires
        station.inv(link, sent, got),
        station.can(Turn::HubCellWrite),
    ensures
        station.after(Turn::HubCellWrite).inv(link, sent, got),
{
    let mail = station.mail;
    let hub = station.hub;
    let (from, payload) = mail.cell_write[0];
    let handed = Station {
        mail: Mail { cell_write: mail.cell_write.drop_first(), ..mail },
        hub: HubView {
            cell_out: PendingView {
                writer: Some(from),
                payload: Some(payload),
                routes: seq![Route::Port(0)],
            },
            ..hub
        },
        ..station
    };
    assert(payloads(handed.mail.cell_write) =~= Seq::<Payload>::empty());
    assert(payloads(mail.cell_write) =~= seq![payload]);
    assert(handed.injected =~= sent + payloads(handed.mail.write) + payloads(
        handed.mail.hub_write,
    ) + waiting(handed.hub.cell_out) + payloads(handed.mail.cell_write));
    assert(handed.inv(link, sent, got));
    lemma_dispatched(handed, link, sent, got);
    let tried = handed.hub.tried(station.names.hub);
    assert(Seq::<Envelope>::empty() + tried.1 =~= tried.1);
    assert(station.after(Turn::HubCellWrite) == handed.dispatched());
}

proof fn lemma_hub_cell_read(station: Station, link: Link, sent: Seq<Payload>, got: Seq<Payload>)
    requires
        station.inv(link, sent, got),
        station.can(Turn::HubCellRead),
    ensures
        station.after(Turn::HubCellRead).inv(link, sent, got),
{
    let mail = station.mail;
    let hub = station.hub;
    let handed = Station {
        mail: Mail { cell_read: mail.cell_read.drop_first(), ..mail },
        hub: HubView { cell_reader: Some(mail.cell_read[0]), ..hub },
        ..station
    };
    assert(handed.inv(link, sent, got));
    lemma_dispatched(handed, link, sent, got);
    let tried = handed.hub.tried(station.names.hub);
    assert(Seq::<Envelope>::empty() + tried.1 =~= tried.1);
    assert(station.after(Turn::HubCellRead) == handed.dispatched());
}

proof fn lemma_hub_port_write(station: Station, link: Link, sent: Seq<Payload>, got: Seq<Payload>)
    requires
        station.inv(link, sent, got),
        station.can(Turn::HubPortWrite),
    ensures
        station.after(Turn::HubPortWrite).inv(link, sent, got),
{
    let mail = station.mail;
    let hub = station.hub;
    let (from, payload) = mail.port_write[0];
    lemma_only_port(station, link);
    let handed = Station {
        mail: Mail { port_write: mail.port_write.drop_first(), ..mail },
        hub: HubView {
            port_in: hub.port_in.update(
                0,
                PendingView { writer: Some(from), payload: Some(payload), routes: seq![Route::Cell] },
            ),
            ..hub
        },
        ..station
    };
    assert(payloads(handed.mail.port_write) =~= Seq::<Payload>::empty());
    assert(payloads(mail.port_write) =~= seq![payload]);
    // The payload is one of those that the link released: it is data.
    let place = station.delivered.len() + mail.inward.len() + waiting(hub.port_in[0]).len();
    assert(got[place as int] == payload);
    assert(!payload.ctrl);
    assert(got =~= handed.delivered + handed.mail.inward + waiting(handed.hub.port_in[0])
        + payloads(handed.mail.port_write) + handed.mail.link_write);
    assert(handed.inv(link, sent, got));
    lemma_dispatched(handed, link, sent, got);
    let tried = handed.hub.tried(station.names.hub);
    assert(Seq::<Envelope>::empty() + tried.1 =~= tried.1);
    assert(station.after(Turn::HubPortWrite) == handed.dispatched());
}

proof fn lemma_hub_port_read(station: Station, link: Link, sent: Seq<Payload>, got: Seq<Payload>)
    requires
        station.inv(link, sent, got),
        station.can(Turn::HubPortRead),
    ensures
        station.after(Turn::HubPortRead).inv(link, sent, got),
{
    let mail = station.mail;
    let hub = station.hub;
    lemma_only_port(station, link);
    let handed = Station {
        mail: Mail { port_read: mail.port_read.drop_first(), ..mail },
        hub: hub.with_reader(0, Some(mail.port_read[0])),
        ..station
    };
    assert(hub.port_out[0].ctrl =~= handed.hub.port_out[0].ctrl);
    assert(handed.inv(link, sent, got));
    lemma_dispatched(handed, link, sent, got);
    let tried = handed.hub.tried(station.names.hub);
    assert(Seq::<Envelope>::empty() + tried.1 =~= tried.1);
    assert(station.after(Turn::HubPortRead) == handed.dispatched());
}

proof fn lemma_port_hub_write(station: Station, link: Link, sent: Seq<Payload>, got: Seq<Payload>)
    requires
        station.inv(link, sent, got),
        station.can(Turn::PortHubWrite),
    ensures
        station.after(Turn::PortHubWrite).inv(link, sent, got),
{
    let names = station.names;
    let mail = station.mail;
    let (from, payload) = mail.hub_write[0];
    let opened = Mail { hub_write: mail.hub_write.drop_first(), ..mail };
    lemma_posted_one(opened, names, Envelope::Link(names.link, LinkEvent::Write(names.port, payload)));
    let after = station.after(Turn::PortHubWrite);
    assert(payloads(mail.hub_write) =~= seq![payload]);
    assert(payloads(mail.write) =~= Seq::<Payload>::empty());
    assert(payloads(after.mail.hub_write) =~= Seq::<Payload>::empty());
    assert(payloads(after.mail.write) =~= seq![payload]);
    assert(after.injected =~= sent + payloads(after.mail.write) + payloads(after.mail.hub_write)
        + waiting(after.hub.cell_out) + payloads(after.mail.cell_write));
}

proof fn lemma_port_hub_read(station: Station, link: Link, sent: Seq<Payload>, got: Seq<Payload>)
    requires
        station.inv(link, sent, got),
        station.can(Turn::PortHubRead),
    ensures
        station.after(Turn::PortHubRead).inv(link, sent, got),
{
    let names = station.names;
    let mail = station.mail;
    let opened = Mail { hub_read: mail.hub_read.drop_first(), ..mail };
    lemma_posted_one(opened, names, Envelope::Link(names.link, LinkEvent::Read(names.port)));
}

proof fn lemma_port_link_write(station: Station, link: Link, sent: Seq<Payload>, got: Seq<Payload>)
    requires
        station.inv(link, sent, got),
        station.can(Turn::PortLinkWrite),
    ensures
        station.after(Turn::PortLinkWrite).inv(link, sent, got),
{
    let names = station.names;
    let mail = station.mail;
    let payload = mail.link_write[0];
    let opened = Mail { link_write: mail.link_write.drop_first(), ..mail };
    lemma_posted_one(opened, names, Envelope::Hub(names.hub, HubEvent::PortToHubWrite(names.port, payload)));
    let after = station.after(Turn::PortLinkWrite);
    assert(payloads(mail.port_write) =~= Seq::<Payload>::empty());
    assert(payloads(after.mail.port_write) =~= seq![payload]);
    assert(got =~= after.delivered + after.mail.inward + waiting(after.hub.port_in[0]) + payloads(
        after.mail.port_write,
    ) + after.mail.link_write);
}

proof fn lemma_port_link_read(station: Station, link: Link, sent: Seq<Payload>, got: Seq<Payload>)
    requires
        station.inv(link, sent, got),
        station.can(Turn::PortLinkRead),
    ensures
        station.after(Turn::PortLinkRead).inv(link, sent, got),
{
    let names = station.names;
    let mail = station.mail;
    let opened = Mail { link_read: (mail.link_read - 1) as nat, ..mail };
    lemma_posted_one(opened, names, Envelope::Hub(names.hub, HubEvent::PortToHubRead(names.port)));
}

/// Two nodes and the cable between them.
pub struct Circuit {
    pub a: Station,
    pub b: Station,
    /// The two links, the frame under way, and the payloads that have
    /// reached the links and left them.
    pub links: Duplex,
}

/// What can happen next in a circuit.
pub enum Happening {
    /// A turn at node `a`, or at node `b`.
    Turn { at_b: bool, turn: Turn },
    /// The link is granted a read credit of its port.
    LinkRead { at_b: bool },
    /// The link is handed a payload of its port.
    LinkWrite { at_b: bool },
    /// The frame under way arrives.
    Frame,
}

impl Circuit {
    /// The node at the end `at_b`.
    pub open spec fn station(self, at_b: bool) -> Station {
        if at_b {
            self.b
        } else {
            self.a
        }
    }

    /// The link at the end `at_b`.
    pub open spec fn link(self, at_b: bool) -> Link {
        if at_b {
            self.links.b
        } else {
            self.links.a
        }
    }

    /// The circuit with the node at the end `at_b` replaced.
    pub open spec fn with_station(self, at_b: bool, station: Station) -> Circuit {
        if at_b {
            Circuit { b: station, ..self }
        } else {
            Circuit { a: station, ..self }
        }
    }

    /// What holds of a circuit at every moment: what holds of the two links,
    /// and of each node with its link.
    pub open spec fn inv(self) -> bool {
        &&& self.links.inv()
        &&& self.a.inv(self.links.a, self.links.sent_a, self.links.got_a)
        &&& self.b.inv(self.links.b, self.links.sent_b, self.links.got_b)
    }

    /// Whether `happening` can happen: the envelope or frame that it handles
    /// is under way, and a frame can still be answered with the next
    /// sequence number.
    pub open spec fn can(self, happening: Happening) -> bool {
        match happening {
            Happening::Turn { at_b, turn } => self.station(at_b).can(turn),
            Happening::LinkRead { at_b } => self.station(at_b).mail.read.len() > 0,
            Happening::LinkWrite { at_b } => self.station(at_b).mail.write.len() > 0,
            Happening::Frame => self.links.token.spec_sequence() < u16::MAX,
        }
    }

    /// The circuit after `happening`.
    #[verifier::opaque]
    pub open spec fn after(self, happening: Happening) -> Circuit {
        match happening {
            Happening::Turn { at_b, turn } => self.with_station(at_b, self.station(at_b).after(turn)),
            Happening::LinkRead { at_b } => {
                let station = self.station(at_b);
                let port = station.mail.read[0];
                let out = self.link(at_b).step(LinkEvent::Read(port), 1).1;
                let opened = Station {
                    mail: Mail { read: station.mail.read.drop_first(), ..station.mail },
                    ..station
                };
                Circuit {
                    links: self.links.next(Move::Read { at_b, port }),
                    ..self.with_station(at_b, opened.answered(out))
                }
            },
            Happening::LinkWrite { at_b } => {
                let station = self.station(at_b);
                let (port, payload) = station.mail.write[0];
                let out = self.link(at_b).step(LinkEvent::Write(port, payload), 1).1;
                let opened = Station {
                    mail: Mail { write: station.mail.write.drop_first(), ..station.mail },
                    ..station
                };
                Circuit {
                    links: self.links.next(Move::Write { at_b, port, payload }),
                    ..self.with_station(at_b, opened.answered(out))
                }
            },
            Happening::Frame => {
                let at_b = self.links.to_b;
                let out = self.link(at_b).step(LinkEvent::Frame(self.links.token), 1).1;
                Circuit {
                    links: self.links.delivered(),
                    ..self.with_station(at_b, self.station(at_b).answered(out))
                }
            },
        }
    }

    /// The circuit after the happenings `run`, in order.
    pub open spec fn after_all(self, run: Seq<Happening>) -> Circuit
        decreases run.len(),
    {
        if run.len() == 0 {
            self
        } else {
            self.after_all(run.drop_last()).after(run.last())
        }
    }

    /// Whether each happening of `run` can happen when its turn comes.
    pub open spec fn admits(self, run: Seq<Happening>) -> bool
        decreases run.len(),
    {
        run.len() == 0 || (self.admits(run.drop_last()) && self.after_all(run.drop_last()).can(
            run.last(),
        ))
    }
}

/// The payloads that have reached a link are among those that its cell
/// took: they are data.
proof fn lemma_sent_is_data(station: Station, link: Link, sent: Seq<Payload>, got: Seq<Payload>)
    requires
        station.inv(link, sent, got),
    ensures
        all_data(sent),
{
    assert forall|k: int| 0 <= k < sent.len() implies !(#[trigger] sent[k]).ctrl by {
        assert(station.injected[k] == sent[k]);
    }
}

/// What a frame that arrives puts into the mail of the node: the payload
/// that the link releases, with a TICK that finds a surplus; the word that
/// the outbound payload is delivered, with a TACK; and nothing otherwise.
proof fn lemma_frame_mail(link: Link, token: Frame, names: Names, mail: Mail)
    requires
        link.wf(),
        link.state != LinkState::Stop,
        token.spec_is_entangled(),
        !token.spec_is_reset(),
        token.spec_sequence() < u16::MAX,
        ({
            let i = token.spec_i_state();
            i == TICK || i == crate::frame::TECK || i == crate::frame::RTECK || (i == TACK
                && link.balance == -1)
        }),
        link.reader is Some ==> link.reader == Some(names.port),
        link.writer is Some ==> link.writer == Some(names.port),
    ensures
        ({
            let i = token.spec_i_state();
            let (next, out) = link.step(LinkEvent::Frame(token), 1);
            &&& out is Ok
            &&& next.reader == if i == TICK && link.balance == 1 {
                None
            } else {
                link.reader
            }
            &&& next.writer == if i == TACK {
                None
            } else {
                link.writer
            }
            &&& mail.posted(names, out->Ok_0) == if i == TICK && link.balance == 1 {
                Mail { link_write: mail.link_write.push(link.inbound->Some_0), ..mail }
            } else if i == TACK {
                Mail { link_read: mail.link_read + 1, ..mail }
            } else {
                mail
            }
        }),
{
    let sent = link.step(LinkEvent::Frame(token), 1).1->Ok_0;
    if sent.len() == 2 {
        assert(sent =~= seq![sent[0], sent[1]]);
        lemma_posted_two(mail, names, sent[0], sent[1]);
    } else {
        assert(sent =~= seq![sent[0]]);
        lemma_posted_one(mail, names, sent[0]);
    }
}

/// A read credit that reaches the link keeps what holds of the node.
proof fn lemma_link_read(station: Station, link: Link, sent: Seq<Payload>, got: Seq<Payload>)
    requires
        station.inv(link, sent, got),
        station.mail.read.len() > 0,
        link.wf(),
    ensures
        ({
            let (next, out) = link.step(LinkEvent::Read(station.mail.read[0]), 1);
            let opened = Station {
                mail: Mail { read: station.mail.read.drop_first(), ..station.mail },
                ..station
            };
            &&& link.reader is None
            &&& opened.answered(out).inv(next, sent, got)
        }),
{
}

/// A payload that reaches the link keeps what holds of the node.
proof fn lemma_link_write(station: Station, link: Link, sent: Seq<Payload>, got: Seq<Payload>)
    requires
        station.inv(link, sent, got),
        station.mail.write.len() > 0,
        link.wf(),
    ensures
        ({
            let (port, payload) = station.mail.write[0];
            let (next, out) = link.step(LinkEvent::Write(port, payload), 1);
            let opened = Station {
                mail: Mail { write: station.mail.write.drop_first(), ..station.mail },
                ..station
            };
            &&& link.writer is None
            &&& opened.answered(out).inv(next, sent.push(payload), got)
        }),
{
    let (port, payload) = station.mail.write[0];
    let (next, out) = link.step(LinkEvent::Write(port, payload), 1);
    let opened = Station {
        mail: Mail { write: station.mail.write.drop_first(), ..station.mail },
        ..station
    };
    let after = opened.answered(out);
    assert(payloads(station.mail.write) =~= seq![payload]);
    assert(payloads(after.mail.write) =~= Seq::<Payload>::empty());
    assert(after.injected =~= sent.push(payload) + payloads(after.mail.write) + payloads(
        after.mail.hub_write,
    ) + waiting(after.hub.cell_out) + payloads(after.mail.cell_write));
}

/// A frame that arrives at the link keeps what holds of the node; what the
/// link releases is added to what it has released before.
proof fn lemma_link_frame(
    station: Station,
    link: Link,
    sent: Seq<Payload>,
    got: Seq<Payload>,
    token: Frame,
)
    requires
        station.inv(link, sent, got),
        link.wf(),
        link.state != LinkState::Stop,
        token.spec_is_entangled(),
        !token.spec_is_reset(),
        token.spec_sequence() < u16::MAX,
        ({
            let i = token.spec_i_state();
            i == TICK || i == crate::frame::TECK || i == crate::frame::RTECK || (i == TACK
                && link.balance == -1)
        }),
        all_data(held(link)),
    ensures
        ({
            let (next, out) = link.step(LinkEvent::Frame(token), 1);
            let released = if token.spec_i_state() == TICK {
                held(link)
            } else {
                seq![]
            };
            station.answered(out).inv(next, sent, got + released)
        }),
{
    lemma_frame_mail(link, token, station.names, station.mail);
    let (next, out) = link.step(LinkEvent::Frame(token), 1);
    let after = station.answered(out);
    let released = if token.spec_i_state() == TICK {
        held(link)
    } else {
        seq![]
    };
    assert(got + released =~= after.delivered + after.mail.inward + waiting(after.hub.port_in[0])
        + payloads(after.mail.port_write) + after.mail.link_write);
    assert forall|k: int| 0 <= k < (got + released).len() implies !(#[trigger] (got
        + released)[k]).ctrl by {
        if k < got.len() {
            assert((got + released)[k] == got[k]);
        } else {
            assert((got + released)[k] == held(link)[k - got.len()]);
        }
    }
}

/// What a link holds in surplus is one of the payloads that the far link
/// was given: it is data.
proof fn lemma_held_is_data(circuit: Circuit)
    requires
        circuit.inv(),
    ensures
        all_data(held(circuit.links.receiver())),
{
    let links = circuit.links;
    lemma_sent_is_data(circuit.a, links.a, links.sent_a, links.got_a);
    lemma_sent_is_data(circuit.b, links.b, links.sent_b, links.got_b);
    let holds = held(links.receiver());
    if holds.len() > 0 {
        assert(links.forth().0[links.forth().1.len() as int] == holds[0]);
    }
}

/// Every happening that can happen keeps what holds of a circuit.
pub proof fn lemma_happening(circuit: Circuit, happening: Happening)
    requires
        circuit.inv(),
        circuit.can(happening),
    ensures
        circuit.after(happening).inv(),
{
    reveal(Circuit::after);
    let links = circuit.links;
    match happening {
        Happening::Turn { at_b, turn } => {
            if at_b {
                lemma_turn(circuit.b, links.b, links.sent_b, links.got_b, turn);
            } else {
                lemma_turn(circuit.a, links.a, links.sent_a, links.got_a, turn);
            }
        },
        Happening::LinkRead { at_b } => {
            let port = circuit.station(at_b).mail.read[0];
            if at_b {
                lemma_link_read(circuit.b, links.b, links.sent_b, links.got_b);
            } else {
                lemma_link_read(circuit.a, links.a, links.sent_a, links.got_a);
            }
            lemma_step_keeps_invariant(links, Move::Read { at_b, port });
        },
        Happening::LinkWrite { at_b } => {
            let (port, payload) = circuit.station(at_b).mail.write[0];
            if at_b {
                lemma_link_write(circuit.b, links.b, links.sent_b, links.got_b);
            } else {
                lemma_link_write(circuit.a, links.a, links.sent_a, links.got_a);
            }
            lemma_step_keeps_invariant(links, Move::Write { at_b, port, payload });
        },
        Happening::Frame => {
            lemma_held_is_data(circuit);
            lemma_arrival(links);
            if links.to_b {
                lemma_link_frame(circuit.b, links.b, links.sent_b, links.got_b, links.token);
            } else {
                lemma_link_frame(circuit.a, links.a, links.sent_a, links.got_a, links.token);
            }
        },
    }
}

/// A node that has been set up and started: the hub knows itself and holds
/// the credit of its port; the port knows itself and has granted its link a
/// read credit on the hub's behalf; the cell has been told that the hub is
/// ready, and its own read credit is under way to the hub; nothing else is
/// under way, and no payload has been taken or handed over yet.
pub open spec fn started(station: Station, link: Link) -> bool {
    let names = station.names;
    &&& station.faults == 0
    &&& station.mail == (Mail {
        ready: 1,
        inward: seq![],
        cell_write: seq![],
        cell_read: seq![names.cell],
        port_write: seq![],
        port_read: seq![],
        hub_write: seq![],
        hub_read: seq![],
        link_write: seq![],
        link_read: 0,
        read: seq![],
        write: seq![],
        stray: seq![],
    })
    &&& station.hub == (HubView {
        myself: Some(names.hub),
        ..HubView::spec_create(seq![names.port])
    })
    &&& station.port.myself == Some(names.port)
    &&& station.port.link == names.link
    &&& station.port.reader == Some(names.hub)
    &&& station.port.writer is None
    &&& link.reader == Some(names.port)
    &&& link.writer is None
    &&& all_data(station.outbox)
    &&& station.injected.len() == 0
    &&& station.delivered.len() == 0
}

/// Two nodes that have been set up and started, with their links entangled.
pub open spec fn ready(circuit: Circuit) -> bool {
    &&& entangled(circuit.links)
    &&& started(circuit.a, circuit.links.a)
    &&& started(circuit.b, circuit.links.b)
}

/// A circuit that is ready meets the invariant.
pub proof fn lemma_ready(circuit: Circuit)
    requires
        ready(circuit),
    ensures
        circuit.inv(),
{
    let links = circuit.links;
    crate::duplex::lemma_invariant_always(links, seq![]);
    lemma_started(circuit.a, links.a, links.sent_a, links.got_a);
    lemma_started(circuit.b, links.b, links.sent_b, links.got_b);
}

proof fn lemma_started(station: Station, link: Link, sent: Seq<Payload>, got: Seq<Payload>)
    requires
        started(station, link),
        sent.len() == 0,
        got.len() == 0,
    ensures
        station.inv(link, sent, got),
{
    let hub = station.hub;
    assert(hub.cell_out.routes =~= Seq::<Route>::empty());
    assert(station.injected =~= sent + payloads(station.mail.write) + payloads(
        station.mail.hub_write,
    ) + waiting(hub.cell_out) + payloads(station.mail.cell_write));
    assert(got =~= station.delivered + station.mail.inward + waiting(hub.port_in[0]) + payloads(
        station.mail.port_write,
    ) + station.mail.link_write);
}

/// The invariant holds from the start on, whatever happens in whatever order.
pub proof fn lemma_invariant_always(circuit: Circuit, run: Seq<Happening>)
    requires
        ready(circuit),
        circuit.admits(run),
    ensures
        circuit.after_all(run).inv(),
    decreases run.len(),
{
    if run.len() == 0 {
        lemma_ready(circuit);
    } else {
        lemma_invariant_always(circuit, run.drop_last());
        lemma_happening(circuit.after_all(run.drop_last()), run.last());
    }
}

/// The payloads between one cell and the other: those that one node has
/// taken from its application are those that the other node has handed to
/// its application, followed by at most six that are still on their way.
pub open spec fn carried(from: Station, to: Station) -> bool {
    &&& to.delivered.len() <= from.injected.len() <= to.delivered.len() + 6
    &&& to.delivered == from.injected.subrange(0, to.delivered.len() as int)
}

/// Exactly once, in order, from cell to cell. Two nodes are set up and
/// started and their links entangled; the applications offer payloads, the
/// envelopes between the actors are handled in any order, and frames go
/// back and forth for as long as sequence numbers last. Then at every
/// moment no actor has reported a fault, no envelope has gone astray, and
/// what each cell has handed to its application is the beginning of what
/// the other cell has taken from its application: the same payloads in the
/// same order, none twice and none left out in between.
pub proof fn lemma_cell_to_cell(circuit: Circuit, run: Seq<Happening>)
    requires
        ready(circuit),
        circuit.admits(run),
    ensures
        ({
            let now = circuit.after_all(run);
            &&& carried(now.a, now.b)
            &&& carried(now.b, now.a)
            &&& now.a.faults == 0 && now.b.faults == 0
            &&& now.a.mail.stray.len() == 0 && now.b.mail.stray.len() == 0
        }),
{
    lemma_invariant_always(circuit, run);
    let now = circuit.after_all(run);
    let links = now.links;
    lemma_between(links);
    lemma_carried(now.a, now.b, links.a, links.b, links.sent_a, links.got_b);
    lemma_carried(now.b, now.a, links.b, links.a, links.sent_b, links.got_a);
}

/// Between two links at most two payloads are on their way, each way.
proof fn lemma_between(links: Duplex)
    requires
        links.inv(),
    ensures
        links.got_b.len() <= links.sent_a.len() <= links.got_b.len() + 2,
        links.got_b == links.sent_a.subrange(0, links.got_b.len() as int),
        links.got_a.len() <= links.sent_b.len() <= links.got_a.len() + 2,
        links.got_a == links.sent_b.subrange(0, links.got_a.len() as int),
{
    assert(links.forth().1 =~= links.forth().0.subrange(0, links.forth().1.len() as int));
    assert(links.back().1 =~= links.back().0.subrange(0, links.back().1.len() as int));
}

/// From cell to link, from link to link, and from link to cell.
proof fn lemma_carried(
    from: Station,
    to: Station,
    near: Link,
    far: Link,
    sent: Seq<Payload>,
    got: Seq<Payload>,
)
    requires
        from.wired(near),
        from.credits(near),
        from.outbound(sent),
        to.wired(far),
        to.credits(far),
        to.inbound(got),
        got.len() <= sent.len() <= got.len() + 2,
        got == sent.subrange(0, got.len() as int),
    ensures
        carried(from, to),
{
    let between = sent.subrange(got.len() as int, sent.len() as int);
    assert(sent =~= got + between);
    let ahead = to.mail.inward + waiting(to.hub.port_in[0]) + payloads(to.mail.port_write)
        + to.mail.link_write;
    let behind = payloads(from.mail.write) + payloads(from.mail.hub_write) + waiting(
        from.hub.cell_out,
    ) + payloads(from.mail.cell_write);
    assert(ahead.len() <= 2);
    assert(behind.len() <= 2);
    assert(got =~= to.delivered + ahead);
    assert(from.injected =~= sent + behind);
    assert(from.injected =~= to.delivered + (ahead + between + behind));
    assert(to.delivered =~= from.injected.subrange(0, to.delivered.len() as int));
}

/// There are circuits that are ready: for any names of the actors and any
/// payloads that the applications offer, the two started nodes with their
/// links at the first TICK make one.
pub proof fn lemma_ready_exists(
    names_a: Names,
    names_b: Names,
    wire: Cap,
    offered_a: Seq<Payload>,
    offered_b: Seq<Payload>,
) -> (circuit: Circuit)
    requires
        all_data(offered_a),
        all_data(offered_b),
    ensures
        ready(circuit),
        circuit.a.names == names_a,
        circuit.b.names == names_b,
        circuit.a.outbox == offered_a,
        circuit.b.outbox == offered_b,
{
    let token = Frame::spec_new_entangled(1, TICK, TICK);
    crate::frame::lemma_entangled_round_trip(1, TICK, TICK);
    crate::frame::lemma_decode_encode(token);
    let link_a = Link {
        state: LinkState::Init,
        reader: Some(names_a.port),
        ..Link::spec_create(wire, 1)
    };
    let link_b = Link {
        state: LinkState::Init,
        reader: Some(names_b.port),
        ..Link::spec_create(wire, 2)
    };
    let links = Duplex {
        a: link_a,
        b: link_b,
        token,
        to_b: false,
        sent_a: seq![],
        got_a: seq![],
        sent_b: seq![],
        got_b: seq![],
    };
    let a = lemma_started_exists(names_a, offered_a, link_a);
    let b = lemma_started_exists(names_b, offered_b, link_b);
    Circuit { a, b, links }
}

proof fn lemma_started_exists(names: Names, offered: Seq<Payload>, link: Link) -> (station:
    Station)
    requires
        all_data(offered),
        link.reader == Some(names.port),
        link.writer is None,
    ensures
        started(station, link),
        station.names == names,
        station.outbox == offered,
{
    Station {
        names,
        hub: HubView { myself: Some(names.hub), ..HubView::spec_create(seq![names.port]) },
        port: Port {
            myself: Some(names.port),
            hub: None,
            link: names.link,
            pollster: None,
            reader: Some(names.hub),
            writer: None,
        },
        mail: Mail {
            ready: 1,
            inward: seq![],
            cell_write: seq![],
            cell_read: seq![names.cell],
            port_write: seq![],
            port_read: seq![],
            hub_write: seq![],
            hub_read: seq![],
            link_write: seq![],
            link_read: 0,
            read: seq![],
            write: seq![],
            stray: seq![],
        },
        outbox: offered,
        injected: seq![],
        delivered: seq![],
        faults: 0,
    }
}

/// The outward side of a node is the same in `next` as in `station`.
pub open spec fn same_outward(next: Station, station: Station) -> bool {
    &&& next.outbox == station.outbox
    &&& next.injected == station.injected
    &&& next.mail.ready == station.mail.ready
    &&& next.mail.cell_write == station.mail.cell_write
    &&& next.mail.hub_write == station.mail.hub_write
    &&& next.mail.port_read == station.mail.port_read
    &&& next.mail.write == station.mail.write
    &&& next.mail.link_read == station.mail.link_read
    &&& next.hub.cell_out == station.hub.cell_out
    &&& next.hub.port_out == station.hub.port_out
    &&& next.port.writer == station.port.writer
}

/// The inward side of a node is the same in `next` as in `station`.
pub open spec fn same_inward(next: Station, station: Station) -> bool {
    &&& next.delivered == station.delivered
    &&& next.mail.inward == station.mail.inward
    &&& next.mail.cell_read == station.mail.cell_read
    &&& next.mail.port_write == station.mail.port_write
    &&& next.mail.hub_read == station.mail.hub_read
    &&& next.mail.link_write == station.mail.link_write
    &&& next.mail.read == station.mail.read
    &&& next.hub.cell_reader == station.hub.cell_reader
    &&& next.hub.port_in == station.hub.port_in
    &&& next.port.reader == station.port.reader
}

/// The cell takes the application's oldest payload and hands it to the hub.
proof fn lemma_cell_takes(station: Station, link: Link, sent: Seq<Payload>, got: Seq<Payload>)
    requires
        station.inv(link, sent, got),
        station.mail.ready > 0,
        station.outbox.len() > 0,
    ensures
        ({
            let next = station.after(Turn::CellReady);
            &&& next.mail.cell_write.len() == 1
            &&& next.injected == station.injected.push(station.outbox[0])
            &&& next.outbox == station.outbox.drop_first()
            &&& next.hub == station.hub
            &&& next.port == station.port
            &&& same_inward(next, station)
        }),
{
    let names = station.names;
    let opened = Mail { ready: (station.mail.ready - 1) as nat, ..station.mail };
    lemma_posted_one(
        opened,
        names,
        Envelope::Hub(names.hub, HubEvent::CellToHubWrite(names.cell, station.outbox[0])),
    );
}

/// The hub that holds the port's credit sends the cell's payload on to the port.
proof fn lemma_hub_forwards(station: Station, link: Link, sent: Seq<Payload>, got: Seq<Payload>)
    requires
        station.inv(link, sent, got),
        station.mail.cell_write.len() > 0,
        station.hub.port_out[0].reader is Some,
        station.hub.port_in[0].writer is None,
    ensures
        ({
            let next = station.after(Turn::HubCellWrite);
            &&& next.mail.hub_write.len() == 1
            &&& next.injected == station.injected
            &&& next.outbox == station.outbox
            &&& next.port == station.port
            &&& next.hub.cell_out.writer is Some
            &&& next.hub.cell_out.routes.len() == 0
            &&& same_inward(next, station)
        }),
{
    let mail = station.mail;
    let hub = station.hub;
    let names = station.names;
    let (from, payload) = mail.cell_write[0];
    let handed = Station {
        mail: Mail { cell_write: mail.cell_write.drop_first(), ..mail },
        hub: HubView {
            cell_out: PendingView {
                writer: Some(from),
                payload: Some(payload),
                routes: seq![Route::Port(0)],
            },
            ..hub
        },
        ..station
    };
    lemma_hub_cell_write(station, link, sent, got);
    assert(single(handed.hub));
    lemma_tried_single(handed.hub, names.hub);
    let tried = handed.hub.tried(names.hub);
    assert(Seq::<Envelope>::empty() + tried.1 =~= tried.1);
    assert(station.after(Turn::HubCellWrite) == handed.dispatched());
    let sent_now = seq![Envelope::Port(names.port, PortEvent::HubToPortWrite(names.hub, payload))];
    assert(tried.1 =~= sent_now);
    lemma_posted_one(handed.mail, names, sent_now[0]);
    assert(tried.0.port_in =~= hub.port_in);
}

/// The port hands the hub's payload to its link.
proof fn lemma_port_forwards(station: Station, link: Link, sent: Seq<Payload>, got: Seq<Payload>)
    requires
        station.inv(link, sent, got),
        station.mail.hub_write.len() > 0,
    ensures
        ({
            let next = station.after(Turn::PortHubWrite);
            &&& next.mail.write.len() == 1
            &&& next.injected == station.injected
            &&& next.outbox == station.outbox
            &&& next.hub == station.hub
            &&& next.port.writer is Some
            &&& same_inward(next, station)
        }),
{
    let names = station.names;
    let mail = station.mail;
    let opened = Mail { hub_write: mail.hub_write.drop_first(), ..mail };
    lemma_posted_one(
        opened,
        names,
        Envelope::Link(names.link, LinkEvent::Write(names.port, mail.hub_write[0].1)),
    );
}

/// The port hands the payload that its link released up to the hub.
proof fn lemma_port_hands_up(station: Station, link: Link, sent: Seq<Payload>, got: Seq<Payload>)
    requires
        station.inv(link, sent, got),
        station.mail.link_write.len() > 0,
    ensures
        ({
            let next = station.after(Turn::PortLinkWrite);
            &&& next.mail.port_write.len() == 1
            &&& next.mail.inward == station.mail.inward
            &&& next.mail.cell_read == station.mail.cell_read
            &&& next.delivered == station.delivered
            &&& next.hub == station.hub
            &&& same_outward(next, station)
        }),
{
    let names = station.names;
    let mail = station.mail;
    let opened = Mail { link_write: mail.link_write.drop_first(), ..mail };
    lemma_posted_one(
        opened,
        names,
        Envelope::Hub(names.hub, HubEvent::PortToHubWrite(names.port, mail.link_write[0])),
    );
}

/// The hub takes the cell's read credit; with no payload waiting for it,
/// nothing else happens.
proof fn lemma_hub_credited(station: Station, link: Link, sent: Seq<Payload>, got: Seq<Payload>)
    requires
        station.inv(link, sent, got),
        station.mail.cell_read.len() > 0,
        station.hub.port_in[0].writer is None,
        station.hub.cell_out.writer is None,
    ensures
        ({
            let next = station.after(Turn::HubCellRead);
            &&& next.hub.cell_reader is Some
            &&& next.hub.port_in == station.hub.port_in
            &&& next.mail.port_write == station.mail.port_write
            &&& next.mail.inward == station.mail.inward
            &&& next.delivered == station.delivered
            &&& same_outward(next, station)
        }),
{
    let mail = station.mail;
    let hub = station.hub;
    let names = station.names;
    let handed = Station {
        mail: Mail { cell_read: mail.cell_read.drop_first(), ..mail },
        hub: HubView { cell_reader: Some(mail.cell_read[0]), ..hub },
        ..station
    };
    lemma_hub_cell_read(station, link, sent, got);
    assert(single(handed.hub));
    lemma_tried_single(handed.hub, names.hub);
    let tried = handed.hub.tried(names.hub);
    assert(Seq::<Envelope>::empty() + tried.1 =~= tried.1);
    assert(station.after(Turn::HubCellRead) == handed.dispatched());
    assert(tried.1 =~= Seq::<Envelope>::empty());
    assert(tried.0.port_in =~= hub.port_in);
    assert(tried.0.port_out =~= hub.port_out);
}

/// The hub that holds the cell's credit sends the port's payload on to the cell.
proof fn lemma_hub_delivers(station: Station, link: Link, sent: Seq<Payload>, got: Seq<Payload>)
    requires
        station.inv(link, sent, got),
        station.mail.port_write.len() > 0,
        station.hub.cell_reader is Some,
        station.hub.cell_out.writer is None,
    ensures
        ({
            let next = station.after(Turn::HubPortWrite);
            &&& next.mail.inward.len() == 1
            &&& next.mail.cell_read == station.mail.cell_read
            &&& next.delivered == station.delivered
            &&& next.hub.port_in[0].writer is Some
            &&& next.hub.port_in[0].routes.len() == 0
            &&& same_outward(next, station)
        }),
{
    let mail = station.mail;
    let hub = station.hub;
    let names = station.names;
    let (from, payload) = mail.port_write[0];
    lemma_only_port(station, link);
    let handed = Station {
        mail: Mail { port_write: mail.port_write.drop_first(), ..mail },
        hub: HubView {
            port_in: hub.port_in.update(
                0,
                PendingView { writer: Some(from), payload: Some(payload), routes: seq![Route::Cell] },
            ),
            ..hub
        },
        ..station
    };
    lemma_hub_port_write(station, link, sent, got);
    let place = station.delivered.len() + mail.inward.len() + waiting(hub.port_in[0]).len();
    assert(got[place as int] == payload);
    assert(single(handed.hub));
    lemma_tried_single(handed.hub, names.hub);
    let tried = handed.hub.tried(names.hub);
    assert(Seq::<Envelope>::empty() + tried.1 =~= tried.1);
    assert(station.after(Turn::HubPortWrite) == handed.dispatched());
    let sent_now = seq![Envelope::Cell(names.cell, CellEvent::HubToCellWrite(payload))];
    assert(tried.1 =~= sent_now);
    lemma_posted_one(handed.mail, names, sent_now[0]);
    assert(tried.0.port_out =~= hub.port_out);
}

/// The cell hands the payload to the application.
proof fn lemma_cell_delivers(station: Station, link: Link, sent: Seq<Payload>, got: Seq<Payload>)
    requires
        station.inv(link, sent, got),
        station.mail.inward.len() > 0,
    ensures
        ({
            let next = station.after(Turn::CellInward { taken: true });
            &&& next.delivered == station.delivered.push(station.mail.inward[0])
            &&& next.mail.cell_read.len() == station.mail.cell_read.len() + 1
            &&& next.hub == station.hub
            &&& same_outward(next, station)
        }),
{
    let names = station.names;
    let mail = station.mail;
    let opened = Mail { inward: mail.inward.drop_first(), ..mail };
    lemma_posted_one(opened, names, Envelope::Hub(names.hub, HubEvent::CellToHubRead(names.cell)));
}

/// A frame that arrives changes the two links and, at the node it arrives
/// at, the mail from the link to the port; everything else stays.
proof fn lemma_frame_arrives(circuit: Circuit)
    requires
        circuit.inv(),
        circuit.links.token.spec_sequence() < u16::MAX,
    ensures
        ({
            let next = circuit.after(Happening::Frame);
            let at_b = circuit.links.to_b;
            let here = circuit.station(at_b);
            let there = next.station(at_b);
            &&& next.inv()
            &&& next.links == circuit.links.delivered()
            &&& next.station(!at_b) == circuit.station(!at_b)
            &&& there.hub == here.hub
            &&& there.port == here.port
            &&& there.outbox == here.outbox
            &&& there.injected == here.injected
            &&& there.delivered == here.delivered
            &&& there.mail.inward == here.mail.inward
            &&& there.mail.cell_read == here.mail.cell_read
            &&& there.mail.port_write == here.mail.port_write
            &&& there.mail.link_write.len() >= here.mail.link_write.len()
            &&& there.mail == (Mail {
                link_write: there.mail.link_write,
                link_read: there.mail.link_read,
                ..here.mail
            })
        }),
{
    reveal(Circuit::after);
    let links = circuit.links;
    let at_b = links.to_b;
    lemma_happening(circuit, Happening::Frame);
    lemma_answer(circuit.link(at_b), links.token);
    lemma_frame_mail(
        circuit.link(at_b),
        links.token,
        circuit.station(at_b).names,
        circuit.station(at_b).mail,
    );
}

/// `steps` is a run that can happen from `before` and that ends in `after`.
#[verifier::opaque]
pub open spec fn leads(before: Circuit, after: Circuit, steps: Seq<Happening>) -> bool {
    before.admits(steps) && before.after_all(steps) == after
}

/// A run goes on by one happening that can happen at its end.
proof fn lemma_goes_on(circuit: Circuit, run: Seq<Happening>, happening: Happening)
    requires
        circuit.admits(run),
        circuit.after_all(run).can(happening),
    ensures
        circuit.admits(run.push(happening)),
        circuit.after_all(run.push(happening)) == circuit.after_all(run).after(happening),
{
    assert(run.push(happening).drop_last() =~= run);
}

/// Four happenings, each of which can happen after the one before, make a run.
proof fn lemma_four(
    circuit: Circuit,
    first: Happening,
    second: Happening,
    third: Happening,
    fourth: Happening,
)
    requires
        circuit.can(first),
        circuit.after(first).can(second),
        circuit.after(first).after(second).can(third),
        circuit.after(first).after(second).after(third).can(fourth),
    ensures
        leads(
            circuit,
            circuit.after(first).after(second).after(third).after(fourth),
            seq![first, second, third, fourth],
        ),
{
    reveal(leads);
    let none = Seq::<Happening>::empty();
    lemma_goes_on(circuit, none, first);
    lemma_goes_on(circuit, none.push(first), second);
    lemma_goes_on(circuit, none.push(first).push(second), third);
    lemma_goes_on(circuit, none.push(first).push(second).push(third), fourth);
    assert(none.push(first).push(second).push(third).push(fourth) =~= seq![
        first,
        second,
        third,
        fourth,
    ]);
}

/// A run followed by a run is a run.
proof fn lemma_leads_on(
    start: Circuit,
    middle: Circuit,
    end: Circuit,
    head: Seq<Happening>,
    tail: Seq<Happening>,
)
    requires
        leads(start, middle, head),
        leads(middle, end, tail),
    ensures
        leads(start, end, head + tail),
    decreases tail.len(),
{
    reveal(leads);
    if tail.len() == 0 {
        assert(head + tail =~= head);
    } else {
        let before = middle.after_all(tail.drop_last());
        lemma_leads_on(start, middle, before, head, tail.drop_last());
        assert((head + tail).drop_last() =~= head + tail.drop_last());
        assert((head + tail).last() == tail.last());
    }
}

/// A turn at one node changes that node as `Station::after` says, and
/// nothing else.
proof fn lemma_turn_at(circuit: Circuit, at_b: bool, turn: Turn)
    requires
        circuit.inv(),
        circuit.station(at_b).can(turn),
    ensures
        ({
            let next = circuit.after(Happening::Turn { at_b, turn });
            &&& circuit.can(Happening::Turn { at_b, turn })
            &&& next.inv()
            &&& next.links == circuit.links
            &&& next.station(!at_b) == circuit.station(!at_b)
            &&& next.station(at_b) == circuit.station(at_b).after(turn)
        }),
{
    reveal(Circuit::after);
    lemma_happening(circuit, Happening::Turn { at_b, turn });
}

/// A payload that reaches the link of node `a` is queued there; the far
/// link and the frame under way stay as they are.
proof fn lemma_write_at(circuit: Circuit)
    requires
        circuit.inv(),
        circuit.a.mail.write.len() > 0,
    ensures
        ({
            let next = circuit.after(Happening::LinkWrite { at_b: false });
            &&& circuit.can(Happening::LinkWrite { at_b: false })
            &&& next.inv()
            &&& next.b == circuit.b
            &&& next.a.injected == circuit.a.injected
            &&& next.a.outbox == circuit.a.outbox
            &&& next.a.hub == circuit.a.hub
            &&& next.a.port == circuit.a.port
            &&& next.a.mail.write.len() == 0
            &&& next.links.a.outbound is Some
            &&& next.links.a.balance == circuit.links.a.balance
            &&& next.links.b == circuit.links.b
            &&& next.links.token == circuit.links.token
            &&& next.links.to_b == circuit.links.to_b
        }),
{
    reveal(Circuit::after);
    let links = circuit.links;
    lemma_link_write(circuit.a, links.a, links.sent_a, links.got_a);
    lemma_happening(circuit, Happening::LinkWrite { at_b: false });
}

/// The hub takes the cell's read credit and, the payload of the port being
/// through, gives the port its read credit back.
proof fn lemma_hub_recredited(station: Station, link: Link, sent: Seq<Payload>, got: Seq<Payload>)
    requires
        station.inv(link, sent, got),
        station.mail.cell_read.len() > 0,
        station.hub.port_in[0].writer is Some,
        station.hub.port_in[0].routes.len() == 0,
        station.hub.cell_out.writer is None,
    ensures
        ({
            let next = station.after(Turn::HubCellRead);
            &&& next.hub.cell_reader is Some
            &&& next.hub.port_in[0].writer is None
            &&& next.mail.hub_read.len() == 1
            &&& next.delivered == station.delivered
            &&& next.port == station.port
            &&& same_outward(next, station)
        }),
{
    let mail = station.mail;
    let hub = station.hub;
    let names = station.names;
    let handed = Station {
        mail: Mail { cell_read: mail.cell_read.drop_first(), ..mail },
        hub: HubView { cell_reader: Some(mail.cell_read[0]), ..hub },
        ..station
    };
    lemma_hub_cell_read(station, link, sent, got);
    assert(single(handed.hub));
    lemma_tried_single(handed.hub, names.hub);
    let tried = handed.hub.tried(names.hub);
    assert(Seq::<Envelope>::empty() + tried.1 =~= tried.1);
    assert(station.after(Turn::HubCellRead) == handed.dispatched());
    let sent_now = seq![Envelope::Port(names.port, PortEvent::HubToPortRead(names.hub))];
    assert(tried.1 =~= sent_now);
    lemma_posted_one(handed.mail, names, sent_now[0]);
    assert(tried.0.port_out =~= hub.port_out);
}

/// The port takes the hub's read credit and grants its link one.
proof fn lemma_port_recredited(station: Station, link: Link, sent: Seq<Payload>, got: Seq<Payload>)
    requires
        station.inv(link, sent, got),
        station.mail.hub_read.len() > 0,
    ensures
        ({
            let next = station.after(Turn::PortHubRead);
            &&& next.mail.read.len() == 1
            &&& next.hub == station.hub
            &&& next.delivered == station.delivered
            &&& same_outward(next, station)
        }),
{
    let names = station.names;
    let mail = station.mail;
    let opened = Mail { hub_read: mail.hub_read.drop_first(), ..mail };
    lemma_posted_one(opened, names, Envelope::Link(names.link, LinkEvent::Read(names.port)));
}

/// The port learns that its link has delivered the payload, and tells the hub.
proof fn lemma_port_done(station: Station, link: Link, sent: Seq<Payload>, got: Seq<Payload>)
    requires
        station.inv(link, sent, got),
        station.mail.link_read > 0,
    ensures
        ({
            let next = station.after(Turn::PortLinkRead);
            &&& next.mail.port_read.len() == 1
            &&& next.hub == station.hub
            &&& next.injected == station.injected
            &&& next.outbox == station.outbox
            &&& same_inward(next, station)
        }),
{
    let names = station.names;
    let mail = station.mail;
    let opened = Mail { link_read: (mail.link_read - 1) as nat, ..mail };
    lemma_posted_one(opened, names, Envelope::Hub(names.hub, HubEvent::PortToHubRead(names.port)));
}

/// The hub takes the port's credit back and, the payload of the cell being
/// through, tells the cell that it is ready for the next.
proof fn lemma_hub_done(station: Station, link: Link, sent: Seq<Payload>, got: Seq<Payload>)
    requires
        station.inv(link, sent, got),
        station.mail.port_read.len() > 0,
        station.hub.cell_out.writer is Some,
        station.hub.cell_out.routes.len() == 0,
        station.hub.port_in[0].writer is None,
    ensures
        ({
            let next = station.after(Turn::HubPortRead);
            &&& next.mail.ready == 1
            &&& next.hub.port_out[0].reader is Some
            &&& next.hub.cell_out.writer is None
            &&& next.injected == station.injected
            &&& next.outbox == station.outbox
            &&& same_inward(next, station)
        }),
{
    let mail = station.mail;
    let hub = station.hub;
    let names = station.names;
    lemma_only_port(station, link);
    let handed = Station {
        mail: Mail { port_read: mail.port_read.drop_first(), ..mail },
        hub: hub.with_reader(0, Some(mail.port_read[0])),
        ..station
    };
    lemma_hub_port_read(station, link, sent, got);
    assert(hub.port_out[0].ctrl =~= handed.hub.port_out[0].ctrl);
    assert(single(handed.hub));
    lemma_tried_single(handed.hub, names.hub);
    let tried = handed.hub.tried(names.hub);
    assert(Seq::<Envelope>::empty() + tried.1 =~= tried.1);
    assert(station.after(Turn::HubPortRead) == handed.dispatched());
    let sent_now = seq![Envelope::Cell(names.cell, CellEvent::HubToCellRead)];
    assert(tried.1 =~= sent_now);
    lemma_posted_one(handed.mail, names, sent_now[0]);
    assert(tried.0.port_in =~= hub.port_in);
}

/// A read credit that reaches the link of node `b` is held there; the near
/// link and the frame under way stay as they are.
proof fn lemma_read_at(circuit: Circuit)
    requires
        circuit.inv(),
        circuit.b.mail.read.len() > 0,
    ensures
        ({
            let next = circuit.after(Happening::LinkRead { at_b: true });
            &&& circuit.can(Happening::LinkRead { at_b: true })
            &&& next.inv()
            &&& next.a == circuit.a
            &&& next.b.delivered == circuit.b.delivered
            &&& next.b.hub == circuit.b.hub
            &&& next.links.b.reader is Some
            &&& next.links.a == circuit.links.a
            &&& next.links.token == circuit.links.token
            &&& next.links.to_b == circuit.links.to_b
        }),
{
    reveal(Circuit::after);
    let links = circuit.links;
    lemma_link_read(circuit.b, links.b, links.sent_b, links.got_b);
    lemma_happening(circuit, Happening::LinkRead { at_b: true });
}

/// The invariant, as one fact.
#[verifier::opaque]
pub open spec fn sound(circuit: Circuit) -> bool {
    circuit.inv()
}

/// A happening that can happen is a run of one.
proof fn lemma_leads_by(circuit: Circuit, happening: Happening)
    requires
        circuit.can(happening),
    ensures
        leads(circuit, circuit.after(happening), seq![happening]),
{
    reveal(leads);
    lemma_goes_on(circuit, Seq::<Happening>::empty(), happening);
    assert(Seq::<Happening>::empty().push(happening) =~= seq![happening]);
}

/// Two nodes between two transfers from `a` to `b`: every credit on the way
/// is where the next payload needs it, and a TICK is on its way to `a`.
pub open spec fn poised(circuit: Circuit) -> bool {
    &&& sound(circuit)
    &&& !circuit.links.to_b
    &&& circuit.links.token.spec_i_state() == TICK
    &&& circuit.links.a.balance == 0
    &&& circuit.links.b.reader is Some
    &&& circuit.a.mail.ready == 1
    &&& circuit.a.hub.port_out[0].reader is Some
    &&& circuit.a.hub.port_in[0].writer is None
    &&& circuit.b.hub.cell_reader is Some
    &&& circuit.b.hub.cell_out.writer is None
    &&& circuit.b.hub.port_out[0].reader is Some
}

/// At `a`, the cell takes the oldest payload offered.
proof fn lemma_step_cell_takes(circuit: Circuit)
    requires
        sound(circuit),
        circuit.a.mail.ready > 0,
        circuit.a.outbox.len() > 0,
    ensures
        ({
            let next = circuit.after(Happening::Turn { at_b: false, turn: Turn::CellReady });
            &&& circuit.can(Happening::Turn { at_b: false, turn: Turn::CellReady })
            &&& sound(next)
            &&& next.links == circuit.links
            &&& next.b == circuit.b
            &&& next.a.mail.cell_write.len() == 1
            &&& next.a.injected == circuit.a.injected.push(circuit.a.outbox[0])
            &&& next.a.outbox == circuit.a.outbox.drop_first()
            &&& next.a.hub == circuit.a.hub
        }),
{
    reveal(sound);
    let links = circuit.links;
    lemma_cell_takes(circuit.a, links.a, links.sent_a, links.got_a);
    lemma_turn_at(circuit, false, Turn::CellReady);
}

/// At `a`, the hub sends the payload on to the port.
proof fn lemma_step_hub_forwards(circuit: Circuit)
    requires
        sound(circuit),
        circuit.a.mail.cell_write.len() > 0,
        circuit.a.hub.port_out[0].reader is Some,
        circuit.a.hub.port_in[0].writer is None,
    ensures
        ({
            let next = circuit.after(Happening::Turn { at_b: false, turn: Turn::HubCellWrite });
            &&& circuit.can(Happening::Turn { at_b: false, turn: Turn::HubCellWrite })
            &&& sound(next)
            &&& next.links == circuit.links
            &&& next.b == circuit.b
            &&& next.a.mail.hub_write.len() == 1
            &&& next.a.injected == circuit.a.injected
            &&& next.a.outbox == circuit.a.outbox
            &&& next.a.hub.cell_out.writer is Some
            &&& next.a.hub.cell_out.routes.len() == 0
            &&& next.a.hub.port_in == circuit.a.hub.port_in
        }),
{
    reveal(sound);
    let links = circuit.links;
    lemma_hub_forwards(circuit.a, links.a, links.sent_a, links.got_a);
    lemma_turn_at(circuit, false, Turn::HubCellWrite);
}

/// At `a`, the port hands the payload to the link.
proof fn lemma_step_port_forwards(circuit: Circuit)
    requires
        sound(circuit),
        circuit.a.mail.hub_write.len() > 0,
    ensures
        ({
            let next = circuit.after(Happening::Turn { at_b: false, turn: Turn::PortHubWrite });
            &&& circuit.can(Happening::Turn { at_b: false, turn: Turn::PortHubWrite })
            &&& sound(next)
            &&& next.links == circuit.links
            &&& next.b == circuit.b
            &&& next.a.mail.write.len() == 1
            &&& next.a.injected == circuit.a.injected
            &&& next.a.outbox == circuit.a.outbox
            &&& next.a.hub == circuit.a.hub
            &&& next.a.port.writer is Some
        }),
{
    reveal(sound);
    let links = circuit.links;
    lemma_port_forwards(circuit.a, links.a, links.sent_a, links.got_a);
    lemma_turn_at(circuit, false, Turn::PortHubWrite);
}

/// At `a`, the port tells the hub that the payload is delivered.
proof fn lemma_step_port_done(circuit: Circuit)
    requires
        sound(circuit),
        circuit.a.mail.link_read > 0,
    ensures
        ({
            let next = circuit.after(Happening::Turn { at_b: false, turn: Turn::PortLinkRead });
            &&& circuit.can(Happening::Turn { at_b: false, turn: Turn::PortLinkRead })
            &&& sound(next)
            &&& next.links == circuit.links
            &&& next.b == circuit.b
            &&& next.a.mail.port_read.len() == 1
            &&& next.a.injected == circuit.a.injected
            &&& next.a.outbox == circuit.a.outbox
            &&& next.a.hub == circuit.a.hub
        }),
{
    reveal(sound);
    let links = circuit.links;
    lemma_port_done(circuit.a, links.a, links.sent_a, links.got_a);
    lemma_turn_at(circuit, false, Turn::PortLinkRead);
}

/// At `a`, the hub has its credit back and tells the cell.
proof fn lemma_step_hub_done(circuit: Circuit)
    requires
        sound(circuit),
        circuit.a.mail.port_read.len() > 0,
        circuit.a.hub.cell_out.writer is Some,
        circuit.a.hub.cell_out.routes.len() == 0,
        circuit.a.hub.port_in[0].writer is None,
    ensures
        ({
            let next = circuit.after(Happening::Turn { at_b: false, turn: Turn::HubPortRead });
            &&& circuit.can(Happening::Turn { at_b: false, turn: Turn::HubPortRead })
            &&& sound(next)
            &&& next.links == circuit.links
            &&& next.b == circuit.b
            &&& next.a.mail.ready == 1
            &&& next.a.injected == circuit.a.injected
            &&& next.a.outbox == circuit.a.outbox
            &&& next.a.hub.port_out[0].reader is Some
            &&& next.a.hub.port_in == circuit.a.hub.port_in
        }),
{
    reveal(sound);
    let links = circuit.links;
    lemma_hub_done(circuit.a, links.a, links.sent_a, links.got_a);
    lemma_turn_at(circuit, false, Turn::HubPortRead);
}

/// At `b`, the port hands the payload up to the hub.
proof fn lemma_step_port_hands_up(circuit: Circuit)
    requires
        sound(circuit),
        circuit.b.mail.link_write.len() > 0,
    ensures
        ({
            let next = circuit.after(Happening::Turn { at_b: true, turn: Turn::PortLinkWrite });
            &&& circuit.can(Happening::Turn { at_b: true, turn: Turn::PortLinkWrite })
            &&& sound(next)
            &&& next.links == circuit.links
            &&& next.a == circuit.a
            &&& next.b.mail.port_write.len() == 1
            &&& next.b.delivered == circuit.b.delivered
            &&& next.b.hub == circuit.b.hub
        }),
{
    reveal(sound);
    let links = circuit.links;
    lemma_port_hands_up(circuit.b, links.b, links.sent_b, links.got_b);
    lemma_turn_at(circuit, true, Turn::PortLinkWrite);
}

/// At `b`, the hub sends the payload on to the cell.
proof fn lemma_step_hub_delivers(circuit: Circuit)
    requires
        sound(circuit),
        circuit.b.mail.port_write.len() > 0,
        circuit.b.hub.cell_reader is Some,
        circuit.b.hub.cell_out.writer is None,
    ensures
        ({
            let next = circuit.after(Happening::Turn { at_b: true, turn: Turn::HubPortWrite });
            &&& circuit.can(Happening::Turn { at_b: true, turn: Turn::HubPortWrite })
            &&& sound(next)
            &&& next.links == circuit.links
            &&& next.a == circuit.a
            &&& next.b.mail.inward.len() == 1
            &&& next.b.delivered == circuit.b.delivered
            &&& next.b.hub.port_in[0].writer is Some
            &&& next.b.hub.port_in[0].routes.len() == 0
            &&& next.b.hub.cell_out == circuit.b.hub.cell_out
            &&& next.b.hub.port_out == circuit.b.hub.port_out
        }),
{
    reveal(sound);
    let links = circuit.links;
    lemma_hub_delivers(circuit.b, links.b, links.sent_b, links.got_b);
    lemma_turn_at(circuit, true, Turn::HubPortWrite);
}

/// At `b`, the cell hands the payload to the application.
proof fn lemma_step_cell_delivers(circuit: Circuit)
    requires
        sound(circuit),
        circuit.b.mail.inward.len() > 0,
    ensures
        ({
            let next = circuit.after(Happening::Turn { at_b: true, turn: Turn::CellInward { taken: true } });
            &&& circuit.can(Happening::Turn { at_b: true, turn: Turn::CellInward { taken: true } })
            &&& sound(next)
            &&& next.links == circuit.links
            &&& next.a == circuit.a
            &&& next.b.delivered.len() == circuit.b.delivered.len() + 1
            &&& next.b.mail.cell_read.len() > 0
            &&& next.b.hub == circuit.b.hub
        }),
{
    reveal(sound);
    let links = circuit.links;
    lemma_cell_delivers(circuit.b, links.b, links.sent_b, links.got_b);
    lemma_turn_at(circuit, true, Turn::CellInward { taken: true });
}

/// At `b`, the hub takes the cell's credit and gives the port its credit back.
proof fn lemma_step_hub_recredited(circuit: Circuit)
    requires
        sound(circuit),
        circuit.b.mail.cell_read.len() > 0,
        circuit.b.hub.port_in[0].writer is Some,
        circuit.b.hub.port_in[0].routes.len() == 0,
        circuit.b.hub.cell_out.writer is None,
    ensures
        ({
            let next = circuit.after(Happening::Turn { at_b: true, turn: Turn::HubCellRead });
            &&& circuit.can(Happening::Turn { at_b: true, turn: Turn::HubCellRead })
            &&& sound(next)
            &&& next.links == circuit.links
            &&& next.a == circuit.a
            &&& next.b.mail.hub_read.len() == 1
            &&& next.b.delivered == circuit.b.delivered
            &&& next.b.hub.cell_reader is Some
            &&& next.b.hub.cell_out == circuit.b.hub.cell_out
            &&& next.b.hub.port_out == circuit.b.hub.port_out
        }),
{
    reveal(sound);
    let links = circuit.links;
    lemma_hub_recredited(circuit.b, links.b, links.sent_b, links.got_b);
    lemma_turn_at(circuit, true, Turn::HubCellRead);
}

/// At `b`, the port takes the hub's credit and grants its link one.
proof fn lemma_step_port_recredited(circuit: Circuit)
    requires
        sound(circuit),
        circuit.b.mail.hub_read.len() > 0,
    ensures
        ({
            let next = circuit.after(Happening::Turn { at_b: true, turn: Turn::PortHubRead });
            &&& circuit.can(Happening::Turn { at_b: true, turn: Turn::PortHubRead })
            &&& sound(next)
            &&& next.links == circuit.links
            &&& next.a == circuit.a
            &&& next.b.mail.read.len() == 1
            &&& next.b.delivered == circuit.b.delivered
            &&& next.b.hub == circuit.b.hub
        }),
{
    reveal(sound);
    let links = circuit.links;
    lemma_port_recredited(circuit.b, links.b, links.sent_b, links.got_b);
    lemma_turn_at(circuit, true, Turn::PortHubRead);
}

/// At `a`, the link queues the payload.
proof fn lemma_step_write(circuit: Circuit)
    requires
        sound(circuit),
        circuit.a.mail.write.len() > 0,
    ensures
        ({
            let next = circuit.after(Happening::LinkWrite { at_b: false });
            &&& circuit.can(Happening::LinkWrite { at_b: false })
            &&& sound(next)
            &&& next.b == circuit.b
            &&& next.a.injected == circuit.a.injected
            &&& next.a.outbox == circuit.a.outbox
            &&& next.a.hub == circuit.a.hub
            &&& next.a.port == circuit.a.port
            &&& next.a.mail.write.len() == 0
            &&& next.links.a.outbound is Some
            &&& next.links.a.balance == circuit.links.a.balance
            &&& next.links.b == circuit.links.b
            &&& next.links.token == circuit.links.token
            &&& next.links.to_b == circuit.links.to_b
        }),
{
    reveal(sound);
    lemma_write_at(circuit);
}

/// At `b`, the link takes the read credit.
proof fn lemma_step_read(circuit: Circuit)
    requires
        sound(circuit),
        circuit.b.mail.read.len() > 0,
    ensures
        ({
            let next = circuit.after(Happening::LinkRead { at_b: true });
            &&& circuit.can(Happening::LinkRead { at_b: true })
            &&& sound(next)
            &&& next.a == circuit.a
            &&& next.b.delivered == circuit.b.delivered
            &&& next.b.hub == circuit.b.hub
            &&& next.links.b.reader is Some
            &&& next.links.a == circuit.links.a
            &&& next.links.token == circuit.links.token
            &&& next.links.to_b == circuit.links.to_b
        }),
{
    reveal(sound);
    lemma_read_at(circuit);
}

/// From the cell of `a` to its link, for the cycle.
proof fn lemma_cycle_out(circuit: Circuit) -> (done: (Circuit, Seq<Happening>))
    requires
        poised(circuit),
        circuit.a.outbox.len() > 0,
    ensures
        leads(circuit, done.0, done.1),
        done.1.len() == 4,
        sound(done.0),
        done.0.b == circuit.b,
        done.0.links.b == circuit.links.b,
        done.0.links.token == circuit.links.token,
        done.0.links.to_b == circuit.links.to_b,
        done.0.links.a.balance == circuit.links.a.balance,
        done.0.links.a.outbound is Some,
        done.0.a.injected == circuit.a.injected.push(circuit.a.outbox[0]),
        done.0.a.outbox == circuit.a.outbox.drop_first(),
        done.0.a.port.writer is Some,
        done.0.a.mail.write.len() == 0,
        done.0.a.hub.cell_out.writer is Some,
        done.0.a.hub.cell_out.routes.len() == 0,
        done.0.a.hub.port_in[0].writer is None,
{
    let first = Happening::Turn { at_b: false, turn: Turn::CellReady };
    lemma_step_cell_takes(circuit);
    let taken = circuit.after(first);
    let second = Happening::Turn { at_b: false, turn: Turn::HubCellWrite };
    lemma_step_hub_forwards(taken);
    let forwarded = taken.after(second);
    let third = Happening::Turn { at_b: false, turn: Turn::PortHubWrite };
    lemma_step_port_forwards(forwarded);
    let handed = forwarded.after(third);
    let fourth = Happening::LinkWrite { at_b: false };
    lemma_step_write(handed);
    lemma_four(circuit, first, second, third, fourth);
    (handed.after(fourth), seq![first, second, third, fourth])
}

/// Everything at the two nodes is in `next` as it is in `circuit`, but for
/// the mail from the links to their ports.
pub open spec fn kept(circuit: Circuit, next: Circuit) -> bool {
    &&& next.a.hub == circuit.a.hub
    &&& next.a.port == circuit.a.port
    &&& next.a.outbox == circuit.a.outbox
    &&& next.a.injected == circuit.a.injected
    &&& next.a.delivered == circuit.a.delivered
    &&& next.a.mail == (Mail {
        link_write: next.a.mail.link_write,
        link_read: next.a.mail.link_read,
        ..circuit.a.mail
    })
    &&& next.b.hub == circuit.b.hub
    &&& next.b.port == circuit.b.port
    &&& next.b.outbox == circuit.b.outbox
    &&& next.b.injected == circuit.b.injected
    &&& next.b.delivered == circuit.b.delivered
    &&& next.b.mail == (Mail {
        link_write: next.b.mail.link_write,
        link_read: next.b.mail.link_read,
        ..circuit.b.mail
    })
}

/// The two links after the frame under way has arrived, as one step.
#[verifier::opaque]
pub open spec fn moved(links: Duplex) -> Duplex {
    links.delivered()
}

/// A frame that arrives keeps everything at the two nodes but the mail from
/// the links to their ports.
proof fn lemma_frame_keeps(circuit: Circuit)
    requires
        sound(circuit),
        circuit.links.token.spec_sequence() < u16::MAX,
    ensures
        circuit.can(Happening::Frame),
        sound(circuit.after(Happening::Frame)),
        circuit.after(Happening::Frame).links == moved(circuit.links),
        kept(circuit, circuit.after(Happening::Frame)),
{
    reveal(sound);
    reveal(moved);
    lemma_frame_arrives(circuit);
}

/// The four frames of a transfer, seen at the links: TECK, TACK, TICK and
/// TICK again; the payload has left the near link and the far link has
/// released it.
proof fn lemma_links_across(links: Duplex)
    requires
        links.inv(),
        !links.to_b,
        links.token.spec_i_state() == TICK,
        links.token.spec_sequence() + 4 <= u16::MAX,
        links.a.outbound is Some,
        links.a.balance == 0,
        links.b.reader is Some,
        links.b.outbound is None,
    ensures
        moved(links).token.spec_sequence() == links.token.spec_sequence() + 1,
        moved(moved(links)).token.spec_sequence() == links.token.spec_sequence() + 2,
        moved(moved(moved(links))).token.spec_sequence() == links.token.spec_sequence() + 3,
        ({
            let end = moved(moved(moved(moved(links))));
            &&& !end.to_b
            &&& end.a.outbound is None
            &&& end.a.balance == 0
            &&& end.got_b.len() == links.got_b.len() + 1
            &&& end.token.spec_i_state() == TICK
            &&& end.token.spec_sequence() == links.token.spec_sequence() + 4
        }),
{
    reveal(moved);
    lemma_transfer_completes(links, links.a.outbound->Some_0);
}

/// At the end of the way across, the payload is with the far port, and the
/// word that it is delivered is with the near port.
proof fn lemma_across_end(start: Circuit, end: Circuit)
    requires
        sound(start),
        sound(end),
        kept(start, end),
        start.links.b.reader is Some,
        start.b.hub.cell_reader is Some,
        start.a.port.writer is Some,
        start.a.mail.write.len() == 0,
        end.links.got_b.len() == start.links.got_b.len() + 1,
        end.links.a.outbound is None,
    ensures
        end.b.mail.link_write.len() == 1,
        end.a.mail.link_read > 0,
{
    reveal(sound);
    assert(start.links.got_b.len() == start.b.delivered.len());
    assert(waiting(end.b.hub.port_in[0]).len() == 0);
    assert(payloads(end.b.mail.port_write).len() == 0);
}

/// From link to link, for the cycle.
proof fn lemma_cycle_across(circuit: Circuit) -> (done: (Circuit, Seq<Happening>))
    requires
        sound(circuit),
        !circuit.links.to_b,
        circuit.links.token.spec_i_state() == TICK,
        circuit.links.token.spec_sequence() + 4 <= u16::MAX,
        circuit.links.a.outbound is Some,
        circuit.links.a.balance == 0,
        circuit.links.b.reader is Some,
        circuit.links.b.outbound is None,
        circuit.b.hub.cell_reader is Some,
        circuit.a.port.writer is Some,
        circuit.a.mail.write.len() == 0,
    ensures
        leads(circuit, done.0, done.1),
        done.1.len() == 4,
        sound(done.0),
        !done.0.links.to_b,
        done.0.links.token.spec_i_state() == TICK,
        done.0.links.token.spec_sequence() == circuit.links.token.spec_sequence() + 4,
        done.0.links.a.balance == 0,
        done.0.a.hub == circuit.a.hub,
        done.0.a.injected == circuit.a.injected,
        done.0.a.outbox == circuit.a.outbox,
        done.0.a.mail.link_read > 0,
        done.0.b.hub == circuit.b.hub,
        done.0.b.delivered == circuit.b.delivered,
        done.0.b.mail.link_write.len() == 1,
{
    assert(circuit.links.inv()) by {
        reveal(sound);
    }
    lemma_links_across(circuit.links);
    lemma_frame_keeps(circuit);
    let teck = circuit.after(Happening::Frame);
    lemma_frame_keeps(teck);
    let tack = teck.after(Happening::Frame);
    lemma_frame_keeps(tack);
    let tick = tack.after(Happening::Frame);
    lemma_frame_keeps(tick);
    let end = tick.after(Happening::Frame);
    assert(kept(circuit, end));
    lemma_across_end(circuit, end);
    lemma_four(circuit, Happening::Frame, Happening::Frame, Happening::Frame, Happening::Frame);
    (end, seq![Happening::Frame, Happening::Frame, Happening::Frame, Happening::Frame])
}

/// Two happenings, the second of which can happen after the first, make a run.
proof fn lemma_two(circuit: Circuit, first: Happening, second: Happening)
    requires
        circuit.can(first),
        circuit.after(first).can(second),
    ensures
        leads(circuit, circuit.after(first).after(second), seq![first, second]),
{
    reveal(leads);
    let none = Seq::<Happening>::empty();
    lemma_goes_on(circuit, none, first);
    lemma_goes_on(circuit, none.push(first), second);
    assert(none.push(first).push(second) =~= seq![first, second]);
}

/// Three happenings, each of which can happen after the one before, make a run.
proof fn lemma_three(circuit: Circuit, first: Happening, second: Happening, third: Happening)
    requires
        circuit.can(first),
        circuit.after(first).can(second),
        circuit.after(first).after(second).can(third),
    ensures
        leads(
            circuit,
            circuit.after(first).after(second).after(third),
            seq![first, second, third],
        ),
{
    reveal(leads);
    let none = Seq::<Happening>::empty();
    lemma_goes_on(circuit, none, first);
    lemma_goes_on(circuit, none.push(first), second);
    lemma_goes_on(circuit, none.push(first).push(second), third);
    assert(none.push(first).push(second).push(third) =~= seq![first, second, third]);
}

/// A node whose hub holds the credit of its port has nothing on the way
/// out: its link holds no payload to send.
proof fn lemma_nothing_out(circuit: Circuit)
    requires
        sound(circuit),
        circuit.b.hub.port_out[0].reader is Some,
    ensures
        circuit.links.b.outbound is None,
{
    reveal(sound);
}

/// From the port of `b` to its application, for the cycle.
proof fn lemma_cycle_in(circuit: Circuit) -> (done: (Circuit, Seq<Happening>))
    requires
        sound(circuit),
        circuit.b.mail.link_write.len() == 1,
        circuit.b.hub.cell_reader is Some,
        circuit.b.hub.cell_out.writer is None,
    ensures
        leads(circuit, done.0, done.1),
        done.1.len() == 3,
        sound(done.0),
        done.0.a == circuit.a,
        done.0.links == circuit.links,
        done.0.b.delivered.len() == circuit.b.delivered.len() + 1,
        done.0.b.mail.cell_read.len() > 0,
        done.0.b.hub.port_in[0].writer is Some,
        done.0.b.hub.port_in[0].routes.len() == 0,
        done.0.b.hub.cell_out.writer is None,
        done.0.b.hub.port_out == circuit.b.hub.port_out,
{
    let first = Happening::Turn { at_b: true, turn: Turn::PortLinkWrite };
    lemma_step_port_hands_up(circuit);
    let up = circuit.after(first);
    let second = Happening::Turn { at_b: true, turn: Turn::HubPortWrite };
    lemma_step_hub_delivers(up);
    let inward = up.after(second);
    let third = Happening::Turn { at_b: true, turn: Turn::CellInward { taken: true } };
    lemma_step_cell_delivers(inward);
    lemma_three(circuit, first, second, third);
    (inward.after(third), seq![first, second, third])
}

/// The credits of `b` go back to where the next payload needs them.
proof fn lemma_cycle_far_credits(circuit: Circuit) -> (done: (Circuit, Seq<Happening>))
    requires
        sound(circuit),
        circuit.b.mail.cell_read.len() > 0,
        circuit.b.hub.port_in[0].writer is Some,
        circuit.b.hub.port_in[0].routes.len() == 0,
        circuit.b.hub.cell_out.writer is None,
    ensures
        leads(circuit, done.0, done.1),
        done.1.len() == 3,
        sound(done.0),
        done.0.a == circuit.a,
        done.0.links.a == circuit.links.a,
        done.0.links.token == circuit.links.token,
        done.0.links.to_b == circuit.links.to_b,
        done.0.links.b.reader is Some,
        done.0.b.delivered == circuit.b.delivered,
        done.0.b.hub.cell_reader is Some,
        done.0.b.hub.cell_out.writer is None,
        done.0.b.hub.port_out == circuit.b.hub.port_out,
{
    let first = Happening::Turn { at_b: true, turn: Turn::HubCellRead };
    lemma_step_hub_recredited(circuit);
    let credited = circuit.after(first);
    let second = Happening::Turn { at_b: true, turn: Turn::PortHubRead };
    lemma_step_port_recredited(credited);
    let granted = credited.after(second);
    let third = Happening::LinkRead { at_b: true };
    lemma_step_read(granted);
    lemma_three(circuit, first, second, third);
    (granted.after(third), seq![first, second, third])
}

/// The credits of `a` go back to where the next payload needs them.
proof fn lemma_cycle_near_credits(circuit: Circuit) -> (done: (Circuit, Seq<Happening>))
    requires
        sound(circuit),
        circuit.a.mail.link_read > 0,
        circuit.a.hub.cell_out.writer is Some,
        circuit.a.hub.cell_out.routes.len() == 0,
        circuit.a.hub.port_in[0].writer is None,
    ensures
        leads(circuit, done.0, done.1),
        done.1.len() == 2,
        sound(done.0),
        done.0.b == circuit.b,
        done.0.links == circuit.links,
        done.0.a.injected == circuit.a.injected,
        done.0.a.outbox == circuit.a.outbox,
        done.0.a.mail.ready == 1,
        done.0.a.hub.port_out[0].reader is Some,
        done.0.a.hub.port_in[0].writer is None,
{
    let first = Happening::Turn { at_b: false, turn: Turn::PortLinkRead };
    lemma_step_port_done(circuit);
    let told = circuit.after(first);
    let second = Happening::Turn { at_b: false, turn: Turn::HubPortRead };
    lemma_step_hub_done(told);
    lemma_two(circuit, first, second);
    (told.after(second), seq![first, second])
}

/// One payload, from application to application, and every credit back in
/// its place: sixteen happenings.
proof fn lemma_cycle(circuit: Circuit) -> (done: (Circuit, Seq<Happening>))
    requires
        poised(circuit),
        circuit.a.outbox.len() > 0,
        circuit.links.token.spec_sequence() + 4 <= u16::MAX,
    ensures
        leads(circuit, done.0, done.1),
        done.1.len() == 16,
        poised(done.0),
        done.0.links.token.spec_sequence() == circuit.links.token.spec_sequence() + 4,
        done.0.a.injected == circuit.a.injected.push(circuit.a.outbox[0]),
        done.0.a.outbox == circuit.a.outbox.drop_first(),
        done.0.b.delivered.len() == circuit.b.delivered.len() + 1,
{
    let out = lemma_cycle_out(circuit);
    lemma_nothing_out(out.0);
    let across = lemma_cycle_across(out.0);
    let inward = lemma_cycle_in(across.0);
    let far = lemma_cycle_far_credits(inward.0);
    let near = lemma_cycle_near_credits(far.0);
    lemma_leads_on(circuit, out.0, across.0, out.1, across.1);
    lemma_leads_on(circuit, across.0, inward.0, out.1 + across.1, inward.1);
    lemma_leads_on(circuit, inward.0, far.0, out.1 + across.1 + inward.1, far.1);
    lemma_leads_on(circuit, far.0, near.0, out.1 + across.1 + inward.1 + far.1, near.1);
    (near.0, out.1 + across.1 + inward.1 + far.1 + near.1)
}

/// The first `n` payloads that the application of `a` has offered, from
/// application to application, one cycle after the other.
proof fn lemma_cycles(circuit: Circuit, n: nat) -> (done: (Circuit, Seq<Happening>))
    requires
        poised(circuit),
        n <= circuit.a.outbox.len(),
        circuit.links.token.spec_sequence() + 4 * n <= u16::MAX,
    ensures
        leads(circuit, done.0, done.1),
        poised(done.0),
        done.0.a.injected == circuit.a.injected + circuit.a.outbox.subrange(0, n as int),
        done.0.b.delivered.len() == circuit.b.delivered.len() + n,
    decreases n,
{
    if n == 0 {
        reveal(leads);
        assert(circuit.a.injected + circuit.a.outbox.subrange(0, 0) =~= circuit.a.injected);
        (circuit, Seq::<Happening>::empty())
    } else {
        let first = lemma_cycle(circuit);
        let rest = lemma_cycles(first.0, (n - 1) as nat);
        lemma_leads_on(circuit, first.0, rest.0, first.1, rest.1);
        assert(rest.0.a.injected =~= circuit.a.injected + circuit.a.outbox.subrange(0, n as int)) by {
            let outbox = circuit.a.outbox;
            assert(outbox.drop_first().subrange(0, n - 1) =~= outbox.subrange(1, n as int));
            assert(seq![outbox[0]] + outbox.subrange(1, n as int) =~= outbox.subrange(0, n as int));
            assert(circuit.a.injected.push(outbox[0]) + outbox.subrange(1, n as int)
                =~= circuit.a.injected + (seq![outbox[0]] + outbox.subrange(1, n as int)));
        }
        (rest.0, first.1 + rest.1)
    }
}

/// Every payload arrives. When the circuit is ready and the first TICK is on
/// its way to `a`, there is a run at whose end the application of `b` has
/// got the first `n` payloads that the application of `a` has offered, in
/// the order in which it offered them, and nothing else; `n` is any number
/// up to that of the payloads offered, as long as sequence numbers last.
pub proof fn lemma_all_delivered(circuit: Circuit, n: nat) -> (run: Seq<Happening>)
    requires
        ready(circuit),
        !circuit.links.to_b,
        n <= circuit.a.outbox.len(),
        circuit.links.token.spec_sequence() + 4 * n <= u16::MAX,
    ensures
        circuit.admits(run),
        circuit.after_all(run).b.delivered == circuit.a.outbox.subrange(0, n as int),
        circuit.after_all(run).a.injected == circuit.a.outbox.subrange(0, n as int),
{
    let begun = lemma_begin(circuit);
    let done = lemma_cycles(begun.0, n);
    lemma_leads_on(circuit, begun.0, done.0, begun.1, done.1);
    let run = begun.1 + done.1;
    assert(begun.0.a.injected =~= Seq::<Payload>::empty());
    lemma_all_arrived(circuit, done.0, run, n);
    run
}

/// The hub of `b` takes its cell's first read credit: the circuit is poised.
proof fn lemma_begin(circuit: Circuit) -> (done: (Circuit, Seq<Happening>))
    requires
        ready(circuit),
        !circuit.links.to_b,
    ensures
        leads(circuit, done.0, done.1),
        poised(done.0),
        done.0.a.outbox == circuit.a.outbox,
        done.0.a.injected.len() == 0,
        done.0.b.delivered.len() == 0,
        done.0.links.token == circuit.links.token,
{
    reveal(sound);
    lemma_ready(circuit);
    let links = circuit.links;
    let first = Happening::Turn { at_b: true, turn: Turn::HubCellRead };
    lemma_hub_credited(circuit.b, links.b, links.sent_b, links.got_b);
    lemma_turn_at(circuit, true, Turn::HubCellRead);
    lemma_leads_by(circuit, first);
    (circuit.after(first), seq![first])
}

/// At the end of a run from a ready circuit, as many payloads handed over
/// as taken are the same payloads.
proof fn lemma_all_arrived(circuit: Circuit, end: Circuit, run: Seq<Happening>, n: nat)
    requires
        ready(circuit),
        n <= circuit.a.outbox.len(),
        leads(circuit, end, run),
        end.a.injected =~= Seq::<Payload>::empty() + circuit.a.outbox.subrange(0, n as int),
        end.b.delivered.len() == n,
    ensures
        circuit.admits(run),
        circuit.after_all(run) == end,
        end.a.injected == circuit.a.outbox.subrange(0, n as int),
        end.b.delivered == circuit.a.outbox.subrange(0, n as int),
{
    reveal(leads);
    lemma_cell_to_cell(circuit, run);
    assert(end.a.injected =~= circuit.a.outbox.subrange(0, n as int));
    assert(end.b.delivered =~= end.a.injected);
}

} // verus!
