//! The multi-port router: it moves payloads between the cell and the ports
//! on one-item credits, and re-routes around a port whose link has stopped.
use crate::actor::{lemma_port_num, port_to_port_num, reaction, spec_port_num, Actor, Cap, Envelope};
use crate::cell::CellEvent;
use crate::fault::Fault;
use crate::frame::{Payload, TreeId, FAILOVER_D, FAILOVER_R};
use crate::link::LinkState;
use crate::port::{PortEvent, PortStatus};
use std::collections::VecDeque;
use vstd::prelude::*;

verus! {

#[derive(Debug, Clone, Copy, PartialEq, Eq)]
pub enum HubEvent {
    /// The hub's own capability.
    Init(Cap),
    /// A port reports the state of its link.
    Status(Cap, PortStatus),
    /// A port hands up a payload that arrived.
    PortToHubWrite(Cap, Payload),
    /// A port is ready for the next outbound payload.
    PortToHubRead(Cap),
    /// The cell hands down a payload to send.
    CellToHubWrite(Cap, Payload),
    /// The cell is ready for the next inbound payload.
    CellToHubRead(Cap),
}

impl HubEvent {
    pub fn new_init(hub: &Cap) -> (event: HubEvent)
        ensures
            event == HubEvent::Init(*hub),
    {
        HubEvent::Init(*hub)
    }

    pub fn new_status(port: &Cap, status: &PortStatus) -> (event: HubEvent)
        ensures
            event == HubEvent::Status(*port, *status),
    {
        HubEvent::Status(*port, *status)
    }

    pub fn new_port_to_hub_write(port: &Cap, payload: &Payload) -> (event: HubEvent)
        ensures
            event == HubEvent::PortToHubWrite(*port, *payload),
    {
        HubEvent::PortToHubWrite(*port, *payload)
    }

    pub fn new_port_to_hub_read(port: &Cap) -> (event: HubEvent)
        ensures
            event == HubEvent::PortToHubRead(*port),
    {
        HubEvent::PortToHubRead(*port)
    }

    pub fn new_cell_to_hub_write(cell: &Cap, payload: &Payload) -> (event: HubEvent)
        ensures
            event == HubEvent::CellToHubWrite(*cell, *payload),
    {
        HubEvent::CellToHubWrite(*cell, *payload)
    }

    pub fn new_cell_to_hub_read(cell: &Cap) -> (event: HubEvent)
        ensures
            event == HubEvent::CellToHubRead(*cell),
    {
        HubEvent::CellToHubRead(*cell)
    }
}

/// The number of ports that a hub expects to serve.
pub const MAX_PORTS: usize = 3;

/// The tree that fail-over messages travel on.
pub const PEER_TREE: u32 = 0x8888;

/// The word that fills the 32-bit operand of a fail-over message.
pub const FAILOVER_MARK: u32 = 0x4455_6677;

/// Where a payload is to go.
#[derive(Debug, Clone, Copy, PartialEq, Eq, Structural)]
pub enum Route {
    Cell,
    Port(usize),
}

/// Inbound to the cell: the cell's credit for one payload.
#[derive(Debug, PartialEq, Eq)]
pub struct CellIn {
    pub reader: Option<Cap>,
}

/// Outbound from the cell: the payload that the cell handed down, and the
/// routes it has yet to be sent along.
#[derive(Debug, PartialEq, Eq)]
pub struct CellOut {
    pub writer: Option<Cap>,
    pub payload: Option<Payload>,
    pub send_to: Vec<Route>,
}

/// Inbound from a port: the payload that the port handed up, and the routes
/// it has yet to be sent along.
#[derive(Debug, PartialEq, Eq)]
pub struct PortIn {
    pub writer: Option<Cap>,
    pub payload: Option<Payload>,
    pub send_to: Vec<Route>,
}

/// Outbound to a port: the port's credit for one payload, and the control
/// messages that wait for it.
#[derive(Debug, PartialEq, Eq)]
pub struct PortOut {
    pub reader: Option<Cap>,
    pub ctrl_msgs: VecDeque<Payload>,
}

/// What a hub remembers of a port that stopped, until fail-over is done.
#[derive(Debug, Clone, Copy, PartialEq, Eq)]
pub struct Failover {
    /// The peer's FAILOVER_R, where it came before the port's own stop.
    pub payload_r: Option<Payload>,
    /// The stopped port's status, kept to answer the peer's FAILOVER_R.
    pub status_r: Option<PortStatus>,
    /// The stopped port's status, kept to settle the peer's FAILOVER_D.
    pub status_d: Option<PortStatus>,
}

/// A payload on its way through the hub, as a value.
pub struct PendingView {
    pub writer: Option<Cap>,
    pub payload: Option<Payload>,
    pub routes: Seq<Route>,
}

/// The outbound side of a port, as a value.
pub struct PortOutView {
    pub reader: Option<Cap>,
    pub ctrl: Seq<Payload>,
}

impl View for CellOut {
    type V = PendingView;

    open spec fn view(&self) -> PendingView {
        PendingView { writer: self.writer, payload: self.payload, routes: self.send_to@ }
    }
}

impl View for PortIn {
    type V = PendingView;

    open spec fn view(&self) -> PendingView {
        PendingView { writer: self.writer, payload: self.payload, routes: self.send_to@ }
    }
}

impl View for PortOut {
    type V = PortOutView;

    open spec fn view(&self) -> PortOutView {
        PortOutView { reader: self.reader, ctrl: self.ctrl_msgs@ }
    }
}

/// The hub of one node.
#[derive(Debug, PartialEq, Eq)]
pub struct Hub {
    pub myself: Option<Cap>,
    pub ports: Vec<Cap>,
    pub cell_in: CellIn,
    pub cell_out: CellOut,
    pub port_in: Vec<PortIn>,
    pub port_out: Vec<PortOut>,
    pub failover: Vec<Failover>,
    /// The port that payloads of the cell leave by.
    pub route_port: usize,
}

/// The inbound sides of the ports, as values.
pub open spec fn in_views(port_in: Seq<PortIn>) -> Seq<PendingView> {
    Seq::new(port_in.len(), |k: int| port_in[k]@)
}

/// The outbound sides of the ports, as values.
pub open spec fn out_views(port_out: Seq<PortOut>) -> Seq<PortOutView> {
    Seq::new(port_out.len(), |k: int| port_out[k]@)
}

/// The hub as a value.
pub struct HubView {
    pub myself: Option<Cap>,
    pub ports: Seq<Cap>,
    pub cell_reader: Option<Cap>,
    pub cell_out: PendingView,
    pub port_in: Seq<PendingView>,
    pub port_out: Seq<PortOutView>,
    pub failover: Seq<Failover>,
    pub route_port: usize,
}

impl View for Hub {
    type V = HubView;

    open spec fn view(&self) -> HubView {
        HubView {
            myself: self.myself,
            ports: self.ports@,
            cell_reader: self.cell_in.reader,
            cell_out: self.cell_out@,
            port_in: in_views(self.port_in@),
            port_out: out_views(self.port_out@),
            failover: self.failover@,
            route_port: self.route_port,
        }
    }
}

/// The octet that carries a balance in a fail-over message: the balance
/// modulo 256.
pub open spec fn balance_octet(balance: isize) -> u8 {
    (balance as int % 256) as u8
}

/// The balance that an octet of a fail-over message stands for: the octet as
/// a signed number.
pub open spec fn octet_balance(octet: u8) -> isize {
    if octet >= 128 {
        (octet - 256) as isize
    } else {
        octet as isize
    }
}

/// The fail-over message `op` that reports the balance and sequence number
/// of a stopped port.
pub open spec fn failover_msg(op: u8, status: PortStatus) -> Payload {
    Payload::spec_ctrl_msg(
        TreeId { id: PEER_TREE },
        op,
        balance_octet(status.activity.ait_balance),
        status.activity.sequence,
        FAILOVER_MARK,
    )
}

/// Every route to a port names one of `n` ports.
pub open spec fn routes_valid(routes: Seq<Route>, n: nat) -> bool {
    forall|k: int|
        0 <= k < routes.len() ==> (#[trigger] routes[k] matches Route::Port(to) ==> to < n)
}

/// `routes` with every route to port `from` turned to port `to`.
pub open spec fn rerouted(routes: Seq<Route>, from: usize, to: usize) -> Seq<Route> {
    Seq::new(
        routes.len(),
        |k: int|
            if routes[k] == Route::Port(from) {
                Route::Port(to)
            } else {
                routes[k]
            },
    )
}

/// The routes of a payload that came from `from`: what the cell sends leaves
/// by the port `route_port`, and what a port hands up goes to the cell. The
/// tree that the payload travels on does not enter into it yet.
pub open spec fn spec_find_routes(route_port: usize, from: Route, payload: Payload) -> Seq<Route> {
    match from {
        Route::Cell => seq![Route::Port(route_port)],
        Route::Port(_) => seq![Route::Cell],
    }
}

/// The port after `n` in the ring of `len` ports: where traffic of a stopped
/// port `n` goes.
pub open spec fn port_after(n: int, len: int) -> int {
    (n + 1) % len
}

/// The port before `n` in the ring of `len` ports: the port whose failure a
/// fail-over message on port `n` speaks of.
pub open spec fn port_before(n: int, len: int) -> int {
    if n < 1 {
        len - 1
    } else {
        n - 1
    }
}

/// The outcome of sending a payload along its routes.
pub struct Forwarded {
    /// The routes that were not ready, in their old order.
    pub routes: Seq<Route>,
    pub cell_reader: Option<Cap>,
    pub port_out: Seq<PortOutView>,
    pub sent: Seq<Envelope>,
}

/// Sends `payload` along the routes `todo`, first to last. A route whose
/// reader holds a credit takes the payload and uses the credit up; a route
/// without one is kept for later. `kept` and `sent` are the routes kept and
/// the envelopes sent so far.
pub open spec fn forward_from(
    hub: Cap,
    payload: Payload,
    todo: Seq<Route>,
    kept: Seq<Route>,
    cell_reader: Option<Cap>,
    port_out: Seq<PortOutView>,
    sent: Seq<Envelope>,
) -> Forwarded
    decreases todo.len(),
{
    if todo.len() == 0 {
        Forwarded { routes: kept, cell_reader, port_out, sent }
    } else {
        let rest = todo.drop_first();
        match todo[0] {
            Route::Cell => match cell_reader {
                Some(cell) => forward_from(
                    hub,
                    payload,
                    rest,
                    kept,
                    None,
                    port_out,
                    sent.push(Envelope::Cell(cell, CellEvent::HubToCellWrite(payload))),
                ),
                None => forward_from(
                    hub,
                    payload,
                    rest,
                    kept.push(todo[0]),
                    cell_reader,
                    port_out,
                    sent,
                ),
            },
            Route::Port(to) => if to < port_out.len() && port_out[to as int].reader is Some {
                forward_from(
                    hub,
                    payload,
                    rest,
                    kept,
                    cell_reader,
                    port_out.update(
                        to as int,
                        PortOutView { reader: None, ..port_out[to as int] },
                    ),
                    sent.push(
                        Envelope::Port(
                            port_out[to as int].reader->Some_0,
                            PortEvent::HubToPortWrite(hub, payload),
                        ),
                    ),
                )
            } else {
                forward_from(hub, payload, rest, kept.push(todo[0]), cell_reader, port_out, sent)
            },
        }
    }
}

/// Sends `payload` along `routes`, after the envelopes `sent`.
pub open spec fn forward(
    hub: Cap,
    payload: Payload,
    routes: Seq<Route>,
    cell_reader: Option<Cap>,
    port_out: Seq<PortOutView>,
    sent: Seq<Envelope>,
) -> Forwarded {
    forward_from(hub, payload, routes, seq![], cell_reader, port_out, sent)
}

impl HubView {
    /// The invariant: every port has its inbound side, its outbound side and
    /// its fail-over record; routes name ports that exist; a side without a
    /// writer has no routes left; and a port's early FAILOVER_R and its own
    /// status are never both kept.
    pub open spec fn wf(self) -> bool {
        &&& self.port_in.len() == self.ports.len()
        &&& self.port_out.len() == self.ports.len()
        &&& self.failover.len() == self.ports.len()
        &&& self.route_port < self.ports.len() || self.ports.len() == 0
        &&& routes_valid(self.cell_out.routes, self.ports.len())
        &&& self.cell_out.writer is None ==> self.cell_out.routes.len() == 0
        &&& forall|k: int|
            0 <= k < self.port_in.len() ==> routes_valid(
                (#[trigger] self.port_in[k]).routes,
                self.ports.len(),
            )
        &&& forall|k: int|
            0 <= k < self.port_in.len() ==> ((#[trigger] self.port_in[k]).writer is None
                ==> self.port_in[k].routes.len() == 0)
        &&& forall|k: int|
            0 <= k < self.failover.len() ==> !((#[trigger] self.failover[k]).payload_r is Some
                && self.failover[k].status_r is Some)
    }

    /// The hub with the credit of port `n` set to `reader`.
    pub open spec fn with_reader(self, n: int, reader: Option<Cap>) -> HubView {
        HubView {
            port_out: self.port_out.update(n, PortOutView { reader, ..self.port_out[n] }),
            ..self
        }
    }

    /// The hub with `msg` at the back of the control queue of port `n`.
    pub open spec fn with_ctrl_back(self, n: int, msg: Payload) -> HubView {
        HubView {
            port_out: self.port_out.update(
                n,
                PortOutView { ctrl: self.port_out[n].ctrl.push(msg), ..self.port_out[n] },
            ),
            ..self
        }
    }

    /// The hub with `msg` at the front of the control queue of port `n`.
    pub open spec fn with_ctrl_front(self, n: int, msg: Payload) -> HubView {
        HubView {
            port_out: self.port_out.update(
                n,
                PortOutView { ctrl: seq![msg] + self.port_out[n].ctrl, ..self.port_out[n] },
            ),
            ..self
        }
    }

    /// The hub with the fail-over record of port `n` replaced.
    pub open spec fn with_failover(self, n: int, record: Failover) -> HubView {
        HubView { failover: self.failover.update(n, record), ..self }
    }

    /// The hub with port `to` as the way out in place of port `from`: for the
    /// payload of the cell that still waits, and for those to come.
    pub open spec fn with_route(self, from: usize, to: usize) -> HubView {
        HubView {
            cell_out: PendingView {
                routes: rerouted(self.cell_out.routes, from, to),
                ..self.cell_out
            },
            route_port: to,
            ..self
        }
    }

    /// Control messages first: each of the first `n` ports that holds a
    /// credit and has a control message waiting is sent the oldest one.
    pub open spec fn drained(self, myself: Cap, n: int) -> (Seq<PortOutView>, Seq<Envelope>)
        decreases n,
    {
        if n <= 0 {
            (self.port_out, seq![])
        } else {
            let (port_out, sent) = self.drained(myself, n - 1);
            let out = self.port_out[n - 1];
            if out.reader is Some && out.ctrl.len() > 0 {
                (
                    port_out.update(
                        n - 1,
                        PortOutView { reader: None, ctrl: out.ctrl.drop_first() },
                    ),
                    sent.push(
                        Envelope::Port(
                            out.reader->Some_0,
                            PortEvent::HubToPortWrite(myself, out.ctrl[0]),
                        ),
                    ),
                )
            } else {
                (port_out, sent)
            }
        }
    }

    /// One waiting payload is offered to its routes. While routes are left it
    /// goes to those that are ready; once none is left its writer is told, by
    /// `ack`, that the payload is through.
    pub open spec fn offered(
        myself: Cap,
        pending: PendingView,
        ack: Envelope,
        cell_reader: Option<Cap>,
        port_out: Seq<PortOutView>,
        sent: Seq<Envelope>,
    ) -> (PendingView, Forwarded) {
        if pending.writer is Some && pending.payload is Some {
            if pending.routes.len() > 0 {
                let forwarded = forward(
                    myself,
                    pending.payload->Some_0,
                    pending.routes,
                    cell_reader,
                    port_out,
                    sent,
                );
                (PendingView { routes: forwarded.routes, ..pending }, forwarded)
            } else {
                (
                    PendingView { writer: None, payload: None, ..pending },
                    Forwarded { routes: pending.routes, cell_reader, port_out, sent: sent.push(ack) },
                )
            }
        } else {
            (pending, Forwarded { routes: pending.routes, cell_reader, port_out, sent })
        }
    }

    /// The acknowledgement that the writer of `pending` is owed when its
    /// payload is through: to a port, a read credit from the hub.
    pub open spec fn port_ack(myself: Cap, pending: PendingView) -> Envelope {
        Envelope::Port(pending.writer->Some_0, PortEvent::HubToPortRead(myself))
    }

    /// The acknowledgement that the cell is owed when its payload is through.
    pub open spec fn cell_ack(pending: PendingView) -> Envelope {
        Envelope::Cell(pending.writer->Some_0, CellEvent::HubToCellRead)
    }

    /// The payloads of the first `n` ports are offered to their routes, port by port.
    pub open spec fn ports_offered(
        self,
        myself: Cap,
        n: int,
        cell_reader: Option<Cap>,
        port_out: Seq<PortOutView>,
        sent: Seq<Envelope>,
    ) -> (Seq<PendingView>, Forwarded)
        decreases n,
    {
        if n <= 0 {
            (self.port_in, Forwarded { routes: seq![], cell_reader, port_out, sent })
        } else {
            let (port_in, before) = self.ports_offered(myself, n - 1, cell_reader, port_out, sent);
            let (pending, after) = HubView::offered(
                myself,
                self.port_in[n - 1],
                HubView::port_ack(myself, self.port_in[n - 1]),
                before.cell_reader,
                before.port_out,
                before.sent,
            );
            (port_in.update(n - 1, pending), after)
        }
    }

    /// Offering the payloads of the first `n` ports leaves the other ports'
    /// inbound sides as they were.
    pub proof fn lemma_ports_offered_rest(
        self,
        myself: Cap,
        n: int,
        cell_reader: Option<Cap>,
        port_out: Seq<PortOutView>,
        sent: Seq<Envelope>,
    )
        requires
            n <= self.port_in.len(),
        ensures
            self.ports_offered(myself, n, cell_reader, port_out, sent).0.len()
                == self.port_in.len(),
            forall|j: int|
                n <= j < self.port_in.len() && 0 <= j ==> self.ports_offered(
                    myself,
                    n,
                    cell_reader,
                    port_out,
                    sent,
                ).0[j] == self.port_in[j],
        decreases n,
    {
        if n > 0 {
            self.lemma_ports_offered_rest(myself, n - 1, cell_reader, port_out, sent);
        }
    }

    /// The dispatcher, run after every change: control messages are drained
    /// into the ports' credits, then the payload of the cell is offered to
    /// its routes, then the payload of each port.
    pub open spec fn tried(self, myself: Cap) -> (HubView, Seq<Envelope>) {
        let (drained, ctrl) = self.drained(myself, self.port_out.len() as int);
        let (cell_out, first) = HubView::offered(
            myself,
            self.cell_out,
            HubView::cell_ack(self.cell_out),
            self.cell_reader,
            drained,
            ctrl,
        );
        let (port_in, last) = self.ports_offered(
            myself,
            self.port_in.len() as int,
            first.cell_reader,
            first.port_out,
            first.sent,
        );
        (
            HubView {
                cell_reader: last.cell_reader,
                cell_out,
                port_in,
                port_out: last.port_out,
                ..self
            },
            last.sent,
        )
    }
}

impl Hub {
    /// Sends `payload` along `routes`: each route whose reader holds a credit
    /// gets the payload and leaves the list.
    fn send_to_routes(
        hub: &Cap,
        payload: &Payload,
        routes: &mut Vec<Route>,
        cell_in: &mut CellIn,
        port_out: &mut Vec<PortOut>,
        sent: &mut Vec<Envelope>,
    )
        requires
            routes_valid(old(routes)@, old(port_out)@.len()),
        ensures
            ({
                let forwarded = forward(
                    *hub,
                    *payload,
                    old(routes)@,
                    old(cell_in).reader,
                    out_views(old(port_out)@),
                    old(sent)@,
                );
                &&& final(routes)@ == forwarded.routes
                &&& final(cell_in).reader == forwarded.cell_reader
                &&& out_views(final(port_out)@) == forwarded.port_out
                &&& final(sent)@ == forwarded.sent
            }),
            final(port_out)@.len() == old(port_out)@.len(),
            routes_valid(final(routes)@, final(port_out)@.len()),
    {
        let mut i: usize = 0;
        proof {
            assert(routes@.subrange(0, routes@.len() as int) =~= routes@);
            assert(routes@.subrange(0, 0) =~= seq![]);
        }
        while i < routes.len()
            invariant
                i <= routes@.len(),
                routes_valid(routes@, port_out@.len()),
                port_out@.len() == old(port_out)@.len(),
                forward_from(
                    *hub,
                    *payload,
                    routes@.subrange(i as int, routes@.len() as int),
                    routes@.subrange(0, i as int),
                    cell_in.reader,
                    out_views(port_out@),
                    sent@,
                ) == forward(
                    *hub,
                    *payload,
                    old(routes)@,
                    old(cell_in).reader,
                    out_views(old(port_out)@),
                    old(sent)@,
                ),
            decreases routes@.len() - i,
        {
            let ghost before = routes@;
            let ghost todo = before.subrange(i as int, before.len() as int);
            let ghost kept = before.subrange(0, i as int);
            let ghost views = out_views(port_out@);
            proof {
                assert(todo[0] == before[i as int]);
                assert(todo.drop_first() =~= before.subrange(i + 1, before.len() as int));
                assert(before.subrange(0, i + 1) =~= kept.push(before[i as int]));
            }
            match routes[i] {
                Route::Cell => {
                    if let Some(cell) = cell_in.reader {
                        sent.push(Envelope::Cell(cell, CellEvent::new_hub_to_cell_write(payload)));
                        cell_in.reader = None;
                        routes.remove(i);
                        proof {
                            assert(routes@.subrange(i as int, routes@.len() as int)
                                =~= todo.drop_first());
                            assert(routes@.subrange(0, i as int) =~= kept);
                        }
                    } else {
                        i += 1;
                    }
                },
                Route::Port(to) => {
                    assert(to < port_out@.len());
                    if let Some(port) = port_out[to].reader {
                        sent.push(
                            Envelope::Port(port, PortEvent::new_hub_to_port_write(hub, payload)),
                        );
                        port_out[to].reader = None;
                        routes.remove(i);
                        proof {
                            assert(routes@.subrange(i as int, routes@.len() as int)
                                =~= todo.drop_first());
                            assert(routes@.subrange(0, i as int) =~= kept);
                            assert(out_views(port_out@) =~= views.update(
                                to as int,
                                PortOutView { reader: None, ..views[to as int] },
                            ));
                        }
                    } else {
                        i += 1;
                    }
                },
            }
        }
        proof {
            assert(routes@.subrange(0, i as int) =~= routes@);
        }
    }

    /// Sends the oldest control message to each port that holds a credit.
    fn drain_ctrl(&mut self, myself: &Cap, sent: &mut Vec<Envelope>)
        requires
            old(sent)@.len() == 0,
        ensures
            out_views(final(self).port_out@) == old(self)@.drained(
                *myself,
                old(self).port_out@.len() as int,
            ).0,
            final(sent)@ == old(self)@.drained(*myself, old(self).port_out@.len() as int).1,
            final(self)@ == (HubView { port_out: out_views(final(self).port_out@), ..old(self)@ }),
            final(self).port_out@.len() == old(self).port_out@.len(),
    {
        let mut k: usize = 0;
        while k < self.port_out.len()
            invariant
                k <= self.port_out@.len(),
                self.port_out@.len() == old(self).port_out@.len(),
                self@ == (HubView { port_out: out_views(self.port_out@), ..old(self)@ }),
                out_views(self.port_out@) == old(self)@.drained(*myself, k as int).0,
                sent@ == old(self)@.drained(*myself, k as int).1,
                forall|j: int|
                    k <= j < self.port_out@.len() ==> self.port_out@[j]@ == old(self).port_out@[j]@,
            decreases self.port_out@.len() - k,
        {
            let ghost views = out_views(self.port_out@);
            let ghost out = self.port_out@[k as int]@;
            assert(out == old(self)@.port_out[k as int]);
            if let Some(port) = self.port_out[k].reader {
                if let Some(payload) = self.port_out[k].ctrl_msgs.pop_front() {
                    sent.push(Envelope::Port(port, PortEvent::new_hub_to_port_write(myself, &payload)));
                    self.port_out[k].reader = None;
                    proof {
                        assert(out_views(self.port_out@) =~= views.update(
                            k as int,
                            PortOutView { reader: None, ctrl: out.ctrl.drop_first() },
                        ));
                    }
                } else {
                    proof {
                        assert(out_views(self.port_out@) =~= views);
                    }
                }
            }
            k += 1;
        }
    }
}

impl Hub {
    /// The dispatcher: drains control messages, then offers the payload of
    /// the cell and the payload of each port to their routes.
    fn try_everyone(&mut self, myself: &Cap) -> (sent: Vec<Envelope>)
        requires
            old(self)@.wf(),
        ensures
            (final(self)@, sent@) == old(self)@.tried(*myself),
            final(self)@.wf(),
    {
        let mut sent: Vec<Envelope> = Vec::new();
        self.drain_ctrl(myself, &mut sent);
        let ghost drained = self@;
        let ghost ctrl = sent@;
        assert(drained.wf());
        if let Some(cell) = self.cell_out.writer {
            if let Some(payload) = self.cell_out.payload {
                if self.cell_out.send_to.len() > 0 {
                    Hub::send_to_routes(
                        myself,
                        &payload,
                        &mut self.cell_out.send_to,
                        &mut self.cell_in,
                        &mut self.port_out,
                        &mut sent,
                    );
                } else {
                    sent.push(Envelope::Cell(cell, CellEvent::new_hub_to_cell_read()));
                    self.cell_out.writer = None;
                    self.cell_out.payload = None;
                }
            }
        }
        let ghost first = HubView::offered(
            *myself,
            drained.cell_out,
            HubView::cell_ack(drained.cell_out),
            drained.cell_reader,
            drained.port_out,
            ctrl,
        );
        let ghost mid = self@;
        assert(mid == (HubView {
            cell_reader: first.1.cell_reader,
            cell_out: first.0,
            port_out: first.1.port_out,
            ..drained
        }));
        assert(mid.wf());
        let mut from: usize = 0;
        while from < self.port_in.len()
            invariant
                from <= self.port_in@.len(),
                mid.wf(),
                mid.port_in == old(self)@.port_in,
                self@.wf(),
                self@ == (HubView {
                    cell_reader: self.cell_in.reader,
                    port_in: in_views(self.port_in@),
                    port_out: out_views(self.port_out@),
                    ..mid
                }),
                in_views(self.port_in@) == old(self)@.ports_offered(
                    *myself,
                    from as int,
                    mid.cell_reader,
                    mid.port_out,
                    first.1.sent,
                ).0,
                ({
                    let so_far = old(self)@.ports_offered(
                        *myself,
                        from as int,
                        mid.cell_reader,
                        mid.port_out,
                        first.1.sent,
                    ).1;
                    &&& self.cell_in.reader == so_far.cell_reader
                    &&& out_views(self.port_out@) == so_far.port_out
                    &&& sent@ == so_far.sent
                }),
            decreases self.port_in@.len() - from,
        {
            let ghost before = in_views(self.port_in@);
            let ghost pending = before[from as int];
            let ghost reader_before = self.cell_in.reader;
            let ghost out_before = out_views(self.port_out@);
            let ghost sent_before = sent@;
            proof {
                old(self)@.lemma_ports_offered_rest(
                    *myself,
                    from as int,
                    mid.cell_reader,
                    mid.port_out,
                    first.1.sent,
                );
            }
            assert(pending == old(self)@.port_in[from as int]);
            if let Some(port) = self.port_in[from].writer {
                if let Some(payload) = self.port_in[from].payload {
                    if self.port_in[from].send_to.len() > 0 {
                        Hub::send_to_routes(
                            myself,
                            &payload,
                            &mut self.port_in[from].send_to,
                            &mut self.cell_in,
                            &mut self.port_out,
                            &mut sent,
                        );
                    } else {
                        sent.push(Envelope::Port(port, PortEvent::new_hub_to_port_read(myself)));
                        self.port_in[from].writer = None;
                        self.port_in[from].payload = None;
                    }
                }
            }
            proof {
                let offered = HubView::offered(
                    *myself,
                    pending,
                    HubView::port_ack(*myself, pending),
                    reader_before,
                    out_before,
                    sent_before,
                );
                assert(in_views(self.port_in@) =~= before.update(from as int, offered.0));
            }
            from += 1;
        }
        sent
    }
}

impl HubView {
    /// The hub as it is created for `ports`: every port holds a credit, and
    /// payloads of the cell leave by the first port.
    pub open spec fn spec_create(ports: Seq<Cap>) -> HubView {
        HubView {
            myself: None,
            ports,
            cell_reader: None,
            cell_out: PendingView { writer: None, payload: None, routes: seq![] },
            port_in: Seq::new(
                ports.len(),
                |k: int| PendingView { writer: None, payload: None, routes: seq![] },
            ),
            port_out: Seq::new(
                ports.len(),
                |k: int| PortOutView { reader: Some(ports[k]), ctrl: seq![] },
            ),
            failover: Seq::new(
                ports.len(),
                |k: int| Failover { payload_r: None, status_r: None, status_d: None },
            ),
            route_port: 0,
        }
    }

    /// What a new hub sends: its own capability to itself, and to each of
    /// the first `n` ports, in port order, the port's capability with the
    /// hub's, and the request to start.
    pub open spec fn greetings(myself: Cap, ports: Seq<Cap>, n: int) -> Seq<Envelope>
        decreases n,
    {
        if n <= 0 {
            seq![Envelope::Hub(myself, HubEvent::Init(myself))]
        } else {
            HubView::greetings(myself, ports, n - 1).push(
                Envelope::Port(ports[n - 1], PortEvent::Init(ports[n - 1], myself)),
            ).push(Envelope::Port(ports[n - 1], PortEvent::Start(myself)))
        }
    }

    /// The dispatcher runs, after the envelopes `first` have been sent.
    pub open spec fn then_tried(self, myself: Cap, first: Seq<Envelope>) -> (
        HubView,
        Result<Seq<Envelope>, Fault>,
    ) {
        (self.tried(myself).0, Ok(first + self.tried(myself).1))
    }

    /// Port `n` has stopped. Its credit is void; the next port in the ring
    /// takes over as the way out; the stopped port's status is kept; and the
    /// peer is told FAILOVER_R by the next port, with the stopped port's
    /// balance and sequence number. If the peer's FAILOVER_R is here
    /// already, FAILOVER_D follows at once.
    pub open spec fn on_stopped(self, n: int, status: PortStatus) -> HubView {
        let m = port_after(n, self.ports.len() as int);
        let early = self.failover[n].payload_r is Some;
        let asked = self.with_reader(n, None).with_ctrl_back(m, failover_msg(FAILOVER_R, status));
        let told = if early {
            asked.with_ctrl_back(m, failover_msg(FAILOVER_D, status))
        } else {
            asked
        };
        let record = if early {
            Failover { payload_r: None, status_d: Some(status), ..self.failover[n] }
        } else {
            Failover { status_r: Some(status), status_d: Some(status), ..self.failover[n] }
        };
        told.with_failover(n, record).with_route(n as usize, m as usize)
    }

    /// Whether the payload that the stopped port held must be sent again: it
    /// was sent and the peer never took it, or it was never sent.
    pub open spec fn must_resend(status: PortStatus, peer_balance: isize) -> bool {
        ||| status.activity.ait_balance == -1 && peer_balance == 0
        ||| status.activity.ait_balance == 0 && status.outbound is Some
    }

    /// The peer's FAILOVER_R came in on port `n`: it speaks of the port
    /// before. If that port has stopped here, FAILOVER_D answers by port `n`;
    /// if not, the message is kept until it stops.
    pub open spec fn on_failover_r(self, n: int, payload: Payload) -> HubView {
        let m = port_before(n, self.ports.len() as int);
        match self.failover[m].status_r {
            Some(status) => self.with_ctrl_back(n, failover_msg(FAILOVER_D, status)).with_failover(
                m,
                Failover { status_r: None, ..self.failover[m] },
            ),
            None => self.with_failover(m, Failover { payload_r: Some(payload), ..self.failover[m] }),
        }
    }

    /// The peer's FAILOVER_D came in on port `n`; `status` is what the port
    /// before reported when it stopped. A payload that must be sent again
    /// goes to the front of port `n`'s control queue; port `n` is the way
    /// out from now on; and the stopped port gets a credit again unless it
    /// still has a payload with the hub.
    pub open spec fn on_failover_d(self, n: int, status: PortStatus, payload: Payload) -> HubView {
        let m = port_before(n, self.ports.len() as int);
        let queued = if HubView::must_resend(status, octet_balance(payload.spec_u8())) {
            self.with_ctrl_front(n, status.outbound->Some_0)
        } else {
            self
        };
        let routed = queued.with_route(m as usize, n as usize);
        let credited = if self.port_in[m].payload is None {
            routed.with_reader(m, Some(self.ports[m]))
        } else {
            routed
        };
        credited.with_failover(m, Failover { status_d: None, ..self.failover[m] })
    }

    /// A control payload came in on port `n` from `cust`. Whatever it says,
    /// the port gets its read credit back and the dispatcher runs.
    pub open spec fn on_ctrl(self, myself: Cap, n: int, cust: Cap, payload: Payload) -> (
        HubView,
        Result<Seq<Envelope>, Fault>,
    ) {
        let m = port_before(n, self.ports.len() as int);
        let ack = Envelope::Port(cust, PortEvent::HubToPortRead(myself));
        if payload.spec_op() == FAILOVER_R {
            self.on_failover_r(n, payload).then_tried(myself, seq![ack])
        } else if payload.spec_op() == FAILOVER_D {
            match self.failover[m].status_d {
                None => (self, Err(Fault::UnexpectedEvent)),
                Some(status) => if HubView::must_resend(status, octet_balance(payload.spec_u8()))
                    && status.outbound is None {
                    (self, Err(Fault::UnexpectedEvent))
                } else {
                    self.on_failover_d(n, status, payload).then_tried(
                        myself,
                        seq![Envelope::Port(self.ports[m], PortEvent::Start(myself)), ack],
                    )
                },
            }
        } else {
            self.then_tried(myself, seq![ack])
        }
    }

    /// A payload came in on port `n` from `cust`.
    pub open spec fn on_port_write(self, n: int, cust: Cap, payload: Payload) -> (
        HubView,
        Result<Seq<Envelope>, Fault>,
    ) {
        if payload.ctrl {
            match self.myself {
                None => (self, Err(Fault::NotInitialized)),
                Some(myself) => self.on_ctrl(myself, n, cust, payload),
            }
        } else if self.port_in[n].writer is Some {
            (self, Err(Fault::CreditDuplicated))
        } else {
            match self.myself {
                None => (self, Err(Fault::NotInitialized)),
                Some(myself) => (HubView {
                    port_in: self.port_in.update(
                        n,
                        PendingView {
                            writer: Some(cust),
                            payload: Some(payload),
                            routes: spec_find_routes(
                                self.route_port,
                                Route::Port(n as usize),
                                payload,
                            ),
                        },
                    ),
                    ..self
                }).then_tried(myself, seq![]),
            }
        }
    }

    /// The hub's next state and what it sends when it handles `event`.
    pub open spec fn step(self, event: HubEvent) -> (HubView, Result<Seq<Envelope>, Fault>) {
        match event {
            HubEvent::Init(myself) => match self.myself {
                None => (HubView { myself: Some(myself), ..self }, Ok(seq![])),
                Some(_) => (self, Err(Fault::AlreadyInitialized)),
            },
            HubEvent::Status(cust, status) => match (self.myself, spec_port_num(self.ports, cust)) {
                (None, _) => (self, Err(Fault::NotInitialized)),
                (Some(_), None) => (self, Err(Fault::UnknownPort)),
                (Some(myself), Some(n)) => if status.activity.link_state == LinkState::Stop {
                    self.on_stopped(n, status).then_tried(myself, seq![])
                } else {
                    (self, Ok(seq![]))
                },
            },
            HubEvent::PortToHubWrite(cust, payload) => match spec_port_num(self.ports, cust) {
                None => (self, Err(Fault::UnknownPort)),
                Some(n) => self.on_port_write(n, cust, payload),
            },
            HubEvent::PortToHubRead(cust) => match spec_port_num(self.ports, cust) {
                None => (self, Err(Fault::UnknownPort)),
                Some(n) => if self.port_out[n].reader is Some {
                    (self, Err(Fault::CreditDuplicated))
                } else {
                    match self.myself {
                        None => (self, Err(Fault::NotInitialized)),
                        Some(myself) => self.with_reader(n, Some(cust)).then_tried(myself, seq![]),
                    }
                },
            },
            HubEvent::CellToHubWrite(cust, payload) => if self.cell_out.writer is Some {
                (self, Err(Fault::CreditDuplicated))
            } else if self.ports.len() == 0 {
                (self, Err(Fault::UnknownPort))
            } else {
                match self.myself {
                    None => (self, Err(Fault::NotInitialized)),
                    Some(myself) => (HubView {
                        cell_out: PendingView {
                            writer: Some(cust),
                            payload: Some(payload),
                            routes: spec_find_routes(self.route_port, Route::Cell, payload),
                        },
                        ..self
                    }).then_tried(myself, seq![]),
                }
            },
            HubEvent::CellToHubRead(cust) => if self.cell_reader is Some {
                (self, Err(Fault::CreditDuplicated))
            } else {
                match self.myself {
                    None => (self, Err(Fault::NotInitialized)),
                    Some(myself) => (HubView { cell_reader: Some(cust), ..self }).then_tried(
                        myself,
                        seq![],
                    ),
                }
            },
        }
    }
}

/// The octet that carries `balance` in a fail-over message.
fn balance_to_octet(balance: isize) -> (octet: u8)
    ensures
        octet == balance_octet(balance),
{
    if balance >= 0 {
        ((balance as usize) % 256) as u8
    } else {
        let below: usize = (-(balance + 1)) as usize;
        (255 - below % 256) as u8
    }
}

/// The balance that `octet` of a fail-over message stands for.
fn octet_to_balance(octet: u8) -> (balance: isize)
    ensures
        balance == octet_balance(octet),
{
    if octet >= 128 {
        (octet as isize) - 256
    } else {
        octet as isize
    }
}

/// The fail-over message `op` for a port that stopped with `status`.
fn failover_payload(op: u8, status: &PortStatus) -> (msg: Payload)
    ensures
        msg == failover_msg(op, *status),
{
    let id = TreeId::new(PEER_TREE);
    Payload::ctrl_msg(
        &id,
        op,
        balance_to_octet(status.activity.ait_balance),
        status.activity.sequence,
        FAILOVER_MARK,
    )
}

impl Hub {
    /// In a hub that meets its invariant every port has its three records.
    proof fn lemma_shape(&self)
        requires
            self@.wf(),
        ensures
            self.port_in@.len() == self.ports@.len(),
            self.port_out@.len() == self.ports@.len(),
            self.failover@.len() == self.ports@.len(),
    {
        assert(self@.port_in.len() == self.port_in@.len());
        assert(self@.port_out.len() == self.port_out@.len());
    }

    fn set_reader(&mut self, n: usize, reader: Option<Cap>)
        requires
            n < old(self).port_out@.len(),
        ensures
            final(self)@ == old(self)@.with_reader(n as int, reader),
            final(self).ports@.len() == old(self).ports@.len(),
            final(self).port_in@.len() == old(self).port_in@.len(),
            final(self).port_out@.len() == old(self).port_out@.len(),
            final(self).failover@.len() == old(self).failover@.len(),
    {
        self.port_out[n].reader = reader;
        proof {
            assert(self@.port_out =~= old(self)@.with_reader(n as int, reader).port_out);
        }
    }

    fn push_ctrl_back(&mut self, n: usize, msg: Payload)
        requires
            n < old(self).port_out@.len(),
        ensures
            final(self)@ == old(self)@.with_ctrl_back(n as int, msg),
            final(self).ports@.len() == old(self).ports@.len(),
            final(self).port_in@.len() == old(self).port_in@.len(),
            final(self).port_out@.len() == old(self).port_out@.len(),
            final(self).failover@.len() == old(self).failover@.len(),
    {
        self.port_out[n].ctrl_msgs.push_back(msg);
        proof {
            assert(self@.port_out =~= old(self)@.with_ctrl_back(n as int, msg).port_out);
        }
    }

    fn push_ctrl_front(&mut self, n: usize, msg: Payload)
        requires
            n < old(self).port_out@.len(),
        ensures
            final(self)@ == old(self)@.with_ctrl_front(n as int, msg),
            final(self).ports@.len() == old(self).ports@.len(),
            final(self).port_in@.len() == old(self).port_in@.len(),
            final(self).port_out@.len() == old(self).port_out@.len(),
            final(self).failover@.len() == old(self).failover@.len(),
    {
        self.port_out[n].ctrl_msgs.push_front(msg);
        proof {
            assert(self@.port_out =~= old(self)@.with_ctrl_front(n as int, msg).port_out);
        }
    }

    fn set_failover(&mut self, n: usize, record: Failover)
        requires
            n < old(self).failover@.len(),
        ensures
            final(self)@ == old(self)@.with_failover(n as int, record),
            final(self).ports@.len() == old(self).ports@.len(),
            final(self).port_in@.len() == old(self).port_in@.len(),
            final(self).port_out@.len() == old(self).port_out@.len(),
            final(self).failover@.len() == old(self).failover@.len(),
    {
        self.failover[n] = record;
    }

    /// Makes port `to` the way out in place of port `from`.
    fn reroute(&mut self, from: usize, to: usize)
        ensures
            final(self)@ == old(self)@.with_route(from, to),
            final(self).ports@.len() == old(self).ports@.len(),
            final(self).port_in@.len() == old(self).port_in@.len(),
            final(self).port_out@.len() == old(self).port_out@.len(),
            final(self).failover@.len() == old(self).failover@.len(),
    {
        let mut i: usize = 0;
        while i < self.cell_out.send_to.len()
            invariant
                i <= self.cell_out.send_to@.len(),
                self.cell_out.send_to@.len() == old(self).cell_out.send_to@.len(),
                self.ports@.len() == old(self).ports@.len(),
                self.port_in@.len() == old(self).port_in@.len(),
                self.port_out@.len() == old(self).port_out@.len(),
                self.failover@.len() == old(self).failover@.len(),
                self@ == (HubView {
                    cell_out: PendingView { routes: self.cell_out.send_to@, ..old(self)@.cell_out },
                    ..old(self)@
                }),
                forall|j: int|
                    0 <= j < i ==> self.cell_out.send_to@[j] == rerouted(
                        old(self).cell_out.send_to@,
                        from,
                        to,
                    )[j],
                forall|j: int|
                    i <= j < self.cell_out.send_to@.len() ==> self.cell_out.send_to@[j] == old(self).cell_out.send_to@[j],
            decreases self.cell_out.send_to@.len() - i,
        {
            match self.cell_out.send_to[i] {
                Route::Cell => {},
                Route::Port(num) => {
                    if num == from {
                        self.cell_out.send_to[i] = Route::Port(to);
                    }
                },
            }
            i += 1;
        }
        self.route_port = to;
        proof {
            assert(self.cell_out.send_to@ =~= rerouted(old(self).cell_out.send_to@, from, to));
        }
    }

    /// A hub for `port_set`, and what it sends to begin with: its own
    /// capability to itself, and to each port the port's capability with the
    /// hub's, and the request to start.
    pub fn create(myself: &Cap, port_set: &[Cap]) -> (made: (Hub, Vec<Envelope>))
        ensures
            made.0@ == HubView::spec_create(port_set@),
            made.0.wf(),
            made.1@ == HubView::greetings(*myself, port_set@, port_set@.len() as int),
    {
        let mut ports: Vec<Cap> = Vec::with_capacity(MAX_PORTS);
        let mut port_in: Vec<PortIn> = Vec::with_capacity(MAX_PORTS);
        let mut port_out: Vec<PortOut> = Vec::with_capacity(MAX_PORTS);
        let mut failover: Vec<Failover> = Vec::with_capacity(MAX_PORTS);
        let mut sent: Vec<Envelope> = Vec::new();
        sent.push(Envelope::Hub(*myself, HubEvent::new_init(myself)));
        let mut k: usize = 0;
        while k < port_set.len()
            invariant
                k <= port_set@.len(),
                ports@ == port_set@.subrange(0, k as int),
                port_in@.len() == k,
                port_out@.len() == k,
                failover@.len() == k,
                forall|j: int|
                    0 <= j < k ==> (#[trigger] port_in@[j])@ == (PendingView {
                        writer: None,
                        payload: None,
                        routes: seq![],
                    }),
                forall|j: int|
                    0 <= j < k ==> (#[trigger] port_out@[j])@ == (PortOutView {
                        reader: Some(port_set@[j]),
                        ctrl: seq![],
                    }),
                forall|j: int|
                    0 <= j < k ==> #[trigger] failover@[j] == (Failover {
                        payload_r: None,
                        status_r: None,
                        status_d: None,
                    }),
                sent@ == HubView::greetings(*myself, port_set@, k as int),
            decreases port_set@.len() - k,
        {
            let port = port_set[k];
            ports.push(port);
            port_in.push(PortIn { writer: None, payload: None, send_to: Vec::with_capacity(MAX_PORTS) });
            port_out.push(
                PortOut { reader: Some(port), ctrl_msgs: VecDeque::with_capacity(MAX_PORTS) },
            );
            failover.push(Failover { payload_r: None, status_r: None, status_d: None });
            sent.push(Envelope::Port(port, PortEvent::new_init(&port, myself)));
            sent.push(Envelope::Port(port, PortEvent::new_start(myself)));
            k += 1;
            proof {
                assert(ports@ =~= port_set@.subrange(0, k as int));
            }
        }
        let hub = Hub {
            myself: None,
            ports,
            cell_in: CellIn { reader: None },
            cell_out: CellOut { writer: None, payload: None, send_to: Vec::with_capacity(MAX_PORTS) },
            port_in,
            port_out,
            failover,
            route_port: 0,
        };
        proof {
            let made = HubView::spec_create(port_set@);
            assert(hub.ports@ =~= port_set@);
            assert(hub@.port_in =~= made.port_in);
            assert(hub@.port_out =~= made.port_out);
            assert(hub@.failover =~= made.failover);
            assert(hub@.cell_out.routes =~= made.cell_out.routes);
        }
        (hub, sent)
    }

    /// Looks up the routes of the payload that just came from `from`, and
    /// puts them on the list of that side.
    fn find_routes(&mut self, from: Route, payload: &Payload)
        requires
            match from {
                Route::Cell => old(self).cell_out.send_to@.len() == 0,
                Route::Port(n) => n < old(self).port_in@.len() && old(self).port_in@[n as int].send_to@.len() == 0,
            },
        ensures
            final(self)@ == match from {
                Route::Cell => HubView {
                    cell_out: PendingView {
                        routes: spec_find_routes(old(self).route_port, from, *payload),
                        ..old(self)@.cell_out
                    },
                    ..old(self)@
                },
                Route::Port(n) => HubView {
                    port_in: old(self)@.port_in.update(
                        n as int,
                        PendingView {
                            routes: spec_find_routes(old(self).route_port, from, *payload),
                            ..old(self)@.port_in[n as int]
                        },
                    ),
                    ..old(self)@
                },
            },
            final(self).ports@.len() == old(self).ports@.len(),
            final(self).port_in@.len() == old(self).port_in@.len(),
            final(self).port_out@.len() == old(self).port_out@.len(),
            final(self).failover@.len() == old(self).failover@.len(),
    {
        match from {
            Route::Cell => {
                // every payload of the cell leaves by the same port
                self.cell_out.send_to.push(Route::Port(self.route_port));
                proof {
                    assert(self.cell_out.send_to@ =~= spec_find_routes(
                        old(self).route_port,
                        from,
                        *payload,
                    ));
                }
            },
            Route::Port(n) => {
                // every payload of a port goes to the cell
                self.port_in[n].send_to.push(Route::Cell);
                proof {
                    assert(self.port_in@[n as int].send_to@ =~= spec_find_routes(
                        old(self).route_port,
                        from,
                        *payload,
                    ));
                    assert(self@.port_in =~= old(self)@.port_in.update(
                        n as int,
                        PendingView {
                            routes: spec_find_routes(old(self).route_port, from, *payload),
                            ..old(self)@.port_in[n as int]
                        },
                    ));
                }
            },
        }
    }

    /// Runs the dispatcher and appends what it sends to `sent`.
    fn finish(&mut self, myself: &Cap, sent: Vec<Envelope>) -> (out: Result<Vec<Envelope>, Fault>)
        requires
            old(self)@.wf(),
        ensures
            (final(self)@, reaction(out)) == old(self)@.then_tried(*myself, sent@),
            final(self)@.wf(),
    {
        let mut sent = sent;
        let mut more = self.try_everyone(myself);
        sent.append(&mut more);
        Ok(sent)
    }

    /// Handles a control payload that came in on port `n`.
    fn handle_ctrl(&mut self, myself: &Cap, n: usize, cust: &Cap, payload: &Payload) -> (out:
        Result<Vec<Envelope>, Fault>)
        requires
            old(self)@.wf(),
            n < old(self).ports@.len(),
        ensures
            (final(self)@, reaction(out)) == old(self)@.on_ctrl(*myself, n as int, *cust, *payload),
            final(self)@.wf(),
    {
        let mut sent: Vec<Envelope> = Vec::new();
        proof {
            self.lemma_shape();
        }
        let m: usize = (if n < 1 {
            self.ports.len()
        } else {
            n
        }) - 1;
        let op: u8 = payload.get_op();
        if op == FAILOVER_R {
            match self.failover[m].status_r {
                Some(status) => {
                    let msg = failover_payload(FAILOVER_D, &status);
                    self.push_ctrl_back(n, msg);
                    let record = Failover { status_r: None, ..self.failover[m] };
                    self.set_failover(m, record);
                },
                None => {
                    let record = Failover { payload_r: Some(*payload), ..self.failover[m] };
                    self.set_failover(m, record);
                },
            }
        } else if op == FAILOVER_D {
            match self.failover[m].status_d {
                None => {
                    return Err(Fault::UnexpectedEvent);
                },
                Some(status) => {
                    let peer_balance: isize = octet_to_balance(payload.get_u8());
                    let balance: isize = status.activity.ait_balance;
                    let resend = (balance == -1 && peer_balance == 0) || (balance == 0
                        && status.outbound.is_some());
                    if resend {
                        match status.outbound {
                            Some(ait) => {
                                self.push_ctrl_front(n, ait);
                            },
                            None => {
                                return Err(Fault::UnexpectedEvent);
                            },
                        }
                    }
                    self.reroute(m, n);
                    let credit = self.port_in[m].payload.is_none();
                    if credit {
                        let port = self.ports[m];
                        self.set_reader(m, Some(port));
                    }
                    sent.push(Envelope::Port(self.ports[m], PortEvent::new_start(myself)));
                    let record = Failover { status_d: None, ..self.failover[m] };
                    self.set_failover(m, record);
                },
            }
        }
        sent.push(Envelope::Port(*cust, PortEvent::new_hub_to_port_read(myself)));
        proof {
            let ack = Envelope::Port(*cust, PortEvent::HubToPortRead(*myself));
            if op == FAILOVER_D {
                assert(sent@ =~= seq![
                    Envelope::Port(old(self).ports@[m as int], PortEvent::Start(*myself)),
                    ack,
                ]);
            } else {
                assert(sent@ =~= seq![ack]);
            }
        }
        self.finish(myself, sent)
    }
}

impl Actor for Hub {
    type Event = HubEvent;

    open spec fn wf(&self) -> bool {
        self@.wf()
    }

    fn on_event(&mut self, event: HubEvent) -> (out: Result<Vec<Envelope>, Fault>)
        ensures
            (final(self)@, reaction(out)) == old(self)@.step(event),
    {
        let sent: Vec<Envelope> = Vec::new();
        proof {
            self.lemma_shape();
        }
        match event {
            HubEvent::Init(myself) => match self.myself {
                None => {
                    self.myself = Some(myself);
                    Ok(sent)
                },
                Some(_) => Err(Fault::AlreadyInitialized),
            },
            HubEvent::Status(cust, status) => {
                let myself = match self.myself {
                    Some(myself) => myself,
                    None => {
                        return Err(Fault::NotInitialized);
                    },
                };
                let n = match port_to_port_num(&self.ports, &cust) {
                    Some(n) => n,
                    None => {
                        return Err(Fault::UnknownPort);
                    },
                };
                proof {
                    lemma_port_num(self.ports@, cust);
                }
                if status.activity.link_state == LinkState::Stop {
                    let len: usize = self.ports.len();
                    let m: usize = (n + 1) % len;
                    let early = self.failover[n].payload_r.is_some();
                    self.set_reader(n, None);
                    self.push_ctrl_back(m, failover_payload(FAILOVER_R, &status));
                    if early {
                        self.push_ctrl_back(m, failover_payload(FAILOVER_D, &status));
                        let record = Failover {
                            payload_r: None,
                            status_d: Some(status),
                            ..self.failover[n]
                        };
                        self.set_failover(n, record);
                    } else {
                        let record = Failover {
                            status_r: Some(status),
                            status_d: Some(status),
                            ..self.failover[n]
                        };
                        self.set_failover(n, record);
                    }
                    self.reroute(n, m);
                    self.finish(&myself, sent)
                } else {
                    Ok(sent)
                }
            },
            HubEvent::PortToHubWrite(cust, payload) => {
                let n = match port_to_port_num(&self.ports, &cust) {
                    Some(n) => n,
                    None => {
                        return Err(Fault::UnknownPort);
                    },
                };
                proof {
                    lemma_port_num(self.ports@, cust);
                }
                if payload.ctrl {
                    match self.myself {
                        None => Err(Fault::NotInitialized),
                        Some(myself) => self.handle_ctrl(&myself, n, &cust, &payload),
                    }
                } else if self.port_in[n].writer.is_some() {
                    Err(Fault::CreditDuplicated)
                } else {
                    match self.myself {
                        None => Err(Fault::NotInitialized),
                        Some(myself) => {
                            proof {
                                assert(old(self)@.port_in[n as int] == old(self).port_in@[n as int]@);
                            }
                            self.port_in[n].writer = Some(cust);
                            self.port_in[n].payload = Some(payload);
                            proof {
                                assert(self@.port_in =~= old(self)@.port_in.update(
                                    n as int,
                                    PendingView {
                                        writer: Some(cust),
                                        payload: Some(payload),
                                        routes: old(self)@.port_in[n as int].routes,
                                    },
                                ));
                            }
                            self.find_routes(Route::Port(n), &payload);
                            proof {
                                assert(self@.port_in =~= old(self)@.port_in.update(
                                    n as int,
                                    PendingView {
                                        writer: Some(cust),
                                        payload: Some(payload),
                                        routes: spec_find_routes(
                                            old(self).route_port,
                                            Route::Port(n),
                                            payload,
                                        ),
                                    },
                                ));
                            }
                            self.finish(&myself, sent)
                        },
                    }
                }
            },
            HubEvent::PortToHubRead(cust) => {
                let n = match port_to_port_num(&self.ports, &cust) {
                    Some(n) => n,
                    None => {
                        return Err(Fault::UnknownPort);
                    },
                };
                proof {
                    lemma_port_num(self.ports@, cust);
                }
                if self.port_out[n].reader.is_some() {
                    Err(Fault::CreditDuplicated)
                } else {
                    match self.myself {
                        None => Err(Fault::NotInitialized),
                        Some(myself) => {
                            self.set_reader(n, Some(cust));
                            self.finish(&myself, sent)
                        },
                    }
                }
            },
            HubEvent::CellToHubWrite(cust, payload) => {
                if self.cell_out.writer.is_some() {
                    Err(Fault::CreditDuplicated)
                } else if self.ports.len() == 0 {
                    Err(Fault::UnknownPort)
                } else {
                    match self.myself {
                        None => Err(Fault::NotInitialized),
                        Some(myself) => {
                            self.cell_out.writer = Some(cust);
                            self.cell_out.payload = Some(payload);
                            self.find_routes(Route::Cell, &payload);
                            self.finish(&myself, sent)
                        },
                    }
                }
            },
            HubEvent::CellToHubRead(cust) => {
                if self.cell_in.reader.is_some() {
                    Err(Fault::CreditDuplicated)
                } else {
                    match self.myself {
                        None => Err(Fault::NotInitialized),
                        Some(myself) => {
                            self.cell_in.reader = Some(cust);
                            self.finish(&myself, sent)
                        },
                    }
                }
            },
        }
    }
}

/// A payload with one route goes along it once, on the credit of the
/// reader at its end, and uses the credit up; without a credit it goes
/// nowhere and keeps its route.
pub proof fn lemma_forward_one(
    hub: Cap,
    payload: Payload,
    route: Route,
    cell_reader: Option<Cap>,
    port_out: Seq<PortOutView>,
    sent: Seq<Envelope>,
)
    requires
        route matches Route::Port(to) ==> to < port_out.len(),
    ensures
        forward(hub, payload, seq![route], cell_reader, port_out, sent) == match route {
            Route::Cell => match cell_reader {
                Some(cell) => Forwarded {
                    routes: seq![],
                    cell_reader: None,
                    port_out,
                    sent: sent.push(Envelope::Cell(cell, CellEvent::HubToCellWrite(payload))),
                },
                None => Forwarded { routes: seq![route], cell_reader, port_out, sent },
            },
            Route::Port(to) => match port_out[to as int].reader {
                Some(port) => Forwarded {
                    routes: seq![],
                    cell_reader,
                    port_out: port_out.update(
                        to as int,
                        PortOutView { reader: None, ..port_out[to as int] },
                    ),
                    sent: sent.push(Envelope::Port(port, PortEvent::HubToPortWrite(hub, payload))),
                },
                None => Forwarded { routes: seq![route], cell_reader, port_out, sent },
            },
        },
{
    reveal_with_fuel(forward_from, 2);
    let todo = seq![route];
    assert(todo.drop_first() =~= Seq::<Route>::empty());
    let done = forward(hub, payload, todo, cell_reader, port_out, sent);
    assert(done.routes =~= if done.sent.len() == sent.len() {
        seq![route]
    } else {
        seq![]
    });
}

/// Control messages go first, one for each credit: a port that holds a
/// credit and has a control message waiting is sent the oldest one, and its
/// credit is gone before any payload is offered a route; every other port
/// is left as it is.
pub proof fn lemma_control_goes_first(hub: HubView, myself: Cap, n: int, j: int)
    requires
        0 <= j < n <= hub.port_out.len(),
    ensures
        ({
            let out = hub.port_out[j];
            let (drained, sent) = hub.drained(myself, n);
            &&& drained.len() == hub.port_out.len()
            &&& if out.reader is Some && out.ctrl.len() > 0 {
                &&& drained[j] == (PortOutView { reader: None, ctrl: out.ctrl.drop_first() })
                &&& sent.contains(
                    Envelope::Port(out.reader->Some_0, PortEvent::HubToPortWrite(myself, out.ctrl[0])),
                )
            } else {
                drained[j] == out
            }
        }),
    decreases n,
{
    lemma_drained_rest(hub, myself, n);
    if j < n - 1 {
        lemma_control_goes_first(hub, myself, n - 1, j);
        let (before, sent_before) = hub.drained(myself, n - 1);
        let (after, sent_after) = hub.drained(myself, n);
        let out = hub.port_out[j];
        if out.reader is Some && out.ctrl.len() > 0 {
            let told = Envelope::Port(
                out.reader->Some_0,
                PortEvent::HubToPortWrite(myself, out.ctrl[0]),
            );
            let at = choose|at: int| 0 <= at < sent_before.len() && sent_before[at] == told;
            assert(sent_after[at] == told);
        }
    } else {
        lemma_drained_rest(hub, myself, n - 1);
        let (after, sent_after) = hub.drained(myself, n);
        let out = hub.port_out[j];
        if out.reader is Some && out.ctrl.len() > 0 {
            assert(sent_after[sent_after.len() - 1] == Envelope::Port(
                out.reader->Some_0,
                PortEvent::HubToPortWrite(myself, out.ctrl[0]),
            ));
        }
    }
}

/// Draining the first `n` ports leaves the other ports as they are.
pub proof fn lemma_drained_rest(hub: HubView, myself: Cap, n: int)
    requires
        n <= hub.port_out.len(),
    ensures
        hub.drained(myself, n).0.len() == hub.port_out.len(),
        forall|k: int|
            n <= k < hub.port_out.len() && 0 <= k ==> hub.drained(myself, n).0[k]
                == hub.port_out[k],
    decreases n,
{
    if n > 0 {
        lemma_drained_rest(hub, myself, n - 1);
    }
}

/// A payload that has gone along all its routes is acknowledged to its
/// writer, once, and leaves the hub; a payload with routes left is not
/// acknowledged.
pub proof fn lemma_acknowledged_when_through(
    myself: Cap,
    pending: PendingView,
    ack: Envelope,
    cell_reader: Option<Cap>,
    port_out: Seq<PortOutView>,
    sent: Seq<Envelope>,
)
    requires
        pending.writer is Some,
        pending.payload is Some,
    ensures
        ({
            let (next, forwarded) = HubView::offered(
                myself,
                pending,
                ack,
                cell_reader,
                port_out,
                sent,
            );
            if pending.routes.len() == 0 {
                &&& next == (PendingView { writer: None, payload: None, routes: pending.routes })
                &&& forwarded.sent == sent.push(ack)
                &&& forwarded.cell_reader == cell_reader
                &&& forwarded.port_out == port_out
            } else {
                &&& next.writer == pending.writer
                &&& next.payload == pending.payload
                &&& forwarded == forward(
                    myself,
                    pending.payload->Some_0,
                    pending.routes,
                    cell_reader,
                    port_out,
                    sent,
                )
                &&& next.routes == forwarded.routes
            }
        }),
{
}

} // verus!
