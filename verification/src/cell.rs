//! The application's end of a node: payloads go out of one single-slot
//! queue and come in by another.
use crate::actor::{reaction, Actor, Cap, Envelope};
use crate::channel::{is_empty, receiver_clone, send, sender_clone, try_recv, Received};
use crate::fault::Fault;
use crate::frame::Payload;
use crate::hub::HubEvent;
use crossbeam::channel::{Receiver, Sender};
use vstd::prelude::*;

verus! {

#[derive(Debug, Clone, Copy, PartialEq, Eq)]
pub enum CellEvent {
    /// The cell's own capability.
    Init(Cap),
    /// A payload for the application.
    HubToCellWrite(Payload),
    /// The hub is ready for the next payload from the application.
    HubToCellRead,
}

impl CellEvent {
    pub fn new_init(cell: &Cap) -> (event: CellEvent)
        ensures
            event == CellEvent::Init(*cell),
    {
        CellEvent::Init(*cell)
    }

    pub fn new_hub_to_cell_write(payload: &Payload) -> (event: CellEvent)
        ensures
            event == CellEvent::HubToCellWrite(*payload),
    {
        CellEvent::HubToCellWrite(*payload)
    }

    pub fn new_hub_to_cell_read() -> (event: CellEvent)
        ensures
            event == CellEvent::HubToCellRead,
    {
        CellEvent::HubToCellRead
    }
}

/// What became of a payload that the hub handed to the cell.
#[derive(Debug, Clone, Copy, PartialEq, Eq, Structural)]
pub enum Delivery {
    /// The inbound queue was empty and took the payload.
    Taken,
    /// The inbound queue still holds the payload before.
    Busy,
    /// The application has dropped its end of the inbound queue.
    Closed,
}

/// The cell of one node.
pub struct Cell {
    pub myself: Option<Cap>,
    pub hub: Cap,
    /// Inbound: payloads for the application.
    pub tx: Sender<Payload>,
    /// Outbound: payloads of the application.
    pub rx: Receiver<Payload>,
}

impl Cell {
    /// What a cell that knows itself answers when the hub hands it `payload`:
    /// a fresh read credit for the hub if the payload went into the inbound
    /// queue, the same event to itself again if the queue was busy.
    pub open spec fn on_write(myself: Cap, hub: Cap, payload: Payload, delivery: Delivery) -> Result<
        Seq<Envelope>,
        Fault,
    > {
        match delivery {
            Delivery::Taken => Ok(seq![Envelope::Hub(hub, HubEvent::CellToHubRead(myself))]),
            Delivery::Busy => Ok(seq![Envelope::Cell(myself, CellEvent::HubToCellWrite(payload))]),
            Delivery::Closed => Err(Fault::TransportClosed),
        }
    }

    /// What a cell that knows itself answers when the hub is ready to read:
    /// the next payload of the application, or, if there is none yet, the
    /// same event to itself again.
    pub open spec fn on_read(myself: Cap, hub: Cap, next: Option<Payload>) -> Seq<Envelope> {
        match next {
            Some(payload) => seq![Envelope::Hub(hub, HubEvent::CellToHubWrite(myself, payload))],
            None => seq![Envelope::Cell(myself, CellEvent::HubToCellRead)],
        }
    }

    /// A cell for `hub` on the two queues, and the envelope that tells it its
    /// own capability.
    pub fn create(myself: &Cap, hub: &Cap, tx: &Sender<Payload>, rx: &Receiver<Payload>) -> (made:
        (Cell, Vec<Envelope>))
        ensures
            made.0 == (Cell { myself: None, hub: *hub, tx: *tx, rx: *rx }),
            made.1@ == seq![Envelope::Cell(*myself, CellEvent::Init(*myself))],
    {
        let cell = Cell { myself: None, hub: *hub, tx: sender_clone(tx), rx: receiver_clone(rx) };
        let mut sent: Vec<Envelope> = Vec::new();
        sent.push(Envelope::Cell(*myself, CellEvent::new_init(myself)));
        proof {
            assert(sent@ =~= seq![Envelope::Cell(*myself, CellEvent::Init(*myself))]);
        }
        (cell, sent)
    }

    /// The answer to a payload from the hub, given what became of it.
    pub fn written(myself: &Cap, hub: &Cap, payload: &Payload, delivery: Delivery) -> (out: Result<
        Vec<Envelope>,
        Fault,
    >)
        ensures
            reaction(out) == Cell::on_write(*myself, *hub, *payload, delivery),
    {
        let mut sent: Vec<Envelope> = Vec::new();
        match delivery {
            Delivery::Taken => {
                sent.push(Envelope::Hub(*hub, HubEvent::new_cell_to_hub_read(myself)));
            },
            Delivery::Busy => {
                sent.push(Envelope::Cell(*myself, CellEvent::new_hub_to_cell_write(payload)));
            },
            Delivery::Closed => {
                return Err(Fault::TransportClosed);
            },
        }
        proof {
            assert(sent@ =~= Cell::on_write(*myself, *hub, *payload, delivery)->Ok_0);
        }
        Ok(sent)
    }

    /// The answer to the hub's readiness, given the application's next payload.
    pub fn read(myself: &Cap, hub: &Cap, next: Option<Payload>) -> (sent: Vec<Envelope>)
        ensures
            sent@ == Cell::on_read(*myself, *hub, next),
    {
        let mut sent: Vec<Envelope> = Vec::new();
        match next {
            Some(payload) => {
                sent.push(Envelope::Hub(*hub, HubEvent::new_cell_to_hub_write(myself, &payload)));
            },
            None => {
                sent.push(Envelope::Cell(*myself, CellEvent::new_hub_to_cell_read()));
            },
        }
        proof {
            assert(sent@ =~= Cell::on_read(*myself, *hub, next));
        }
        sent
    }

    /// Puts `payload` into the inbound queue if the queue is empty.
    fn deliver(&self, payload: Payload) -> Delivery {
        if is_empty(&self.tx) {
            if send(&self.tx, payload) {
                Delivery::Taken
            } else {
                Delivery::Closed
            }
        } else {
            Delivery::Busy
        }
    }

    /// Takes the next payload out of the outbound queue, if there is one.
    fn next(&self) -> Option<Payload> {
        match try_recv(&self.rx) {
            Received::Message(payload) => Some(payload),
            Received::Empty => None,
            Received::Closed => None,
        }
    }
}

impl Actor for Cell {
    type Event = CellEvent;

    open spec fn wf(&self) -> bool {
        true
    }

    /// Handles `event`. A cell learns its capability once. Until then it lets
    /// the hub's events pass; after that it answers them as `on_write` and
    /// `on_read` say, for what the queues hold at that moment.
    fn on_event(&mut self, event: CellEvent) -> (out: Result<Vec<Envelope>, Fault>)
        ensures
            final(self).hub == old(self).hub,
            final(self).myself == match (event, old(self).myself) {
                (CellEvent::Init(myself), None) => Some(myself),
                _ => old(self).myself,
            },
            match (event, old(self).myself) {
                (CellEvent::Init(_), None) => reaction(out) == Ok::<Seq<Envelope>, Fault>(seq![]),
                (CellEvent::Init(_), Some(_)) => out == Err::<Vec<Envelope>, Fault>(
                    Fault::AlreadyInitialized,
                ),
                (_, None) => reaction(out) == Ok::<Seq<Envelope>, Fault>(seq![]),
                (CellEvent::HubToCellWrite(payload), Some(myself)) => exists|delivery: Delivery|
                    reaction(out) == #[trigger] Cell::on_write(
                        myself,
                        old(self).hub,
                        payload,
                        delivery,
                    ),
                (CellEvent::HubToCellRead, Some(myself)) => exists|next: Option<Payload>|
                    reaction(out) == Ok::<Seq<Envelope>, Fault>(
                        #[trigger] Cell::on_read(myself, old(self).hub, next),
                    ),
            },
    {
        match event {
            CellEvent::Init(myself) => match self.myself {
                None => {
                    self.myself = Some(myself);
                    Ok(Vec::new())
                },
                Some(_) => Err(Fault::AlreadyInitialized),
            },
            CellEvent::HubToCellWrite(payload) => match self.myself {
                Some(myself) => {
                    let delivery = self.deliver(payload);
                    Cell::written(&myself, &self.hub, &payload, delivery)
                },
                None => Ok(Vec::new()),
            },
            CellEvent::HubToCellRead => match self.myself {
                Some(myself) => {
                    let next = self.next();
                    Ok(Cell::read(&myself, &self.hub, next))
                },
                None => Ok(Vec::new()),
            },
        }
    }
}

} // verus!
