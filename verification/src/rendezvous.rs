//! A synchronous meeting point: a reader and a writer wait for each other,
//! and the payload changes hands when both are there.
use crate::actor::{reaction, Actor, Cap, Envelope};
use crate::fault::Fault;
use crate::frame::Payload;
use vstd::prelude::*;

verus! {

#[derive(Debug, Clone, Copy, PartialEq, Eq)]
pub enum RendezvousEvent {
    /// The rendezvous point's own capability.
    Init(Cap),
    /// This reader is ready.
    Read(Cap),
    /// This writer offers a payload.
    Write(Cap, Payload),
}

impl RendezvousEvent {
    pub fn new_init(myself: &Cap) -> (event: RendezvousEvent)
        ensures
            event == RendezvousEvent::Init(*myself),
    {
        RendezvousEvent::Init(*myself)
    }

    pub fn new_read(reader: &Cap) -> (event: RendezvousEvent)
        ensures
            event == RendezvousEvent::Read(*reader),
    {
        RendezvousEvent::Read(*reader)
    }

    pub fn new_write(writer: &Cap, payload: &Payload) -> (event: RendezvousEvent)
        ensures
            event == RendezvousEvent::Write(*writer, *payload),
    {
        RendezvousEvent::Write(*writer, *payload)
    }
}

/// A meeting point for one reader and one writer at a time.
#[derive(Debug, Clone, Copy, PartialEq, Eq)]
pub struct Rendezvous {
    pub myself: Option<Cap>,
    /// The reader that waits for a writer.
    pub reader: Option<Cap>,
    /// The writer that waits for a reader.
    pub writer: Option<Cap>,
    /// The payload of the writer that waits.
    pub payload: Option<Payload>,
}

impl Rendezvous {
    /// The hand-over: the reader gets the payload, the writer gets the word
    /// that it was read.
    pub open spec fn exchange(myself: Cap, reader: Cap, writer: Cap, payload: Payload) -> Seq<
        Envelope,
    > {
        seq![
            Envelope::Rendezvous(reader, RendezvousEvent::Write(myself, payload)),
            Envelope::Rendezvous(writer, RendezvousEvent::Read(myself)),
        ]
    }

    /// A reader arrives. If a writer waits with its payload, the two meet;
    /// if no one waits, the reader does; a second reader is a fault.
    pub open spec fn on_read(self, reader: Cap) -> (Rendezvous, Result<Seq<Envelope>, Fault>) {
        match self.writer {
            Some(writer) => match (self.myself, self.payload) {
                (Some(myself), Some(payload)) => (
                    Rendezvous { payload: None, writer: None, ..self },
                    Ok(Rendezvous::exchange(myself, reader, writer, payload)),
                ),
                _ => (self, Ok(seq![])),
            },
            None => match self.reader {
                None => (Rendezvous { reader: Some(reader), ..self }, Ok(seq![])),
                Some(_) => (self, Err(Fault::CreditDuplicated)),
            },
        }
    }

    /// A writer arrives. If a reader waits, the two meet; if no one waits,
    /// the writer does, with its payload; a second writer is a fault.
    pub open spec fn on_write(self, writer: Cap, payload: Payload) -> (
        Rendezvous,
        Result<Seq<Envelope>, Fault>,
    ) {
        match self.reader {
            Some(reader) => match self.myself {
                Some(myself) => (
                    Rendezvous { reader: None, ..self },
                    Ok(Rendezvous::exchange(myself, reader, writer, payload)),
                ),
                None => (self, Ok(seq![])),
            },
            None => match self.writer {
                None => (
                    Rendezvous { writer: Some(writer), payload: Some(payload), ..self },
                    Ok(seq![]),
                ),
                Some(_) => (self, Err(Fault::CreditDuplicated)),
            },
        }
    }

    /// The meeting point's next state and what it sends when it handles `event`.
    pub open spec fn step(self, event: RendezvousEvent) -> (
        Rendezvous,
        Result<Seq<Envelope>, Fault>,
    ) {
        match event {
            RendezvousEvent::Init(myself) => match self.myself {
                None => (Rendezvous { myself: Some(myself), ..self }, Ok(seq![])),
                Some(_) => (self, Err(Fault::AlreadyInitialized)),
            },
            RendezvousEvent::Read(reader) => self.on_read(reader),
            RendezvousEvent::Write(writer, payload) => self.on_write(writer, payload),
        }
    }

    /// An empty meeting point, and the envelope that tells it its own capability.
    pub fn create(myself: &Cap) -> (made: (Rendezvous, Vec<Envelope>))
        ensures
            made.0 == (Rendezvous { myself: None, reader: None, writer: None, payload: None }),
            made.1@ == seq![Envelope::Rendezvous(*myself, RendezvousEvent::Init(*myself))],
    {
        let mut sent: Vec<Envelope> = Vec::new();
        sent.push(Envelope::Rendezvous(*myself, RendezvousEvent::new_init(myself)));
        proof {
            assert(sent@ =~= seq![Envelope::Rendezvous(*myself, RendezvousEvent::Init(*myself))]);
        }
        (Rendezvous { myself: None, reader: None, writer: None, payload: None }, sent)
    }

    fn meet(myself: &Cap, reader: &Cap, writer: &Cap, payload: &Payload) -> (sent: Vec<Envelope>)
        ensures
            sent@ == Rendezvous::exchange(*myself, *reader, *writer, *payload),
    {
        let mut sent: Vec<Envelope> = Vec::new();
        sent.push(Envelope::Rendezvous(*reader, RendezvousEvent::new_write(myself, payload)));
        sent.push(Envelope::Rendezvous(*writer, RendezvousEvent::new_read(myself)));
        proof {
            assert(sent@ =~= Rendezvous::exchange(*myself, *reader, *writer, *payload));
        }
        sent
    }
}

impl Actor for Rendezvous {
    type Event = RendezvousEvent;

    open spec fn wf(&self) -> bool {
        true
    }

    fn on_event(&mut self, event: RendezvousEvent) -> (out: Result<Vec<Envelope>, Fault>)
        ensures
            (*final(self), reaction(out)) == old(self).step(event),
    {
        match event {
            RendezvousEvent::Init(myself) => match self.myself {
                None => {
                    self.myself = Some(myself);
                    Ok(Vec::new())
                },
                Some(_) => Err(Fault::AlreadyInitialized),
            },
            RendezvousEvent::Read(reader) => match self.writer {
                Some(writer) => match (self.myself, self.payload) {
                    (Some(myself), Some(payload)) => {
                        self.payload = None;
                        self.writer = None;
                        Ok(Rendezvous::meet(&myself, &reader, &writer, &payload))
                    },
                    _ => Ok(Vec::new()),
                },
                None => match self.reader {
                    None => {
                        self.reader = Some(reader);
                        Ok(Vec::new())
                    },
                    Some(_) => Err(Fault::CreditDuplicated),
                },
            },
            RendezvousEvent::Write(writer, payload) => match self.reader {
                Some(reader) => match self.myself {
                    Some(myself) => {
                        self.reader = None;
                        Ok(Rendezvous::meet(&myself, &reader, &writer, &payload))
                    },
                    None => Ok(Vec::new()),
                },
                None => match self.writer {
                    None => {
                        self.writer = Some(writer);
                        self.payload = Some(payload);
                        Ok(Vec::new())
                    },
                    Some(_) => Err(Fault::CreditDuplicated),
                },
            },
        }
    }
}

} // verus!
