//! The transport shim: frames of the link go into one channel, frames of the
//! peer come out of another.
use crate::actor::{reaction, Actor, Cap, Envelope};
use crate::channel::{receiver_clone, send, sender_clone, try_recv, Received};
use crate::fault::Fault;
use crate::frame::Frame;
use crate::link::LinkEvent;
use crossbeam::channel::{Receiver, Sender};
use vstd::prelude::*;

verus! {

#[derive(Debug, Clone, Copy, PartialEq, Eq)]
pub enum WireEvent {
    /// Forward every frame that arrives to this link.
    Listen(Cap),
    /// Ship this frame to the peer.
    Frame(Frame),
}

impl WireEvent {
    pub fn new_listen(link: &Cap) -> (event: WireEvent)
        ensures
            event == WireEvent::Listen(*link),
    {
        WireEvent::Listen(*link)
    }

    pub fn new_frame(frame: &Frame) -> (event: WireEvent)
        ensures
            event == WireEvent::Frame(*frame),
    {
        WireEvent::Frame(*frame)
    }
}

/// What a wire does with what its receiving end has: a frame goes to the
/// link that listens, and is lost if none does; an empty channel gives
/// nothing; a closed one ends the wire.
pub open spec fn spec_inbound(link: Option<Cap>, received: Received<Frame>) -> Result<
    Seq<Envelope>,
    Fault,
> {
    match received {
        Received::Message(frame) => match link {
            Some(link) => Ok(seq![Envelope::Link(link, LinkEvent::Frame(frame))]),
            None => Ok(seq![]),
        },
        Received::Empty => Ok(seq![]),
        Received::Closed => Err(Fault::TransportClosed),
    }
}

/// What a wire does with what its receiving end has.
pub fn inbound(link: Option<Cap>, received: Received<Frame>) -> (out: Result<Vec<Envelope>, Fault>)
    ensures
        reaction(out) == spec_inbound(link, received),
{
    let mut sent: Vec<Envelope> = Vec::new();
    match received {
        Received::Message(frame) => {
            if let Some(link) = link {
                sent.push(Envelope::Link(link, LinkEvent::new_frame(&frame)));
            }
        },
        Received::Empty => {},
        Received::Closed => {
            return Err(Fault::TransportClosed);
        },
    }
    proof {
        assert(sent@ =~= spec_inbound(link, received)->Ok_0);
    }
    Ok(sent)
}

/// What a wire answers once a frame has been handed to the channel: nothing
/// if the channel took it, a fault if the channel is closed.
pub open spec fn spec_shipped(taken: bool) -> Result<Seq<Envelope>, Fault> {
    if taken {
        Ok(seq![])
    } else {
        Err(Fault::TransportClosed)
    }
}

/// What a wire answers once a frame has been handed to the channel.
pub fn shipped(taken: bool) -> (out: Result<Vec<Envelope>, Fault>)
    ensures
        reaction(out) == spec_shipped(taken),
{
    if taken {
        Ok(Vec::new())
    } else {
        Err(Fault::TransportClosed)
    }
}

/// A reliable wire.
pub struct Wire {
    pub tx: Sender<Frame>,
    pub rx: Receiver<Frame>,
    /// The link that frames from the peer go to.
    pub link: Option<Cap>,
}

impl Wire {
    /// A wire that sends on `tx` and receives on `rx`.
    pub fn create(tx: &Sender<Frame>, rx: &Receiver<Frame>) -> (wire: Wire)
        ensures
            wire == (Wire { tx: *tx, rx: *rx, link: None }),
    {
        Wire { tx: sender_clone(tx), rx: receiver_clone(rx), link: None }
    }

    /// Takes the next frame that has arrived, if a link listens, and
    /// addresses it to that link. Without a listener the channel is left
    /// alone.
    pub fn listen(&self) -> (out: Result<Vec<Envelope>, Fault>)
        ensures
            self.link is None ==> reaction(out) == Ok::<Seq<Envelope>, Fault>(seq![]),
            exists|received: Received<Frame>|
                reaction(out) == #[trigger] spec_inbound(self.link, received),
    {
        match self.link {
            None => {
                proof {
                    assert(spec_inbound(self.link, Received::Empty) == Ok::<Seq<Envelope>, Fault>(
                        seq![],
                    ));
                }
                Ok(Vec::new())
            },
            Some(_) => inbound(self.link, try_recv(&self.rx)),
        }
    }
}

impl Actor for Wire {
    type Event = WireEvent;

    open spec fn wf(&self) -> bool {
        true
    }

    /// `Listen` names the link that frames from the peer go to. `Frame`
    /// hands the frame to the sending channel.
    fn on_event(&mut self, event: WireEvent) -> (out: Result<Vec<Envelope>, Fault>)
        ensures
            final(self).link == match event {
                WireEvent::Listen(link) => Some(link),
                WireEvent::Frame(_) => old(self).link,
            },
            event is Listen ==> reaction(out) == Ok::<Seq<Envelope>, Fault>(seq![]),
            exists|taken: bool| reaction(out) == #[trigger] spec_shipped(taken),
    {
        match event {
            WireEvent::Frame(frame) => shipped(send(&self.tx, frame)),
            WireEvent::Listen(link) => {
                self.link = Some(link);
                proof {
                    assert(spec_shipped(true) == Ok::<Seq<Envelope>, Fault>(seq![]));
                }
                Ok(Vec::new())
            },
        }
    }
}

/// A wire that loses one frame: the first frame it is given whose sequence
/// number equals the filter is dropped, and the filter is then cleared.
pub struct FaultyWire {
    pub tx: Sender<Frame>,
    pub rx: Receiver<Frame>,
    /// The sequence number of the frame to drop, until it has been dropped.
    pub filter: Option<u16>,
    /// The link that frames from the peer go to.
    pub link: Option<Cap>,
}

impl FaultyWire {
    /// Whether a wire with this filter drops `frame`.
    pub open spec fn spec_drops(filter: Option<u16>, frame: Frame) -> bool {
        filter == Some(frame.spec_sequence())
    }

    /// A wire that sends on `tx`, receives on `rx`, and drops the first frame
    /// with sequence number `filter`.
    pub fn create(tx: &Sender<Frame>, rx: &Receiver<Frame>, filter: u16) -> (wire: FaultyWire)
        ensures
            wire == (FaultyWire { tx: *tx, rx: *rx, filter: Some(filter), link: None }),
    {
        FaultyWire { tx: sender_clone(tx), rx: receiver_clone(rx), filter: Some(filter), link: None }
    }

    /// Whether the wire drops `frame`.
    pub fn drops(&self, frame: &Frame) -> (dropped: bool)
        ensures
            dropped == FaultyWire::spec_drops(self.filter, *frame),
    {
        match self.filter {
            Some(filter) => filter == frame.get_sequence(),
            None => false,
        }
    }

    /// Takes the next frame that has arrived, if a link listens, and
    /// addresses it to that link.
    pub fn listen(&self) -> (out: Result<Vec<Envelope>, Fault>)
        ensures
            self.link is None ==> reaction(out) == Ok::<Seq<Envelope>, Fault>(seq![]),
            exists|received: Received<Frame>|
                reaction(out) == #[trigger] spec_inbound(self.link, received),
    {
        match self.link {
            None => {
                proof {
                    assert(spec_inbound(self.link, Received::Empty) == Ok::<Seq<Envelope>, Fault>(
                        seq![],
                    ));
                }
                Ok(Vec::new())
            },
            Some(_) => inbound(self.link, try_recv(&self.rx)),
        }
    }
}

impl Actor for FaultyWire {
    type Event = WireEvent;

    open spec fn wf(&self) -> bool {
        true
    }

    /// `Listen` names the link that frames from the peer go to. `Frame`
    /// hands the frame to the sending channel, unless it is the frame to
    /// drop: that one clears the filter and goes nowhere.
    fn on_event(&mut self, event: WireEvent) -> (out: Result<Vec<Envelope>, Fault>)
        ensures
            final(self).link == match event {
                WireEvent::Listen(link) => Some(link),
                WireEvent::Frame(_) => old(self).link,
            },
            final(self).filter == match event {
                WireEvent::Frame(frame) if FaultyWire::spec_drops(old(self).filter, frame) => None,
                _ => old(self).filter,
            },
            match event {
                WireEvent::Frame(frame) if !FaultyWire::spec_drops(old(self).filter, frame) =>
                    exists|taken: bool| reaction(out) == #[trigger] spec_shipped(taken),
                _ => reaction(out) == Ok::<Seq<Envelope>, Fault>(seq![]),
            },
    {
        match event {
            WireEvent::Frame(frame) => {
                if self.drops(&frame) {
                    self.filter = None;
                    Ok(Vec::new())
                } else {
                    shipped(send(&self.tx, frame))
                }
            },
            WireEvent::Listen(link) => {
                self.link = Some(link);
                Ok(Vec::new())
            },
        }
    }
}

} // verus!
