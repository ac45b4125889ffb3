//! The channels of `crossbeam` as this crate uses them.
//!
//! A channel is shared with whoever holds its other end, so nothing that a
//! call finds or leaves in it is stated here: the callers say what they do
//! for each answer that a call may give.
use crossbeam::channel::{Receiver, Sender, TryRecvError};
use vstd::prelude::*;

verus! {

#[verifier::external_type_specification]
#[verifier::external_body]
#[verifier::reject_recursive_types(T)]
pub struct ExSender<T>(Sender<T>);

#[verifier::external_type_specification]
#[verifier::external_body]
#[verifier::reject_recursive_types(T)]
pub struct ExReceiver<T>(Receiver<T>);

/// What a receiver has for us right now.
pub enum Received<T> {
    Message(T),
    /// Nothing has arrived yet.
    Empty,
    /// Nothing has arrived, and every sender is gone.
    Closed,
}

/// `Sender::clone`: another handle to the sending end of the same channel
/// (`same_channel` holds of the two). A sender has nothing of its own but
/// the channel it sends into, so as a value the clone is the sender given.
#[verifier::external_body]
pub(crate) fn sender_clone<T>(tx: &Sender<T>) -> (clone: Sender<T>)
    ensures
        clone == *tx,
{
    tx.clone()
}

/// `Receiver::clone`: another handle to the receiving end of the same
/// channel (`same_channel` holds of the two). A receiver has nothing of its
/// own but the channel it receives from, so as a value the clone is the
/// receiver given.
#[verifier::external_body]
pub(crate) fn receiver_clone<T>(rx: &Receiver<T>) -> (clone: Receiver<T>)
    ensures
        clone == *rx,
{
    rx.clone()
}

/// `Sender::send`: puts `msg` into the channel and answers `true`, or
/// answers `false` when every receiver is gone. On a bounded channel that is
/// full the call waits for room.
#[verifier::external_body]
pub(crate) fn send<T>(tx: &Sender<T>, msg: T) -> bool {
    tx.send(msg).is_ok()
}

/// `Sender::is_empty`: whether the channel held no message at the moment of
/// the call.
#[verifier::external_body]
pub(crate) fn is_empty<T>(tx: &Sender<T>) -> bool {
    tx.is_empty()
}

/// `Receiver::try_recv`: takes the oldest message out of the channel, if
/// there is one, without waiting.
#[verifier::external_body]
pub(crate) fn try_recv<T>(rx: &Receiver<T>) -> Received<T> {
    match rx.try_recv() {
        Ok(msg) => Received::Message(msg),
        Err(TryRecvError::Empty) => Received::Empty,
        Err(TryRecvError::Disconnected) => Received::Closed,
    }
}

} // verus!
