use vstd::prelude::*;

verus! {

/// The ways in which a component refuses an input.
///
/// Every fault is fatal for the component that reports it: the component's
/// state is left as it was, and no message is emitted.
#[derive(Debug, Clone, Copy, PartialEq, Eq, Structural)]
pub enum Fault {
    /// A frame was built from a slice that is not exactly 60 octets long.
    BadFrameSize,
    /// A frame's EtherType marks it neither as reset nor as entangled.
    BadEtherType,
    /// An entangled frame carries an I-state outside TICK, TECK, TACK and RTECK.
    BadIState,
    /// A frame carries the last 16-bit sequence number, so that the reply to
    /// it has none.
    SequenceExhausted,
    /// A TACK arrived although no transfer was awaiting acknowledgement.
    BalanceInvariantViolated,
    /// A second credit or request arrived while the first was still pending.
    CreditDuplicated,
    /// A payload or acknowledgement arrived for which no credit was held.
    CreditMissing,
    /// The transport channel is disconnected.
    TransportClosed,
    /// An event needed the component's own handle, or its hub, before it was set.
    NotInitialized,
    /// The component was told its own handle a second time.
    AlreadyInitialized,
    /// An event names a port that the component does not own.
    UnknownPort,
    /// An event arrived that the component's current state gives no meaning to.
    UnexpectedEvent,
}

} // verus!
