//! Liveness alone: the reset handshake and the exchange of TICKs, without
//! transfers. This is what the link-liveness tool speaks.
use crate::frame::{Frame, TICK};
use vstd::prelude::*;

verus! {

/// What an endpoint does about a frame it has received.
#[derive(Debug, Clone, Copy, PartialEq, Eq, Structural)]
pub enum Action {
    /// The peer has the larger nonce: wait for it to entangle.
    Wait,
    /// The peer has the smaller nonce: send the first TICK.
    Entangle,
    /// The peer has the same nonce: take a new one and send a reset again.
    Rekey,
    /// Liveness: answer TICK, with the I-state received as the U-state.
    Tick(u8),
    /// An entangled frame that is no TICK: the exchange stops.
    Freeze,
    /// Neither reset nor entangled.
    Invalid,
}

/// What an endpoint with the given nonce does about `frame`.
pub open spec fn spec_on_recv(nonce: u32, frame: Frame) -> Action {
    if frame.spec_is_reset() {
        if nonce < frame.spec_nonce() {
            Action::Wait
        } else if nonce > frame.spec_nonce() {
            Action::Entangle
        } else {
            Action::Rekey
        }
    } else if frame.spec_is_entangled() {
        if frame.spec_i_state() == TICK {
            Action::Tick(frame.spec_i_state())
        } else {
            Action::Freeze
        }
    } else {
        Action::Invalid
    }
}

/// The frame that an action sends, if it sends one; `nonce` is the
/// endpoint's nonce after the action.
pub open spec fn spec_answer(action: Action, nonce: u32) -> Option<Frame> {
    match action {
        Action::Entangle => Some(Frame::spec_new_entangled(0, TICK, TICK)),
        Action::Rekey => Some(Frame::spec_new_reset(nonce)),
        Action::Tick(i) => Some(Frame::spec_new_entangled(0, TICK, i)),
        _ => None,
    }
}

/// What an endpoint with the given nonce does about `frame`.
pub fn on_recv(nonce: u32, frame: &Frame) -> (action: Action)
    ensures
        action == spec_on_recv(nonce, *frame),
{
    if frame.is_reset() {
        let other: u32 = frame.get_nonce();
        if nonce < other {
            Action::Wait
        } else if nonce > other {
            Action::Entangle
        } else {
            Action::Rekey
        }
    } else if frame.is_entangled() {
        let i_state: u8 = frame.get_i_state();
        if i_state == TICK {
            Action::Tick(i_state)
        } else {
            Action::Freeze
        }
    } else {
        Action::Invalid
    }
}

/// The frame that an action sends, if it sends one; `nonce` is the
/// endpoint's nonce after the action.
pub fn answer(action: Action, nonce: u32) -> (frame: Option<Frame>)
    ensures
        frame == spec_answer(action, nonce),
{
    match action {
        Action::Entangle => Some(Frame::new_entangled(0, TICK, TICK)),
        Action::Rekey => Some(Frame::new_reset(nonce)),
        Action::Tick(i) => Some(Frame::new_entangled(0, TICK, i)),
        _ => None,
    }
}

} // verus!
