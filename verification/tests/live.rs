use ether::frame::{Frame, RTECK, TACK, TECK, TICK};
use ether::live::{answer, on_recv, Action};

#[test]
fn reset_breaks_the_symmetry_by_nonce() {
    assert_eq!(Action::Wait, on_recv(5, &Frame::new_reset(6)));
    assert_eq!(Action::Entangle, on_recv(6, &Frame::new_reset(5)));
    assert_eq!(Action::Rekey, on_recv(5, &Frame::new_reset(5)));
}

#[test]
fn tick_is_answered_and_anything_else_freezes() {
    assert_eq!(Action::Tick(TICK), on_recv(5, &Frame::new_entangled(0, TICK, TACK)));
    assert_eq!(Action::Tick(TICK), on_recv(5, &Frame::new_entangled(9, 0x83, TICK)));
    for i in [TECK, TACK, RTECK, 0x00] {
        assert_eq!(Action::Freeze, on_recv(5, &Frame::new_entangled(0, i, TICK)));
    }
    assert_eq!(Action::Invalid, on_recv(5, &Frame::new(&[0x20; 60]).unwrap()));
}

#[test]
fn actions_send_the_frames_of_the_protocol() {
    assert_eq!(None, answer(Action::Wait, 5));
    assert_eq!(None, answer(Action::Freeze, 5));
    assert_eq!(None, answer(Action::Invalid, 5));
    assert_eq!(Some(Frame::new_entangled(0, TICK, TICK)), answer(Action::Entangle, 5));
    assert_eq!(Some(Frame::new_reset(77)), answer(Action::Rekey, 77));
    assert_eq!(Some(Frame::new_entangled(0, TICK, TICK)), answer(Action::Tick(TICK), 5));
}
