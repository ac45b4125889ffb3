use ether::fault::Fault;
use ether::frame::{
    Frame, Payload, TreeId, CTRL, FAILOVER_D, FAILOVER_R, FRAME_SIZE, PAYLOAD_SIZE, RTECK, TACK,
    TECK, TICK,
};

#[test]
fn constants_are_those_of_the_wire_format() {
    assert_eq!(44, PAYLOAD_SIZE);
    assert_eq!(60, FRAME_SIZE);
    assert_eq!(
        [0x03, 0x07, 0x0B, 0x0F, 0x80, 0x1E, 0xE1],
        [TICK, TECK, RTECK, TACK, CTRL, FAILOVER_R, FAILOVER_D]
    );
}

#[test]
fn default_frame_is_the_entangled_skeleton() {
    let frame = Frame::default();
    let mut expected = [0x20u8; 60];
    expected[..16].copy_from_slice(b"\xFF\xFF\xFF\xFF\xFF\xFF\x00\x00\x00\x00\x00\x00\x88\xB6\x00\x00");
    assert_eq!(expected, frame.data);
    assert!(frame.is_entangled());
    assert!(!frame.is_reset());
}

#[test]
fn reset_frame_is_bit_exact() {
    let frame = Frame::new_reset(0x12345678);
    let mut expected = [0x20u8; 60];
    expected[..16].copy_from_slice(b"\xFF\xFF\xFF\xFF\xFF\xFF\x00\x00\x12\x34\x56\x78\x88\xB5\x00\x00");
    assert_eq!(expected, frame.data);
    assert_eq!(0, frame.get_sequence());
}

#[test]
fn entangled_frame_is_bit_exact() {
    let frame = Frame::new_entangled(0xABCD, TECK, TICK);
    let mut expected = [0x20u8; 60];
    expected[..16].copy_from_slice(b"\x07\xFF\xFF\xFF\xFF\xFF\x03\x00\x00\x00\x00\x00\x88\xB6\xAB\xCD");
    assert_eq!(expected, frame.data);
}

#[test]
fn reset_round_trip() {
    for nonce in [1u32, 42, 0x12345678, 0x00FF00FF, u32::MAX] {
        let sent = Frame::new_reset(nonce);
        let frame = Frame::new(&sent.data).expect("60 octets");
        assert_eq!(sent, frame);
        assert_eq!(nonce, frame.get_nonce());
        assert!(frame.is_reset());
        assert!(!frame.is_entangled());
    }
}

#[test]
fn entangled_round_trip() {
    for (seq, i, u) in [(0u16, TICK, TICK), (1, TECK, TICK), (0x1234, TACK, TECK), (u16::MAX, RTECK, 0xFF)] {
        let sent = Frame::new_entangled(seq, i, u);
        let frame = Frame::new(&sent.data).expect("60 octets");
        assert_eq!((seq, i, u), (frame.get_sequence(), frame.get_i_state(), frame.get_u_state()));
        assert!(frame.is_entangled());
        assert!(!frame.is_reset());
        assert!(!frame.is_control());
    }
}

#[test]
fn i_state_shares_its_octet_with_the_control_flag() {
    let frame = Frame::new_entangled(5, 0x83, TICK);
    assert_eq!(TICK, frame.get_i_state());
    assert!(frame.is_control());
    let mut frame = Frame::new_entangled(5, TACK, TICK);
    assert!(!frame.is_control());
    frame.set_control();
    assert!(frame.is_control());
    assert_eq!(0x8F, frame.data[0]);
    assert_eq!(TACK, frame.get_i_state());
}

#[test]
fn frame_of_wrong_size_is_refused() {
    assert_eq!(Err(Fault::BadFrameSize), Frame::new(&[0u8; 59]));
    assert_eq!(Err(Fault::BadFrameSize), Frame::new(&[0u8; 61]));
    assert_eq!(Err(Fault::BadFrameSize), Frame::new(&[]));
    let octets: Vec<u8> = (0..60).collect();
    let frame = Frame::new(&octets).expect("60 octets");
    assert_eq!(octets, frame.data.to_vec());
    assert!(!frame.is_reset());
    assert!(!frame.is_entangled());
}

#[test]
fn setters_touch_their_own_octets_only() {
    let mut frame = Frame::new(&[0u8; 60]).unwrap();
    frame.set_nonce(0xA1B2C3D4);
    frame.set_tree_id(&TreeId::new(0x01020304));
    frame.set_sequence(0x0506);
    frame.set_i_state(TECK);
    frame.set_u_state(TACK);
    frame.set_reset();
    let mut expected = [0u8; 60];
    expected[..16].copy_from_slice(b"\x07\x00\x01\x02\x03\x04\x0F\x00\xA1\xB2\xC3\xD4\x00\xB5\x05\x06");
    assert_eq!(expected, frame.data);
    assert!(!frame.is_reset());
    frame.set_entangled();
    assert_eq!(0xB6, frame.data[13]);
    assert_eq!(0xA1B2C3D4, frame.get_nonce());
    assert_eq!(0x01020304, frame.get_tree_id().get_id());
    assert_eq!(0x0506, frame.get_sequence());
}

#[test]
fn payload_round_trips_through_a_frame() {
    let data: Vec<u8> = (100..144).collect();
    let payload = Payload::new(&TreeId::new(144), &data);
    assert!(!payload.ctrl);
    assert_eq!(data, payload.data.to_vec());
    let mut frame = Frame::new_entangled(9, TECK, TICK);
    frame.set_payload(&payload);
    assert_eq!(data, frame.data[16..].to_vec());
    assert_eq!([0x00, 0x00, 0x00, 0x90], frame.data[2..6]);
    assert_eq!(payload, frame.get_payload());
    assert_eq!((9, TECK, TICK), (frame.get_sequence(), frame.get_i_state(), frame.get_u_state()));
    assert!(frame.is_entangled());
}

#[test]
fn control_payload_raises_the_control_flag() {
    let payload = Payload::ctrl(&TreeId::new(7), &[0xEE; 44]);
    assert!(payload.ctrl);
    let mut frame = Frame::new_entangled(9, TECK, TICK);
    frame.set_payload(&payload);
    assert_eq!(0x87, frame.data[0]);
    assert_eq!(TECK, frame.get_i_state());
    assert_eq!(payload, frame.get_payload());
    // A data payload does not lower the flag again.
    frame.set_payload(&Payload::new(&TreeId::new(7), &[0x11; 44]));
    assert!(frame.get_payload().ctrl);
}

#[test]
fn control_message_is_bit_exact() {
    let msg = Payload::ctrl_msg(&TreeId::new(0x8888), FAILOVER_R, 0xFF, 0x0102, 0x44556677);
    let mut expected = [0xFFu8; 44];
    expected[36..].copy_from_slice(b"\x1E\xFF\x01\x02\x44\x55\x66\x77");
    assert_eq!(expected, msg.data);
    assert!(msg.ctrl);
    assert_eq!(0x8888, msg.id.get_id());
    assert_eq!(
        (FAILOVER_R, 0xFF, 0x0102, 0x44556677),
        (msg.get_op(), msg.get_u8(), msg.get_u16(), msg.get_u32())
    );
}

#[test]
fn failover_message_lists_op_balance_sequence_and_mark() {
    let msg = Payload::ctrl_msg(&TreeId::new(0x8888), FAILOVER_R, 0xFF, 0x0012, 0x44556677);
    assert_eq!([0x1E, 0xFF, 0x00, 0x12, 0x44, 0x55, 0x66, 0x77], msg.data[36..44]);
    assert!(msg.ctrl);
    assert_eq!(0x1E, msg.get_op());
    assert_eq!(-1, msg.get_u8() as i8);
    assert_eq!(0x12, msg.get_u16());
    assert_eq!(0x44556677, msg.get_u32());
}

#[test]
fn payload_setters_touch_their_own_octets_only() {
    let mut payload = Payload::new(&TreeId::new(1), &[0u8; 44]);
    payload.set_op(FAILOVER_D);
    payload.set_u8(0x7F);
    payload.set_u16(0xBEEF);
    payload.set_u32(0xDEADC0DE);
    let mut expected = [0u8; 44];
    expected[36..].copy_from_slice(b"\xE1\x7F\xBE\xEF\xDE\xAD\xC0\xDE");
    assert_eq!(expected, payload.data);
    assert_eq!(FAILOVER_D, payload.get_op());
    assert_eq!(0x7F, payload.get_u8());
    assert_eq!(0xBEEF, payload.get_u16());
    assert_eq!(0xDEADC0DE, payload.get_u32());
}

#[test]
fn tree_id_keeps_its_number() {
    assert_eq!(0x8888, TreeId::new(0x8888).get_id());
    assert_eq!(TreeId::new(3), TreeId::new(3));
    assert_ne!(TreeId::new(3), TreeId::new(4));
}
