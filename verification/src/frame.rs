//! Bit-exact encoding of the 60-octet link frame and its 44-octet payload.
//!
//! ```text
//!  octet  0      I-state (high bit: CTRL flag)
//!  octets 2..6   tree id, big-endian
//!  octet  6      U-state
//!  octets 8..12  nonce, big-endian
//!  octets 12..14 EtherType: 0x88B5 reset, 0x88B6 entangled
//!  octets 14..16 sequence number, big-endian
//!  octets 16..60 payload
//! ```
use crate::fault::Fault;
use vstd::prelude::*;

verus! {

/// Octets in a payload.
pub const PAYLOAD_SIZE: usize = 44;

/// Octets in a frame (64 less the 4-octet frame check sequence).
pub const FRAME_SIZE: usize = 60;

/// Liveness.
pub const TICK: u8 = 0x03;

/// Begin a transfer.
pub const TECK: u8 = 0x07;

/// Reject a transfer.
pub const RTECK: u8 = 0x0B;

/// Acknowledge a transfer.
pub const TACK: u8 = 0x0F;

/// Flag in the I-state octet that marks a control payload.
pub const CTRL: u8 = 0x80;

/// Control operation: a port has failed, re-route to this one.
pub const FAILOVER_R: u8 = 0x1E;

/// Control operation: re-routing is done.
pub const FAILOVER_D: u8 = 0xE1;

/// The 16-bit number whose big-endian octets are `hi`, `lo`.
pub open spec fn be16(hi: u8, lo: u8) -> u16 {
    (hi as int * 0x100 + lo as int) as u16
}

/// The 32-bit number whose big-endian octets are `b0`, `b1`, `b2`, `b3`.
pub open spec fn be32(b0: u8, b1: u8, b2: u8, b3: u8) -> u32 {
    (b0 as int * 0x100_0000 + b1 as int * 0x1_0000 + b2 as int * 0x100 + b3 as int) as u32
}

/// Octet `k` (0 is the most significant) of the big-endian form of `n`.
pub open spec fn be32_octet(n: u32, k: int) -> u8 {
    if k == 0 {
        (n as int / 0x100_0000) as u8
    } else if k == 1 {
        (n as int / 0x1_0000 % 0x100) as u8
    } else if k == 2 {
        (n as int / 0x100 % 0x100) as u8
    } else {
        (n as int % 0x100) as u8
    }
}

/// Octet `k` (0 is the most significant) of the big-endian form of `n`.
pub open spec fn be16_octet(n: u16, k: int) -> u8 {
    if k == 0 {
        (n as int / 0x100) as u8
    } else {
        (n as int % 0x100) as u8
    }
}

/// The array of `N` octets that holds the first `n` octets of `bytes`, and
/// zero after them.
pub open spec fn octets_prefix<const N: usize>(bytes: Seq<u8>, n: nat) -> [u8; N]
    decreases n,
{
    if n == 0 {
        vstd::array::spec_array_fill_for_copy_type::<u8, N>(0u8)
    } else {
        vstd::array::spec_array_update(
            octets_prefix::<N>(bytes, (n - 1) as nat),
            n - 1,
            bytes[n - 1],
        )
    }
}

/// The array of `N` octets that holds `bytes`.
pub open spec fn octets<const N: usize>(bytes: Seq<u8>) -> [u8; N] {
    octets_prefix::<N>(bytes, N as nat)
}

/// `octets_prefix` agrees with `bytes` on the first `n` places.
pub proof fn lemma_octets_prefix<const N: usize>(bytes: Seq<u8>, n: nat)
    requires
        n <= N,
    ensures
        forall|j: int| 0 <= j < n ==> octets_prefix::<N>(bytes, n)@[j] == bytes[j],
    decreases n,
{
    if n > 0 {
        lemma_octets_prefix::<N>(bytes, (n - 1) as nat);
    }
}

/// An array is the array of its own octets, and `octets` of `N` octets views
/// as those octets.
pub proof fn lemma_octets<const N: usize>(bytes: Seq<u8>)
    requires
        bytes.len() == N,
    ensures
        octets::<N>(bytes)@ == bytes,
{
    lemma_octets_prefix::<N>(bytes, N as nat);
    assert(octets::<N>(bytes)@ =~= bytes);
}

/// Two arrays with the same octets are the same array.
pub proof fn lemma_octets_of_view<const N: usize>(a: [u8; N])
    ensures
        octets::<N>(a@) == a,
{
    lemma_octets::<N>(a@);
    assert(octets::<N>(a@) =~= a);
}

/// Identifier of a routing tree; its meaning lies outside this crate.
#[derive(Debug, Clone, Copy, PartialEq, Eq, Structural)]
pub struct TreeId {
    pub id: u32,
}

impl TreeId {
    pub fn new(id: u32) -> (t: TreeId)
        ensures
            t == (TreeId { id }),
    {
        TreeId { id }
    }

    pub fn get_id(&self) -> (id: u32)
        ensures
            id == self.id,
    {
        self.id
    }
}

/// One unit of transfer: 44 octets, the tree they travel on, and whether
/// they are a control message of the hubs rather than data of the cells.
#[derive(Debug, Clone, Copy, PartialEq, Eq)]
pub struct Payload {
    pub ctrl: bool,
    pub id: TreeId,
    pub data: [u8; PAYLOAD_SIZE],
}

impl Payload {
    /// This payload with octet `i` replaced by `b`.
    pub open spec fn with_octet(self, i: int, b: u8) -> Payload {
        Payload { data: vstd::array::spec_array_update(self.data, i, b), ..self }
    }

    /// The operation code of a control message: octet 36.
    pub open spec fn spec_op(self) -> u8 {
        self.data@[36]
    }

    /// The octet operand of a control message: octet 37.
    pub open spec fn spec_u8(self) -> u8 {
        self.data@[37]
    }

    /// The 16-bit operand of a control message: octets 38..40, big-endian.
    pub open spec fn spec_u16(self) -> u16 {
        be16(self.data@[38], self.data@[39])
    }

    /// The 32-bit operand of a control message: octets 40..44, big-endian.
    pub open spec fn spec_u32(self) -> u32 {
        be32(self.data@[40], self.data@[41], self.data@[42], self.data@[43])
    }

    pub open spec fn spec_set_u16(self, n: u16) -> Payload {
        self.with_octet(38, be16_octet(n, 0)).with_octet(39, be16_octet(n, 1))
    }

    pub open spec fn spec_set_u32(self, w: u32) -> Payload {
        self.with_octet(40, be32_octet(w, 0)).with_octet(41, be32_octet(w, 1)).with_octet(
            42,
            be32_octet(w, 2),
        ).with_octet(43, be32_octet(w, 3))
    }

    /// The data payload on tree `id` that holds `data`.
    pub open spec fn spec_new(id: TreeId, data: Seq<u8>) -> Payload {
        Payload { ctrl: false, id, data: octets::<PAYLOAD_SIZE>(data) }
    }

    /// The control message `{op, b, n, w}` on tree `id`. Its last eight
    /// octets hold the operation at 36, the octet operand at 37, the 16-bit
    /// operand at 38..40 and the 32-bit operand at 40..44, both big-endian;
    /// every octet before them is `0xFF`.
    pub open spec fn spec_ctrl_msg(id: TreeId, op: u8, b: u8, n: u16, w: u32) -> Payload {
        (Payload {
            ctrl: true,
            id,
            data: vstd::array::spec_array_fill_for_copy_type::<u8, PAYLOAD_SIZE>(0xFFu8),
        }).with_octet(36, op).with_octet(37, b).spec_set_u16(n).spec_set_u32(w)
    }

    /// A data payload.
    pub fn new(id: &TreeId, data: &[u8]) -> (p: Payload)
        requires
            data@.len() == PAYLOAD_SIZE,
        ensures
            p == Payload::spec_new(*id, data@),
            !p.ctrl,
            p.id == *id,
            p.data@ == data@,
    {
        let mut buf = [0u8; PAYLOAD_SIZE];
        let mut i: usize = 0;
        while i < PAYLOAD_SIZE
            invariant
                i <= PAYLOAD_SIZE,
                data@.len() == PAYLOAD_SIZE,
                forall|j: int| 0 <= j < i ==> buf@[j] == data@[j],
            decreases PAYLOAD_SIZE - i,
        {
            buf[i] = data[i];
            i += 1;
        }
        proof {
            assert(buf@ =~= data@);
            lemma_octets_of_view::<PAYLOAD_SIZE>(buf);
        }
        Payload { ctrl: false, id: *id, data: buf }
    }

    /// A control payload.
    pub fn ctrl(id: &TreeId, data: &[u8]) -> (p: Payload)
        requires
            data@.len() == PAYLOAD_SIZE,
        ensures
            p == (Payload { ctrl: true, ..Payload::spec_new(*id, data@) }),
            p.data@ == data@,
    {
        let mut payload = Payload::new(id, data);
        payload.ctrl = true;
        payload
    }

    /// The control message `{op, b, n, w}`.
    pub fn ctrl_msg(id: &TreeId, op: u8, b: u8, n: u16, w: u32) -> (p: Payload)
        ensures
            p == Payload::spec_ctrl_msg(*id, op, b, n, w),
            p.ctrl,
            p.id == *id,
            p.spec_op() == op,
            p.spec_u8() == b,
            p.spec_u16() == n,
            p.spec_u32() == w,
            forall|j: int| 0 <= j < 36 ==> p.data@[j] == 0xFF,
    {
        let mut payload = Payload { ctrl: true, id: *id, data: [0xFFu8; PAYLOAD_SIZE] };
        payload.set_op(op);
        payload.set_u8(b);
        payload.set_u16(n);
        payload.set_u32(w);
        payload
    }

    pub fn set_op(&mut self, op: u8)
        ensures
            *final(self) == old(self).with_octet(36, op),
            final(self).spec_op() == op,
    {
        self.data[36] = op;
    }

    pub fn get_op(&self) -> (op: u8)
        ensures
            op == self.spec_op(),
    {
        self.data[36]
    }

    pub fn set_u8(&mut self, b: u8)
        ensures
            *final(self) == old(self).with_octet(37, b),
            final(self).spec_u8() == b,
    {
        self.data[37] = b;
    }

    pub fn get_u8(&self) -> (b: u8)
        ensures
            b == self.spec_u8(),
    {
        self.data[37]
    }

    pub fn set_u16(&mut self, n: u16)
        ensures
            *final(self) == old(self).spec_set_u16(n),
            final(self).spec_u16() == n,
    {
        self.data[38] = (n / 0x100) as u8;
        self.data[39] = (n % 0x100) as u8;
    }

    pub fn get_u16(&self) -> (n: u16)
        ensures
            n == self.spec_u16(),
    {
        let hi: u16 = self.data[38] as u16;
        let lo: u16 = self.data[39] as u16;
        hi * 0x100 + lo
    }

    pub fn set_u32(&mut self, w: u32)
        ensures
            *final(self) == old(self).spec_set_u32(w),
            final(self).spec_u32() == w,
    {
        self.data[40] = (w / 0x100_0000) as u8;
        self.data[41] = (w / 0x1_0000 % 0x100) as u8;
        self.data[42] = (w / 0x100 % 0x100) as u8;
        self.data[43] = (w % 0x100) as u8;
    }

    pub fn get_u32(&self) -> (w: u32)
        ensures
            w == self.spec_u32(),
    {
        let b0: u32 = self.data[40] as u32;
        let b1: u32 = self.data[41] as u32;
        let b2: u32 = self.data[42] as u32;
        let b3: u32 = self.data[43] as u32;
        b0 * 0x100_0000 + b1 * 0x1_0000 + b2 * 0x100 + b3
    }
}

/// A 60-octet frame as it travels on the wire.
#[derive(Debug, Clone, Copy, PartialEq, Eq)]
pub struct Frame {
    pub data: [u8; FRAME_SIZE],
}

impl View for Frame {
    type V = Seq<u8>;

    open spec fn view(&self) -> Seq<u8> {
        self.data@
    }
}

impl Frame {
    /// This frame with octet `i` replaced by `b`.
    pub open spec fn with_octet(self, i: int, b: u8) -> Frame {
        Frame { data: vstd::array::spec_array_update(self.data, i, b) }
    }

    /// The skeleton of every frame: broadcast destination, zero source,
    /// EtherType entangled, sequence zero, and a payload of spaces.
    pub open spec fn spec_default() -> Frame {
        (Frame {
            data: vstd::array::spec_array_fill_for_copy_type::<u8, FRAME_SIZE>(0x20u8),
        }).with_octet(0, 0xFF).with_octet(1, 0xFF).with_octet(2, 0xFF).with_octet(3, 0xFF).with_octet(
            4,
            0xFF,
        ).with_octet(5, 0xFF).with_octet(6, 0x00).with_octet(7, 0x00).with_octet(8, 0x00).with_octet(
            9,
            0x00,
        ).with_octet(10, 0x00).with_octet(11, 0x00).with_octet(12, 0x88).with_octet(13, 0xB6).with_octet(
            14,
            0x00,
        ).with_octet(15, 0x00)
    }

    /// What a slice of octets decodes to: a frame exactly when there are 60.
    pub open spec fn spec_decode(bytes: Seq<u8>) -> Option<Frame> {
        if bytes.len() == FRAME_SIZE {
            Some(Frame { data: octets::<FRAME_SIZE>(bytes) })
        } else {
            None
        }
    }

    pub open spec fn spec_is_reset(self) -> bool {
        self.data@[12] == 0x88 && self.data@[13] == 0xB5
    }

    pub open spec fn spec_is_entangled(self) -> bool {
        self.data@[12] == 0x88 && self.data@[13] == 0xB6
    }

    pub open spec fn spec_nonce(self) -> u32 {
        be32(self.data@[8], self.data@[9], self.data@[10], self.data@[11])
    }

    pub open spec fn spec_tree_id(self) -> TreeId {
        TreeId { id: be32(self.data@[2], self.data@[3], self.data@[4], self.data@[5]) }
    }

    /// The I-state with the CTRL flag masked out.
    pub open spec fn spec_i_state(self) -> u8 {
        self.data@[0] & 0x7F
    }

    pub open spec fn spec_u_state(self) -> u8 {
        self.data@[6]
    }

    pub open spec fn spec_sequence(self) -> u16 {
        be16(self.data@[14], self.data@[15])
    }

    pub open spec fn spec_is_control(self) -> bool {
        self.data@[0] & 0x80 == 0x80
    }

    /// The payload that the frame carries.
    pub open spec fn spec_payload(self) -> Payload {
        Payload {
            ctrl: self.spec_is_control(),
            id: self.spec_tree_id(),
            data: octets::<PAYLOAD_SIZE>(self.data@.subrange(16, 60)),
        }
    }

    pub open spec fn spec_set_reset(self) -> Frame {
        self.with_octet(13, 0xB5)
    }

    pub open spec fn spec_set_entangled(self) -> Frame {
        self.with_octet(13, 0xB6)
    }

    pub open spec fn spec_set_nonce(self, nonce: u32) -> Frame {
        self.with_octet(8, be32_octet(nonce, 0)).with_octet(9, be32_octet(nonce, 1)).with_octet(
            10,
            be32_octet(nonce, 2),
        ).with_octet(11, be32_octet(nonce, 3))
    }

    pub open spec fn spec_set_tree_id(self, tree_id: TreeId) -> Frame {
        self.with_octet(2, be32_octet(tree_id.id, 0)).with_octet(
            3,
            be32_octet(tree_id.id, 1),
        ).with_octet(4, be32_octet(tree_id.id, 2)).with_octet(5, be32_octet(tree_id.id, 3))
    }

    pub open spec fn spec_set_i_state(self, i: u8) -> Frame {
        self.with_octet(0, i)
    }

    pub open spec fn spec_set_u_state(self, u: u8) -> Frame {
        self.with_octet(6, u)
    }

    pub open spec fn spec_set_sequence(self, sequence: u16) -> Frame {
        self.with_octet(14, be16_octet(sequence, 0)).with_octet(15, be16_octet(sequence, 1))
    }

    pub open spec fn spec_set_control(self) -> Frame {
        self.with_octet(0, self.data@[0] | 0x80)
    }

    /// The frame with `payload` in it: the CTRL flag is raised for a control
    /// payload (never lowered), the tree id is the payload's, and octets
    /// 16..60 are the payload's data.
    pub open spec fn spec_set_payload(self, payload: Payload) -> Frame {
        let flagged = if payload.ctrl {
            self.spec_set_control()
        } else {
            self
        };
        let routed = flagged.spec_set_tree_id(payload.id);
        Frame { data: octets::<FRAME_SIZE>(routed.data@.subrange(0, 16) + payload.data@) }
    }

    /// The reset frame that carries `nonce`.
    pub open spec fn spec_new_reset(nonce: u32) -> Frame {
        Frame::spec_default().spec_set_reset().spec_set_nonce(nonce)
    }

    /// The entangled frame with the given sequence number and protocol states.
    pub open spec fn spec_new_entangled(seq: u16, i: u8, u: u8) -> Frame {
        Frame::spec_default().spec_set_entangled().spec_set_sequence(seq).spec_set_i_state(
            i,
        ).spec_set_u_state(u)
    }

    /// Decodes a frame from exactly 60 octets.
    pub fn new(data: &[u8]) -> (r: Result<Frame, Fault>)
        ensures
            r == match Frame::spec_decode(data@) {
                Some(frame) => Ok::<Frame, Fault>(frame),
                None => Err(Fault::BadFrameSize),
            },
            r is Ok <==> data@.len() == FRAME_SIZE,
            r is Ok ==> r->Ok_0@ == data@,
    {
        if data.len() != FRAME_SIZE {
            return Err(Fault::BadFrameSize);
        }
        let mut buf = [0u8; FRAME_SIZE];
        let mut i: usize = 0;
        while i < FRAME_SIZE
            invariant
                i <= FRAME_SIZE,
                data@.len() == FRAME_SIZE,
                forall|j: int| 0 <= j < i ==> buf@[j] == data@[j],
            decreases FRAME_SIZE - i,
        {
            buf[i] = data[i];
            i += 1;
        }
        proof {
            assert(buf@ =~= data@);
            lemma_octets_of_view::<FRAME_SIZE>(buf);
        }
        Ok(Frame { data: buf })
    }

    /// A reset frame that carries `nonce`.
    pub fn new_reset(nonce: u32) -> (frame: Frame)
        ensures
            frame == Frame::spec_new_reset(nonce),
    {
        let mut frame = Frame::default();
        frame.set_reset();
        frame.set_nonce(nonce);
        frame
    }

    /// An entangled frame with sequence number `seq`, I-state `i` and U-state `u`.
    pub fn new_entangled(seq: u16, i: u8, u: u8) -> (frame: Frame)
        ensures
            frame == Frame::spec_new_entangled(seq, i, u),
    {
        let mut frame = Frame::default();
        frame.set_entangled();
        frame.set_sequence(seq);
        frame.set_i_state(i);
        frame.set_u_state(u);
        frame
    }

    pub fn set_reset(&mut self)
        ensures
            *final(self) == old(self).spec_set_reset(),
    {
        self.data[13] = 0xB5;
    }

    pub fn is_reset(&self) -> (b: bool)
        ensures
            b == self.spec_is_reset(),
    {
        (self.data[12] == 0x88) && (self.data[13] == 0xB5)
    }

    pub fn set_entangled(&mut self)
        ensures
            *final(self) == old(self).spec_set_entangled(),
    {
        self.data[13] = 0xB6;
    }

    pub fn is_entangled(&self) -> (b: bool)
        ensures
            b == self.spec_is_entangled(),
    {
        (self.data[12] == 0x88) && (self.data[13] == 0xB6)
    }

    pub fn set_nonce(&mut self, nonce: u32)
        ensures
            *final(self) == old(self).spec_set_nonce(nonce),
            final(self).spec_nonce() == nonce,
    {
        self.data[8] = (nonce / 0x100_0000) as u8;
        self.data[9] = (nonce / 0x1_0000 % 0x100) as u8;
        self.data[10] = (nonce / 0x100 % 0x100) as u8;
        self.data[11] = (nonce % 0x100) as u8;
    }

    pub fn get_nonce(&self) -> (nonce: u32)
        ensures
            nonce == self.spec_nonce(),
    {
        let b0: u32 = self.data[8] as u32;
        let b1: u32 = self.data[9] as u32;
        let b2: u32 = self.data[10] as u32;
        let b3: u32 = self.data[11] as u32;
        b0 * 0x100_0000 + b1 * 0x1_0000 + b2 * 0x100 + b3
    }

    pub fn set_tree_id(&mut self, tree_id: &TreeId)
        ensures
            *final(self) == old(self).spec_set_tree_id(*tree_id),
            final(self).spec_tree_id() == *tree_id,
    {
        let id: u32 = tree_id.get_id();
        self.data[2] = (id / 0x100_0000) as u8;
        self.data[3] = (id / 0x1_0000 % 0x100) as u8;
        self.data[4] = (id / 0x100 % 0x100) as u8;
        self.data[5] = (id % 0x100) as u8;
    }

    pub fn get_tree_id(&self) -> (tree_id: TreeId)
        ensures
            tree_id == self.spec_tree_id(),
    {
        let b0: u32 = self.data[2] as u32;
        let b1: u32 = self.data[3] as u32;
        let b2: u32 = self.data[4] as u32;
        let b3: u32 = self.data[5] as u32;
        TreeId::new(b0 * 0x100_0000 + b1 * 0x1_0000 + b2 * 0x100 + b3)
    }

    pub fn set_i_state(&mut self, i: u8)
        ensures
            *final(self) == old(self).spec_set_i_state(i),
    {
        self.data[0] = i;
    }

    /// The I-state, without the CTRL flag.
    pub fn get_i_state(&self) -> (i: u8)
        ensures
            i == self.spec_i_state(),
    {
        self.data[0] & 0x7F
    }

    pub fn set_u_state(&mut self, u: u8)
        ensures
            *final(self) == old(self).spec_set_u_state(u),
    {
        self.data[6] = u;
    }

    pub fn get_u_state(&self) -> (u: u8)
        ensures
            u == self.spec_u_state(),
    {
        self.data[6]
    }

    pub fn set_sequence(&mut self, sequence: u16)
        ensures
            *final(self) == old(self).spec_set_sequence(sequence),
            final(self).spec_sequence() == sequence,
    {
        self.data[14] = (sequence / 0x100) as u8;
        self.data[15] = (sequence % 0x100) as u8;
    }

    pub fn get_sequence(&self) -> (sequence: u16)
        ensures
            sequence == self.spec_sequence(),
    {
        let hi: u16 = self.data[14] as u16;
        let lo: u16 = self.data[15] as u16;
        hi * 0x100 + lo
    }

    pub fn set_control(&mut self)
        ensures
            *final(self) == old(self).spec_set_control(),
            final(self).spec_is_control(),
    {
        let current: u8 = self.data[0];
        let flagged: u8 = current | CTRL;
        assert(flagged & 0x80 == 0x80) by (bit_vector)
            requires
                flagged == current | 0x80,
        ;
        self.data[0] = flagged;
    }

    pub fn is_control(&self) -> (b: bool)
        ensures
            b == self.spec_is_control(),
    {
        (self.data[0] & CTRL) == CTRL
    }

    /// Puts `payload` into the frame.
    pub fn set_payload(&mut self, payload: &Payload)
        ensures
            *final(self) == old(self).spec_set_payload(*payload),
    {
        if payload.ctrl {
            self.set_control();
        }
        self.set_tree_id(&payload.id);
        let ghost routed = *self;
        let mut i: usize = 0;
        while i < PAYLOAD_SIZE
            invariant
                i <= PAYLOAD_SIZE,
                forall|j: int| 0 <= j < 16 ==> self.data@[j] == routed.data@[j],
                forall|j: int| 0 <= j < i ==> self.data@[16 + j] == payload.data@[j],
            decreases PAYLOAD_SIZE - i,
        {
            self.data[16 + i] = payload.data[i];
            i += 1;
        }
        proof {
            let bytes = routed.data@.subrange(0, 16) + payload.data@;
            assert(self.data@ =~= bytes);
            lemma_octets_of_view::<FRAME_SIZE>(self.data);
        }
    }

    /// The payload that the frame carries.
    pub fn get_payload(&self) -> (payload: Payload)
        ensures
            payload == self.spec_payload(),
            payload.data@ == self.data@.subrange(16, 60),
    {
        let tree_id = self.get_tree_id();
        let mut buf = [0u8; PAYLOAD_SIZE];
        let mut i: usize = 0;
        while i < PAYLOAD_SIZE
            invariant
                i <= PAYLOAD_SIZE,
                forall|j: int| 0 <= j < i ==> buf@[j] == self.data@[16 + j],
            decreases PAYLOAD_SIZE - i,
        {
            buf[i] = self.data[16 + i];
            i += 1;
        }
        proof {
            assert(buf@ =~= self.data@.subrange(16, 60));
            lemma_octets_of_view::<PAYLOAD_SIZE>(buf);
        }
        Payload { ctrl: self.is_control(), id: tree_id, data: buf }
    }
}

impl Default for Frame {
    /// The skeleton of an entangled frame.
    fn default() -> (frame: Frame)
        ensures
            frame == Frame::spec_default(),
    {
        let mut data = [0x20u8; FRAME_SIZE];
        data[0] = 0xFF;
        data[1] = 0xFF;
        data[2] = 0xFF;
        data[3] = 0xFF;
        data[4] = 0xFF;
        data[5] = 0xFF;
        data[6] = 0x00;
        data[7] = 0x00;
        data[8] = 0x00;
        data[9] = 0x00;
        data[10] = 0x00;
        data[11] = 0x00;
        data[12] = 0x88;
        data[13] = 0xB6;
        data[14] = 0x00;
        data[15] = 0x00;
        Frame { data }
    }
}

/// Decoding the octets of a frame gives that frame back.
pub proof fn lemma_decode_encode(frame: Frame)
    ensures
        Frame::spec_decode(frame@) == Some(frame),
{
    lemma_octets_of_view::<FRAME_SIZE>(frame.data);
}

/// A reset frame survives the wire: decoding its octets gives a frame that is
/// classified as reset, not as entangled, and carries the same nonce.
pub proof fn lemma_reset_round_trip(nonce: u32)
    ensures
        Frame::spec_decode(Frame::spec_new_reset(nonce)@) matches Some(frame) && {
            &&& frame.spec_nonce() == nonce
            &&& frame.spec_is_reset()
            &&& !frame.spec_is_entangled()
        },
{
    lemma_decode_encode(Frame::spec_new_reset(nonce));
}

/// An entangled frame survives the wire: decoding its octets gives a frame
/// that is classified as entangled, not as reset, and carries the same
/// sequence number, I-state and U-state. The I-state octet shares its high
/// bit with the CTRL flag, so this holds of the I-states below `0x80`.
pub proof fn lemma_entangled_round_trip(seq: u16, i: u8, u: u8)
    requires
        i < 0x80,
    ensures
        Frame::spec_decode(Frame::spec_new_entangled(seq, i, u)@) matches Some(frame) && {
            &&& frame.spec_sequence() == seq
            &&& frame.spec_i_state() == i
            &&& frame.spec_u_state() == u
            &&& frame.spec_is_entangled()
            &&& !frame.spec_is_reset()
            &&& !frame.spec_is_control()
        },
{
    lemma_decode_encode(Frame::spec_new_entangled(seq, i, u));
    assert(i & 0x7F == i && i & 0x80 != 0x80) by (bit_vector)
        requires
            i < 0x80,
    ;
}

/// A payload put into an entangled frame is the payload read out of it, and
/// the frame keeps its classification, sequence number and protocol states.
pub proof fn lemma_payload_round_trip(seq: u16, i: u8, u: u8, payload: Payload)
    requires
        i < 0x80,
    ensures
        ({
            let frame = Frame::spec_new_entangled(seq, i, u).spec_set_payload(payload);
            &&& frame.spec_payload() == payload
            &&& frame.spec_sequence() == seq
            &&& frame.spec_i_state() == i
            &&& frame.spec_u_state() == u
            &&& frame.spec_is_entangled()
            &&& !frame.spec_is_reset()
        }),
{
    let bare = Frame::spec_new_entangled(seq, i, u);
    let flagged = if payload.ctrl {
        bare.spec_set_control()
    } else {
        bare
    };
    let routed = flagged.spec_set_tree_id(payload.id);
    let bytes = routed.data@.subrange(0, 16) + payload.data@;
    let frame = bare.spec_set_payload(payload);
    lemma_octets::<FRAME_SIZE>(bytes);
    assert(frame.data@ == bytes);
    assert(i & 0x7F == i && i & 0x80 != 0x80 && (i | 0x80) & 0x7F == i && (i | 0x80) & 0x80
        == 0x80) by (bit_vector)
        requires
            i < 0x80,
    ;
    assert(frame.data@.subrange(16, 60) =~= payload.data@);
    lemma_octets_of_view::<PAYLOAD_SIZE>(payload.data);
}

} // verus!
