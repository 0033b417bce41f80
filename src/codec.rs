//! The base-frame codec: a streaming decoder from bytes to frames, and the encoder back.
use vstd::prelude::*;
use crate::frame::{
    Frame, FrameView, OpCode, opcode_of, code_of, is_control_op, is_reserved_op, opcode_wf,
    lemma_opcode_round_trip, opt_view,
};
use crate::utf8::{Utf8Status, utf8_status, scan_utf8};
use crate::wire::{
    be_value, be_bytes, masked, read_be, push_be, apply_mask, lemma_be_round_trip,
    lemma_be_value_bound, lemma_pow256_values, lemma_mask_symmetry,
};

verus! {

/// Length code that announces a 16-bit extended payload length.
pub const TWO_EXT: u8 = 126;

/// Length code that announces a 64-bit extended payload length.
pub const EIGHT_EXT: u8 = 127;

/// Largest payload that a control frame may carry.
pub const MAX_CONTROL_PAYLOAD: u64 = 125;

/// Payload lengths must leave the high bit of the 64-bit length clear.
pub const MAX_PAYLOAD_EXCLUSIVE: u64 = 0x8000_0000_0000_0000;

/// Why a frame could not be decoded.
#[derive(Clone, Copy, Debug, PartialEq, Eq, Structural)]
pub enum CodecError {
    /// A structural rule of the wire format is broken.
    ProtocolViolation,
    /// A text payload is not well-formed UTF-8.
    InvalidUtf8,
}

/// The outcome of reading a frame from the start of a byte string.
pub ghost enum Parse {
    /// The bytes are a proper prefix of a frame that is fine so far.
    Incomplete,
    /// The bytes break a rule.
    Failed(CodecError),
    /// The bytes start with this frame, which takes that many of them.
    Done(FrameView, nat),
}

/// The `fin` flag: bit 7 of the first byte.
pub open spec fn fin_bit(s: Seq<u8>) -> bool {
    s[0] >= 128
}

/// The `rsv1` flag: bit 6 of the first byte.
pub open spec fn rsv1_bit(s: Seq<u8>) -> bool {
    (s[0] / 64) % 2 == 1
}

/// The `rsv2` flag: bit 5 of the first byte.
pub open spec fn rsv2_bit(s: Seq<u8>) -> bool {
    (s[0] / 32) % 2 == 1
}

/// The `rsv3` flag: bit 4 of the first byte.
pub open spec fn rsv3_bit(s: Seq<u8>) -> bool {
    (s[0] / 16) % 2 == 1
}

/// The opcode: the low four bits of the first byte.
pub open spec fn op_field(s: Seq<u8>) -> OpCode {
    opcode_of(s[0] % 16)
}

/// The `masked` flag: bit 7 of the second byte.
pub open spec fn mask_bit(s: Seq<u8>) -> bool {
    s[1] >= 128
}

/// The length code: the low seven bits of the second byte.
pub open spec fn length_code(s: Seq<u8>) -> u8 {
    s[1] % 128
}

/// Whether the reserved-bit configuration `rb` permits rsv1 (its bit 4; rsv2 has
/// bit 2 and rsv3 bit 1).
pub open spec fn rsv1_allowed(rb: u8) -> bool {
    (rb / 4) % 2 == 1
}

/// Whether `rb` permits rsv2.
pub open spec fn rsv2_allowed(rb: u8) -> bool {
    (rb / 2) % 2 == 1
}

/// Whether `rb` permits rsv3.
pub open spec fn rsv3_allowed(rb: u8) -> bool {
    rb % 2 == 1
}

/// The first two bytes obey the rules: only permitted reserved bits, no reserved
/// opcode, no fragmented control frame, and a mask exactly when the peer is a client.
pub open spec fn header_ok(client: bool, rb: u8, s: Seq<u8>) -> bool {
    &&& !rsv1_bit(s) || rsv1_allowed(rb)
    &&& !rsv2_bit(s) || rsv2_allowed(rb)
    &&& !rsv3_bit(s) || rsv3_allowed(rb)
    &&& !is_reserved_op(op_field(s))
    &&& !is_control_op(op_field(s)) || fin_bit(s)
    &&& mask_bit(s) == client
}

/// Number of extended length bytes after the first two.
pub open spec fn ext_len(s: Seq<u8>) -> int {
    if length_code(s) == TWO_EXT {
        2
    } else if length_code(s) == EIGHT_EXT {
        8
    } else {
        0
    }
}

/// The payload length that the header announces.
pub open spec fn payload_len(s: Seq<u8>) -> nat {
    if ext_len(s) == 0 {
        length_code(s) as nat
    } else {
        be_value(s.subrange(2, 2 + ext_len(s)))
    }
}

/// The announced length is allowed: at most 125 on a control frame, high bit clear.
pub open spec fn length_ok(s: Seq<u8>) -> bool {
    &&& !is_control_op(op_field(s)) || payload_len(s) <= MAX_CONTROL_PAYLOAD
    &&& payload_len(s) < MAX_PAYLOAD_EXCLUSIVE
}

/// Number of bytes before the payload.
pub open spec fn header_len(s: Seq<u8>) -> int {
    2 + ext_len(s) + if mask_bit(s) {
        4int
    } else {
        0int
    }
}

/// The masking key, zero where the frame is not masked.
pub open spec fn mask_key(s: Seq<u8>) -> nat {
    if mask_bit(s) {
        be_value(s.subrange(2 + ext_len(s), 2 + ext_len(s) + 4))
    } else {
        0
    }
}

/// The first `n` payload bytes, unmasked.
pub open spec fn payload_prefix(s: Seq<u8>, n: nat) -> Seq<u8> {
    let raw = s.subrange(header_len(s), header_len(s) + n);
    if mask_bit(s) {
        masked(raw, mask_key(s) as u32)
    } else {
        raw
    }
}

/// Number of payload bytes present in `s`, up to the announced length.
pub open spec fn available(s: Seq<u8>) -> nat {
    let have = (s.len() - header_len(s)) as nat;
    if have < payload_len(s) {
        have
    } else {
        payload_len(s)
    }
}

/// A text payload read so far is not ill-formed UTF-8.
pub open spec fn text_ok(s: Seq<u8>) -> bool {
    op_field(s) == OpCode::Text ==> utf8_status(payload_prefix(s, available(s)))
        != Utf8Status::Invalid
}

/// The frame that a complete frame at the start of `s` stands for.
pub open spec fn frame_of(s: Seq<u8>) -> FrameView {
    FrameView {
        fin: fin_bit(s),
        rsv1: rsv1_bit(s),
        rsv2: rsv2_bit(s),
        rsv3: rsv3_bit(s),
        opcode: op_field(s),
        masked: mask_bit(s),
        mask: mask_key(s) as u32,
        payload_length: payload_len(s) as u64,
        extension_data: None,
        application_data: if payload_len(s) == 0 {
            None
        } else {
            Some(payload_prefix(s, payload_len(s)))
        },
    }
}

/// Reads one frame from the start of `s`, for a peer that is a client or not and
/// with the reserved bits `rb` permitted.
pub open spec fn parse(client: bool, rb: u8, s: Seq<u8>) -> Parse {
    if s.len() < 2 {
        Parse::Incomplete
    } else if !header_ok(client, rb, s) {
        Parse::Failed(CodecError::ProtocolViolation)
    } else if s.len() < 2 + ext_len(s) {
        Parse::Incomplete
    } else if !length_ok(s) {
        Parse::Failed(CodecError::ProtocolViolation)
    } else if s.len() < header_len(s) {
        Parse::Incomplete
    } else if !text_ok(s) {
        Parse::Failed(CodecError::InvalidUtf8)
    } else if s.len() < header_len(s) + payload_len(s) {
        Parse::Incomplete
    } else {
        Parse::Done(frame_of(s), (header_len(s) + payload_len(s)) as nat)
    }
}

/// The fields of a frame agree with those of any longer byte string that starts
/// with it, as far as the frame reaches.
pub proof fn lemma_prefix_fields(c: Seq<u8>, b: Seq<u8>)
    requires
        c.len() >= 2,
    ensures
        ({
            let s = c + b;
            &&& fin_bit(s) == fin_bit(c)
            &&& rsv1_bit(s) == rsv1_bit(c)
            &&& rsv2_bit(s) == rsv2_bit(c)
            &&& rsv3_bit(s) == rsv3_bit(c)
            &&& op_field(s) == op_field(c)
            &&& mask_bit(s) == mask_bit(c)
            &&& length_code(s) == length_code(c)
            &&& ext_len(s) == ext_len(c)
            &&& header_len(s) == header_len(c)
            &&& (forall|client: bool, rb: u8| header_ok(client, rb, s) == header_ok(client, rb, c))
            &&& c.len() >= 2 + ext_len(c) ==> payload_len(s) == payload_len(c) && (length_ok(s)
                == length_ok(c))
            &&& c.len() >= header_len(c) ==> mask_key(s) == mask_key(c)
        }),
{
    let s = c + b;
    assert(s[0] == c[0]);
    assert(s[1] == c[1]);
    if c.len() >= 2 + ext_len(c) {
        assert(s.subrange(2, 2 + ext_len(s)) =~= c.subrange(2, 2 + ext_len(c)));
    }
    if c.len() >= header_len(c) && mask_bit(c) {
        assert(s.subrange(2 + ext_len(s), 2 + ext_len(s) + 4) =~= c.subrange(
            2 + ext_len(c),
            2 + ext_len(c) + 4,
        ));
    }
}

/// Which part of the current frame the decoder has read.
#[allow(non_camel_case_types)]
#[derive(Clone, Copy, Debug, PartialEq, Eq, Structural)]
pub enum DecodeState {
    /// None of the frame has been read.
    NONE,
    /// The first two bytes have been read.
    HEADER,
    /// The payload length has been read.
    LENGTH,
    /// The masking key has been read (or there is none).
    MASK,
    /// The whole frame has been read.
    FULL,
}

impl Default for DecodeState {
    fn default() -> (r: DecodeState)
        ensures
            r == DecodeState::NONE,
    {
        DecodeState::NONE
    }
}

/// Removes the first `n` bytes of `buf` and returns them.
fn take_front(buf: &mut Vec<u8>, n: usize) -> (r: Vec<u8>)
    requires
        n <= old(buf)@.len(),
    ensures
        r@ == old(buf)@.subrange(0, n as int),
        final(buf)@ == old(buf)@.subrange(n as int, old(buf)@.len() as int),
{
    let mut rest = buf.split_off(n);
    std::mem::swap(buf, &mut rest);
    rest
}

/// A copy of `buf`.
fn copy_bytes(buf: &Vec<u8>) -> (r: Vec<u8>)
    ensures
        r@ == buf@,
{
    let mut out: Vec<u8> = Vec::new();
    let mut i: usize = 0;
    while i < buf.len()
        invariant
            i <= buf@.len(),
            out@ == buf@.subrange(0, i as int),
        decreases buf@.len() - i,
    {
        out.push(buf[i]);
        i = i + 1;
        assert(out@ =~= buf@.subrange(0, i as int));
    }
    assert(out@ =~= buf@);
    out
}

/// The streaming decoder and encoder of base frames.
pub struct FrameCodec {
    /// Whether the peer is a client, whose frames must be masked.
    client: bool,
    fin: bool,
    rsv1: bool,
    rsv2: bool,
    rsv3: bool,
    opcode: OpCode,
    masked: bool,
    length_code: u8,
    payload_length: u64,
    mask_key: u32,
    extension_data: Option<Vec<u8>>,
    state: DecodeState,
    /// Bits reserved by extensions: 4 permits rsv1, 2 rsv2, 1 rsv3.
    reserved_bits: u8,
    /// The bytes of the current frame read so far.
    consumed: Ghost<Seq<u8>>,
    /// The peer setting under which the current frame's header is read.
    checked_client: Ghost<bool>,
    /// The reserved bits under which the current frame's header is read.
    checked_bits: Ghost<u8>,
}

impl Default for FrameCodec {
    fn default() -> (r: FrameCodec)
        ensures
            r.wf(),
            r.pending() == Seq::<u8>::empty(),
            !r.peer_is_client(),
            r.permitted_bits() == 0,
            r.decode_state() == DecodeState::NONE,
    {
        FrameCodec::new()
    }
}

impl FrameCodec {
    /// The bytes of the current frame that the decoder has taken in so far.
    pub closed spec fn pending(&self) -> Seq<u8> {
        self.consumed@
    }

    /// Whether the peer is a client.
    pub closed spec fn peer_is_client(&self) -> bool {
        self.client
    }

    /// The reserved bits that extensions permit.
    pub closed spec fn permitted_bits(&self) -> u8 {
        self.reserved_bits
    }

    /// The decoder state, for readers of contracts.
    pub closed spec fn decode_state(&self) -> DecodeState {
        self.state
    }

    /// Whether the current frame is read as coming from a client: the setting in
    /// force when its first two bytes were checked, or the present one before that.
    pub closed spec fn decoding_client(&self) -> bool {
        self.checked_client@
    }

    /// The reserved bits under which the current frame is read, in the same way.
    pub closed spec fn decoding_bits(&self) -> u8 {
        self.checked_bits@
    }

    /// With nothing held the state is NONE, and a frame not begun is read under the
    /// present settings.
    pub proof fn lemma_wf_state(&self)
        requires
            self.wf(),
        ensures
            self.decode_state() == DecodeState::NONE <==> self.pending().len() == 0,
            self.decode_state() != DecodeState::FULL,
            self.decode_state() == DecodeState::NONE ==> self.decoding_client()
                == self.peer_is_client() && self.decoding_bits() == self.permitted_bits(),
    {
    }

    /// The fields read so far agree with the bytes taken in, and those bytes obey the rules.
    pub closed spec fn wf(&self) -> bool {
        let c = self.consumed@;
        &&& self.state != DecodeState::FULL
        &&& self.extension_data is None
        &&& self.state == DecodeState::NONE ==> {
            &&& c.len() == 0
            &&& self.checked_client@ == self.client
            &&& self.checked_bits@ == self.reserved_bits
        }
        &&& self.state != DecodeState::NONE ==> {
            &&& c.len() >= 2
            &&& header_ok(self.checked_client@, self.checked_bits@, c)
            &&& self.fin == fin_bit(c)
            &&& self.rsv1 == rsv1_bit(c)
            &&& self.rsv2 == rsv2_bit(c)
            &&& self.rsv3 == rsv3_bit(c)
            &&& self.opcode == op_field(c)
            &&& self.masked == mask_bit(c)
            &&& self.length_code == length_code(c)
        }
        &&& self.state == DecodeState::HEADER ==> c.len() == 2
        &&& (self.state == DecodeState::LENGTH || self.state == DecodeState::MASK) ==> {
            &&& c.len() >= 2 + ext_len(c)
            &&& self.payload_length == payload_len(c)
            &&& length_ok(c)
        }
        &&& self.state == DecodeState::LENGTH ==> c.len() == 2 + ext_len(c)
        &&& self.state == DecodeState::MASK ==> {
            &&& c.len() == header_len(c)
            &&& self.mask_key == mask_key(c)
        }
    }

    /// A codec with nothing read, for a peer that is a server and no reserved bits.
    pub fn new() -> (r: FrameCodec)
        ensures
            r.wf(),
            r.pending() == Seq::<u8>::empty(),
            !r.peer_is_client(),
            r.permitted_bits() == 0,
            r.decode_state() == DecodeState::NONE,
    {
        FrameCodec {
            client: false,
            fin: false,
            rsv1: false,
            rsv2: false,
            rsv3: false,
            opcode: OpCode::Continuation,
            masked: false,
            length_code: 0,
            payload_length: 0,
            mask_key: 0,
            extension_data: None,
            state: DecodeState::NONE,
            reserved_bits: 0,
            consumed: Ghost(Seq::empty()),
            checked_client: Ghost(false),
            checked_bits: Ghost(0),
        }
    }

    /// The decoder state.
    pub fn state(&self) -> (r: DecodeState)
        ensures
            r == self.decode_state(),
    {
        self.state
    }

    /// Sets whether the peer is a client, whose frames must be masked. A frame
    /// whose first two bytes were already checked keeps being read as it was; the
    /// setting applies from the next frame on.
    pub fn set_client(&mut self, client: bool) -> (r: &mut FrameCodec)
        requires
            old(self).wf(),
        ensures
            *final(self) == *final(r),
            r.wf(),
            r.peer_is_client() == client,
            r.permitted_bits() == old(self).permitted_bits(),
            r.pending() == old(self).pending(),
            r.decode_state() == old(self).decode_state(),
            r.decoding_client() == (if old(self).decode_state() == DecodeState::NONE {
                client
            } else {
                old(self).decoding_client()
            }),
            r.decoding_bits() == old(self).decoding_bits(),
    {
        self.client = client;
        if self.state == DecodeState::NONE {
            self.checked_client = Ghost(client);
        }
        self
    }

    /// Sets the reserved bits that extensions permit (4: rsv1, 2: rsv2, 1: rsv3).
    /// A frame whose first two bytes were already checked keeps being read as it
    /// was; the bits apply from the next frame on.
    pub fn set_reserved_bits(&mut self, reserved_bits: u8) -> (r: &mut FrameCodec)
        requires
            old(self).wf(),
        ensures
            *final(self) == *final(r),
            r.wf(),
            r.permitted_bits() == reserved_bits,
            r.peer_is_client() == old(self).peer_is_client(),
            r.pending() == old(self).pending(),
            r.decode_state() == old(self).decode_state(),
            r.decoding_bits() == (if old(self).decode_state() == DecodeState::NONE {
                reserved_bits
            } else {
                old(self).decoding_bits()
            }),
            r.decoding_client() == old(self).decoding_client(),
    {
        self.reserved_bits = reserved_bits;
        if self.state == DecodeState::NONE {
            self.checked_bits = Ghost(reserved_bits);
        }
        self
    }

    /// Forgets the current frame.
    fn restart(&mut self)
        ensures
            final(self).wf(),
            final(self).client == old(self).client,
            final(self).reserved_bits == old(self).reserved_bits,
            final(self).consumed@ == Seq::<u8>::empty(),
            final(self).state == DecodeState::NONE,
    {
        self.state = DecodeState::NONE;
        self.extension_data = None;
        self.consumed = Ghost(Seq::empty());
        self.checked_client = Ghost(self.client);
        self.checked_bits = Ghost(self.reserved_bits);
    }

    /// The frame read so far, with `application_data` as its payload.
    fn take_frame(&mut self, application_data: Option<Vec<u8>>) -> (r: Frame)
        ensures
            r@ == (FrameView {
                fin: old(self).fin,
                rsv1: old(self).rsv1,
                rsv2: old(self).rsv2,
                rsv3: old(self).rsv3,
                opcode: old(self).opcode,
                masked: old(self).masked,
                mask: old(self).mask_key,
                payload_length: old(self).payload_length,
                extension_data: opt_view(old(self).extension_data),
                application_data: opt_view(application_data),
            }),
            final(self).extension_data is None,
            final(self).client == old(self).client,
            final(self).reserved_bits == old(self).reserved_bits,
    {
        let mut ext: Option<Vec<u8>> = None;
        std::mem::swap(&mut ext, &mut self.extension_data);
        let mut frame = Frame::new();
        frame.set_fin(self.fin);
        frame.set_rsv1(self.rsv1);
        frame.set_rsv2(self.rsv2);
        frame.set_rsv3(self.rsv3);
        frame.set_masked(self.masked);
        frame.set_opcode(self.opcode);
        frame.set_mask(self.mask_key);
        frame.set_payload_length(self.payload_length);
        frame.set_application_data(application_data);
        frame.set_extension_data(ext);
        frame
    }

    /// After one stage of decoding, on the bytes `all` of which `buf` is left: the
    /// stage either moved on to `next` and lost no byte, or stopped where `parse` says.
    closed spec fn step_done(
        &self,
        old_self: FrameCodec,
        buf: Seq<u8>,
        all: Seq<u8>,
        next: DecodeState,
        r: Step,
    ) -> bool {
        &&& self.wf()
        &&& self.client == old_self.client
        &&& self.reserved_bits == old_self.reserved_bits
        &&& match r {
            Step::Advanced => {
                &&& self.state == next
                &&& self.consumed@ + buf == all
                &&& self.checked_client == old_self.checked_client
                &&& self.checked_bits == old_self.checked_bits
            },
            Step::NeedMore => {
                &&& parse(old_self.checked_client@, old_self.checked_bits@, all) is Incomplete
                &&& self.consumed@ + buf == all
                &&& self.consumed@ == committed_prefix(all)
                &&& self.state == stage_of(all)
                &&& self.checked_client == old_self.checked_client
                &&& self.checked_bits == old_self.checked_bits
            },
            Step::Failed(e) => {
                &&& parse(old_self.checked_client@, old_self.checked_bits@, all) == Parse::Failed(e)
                &&& self.consumed@ == Seq::<u8>::empty()
            },
        }
    }

    /// Reads the first two bytes of a frame.
    #[verifier::rlimit(40)]
    fn header_step(&mut self, buf: &mut Vec<u8>) -> (r: Step)
        requires
            old(self).wf(),
            old(self).state == DecodeState::NONE,
        ensures
            final(self).step_done(
                *old(self),
                final(buf)@,
                old(self).consumed@ + old(buf)@,
                DecodeState::HEADER,
                r,
            ),
    {
        let ghost all = self.consumed@ + buf@;
        assert(all =~= buf@);
        if buf.len() < 2 {
            assert(self.consumed@ =~= committed_prefix(all));
            return Step::NeedMore;
        }
        let head = take_front(buf, 2);
        let b0 = head[0];
        let b1 = head[1];
        self.consumed = Ghost(head@);
        self.fin = b0 >= 128;
        self.rsv1 = (b0 / 64) % 2 == 1;
        self.rsv2 = (b0 / 32) % 2 == 1;
        self.rsv3 = (b0 / 16) % 2 == 1;
        self.opcode = OpCode::from_code(b0);
        self.masked = b1 >= 128;
        self.length_code = b1 % 128;
        proof {
            assert(all =~= head@ + buf@);
            lemma_prefix_fields(head@, buf@);
        }
        if (self.rsv1 && (self.reserved_bits / 4) % 2 != 1) || (self.rsv2 && (self.reserved_bits
            / 2) % 2 != 1) || (self.rsv3 && self.reserved_bits % 2 != 1) || self.opcode.is_invalid()
            || (self.opcode.is_control() && !self.fin) || self.masked != self.client {
            self.restart();
            return Step::Failed(CodecError::ProtocolViolation);
        }
        self.state = DecodeState::HEADER;
        Step::Advanced
    }

    /// Reads the extended payload length, if any.
    #[verifier::rlimit(40)]
    fn length_step(&mut self, buf: &mut Vec<u8>) -> (r: Step)
        requires
            old(self).wf(),
            old(self).state == DecodeState::HEADER,
        ensures
            final(self).step_done(
                *old(self),
                final(buf)@,
                old(self).consumed@ + old(buf)@,
                DecodeState::LENGTH,
                r,
            ),
    {
        let ghost all = self.consumed@ + buf@;
        let ghost c = self.consumed@;
        proof {
            lemma_prefix_fields(c, buf@);
        }
        let ext: usize = if self.length_code == TWO_EXT {
            2
        } else if self.length_code == EIGHT_EXT {
            8
        } else {
            0
        };
        assert(ext == ext_len(c));
        if buf.len() < ext {
            assert(all.subrange(0, 2) =~= c);
            return Step::NeedMore;
        }
        if ext > 0 {
            self.payload_length = read_be(buf.as_slice(), 0, ext);
            let head = take_front(buf, ext);
            self.consumed = Ghost(c + head@);
            proof {
                let c2 = self.consumed@;
                lemma_prefix_fields(c, head@);
                assert(c2.subrange(2, 2 + ext_len(c2)) =~= head@);
                assert(all =~= c2 + buf@);
            }
        } else {
            self.payload_length = self.length_code as u64;
        }
        proof {
            lemma_prefix_fields(self.consumed@, buf@);
        }
        if (self.opcode.is_control() && self.payload_length > MAX_CONTROL_PAYLOAD)
            || self.payload_length >= MAX_PAYLOAD_EXCLUSIVE {
            self.restart();
            return Step::Failed(CodecError::ProtocolViolation);
        }
        self.state = DecodeState::LENGTH;
        Step::Advanced
    }

    /// Reads the masking key, if the frame is masked.
    fn mask_step(&mut self, buf: &mut Vec<u8>) -> (r: Step)
        requires
            old(self).wf(),
            old(self).state == DecodeState::LENGTH,
        ensures
            final(self).step_done(
                *old(self),
                final(buf)@,
                old(self).consumed@ + old(buf)@,
                DecodeState::MASK,
                r,
            ),
    {
        let ghost all = self.consumed@ + buf@;
        let ghost c = self.consumed@;
        proof {
            lemma_prefix_fields(c, buf@);
        }
        if self.masked {
            if buf.len() < 4 {
                assert(all.subrange(0, 2 + ext_len(all)) =~= c);
                return Step::NeedMore;
            }
            let key = read_be(buf.as_slice(), 0, 4);
            proof {
                lemma_be_value_bound(buf@.subrange(0, 4));
                lemma_pow256_values();
            }
            self.mask_key = key as u32;
            let head = take_front(buf, 4);
            self.consumed = Ghost(c + head@);
            proof {
                let c2 = self.consumed@;
                lemma_prefix_fields(c, head@);
                assert(c2.subrange(2 + ext_len(c2), 2 + ext_len(c2) + 4) =~= head@);
                assert(all =~= c2 + buf@);
            }
        } else {
            self.mask_key = 0;
        }
        self.state = DecodeState::MASK;
        Step::Advanced
    }

    /// Reads the payload, checking text as it arrives, and emits the frame.
    #[verifier::rlimit(40)]
    fn payload_step(&mut self, buf: &mut Vec<u8>) -> (r: Result<Option<Frame>, CodecError>)
        requires
            old(self).wf(),
            old(self).state == DecodeState::MASK,
        ensures
            final(self).wf(),
            final(self).client == old(self).client,
            final(self).reserved_bits == old(self).reserved_bits,
            final(self).state != DecodeState::NONE ==> final(self).checked_client
                == old(self).checked_client && final(self).checked_bits == old(self).checked_bits,
            decoded(
                parse(
                    old(self).checked_client@,
                    old(self).checked_bits@,
                    old(self).consumed@ + old(buf)@,
                ),
                r,
                final(self).consumed@,
                final(self).state,
                final(buf)@,
                old(self).consumed@ + old(buf)@,
            ),
    {
        let ghost all = self.consumed@ + buf@;
        let ghost c = self.consumed@;
        proof {
            lemma_prefix_fields(c, buf@);
            assert(all.subrange(header_len(all), all.len() as int) =~= buf@);
        }
        let pl = self.payload_length;
        let is_text = self.opcode == OpCode::Text;
        if (buf.len() as u64) < pl {
            if is_text {
                let mut copy = copy_bytes(buf);
                if self.masked {
                    apply_mask(&mut copy, self.mask_key);
                }
                let (status, _) = scan_utf8(copy.as_slice());
                proof {
                    assert(available(all) == buf@.len());
                    assert(copy@ =~= payload_prefix(all, available(all)));
                }
                if status == Utf8Status::Invalid {
                    self.restart();
                    return Err(CodecError::InvalidUtf8);
                }
            }
            assert(all.subrange(0, header_len(all)) =~= c);
            return Ok(None);
        }
        let n = pl as usize;
        let mut data = take_front(buf, n);
        if self.masked {
            apply_mask(&mut data, self.mask_key);
        }
        proof {
            assert(available(all) == n);
            assert(data@ =~= payload_prefix(all, available(all)));
        }
        if is_text {
            let (status, _) = scan_utf8(data.as_slice());
            if status == Utf8Status::Invalid {
                self.restart();
                return Err(CodecError::InvalidUtf8);
            }
        }
        let application_data = if n == 0 {
            None
        } else {
            Some(data)
        };
        let frame = self.take_frame(application_data);
        self.restart();
        proof {
            assert(buf@ =~= all.subrange(header_len(all) + payload_len(all), all.len() as int));
        }
        Ok(Some(frame))
    }

    /// Appends the wire form of `msg` to `buf`, with the shortest length encoding
    /// that fits and, where the frame is masked, the payload masked with its key.
    #[verifier::rlimit(40)]
    pub fn encode(&mut self, msg: Frame, buf: &mut Vec<u8>)
        requires
            opcode_wf(msg@.opcode),
        ensures
            final(buf)@ == old(buf)@ + encoding(msg@),
            *final(self) == *old(self),
    {
        let mut msg = msg;
        push_header(&msg, buf);
        let masked_flag = msg.masked();
        let key = msg.mask();
        let ghost view = msg@;
        let ghost with_header = buf@;
        match msg.take_application_data() {
            Some(data) => {
                let mut data = data;
                if masked_flag {
                    apply_mask(&mut data, key);
                }
                buf.append(&mut data);
            },
            None => {},
        }
        assert(buf@ == with_header + payload_bytes(view));
        assert(buf@ =~= old(buf)@ + encoding(view));
    }

    /// Decodes the next frame from `buf`, taking in the bytes it reads.
    ///
    /// The bytes taken in for the current frame, followed by `buf`, are what is read.
    /// Where they hold only part of a frame that is fine so far, the result is
    /// `Ok(None)` and no byte is lost: call again with more bytes appended. Where they
    /// start with a whole frame, it is returned and `buf` keeps what follows it. A text
    /// payload is checked as it arrives, so ill-formed UTF-8 fails before the frame is
    /// complete. After a failure the codec starts afresh.
    pub fn decode(&mut self, buf: &mut Vec<u8>) -> (r: Result<Option<Frame>, CodecError>)
        requires
            old(self).wf(),
        ensures
            final(self).wf(),
            final(self).peer_is_client() == old(self).peer_is_client(),
            final(self).permitted_bits() == old(self).permitted_bits(),
            old(self).decoding_client() == old(self).peer_is_client() ==> final(self).decoding_client()
                == final(self).peer_is_client(),
            old(self).decoding_bits() == old(self).permitted_bits() ==> final(self).decoding_bits()
                == final(self).permitted_bits(),
            decoded(
                parse(old(self).decoding_client(), old(self).decoding_bits(), old(self).pending() + old(buf)@),
                r,
                final(self).pending(),
                final(self).decode_state(),
                final(buf)@,
                old(self).pending() + old(buf)@,
            ),
    {
        if self.state == DecodeState::NONE {
            match self.header_step(buf) {
                Step::Advanced => {},
                Step::NeedMore => return Ok(None),
                Step::Failed(e) => return Err(e),
            }
        }
        if self.state == DecodeState::HEADER {
            match self.length_step(buf) {
                Step::Advanced => {},
                Step::NeedMore => return Ok(None),
                Step::Failed(e) => return Err(e),
            }
        }
        if self.state == DecodeState::LENGTH {
            match self.mask_step(buf) {
                Step::Advanced => {},
                Step::NeedMore => return Ok(None),
                Step::Failed(e) => return Err(e),
            }
        }
        self.payload_step(buf)
    }
}

/// How one stage of decoding ended.
enum Step {
    /// The stage read its bytes and the next one may run.
    Advanced,
    /// More bytes are needed.
    NeedMore,
    /// The bytes break a rule.
    Failed(CodecError),
}

/// The part of an unfinished frame that the decoder has taken in: each stage
/// (first two bytes, extended length, masking key) once all its bytes are there.
pub open spec fn committed_prefix(s: Seq<u8>) -> Seq<u8> {
    if s.len() < 2 {
        Seq::empty()
    } else if s.len() < 2 + ext_len(s) {
        s.subrange(0, 2)
    } else if s.len() < header_len(s) {
        s.subrange(0, 2 + ext_len(s))
    } else {
        s.subrange(0, header_len(s))
    }
}

/// The decoder state that an unfinished frame `s` leaves.
pub open spec fn stage_of(s: Seq<u8>) -> DecodeState {
    if s.len() < 2 {
        DecodeState::NONE
    } else if s.len() < 2 + ext_len(s) {
        DecodeState::HEADER
    } else if s.len() < header_len(s) {
        DecodeState::LENGTH
    } else {
        DecodeState::MASK
    }
}

/// What `decode` returns and leaves behind, given how the bytes `all` parse.
pub open spec fn decoded(
    p: Parse,
    r: Result<Option<Frame>, CodecError>,
    pending: Seq<u8>,
    state: DecodeState,
    rest: Seq<u8>,
    all: Seq<u8>,
) -> bool {
    match p {
        Parse::Incomplete => {
            &&& r == Ok::<Option<Frame>, CodecError>(None)
            &&& pending + rest == all
            &&& pending == committed_prefix(all)
            &&& state == stage_of(all)
        },
        Parse::Failed(e) => {
            &&& r == Err::<Option<Frame>, CodecError>(e)
            &&& pending == Seq::<u8>::empty()
        },
        Parse::Done(f, n) => {
            &&& r matches Ok(Some(frame)) && frame@ == f
            &&& rest == all.subrange(n as int, all.len() as int)
            &&& pending == Seq::<u8>::empty()
            &&& state == DecodeState::NONE
        },
    }
}

/// The first byte of a frame: flags and opcode.
pub open spec fn first_byte(f: FrameView) -> u8 {
    ((if f.fin {
        128int
    } else {
        0
    }) + (if f.rsv1 {
        64int
    } else {
        0
    }) + (if f.rsv2 {
        32int
    } else {
        0
    }) + (if f.rsv3 {
        16int
    } else {
        0
    }) + (code_of(f.opcode) % 16) as int) as u8
}

/// The seven-bit length code for a payload of `len` bytes.
pub open spec fn length_field(len: u64) -> u8 {
    if len < TWO_EXT {
        len as u8
    } else if len < 0x1_0000 {
        TWO_EXT
    } else {
        EIGHT_EXT
    }
}

/// The second byte of a frame: mask flag and length code.
pub open spec fn second_byte(f: FrameView) -> u8 {
    ((if f.masked {
        128int
    } else {
        0
    }) + length_field(f.payload_length) as int) as u8
}

/// The extended length bytes for a payload of `len` bytes.
pub open spec fn ext_bytes(len: u64) -> Seq<u8> {
    if len < TWO_EXT {
        Seq::empty()
    } else if len < 0x1_0000 {
        be_bytes(len as nat, 2)
    } else {
        be_bytes(len as nat, 8)
    }
}

/// The payload bytes on the wire: the application data, masked where the frame is.
pub open spec fn payload_bytes(f: FrameView) -> Seq<u8> {
    match f.application_data {
        Some(d) => if f.masked {
            masked(d, f.mask)
        } else {
            d
        },
        None => Seq::empty(),
    }
}

/// The header of a frame on the wire: everything before the payload.
pub open spec fn header_bytes(f: FrameView) -> Seq<u8> {
    seq![first_byte(f), second_byte(f)] + ext_bytes(f.payload_length) + (if f.masked {
        be_bytes(f.mask as nat, 4)
    } else {
        Seq::empty()
    })
}

/// The wire form of a frame.
pub open spec fn encoding(f: FrameView) -> Seq<u8> {
    header_bytes(f) + payload_bytes(f)
}

/// The payload of a frame as a sequence, empty where there is none.
pub open spec fn data_of(f: FrameView) -> Seq<u8> {
    match f.application_data {
        Some(d) => d,
        None => Seq::empty(),
    }
}

/// A frame that obeys the structural rules for a peer that is a client or not, with
/// reserved bits `rb` permitted: what the decoder produces.
pub open spec fn frame_wf(client: bool, rb: u8, f: FrameView) -> bool {
    &&& opcode_wf(f.opcode)
    &&& !is_reserved_op(f.opcode)
    &&& is_control_op(f.opcode) ==> f.fin && f.payload_length <= MAX_CONTROL_PAYLOAD
    &&& f.masked == client
    &&& !f.masked ==> f.mask == 0
    &&& f.rsv1 ==> rsv1_allowed(rb)
    &&& f.rsv2 ==> rsv2_allowed(rb)
    &&& f.rsv3 ==> rsv3_allowed(rb)
    &&& f.payload_length < MAX_PAYLOAD_EXCLUSIVE
    &&& f.extension_data is None
    &&& match f.application_data {
        Some(d) => d.len() == f.payload_length && d.len() > 0,
        None => f.payload_length == 0,
    }
    &&& f.opcode == OpCode::Text ==> utf8_status(data_of(f)) != Utf8Status::Invalid
}

/// The flags and opcode read back from the first byte as written.
proof fn lemma_first_byte(f: FrameView)
    requires
        opcode_wf(f.opcode),
    ensures
        ({
            let b = first_byte(f);
            &&& (b >= 128) == f.fin
            &&& ((b / 64) % 2 == 1) == f.rsv1
            &&& ((b / 32) % 2 == 1) == f.rsv2
            &&& ((b / 16) % 2 == 1) == f.rsv3
            &&& b % 16 == code_of(f.opcode) % 16
        }),
{
}

/// The mask flag and length code read back from the second byte as written.
proof fn lemma_second_byte(f: FrameView)
    ensures
        (second_byte(f) >= 128) == f.masked,
        second_byte(f) % 128 == length_field(f.payload_length),
{
}

/// Decoding the encoding of a well-formed frame gives that frame back, whatever
/// bytes follow it, and takes exactly the encoded bytes.
#[verifier::rlimit(40)]
pub proof fn lemma_round_trip(client: bool, rb: u8, f: FrameView, rest: Seq<u8>)
    requires
        frame_wf(client, rb, f),
    ensures
        parse(client, rb, encoding(f) + rest) == Parse::Done(f, encoding(f).len()),
{
    let e = encoding(f);
    let s = e + rest;
    let len = f.payload_length;
    lemma_pow256_values();
    if len < 0x1_0000 {
        lemma_be_round_trip(len as nat, 2);
    }
    lemma_be_round_trip(len as nat, 8);
    lemma_be_round_trip(f.mask as nat, 4);
    lemma_first_byte(f);
    lemma_second_byte(f);
    lemma_opcode_round_trip(f.opcode);
    let ext = ext_bytes(len);
    let key = if f.masked {
        be_bytes(f.mask as nat, 4)
    } else {
        Seq::<u8>::empty()
    };
    let pay = payload_bytes(f);
    assert(s[0] == first_byte(f));
    assert(s[1] == second_byte(f));
    assert(ext_len(s) == ext.len());
    assert(s.subrange(2, 2 + ext_len(s)) =~= ext);
    assert(payload_len(s) == len);
    if f.masked {
        assert(s.subrange(2 + ext_len(s), 2 + ext_len(s) + 4) =~= key);
    }
    assert(mask_key(s) == f.mask);
    assert(header_len(s) == 2 + ext.len() + key.len());
    lemma_mask_symmetry(data_of(f), f.mask);
    assert(pay.len() == len);
    assert(s.subrange(header_len(s), header_len(s) + len) =~= pay);
    assert(available(s) == len);
    assert(payload_prefix(s, len as nat) =~= data_of(f));
    assert(e.len() == header_len(s) + len);
    assert(frame_of(s) == f);
}

/// Appends the header of `msg`: flags, opcode, length and masking key.
fn push_header(msg: &Frame, buf: &mut Vec<u8>)
    ensures
        final(buf)@ == old(buf)@ + header_bytes(msg@),
{
    let mut first: u8 = msg.opcode().code() % 16;
    if msg.fin() {
        first = first + 0x80;
    }
    if msg.rsv1() {
        first = first + 0x40;
    }
    if msg.rsv2() {
        first = first + 0x20;
    }
    if msg.rsv3() {
        first = first + 0x10;
    }
    buf.push(first);
    let second: u8 = if msg.masked() {
        0x80
    } else {
        0
    };
    let len = msg.payload_length();
    if len < TWO_EXT as u64 {
        buf.push(second + len as u8);
    } else if len < 0x1_0000 {
        buf.push(second + TWO_EXT);
        push_be(buf, len, 2);
    } else {
        buf.push(second + EIGHT_EXT);
        push_be(buf, len, 8);
    }
    if msg.masked() {
        push_be(buf, msg.mask() as u64, 4);
    }
    assert(buf@ =~= old(buf)@ + header_bytes(msg@));
}

} // verus!
