//! Opcodes and the frame record exchanged by the codec.
use vstd::prelude::*;

verus! {

/// The kind of a frame: the low four bits of its first byte.
#[derive(Clone, Copy, Debug, PartialEq, Eq, Structural)]
pub enum OpCode {
    /// A later fragment of a fragmented message (0x0).
    Continuation,
    /// A UTF-8 text message (0x1).
    Text,
    /// A binary message (0x2).
    Binary,
    /// The closing handshake (0x8).
    Close,
    /// A ping (0x9).
    Ping,
    /// A pong (0xA).
    Pong,
    /// One of the codes that the protocol reserves (0x3-0x7, 0xB-0xF).
    Reserved(u8),
}

/// The opcode that the four-bit code `c` stands for.
pub open spec fn opcode_of(c: u8) -> OpCode {
    if c == 0x0 {
        OpCode::Continuation
    } else if c == 0x1 {
        OpCode::Text
    } else if c == 0x2 {
        OpCode::Binary
    } else if c == 0x8 {
        OpCode::Close
    } else if c == 0x9 {
        OpCode::Ping
    } else if c == 0xa {
        OpCode::Pong
    } else {
        OpCode::Reserved(c)
    }
}

/// The four-bit code of an opcode.
pub open spec fn code_of(op: OpCode) -> u8 {
    match op {
        OpCode::Continuation => 0x0,
        OpCode::Text => 0x1,
        OpCode::Binary => 0x2,
        OpCode::Close => 0x8,
        OpCode::Ping => 0x9,
        OpCode::Pong => 0xa,
        OpCode::Reserved(c) => c,
    }
}

/// Close, Ping and Pong are the control opcodes.
pub open spec fn is_control_op(op: OpCode) -> bool {
    op == OpCode::Close || op == OpCode::Ping || op == OpCode::Pong
}

/// Whether an opcode holds a reserved code, which no peer may send.
pub open spec fn is_reserved_op(op: OpCode) -> bool {
    op is Reserved
}

/// An opcode that names a code of four bits, reserved only where the code is.
pub open spec fn opcode_wf(op: OpCode) -> bool {
    match op {
        OpCode::Reserved(c) => c < 16 && opcode_of(c) == op,
        _ => true,
    }
}

impl OpCode {
    /// The opcode of the low four bits of `b`.
    pub fn from_code(b: u8) -> (r: OpCode)
        ensures
            r == opcode_of(b % 16),
            opcode_wf(r),
    {
        let c: u8 = b % 16;
        if c == 0x0 {
            OpCode::Continuation
        } else if c == 0x1 {
            OpCode::Text
        } else if c == 0x2 {
            OpCode::Binary
        } else if c == 0x8 {
            OpCode::Close
        } else if c == 0x9 {
            OpCode::Ping
        } else if c == 0xa {
            OpCode::Pong
        } else {
            OpCode::Reserved(c)
        }
    }

    /// The four-bit code of this opcode.
    pub fn code(&self) -> (r: u8)
        ensures
            r == code_of(*self),
    {
        match self {
            OpCode::Continuation => 0x0,
            OpCode::Text => 0x1,
            OpCode::Binary => 0x2,
            OpCode::Close => 0x8,
            OpCode::Ping => 0x9,
            OpCode::Pong => 0xa,
            OpCode::Reserved(c) => *c,
        }
    }

    /// Whether this is a control opcode (Close, Ping or Pong).
    pub fn is_control(&self) -> (r: bool)
        ensures
            r == is_control_op(*self),
    {
        match self {
            OpCode::Close | OpCode::Ping | OpCode::Pong => true,
            _ => false,
        }
    }

    /// Whether this opcode names a four-bit code: a `Reserved` value must hold a
    /// reserved code below 16.
    pub fn is_well_formed(&self) -> (r: bool)
        ensures
            r == opcode_wf(*self),
    {
        match self {
            OpCode::Reserved(c) => *c < 16 && *c != 0x0 && *c != 0x1 && *c != 0x2 && *c != 0x8
                && *c != 0x9 && *c != 0xa,
            _ => true,
        }
    }

    /// Whether this opcode is reserved and so invalid on the wire.
    pub fn is_invalid(&self) -> (r: bool)
        ensures
            r == is_reserved_op(*self),
    {
        match self {
            OpCode::Reserved(_) => true,
            _ => false,
        }
    }
}

/// Encoding a well-formed opcode and decoding the code gives the opcode back.
pub proof fn lemma_opcode_round_trip(op: OpCode)
    requires
        opcode_wf(op),
    ensures
        opcode_of(code_of(op)) == op,
        code_of(op) < 16,
{
}

/// What a frame holds, with its buffers as sequences.
pub ghost struct FrameView {
    pub fin: bool,
    pub rsv1: bool,
    pub rsv2: bool,
    pub rsv3: bool,
    pub opcode: OpCode,
    pub masked: bool,
    pub mask: u32,
    pub payload_length: u64,
    pub extension_data: Option<Seq<u8>>,
    pub application_data: Option<Seq<u8>>,
}

/// The view of an optional buffer.
pub open spec fn opt_view(o: Option<Vec<u8>>) -> Option<Seq<u8>> {
    match o {
        Some(v) => Some(v@),
        None => None,
    }
}

/// One unit of the wire format. The application data is held unmasked.
#[derive(Debug)]
pub struct Frame {
    fin: bool,
    rsv1: bool,
    rsv2: bool,
    rsv3: bool,
    opcode: OpCode,
    masked: bool,
    mask: u32,
    payload_length: u64,
    extension_data: Option<Vec<u8>>,
    application_data: Option<Vec<u8>>,
}

impl View for Frame {
    type V = FrameView;

    closed spec fn view(&self) -> FrameView {
        FrameView {
            fin: self.fin,
            rsv1: self.rsv1,
            rsv2: self.rsv2,
            rsv3: self.rsv3,
            opcode: self.opcode,
            masked: self.masked,
            mask: self.mask,
            payload_length: self.payload_length,
            extension_data: opt_view(self.extension_data),
            application_data: opt_view(self.application_data),
        }
    }
}

/// The frame that a fresh `Frame::new` holds.
pub open spec fn empty_frame_view() -> FrameView {
    FrameView {
        fin: false,
        rsv1: false,
        rsv2: false,
        rsv3: false,
        opcode: OpCode::Continuation,
        masked: false,
        mask: 0,
        payload_length: 0,
        extension_data: None,
        application_data: None,
    }
}

impl Frame {
    /// A frame with every flag clear, a Continuation opcode and no data.
    pub fn new() -> (r: Frame)
        ensures
            r@ == empty_frame_view(),
    {
        Frame {
            fin: false,
            rsv1: false,
            rsv2: false,
            rsv3: false,
            opcode: OpCode::Continuation,
            masked: false,
            mask: 0,
            payload_length: 0,
            extension_data: None,
            application_data: None,
        }
    }

    /// A frame made of the given parts.
    pub fn from_parts(
        fin: bool,
        rsv1: bool,
        rsv2: bool,
        rsv3: bool,
        opcode: OpCode,
        masked: bool,
        mask: u32,
        payload_length: u64,
        extension_data: Option<Vec<u8>>,
        application_data: Option<Vec<u8>>,
    ) -> (r: Frame)
        ensures
            r@ == (FrameView {
                fin,
                rsv1,
                rsv2,
                rsv3,
                opcode,
                masked,
                mask,
                payload_length,
                extension_data: opt_view(extension_data),
                application_data: opt_view(application_data),
            }),
    {
        Frame {
            fin,
            rsv1,
            rsv2,
            rsv3,
            opcode,
            masked,
            mask,
            payload_length,
            extension_data,
            application_data,
        }
    }

    /// The `fin` flag: this is the last fragment of a message.
    pub fn fin(&self) -> (r: bool)
        ensures
            r == self@.fin,
    {
        self.fin
    }

    /// The `rsv1` flag.
    pub fn rsv1(&self) -> (r: bool)
        ensures
            r == self@.rsv1,
    {
        self.rsv1
    }

    /// The `rsv2` flag.
    pub fn rsv2(&self) -> (r: bool)
        ensures
            r == self@.rsv2,
    {
        self.rsv2
    }

    /// The `rsv3` flag.
    pub fn rsv3(&self) -> (r: bool)
        ensures
            r == self@.rsv3,
    {
        self.rsv3
    }

    /// The opcode.
    pub fn opcode(&self) -> (r: OpCode)
        ensures
            r == self@.opcode,
    {
        self.opcode
    }

    /// The `masked` flag.
    pub fn masked(&self) -> (r: bool)
        ensures
            r == self@.masked,
    {
        self.masked
    }

    /// The masking key.
    pub fn mask(&self) -> (r: u32)
        ensures
            r == self@.mask,
    {
        self.mask
    }

    /// The length of the application data.
    pub fn payload_length(&self) -> (r: u64)
        ensures
            r == self@.payload_length,
    {
        self.payload_length
    }

    /// The extension data, if any.
    pub fn extension_data(&self) -> (r: &Option<Vec<u8>>)
        ensures
            opt_view(*r) == self@.extension_data,
    {
        &self.extension_data
    }

    /// The application data (unmasked), if any.
    pub fn application_data(&self) -> (r: &Option<Vec<u8>>)
        ensures
            opt_view(*r) == self@.application_data,
    {
        &self.application_data
    }

    /// Sets the `fin` flag.
    pub fn set_fin(&mut self, fin: bool)
        ensures
            final(self)@ == (FrameView { fin, ..old(self)@ }),
    {
        self.fin = fin;
    }

    /// Sets the `rsv1` flag.
    pub fn set_rsv1(&mut self, rsv1: bool)
        ensures
            final(self)@ == (FrameView { rsv1, ..old(self)@ }),
    {
        self.rsv1 = rsv1;
    }

    /// Sets the `rsv2` flag.
    pub fn set_rsv2(&mut self, rsv2: bool)
        ensures
            final(self)@ == (FrameView { rsv2, ..old(self)@ }),
    {
        self.rsv2 = rsv2;
    }

    /// Sets the `rsv3` flag.
    pub fn set_rsv3(&mut self, rsv3: bool)
        ensures
            final(self)@ == (FrameView { rsv3, ..old(self)@ }),
    {
        self.rsv3 = rsv3;
    }

    /// Sets the opcode.
    pub fn set_opcode(&mut self, opcode: OpCode)
        ensures
            final(self)@ == (FrameView { opcode, ..old(self)@ }),
    {
        self.opcode = opcode;
    }

    /// Sets the `masked` flag.
    pub fn set_masked(&mut self, masked: bool)
        ensures
            final(self)@ == (FrameView { masked, ..old(self)@ }),
    {
        self.masked = masked;
    }

    /// Sets the masking key.
    pub fn set_mask(&mut self, mask: u32)
        ensures
            final(self)@ == (FrameView { mask, ..old(self)@ }),
    {
        self.mask = mask;
    }

    /// Sets the payload length.
    pub fn set_payload_length(&mut self, payload_length: u64)
        ensures
            final(self)@ == (FrameView { payload_length, ..old(self)@ }),
    {
        self.payload_length = payload_length;
    }

    /// Sets the extension data.
    pub fn set_extension_data(&mut self, extension_data: Option<Vec<u8>>)
        ensures
            final(self)@ == (FrameView { extension_data: opt_view(extension_data), ..old(self)@ }),
    {
        self.extension_data = extension_data;
    }

    /// Sets the application data (unmasked).
    pub fn set_application_data(&mut self, application_data: Option<Vec<u8>>)
        ensures
            final(self)@ == (FrameView {
                application_data: opt_view(application_data),
                ..old(self)@
            }),
    {
        self.application_data = application_data;
    }

    /// Takes the application data out of the frame, leaving none.
    pub fn take_application_data(&mut self) -> (r: Option<Vec<u8>>)
        ensures
            opt_view(r) == old(self)@.application_data,
            final(self)@ == (FrameView { application_data: None, ..old(self)@ }),
    {
        let mut out: Option<Vec<u8>> = None;
        std::mem::swap(&mut out, &mut self.application_data);
        out
    }
}

} // verus!
