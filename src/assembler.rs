//! Joins the fragments of data frames into whole messages.
use vstd::prelude::*;
use crate::codec::data_of;
use crate::frame::{Frame, FrameView, OpCode, is_control_op};
use crate::utf8::{Utf8Status, Utf8Validator, utf8_status};

verus! {

/// The kind of a data message.
#[derive(Clone, Copy, Debug, PartialEq, Eq, Structural)]
pub enum MessageKind {
    Text,
    Binary,
}

/// A whole message: its kind and all its payload bytes.
#[derive(Debug)]
pub struct Message {
    pub kind: MessageKind,
    pub data: Vec<u8>,
}

/// What one frame gives the layer above.
#[derive(Debug)]
pub enum Assembled {
    /// The frame completed a message.
    Message(Message),
    /// A control frame, handed on unchanged.
    Control(Frame),
    /// A fragment was kept; the message is not complete yet.
    Pending,
}

/// Why a frame cannot be taken into the current message.
#[derive(Clone, Copy, Debug, PartialEq, Eq, Structural)]
pub enum AssemblyError {
    /// Continuation without an open message, a new data frame while one is open,
    /// or a reserved opcode.
    ProtocolViolation,
    /// A text message is not well-formed UTF-8.
    InvalidUtf8,
    /// The message would exceed the configured bound.
    MessageTooBig,
}

/// The state of assembly: the kind of the open message, if any, and its bytes so far.
pub ghost struct AssemblyView {
    pub open: Option<MessageKind>,
    pub buffered: Seq<u8>,
    /// The largest message, in bytes, that is accepted.
    pub limit: nat,
}

/// What one frame leads to.
pub ghost enum Outcome {
    Message(MessageKind, Seq<u8>),
    Control,
    Pending,
    Fail(AssemblyError),
}

/// The message kind that a data opcode opens.
pub open spec fn kind_of(op: OpCode) -> Option<MessageKind> {
    if op == OpCode::Text {
        Some(MessageKind::Text)
    } else if op == OpCode::Binary {
        Some(MessageKind::Binary)
    } else {
        None
    }
}

/// No message open, with bound `limit`.
pub open spec fn idle(limit: nat) -> AssemblyView {
    AssemblyView { open: None, buffered: Seq::empty(), limit }
}

/// Bytes `b` of a message of kind `k` so far; complete where `fin`.
pub open spec fn advance(k: MessageKind, b: Seq<u8>, fin: bool, limit: nat) -> (
    Outcome,
    AssemblyView,
) {
    if b.len() > limit {
        (Outcome::Fail(AssemblyError::MessageTooBig), idle(limit))
    } else if k == MessageKind::Text && utf8_status(b) == Utf8Status::Invalid {
        (Outcome::Fail(AssemblyError::InvalidUtf8), idle(limit))
    } else if fin {
        if k == MessageKind::Text && utf8_status(b) != Utf8Status::Complete {
            (Outcome::Fail(AssemblyError::InvalidUtf8), idle(limit))
        } else {
            (Outcome::Message(k, b), idle(limit))
        }
    } else {
        (Outcome::Pending, AssemblyView { open: Some(k), buffered: b, limit })
    }
}

/// What frame `f` leads to from assembly state `st`, and the next state.
pub open spec fn assemble(st: AssemblyView, f: FrameView) -> (Outcome, AssemblyView) {
    if is_control_op(f.opcode) {
        (Outcome::Control, st)
    } else if kind_of(f.opcode) is Some {
        if st.open is Some {
            (Outcome::Fail(AssemblyError::ProtocolViolation), idle(st.limit))
        } else {
            advance(kind_of(f.opcode)->Some_0, data_of(f), f.fin, st.limit)
        }
    } else if f.opcode == OpCode::Continuation {
        match st.open {
            None => (Outcome::Fail(AssemblyError::ProtocolViolation), idle(st.limit)),
            Some(k) => advance(k, st.buffered + data_of(f), f.fin, st.limit),
        }
    } else {
        (Outcome::Fail(AssemblyError::ProtocolViolation), idle(st.limit))
    }
}

/// Whether `r` is what outcome `o` stands for, for the frame `f`.
pub open spec fn gives(o: Outcome, r: Result<Assembled, AssemblyError>, f: FrameView) -> bool {
    match o {
        Outcome::Message(k, b) => r matches Ok(Assembled::Message(m)) && m.kind == k && m.data@
            == b,
        Outcome::Control => r matches Ok(Assembled::Control(c)) && c@ == f,
        Outcome::Pending => r matches Ok(Assembled::Pending),
        Outcome::Fail(e) => r == Err::<Assembled, AssemblyError>(e),
    }
}

/// Joins data frames into messages, checking text as its fragments arrive.
pub struct MessageAssembler {
    open: Option<MessageKind>,
    buffered: Vec<u8>,
    validator: Utf8Validator,
    limit: usize,
}

impl MessageAssembler {
    /// The assembly state.
    pub closed spec fn view(&self) -> AssemblyView {
        AssemblyView { open: self.open, buffered: self.buffered@, limit: self.limit as nat }
    }

    /// The validator has seen exactly the bytes of an open text message.
    pub closed spec fn wf(&self) -> bool {
        &&& self.validator.wf()
        &&& self.open == Some(MessageKind::Text) ==> self.validator.fed() == self.buffered@
        &&& self.open is None ==> self.buffered@.len() == 0
        &&& self.buffered@.len() <= self.limit
    }

    /// An assembler with no message open that accepts messages of any size.
    pub fn new() -> (r: MessageAssembler)
        ensures
            r.wf(),
            r.view() == idle(usize::MAX as nat),
    {
        MessageAssembler::with_limit(usize::MAX)
    }

    /// An assembler with no message open that accepts messages of at most `limit` bytes.
    pub fn with_limit(limit: usize) -> (r: MessageAssembler)
        ensures
            r.wf(),
            r.view() == idle(limit as nat),
    {
        let r = MessageAssembler {
            open: None,
            buffered: Vec::new(),
            validator: Utf8Validator::new(),
            limit,
        };
        assert(r.view().buffered =~= Seq::<u8>::empty());
        r
    }

    /// Drops the open message, if any.
    fn clear(&mut self)
        ensures
            final(self).wf(),
            final(self).view() == idle(old(self).limit as nat),
    {
        self.open = None;
        self.buffered = Vec::new();
        self.validator.reset();
        assert(self.view().buffered =~= Seq::<u8>::empty());
    }

    /// Takes one decoded frame. After a failure no message is open.
    #[verifier::rlimit(40)]
    pub fn push(&mut self, frame: Frame) -> (r: Result<Assembled, AssemblyError>)
        requires
            old(self).wf(),
        ensures
            final(self).wf(),
            gives(assemble(old(self).view(), frame@).0, r, frame@),
            final(self).view() == assemble(old(self).view(), frame@).1,
    {
        let op = frame.opcode();
        if op.is_control() {
            return Ok(Assembled::Control(frame));
        }
        let ghost f = frame@;
        let kind = if op == OpCode::Text {
            Some(MessageKind::Text)
        } else if op == OpCode::Binary {
            Some(MessageKind::Binary)
        } else {
            None
        };
        if kind.is_none() && op != OpCode::Continuation {
            self.clear();
            return Err(AssemblyError::ProtocolViolation);
        }
        if kind.is_some() && self.open.is_some() {
            self.clear();
            return Err(AssemblyError::ProtocolViolation);
        }
        if kind.is_none() && self.open.is_none() {
            self.clear();
            return Err(AssemblyError::ProtocolViolation);
        }
        let fin = frame.fin();
        let mut frame = frame;
        let mut data = match frame.take_application_data() {
            Some(d) => d,
            None => Vec::new(),
        };
        assert(data@ == data_of(f));
        let k = match kind {
            Some(k) => {
                self.validator.reset();
                self.buffered = Vec::new();
                assert(self.buffered@ =~= Seq::<u8>::empty());
                k
            },
            None => match self.open {
                Some(k) => k,
                None => MessageKind::Binary,
            },
        };
        let ghost b = self.buffered@ + data@;
        if data.len() > self.limit - self.buffered.len() {
            self.clear();
            return Err(AssemblyError::MessageTooBig);
        }
        let status = if k == MessageKind::Text {
            self.validator.feed(data.as_slice())
        } else {
            Utf8Status::Complete
        };
        self.buffered.append(&mut data);
        if k == MessageKind::Text && status == Utf8Status::Invalid {
            self.clear();
            return Err(AssemblyError::InvalidUtf8);
        }
        if fin {
            if k == MessageKind::Text && status != Utf8Status::Complete {
                self.clear();
                return Err(AssemblyError::InvalidUtf8);
            }
            let mut out: Vec<u8> = Vec::new();
            std::mem::swap(&mut out, &mut self.buffered);
            self.clear();
            return Ok(Assembled::Message(Message { kind: k, data: out }));
        }
        self.open = Some(k);
        Ok(Assembled::Pending)
    }
}

} // verus!
