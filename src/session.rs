//! One step of a connection's read side: decode a frame, route it, assemble messages.
use vstd::prelude::*;
use crate::assembler::{
    Assembled, AssemblyError, Message, MessageAssembler, Outcome, assemble, AssemblyView, idle,
};
use crate::close::{
    CLOSE_INVALID_PAYLOAD, CLOSE_PROTOCOL_ERROR, CLOSE_TOO_BIG, CloseEvent, CloseState, Connection,
    FailureKind, Mode, Reaction, close_next, CloseError, parsed_close_payload,
    state_after_frame,
};
use crate::codec::{CodecError, FrameCodec, Parse, parse};
use crate::codec::data_of;
use crate::frame::{Frame, OpCode, is_control_op};

verus! {

/// What one step of the read side yields.
#[derive(Debug)]
pub enum RecvStep {
    /// More bytes are needed from the transport.
    NeedMore,
    /// A frame was taken in and nothing surfaced yet: step again.
    Progress,
    /// A whole message.
    Message(Message),
    /// Send a pong with this payload, then step again.
    SendPong(Vec<u8>),
    /// The peer closed. Where `reply` holds, send a Close echoing `code` first.
    Closed { reply: bool, code: Option<u16>, reason: Vec<u8> },
    /// The connection failed: send Close with this status code and stop.
    Fail(u16),
}

/// The read side of a connection: codec, assembler and closing handshake.
pub struct Session {
    codec: FrameCodec,
    assembler: MessageAssembler,
    connection: Connection,
}

impl Session {
    /// The parts agree: the codec expects masks exactly from a client peer.
    pub closed spec fn wf(&self) -> bool {
        &&& self.codec.wf()
        &&& self.assembler.wf()
        &&& self.codec.peer_is_client() == (self.connection.mode() == Mode::Server)
        &&& self.codec.decoding_client() == self.codec.peer_is_client()
        &&& self.codec.decoding_bits() == self.codec.permitted_bits()
    }

    /// The bytes of the current frame that the codec holds.
    pub closed spec fn pending(&self) -> Seq<u8> {
        self.codec.pending()
    }

    /// Whether the peer is a client.
    pub closed spec fn peer_is_client(&self) -> bool {
        self.codec.peer_is_client()
    }

    /// The reserved bits that extensions permit.
    pub closed spec fn permitted_bits(&self) -> u8 {
        self.codec.permitted_bits()
    }

    /// Where the closing handshake stands.
    pub closed spec fn close_state(&self) -> CloseState {
        self.connection.close_state()
    }

    /// The message being assembled.
    pub closed spec fn assembly(&self) -> AssemblyView {
        self.assembler.view()
    }

    /// A session for one end of a connection, with the reserved bits that extensions
    /// negotiated and the largest message, in bytes, that it accepts.
    pub fn new(mode: Mode, reserved_bits: u8, max_message: usize) -> (r: Session)
        ensures
            r.wf(),
            r.pending() == Seq::<u8>::empty(),
            r.peer_is_client() == (mode == Mode::Server),
            r.permitted_bits() == reserved_bits,
            r.close_state() == CloseState::Open,
            r.assembly() == idle(max_message as nat),
    {
        let mut codec = FrameCodec::new();
        codec.set_client(mode == Mode::Server).set_reserved_bits(reserved_bits);
        Session {
            codec,
            assembler: MessageAssembler::with_limit(max_message),
            connection: Connection::new(mode),
        }
    }

    /// Where the closing handshake stands.
    pub fn state(&self) -> (r: CloseState)
        ensures
            r == self.close_state(),
    {
        self.connection.state()
    }

    /// Starts the closing handshake, or answers the peer's. Returns whether a Close
    /// frame is to be sent.
    pub fn send_close(&mut self) -> (r: bool)
        requires
            old(self).wf(),
        ensures
            final(self).wf(),
            final(self).close_state() == close_next(old(self).close_state(), CloseEvent::SendClose),
            r == (old(self).close_state() == CloseState::Open || old(self).close_state()
                == CloseState::RemoteClosing),
    {
        self.connection.send_close()
    }

    /// An outbound frame carrying `payload` in plain text: masked with `fresh_mask`
    /// in client mode, which the caller draws at random for each frame, and not
    /// masked in server mode.
    pub fn outbound_frame(&self, opcode: OpCode, fin: bool, payload: Vec<u8>, fresh_mask: u32) -> (r:
        Frame)
        requires
            self.wf(),
            payload@.len() <= u64::MAX,
        ensures
            r@.opcode == opcode,
            r@.fin == fin,
            r@.masked == !self.peer_is_client(),
            r@.mask == (if !self.peer_is_client() {
                fresh_mask
            } else {
                0
            }),
            r@.payload_length == payload@.len(),
            data_of(r@) == payload@,
            r@.payload_length == 0 <==> r@.application_data is None,
            !r@.rsv1 && !r@.rsv2 && !r@.rsv3,
            r@.extension_data is None,
    {
        self.connection.outbound_frame(opcode, fin, payload, fresh_mask)
    }

    /// Reads at most one frame from `buf` and decides what follows from it.
    ///
    /// A frame that fails to decode fails the connection. A decoded frame goes to
    /// the closing handshake: pings are answered, pongs dropped, a Close moves the
    /// handshake on, and frames that arrive while closing are dropped. Data frames
    /// that arrive while open go to the assembler.
    #[verifier::rlimit(60)]
    pub fn step(&mut self, buf: &mut Vec<u8>) -> (r: RecvStep)
        requires
            old(self).wf(),
        ensures
            final(self).wf(),
            final(self).peer_is_client() == old(self).peer_is_client(),
            final(self).permitted_bits() == old(self).permitted_bits(),
            ({
                let all = old(self).pending() + old(buf)@;
                let st = old(self).close_state();
                match parse(old(self).peer_is_client(), old(self).permitted_bits(), all) {
                    Parse::Incomplete => {
                        &&& r is NeedMore
                        &&& final(self).pending() + final(buf)@ == all
                        &&& final(self).close_state() == st
                        &&& final(self).assembly() == old(self).assembly()
                    },
                    Parse::Failed(e) => {
                        &&& r == RecvStep::Fail(
                            if e == CodecError::ProtocolViolation {
                                CLOSE_PROTOCOL_ERROR
                            } else {
                                CLOSE_INVALID_PAYLOAD
                            },
                        )
                        &&& final(self).close_state() == CloseState::Closed
                        &&& final(self).assembly() == old(self).assembly()
                    },
                    Parse::Done(f, n) => {
                        &&& final(buf)@ == all.subrange(n as int, all.len() as int)
                        &&& final(self).pending() == Seq::<u8>::empty()
                        &&& !(r is Fail) ==> final(self).close_state() == state_after_frame(st, f)
                        &&& r is Fail ==> final(self).close_state() == CloseState::Closed
                        &&& st == CloseState::Closed ==> r is Progress
                        &&& st == CloseState::Open && f.opcode == OpCode::Ping ==> (
                        r matches RecvStep::SendPong(p) && p@ == data_of(f))
                        &&& f.opcode == OpCode::Pong ==> r is Progress
                        &&& (st == CloseState::LocalClosing || st == CloseState::RemoteClosing)
                            && f.opcode != OpCode::Close ==> r is Progress
                        &&& st == CloseState::RemoteClosing && f.opcode == OpCode::Close
                            ==> r is Progress
                        &&& (st == CloseState::Open || st == CloseState::LocalClosing) && f.opcode
                            == OpCode::Close ==> match parsed_close_payload(data_of(f)) {
                            Ok(None) => r matches RecvStep::Closed { reply, code, reason } && reply
                                == (st == CloseState::Open) && code is None && reason@.len() == 0,
                            Ok(Some((c, t))) => r matches RecvStep::Closed { reply, code, reason }
                                && reply == (st == CloseState::Open) && code == Some(c) && reason@
                                == t,
                            Err(CloseError::ProtocolViolation) => r == RecvStep::Fail(
                                CLOSE_PROTOCOL_ERROR,
                            ),
                            Err(CloseError::InvalidUtf8) => r == RecvStep::Fail(
                                CLOSE_INVALID_PAYLOAD,
                            ),
                        }
                        &&& st == CloseState::Open && !is_control_op(f.opcode) ==> {
                            &&& final(self).assembly() == assemble(old(self).assembly(), f).1
                            &&& match assemble(old(self).assembly(), f).0 {
                                Outcome::Message(k, b) => r matches RecvStep::Message(m) && m.kind
                                    == k && m.data@ == b,
                                Outcome::Pending => r is Progress,
                                Outcome::Fail(AssemblyError::ProtocolViolation) => r
                                    == RecvStep::Fail(CLOSE_PROTOCOL_ERROR),
                                Outcome::Fail(AssemblyError::InvalidUtf8) => r == RecvStep::Fail(
                                    CLOSE_INVALID_PAYLOAD,
                                ),
                                Outcome::Fail(AssemblyError::MessageTooBig) => r
                                    == RecvStep::Fail(CLOSE_TOO_BIG),
                                Outcome::Control => false,
                            }
                        }
                        &&& !(st == CloseState::Open && !is_control_op(f.opcode))
                            ==> final(self).assembly() == old(self).assembly()
                    },
                }
            }),
    {
        let frame = match self.codec.decode(buf) {
            Ok(Some(frame)) => frame,
            Ok(None) => return RecvStep::NeedMore,
            Err(CodecError::ProtocolViolation) => {
                return RecvStep::Fail(self.connection.fail(FailureKind::ProtocolViolation));
            },
            Err(CodecError::InvalidUtf8) => {
                return RecvStep::Fail(self.connection.fail(FailureKind::InvalidUtf8));
            },
        };
        match self.connection.on_frame(frame) {
            Reaction::Ignore => RecvStep::Progress,
            Reaction::Pong(p) => RecvStep::SendPong(p),
            Reaction::Closed { reply, code, reason } => RecvStep::Closed { reply, code, reason },
            Reaction::Fail(code) => RecvStep::Fail(code),
            Reaction::Data(frame) => match self.assembler.push(frame) {
                Ok(Assembled::Message(m)) => RecvStep::Message(m),
                Ok(Assembled::Pending) => RecvStep::Progress,
                Ok(Assembled::Control(_)) => RecvStep::Progress,
                Err(AssemblyError::ProtocolViolation) => RecvStep::Fail(
                    self.connection.fail(FailureKind::ProtocolViolation),
                ),
                Err(AssemblyError::InvalidUtf8) => RecvStep::Fail(
                    self.connection.fail(FailureKind::InvalidUtf8),
                ),
                Err(AssemblyError::MessageTooBig) => RecvStep::Fail(
                    self.connection.fail(FailureKind::MessageTooBig),
                ),
            },
        }
    }
}

} // verus!
