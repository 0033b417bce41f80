//! The decisions of a connection: answering control frames and the closing handshake.
use vstd::prelude::*;
use crate::codec::data_of;
use crate::frame::{Frame, FrameView, OpCode, is_control_op};
use crate::utf8::{Utf8Status, utf8_status, scan_utf8};
use crate::wire::{be_value, be_bytes, read_be, push_be, lemma_be_round_trip, lemma_pow256_values};

verus! {

/// Normal closure.
pub const CLOSE_NORMAL: u16 = 1000;

/// The peer broke the protocol.
pub const CLOSE_PROTOCOL_ERROR: u16 = 1002;

/// A text message was not well-formed UTF-8.
pub const CLOSE_INVALID_PAYLOAD: u16 = 1007;

/// A message was larger than the configured bound.
pub const CLOSE_TOO_BIG: u16 = 1009;

/// Which end of the connection this is.
#[derive(Clone, Copy, Debug, PartialEq, Eq, Structural)]
pub enum Mode {
    Client,
    Server,
}

/// Where the closing handshake stands.
#[derive(Clone, Copy, Debug, PartialEq, Eq, Structural)]
pub enum CloseState {
    /// No Close frame sent or received.
    Open,
    /// We sent Close and wait for the peer's.
    LocalClosing,
    /// The peer sent Close and ours is still to go.
    RemoteClosing,
    /// Both Close frames have passed.
    Closed,
}

/// What moves the closing handshake.
#[derive(Clone, Copy, Debug, PartialEq, Eq, Structural)]
pub enum CloseEvent {
    SendClose,
    RecvClose,
    RecvOther,
}

/// The next state of the closing handshake.
pub open spec fn close_next(st: CloseState, ev: CloseEvent) -> CloseState {
    match (st, ev) {
        (CloseState::Open, CloseEvent::SendClose) => CloseState::LocalClosing,
        (CloseState::Open, CloseEvent::RecvClose) => CloseState::RemoteClosing,
        (CloseState::LocalClosing, CloseEvent::RecvClose) => CloseState::Closed,
        (CloseState::RemoteClosing, CloseEvent::SendClose) => CloseState::Closed,
        (s, _) => s,
    }
}

/// The next state of the closing handshake after event `ev`.
pub fn close_transition(st: CloseState, ev: CloseEvent) -> (r: CloseState)
    ensures
        r == close_next(st, ev),
{
    match (st, ev) {
        (CloseState::Open, CloseEvent::SendClose) => CloseState::LocalClosing,
        (CloseState::Open, CloseEvent::RecvClose) => CloseState::RemoteClosing,
        (CloseState::LocalClosing, CloseEvent::RecvClose) => CloseState::Closed,
        (CloseState::RemoteClosing, CloseEvent::SendClose) => CloseState::Closed,
        (s, _) => s,
    }
}

/// A status code that may stand in a Close frame: none below 1000, and none of
/// 1004, 1005, 1006 and 1015.
pub open spec fn close_code_ok(code: u16) -> bool {
    code >= 1000 && code != 1004 && code != 1005 && code != 1006 && code != 1015
}

/// Whether a status code may stand in a Close frame.
pub fn is_valid_close_code(code: u16) -> (r: bool)
    ensures
        r == close_code_ok(code),
{
    code >= 1000 && code != 1004 && code != 1005 && code != 1006 && code != 1015
}

/// Why a Close payload is refused.
#[derive(Clone, Copy, Debug, PartialEq, Eq, Structural)]
pub enum CloseError {
    /// One byte only, or a status code that may not appear on the wire.
    ProtocolViolation,
    /// The reason is not well-formed UTF-8.
    InvalidUtf8,
}

/// How a Close payload reads: `Ok(None)` where it is empty, else the status code
/// and the reason text.
pub open spec fn parsed_close_payload(d: Seq<u8>) -> Result<Option<(u16, Seq<u8>)>, CloseError> {
    if d.len() == 0 {
        Ok(None)
    } else if d.len() == 1 || !close_code_ok(be_value(d.subrange(0, 2)) as u16) {
        Err(CloseError::ProtocolViolation)
    } else if utf8_status(d.subrange(2, d.len() as int)) != Utf8Status::Complete {
        Err(CloseError::InvalidUtf8)
    } else {
        Ok(Some((be_value(d.subrange(0, 2)) as u16, d.subrange(2, d.len() as int))))
    }
}

/// Reads the payload of a Close frame: a big-endian status code and UTF-8 reason text.
pub fn parse_close_payload(d: &[u8]) -> (r: Result<Option<(u16, Vec<u8>)>, CloseError>)
    ensures
        match parsed_close_payload(d@) {
            Ok(None) => r matches Ok(None),
            Ok(Some((code, reason))) => r matches Ok(Some((c, t))) && c == code && t@ == reason,
            Err(e) => r == Err::<Option<(u16, Vec<u8>)>, CloseError>(e),
        },
{
    if d.len() == 0 {
        return Ok(None);
    }
    if d.len() == 1 {
        return Err(CloseError::ProtocolViolation);
    }
    let v = read_be(d, 0, 2);
    proof {
        crate::wire::lemma_be_value_bound(d@.subrange(0, 2));
        lemma_pow256_values();
    }
    let code = v as u16;
    if !is_valid_close_code(code) {
        return Err(CloseError::ProtocolViolation);
    }
    let mut reason: Vec<u8> = Vec::new();
    let mut i: usize = 2;
    while i < d.len()
        invariant
            2 <= i <= d@.len(),
            reason@ == d@.subrange(2, i as int),
        decreases d@.len() - i,
    {
        reason.push(d[i]);
        i = i + 1;
        assert(reason@ =~= d@.subrange(2, i as int));
    }
    let (status, _) = scan_utf8(reason.as_slice());
    if status != Utf8Status::Complete {
        return Err(CloseError::InvalidUtf8);
    }
    Ok(Some((code, reason)))
}

/// The payload of a Close frame with this status code and reason.
pub open spec fn close_payload_of(code: u16, reason: Seq<u8>) -> Seq<u8> {
    be_bytes(code as nat, 2) + reason
}

/// Builds the payload of a Close frame: the status code, big-endian, then the reason.
pub fn close_payload(code: u16, reason: &[u8]) -> (r: Vec<u8>)
    ensures
        r@ == close_payload_of(code, reason@),
{
    let mut out: Vec<u8> = Vec::new();
    push_be(&mut out, code as u64, 2);
    let ghost head = out@;
    let mut i: usize = 0;
    while i < reason.len()
        invariant
            i <= reason@.len(),
            out@ == head + reason@.subrange(0, i as int),
        decreases reason@.len() - i,
    {
        out.push(reason[i]);
        i = i + 1;
        assert(out@ =~= head + reason@.subrange(0, i as int));
    }
    assert(reason@.subrange(0, reason@.len() as int) =~= reason@);
    assert(head =~= be_bytes(code as nat, 2));
    out
}

/// A Close payload built from a valid code and well-formed reason reads back as them.
pub proof fn lemma_close_payload_round_trip(code: u16, reason: Seq<u8>)
    requires
        close_code_ok(code),
        utf8_status(reason) == Utf8Status::Complete,
    ensures
        parsed_close_payload(close_payload_of(code, reason)) == Ok::<
            Option<(u16, Seq<u8>)>,
            CloseError,
        >(Some((code, reason))),
{
    lemma_pow256_values();
    lemma_be_round_trip(code as nat, 2);
    let d = close_payload_of(code, reason);
    assert(d.subrange(0, 2) =~= be_bytes(code as nat, 2));
    assert(d.subrange(2, d.len() as int) =~= reason);
}

/// The kinds of failure that end a connection.
#[derive(Clone, Copy, Debug, PartialEq, Eq, Structural)]
pub enum FailureKind {
    ProtocolViolation,
    InvalidUtf8,
    MessageTooBig,
}

/// The status code sent on closing for a failure of kind `k`.
pub open spec fn failure_code(k: FailureKind) -> u16 {
    match k {
        FailureKind::ProtocolViolation => CLOSE_PROTOCOL_ERROR,
        FailureKind::InvalidUtf8 => CLOSE_INVALID_PAYLOAD,
        FailureKind::MessageTooBig => CLOSE_TOO_BIG,
    }
}

/// What the connection does about a frame it received.
#[derive(Debug)]
pub enum Reaction {
    /// Nothing: a pong, or a frame dropped while closing.
    Ignore,
    /// A data frame, for the message assembler.
    Data(Frame),
    /// Answer a ping with a pong that carries this payload.
    Pong(Vec<u8>),
    /// The peer closed. Where `reply` holds, answer with a Close that echoes `code`.
    /// Then report the code and reason to the application.
    Closed { reply: bool, code: Option<u16>, reason: Vec<u8> },
    /// The peer broke the rules: send Close with this status code and stop.
    Fail(u16),
}

/// The decisions of one connection: its mode and where the closing handshake stands.
pub struct Connection {
    mode: Mode,
    close_state: CloseState,
}

/// The close state after receiving frame `f` in state `st`.
pub open spec fn state_after_frame(st: CloseState, f: FrameView) -> CloseState {
    if f.opcode == OpCode::Close {
        if st == CloseState::Open {
            // The peer's Close is answered at once.
            close_next(close_next(st, CloseEvent::RecvClose), CloseEvent::SendClose)
        } else {
            close_next(st, CloseEvent::RecvClose)
        }
    } else {
        close_next(st, CloseEvent::RecvOther)
    }
}

impl Connection {
    /// A connection in `mode` with the handshake not begun.
    pub fn new(mode: Mode) -> (r: Connection)
        ensures
            r.mode() == mode,
            r.close_state() == CloseState::Open,
    {
        Connection { mode, close_state: CloseState::Open }
    }

    /// The mode, for contracts.
    pub closed spec fn mode(&self) -> Mode {
        self.mode
    }

    /// Where the closing handshake stands, for contracts.
    pub closed spec fn close_state(&self) -> CloseState {
        self.close_state
    }

    /// The mode.
    pub fn get_mode(&self) -> (r: Mode)
        ensures
            r == self.mode(),
    {
        self.mode
    }

    /// Where the closing handshake stands.
    pub fn state(&self) -> (r: CloseState)
        ensures
            r == self.close_state(),
    {
        self.close_state
    }

    /// Whether outbound frames must be masked: exactly in client mode.
    pub fn masks_outbound(&self) -> (r: bool)
        ensures
            r == (self.mode() == Mode::Client),
    {
        self.mode == Mode::Client
    }

    /// An outbound frame carrying `payload` in plain text. In client mode it is masked
    /// with `fresh_mask`, which the caller draws at random for each frame; in server
    /// mode it is not masked.
    pub fn outbound_frame(&self, opcode: OpCode, fin: bool, payload: Vec<u8>, fresh_mask: u32) -> (r:
        Frame)
        requires
            payload@.len() <= u64::MAX,
        ensures
            r@.opcode == opcode,
            r@.fin == fin,
            r@.masked == (self.mode() == Mode::Client),
            r@.mask == (if self.mode() == Mode::Client {
                fresh_mask
            } else {
                0
            }),
            r@.payload_length == payload@.len(),
            data_of(r@) == payload@,
            r@.payload_length == 0 <==> r@.application_data is None,
            !r@.rsv1 && !r@.rsv2 && !r@.rsv3,
            r@.extension_data is None,
    {
        let client = self.mode == Mode::Client;
        let len = payload.len() as u64;
        let data = if payload.len() == 0 {
            None
        } else {
            Some(payload)
        };
        Frame::from_parts(
            fin,
            false,
            false,
            false,
            opcode,
            client,
            if client {
                fresh_mask
            } else {
                0
            },
            len,
            None,
            data,
        )
    }

    /// We start the closing handshake, or answer the peer's Close. Returns whether
    /// a Close frame is to be sent.
    pub fn send_close(&mut self) -> (r: bool)
        ensures
            final(self).mode() == old(self).mode(),
            final(self).close_state() == close_next(old(self).close_state(), CloseEvent::SendClose),
            r == (old(self).close_state() == CloseState::Open || old(self).close_state()
                == CloseState::RemoteClosing),
    {
        let send = self.close_state == CloseState::Open || self.close_state
            == CloseState::RemoteClosing;
        self.close_state = close_transition(self.close_state, CloseEvent::SendClose);
        send
    }

    /// The connection fails: it closes with the status code of `kind`.
    pub fn fail(&mut self, kind: FailureKind) -> (r: u16)
        ensures
            final(self).mode() == old(self).mode(),
            final(self).close_state() == CloseState::Closed,
            r == failure_code(kind),
    {
        self.close_state = CloseState::Closed;
        match kind {
            FailureKind::ProtocolViolation => CLOSE_PROTOCOL_ERROR,
            FailureKind::InvalidUtf8 => CLOSE_INVALID_PAYLOAD,
            FailureKind::MessageTooBig => CLOSE_TOO_BIG,
        }
    }

    /// Decides what to do about a decoded frame. Pings are answered with the same
    /// payload, pongs are dropped, a Close moves the handshake on (answered at once
    /// while open), and once closing has begun other frames are dropped.
    #[verifier::rlimit(40)]
    pub fn on_frame(&mut self, frame: Frame) -> (r: Reaction)
        ensures
            final(self).mode() == old(self).mode(),
            ({
                let f = frame@;
                let st = old(self).close_state();
                &&& !(r is Fail) ==> final(self).close_state() == state_after_frame(st, f)
                &&& r is Fail ==> final(self).close_state() == CloseState::Closed
                &&& st == CloseState::Closed ==> r is Ignore
                &&& st == CloseState::Open && !is_control_op(f.opcode) ==> (r matches Reaction::Data(
                    d,
                ) && d@ == f)
                &&& st == CloseState::Open && f.opcode == OpCode::Ping ==> (r matches Reaction::Pong(
                    p,
                ) && p@ == data_of(f))
                &&& f.opcode == OpCode::Pong ==> r is Ignore
                &&& (st == CloseState::LocalClosing || st == CloseState::RemoteClosing)
                    && f.opcode != OpCode::Close ==> r is Ignore
                &&& (st == CloseState::Open || st == CloseState::LocalClosing) && f.opcode
                    == OpCode::Close ==> match parsed_close_payload(data_of(f)) {
                    Ok(None) => r matches Reaction::Closed { reply, code, reason } && reply == (st
                        == CloseState::Open) && code is None && reason@.len() == 0,
                    Ok(Some((c, t))) => r matches Reaction::Closed { reply, code, reason } && reply
                        == (st == CloseState::Open) && code == Some(c) && reason@ == t,
                    Err(CloseError::ProtocolViolation) => r == Reaction::Fail(CLOSE_PROTOCOL_ERROR),
                    Err(CloseError::InvalidUtf8) => r == Reaction::Fail(CLOSE_INVALID_PAYLOAD),
                }
                &&& st == CloseState::RemoteClosing && f.opcode == OpCode::Close ==> r is Ignore
            }),
    {
        let st = self.close_state;
        let op = frame.opcode();
        if st == CloseState::Closed {
            return Reaction::Ignore;
        }
        if op == OpCode::Close {
            if st == CloseState::RemoteClosing {
                return Reaction::Ignore;
            }
            let mut frame = frame;
            let data = match frame.take_application_data() {
                Some(d) => d,
                None => Vec::new(),
            };
            match parse_close_payload(data.as_slice()) {
                Ok(parsed) => {
                    let reply = st == CloseState::Open;
                    self.close_state = close_transition(
                        close_transition(st, CloseEvent::RecvClose),
                        CloseEvent::SendClose,
                    );
                    if !reply {
                        self.close_state = close_transition(st, CloseEvent::RecvClose);
                    }
                    match parsed {
                        Some((code, reason)) => Reaction::Closed { reply, code: Some(code), reason },
                        None => Reaction::Closed { reply, code: None, reason: Vec::new() },
                    }
                },
                Err(CloseError::ProtocolViolation) => {
                    self.close_state = CloseState::Closed;
                    Reaction::Fail(CLOSE_PROTOCOL_ERROR)
                },
                Err(CloseError::InvalidUtf8) => {
                    self.close_state = CloseState::Closed;
                    Reaction::Fail(CLOSE_INVALID_PAYLOAD)
                },
            }
        } else if st != CloseState::Open {
            Reaction::Ignore
        } else if op == OpCode::Ping {
            let mut frame = frame;
            let data = match frame.take_application_data() {
                Some(d) => d,
                None => Vec::new(),
            };
            Reaction::Pong(data)
        } else if op == OpCode::Pong {
            Reaction::Ignore
        } else {
            Reaction::Data(frame)
        }
    }
}

} // verus!
