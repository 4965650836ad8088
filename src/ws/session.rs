use vstd::prelude::*;
use vstd::string::StringSliceAdditionalSpecFns;
use vstd::utf8::{decode_utf8, valid_utf8};

use crate::ws::errors::{ControlFrameFault, WebSocketError};
use crate::ws::mask::{mask, masked};
use crate::ws::wire::{be16, encode_frame, frame_bytes, FrameHeader, Op};

verus! {

/// The largest payload a control frame may carry.
pub const MAX_CONTROL_PAYLOAD: u64 = 125;

/// Close code reported when a Close frame carries none.
pub const NO_STATUS_CODE: u16 = 1005;

/// Close code reported when the stream ends without a Close frame.
pub const NO_CLOSE: u16 = 1006;

/// How far the close handshake has gone.
#[derive(Debug, Clone, Copy, PartialEq, Eq, Structural)]
pub enum CloseState {
    /// Nothing has been closed.
    Open,
    /// A Close frame was received (or the stream ended).
    Read,
    /// A Close frame was sent.
    Write,
    /// Both directions are closed.
    Both,
}

/// One direction of a session.
#[derive(Debug, Clone, Copy, PartialEq, Eq, Structural)]
pub enum Direction {
    Read,
    Write,
}

/// The close state after closing direction `d` in state `s`.
pub open spec fn shutdown_state(s: CloseState, d: Direction) -> CloseState {
    match s {
        CloseState::Open => match d {
            Direction::Read => CloseState::Read,
            Direction::Write => CloseState::Write,
        },
        CloseState::Read => if d == Direction::Read {
            CloseState::Read
        } else {
            CloseState::Both
        },
        CloseState::Write => if d == Direction::Write {
            CloseState::Write
        } else {
            CloseState::Both
        },
        CloseState::Both => CloseState::Both,
    }
}

/// The order `Open ≺ {Read, Write} ≺ Both` on close states.
pub open spec fn close_le(a: CloseState, b: CloseState) -> bool {
    a == b || a == CloseState::Open || b == CloseState::Both
}

pub open spec fn spec_can_read(s: CloseState) -> bool {
    s == CloseState::Open || s == CloseState::Write
}

pub open spec fn spec_can_write(s: CloseState) -> bool {
    s == CloseState::Open || s == CloseState::Read
}

impl CloseState {
    /// Frames may still be read unless a Close was received.
    pub fn can_read(self) -> (r: bool)
        ensures
            r == spec_can_read(self),
    {
        matches!(self, CloseState::Open | CloseState::Write)
    }

    /// Frames may still be sent unless a Close was sent.
    pub fn can_write(self) -> (r: bool)
        ensures
            r == spec_can_write(self),
    {
        matches!(self, CloseState::Open | CloseState::Read)
    }

    /// The state after closing direction `d`.
    pub fn shutdown(self, d: Direction) -> (r: CloseState)
        ensures
            r == shutdown_state(self, d),
    {
        match self {
            CloseState::Open => match d {
                Direction::Read => CloseState::Read,
                Direction::Write => CloseState::Write,
            },
            CloseState::Read => match d {
                Direction::Read => CloseState::Read,
                Direction::Write => CloseState::Both,
            },
            CloseState::Write => match d {
                Direction::Read => CloseState::Both,
                Direction::Write => CloseState::Write,
            },
            CloseState::Both => CloseState::Both,
        }
    }
}

/// Closing a direction never moves the close state down the order
/// `Open ≺ {Read, Write} ≺ Both`; in particular `Both` is never left.
pub proof fn lemma_close_monotonic(s: CloseState, d: Direction)
    ensures
        close_le(s, shutdown_state(s, d)),
        s == CloseState::Both ==> shutdown_state(s, d) == CloseState::Both,
{
}

/// Once both directions are closed, nothing can be read or sent.
pub proof fn lemma_both_closed(s: CloseState)
    requires
        s == CloseState::Both,
    ensures
        !spec_can_read(s),
        !spec_can_write(s),
{
}


/// A complete message or control frame handed to the reader.
#[derive(Debug, PartialEq, Eq)]
pub enum Frame {
    Ping(Vec<u8>),
    Pong(Vec<u8>),
    Close(u16, Vec<u8>),
    Text(String),
    Binary(Vec<u8>),
}

/// What a received frame or message holds.
pub enum FrameView {
    Ping(Seq<u8>),
    Pong(Seq<u8>),
    Close(u16, Seq<u8>),
    Text(Seq<char>),
    Binary(Seq<u8>),
}

impl View for Frame {
    type V = FrameView;

    open spec fn view(&self) -> FrameView {
        match self {
            Frame::Ping(p) => FrameView::Ping(p@),
            Frame::Pong(p) => FrameView::Pong(p@),
            Frame::Close(c, p) => FrameView::Close(*c, p@),
            Frame::Text(t) => FrameView::Text(t@),
            Frame::Binary(p) => FrameView::Binary(p@),
        }
    }
}

/// A frame to send: its opcode, close code (for Close), payload and final
/// flag.
#[derive(Debug, Clone, Copy)]
pub struct BorrowedFrame<'a> {
    pub op: Op,
    pub close_code: u16,
    pub payload: &'a [u8],
    pub fin: bool,
}

impl Frame {
    /// A final Text frame.
    pub fn text<'a>(payload: &'a str) -> (r: BorrowedFrame<'a>)
        ensures
            r.op == Op::Text,
            r.fin,
            r.payload@ == payload.spec_bytes(),
    {
        BorrowedFrame { op: Op::Text, close_code: 0, payload: payload.as_bytes(), fin: true }
    }

    /// A final Binary frame.
    pub fn binary<'a>(payload: &'a [u8]) -> (r: BorrowedFrame<'a>)
        ensures
            r.op == Op::Binary,
            r.fin,
            r.payload@ == payload@,
    {
        BorrowedFrame { op: Op::Binary, close_code: 0, payload, fin: true }
    }

    /// A non-final Text frame: more of the message follows.
    pub fn text_partial<'a>(payload: &'a str) -> (r: BorrowedFrame<'a>)
        ensures
            r.op == Op::Text,
            !r.fin,
            r.payload@ == payload.spec_bytes(),
    {
        BorrowedFrame { op: Op::Text, close_code: 0, payload: payload.as_bytes(), fin: false }
    }

    /// A non-final Binary frame: more of the message follows.
    pub fn binary_partial<'a>(payload: &'a [u8]) -> (r: BorrowedFrame<'a>)
        ensures
            r.op == Op::Binary,
            !r.fin,
            r.payload@ == payload@,
    {
        BorrowedFrame { op: Op::Binary, close_code: 0, payload, fin: false }
    }

    /// A Ping frame.
    pub fn ping<'a>(payload: &'a [u8]) -> (r: BorrowedFrame<'a>)
        ensures
            r.op == Op::Ping,
            r.fin,
            r.payload@ == payload@,
    {
        BorrowedFrame { op: Op::Ping, close_code: 0, payload, fin: true }
    }

    /// A Pong frame.
    pub fn pong<'a>(payload: &'a [u8]) -> (r: BorrowedFrame<'a>)
        ensures
            r.op == Op::Pong,
            r.fin,
            r.payload@ == payload@,
    {
        BorrowedFrame { op: Op::Pong, close_code: 0, payload, fin: true }
    }

    /// A Close frame with a close code and a reason.
    pub fn close<'a>(code: u16, payload: &'a [u8]) -> (r: BorrowedFrame<'a>)
        ensures
            r.op == Op::Close,
            r.fin,
            r.close_code == code,
            r.payload@ == payload@,
    {
        BorrowedFrame { op: Op::Close, close_code: code, payload, fin: true }
    }
}

/// Limits of a WebSocket session, in milliseconds and bytes.
#[derive(Debug, Clone, Copy, PartialEq, Eq, Structural)]
pub struct WebSocketOptions {
    pub handshake_timeout_ms: u64,
    pub max_message_length: usize,
    pub close_timeout_ms: u64,
}

impl WebSocketOptions {
    /// A one-minute handshake timeout, a 128 MiB message cap and a
    /// 30-second close timeout.
    pub fn new() -> (r: WebSocketOptions)
        ensures
            r.handshake_timeout_ms == 60_000,
            r.max_message_length == 128 * 1024 * 1024,
            r.close_timeout_ms == 30_000,
    {
        WebSocketOptions {
            handshake_timeout_ms: 60_000,
            max_message_length: 128 * 1024 * 1024,
            close_timeout_ms: 30_000,
        }
    }

    pub fn set_handshake_timeout(&mut self, timeout_ms: u64) -> (r: &mut Self)
        ensures
            *r == (WebSocketOptions { handshake_timeout_ms: timeout_ms, ..*old(self) }),
            *final(self) == *final(r),
    {
        self.handshake_timeout_ms = timeout_ms;
        self
    }

    pub fn set_max_message_length(&mut self, max: usize) -> (r: &mut Self)
        ensures
            *r == (WebSocketOptions { max_message_length: max, ..*old(self) }),
            *final(self) == *final(r),
    {
        self.max_message_length = max;
        self
    }

    pub fn set_close_timeout(&mut self, timeout_ms: u64) -> (r: &mut Self)
        ensures
            *r == (WebSocketOptions { close_timeout_ms: timeout_ms, ..*old(self) }),
            *final(self) == *final(r),
    {
        self.close_timeout_ms = timeout_ms;
        self
    }
}

/// The state of one WebSocket session, apart from its connection: the
/// message being assembled, the opcode of the message being sent, and the
/// close state.
pub struct WebSocket {
    pub is_client: bool,
    pub max_message_length: usize,
    pub close_timeout_ms: u64,
    pub expect_continuation: bool,
    pub current_message: Option<(Op, Vec<u8>)>,
    pub last_sent_message_op: Option<Op>,
    pub close_state: CloseState,
}

/// The session as values.
pub struct SessionView {
    pub is_client: bool,
    pub max_message_length: nat,
    pub expect_continuation: bool,
    pub current_message: Option<(Op, Seq<u8>)>,
    pub last_sent_message_op: Option<Op>,
    pub close_state: CloseState,
}

impl View for WebSocket {
    type V = SessionView;

    open spec fn view(&self) -> SessionView {
        SessionView {
            is_client: self.is_client,
            max_message_length: self.max_message_length as nat,
            expect_continuation: self.expect_continuation,
            current_message: match self.current_message {
                Some((op, b)) => Some((op, b@)),
                None => None,
            },
            last_sent_message_op: self.last_sent_message_op,
            close_state: self.close_state,
        }
    }
}

/// The bytes of the message being assembled.
pub open spec fn buffered(s: SessionView) -> Seq<u8> {
    match s.current_message {
        Some((_, b)) => b,
        None => seq![],
    }
}

impl SessionView {
    /// A message is being assembled exactly when a continuation is expected;
    /// it is a Text or Binary message and within the length cap.
    pub open spec fn wf(self) -> bool {
        &&& self.expect_continuation == self.current_message.is_some()
        &&& (self.current_message matches Some((op, b)) ==> (op == Op::Text || op == Op::Binary)
            && b.len() <= self.max_message_length)
        &&& (self.last_sent_message_op matches Some(op) ==> (op == Op::Text || op == Op::Binary))
    }
}

/// The error a received frame header gives in state `s`, if any: the checks
/// made before its payload is read.
pub open spec fn header_fault(s: SessionView, h: FrameHeader) -> Option<WebSocketError> {
    if !spec_can_read(s.close_state) {
        Some(WebSocketError::Shutdown)
    } else if h.op == Op::Invalid {
        Some(WebSocketError::InvalidOpcode)
    } else if h.op.spec_is_control() && !h.fin {
        Some(WebSocketError::InvalidControlFrame(ControlFrameFault::FinNotSet))
    } else if h.op.spec_is_control() && h.len > MAX_CONTROL_PAYLOAD {
        Some(WebSocketError::InvalidControlFrame(ControlFrameFault::TooLong))
    } else if !h.op.spec_is_control() && s.expect_continuation && h.op != Op::Continuation {
        Some(WebSocketError::ExpectedContinuation)
    } else if !h.op.spec_is_control() && !s.expect_continuation && h.op == Op::Continuation {
        Some(WebSocketError::UnexpectedContinuation)
    } else if h.mask.is_some() && s.is_client {
        Some(WebSocketError::ServerMasked)
    } else if h.len > s.max_message_length {
        Some(WebSocketError::MessageTooLong)
    } else if !h.op.spec_is_control() && buffered(s).len() + h.len > s.max_message_length {
        Some(WebSocketError::MessageTooLong)
    } else {
        None
    }
}

/// The payload of a received frame once its mask is removed.
pub open spec fn unmasked(h: FrameHeader, wire: Seq<u8>) -> Seq<u8> {
    match h.mask {
        Some(k) => masked(wire, k),
        None => wire,
    }
}

/// The close code and reason of a received Close payload: the first two
/// bytes, big-endian, when there are two; else `NO_STATUS_CODE`.
pub open spec fn close_parts(p: Seq<u8>) -> (u16, Seq<u8>) {
    if p.len() >= 2 {
        ((((p[0] as u16) << 8u16) | (p[1] as u16)) as u16, p.subrange(2, p.len() as int))
    } else {
        (NO_STATUS_CODE, p)
    }
}

/// A complete message of opcode `op` holding `bytes`.
pub open spec fn message_of(op: Op, bytes: Seq<u8>) -> Result<FrameView, WebSocketError> {
    if op == Op::Text {
        if valid_utf8(bytes) {
            Ok(FrameView::Text(decode_utf8(bytes)))
        } else {
            Err(WebSocketError::InvalidUtf8)
        }
    } else {
        Ok(FrameView::Binary(bytes))
    }
}

/// The session and the outcome after receiving a frame with header `h` and
/// unmasked payload `data` in state `s`.
pub open spec fn receive(s: SessionView, h: FrameHeader, data: Seq<u8>) -> (
    SessionView,
    Result<Option<FrameView>, WebSocketError>,
) {
    match header_fault(s, h) {
        Some(e) => (s, Err(e)),
        None => if h.op == Op::Ping {
            (s, Ok(Some(FrameView::Ping(data))))
        } else if h.op == Op::Pong {
            (s, Ok(Some(FrameView::Pong(data))))
        } else if h.op == Op::Close {
            (
                SessionView { close_state: shutdown_state(s.close_state, Direction::Read), ..s },
                Ok(Some(FrameView::Close(close_parts(data).0, close_parts(data).1))),
            )
        } else {
            let op = match s.current_message {
                Some((op, _)) => op,
                None => h.op,
            };
            let bytes = buffered(s) + data;
            if h.fin {
                (
                    SessionView { expect_continuation: false, current_message: None, ..s },
                    match message_of(op, bytes) {
                        Ok(m) => Ok(Some(m)),
                        Err(e) => Err(e),
                    },
                )
            } else {
                (
                    SessionView {
                        expect_continuation: true,
                        current_message: Some((op, bytes)),
                        ..s
                    },
                    Ok(None),
                )
            }
        },
    }
}

pub open spec fn received_view(r: Result<Option<Frame>, WebSocketError>) -> Result<
    Option<FrameView>,
    WebSocketError,
> {
    match r {
        Ok(Some(f)) => Ok(Some(f@)),
        Ok(None) => Ok(None),
        Err(e) => Err(e),
    }
}

/// Relies on `String::from_utf8`: it succeeds exactly on UTF-8 bytes, and
/// the string holds the characters they encode.
#[verifier::external_body]
fn utf8_string(bytes: Vec<u8>) -> (r: Option<String>)
    ensures
        r is Some <==> valid_utf8(bytes@),
        r matches Some(t) ==> t@ == decode_utf8(bytes@),
{
    String::from_utf8(bytes).ok()
}

fn append_bytes(dst: &mut Vec<u8>, src: &[u8])
    ensures
        final(dst)@ == old(dst)@ + src@,
{
    let mut i: usize = 0;
    while i < src.len()
        invariant
            i <= src@.len(),
            dst@ == old(dst)@ + src@.subrange(0, i as int),
        decreases src@.len() - i,
    {
        dst.push(src[i]);
        i = i + 1;
        assert(dst@ =~= old(dst)@ + src@.subrange(0, i as int));
    }
    assert(src@.subrange(0, src@.len() as int) =~= src@);
}

fn bytes_from(src: &[u8], start: usize) -> (r: Vec<u8>)
    requires
        start <= src@.len(),
    ensures
        r@ == src@.subrange(start as int, src@.len() as int),
{
    let mut r: Vec<u8> = Vec::new();
    let mut i = start;
    while i < src.len()
        invariant
            start <= i <= src@.len(),
            r@ == src@.subrange(start as int, i as int),
        decreases src@.len() - i,
    {
        r.push(src[i]);
        i = i + 1;
        assert(r@ =~= src@.subrange(start as int, i as int));
    }
    r
}

impl WebSocket {
    /// A fresh session: client or server side, with the limits of `options`.
    pub fn from_options(options: &WebSocketOptions, is_client: bool) -> (r: WebSocket)
        ensures
            r@.wf(),
            r.is_client == is_client,
            r.max_message_length == options.max_message_length,
            r.close_timeout_ms == options.close_timeout_ms,
            !r.expect_continuation,
            r.current_message is None,
            r.last_sent_message_op is None,
            r.close_state == CloseState::Open,
    {
        WebSocket {
            is_client,
            max_message_length: options.max_message_length,
            close_timeout_ms: options.close_timeout_ms,
            expect_continuation: false,
            current_message: None,
            last_sent_message_op: None,
            close_state: CloseState::Open,
        }
    }

    /// A server-side session.
    pub fn server(options: &WebSocketOptions) -> (r: WebSocket)
        ensures
            r@.wf(),
            !r.is_client,
            r.max_message_length == options.max_message_length,
            r.close_state == CloseState::Open,
    {
        WebSocket::from_options(options, false)
    }

    pub fn set_max_message_length(&mut self, max: usize) -> (r: &mut Self)
        requires
            old(self)@.wf(),
            buffered(old(self)@).len() <= max,
        ensures
            r@.wf(),
            *r == (WebSocket { max_message_length: max, ..*old(self) }),
            *final(self) == *final(r),
    {
        self.max_message_length = max;
        self
    }

    pub fn set_close_timeout(&mut self, timeout_ms: u64) -> (r: &mut Self)
        ensures
            *r == (WebSocket { close_timeout_ms: timeout_ms, ..*old(self) }),
            *final(self) == *final(r),
    {
        self.close_timeout_ms = timeout_ms;
        self
    }

    pub fn can_read(&self) -> (r: bool)
        ensures
            r == spec_can_read(self.close_state),
    {
        self.close_state.can_read()
    }

    pub fn can_write(&self) -> (r: bool)
        ensures
            r == spec_can_write(self.close_state),
    {
        self.close_state.can_write()
    }

    /// Whether both directions are closed, so that the connection is to be
    /// shut down for writing.
    pub fn closing(&self) -> (r: bool)
        ensures
            r == (self.close_state == CloseState::Both),
    {
        self.close_state == CloseState::Both
    }

    /// Checks a received frame header before its payload is read.
    pub fn check_header(&self, h: &FrameHeader) -> (r: Result<(), WebSocketError>)
        requires
            self@.wf(),
        ensures
            r is Ok <==> header_fault(self@, *h) is None,
            r matches Err(e) ==> header_fault(self@, *h) == Some(e),
    {
        if !self.can_read() {
            return Err(WebSocketError::Shutdown);
        }
        if h.op == Op::Invalid {
            return Err(WebSocketError::InvalidOpcode);
        }
        let control = h.op.is_control();
        if control && !h.fin {
            return Err(WebSocketError::InvalidControlFrame(ControlFrameFault::FinNotSet));
        }
        if control && h.len > MAX_CONTROL_PAYLOAD {
            return Err(WebSocketError::InvalidControlFrame(ControlFrameFault::TooLong));
        }
        if !control && self.expect_continuation && h.op != Op::Continuation {
            return Err(WebSocketError::ExpectedContinuation);
        }
        if !control && !self.expect_continuation && h.op == Op::Continuation {
            return Err(WebSocketError::UnexpectedContinuation);
        }
        if h.mask.is_some() && self.is_client {
            return Err(WebSocketError::ServerMasked);
        }
        if h.len > self.max_message_length as u64 {
            return Err(WebSocketError::MessageTooLong);
        }
        if !control {
            let have: usize = match &self.current_message {
                Some((_, b)) => b.len(),
                None => 0,
            };
            if h.len > (self.max_message_length - have) as u64 {
                return Err(WebSocketError::MessageTooLong);
            }
        }
        Ok(())
    }

    /// Takes in a received frame, its header `h` and its payload as it stood
    /// on the wire: a complete message or control frame, `None` while a
    /// fragmented message is still being assembled, or the error that the
    /// frame gives. A frame refused on its header leaves the session as it
    /// was; a final text fragment ends the message even when it is not UTF-8.
    pub fn receive_frame(&mut self, h: &FrameHeader, payload: &[u8]) -> (r: Result<
        Option<Frame>,
        WebSocketError,
    >)
        requires
            old(self)@.wf(),
            payload@.len() == h.len,
        ensures
            final(self)@.wf(),
            final(self)@ == receive(old(self)@, *h, unmasked(*h, payload@)).0,
            received_view(r) == receive(old(self)@, *h, unmasked(*h, payload@)).1,
            r is Ok ==> h.fin || !h.op.spec_is_control(),
            r is Ok && h.op.spec_is_control() ==> payload@.len() <= MAX_CONTROL_PAYLOAD,
            r matches Ok(Some(Frame::Text(t))) ==> valid_utf8(buffered(old(self)@) + unmasked(*h, payload@))
                && t@ == decode_utf8(buffered(old(self)@) + unmasked(*h, payload@)),
    {
        match self.check_header(h) {
            Err(e) => return Err(e),
            Ok(()) => {},
        }
        let mut data = bytes_from(payload, 0);
        assert(payload@.subrange(0, payload@.len() as int) =~= payload@);
        match h.mask {
            Some(k) => mask(data.as_mut_slice(), k),
            None => {},
        }
        let ghost d = unmasked(*h, payload@);
        assert(data@ == d);
        if h.op == Op::Ping {
            return Ok(Some(Frame::Ping(data)));
        }
        if h.op == Op::Pong {
            return Ok(Some(Frame::Pong(data)));
        }
        if h.op == Op::Close {
            self.close_state = self.close_state.shutdown(Direction::Read);
            if data.len() >= 2 {
                let code: u16 = ((data[0] as u16) << 8u16) | (data[1] as u16);
                let reason = bytes_from(data.as_slice(), 2);
                return Ok(Some(Frame::Close(code, reason)));
            } else {
                return Ok(Some(Frame::Close(NO_STATUS_CODE, data)));
            }
        }
        let (op, mut bytes) = match self.current_message.take() {
            Some((op, b)) => (op, b),
            None => (h.op, Vec::new()),
        };
        let ghost before = bytes@;
        assert(before == buffered(old(self)@));
        append_bytes(&mut bytes, data.as_slice());
        if h.fin {
            self.expect_continuation = false;
            if op == Op::Text {
                match utf8_string(bytes) {
                    Some(t) => Ok(Some(Frame::Text(t))),
                    None => Err(WebSocketError::InvalidUtf8),
                }
            } else {
                Ok(Some(Frame::Binary(bytes)))
            }
        } else {
            self.expect_continuation = true;
            self.current_message = Some((op, bytes));
            Ok(None)
        }
    }
}

/// Whether `op` may be handed to `send_frame`: a data or control opcode.
pub open spec fn sendable(op: Op) -> bool {
    op == Op::Text || op == Op::Binary || op.spec_is_control()
}

/// The payload that a frame to send carries on the wire: a Close frame
/// carries its close code, big-endian, before the reason.
pub open spec fn send_body(op: Op, code: u16, payload: Seq<u8>) -> Seq<u8> {
    if op == Op::Close {
        be16(code) + payload
    } else {
        payload
    }
}

/// The session and the outcome (the frame's wire bytes, or an error) after
/// sending a frame of opcode `op`, close code `code`, payload `payload` and
/// final flag `fin` in state `s`; a client masks it with `key`. Only data
/// and control opcodes can be sent.
pub open spec fn send(s: SessionView, op: Op, code: u16, payload: Seq<u8>, fin: bool, key: u32) -> (
    SessionView,
    Result<Seq<u8>, WebSocketError>,
) {
    let mask = if s.is_client {
        Some(key)
    } else {
        None
    };
    if !spec_can_write(s.close_state) {
        (s, Err(WebSocketError::Shutdown))
    } else if op.spec_is_control() {
        let body = send_body(op, code, payload);
        if body.len() > MAX_CONTROL_PAYLOAD {
            (s, Err(WebSocketError::UserInvalidControlFrame))
        } else {
            let h = FrameHeader { fin: true, op, mask, len: body.len() as u64 };
            (
                if op == Op::Close {
                    SessionView { close_state: shutdown_state(s.close_state, Direction::Write), ..s }
                } else {
                    s
                },
                Ok(frame_bytes(h, body)),
            )
        }
    } else if !sendable(op) {
        (s, Err(WebSocketError::InvalidOpcode))
    } else if s.last_sent_message_op matches Some(o) && o != op {
        (s, Err(WebSocketError::DataTypeMismatch))
    } else {
        let wire_op = if s.last_sent_message_op is Some {
            Op::Continuation
        } else {
            op
        };
        let h = FrameHeader { fin, op: wire_op, mask, len: payload.len() as u64 };
        (
            SessionView {
                last_sent_message_op: if fin {
                    None
                } else {
                    Some(op)
                },
                ..s
            },
            Ok(frame_bytes(h, payload)),
        )
    }
}

impl WebSocket {
    /// Builds the wire bytes of `frame` and records that it was sent: a data
    /// frame after the first of its message goes out as a continuation, a
    /// Close frame closes the writing direction. A client masks the payload
    /// with `key`; a server sends it unmasked.
    pub fn send_frame(&mut self, frame: &BorrowedFrame, key: u32) -> (r: Result<Vec<u8>, WebSocketError>)
        requires
            old(self)@.wf(),
        ensures
            final(self)@.wf(),
            final(self)@ == send(old(self)@, frame.op, frame.close_code, frame.payload@, frame.fin, key).0,
            r matches Ok(b) ==> send(old(self)@, frame.op, frame.close_code, frame.payload@, frame.fin, key).1 == Ok::<Seq<u8>, WebSocketError>(b@),
            r matches Err(e) ==> send(old(self)@, frame.op, frame.close_code, frame.payload@, frame.fin, key).1 == Err::<Seq<u8>, WebSocketError>(e),
    {
        if !self.can_write() {
            return Err(WebSocketError::Shutdown);
        }
        let mask = if self.is_client {
            Some(key)
        } else {
            None
        };
        if frame.op.is_control() {
            let extra: usize = if frame.op == Op::Close {
                2
            } else {
                0
            };
            if frame.payload.len() > 125 - extra {
                return Err(WebSocketError::UserInvalidControlFrame);
            }
            let mut body: Vec<u8> = Vec::new();
            if frame.op == Op::Close {
                body.push((frame.close_code >> 8u16) as u8);
                body.push(frame.close_code as u8);
            }
            append_bytes(&mut body, frame.payload);
            assert(body@ =~= send_body(frame.op, frame.close_code, frame.payload@));
            let h = FrameHeader { fin: true, op: frame.op, mask, len: body.len() as u64 };
            let bytes = encode_frame(&h, body.as_slice());
            if frame.op == Op::Close {
                self.close_state = self.close_state.shutdown(Direction::Write);
            }
            return Ok(bytes);
        }
        if frame.op != Op::Text && frame.op != Op::Binary {
            return Err(WebSocketError::InvalidOpcode);
        }
        let wire_op = match self.last_sent_message_op {
            Some(o) => {
                if o != frame.op {
                    return Err(WebSocketError::DataTypeMismatch);
                }
                Op::Continuation
            },
            None => frame.op,
        };
        let h = FrameHeader { fin: frame.fin, op: wire_op, mask, len: frame.payload.len() as u64 };
        let bytes = encode_frame(&h, frame.payload);
        self.last_sent_message_op = if frame.fin {
            None
        } else {
            Some(frame.op)
        };
        Ok(bytes)
    }

    /// The stream ended: the reading direction closes and the reader is
    /// handed a Close frame with code `NO_CLOSE`.
    pub fn receive_eof(&mut self) -> (r: Frame)
        requires
            old(self)@.wf(),
        ensures
            final(self)@.wf(),
            final(self)@ == (SessionView {
                close_state: shutdown_state(old(self).close_state, Direction::Read),
                ..old(self)@
            }),
            r@ == FrameView::Close(NO_CLOSE, seq![]),
    {
        self.close_state = self.close_state.shutdown(Direction::Read);
        Frame::Close(NO_CLOSE, Vec::new())
    }
}

/// Receiving or sending a frame never moves the close state down the order
/// `Open ≺ {Read, Write} ≺ Both`, whatever the frame and the outcome.
pub proof fn lemma_session_close_monotonic(
    s: SessionView,
    h: FrameHeader,
    data: Seq<u8>,
    op: Op,
    code: u16,
    payload: Seq<u8>,
    fin: bool,
    key: u32,
)
    ensures
        close_le(s.close_state, receive(s, h, data).0.close_state),
        close_le(s.close_state, send(s, op, code, payload, fin, key).0.close_state),
{
    lemma_close_monotonic(s.close_state, Direction::Read);
    lemma_close_monotonic(s.close_state, Direction::Write);
}

} // verus!
