use vstd::prelude::*;

verus! {

/// Why a received control frame was refused.
#[derive(Debug, Clone, Copy, PartialEq, Eq, Structural)]
pub enum ControlFrameFault {
    /// The final flag was not set.
    FinNotSet,
    /// The payload was over 125 bytes.
    TooLong,
}

/// The ways a WebSocket handshake or session can fail.
#[derive(Debug, Clone, Copy, PartialEq, Eq, Structural)]
pub enum WebSocketError {
    ServerRejected,
    InvalidClientRequest,
    HandshakeTimeout,
    InvalidKey,
    InvalidOpcode,
    InvalidControlFrame(ControlFrameFault),
    ExpectedContinuation,
    UnexpectedContinuation,
    ServerMasked,
    MessageTooLong,
    UserInvalidControlFrame,
    DataTypeMismatch,
    /// The direction was already shut down by a Close frame.
    Shutdown,
    /// A text message did not hold UTF-8.
    InvalidUtf8,
}

impl WebSocketError {
    /// A short human-readable description.
    pub fn message(&self) -> &'static str {
        match self {
            WebSocketError::ServerRejected => "WebSocket server rejected connection",
            WebSocketError::InvalidClientRequest => "Invalid headers set on incoming client",
            WebSocketError::HandshakeTimeout => "Handshake timed out",
            WebSocketError::InvalidKey => "Invalid WebSocket key",
            WebSocketError::InvalidOpcode => "Received an invalid opcode",
            WebSocketError::InvalidControlFrame(ControlFrameFault::FinNotSet) =>
                "Fin not set on control frame",
            WebSocketError::InvalidControlFrame(ControlFrameFault::TooLong) =>
                "Control frame too long",
            WebSocketError::ExpectedContinuation => "Expected a continuation frame",
            WebSocketError::UnexpectedContinuation => "Unexpected continuation frame",
            WebSocketError::ServerMasked => "Received masked frame from server",
            WebSocketError::MessageTooLong => "Maximum message length exceeded",
            WebSocketError::UserInvalidControlFrame => "Control frame too large",
            WebSocketError::DataTypeMismatch => "Cannot send mismatching data types in chunks",
            WebSocketError::Shutdown => "Connection shut down",
            WebSocketError::InvalidUtf8 => "Invalid UTF-8 in text message",
        }
    }
}

} // verus!
