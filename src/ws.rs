//! WebSocket (RFC 6455) framing, masking and session rules.

pub mod errors;
pub mod handshake;
pub mod mask;
pub mod session;
pub mod wire;
