//! A client-side networking core: WebSocket framing and session rules,
//! HTTP/1.x response and body decoding, stub DNS resolution, the connect
//! path and the TLS adapter's decisions, written as plain state machines
//! over bytes with verified contracts.

pub mod dns;
pub mod env;
pub mod error;
pub mod http;
pub mod net;
pub mod request;
pub mod tls;
pub mod ws;
