//! HTTP/1.x response decoding: status and header lines, and the body in its
//! three transfer modes.

pub mod digits;
pub mod error;
pub mod head;
pub mod headers;
pub mod text;
pub mod transfer;
pub mod body;
