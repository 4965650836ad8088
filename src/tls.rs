//! The decisions of the TLS adapter that drives a synchronous TLS state
//! machine from an asynchronous socket; the I/O itself is done by the
//! caller.

use vstd::prelude::*;

verus! {

/// The socket events to wait for.
#[derive(Debug, Clone, Copy, PartialEq, Eq, Structural)]
pub struct Interest {
    pub readable: bool,
    pub writable: bool,
}

/// What the handshake loop does next.
#[derive(Debug, Clone, Copy, PartialEq, Eq, Structural)]
pub enum HandshakeStep {
    /// Poll and exchange records again.
    Continue,
    /// The handshake is over.
    Done,
    /// The peer closed the connection while the handshake was running.
    UnexpectedEof,
    /// The TLS machine refused the records read: make one write that does
    /// not wait, to flush the alert it queued, then fail with its error.
    FlushAlertThenFail,
}

/// Wait for writability when the TLS machine has records to send, and for
/// readability when it wants records.
pub fn poll_interest(wants_read: bool, wants_write: bool) -> (r: Interest)
    ensures
        r.readable == wants_read,
        r.writable == wants_write,
{
    Interest { readable: wants_read, writable: wants_write }
}

/// After the write pass of a round: a round that began with the handshake
/// already over ends the loop, unless the peer has closed.
pub fn after_write(was_handshaking: bool, eof: bool) -> (r: bool)
    ensures
        r == (!was_handshaking && !eof),
{
    !was_handshaking && !eof
}

/// After the read pass of a round. If processing the records read failed,
/// the alert is flushed with one write that does not wait and the handshake
/// fails. Else, if the round finished the handshake and records are still
/// to be sent, one more round sends them; otherwise the loop ends once the
/// handshake is over, end of stream while it runs is an error, and else it
/// goes on.
pub fn after_read(
    was_handshaking: bool,
    process_failed: bool,
    is_handshaking: bool,
    wants_write: bool,
    eof: bool,
) -> (r: HandshakeStep)
    ensures
        process_failed ==> r == HandshakeStep::FlushAlertThenFail,
        !process_failed && was_handshaking && !is_handshaking && wants_write ==> r
            == HandshakeStep::Continue,
        !process_failed && !(was_handshaking && !is_handshaking && wants_write) ==> r == (if !was_handshaking
            || !is_handshaking {
            HandshakeStep::Done
        } else if eof {
            HandshakeStep::UnexpectedEof
        } else {
            HandshakeStep::Continue
        }),
{
    if process_failed {
        return HandshakeStep::FlushAlertThenFail;
    }
    if was_handshaking && !is_handshaking && wants_write {
        return HandshakeStep::Continue;
    }
    if !was_handshaking || !is_handshaking {
        HandshakeStep::Done
    } else if eof {
        HandshakeStep::UnexpectedEof
    } else {
        HandshakeStep::Continue
    }
}

/// The outcome of an application write interrupted by cancellation: the
/// bytes already taken into the TLS session are reported, and the
/// cancellation is honoured only when there are none.
pub fn interrupted_write(wrote: usize) -> (r: Option<usize>)
    ensures
        wrote == 0 ==> r is None,
        wrote > 0 ==> r == Some(wrote),
{
    if wrote == 0 {
        None
    } else {
        Some(wrote)
    }
}

} // verus!
