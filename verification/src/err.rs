//! The failure kinds a request can end in.
//!
//! Every failure is terminal for the request it came from: the client never
//! retries and never recovers partially.

use vstd::prelude::*;

verus! {

/// What went wrong with a request. Each variant is terminal: the caller is
/// handed the first failure and the request is abandoned.
#[derive(Clone, Copy, Debug, PartialEq, Eq, Structural)]
pub enum ClientError {
    /// The transport to the daemon could not be established.
    Connection,
    /// The response framing is malformed: a bad status line, a chunk-size
    /// line that is not hexadecimal, or a corrupt chunk terminator.
    Protocol,
    /// The stream ended in the middle of a chunk.
    Truncated,
    /// The daemon answered with a status other than 200 where success was
    /// required; carries the observed code.
    HttpStatus(i32),
    /// Payload bytes are not valid text or JSON where that was required.
    Decode,
}

} // verus!
