//! A chat-message wire codec and log-mutation layer for an append-only,
//! offset-addressed log.
//!
//! Messages are encoded in one of three interchangeable wire formats
//! (plain text, JSON, a fixed binary schema).  Logical replacement and
//! deletion of already-published records is expressed by publishing new
//! records that reference the target offset; a bounded admin scan replays
//! a window of records and applies those overlays to reconstruct the
//! effective log state.

use vstd::prelude::*;

pub mod args;
pub mod json_format;
pub mod message;
pub mod numfmt;
pub mod proto_format;
pub mod publisher;
pub mod scan;
pub mod strbytes;
pub mod text_format;
pub mod varint;

verus! {

/// Errors surfaced by the codec, the publisher and the admin scan.
#[derive(Clone, Copy, Debug, PartialEq, Eq, Structural)]
pub enum ChatError {
    /// The payload is malformed or does not conform to the selected format.
    FormatError,
    /// A mutation was requested on a format that cannot represent it.
    UnsupportedOperation,
    /// The external log client failed to publish, subscribe or poll.
    TransportError,
    /// The scan exceeded its time budget; a normal terminal state.
    Timeout,
}

} // verus!
