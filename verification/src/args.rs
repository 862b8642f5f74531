//! Command-line level configuration carried into the library: the wire
//! format selector and the plain values describing a chat or admin session.
//! Argument parsing and interactive prompting live outside the library;
//! they hand over a fully populated `Args`.

use vstd::prelude::*;

verus! {

/// The wire format used for every payload of a session.
#[derive(Clone, Copy, Debug, PartialEq, Eq, Structural)]
pub enum DataFormat {
    /// `"{username}: {text}"` as UTF-8 bytes; no mutation metadata.
    Text,
    /// A fixed-shape JSON object with nullable mutation offsets.
    Json,
    /// A fixed binary schema with zero-as-unset mutation offsets.
    Protobuf,
}

/// Configuration for one invocation: broker address, topic, identity,
/// format, and which of the four modes (chat, list, update, delete) runs.
pub struct Args {
    /// Bootstrap servers of the external log, e.g. `localhost:9092`.
    pub bootstrap_servers: String,
    /// Topic name of the chat room.
    pub topic: String,
    /// Username for chat and update modes; `None` until provided.
    pub username: Option<String>,
    /// Wire format for every message of this session.
    pub format: DataFormat,
    /// List all messages within a bounded scan instead of chatting.
    pub list: bool,
    /// Overall scan budget in seconds for list mode.
    pub timeout: u64,
    /// Publish a replacement for the record at this offset.
    pub update: Option<i64>,
    /// Publish a deletion marker for the record at this offset.
    pub delete: Option<i64>,
    /// Replacement text for update mode.
    pub content: Option<String>,
}

} // verus!
