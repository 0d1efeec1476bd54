//! The wire vocabulary: the envelope every frame carries, and its parts.
//!
//! The relay never looks inside an envelope; the client builds envelopes for
//! what it sends and reads envelopes out of what it receives.

use vstd::prelude::*;

verus! {

/// The three envelope kinds carried on the wire: a chat message, an identity
/// announcement, and a system notice.
#[derive(Debug, Clone, PartialEq, Eq)]
pub enum MessageType {
    Message,
    Auth,
    System,
}

/// Sender metadata attached to every envelope. The identity is self-declared
/// and the timestamp is the sender's clock, in seconds since the epoch.
#[derive(Debug, Clone, PartialEq, Eq)]
pub struct MessageMeta {
    pub sender: String,
    pub timestamp: i64,
}

/// One envelope as exchanged over the transport, JSON-encoded as
/// `{"type": ..., "payload": ..., "channel": ..., "meta": {...}}`.
#[derive(Debug, Clone, PartialEq, Eq)]
pub struct WireMessage {
    pub msg_type: MessageType,
    pub payload: String,
    /// Channel id: the global channel, `dm:user1:user2`, or `group:name`.
    pub channel: String,
    pub meta: MessageMeta,
}

/// The channel an envelope belongs to when it names none: older senders did
/// not carry the field at all.
pub fn default_channel() -> (r: String)
    ensures
        r@ == "global"@,
{
    String::from_str("global")
}

} // verus!
