//! A small real-time chat system: a relay that fans text frames out to every
//! connected client but the sender, and a client that keeps channels, a user
//! roster and telemetry in sync with what arrives over the wire.

pub mod bridge;
mod clock;
pub mod codec;
pub mod protocol;
pub mod relay;
pub mod state;
pub mod text;

pub use protocol::default_channel;
