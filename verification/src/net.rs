//! Networking: the frame wire format and the relay text protocol.
pub mod protocol;
pub mod relay;
pub mod presence;
pub mod server;
pub mod accounts;
pub mod rooms;
pub mod stream;
