//! Verified core of TailChatter, a small chat server and client for private networks.

pub mod assoc;
pub mod client;
pub mod clock;
pub mod lobby;
pub mod protocol;
pub mod server;
pub mod text;
