//! The chat relay: display names, the shared user directory, and the
//! per-connection handshake, relay and departure logic.

pub mod connection;
pub mod db;
pub mod laws;
pub mod users;
