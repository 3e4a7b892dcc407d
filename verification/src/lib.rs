//! Verified cores of a family of small line- and datagram-oriented servers.
//!
//! The centrepiece is a chat relay: a directory of named clients in which
//! each connection registers a display name and then has its lines broadcast
//! to every other member of the room.  Beside it stand the pure cores of the
//! companion servers: an asset-price session store queried for time-window
//! means, a key-value datagram protocol, and a primality-query service.
//!
//! All I/O (sockets, tasks, logging) lives outside this crate; the functions
//! here compute, from plain values, exactly what must be sent and how the
//! shared state changes, and their contracts say so.

pub mod chat;
pub mod kv;
pub mod prices;
pub mod primes;
