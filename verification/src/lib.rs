//! Polling of game servers over the Source engine query protocol: decoding of
//! query responses, parsing of latency probe reports, ranking of the servers
//! that answered, and the decision when to join one of them.
//!
//! The crate holds the logic only. Sockets, child processes and the clock stay
//! with the caller, which hands in the bytes and texts it received and acts on
//! what the functions here decide.

pub mod decimal;
pub mod error;
pub mod poll;
pub mod probe;
pub mod rank;
pub mod server;
pub mod wire;
pub mod wire_laws;
