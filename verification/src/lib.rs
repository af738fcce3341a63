//! Core of a single-threaded, readiness-driven TCP echo server.
//!
//! One thread multiplexes many client sockets through one OS readiness
//! poller. This crate holds the verified state of that design: the token
//! space, the per-connection read/write state machine, and the bounded
//! connection registry with its dispatch decisions. The caller owns the
//! poller and the sockets and performs the actual I/O; it feeds the bytes
//! it read, the byte counts it wrote, and the hangups it observed into the
//! registry, and applies the interest changes the registry hands back.

use vstd::prelude::*;

pub mod connection;
pub mod registry;

verus! {

/// Size of the token space. Tokens issued to client connections lie in
/// `[1, MAX_CONN)`; at most `MAX_CONN - 1` connections are live at once.
pub const MAX_CONN: usize = 1024;

/// Upper bound on the number of bytes the caller should take from a socket
/// in one read call (the read chunk size).
pub const MAX_READ: usize = 1024;

/// The token reserved for the listening socket. It is never issued to a
/// connection.
pub const LISTENER_TOKEN: usize = 0;

/// Identifier correlating a readiness event back to its owning connection.
#[derive(Clone, Copy, PartialEq, Eq, Structural, Debug)]
pub struct Token(pub usize);

/// The readiness direction a connection should be watched for next.
#[derive(Clone, Copy, PartialEq, Eq, Structural, Debug)]
pub enum Interest {
    Readable,
    Writable,
}

} // verus!
