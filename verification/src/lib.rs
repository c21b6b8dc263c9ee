//! Core of a rendezvous-assisted relay server.
//!
//! Two endpoints that cannot reach each other directly each connect to the
//! server and present a shared token. The server pairs the two connections
//! that present the same token and then forwards bytes between them verbatim
//! until either side disconnects.
//!
//! This crate holds the verified decision core: semantic validation of the
//! handshake message, the pairing table with its atomic claim-or-insert
//! discipline, the per-connection session state machine, and the relay pump's
//! forwarding rules. The transport itself (accepting connections, framing,
//! reading and writing sockets) is an external collaborator that drives these
//! functions.

use vstd::prelude::*;

pub mod pump;
pub mod request;
pub mod session;
pub mod table;

verus! {

/// How long a fresh connection may take to deliver its one framed control
/// message before it is rejected, in milliseconds.
pub const HANDSHAKE_TIMEOUT_MS: u64 = 30_000;

/// How long a registered connection waits to be claimed by a partner before
/// its entry is purged and the connection closed, in milliseconds.
pub const PAIRING_WAIT_MS: u64 = 30_000;

/// How often the accept loop polls the stop signal, in milliseconds.
pub const SHUTDOWN_POLL_MS: u64 = 100;

/// Conventional listening port when none is configured.
pub const DEFAULT_PORT: &'static str = "21117";

} // verus!
