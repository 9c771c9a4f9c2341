//! Verified core of a terminal monitor for the icecc distributed compiler.
//!
//! The crate holds the wire codec of the icecc monitor protocol, the
//! scheduler-side handshake and framing decisions, scheduler discovery reply
//! parsing, the monitor's scheduler model and the key handling of the
//! terminal interface. Sockets, terminals and timers live outside it.
use vstd::prelude::*;

pub mod codec;
pub mod connection;
pub mod discovery;
pub mod messages;
pub mod model;
pub mod monitor;
pub mod text;
pub mod ui;

verus! {

/// icecc protocol version we support.
pub const PROTOCOL_VERSION: u32 = 44;

/// Minimum protocol version we accept.
pub const MIN_PROTOCOL_VERSION: u32 = 21;

/// Default scheduler port (UDP discovery and TCP).
pub const DEFAULT_PORT: u16 = 8765;

/// Default network name.
pub const DEFAULT_NETNAME: &'static str = "ICECREAM";

/// UDP broadcast buffer length.
pub const BROAD_BUFLEN: usize = 268;

/// Maximum message size (1 MiB).
pub const MAX_MSG_SIZE: u32 = 1048576;

} // verus!
