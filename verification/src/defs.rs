//! Timing parameters shared by the server and its connections.
use vstd::prelude::*;

verus! {

/// Server update period in milliseconds: how often the quotes are updated
/// and the clients notified.
pub const SERVER_TICK_PERIOD_MSEC: u64 = 200;

/// Retry interval in milliseconds when the quotes are busy during an update.
pub const QUOTE_UPDATE_RETRY_PERIOD_MSEC: u64 = 10;

/// How long, in milliseconds, an update may wait for the quotes before it
/// gives up.
pub const WRITE_TIMEOUT_MS: u64 = 1000;

/// Maximum allowed time, in seconds, between two lines from a client: a
/// client silent for longer is dropped.
pub const CLIENT_KEEP_ALIVE_SEC: u64 = 5;

/// Polling interval, in milliseconds, of a TCP connection handler.
pub const TCP_CONNECTION_TICK_PERIOD_MSEC: u64 = 200;

} // verus!
