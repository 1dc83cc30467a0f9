//! The settings of the server's QUIC connections.

use vstd::prelude::*;

verus! {

/// How long a connection may be idle, in milliseconds.
pub const MAX_IDLE_TIMEOUT: u64 = 600_000;

/// How much data may be in flight on a connection.
pub const INITIAL_MAX_DATA: u64 = 10_000_000;

/// How much data may be in flight on a stream.
pub const INITIAL_MAX_STREAM_DATA: u64 = 1_000_000;

/// How many streams of each direction a client may open.
pub const INITIAL_MAX_STREAMS: u64 = 100;

/// How many datagrams wait to be received or sent.
pub const DATAGRAM_QUEUE_LEN: usize = 30000;

} // verus!
