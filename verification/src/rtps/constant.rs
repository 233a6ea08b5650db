//! Protocol and tuning constants.

use vstd::prelude::*;

verus! {

/// Sequence numbers that a reader keeps per remote writer above its acknowledgement
/// base, at most.
pub const MAX_TRACKED_CHANGES_PER_WRITER: usize = 4096;

/// Sequence numbers that a writer keeps as not yet sent per remote reader, at most.
pub const MAX_UNSENT_CHANGES_PER_READER: usize = 4096;

/// Bytes of a datagram that go to the headers of IPv4, UDP and RTPS.
pub const DATAGRAM_HEADER_OVERHEAD: usize = 48;

/// Bytes for submessages in a datagram where nothing is known about the path: an
/// Ethernet frame of 1500 bytes without the headers.
pub const FALLBACK_MAX_AGGREGATED_DATAGRAM_SIZE: usize = 1452;

/// Bytes for submessages in a datagram over a link with the given MTU.
pub open spec fn spec_payload_budget_for_mtu(mtu: int) -> int {
    if mtu >= DATAGRAM_HEADER_OVERHEAD {
        mtu - DATAGRAM_HEADER_OVERHEAD
    } else {
        0
    }
}

pub fn payload_budget_for_mtu(mtu: u32) -> (n: usize)
    ensures
        n == spec_payload_budget_for_mtu(mtu as int),
{
    let mtu: usize = mtu as usize;
    if mtu >= DATAGRAM_HEADER_OVERHEAD {
        mtu - DATAGRAM_HEADER_OVERHEAD
    } else {
        0
    }
}

/// Event token of the channel of commands to the event loop.
pub const STOP_POLL_TOKEN: usize = 0;

/// Event token of the unicast listener of discovery.
pub const DISCOVERY_LISTENER_TOKEN: usize = 3;

/// Event token of the multicast listener of discovery.
pub const DISCOVERY_MUL_LISTENER_TOKEN: usize = 4;

/// Event token of the unicast listener of user data.
pub const USER_TRAFFIC_LISTENER_TOKEN: usize = 5;

/// Event token of the multicast listener of user data.
pub const USER_TRAFFIC_MUL_LISTENER_TOKEN: usize = 6;

/// Event token of the channel of readers to add.
pub const ADD_READER_TOKEN: usize = 10;

/// Event token of the channel of readers to remove.
pub const REMOVE_READER_TOKEN: usize = 11;

/// Event token of the channel of writers to add.
pub const ADD_WRITER_TOKEN: usize = 12;

/// Event token of the channel of writers to remove.
pub const REMOVE_WRITER_TOKEN: usize = 13;

/// Event token of the channel of acknowledgements for local writers.
pub const ACKNACK_MESSAGE_TO_LOCAL_WRITER_TOKEN: usize = 14;

/// Event token of the channel of what discovery has found.
pub const DISCOVERY_UPDATE_NOTIFICATION_TOKEN: usize = 15;

/// Event token of the timer.
pub const DPEV_TIMER_TOKEN: usize = 16;

/// Event token of the first socket that messages are sent from.
pub const SENDER_WRITABLE_TOKEN_BASE: usize = 0x1000;

/// How many sockets have an event token.
pub const SENDER_WRITABLE_TOKEN_COUNT: usize = 0x1000;

/// How many datagrams of one listener are handled before the other events get a turn.
pub const MAX_LISTENER_MESSAGES_PER_POLL: usize = 16;

/// How long the event loop sleeps at most while nothing is to be done, in milliseconds.
pub const POLL_TIMEOUT_IDLE_MILLIS: u64 = 2000;

/// How long it sleeps at most while messages wait for sockets of which the system does
/// not tell when they can take more, in milliseconds.
pub const POLL_TIMEOUT_PENDING_MILLIS: u64 = 2;

/// Period of acknowledgements that are sent before anything was received, in seconds.
pub const PREEMPTIVE_ACKNACK_PERIOD_SECONDS: i32 = 5;

/// Period of the collection of samples that no reader needs, in seconds.
pub const CACHE_CLEAN_PERIOD_SECONDS: i32 = 4;

/// Bytes per fragment of a large sample.
pub const FRAGMENT_SIZE: u16 = 1024;

/// How many samples a writer retains where its policies set no limit.
pub const DEFAULT_WRITER_MAX_SAMPLES: usize = 1024;

/// Period of heartbeats while every reader has everything, in milliseconds.
pub const HEARTBEAT_PERIOD_SLOW_MILLIS: u32 = 100;

/// Period of heartbeats while some reader is behind, in milliseconds.
pub const HEARTBEAT_PERIOD_FAST_MILLIS: u32 = 20;

/// Period of the eviction of samples that are no longer needed, in seconds.
pub const CACHE_CLEANING_PERIOD_SECONDS: i32 = 6;

/// How long a writer waits before it answers a request to send again, in milliseconds.
pub const NACK_RESPONSE_DELAY_MILLIS: u32 = 200;

/// For how long after sending a sample requests for it are ignored, in milliseconds.
pub const NACK_SUPPRESSION_DURATION_MILLIS: u32 = 0;

/// How long a writer waits between two bursts of fragments, in milliseconds.
pub const REPAIRFRAGS_CONTINUE_DELAY_MILLIS: u32 = 1;

} // verus!
