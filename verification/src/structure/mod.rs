//! Basic values and containers that the protocol logic is built from.

pub mod bits;
pub mod cache_change;
pub mod guid;
pub mod lists;
pub mod locator;
pub mod octets;
pub mod rpc;
pub mod sequence_number;
pub mod sorted_map;
pub mod time;
