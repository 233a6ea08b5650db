//! Addresses, sockets and interfaces.

pub mod constant;
pub mod udp_listener;
pub mod udp_sender;
pub mod util;
