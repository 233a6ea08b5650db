//! Verified core of an RTPS / DDS implementation.

pub mod dds;
pub mod network;
pub mod rtps;
pub mod structure;
