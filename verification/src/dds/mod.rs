//! The data distribution service: participants, publishers, writers.

pub mod ddsdata;
pub mod participant;
pub mod pubsub;
pub mod qos;
pub mod result;
pub mod topic;
pub mod with_key;
