//! The reliable real-time publish-subscribe protocol.

pub mod constant;
pub mod discovered;
pub mod dp_event_loop;
pub mod endpoint_matching;
pub mod event_token;
pub mod fragment_assembler;
pub mod fragmentation;
pub mod message;
pub mod message_walk;
pub mod outbound;
pub mod rtps_reader_proxy;
pub mod rtps_writer_proxy;
pub mod secure_message;
pub mod send_plan;
pub mod transmit;
pub mod writer;
pub mod writer_match;
pub mod writer_pending;
pub mod writer_repair;
pub mod writer_send_buffer;
