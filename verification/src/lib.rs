//! Buffers for a network stack: a ring buffer, the receiving end of a socket that reads from one,
//! and packet buffers of fixed size that travel through a channel.

pub mod bundled_counters;
pub mod channel_buffer;
pub mod error;
pub mod fixed_buffer;
pub mod formatting;
pub mod managed_storage;
pub mod operation_laws;
pub mod ring_buffer_sync;
pub mod ring_laws;
pub mod ring_state;
pub mod socket_buffer_receiver;
