//! Leader selection and transaction fan-out for a Solana TPU client.
//!
//! The library decides: which validators lead the coming slots, which of their
//! TPU sockets a transaction goes to, what a send amounts to once the sockets
//! and queues have answered, and how a run of sends is tallied. It holds what
//! it needs to decide as plain values; the program around it performs the I/O.
pub mod args;
pub mod blocklist;
pub mod channel;
pub mod config;
pub mod direct;
pub mod each_slot;
pub mod error;
pub mod fanout;
pub mod laws;
pub mod many_dest;
pub mod overseer;
pub mod schedule;
pub mod sender;
pub mod slot;
pub mod stats;
pub mod status;
pub mod text;
pub mod tpu_info;
pub mod transfer;
pub mod types;
pub mod wire;
