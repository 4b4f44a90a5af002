//! uTURN: the core of a single-port TURN relay for WebRTC.
//!
//! Every client shares one relay address, so traffic is told apart packet by
//! packet: by its first byte, by its source address and, between clients, by
//! the ICE ufrag that STUN checks carry. This crate holds that logic without
//! any I/O. It takes a datagram and its source, and answers with the list of
//! effects (sends and activity timers) that the caller is to carry out in order.

pub mod accounting;
pub mod buffer_pool;
pub mod bytes;
pub mod coarse_time;
pub mod config;
pub mod demux;
pub mod laws;
pub mod lookup;
pub mod net;
mod random;
pub mod relay;
pub mod server;
pub mod text;
pub mod turn;

pub use config::Config;
pub use server::Server;
