//! Packet demultiplexing: what kind of packet a datagram holds, and the
//! routing information in it.

pub mod protocol;
pub mod rtp;
pub mod stun;

pub use protocol::{Demuxer, PacketType};
pub use rtp::RtpHeader;
pub use stun::{StunClass, StunInfo, StunMethod};
