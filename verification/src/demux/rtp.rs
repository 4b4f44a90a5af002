//! The fixed RTP header, as far as demultiplexing needs it.

use vstd::prelude::*;

use crate::bytes::{read_u16, read_u32, u16_at, u32_at};

verus! {

/// The fixed part of an RTP header.
#[derive(Debug, Clone, Copy, PartialEq, Eq, Structural)]
pub struct RtpHeader {
    /// RTP version (always 2)
    pub version: u8,
    /// Padding flag
    pub padding: bool,
    /// Extension flag
    pub extension: bool,
    /// CSRC count
    pub csrc_count: u8,
    /// Marker bit
    pub marker: bool,
    /// Payload type
    pub payload_type: u8,
    /// Sequence number
    pub sequence_number: u16,
    /// Timestamp
    pub timestamp: u32,
    /// Synchronization source identifier
    pub ssrc: u32,
}

/// The RTP header that `data` starts with: version 2 in the upper two bits, and
/// room for the fixed header and all the contributing sources it counts.
pub open spec fn rtp_of(data: Seq<u8>) -> Option<RtpHeader> {
    if data.len() >= 12 && data[0] / 64 == 2 && data.len() >= 12 + data[0] % 16 * 4 {
        Some(
            RtpHeader {
                version: 2,
                padding: data[0] / 32 % 2 == 1,
                extension: data[0] / 16 % 2 == 1,
                csrc_count: data[0] % 16,
                marker: data[1] / 128 == 1,
                payload_type: data[1] % 128,
                sequence_number: u16_at(data, 2),
                timestamp: u32_at(data, 4),
                ssrc: u32_at(data, 8),
            },
        )
    } else {
        None
    }
}

impl RtpHeader {
    /// Parses an RTP header; `None` if the packet is too small or not RTP.
    pub fn parse(data: &[u8]) -> (r: Option<Self>)
        ensures
            r == rtp_of(data@),
    {
        let n: usize = data.len();
        if n < 12 {
            return None;
        }
        let first_byte: u8 = data[0];
        let second_byte: u8 = data[1];
        let version: u8 = first_byte / 64;
        if version != 2 {
            return None;
        }
        let csrc_count: u8 = first_byte % 16;
        let min_size: usize = 12 + csrc_count as usize * 4;
        if n < min_size {
            return None;
        }
        Some(
            Self {
                version,
                padding: first_byte / 32 % 2 == 1,
                extension: first_byte / 16 % 2 == 1,
                csrc_count,
                marker: second_byte / 128 == 1,
                payload_type: second_byte % 128,
                sequence_number: read_u16(data, 2),
                timestamp: read_u32(data, 4),
                ssrc: read_u32(data, 8),
            },
        )
    }

    /// The header size in bytes, including the list of contributing sources.
    pub fn header_size(&self) -> (r: usize)
        ensures
            r == 12 + self.csrc_count * 4,
    {
        12 + self.csrc_count as usize * 4
    }
}

/// A header that was parsed fits in the packet it was parsed from.
pub proof fn rtp_header_fits(data: Seq<u8>)
    ensures
        rtp_of(data) matches Some(h) ==> h.version == 2 && 12 + h.csrc_count * 4 <= data.len(),
{
}

} // verus!
