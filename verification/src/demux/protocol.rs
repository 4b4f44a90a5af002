//! Protocol detection by the first byte of a packet.

use vstd::prelude::*;
use vstd::slice::*;

use super::rtp::{rtp_of, RtpHeader};
use super::stun::{stun_of, StunInfo, StunModel};
use crate::bytes::{read_u16, u16_at};

verus! {

/// A packet, told apart and with its routing information extracted.
#[derive(Debug)]
pub enum PacketType {
    /// STUN message (binding or TURN)
    Stun(StunInfo),
    /// DTLS record
    Dtls(Vec<u8>),
    /// TURN ChannelData
    TurnChannelData { channel: u16, data: Vec<u8> },
    /// RTP packet
    Rtp { ssrc: u32, data: Vec<u8> },
    /// RTCP packet
    Rtcp(Vec<u8>),
    /// Anything else
    Unknown,
}

/// What a [`PacketType`] says, as mathematical values.
#[verifier::ext_equal]
pub enum PacketModel {
    Stun(StunModel),
    Dtls(Seq<u8>),
    TurnChannelData { channel: u16, data: Seq<u8> },
    Rtp { ssrc: u32, data: Seq<u8> },
    Rtcp(Seq<u8>),
    Unknown,
}

impl View for PacketType {
    type V = PacketModel;

    open spec fn view(&self) -> PacketModel {
        match *self {
            PacketType::Stun(m) => PacketModel::Stun(m@),
            PacketType::Dtls(d) => PacketModel::Dtls(d@),
            PacketType::TurnChannelData { channel, data } => PacketModel::TurnChannelData {
                channel,
                data: data@,
            },
            PacketType::Rtp { ssrc, data } => PacketModel::Rtp { ssrc, data: data@ },
            PacketType::Rtcp(d) => PacketModel::Rtcp(d@),
            PacketType::Unknown => PacketModel::Unknown,
        }
    }
}

/// A ChannelData message: channel number, length, and that many bytes.
pub open spec fn channel_data_of(data: Seq<u8>) -> Option<(u16, Seq<u8>)> {
    if data.len() >= 4 && data.len() >= 4 + u16_at(data, 2) {
        Some((u16_at(data, 0), data.subrange(4, 4 + u16_at(data, 2))))
    } else {
        None
    }
}

/// How many 32-bit words an RTCP packet of type `pt` with `count` report
/// blocks has at least.
pub open spec fn rtcp_min_words(pt: u8, count: int) -> int {
    if pt == 200 {
        7 + count * 6
    } else if pt == 201 {
        2 + count * 6
    } else {
        1
    }
}

/// Whether the packet has the structure of RTCP: version 2, one of the packet
/// types 200 to 204, a length that fits, and room for the report blocks that a
/// sender or receiver report counts. The length field holds the number of
/// 32-bit words minus one.
pub open spec fn is_rtcp(data: Seq<u8>) -> bool {
    &&& data.len() >= 8
    &&& data[0] / 64 == 2
    &&& 200 <= data[1] <= 204
    &&& (u16_at(data, 2) + 1) * 4 <= data.len()
    &&& u16_at(data, 2) + 1 >= rtcp_min_words(data[1], (data[0] % 32) as int)
}

/// The RTP or RTCP packet in `data`: RTCP if it has that structure, else RTP if
/// it starts with an RTP header.
pub open spec fn media_of(data: Seq<u8>) -> PacketModel {
    if is_rtcp(data) {
        PacketModel::Rtcp(data)
    } else {
        match rtp_of(data) {
            Some(h) => PacketModel::Rtp { ssrc: h.ssrc, data },
            None => PacketModel::Unknown,
        }
    }
}

/// What kind of packet `data` holds. The first byte decides: 0 to 3 STUN, 20
/// to 63 DTLS, 64 to 127 ChannelData, 128 to 191 RTP or RTCP.
pub open spec fn packet_of(data: Seq<u8>) -> PacketModel {
    if data.len() == 0 {
        PacketModel::Unknown
    } else if data[0] <= 3 {
        match stun_of(data) {
            Some(m) => PacketModel::Stun(m),
            None => PacketModel::Unknown,
        }
    } else if 20 <= data[0] <= 63 {
        PacketModel::Dtls(data)
    } else if 64 <= data[0] <= 127 {
        match channel_data_of(data) {
            Some((channel, payload)) => PacketModel::TurnChannelData { channel, data: payload },
            None => PacketModel::Unknown,
        }
    } else if 128 <= data[0] <= 191 {
        media_of(data)
    } else {
        PacketModel::Unknown
    }
}

/// Packet demultiplexer.
pub struct Demuxer;

impl Demuxer {
    /// Classifies a packet by its first byte.
    ///
    /// | First byte | Protocol |
    /// |------------|----------|
    /// | 0-3        | STUN     |
    /// | 20-63      | DTLS     |
    /// | 64-127     | TURN ChannelData (channels 0x4000-0x7FFF) |
    /// | 128-191    | RTP/RTCP |
    pub fn classify(data: &[u8]) -> (r: PacketType)
        ensures
            r@ == packet_of(data@),
            r matches PacketType::Stun(m) ==> m@.wf(),
    {
        if data.len() == 0 {
            return PacketType::Unknown;
        }
        let first: u8 = data[0];
        if first <= 3 {
            Self::parse_stun(data)
        } else if 20 <= first && first <= 63 {
            PacketType::Dtls(slice_to_vec(data))
        } else if 64 <= first && first <= 127 {
            Self::parse_channel_data(data)
        } else if 128 <= first && first <= 191 {
            Self::parse_rtp_rtcp(data)
        } else {
            PacketType::Unknown
        }
    }

    /// Parses a STUN message.
    fn parse_stun(data: &[u8]) -> (r: PacketType)
        ensures
            r@ == match stun_of(data@) {
                Some(m) => PacketModel::Stun(m),
                None => PacketModel::Unknown,
            },
            r matches PacketType::Stun(m) ==> m@.wf(),
    {
        match StunInfo::parse(data) {
            Some(info) => PacketType::Stun(info),
            None => PacketType::Unknown,
        }
    }

    /// Parses TURN ChannelData.
    fn parse_channel_data(data: &[u8]) -> (r: PacketType)
        ensures
            r@ == match channel_data_of(data@) {
                Some((channel, payload)) => PacketModel::TurnChannelData { channel, data: payload },
                None => PacketModel::Unknown,
            },
    {
        let n: usize = data.len();
        if n < 4 {
            return PacketType::Unknown;
        }
        let channel: u16 = read_u16(data, 0);
        let length: usize = read_u16(data, 2) as usize;
        if n < 4 + length {
            return PacketType::Unknown;
        }
        PacketType::TurnChannelData {
            channel,
            data: slice_to_vec(slice_subrange(data, 4, 4 + length)),
        }
    }

    /// Parses an RTP or RTCP packet.
    ///
    /// An RTP packet with the marker bit and a payload type of 72 to 76 has the
    /// same second byte as RTCP, so the structure decides, not that byte alone.
    pub fn parse_rtp_rtcp(data: &[u8]) -> (r: PacketType)
        ensures
            r@ == media_of(data@),
    {
        if Self::is_valid_rtcp(data) {
            return PacketType::Rtcp(slice_to_vec(data));
        }
        match RtpHeader::parse(data) {
            Some(header) => PacketType::Rtp { ssrc: header.ssrc, data: slice_to_vec(data) },
            None => PacketType::Unknown,
        }
    }

    /// Checks the structure of an RTCP packet.
    pub fn is_valid_rtcp(data: &[u8]) -> (r: bool)
        ensures
            r == is_rtcp(data@),
    {
        let n: usize = data.len();
        if n < 8 {
            return false;
        }
        if data[0] / 64 != 2 {
            return false;
        }
        let length_field: usize = read_u16(data, 2) as usize;
        let packet_bytes: usize = (length_field + 1) * 4;
        if packet_bytes > n {
            return false;
        }
        let pt: u8 = data[1];
        let rc: u8 = data[0] % 32;
        match pt {
            200 => length_field + 1 >= 7 + rc as usize * 6,
            201 => length_field + 1 >= 2 + rc as usize * 6,
            202 | 203 | 204 => true,
            _ => false,
        }
    }
}

/// The first byte alone decides which protocol a packet can be.
pub proof fn first_byte_decides(data: Seq<u8>)
    requires
        data.len() > 0,
    ensures
        packet_of(data) is Stun ==> data[0] <= 3,
        packet_of(data) is Dtls <==> 20 <= data[0] <= 63,
        packet_of(data) is TurnChannelData ==> 64 <= data[0] <= 127,
        packet_of(data) is Rtp || packet_of(data) is Rtcp ==> 128 <= data[0] <= 191,
{
}

/// RTP and RTCP are told apart by structure. What is valid RTCP is RTCP, even if
/// it could be read as RTP; what is not, but starts with an RTP header, is RTP of
/// the source that the header names; and the rest is neither.
pub proof fn structure_tells_media(data: Seq<u8>)
    ensures
        is_rtcp(data) ==> media_of(data) == PacketModel::Rtcp(data),
        !is_rtcp(data) ==> (rtp_of(data) matches Some(h) ==> media_of(data) == (PacketModel::Rtp {
            ssrc: h.ssrc,
            data,
        })),
        !is_rtcp(data) && rtp_of(data) is None ==> media_of(data) == PacketModel::Unknown,
        data.len() > 0 && 128 <= data[0] <= 191 ==> packet_of(data) == media_of(data),
{
}

/// Every ChannelData packet names a channel in the range that TURN allows.
pub proof fn channel_in_range(data: Seq<u8>)
    ensures
        packet_of(data) matches PacketModel::TurnChannelData { channel, data: _ } ==> 0x4000
            <= channel <= 0x7FFF,
{
}

/// An RTP packet is relayed whole, and so is an RTCP packet or a DTLS record.
pub proof fn payload_is_whole(data: Seq<u8>)
    ensures
        packet_of(data) matches PacketModel::Rtp { ssrc: _, data: d } ==> d == data,
        packet_of(data) matches PacketModel::Rtcp(d) ==> d == data,
        packet_of(data) matches PacketModel::Dtls(d) ==> d == data,
{
}

} // verus!
