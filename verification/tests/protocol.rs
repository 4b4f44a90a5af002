use uturn::demux::{Demuxer, PacketType};

#[test]
fn test_classify_stun() {
    // STUN Binding Request magic cookie
    let stun_packet = [
        0x00, 0x01, // Binding Request
        0x00, 0x00, // Length
        0x21, 0x12, 0xa4, 0x42, // Magic cookie
        0x00, 0x00, 0x00, 0x00, // Transaction ID (12 bytes)
        0x00, 0x00, 0x00, 0x00, 0x00, 0x00, 0x00, 0x00,
    ];
    assert!(matches!(
        Demuxer::classify(&stun_packet),
        PacketType::Stun(_)
    ));
}

#[test]
fn test_classify_dtls() {
    // DTLS record (content type 22 = handshake)
    let dtls_packet = [22, 0xfe, 0xff, 0x00, 0x00];
    assert!(matches!(
        Demuxer::classify(&dtls_packet),
        PacketType::Dtls(_)
    ));
}

#[test]
fn test_classify_channel_data() {
    // TURN ChannelData
    let channel_data = [
        0x40, 0x00, // Channel 0x4000
        0x00, 0x04, // Length 4
        0xde, 0xad, 0xbe, 0xef, // Data
    ];
    assert!(matches!(
        Demuxer::classify(&channel_data),
        PacketType::TurnChannelData {
            channel: 0x4000,
            ..
        }
    ));
}

#[test]
fn test_classify_rtp() {
    // RTP packet
    let rtp_packet = [
        0x80, 0x60, // V=2, PT=96
        0x00, 0x01, // Seq
        0x00, 0x00, 0x00, 0x00, // Timestamp
        0x12, 0x34, 0x56, 0x78, // SSRC
    ];
    match Demuxer::classify(&rtp_packet) {
        PacketType::Rtp { ssrc, .. } => assert_eq!(ssrc, 0x12345678),
        _ => panic!("Expected RTP"),
    }
}

#[test]
fn test_classify_rtcp() {
    // RTCP Sender Report (PT=200, 0xC8) - full 28 bytes
    let rtcp_sr = [
        0x80, 0xC8, // V=2, P=0, RC=0, PT=200 (SR)
        0x00, 0x06, // Length = 6 (7 words = 28 bytes)
        0x12, 0x34, 0x56, 0x78, // SSRC
        0x00, 0x00, 0x00, 0x00, // NTP timestamp (high)
        0x00, 0x00, 0x00, 0x00, // NTP timestamp (low)
        0x00, 0x00, 0x00, 0x00, // RTP timestamp
        0x00, 0x00, 0x00, 0x00, // Packet count
        0x00, 0x00, 0x00, 0x00, // Octet count
    ];
    assert!(matches!(Demuxer::classify(&rtcp_sr), PacketType::Rtcp(_)));

    // RTCP Receiver Report (PT=201, 0xC9) - 8 bytes minimum
    let rtcp_rr = [
        0x80, 0xC9, // V=2, P=0, RC=0, PT=201 (RR)
        0x00, 0x01, // Length = 1 (2 words = 8 bytes)
        0x12, 0x34, 0x56, 0x78, // SSRC
    ];
    assert!(matches!(Demuxer::classify(&rtcp_rr), PacketType::Rtcp(_)));

    // RTCP BYE (PT=203, 0xCB)
    let rtcp_bye = [
        0x81, 0xCB, // V=2, P=0, SC=1, PT=203 (BYE)
        0x00, 0x01, // Length = 1 (2 words = 8 bytes)
        0x12, 0x34, 0x56, 0x78, // SSRC
    ];
    assert!(matches!(Demuxer::classify(&rtcp_bye), PacketType::Rtcp(_)));
}

#[test]
fn test_rtp_with_marker_bit_not_misclassified_as_rtcp() {
    // RTP packet with marker bit set and PT=72
    // Raw byte 1 = 0x80 | 72 = 0xC8 = 200 (same as RTCP SR!)
    // This should be classified as RTP, not RTCP
    let rtp_marker_pt72 = [
        0x80, 0xC8, // V=2, M=1, PT=72 (raw byte = 200)
        0x00, 0x01, // Seq
        0x00, 0x00, 0x00, 0x00, // Timestamp
        0x12, 0x34, 0x56, 0x78, // SSRC
        0xde, 0xad, 0xbe, 0xef, // Payload (not valid RTCP structure)
    ];

    // This should be RTP because the packet doesn't have valid RTCP structure
    // (length field says 1 word = 8 bytes, but RTCP SR needs at least 28 bytes)
    match Demuxer::classify(&rtp_marker_pt72) {
        PacketType::Rtp { ssrc, .. } => assert_eq!(ssrc, 0x12345678),
        other => panic!("Expected RTP, got {:?}", other),
    }
}

#[test]
fn test_valid_rtcp_sr_not_misclassified() {
    // Valid RTCP Sender Report
    // SR = 28 bytes minimum (7 words), with RC=0
    let rtcp_sr = [
        0x80, 0xC8, // V=2, P=0, RC=0, PT=200 (SR)
        0x00, 0x06, // Length = 6 words (28 bytes total)
        0x12, 0x34, 0x56, 0x78, // SSRC
        0x00, 0x00, 0x00, 0x00, // NTP timestamp (high)
        0x00, 0x00, 0x00, 0x00, // NTP timestamp (low)
        0x00, 0x00, 0x00, 0x00, // RTP timestamp
        0x00, 0x00, 0x00, 0x00, // Packet count
        0x00, 0x00, 0x00, 0x00, // Octet count
    ];
    assert!(matches!(Demuxer::classify(&rtcp_sr), PacketType::Rtcp(_)));
}

#[test]
fn first_byte_outside_every_range_is_unknown() {
    assert!(matches!(Demuxer::classify(&[]), PacketType::Unknown));
    assert!(matches!(Demuxer::classify(&[4, 0, 0, 0]), PacketType::Unknown));
    assert!(matches!(Demuxer::classify(&[19, 0, 0, 0]), PacketType::Unknown));
    assert!(matches!(Demuxer::classify(&[192, 0, 0, 0]), PacketType::Unknown));
    assert!(matches!(Demuxer::classify(&[20, 0, 0, 0]), PacketType::Dtls(_)));
    assert!(matches!(Demuxer::classify(&[63, 0, 0, 0]), PacketType::Dtls(_)));
}

#[test]
fn channel_data_keeps_exactly_its_declared_bytes() {
    // Three bytes of data, one of padding.
    match Demuxer::classify(&[0x7f, 0xff, 0, 3, 1, 2, 3, 0]) {
        PacketType::TurnChannelData { channel, data } => {
            assert_eq!(channel, 0x7fff);
            assert_eq!(data, vec![1, 2, 3]);
        }
        other => panic!("Expected ChannelData, got {:?}", other),
    }
    // More declared than there.
    assert!(matches!(
        Demuxer::classify(&[0x40, 0, 0, 5, 1, 2, 3, 4]),
        PacketType::Unknown
    ));
    assert!(matches!(Demuxer::classify(&[0x40, 0, 0]), PacketType::Unknown));
}

#[test]
fn stun_range_without_a_stun_message_is_unknown() {
    assert!(matches!(Demuxer::classify(&[0, 1, 0, 0]), PacketType::Unknown));
    // No magic cookie.
    assert!(matches!(Demuxer::classify(&[0; 20]), PacketType::Unknown));
}

#[test]
fn rtp_and_rtcp_are_told_apart_by_structure() {
    // A receiver report of eight bytes: valid RTCP, too short for RTP.
    let report = [0x80, 201, 0, 1, 1, 2, 3, 4];
    assert!(Demuxer::is_valid_rtcp(&report));
    match Demuxer::parse_rtp_rtcp(&report) {
        PacketType::Rtcp(data) => assert_eq!(data, report.to_vec()),
        other => panic!("Expected RTCP, got {:?}", other),
    }
    // Valid RTCP that could be read as RTP as well is RTCP.
    let longer = [0x80, 201, 0, 1, 1, 2, 3, 4, 5, 6, 7, 8];
    assert!(matches!(Demuxer::parse_rtp_rtcp(&longer), PacketType::Rtcp(_)));
    // It counts a report block that is not there, so it is RTP.
    let counted = [0x81, 201, 0, 1, 1, 2, 3, 4, 5, 6, 7, 8, 9, 9, 9, 9];
    assert!(!Demuxer::is_valid_rtcp(&counted));
    match Demuxer::parse_rtp_rtcp(&counted) {
        PacketType::Rtp { ssrc, data } => {
            assert_eq!(ssrc, 0x05060708);
            assert_eq!(data, counted.to_vec());
        }
        other => panic!("Expected RTP, got {:?}", other),
    }
    // Neither.
    assert!(matches!(
        Demuxer::parse_rtp_rtcp(&[0x80, 96, 0, 1, 1, 2, 3, 4]),
        PacketType::Unknown
    ));
    assert!(matches!(Demuxer::parse_rtp_rtcp(&[]), PacketType::Unknown));
}
