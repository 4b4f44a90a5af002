use uturn::demux::RtpHeader;

#[test]
fn test_parse_minimal_rtp() {
    let data = [
        0x80, 0x60, // V=2, P=0, X=0, CC=0, M=0, PT=96
        0x00, 0x01, // Seq=1
        0x00, 0x00, 0x03, 0xe8, // Timestamp=1000
        0xab, 0xcd, 0xef, 0x12, // SSRC
    ];

    let header = RtpHeader::parse(&data).unwrap();
    assert_eq!(header.version, 2);
    assert!(!header.padding);
    assert!(!header.extension);
    assert_eq!(header.csrc_count, 0);
    assert!(!header.marker);
    assert_eq!(header.payload_type, 96);
    assert_eq!(header.sequence_number, 1);
    assert_eq!(header.timestamp, 1000);
    assert_eq!(header.ssrc, 0xabcdef12);
}

#[test]
fn test_parse_rtp_with_marker() {
    let data = [
        0x80, 0xe0, // V=2, M=1, PT=96
        0x00, 0x01, 0x00, 0x00, 0x00, 0x00, 0x00, 0x00, 0x00, 0x01,
    ];

    let header = RtpHeader::parse(&data).unwrap();
    assert!(header.marker);
}

#[test]
fn test_parse_too_short() {
    let data = [0x80, 0x60, 0x00];
    assert!(RtpHeader::parse(&data).is_none());
}

#[test]
fn test_parse_wrong_version() {
    let data = [
        0x40, 0x60, // V=1 (invalid)
        0x00, 0x01, 0x00, 0x00, 0x00, 0x00, 0x00, 0x00, 0x00, 0x01,
    ];
    assert!(RtpHeader::parse(&data).is_none());
}

#[test]
fn contributing_sources_must_fit() {
    let mut data = vec![0x82u8, 0x60, 0, 1, 0, 0, 0, 0, 0, 0, 0, 7];
    assert!(RtpHeader::parse(&data).is_none());
    data.extend_from_slice(&[0; 8]);
    let header = RtpHeader::parse(&data).unwrap();
    assert_eq!(header.csrc_count, 2);
    assert_eq!(header.header_size(), 20);
}
