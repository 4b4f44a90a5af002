use uturn::demux::{StunClass, StunInfo, StunMethod};
use uturn::net::{IpAddr, SocketAddr};
use uturn::turn::encode::{append_xor_address, build_data_indication};

#[test]
fn test_parse_binding_request() {
    let data = [
        0x00, 0x01, // Binding Request
        0x00, 0x00, // Length = 0
        0x21, 0x12, 0xa4, 0x42, // Magic cookie
        0x01, 0x02, 0x03, 0x04, // Transaction ID
        0x05, 0x06, 0x07, 0x08, 0x09, 0x0a, 0x0b, 0x0c,
    ];

    let info = StunInfo::parse(&data).unwrap();
    assert_eq!(info.class, StunClass::Request);
    assert_eq!(info.method, StunMethod::Binding);
}

#[test]
fn test_parse_allocate_request() {
    let data = [
        0x00, 0x03, // Allocate Request
        0x00, 0x00, // Length = 0
        0x21, 0x12, 0xa4, 0x42, // Magic cookie
        0x01, 0x02, 0x03, 0x04, 0x05, 0x06, 0x07, 0x08, 0x09, 0x0a, 0x0b, 0x0c,
    ];

    let info = StunInfo::parse(&data).unwrap();
    assert_eq!(info.method, StunMethod::Allocate);
    assert!(info.is_turn());
}

#[test]
fn test_parse_with_username() {
    let username = b"serverufrag:clientufrag";
    let padded_len = (username.len() + 3) & !3;

    let mut data = vec![
        0x00,
        0x01, // Binding Request
        0x00,
        (4 + padded_len) as u8, // Length
        0x21,
        0x12,
        0xa4,
        0x42, // Magic cookie
        0x01,
        0x02,
        0x03,
        0x04,
        0x05,
        0x06,
        0x07,
        0x08,
        0x09,
        0x0a,
        0x0b,
        0x0c,
        // USERNAME attribute
        0x00,
        0x06, // Type
        0x00,
        username.len() as u8, // Length
    ];
    data.extend_from_slice(username);
    // Add padding
    while data.len() < 20 + 4 + padded_len {
        data.push(0);
    }

    let info = StunInfo::parse(&data).unwrap();
    assert_eq!(info.username, Some("serverufrag:clientufrag".to_string()));

    let (server, client) = info.parse_ice_username().unwrap();
    assert_eq!(server, "serverufrag");
    assert_eq!(client, "clientufrag");
}

fn message(msg_type: u16, attrs: &[(u16, &[u8])]) -> Vec<u8> {
    let mut body = Vec::new();
    for (kind, value) in attrs {
        body.extend_from_slice(&kind.to_be_bytes());
        body.extend_from_slice(&(value.len() as u16).to_be_bytes());
        body.extend_from_slice(value);
        while body.len() % 4 != 0 {
            body.push(0);
        }
    }
    let mut data = Vec::new();
    data.extend_from_slice(&msg_type.to_be_bytes());
    data.extend_from_slice(&(body.len() as u16).to_be_bytes());
    data.extend_from_slice(&[0x21, 0x12, 0xa4, 0x42]);
    data.extend_from_slice(&[7; 12]);
    data.extend_from_slice(&body);
    data
}

#[test]
fn every_attribute_is_read() {
    let hmac = [9u8; 20];
    let raw = message(
        0x0009,
        &[
            (0x0006, b"alice"),
            (0x000c, &[0x40, 0x01, 0, 0]),
            (0x000d, &[0, 0, 0x02, 0x58]),
            // 192.0.2.1:32853, masked with the magic cookie
            (0x0012, &[0, 1, 0xa1, 0x47, 0xe1, 0x12, 0xa6, 0x43]),
            (0x0013, b"hello"),
            (0x0014, b"uturn"),
            (0x0015, b"nonce"),
            (0x0019, &[17, 0, 0, 0]),
            (0x0008, &hmac),
        ],
    );
    let info = StunInfo::parse(&raw).unwrap();
    assert_eq!(info.class, StunClass::Request);
    assert_eq!(info.method, StunMethod::ChannelBind);
    assert_eq!(info.transaction_id, [7; 12]);
    assert_eq!(info.username, Some("alice".to_string()));
    assert_eq!(info.channel_number, Some(0x4001));
    assert_eq!(info.lifetime, Some(600));
    assert_eq!(
        info.xor_peer_addresses,
        vec![SocketAddr::new(IpAddr::v4(192, 0, 2, 1), 32853)]
    );
    assert_eq!(info.data, Some(b"hello".to_vec()));
    assert_eq!(info.realm, Some("uturn".to_string()));
    assert_eq!(info.nonce, Some("nonce".to_string()));
    assert_eq!(info.requested_transport, Some(17));
    assert_eq!(info.message_integrity, Some(hmac.to_vec()));
    assert_eq!(info.message_integrity_offset, Some(raw.len() - 24));
    assert_eq!(info.raw, raw);
}

#[test]
fn ipv6_addresses_are_unmasked_with_the_transaction_id() {
    let ip: u128 = 0x2001_0db8_1234_5678_0011_2233_4455_6677;
    let mut mask = vec![0x21u8, 0x12, 0xa4, 0x42];
    mask.extend_from_slice(&[7; 12]);
    let mut value = vec![0u8, 2];
    value.extend_from_slice(&(5000u16 ^ 0x2112).to_be_bytes());
    for (a, m) in ip.to_be_bytes().iter().zip(mask.iter()) {
        value.push(a ^ m);
    }
    let info = StunInfo::parse(&message(0x0008, &[(0x0012, &value)])).unwrap();
    assert_eq!(
        info.xor_peer_addresses,
        vec![SocketAddr::new(IpAddr::V6(ip), 5000)]
    );
}

#[test]
fn channels_outside_the_range_are_left_out() {
    let info = StunInfo::parse(&message(0x0009, &[(0x000c, &[0x3f, 0xff, 0, 0])])).unwrap();
    assert_eq!(info.channel_number, None);
    let info = StunInfo::parse(&message(0x0009, &[(0x000c, &[0x80, 0x00, 0, 0])])).unwrap();
    assert_eq!(info.channel_number, None);
}

#[test]
fn invalid_text_is_left_out() {
    let info = StunInfo::parse(&message(0x0001, &[(0x0006, &[0xff, 0xfe])])).unwrap();
    assert_eq!(info.username, None);
    assert!(info.parse_ice_username().is_none());
}

#[test]
fn classes_and_methods_are_told_apart() {
    let of = |t: u16| {
        let info = StunInfo::parse(&message(t, &[])).unwrap();
        (info.class, info.method, info.is_turn())
    };
    assert_eq!(of(0x0001), (StunClass::Request, StunMethod::Binding, false));
    assert_eq!(of(0x0101), (StunClass::SuccessResponse, StunMethod::Binding, false));
    assert_eq!(of(0x0113), (StunClass::ErrorResponse, StunMethod::Allocate, true));
    assert_eq!(of(0x0016), (StunClass::Indication, StunMethod::Send, true));
    assert_eq!(of(0x0017), (StunClass::Indication, StunMethod::Data, true));
    assert_eq!(of(0x0004), (StunClass::Request, StunMethod::Refresh, true));
    assert_eq!(of(0x0008), (StunClass::Request, StunMethod::CreatePermission, true));
    assert_eq!(of(0x000a), (StunClass::Request, StunMethod::Unknown(10), false));
}

#[test]
fn truncated_messages_are_refused() {
    let raw = message(0x0001, &[(0x0006, b"a:b")]);
    assert!(StunInfo::parse(&raw).is_some());
    assert!(StunInfo::parse(&raw[..raw.len() - 1]).is_none());
    assert!(StunInfo::parse(&raw[..19]).is_none());
}

#[test]
fn a_truncated_last_attribute_is_ignored() {
    let whole = message(0x0001, &[(0x0006, b"a:b"), (0x0014, b"uturn"), (0x000d, &[0, 0, 0, 9])]);
    let fields = StunInfo::parse(&whole).unwrap();
    let tails: [&[u8]; 4] = [&[0x00], &[0x00, 0x06, 0x00], &[0x00, 0x06, 0x00, 0x01], &[0, 0x14, 0, 8, 1, 2, 3]];
    for tail in tails {
        let mut longer = whole.clone();
        longer.extend_from_slice(tail);
        longer[3] += tail.len() as u8;
        let info = StunInfo::parse(&longer).unwrap();
        assert_eq!(info.username, fields.username);
        assert_eq!(info.realm, fields.realm);
        assert_eq!(info.lifetime, Some(9));
        assert_eq!(info.nonce, None);
        assert_eq!(info.raw, longer);
    }
}

#[test]
fn attributes_are_parsed_without_their_header() {
    let txn = [7; 12];
    let whole = message(0x0001, &[(0x0006, b"a:b"), (0x0008, &[9; 20]), (0x000d, &[0, 0, 0, 9])]);
    let run = &whole[20..];
    let tails: [&[u8]; 3] = [&[], &[0x00, 0x0d, 0x00], &[0x00, 0x0d, 0x00, 0x04, 1, 2, 3]];
    for tail in tails {
        let mut attrs = run.to_vec();
        attrs.extend_from_slice(tail);
        let parsed = StunInfo::parse_attributes(&attrs, &txn);
        assert_eq!(parsed.username, Some("a:b".to_string()));
        assert_eq!(parsed.message_integrity, Some(vec![9; 20]));
        assert_eq!(parsed.message_integrity_offset, Some(28));
        assert_eq!(parsed.lifetime, Some(9));
        assert_eq!(parsed.channel_number, None);
        assert_eq!(parsed.data, None);
        assert!(parsed.xor_peer_addresses.is_empty());
    }
    // A last value may lack its padding.
    let parsed = StunInfo::parse_attributes(&[0x00, 0x14, 0x00, 0x01, b'r'], &txn);
    assert_eq!(parsed.realm, Some("r".to_string()));
    // More bytes than a message can hold.
    let mut attrs = vec![0u8; 80_000];
    attrs.extend_from_slice(&[0x00, 0x0d, 0x00, 0x04, 0, 0, 1, 0]);
    assert_eq!(StunInfo::parse_attributes(&attrs, &txn).lifetime, Some(256));
}

#[test]
fn an_appended_address_is_decoded() {
    let txn = [1, 2, 3, 4, 5, 6, 7, 8, 9, 10, 11, 12];
    for addr in [
        SocketAddr::new(IpAddr::v4(192, 0, 2, 1), 32853),
        SocketAddr::new(IpAddr::V6(0x2001_0db8_0000_0000_0000_0000_0000_0001), 443),
    ] {
        let mut buf = vec![9, 8, 7];
        append_xor_address(&mut buf, 0x0012, addr, &txn);
        assert_eq!(&buf[..3], &[9, 8, 7]);
        assert_eq!(StunInfo::decode_xor_address(&buf[7..], &txn), Some(addr));
    }
    assert_eq!(StunInfo::decode_xor_address(&[0, 3, 0, 0, 0, 0, 0, 0], &txn), None);
    assert_eq!(StunInfo::decode_xor_address(&[0, 1, 0, 0, 0, 0, 0], &txn), None);
}

#[test]
fn a_data_indication_holds_a_peer_and_data_and_nothing_else() {
    let txn = [4; 12];
    let peer = SocketAddr::new(IpAddr::V6(0x2001_0db8_0000_0000_0000_0000_0000_0007), 5000);
    for len in 0..9 {
        let data = vec![0x5a; len];
        let p = build_data_indication(&txn, peer, &data);
        assert_eq!(p.len() % 4, 0);
        let info = StunInfo::parse(&p).unwrap();
        assert_eq!(info.class, StunClass::Indication);
        assert_eq!(info.method, StunMethod::Data);
        assert_eq!(info.transaction_id, txn);
        assert_eq!(info.xor_peer_addresses, vec![peer]);
        assert_eq!(info.data, Some(data));
        assert_eq!(info.username, None);
        assert_eq!(info.realm, None);
        assert_eq!(info.nonce, None);
        assert_eq!(info.lifetime, None);
        assert_eq!(info.channel_number, None);
        assert_eq!(info.requested_transport, None);
        assert_eq!(info.message_integrity, None);
        assert_eq!(info.message_integrity_offset, None);
    }
}
