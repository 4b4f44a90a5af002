use std::sync::Arc;
use uturn::coarse_time::{init, CoarseClock};
use uturn::demux::StunInfo;
use uturn::lookup::{AllocationId, AllocationTable};
use uturn::net::{IpAddr, SocketAddr};
use uturn::relay::engine::{extract_stun_ufrags, is_dtls, is_rtp, is_stun};
use uturn::relay::{Datagram, Effect, RelayEngine};
use uturn::Config;

fn relay_ip() -> IpAddr {
    IpAddr::v4(203, 0, 113, 10)
}

fn relay() -> SocketAddr {
    SocketAddr::new(relay_ip(), 3478)
}

fn client(port: u16) -> SocketAddr {
    SocketAddr::new(IpAddr::v4(192, 0, 2, 1), port)
}

fn peer(port: u16) -> SocketAddr {
    SocketAddr::new(IpAddr::v4(198, 51, 100, 7), port)
}

fn engine() -> (RelayEngine, AllocationTable, CoarseClock) {
    let clock = init();
    (
        RelayEngine::new(Arc::new(Config::new(relay_ip()))),
        AllocationTable::new(),
        clock,
    )
}

/// A client with a permission for the relay.
fn join(table: &mut AllocationTable, clock: &CoarseClock, port: u16) -> AllocationId {
    let id = table.create(client(port), "u".to_string(), 60, clock);
    table.add_permission(id, relay_ip());
    id
}

/// What is sent: the receivers and the datagram of each send.
fn sent(effects: &[Effect]) -> Vec<(Vec<SocketAddr>, String)> {
    let mut out = Vec::new();
    for e in effects {
        if let Effect::Send { to, datagram } = e {
            out.push((to.clone(), text(datagram)));
        }
    }
    out
}

fn text(d: &Datagram) -> String {
    match d {
        Datagram::Raw(data) => format!("raw {:?}", data),
        Datagram::ChannelData { channel, data } => format!("channel {:x} {:?}", channel, data),
        Datagram::DataIndication { source, data } => format!("from {} {:?}", source.port, data),
    }
}

fn check(username: &str) -> Vec<u8> {
    let mut data = vec![0x00, 0x01, 0x00, 0x00, 0x21, 0x12, 0xa4, 0x42];
    data.extend_from_slice(&[3; 12]);
    data.extend_from_slice(&[0x00, 0x06, 0x00, username.len() as u8]);
    data.extend_from_slice(username.as_bytes());
    while data.len() % 4 != 0 {
        data.push(0);
    }
    data[3] = (data.len() - 20) as u8;
    data
}

#[test]
fn packets_are_recognised() {
    assert!(is_dtls(&[20, 0xfe, 0xfd]));
    assert!(is_dtls(&[25, 0xfe, 0xfd]));
    assert!(!is_dtls(&[26, 0xfe, 0xfd]));
    assert!(!is_dtls(&[22, 0x03, 0xfd]));
    assert!(!is_dtls(&[22, 0xfe]));
    assert!(is_rtp(&[0x80, 96]));
    assert!(!is_rtp(&[0x80, 72]));
    assert!(!is_rtp(&[0x80, 200]));
    assert!(is_stun(&check("a:b")));
    assert!(!is_stun(&[0; 20]));
    // The first byte of STUN is at most 3.
    let mut data = check("a:b");
    for (first, stun) in [(3, true), (4, false), (22, false), (63, false), (64, false)] {
        data[0] = first;
        assert_eq!(is_stun(&data), stun);
    }
}

#[test]
fn a_cookie_alone_makes_no_check() {
    let (engine, mut table, clock) = engine();
    let a = join(&mut table, &clock, 1);
    table.bind_channel(a, 0x4000, relay());
    // Were it STUN, the ufrags would be registered and the orphan timer left alone.
    let mut data = check("bob:alice");
    data[0] = 22;
    let effects = engine.handle_channel_data(0x4000, &data, client(1), &mut table);
    assert!(sent(&effects).is_empty());
    assert!(matches!(effects[0], Effect::TouchRelay { id, relayed: false } if id == a));
    assert_eq!(table.lookup_by_ice_ufrag("alice"), None);
}

#[test]
fn ufrags_are_taken_from_the_username() {
    assert_eq!(
        extract_stun_ufrags(&check("remote:local")),
        Some(("remote".to_string(), "local".to_string()))
    );
    assert_eq!(extract_stun_ufrags(&check("nocolon")), None);
    assert_eq!(extract_stun_ufrags(&[0; 19]), None);
}

#[test]
fn ufrags_are_those_of_the_parsed_username() {
    for username in ["remote:local", "a:b:c", ":", "nocolon", ""] {
        let data = check(username);
        let parsed = StunInfo::parse(&data).unwrap();
        assert_eq!(extract_stun_ufrags(&data), parsed.parse_ice_username());
    }
}

#[test]
fn peer_reaches_those_who_permit_it() {
    let (engine, mut table, clock) = engine();
    let a = join(&mut table, &clock, 1);
    let b = join(&mut table, &clock, 2);
    let rtp = [0x80, 96, 1, 2];
    assert!(engine.handle_rtp(0, &rtp, peer(9), &mut table, &clock).is_empty());

    table.add_permission(a, peer(0).ip);
    let effects = engine.handle_rtp(0, &rtp, peer(9), &mut table, &clock);
    assert_eq!(
        sent(&effects),
        vec![(vec![client(1)], "from 9 [128, 96, 1, 2]".to_string())]
    );
    assert!(matches!(effects[1], Effect::Touch { id } if id == a));
    // Only one could be meant, so the address is learned.
    assert_eq!(table.lookup_by_peer_tuple(peer(9)), Some(a));

    // A bound channel is used, but not for DTLS.
    table.bind_channel(a, 0x4000, peer(9));
    let effects = engine.handle_rtp(0, &rtp, peer(9), &mut table, &clock);
    assert_eq!(
        sent(&effects),
        vec![(vec![client(1)], "channel 4000 [128, 96, 1, 2]".to_string())]
    );
    let dtls = [22, 0xfe, 0xff];
    let effects = engine.handle_dtls(&dtls, peer(9), &mut table, &clock);
    assert_eq!(
        sent(&effects),
        vec![(vec![client(1)], "from 9 [22, 254, 255]".to_string())]
    );

    // From another port of the same IP both are meant.
    table.add_permission(b, peer(0).ip);
    let effects = engine.handle_rtcp(&[0x80, 200], peer(8), &mut table, &clock);
    assert_eq!(
        sent(&effects),
        vec![
            (vec![client(1)], "from 8 [128, 200]".to_string()),
            (vec![client(2)], "from 8 [128, 200]".to_string()),
        ]
    );
    assert_eq!(table.lookup_by_peer_tuple(peer(8)), None);
    let effects = engine.handle_peer_data(&[1], peer(8), &mut table, &clock);
    assert_eq!(sent(&effects).len(), 2);
}

#[test]
fn peer_traffic_is_not_echoed_to_its_own_ip() {
    let (engine, mut table, clock) = engine();
    let a = join(&mut table, &clock, 1);
    table.add_permission(a, client(0).ip);
    // RTP with a single receiver is the exception.
    assert!(sent(&engine.handle_peer_data(&[1], client(50), &mut table, &clock)).is_empty());
    assert_eq!(
        sent(&engine.handle_rtp(0, &[1], client(51), &mut table, &clock)).len(),
        1
    );
}

#[test]
fn channel_data_goes_to_the_peer() {
    let (engine, mut table, clock) = engine();
    let a = join(&mut table, &clock, 1);
    // No allocation, no channel, no permission: dropped.
    assert!(engine.handle_channel_data(0x4000, &[1], client(2), &mut table).is_empty());
    assert!(engine.handle_channel_data(0x4000, &[1], client(1), &mut table).is_empty());
    table.bind_channel(a, 0x4000, peer(9));
    assert!(engine.handle_channel_data(0x4000, &[1], client(1), &mut table).is_empty());

    table.add_permission(a, peer(0).ip);
    let effects = engine.handle_channel_data(0x4000, &[1, 2], client(1), &mut table);
    assert_eq!(sent(&effects), vec![(vec![peer(9)], "raw [1, 2]".to_string())]);
    assert!(matches!(effects[1], Effect::TouchReceived { id } if id == a));

    // A forbidden peer gets nothing.
    let own = SocketAddr::new(relay_ip(), 53);
    table.bind_channel(a, 0x4001, own);
    assert!(engine.handle_channel_data(0x4001, &[1], client(1), &mut table).is_empty());
}

#[test]
fn channel_data_between_clients_is_framed() {
    let (engine, mut table, clock) = engine();
    let a = join(&mut table, &clock, 1);
    let b = join(&mut table, &clock, 2);
    table.add_permission(a, client(2).ip);
    table.bind_channel(a, 0x4000, client(2));
    let effects = engine.handle_channel_data(0x4000, &[5], client(1), &mut table);
    assert_eq!(sent(&effects), vec![(vec![client(2)], "from 1 [5]".to_string())]);
    table.bind_channel(b, 0x4005, client(1));
    let effects = engine.handle_channel_data(0x4000, &[5], client(1), &mut table);
    assert_eq!(sent(&effects), vec![(vec![client(2)], "channel 4005 [5]".to_string())]);
}

#[test]
fn channel_data_to_the_relay_goes_to_the_ice_peer() {
    let (engine, mut table, clock) = engine();
    let a = join(&mut table, &clock, 1);
    let b = join(&mut table, &clock, 2);
    let c = join(&mut table, &clock, 3);
    table.bind_channel(a, 0x4000, relay());
    table.bind_channel(b, 0x4001, relay());

    // Nobody to relay to: dropped, and the orphan timer starts.
    let effects = engine.handle_channel_data(0x4000, &[0x80, 96], client(1), &mut table);
    assert!(sent(&effects).is_empty());
    assert!(matches!(effects[0], Effect::TouchRelay { id, relayed: false } if id == a));

    // A check registers its ufrags and goes to the client it names.
    let to_b = check("bob:alice");
    assert!(sent(&engine.handle_channel_data(0x4000, &to_b, client(1), &mut table)).is_empty());
    assert_eq!(table.lookup_by_ice_ufrag("alice"), Some(a));
    let to_a = check("alice:bob");
    let effects = engine.handle_channel_data(0x4001, &to_a, client(2), &mut table);
    assert_eq!(
        sent(&effects),
        vec![(vec![client(1)], format!("channel 4000 {:?}", to_a))]
    );

    // Then media flows between the two, and the third hears nothing.
    let effects = engine.handle_channel_data(0x4000, &[0x80, 96], client(1), &mut table);
    assert_eq!(
        sent(&effects),
        vec![(vec![client(2)], "channel 4001 [128, 96]".to_string())]
    );
    assert!(effects
        .iter()
        .any(|e| matches!(e, Effect::TouchRelay { id, relayed: true } if *id == a)));
    assert!(table.get(c).is_some());
}

#[test]
fn unframed_client_data_goes_to_the_ice_peer() {
    let (engine, mut table, clock) = engine();
    let a = table.create(client(1), "u".to_string(), 60, &clock);
    let b = join(&mut table, &clock, 2);
    assert!(engine.relay_client_data(&[1], client(9), &table).is_empty());
    // The sender must permit the relay.
    assert!(engine.relay_client_data(&[1], client(1), &table).is_empty());
    table.add_permission(a, relay_ip());
    assert!(sent(&engine.relay_client_data(&[1], client(1), &table)).is_empty());
    table.register_ice_ufrags(a, "alice", "bob");
    table.register_ice_ufrags(b, "bob", "alice");
    let effects = engine.relay_client_data(&[1], client(1), &table);
    assert_eq!(sent(&effects), vec![(vec![client(2)], "from 3478 [1]".to_string())]);
    let effects = engine.relay_client_data(&[2], client(2), &table);
    assert_eq!(sent(&effects), vec![(vec![client(1)], "from 3478 [2]".to_string())]);
}

#[test]
fn datagrams_are_encoded() {
    let txn = [9; 12];
    assert_eq!(Datagram::Raw(vec![1, 2]).encode_with(&txn), vec![1, 2]);
    assert_eq!(
        Datagram::ChannelData { channel: 0x4001, data: vec![1, 2, 3] }.encode(),
        vec![0x40, 0x01, 0, 3, 1, 2, 3, 0]
    );
    let d = Datagram::DataIndication {
        source: SocketAddr::new(IpAddr::v4(192, 0, 2, 1), 32853),
        data: vec![1, 2, 3, 4, 5],
    };
    let mut expected = vec![0x00, 0x17, 0x00, 24, 0x21, 0x12, 0xa4, 0x42];
    expected.extend_from_slice(&txn);
    expected.extend_from_slice(&[0, 0x12, 0, 8, 0, 1, 0xa1, 0x47, 0xe1, 0x12, 0xa6, 0x43]);
    expected.extend_from_slice(&[0, 0x13, 0, 5, 1, 2, 3, 4, 5, 0, 0, 0]);
    assert_eq!(d.encode_with(&txn), expected);
    // The transaction id of an indication is random.
    assert_ne!(d.encode(), d.encode());
}
