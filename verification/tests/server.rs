use uturn::demux::{StunClass, StunInfo, StunMethod};
use uturn::net::{IpAddr, SocketAddr};
use uturn::relay::{Datagram, Effect};
use uturn::turn::encode::{append_attribute, append_text, append_xor_address, begin, finish};
use uturn::turn::rules::Draw;
use uturn::turn::TurnAuth;
use uturn::{Config, Server};

const NOW: u64 = 1_700_000_000;
const MS: u128 = 1_000_000;

fn relay_ip() -> IpAddr {
    IpAddr::v4(203, 0, 113, 10)
}

fn client(port: u16) -> SocketAddr {
    SocketAddr::new(IpAddr::v4(192, 0, 2, 1), port)
}

fn draw() -> Draw {
    Draw { unix_secs: NOW, limiter_ns: 0, seed: [1; 12] }
}

fn open_server() -> Server {
    let mut config = Config::new(relay_ip());
    config.allow_anonymous = true;
    let mut server = Server::new(config);
    server.advance_to(0);
    server
}

/// Handles a datagram as the server loop does, and returns what is sent.
fn deliver(server: &mut Server, data: &[u8], src: SocketAddr) -> Vec<(SocketAddr, Vec<u8>)> {
    let mut out = Vec::new();
    for effect in server.handle_packet_with(data, src, &draw()) {
        if let Effect::Send { to, datagram } = &effect {
            for addr in to {
                out.push((*addr, datagram.encode()));
            }
        }
        server.apply(&effect);
    }
    out
}

fn allocate(server: &mut Server, port: u16, txn: [u8; 12]) {
    let out = deliver(server, &finish(begin(0x0003, &txn), None), client(port));
    assert_eq!(out.len(), 1);
    assert_eq!(out[0].0, client(port));
    assert_eq!(&out[0].1[0..2], &[0x01, 0x03]);
}

/// An ICE check of the client `local` for the client `remote`.
fn check(remote: &str, local: &str) -> Vec<u8> {
    let mut buf = begin(0x0001, &[4; 12]);
    append_text(&mut buf, 0x0006, &format!("{}:{}", remote, local));
    finish(buf, None)
}

#[test]
fn addresses_follow_the_configuration() {
    let server = open_server();
    assert_eq!(
        server.bind_addr(),
        SocketAddr::new(IpAddr::v4(0, 0, 0, 0), 3478)
    );
    assert_eq!(server.relay_addr(), SocketAddr::new(relay_ip(), 3478));
    let server = Server::new(Config::new(IpAddr::V6(1)).with_port(5000));
    assert_eq!(server.bind_addr(), SocketAddr::new(IpAddr::V6(0), 5000));
}

#[test]
fn two_clients_talk_through_the_relay() {
    let mut server = open_server();
    for port in [1, 2, 3] {
        allocate(&mut server, port, [port as u8; 12]);
    }
    // The first check names a client that is not known yet: dropped.
    assert!(deliver(&mut server, &check("bob", "alice"), client(1)).is_empty());
    // The third client's check is for somebody else.
    assert!(deliver(&mut server, &check("dave", "carol"), client(3)).is_empty());
    // The answering check reaches the first client and nobody else.
    let out = deliver(&mut server, &check("alice", "bob"), client(2));
    assert_eq!(out.len(), 1);
    assert_eq!(out[0].0, client(1));
    let info = StunInfo::parse(&out[0].1).unwrap();
    assert_eq!(info.class, StunClass::Indication);
    assert_eq!(info.method, StunMethod::Data);
    assert_eq!(info.xor_peer_addresses, vec![server.relay_addr()]);
    assert_eq!(info.data, Some(check("alice", "bob")));

    // Media goes to the other side of the call only.
    let rtp = vec![0x80, 96, 0, 1, 0, 0, 0, 0, 0, 0, 0, 9];
    for (from, to) in [(1, 2), (2, 1)] {
        let out = deliver(&mut server, &rtp, client(from));
        assert_eq!(out.len(), 1);
        assert_eq!(out[0].0, client(to));
        assert_eq!(StunInfo::parse(&out[0].1).unwrap().data, Some(rtp.clone()));
    }
    let dtls = vec![22, 0xfe, 0xfd, 0];
    assert_eq!(deliver(&mut server, &dtls, client(1))[0].0, client(2));
    assert!(deliver(&mut server, &rtp, client(3)).is_empty());
}

#[test]
fn a_send_indication_reaches_an_outside_peer_and_back() {
    let mut server = open_server();
    allocate(&mut server, 1, [1; 12]);
    let peer = SocketAddr::new(IpAddr::v4(198, 51, 100, 7), 9000);
    let mut send = begin(0x0016, &[6; 12]);
    append_xor_address(&mut send, 0x0012, peer, &[6; 12]);
    append_attribute(&mut send, 0x0013, b"ping");
    let send = finish(send, None);
    // Not permitted yet.
    assert!(deliver(&mut server, &send, client(1)).is_empty());

    let mut perm = begin(0x0008, &[7; 12]);
    append_xor_address(&mut perm, 0x0012, peer, &[7; 12]);
    let out = deliver(&mut server, &finish(perm, None), client(1));
    assert_eq!(&out[0].1[0..2], &[0x01, 0x08]);
    assert_eq!(
        deliver(&mut server, &send, client(1)),
        vec![(peer, b"ping".to_vec())]
    );

    let out = deliver(&mut server, &[200, 1, 2, 3], peer);
    assert_eq!(out.len(), 1);
    assert_eq!(out[0].0, client(1));
    let info = StunInfo::parse(&out[0].1).unwrap();
    assert_eq!(info.xor_peer_addresses, vec![peer]);
    assert_eq!(info.data, Some(vec![200, 1, 2, 3]));

    // Through a channel both ways.
    let mut bind = begin(0x0009, &[8; 12]);
    append_attribute(&mut bind, 0x000c, &[0x40, 0x00, 0, 0]);
    append_xor_address(&mut bind, 0x0012, peer, &[8; 12]);
    let out = deliver(&mut server, &finish(bind, None), client(1));
    assert_eq!(&out[0].1[0..2], &[0x01, 0x09]);
    assert_eq!(
        deliver(&mut server, &[0x40, 0, 0, 2, 5, 6], client(1)),
        vec![(peer, vec![5, 6])]
    );
    assert_eq!(
        deliver(&mut server, &[200, 1, 2], peer),
        vec![(client(1), vec![0x40, 0, 0, 3, 200, 1, 2, 0])]
    );
}

#[test]
fn a_challenged_client_gets_in() {
    let mut server = Server::new(Config::new(relay_ip()).with_credential("alice", "secret"));
    server.advance_to(0);
    let out = deliver(&mut server, &finish(begin(0x0003, &[1; 12]), None), client(1));
    let challenge = StunInfo::parse(&out[0].1).unwrap();
    assert_eq!(challenge.class, StunClass::ErrorResponse);

    let key = TurnAuth::compute_key("alice", "uturn", "secret");
    let mut request = begin(0x0003, &[2; 12]);
    append_text(&mut request, 0x0006, "alice");
    append_text(&mut request, 0x0014, &challenge.realm.unwrap());
    append_text(&mut request, 0x0015, &challenge.nonce.unwrap());
    append_attribute(&mut request, 0x0019, &[17, 0, 0, 0]);
    let request = finish(request, Some(&key));
    let out = deliver(&mut server, &request, client(1));
    let success = &out[0].1;
    assert_eq!(&success[0..2], &[0x01, 0x03]);
    let end = success.len() - 24;
    assert!(TurnAuth::verify_message_integrity(
        &success[..end],
        &success[end + 4..],
        &key
    ));

    // One flipped bit and the request is refused.
    let mut forged = request.clone();
    forged[19] ^= 1;
    let out = deliver(&mut server, &forged, client(2));
    assert_eq!(&out[0].1[0..2], &[0x01, 0x13]);
    assert_eq!(&out[0].1[26..28], &[4, 1]);
}

#[test]
fn cleanup_frees_expired_allocations_and_their_quota() {
    let mut config = Config::new(relay_ip());
    config.allow_anonymous = true;
    config.max_allocations_per_ip = 1;
    let mut server = Server::new(config);
    server.advance_to(0);
    allocate(&mut server, 1, [1; 12]);
    let again = finish(begin(0x0003, &[2; 12]), None);
    let out = deliver(&mut server, &again, client(2));
    assert_eq!(&out[0].1[26..28], &[4, 86]);

    // Inactive for 45 seconds, though not expired yet.
    server.advance_to(44_999 * MS);
    server.cleanup_at(0);
    let out = deliver(&mut server, &again, client(2));
    assert_eq!(&out[0].1[26..28], &[4, 86]);
    server.advance_to(45_000 * MS);
    server.cleanup_at(0);
    allocate(&mut server, 2, [2; 12]);
}

#[test]
fn an_orphaned_sender_is_removed() {
    let mut server = open_server();
    allocate(&mut server, 1, [1; 12]);
    // The check permits the relay for its sender; then media goes nowhere.
    deliver(&mut server, &check("bob", "alice"), client(1));
    let rtp = vec![0x80, 96, 0, 1, 0, 0, 0, 0, 0, 0, 0, 9];
    assert!(deliver(&mut server, &rtp, client(1)).is_empty());
    // Traffic from the client, but nobody to relay to.
    server.advance_to(40_000 * MS);
    deliver(&mut server, &check("bob", "alice"), client(1));
    server.advance_to(45_000 * MS);
    server.cleanup_at(0);
    // Gone: a Binding request is answered as a stranger's.
    let out = deliver(&mut server, &check("bob", "alice"), client(1));
    assert_eq!(&out[0].1[0..2], &[0x01, 0x01]);
}

#[test]
fn packets_of_strangers_are_dropped() {
    let mut server = open_server();
    assert!(deliver(&mut server, &[22, 0xfe, 0xfd, 0], client(1)).is_empty());
    assert!(deliver(&mut server, &[0x40, 0, 0, 1, 5], client(1)).is_empty());
    assert!(deliver(&mut server, &[], client(1)).is_empty());
    assert!(server.handle_packet(&[250], client(1)).is_empty());
    server.tick();
    server.cleanup();
}

#[test]
fn a_datagram_for_many_is_sent_to_each() {
    let e = Effect::Send { to: vec![client(1), client(2)], datagram: Datagram::Raw(vec![1]) };
    let mut server = open_server();
    server.apply(&e);
    assert!(matches!(e, Effect::Send { to, .. } if to.len() == 2));
}
