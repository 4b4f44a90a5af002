use std::sync::Arc;
use uturn::coarse_time::{init, CoarseClock};
use uturn::demux::{StunClass, StunInfo, StunMethod};
use uturn::lookup::{AllocationTable, RateLimiter};
use uturn::net::{IpAddr, SocketAddr};
use uturn::relay::{Datagram, Effect};
use uturn::turn::handler::{is_forbidden_peer_addr, is_forbidden_peer_ip};
use uturn::turn::rules::Draw;
use uturn::turn::{TurnAuth, TurnError, TurnErrorCode, TurnHandler};
use uturn::Config;

fn v6(segments: [u16; 8]) -> IpAddr {
    let mut ip: u128 = 0;
    for s in segments {
        ip = ip << 16 | s as u128;
    }
    IpAddr::V6(ip)
}

fn mapped(a: u8, b: u8, c: u8, d: u8) -> IpAddr {
    let low = u32::from_be_bytes([a, b, c, d]);
    v6([0, 0, 0, 0, 0, 0xffff, (low >> 16) as u16, low as u16])
}

#[test]
fn forbidden_ipv4_loopback() {
    assert!(is_forbidden_peer_ip(IpAddr::v4(127, 0, 0, 1)));
    assert!(is_forbidden_peer_ip(IpAddr::v4(127, 0, 0, 2)));
    assert!(is_forbidden_peer_ip(IpAddr::v4(127, 255, 255, 254)));
}

#[test]
fn forbidden_ipv4_multicast_and_broadcast() {
    assert!(is_forbidden_peer_ip(IpAddr::v4(224, 0, 0, 1)));
    assert!(is_forbidden_peer_ip(IpAddr::v4(239, 255, 255, 255)));
    assert!(is_forbidden_peer_ip(IpAddr::v4(255, 255, 255, 255)));
}

#[test]
fn forbidden_ipv4_unspecified() {
    assert!(is_forbidden_peer_ip(IpAddr::v4(0, 0, 0, 0)));
}

#[test]
fn forbidden_ipv4_link_local_covers_cloud_metadata() {
    // AWS/GCE/Azure instance metadata: 169.254.169.254
    assert!(is_forbidden_peer_ip(IpAddr::v4(169, 254, 169, 254)));
    assert!(is_forbidden_peer_ip(IpAddr::v4(169, 254, 0, 1)));
}

#[test]
fn forbidden_ipv6_loopback_and_multicast_and_unspecified() {
    assert!(is_forbidden_peer_ip(v6([0, 0, 0, 0, 0, 0, 0, 1])));
    assert!(is_forbidden_peer_ip(v6([0xff02, 0, 0, 0, 0, 0, 0, 1])));
    assert!(is_forbidden_peer_ip(v6([0, 0, 0, 0, 0, 0, 0, 0])));
}

#[test]
fn forbidden_ipv4_mapped_ipv6_judged_by_ipv4_rules() {
    assert!(is_forbidden_peer_ip(mapped(127, 0, 0, 1)));
    assert!(is_forbidden_peer_ip(mapped(169, 254, 169, 254)));
    assert!(is_forbidden_peer_ip(mapped(224, 0, 0, 1)));
    assert!(is_forbidden_peer_ip(mapped(0, 0, 0, 0)));
    // Mapped global unicast stays allowed.
    assert!(!is_forbidden_peer_ip(mapped(203, 0, 113, 5)));
}

#[test]
fn forbidden_ipv6_unicast_link_local() {
    assert!(is_forbidden_peer_ip(v6([0xfe80, 0, 0, 0, 0, 0, 0, 1])));
    assert!(is_forbidden_peer_ip(v6([0xfebf, 0, 0, 0, 0, 0, 0, 1])));
    // fec0::/10 (deprecated site-local) is not link-local.
    assert!(!is_forbidden_peer_ip(v6([0xfec0, 0, 0, 0, 0, 0, 0, 1])));
}

#[test]
fn forbidden_peer_addr_blocks_own_external_ip_on_other_ports() {
    let cfg = Config::new(IpAddr::v4(203, 0, 113, 10)).with_port(3478);
    let own = |port: u16| SocketAddr::new(IpAddr::v4(203, 0, 113, 10), port);
    // Relay address itself is the legitimate single-port target.
    assert!(!is_forbidden_peer_addr(&cfg, own(3478)));
    // Any other port on the relay host is refused.
    assert!(is_forbidden_peer_addr(&cfg, own(53)));
    assert!(is_forbidden_peer_addr(&cfg, own(3479)));
    // IP-level rules still apply.
    assert!(is_forbidden_peer_addr(
        &cfg,
        SocketAddr::new(IpAddr::v4(127, 0, 0, 1), 3478)
    ));
    // Unrelated hosts are fine on any port.
    assert!(!is_forbidden_peer_addr(
        &cfg,
        SocketAddr::new(IpAddr::v4(203, 0, 113, 11), 53)
    ));
}

#[test]
fn allowed_global_unicast_not_forbidden() {
    assert!(!is_forbidden_peer_ip(IpAddr::v4(8, 8, 8, 8)));
    assert!(!is_forbidden_peer_ip(IpAddr::v4(203, 0, 113, 5))); // TEST-NET-3
    assert!(!is_forbidden_peer_ip(v6([0x2001, 0xdb8, 0, 0, 0, 0, 0, 1])));
}

#[test]
fn private_networks_not_forbidden_by_default() {
    // Policy call: private ranges are common in legit on-prem/lab
    // deployments. is_forbidden_peer_ip intentionally allows them.
    assert!(!is_forbidden_peer_ip(IpAddr::v4(10, 0, 0, 1)));
    assert!(!is_forbidden_peer_ip(IpAddr::v4(192, 168, 1, 1)));
    assert!(!is_forbidden_peer_ip(IpAddr::v4(172, 16, 0, 1)));
    // CGNAT and IPv6 ULA are likewise allowed by default.
    assert!(!is_forbidden_peer_ip(IpAddr::v4(100, 64, 0, 1)));
    assert!(!is_forbidden_peer_ip(v6([0xfc00, 0, 0, 0, 0, 0, 0, 1])));
}

// ---- helpers for the handler-level tests below -----------------------------

const RELAY_PORT: u16 = 3478;
const NOW: u64 = 1_700_000_000;

fn relay_ip() -> IpAddr {
    IpAddr::v4(203, 0, 113, 10)
}

fn relay() -> SocketAddr {
    SocketAddr::new(relay_ip(), RELAY_PORT)
}

fn local(port: u16) -> SocketAddr {
    SocketAddr::new(IpAddr::v4(127, 0, 0, 1), port)
}

fn draw() -> Draw {
    Draw { unix_secs: NOW, limiter_ns: 0, seed: [5; 12] }
}

/// Handler over an anonymous (no credentials) config, so the tests exercise
/// the request logic rather than the authentication path.
fn handler() -> (TurnHandler, AllocationTable, RateLimiter, CoarseClock) {
    let config = Arc::new(Config::new(relay_ip()).with_port(RELAY_PORT));
    let mut clock = init();
    clock.advance_to(0);
    (
        TurnHandler::new(config),
        AllocationTable::new(),
        RateLimiter::new(120, 100),
        clock,
    )
}

/// Minimal parsed request. Attributes are set by the caller; only `raw`'s
/// message type and transaction id matter for building a response.
fn request(method: StunMethod, msg_type: u16) -> StunInfo {
    let transaction_id = [7u8; 12];
    let mut raw = Vec::with_capacity(20);
    raw.extend_from_slice(&msg_type.to_be_bytes());
    raw.extend_from_slice(&[0x00, 0x00]);
    raw.extend_from_slice(&[0x21, 0x12, 0xa4, 0x42]);
    raw.extend_from_slice(&transaction_id);
    StunInfo {
        class: StunClass::Request,
        method,
        transaction_id,
        username: None,
        xor_peer_addresses: Vec::new(),
        channel_number: None,
        lifetime: None,
        data: None,
        realm: None,
        nonce: None,
        message_integrity: None,
        message_integrity_offset: None,
        requested_transport: None,
        raw,
    }
}

/// The one datagram that answers a request.
fn answer(effects: &[Effect], to: SocketAddr) -> Vec<u8> {
    assert_eq!(effects.len(), 1);
    match &effects[0] {
        Effect::Send { to: addrs, datagram: Datagram::Raw(bytes) } => {
            assert_eq!(*addrs, vec![to]);
            bytes.clone()
        }
        other => panic!("no response sent: {:?}", other),
    }
}

// ---- error responses --------------------------------------------------------

#[test]
fn signed_error_response_carries_verifiable_message_integrity() {
    // RFC 5389 §10.2.3: a client that authenticated discards an error
    // response without MESSAGE-INTEGRITY (except 400/401/438), so a 437 has
    // to be signed or the client just retransmits until it times out.
    let (h, _, _, _) = handler();
    let msg = request(StunMethod::Allocate, 0x0003);
    let key = TurnAuth::compute_key("user", "uturn", "pass");

    let resp = h.build_signed_error_response(&msg, TurnErrorCode::AllocationMismatch, Some(&key));

    // Header length covers everything after the 20-byte header.
    let declared = u16::from_be_bytes([resp[2], resp[3]]) as usize;
    assert_eq!(declared, resp.len() - 20);

    // MESSAGE-INTEGRITY is the trailing 24-byte attribute (4 + 20).
    let mi_start = resp.len() - 24;
    assert_eq!(&resp[mi_start..mi_start + 2], &[0x00, 0x08]);
    assert_eq!(&resp[mi_start + 2..mi_start + 4], &[0x00, 0x14]);
    assert!(TurnAuth::verify_message_integrity(
        &resp[..mi_start],
        &resp[mi_start + 4..],
        &key
    ));

    // ERROR-CODE still says 437.
    assert_eq!(&resp[20..22], &[0x00, 0x09]);
    assert_eq!(resp[24 + 2], 4);
    assert_eq!(resp[24 + 3], 37);
}

#[test]
fn unsigned_error_response_has_no_message_integrity() {
    let (h, _, _, _) = handler();
    let msg = request(StunMethod::Allocate, 0x0003);
    let resp = h.build_error_response(&msg, TurnErrorCode::AllocationMismatch);
    let declared = u16::from_be_bytes([resp[2], resp[3]]) as usize;
    assert_eq!(declared, resp.len() - 20);

    // Same message, 24 bytes shorter than the signed one, and its trailing
    // attribute is the ERROR-CODE rather than a MESSAGE-INTEGRITY.
    let key = TurnAuth::compute_key("user", "uturn", "pass");
    let signed = h.build_signed_error_response(&msg, TurnErrorCode::AllocationMismatch, Some(&key));
    assert_eq!(signed.len(), resp.len() + 24);
    assert_eq!(&resp[20..22], &[0x00, 0x09]);
    let attr_len = u16::from_be_bytes([resp[22], resp[23]]) as usize;
    assert_eq!(resp.len(), 20 + 4 + attr_len.div_ceil(4) * 4);
}

// ---- ChannelBind ------------------------------------------------------------

#[test]
fn channel_bind_conflict_installs_no_permission() {
    // RFC 5766 §11.2: an error response must leave the allocation unchanged.
    let (h, mut table, _, clock) = handler();
    let client = local(40001);
    let id = table.create(client, "u".to_string(), 600, &clock);

    let peer_a = SocketAddr::new(IpAddr::v4(203, 0, 113, 20), 5000);
    let peer_b = SocketAddr::new(IpAddr::v4(203, 0, 113, 21), 5000);

    let mut bind = request(StunMethod::ChannelBind, 0x0009);
    bind.channel_number = Some(0x4000);
    bind.xor_peer_addresses = vec![peer_a];
    h.handle_channel_bind(&bind, client, NOW, &mut table, &clock);

    let alloc = table.get(id).unwrap();
    assert_eq!(alloc.peer_for_channel(0x4000), Some(peer_a));
    assert_eq!(alloc.permissions_count(), 1);
    drop(alloc);

    // Same channel, different peer -> 400, and no trace of peer_b.
    bind.xor_peer_addresses = vec![peer_b];
    let effects = h.handle_channel_bind(&bind, client, NOW, &mut table, &clock);
    assert_eq!(error_code(&answer(&effects, client)), (4, 0));

    let alloc = table.get(id).unwrap();
    assert_eq!(alloc.peer_for_channel(0x4000), Some(peer_a));
    assert_eq!(alloc.channel_for_peer(peer_b), None);
    assert!(!alloc.is_permitted(peer_b.ip));
    assert_eq!(alloc.permissions_count(), 1);
}

#[test]
fn channel_bind_refresh_of_same_pair_is_idempotent() {
    let (h, mut table, _, clock) = handler();
    let client = local(40002);
    let id = table.create(client, "u".to_string(), 600, &clock);

    let peer = SocketAddr::new(IpAddr::v4(203, 0, 113, 20), 5000);
    let mut bind = request(StunMethod::ChannelBind, 0x0009);
    bind.channel_number = Some(0x4000);
    bind.xor_peer_addresses = vec![peer];

    h.handle_channel_bind(&bind, client, NOW, &mut table, &clock);
    h.handle_channel_bind(&bind, client, NOW, &mut table, &clock);

    let alloc = table.get(id).unwrap();
    assert_eq!(alloc.peer_for_channel(0x4000), Some(peer));
    assert_eq!(alloc.channels_count(), 1);
    assert_eq!(alloc.permissions_count(), 1);
}

// ---- authenticated requests -------------------------------------------------

const USER: &str = "user";
const PASS: &str = "pass";

/// Handler with one static credential configured, plus the key that user
/// signs with. Responses to its requests must carry MESSAGE-INTEGRITY.
fn auth_handler() -> (TurnHandler, AllocationTable, RateLimiter, CoarseClock, Arc<Config>, [u8; 16]) {
    let config = Arc::new(
        Config::new(relay_ip())
            .with_port(RELAY_PORT)
            .with_credential(USER, PASS),
    );
    let key = TurnAuth::compute_key(USER, &config.realm, PASS);
    let mut clock = init();
    clock.advance_to(0);
    (
        TurnHandler::new(Arc::clone(&config)),
        AllocationTable::new(),
        RateLimiter::new(120, 100),
        clock,
        config,
        key,
    )
}

/// Add the credential attributes and a MESSAGE-INTEGRITY over `raw`, the way
/// a client would. `raw` holds only the header, which is all the server
/// hashes here; the parsed attributes are set as fields.
fn sign(mut msg: StunInfo, config: &Config, key: &[u8; 16]) -> StunInfo {
    msg.username = Some(USER.to_string());
    msg.realm = Some(config.realm.clone());
    msg.nonce = Some(TurnAuth::signed_nonce_at(NOW, &config.nonce_secret));

    let offset = msg.raw.len();
    let hashed_len = (offset - 20 + 24) as u16;
    msg.raw[2..4].copy_from_slice(&hashed_len.to_be_bytes());
    let mi = TurnAuth::compute_message_integrity(&msg.raw, key);
    msg.raw.extend_from_slice(&[0x00, 0x08, 0x00, 0x14]);
    msg.raw.extend_from_slice(&mi);
    msg.message_integrity = Some(mi.to_vec());
    msg.message_integrity_offset = Some(offset);
    msg
}

fn error_code(resp: &[u8]) -> (u8, u8) {
    assert_eq!(
        &resp[20..22],
        &[0x00, 0x09],
        "first attribute is ERROR-CODE"
    );
    (resp[26], resp[27])
}

fn assert_signed_with(resp: &[u8], key: &[u8; 16]) {
    let mi_start = resp.len() - 24;
    assert_eq!(
        &resp[mi_start..mi_start + 4],
        &[0x00, 0x08, 0x00, 0x14],
        "response ends in a MESSAGE-INTEGRITY attribute"
    );
    assert!(
        TurnAuth::verify_message_integrity(&resp[..mi_start], &resp[mi_start + 4..], key),
        "MESSAGE-INTEGRITY verifies"
    );
}

#[test]
fn refresh_without_allocation_returns_signed_437() {
    // Unsigned, an authenticated client discards it (RFC 5389 §10.2.3) and
    // retransmits instead of reallocating - which is why authentication runs
    // before the lookup.
    let (h, mut table, mut limiter, clock, config, key) = auth_handler();
    let client = local(50000);

    let msg = sign(request(StunMethod::Refresh, 0x0004), &config, &key);
    let effects = h.handle_refresh(&msg, client, NOW, &mut table, &mut limiter, &clock);

    let resp = answer(&effects, client);
    assert_eq!(&resp[0..2], &[0x01, 0x14], "Refresh error response");
    assert_eq!(error_code(&resp), (4, 37));
    assert_signed_with(&resp, &key);
}

#[test]
fn channel_bind_forbidden_peer_returns_signed_403() {
    let (h, mut table, _, clock, config, key) = auth_handler();
    let client = local(50000);
    table.create(client, USER.to_string(), 600, &clock);

    let mut bind = request(StunMethod::ChannelBind, 0x0009);
    bind.channel_number = Some(0x4000);
    bind.xor_peer_addresses = vec![local(1234)];
    let bind = sign(bind, &config, &key);
    let effects = h.handle_channel_bind(&bind, client, NOW, &mut table, &clock);

    let resp = answer(&effects, client);
    assert_eq!(error_code(&resp), (4, 3));
    assert_signed_with(&resp, &key);
}

#[test]
fn create_permission_forbidden_peer_returns_signed_403() {
    let (h, mut table, _, clock, config, key) = auth_handler();
    let client = local(50000);
    table.create(client, USER.to_string(), 600, &clock);

    let mut perm = request(StunMethod::CreatePermission, 0x0008);
    perm.xor_peer_addresses = vec![SocketAddr::new(IpAddr::v4(169, 254, 169, 254), 80)];
    let perm = sign(perm, &config, &key);
    let effects = h.handle_create_permission(&perm, client, NOW, &mut table, &clock);

    let resp = answer(&effects, client);
    assert_eq!(error_code(&resp), (4, 3));
    assert_signed_with(&resp, &key);
}

#[test]
fn request_for_another_users_allocation_is_rejected() {
    // RFC 5766 §10.1: post-Allocate requests carry the same credentials as
    // the Allocate did. Moving auth ahead of the lookup must not lose that.
    let (h, mut table, mut limiter, clock, config, key) = auth_handler();
    let client = local(50000);
    table.create(client, "someone-else".to_string(), 600, &clock);

    let msg = sign(request(StunMethod::Refresh, 0x0004), &config, &key);
    let effects = h.handle_refresh(&msg, client, NOW, &mut table, &mut limiter, &clock);

    let resp = answer(&effects, client);
    assert_eq!(error_code(&resp), (4, 1), "401 Unauthorized");
}

// ---- Allocate over a lapsed allocation --------------------------------------

#[test]
fn allocate_over_expired_allocation_starts_fresh() {
    // A client that lets its allocation lapse and reconnects usually finds the
    // dead entry still in the table. 437 there would lock it out of the port
    // until the reaper catches up.
    let (h, mut table, mut limiter, mut clock) = handler();
    let client = local(50000);

    // Allocate with a zero lifetime, then step past the expiry.
    let dead = table.create(client, "u".to_string(), 0, &clock);
    clock.advance_to(20_000_000);
    assert!(table.get(dead).unwrap().is_expired(&clock));

    let mut alloc = request(StunMethod::Allocate, 0x0003);
    alloc.requested_transport = Some(17);
    let effects = h.handle_allocate(&alloc, client, &draw(), &mut table, &mut limiter, &clock);

    let resp = answer(&effects, client);
    assert_eq!(&resp[0..2], &[0x01, 0x03], "Allocate success response");
    assert!(table.get(dead).is_none(), "the lapsed allocation is gone");
    let fresh = table.get_by_client(client).expect("a new allocation");
    assert!(!fresh.is_expired(&clock));
}

#[test]
fn allocate_with_new_transaction_id_over_live_allocation_is_437() {
    let (h, mut table, mut limiter, clock) = handler();
    let client = local(50000);
    table.create_or_get(client, "u".to_string(), 600, [1u8; 12], &clock);

    let mut alloc = request(StunMethod::Allocate, 0x0003);
    alloc.requested_transport = Some(17);
    let effects = h.handle_allocate(&alloc, client, &draw(), &mut table, &mut limiter, &clock);

    assert_eq!(error_code(&answer(&effects, client)), (4, 37));
}

// ---- Send indication --------------------------------------------------------

#[test]
fn send_indication_without_target_does_not_arm_orphan_timer() {
    // Internal routing runs during ICE, before a peer exists. Arming the
    // orphan-sender timer here would have cleanup_orphaned_senders reap the
    // allocation of whoever joins the call first, 45s later, while it is
    // still actively sending and refreshing.
    let (h, mut table, _, clock) = handler();
    let client = local(40003);
    let id = table.create(client, "u".to_string(), 600, &clock);
    table.add_permission(id, relay_ip());

    let mut send = request(StunMethod::Send, 0x0006);
    send.class = StunClass::Indication;
    send.xor_peer_addresses = vec![relay()];
    // Not a STUN message, so the ICE-ufrag routing branch is skipped.
    send.data = Some(vec![0xde, 0xad, 0xbe, 0xef]);

    for effect in h.handle_send(&send, client, &mut table) {
        assert!(!matches!(effect, Effect::Send { .. }));
        table.apply(&effect, &clock);
    }

    let alloc = table.get(id).unwrap();
    // A zero timeout would report any armed timer as orphaned.
    assert!(!alloc.is_orphaned_sender(&clock, 0));
}

// ---- more on requests -------------------------------------------------------

#[test]
fn first_contact_is_challenged() {
    let (h, mut table, mut limiter, clock, config, _) = auth_handler();
    let client = local(50000);
    let alloc = request(StunMethod::Allocate, 0x0003);
    let effects = h.handle_allocate(&alloc, client, &draw(), &mut table, &mut limiter, &clock);
    let resp = answer(&effects, client);
    assert_eq!(error_code(&resp), (4, 1));
    assert!(!table.is_client(client));
    let info = StunInfo::parse(&resp).unwrap();
    assert_eq!(info.class, StunClass::ErrorResponse);
    assert_eq!(info.method, StunMethod::Allocate);
    assert_eq!(info.transaction_id, [7; 12]);
    assert_eq!(info.realm, Some("uturn".to_string()));
    assert_eq!(
        info.nonce,
        Some(TurnAuth::signed_nonce_at(NOW, &config.nonce_secret))
    );
    assert_eq!(info.message_integrity, None);
}

#[test]
fn credentials_are_checked_one_by_one() {
    let (h, _, _, _, config, key) = auth_handler();
    let code = |msg: &StunInfo| match h.verify_long_term_credentials(msg, NOW) {
        Ok((user, _)) => panic!("accepted as {}", user),
        Err(resp) => error_code(&resp),
    };
    let good = || sign(request(StunMethod::Refresh, 0x0004), &config, &key);
    match h.verify_long_term_credentials(&good(), NOW) {
        Ok((user, k)) => {
            assert_eq!(user, USER);
            assert_eq!(k, key);
        }
        Err(_) => panic!("refused"),
    }

    let mut msg = good();
    msg.username = None;
    assert_eq!(code(&msg), (4, 0));
    let mut msg = good();
    msg.username = Some("stranger".to_string());
    assert_eq!(code(&msg), (4, 1));
    let mut msg = good();
    msg.nonce = None;
    assert_eq!(code(&msg), (4, 0));
    let mut msg = good();
    msg.nonce = Some(TurnAuth::signed_nonce_at(NOW - 3600, &config.nonce_secret));
    assert_eq!(code(&msg), (4, 38));
    let mut msg = good();
    msg.nonce = Some(TurnAuth::signed_nonce_at(NOW, &[0; 16]));
    assert_eq!(code(&msg), (4, 38));
    let mut msg = good();
    msg.realm = Some("elsewhere".to_string());
    assert_eq!(code(&msg), (4, 1));
    let mut msg = good();
    msg.realm = None;
    assert_eq!(code(&msg), (4, 1));
    let mut msg = good();
    msg.message_integrity_offset = None;
    assert_eq!(code(&msg), (4, 0));
    let mut msg = good();
    msg.message_integrity = Some(vec![0; 20]);
    assert_eq!(code(&msg), (4, 1));
    let mut msg = good();
    msg.message_integrity = None;
    assert_eq!(code(&msg), (4, 1));
}

#[test]
fn allocate_answers_with_relay_mapped_address_and_lifetime() {
    let (h, mut table, mut limiter, clock) = handler();
    let client = SocketAddr::new(IpAddr::v4(192, 0, 2, 1), 32853);
    let alloc = request(StunMethod::Allocate, 0x0003);
    let effects = h.handle_allocate(&alloc, client, &draw(), &mut table, &mut limiter, &clock);
    let resp = answer(&effects, client);
    let mut expected = vec![0x01, 0x03, 0x00, 0x20, 0x21, 0x12, 0xa4, 0x42];
    expected.extend_from_slice(&[7; 12]);
    // 203.0.113.10:3478
    expected.extend_from_slice(&[0, 0x16, 0, 8, 0, 1, 0x2c, 0x84, 0xea, 0x12, 0xd5, 0x48]);
    // 192.0.2.1:32853
    expected.extend_from_slice(&[0, 0x20, 0, 8, 0, 1, 0xa1, 0x47, 0xe1, 0x12, 0xa6, 0x43]);
    expected.extend_from_slice(&[0, 0x0d, 0, 4, 0, 0, 0, 60]);
    assert_eq!(resp, expected);
    assert_eq!(limiter.allocation_count(client.ip), 1);
    assert_eq!(table.get_by_client(client).unwrap().username(), "anonymous");

    // A retransmission gets the same answer and changes nothing.
    let effects = h.handle_allocate(&alloc, client, &draw(), &mut table, &mut limiter, &clock);
    assert_eq!(answer(&effects, client), expected);
    assert_eq!(limiter.allocation_count(client.ip), 1);
}

#[test]
fn allocate_is_limited() {
    let (h, mut table, _, clock) = handler();
    let mut limiter = RateLimiter::new(2, 1);
    let mut alloc = request(StunMethod::Allocate, 0x0003);
    alloc.requested_transport = Some(6);
    let effects = h.handle_allocate(&alloc, local(1), &draw(), &mut table, &mut limiter, &clock);
    assert_eq!(error_code(&answer(&effects, local(1))), (4, 42));

    alloc.requested_transport = None;
    let effects = h.handle_allocate(&alloc, local(1), &draw(), &mut table, &mut limiter, &clock);
    assert_eq!(&answer(&effects, local(1))[0..2], &[0x01, 0x03]);
    let effects = h.handle_allocate(&alloc, local(2), &draw(), &mut table, &mut limiter, &clock);
    assert_eq!(error_code(&answer(&effects, local(2))), (4, 86));

    let mut limiter = RateLimiter::new(1, 0);
    h.handle_allocate(&alloc, local(3), &draw(), &mut table, &mut limiter, &clock);
    let effects = h.handle_allocate(&alloc, local(4), &draw(), &mut table, &mut limiter, &clock);
    assert_eq!(error_code(&answer(&effects, local(4))), (5, 8));
}

#[test]
fn refresh_extends_within_bounds_or_deletes() {
    let (h, mut table, mut limiter, clock) = handler();
    let client = local(50000);
    let id = table.create(client, "u".to_string(), 60, &clock);
    limiter.record_allocation(client.ip);
    let mut refresh = request(StunMethod::Refresh, 0x0004);
    for (asked, granted) in [(None, 60u8), (Some(5), 10), (Some(30), 30), (Some(600), 60)] {
        refresh.lifetime = asked;
        let effects = h.handle_refresh(&refresh, client, NOW, &mut table, &mut limiter, &clock);
        let resp = answer(&effects, client);
        assert_eq!(&resp[0..4], &[0x01, 0x04, 0x00, 0x08]);
        assert_eq!(&resp[20..], &[0, 0x0d, 0, 4, 0, 0, 0, granted]);
        assert_eq!(table.get(id).unwrap().remaining_lifetime(&clock), granted as u32);
    }
    refresh.lifetime = Some(0);
    let effects = h.handle_refresh(&refresh, client, NOW, &mut table, &mut limiter, &clock);
    assert_eq!(&answer(&effects, client)[20..], &[0, 0x0d, 0, 4, 0, 0, 0, 0]);
    assert!(table.get(id).is_none());
    assert_eq!(limiter.allocation_count(client.ip), 0);
}

#[test]
fn create_permission_is_all_or_nothing() {
    let (h, mut table, _, clock) = handler();
    let client = local(50000);
    let id = table.create(client, "u".to_string(), 60, &clock);
    let mut perm = request(StunMethod::CreatePermission, 0x0008);
    let effects = h.handle_create_permission(&perm, client, NOW, &mut table, &clock);
    assert_eq!(error_code(&answer(&effects, client)), (4, 0));

    let good = SocketAddr::new(IpAddr::v4(203, 0, 113, 20), 1);
    perm.xor_peer_addresses = vec![good, local(1)];
    let effects = h.handle_create_permission(&perm, client, NOW, &mut table, &clock);
    assert_eq!(error_code(&answer(&effects, client)), (4, 3));
    assert_eq!(table.get(id).unwrap().permissions_count(), 0);

    perm.xor_peer_addresses = vec![good];
    let effects = h.handle_create_permission(&perm, client, NOW, &mut table, &clock);
    assert_eq!(&answer(&effects, client)[0..4], &[0x01, 0x08, 0x00, 0x00]);
    assert!(table.get(id).unwrap().is_permitted(good.ip));

    // More than an allocation may hold.
    perm.xor_peer_addresses = (0..64)
        .map(|i| SocketAddr::new(IpAddr::v4(198, 51, 100, i), 1))
        .collect();
    let effects = h.handle_create_permission(&perm, client, NOW, &mut table, &clock);
    assert_eq!(error_code(&answer(&effects, client)), (5, 8));
    assert_eq!(table.get(id).unwrap().permissions_count(), 1);
}

#[test]
fn a_peer_named_twice_counts_once() {
    let (_, mut table, _, clock) = handler();
    let mut config = Config::new(relay_ip()).with_port(RELAY_PORT);
    config.max_permissions_per_alloc = 1;
    let h = TurnHandler::new(Arc::new(config));
    let client = local(50000);
    let id = table.create(client, "u".to_string(), 60, &clock);
    let peer = |port: u16| SocketAddr::new(IpAddr::v4(203, 0, 113, 20), port);
    let mut perm = request(StunMethod::CreatePermission, 0x0008);
    perm.xor_peer_addresses = vec![peer(1), peer(2)];
    let effects = h.handle_create_permission(&perm, client, NOW, &mut table, &clock);
    assert_eq!(&answer(&effects, client)[0..4], &[0x01, 0x08, 0x00, 0x00]);
    assert_eq!(table.get(id).unwrap().permissions_count(), 1);
}

#[test]
fn channel_bind_leaves_other_bindings_alone() {
    let (h, mut table, _, clock) = handler();
    let client = local(50000);
    let id = table.create(client, "u".to_string(), 60, &clock);
    let other = table.create(local(50001), "v".to_string(), 60, &clock);
    let peer = |i: u8| SocketAddr::new(IpAddr::v4(203, 0, 113, i), 5000);
    let mut bind = request(StunMethod::ChannelBind, 0x0009);
    for i in 0..4u8 {
        bind.channel_number = Some(0x4000 + i as u16);
        bind.xor_peer_addresses = vec![peer(20 + i)];
        let effects = h.handle_channel_bind(&bind, client, NOW, &mut table, &clock);
        assert_eq!(&answer(&effects, client)[0..2], &[0x01, 0x09]);
        let a = table.get(id).unwrap();
        for j in 0..4u8 {
            let bound = j <= i;
            let channel = 0x4000 + j as u16;
            assert_eq!(a.peer_for_channel(channel), if bound { Some(peer(20 + j)) } else { None });
            assert_eq!(a.channel_for_peer(peer(20 + j)), if bound { Some(channel) } else { None });
            assert_eq!(a.is_permitted(peer(20 + j).ip), bound);
        }
    }
    assert_eq!(table.get(other).unwrap().permissions_count(), 0);
    assert_eq!(table.get(other).unwrap().channels_count(), 0);
}

#[test]
fn a_lapsed_allocation_does_not_count_against_the_quota() {
    let (h, mut table, _, mut clock) = handler();
    let mut limiter = RateLimiter::new(2, 1);
    let client = local(50000);
    let mut alloc = request(StunMethod::Allocate, 0x0003);
    let effects = h.handle_allocate(&alloc, client, &draw(), &mut table, &mut limiter, &clock);
    assert_eq!(&answer(&effects, client)[0..2], &[0x01, 0x03]);
    clock.advance_to(61_000_000_000);
    alloc.transaction_id = [8; 12];
    let effects = h.handle_allocate(&alloc, client, &draw(), &mut table, &mut limiter, &clock);
    assert_eq!(&answer(&effects, client)[0..2], &[0x01, 0x03]);
    assert_eq!(limiter.allocation_count(client.ip), 1);
    assert_eq!(table.get_by_client(client).unwrap().allocate_txn_id, [8; 12]);
}

#[test]
fn channel_bind_is_limited() {
    let (_, mut table, _, clock) = handler();
    let mut config = Config::new(relay_ip()).with_port(RELAY_PORT);
    config.max_channels_per_alloc = 1;
    config.max_permissions_per_alloc = 2;
    let h = TurnHandler::new(Arc::new(config));
    let client = local(50000);
    table.create(client, "u".to_string(), 60, &clock);
    let peer = |i: u8| SocketAddr::new(IpAddr::v4(203, 0, 113, i), 5000);
    let mut bind = request(StunMethod::ChannelBind, 0x0009);
    let effects = h.handle_channel_bind(&bind, client, NOW, &mut table, &clock);
    assert_eq!(error_code(&answer(&effects, client)), (4, 0));
    bind.channel_number = Some(0x4000);
    let effects = h.handle_channel_bind(&bind, client, NOW, &mut table, &clock);
    assert_eq!(error_code(&answer(&effects, client)), (4, 0));

    bind.xor_peer_addresses = vec![peer(20)];
    let effects = h.handle_channel_bind(&bind, client, NOW, &mut table, &clock);
    assert_eq!(&answer(&effects, client)[0..4], &[0x01, 0x09, 0x00, 0x00]);
    bind.channel_number = Some(0x4001);
    bind.xor_peer_addresses = vec![peer(21)];
    let effects = h.handle_channel_bind(&bind, client, NOW, &mut table, &clock);
    assert_eq!(error_code(&answer(&effects, client)), (5, 8));
}

#[test]
fn binding_request_of_a_stranger_is_answered() {
    let (h, mut table, _, clock) = handler();
    let src = SocketAddr::new(IpAddr::V6(0x2001_0db8 << 96 | 1), 4000);
    let msg = request(StunMethod::Binding, 0x0001);
    let effects = h.handle_binding_request(&msg, src, &mut table, &clock);
    let resp = answer(&effects, src);
    assert_eq!(&resp[0..4], &[0x01, 0x01, 0x00, 0x18]);
    assert_eq!(&resp[20..28], &[0, 0x20, 0, 0x14, 0, 2, 0x2e, 0xb2]);
    assert_eq!(&resp[28..32], &[0x01, 0x13, 0xa9, 0xfa]);
    assert_eq!(resp[43], 1 ^ 7);
}

#[test]
fn unknown_messages_are_ignored() {
    let (h, mut table, mut limiter, clock) = handler();
    let mut msg = request(StunMethod::Data, 0x0017);
    msg.class = StunClass::Indication;
    let effects = h.handle_stun(&msg, local(1), &mut table, &mut limiter, &clock);
    assert!(effects.is_empty());
    let mut msg = request(StunMethod::Binding, 0x0101);
    msg.class = StunClass::SuccessResponse;
    assert!(h.handle_stun(&msg, local(1), &mut table, &mut limiter, &clock).is_empty());
}

#[test]
fn response_goes_to_those_who_permit_its_source() {
    let (h, mut table, mut limiter, clock) = handler();
    let a = table.create(local(1), "u".to_string(), 60, &clock);
    let b = table.create(local(2), "u".to_string(), 60, &clock);
    table.add_permission(a, local(0).ip);
    table.add_permission(b, local(0).ip);
    let mut msg = request(StunMethod::Binding, 0x0101);
    msg.class = StunClass::SuccessResponse;
    let effects = h.handle_stun(&msg, local(1), &mut table, &mut limiter, &clock);
    assert_eq!(effects.len(), 1);
    match &effects[0] {
        Effect::Send { to, datagram: Datagram::DataIndication { source, data } } => {
            assert_eq!(*to, vec![local(2)]);
            assert_eq!(*source, local(1));
            assert_eq!(*data, msg.raw);
        }
        other => panic!("{:?}", other),
    }
}

#[test]
fn errors_have_their_numbers_and_reasons() {
    assert_eq!(TurnErrorCode::BadRequest.code(), 400);
    assert_eq!(TurnErrorCode::Unauthorized.code(), 401);
    assert_eq!(TurnErrorCode::Forbidden.code(), 403);
    assert_eq!(TurnErrorCode::UnknownAttribute.code(), 420);
    assert_eq!(TurnErrorCode::AllocationMismatch.code(), 437);
    assert_eq!(TurnErrorCode::StaleNonce.code(), 438);
    assert_eq!(TurnErrorCode::WrongCredentials.code(), 441);
    assert_eq!(TurnErrorCode::UnsupportedTransport.code(), 442);
    assert_eq!(TurnErrorCode::AllocationQuotaReached.code(), 486);
    assert_eq!(TurnErrorCode::ServerError.code(), 500);
    assert_eq!(TurnErrorCode::InsufficientCapacity.code(), 508);
    assert_eq!(
        TurnError::new(TurnErrorCode::Forbidden).text(),
        "403 Forbidden"
    );
    assert_eq!(
        TurnError::with_message(TurnErrorCode::StaleNonce, "too old".to_string()).text(),
        "438 Stale Nonce: too old"
    );
}
