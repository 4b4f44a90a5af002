//! What the server does with STUN and TURN messages, as functions of the
//! configuration, the message, and the state of the server.

use vstd::prelude::*;

use super::auth::{hmac_sha1_of, key_of, signed_nonce, signed_nonce_is_valid};
use super::encode::{
    attribute, error_attribute, lifetime_value, message, signed, text_value, with_length,
    xor_value, ALLOCATE_SUCCESS, ATTR_XOR_MAPPED_ADDRESS, ATTR_XOR_RELAYED_ADDRESS, BINDING_SUCCESS,
    REFRESH_SUCCESS,
};
use super::message::TurnErrorCode;
use crate::bytes::u16_at;
use crate::config::Config;
use crate::demux::stun::{stun_of, StunClass, StunMethod, StunModel, ATTR_NONCE, ATTR_REALM};
use crate::lookup::model::{expiry_of, remaining_secs, AllocModel, TableModel};
use crate::lookup::rate_limit::{LimiterModel, RateLimitError};
use crate::net::{IpAddr, SocketAddr};
use crate::relay::effect::{reply, send_to, DatagramModel, EffectModel};

verus! {

/// IPv4 addresses that nothing is relayed to: loopback (127/8), multicast
/// (224/4), broadcast, unspecified and link-local (169.254/16).
pub open spec fn is_forbidden_v4(ip: u32) -> bool {
    ||| ip / 0x1000000 == 127
    ||| ip / 0x10000000 == 14
    ||| ip == 0xffffffff
    ||| ip == 0
    ||| ip / 0x10000 == 0xa9fe
}

/// IPv6 addresses that nothing is relayed to: an IPv4-mapped address is judged
/// as the IPv4 address it maps; of the others loopback, unspecified, multicast
/// (ff00::/8) and link-local (fe80::/10).
pub open spec fn is_forbidden_v6(ip: u128) -> bool {
    if ip / 0x1_0000_0000 == 0xffff {
        is_forbidden_v4((ip % 0x1_0000_0000) as u32)
    } else {
        ||| ip == 1
        ||| ip == 0
        ||| ip / 0x1_000000_0000_0000_0000_0000_0000_0000 == 0xff
        ||| ip / 0x40_0000_0000_0000_0000_0000_0000_0000 == 0x3fa
    }
}

/// Peer IPs that nothing is relayed to, whatever permissions say.
pub open spec fn is_forbidden_ip(ip: IpAddr) -> bool {
    match ip {
        IpAddr::V4(v) => is_forbidden_v4(v),
        IpAddr::V6(v) => is_forbidden_v6(v),
    }
}

/// Peer transport addresses that nothing is relayed to: those with a forbidden
/// IP, and the server's own IP on any port but the relay port.
pub open spec fn is_forbidden_addr(c: Config, addr: SocketAddr) -> bool {
    is_forbidden_ip(addr.ip) || (addr.ip == c.external_ip && addr.port != c.port)
}

/// What a request takes from outside the protocol.
pub struct Draw {
    /// The time of day, in seconds since the Unix epoch
    pub unix_secs: u64,
    /// The time since the rate limiter was created, in nanoseconds
    pub limiter_ns: u128,
    /// Random bytes for the ufrag of a new allocation
    pub seed: [u8; 12],
}

/// The table after a message, and what is to be done.
#[verifier::ext_equal]
pub struct Step {
    pub table: TableModel,
    pub effects: Seq<EffectModel>,
}

/// The table and the rate limiter after a message, and what is to be done.
#[verifier::ext_equal]
pub struct Outcome {
    pub table: TableModel,
    pub limiter: LimiterModel,
    pub effects: Seq<EffectModel>,
}

impl Step {
    /// A step that leaves the rate limiter as it is.
    pub open spec fn with(self, l: LimiterModel) -> Outcome {
        Outcome { table: self.table, limiter: l, effects: self.effects }
    }
}

/// Answering a request.
pub open spec fn answer(t: TableModel, to: SocketAddr, bytes: Seq<u8>) -> Step {
    Step { table: t, effects: reply(to, bytes) }
}

/// Answering a request, with a rate limiter that may have changed.
pub open spec fn conclude(t: TableModel, l: LimiterModel, to: SocketAddr, bytes: Seq<u8>) -> Outcome {
    Outcome { table: t, limiter: l, effects: reply(to, bytes) }
}

/// Doing nothing.
pub open spec fn ignore(t: TableModel) -> Step {
    Step { table: t, effects: Seq::empty() }
}

/// The message type of an error response to a request.
pub open spec fn error_type(m: StunModel) -> u16 {
    u16_at(m.raw, 0) | 0x0110u16
}

/// The message type of a success response to a request.
pub open spec fn success_type(m: StunModel) -> u16 {
    u16_at(m.raw, 0) | 0x0100u16
}

/// An error response, signed if there is a key.
pub open spec fn error_response(m: StunModel, error: TurnErrorCode, key: Option<Seq<u8>>) -> Seq<u8> {
    signed(error_type(m), m.transaction_id, error_attribute(error), key)
}

/// An error response that asks for authentication: it holds the realm and a
/// fresh nonce.
pub open spec fn challenge(c: Config, m: StunModel, error: TurnErrorCode, secs: u64) -> Seq<u8> {
    message(
        error_type(m),
        m.transaction_id,
        error_attribute(error) + text_value(ATTR_REALM, c.realm@) + text_value(
            ATTR_NONCE,
            signed_nonce(secs, c.nonce_secret@),
        ),
    )
}

/// The response to a Binding request: where it came from.
pub open spec fn binding_response(m: StunModel, client: SocketAddr) -> Seq<u8> {
    message(
        BINDING_SUCCESS,
        m.transaction_id,
        attribute(ATTR_XOR_MAPPED_ADDRESS, xor_value(client, m.transaction_id)),
    )
}

/// The response to an Allocate request: the relay address, where the request
/// came from, and the lifetime.
pub open spec fn allocate_response(
    c: Config,
    m: StunModel,
    client: SocketAddr,
    lifetime: u32,
    key: Option<Seq<u8>>,
) -> Seq<u8> {
    signed(
        ALLOCATE_SUCCESS,
        m.transaction_id,
        attribute(ATTR_XOR_RELAYED_ADDRESS, xor_value(c.spec_relay_addr(), m.transaction_id))
            + attribute(ATTR_XOR_MAPPED_ADDRESS, xor_value(client, m.transaction_id))
            + lifetime_value(lifetime),
        key,
    )
}

/// The response to a Refresh request: the lifetime.
pub open spec fn refresh_response(m: StunModel, lifetime: u32, key: Option<Seq<u8>>) -> Seq<u8> {
    signed(REFRESH_SUCCESS, m.transaction_id, lifetime_value(lifetime), key)
}

/// A success response without attributes of its own.
pub open spec fn success_response(m: StunModel, key: Option<Seq<u8>>) -> Seq<u8> {
    signed(success_type(m), m.transaction_id, Seq::empty(), key)
}

/// What the MESSAGE-INTEGRITY of a request covers: everything before it, with
/// a length that ends right after it.
pub open spec fn request_covered(m: StunModel, offset: int) -> Seq<u8> {
    with_length(m.raw.subrange(0, offset), offset - 20 + 24)
}

/// Checks the long-term credentials of a request: gives the user and their
/// key, or the response that refuses the request.
pub open spec fn credentials_of(c: Config, m: StunModel, secs: u64) -> Result<
    (Seq<char>, Seq<u8>),
    Seq<u8>,
> {
    let bad = Err(error_response(m, TurnErrorCode::BadRequest, None));
    let unauthorized = Err(challenge(c, m, TurnErrorCode::Unauthorized, secs));
    let stale = Err(challenge(c, m, TurnErrorCode::StaleNonce, secs));
    match (m.message_integrity, m.username) {
        (None, _) => unauthorized,
        (Some(_), None) => bad,
        (Some(code), Some(user)) => match (c.spec_password(user), m.nonce) {
            (None, _) => unauthorized,
            (Some(_), None) => bad,
            (Some(password), Some(nonce)) => {
                let key = key_of(user, c.realm@, password);
                if !signed_nonce_is_valid(nonce, c.nonce_lifetime_secs, c.nonce_secret@, secs) {
                    stale
                } else if m.realm != Some(c.realm@) {
                    unauthorized
                } else {
                    match m.message_integrity_offset {
                        None => bad,
                        Some(offset) => if code == hmac_sha1_of(
                            key,
                            request_covered(m, offset as int),
                        ) {
                            Ok((user, key))
                        } else {
                            unauthorized
                        },
                    }
                }
            },
        },
    }
}

/// Authenticates a request, if there are credentials at all.
pub open spec fn authenticate(c: Config, m: StunModel, secs: u64) -> Result<
    Option<(Seq<char>, Seq<u8>)>,
    Seq<u8>,
> {
    if c.credentials@.len() == 0 {
        Ok(None)
    } else {
        match credentials_of(c, m, secs) {
            Ok(user) => Ok(Some(user)),
            Err(response) => Err(response),
        }
    }
}

/// The key of an authenticated user.
pub open spec fn key_part(auth: Option<(Seq<char>, Seq<u8>)>) -> Option<Seq<u8>> {
    match auth {
        Some((_, key)) => Some(key),
        None => None,
    }
}

/// Authenticates a request on an existing allocation, which must belong to the
/// same user. Gives the allocation and the key that the response is signed
/// with, or the response that refuses the request.
pub open spec fn authorize(c: Config, m: StunModel, src: SocketAddr, t: TableModel, secs: u64) -> Result<
    (u64, Option<Seq<u8>>),
    Seq<u8>,
> {
    match authenticate(c, m, secs) {
        Err(response) => Err(response),
        Ok(auth) => match (t.client(src), auth) {
            (None, _) => Err(
                error_response(m, TurnErrorCode::AllocationMismatch, key_part(auth)),
            ),
            (Some(a), Some((user, _))) if a.username != user => Err(
                challenge(c, m, TurnErrorCode::Unauthorized, secs),
            ),
            (Some(a), _) => Ok((a.id, key_part(auth))),
        },
    }
}

/// The client that an ICE check for the ufrag `remote` is delivered to: the one
/// that registered this ufrag, if it is not the sender and permits the relay.
pub open spec fn ice_target(c: Config, t: TableModel, remote: Seq<char>, src: SocketAddr) -> Option<
    SocketAddr,
> {
    match t.by_ice_ufrag.get(remote) {
        Some(id) => match t.allocations.get(id) {
            Some(a) if a.client_addr != src && a.is_permitted(c.external_ip) => Some(
                a.client_addr,
            ),
            _ => None,
        },
        None => None,
    }
}

/// The table after the ufrags of a check from the client `id` were registered.
pub open spec fn learn_ufrags(t: TableModel, id: u64, pair: Option<(Seq<char>, Seq<char>)>) -> TableModel {
    match pair {
        Some((remote, local)) => t.register_ice(id, local, remote),
        None => t,
    }
}

/// Handling a Binding request. A source without an allocation is told where it
/// is seen. A client's ICE check is delivered to the client it names, or
/// dropped; its ufrags are registered and the relay is permitted.
pub open spec fn on_binding(
    c: Config,
    m: StunModel,
    src: SocketAddr,
    t: TableModel,
    now_ms: u64,
) -> Step {
    match t.client(src) {
        None => answer(t, src, binding_response(m, src)),
        Some(a) => {
            let t1 = learn_ufrags(t, a.id, m.ice_username());
            let t2 = if a.is_permitted(c.external_ip) {
                t1
            } else {
                t1.add_permission(a.id, c.external_ip)
            };
            let t3 = t2.touch_received(a.id, now_ms);
            let target = match m.ice_username() {
                Some((remote, _)) => ice_target(c, t3, remote, src),
                None => None,
            };
            Step {
                table: t3,
                effects: match target {
                    Some(addr) => seq![
                        send_to(
                            addr,
                            DatagramModel::DataIndication {
                                source: c.spec_relay_addr(),
                                data: m.raw,
                            },
                        ),
                    ],
                    None => Seq::empty(),
                },
            }
        },
    }
}

/// The addresses of the clients among `ids`, without the sender.
pub open spec fn other_clients(t: TableModel, ids: Seq<u64>, src: SocketAddr) -> Seq<SocketAddr>
    decreases ids.len(),
{
    if ids.len() == 0 {
        Seq::empty()
    } else {
        let before = other_clients(t, ids.drop_last(), src);
        match t.allocations.get(ids.last()) {
            Some(a) if a.client_addr != src => before.push(a.client_addr),
            _ => before,
        }
    }
}

/// A datagram for all addresses of a list; nothing if the list is empty.
pub open spec fn send_to_all(to: Seq<SocketAddr>, datagram: DatagramModel) -> Seq<EffectModel> {
    if to.len() == 0 {
        Seq::empty()
    } else {
        seq![EffectModel::Send { to, datagram }]
    }
}

/// Handling a STUN response: it goes to every client that permits the IP it
/// came from.
pub open spec fn on_response(m: StunModel, src: SocketAddr, t: TableModel) -> Step {
    if t.source(src) is Some {
        Step {
            table: t,
            effects: send_to_all(
                other_clients(t, t.permitting(src.ip), src),
                DatagramModel::DataIndication { source: src, data: m.raw },
            ),
        }
    } else {
        ignore(t)
    }
}

/// The user an allocation is created for: the authenticated one, or else the
/// name in the request, which is informational only.
pub open spec fn allocation_user(m: StunModel, auth: Option<(Seq<char>, Seq<u8>)>) -> Seq<char> {
    match (auth, m.username) {
        (Some((user, _)), _) => user,
        (None, Some(name)) => name,
        (None, None) => "anonymous"@,
    }
}

/// The error that a refusal by the rate limiter is answered with.
pub open spec fn limit_error(e: RateLimitError) -> TurnErrorCode {
    match e {
        RateLimitError::TooManyRequests => TurnErrorCode::InsufficientCapacity,
        RateLimitError::QuotaExceeded => TurnErrorCode::AllocationQuotaReached,
    }
}

/// Handling an authenticated Allocate request from a source without a live
/// allocation: the transport must be UDP, the rate limiter must agree, and
/// there must be an identifier left.
pub open spec fn allocate_new(
    c: Config,
    m: StunModel,
    src: SocketAddr,
    auth: Option<(Seq<char>, Seq<u8>)>,
    draw: Draw,
    t: TableModel,
    l: LimiterModel,
    now_ms: u64,
) -> Outcome {
    let key = key_part(auth);
    match m.requested_transport {
        Some(protocol) if protocol != 17 => conclude(
            t,
            l,
            src,
            error_response(m, TurnErrorCode::UnsupportedTransport, key),
        ),
        _ => {
            let l1 = l.after_check(src.ip, draw.limiter_ns);
            match l.check(src.ip, draw.limiter_ns) {
                Err(e) => conclude(t, l1, src, error_response(m, limit_error(e), key)),
                Ok(_) => if t.next_id == u64::MAX {
                    conclude(
                        t,
                        l1,
                        src,
                        error_response(m, TurnErrorCode::InsufficientCapacity, key),
                    )
                } else {
                    conclude(
                        t.create(
                            src,
                            allocation_user(m, auth),
                            60,
                            m.transaction_id,
                            draw.seed@,
                            now_ms,
                        ),
                        l1.record_allocation(src.ip),
                        src,
                        allocate_response(
                            c,
                            m,
                            src,
                            remaining_secs(expiry_of(now_ms, 60), now_ms),
                            key,
                        ),
                    )
                },
            }
        },
    }
}

/// Handling an Allocate request. A live allocation answers a retransmission
/// with its remaining lifetime and anything else with a mismatch. One that has
/// lapsed is removed first, and its quota released.
pub open spec fn on_allocate(
    c: Config,
    m: StunModel,
    src: SocketAddr,
    draw: Draw,
    t: TableModel,
    l: LimiterModel,
    now_ms: u64,
) -> Outcome {
    match authenticate(c, m, draw.unix_secs) {
        Err(response) => conclude(t, l, src, response),
        Ok(auth) => match t.client(src) {
            None => allocate_new(c, m, src, auth, draw, t, l, now_ms),
            Some(a) => if a.is_expired(now_ms) {
                allocate_new(
                    c,
                    m,
                    src,
                    auth,
                    draw,
                    t.remove(a.id),
                    l.record_deallocation(src.ip),
                    now_ms,
                )
            } else if a.allocate_txn_id == m.transaction_id {
                conclude(
                    t,
                    l,
                    src,
                    allocate_response(c, m, src, a.remaining_lifetime(now_ms), key_part(auth)),
                )
            } else {
                conclude(
                    t,
                    l,
                    src,
                    error_response(m, TurnErrorCode::AllocationMismatch, key_part(auth)),
                )
            },
        },
    }
}

/// The lifetime that is granted: the one asked for, but between 10 and 60 seconds.
pub open spec fn granted_lifetime(requested: u32) -> u32 {
    if requested < 10 {
        10
    } else if requested > 60 {
        60
    } else {
        requested
    }
}

/// Handling a Refresh request. A lifetime of 0 deletes the allocation.
pub open spec fn on_refresh(
    c: Config,
    m: StunModel,
    src: SocketAddr,
    secs: u64,
    t: TableModel,
    l: LimiterModel,
    now_ms: u64,
) -> Outcome {
    match authorize(c, m, src, t, secs) {
        Err(response) => conclude(t, l, src, response),
        Ok((id, key)) => {
            let requested = match m.lifetime {
                Some(s) => s,
                None => 60u32,
            };
            if requested == 0 {
                conclude(
                    t.remove(id),
                    l.record_deallocation(src.ip),
                    src,
                    refresh_response(m, 0, key),
                )
            } else {
                let lifetime = granted_lifetime(requested);
                conclude(
                    t.refresh(id, lifetime, now_ms).touch_received(id, now_ms),
                    l,
                    src,
                    refresh_response(m, lifetime, key),
                )
            }
        },
    }
}

/// The IPs of a list of addresses.
pub open spec fn ips_of(addrs: Seq<SocketAddr>) -> Seq<IpAddr> {
    addrs.map_values(|a: SocketAddr| a.ip)
}

/// Handling a CreatePermission request: all its peers are permitted, or none.
pub open spec fn on_create_permission(
    c: Config,
    m: StunModel,
    src: SocketAddr,
    secs: u64,
    t: TableModel,
    now_ms: u64,
) -> Step {
    let peers = m.xor_peer_addresses;
    if peers.len() == 0 {
        answer(t, src, error_response(m, TurnErrorCode::BadRequest, None))
    } else {
        match authorize(c, m, src, t, secs) {
            Err(response) => answer(t, src, response),
            Ok((id, key)) => if exists|i: int|
                0 <= i < peers.len() && #[trigger] is_forbidden_ip(peers[i].ip) {
                answer(t, src, error_response(m, TurnErrorCode::Forbidden, key))
            } else {
                let t1 = t.touch_received(id, now_ms);
                let cap = c.max_permissions_per_alloc as nat;
                if t1.fits_permissions(id, ips_of(peers), cap) {
                    answer(
                        t1.add_permissions_capped(id, ips_of(peers), cap),
                        src,
                        success_response(m, key),
                    )
                } else {
                    answer(
                        t1,
                        src,
                        error_response(m, TurnErrorCode::InsufficientCapacity, key),
                    )
                }
            },
        }
    }
}

/// Whether a channel or a peer is bound, but not the one to the other.
pub open spec fn binding_conflicts(a: AllocModel, channel: u16, peer: SocketAddr) -> bool {
    ||| (a.peer_for_channel(channel) matches Some(p) && p != peer)
    ||| (a.channel_for_peer(peer) matches Some(ch) && ch != channel)
}

/// The error that an authorized ChannelBind request is refused with, if it is.
pub open spec fn bind_error(c: Config, t: TableModel, id: u64, channel: u16, peer: SocketAddr) -> Option<
    TurnErrorCode,
> {
    let a = t.allocations[id];
    if is_forbidden_addr(c, peer) {
        Some(TurnErrorCode::Forbidden)
    } else if binding_conflicts(a, channel, peer) {
        Some(TurnErrorCode::BadRequest)
    } else if a.peer_for_channel(channel) is None && a.channels.len() >= c.max_channels_per_alloc {
        Some(TurnErrorCode::InsufficientCapacity)
    } else if !t.fits_permissions(id, seq![peer.ip], c.max_permissions_per_alloc as nat) {
        Some(TurnErrorCode::InsufficientCapacity)
    } else {
        None
    }
}

/// Handling a ChannelBind request: the channel is bound and the peer permitted,
/// or nothing is changed.
pub open spec fn on_channel_bind(
    c: Config,
    m: StunModel,
    src: SocketAddr,
    secs: u64,
    t: TableModel,
    now_ms: u64,
) -> Step {
    if m.channel_number is None || m.xor_peer_addresses.len() == 0 {
        answer(t, src, error_response(m, TurnErrorCode::BadRequest, None))
    } else {
        let channel = m.channel_number->0;
        let peer = m.xor_peer_addresses[0];
        match authorize(c, m, src, t, secs) {
            Err(response) => answer(t, src, response),
            Ok((id, key)) => match bind_error(c, t, id, channel, peer) {
                Some(error) => answer(t, src, error_response(m, error, key)),
                None => answer(
                    t.add_permissions_capped(
                        id,
                        seq![peer.ip],
                        c.max_permissions_per_alloc as nat,
                    ).bind_channel(id, channel, peer).touch_received(id, now_ms),
                    src,
                    success_response(m, key),
                ),
            },
        }
    }
}

/// The ufrags that the data of a Send indication carries, if it is an ICE check.
pub open spec fn check_ufrags(data: Seq<u8>) -> Option<(Seq<char>, Seq<char>)> {
    match stun_of(data) {
        Some(m) if m.method == StunMethod::Binding && m.class == StunClass::Request =>
            m.ice_username(),
        _ => None,
    }
}

/// The addresses of the clients among `ids` that permit the relay, without the sender.
pub open spec fn permitting_clients(c: Config, t: TableModel, ids: Seq<u64>, src: SocketAddr) -> Seq<
    SocketAddr,
>
    decreases ids.len(),
{
    if ids.len() == 0 {
        Seq::empty()
    } else {
        let before = permitting_clients(c, t, ids.drop_last(), src);
        match t.allocations.get(ids.last()) {
            Some(a) if a.client_addr != src && a.is_permitted(c.external_ip) => before.push(
                a.client_addr,
            ),
            _ => before,
        }
    }
}

/// The ICE peers of a client: the allocations that mirror its ufrags.
pub open spec fn peers_of(t: TableModel, id: u64) -> Seq<u64> {
    match t.allocations.get(id) {
        Some(a) => match (a.ice_ufrag, a.ice_remote_ufrag) {
            (Some(local), Some(remote)) => t.ice_peers(local, remote),
            _ => Seq::empty(),
        },
        None => Seq::empty(),
    }
}

/// Who data that the client `id` sends to the relay is delivered to: for an ICE
/// check the client it names, and otherwise the ICE peers of the sender.
pub open spec fn relay_targets(c: Config, t: TableModel, id: u64, src: SocketAddr, data: Seq<u8>) -> Seq<
    SocketAddr,
> {
    let named = match check_ufrags(data) {
        Some((remote, _)) => ice_target(c, t, remote, src),
        None => None,
    };
    match named {
        Some(addr) => seq![addr],
        None => permitting_clients(c, t, peers_of(t, id), src),
    }
}

/// Handling a Send indication. To the relay's own address: the data goes to
/// another client, or is dropped. To any other peer: it must be permitted; a
/// peer that is itself a client gets the data framed.
pub open spec fn on_send(
    c: Config,
    m: StunModel,
    src: SocketAddr,
    t: TableModel,
) -> Step {
    match t.client(src) {
        Some(a) if m.xor_peer_addresses.len() > 0 && m.data is Some && !is_forbidden_addr(
            c,
            m.xor_peer_addresses[0],
        ) && a.is_permitted(m.xor_peer_addresses[0].ip) => {
            let peer = m.xor_peer_addresses[0];
            let data = m.data->0;
            if peer == c.spec_relay_addr() {
                let t1 = learn_ufrags(t, a.id, check_ufrags(data));
                let targets = relay_targets(c, t1, a.id, src, data);
                Step {
                    table: t1,
                    effects: send_to_all(
                        targets,
                        DatagramModel::DataIndication { source: c.spec_relay_addr(), data },
                    ).push(
                        EffectModel::TouchReceivedFrom { client: src, relayed: targets.len() > 0 },
                    ),
                }
            } else {
                let touch = EffectModel::TouchReceivedFrom { client: src, relayed: false };
                Step {
                    table: t,
                    effects: match t.client(peer) {
                        Some(b) => seq![
                            send_to(peer, framed(b, src, data)),
                            EffectModel::Touch { id: b.id },
                            touch,
                        ],
                        None => seq![send_to(peer, DatagramModel::Raw(data)), touch],
                    },
                }
            }
        },
        _ => ignore(t),
    }
}

/// Data from `source` for the client of an allocation: in the channel that is
/// bound to the source, or else in an indication.
pub open spec fn framed(a: AllocModel, source: SocketAddr, data: Seq<u8>) -> DatagramModel {
    match a.channel_for_peer(source) {
        Some(channel) => DatagramModel::ChannelData { channel, data },
        None => DatagramModel::DataIndication { source, data },
    }
}

/// Handling a STUN message.
pub open spec fn on_stun(
    c: Config,
    m: StunModel,
    src: SocketAddr,
    draw: Draw,
    t: TableModel,
    l: LimiterModel,
    now_ms: u64,
) -> Outcome {
    let secs = draw.unix_secs;
    match (m.class, m.method) {
        (StunClass::Request, StunMethod::Binding) => on_binding(c, m, src, t, now_ms).with(l),
        (StunClass::Request, StunMethod::Allocate) => on_allocate(c, m, src, draw, t, l, now_ms),
        (StunClass::Request, StunMethod::Refresh) => on_refresh(c, m, src, secs, t, l, now_ms),
        (StunClass::Request, StunMethod::CreatePermission) => on_create_permission(
            c,
            m,
            src,
            secs,
            t,
            now_ms,
        ).with(l),
        (StunClass::Request, StunMethod::ChannelBind) => on_channel_bind(
            c,
            m,
            src,
            secs,
            t,
            now_ms,
        ).with(l),
        (StunClass::Indication, StunMethod::Send) => on_send(c, m, src, t).with(l),
        (StunClass::SuccessResponse, _) => on_response(m, src, t).with(l),
        (StunClass::ErrorResponse, _) => on_response(m, src, t).with(l),
        _ => ignore(t).with(l),
    }
}

} // verus!
