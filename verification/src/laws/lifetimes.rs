//! How allocations begin, go on and end at the request of their clients.

use vstd::prelude::*;

use super::answers::{
    answers, error_refuses, error_response_is_error, is_signed_with, refuses, request_facts,
    signed_reply,
};
use super::grants::may_act;
use super::media::is_no_client;
use super::state::{count_of_minute, requests_count_for_a_minute};
use super::terms::{attribute_at, found_at, has_attribute, is_at, is_message, is_reply};
use crate::bytes::{u32_be, u32_round_trip};
use crate::config::Config;
use crate::demux::stun::{xor_address_of, StunClass, StunMethod, StunModel};
use crate::lookup::laws::{client_is_indexed, client_is_removed, create_keeps_wf, remove_keeps_wf};
use crate::lookup::model::{ufrag_of, AllocModel, TableModel};
use crate::lookup::rate_limit::{LimiterModel, RateLimitError};
use crate::net::{IpAddr, SocketAddr};
use crate::relay::effect::{reply, EffectModel};
use crate::server::on_packet;
use crate::turn::encode::{
    attribute, lifetime_value, signed, xor_value, ALLOCATE_SUCCESS, ATTR_XOR_MAPPED_ADDRESS,
    ATTR_XOR_RELAYED_ADDRESS, REFRESH_SUCCESS,
};
use crate::turn::message::TurnErrorCode;
use crate::turn::rules::{
    allocate_new, allocate_response, authenticate, authorize, error_response, key_part, on_allocate,
    on_refresh, refresh_response, Draw,
};
use crate::turn::wire_laws::{address_round_trip, attribute_is_padded, octet_count};

verus! {

/// The four bytes denote the number.
pub open spec fn is_number(value: Seq<u8>, n: u32) -> bool {
    value.len() == 4 && value[0] * 0x1000000 + value[1] * 0x10000 + value[2] * 0x100 + value[3] == n
}

proof fn number_is_written(n: u32)
    ensures
        is_number(u32_be(n), n),
{
    u32_round_trip(n);
}

/// `bytes` is a success response to a Refresh that tells the lifetime.
pub open spec fn tells_lifetime(bytes: Seq<u8>, txn: Seq<u8>, lifetime: u32, key: Option<Seq<u8>>) -> bool {
    &&& is_reply(bytes, 0x0104, txn)
    &&& is_signed_with(bytes, key)
    &&& exists|value: Seq<u8>| #[trigger]
        has_attribute(bytes, 20, 0x000d, value) && is_number(value, lifetime)
}

/// The one answer tells the lifetime.
pub open spec fn grants_lifetime(
    effects: Seq<EffectModel>,
    to: SocketAddr,
    txn: Seq<u8>,
    lifetime: u32,
    key: Option<Seq<u8>>,
) -> bool {
    exists|bytes: Seq<u8>| #[trigger]
        answers(effects, to, bytes) && tells_lifetime(bytes, txn, lifetime, key)
}

proof fn refresh_is_told(m: StunModel, lifetime: u32, key: Option<Seq<u8>>)
    requires
        m.transaction_id.len() == 12,
    ensures
        tells_lifetime(refresh_response(m, lifetime, key), m.transaction_id, lifetime, key),
{
    let value = u32_be(lifetime);
    number_is_written(lifetime);
    attribute_is_padded(0x000D, value);
    let (h, tail) = signed_reply(REFRESH_SUCCESS, m.transaction_id, lifetime_value(lifetime), key);
    attribute_at(refresh_response(m, lifetime, key), h, 0x000D, value, tail);
}

/// `granted` is the lifetime that is asked for, as near as can be between 10 and 60
/// seconds.
pub open spec fn is_granted(requested: u32, granted: u32) -> bool {
    &&& 10 <= granted <= 60
    &&& granted < requested ==> granted == 60
    &&& granted > requested ==> granted == 10
}

/// The lifetime that is asked for: that in the message, or else a minute.
pub open spec fn requested_lifetime(m: StunModel) -> u32 {
    match m.lifetime {
        Some(requested) => requested,
        None => 60,
    }
}

/// A Refresh with a lifetime of 0 deletes the allocation: there is none at the
/// address any more, and all others are as they were. The quota of the address is
/// released, and the answer tells a lifetime of 0.
pub proof fn refresh_with_zero_deletes(
    c: Config,
    data: Seq<u8>,
    src: SocketAddr,
    draw: Draw,
    t: TableModel,
    l: LimiterModel,
    now_ms: u64,
    m: StunModel,
    id: u64,
    a: AllocModel,
    key: Option<Seq<u8>>,
)
    requires
        t.wf(),
        is_message(data, m, StunClass::Request, StunMethod::Refresh),
        is_at(t, id, a, src),
        m.lifetime == Some(0u32),
    ensures
        may_act(c, m, draw.unix_secs, a, key) ==> {
            let o = on_packet(c, data, src, draw, t, l, now_ms);
            &&& grants_lifetime(o.effects, src, data.subrange(8, 20), 0, key)
            &&& o.table.allocations == t.allocations.remove(id)
            &&& o.table.wf()
            &&& is_no_client(o.table, src)
            &&& is_released(l, o.limiter, src.ip)
        },
{
    found_at(t, id, a, src);
    if may_act(c, m, draw.unix_secs, a, key) {
        request_facts(data, m, m.method);
        let o = on_packet(c, data, src, draw, t, l, now_ms);
        assert(o == on_refresh(c, m, src, draw.unix_secs, t, l, now_ms));
        remove_keeps_wf(t, id);
        client_is_removed(t, src);
        assert forall|x: u64| #[trigger] o.table.allocations.contains_key(x) implies
            o.table.allocations[x].client_addr != src by {
            if t.allocations[x].client_addr == src {
                found_at(t, x, t.allocations[x], src);
            }
        }
        release_is_release(l, src.ip);
        refresh_is_told(m, 0, key);
        let bytes = refresh_response(m, 0, key);
        assert(o.effects == reply(src, bytes));
        assert(answers(o.effects, src, bytes));
    }
}

/// A Refresh with any other lifetime, or with none, which asks for a minute, gives
/// the allocation the lifetime that is granted, from now on. The answer tells this
/// lifetime, the client was seen, and nothing else changes.
pub proof fn refresh_extends(
    c: Config,
    data: Seq<u8>,
    src: SocketAddr,
    draw: Draw,
    t: TableModel,
    l: LimiterModel,
    now_ms: u64,
    m: StunModel,
    id: u64,
    a: AllocModel,
    key: Option<Seq<u8>>,
)
    requires
        t.wf(),
        is_message(data, m, StunClass::Request, StunMethod::Refresh),
        is_at(t, id, a, src),
        m.lifetime != Some(0u32),
        now_ms + 60_000 <= u64::MAX,
    ensures
        may_act(c, m, draw.unix_secs, a, key) ==> exists|lifetime: u32|
            {
                let o = on_packet(c, data, src, draw, t, l, now_ms);
                &&& #[trigger] is_granted(requested_lifetime(m), lifetime)
                &&& grants_lifetime(o.effects, src, data.subrange(8, 20), lifetime, key)
                &&& o.limiter == l
                &&& o.table == TableModel {
                    allocations: t.allocations.insert(
                        id,
                        AllocModel {
                            expires_at_ms: (now_ms + lifetime * 1000) as u64,
                            lifetime_secs: lifetime as u64,
                            last_activity_ms: now_ms,
                            last_received_ms: now_ms,
                            ..a
                        },
                    ),
                    ..t
                }
            },
{
    found_at(t, id, a, src);
    if may_act(c, m, draw.unix_secs, a, key) {
        request_facts(data, m, m.method);
        let o = on_packet(c, data, src, draw, t, l, now_ms);
        assert(o == on_refresh(c, m, src, draw.unix_secs, t, l, now_ms));
        let requested = requested_lifetime(m);
        let lifetime = crate::turn::rules::granted_lifetime(requested);
        assert(is_granted(requested, lifetime));
        refresh_is_told(m, lifetime, key);
        let bytes = refresh_response(m, lifetime, key);
        assert(o.effects == reply(src, bytes));
        assert(answers(o.effects, src, bytes));
        assert(o.table.allocations =~= t.allocations.insert(
            id,
            AllocModel {
                expires_at_ms: (now_ms + lifetime * 1000) as u64,
                lifetime_secs: lifetime as u64,
                last_activity_ms: now_ms,
                last_received_ms: now_ms,
                ..a
            },
        ));
    }
}

/// From `l` to `after`, one allocation of the address was released. Nothing else
/// changed.
pub open spec fn is_released(l: LimiterModel, after: LimiterModel, ip: IpAddr) -> bool {
    let k = ip.spec_key();
    &&& after.max_requests_per_minute == l.max_requests_per_minute
    &&& after.max_allocations_per_ip == l.max_allocations_per_ip
    &&& l.entries.contains_key(k) && l.entries[k].1 > 0 ==> after.entries == l.entries.insert(
        k,
        (l.entries[k].0, (l.entries[k].1 - 1) as u32),
    )
    &&& !(l.entries.contains_key(k) && l.entries[k].1 > 0) ==> after.entries == l.entries
}

proof fn release_is_release(l: LimiterModel, ip: IpAddr)
    ensures
        is_released(l, l.record_deallocation(ip), ip),
{
    assert(l.record_deallocation(ip).entries =~= if l.entries.contains_key(ip.spec_key()) {
        l.entries.insert(ip.spec_key(), l.record_deallocation(ip).entries[ip.spec_key()])
    } else {
        l.entries
    });
    if l.entries.contains_key(ip.spec_key()) && l.entries[ip.spec_key()].1 == 0 {
        assert(l.record_deallocation(ip).entries =~= l.entries);
    }
}

/// How long the value of an address attribute is.
pub open spec fn address_len(ip: IpAddr) -> int {
    match ip {
        IpAddr::V4(_) => 8,
        IpAddr::V6(_) => 20,
    }
}

/// An attribute at `at` tells the IP and the port.
pub open spec fn tells_address(bytes: Seq<u8>, at: int, kind: u16, txn: Seq<u8>, ip: IpAddr, port: u16) -> bool {
    exists|value: Seq<u8>| #[trigger]
        has_attribute(bytes, at, kind, value) && value.len() == address_len(ip) && xor_address_of(
            value,
            txn,
        ) == Some(SocketAddr { ip, port, flow_info: 0, scope_id: 0 })
}

/// `bytes` is a success response to an Allocate that tells the relay address, the
/// address of the client, and the lifetime.
pub open spec fn tells_allocation(
    c: Config,
    bytes: Seq<u8>,
    txn: Seq<u8>,
    client: SocketAddr,
    lifetime: u32,
    key: Option<Seq<u8>>,
) -> bool {
    let second = 24 + address_len(c.external_ip);
    let third = second + 4 + address_len(client.ip);
    &&& is_reply(bytes, 0x0103, txn)
    &&& is_signed_with(bytes, key)
    &&& tells_address(bytes, 20, 0x0016, txn, c.external_ip, c.port)
    &&& tells_address(bytes, second, 0x0020, txn, client.ip, client.port)
    &&& exists|value: Seq<u8>| #[trigger]
        has_attribute(bytes, third, 0x000d, value) && is_number(value, lifetime)
}

/// The one answer tells the allocation.
pub open spec fn grants_allocation(
    c: Config,
    effects: Seq<EffectModel>,
    to: SocketAddr,
    txn: Seq<u8>,
    lifetime: u32,
    key: Option<Seq<u8>>,
) -> bool {
    exists|bytes: Seq<u8>| #[trigger]
        answers(effects, to, bytes) && tells_allocation(c, bytes, txn, to, lifetime, key)
}

pub(crate) proof fn address_is_told(
    bytes: Seq<u8>,
    before: Seq<u8>,
    kind: u16,
    addr: SocketAddr,
    txn: Seq<u8>,
    after: Seq<u8>,
)
    requires
        txn.len() == 12,
        20 <= before.len(),
        before.len() % 4 == 0,
        bytes == before + attribute(kind, xor_value(addr, txn)) + after,
    ensures
        tells_address(bytes, before.len() as int, kind, txn, addr.ip, addr.port),
        attribute(kind, xor_value(addr, txn)).len() == 4 + address_len(addr.ip),
{
    let plain = SocketAddr { ip: addr.ip, port: addr.port, flow_info: 0, scope_id: 0 };
    octet_count(addr.ip);
    assert(xor_value(addr, txn) == xor_value(plain, txn));
    address_round_trip(plain, txn);
    attribute_is_padded(kind, xor_value(addr, txn));
    attribute_at(bytes, before, kind, xor_value(addr, txn), after);
}

proof fn parts_of(h: Seq<u8>, x: Seq<u8>, y: Seq<u8>, z: Seq<u8>, tail: Seq<u8>)
    ensures
        h + (x + y + z) + tail == h + x + (y + z + tail),
        h + (x + y + z) + tail == (h + x) + y + (z + tail),
        h + (x + y + z) + tail == (h + x + y) + z + tail,
{
    assert(h + (x + y + z) + tail =~= h + x + (y + z + tail));
    assert(h + (x + y + z) + tail =~= (h + x) + y + (z + tail));
    assert(h + (x + y + z) + tail =~= (h + x + y) + z + tail);
}

proof fn parts_are_told(
    bytes: Seq<u8>,
    h: Seq<u8>,
    tail: Seq<u8>,
    txn: Seq<u8>,
    relay: SocketAddr,
    client: SocketAddr,
    lifetime: u32,
)
    requires
        txn.len() == 12,
        h.len() == 20,
        bytes == h + (attribute(ATTR_XOR_RELAYED_ADDRESS, xor_value(relay, txn)) + attribute(
            ATTR_XOR_MAPPED_ADDRESS,
            xor_value(client, txn),
        ) + attribute(0x000D, u32_be(lifetime))) + tail,
    ensures
        tells_address(bytes, 20, 0x0016, txn, relay.ip, relay.port),
        tells_address(bytes, 24 + address_len(relay.ip), 0x0020, txn, client.ip, client.port),
        has_attribute(
            bytes,
            28 + address_len(relay.ip) + address_len(client.ip),
            0x000d,
            u32_be(lifetime),
        ),
{
    let x = attribute(ATTR_XOR_RELAYED_ADDRESS, xor_value(relay, txn));
    let y = attribute(ATTR_XOR_MAPPED_ADDRESS, xor_value(client, txn));
    let z = attribute(0x000D, u32_be(lifetime));
    parts_of(h, x, y, z, tail);
    address_is_told(bytes, h, ATTR_XOR_RELAYED_ADDRESS, relay, txn, y + z + tail);
    assert((h + x).len() == 24 + address_len(relay.ip));
    address_is_told(bytes, h + x, ATTR_XOR_MAPPED_ADDRESS, client, txn, z + tail);
    assert((h + x + y).len() == 28 + address_len(relay.ip) + address_len(client.ip));
    attribute_at(bytes, h + x + y, 0x000D, u32_be(lifetime), tail);
}

pub(crate) proof fn address_attribute_len(kind: u16, addr: SocketAddr, txn: Seq<u8>)
    requires
        txn.len() == 12,
    ensures
        attribute(kind, xor_value(addr, txn)).len() == 4 + address_len(addr.ip),
{
    octet_count(addr.ip);
    attribute_is_padded(kind, xor_value(addr, txn));
}

proof fn allocation_is_told(c: Config, m: StunModel, client: SocketAddr, lifetime: u32, key: Option<Seq<u8>>)
    requires
        m.transaction_id.len() == 12,
    ensures
        tells_allocation(
            c,
            allocate_response(c, m, client, lifetime, key),
            m.transaction_id,
            client,
            lifetime,
            key,
        ),
{
    let txn = m.transaction_id;
    let x = attribute(ATTR_XOR_RELAYED_ADDRESS, xor_value(c.spec_relay_addr(), txn));
    let y = attribute(ATTR_XOR_MAPPED_ADDRESS, xor_value(client, txn));
    let z = lifetime_value(lifetime);
    address_attribute_len(ATTR_XOR_RELAYED_ADDRESS, c.spec_relay_addr(), txn);
    address_attribute_len(ATTR_XOR_MAPPED_ADDRESS, client, txn);
    attribute_is_padded(0x000D, u32_be(lifetime));
    number_is_written(lifetime);
    let bytes = allocate_response(c, m, client, lifetime, key);
    let (h, tail) = signed_reply(ALLOCATE_SUCCESS, txn, x + y + z, key);
    parts_are_told(bytes, h, tail, txn, c.spec_relay_addr(), client, lifetime);
}

/// Every allocation at the address has lapsed.
pub open spec fn is_vacant(t: TableModel, addr: SocketAddr, now_ms: u64) -> bool {
    forall|x: u64| #[trigger]
        t.allocations.contains_key(x) && t.allocations[x].client_addr == addr ==> now_ms
            > t.allocations[x].expires_at_ms
}

/// The limiter as an Allocate finds it: an allocation that has lapsed at the address
/// does not count any more.
pub open spec fn limiter_found(t: TableModel, l: LimiterModel, addr: SocketAddr) -> LimiterModel {
    if is_no_client(t, addr) {
        l
    } else {
        l.record_deallocation(addr.ip)
    }
}

/// `u` has the allocations of `t` but for those at the address.
pub open spec fn is_without(t: TableModel, u: TableModel, addr: SocketAddr) -> bool {
    forall|x: u64|
        #![trigger u.allocations.contains_key(x)]
        #![trigger t.allocations.contains_key(x)]
        {
            &&& u.allocations.contains_key(x) <==> t.allocations.contains_key(x)
                && t.allocations[x].client_addr != addr
            &&& u.allocations.contains_key(x) ==> u.allocations[x] == t.allocations[x]
        }
}

proof fn allocate_begins_with(
    c: Config,
    m: StunModel,
    src: SocketAddr,
    draw: Draw,
    t: TableModel,
    l: LimiterModel,
    now_ms: u64,
    auth: Option<(Seq<char>, Seq<u8>)>,
) -> (u: TableModel)
    requires
        t.wf(),
        is_vacant(t, src, now_ms),
        authenticate(c, m, draw.unix_secs) == Ok::<Option<(Seq<char>, Seq<u8>)>, Seq<u8>>(auth),
    ensures
        u.wf(),
        is_without(t, u, src),
        u.next_id == t.next_id,
        !u.is_client(src),
        on_allocate(c, m, src, draw, t, l, now_ms) == allocate_new(
            c,
            m,
            src,
            auth,
            draw,
            u,
            limiter_found(t, l, src),
            now_ms,
        ),
{
    client_is_indexed(t, src);
    match t.client(src) {
        None => {
            assert(is_no_client(t, src)) by {
                assert forall|x: u64| #[trigger] t.allocations.contains_key(x) implies
                    t.allocations[x].client_addr != src by {
                    if t.allocations[x].client_addr == src {
                        found_at(t, x, t.allocations[x], src);
                    }
                }
            }
            t
        },
        Some(a) => {
            assert(t.allocations.contains_key(a.id));
            remove_keeps_wf(t, a.id);
            client_is_removed(t, src);
            let u = t.remove(a.id);
            assert(is_without(t, u, src)) by {
                assert forall|x: u64|
                    #![trigger u.allocations.contains_key(x)]
                    #![trigger t.allocations.contains_key(x)]
                    (u.allocations.contains_key(x) <==> t.allocations.contains_key(x)
                        && t.allocations[x].client_addr != src) by {
                    if t.allocations.contains_key(x) && t.allocations[x].client_addr == src {
                        found_at(t, x, t.allocations[x], src);
                    }
                }
            }
            u
        },
    }
}

/// An Allocate that the limits allow, from an address without a live allocation,
/// makes one. It belongs to the user who signed the request; where nobody signs, it
/// is named after the request, if that gives a name. It has no permissions and no
/// channels, and lives for a minute. The answer tells the relay's address, that of
/// the client, and the lifetime. The quota of the address counts one more, and no
/// other allocation changes.
pub proof fn allocate_is_granted(
    c: Config,
    data: Seq<u8>,
    src: SocketAddr,
    draw: Draw,
    t: TableModel,
    l: LimiterModel,
    now_ms: u64,
    m: StunModel,
)
    requires
        t.wf(),
        is_message(data, m, StunClass::Request, StunMethod::Allocate),
        is_vacant(t, src, now_ms),
        m.requested_transport is None || m.requested_transport == Some(17u8),
        t.next_id < u64::MAX,
        now_ms + 60_000 <= u64::MAX,
        limiter_found(t, l, src).check(src.ip, draw.limiter_ns) is Ok,
    ensures
        authenticate(c, m, draw.unix_secs) matches Ok(auth) ==> {
            let o = on_packet(c, data, src, draw, t, l, now_ms);
            let key = match auth {
                Some((_, k)) => Some(k),
                None => None,
            };
            let b = o.table.allocations[t.next_id];
            &&& grants_allocation(c, o.effects, src, data.subrange(8, 20), 60, key)
            &&& o.table.wf()
            &&& o.table.next_id == t.next_id + 1
            &&& is_at(o.table, t.next_id, b, src)
            &&& auth matches Some((user, _)) ==> b.username == user
            &&& auth is None && m.username is Some ==> Some(b.username) == m.username
            &&& auth is None && m.username is None ==> b.username == "anonymous"@
            &&& b == AllocModel {
                id: t.next_id,
                client_addr: src,
                local_ufrag: ufrag_of(draw.seed@),
                remote_ufrag: None,
                permissions: Set::empty(),
                channels: Map::empty(),
                channels_reverse: Map::empty(),
                known_peers: Map::empty(),
                expires_at_ms: (now_ms + 60_000) as u64,
                lifetime_secs: 60,
                last_activity_ms: now_ms,
                last_received_ms: now_ms,
                last_successful_relay_ms: 0,
                has_relay_attempt: false,
                username: b.username,
                allocate_txn_id: data.subrange(8, 20),
                paired_ufrag: None,
                ice_ufrag: None,
                ice_remote_ufrag: None,
            }
            &&& forall|x: u64|
                #![trigger o.table.allocations.contains_key(x)]
                #![trigger t.allocations.contains_key(x)]
                x != t.next_id ==> {
                    &&& o.table.allocations.contains_key(x) <==> t.allocations.contains_key(x)
                        && t.allocations[x].client_addr != src
                    &&& o.table.allocations.contains_key(x) ==> o.table.allocations[x]
                        == t.allocations[x]
                }
            &&& is_counted(limiter_found(t, l, src), o.limiter, src.ip, draw.limiter_ns)
        },
{
    if let Ok(auth) = authenticate(c, m, draw.unix_secs) {
        request_facts(data, m, m.method);
        let o = on_packet(c, data, src, draw, t, l, now_ms);
        assert(o == on_allocate(c, m, src, draw, t, l, now_ms));
        let u = allocate_begins_with(c, m, src, draw, t, l, now_ms, auth);
        let name = crate::turn::rules::allocation_user(m, auth);
        create_keeps_wf(u, src, name, 60, m.transaction_id, draw.seed@, now_ms);
        assert(o.table == u.create(src, name, 60, m.transaction_id, draw.seed@, now_ms));
        counting_counts(limiter_found(t, l, src), src.ip, draw.limiter_ns);
        allocation_is_told(c, m, src, 60, key_part(auth));
        let bytes = allocate_response(c, m, src, 60, key_part(auth));
        assert(o.effects == reply(src, bytes));
        assert(answers(o.effects, src, bytes));
    }
}

/// From `l` to `after`, an allowed request of the address was recorded with its
/// time, and one more allocation. What is known of other addresses did not change.
pub open spec fn is_counted(l: LimiterModel, after: LimiterModel, ip: IpAddr, now: u128) -> bool {
    &&& after.max_requests_per_minute == l.max_requests_per_minute
    &&& after.max_allocations_per_ip == l.max_allocations_per_ip
    &&& after.entry(ip).0.len() > 0
    &&& after.entry(ip).0.last() == now
    &&& count_of_minute(after.entry(ip).0, now) == count_of_minute(l.entry(ip).0, now) + 1
    &&& l.entry(ip).1 < u32::MAX ==> after.entry(ip).1 == l.entry(ip).1 + 1
    &&& forall|other: IpAddr| other != ip ==> #[trigger] after.entry(other) == l.entry(other)
}

/// From `l` to `after`, `requests` more requests of the address count in its last
/// minute. Its allocations, and what is known of other addresses, did not change.
pub open spec fn is_noted(l: LimiterModel, after: LimiterModel, ip: IpAddr, now: u128, requests: nat) -> bool {
    &&& after.max_requests_per_minute == l.max_requests_per_minute
    &&& after.max_allocations_per_ip == l.max_allocations_per_ip
    &&& count_of_minute(after.entry(ip).0, now) == count_of_minute(l.entry(ip).0, now) + requests
    &&& after.entry(ip).1 == l.entry(ip).1
    &&& forall|other: IpAddr| other != ip ==> #[trigger] after.entry(other) == l.entry(other)
}

proof fn request_is_noted(l: LimiterModel, ip: IpAddr, now: u128)
    ensures
        is_noted(
            l,
            l.after_check(ip, now),
            ip,
            now,
            if l.check(ip, now) is Ok {
                1
            } else {
                0
            },
        ),
{
    broadcast use crate::net::ip_key_injective;

    requests_count_for_a_minute(l, ip, now, now);
    let after = l.after_check(ip, now);
    assert forall|other: IpAddr| other != ip implies #[trigger] after.entry(other) == l.entry(
        other,
    ) by {
        assert(other.spec_key() != ip.spec_key());
    }
}

proof fn counting_counts(l: LimiterModel, ip: IpAddr, now: u128)
    requires
        l.check(ip, now) is Ok,
    ensures
        is_counted(l, l.after_check(ip, now).record_allocation(ip), ip, now),
{
    broadcast use crate::net::ip_key_injective;

    requests_count_for_a_minute(l, ip, now, now);
    let after = l.after_check(ip, now).record_allocation(ip);
    assert forall|other: IpAddr| other != ip implies #[trigger] after.entry(other) == l.entry(
        other,
    ) by {
        assert(other.spec_key() != ip.spec_key());
    }
}

/// Whoever made an allocation may act on it: the next request from the same address
/// that is signed by the same user, or by nobody if nobody signed the first, is
/// authorized for it.
pub proof fn maker_is_authorized(
    c: Config,
    data: Seq<u8>,
    src: SocketAddr,
    draw: Draw,
    t: TableModel,
    l: LimiterModel,
    now_ms: u64,
    m: StunModel,
    next: StunModel,
    secs: u64,
)
    requires
        t.wf(),
        is_message(data, m, StunClass::Request, StunMethod::Allocate),
        is_vacant(t, src, now_ms),
        m.requested_transport is None || m.requested_transport == Some(17u8),
        t.next_id < u64::MAX,
        now_ms + 60_000 <= u64::MAX,
        limiter_found(t, l, src).check(src.ip, draw.limiter_ns) is Ok,
    ensures
        ({
            let o = on_packet(c, data, src, draw, t, l, now_ms);
            match (authenticate(c, m, draw.unix_secs), authenticate(c, next, secs)) {
                (Ok(Some((user, _))), Ok(Some((other, key)))) => user == other <==> authorize(
                    c,
                    next,
                    src,
                    o.table,
                    secs,
                ) == Ok::<(u64, Option<Seq<u8>>), Seq<u8>>((t.next_id, Some(key))),
                (Ok(_), Ok(None)) => authorize(c, next, src, o.table, secs) == Ok::<
                    (u64, Option<Seq<u8>>),
                    Seq<u8>,
                >((t.next_id, None)),
                _ => true,
            }
        }),
{
    allocate_is_granted(c, data, src, draw, t, l, now_ms, m);
    if authenticate(c, m, draw.unix_secs) is Ok {
        let o = on_packet(c, data, src, draw, t, l, now_ms);
        let b = o.table.allocations[t.next_id];
        super::requests::owner_is_authorized(c, next, src, o.table, secs, t.next_id, b);
    }
}

/// An Allocate that cannot be granted makes no allocation. A transport other than
/// UDP is refused with 442, too many requests with 508, a quota that is used up with
/// 486, and one that no identifier is left for with 508. A request that the limits refuse
/// does not count against them.
pub proof fn allocate_is_refused(
    c: Config,
    data: Seq<u8>,
    src: SocketAddr,
    draw: Draw,
    t: TableModel,
    l: LimiterModel,
    now_ms: u64,
    m: StunModel,
)
    requires
        t.wf(),
        is_message(data, m, StunClass::Request, StunMethod::Allocate),
        is_vacant(t, src, now_ms),
    ensures
        authenticate(c, m, draw.unix_secs) matches Ok(auth) ==> {
            let o = on_packet(c, data, src, draw, t, l, now_ms);
            let key = match auth {
                Some((_, k)) => Some(k),
                None => None,
            };
            let txn = data.subrange(8, 20);
            let is_udp = m.requested_transport is None || m.requested_transport == Some(17u8);
            let verdict = limiter_found(t, l, src).check(src.ip, draw.limiter_ns);
            &&& !is_udp ==> is_without(t, o.table, src) && o.limiter == limiter_found(t, l, src)
                && refuses(o.effects, src, 0x0113, txn, 442, key)
            &&& is_udp && verdict == Err::<(), RateLimitError>(RateLimitError::TooManyRequests)
                ==> is_without(t, o.table, src) && refuses(o.effects, src, 0x0113, txn, 508, key)
            &&& is_udp && verdict == Err::<(), RateLimitError>(RateLimitError::QuotaExceeded)
                ==> is_without(t, o.table, src) && refuses(o.effects, src, 0x0113, txn, 486, key)
            &&& is_udp && verdict is Ok && t.next_id == u64::MAX ==> is_without(t, o.table, src)
                && refuses(o.effects, src, 0x0113, txn, 508, key)
            &&& is_udp && verdict is Err ==> is_noted(
                limiter_found(t, l, src),
                o.limiter,
                src.ip,
                draw.limiter_ns,
                0,
            )
            &&& is_udp && verdict is Ok && t.next_id == u64::MAX ==> is_noted(
                limiter_found(t, l, src),
                o.limiter,
                src.ip,
                draw.limiter_ns,
                1,
            )
        },
{
    if let Ok(auth) = authenticate(c, m, draw.unix_secs) {
        request_facts(data, m, m.method);
        let o = on_packet(c, data, src, draw, t, l, now_ms);
        assert(o == on_allocate(c, m, src, draw, t, l, now_ms));
        let u = allocate_begins_with(c, m, src, draw, t, l, now_ms, auth);
        let key = key_part(auth);
        new_is_refused(c, m, src, auth, draw, u, limiter_found(t, l, src), now_ms);
        request_is_noted(limiter_found(t, l, src), src.ip, draw.limiter_ns);
    }
}

proof fn new_is_refused(
    c: Config,
    m: StunModel,
    src: SocketAddr,
    auth: Option<(Seq<char>, Seq<u8>)>,
    draw: Draw,
    t: TableModel,
    l: LimiterModel,
    now_ms: u64,
)
    requires
        m.transaction_id.len() == 12,
        crate::turn::rules::error_type(m) == 0x0113,
    ensures
        ({
            let o = allocate_new(c, m, src, auth, draw, t, l, now_ms);
            let key = key_part(auth);
            let txn = m.transaction_id;
            let is_udp = m.requested_transport is None || m.requested_transport == Some(17u8);
            let verdict = l.check(src.ip, draw.limiter_ns);
            &&& !is_udp ==> o.table == t && o.limiter == l && refuses(
                o.effects,
                src,
                0x0113,
                txn,
                442,
                key,
            )
            &&& is_udp && verdict == Err::<(), RateLimitError>(RateLimitError::TooManyRequests)
                ==> o.table == t && refuses(o.effects, src, 0x0113, txn, 508, key)
            &&& is_udp && verdict == Err::<(), RateLimitError>(RateLimitError::QuotaExceeded)
                ==> o.table == t && refuses(o.effects, src, 0x0113, txn, 486, key)
            &&& is_udp && verdict is Ok && t.next_id == u64::MAX ==> o.table == t && refuses(
                o.effects,
                src,
                0x0113,
                txn,
                508,
                key,
            )
        }),
{
    let key = key_part(auth);
    let o = allocate_new(c, m, src, auth, draw, t, l, now_ms);
    match m.requested_transport {
        Some(protocol) if protocol != 17 => {
            error_refuses(o.effects, src, m, TurnErrorCode::UnsupportedTransport, key);
        },
        _ => match l.check(src.ip, draw.limiter_ns) {
            Err(RateLimitError::TooManyRequests) => {
                error_refuses(o.effects, src, m, TurnErrorCode::InsufficientCapacity, key);
            },
            Err(RateLimitError::QuotaExceeded) => {
                error_refuses(o.effects, src, m, TurnErrorCode::AllocationQuotaReached, key);
            },
            Ok(_) => if t.next_id == u64::MAX {
                error_refuses(o.effects, src, m, TurnErrorCode::InsufficientCapacity, key);
            },
        },
    }
}

/// An Allocate from an address with a live allocation changes nothing. If it is the
/// same request again, it is answered with the allocation and the whole seconds that
/// are left of it; otherwise with a mismatch, 437.
pub proof fn allocate_is_repeated(
    c: Config,
    data: Seq<u8>,
    src: SocketAddr,
    draw: Draw,
    t: TableModel,
    l: LimiterModel,
    now_ms: u64,
    m: StunModel,
    id: u64,
    a: AllocModel,
)
    requires
        t.wf(),
        is_message(data, m, StunClass::Request, StunMethod::Allocate),
        is_at(t, id, a, src),
        now_ms <= a.expires_at_ms,
        a.expires_at_ms - now_ms <= u32::MAX,
    ensures
        authenticate(c, m, draw.unix_secs) matches Ok(auth) ==> {
            let o = on_packet(c, data, src, draw, t, l, now_ms);
            let key = match auth {
                Some((_, k)) => Some(k),
                None => None,
            };
            let txn = data.subrange(8, 20);
            &&& o.table == t
            &&& o.limiter == l
            &&& a.allocate_txn_id == txn ==> grants_allocation(
                c,
                o.effects,
                src,
                txn,
                ((a.expires_at_ms - now_ms) / 1000) as u32,
                key,
            )
            &&& a.allocate_txn_id != txn ==> refuses(o.effects, src, 0x0113, txn, 437, key)
        },
{
    found_at(t, id, a, src);
    if let Ok(auth) = authenticate(c, m, draw.unix_secs) {
        request_facts(data, m, m.method);
        let key = key_part(auth);
        let o = on_packet(c, data, src, draw, t, l, now_ms);
        assert(o == on_allocate(c, m, src, draw, t, l, now_ms));
        let left = a.remaining_lifetime(now_ms);
        allocation_is_told(c, m, src, left, key);
        error_response_is_error(m, TurnErrorCode::AllocationMismatch, key);
        let x = allocate_response(c, m, src, left, key);
        let y = error_response(m, TurnErrorCode::AllocationMismatch, key);
        assert(o.effects == reply(src, x) ==> answers(o.effects, src, x));
        assert(o.effects == reply(src, y) ==> answers(o.effects, src, y));
    }
}

} // verus!
