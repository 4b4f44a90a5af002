//! What holds of the handling of requests as a whole.

use vstd::prelude::*;
use vstd::utf8::*;

use super::auth::{
    hex_codes, hmac_sha1_of, key_of, signed_nonce, signed_nonce_is_valid, timestamp_round_trip,
    timestamp_text,
};
use super::encode::{
    attribute, error_attribute, error_value, signed, text_value, ATTR_ERROR_CODE,
};
use super::message::TurnErrorCode;
use super::rules::{
    allocate_new, allocate_response, allocation_user, authenticate, authorize, bind_error,
    binding_conflicts, challenge, check_ufrags, conclude, credentials_of, error_response,
    error_type, granted_lifetime, ips_of, is_forbidden_addr, is_forbidden_ip, key_part, learn_ufrags, on_allocate,
    on_channel_bind, on_create_permission, on_refresh, on_stun, request_covered, success_response,
    success_type, Draw, Step,
};
use super::wire_laws::{
    encode_list, located, message_attributes, message_is_read_back, message_parses, response_types,
    signed_message_is_covered, values_fit,
};
use crate::bytes::{u16_at, u16_be};
use crate::config::Config;
use crate::demux::stun::{
    attributes, class_of, last_of, method_number, method_of, stun_of, text_attribute, Attribute,
    StunClass, StunMethod, StunModel, ATTR_NONCE, ATTR_REALM,
};
use crate::lookup::laws::{
    add_permission_keeps_wf, add_permissions_capped_keeps_wf, client_is_indexed, client_is_removed,
    create_keeps_wf, fitting_permissions_are_added, modify_keeps_wf, register_ice_keeps_wf,
    remove_keeps_wf,
};
use crate::lookup::model::{bind_channel_keeps_wf, AllocModel, TableModel};
use crate::lookup::rate_limit::LimiterModel;
use crate::net::{IpAddr, SocketAddr};
use crate::relay::effect::{reply, DatagramModel, EffectModel};
use crate::text::text_of;

verus! {

/// An IPv4-mapped IPv6 address is judged as the IPv4 address it maps.
pub proof fn mapped_address_is_judged_as_v4(v: u32)
    ensures
        is_forbidden_ip(IpAddr::V6((0xffff_0000_0000 + v) as u128)) == is_forbidden_ip(
            IpAddr::V4(v),
        ),
{
    let ip = (0xffff_0000_0000 + v) as u128;
    assert(ip / 0x1_0000_0000 == 0xffff);
    assert(ip % 0x1_0000_0000 == v);
}

/// Nothing is relayed to the server's own IP on any port but the relay port.
pub proof fn own_ip_is_forbidden_elsewhere(c: Config, addr: SocketAddr)
    requires
        addr.ip == c.external_ip,
    ensures
        addr.port != c.port ==> is_forbidden_addr(c, addr),
        addr.port == c.port ==> is_forbidden_addr(c, addr) == is_forbidden_ip(c.external_ip),
{
}

/// Where credentials are configured, a request without MESSAGE-INTEGRITY is
/// answered with a challenge, and nothing is changed.
pub proof fn unsigned_request_is_challenged(
    c: Config,
    m: StunModel,
    src: SocketAddr,
    draw: Draw,
    t: TableModel,
    l: LimiterModel,
    now_ms: u64,
)
    requires
        c.credentials@.len() > 0,
        m.message_integrity is None,
    ensures
        ({
            let secs = draw.unix_secs;
            let response = challenge(c, m, TurnErrorCode::Unauthorized, secs);
            &&& on_allocate(c, m, src, draw, t, l, now_ms) == conclude(t, l, src, response)
            &&& on_refresh(c, m, src, secs, t, l, now_ms) == conclude(t, l, src, response)
            &&& m.xor_peer_addresses.len() > 0 ==> on_create_permission(c, m, src, secs, t, now_ms)
                == (Step { table: t, effects: reply(src, response) })
            &&& m.xor_peer_addresses.len() > 0 && m.channel_number is Some ==> on_channel_bind(
                c,
                m,
                src,
                secs,
                t,
                now_ms,
            ) == (Step { table: t, effects: reply(src, response) })
        }),
{
}

/// A request whose credentials are refused changes nothing.
pub proof fn refused_credentials_change_nothing(
    c: Config,
    m: StunModel,
    src: SocketAddr,
    draw: Draw,
    t: TableModel,
    l: LimiterModel,
    now_ms: u64,
)
    ensures
        authenticate(c, m, draw.unix_secs) is Err ==> {
            let response = authenticate(c, m, draw.unix_secs)->Err_0;
            let secs = draw.unix_secs;
            &&& on_allocate(c, m, src, draw, t, l, now_ms) == conclude(t, l, src, response)
            &&& on_refresh(c, m, src, secs, t, l, now_ms) == conclude(t, l, src, response)
            &&& on_create_permission(c, m, src, secs, t, now_ms).table == t
            &&& on_channel_bind(c, m, src, secs, t, now_ms).table == t
        },
{
}

/// A request for an allocation that belongs to another user is refused, and
/// changes nothing.
pub proof fn foreign_allocation_is_refused(
    c: Config,
    m: StunModel,
    src: SocketAddr,
    secs: u64,
    t: TableModel,
    l: LimiterModel,
    now_ms: u64,
    user: Seq<char>,
    key: Seq<u8>,
    a: AllocModel,
)
    requires
        t.client(src) == Some(a),
        a.username != user,
    ensures
        authenticate(c, m, secs) == Ok::<Option<(Seq<char>, Seq<u8>)>, Seq<u8>>(Some((user, key)))
            ==> {
            let response = challenge(c, m, TurnErrorCode::Unauthorized, secs);
            &&& on_refresh(c, m, src, secs, t, l, now_ms) == conclude(t, l, src, response)
            &&& on_create_permission(c, m, src, secs, t, now_ms).table == t
            &&& on_channel_bind(c, m, src, secs, t, now_ms).table == t
        },
{
}

/// A request on an allocation that is not there is answered with a mismatch,
/// signed with the key of the user who asked, and changes nothing.
pub proof fn missing_allocation_is_a_signed_mismatch(
    c: Config,
    m: StunModel,
    src: SocketAddr,
    secs: u64,
    t: TableModel,
    l: LimiterModel,
    now_ms: u64,
)
    requires
        t.client(src) is None,
    ensures
        authenticate(c, m, secs) is Ok ==> {
            let key = key_part(authenticate(c, m, secs)->Ok_0);
            let response = error_response(m, TurnErrorCode::AllocationMismatch, key);
            let step = Step { table: t, effects: reply(src, response) };
            &&& on_refresh(c, m, src, secs, t, l, now_ms) == step.with(l)
            &&& m.xor_peer_addresses.len() > 0 ==> on_create_permission(c, m, src, secs, t, now_ms)
                == step
            &&& m.xor_peer_addresses.len() > 0 && m.channel_number is Some ==> on_channel_bind(
                c,
                m,
                src,
                secs,
                t,
                now_ms,
            ) == step
        },
{
}

/// A request that is signed with the key of a configured user, and carries that
/// user's name, the realm and a valid nonce, is authenticated as that user.
pub proof fn signed_request_is_accepted(
    c: Config,
    msg_type: u16,
    txn: Seq<u8>,
    list: Seq<(u16, Seq<u8>)>,
    user: Seq<char>,
    password: Seq<char>,
    nonce: Seq<char>,
    secs: u64,
)
    requires
        txn.len() == 12,
        values_fit(list),
        encode_list(list).len() <= 65000,
        c.spec_password(user) == Some(password),
    ensures
        ({
            let attrs = encode_list(list);
            let key = key_of(user, c.realm@, password);
            let raw = signed(msg_type, txn, attrs, Some(key));
            stun_of(raw) matches Some(m) && (m.username == Some(user) && m.realm == Some(c.realm@)
                && m.nonce == Some(nonce) && signed_nonce_is_valid(
                nonce,
                c.nonce_lifetime_secs,
                c.nonce_secret@,
                secs,
            ) ==> credentials_of(c, m, secs) == Ok::<(Seq<char>, Seq<u8>), Seq<u8>>((user, key)))
        }),
{
    let key = key_of(user, c.realm@, password);
    signed_message_is_covered(msg_type, txn, list, key);
}

/// ChannelBind is all or nothing: either the answer is success, or the table is
/// as it was.
pub proof fn channel_bind_is_all_or_nothing(
    c: Config,
    m: StunModel,
    src: SocketAddr,
    secs: u64,
    t: TableModel,
    now_ms: u64,
)
    ensures
        ({
            let step = on_channel_bind(c, m, src, secs, t, now_ms);
            step.table == t || (authorize(c, m, src, t, secs) matches Ok((id, key)) && step.effects
                == reply(src, success_response(m, key)) && bind_error(
                c,
                t,
                id,
                m.channel_number->0,
                m.xor_peer_addresses[0],
            ) is None)
        }),
{
}

/// From `t` to `u`, the client at `src` got the channel and the peer bound to each
/// other and the peer permitted, and kept all other bindings and permissions; and
/// no other allocation changed.
pub open spec fn binds_only(
    t: TableModel,
    u: TableModel,
    src: SocketAddr,
    channel: u16,
    peer: SocketAddr,
) -> bool {
    t.client(src) matches Some(a) && u.client(src) matches Some(b) && {
        &&& b.peer_for_channel(channel) == Some(peer)
        &&& b.channel_for_peer(peer) == Some(channel)
        &&& b.is_permitted(peer.ip)
        &&& forall|ch: u16|
            ch != channel ==> #[trigger] b.peer_for_channel(ch) == a.peer_for_channel(ch)
        &&& forall|p: SocketAddr|
            p != peer ==> #[trigger] b.channel_for_peer(p) == a.channel_for_peer(p)
        &&& forall|ip: IpAddr|
            ip != peer.ip ==> #[trigger] b.is_permitted(ip) == a.is_permitted(ip)
        &&& u.allocations == t.allocations.insert(a.id, b)
    }
}

/// After a successful ChannelBind the channel and the peer are bound to each
/// other, and the peer is permitted. All other bindings and permissions of the
/// allocation are as before, and so are all other allocations.
pub proof fn channel_bind_binds(
    c: Config,
    m: StunModel,
    src: SocketAddr,
    secs: u64,
    t: TableModel,
    now_ms: u64,
)
    requires
        t.wf(),
        m.channel_number is Some,
        m.xor_peer_addresses.len() > 0,
    ensures
        authorize(c, m, src, t, secs) is Ok && bind_error(
            c,
            t,
            (authorize(c, m, src, t, secs)->Ok_0).0,
            m.channel_number->0,
            m.xor_peer_addresses[0],
        ) is None ==> {
            let channel = m.channel_number->0;
            let peer = m.xor_peer_addresses[0];
            let u = on_channel_bind(c, m, src, secs, t, now_ms).table;
            binds_only(t, u, src, channel, peer)
        },
{
    client_is_indexed(t, src);
    if let Ok((id, key)) = authorize(c, m, src, t, secs) {
        let channel = m.channel_number->0;
        let peer = m.xor_peer_addresses[0];
        let cap = c.max_permissions_per_alloc as nat;
        if bind_error(c, t, id, channel, peer) is None {
            let t1 = t.add_permissions_capped(id, seq![peer.ip], cap);
            fitting_permissions_are_added(t, id, seq![peer.ip], cap);
            add_permissions_capped_keeps_wf(t, id, seq![peer.ip], cap);
            assert(seq![peer.ip].to_set().contains(peer.ip)) by {
                assert(seq![peer.ip][0] == peer.ip);
            }
            assert(t1.indexed(id));
            let a1 = t1.allocations[id];
            bind_channel_keeps_wf(a1, channel, peer);
            bind_channel_keeps_others(a1, channel, peer);
            let a = t.allocations[id];
            let b = a1.bind_channel(channel, peer).touch_received(now_ms);
            let u = on_channel_bind(c, m, src, secs, t, now_ms).table;
            assert(u.allocations =~= t.allocations.insert(id, b));
            assert forall|ip: IpAddr| ip != peer.ip implies #[trigger] b.is_permitted(ip)
                == a.is_permitted(ip) by {
                if seq![peer.ip].contains(ip) {
                    assert(seq![peer.ip][0] == ip);
                }
            }
            assert forall|ch: u16| ch != channel implies #[trigger] b.peer_for_channel(ch)
                == a.peer_for_channel(ch) by {
                assert(a1.bind_channel(channel, peer).peer_for_channel(ch) == a1.peer_for_channel(ch));
            }
            assert forall|p: SocketAddr| p != peer implies #[trigger] b.channel_for_peer(p)
                == a.channel_for_peer(p) by {
                assert(a1.bind_channel(channel, peer).channel_for_peer(p) == a1.channel_for_peer(p));
            }
        }
    }
}

/// The one answer is a message of the given type.
pub open spec fn answered_with(effects: Seq<EffectModel>, to: SocketAddr, msg_type: u16) -> bool {
    exists|bytes: Seq<u8>|
        effects == #[trigger] reply(to, bytes) && bytes.len() >= 20 && u16_at(bytes, 0) == msg_type
}

proof fn type_of_signed(msg_type: u16, txn: Seq<u8>, attrs: Seq<u8>, key: Option<Seq<u8>>)
    requires
        txn.len() == 12,
    ensures
        signed(msg_type, txn, attrs, key).len() >= 20,
        u16_at(signed(msg_type, txn, attrs, key), 0) == msg_type,
{
    crate::bytes::u16_round_trip(msg_type);
    let s = signed(msg_type, txn, attrs, key);
    assert(s[0] == u16_be(msg_type)[0] && s[1] == u16_be(msg_type)[1]);
}

proof fn refusals_are_errors(c: Config, m: StunModel, src: SocketAddr, t: TableModel, secs: u64)
    requires
        m.transaction_id.len() == 12,
    ensures
        forall|error: TurnErrorCode, key: Option<Seq<u8>>|
            {
                let r = #[trigger] error_response(m, error, key);
                r.len() >= 20 && u16_at(r, 0) == error_type(m)
            },
        authorize(c, m, src, t, secs) matches Err(r) ==> r.len() >= 20 && u16_at(r, 0)
            == error_type(m),
{
    assert forall|error: TurnErrorCode, key: Option<Seq<u8>>|
        {
            let r = #[trigger] error_response(m, error, key);
            r.len() >= 20 && u16_at(r, 0) == error_type(m)
        } by {
        type_of_signed(error_type(m), m.transaction_id, error_attribute(error), key);
    }
    assert forall|error: TurnErrorCode|
        {
            let r = #[trigger] challenge(c, m, error, secs);
            r.len() >= 20 && u16_at(r, 0) == error_type(m)
        } by {
        type_of_signed(
            error_type(m),
            m.transaction_id,
            error_attribute(error) + text_value(ATTR_REALM, c.realm@) + text_value(
                ATTR_NONCE,
                signed_nonce(secs, c.nonce_secret@),
            ),
            None,
        );
    }
}

/// The answer to a ChannelBind tells what became of it. An error response means
/// that the table is as it was; a success response that the channel and the peer
/// are bound, the peer is permitted, and nothing else of the bindings and
/// permissions changed.
pub proof fn channel_bind_answer_tells(
    c: Config,
    m: StunModel,
    src: SocketAddr,
    secs: u64,
    t: TableModel,
    now_ms: u64,
)
    requires
        t.wf(),
        m.wf(),
        u16_at(m.raw, 0) == 0x0009,
    ensures
        ({
            let step = on_channel_bind(c, m, src, secs, t, now_ms);
            &&& answered_with(step.effects, src, 0x0119) || answered_with(step.effects, src, 0x0109)
            &&& answered_with(step.effects, src, 0x0119) ==> step.table == t
            &&& answered_with(step.effects, src, 0x0109) ==> m.channel_number is Some
                && m.xor_peer_addresses.len() > 0 && binds_only(
                t,
                step.table,
                src,
                m.channel_number->0,
                m.xor_peer_addresses[0],
            )
        }),
{
    let step = on_channel_bind(c, m, src, secs, t, now_ms);
    let bytes = answer_of(step.effects);
    assert(error_type(m) == 0x0119 && success_type(m) == 0x0109) by {
        assert(0x0009u16 | 0x0110u16 == 0x0119u16) by (bit_vector);
        assert(0x0009u16 | 0x0100u16 == 0x0109u16) by (bit_vector);
    }
    refusals_are_errors(c, m, src, t, secs);
    if m.channel_number is Some && m.xor_peer_addresses.len() > 0 {
        channel_bind_binds(c, m, src, secs, t, now_ms);
        if let Ok((id, key)) = authorize(c, m, src, t, secs) {
            type_of_signed(success_type(m), m.transaction_id, Seq::empty(), key);
        }
    }
    assert(step.effects == reply(src, bytes));
    assert forall|other: Seq<u8>| step.effects == #[trigger] reply(src, other) implies other
        == bytes by {
        assert(answer_of(reply(src, other)) == other);
    }
}

/// The bytes that one answer consists of.
spec fn answer_of(effects: Seq<EffectModel>) -> Seq<u8> {
    match effects[0] {
        EffectModel::Send { to: _, datagram: DatagramModel::Raw(bytes) } => bytes,
        _ => Seq::empty(),
    }
}

proof fn bind_channel_keeps_others(a: AllocModel, channel: u16, peer: SocketAddr)
    requires
        a.wf(),
        !binding_conflicts(a, channel, peer),
    ensures
        forall|ch: u16|
            ch != channel ==> #[trigger] a.bind_channel(channel, peer).peer_for_channel(ch)
                == a.peer_for_channel(ch),
        forall|p: SocketAddr|
            p != peer ==> #[trigger] a.bind_channel(channel, peer).channel_for_peer(p)
                == a.channel_for_peer(p),
{
    broadcast use crate::net::addr_key_injective;

    assert forall|p: SocketAddr| p != peer implies #[trigger] a.bind_channel(
        channel,
        peer,
    ).channel_for_peer(p) == a.channel_for_peer(p) by {
        assert(p.spec_key() != peer.spec_key());
    }
}

/// CreatePermission is all or nothing: either the answer is success, or no
/// allocation has other permissions than before.
pub proof fn create_permission_is_all_or_nothing(
    c: Config,
    m: StunModel,
    src: SocketAddr,
    secs: u64,
    t: TableModel,
    now_ms: u64,
    id: u64,
)
    ensures
        ({
            let step = on_create_permission(c, m, src, secs, t, now_ms);
            step.table.allocations[id].permissions == t.allocations[id].permissions || (authorize(
                c,
                m,
                src,
                t,
                secs,
            ) matches Ok((_, key)) && step.effects == reply(src, success_response(m, key)))
        }),
{
}

/// A CreatePermission request that is authorized, names no forbidden peer and
/// stays within the cap succeeds: every peer it names is then permitted, along
/// with those that were before.
pub proof fn create_permission_permits(
    c: Config,
    m: StunModel,
    src: SocketAddr,
    secs: u64,
    t: TableModel,
    now_ms: u64,
)
    requires
        t.wf(),
        m.xor_peer_addresses.len() > 0,
        forall|i: int|
            0 <= i < m.xor_peer_addresses.len() ==> !is_forbidden_ip(
                #[trigger] m.xor_peer_addresses[i].ip,
            ),
    ensures
        ({
            let step = on_create_permission(c, m, src, secs, t, now_ms);
            let ips = ips_of(m.xor_peer_addresses);
            authorize(c, m, src, t, secs) matches Ok((id, key)) ==> t.fits_permissions(
                id,
                ips,
                c.max_permissions_per_alloc as nat,
            ) ==> {
                &&& step.effects == reply(src, success_response(m, key))
                &&& step.table.client(src) matches Some(b) && b.permissions == t.client(
                    src,
                )->0.permissions.union(ips.to_set())
            }
        }),
{
    client_is_indexed(t, src);
    if let Ok((id, key)) = authorize(c, m, src, t, secs) {
        let t1 = t.touch_received(id, now_ms);
        let ips = ips_of(m.xor_peer_addresses);
        let cap = c.max_permissions_per_alloc as nat;
        if t.fits_permissions(id, ips, cap) {
            fitting_permissions_are_added(t1, id, ips, cap);
        }
    }
}

/// A forbidden peer is never permitted: a CreatePermission request that names
/// one changes nothing.
pub proof fn forbidden_peer_is_not_permitted(
    c: Config,
    m: StunModel,
    src: SocketAddr,
    secs: u64,
    t: TableModel,
    now_ms: u64,
    i: int,
)
    requires
        0 <= i < m.xor_peer_addresses.len(),
        is_forbidden_ip(m.xor_peer_addresses[i].ip),
    ensures
        on_create_permission(c, m, src, secs, t, now_ms).table == t,
        authorize(c, m, src, t, secs) matches Ok((_, key)) ==> on_create_permission(
            c,
            m,
            src,
            secs,
            t,
            now_ms,
        ).effects == reply(src, error_response(m, TurnErrorCode::Forbidden, key)),
        i == 0 ==> on_channel_bind(c, m, src, secs, t, now_ms).table == t,
        i == 0 && m.channel_number is Some ==> (authorize(c, m, src, t, secs) matches Ok((_, key))
            ==> on_channel_bind(c, m, src, secs, t, now_ms).effects == reply(
            src,
            error_response(m, TurnErrorCode::Forbidden, key),
        )),
{
}

/// A lifetime that is granted lies between 10 and 60 seconds, and one that was
/// asked for in that range is granted as it is.
pub proof fn granted_lifetime_is_bounded(requested: u32)
    ensures
        10 <= granted_lifetime(requested) <= 60,
        10 <= requested <= 60 ==> granted_lifetime(requested) == requested,
{
}

/// An authorized Refresh with a lifetime of 0 removes the allocation and
/// releases its quota; any other gives it a lifetime of at most a minute from
/// now on.
pub proof fn refresh_deletes_or_extends(
    c: Config,
    m: StunModel,
    src: SocketAddr,
    secs: u64,
    t: TableModel,
    l: LimiterModel,
    now_ms: u64,
)
    requires
        t.wf(),
        now_ms + 60_000 <= u64::MAX,
    ensures
        authorize(c, m, src, t, secs) is Ok ==> {
            let o = on_refresh(c, m, src, secs, t, l, now_ms);
            if m.lifetime == Some(0u32) {
                !o.table.is_client(src) && o.limiter == l.record_deallocation(src.ip)
            } else {
                &&& o.limiter == l
                &&& o.table.client(src) matches Some(b) && now_ms + 10_000 <= b.expires_at_ms
                    <= now_ms + 60_000 && !b.is_expired(now_ms)
            }
        },
{
    client_is_indexed(t, src);
    client_is_removed(t, src);
}

/// An Allocate request from a client with a live allocation changes nothing: a
/// retransmission is answered with success again, anything else with a mismatch.
pub proof fn allocate_keeps_live_allocation(
    c: Config,
    m: StunModel,
    src: SocketAddr,
    draw: Draw,
    t: TableModel,
    l: LimiterModel,
    now_ms: u64,
    a: AllocModel,
)
    requires
        t.client(src) == Some(a),
        !a.is_expired(now_ms),
    ensures
        ({
            let o = on_allocate(c, m, src, draw, t, l, now_ms);
            &&& o.table == t
            &&& o.limiter == l
            &&& authenticate(c, m, draw.unix_secs) matches Ok(auth) ==> o.effects == reply(
                src,
                if m.transaction_id == a.allocate_txn_id {
                    allocate_response(c, m, src, a.remaining_lifetime(now_ms), key_part(auth))
                } else {
                    error_response(m, TurnErrorCode::AllocationMismatch, key_part(auth))
                },
            )
        }),
{
}

/// An Allocate request that the limits allow gives the client an allocation of
/// its own, with no permissions, that lives for a minute. An allocation that had
/// lapsed does not stand in the way, and does not count against the quota.
pub proof fn allocate_starts_fresh(
    c: Config,
    m: StunModel,
    src: SocketAddr,
    draw: Draw,
    t: TableModel,
    l: LimiterModel,
    now_ms: u64,
)
    requires
        t.wf(),
        t.next_id < u64::MAX,
        now_ms + 60_000 <= u64::MAX,
        m.requested_transport matches Some(p) ==> p == 17,
        t.client(src) is None ==> l.check(src.ip, draw.limiter_ns) is Ok,
        t.client(src) matches Some(a) ==> a.is_expired(now_ms) && l.record_deallocation(
            src.ip,
        ).check(src.ip, draw.limiter_ns) is Ok,
    ensures
        authenticate(c, m, draw.unix_secs) matches Ok(auth) ==> {
            let o = on_allocate(c, m, src, draw, t, l, now_ms);
            &&& o.effects == reply(src, allocate_response(c, m, src, 60, key_part(auth)))
            &&& o.table.client(src) matches Some(b) && {
                &&& b.id == t.next_id
                &&& b.permissions == Set::<IpAddr>::empty()
                &&& b.allocate_txn_id == m.transaction_id
                &&& b.expires_at_ms == now_ms + 60_000
                &&& b.remaining_lifetime(now_ms) == 60
            }
        },
{
    client_is_indexed(t, src);
    client_is_removed(t, src);
}

/// An error response is a message of the class ErrorResponse that has the
/// method and the transaction id of the request. If it is signed, its
/// MESSAGE-INTEGRITY verifies under the key.
pub proof fn error_response_answers_request(
    m: StunModel,
    error: TurnErrorCode,
    key: Option<Seq<u8>>,
)
    requires
        m.transaction_id.len() == 12,
        class_of(u16_at(m.raw, 0)) == StunClass::Request,
    ensures
        stun_of(error_response(m, error, key)) matches Some(e) && {
            &&& e.class == StunClass::ErrorResponse
            &&& e.method == method_of(method_number(u16_at(m.raw, 0)))
            &&& e.transaction_id == m.transaction_id
            &&& key matches Some(k) ==> e.message_integrity_offset is Some && e.message_integrity
                == Some(hmac_sha1_of(k, request_covered(e, e.message_integrity_offset->0 as int)))
        },
{
    response_types(u16_at(m.raw, 0));
    let value = error_value(error);
    error_value_is_short(error);
    let list = seq![(ATTR_ERROR_CODE, value)];
    assert(encode_list(list) =~= error_attribute(error)) by {
        assert(list.drop_first() =~= Seq::<(u16, Seq<u8>)>::empty());
        reveal_with_fuel(encode_list, 2);
    }
    match key {
        Some(k) => {
            signed_message_is_covered(error_type(m), m.transaction_id, list, k);
        },
        None => {
            message_parses(error_type(m), m.transaction_id, error_attribute(error));
        },
    }
}

pub(crate) proof fn utf8_is_short(s: Seq<char>)
    ensures
        encode_utf8(s).len() <= 4 * s.len(),
    decreases s.len(),
{
    if s.len() > 0 {
        utf8_is_short(s.drop_first());
    }
}

pub(crate) proof fn error_value_is_short(error: TurnErrorCode)
    ensures
        error_value(error).len() <= 200,
{
    utf8_is_short(error.spec_reason());
    reveal_strlit("Bad Request");
    reveal_strlit("Unauthorized");
    reveal_strlit("Forbidden");
    reveal_strlit("Unknown Attribute");
    reveal_strlit("Allocation Mismatch");
    reveal_strlit("Stale Nonce");
    reveal_strlit("Wrong Credentials");
    reveal_strlit("Unsupported Transport Protocol");
    reveal_strlit("Allocation Quota Reached");
    reveal_strlit("Server Error");
    reveal_strlit("Insufficient Capacity");
}

/// A challenge is an error response that tells the client the realm and a
/// nonce, which is all it needs to try again.
pub proof fn challenge_tells_realm_and_nonce(
    c: Config,
    m: StunModel,
    error: TurnErrorCode,
    secs: u64,
)
    requires
        m.transaction_id.len() == 12,
        class_of(u16_at(m.raw, 0)) == StunClass::Request,
        encode_utf8(c.realm@).len() <= 60000,
    ensures
        stun_of(challenge(c, m, error, secs)) matches Some(e) && {
            &&& e.class == StunClass::ErrorResponse
            &&& e.method == method_of(method_number(u16_at(m.raw, 0)))
            &&& e.transaction_id == m.transaction_id
            &&& e.realm == Some(c.realm@)
            &&& e.nonce == Some(signed_nonce(secs, c.nonce_secret@))
        },
{
    let nonce = signed_nonce(secs, c.nonce_secret@);
    let attrs = error_attribute(error) + text_value(ATTR_REALM, c.realm@) + text_value(
        ATTR_NONCE,
        nonce,
    );
    nonce_length(secs, c.nonce_secret@);
    response_types(u16_at(m.raw, 0));
    challenge_attributes(error, c.realm@, nonce);
    message_is_read_back(error_type(m), m.transaction_id, attrs);
}

proof fn challenge_attributes(error: TurnErrorCode, realm: Seq<char>, nonce: Seq<char>)
    requires
        encode_utf8(realm).len() <= 60000,
        nonce.len() <= 200,
    ensures
        ({
            let attrs = error_attribute(error) + text_value(ATTR_REALM, realm) + text_value(
                ATTR_NONCE,
                nonce,
            );
            let found = attributes(attrs, 0, attrs.len() as int);
            &&& attrs.len() <= 65535
            &&& text_attribute(found, ATTR_REALM) == Some(realm)
            &&& text_attribute(found, ATTR_NONCE) == Some(nonce)
        }),
{
    let v = error_value(error);
    error_value_is_short(error);
    utf8_is_short(nonce);
    let list = seq![
        (ATTR_ERROR_CODE, v),
        (ATTR_REALM, encode_utf8(realm)),
        (ATTR_NONCE, encode_utf8(nonce)),
    ];
    three_attributes(list);
    message_attributes(list);
    realm_and_nonce(located(list, 0));
    encode_utf8_valid_utf8(realm);
    encode_utf8_decode_utf8(realm);
    encode_utf8_valid_utf8(nonce);
    encode_utf8_decode_utf8(nonce);
}

proof fn three_attributes(list: Seq<(u16, Seq<u8>)>)
    requires
        list.len() == 3,
    ensures
        encode_list(list) == attribute(list[0].0, list[0].1) + attribute(list[1].0, list[1].1)
            + attribute(list[2].0, list[2].1),
        located(list, 0).len() == 3,
        forall|i: int|
            0 <= i < 3 ==> (#[trigger] located(list, 0)[i]).kind == list[i].0 && located(
                list,
                0,
            )[i].value == list[i].1,
{
    let l1 = list.drop_first();
    let l2 = l1.drop_first();
    assert(l1[0] == list[1] && l2[0] == list[2]);
    assert(l2.drop_first() =~= Seq::<(u16, Seq<u8>)>::empty());
    let (x, y, z) = (
        attribute(list[0].0, list[0].1),
        attribute(list[1].0, list[1].1),
        attribute(list[2].0, list[2].1),
    );
    assert(encode_list(l2) =~= z) by {
        reveal_with_fuel(encode_list, 2);
    }
    assert(encode_list(l1) == y + z);
    assert(encode_list(list) =~= x + y + z);
    let n1 = x.len() as int;
    let n2 = n1 + y.len();
    let a1 = Attribute { kind: list[1].0, offset: n1, value: list[1].1 };
    let a2 = Attribute { kind: list[2].0, offset: n2, value: list[2].1 };
    assert(located(l2, n2) =~= seq![a2]) by {
        reveal_with_fuel(located, 2);
    }
    assert(located(l1, n1) =~= seq![a1, a2]);
}

proof fn realm_and_nonce(attrs: Seq<Attribute>)
    requires
        attrs.len() == 3,
        attrs[1].kind == ATTR_REALM,
        attrs[2].kind == ATTR_NONCE,
    ensures
        text_attribute(attrs, ATTR_REALM) == text_of(attrs[1].value),
        text_attribute(attrs, ATTR_NONCE) == text_of(attrs[2].value),
{
    assert(attrs.last() == attrs[2]);
    assert(attrs.drop_last().last() == attrs[1]);
    reveal_with_fuel(last_of, 3);
}

pub(crate) proof fn nonce_length(secs: u64, secret: Seq<u8>)
    ensures
        signed_nonce(secs, secret).len() <= 200,
{
    hex_length(hmac_sha1_of(secret, encode_utf8(timestamp_text(secs))));
    timestamp_round_trip(secs);
}

proof fn hex_length(s: Seq<u8>)
    ensures
        hex_codes(s).len() == 2 * s.len(),
    decreases s.len(),
{
    if s.len() > 0 {
        hex_length(s.drop_last());
    }
}

/// Whether a list of effects is one datagram for one address.
pub open spec fn is_one_reply(effects: Seq<EffectModel>, to: SocketAddr) -> bool {
    effects.len() == 1 && exists|bytes: Seq<u8>| effects == #[trigger] reply(to, bytes)
}

/// A request other than Binding gets exactly one answer, and it goes to where
/// the request came from.
pub proof fn request_gets_one_answer(
    c: Config,
    m: StunModel,
    src: SocketAddr,
    draw: Draw,
    t: TableModel,
    l: LimiterModel,
    now_ms: u64,
)
    requires
        m.class == StunClass::Request,
        m.method == StunMethod::Allocate || m.method == StunMethod::Refresh || m.method
            == StunMethod::CreatePermission || m.method == StunMethod::ChannelBind,
    ensures
        is_one_reply(on_stun(c, m, src, draw, t, l, now_ms).effects, src),
{
    let effects = on_stun(c, m, src, draw, t, l, now_ms).effects;
    assert(exists|bytes: Seq<u8>| effects == #[trigger] reply(src, bytes));
}

proof fn touch_received_keeps_wf(t: TableModel, id: u64, now_ms: u64)
    requires
        t.wf(),
    ensures
        t.touch_received(id, now_ms).wf(),
{
    if t.allocations.contains_key(id) {
        assert(t.indexed(id));
    }
    modify_keeps_wf(t, id, |a: AllocModel| a.touch_received(now_ms));
}

proof fn learn_ufrags_keeps_wf(t: TableModel, id: u64, pair: Option<(Seq<char>, Seq<char>)>)
    requires
        t.wf(),
    ensures
        learn_ufrags(t, id, pair).wf(),
        learn_ufrags(t, id, pair).next_id == t.next_id,
{
    if let Some((remote, local)) = pair {
        register_ice_keeps_wf(t, id, local, remote);
    }
}

proof fn allocate_new_keeps_wf(
    c: Config,
    m: StunModel,
    src: SocketAddr,
    auth: Option<(Seq<char>, Seq<u8>)>,
    draw: Draw,
    t: TableModel,
    l: LimiterModel,
    now_ms: u64,
)
    requires
        t.wf(),
        !t.is_client(src),
    ensures
        allocate_new(c, m, src, auth, draw, t, l, now_ms).table.wf(),
{
    if t.next_id < u64::MAX {
        create_keeps_wf(
            t,
            src,
            allocation_user(m, auth),
            60,
            m.transaction_id,
            draw.seed@,
            now_ms,
        );
    }
}

proof fn channel_bind_keeps_wf(
    c: Config,
    m: StunModel,
    src: SocketAddr,
    secs: u64,
    t: TableModel,
    now_ms: u64,
)
    requires
        t.wf(),
    ensures
        on_channel_bind(c, m, src, secs, t, now_ms).table.wf(),
{
    if let Ok((id, _)) = authorize(c, m, src, t, secs) {
        let channel = m.channel_number->0;
        let peer = m.xor_peer_addresses[0];
        let cap = c.max_permissions_per_alloc as nat;
        let t1 = t.add_permissions_capped(id, seq![peer.ip], cap);
        add_permissions_capped_keeps_wf(t, id, seq![peer.ip], cap);
        if t1.allocations.contains_key(id) {
            assert(t1.indexed(id));
            bind_channel_keeps_wf(t1.allocations[id], channel, peer);
        }
        modify_keeps_wf(t1, id, |a: AllocModel| a.bind_channel(channel, peer));
        touch_received_keeps_wf(t1.bind_channel(id, channel, peer), id, now_ms);
    }
}

/// Whatever STUN message arrives, the table stays well formed.
pub proof fn stun_keeps_table_wf(
    c: Config,
    m: StunModel,
    src: SocketAddr,
    draw: Draw,
    t: TableModel,
    l: LimiterModel,
    now_ms: u64,
)
    requires
        t.wf(),
    ensures
        on_stun(c, m, src, draw, t, l, now_ms).table.wf(),
{
    client_is_indexed(t, src);
    match (m.class, m.method) {
        (StunClass::Request, StunMethod::Binding) => {
            if let Some(a) = t.client(src) {
                let t1 = learn_ufrags(t, a.id, m.ice_username());
                learn_ufrags_keeps_wf(t, a.id, m.ice_username());
                add_permission_keeps_wf(t1, a.id, c.external_ip);
                touch_received_keeps_wf(t1, a.id, now_ms);
                touch_received_keeps_wf(t1.add_permission(a.id, c.external_ip), a.id, now_ms);
            }
        },
        (StunClass::Request, StunMethod::Allocate) => {
            if let Ok(auth) = authenticate(c, m, draw.unix_secs) {
                match t.client(src) {
                    None => {
                        allocate_new_keeps_wf(c, m, src, auth, draw, t, l, now_ms);
                    },
                    Some(a) => {
                        remove_keeps_wf(t, a.id);
                        client_is_removed(t, src);
                        allocate_new_keeps_wf(
                            c,
                            m,
                            src,
                            auth,
                            draw,
                            t.remove(a.id),
                            l.record_deallocation(src.ip),
                            now_ms,
                        );
                    },
                }
            }
        },
        (StunClass::Request, StunMethod::Refresh) => {
            if let Ok((id, _)) = authorize(c, m, src, t, draw.unix_secs) {
                remove_keeps_wf(t, id);
                let lifetime = granted_lifetime(
                    match m.lifetime {
                        Some(s) => s,
                        None => 60u32,
                    },
                );
                assert(t.indexed(id));
                modify_keeps_wf(t, id, |a: AllocModel| a.refresh(lifetime, now_ms));
                touch_received_keeps_wf(t.refresh(id, lifetime, now_ms), id, now_ms);
            }
        },
        (StunClass::Request, StunMethod::CreatePermission) => {
            if let Ok((id, _)) = authorize(c, m, src, t, draw.unix_secs) {
                touch_received_keeps_wf(t, id, now_ms);
                add_permissions_capped_keeps_wf(
                    t.touch_received(id, now_ms),
                    id,
                    ips_of(m.xor_peer_addresses),
                    c.max_permissions_per_alloc as nat,
                );
            }
        },
        (StunClass::Request, StunMethod::ChannelBind) => {
            channel_bind_keeps_wf(c, m, src, draw.unix_secs, t, now_ms);
        },
        (StunClass::Indication, StunMethod::Send) => {
            if let Some(a) = t.client(src) {
                if let Some(data) = m.data {
                    learn_ufrags_keeps_wf(t, a.id, check_ufrags(data));
                }
            }
        },
        _ => {},
    }
}

} // verus!
