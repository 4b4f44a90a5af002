//! What requests that may be made are granted.

use vstd::prelude::*;

use super::answers::{
    answers, error_response_is_error, refuses, request_facts, success_is_told, succeeds,
};
use super::terms::{found_at, is_at, is_message, relay_of};
use crate::config::Config;
use crate::demux::stun::{StunClass, StunMethod, StunModel};
use crate::lookup::laws::{
    add_permissions_capped_keeps_wf, fitting_permissions_are_added, modify_keeps_wf,
};
use crate::lookup::model::{bind_channel_keeps_wf, AllocModel, TableModel};
use crate::lookup::rate_limit::LimiterModel;
use crate::net::{IpAddr, SocketAddr};
use crate::relay::effect::reply;
use crate::server::on_packet;
use crate::turn::message::TurnErrorCode;
use crate::turn::rules::{
    authenticate, bind_error, error_response, ips_of, is_forbidden_addr, is_forbidden_ip,
    on_channel_bind, on_create_permission, success_response, Draw,
};

verus! {

/// The message is accepted as coming from nobody, or from the user that the
/// allocation belongs to; the answer is signed with `key`.
pub open spec fn may_act(c: Config, m: StunModel, secs: u64, a: AllocModel, key: Option<Seq<u8>>) -> bool {
    match authenticate(c, m, secs) {
        Ok(None) => key is None,
        Ok(Some((user, k))) => user == a.username && key == Some(k),
        Err(_) => false,
    }
}

/// The channel and the peer are each unbound, or bound to each other.
pub open spec fn may_be_bound(a: AllocModel, channel: u16, peer: SocketAddr) -> bool {
    &&& a.channels.contains_key(channel) ==> a.channels[channel] == peer
    &&& forall|ch: u16| #[trigger]
        a.channels.contains_key(ch) && a.channels[ch] == peer ==> ch == channel
}

proof fn conflict_is_seen(a: AllocModel, channel: u16, peer: SocketAddr)
    requires
        a.wf(),
    ensures
        crate::turn::rules::binding_conflicts(a, channel, peer) <==> !may_be_bound(
            a,
            channel,
            peer,
        ),
{
    broadcast use crate::net::addr_key_injective;

    let k = peer.spec_key();
    if a.channels_reverse.contains_key(k) {
        let ch = a.channels_reverse[k] as u16;
        assert(a.channels.contains_key(ch));
        assert(a.channels[ch].spec_key() == peer.spec_key());
    }
    assert forall|ch: u16| #[trigger]
        a.channels.contains_key(ch) && a.channels[ch] == peer implies a.channels_reverse.get(k)
        == Some(ch as u64) by {}
}

proof fn one_more(held: Set<IpAddr>, ip: IpAddr)
    ensures
        held.union(seq![ip].to_set()) == held.insert(ip),
{
    assert forall|x: IpAddr| seq![ip].contains(x) <==> x == ip by {
        if seq![ip].contains(x) {
            assert(seq![ip][0] == x);
        }
        assert(seq![ip][0] == ip);
    }
    assert(held.union(seq![ip].to_set()) =~= held.insert(ip));
}

/// A ChannelBind whose peer is not forbidden, whose channel and peer are each
/// unbound or bound to each other, and that stays within the caps on channels and
/// permissions, is answered with success. The two are then bound to each other, the
/// peer is permitted, and nothing else changes but that the client was seen. The
/// relay's own address may be bound like any other.
pub proof fn channel_bind_is_granted(
    c: Config,
    data: Seq<u8>,
    src: SocketAddr,
    draw: Draw,
    t: TableModel,
    l: LimiterModel,
    now_ms: u64,
    m: StunModel,
    id: u64,
    a: AllocModel,
    channel: u16,
    peer: SocketAddr,
    key: Option<Seq<u8>>,
)
    requires
        t.wf(),
        is_message(data, m, StunClass::Request, StunMethod::ChannelBind),
        m.channel_number == Some(channel),
        m.xor_peer_addresses.len() > 0,
        m.xor_peer_addresses[0] == peer,
        is_at(t, id, a, src),
        !is_forbidden_addr(c, peer) || peer == relay_of(c) && !is_forbidden_ip(c.external_ip),
        may_be_bound(a, channel, peer),
        a.channels.contains_key(channel) || a.channels.len() < c.max_channels_per_alloc,
        a.permissions.insert(peer.ip).len() <= c.max_permissions_per_alloc,
    ensures
        may_act(c, m, draw.unix_secs, a, key) ==> {
            let o = on_packet(c, data, src, draw, t, l, now_ms);
            &&& succeeds(o.effects, src, 0x0109, data.subrange(8, 20), key)
            &&& o.limiter == l
            &&& o.table.wf()
            &&& o.table.allocations == t.allocations.insert(
                id,
                AllocModel {
                    channels: a.channels.insert(channel, peer),
                    channels_reverse: a.channels_reverse.insert(peer.spec_key(), channel as u64),
                    permissions: a.permissions.insert(peer.ip),
                    last_activity_ms: now_ms,
                    last_received_ms: now_ms,
                    ..a
                },
            )
        },
{
    found_at(t, id, a, src);
    let secs = draw.unix_secs;
    if may_act(c, m, secs, a, key) {
        request_facts(data, m, m.method);
        conflict_is_seen(a, channel, peer);
        one_more(a.permissions, peer.ip);
        let cap = c.max_permissions_per_alloc as nat;
        let ips = seq![peer.ip];
        assert(bind_error(c, t, id, channel, peer) is None);
        let t1 = t.add_permissions_capped(id, ips, cap);
        fitting_permissions_are_added(t, id, ips, cap);
        add_permissions_capped_keeps_wf(t, id, ips, cap);
        assert(t1.indexed(id));
        let a1 = t1.allocations[id];
        assert(a1 == AllocModel { permissions: a.permissions.insert(peer.ip), ..a });
        bind_channel_keeps_wf(a1, channel, peer);
        let t2 = t1.bind_channel(id, channel, peer);
        modify_keeps_wf(t1, id, |x: AllocModel| x.bind_channel(channel, peer));
        modify_keeps_wf(t2, id, |x: AllocModel| x.touch_received(now_ms));
        bound_is_inserted(a1, channel, peer);
        let b = a1.bind_channel(channel, peer);
        let step = on_channel_bind(c, m, src, secs, t, now_ms);
        assert(step.table == t2.touch_received(id, now_ms));
        assert(step.table.allocations =~= t.allocations.insert(id, b.touch_received(now_ms)));
        success_is_told(m, key);
        let bytes = success_response(m, key);
        assert(step.effects == reply(src, bytes));
        assert(answers(step.effects, src, bytes));
    }
}

proof fn bound_is_inserted(a: AllocModel, channel: u16, peer: SocketAddr)
    requires
        a.wf(),
        may_be_bound(a, channel, peer),
    ensures
        a.bind_channel(channel, peer).channels == a.channels.insert(channel, peer),
        a.bind_channel(channel, peer).channels_reverse == a.channels_reverse.insert(
            peer.spec_key(),
            channel as u64,
        ),
{
    conflict_is_seen(a, channel, peer);
    let b = a.bind_channel(channel, peer);
    assert(b.channels =~= a.channels.insert(channel, peer));
    assert(b.channels_reverse =~= a.channels_reverse.insert(peer.spec_key(), channel as u64));
}

/// A ChannelBind that cannot be granted changes nothing. A forbidden peer is
/// refused with 403, a channel or peer that is bound otherwise with 400, and one
/// that is over a cap with 508.
pub proof fn channel_bind_is_refused(
    c: Config,
    data: Seq<u8>,
    src: SocketAddr,
    draw: Draw,
    t: TableModel,
    l: LimiterModel,
    now_ms: u64,
    m: StunModel,
    id: u64,
    a: AllocModel,
    channel: u16,
    peer: SocketAddr,
    key: Option<Seq<u8>>,
)
    requires
        t.wf(),
        is_message(data, m, StunClass::Request, StunMethod::ChannelBind),
        m.channel_number == Some(channel),
        m.xor_peer_addresses.len() > 0,
        m.xor_peer_addresses[0] == peer,
        is_at(t, id, a, src),
    ensures
        may_act(c, m, draw.unix_secs, a, key) ==> {
            let o = on_packet(c, data, src, draw, t, l, now_ms);
            let txn = data.subrange(8, 20);
            let is_over = !a.channels.contains_key(channel) && a.channels.len()
                >= c.max_channels_per_alloc || a.permissions.insert(peer.ip).len()
                > c.max_permissions_per_alloc;
            &&& is_forbidden_addr(c, peer) ==> o.table == t && refuses(
                o.effects,
                src,
                0x0119,
                txn,
                403,
                key,
            )
            &&& !is_forbidden_addr(c, peer) && !may_be_bound(a, channel, peer) ==> o.table == t
                && refuses(o.effects, src, 0x0119, txn, 400, key)
            &&& !is_forbidden_addr(c, peer) && may_be_bound(a, channel, peer) && is_over ==> o.table
                == t && refuses(o.effects, src, 0x0119, txn, 508, key)
        },
{
    found_at(t, id, a, src);
    if may_act(c, m, draw.unix_secs, a, key) {
        bind_error_is_told(c, data, src, draw, t, l, now_ms, m, id, a, channel, peer, key);
        conflict_is_seen(a, channel, peer);
        one_more(a.permissions, peer.ip);
    }
}

proof fn bind_error_is_told(
    c: Config,
    data: Seq<u8>,
    src: SocketAddr,
    draw: Draw,
    t: TableModel,
    l: LimiterModel,
    now_ms: u64,
    m: StunModel,
    id: u64,
    a: AllocModel,
    channel: u16,
    peer: SocketAddr,
    key: Option<Seq<u8>>,
)
    requires
        t.wf(),
        is_message(data, m, StunClass::Request, StunMethod::ChannelBind),
        m.channel_number == Some(channel),
        m.xor_peer_addresses.len() > 0,
        m.xor_peer_addresses[0] == peer,
        is_at(t, id, a, src),
        may_act(c, m, draw.unix_secs, a, key),
    ensures
        bind_error(c, t, id, channel, peer) matches Some(error) ==> {
            let o = on_packet(c, data, src, draw, t, l, now_ms);
            o.table == t && refuses(
                o.effects,
                src,
                0x0119,
                data.subrange(8, 20),
                error.spec_code() as int,
                key,
            )
        },
{
    found_at(t, id, a, src);
    request_facts(data, m, m.method);
    if let Some(error) = bind_error(c, t, id, channel, peer) {
        error_response_is_error(m, error, key);
        let bytes = error_response(m, error, key);
        let o = on_packet(c, data, src, draw, t, l, now_ms);
        assert(o.effects == reply(src, bytes));
        assert(answers(o.effects, src, bytes));
    }
}

/// The IPs of the peers that a message names.
pub open spec fn named_ips(m: StunModel) -> Set<IpAddr> {
    Set::new(
        |ip: IpAddr|
            exists|i: int|
                0 <= i < m.xor_peer_addresses.len() && (#[trigger] m.xor_peer_addresses[i]).ip
                    == ip,
    )
}

proof fn named_ips_are_listed(m: StunModel)
    ensures
        ips_of(m.xor_peer_addresses).to_set() == named_ips(m),
{
    let ips = ips_of(m.xor_peer_addresses);
    assert forall|ip: IpAddr| ips.contains(ip) <==> named_ips(m).contains(ip) by {
        if ips.contains(ip) {
            let i = choose|i: int| 0 <= i < ips.len() && ips[i] == ip;
            assert(m.xor_peer_addresses[i].ip == ip);
        }
        if named_ips(m).contains(ip) {
            let i = choose|i: int|
                0 <= i < m.xor_peer_addresses.len() && (#[trigger] m.xor_peer_addresses[i]).ip
                    == ip;
            assert(ips[i] == ip);
        }
    }
    assert(ips.to_set() =~= named_ips(m));
}

/// A CreatePermission that names no forbidden IP and stays within the cap is
/// answered with success, and all its peers are permitted beside those that were
/// before. One that names a forbidden IP is refused with 403 and changes nothing;
/// one that is over the cap is refused with 508 and permits nothing.
pub proof fn create_permission_is_granted(
    c: Config,
    data: Seq<u8>,
    src: SocketAddr,
    draw: Draw,
    t: TableModel,
    l: LimiterModel,
    now_ms: u64,
    m: StunModel,
    id: u64,
    a: AllocModel,
    key: Option<Seq<u8>>,
)
    requires
        t.wf(),
        is_message(data, m, StunClass::Request, StunMethod::CreatePermission),
        m.xor_peer_addresses.len() > 0,
        is_at(t, id, a, src),
    ensures
        may_act(c, m, draw.unix_secs, a, key) ==> {
            let o = on_packet(c, data, src, draw, t, l, now_ms);
            let txn = data.subrange(8, 20);
            let names_forbidden = exists|ip: IpAddr| #[trigger]
                named_ips(m).contains(ip) && is_forbidden_ip(ip);
            let all = a.permissions.union(named_ips(m));
            let seen = AllocModel { last_activity_ms: now_ms, last_received_ms: now_ms, ..a };
            &&& o.limiter == l
            &&& names_forbidden ==> o.table == t && refuses(o.effects, src, 0x0118, txn, 403, key)
            &&& !names_forbidden && all.len() <= c.max_permissions_per_alloc ==> {
                &&& succeeds(o.effects, src, 0x0108, txn, key)
                &&& o.table.allocations == t.allocations.insert(
                    id,
                    AllocModel { permissions: all, ..seen },
                )
                &&& o.table.wf()
            }
            &&& !names_forbidden && all.len() > c.max_permissions_per_alloc ==> {
                &&& refuses(o.effects, src, 0x0118, txn, 508, key)
                &&& o.table.allocations == t.allocations.insert(id, seen)
            }
        },
{
    found_at(t, id, a, src);
    let secs = draw.unix_secs;
    if may_act(c, m, secs, a, key) {
        request_facts(data, m, m.method);
        named_ips_are_listed(m);
        let peers = m.xor_peer_addresses;
        let ips = ips_of(peers);
        let cap = c.max_permissions_per_alloc as nat;
        let step = on_create_permission(c, m, src, secs, t, now_ms);
        let names_forbidden = exists|ip: IpAddr| #[trigger]
            named_ips(m).contains(ip) && is_forbidden_ip(ip);
        let inner = exists|i: int| 0 <= i < peers.len() && #[trigger] is_forbidden_ip(peers[i].ip);
        assert(names_forbidden <==> inner) by {
            if names_forbidden {
                let ip = choose|ip: IpAddr| #[trigger]
                    named_ips(m).contains(ip) && is_forbidden_ip(ip);
                let i = choose|i: int| 0 <= i < peers.len() && (#[trigger] peers[i]).ip == ip;
                assert(is_forbidden_ip(peers[i].ip));
            }
            if inner {
                let i = choose|i: int|
                    0 <= i < peers.len() && #[trigger] is_forbidden_ip(peers[i].ip);
                assert(peers[i].ip == peers[i].ip);
                assert(named_ips(m).contains(peers[i].ip));
            }
        }
        error_response_is_error(m, TurnErrorCode::Forbidden, key);
        error_response_is_error(m, TurnErrorCode::InsufficientCapacity, key);
        success_is_told(m, key);
        if names_forbidden {
            let bytes = error_response(m, TurnErrorCode::Forbidden, key);
            assert(step.effects == reply(src, bytes));
            assert(answers(step.effects, src, bytes));
        } else {
            let t1 = t.touch_received(id, now_ms);
            modify_keeps_wf(t, id, |x: AllocModel| x.touch_received(now_ms));
            if t1.fits_permissions(id, ips, cap) {
                fitting_permissions_are_added(t1, id, ips, cap);
                add_permissions_capped_keeps_wf(t1, id, ips, cap);
                assert(step.table.allocations =~= t.allocations.insert(
                    id,
                    AllocModel {
                        permissions: a.permissions.union(named_ips(m)),
                        ..a.touch_received(now_ms)
                    },
                ));
                let bytes = success_response(m, key);
                assert(step.effects == reply(src, bytes));
                assert(answers(step.effects, src, bytes));
            } else {
                let bytes = error_response(m, TurnErrorCode::InsufficientCapacity, key);
                assert(step.effects == reply(src, bytes));
                assert(answers(step.effects, src, bytes));
            }
        }
    }
}

} // verus!
