//! Who is owed what is relayed: Send indications.

use vstd::prelude::*;

use super::terms::{
    carries, found_at, frame_carries, is_at, is_message, named_pair, names, reaches_only, relay_of,
    sends_at,
};
use crate::config::Config;
use crate::demux::stun::{stun_of, StunClass, StunMethod, StunModel};
use crate::lookup::laws::{client_is_indexed, register_ice_keeps_wf};
use crate::lookup::model::{AllocModel, TableModel};
use crate::lookup::rate_limit::LimiterModel;
use crate::net::SocketAddr;
use crate::relay::effect::{DatagramModel, EffectModel};
use crate::relay::laws::{are_paired, send_goes_where_it_may, sends};
use crate::server::on_packet;
use crate::turn::rules::{
    check_ufrags, framed, ice_target, is_forbidden_addr, is_forbidden_ip, learn_ufrags, on_send,
    peers_of, permitting_clients, relay_targets, send_to_all, Draw,
};

verus! {

/// `data` is an ICE check: a Binding request that names two ufrags.
pub open spec fn checks(data: Seq<u8>, remote: Seq<char>, local: Seq<char>) -> bool {
    stun_of(data) matches Some(k) && k.class == StunClass::Request && k.method
        == StunMethod::Binding && names(k, remote, local)
}

/// `data` is an ICE check for the client of `b`.
pub open spec fn is_check_for(data: Seq<u8>, b: AllocModel) -> bool {
    exists|remote: Seq<char>, local: Seq<char>| #[trigger]
        checks(data, remote, local) && b.ice_ufrag == Some(remote)
}

/// `data` is an ICE check for a client other than the one at `src` that permits
/// the relay.
pub open spec fn is_check_for_another(c: Config, t: TableModel, src: SocketAddr, data: Seq<u8>) -> bool {
    exists|x: u64| #[trigger]
        t.allocations.contains_key(x) && t.allocations[x].client_addr != src
            && t.allocations[x].permissions.contains(c.external_ip) && is_check_for(
            data,
            t.allocations[x],
        )
}

proof fn check_names(data: Seq<u8>, remote: Seq<char>, local: Seq<char>)
    ensures
        checks(data, remote, local) <==> check_ufrags(data) == Some((remote, local)),
{
    if let Some(k) = stun_of(data) {
        named_pair(k, remote, local);
    }
}

/// Registering the ufrags of a check leaves all other clients as they were, and
/// a client that has ufrags too.
pub(crate) proof fn learning_leaves_others(t: TableModel, id: u64, pair: Option<(Seq<char>, Seq<char>)>, other: u64, b: AllocModel)
    requires
        t.wf(),
        t.allocations.contains_key(id),
        is_at(t, other, b, b.client_addr),
        other != id || b.ice_ufrag is Some,
    ensures
        learn_ufrags(t, id, pair).wf(),
        is_at(learn_ufrags(t, id, pair), other, b, b.client_addr),
        b.ice_ufrag matches Some(u) ==> learn_ufrags(t, id, pair).by_ice_ufrag.get(u) == Some(other),
        forall|x: u64| #[trigger]
            learn_ufrags(t, id, pair).allocations.contains_key(x) <==> t.allocations.contains_key(x),
        forall|x: u64|
            x != id ==> #[trigger] learn_ufrags(t, id, pair).allocations[x] == t.allocations[x],
        learn_ufrags(t, id, pair).allocations[id].client_addr == t.allocations[id].client_addr,
{
    assert(t.indexed(other));
    if let Some((remote, local)) = pair {
        register_ice_keeps_wf(t, id, local, remote);
    }
}

/// The data of a Send indication to the relay's own address is delivered. If it
/// is an ICE check for another client that permits the relay, it goes to that
/// client; otherwise it goes to the client that the sender is paired with, if
/// that one permits the relay. Either way it comes in an indication from the
/// relay, and counts as relayed.
pub proof fn send_to_relay_is_delivered(
    c: Config,
    data: Seq<u8>,
    src: SocketAddr,
    draw: Draw,
    t: TableModel,
    l: LimiterModel,
    now_ms: u64,
    m: StunModel,
    id: u64,
    a: AllocModel,
    other: u64,
    b: AllocModel,
    payload: Seq<u8>,
)
    requires
        t.wf(),
        is_message(data, m, StunClass::Indication, StunMethod::Send),
        m.xor_peer_addresses.len() > 0,
        m.xor_peer_addresses[0] == relay_of(c),
        m.data == Some(payload),
        !is_forbidden_ip(c.external_ip),
        is_at(t, id, a, src),
        is_at(t, other, b, b.client_addr),
        b.client_addr != src,
        a.permissions.contains(c.external_ip),
        b.permissions.contains(c.external_ip),
        is_check_for(payload, b) || are_paired(a, b) && !is_check_for_another(c, t, src, payload),
    ensures
        ({
            let o = on_packet(c, data, src, draw, t, l, now_ms);
            o.effects == seq![
                EffectModel::Send {
                    to: seq![b.client_addr],
                    datagram: DatagramModel::DataIndication { source: relay_of(c), data: payload },
                },
                EffectModel::TouchReceivedFrom { client: src, relayed: true },
            ]
        }),
{
    found_at(t, id, a, src);
    found_at(t, other, b, b.client_addr);
    let pair = check_ufrags(payload);
    let t1 = learn_ufrags(t, id, pair);
    learning_leaves_others(t, id, pair, other, b);
    let targets = relay_targets(c, t1, id, src, payload);
    assert(targets == seq![b.client_addr]) by {
        if is_check_for(payload, b) {
            let (remote, local) = choose|remote: Seq<char>, local: Seq<char>| #[trigger]
                checks(payload, remote, local) && b.ice_ufrag == Some(remote);
            check_names(payload, remote, local);
        } else {
            if let Some((remote, local)) = pair {
                check_names(payload, remote, local);
                if let Some(addr) = ice_target(c, t1, remote, src) {
                    let x = t1.by_ice_ufrag[remote];
                    assert(t1.by_ice_ufrag.contains_key(remote));
                    assert(t1.allocations.contains_key(x));
                    assert(checks(payload, remote, local) && t.allocations[x].ice_ufrag == Some(
                        remote,
                    ));
                    assert(is_check_for(payload, t.allocations[x]));
                    assert(false);
                }
            }
            learning_leaves_others(t, id, pair, id, a);
            assert(t1.indexed(other));
            assert(peers_of(t1, id) == seq![other]);
            assert(seq![other].drop_last() =~= Seq::<u64>::empty());
            reveal_with_fuel(permitting_clients, 2);
            assert(targets =~= seq![b.client_addr]);
        }
    }
    let d = DatagramModel::DataIndication { source: relay_of(c), data: payload };
    let touch = EffectModel::TouchReceivedFrom { client: src, relayed: true };
    let e = on_packet(c, data, src, draw, t, l, now_ms).effects;
    assert(e == send_to_all(targets, d).push(touch));
    assert(e =~= seq![EffectModel::Send { to: seq![b.client_addr], datagram: d }, touch]);
}

/// A Send indication to the relay reaches nobody but the client that its data is
/// an ICE check for, or else the client that the sender is paired with. If it
/// reaches nobody, it does not count as relayed, but still as traffic from the
/// client.
pub proof fn send_to_relay_reaches_no_other(
    c: Config,
    data: Seq<u8>,
    src: SocketAddr,
    draw: Draw,
    t: TableModel,
    l: LimiterModel,
    now_ms: u64,
    m: StunModel,
    id: u64,
    a: AllocModel,
    payload: Seq<u8>,
)
    requires
        t.wf(),
        is_message(data, m, StunClass::Indication, StunMethod::Send),
        m.xor_peer_addresses.len() > 0,
        m.xor_peer_addresses[0] == relay_of(c),
        m.data == Some(payload),
        !is_forbidden_ip(c.external_ip),
        is_at(t, id, a, src),
        a.permissions.contains(c.external_ip),
    ensures
        ({
            let o = on_packet(c, data, src, draw, t, l, now_ms);
            let sender = o.table.allocations[id];
            &&& forall|addr: SocketAddr, d: DatagramModel| #[trigger]
                sends(o.effects, addr, d) ==> addr != src && d == (DatagramModel::DataIndication {
                    source: relay_of(c),
                    data: payload,
                }) && (t.client(addr) matches Some(b) && b.client_addr == addr
                    && b.permissions.contains(c.external_ip) && (is_check_for(payload, b)
                    || are_paired(sender, b)))
            &&& (forall|addr: SocketAddr, d: DatagramModel| !#[trigger] sends(o.effects, addr, d))
                ==> o.effects == seq![
                EffectModel::TouchReceivedFrom { client: src, relayed: false },
            ]
        }),
{
    found_at(t, id, a, src);
    let o = on_packet(c, data, src, draw, t, l, now_ms);
    let pair = check_ufrags(payload);
    let t1 = learn_ufrags(t, id, pair);
    if a.ice_ufrag is Some {
        learning_leaves_others(t, id, pair, id, a);
    } else if let Some((remote, local)) = pair {
        register_ice_keeps_wf(t, id, local, remote);
    }
    assert(o.table == t1);
    let targets = relay_targets(c, t1, id, src, payload);
    let dd = DatagramModel::DataIndication { source: relay_of(c), data: payload };
    let touch = EffectModel::TouchReceivedFrom { client: src, relayed: targets.len() > 0 };
    assert(o.effects == send_to_all(targets, dd).push(touch));
    assert forall|addr: SocketAddr, d: DatagramModel| #[trigger]
        sends(o.effects, addr, d) implies addr != src && d == dd && (t.client(addr) matches Some(b)
        && b.client_addr == addr && b.permissions.contains(c.external_ip) && (is_check_for(
        payload,
        b,
    ) || are_paired(t1.allocations[id], b))) by {
        assert(o.effects == on_send(c, m, src, t).effects);
        send_goes_where_it_may(c, m, src, t, addr, d);
        client_is_indexed(t, addr);
        let (i, to) = choose|i: int, to: Seq<SocketAddr>|
            #![trigger o.effects[i], to.contains(addr)]
            0 <= i < o.effects.len() && o.effects[i] == (EffectModel::Send { to, datagram: d })
                && to.contains(addr);
        assert(to == targets);
        let named = match pair {
            Some((remote, _)) => ice_target(c, t1, remote, src),
            None => None,
        };
        let b = t.client(addr)->0;
        match named {
            Some(x) => {
                let (remote, local) = pair->0;
                check_names(payload, remote, local);
                let y = t1.by_ice_ufrag[remote];
                assert(t1.by_ice_ufrag.contains_key(remote));
                assert(t1.allocations[y].client_addr == addr);
                assert(t1.indexed(y));
                assert(t.allocations.contains_key(y));
                assert(y != id);
                found_at(t, y, t.allocations[y], addr);
                assert(checks(payload, remote, local) && b.ice_ufrag == Some(remote));
            },
            None => {
                paired_target(c, t1, id, src, addr);
                assert(b.id != id);
                assert(t1.allocations[b.id] == b);
                client_is_indexed(t1, addr);
            },
        }
    }
    if targets.len() > 0 {
        assert(o.effects[0] == (EffectModel::Send { to: targets, datagram: dd }));
        assert(targets.contains(targets[0]));
        sends_at(o.effects, 0, targets, targets[0], dd);
    } else {
        assert(o.effects =~= seq![touch]);
    }
}

proof fn paired_target(c: Config, t: TableModel, id: u64, src: SocketAddr, addr: SocketAddr)
    requires
        t.wf(),
        t.allocations.contains_key(id),
        permitting_clients(c, t, peers_of(t, id), src).contains(addr),
    ensures
        t.client(addr) matches Some(b) && are_paired(t.allocations[id], b),
{
    let ids = peers_of(t, id);
    let a = t.allocations[id];
    let key = (a.ice_remote_ufrag->0, a.ice_ufrag->0);
    reveal_with_fuel(permitting_clients, 3);
    assert(ids.len() <= 1);
    if ids.len() == 1 {
        assert(ids.drop_last() =~= Seq::<u64>::empty());
        let other = ids[0];
        assert(t.by_ice_ufrag_pair.contains_key(key));
        assert(t.allocations.contains_key(other));
        found_at(t, other, t.allocations[other], t.allocations[other].client_addr);
        assert(t.indexed(id));
    }
}

/// The data of a Send indication to a peer outside reaches the peer as it is. If
/// the peer is itself a client, the data comes to it in its channel for the
/// sender, or else in an indication that names the sender. Nobody else gets it,
/// and the client is seen to be active.
pub proof fn send_to_peer_is_delivered(
    c: Config,
    data: Seq<u8>,
    src: SocketAddr,
    draw: Draw,
    t: TableModel,
    l: LimiterModel,
    now_ms: u64,
    m: StunModel,
    id: u64,
    a: AllocModel,
    peer: SocketAddr,
    payload: Seq<u8>,
)
    requires
        t.wf(),
        is_message(data, m, StunClass::Indication, StunMethod::Send),
        m.xor_peer_addresses.len() > 0,
        m.xor_peer_addresses[0] == peer,
        m.data == Some(payload),
        peer != relay_of(c),
        !is_forbidden_addr(c, peer),
        is_at(t, id, a, src),
        a.permissions.contains(peer.ip),
    ensures
        ({
            let o = on_packet(c, data, src, draw, t, l, now_ms);
            let touch = EffectModel::TouchReceivedFrom { client: src, relayed: false };
            &&& o.table == t
            &&& o.limiter == l
            &&& forall|other: u64, b: AllocModel| #[trigger]
                is_at(t, other, b, peer) ==> reaches_only(
                    o.effects,
                    b,
                    src,
                    payload,
                    seq![EffectModel::Touch { id: other }, touch],
                )
            &&& (forall|other: u64| #[trigger]
                t.allocations.contains_key(other) ==> t.allocations[other].client_addr != peer)
                ==> o.effects == seq![
                EffectModel::Send { to: seq![peer], datagram: DatagramModel::Raw(payload) },
                touch,
            ]
        }),
{
    found_at(t, id, a, src);
    client_is_indexed(t, peer);
    let o = on_packet(c, data, src, draw, t, l, now_ms);
    let touch = EffectModel::TouchReceivedFrom { client: src, relayed: false };
    let e = o.effects;
    assert(e == on_send(c, m, src, t).effects);
    if let Some(b) = t.client(peer) {
        let d = framed(b, src, payload);
        frame_carries(b, src, payload);
        assert(carries(d, b, src, payload));
        assert(e =~= seq![EffectModel::Send { to: seq![b.client_addr], datagram: d }] + seq![
            EffectModel::Touch { id: b.id },
            touch,
        ]);
        assert(t.allocations.contains_key(b.id));
    }
    assert forall|other: u64, x: AllocModel| #[trigger] is_at(t, other, x, peer) implies reaches_only(
        e,
        x,
        src,
        payload,
        seq![EffectModel::Touch { id: other }, touch],
    ) by {
        found_at(t, other, x, peer);
    }
}

/// A Send indication does nothing unless it comes from a client, names a peer that the
/// client permits and that is not forbidden, and holds data.
pub proof fn other_sends_are_dropped(
    c: Config,
    data: Seq<u8>,
    src: SocketAddr,
    draw: Draw,
    t: TableModel,
    l: LimiterModel,
    now_ms: u64,
    m: StunModel,
)
    requires
        t.wf(),
        is_message(data, m, StunClass::Indication, StunMethod::Send),
        m.data is None || m.xor_peer_addresses.len() == 0 || is_forbidden_addr(
            c,
            m.xor_peer_addresses[0],
        ) || (forall|id: u64| #[trigger]
            t.allocations.contains_key(id) && t.allocations[id].client_addr == src
                ==> !t.allocations[id].permissions.contains(m.xor_peer_addresses[0].ip)),
    ensures
        ({
            let o = on_packet(c, data, src, draw, t, l, now_ms);
            o.table == t && o.limiter == l && o.effects.len() == 0
        }),
{
    client_is_indexed(t, src);
    if let Some(a) = t.client(src) {
        assert(t.allocations.contains_key(a.id));
    }
}

/// An ICE check in a Send indication to the relay is remembered, if the client
/// has no ufrags yet and nobody else has the one it gives as its own. Nothing
/// else of the table changes, and nothing at all if the data is no check.
pub proof fn send_to_relay_registers_ufrags(
    c: Config,
    data: Seq<u8>,
    src: SocketAddr,
    draw: Draw,
    t: TableModel,
    l: LimiterModel,
    now_ms: u64,
    m: StunModel,
    id: u64,
    a: AllocModel,
    payload: Seq<u8>,
    remote: Seq<char>,
    local: Seq<char>,
)
    requires
        t.wf(),
        is_message(data, m, StunClass::Indication, StunMethod::Send),
        m.xor_peer_addresses.len() > 0,
        m.xor_peer_addresses[0] == relay_of(c),
        m.data == Some(payload),
        !is_forbidden_ip(c.external_ip),
        is_at(t, id, a, src),
        a.permissions.contains(c.external_ip),
    ensures
        ({
            let o = on_packet(c, data, src, draw, t, l, now_ms);
            let free = a.ice_ufrag is None && forall|x: u64| #[trigger]
                t.allocations.contains_key(x) ==> t.allocations[x].ice_ufrag != Some(local);
            &&& o.limiter == l
            &&& checks(payload, remote, local) && free ==> o.table.allocations == t.allocations.insert(
                id,
                AllocModel { ice_ufrag: Some(local), ice_remote_ufrag: Some(remote), ..a },
            )
            &&& checks(payload, remote, local) && !free ==> o.table == t
            &&& (forall|r: Seq<char>, s: Seq<char>| !#[trigger] checks(payload, r, s)) ==> o.table
                == t
        }),
{
    found_at(t, id, a, src);
    check_names(payload, remote, local);
    if checks(payload, remote, local) {
        if t.by_ice_ufrag.contains_key(local) {
            assert(t.allocations.contains_key(t.by_ice_ufrag[local]));
        } else {
            assert forall|x: u64| #[trigger] t.allocations.contains_key(x) implies
                t.allocations[x].ice_ufrag != Some(local) by {
                assert(t.indexed(x));
            }
        }
    }
    if let Some((r, s)) = check_ufrags(payload) {
        check_names(payload, r, s);
    }
}

} // verus!
