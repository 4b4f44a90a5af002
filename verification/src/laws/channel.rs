//! Who is owed what is relayed: ChannelData.

use vstd::prelude::*;

use super::delivery::learning_leaves_others;
use super::terms::{
    carries, delivery_is_sent, found_at, frame_carries, is_at, only_delivery, only_one_is_reached,
    reaches, reaches_only, relay_of, sends_more,
};
use crate::config::Config;
use crate::demux::stun::{attributes, cookie, Attribute};
use crate::lookup::laws::{client_is_indexed, register_ice_keeps_wf};
use crate::lookup::model::{AllocModel, TableModel};
use crate::lookup::rate_limit::LimiterModel;
use crate::lookup::AllocationId;
use crate::net::SocketAddr;
use crate::relay::effect::{send_to, DatagramModel, EffectModel};
use crate::relay::laws::{are_paired, sends};
use crate::relay::rules::{
    check_listener, deliver_all, first_pair, frame_of, listener_deliveries, looks_like_stun,
    on_channel_data, stun_deliveries, ufrags_of, Delivery,
};
use crate::server::on_packet;
use crate::text::{split_at_colon, split_joined, text_of};
use crate::turn::rules::{is_forbidden_addr, learn_ufrags, peers_of, Draw};

verus! {

/// The datagram holds `payload` for the channel `channel`.
pub open spec fn holds(data: Seq<u8>, channel: u16, payload: Seq<u8>) -> bool {
    &&& data.len() >= 4 + payload.len()
    &&& 64 <= data[0] <= 127
    &&& channel == data[0] * 256 + data[1]
    &&& payload.len() == data[2] * 256 + data[3]
    &&& payload == data.subrange(4, payload.len() + 4int)
}

/// The payload starts with a STUN header.
pub open spec fn is_stun_like(payload: Seq<u8>) -> bool {
    &&& payload.len() >= 20
    &&& payload[0] <= 3
    &&& payload[4] == 0x21
    &&& payload[5] == 0x12
    &&& payload[6] == 0xa4
    &&& payload[7] == 0x42
}

/// The payload names the ufrag of the client of `b`.
pub open spec fn is_named(payload: Seq<u8>, b: AllocModel) -> bool {
    ufrags_of(payload) matches Some((remote, _)) && b.ice_ufrag == Some(remote)
}

/// The payload names the ufrag of a client other than the one at `src`.
pub open spec fn names_another(t: TableModel, src: SocketAddr, payload: Seq<u8>) -> bool {
    exists|x: u64| #[trigger]
        t.allocations.contains_key(x) && t.allocations[x].client_addr != src && is_named(
            payload,
            t.allocations[x],
        )
}

/// The client at `src` has the channel `channel` bound to `peer`, which it permits.
pub open spec fn is_bound(a: AllocModel, channel: u16, peer: SocketAddr) -> bool {
    &&& a.channels.contains_key(channel)
    &&& a.channels[channel] == peer
    &&& a.permissions.contains(peer.ip)
}

proof fn channel_data_is_handled(
    c: Config,
    data: Seq<u8>,
    src: SocketAddr,
    draw: Draw,
    t: TableModel,
    l: LimiterModel,
    now_ms: u64,
    channel: u16,
    payload: Seq<u8>,
)
    requires
        holds(data, channel, payload),
    ensures
        on_packet(c, data, src, draw, t, l, now_ms) == on_channel_data(
            c,
            channel,
            payload,
            src,
            t,
        ).with(l),
{
}

proof fn header_is_stun_like(payload: Seq<u8>)
    ensures
        looks_like_stun(payload) <==> is_stun_like(payload),
{
    if payload.len() >= 20 {
        let s = payload.subrange(4, 8);
        assert(s[0] == payload[4] && s[1] == payload[5] && s[2] == payload[6] && s[3]
            == payload[7]);
        if is_stun_like(payload) {
            assert(s =~= cookie());
        }
    }
}

proof fn only_listener(
    t: TableModel,
    ids: Seq<u64>,
    src: SocketAddr,
    relay: SocketAddr,
    data: Seq<u8>,
    other: u64,
    b: AllocModel,
    records: Seq<EffectModel>,
)
    requires
        t.wf(),
        ids == seq![other],
        is_at(t, other, b, b.client_addr),
        b.client_addr != src,
    ensures
        listener_deliveries(t, ids, src, relay).len() == 1,
        reaches_only(
            deliver_all(listener_deliveries(t, ids, src, relay), relay, data) + records,
            b,
            relay,
            data,
            seq![EffectModel::Touch { id: other }] + records,
        ),
{
    found_at(t, other, b, b.client_addr);
    let d = Delivery {
        id: AllocationId(other),
        client_addr: b.client_addr,
        channel: b.channel_for_peer(relay),
    };
    reveal_with_fuel(listener_deliveries, 2);
    assert(ids.drop_last() =~= Seq::<u64>::empty());
    assert(listener_deliveries(t, ids, src, relay) =~= seq![d]);
    only_delivery(d, other, b, relay, data, records);
}

proof fn paired_is_peer(t: TableModel, id: u64, a: AllocModel, other: u64, b: AllocModel)
    requires
        t.wf(),
        is_at(t, id, a, a.client_addr),
        is_at(t, other, b, b.client_addr),
        are_paired(a, b),
    ensures
        peers_of(t, id) == seq![other],
        peers_of(t, id).contains(other),
{
    assert(t.indexed(id));
    assert(t.indexed(other));
    assert(seq![other][0] == other);
}

/// A STUN message in a channel to the relay is delivered. If it names the ufrag
/// of another client, it goes to that client; otherwise it goes to the client
/// that the sender is paired with.
pub proof fn channel_stun_is_delivered(
    c: Config,
    data: Seq<u8>,
    src: SocketAddr,
    draw: Draw,
    t: TableModel,
    l: LimiterModel,
    now_ms: u64,
    channel: u16,
    payload: Seq<u8>,
    id: u64,
    a: AllocModel,
    other: u64,
    b: AllocModel,
)
    requires
        t.wf(),
        holds(data, channel, payload),
        is_stun_like(payload),
        is_at(t, id, a, src),
        is_bound(a, channel, relay_of(c)),
        is_at(t, other, b, b.client_addr),
        b.client_addr != src,
        is_named(payload, b) || are_paired(a, b) && !names_another(t, src, payload),
    ensures
        ({
            let o = on_packet(c, data, src, draw, t, l, now_ms);
            reaches_only(
                o.effects,
                b,
                relay_of(c),
                payload,
                seq![EffectModel::Touch { id: other }, EffectModel::TouchReceived { id }],
            )
        }),
{
    channel_data_is_handled(c, data, src, draw, t, l, now_ms, channel, payload);
    header_is_stun_like(payload);
    found_at(t, id, a, src);
    let relay = relay_of(c);
    let pair = ufrags_of(payload);
    let t1 = learn_ufrags(t, id, pair);
    learning_leaves_others(t, id, pair, other, b);
    let ds = stun_deliveries(t1, id, src, relay, payload);
    let received = EffectModel::TouchReceived { id };
    if is_named(payload, b) {
        let (remote, local) = pair->0;
        only_listener(
            t1,
            check_listener(t1, remote),
            src,
            relay,
            payload,
            other,
            b,
            seq![received],
        );
    } else {
        if let Some((remote, local)) = pair {
            let ids = check_listener(t1, remote);
            let named = listener_deliveries(t1, ids, src, relay);
            if named.len() > 0 {
                reveal_with_fuel(listener_deliveries, 2);
                let x = t1.by_ice_ufrag[remote];
                assert(t1.by_ice_ufrag.contains_key(remote));
                assert(ids == seq![x]);
                assert(ids.drop_last() =~= Seq::<u64>::empty());
                assert(t1.allocations.contains_key(x));
                assert(t1.allocations[x].client_addr != src);
                assert(t.allocations.contains_key(x));
                assert(is_named(payload, t.allocations[x]));
                assert(false);
            }
        }
        learning_leaves_others(t, id, pair, id, a);
        paired_is_peer(t1, id, a, other, b);
        only_listener(t1, peers_of(t1, id), src, relay, payload, other, b, seq![received]);
    }
    let e = deliver_all(ds, relay, payload);
    assert(on_channel_data(c, channel, payload, src, t).effects =~= e + seq![received]);
    assert(seq![EffectModel::Touch { id: other }] + seq![received] =~= seq![
        EffectModel::Touch { id: other },
        received,
    ]);
}

/// Media in a channel to the relay is delivered to the client that the sender is
/// paired with, and counts as relayed.
pub proof fn channel_media_is_delivered(
    c: Config,
    data: Seq<u8>,
    src: SocketAddr,
    draw: Draw,
    t: TableModel,
    l: LimiterModel,
    now_ms: u64,
    channel: u16,
    payload: Seq<u8>,
    id: u64,
    a: AllocModel,
    other: u64,
    b: AllocModel,
)
    requires
        t.wf(),
        holds(data, channel, payload),
        !is_stun_like(payload),
        is_at(t, id, a, src),
        is_bound(a, channel, relay_of(c)),
        is_at(t, other, b, b.client_addr),
        b.client_addr != src,
        are_paired(a, b),
    ensures
        ({
            let o = on_packet(c, data, src, draw, t, l, now_ms);
            &&& reaches_only(
                o.effects,
                b,
                relay_of(c),
                payload,
                seq![
                    EffectModel::Touch { id: other },
                    EffectModel::TouchRelay { id, relayed: true },
                    EffectModel::TouchReceived { id },
                ],
            )
            &&& o.table == t
        }),
{
    channel_data_is_handled(c, data, src, draw, t, l, now_ms, channel, payload);
    header_is_stun_like(payload);
    found_at(t, id, a, src);
    let relay = relay_of(c);
    let ds = listener_deliveries(t, peers_of(t, id), src, relay);
    paired_is_peer(t, id, a, other, b);
    let relayed = EffectModel::TouchRelay { id, relayed: true };
    let received = EffectModel::TouchReceived { id };
    only_listener(t, peers_of(t, id), src, relay, payload, other, b, seq![relayed, received]);
    let e = deliver_all(ds, relay, payload);
    assert(on_channel_data(c, channel, payload, src, t).effects =~= e + seq![relayed, received]);
    assert(seq![EffectModel::Touch { id: other }] + seq![relayed, received] =~= seq![
        EffectModel::Touch { id: other },
        relayed,
        received,
    ]);
}

/// Whatever a paired client sends to the relay in a channel reaches somebody,
/// with its payload as it was.
pub proof fn channel_data_to_relay_reaches_somebody(
    c: Config,
    data: Seq<u8>,
    src: SocketAddr,
    draw: Draw,
    t: TableModel,
    l: LimiterModel,
    now_ms: u64,
    channel: u16,
    payload: Seq<u8>,
    id: u64,
    a: AllocModel,
    other: u64,
    b: AllocModel,
)
    requires
        t.wf(),
        holds(data, channel, payload),
        is_at(t, id, a, src),
        is_bound(a, channel, relay_of(c)),
        is_at(t, other, b, b.client_addr),
        b.client_addr != src,
        are_paired(a, b),
    ensures
        exists|x: u64| #[trigger]
            t.allocations.contains_key(x) && t.allocations[x].client_addr != src && reaches(
                on_packet(c, data, src, draw, t, l, now_ms).effects,
                t.allocations[x],
                relay_of(c),
                payload,
            ),
{
    if !is_stun_like(payload) {
        channel_media_is_delivered(
            c,
            data,
            src,
            draw,
            t,
            l,
            now_ms,
            channel,
            payload,
            id,
            a,
            other,
            b,
        );
        only_one_is_reached(
            on_packet(c, data, src, draw, t, l, now_ms).effects,
            b,
            relay_of(c),
            payload,
            seq![
                EffectModel::Touch { id: other },
                EffectModel::TouchRelay { id, relayed: true },
                EffectModel::TouchReceived { id },
            ],
        );
    } else {
        let x = if names_another(t, src, payload) {
            choose|x: u64| #[trigger]
                t.allocations.contains_key(x) && t.allocations[x].client_addr != src && is_named(
                    payload,
                    t.allocations[x],
                )
        } else {
            other
        };
        channel_stun_is_delivered(
            c,
            data,
            src,
            draw,
            t,
            l,
            now_ms,
            channel,
            payload,
            id,
            a,
            x,
            t.allocations[x],
        );
        only_one_is_reached(
            on_packet(c, data, src, draw, t, l, now_ms).effects,
            t.allocations[x],
            relay_of(c),
            payload,
            seq![EffectModel::Touch { id: x }, EffectModel::TouchReceived { id }],
        );
    }
}

proof fn no_listener(t: TableModel, ids: Seq<u64>, src: SocketAddr, relay: SocketAddr)
    requires
        forall|i: int|
            0 <= i < ids.len() ==> !t.allocations.contains_key(#[trigger] ids[i])
                || t.allocations[ids[i]].client_addr == src,
    ensures
        listener_deliveries(t, ids, src, relay) == Seq::<Delivery>::empty(),
    decreases ids.len(),
{
    if ids.len() > 0 {
        assert forall|i: int| 0 <= i < ids.drop_last().len() implies !t.allocations.contains_key(
            #[trigger] ids.drop_last()[i],
        ) || t.allocations[ids.drop_last()[i]].client_addr == src by {
            assert(ids.drop_last()[i] == ids[i]);
        }
        no_listener(t, ids.drop_last(), src, relay);
        assert(ids[ids.len() - 1] == ids.last());
    }
}

/// What is sent to the relay in a channel reaches nobody but the client that it
/// names, or else the client that the sender is paired with. Media that reaches
/// nobody is known not to have been relayed; of STUN that reaches nobody only the
/// traffic is recorded.
pub proof fn channel_data_to_relay_reaches_no_other(
    c: Config,
    data: Seq<u8>,
    src: SocketAddr,
    draw: Draw,
    t: TableModel,
    l: LimiterModel,
    now_ms: u64,
    channel: u16,
    payload: Seq<u8>,
    id: u64,
    a: AllocModel,
)
    requires
        t.wf(),
        holds(data, channel, payload),
        is_at(t, id, a, src),
        is_bound(a, channel, relay_of(c)),
    ensures
        ({
            let o = on_packet(c, data, src, draw, t, l, now_ms);
            let sender = o.table.allocations[id];
            &&& forall|addr: SocketAddr, d: DatagramModel| #[trigger]
                sends(o.effects, addr, d) ==> addr != src && (t.client(addr) matches Some(b)
                    && b.client_addr == addr && carries(d, b, relay_of(c), payload) && (
                is_stun_like(payload) && is_named(payload, b) || are_paired(sender, b)))
            &&& !is_stun_like(payload) && (forall|other: u64| #[trigger]
                t.allocations.contains_key(other) ==> !are_paired(a, t.allocations[other])
                    || t.allocations[other].client_addr == src) ==> o.effects == seq![
                EffectModel::TouchRelay { id, relayed: false },
                EffectModel::TouchReceived { id },
            ]
            &&& is_stun_like(payload) && (forall|addr: SocketAddr, d: DatagramModel|
                !#[trigger] sends(o.effects, addr, d)) ==> o.effects == seq![
                EffectModel::TouchReceived { id },
            ]
        }),
{
    channel_data_is_handled(c, data, src, draw, t, l, now_ms, channel, payload);
    header_is_stun_like(payload);
    found_at(t, id, a, src);
    let relay = relay_of(c);
    let pair = ufrags_of(payload);
    let t1 = if is_stun_like(payload) {
        learn_ufrags(t, id, pair)
    } else {
        t
    };
    if is_stun_like(payload) {
        if let Some((remote, local)) = pair {
            register_ice_keeps_wf(t, id, local, remote);
        }
    }
    let e = on_channel_data(c, channel, payload, src, t).effects;
    assert(on_channel_data(c, channel, payload, src, t).table == t1);
    assert forall|addr: SocketAddr, d: DatagramModel| #[trigger] sends(e, addr, d) implies addr
        != src && (t.client(addr) matches Some(b) && b.client_addr == addr && carries(
        d,
        b,
        relay,
        payload,
    ) && (is_stun_like(payload) && is_named(payload, b) || are_paired(
        t1.allocations[id],
        b,
    ))) by {
        let ds = if is_stun_like(payload) {
            stun_deliveries(t1, id, src, relay, payload)
        } else {
            listener_deliveries(t, peers_of(t, id), src, relay)
        };
        let j = sent_delivery(e, ds, relay, payload, addr, d);
        let other = ds[j].id.0;
        let by_name = is_stun_like(payload) && pair is Some && listener_deliveries(
            t1,
            check_listener(t1, (pair->0).0),
            src,
            relay,
        ).len() > 0;
        if by_name {
            let ids = check_listener(t1, (pair->0).0);
            listener_facts(t1, ids, src, relay, j);
            let x = t1.by_ice_ufrag[(pair->0).0];
            assert(ids == seq![x]);
            assert(t1.by_ice_ufrag.contains_key((pair->0).0));
        } else {
            let ids = peers_of(t1, id);
            listener_facts(t1, ids, src, relay, j);
            let s = t1.allocations[id];
            let key = (s.ice_remote_ufrag->0, s.ice_ufrag->0);
            assert(t1.indexed(id));
            assert(t1.by_ice_ufrag_pair.contains_key(key));
            assert(ids == seq![t1.by_ice_ufrag_pair[key]]);
        }
        assert(other != id);
        let b = t.allocations[other];
        found_at(t, other, b, addr);
        frame_carries(b, relay, payload);
    }
    if is_stun_like(payload) && (forall|addr: SocketAddr, d: DatagramModel|
        !#[trigger] sends(e, addr, d)) {
        let ds = stun_deliveries(t1, id, src, relay, payload);
        let out = deliver_all(ds, relay, payload);
        let received = EffectModel::TouchReceived { id };
        assert(e == out.push(received));
        if ds.len() > 0 {
            delivery_is_sent(ds, relay, payload, 0);
            sends_more(
                out,
                received,
                ds[0].client_addr,
                frame_of(ds[0].channel, relay, payload),
            );
        }
        assert(e =~= seq![received]);
    }
    if !is_stun_like(payload) && (forall|other: u64| #[trigger]
        t.allocations.contains_key(other) ==> !are_paired(a, t.allocations[other])
            || t.allocations[other].client_addr == src) {
        let ids = peers_of(t, id);
        assert forall|i: int| 0 <= i < ids.len() implies !t.allocations.contains_key(
            #[trigger] ids[i],
        ) || t.allocations[ids[i]].client_addr == src by {
            let key = (a.ice_remote_ufrag->0, a.ice_ufrag->0);
            assert(t.indexed(id));
            assert(t.by_ice_ufrag_pair.contains_key(key));
        }
        no_listener(t, ids, src, relay);
        assert(e =~= seq![
            EffectModel::TouchRelay { id, relayed: false },
            EffectModel::TouchReceived { id },
        ]);
    }
}

/// A delivery of the relay goes to a client of the list.
proof fn listener_facts(t: TableModel, ids: Seq<u64>, src: SocketAddr, relay: SocketAddr, j: int)
    requires
        0 <= j < listener_deliveries(t, ids, src, relay).len(),
    ensures
        ({
            let d = listener_deliveries(t, ids, src, relay)[j];
            &&& ids.contains(d.id.0)
            &&& t.allocations.contains_key(d.id.0)
            &&& t.allocations[d.id.0].client_addr == d.client_addr
            &&& d.client_addr != src
            &&& d.channel == t.allocations[d.id.0].channel_for_peer(relay)
        }),
    decreases ids.len(),
{
    let before = listener_deliveries(t, ids.drop_last(), src, relay);
    assert(ids[ids.len() - 1] == ids.last());
    if j < before.len() {
        listener_facts(t, ids.drop_last(), src, relay, j);
        let id = before[j].id.0;
        let k = choose|k: int| 0 <= k < ids.drop_last().len() && ids.drop_last()[k] == id;
        assert(ids[k] == id);
    }
}

/// What is sent after some deliveries and records is one of the deliveries.
pub(crate) proof fn sent_delivery(
    effects: Seq<EffectModel>,
    ds: Seq<Delivery>,
    source: SocketAddr,
    data: Seq<u8>,
    addr: SocketAddr,
    d: DatagramModel,
) -> (j: int)
    requires
        sends(effects, addr, d),
        effects.len() >= deliver_all(ds, source, data).len(),
        forall|i: int|
            #![trigger effects[i]]
            0 <= i < deliver_all(ds, source, data).len() ==> effects[i] == deliver_all(
                ds,
                source,
                data,
            )[i],
        forall|i: int|
            deliver_all(ds, source, data).len() <= i < effects.len() ==> !((#[trigger] effects[i]) is Send),
    ensures
        0 <= j < ds.len(),
        ds[j].client_addr == addr,
        d == frame_of(ds[j].channel, source, data),
    decreases ds.len(),
{
    let (i, to) = choose|i: int, to: Seq<SocketAddr>|
        #![trigger effects[i], to.contains(addr)]
        0 <= i < effects.len() && effects[i] == (EffectModel::Send { to, datagram: d })
            && to.contains(addr);
    let all = deliver_all(ds, source, data);
    assert(i < all.len());
    let rest = deliver_all(ds.drop_last(), source, data);
    if i < rest.len() {
        assert(all[i] == rest[i]);
        assert(to.contains(addr));
        assert(sends(rest, addr, d));
        let j = sent_delivery(rest, ds.drop_last(), source, data, addr, d);
        assert(ds.drop_last()[j] == ds[j]);
        j
    } else {
        assert(all == rest.push(
            send_to(ds.last().client_addr, frame_of(ds.last().channel, source, data)),
        ).push(EffectModel::Touch { id: ds.last().id.0 }));
        assert(i == rest.len());
        ds.len() - 1
    }
}

/// What is sent in a channel to a peer outside reaches the peer as it is, unless
/// the peer is forbidden. If the peer is itself a client, it comes to it in its
/// channel for the sender, or else in an indication that names the sender.
/// Nobody else gets it, and the client is seen to be active.
pub proof fn channel_data_to_peer_is_delivered(
    c: Config,
    data: Seq<u8>,
    src: SocketAddr,
    draw: Draw,
    t: TableModel,
    l: LimiterModel,
    now_ms: u64,
    channel: u16,
    payload: Seq<u8>,
    id: u64,
    a: AllocModel,
    peer: SocketAddr,
)
    requires
        t.wf(),
        holds(data, channel, payload),
        is_at(t, id, a, src),
        is_bound(a, channel, peer),
        peer != relay_of(c),
    ensures
        ({
            let o = on_packet(c, data, src, draw, t, l, now_ms);
            let is_outside = forall|other: u64| #[trigger]
                t.allocations.contains_key(other) ==> t.allocations[other].client_addr != peer;
            &&& o.table == t
            &&& forall|other: u64, b: AllocModel| #[trigger]
                is_at(t, other, b, peer) ==> reaches_only(
                    o.effects,
                    b,
                    src,
                    payload,
                    seq![EffectModel::Touch { id: other }, EffectModel::TouchReceived { id }],
                )
            &&& is_outside && !is_forbidden_addr(c, peer) ==> o.effects == seq![
                EffectModel::Send { to: seq![peer], datagram: DatagramModel::Raw(payload) },
                EffectModel::TouchReceived { id },
            ]
            &&& is_outside && is_forbidden_addr(c, peer) ==> o.effects.len() == 0
        }),
{
    channel_data_is_handled(c, data, src, draw, t, l, now_ms, channel, payload);
    found_at(t, id, a, src);
    client_is_indexed(t, peer);
    let e = on_channel_data(c, channel, payload, src, t).effects;
    let received = EffectModel::TouchReceived { id };
    match t.client(peer) {
        Some(b) => {
            let d = Delivery {
                id: AllocationId(b.id),
                client_addr: b.client_addr,
                channel: b.channel_for_peer(src),
            };
            only_delivery(d, b.id, b, src, payload, seq![received]);
            assert(e =~= deliver_all(seq![d], src, payload) + seq![received]);
            assert(seq![EffectModel::Touch { id: b.id }] + seq![received] =~= seq![
                EffectModel::Touch { id: b.id },
                received,
            ]);
            assert forall|other: u64, x: AllocModel| #[trigger] is_at(t, other, x, peer) implies other
                == b.id && x == b by {
                found_at(t, other, x, peer);
            }
            assert(is_at(t, b.id, b, peer));
        },
        None => {
            assert forall|other: u64, x: AllocModel| !#[trigger] is_at(t, other, x, peer) by {
                if is_at(t, other, x, peer) {
                    found_at(t, other, x, peer);
                }
            }
            assert forall|other: u64| #[trigger]
                t.allocations.contains_key(other) implies t.allocations[other].client_addr
                != peer by {
                if t.allocations[other].client_addr == peer {
                    assert(is_at(t, other, t.allocations[other], peer));
                }
            }
        },
    }
}

/// ChannelData does nothing unless it comes from a client that has the channel
/// bound to a peer that it permits.
pub proof fn unbound_channel_data_is_dropped(
    c: Config,
    data: Seq<u8>,
    src: SocketAddr,
    draw: Draw,
    t: TableModel,
    l: LimiterModel,
    now_ms: u64,
    channel: u16,
    payload: Seq<u8>,
)
    requires
        t.wf(),
        holds(data, channel, payload),
        forall|x: u64, a: AllocModel, peer: SocketAddr|
            #![trigger is_at(t, x, a, src), is_bound(a, channel, peer)]
            is_at(t, x, a, src) ==> !is_bound(a, channel, peer),
    ensures
        ({
            let o = on_packet(c, data, src, draw, t, l, now_ms);
            o.table == t && o.limiter == l && o.effects.len() == 0
        }),
{
    channel_data_is_handled(c, data, src, draw, t, l, now_ms, channel, payload);
    client_is_indexed(t, src);
    if let Some(a) = t.client(src) {
        assert(is_at(t, a.id, a, src));
        if let Some(peer) = a.peer_for_channel(channel) {
            assert(!is_bound(a, channel, peer));
        }
    }
}

/// The ufrags of a STUN message in a channel to the relay are remembered, if the
/// client has none yet and nobody else has the one that it gives as its own.
/// Nothing else of the table changes.
pub proof fn channel_stun_registers_ufrags(
    c: Config,
    data: Seq<u8>,
    src: SocketAddr,
    draw: Draw,
    t: TableModel,
    l: LimiterModel,
    now_ms: u64,
    channel: u16,
    payload: Seq<u8>,
    id: u64,
    a: AllocModel,
)
    requires
        t.wf(),
        holds(data, channel, payload),
        is_at(t, id, a, src),
        is_bound(a, channel, relay_of(c)),
        is_stun_like(payload),
    ensures
        ({
            let o = on_packet(c, data, src, draw, t, l, now_ms);
            match ufrags_of(payload) {
                Some((remote, local)) => {
                    let free = a.ice_ufrag is None && forall|x: u64| #[trigger]
                        t.allocations.contains_key(x) ==> t.allocations[x].ice_ufrag != Some(local);
                    &&& free ==> o.table.allocations == t.allocations.insert(
                        id,
                        AllocModel { ice_ufrag: Some(local), ice_remote_ufrag: Some(remote), ..a },
                    )
                    &&& !free ==> o.table == t
                },
                None => o.table == t,
            }
        }),
{
    channel_data_is_handled(c, data, src, draw, t, l, now_ms, channel, payload);
    header_is_stun_like(payload);
    found_at(t, id, a, src);
    if let Some((remote, local)) = ufrags_of(payload) {
        if t.by_ice_ufrag.contains_key(local) {
            assert(t.allocations.contains_key(t.by_ice_ufrag[local]));
        } else {
            assert forall|x: u64| #[trigger] t.allocations.contains_key(x) implies
                t.allocations[x].ice_ufrag != Some(local) by {
                assert(t.indexed(x));
            }
        }
    }
}

/// The ufrags of a STUN message are those in the first USERNAME attribute that
/// holds a colon: what stands before the first colon is the receiver's, and what
/// stands after it is the sender's.
pub proof fn ufrags_are_in_the_first_pair(
    data: Seq<u8>,
    attrs: Seq<Attribute>,
    i: int,
    remote: Seq<char>,
    local: Seq<char>,
)
    requires
        data.len() >= 20,
        data.len() >= 20 + data[2] * 256 + data[3],
        attrs == attributes(data, 20, 20 + data[2] * 256 + data[3]),
        0 <= i < attrs.len(),
        attrs[i].kind == 0x0006,
        text_of(attrs[i].value) == Some(remote + seq![':'] + local),
        !remote.contains(':'),
        forall|j: int|
            0 <= j < i ==> (#[trigger] attrs[j]).kind != 0x0006 || (text_of(attrs[j].value) matches Some(
                t,
            ) ==> !t.contains(':')),
    ensures
        ufrags_of(data) == Some((remote, local)),
{
    pair_is_found(attrs, i, remote, local);
}

proof fn no_pair_without_colon(s: Seq<char>)
    requires
        !s.contains(':'),
    ensures
        split_at_colon(s) is None,
{
    s.index_of_first_ensures(':');
}

proof fn pair_is_found(attrs: Seq<Attribute>, i: int, remote: Seq<char>, local: Seq<char>)
    requires
        0 <= i < attrs.len(),
        attrs[i].kind == 0x0006,
        text_of(attrs[i].value) == Some(remote + seq![':'] + local),
        !remote.contains(':'),
        forall|j: int|
            0 <= j < i ==> (#[trigger] attrs[j]).kind != 0x0006 || (text_of(attrs[j].value) matches Some(
                t,
            ) ==> !t.contains(':')),
    ensures
        first_pair(attrs) == Some((remote, local)),
    decreases i,
{
    if i == 0 {
        split_joined(remote, local);
    } else {
        assert(attrs[0].kind != 0x0006 || (text_of(attrs[0].value) matches Some(t) ==> !t.contains(
            ':',
        )));
        if attrs[0].kind == 0x0006 {
            if let Some(t) = text_of(attrs[0].value) {
                no_pair_without_colon(t);
            }
        }
        let rest = attrs.drop_first();
        assert forall|j: int| 0 <= j < i - 1 implies (#[trigger] rest[j]).kind != 0x0006 || (
        text_of(rest[j].value) matches Some(t) ==> !t.contains(':')) by {
            assert(rest[j] == attrs[j + 1]);
        }
        assert(rest[i - 1] == attrs[i]);
        pair_is_found(rest, i - 1, remote, local);
    }
}

/// A message without a USERNAME attribute that holds a colon has no ufrags.
pub proof fn no_ufrags_without_a_pair(data: Seq<u8>)
    requires
        data.len() >= 20 + data[2] * 256 + data[3] ==> forall|j: int|
            0 <= j < attributes(data, 20, 20 + data[2] * 256 + data[3]).len() ==> (
            #[trigger] attributes(data, 20, 20 + data[2] * 256 + data[3])[j]).kind != 0x0006 || (
            text_of(
                attributes(data, 20, 20 + data[2] * 256 + data[3])[j].value,
            ) matches Some(t) ==> !t.contains(':')),
    ensures
        ufrags_of(data) is None,
{
    if data.len() >= 20 && data.len() >= 20 + data[2] * 256 + data[3] {
        no_pair_is_found(attributes(data, 20, 20 + data[2] * 256 + data[3]));
    }
}

proof fn no_pair_is_found(attrs: Seq<Attribute>)
    requires
        forall|j: int|
            0 <= j < attrs.len() ==> (#[trigger] attrs[j]).kind != 0x0006 || (text_of(
                attrs[j].value,
            ) matches Some(t) ==> !t.contains(':')),
    ensures
        first_pair(attrs) is None,
    decreases attrs.len(),
{
    if attrs.len() > 0 {
        assert(attrs[0].kind != 0x0006 || (text_of(attrs[0].value) matches Some(t) ==> !t.contains(
            ':',
        )));
        if attrs[0].kind == 0x0006 {
            if let Some(t) = text_of(attrs[0].value) {
                no_pair_without_colon(t);
            }
        }
        let rest = attrs.drop_first();
        assert forall|j: int| 0 <= j < rest.len() implies (#[trigger] rest[j]).kind != 0x0006 || (
        text_of(rest[j].value) matches Some(t) ==> !t.contains(':')) by {
            assert(rest[j] == attrs[j + 1]);
        }
        no_pair_is_found(rest);
    }
}

} // verus!
