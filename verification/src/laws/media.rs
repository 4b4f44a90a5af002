//! Who is owed what is relayed: datagrams that are neither STUN nor ChannelData.

use vstd::prelude::*;

use super::channel::{holds, sent_delivery};
use super::terms::{
    carries, delivery_is_sent, found_at, frame_carries, is_at, peer_is_listed, reaches, relay_of,
    sends_more,
};
use crate::bytes::u16_at;
use crate::config::Config;
use crate::demux::protocol::packet_of;
use crate::demux::stun::stun_of;
use crate::lookup::laws::client_is_indexed;
use crate::lookup::model::{AllocModel, TableModel};
use crate::lookup::rate_limit::LimiterModel;
use crate::lookup::AllocationId;
use crate::net::SocketAddr;
use crate::relay::effect::{DatagramModel, EffectModel};
use crate::relay::laws::{are_paired, sends};
use crate::relay::rules::{
    deliver_all, frame_of, indication_deliveries, on_client_data, on_peer_packet, peer_deliveries,
    Delivery,
};
use crate::server::on_packet;
use crate::turn::rules::{peers_of, Draw};

verus! {

/// The datagram is neither a STUN message nor ChannelData.
pub open spec fn is_unframed(data: Seq<u8>) -> bool {
    &&& data.len() > 0 && data[0] <= 3 ==> stun_of(data) is None
    &&& forall|channel: u16, payload: Seq<u8>| !#[trigger] holds(data, channel, payload)
}

/// The datagram is DTLS by its first byte.
pub open spec fn is_dtls(data: Seq<u8>) -> bool {
    data.len() > 0 && 20 <= data[0] <= 63
}

/// No client is at the address.
pub open spec fn is_no_client(t: TableModel, addr: SocketAddr) -> bool {
    forall|x: u64| #[trigger]
        t.allocations.contains_key(x) ==> t.allocations[x].client_addr != addr
}

/// Datagrams from the address can only be meant for the allocation `id`: the
/// address is registered for it, or for none while no other permits its IP.
pub open spec fn is_meant_for(t: TableModel, addr: SocketAddr, id: u64) -> bool {
    match t.by_peer_tuple.get(addr.spec_key()) {
        Some(x) => x == id,
        None => t.by_permission.get(addr.ip.spec_key()) == Some(seq![id]),
    }
}

proof fn unframed_is_handled(
    c: Config,
    data: Seq<u8>,
    src: SocketAddr,
    draw: Draw,
    t: TableModel,
    l: LimiterModel,
    now_ms: u64,
)
    requires
        t.wf(),
        is_unframed(data),
    ensures
        is_no_client(t, src) <==> !t.is_client(src),
        is_no_client(t, src) <==> t.client(src) is None,
        is_no_client(t, src) ==> on_packet(c, data, src, draw, t, l, now_ms) == on_peer_packet(
            t,
            src,
            data,
            packet_of(data) is Rtp,
            !is_dtls(data),
            now_ms,
        ).with(l),
        !is_no_client(t, src) ==> on_packet(c, data, src, draw, t, l, now_ms) == on_client_data(
            c,
            data,
            src,
            t,
        ).with(l),
{
    client_is_indexed(t, src);
    if t.is_client(src) {
        let x = t.by_client[src.spec_key()];
        assert(t.allocations.contains_key(x));
    }
    if !is_no_client(t, src) {
        let x = choose|x: u64| #[trigger]
            t.allocations.contains_key(x) && t.allocations[x].client_addr == src;
        found_at(t, x, t.allocations[x], src);
    }
    if data.len() >= 4 && 64 <= data[0] <= 127 && data.len() >= 4 + u16_at(data, 2) {
        let payload = data.subrange(4, 4 + u16_at(data, 2));
        assert(holds(data, u16_at(data, 0), payload));
    }
    assert(!(packet_of(data) is Stun) && !(packet_of(data) is TurnChannelData));
    assert(packet_of(data) is Dtls <==> is_dtls(data));
}

/// What a client sends to the relay without framing is delivered, in an
/// indication from the relay, to the client that it is paired with, if both permit
/// the relay. It then counts as relayed.
pub proof fn client_data_is_owed_to_its_peer(
    c: Config,
    data: Seq<u8>,
    src: SocketAddr,
    draw: Draw,
    t: TableModel,
    l: LimiterModel,
    now_ms: u64,
    id: u64,
    a: AllocModel,
    other: u64,
    b: AllocModel,
)
    requires
        t.wf(),
        is_unframed(data),
        is_at(t, id, a, src),
        is_at(t, other, b, b.client_addr),
        b.client_addr != src,
        are_paired(a, b),
        a.permissions.contains(c.external_ip),
        b.permissions.contains(c.external_ip),
    ensures
        ({
            let o = on_packet(c, data, src, draw, t, l, now_ms);
            &&& o.effects == seq![
                EffectModel::Send {
                    to: seq![b.client_addr],
                    datagram: DatagramModel::DataIndication { source: relay_of(c), data },
                },
                EffectModel::Touch { id: other },
                EffectModel::TouchRelay { id, relayed: true },
            ]
            &&& o.table == t
        }),
{
    unframed_is_handled(c, data, src, draw, t, l, now_ms);
    found_at(t, id, a, src);
    assert(t.indexed(id));
    assert(t.indexed(other));
    let ids = peers_of(t, id);
    assert(ids == seq![other]);
    let ds = indication_deliveries(c, t, ids, src);
    let d = Delivery { id: AllocationId(other), client_addr: b.client_addr, channel: None };
    reveal_with_fuel(indication_deliveries, 2);
    assert(ids.drop_last() =~= Seq::<u64>::empty());
    assert(ds =~= seq![d]);
    reveal_with_fuel(deliver_all, 2);
    assert(ds.drop_last() =~= Seq::<Delivery>::empty());
    assert(on_client_data(c, data, src, t).effects =~= seq![
        EffectModel::Send {
            to: seq![b.client_addr],
            datagram: DatagramModel::DataIndication { source: relay_of(c), data },
        },
        EffectModel::Touch { id: other },
        EffectModel::TouchRelay { id, relayed: true },
    ]);
}

/// What a client sends to the relay without framing reaches nobody but the client
/// that it is paired with. If there is nobody, it is known not to have been
/// relayed; and if the client does not permit the relay, nothing happens.
pub proof fn client_data_is_owed_to_no_other(
    c: Config,
    data: Seq<u8>,
    src: SocketAddr,
    draw: Draw,
    t: TableModel,
    l: LimiterModel,
    now_ms: u64,
    id: u64,
    a: AllocModel,
)
    requires
        t.wf(),
        is_unframed(data),
        is_at(t, id, a, src),
    ensures
        ({
            let o = on_packet(c, data, src, draw, t, l, now_ms);
            &&& o.table == t
            &&& o.limiter == l
            &&& !a.permissions.contains(c.external_ip) ==> o.effects.len() == 0
            &&& forall|addr: SocketAddr, d: DatagramModel| #[trigger]
                sends(o.effects, addr, d) ==> addr != src && d == (DatagramModel::DataIndication {
                    source: relay_of(c),
                    data,
                }) && (t.client(addr) matches Some(b) && b.client_addr == addr && are_paired(a, b)
                    && b.permissions.contains(c.external_ip))
            &&& a.permissions.contains(c.external_ip) && (forall|addr: SocketAddr, d: DatagramModel|
                !#[trigger] sends(o.effects, addr, d)) ==> o.effects == seq![
                EffectModel::TouchRelay { id, relayed: false },
            ]
        }),
{
    unframed_is_handled(c, data, src, draw, t, l, now_ms);
    found_at(t, id, a, src);
    let ids = peers_of(t, id);
    let ds = indication_deliveries(c, t, ids, src);
    let out = deliver_all(ds, relay_of(c), data);
    let e = on_client_data(c, data, src, t).effects;
    if a.permissions.contains(c.external_ip) {
        let touch = EffectModel::TouchRelay { id, relayed: ds.len() > 0 };
        assert(e == out.push(touch));
        assert forall|addr: SocketAddr, d: DatagramModel| #[trigger] sends(e, addr, d) implies addr
            != src && d == (DatagramModel::DataIndication { source: relay_of(c), data }) && (
        t.client(addr) matches Some(b) && b.client_addr == addr && are_paired(a, b)
            && b.permissions.contains(c.external_ip)) by {
            let j = sent_delivery(e, ds, relay_of(c), data, addr, d);
            indication_facts(c, t, ids, src, j);
            let other = ds[j].id.0;
            let key = (a.ice_remote_ufrag->0, a.ice_ufrag->0);
            assert(t.indexed(id));
            assert(t.by_ice_ufrag_pair.contains_key(key));
            assert(ids == seq![t.by_ice_ufrag_pair[key]]);
            found_at(t, other, t.allocations[other], addr);
        }
        if ds.len() > 0 {
            delivery_is_sent(ds, relay_of(c), data, 0);
            sends_more(
                out,
                touch,
                ds[0].client_addr,
                frame_of(ds[0].channel, relay_of(c), data),
            );
        } else {
            assert(e =~= seq![EffectModel::TouchRelay { id, relayed: false }]);
        }
    }
}

proof fn indication_facts(c: Config, t: TableModel, ids: Seq<u64>, src: SocketAddr, j: int)
    requires
        0 <= j < indication_deliveries(c, t, ids, src).len(),
    ensures
        ({
            let d = indication_deliveries(c, t, ids, src)[j];
            &&& ids.contains(d.id.0)
            &&& t.allocations.contains_key(d.id.0)
            &&& t.allocations[d.id.0].client_addr == d.client_addr
            &&& t.allocations[d.id.0].permissions.contains(c.external_ip)
            &&& d.client_addr != src
            &&& d.channel is None
        }),
    decreases ids.len(),
{
    let before = indication_deliveries(c, t, ids.drop_last(), src);
    assert(ids[ids.len() - 1] == ids.last());
    if j < before.len() {
        indication_facts(c, t, ids.drop_last(), src, j);
        let id = before[j].id.0;
        let k = choose|k: int| 0 <= k < ids.drop_last().len() && ids.drop_last()[k] == id;
        assert(ids[k] == id);
    }
}

/// What a peer sends is delivered to every client that permits the peer's IP and
/// is at another IP, unless the peer's address is registered for another one. DTLS
/// comes in an indication that names the peer; anything else comes in the channel
/// that the client has bound to the peer, or else in such an indication. RTP that
/// can only be meant for one client is delivered though it is at the same IP.
pub proof fn peer_data_is_delivered(
    c: Config,
    data: Seq<u8>,
    src: SocketAddr,
    draw: Draw,
    t: TableModel,
    l: LimiterModel,
    now_ms: u64,
    other: u64,
    b: AllocModel,
)
    requires
        t.wf(),
        is_unframed(data),
        is_no_client(t, src),
        is_at(t, other, b, b.client_addr),
        b.permissions.contains(src.ip),
        t.by_peer_tuple.contains_key(src.spec_key()) ==> t.by_peer_tuple[src.spec_key()] == other,
        b.client_addr.ip != src.ip || packet_of(data) is Rtp && is_meant_for(t, src, other),
    ensures
        ({
            let o = on_packet(c, data, src, draw, t, l, now_ms);
            &&& is_dtls(data) ==> sends(
                o.effects,
                b.client_addr,
                DatagramModel::DataIndication { source: src, data },
            )
            &&& !is_dtls(data) ==> reaches(o.effects, b, src, data)
            &&& o.effects.contains(EffectModel::Touch { id: other })
        }),
{
    unframed_is_handled(c, data, src, draw, t, l, now_ms);
    found_at(t, other, b, b.client_addr);
    assert(t.indexed(other));
    let ids = t.candidates(src);
    assert(ids.contains(other)) by {
        if t.by_peer_tuple.contains_key(src.spec_key()) {
            assert(ids[0] == other);
        }
    }
    let t1 = if ids.len() == 1 {
        t.register_peer(ids[0], src, now_ms)
    } else {
        t
    };
    let skip = !(packet_of(data) is Rtp && ids.len() == 1);
    let ds = peer_deliveries(t1, ids, src, skip, !is_dtls(data));
    let j = peer_is_listed(t1, ids, src, skip, !is_dtls(data), other);
    delivery_is_sent(ds, src, data, j);
    frame_carries(b, src, data);
    assert(on_peer_packet(t, src, data, packet_of(data) is Rtp, !is_dtls(data), now_ms).effects
        == deliver_all(ds, src, data));
}

/// What a peer sends reaches only clients that permit the peer's IP, framed as
/// they are owed it. Once the peer's address is registered, it reaches only the
/// client that it is registered for. Nothing is sent back to the peer's own IP,
/// but for RTP that can only be meant for one client.
pub proof fn peer_data_reaches_no_other(
    c: Config,
    data: Seq<u8>,
    src: SocketAddr,
    draw: Draw,
    t: TableModel,
    l: LimiterModel,
    now_ms: u64,
)
    requires
        t.wf(),
        is_unframed(data),
        is_no_client(t, src),
    ensures
        ({
            let o = on_packet(c, data, src, draw, t, l, now_ms);
            &&& o.limiter == l
            &&& forall|addr: SocketAddr, d: DatagramModel| #[trigger]
                sends(o.effects, addr, d) ==> (t.client(addr) matches Some(b) && b.client_addr
                    == addr && b.permissions.contains(src.ip) && (if is_dtls(data) {
                    d == (DatagramModel::DataIndication { source: src, data })
                } else {
                    carries(d, b, src, data)
                }) && (t.by_peer_tuple.contains_key(src.spec_key())
                    ==> t.by_peer_tuple[src.spec_key()] == b.id) && (addr.ip != src.ip || packet_of(
                    data,
                ) is Rtp && is_meant_for(t, src, b.id)))
        }),
{
    unframed_is_handled(c, data, src, draw, t, l, now_ms);
    let ids = t.candidates(src);
    let t1 = if ids.len() == 1 {
        t.register_peer(ids[0], src, now_ms)
    } else {
        t
    };
    let skip = !(packet_of(data) is Rtp && ids.len() == 1);
    let ds = peer_deliveries(t1, ids, src, skip, !is_dtls(data));
    let e = on_peer_packet(t, src, data, packet_of(data) is Rtp, !is_dtls(data), now_ms).effects;
    if ids.len() > 0 {
        assert(e == deliver_all(ds, src, data));
        assert forall|addr: SocketAddr, d: DatagramModel| #[trigger] sends(e, addr, d) implies (
        t.client(addr) matches Some(b) && b.client_addr == addr && b.permissions.contains(src.ip)
            && (if is_dtls(data) {
            d == (DatagramModel::DataIndication { source: src, data })
        } else {
            carries(d, b, src, data)
        }) && (t.by_peer_tuple.contains_key(src.spec_key()) ==> t.by_peer_tuple[src.spec_key()]
            == b.id) && (addr.ip != src.ip || packet_of(data) is Rtp && is_meant_for(
            t,
            src,
            b.id,
        ))) by {
            let j = sent_delivery(e, ds, src, data, addr, d);
            peer_facts(t1, ids, src, skip, !is_dtls(data), j);
            let other = ds[j].id.0;
            let b = t.allocations[other];
            assert(t.allocations.contains_key(other));
            found_at(t, other, b, addr);
            frame_carries(b, src, data);
            let k = choose|k: int| 0 <= k < ids.len() && ids[k] == other;
            if ids.len() == 1 {
                assert(ids =~= seq![other]);
            }
        }
    }
}

proof fn peer_facts(
    t: TableModel,
    ids: Seq<u64>,
    peer: SocketAddr,
    skip_same_ip: bool,
    use_channels: bool,
    j: int,
)
    requires
        0 <= j < peer_deliveries(t, ids, peer, skip_same_ip, use_channels).len(),
    ensures
        ({
            let d = peer_deliveries(t, ids, peer, skip_same_ip, use_channels)[j];
            &&& ids.contains(d.id.0)
            &&& t.allocations.contains_key(d.id.0)
            &&& t.allocations[d.id.0].client_addr == d.client_addr
            &&& t.allocations[d.id.0].permissions.contains(peer.ip)
            &&& !(skip_same_ip && d.client_addr.ip == peer.ip)
            &&& d.channel == if use_channels {
                t.allocations[d.id.0].channel_for_peer(peer)
            } else {
                None
            }
        }),
    decreases ids.len(),
{
    let before = peer_deliveries(t, ids.drop_last(), peer, skip_same_ip, use_channels);
    assert(ids[ids.len() - 1] == ids.last());
    if j < before.len() {
        peer_facts(t, ids.drop_last(), peer, skip_same_ip, use_channels, j);
        let id = before[j].id.0;
        let k = choose|k: int| 0 <= k < ids.drop_last().len() && ids.drop_last()[k] == id;
        assert(ids[k] == id);
    }
}

/// The address of a peer whose datagrams can only be meant for one allocation is
/// registered for it, with the time, so that they go there from now on. Nothing
/// else changes; and where several allocations may be meant, nothing at all.
pub proof fn unique_peer_is_learned(
    c: Config,
    data: Seq<u8>,
    src: SocketAddr,
    draw: Draw,
    t: TableModel,
    l: LimiterModel,
    now_ms: u64,
    id: u64,
)
    requires
        t.wf(),
        is_unframed(data),
        is_no_client(t, src),
    ensures
        ({
            let o = on_packet(c, data, src, draw, t, l, now_ms);
            let key = src.spec_key();
            &&& is_meant_for(t, src, id) ==> {
                &&& o.table.by_peer_tuple == t.by_peer_tuple.insert(key, id)
                &&& is_meant_for(o.table, src, id)
                &&& t.allocations.contains_key(id) ==> {
                    let a = t.allocations[id];
                    o.table.allocations == t.allocations.insert(
                        id,
                        AllocModel { known_peers: a.known_peers.insert(key, now_ms), ..a },
                    )
                }
                &&& !t.allocations.contains_key(id) ==> o.table.allocations == t.allocations
                &&& o.table.by_permission == t.by_permission
                &&& o.table.by_client == t.by_client
            }
            &&& (forall|x: u64| !#[trigger] is_meant_for(t, src, x)) ==> o.table == t
        }),
{
    unframed_is_handled(c, data, src, draw, t, l, now_ms);
    let ids = t.candidates(src);
    if ids.len() == 1 {
        assert(ids =~= seq![ids[0]]);
        assert(is_meant_for(t, src, ids[0]));
        if is_meant_for(t, src, id) {
            assert(ids[0] == id);
        }
    } else if is_meant_for(t, src, id) {
        assert(ids == seq![id]);
    }
}

/// The effects of deliveries come in pairs: what is sent, and who it was sent to.
proof fn deliveries_in_pairs(ds: Seq<Delivery>, source: SocketAddr, data: Seq<u8>)
    ensures
        deliver_all(ds, source, data).len() == 2 * ds.len(),
        forall|k: int|
            0 <= k < ds.len() ==> deliver_all(ds, source, data)[2 * k] == (EffectModel::Send {
                to: seq![(#[trigger] ds[k]).client_addr],
                datagram: frame_of(ds[k].channel, source, data),
            }) && deliver_all(ds, source, data)[2 * k + 1] == (EffectModel::Touch {
                id: ds[k].id.0,
            }),
    decreases ds.len(),
{
    if ds.len() > 0 {
        let rest = ds.drop_last();
        let all = deliver_all(ds, source, data);
        let before = deliver_all(rest, source, data);
        deliveries_in_pairs(rest, source, data);
        assert forall|k: int| 0 <= k < ds.len() implies all[2 * k] == (EffectModel::Send {
            to: seq![(#[trigger] ds[k]).client_addr],
            datagram: frame_of(ds[k].channel, source, data),
        }) && all[2 * k + 1] == (EffectModel::Touch { id: ds[k].id.0 }) by {
            if k < rest.len() {
                assert(rest[k] == ds[k]);
                assert(all[2 * k] == before[2 * k]);
                assert(all[2 * k + 1] == before[2 * k + 1]);
            }
        }
    }
}

proof fn deliveries_are_distinct(
    t: TableModel,
    ids: Seq<u64>,
    peer: SocketAddr,
    skip_same_ip: bool,
    use_channels: bool,
    i: int,
    j: int,
)
    requires
        ids.no_duplicates(),
        0 <= i < j < peer_deliveries(t, ids, peer, skip_same_ip, use_channels).len(),
    ensures
        ({
            let ds = peer_deliveries(t, ids, peer, skip_same_ip, use_channels);
            ds[i].id.0 != ds[j].id.0
        }),
    decreases ids.len(),
{
    let rest = ids.drop_last();
    let before = peer_deliveries(t, rest, peer, skip_same_ip, use_channels);
    assert(rest.no_duplicates());
    if j < before.len() {
        deliveries_are_distinct(t, rest, peer, skip_same_ip, use_channels, i, j);
    } else {
        peer_facts(t, rest, peer, skip_same_ip, use_channels, i);
        let k = choose|k: int| 0 <= k < rest.len() && rest[k] == before[i].id.0;
        assert(ids[k] == rest[k]);
        assert(ids[ids.len() - 1] == ids.last());
    }
}

/// The effects are datagrams, each for one client and each followed by the record of
/// it; and no two are for the same client.
pub open spec fn is_fan_out(t: TableModel, effects: Seq<EffectModel>) -> bool {
    &&& effects.len() % 2 == 0
    &&& forall|k: int|
        0 <= k < effects.len() / 2 ==> {
            &&& (#[trigger] effects[2 * k]) matches EffectModel::Send { to, .. } && to.len() == 1 && (
            t.client(to[0]) matches Some(b) && effects[2 * k + 1] == (EffectModel::Touch {
                id: b.id,
            }))
        }
    &&& forall|j: int, k: int|
        0 <= j < k < effects.len() / 2 ==> #[trigger] effects[2 * j + 1] != #[trigger] effects[2 * k
            + 1]
}

/// What a peer sends goes to each client once.
pub proof fn peer_data_is_sent_once(
    c: Config,
    data: Seq<u8>,
    src: SocketAddr,
    draw: Draw,
    t: TableModel,
    l: LimiterModel,
    now_ms: u64,
)
    requires
        t.wf(),
        is_unframed(data),
        is_no_client(t, src),
    ensures
        is_fan_out(t, on_packet(c, data, src, draw, t, l, now_ms).effects),
{
    unframed_is_handled(c, data, src, draw, t, l, now_ms);
    let ids = t.candidates(src);
    assert(ids.no_duplicates()) by {
        if !t.by_peer_tuple.contains_key(src.spec_key()) {
            if t.by_permission.contains_key(src.ip.spec_key()) {
                assert(t.issued(t.by_permission[src.ip.spec_key()]));
            }
        }
    }
    let t1 = if ids.len() == 1 {
        t.register_peer(ids[0], src, now_ms)
    } else {
        t
    };
    let skip = !(packet_of(data) is Rtp && ids.len() == 1);
    let ds = peer_deliveries(t1, ids, src, skip, !is_dtls(data));
    let e = on_packet(c, data, src, draw, t, l, now_ms).effects;
    if ids.len() > 0 {
        assert(e == deliver_all(ds, src, data));
        deliveries_in_pairs(ds, src, data);
        assert forall|k: int| 0 <= k < e.len() / 2 implies {
            &&& (#[trigger] e[2 * k]) matches EffectModel::Send { to, .. } && to.len() == 1 && (
            t.client(to[0]) matches Some(b) && e[2 * k + 1] == (EffectModel::Touch { id: b.id }))
        } by {
            assert(ds[k] == ds[k]);
            peer_facts(t1, ids, src, skip, !is_dtls(data), k);
            let other = ds[k].id.0;
            found_at(t, other, t.allocations[other], ds[k].client_addr);
        }
        assert forall|j: int, k: int| 0 <= j < k < e.len() / 2 implies #[trigger] e[2 * j + 1]
            != #[trigger] e[2 * k + 1] by {
            assert(ds[j] == ds[j] && ds[k] == ds[k]);
            deliveries_are_distinct(t1, ids, src, skip, !is_dtls(data), j, k);
        }
    }
}

} // verus!
