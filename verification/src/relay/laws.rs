//! Who gets what from whom.

use vstd::prelude::*;

use super::effect::{apply, send_to, DatagramModel, EffectModel};
use super::rules::{
    check_listener, deliver_all, first_pair, frame_of, indication_deliveries, listener_deliveries,
    looks_like_stun, on_channel_data, on_client_data, on_peer_packet, pair_in, peer_deliveries,
    stun_deliveries, ufrags_of, Delivery,
};
use crate::bytes::{padding, u16_at};
use crate::config::Config;
use crate::demux::stun::{
    attributes, is_stun_message, last_of, stun_of, Attribute, StunModel, ATTR_USERNAME,
};
use crate::lookup::laws::{
    client_is_indexed, modify_keeps_wf, register_ice_keeps_wf, register_peer_keeps_wf,
};
use crate::lookup::model::{AllocModel, TableModel};
use crate::net::SocketAddr;
use crate::turn::rules::{
    check_ufrags, framed, ice_target, is_forbidden_addr, learn_ufrags, on_binding, on_send,
    peers_of, permitting_clients, relay_targets, send_to_all,
};

verus! {

/// Whether a datagram is sent to an address.
pub open spec fn sends(effects: Seq<EffectModel>, addr: SocketAddr, d: DatagramModel) -> bool {
    exists|i: int, to: Seq<SocketAddr>|
        #![trigger effects[i], to.contains(addr)]
        0 <= i < effects.len() && effects[i] == (EffectModel::Send { to, datagram: d })
            && to.contains(addr)
}

proof fn sends_push(effects: Seq<EffectModel>, e: EffectModel, addr: SocketAddr, d: DatagramModel)
    requires
        sends(effects.push(e), addr, d),
    ensures
        sends(effects, addr, d) || (e matches EffectModel::Send { to, datagram } && to.contains(addr)
            && datagram == d),
{
    let more = effects.push(e);
    let (i, to) = choose|i: int, to: Seq<SocketAddr>|
        #![trigger more[i], to.contains(addr)]
        0 <= i < more.len() && more[i] == (EffectModel::Send { to, datagram: d }) && to.contains(
            addr,
        );
    if i < effects.len() {
        assert(effects[i] == more[i]);
        assert(to.contains(addr));
    }
}

proof fn delivered(ds: Seq<Delivery>, source: SocketAddr, data: Seq<u8>, addr: SocketAddr, d: DatagramModel) -> (
    j: int)
    requires
        sends(deliver_all(ds, source, data), addr, d),
    ensures
        0 <= j < ds.len(),
        ds[j].client_addr == addr,
        d == frame_of(ds[j].channel, source, data),
    decreases ds.len(),
{
    if ds.len() == 0 {
        0
    } else {
        let last = ds.last();
        let rest = deliver_all(ds.drop_last(), source, data);
        let frame = frame_of(last.channel, source, data);
        let sent = send_to(last.client_addr, frame);
        sends_push(rest.push(sent), EffectModel::Touch { id: last.id.0 }, addr, d);
        sends_push(rest, sent, addr, d);
        if sends(rest, addr, d) {
            delivered(ds.drop_last(), source, data, addr, d)
        } else {
            ds.len() - 1
        }
    }
}

proof fn peer_delivery(
    t: TableModel,
    ids: Seq<u64>,
    peer: SocketAddr,
    skip_same_ip: bool,
    use_channels: bool,
    j: int,
)
    requires
        0 <= j < peer_deliveries(t, ids, peer, skip_same_ip, use_channels).len(),
    ensures
        ({
            let d = peer_deliveries(t, ids, peer, skip_same_ip, use_channels)[j];
            t.allocations.get(d.id.0) matches Some(a) && {
                &&& ids.contains(d.id.0)
                &&& d.client_addr == a.client_addr
                &&& a.is_permitted(peer.ip)
                &&& skip_same_ip ==> a.client_addr.ip != peer.ip
                &&& d.channel == if use_channels {
                    a.channel_for_peer(peer)
                } else {
                    None
                }
            }
        }),
    decreases ids.len(),
{
    let before = peer_deliveries(t, ids.drop_last(), peer, skip_same_ip, use_channels);
    assert(ids[ids.len() - 1] == ids.last());
    if j < before.len() {
        peer_delivery(t, ids.drop_last(), peer, skip_same_ip, use_channels, j);
        let id = before[j].id.0;
        let k = choose|k: int| 0 <= k < ids.drop_last().len() && ids.drop_last()[k] == id;
        assert(ids[k] == id);
    }
}

/// A packet from a peer reaches only clients that permit the peer's IP, with its
/// payload as it was. Where channels are not used, as for DTLS, it comes in an
/// indication.
pub proof fn peer_packet_reaches_permitting_clients(
    t: TableModel,
    peer: SocketAddr,
    data: Seq<u8>,
    echo_if_unique: bool,
    use_channels: bool,
    now_ms: u64,
    addr: SocketAddr,
    d: DatagramModel,
)
    requires
        t.wf(),
        sends(
            on_peer_packet(t, peer, data, echo_if_unique, use_channels, now_ms).effects,
            addr,
            d,
        ),
    ensures
        t.client(addr) matches Some(b) && b.is_permitted(peer.ip),
        d.payload() == data,
        !(d is Raw),
        !use_channels ==> d == (DatagramModel::DataIndication { source: peer, data }),
        !echo_if_unique ==> addr.ip != peer.ip,
{
    let ids = t.candidates(peer);
    let unique = ids.len() == 1;
    let t1 = if unique {
        t.register_peer(ids[0], peer, now_ms)
    } else {
        t
    };
    let skip = !(echo_if_unique && unique);
    let ds = peer_deliveries(t1, ids, peer, skip, use_channels);
    let j = delivered(ds, peer, data, addr, d);
    peer_delivery(t1, ids, peer, skip, use_channels, j);
    assert(t.indexed(ds[j].id.0));
}

/// A peer whose address was learned is no client.
pub proof fn learned_peer_is_no_client(t: TableModel, id: u64, peer: SocketAddr, now_ms: u64, addr: SocketAddr)
    ensures
        t.register_peer(id, peer, now_ms).is_client(addr) == t.is_client(addr),
        t.register_peer(id, peer, now_ms).candidates(peer) == seq![id],
{
}

proof fn listener_delivery(t: TableModel, ids: Seq<u64>, src: SocketAddr, relay: SocketAddr, j: int)
    requires
        0 <= j < listener_deliveries(t, ids, src, relay).len(),
    ensures
        ({
            let d = listener_deliveries(t, ids, src, relay)[j];
            t.allocations.get(d.id.0) matches Some(a) && ids.contains(d.id.0) && d.client_addr
                == a.client_addr && a.client_addr != src
        }),
        listener_deliveries(t, ids, src, relay).len() <= ids.len(),
    decreases ids.len(),
{
    let before = listener_deliveries(t, ids.drop_last(), src, relay);
    assert(ids[ids.len() - 1] == ids.last());
    if before.len() > 0 {
        let i = if j < before.len() {
            j
        } else {
            0
        };
        listener_delivery(t, ids.drop_last(), src, relay, i);
        let id = before[i].id.0;
        let k = choose|k: int| 0 <= k < ids.drop_last().len() && ids.drop_last()[k] == id;
        assert(ids[k] == id);
    }
}

proof fn indication_delivery(c: Config, t: TableModel, ids: Seq<u64>, src: SocketAddr, j: int)
    requires
        0 <= j < indication_deliveries(c, t, ids, src).len(),
    ensures
        ({
            let d = indication_deliveries(c, t, ids, src)[j];
            t.allocations.get(d.id.0) matches Some(a) && ids.contains(d.id.0) && d.client_addr
                == a.client_addr && a.client_addr != src && a.is_permitted(c.external_ip)
                && d.channel is None
        }),
        indication_deliveries(c, t, ids, src).len() <= ids.len(),
    decreases ids.len(),
{
    let before = indication_deliveries(c, t, ids.drop_last(), src);
    assert(ids[ids.len() - 1] == ids.last());
    if before.len() > 0 {
        let i = if j < before.len() {
            j
        } else {
            0
        };
        indication_delivery(c, t, ids.drop_last(), src, i);
        let id = before[i].id.0;
        let k = choose|k: int| 0 <= k < ids.drop_last().len() && ids.drop_last()[k] == id;
        assert(ids[k] == id);
    }
}

/// Whether two clients are each other's ICE peers.
pub open spec fn are_paired(a: AllocModel, b: AllocModel) -> bool {
    &&& a.ice_ufrag is Some
    &&& b.ice_ufrag == a.ice_remote_ufrag
    &&& b.ice_remote_ufrag == a.ice_ufrag
}

proof fn peer_is_paired(t: TableModel, id: u64, other: u64)
    requires
        t.wf(),
        t.allocations.contains_key(id),
        peers_of(t, id).contains(other),
    ensures
        t.allocations.contains_key(other),
        are_paired(t.allocations[id], t.allocations[other]),
        peers_of(t, id) == seq![other],
{
    assert(t.indexed(id));
    let a = t.allocations[id];
    let pair = (a.ice_remote_ufrag->0, a.ice_ufrag->0);
    assert(t.by_ice_ufrag_pair.contains_key(pair));
}

/// What a client sends to the relay without framing reaches nobody but its ICE
/// peer, which permits the relay, with its payload as it was.
pub proof fn client_data_reaches_its_peer(
    c: Config,
    data: Seq<u8>,
    src: SocketAddr,
    t: TableModel,
    addr: SocketAddr,
    d: DatagramModel,
)
    requires
        t.wf(),
        sends(on_client_data(c, data, src, t).effects, addr, d),
    ensures
        addr != src,
        d == (DatagramModel::DataIndication { source: c.spec_relay_addr(), data }),
        t.client(src) matches Some(a) && t.client(addr) matches Some(b) && are_paired(a, b)
            && b.is_permitted(c.external_ip),
{
    client_is_indexed(t, src);
    let a = t.client(src)->0;
    let ds = indication_deliveries(c, t, peers_of(t, a.id), src);
    let relay = c.spec_relay_addr();
    let e = EffectModel::TouchRelay { id: a.id, relayed: ds.len() > 0 };
    sends_push(deliver_all(ds, relay, data), e, addr, d);
    let j = delivered(ds, relay, data, addr, d);
    indication_delivery(c, t, peers_of(t, a.id), src, j);
    let other = ds[j].id.0;
    peer_is_paired(t, a.id, other);
    assert(t.indexed(other));
}

/// What a client without an ICE peer sends to the relay is dropped.
pub proof fn client_data_without_peer_is_dropped(
    c: Config,
    data: Seq<u8>,
    src: SocketAddr,
    t: TableModel,
    addr: SocketAddr,
    d: DatagramModel,
)
    requires
        t.wf(),
        t.client(src) matches Some(a) ==> peers_of(t, a.id).len() == 0,
    ensures
        !sends(on_client_data(c, data, src, t).effects, addr, d),
{
    client_is_indexed(t, src);
    if sends(on_client_data(c, data, src, t).effects, addr, d) {
        client_data_reaches_its_peer(c, data, src, t, addr, d);
        let (a, b) = (t.client(src)->0, t.client(addr)->0);
        assert(t.indexed(a.id));
        assert(t.by_client.contains_key(addr.spec_key()));
        assert(t.indexed(t.by_client[addr.spec_key()]));
        let pair = (a.ice_remote_ufrag->0, a.ice_ufrag->0);
        assert(t.by_ice_ufrag_pair.contains_key(pair));
        assert(peers_of(t, a.id).len() == 1);
    }
}

/// What a client sends to the relay without framing is delivered to its ICE
/// peer, if both permit the relay.
pub proof fn client_data_is_delivered(
    c: Config,
    data: Seq<u8>,
    src: SocketAddr,
    t: TableModel,
    a: AllocModel,
    addr: SocketAddr,
    b: AllocModel,
)
    requires
        t.wf(),
        addr != src,
        t.client(src) == Some(a),
        t.client(addr) == Some(b),
        are_paired(a, b),
        a.is_permitted(c.external_ip),
        b.is_permitted(c.external_ip),
    ensures
        sends(
            on_client_data(c, data, src, t).effects,
            addr,
            DatagramModel::DataIndication { source: c.spec_relay_addr(), data },
        ),
{
    client_is_indexed(t, src);
    client_is_indexed(t, addr);
    assert(t.indexed(a.id) && t.indexed(b.id));
    let ids = peers_of(t, a.id);
    assert(ids =~= seq![b.id]);
    assert(ids.drop_last() =~= Seq::<u64>::empty());
    let ds = indication_deliveries(c, t, ids, src);
    let only = Delivery { id: crate::lookup::AllocationId(b.id), client_addr: addr, channel: None };
    assert(ds =~= seq![only]) by {
        reveal_with_fuel(indication_deliveries, 2);
    }
    assert(ds.drop_last() =~= Seq::<Delivery>::empty());
    let relay = c.spec_relay_addr();
    let e = on_client_data(c, data, src, t).effects;
    let d = DatagramModel::DataIndication { source: relay, data };
    assert(e[0] == send_to(addr, d)) by {
        reveal_with_fuel(deliver_all, 2);
    }
    assert(seq![addr][0] == addr);
    assert(seq![addr].contains(addr));
}

/// The peer that a client's ChannelData is for.
pub open spec fn channel_peer(t: TableModel, src: SocketAddr, channel: u16) -> Option<SocketAddr> {
    match t.client(src) {
        Some(a) => a.peer_for_channel(channel),
        None => None,
    }
}

proof fn stun_delivery(
    t: TableModel,
    id: u64,
    src: SocketAddr,
    relay: SocketAddr,
    data: Seq<u8>,
    j: int,
)
    requires
        t.wf(),
        t.allocations.contains_key(id),
        0 <= j < stun_deliveries(t, id, src, relay, data).len(),
    ensures
        ({
            let d = stun_deliveries(t, id, src, relay, data)[j];
            t.allocations.get(d.id.0) matches Some(b) && d.client_addr == b.client_addr
                && b.client_addr != src
        }),
        stun_deliveries(t, id, src, relay, data).len() == 1,
{
    let named = match ufrags_of(data) {
        Some((remote, _)) => listener_deliveries(t, check_listener(t, remote), src, relay),
        None => Seq::empty(),
    };
    if named.len() > 0 {
        listener_delivery(t, check_listener(t, (ufrags_of(data)->0).0), src, relay, j);
    } else {
        listener_delivery(t, peers_of(t, id), src, relay, j);
        let other = listener_deliveries(t, peers_of(t, id), src, relay)[j].id.0;
        peer_is_paired(t, id, other);
    }
}

/// ChannelData is sent on only if the channel is bound and its peer permitted,
/// with its payload as it was. To a peer other than the relay it goes as it is,
/// unless the peer is forbidden or itself a client. Sent to the relay, it goes to
/// another client.
pub proof fn channel_data_goes_where_it_may(
    c: Config,
    channel: u16,
    data: Seq<u8>,
    src: SocketAddr,
    t: TableModel,
    addr: SocketAddr,
    d: DatagramModel,
)
    requires
        t.wf(),
        sends(on_channel_data(c, channel, data, src, t).effects, addr, d),
    ensures
        d.payload() == data,
        channel_peer(t, src, channel) matches Some(peer) && {
            &&& t.client(src)->0.is_permitted(peer.ip)
            &&& peer == c.spec_relay_addr() ==> addr != src && t.is_client(addr) && !(d is Raw)
            &&& peer != c.spec_relay_addr() ==> addr == peer
            &&& d is Raw <==> peer != c.spec_relay_addr() && !t.is_client(peer)
            &&& d is Raw ==> !is_forbidden_addr(c, peer)
        },
{
    client_is_indexed(t, src);
    let a = t.client(src)->0;
    let peer = a.peer_for_channel(channel)->0;
    let relay = c.spec_relay_addr();
    let received = EffectModel::TouchReceived { id: a.id };
    client_is_indexed(t, peer);
    if peer == relay && looks_like_stun(data) {
        let t1 = learn_ufrags(t, a.id, ufrags_of(data));
        if let Some((remote, local)) = ufrags_of(data) {
            register_ice_keeps_wf(t, a.id, local, remote);
        }
        let ds = stun_deliveries(t1, a.id, src, relay, data);
        sends_push(deliver_all(ds, relay, data), received, addr, d);
        let j = delivered(ds, relay, data, addr, d);
        stun_delivery(t1, a.id, src, relay, data, j);
        assert(t1.indexed(ds[j].id.0));
    } else if peer == relay {
        let ds = listener_deliveries(t, peers_of(t, a.id), src, relay);
        let e = EffectModel::TouchRelay { id: a.id, relayed: ds.len() > 0 };
        sends_push(deliver_all(ds, relay, data).push(e), received, addr, d);
        sends_push(deliver_all(ds, relay, data), e, addr, d);
        let j = delivered(ds, relay, data, addr, d);
        listener_delivery(t, peers_of(t, a.id), src, relay, j);
        assert(t.indexed(ds[j].id.0));
    } else {
        match t.client(peer) {
            Some(b) => {
                let ds = seq![
                    Delivery {
                        id: crate::lookup::AllocationId(b.id),
                        client_addr: b.client_addr,
                        channel: b.channel_for_peer(src),
                    },
                ];
                sends_push(deliver_all(ds, src, data), received, addr, d);
                let j = delivered(ds, src, data, addr, d);
            },
            None => {
                let sent = send_to(peer, DatagramModel::Raw(data));
                let none = Seq::<EffectModel>::empty();
                if !is_forbidden_addr(c, peer) {
                    assert(seq![sent, received] =~= none.push(sent).push(received));
                    sends_push(none.push(sent), received, addr, d);
                    sends_push(none, sent, addr, d);
                }
            },
        }
    }
}

/// ChannelData has at most one receiver: nothing is broadcast.
pub proof fn channel_data_has_one_receiver(
    c: Config,
    channel: u16,
    data: Seq<u8>,
    src: SocketAddr,
    t: TableModel,
    x: SocketAddr,
    dx: DatagramModel,
    y: SocketAddr,
    dy: DatagramModel,
)
    requires
        t.wf(),
        sends(on_channel_data(c, channel, data, src, t).effects, x, dx),
        sends(on_channel_data(c, channel, data, src, t).effects, y, dy),
    ensures
        x == y,
{
    client_is_indexed(t, src);
    let a = t.client(src)->0;
    let peer = a.peer_for_channel(channel)->0;
    let relay = c.spec_relay_addr();
    let received = EffectModel::TouchReceived { id: a.id };
    if peer != relay {
        channel_data_goes_where_it_may(c, channel, data, src, t, x, dx);
        channel_data_goes_where_it_may(c, channel, data, src, t, y, dy);
    } else if looks_like_stun(data) {
        let t1 = learn_ufrags(t, a.id, ufrags_of(data));
        if let Some((remote, local)) = ufrags_of(data) {
            register_ice_keeps_wf(t, a.id, local, remote);
        }
        let ds = stun_deliveries(t1, a.id, src, relay, data);
        sends_push(deliver_all(ds, relay, data), received, x, dx);
        sends_push(deliver_all(ds, relay, data), received, y, dy);
        let j = delivered(ds, relay, data, x, dx);
        let k = delivered(ds, relay, data, y, dy);
        stun_delivery(t1, a.id, src, relay, data, j);
    } else {
        let ds = listener_deliveries(t, peers_of(t, a.id), src, relay);
        let e = EffectModel::TouchRelay { id: a.id, relayed: ds.len() > 0 };
        sends_push(deliver_all(ds, relay, data).push(e), received, x, dx);
        sends_push(deliver_all(ds, relay, data), e, x, dx);
        sends_push(deliver_all(ds, relay, data).push(e), received, y, dy);
        sends_push(deliver_all(ds, relay, data), e, y, dy);
        let j = delivered(ds, relay, data, x, dx);
        let k = delivered(ds, relay, data, y, dy);
        listener_delivery(t, peers_of(t, a.id), src, relay, j);
        peer_is_paired(t, a.id, ds[j].id.0);
    }
}

proof fn permitting_client(c: Config, t: TableModel, ids: Seq<u64>, src: SocketAddr, addr: SocketAddr) -> (
    id: u64)
    requires
        permitting_clients(c, t, ids, src).contains(addr),
    ensures
        ids.contains(id),
        t.allocations.get(id) matches Some(b) && b.client_addr == addr && addr != src
            && b.is_permitted(c.external_ip),
    decreases ids.len(),
{
    let all = permitting_clients(c, t, ids, src);
    let before = permitting_clients(c, t, ids.drop_last(), src);
    let j = choose|j: int| 0 <= j < all.len() && all[j] == addr;
    assert(ids[ids.len() - 1] == ids.last());
    if j < before.len() {
        assert(before[j] == addr);
        let id = permitting_client(c, t, ids.drop_last(), src, addr);
        let k = choose|k: int| 0 <= k < ids.drop_last().len() && ids.drop_last()[k] == id;
        assert(ids[k] == id);
        id
    } else {
        ids.last()
    }
}

proof fn relay_target(
    c: Config,
    t: TableModel,
    id: u64,
    src: SocketAddr,
    data: Seq<u8>,
    addr: SocketAddr,
)
    requires
        t.wf(),
        t.allocations.contains_key(id),
        relay_targets(c, t, id, src, data).contains(addr),
    ensures
        addr != src,
        t.client(addr) matches Some(b) && b.is_permitted(c.external_ip),
        forall|x: SocketAddr| #[trigger]
            relay_targets(c, t, id, src, data).contains(x) ==> x == addr,
{
    let named = match check_ufrags(data) {
        Some((remote, _)) => ice_target(c, t, remote, src),
        None => None,
    };
    match named {
        Some(x) => {
            let remote = (check_ufrags(data)->0).0;
            assert(t.by_ice_ufrag.contains_key(remote));
            assert(t.indexed(t.by_ice_ufrag[remote]));
        },
        None => {
            let ids = peers_of(t, id);
            let other = permitting_client(c, t, ids, src, addr);
            peer_is_paired(t, id, other);
            assert(t.indexed(other));
            assert forall|x: SocketAddr| #[trigger] relay_targets(c, t, id, src, data).contains(
                x,
            ) implies x == addr by {
                let third = permitting_client(c, t, ids, src, x);
            }
        },
    }
}

/// The data of a Send indication is sent on only if its peer is permitted and
/// not forbidden, as it was. To a peer other than the relay it goes as it is,
/// unless the peer is itself a client. Sent to the relay, it goes to another
/// client that permits the relay.
pub proof fn send_goes_where_it_may(
    c: Config,
    m: StunModel,
    src: SocketAddr,
    t: TableModel,
    addr: SocketAddr,
    d: DatagramModel,
)
    requires
        t.wf(),
        sends(on_send(c, m, src, t).effects, addr, d),
    ensures
        m.xor_peer_addresses.len() > 0,
        m.data == Some(d.payload()),
        ({
            let peer = m.xor_peer_addresses[0];
            &&& !is_forbidden_addr(c, peer)
            &&& t.client(src) matches Some(a) && a.is_permitted(peer.ip)
            &&& peer == c.spec_relay_addr() ==> addr != src && !(d is Raw) && (t.client(
                addr,
            ) matches Some(b) && b.is_permitted(c.external_ip))
            &&& peer != c.spec_relay_addr() ==> addr == peer
            &&& d is Raw <==> peer != c.spec_relay_addr() && !t.is_client(peer)
        }),
{
    client_is_indexed(t, src);
    let a = t.client(src)->0;
    let peer = m.xor_peer_addresses[0];
    let data = m.data->0;
    let relay = c.spec_relay_addr();
    let none = Seq::<EffectModel>::empty();
    client_is_indexed(t, peer);
    if peer == relay {
        let t1 = learn_ufrags(t, a.id, check_ufrags(data));
        if let Some((remote, local)) = check_ufrags(data) {
            register_ice_keeps_wf(t, a.id, local, remote);
        }
        let targets = relay_targets(c, t1, a.id, src, data);
        let dd = DatagramModel::DataIndication { source: relay, data };
        let touch = EffectModel::TouchReceivedFrom { client: src, relayed: targets.len() > 0 };
        sends_push(send_to_all(targets, dd), touch, addr, d);
        let sent = EffectModel::Send { to: targets, datagram: dd };
        if targets.len() > 0 {
            assert(send_to_all(targets, dd) =~= none.push(sent));
            sends_push(none, sent, addr, d);
        }
        relay_target(c, t1, a.id, src, data, addr);
    } else {
        let touch = EffectModel::TouchReceivedFrom { client: src, relayed: false };
        match t.client(peer) {
            Some(b) => {
                let sent = send_to(peer, framed(b, src, data));
                let seen = EffectModel::Touch { id: b.id };
                assert(seq![sent, seen, touch] =~= none.push(sent).push(seen).push(touch));
                sends_push(none.push(sent).push(seen), touch, addr, d);
                sends_push(none.push(sent), seen, addr, d);
                sends_push(none, sent, addr, d);
            },
            None => {
                let sent = send_to(peer, DatagramModel::Raw(data));
                assert(seq![sent, touch] =~= none.push(sent).push(touch));
                sends_push(none.push(sent), touch, addr, d);
                sends_push(none, sent, addr, d);
            },
        }
    }
}

/// A Send indication has at most one receiver: nothing is broadcast.
pub proof fn send_has_one_receiver(
    c: Config,
    m: StunModel,
    src: SocketAddr,
    t: TableModel,
    x: SocketAddr,
    dx: DatagramModel,
    y: SocketAddr,
    dy: DatagramModel,
)
    requires
        t.wf(),
        sends(on_send(c, m, src, t).effects, x, dx),
        sends(on_send(c, m, src, t).effects, y, dy),
    ensures
        x == y,
{
    client_is_indexed(t, src);
    let a = t.client(src)->0;
    let peer = m.xor_peer_addresses[0];
    let data = m.data->0;
    let relay = c.spec_relay_addr();
    let none = Seq::<EffectModel>::empty();
    if peer == relay {
        let t1 = learn_ufrags(t, a.id, check_ufrags(data));
        if let Some((remote, local)) = check_ufrags(data) {
            register_ice_keeps_wf(t, a.id, local, remote);
        }
        let targets = relay_targets(c, t1, a.id, src, data);
        let dd = DatagramModel::DataIndication { source: relay, data };
        let touch = EffectModel::TouchReceivedFrom { client: src, relayed: targets.len() > 0 };
        let sent = EffectModel::Send { to: targets, datagram: dd };
        sends_push(send_to_all(targets, dd), touch, x, dx);
        sends_push(send_to_all(targets, dd), touch, y, dy);
        assert(targets.len() > 0 ==> send_to_all(targets, dd) =~= none.push(sent));
        sends_push(none, sent, x, dx);
        sends_push(none, sent, y, dy);
        relay_target(c, t1, a.id, src, data, x);
    } else {
        send_goes_where_it_may(c, m, src, t, x, dx);
        send_goes_where_it_may(c, m, src, t, y, dy);
    }
}

/// A Send indication to the relay that reaches nobody is dropped without
/// starting the orphan timer of its sender: it only counts as traffic from it.
pub proof fn send_without_target_starts_no_timer(
    c: Config,
    m: StunModel,
    src: SocketAddr,
    t: TableModel,
    a: AllocModel,
    now_ms: u64,
)
    requires
        t.wf(),
        t.client(src) == Some(a),
        m.xor_peer_addresses.len() > 0,
        m.xor_peer_addresses[0] == c.spec_relay_addr(),
        m.data is Some,
        !is_forbidden_addr(c, c.spec_relay_addr()),
        a.is_permitted(c.external_ip),
        relay_targets(
            c,
            learn_ufrags(t, a.id, check_ufrags(m.data->0)),
            a.id,
            src,
            m.data->0,
        ).len() == 0,
    ensures
        ({
            let step = on_send(c, m, src, t);
            let e = EffectModel::TouchReceivedFrom { client: src, relayed: false };
            &&& step.effects == seq![e]
            &&& apply(step.table, e, now_ms).client(src) matches Some(b) && b.has_relay_attempt
                == a.has_relay_attempt && b.last_successful_relay_ms == a.last_successful_relay_ms
                && b.last_received_ms == now_ms
        }),
{
    client_is_indexed(t, src);
    let e = EffectModel::TouchReceivedFrom { client: src, relayed: false };
    assert(on_send(c, m, src, t).effects =~= seq![e]);
}

/// A client's Binding request goes to the one client it names, which permits the
/// relay and is not the sender, and to nobody else.
pub proof fn binding_reaches_the_named_client(
    c: Config,
    m: StunModel,
    src: SocketAddr,
    t: TableModel,
    now_ms: u64,
    addr: SocketAddr,
    d: DatagramModel,
)
    requires
        t.wf(),
        t.is_client(src),
        sends(on_binding(c, m, src, t, now_ms).effects, addr, d),
    ensures
        addr != src,
        d == (DatagramModel::DataIndication { source: c.spec_relay_addr(), data: m.raw }),
        m.ice_username() is Some,
        ({
            let u = on_binding(c, m, src, t, now_ms).table;
            u.by_ice_ufrag.get((m.ice_username()->0).0) matches Some(id) && u.allocations.get(
                id,
            ) matches Some(b) && b.client_addr == addr && b.is_permitted(c.external_ip)
        }),
{
    client_is_indexed(t, src);
    let u = on_binding(c, m, src, t, now_ms).table;
    let target = match m.ice_username() {
        Some((remote, _)) => ice_target(c, u, remote, src),
        None => None,
    };
    let none = Seq::<EffectModel>::empty();
    if let Some(x) = target {
        let dd = DatagramModel::DataIndication { source: c.spec_relay_addr(), data: m.raw };
        assert(seq![send_to(x, dd)] =~= none.push(send_to(x, dd)));
        sends_push(none, send_to(x, dd), addr, d);
    }
}

/// Carrying out an effect keeps the table well formed, and changes neither who
/// the clients are nor what they permit or have bound.
pub proof fn effect_keeps_wf(t: TableModel, e: EffectModel, now_ms: u64)
    requires
        t.wf(),
    ensures
        apply(t, e, now_ms).wf(),
        apply(t, e, now_ms) == (TableModel { allocations: apply(t, e, now_ms).allocations, ..t }),
        apply(t, e, now_ms).allocations.dom() == t.allocations.dom(),
        forall|id: u64| #[trigger]
            t.allocations.contains_key(id) ==> apply(t, e, now_ms).allocations[id].permissions
                == t.allocations[id].permissions && apply(t, e, now_ms).allocations[id].channels
                == t.allocations[id].channels && apply(t, e, now_ms).allocations[id].client_addr
                == t.allocations[id].client_addr,
{
    assert(forall|id: u64| #[trigger] t.allocations.contains_key(id) ==> t.indexed(id));
    match e {
        EffectModel::Send { .. } => {},
        EffectModel::Touch { id } => {
            modify_keeps_wf(t, id, |a: AllocModel| a.touch(now_ms));
        },
        EffectModel::TouchReceived { id } => {
            modify_keeps_wf(t, id, |a: AllocModel| a.touch_received(now_ms));
        },
        EffectModel::TouchReceivedFrom { client, relayed } => {
            if let Some(id) = t.by_client.get(client.spec_key()) {
                let t1 = t.touch_received(id, now_ms);
                modify_keeps_wf(t, id, |a: AllocModel| a.touch_received(now_ms));
                assert(t1.indexed(id));
                modify_keeps_wf(t1, id, |a: AllocModel| a.touch_relay(true, now_ms));
            }
        },
        EffectModel::TouchRelay { id, relayed } => {
            modify_keeps_wf(t, id, |a: AllocModel| a.touch_relay(relayed, now_ms));
        },
    }
    assert(apply(t, e, now_ms).allocations.dom() =~= t.allocations.dom());
}

/// Whatever is relayed, the table stays well formed.
pub proof fn relaying_keeps_wf(
    c: Config,
    channel: u16,
    data: Seq<u8>,
    src: SocketAddr,
    t: TableModel,
    echo_if_unique: bool,
    use_channels: bool,
    now_ms: u64,
)
    requires
        t.wf(),
    ensures
        on_channel_data(c, channel, data, src, t).table.wf(),
        on_client_data(c, data, src, t).table == t,
        on_peer_packet(t, src, data, echo_if_unique, use_channels, now_ms).table.wf(),
{
    client_is_indexed(t, src);
    if let Some(a) = t.client(src) {
        if let Some((remote, local)) = ufrags_of(data) {
            register_ice_keeps_wf(t, a.id, local, remote);
        }
    }
    let ids = t.candidates(src);
    if ids.len() == 1 {
        if t.by_peer_tuple.contains_key(src.spec_key()) {
            assert(ids[0] < t.next_id);
        } else {
            assert(t.issued(t.by_permission[src.ip.spec_key()]));
            assert(ids[0] < t.next_id);
        }
        register_peer_keeps_wf(t, ids[0], src, now_ms);
    }
}

/// At most one of the attributes is a USERNAME.
pub open spec fn one_username(attrs: Seq<Attribute>) -> bool {
    forall|i: int, j: int|
        0 <= i < attrs.len() && 0 <= j < attrs.len() && (#[trigger] attrs[i]).kind == ATTR_USERNAME && (
        #[trigger] attrs[j]).kind == ATTR_USERNAME ==> i == j
}

/// Two lists of attributes that differ at most in where the attributes stand.
spec fn same_attributes(x: Seq<Attribute>, y: Seq<Attribute>) -> bool {
    x.len() == y.len() && forall|i: int|
        0 <= i < x.len() ==> (#[trigger] x[i]).kind == y[i].kind && x[i].value == y[i].value
}

/// Attributes are the same whether the bytes before them are there or not.
proof fn attributes_without_prefix(s: Seq<u8>, pre: int, at: int)
    requires
        0 <= pre <= s.len(),
        0 <= at,
    ensures
        same_attributes(
            attributes(s, pre + at, s.len() as int),
            attributes(s.subrange(pre, s.len() as int), at, s.len() - pre),
        ),
    decreases vstd::math::max(s.len() - pre - at, 0),
{
    let sub = s.subrange(pre, s.len() as int);
    if pre + at + 4 <= s.len() {
        assert(sub[at] == s[pre + at] && sub[at + 1] == s[pre + at + 1] && sub[at + 2] == s[pre + at
            + 2] && sub[at + 3] == s[pre + at + 3]);
        let len = u16_at(sub, at + 2) as int;
        if pre + at + 4 + len <= s.len() {
            let next = at + 4 + len + padding(len);
            attributes_without_prefix(s, pre, next);
            assert(sub.subrange(at + 4, at + 4 + len) =~= s.subrange(
                pre + at + 4,
                pre + at + 4 + len,
            ));
        }
    }
}

proof fn first_pair_of_same(x: Seq<Attribute>, y: Seq<Attribute>)
    requires
        same_attributes(x, y),
    ensures
        first_pair(x) == first_pair(y),
    decreases x.len(),
{
    if x.len() > 0 {
        assert(x[0].kind == y[0].kind);
        assert forall|i: int| 0 <= i < x.drop_first().len() implies (#[trigger] x.drop_first()[i]).kind
            == y.drop_first()[i].kind && x.drop_first()[i].value == y.drop_first()[i].value by {
            assert(x[i + 1].kind == y[i + 1].kind);
        }
        first_pair_of_same(x.drop_first(), y.drop_first());
    }
}

proof fn first_pair_at(attrs: Seq<Attribute>, at: int)
    requires
        0 <= at <= attrs.len(),
        forall|i: int|
            0 <= i < attrs.len() && i != at ==> (#[trigger] attrs[i]).kind != ATTR_USERNAME,
    ensures
        first_pair(attrs) == if at < attrs.len() {
            pair_in(attrs[at])
        } else {
            None
        },
    decreases attrs.len(),
{
    if attrs.len() > 0 {
        let rest = attrs.drop_first();
        assert forall|i: int|
            0 <= i < rest.len() && i != (if at > 0 {
                at - 1
            } else {
                rest.len() as int
            }) implies (#[trigger] rest[i]).kind != ATTR_USERNAME by {
            assert(rest[i] == attrs[i + 1]);
        }
        if at > 0 {
            assert(attrs[0].kind != ATTR_USERNAME);
            first_pair_at(rest, at - 1);
        } else {
            first_pair_at(rest, rest.len() as int);
        }
    }
}

proof fn last_username_at(attrs: Seq<Attribute>, at: int)
    requires
        0 <= at <= attrs.len(),
        forall|i: int|
            0 <= i < attrs.len() && i != at ==> (#[trigger] attrs[i]).kind != ATTR_USERNAME,
        at < attrs.len() ==> attrs[at].kind == ATTR_USERNAME,
    ensures
        last_of(attrs, |a: Attribute| a.kind == ATTR_USERNAME) == if at < attrs.len() {
            Some(attrs[at])
        } else {
            None
        },
    decreases attrs.len(),
{
    if attrs.len() > 0 {
        let last = attrs.len() - 1;
        assert(attrs.last() == attrs[last]);
        if at != last {
            let rest = attrs.drop_last();
            let there = if at < last {
                at
            } else {
                last
            };
            assert forall|i: int| 0 <= i < rest.len() && i != there implies (
            #[trigger] rest[i]).kind != ATTR_USERNAME by {
                assert(rest[i] == attrs[i]);
            }
            last_username_at(rest, there);
        }
    }
}

/// The two ways to read the ufrags agree: of a whole message with at most one
/// USERNAME, walking the attributes gives the pair that the parsed username holds.
pub proof fn ufrags_are_those_of_the_username(data: Seq<u8>)
    requires
        is_stun_message(data),
        data.len() == 20 + u16_at(data, 2),
        one_username(attributes(data.subrange(20, data.len() as int), 0, data.len() - 20)),
    ensures
        stun_of(data) matches Some(m) && ufrags_of(data) == m.ice_username(),
{
    let attrs = attributes(data.subrange(20, data.len() as int), 0, data.len() - 20);
    attributes_without_prefix(data, 20, 0);
    first_pair_of_same(attributes(data, 20, data.len() as int), attrs);
    let at = if exists|i: int| 0 <= i < attrs.len() && (#[trigger] attrs[i]).kind == ATTR_USERNAME {
        choose|i: int| 0 <= i < attrs.len() && (#[trigger] attrs[i]).kind == ATTR_USERNAME
    } else {
        attrs.len() as int
    };
    first_pair_at(attrs, at);
    last_username_at(attrs, at);
}

} // verus!
