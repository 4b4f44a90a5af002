//! The terms that the laws are stated in, and what follows from them.

use vstd::prelude::*;

use crate::bytes::u16_be;
use crate::config::Config;
use crate::demux::stun::{cookie, stun_of, StunClass, StunMethod, StunModel};
use crate::lookup::laws::client_is_indexed;
use crate::lookup::model::{AllocModel, TableModel};
use crate::net::SocketAddr;
use crate::relay::effect::{send_to, DatagramModel, EffectModel};
use crate::relay::laws::sends;
use crate::relay::rules::{deliver_all, frame_of, peer_deliveries, Delivery};
use crate::text::split_joined;
use crate::turn::encode::{attribute, header, message};
use crate::turn::rules::other_clients;
use crate::turn::wire_laws::message_parses;

verus! {

/// The address that every client is reached at through the relay.
pub open spec fn relay_of(c: Config) -> SocketAddr {
    SocketAddr { ip: c.external_ip, port: c.port, flow_info: 0, scope_id: 0 }
}

/// The datagram is a STUN message of the given class and method.
pub open spec fn is_message(data: Seq<u8>, m: StunModel, class: StunClass, method: StunMethod) -> bool {
    &&& data.len() > 0
    &&& data[0] <= 3
    &&& stun_of(data) == Some(m)
    &&& m.class == class
    &&& m.method == method
}

/// The allocation `id` is `a`, and its client is at `addr`.
pub open spec fn is_at(t: TableModel, id: u64, a: AllocModel, addr: SocketAddr) -> bool {
    &&& t.allocations.contains_key(id)
    &&& t.allocations[id] == a
    &&& a.client_addr == addr
}

/// `data` from `source`, as the client of `b` gets it: in the channel that it has
/// bound to the source, or else in an indication that names the source.
pub open spec fn carries(d: DatagramModel, b: AllocModel, source: SocketAddr, data: Seq<u8>) -> bool {
    match d {
        DatagramModel::ChannelData { channel, data: payload } => payload == data
            && b.channels.contains_key(channel) && b.channels[channel] == source,
        DatagramModel::DataIndication { source: from, data: payload } => payload == data && from
            == source && forall|ch: u16| #[trigger]
            b.channels.contains_key(ch) ==> b.channels[ch] != source,
        DatagramModel::Raw(_) => false,
    }
}

/// The client of `b` is sent `data` from `source`.
pub open spec fn reaches(effects: Seq<EffectModel>, b: AllocModel, source: SocketAddr, data: Seq<u8>) -> bool {
    exists|d: DatagramModel| carries(d, b, source, data) && #[trigger] sends(effects, b.client_addr, d)
}

/// The client of `b` is sent `data` from `source`, nobody else is sent anything, and
/// what is recorded then is `records`.
pub open spec fn reaches_only(
    effects: Seq<EffectModel>,
    b: AllocModel,
    source: SocketAddr,
    data: Seq<u8>,
    records: Seq<EffectModel>,
) -> bool {
    exists|d: DatagramModel| #[trigger]
        carries(d, b, source, data) && effects == seq![
            EffectModel::Send { to: seq![b.client_addr], datagram: d },
        ] + records
}

/// The message names the ufrag `remote` as the receiver's and `local` as the
/// sender's.
pub open spec fn names(m: StunModel, remote: Seq<char>, local: Seq<char>) -> bool {
    m.username == Some(remote + seq![':'] + local) && !remote.contains(':')
}

/// Who is the only one to be reached is reached.
pub(crate) proof fn only_one_is_reached(
    effects: Seq<EffectModel>,
    b: AllocModel,
    source: SocketAddr,
    data: Seq<u8>,
    records: Seq<EffectModel>,
)
    requires
        reaches_only(effects, b, source, data, records),
    ensures
        reaches(effects, b, source, data),
{
    let d = choose|d: DatagramModel| #[trigger]
        carries(d, b, source, data) && effects == seq![
            EffectModel::Send { to: seq![b.client_addr], datagram: d },
        ] + records;
    assert(effects[0] == (EffectModel::Send { to: seq![b.client_addr], datagram: d }));
    assert(seq![b.client_addr][0] == b.client_addr);
    sends_at(effects, 0, seq![b.client_addr], b.client_addr, d);
}

/// A single delivery is all that is sent.
pub(crate) proof fn only_delivery(
    d: Delivery,
    id: u64,
    b: AllocModel,
    source: SocketAddr,
    data: Seq<u8>,
    records: Seq<EffectModel>,
)
    requires
        b.wf(),
        d.id.0 == id,
        d.client_addr == b.client_addr,
        d.channel == b.channel_for_peer(source),
    ensures
        reaches_only(
            deliver_all(seq![d], source, data) + records,
            b,
            source,
            data,
            seq![EffectModel::Touch { id }] + records,
        ),
{
    frame_carries(b, source, data);
    let frame = frame_of(d.channel, source, data);
    reveal_with_fuel(deliver_all, 2);
    assert(seq![d].drop_last() =~= Seq::<Delivery>::empty());
    assert(deliver_all(seq![d], source, data) + records =~= seq![
        EffectModel::Send { to: seq![b.client_addr], datagram: frame },
    ] + (seq![EffectModel::Touch { id }] + records));
    assert(carries(frame, b, source, data));
}

/// The frame that a client gets is the one that its bindings ask for.
pub(crate) proof fn frame_carries(b: AllocModel, source: SocketAddr, data: Seq<u8>)
    requires
        b.wf(),
    ensures
        carries(frame_of(b.channel_for_peer(source), source, data), b, source, data),
        forall|d: DatagramModel| #[trigger]
            carries(d, b, source, data) ==> d == frame_of(b.channel_for_peer(source), source, data),
{
    broadcast use crate::net::addr_key_injective;

    let k = source.spec_key();
    if b.channels_reverse.contains_key(k) {
        let ch = b.channels_reverse[k] as u16;
        assert(b.channels.contains_key(ch));
        assert(b.channels[ch].spec_key() == source.spec_key());
        assert forall|d: DatagramModel| #[trigger] carries(d, b, source, data) implies d == frame_of(
            b.channel_for_peer(source),
            source,
            data,
        ) by {
            if let DatagramModel::ChannelData { channel, data: payload } = d {
                assert(b.channels_reverse.get(b.channels[channel].spec_key()) == Some(
                    channel as u64,
                ));
            }
        }
    } else {
        assert forall|ch: u16| #[trigger] b.channels.contains_key(ch) implies b.channels[ch]
            != source by {
            assert(b.channels_reverse.get(b.channels[ch].spec_key()) == Some(ch as u64));
        }
    }
}

/// A client is where its allocation says.
pub(crate) proof fn found_at(t: TableModel, id: u64, a: AllocModel, addr: SocketAddr)
    requires
        t.wf(),
        is_at(t, id, a, addr),
    ensures
        t.client(addr) == Some(a),
        t.is_client(addr),
        a.id == id,
        a.wf(),
        id < t.next_id,
{
    assert(t.indexed(id));
    client_is_indexed(t, addr);
}

/// The pair of ufrags is what stands before and after the colon.
pub(crate) proof fn named_pair(m: StunModel, remote: Seq<char>, local: Seq<char>)
    ensures
        names(m, remote, local) <==> m.ice_username() == Some((remote, local)),
{
    if names(m, remote, local) {
        split_joined(remote, local);
    }
    if m.ice_username() == Some((remote, local)) {
        let s = m.username->0;
        assert(s.contains(':')) by {
            if !s.contains(':') {
                s.index_of_first_ensures(':');
            }
        }
        s.index_of_first_ensures(':');
        let i = s.index_of_first(':')->0;
        assert(s =~= remote + seq![':'] + local);
        if remote.contains(':') {
            let j = choose|j: int| 0 <= j < remote.len() && remote[j] == ':';
            assert(s[j] == ':');
        }
    }
}

/// What was sent stays sent when more is to be done.
pub(crate) proof fn sends_more(effects: Seq<EffectModel>, e: EffectModel, addr: SocketAddr, d: DatagramModel)
    requires
        sends(effects, addr, d),
    ensures
        sends(effects.push(e), addr, d),
{
    let (i, to) = choose|i: int, to: Seq<SocketAddr>|
        #![trigger effects[i], to.contains(addr)]
        0 <= i < effects.len() && effects[i] == (EffectModel::Send { to, datagram: d })
            && to.contains(addr);
    assert(effects.push(e)[i] == effects[i]);
    assert(to.contains(addr));
}

/// What stands in a list of effects is sent.
pub(crate) proof fn sends_at(effects: Seq<EffectModel>, i: int, to: Seq<SocketAddr>, addr: SocketAddr, d: DatagramModel)
    requires
        0 <= i < effects.len(),
        effects[i] == (EffectModel::Send { to, datagram: d }),
        to.contains(addr),
    ensures
        sends(effects, addr, d),
{
}

/// Every delivery is sent, and recorded with its receiver.
pub(crate) proof fn delivery_is_sent(ds: Seq<Delivery>, source: SocketAddr, data: Seq<u8>, j: int)
    requires
        0 <= j < ds.len(),
    ensures
        sends(
            deliver_all(ds, source, data),
            ds[j].client_addr,
            frame_of(ds[j].channel, source, data),
        ),
        deliver_all(ds, source, data).contains(EffectModel::Touch { id: ds[j].id.0 }),
    decreases ds.len(),
{
    let rest = deliver_all(ds.drop_last(), source, data);
    let last = ds.last();
    let frame = frame_of(last.channel, source, data);
    let touch = EffectModel::Touch { id: last.id.0 };
    let all = deliver_all(ds, source, data);
    assert(all == rest.push(send_to(last.client_addr, frame)).push(touch));
    if j == ds.len() - 1 {
        assert(all[rest.len() as int] == send_to(last.client_addr, frame));
        assert(seq![last.client_addr][0] == last.client_addr);
        sends_at(all, rest.len() as int, seq![last.client_addr], last.client_addr, frame);
        assert(all[rest.len() as int + 1] == touch);
    } else {
        delivery_is_sent(ds.drop_last(), source, data, j);
        let d = ds.drop_last()[j];
        let f = frame_of(d.channel, source, data);
        sends_more(rest, send_to(last.client_addr, frame), d.client_addr, f);
        sends_more(rest.push(send_to(last.client_addr, frame)), touch, d.client_addr, f);
        let k = choose|k: int| 0 <= k < rest.len() && rest[k] == (EffectModel::Touch { id: d.id.0 });
        assert(all[k] == rest[k]);
    }
}

/// Who permits a peer is among those its packets are delivered to.
pub(crate) proof fn peer_is_listed(
    t: TableModel,
    ids: Seq<u64>,
    peer: SocketAddr,
    skip_same_ip: bool,
    use_channels: bool,
    id: u64,
) -> (j: int)
    requires
        ids.contains(id),
        t.allocations.contains_key(id),
        t.allocations[id].is_permitted(peer.ip),
        !(skip_same_ip && t.allocations[id].client_addr.ip == peer.ip),
    ensures
        ({
            let ds = peer_deliveries(t, ids, peer, skip_same_ip, use_channels);
            &&& 0 <= j < ds.len()
            &&& ds[j].id.0 == id
            &&& ds[j].client_addr == t.allocations[id].client_addr
            &&& ds[j].channel == if use_channels {
                t.allocations[id].channel_for_peer(peer)
            } else {
                None
            }
        }),
    decreases ids.len(),
{
    let before = peer_deliveries(t, ids.drop_last(), peer, skip_same_ip, use_channels);
    if ids.last() == id {
        before.len() as int
    } else {
        let k = choose|k: int| 0 <= k < ids.len() && ids[k] == id;
        assert(ids.drop_last()[k] == id);
        peer_is_listed(t, ids.drop_last(), peer, skip_same_ip, use_channels, id)
    }
}

/// The other clients of a list are listed, and nobody else.
pub(crate) proof fn other_is_listed(t: TableModel, ids: Seq<u64>, src: SocketAddr, addr: SocketAddr)
    ensures
        other_clients(t, ids, src).contains(addr) <==> addr != src && exists|id: u64|
            #[trigger] ids.contains(id) && t.allocations.contains_key(id)
                && t.allocations[id].client_addr == addr,
    decreases ids.len(),
{
    let all = other_clients(t, ids, src);
    if ids.len() > 0 {
        let rest = ids.drop_last();
        let before = other_clients(t, rest, src);
        other_is_listed(t, rest, src, addr);
        assert forall|id: u64| #[trigger] ids.contains(id) <==> rest.contains(id) || id
            == ids.last() by {
            if rest.contains(id) {
                let k = choose|k: int| 0 <= k < rest.len() && rest[k] == id;
                assert(ids[k] == id);
            }
            if ids.contains(id) && id != ids.last() {
                let k = choose|k: int| 0 <= k < ids.len() && ids[k] == id;
                assert(rest[k] == id);
            }
            assert(ids[ids.len() - 1] == ids.last());
        }
        if before.contains(addr) {
            let j = choose|j: int| 0 <= j < before.len() && before[j] == addr;
            assert(all[j] == addr);
        }
        if all.contains(addr) && !before.contains(addr) {
            let j = choose|j: int| 0 <= j < all.len() && all[j] == addr;
            if j < before.len() {
                assert(before[j] == addr);
            }
            assert(ids.contains(ids.last()));
        }
        if addr != src && t.allocations.contains_key(ids.last())
            && t.allocations[ids.last()].client_addr == addr {
            assert(all[before.len() as int] == addr);
        }
        if all.contains(addr) && before.contains(addr) {
            let id = choose|id: u64| #[trigger]
                rest.contains(id) && t.allocations.contains_key(id)
                    && t.allocations[id].client_addr == addr;
            assert(ids.contains(id));
        }
    }
}

/// `bytes` is a STUN message of the given type and transaction id, whole and with
/// nothing after it.
pub open spec fn is_reply(bytes: Seq<u8>, msg_type: u16, txn: Seq<u8>) -> bool {
    &&& bytes.len() >= 20
    &&& bytes[0] * 256 + bytes[1] == msg_type
    &&& bytes[2] * 256 + bytes[3] == bytes.len() - 20
    &&& bytes[4] == 0x21
    &&& bytes[5] == 0x12
    &&& bytes[6] == 0xa4
    &&& bytes[7] == 0x42
    &&& bytes.subrange(8, 20) == txn
}

/// An attribute of the given type and value stands in `bytes` at `at`.
pub open spec fn has_attribute(bytes: Seq<u8>, at: int, kind: u16, value: Seq<u8>) -> bool {
    &&& 20 <= at
    &&& at % 4 == 0
    &&& bytes.len() >= at + 4 + value.len()
    &&& bytes[at] * 256 + bytes[at + 1] == kind
    &&& bytes[at + 2] * 256 + bytes[at + 3] == value.len()
    &&& bytes.subrange(at + 4, at + 4 + value.len()) == value
}

/// A message is a reply of its type.
pub(crate) proof fn reply_of(msg_type: u16, txn: Seq<u8>, attrs: Seq<u8>)
    requires
        txn.len() == 12,
        attrs.len() <= 65535,
    ensures
        is_reply(message(msg_type, txn, attrs), msg_type, txn),
{
    message_parses(msg_type, txn, attrs);
    let bytes = message(msg_type, txn, attrs);
    let s = bytes.subrange(4, 8);
    assert(s == cookie());
    assert(s[0] == bytes[4] && s[1] == bytes[5] && s[2] == bytes[6] && s[3] == bytes[7]);
}

/// An attribute stands where it was put.
pub(crate) proof fn attribute_at(bytes: Seq<u8>, before: Seq<u8>, kind: u16, value: Seq<u8>, after: Seq<u8>)
    requires
        20 <= before.len(),
        before.len() % 4 == 0,
        value.len() <= 65535,
        bytes == before + attribute(kind, value) + after,
    ensures
        has_attribute(bytes, before.len() as int, kind, value),
{
    let at = before.len() as int;
    let a = attribute(kind, value);
    let n = value.len() as u16;
    crate::bytes::u16_round_trip(kind);
    crate::bytes::u16_round_trip(n);
    assert(bytes[at] == a[0] && bytes[at + 1] == a[1] && bytes[at + 2] == a[2] && bytes[at + 3]
        == a[3]);
    assert(a[0] == u16_be(kind)[0] && a[1] == u16_be(kind)[1]);
    assert(a[2] == u16_be(n)[0] && a[3] == u16_be(n)[1]);
    assert(bytes.subrange(at + 4, at + 4 + value.len()) =~= value) by {
        assert forall|i: int| 0 <= i < value.len() implies bytes[at + 4 + i] == value[i] by {
            assert(bytes[at + 4 + i] == a[4 + i]);
        }
    }
}

/// The first attribute of a message stands right after its header.
pub(crate) proof fn first_attribute(msg_type: u16, txn: Seq<u8>, kind: u16, value: Seq<u8>, rest: Seq<u8>)
    requires
        txn.len() == 12,
        value.len() <= 65535,
    ensures
        has_attribute(message(msg_type, txn, attribute(kind, value) + rest), 20, kind, value),
{
    let attrs = attribute(kind, value) + rest;
    let h = header(msg_type, attrs.len() as int, txn);
    assert(h.len() == 20);
    assert(message(msg_type, txn, attrs) =~= h + attribute(kind, value) + rest);
    attribute_at(message(msg_type, txn, attrs), h, kind, value, rest);
}

} // verus!
