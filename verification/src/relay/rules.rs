//! Where media goes, as functions of the configuration, the packet and the
//! table of allocations.

use vstd::prelude::*;

use super::effect::{send_to, DatagramModel, EffectModel};
use crate::bytes::u16_at;
use crate::config::Config;
use crate::demux::stun::{attributes, cookie, Attribute, ATTR_USERNAME};
use crate::lookup::model::TableModel;
use crate::lookup::AllocationId;
use crate::net::SocketAddr;
use crate::text::{split_at_colon, text_of};
use crate::turn::rules::{ignore, is_forbidden_addr, peers_of, Step};

verus! {

/// A DTLS record: content type 20 to 25 and a version that starts with 0xfe.
pub open spec fn looks_like_dtls(data: Seq<u8>) -> bool {
    data.len() >= 3 && 20 <= data[0] <= 25 && data[1] == 0xfe
}

/// Not DTLS, and a payload type outside the range that RTCP packet types fall into.
pub open spec fn looks_like_rtp(data: Seq<u8>) -> bool {
    data.len() >= 2 && !looks_like_dtls(data) && !(64 <= data[1] % 128 < 96)
}

/// A STUN header: the first byte is at most 3, and the cookie is there.
pub open spec fn looks_like_stun(data: Seq<u8>) -> bool {
    data.len() >= 20 && data[0] <= 3 && data.subrange(4, 8) == cookie()
}

/// The ufrag pair in the first USERNAME attribute that holds one.
pub open spec fn first_pair(attrs: Seq<Attribute>) -> Option<(Seq<char>, Seq<char>)>
    decreases attrs.len(),
{
    if attrs.len() == 0 {
        None
    } else {
        match pair_in(attrs[0]) {
            Some(pair) => Some(pair),
            None => first_pair(attrs.drop_first()),
        }
    }
}

/// The ufrag pair in an attribute, if it is a USERNAME and holds one.
pub open spec fn pair_in(a: Attribute) -> Option<(Seq<char>, Seq<char>)> {
    if a.kind == ATTR_USERNAME {
        match text_of(a.value) {
            Some(t) => split_at_colon(t),
            None => None,
        }
    } else {
        None
    }
}

/// The ufrag pair of a STUN message: the receiver's, then the sender's.
pub open spec fn ufrags_of(data: Seq<u8>) -> Option<(Seq<char>, Seq<char>)> {
    if data.len() >= 20 && data.len() >= 20 + u16_at(data, 2) {
        first_pair(attributes(data, 20, 20 + u16_at(data, 2)))
    } else {
        None
    }
}

/// A packet for one client.
#[derive(Debug, Clone, Copy)]
pub struct Delivery {
    pub id: AllocationId,
    pub client_addr: SocketAddr,
    /// The channel that the client has bound to the source of the packet, if any
    pub channel: Option<u16>,
}

/// Data from `source`: in a channel, or else in an indication.
pub open spec fn frame_of(channel: Option<u16>, source: SocketAddr, data: Seq<u8>) -> DatagramModel {
    match channel {
        Some(c) => DatagramModel::ChannelData { channel: c, data },
        None => DatagramModel::DataIndication { source, data },
    }
}

/// The effects of deliveries: each is sent, and recorded with its receiver.
pub open spec fn deliver_all(ds: Seq<Delivery>, source: SocketAddr, data: Seq<u8>) -> Seq<EffectModel>
    decreases ds.len(),
{
    if ds.len() == 0 {
        Seq::empty()
    } else {
        let d = ds.last();
        deliver_all(ds.drop_last(), source, data).push(
            send_to(d.client_addr, frame_of(d.channel, source, data)),
        ).push(EffectModel::Touch { id: d.id.0 })
    }
}

/// Deliveries of a peer's packet to those of `ids` that permit the peer. If
/// `skip_same_ip` is set, clients at the peer's own IP are left out, so that
/// traffic is not echoed back to where it came from.
pub open spec fn peer_deliveries(
    t: TableModel,
    ids: Seq<u64>,
    peer: SocketAddr,
    skip_same_ip: bool,
    use_channels: bool,
) -> Seq<Delivery>
    decreases ids.len(),
{
    if ids.len() == 0 {
        Seq::empty()
    } else {
        let before = peer_deliveries(t, ids.drop_last(), peer, skip_same_ip, use_channels);
        match t.allocations.get(ids.last()) {
            Some(a) if a.is_permitted(peer.ip) && !(skip_same_ip && a.client_addr.ip == peer.ip) =>
                before.push(
                Delivery {
                    id: AllocationId(ids.last()),
                    client_addr: a.client_addr,
                    channel: if use_channels {
                        a.channel_for_peer(peer)
                    } else {
                        None
                    },
                },
            ),
            _ => before,
        }
    }
}

/// Handling a packet from a peer. Where only one allocation can be meant, the
/// peer's address is registered for it.
pub open spec fn on_peer_packet(
    t: TableModel,
    peer: SocketAddr,
    data: Seq<u8>,
    echo_if_unique: bool,
    use_channels: bool,
    now_ms: u64,
) -> Step {
    let ids = t.candidates(peer);
    if ids.len() == 0 {
        ignore(t)
    } else {
        let unique = ids.len() == 1;
        let t1 = if unique {
            t.register_peer(ids[0], peer, now_ms)
        } else {
            t
        };
        let skip = !(echo_if_unique && unique);
        Step {
            table: t1,
            effects: deliver_all(
                peer_deliveries(t1, ids, peer, skip, use_channels),
                peer,
                data,
            ),
        }
    }
}

/// Deliveries to the clients among `ids`, without the sender, as coming from
/// the relay.
pub open spec fn listener_deliveries(
    t: TableModel,
    ids: Seq<u64>,
    src: SocketAddr,
    relay: SocketAddr,
) -> Seq<Delivery>
    decreases ids.len(),
{
    if ids.len() == 0 {
        Seq::empty()
    } else {
        let before = listener_deliveries(t, ids.drop_last(), src, relay);
        match t.allocations.get(ids.last()) {
            Some(a) if a.client_addr != src => before.push(
                Delivery {
                    id: AllocationId(ids.last()),
                    client_addr: a.client_addr,
                    channel: a.channel_for_peer(relay),
                },
            ),
            _ => before,
        }
    }
}

/// The client that a check for the ufrag `remote` is delivered to.
pub open spec fn check_listener(t: TableModel, remote: Seq<char>) -> Seq<u64> {
    match t.by_ice_ufrag.get(remote) {
        Some(id) => seq![id],
        None => Seq::empty(),
    }
}

/// Who a STUN message in a channel to the relay is delivered to: the client
/// that it names, and otherwise the ICE peers of the sender.
pub open spec fn stun_deliveries(
    t: TableModel,
    id: u64,
    src: SocketAddr,
    relay: SocketAddr,
    data: Seq<u8>,
) -> Seq<Delivery> {
    let named = match ufrags_of(data) {
        Some((remote, _)) => listener_deliveries(t, check_listener(t, remote), src, relay),
        None => Seq::empty(),
    };
    if named.len() > 0 {
        named
    } else {
        listener_deliveries(t, peers_of(t, id), src, relay)
    }
}

/// Handling ChannelData from a client. The channel must be bound and its peer
/// permitted. To the relay's own address: the data goes to the ICE peer, or is
/// dropped. To another client: it is framed for it. To any other peer: it is
/// sent as it is, unless the peer is forbidden.
pub open spec fn on_channel_data(
    c: Config,
    channel: u16,
    data: Seq<u8>,
    src: SocketAddr,
    t: TableModel,
) -> Step {
    match t.client(src) {
        Some(a) => match a.peer_for_channel(channel) {
            Some(peer) if a.is_permitted(peer.ip) => {
                let relay = c.spec_relay_addr();
                let received = EffectModel::TouchReceived { id: a.id };
                if peer == relay && looks_like_stun(data) {
                    let t1 = match ufrags_of(data) {
                        Some((remote, local)) => t.register_ice(a.id, local, remote),
                        None => t,
                    };
                    Step {
                        table: t1,
                        effects: deliver_all(
                            stun_deliveries(t1, a.id, src, relay, data),
                            relay,
                            data,
                        ).push(received),
                    }
                } else if peer == relay {
                    let ds = listener_deliveries(t, peers_of(t, a.id), src, relay);
                    Step {
                        table: t,
                        effects: deliver_all(ds, relay, data).push(
                            EffectModel::TouchRelay { id: a.id, relayed: ds.len() > 0 },
                        ).push(received),
                    }
                } else {
                    match t.client(peer) {
                        Some(b) => Step {
                            table: t,
                            effects: deliver_all(
                                seq![
                                    Delivery {
                                        id: AllocationId(b.id),
                                        client_addr: b.client_addr,
                                        channel: b.channel_for_peer(src),
                                    },
                                ],
                                src,
                                data,
                            ).push(received),
                        },
                        None => if is_forbidden_addr(c, peer) {
                            ignore(t)
                        } else {
                            Step {
                                table: t,
                                effects: seq![send_to(peer, DatagramModel::Raw(data)), received],
                            }
                        },
                    }
                }
            },
            _ => ignore(t),
        },
        None => ignore(t),
    }
}

/// Deliveries to the clients among `ids` that permit the relay, without the
/// sender and in no channel.
pub open spec fn indication_deliveries(c: Config, t: TableModel, ids: Seq<u64>, src: SocketAddr) -> Seq<
    Delivery,
>
    decreases ids.len(),
{
    if ids.len() == 0 {
        Seq::empty()
    } else {
        let before = indication_deliveries(c, t, ids.drop_last(), src);
        match t.allocations.get(ids.last()) {
            Some(a) if a.client_addr != src && a.is_permitted(c.external_ip) => before.push(
                Delivery {
                    id: AllocationId(ids.last()),
                    client_addr: a.client_addr,
                    channel: None,
                },
            ),
            _ => before,
        }
    }
}

/// Handling data that a client sends to the relay without framing: it goes to
/// the ICE peer in an indication, or is dropped. The client must permit the relay.
pub open spec fn on_client_data(c: Config, data: Seq<u8>, src: SocketAddr, t: TableModel) -> Step {
    match t.client(src) {
        Some(a) if a.is_permitted(c.external_ip) => {
            let ds = indication_deliveries(c, t, peers_of(t, a.id), src);
            Step {
                table: t,
                effects: deliver_all(ds, c.spec_relay_addr(), data).push(
                    EffectModel::TouchRelay { id: a.id, relayed: ds.len() > 0 },
                ),
            }
        },
        _ => ignore(t),
    }
}

} // verus!
