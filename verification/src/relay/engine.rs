//! Media relay engine: forwards packets between peers and clients.

use std::sync::Arc;
use vstd::prelude::*;
use vstd::slice::*;

use super::effect::{
    effects_of, no_effects, push_effect, send_effect, send_to, Datagram, DatagramModel, Effect,
    EffectModel,
};
use super::rules::{
    check_listener, deliver_all, first_pair, indication_deliveries, listener_deliveries,
    looks_like_dtls, looks_like_rtp, looks_like_stun, on_channel_data, on_client_data,
    on_peer_packet, peer_deliveries, stun_deliveries, ufrags_of, Delivery,
};
use crate::bytes::read_u16;
use crate::coarse_time::CoarseClock;
use crate::config::Config;
use crate::demux::stun::{attributes, cookie, Attribute, ATTR_USERNAME};
use crate::lookup::maps::allocation_of;
use crate::lookup::table::nums;
use crate::lookup::{AllocationId, AllocationTable};
use crate::net::SocketAddr;
use crate::text::{decode_string, split_pair};
use crate::turn::handler::{frame, ice_peers_of, is_forbidden_peer_addr};
use crate::turn::rules::Step;

verus! {

/// Checks whether data is DTLS (content types 0x14-0x19, version 0xFExx).
pub fn is_dtls(data: &[u8]) -> (r: bool)
    ensures
        r == looks_like_dtls(data@),
{
    if data.len() < 3 {
        return false;
    }
    0x14 <= data[0] && data[0] <= 0x19 && data[1] == 0xFE
}

/// Checks whether data looks like RTP (and not RTCP or DTLS).
pub fn is_rtp(data: &[u8]) -> (r: bool)
    ensures
        r == looks_like_rtp(data@),
{
    if data.len() < 2 {
        return false;
    }
    if is_dtls(data) {
        return false;
    }
    let pt: u8 = data[1] % 128;
    !(64 <= pt && pt < 96)
}

/// Checks whether data is a STUN message (first byte 0-3, magic cookie).
pub fn is_stun(data: &[u8]) -> (r: bool)
    ensures
        r == looks_like_stun(data@),
{
    if data.len() < 20 {
        return false;
    }
    if data[0] > 3 {
        return false;
    }
    proof {
        let s = data@.subrange(4, 8);
        assert(s[0] == data@[4] && s[1] == data@[5] && s[2] == data@[6] && s[3] == data@[7]);
        assert(s =~= cookie() <==> s[0] == 0x21 && s[1] == 0x12 && s[2] == 0xa4 && s[3] == 0x42);
    }
    data[4] == 0x21 && data[5] == 0x12 && data[6] == 0xa4 && data[7] == 0x42
}

/// The ufrags in the USERNAME of a STUN message: that of the client it is for,
/// and that of the sender.
pub fn extract_stun_ufrags(data: &[u8]) -> (r: Option<(String, String)>)
    ensures
        match r {
            Some(p) => ufrags_of(data@) == Some((p.0@, p.1@)),
            None => ufrags_of(data@) is None,
        },
{
    let n: usize = data.len();
    if n < 20 {
        return None;
    }
    let end: usize = 20 + read_u16(data, 2) as usize;
    if n < end {
        return None;
    }
    let ghost all = attributes(data@, 20, end as int);
    let mut offset: usize = 20;
    while offset + 4 <= end
        invariant_except_break
            first_pair(all) == first_pair(attributes(data@, offset as int, end as int)),
        invariant
            n == data@.len(),
            20 <= end <= n,
            end <= 65555,
            20 <= offset <= 200000,
            all == attributes(data@, 20, end as int),
            ufrags_of(data@) == first_pair(all),
        ensures
            first_pair(all) is None,
        decreases 300000 - offset,
    {
        let attr_type: u16 = read_u16(data, offset);
        let attr_len: usize = read_u16(data, offset + 2) as usize;
        if attr_len > n - (offset + 4) {
            break;
        }
        let ghost a = Attribute {
            kind: attr_type,
            offset: offset as int,
            value: data@.subrange(offset + 4, offset + 4 + attr_len),
        };
        let next: usize = offset + 4 + attr_len + (4 - attr_len % 4) % 4;
        proof {
            let here = attributes(data@, offset as int, end as int);
            let rest = attributes(data@, next as int, end as int);
            assert(here =~= seq![a] + rest);
            assert(here.drop_first() =~= rest);
            assert(here[0] == a);
        }
        if attr_type == ATTR_USERNAME {
            let value = slice_subrange(data, offset + 4, offset + 4 + attr_len);
            if let Some(username) = decode_string(slice_to_vec(value)) {
                if let Some(pair) = split_pair(username.as_str()) {
                    return Some(pair);
                }
            }
        }
        offset = next;
    }
    None
}

/// Media relay engine.
pub struct RelayEngine {
    config: Arc<Config>,
}

impl RelayEngine {
    /// The configuration of the engine.
    pub closed spec fn config(&self) -> Config {
        *self.config
    }

    /// Creates a relay engine.
    pub fn new(config: Arc<Config>) -> (e: Self)
        ensures
            e.config() == *config,
    {
        Self { config }
    }

    /// Finds the deliveries of traffic from a peer.
    ///
    /// Skips allocations without permission for the peer and, if
    /// `skip_same_ip` is set, those whose client shares the peer's IP. DTLS
    /// must always go in an indication, so it does not use channels.
    fn snapshot_peer_deliveries(
        &self,
        allocations: &AllocationTable,
        candidates: &Vec<AllocationId>,
        peer_addr: SocketAddr,
        skip_same_ip: bool,
        use_channels: bool,
    ) -> (ds: Vec<Delivery>)
        requires
            allocations.wf(),
        ensures
            ds@ == peer_deliveries(
                allocations@,
                nums(candidates@),
                peer_addr,
                skip_same_ip,
                use_channels,
            ),
    {
        let n: usize = candidates.len();
        let mut ds: Vec<Delivery> = Vec::new();
        let mut i: usize = 0;
        assert(nums(candidates@).subrange(0, 0) =~= Seq::<u64>::empty());
        while i < n
            invariant
                i <= n,
                n == candidates@.len(),
                allocations.wf(),
                ds@ == peer_deliveries(
                    allocations@,
                    nums(candidates@).subrange(0, i as int),
                    peer_addr,
                    skip_same_ip,
                    use_channels,
                ),
            decreases n - i,
        {
            let id = candidates[i];
            proof {
                let next = nums(candidates@).subrange(0, i + 1);
                assert(next.drop_last() =~= nums(candidates@).subrange(0, i as int));
                assert(next.last() == id.0);
            }
            if let Some(r) = allocations.get(id) {
                let a = allocation_of(&r);
                let client_addr = a.client_addr();
                if a.is_permitted(peer_addr.ip) && !(skip_same_ip && client_addr.ip
                    == peer_addr.ip) {
                    let channel: Option<u16> = if use_channels {
                        a.channel_for_peer(peer_addr)
                    } else {
                        None
                    };
                    ds.push(Delivery { id, client_addr, channel });
                }
            }
            i = i + 1;
        }
        assert(nums(candidates@).subrange(0, n as int) =~= nums(candidates@));
        ds
    }

    /// The effects of deliveries: each is sent, and recorded with its receiver.
    fn deliver(ds: &Vec<Delivery>, source: SocketAddr, data: &[u8]) -> (r: Vec<Effect>)
        ensures
            effects_of(r@) == deliver_all(ds@, source, data@),
    {
        let n: usize = ds.len();
        let mut effects = no_effects();
        let mut i: usize = 0;
        assert(ds@.subrange(0, 0) =~= Seq::<Delivery>::empty());
        while i < n
            invariant
                i <= n,
                n == ds@.len(),
                effects_of(effects@) == deliver_all(ds@.subrange(0, i as int), source, data@),
            decreases n - i,
        {
            let d = ds[i];
            push_effect(
                &mut effects,
                send_effect(d.client_addr, frame(d.channel, source, slice_to_vec(data))),
            );
            push_effect(&mut effects, Effect::Touch { id: d.id });
            proof {
                let next = ds@.subrange(0, i + 1);
                assert(next.drop_last() =~= ds@.subrange(0, i as int));
            }
            i = i + 1;
        }
        assert(ds@.subrange(0, n as int) =~= ds@);
        effects
    }

    /// Relays a packet from a peer.
    fn relay_from_peer(
        &self,
        data: &[u8],
        peer_addr: SocketAddr,
        echo_if_unique: bool,
        use_channels: bool,
        allocations: &mut AllocationTable,
        clock: &CoarseClock,
    ) -> (r: Vec<Effect>)
        requires
            old(allocations).wf(),
        ensures
            final(allocations).wf(),
            (Step { table: final(allocations)@, effects: effects_of(r@) }) == on_peer_packet(
                old(allocations)@,
                peer_addr,
                data@,
                echo_if_unique,
                use_channels,
                clock.ms(),
            ),
    {
        let (candidates, is_unique) = allocations.lookup_by_peer_addr(peer_addr);
        if candidates.len() == 0 {
            return no_effects();
        }
        proof {
            allocations.candidate_facts(peer_addr);
            assert(nums(candidates@)[0] == candidates@[0].0);
        }
        if is_unique {
            allocations.register_peer_tuple(candidates[0], peer_addr, clock);
        }
        let ds = self.snapshot_peer_deliveries(
            allocations,
            &candidates,
            peer_addr,
            !(echo_if_unique && is_unique),
            use_channels,
        );
        Self::deliver(&ds, peer_addr, data)
    }

    /// Handles data from a peer: delivered in a channel or an indication.
    pub fn handle_peer_data(
        &self,
        data: &[u8],
        peer_addr: SocketAddr,
        allocations: &mut AllocationTable,
        clock: &CoarseClock,
    ) -> (r: Vec<Effect>)
        requires
            old(allocations).wf(),
        ensures
            final(allocations).wf(),
            (Step { table: final(allocations)@, effects: effects_of(r@) }) == on_peer_packet(
                old(allocations)@,
                peer_addr,
                data@,
                false,
                true,
                clock.ms(),
            ),
    {
        self.relay_from_peer(data, peer_addr, false, true, allocations, clock)
    }

    /// Handles an RTP packet from a peer. Where only one allocation can be
    /// meant, it is delivered even to a client at the peer's own IP.
    pub fn handle_rtp(
        &self,
        _ssrc: u32,
        data: &[u8],
        peer_addr: SocketAddr,
        allocations: &mut AllocationTable,
        clock: &CoarseClock,
    ) -> (r: Vec<Effect>)
        requires
            old(allocations).wf(),
        ensures
            final(allocations).wf(),
            (Step { table: final(allocations)@, effects: effects_of(r@) }) == on_peer_packet(
                old(allocations)@,
                peer_addr,
                data@,
                true,
                true,
                clock.ms(),
            ),
    {
        self.relay_from_peer(data, peer_addr, true, true, allocations, clock)
    }

    /// Handles an RTCP packet from a peer.
    pub fn handle_rtcp(
        &self,
        data: &[u8],
        peer_addr: SocketAddr,
        allocations: &mut AllocationTable,
        clock: &CoarseClock,
    ) -> (r: Vec<Effect>)
        requires
            old(allocations).wf(),
        ensures
            final(allocations).wf(),
            (Step { table: final(allocations)@, effects: effects_of(r@) }) == on_peer_packet(
                old(allocations)@,
                peer_addr,
                data@,
                false,
                true,
                clock.ms(),
            ),
    {
        self.relay_from_peer(data, peer_addr, false, true, allocations, clock)
    }

    /// Handles a DTLS packet from a peer: always delivered in an indication.
    pub fn handle_dtls(
        &self,
        data: &[u8],
        peer_addr: SocketAddr,
        allocations: &mut AllocationTable,
        clock: &CoarseClock,
    ) -> (r: Vec<Effect>)
        requires
            old(allocations).wf(),
        ensures
            final(allocations).wf(),
            (Step { table: final(allocations)@, effects: effects_of(r@) }) == on_peer_packet(
                old(allocations)@,
                peer_addr,
                data@,
                false,
                false,
                clock.ms(),
            ),
    {
        self.relay_from_peer(data, peer_addr, false, false, allocations, clock)
    }

    /// Finds the deliveries to specific listeners, without the sender. A client
    /// at the same IP but another port counts as another client.
    fn snapshot_listeners(
        allocations: &AllocationTable,
        src_addr: SocketAddr,
        listeners: &Vec<AllocationId>,
        relay_addr: SocketAddr,
    ) -> (ds: Vec<Delivery>)
        requires
            allocations.wf(),
        ensures
            ds@ == listener_deliveries(allocations@, nums(listeners@), src_addr, relay_addr),
    {
        let n: usize = listeners.len();
        let mut ds: Vec<Delivery> = Vec::new();
        let mut i: usize = 0;
        assert(nums(listeners@).subrange(0, 0) =~= Seq::<u64>::empty());
        while i < n
            invariant
                i <= n,
                n == listeners@.len(),
                allocations.wf(),
                ds@ == listener_deliveries(
                    allocations@,
                    nums(listeners@).subrange(0, i as int),
                    src_addr,
                    relay_addr,
                ),
            decreases n - i,
        {
            let id = listeners[i];
            proof {
                let next = nums(listeners@).subrange(0, i + 1);
                assert(next.drop_last() =~= nums(listeners@).subrange(0, i as int));
                assert(next.last() == id.0);
            }
            if let Some(r) = allocations.get(id) {
                let a = allocation_of(&r);
                if a.client_addr() != src_addr {
                    ds.push(
                        Delivery {
                            id,
                            client_addr: a.client_addr(),
                            channel: a.channel_for_peer(relay_addr),
                        },
                    );
                }
            }
            i = i + 1;
        }
        assert(nums(listeners@).subrange(0, n as int) =~= nums(listeners@));
        ds
    }

    /// Finds who a STUN message in a channel to the relay is delivered to.
    fn snapshot_stun(
        allocations: &AllocationTable,
        id: AllocationId,
        src_addr: SocketAddr,
        relay_addr: SocketAddr,
        data: &[u8],
        pair: &Option<(String, String)>,
    ) -> (ds: Vec<Delivery>)
        requires
            allocations.wf(),
            match *pair {
                Some(p) => ufrags_of(data@) == Some((p.0@, p.1@)),
                None => ufrags_of(data@) is None,
            },
        ensures
            ds@ == stun_deliveries(allocations@, id.0, src_addr, relay_addr, data@),
    {
        if let Some((remote, _)) = pair {
            let mut named: Vec<AllocationId> = Vec::new();
            if let Some(target) = allocations.lookup_by_ice_ufrag(remote.as_str()) {
                named.push(target);
            }
            assert(nums(named@) =~= check_listener(allocations@, remote@));
            let ds = Self::snapshot_listeners(allocations, src_addr, &named, relay_addr);
            if ds.len() > 0 {
                return ds;
            }
        }
        let peers = ice_peers_of(allocations, id);
        Self::snapshot_listeners(allocations, src_addr, &peers, relay_addr)
    }

    /// Handles TURN ChannelData from a client.
    pub fn handle_channel_data(
        &self,
        channel: u16,
        data: &[u8],
        src_addr: SocketAddr,
        allocations: &mut AllocationTable,
    ) -> (r: Vec<Effect>)
        requires
            old(allocations).wf(),
        ensures
            final(allocations).wf(),
            (Step { table: final(allocations)@, effects: effects_of(r@) }) == on_channel_data(
                self.config(),
                channel,
                data@,
                src_addr,
                old(allocations)@,
            ),
    {
        let (id, peer_addr) = match allocations.get_by_client(src_addr) {
            Some(r) => {
                let a = allocation_of(&r);
                match a.peer_for_channel(channel) {
                    Some(peer) => {
                        if !a.is_permitted(peer.ip) {
                            return no_effects();
                        }
                        (a.id(), peer)
                    },
                    None => {
                        return no_effects();
                    },
                }
            },
            None => {
                return no_effects();
            },
        };
        let relay_addr = self.config.relay_addr();
        if peer_addr == relay_addr {
            if is_stun(data) {
                let pair = extract_stun_ufrags(data);
                if let Some((remote, local)) = &pair {
                    allocations.register_ice_ufrags(id, local.as_str(), remote.as_str());
                }
                let ds = Self::snapshot_stun(allocations, id, src_addr, relay_addr, data, &pair);
                let mut effects = Self::deliver(&ds, relay_addr, data);
                push_effect(&mut effects, Effect::TouchReceived { id });
                return effects;
            }
            let peers = ice_peers_of(allocations, id);
            let ds = Self::snapshot_listeners(allocations, src_addr, &peers, relay_addr);
            let mut effects = Self::deliver(&ds, relay_addr, data);
            push_effect(&mut effects, Effect::TouchRelay { id, relayed: ds.len() > 0 });
            push_effect(&mut effects, Effect::TouchReceived { id });
            return effects;
        }
        match allocations.get_by_client(peer_addr) {
            Some(r) => {
                let b = allocation_of(&r);
                let mut ds: Vec<Delivery> = Vec::new();
                ds.push(
                    Delivery {
                        id: b.id(),
                        client_addr: b.client_addr(),
                        channel: b.channel_for_peer(src_addr),
                    },
                );
                assert(ds@ =~= seq![
                    Delivery {
                        id: AllocationId(b@.id),
                        client_addr: b@.client_addr,
                        channel: b@.channel_for_peer(src_addr),
                    },
                ]);
                let mut effects = Self::deliver(&ds, src_addr, data);
                push_effect(&mut effects, Effect::TouchReceived { id });
                effects
            },
            None => {
                if is_forbidden_peer_addr(&self.config, peer_addr) {
                    return no_effects();
                }
                let mut effects = no_effects();
                push_effect(
                    &mut effects,
                    send_effect(peer_addr, Datagram::Raw(slice_to_vec(data))),
                );
                push_effect(&mut effects, Effect::TouchReceived { id });
                assert(effects_of(effects@) =~= seq![
                    send_to(peer_addr, DatagramModel::Raw(data@)),
                    EffectModel::TouchReceived { id: id.0 },
                ]);
                effects
            },
        }
    }

    /// Relays data from one client to another, in an indication.
    ///
    /// All clients share the relay address, so the ICE ufrags decide who the
    /// data is for. Without a match it is dropped.
    pub fn relay_client_data(&self, data: &[u8], src_addr: SocketAddr, allocations: &AllocationTable) -> (r:
        Vec<Effect>)
        requires
            allocations.wf(),
        ensures
            (Step { table: allocations@, effects: effects_of(r@) }) == on_client_data(
                self.config(),
                data@,
                src_addr,
                allocations@,
            ),
    {
        let id = match allocations.get_by_client(src_addr) {
            Some(r) => {
                let a = allocation_of(&r);
                if !a.is_permitted(self.config.external_ip) {
                    return no_effects();
                }
                a.id()
            },
            None => {
                return no_effects();
            },
        };
        let ids = ice_peers_of(allocations, id);
        let n: usize = ids.len();
        let ghost c = self.config();
        let mut ds: Vec<Delivery> = Vec::new();
        let mut i: usize = 0;
        assert(nums(ids@).subrange(0, 0) =~= Seq::<u64>::empty());
        while i < n
            invariant
                i <= n,
                n == ids@.len(),
                allocations.wf(),
                c == self.config(),
                ds@ == indication_deliveries(
                    c,
                    allocations@,
                    nums(ids@).subrange(0, i as int),
                    src_addr,
                ),
            decreases n - i,
        {
            let peer_id = ids[i];
            proof {
                let next = nums(ids@).subrange(0, i + 1);
                assert(next.drop_last() =~= nums(ids@).subrange(0, i as int));
                assert(next.last() == peer_id.0);
            }
            if let Some(r) = allocations.get(peer_id) {
                let a = allocation_of(&r);
                if a.client_addr() != src_addr && a.is_permitted(self.config.external_ip) {
                    ds.push(
                        Delivery { id: peer_id, client_addr: a.client_addr(), channel: None },
                    );
                }
            }
            i = i + 1;
        }
        assert(nums(ids@).subrange(0, n as int) =~= nums(ids@));
        let mut effects = Self::deliver(&ds, self.config.relay_addr(), data);
        push_effect(&mut effects, Effect::TouchRelay { id, relayed: ds.len() > 0 });
        effects
    }
}

} // verus!
