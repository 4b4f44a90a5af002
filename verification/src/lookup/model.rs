//! What allocations and the table of allocations are, as mathematical values,
//! and what each operation does to them.

use vstd::prelude::*;

use crate::coarse_time::timed_out;
use crate::net::{AddrKey, IpAddr, IpKey, SocketAddr};
use crate::text::ascii_chars;

verus! {

/// An allocation.
#[verifier::ext_equal]
pub struct AllocModel {
    pub id: u64,
    pub client_addr: SocketAddr,
    pub local_ufrag: Seq<char>,
    pub remote_ufrag: Option<Seq<char>>,
    pub permissions: Set<IpAddr>,
    pub channels: Map<u16, SocketAddr>,
    pub channels_reverse: Map<AddrKey, u64>,
    pub known_peers: Map<AddrKey, u64>,
    pub expires_at_ms: u64,
    pub lifetime_secs: u64,
    pub last_activity_ms: u64,
    pub last_received_ms: u64,
    pub last_successful_relay_ms: u64,
    pub has_relay_attempt: bool,
    pub username: Seq<char>,
    pub allocate_txn_id: Seq<u8>,
    pub paired_ufrag: Option<Seq<char>>,
    pub ice_ufrag: Option<Seq<char>>,
    pub ice_remote_ufrag: Option<Seq<char>>,
}

/// The code of a ufrag character: one of 62 letters and digits.
pub open spec fn ufrag_code(b: u8) -> u8 {
    let k = b % 62;
    if k < 26 {
        (65 + k) as u8
    } else if k < 52 {
        (97 + k - 26) as u8
    } else {
        (48 + k - 52) as u8
    }
}

/// The ufrag made from random bytes: a letter or digit for each.
pub open spec fn ufrag_of(seed: Seq<u8>) -> Seq<char> {
    ascii_chars(Seq::new(seed.len(), |i: int| ufrag_code(seed[i])))
}

/// The ICE characters of a generated ufrag: letters and digits.
pub open spec fn is_alphanumeric(c: char) -> bool {
    'A' <= c <= 'Z' || 'a' <= c <= 'z' || '0' <= c <= '9'
}

/// A generated ufrag has a letter or a digit for each byte it is made from.
pub proof fn ufrag_is_alphanumeric(seed: Seq<u8>)
    ensures
        ufrag_of(seed).len() == seed.len(),
        forall|i: int| 0 <= i < seed.len() ==> is_alphanumeric(#[trigger] ufrag_of(seed)[i]),
{
}

/// When a lifetime that starts at `now_ms` ends, in the 64 bits of the clock.
pub open spec fn expiry_of(now_ms: u64, lifetime_secs: u32) -> u64 {
    (now_ms + lifetime_secs * 1000) as u64
}

/// Whole seconds from `now_ms` to the end of a lifetime.
pub open spec fn remaining_secs(expires_at_ms: u64, now_ms: u64) -> u32 {
    if expires_at_ms > now_ms {
        ((expires_at_ms - now_ms) / 1000) as u32
    } else {
        0
    }
}

impl AllocModel {
    /// A new allocation.
    pub open spec fn fresh(
        id: u64,
        client_addr: SocketAddr,
        username: Seq<char>,
        lifetime_secs: u32,
        allocate_txn_id: Seq<u8>,
        seed: Seq<u8>,
        now_ms: u64,
    ) -> AllocModel {
        AllocModel {
            id,
            client_addr,
            local_ufrag: ufrag_of(seed),
            remote_ufrag: None,
            permissions: Set::empty(),
            channels: Map::empty(),
            channels_reverse: Map::empty(),
            known_peers: Map::empty(),
            expires_at_ms: expiry_of(now_ms, lifetime_secs),
            lifetime_secs: lifetime_secs as u64,
            last_activity_ms: now_ms,
            last_received_ms: now_ms,
            last_successful_relay_ms: 0,
            has_relay_attempt: false,
            username,
            allocate_txn_id,
            paired_ufrag: None,
            ice_ufrag: None,
            ice_remote_ufrag: None,
        }
    }

    /// Channels and peers correspond one to one.
    pub open spec fn wf(self) -> bool {
        &&& forall|c: u16| #[trigger]
            self.channels.contains_key(c) ==> self.channels_reverse.get(
                self.channels[c].spec_key(),
            ) == Some(c as u64)
        &&& forall|k: AddrKey| #[trigger]
            self.channels_reverse.contains_key(k) ==> self.channels_reverse[k] <= u16::MAX
                && self.channels.contains_key(self.channels_reverse[k] as u16)
                && self.channels[self.channels_reverse[k] as u16].spec_key() == k
    }

    pub open spec fn is_permitted(self, ip: IpAddr) -> bool {
        self.permissions.contains(ip)
    }

    /// The channel bound to a peer.
    pub open spec fn channel_for_peer(self, addr: SocketAddr) -> Option<u16> {
        match self.channels_reverse.get(addr.spec_key()) {
            Some(c) => Some(c as u16),
            None => None,
        }
    }

    /// The peer bound to a channel.
    pub open spec fn peer_for_channel(self, channel: u16) -> Option<SocketAddr> {
        self.channels.get(channel)
    }

    pub open spec fn add_permission(self, ip: IpAddr) -> AllocModel {
        AllocModel { permissions: self.permissions.insert(ip), ..self }
    }

    /// Binds a channel to a peer. Whatever either was bound to before is unbound.
    pub open spec fn bind_channel(self, channel: u16, addr: SocketAddr) -> AllocModel {
        let channels = match self.channel_for_peer(addr) {
            Some(c) => self.channels.remove(c),
            None => self.channels,
        };
        let reverse = match self.peer_for_channel(channel) {
            Some(p) => self.channels_reverse.remove(p.spec_key()),
            None => self.channels_reverse,
        };
        AllocModel {
            channels: channels.insert(channel, addr),
            channels_reverse: reverse.insert(addr.spec_key(), channel as u64),
            ..self
        }
    }

    pub open spec fn touch(self, now_ms: u64) -> AllocModel {
        AllocModel { last_activity_ms: now_ms, ..self }
    }

    pub open spec fn touch_received(self, now_ms: u64) -> AllocModel {
        AllocModel { last_activity_ms: now_ms, last_received_ms: now_ms, ..self }
    }

    pub open spec fn touch_relay_success(self, now_ms: u64) -> AllocModel {
        AllocModel { last_successful_relay_ms: now_ms, has_relay_attempt: true, ..self }
    }

    /// The first attempt to relay starts the timer; later ones leave it alone.
    pub open spec fn touch_relay_attempt(self, now_ms: u64) -> AllocModel {
        if self.has_relay_attempt {
            self
        } else {
            self.touch_relay_success(now_ms)
        }
    }

    pub open spec fn touch_relay(self, relayed: bool, now_ms: u64) -> AllocModel {
        if relayed {
            self.touch_relay_success(now_ms)
        } else {
            self.touch_relay_attempt(now_ms)
        }
    }

    /// No traffic from the client for `timeout_secs`.
    pub open spec fn is_inactive(self, timeout_secs: u64, now_ms: u64) -> bool {
        timed_out(now_ms, self.last_received_ms, timeout_secs)
    }

    /// The client has tried to relay, but reached nobody for `timeout_secs`.
    pub open spec fn is_orphaned_sender(self, timeout_secs: u64, now_ms: u64) -> bool {
        self.has_relay_attempt && timed_out(now_ms, self.last_successful_relay_ms, timeout_secs)
    }

    pub open spec fn is_expired(self, now_ms: u64) -> bool {
        now_ms > self.expires_at_ms
    }

    pub open spec fn refresh(self, lifetime_secs: u32, now_ms: u64) -> AllocModel {
        AllocModel {
            expires_at_ms: expiry_of(now_ms, lifetime_secs),
            lifetime_secs: lifetime_secs as u64,
            ..self
        }
    }

    /// Whole seconds until the allocation expires.
    pub open spec fn remaining_lifetime(self, now_ms: u64) -> u32 {
        remaining_secs(self.expires_at_ms, now_ms)
    }

    /// Remembers a peer and the time it was seen.
    pub open spec fn know_peer(self, addr: SocketAddr, now_ms: u64) -> AllocModel {
        AllocModel { known_peers: self.known_peers.insert(addr.spec_key(), now_ms), ..self }
    }

    pub open spec fn with_ice(self, local: Seq<char>, remote: Seq<char>) -> AllocModel {
        AllocModel { ice_ufrag: Some(local), ice_remote_ufrag: Some(remote), ..self }
    }
}

/// Binding a channel keeps channels and peers in correspondence, and leaves
/// the channel bound to the peer and the peer to the channel.
pub proof fn bind_channel_keeps_wf(a: AllocModel, channel: u16, addr: SocketAddr)
    requires
        a.wf(),
    ensures
        a.bind_channel(channel, addr).wf(),
        a.bind_channel(channel, addr).peer_for_channel(channel) == Some(addr),
        a.bind_channel(channel, addr).channel_for_peer(addr) == Some(channel),
{
    let b = a.bind_channel(channel, addr);
    assert forall|c: u16| #[trigger] b.channels.contains_key(c) implies b.channels_reverse.get(
        b.channels[c].spec_key(),
    ) == Some(c as u64) by {
        if c != channel {
            assert(a.channels.contains_key(c));
        }
    }
    assert forall|k: AddrKey| #[trigger] b.channels_reverse.contains_key(k) implies
        b.channels_reverse[k] <= u16::MAX && b.channels.contains_key(b.channels_reverse[k] as u16)
            && b.channels[b.channels_reverse[k] as u16].spec_key() == k by {
        if k != addr.spec_key() {
            assert(a.channels_reverse.contains_key(k));
        }
    }
}

/// Binding a channel anew frees what it and the peer were bound to before,
/// and leaves every other binding alone.
pub proof fn bind_channel_frees_stale(a: AllocModel, channel: u16, addr: SocketAddr)
    requires
        a.wf(),
    ensures
        ({
            let b = a.bind_channel(channel, addr);
            &&& forall|p: SocketAddr|
                #![trigger a.channel_for_peer(p)]
                p != addr ==> b.channel_for_peer(p) == if a.channel_for_peer(p) == Some(channel) {
                    None
                } else {
                    a.channel_for_peer(p)
                }
            &&& forall|c: u16|
                #![trigger a.peer_for_channel(c)]
                c != channel ==> b.peer_for_channel(c) == if a.peer_for_channel(c) == Some(addr) {
                    None
                } else {
                    a.peer_for_channel(c)
                }
        }),
{
    broadcast use crate::net::addr_key_injective;

    let b = a.bind_channel(channel, addr);
    assert forall|p: SocketAddr| p != addr implies b.channel_for_peer(p) == if (
    #[trigger] a.channel_for_peer(p)) == Some(channel) {
        None
    } else {
        a.channel_for_peer(p)
    } by {
        assert(p.spec_key() != addr.spec_key());
        if let Some(q) = a.peer_for_channel(channel) {
            assert(a.channels.contains_key(channel));
            assert(q.spec_key() == p.spec_key() ==> q == p);
        }
        if a.channels_reverse.contains_key(p.spec_key()) {
            assert(a.channels.contains_key(a.channels_reverse[p.spec_key()] as u16));
        }
    }
    assert forall|c: u16| c != channel implies b.peer_for_channel(c) == if (
    #[trigger] a.peer_for_channel(c)) == Some(addr) {
        None
    } else {
        a.peer_for_channel(c)
    } by {
        if a.channels.contains_key(c) {
            assert(a.channels_reverse.get(a.channels[c].spec_key()) == Some(c as u64));
        }
        if a.channels_reverse.contains_key(addr.spec_key()) {
            let d = a.channels_reverse[addr.spec_key()] as u16;
            assert(a.channels[d].spec_key() == addr.spec_key());
            assert(a.channels[d] == addr);
        }
    }
}

/// Binding a pair that is bound already changes nothing.
pub proof fn bind_channel_idempotent(a: AllocModel, channel: u16, addr: SocketAddr)
    requires
        a.wf(),
        a.peer_for_channel(channel) == Some(addr),
    ensures
        a.bind_channel(channel, addr) == a,
{
    assert(a.channels.contains_key(channel));
    let b = a.bind_channel(channel, addr);
    assert(b.channels =~= a.channels);
    assert(b.channels_reverse =~= a.channels_reverse);
}

/// A refreshed allocation lives for the lifetime it was given and no longer.
pub proof fn refresh_sets_lifetime(a: AllocModel, lifetime_secs: u32, now_ms: u64, later_ms: u64)
    requires
        now_ms + lifetime_secs * 1000 <= u64::MAX,
    ensures
        a.refresh(lifetime_secs, now_ms).is_expired(later_ms) <==> later_ms > now_ms + lifetime_secs
            * 1000,
        a.refresh(lifetime_secs, now_ms).remaining_lifetime(now_ms) == lifetime_secs,
{
}

/// An allocation that never tried to relay is no orphan; one that just
/// relayed is none for any positive timeout.
pub proof fn orphan_timer(a: AllocModel, timeout_secs: u64, now_ms: u64)
    ensures
        !a.has_relay_attempt ==> !a.is_orphaned_sender(timeout_secs, now_ms),
        timeout_secs > 0 ==> !a.touch_relay_success(now_ms).is_orphaned_sender(
            timeout_secs,
            now_ms,
        ),
        a.touch_received(now_ms).is_orphaned_sender(timeout_secs, now_ms) == a.is_orphaned_sender(
            timeout_secs,
            now_ms,
        ),
{
}

/// The table of allocations with all its indices.
#[verifier::ext_equal]
pub struct TableModel {
    /// All allocations by their identifier
    pub allocations: Map<u64, AllocModel>,
    /// By the address of the client
    pub by_client: Map<AddrKey, u64>,
    /// By the ufrag that the server generated
    pub by_ufrag: Map<Seq<char>, u64>,
    /// By permitted peer IP: the allocations in the order they were permitted
    pub by_permission: Map<IpKey, Seq<u64>>,
    /// By the address of a peer that traffic came from
    pub by_peer_tuple: Map<AddrKey, u64>,
    /// By the client's ICE ufrag
    pub by_ice_ufrag: Map<Seq<char>, u64>,
    /// By the client's ICE ufrag and that of its peer
    pub by_ice_ufrag_pair: Map<(Seq<char>, Seq<char>), u64>,
    /// The identifier of the next allocation
    pub next_id: u64,
}

/// Whether an address in `ips` has the key `k`.
pub open spec fn has_ip_key(ips: Set<IpAddr>, k: IpKey) -> bool {
    exists|ip: IpAddr| #[trigger] ips.contains(ip) && ip.spec_key() == k
}

/// Being another identifier than `id`.
pub open spec fn other_than(id: u64) -> spec_fn(u64) -> bool {
    |i: u64| i != id
}

/// A list without the entries that are `id`.
pub open spec fn without(ids: Seq<u64>, id: u64) -> Seq<u64> {
    ids.filter(other_than(id))
}

/// The permission index without `id` in the lists of the given addresses.
pub open spec fn forget_permissions(
    index: Map<IpKey, Seq<u64>>,
    ips: Set<IpAddr>,
    id: u64,
) -> Map<IpKey, Seq<u64>> {
    Map::new(
        |k: IpKey| index.contains_key(k),
        |k: IpKey|
            if has_ip_key(ips, k) {
                without(index[k], id)
            } else {
                index[k]
            },
    )
}

/// Being expired at a time.
pub open spec fn expired_at(now_ms: u64) -> spec_fn(AllocModel) -> bool {
    |a: AllocModel| a.is_expired(now_ms)
}

/// Having been inactive for too long at a time.
pub open spec fn inactive_at(timeout_secs: u64, now_ms: u64) -> spec_fn(AllocModel) -> bool {
    |a: AllocModel| a.is_inactive(timeout_secs, now_ms)
}

/// Having had nobody to relay to for too long at a time.
pub open spec fn orphaned_at(timeout_secs: u64, now_ms: u64) -> spec_fn(AllocModel) -> bool {
    |a: AllocModel| a.is_orphaned_sender(timeout_secs, now_ms)
}

/// Those of `ips` that are not in `held`, each once, in the order in which they
/// first occur.
pub open spec fn new_ips(ips: Seq<IpAddr>, held: Set<IpAddr>) -> Seq<IpAddr>
    decreases ips.len(),
{
    if ips.len() == 0 {
        Seq::empty()
    } else {
        let before = new_ips(ips.drop_last(), held);
        if held.contains(ips.last()) || before.contains(ips.last()) {
            before
        } else {
            before.push(ips.last())
        }
    }
}

impl TableModel {
    pub open spec fn empty() -> TableModel {
        TableModel {
            allocations: Map::empty(),
            by_client: Map::empty(),
            by_ufrag: Map::empty(),
            by_permission: Map::empty(),
            by_peer_tuple: Map::empty(),
            by_ice_ufrag: Map::empty(),
            by_ice_ufrag_pair: Map::empty(),
            next_id: 1,
        }
    }

    /// The indices lead to the allocation `id` by everything it is known by.
    pub open spec fn indexed(self, id: u64) -> bool {
        let a = self.allocations[id];
        &&& a.id == id
        &&& id < self.next_id
        &&& a.wf()
        &&& self.by_client.get(a.client_addr.spec_key()) == Some(id)
        &&& match (a.ice_ufrag, a.ice_remote_ufrag) {
            (Some(local), Some(remote)) => self.by_ice_ufrag.get(local) == Some(id)
                && self.by_ice_ufrag_pair.get((local, remote)) == Some(id),
            (None, None) => true,
            _ => false,
        }
        &&& forall|ip: IpAddr| #[trigger]
            a.permissions.contains(ip) ==> self.by_permission.contains_key(ip.spec_key())
                && self.by_permission[ip.spec_key()].contains(id)
    }

    /// `ids` lists identifiers that were given out, each once.
    pub open spec fn issued(self, ids: Seq<u64>) -> bool {
        &&& ids.no_duplicates()
        &&& forall|i: int| 0 <= i < ids.len() ==> #[trigger] ids[i] < self.next_id
    }

    /// The indices lead to every allocation, and nowhere else.
    pub open spec fn wf(self) -> bool {
        &&& forall|id: u64| #[trigger] self.allocations.contains_key(id) ==> self.indexed(id)
        &&& forall|k: AddrKey| #[trigger]
            self.by_client.contains_key(k) ==> self.allocations.contains_key(self.by_client[k])
                && self.allocations[self.by_client[k]].client_addr.spec_key() == k
        &&& forall|u: Seq<char>| #[trigger]
            self.by_ufrag.contains_key(u) ==> self.allocations.contains_key(self.by_ufrag[u])
                && self.allocations[self.by_ufrag[u]].local_ufrag == u
        &&& forall|u: Seq<char>| #[trigger]
            self.by_ice_ufrag.contains_key(u) ==> self.allocations.contains_key(
                self.by_ice_ufrag[u],
            ) && self.allocations[self.by_ice_ufrag[u]].ice_ufrag == Some(u)
        &&& forall|p: (Seq<char>, Seq<char>)| #[trigger]
            self.by_ice_ufrag_pair.contains_key(p) ==> self.allocations.contains_key(
                self.by_ice_ufrag_pair[p],
            ) && self.allocations[self.by_ice_ufrag_pair[p]].ice_ufrag == Some(p.0)
                && self.allocations[self.by_ice_ufrag_pair[p]].ice_remote_ufrag == Some(p.1)
        &&& forall|k: AddrKey| #[trigger]
            self.by_peer_tuple.contains_key(k) ==> self.by_peer_tuple[k] < self.next_id && (
            self.allocations.contains_key(self.by_peer_tuple[k])
                ==> self.allocations[self.by_peer_tuple[k]].known_peers.contains_key(k))
        &&& forall|k: IpKey| #[trigger]
            self.by_permission.contains_key(k) ==> self.issued(self.by_permission[k])
        &&& forall|k: IpKey, id: u64|
            self.by_permission.contains_key(k) && #[trigger] self.by_permission[k].contains(id)
                && self.allocations.contains_key(id) ==> has_ip_key(
                self.allocations[id].permissions,
                k,
            )
    }

    /// The allocation of the client at an address.
    pub open spec fn client(self, addr: SocketAddr) -> Option<AllocModel> {
        match self.by_client.get(addr.spec_key()) {
            Some(id) => self.allocations.get(id),
            None => None,
        }
    }

    /// Whether a client with an allocation is at an address.
    pub open spec fn is_client(self, addr: SocketAddr) -> bool {
        self.by_client.contains_key(addr.spec_key())
    }

    /// The allocation at a source address, be it a client's or a peer's.
    pub open spec fn source(self, addr: SocketAddr) -> Option<u64> {
        match self.by_client.get(addr.spec_key()) {
            Some(id) => Some(id),
            None => self.by_peer_tuple.get(addr.spec_key()),
        }
    }

    /// The allocations that permit a peer IP.
    pub open spec fn permitting(self, ip: IpAddr) -> Seq<u64> {
        match self.by_permission.get(ip.spec_key()) {
            Some(ids) => ids,
            None => Seq::empty(),
        }
    }

    /// The allocations that traffic from a peer may be meant for: the one the
    /// peer's address is registered for, or else all that permit its IP.
    pub open spec fn candidates(self, addr: SocketAddr) -> Seq<u64> {
        match self.by_peer_tuple.get(addr.spec_key()) {
            Some(id) => seq![id],
            None => self.permitting(addr.ip),
        }
    }

    /// The allocations whose ICE ufrags mirror the given pair.
    pub open spec fn ice_peers(self, local: Seq<char>, remote: Seq<char>) -> Seq<u64> {
        match self.by_ice_ufrag_pair.get((remote, local)) {
            Some(id) => seq![id],
            None => Seq::empty(),
        }
    }

    /// Changes the allocation `id`, if it is there.
    pub open spec fn modify(self, id: u64, f: spec_fn(AllocModel) -> AllocModel) -> TableModel {
        if self.allocations.contains_key(id) {
            TableModel { allocations: self.allocations.insert(id, f(self.allocations[id])), ..self }
        } else {
            self
        }
    }

    /// Records traffic to the client.
    pub open spec fn touch(self, id: u64, now_ms: u64) -> TableModel {
        self.modify(id, |a: AllocModel| a.touch(now_ms))
    }

    /// Records traffic from the client.
    pub open spec fn touch_received(self, id: u64, now_ms: u64) -> TableModel {
        self.modify(id, |a: AllocModel| a.touch_received(now_ms))
    }

    /// Records whether an attempt to relay reached anyone.
    pub open spec fn touch_relay(self, id: u64, relayed: bool, now_ms: u64) -> TableModel {
        self.modify(id, |a: AllocModel| a.touch_relay(relayed, now_ms))
    }

    /// Gives an allocation a new lifetime.
    pub open spec fn refresh(self, id: u64, lifetime_secs: u32, now_ms: u64) -> TableModel {
        self.modify(id, |a: AllocModel| a.refresh(lifetime_secs, now_ms))
    }

    /// Binds a channel of an allocation.
    pub open spec fn bind_channel(self, id: u64, channel: u16, addr: SocketAddr) -> TableModel {
        self.modify(id, |a: AllocModel| a.bind_channel(channel, addr))
    }

    /// Makes the allocation with the ICE ufrag `receiver` want to receive from
    /// the one with the ICE ufrag `sender`.
    pub open spec fn set_pairing(self, sender: Seq<char>, receiver: Seq<char>) -> TableModel {
        match self.by_ice_ufrag.get(receiver) {
            Some(id) => self.modify(
                id,
                |a: AllocModel| AllocModel { paired_ufrag: Some(sender), ..a },
            ),
            None => self,
        }
    }

    pub open spec fn create(
        self,
        client_addr: SocketAddr,
        username: Seq<char>,
        lifetime_secs: u32,
        txn: Seq<u8>,
        seed: Seq<u8>,
        now_ms: u64,
    ) -> TableModel {
        let id = self.next_id;
        let a = AllocModel::fresh(id, client_addr, username, lifetime_secs, txn, seed, now_ms);
        TableModel {
            allocations: self.allocations.insert(id, a),
            by_client: self.by_client.insert(client_addr.spec_key(), id),
            by_ufrag: self.by_ufrag.insert(a.local_ufrag, id),
            next_id: (id + 1) as u64,
            ..self
        }
    }

    /// The table after asking for an allocation: one that is there is kept.
    pub open spec fn create_or_get(
        self,
        client_addr: SocketAddr,
        username: Seq<char>,
        lifetime_secs: u32,
        txn: Seq<u8>,
        seed: Seq<u8>,
        now_ms: u64,
    ) -> TableModel {
        if self.is_client(client_addr) {
            self
        } else {
            self.create(client_addr, username, lifetime_secs, txn, seed, now_ms)
        }
    }

    /// Whether `id` may claim the ICE ufrag `local`: the ufrag is free, and the
    /// allocation is there and has none yet.
    pub open spec fn can_register(self, id: u64, local: Seq<char>) -> bool {
        &&& self.allocations.contains_key(id)
        &&& !self.by_ice_ufrag.contains_key(local)
        &&& self.allocations[id].ice_ufrag is None
    }

    /// Registers a pair of ICE ufrags, first come first served.
    pub open spec fn register_ice(self, id: u64, local: Seq<char>, remote: Seq<char>) -> TableModel {
        if self.can_register(id, local) {
            TableModel {
                allocations: self.allocations.insert(
                    id,
                    self.allocations[id].with_ice(local, remote),
                ),
                by_ice_ufrag: self.by_ice_ufrag.insert(local, id),
                by_ice_ufrag_pair: self.by_ice_ufrag_pair.insert((local, remote), id),
                ..self
            }
        } else {
            self
        }
    }

    /// Adds `id` to the list of those who permit `ip`, unless it is on it.
    pub open spec fn index_permission(self, ip: IpAddr, id: u64) -> TableModel {
        let ids = self.permitting(ip);
        TableModel {
            by_permission: self.by_permission.insert(
                ip.spec_key(),
                if ids.contains(id) {
                    ids
                } else {
                    ids.push(id)
                },
            ),
            ..self
        }
    }

    pub open spec fn index_permissions(self, ips: Seq<IpAddr>, id: u64) -> TableModel
        decreases ips.len(),
    {
        if ips.len() == 0 {
            self
        } else {
            self.index_permissions(ips.drop_last(), id).index_permission(ips.last(), id)
        }
    }

    pub open spec fn add_permission(self, id: u64, ip: IpAddr) -> TableModel {
        self.modify(id, |a: AllocModel| a.add_permission(ip)).index_permission(ip, id)
    }

    /// Whether the allocation can hold all of `ips`, beside what it permits
    /// already, without having more than `cap` permissions.
    pub open spec fn fits_permissions(self, id: u64, ips: Seq<IpAddr>, cap: nat) -> bool {
        &&& self.allocations.contains_key(id)
        &&& self.allocations[id].permissions.union(ips.to_set()).len() <= cap
    }

    /// Permits all of `ips`, or none if they do not fit.
    pub open spec fn add_permissions_capped(self, id: u64, ips: Seq<IpAddr>, cap: nat) -> TableModel {
        if self.fits_permissions(id, ips, cap) {
            let held = self.allocations[id].permissions;
            self.modify(
                id,
                |a: AllocModel|
                    AllocModel { permissions: a.permissions.union(ips.to_set()), ..a },
            ).index_permissions(new_ips(ips, held), id)
        } else {
            self
        }
    }

    /// Registers the address of a peer for direct lookup.
    pub open spec fn register_peer(self, id: u64, addr: SocketAddr, now_ms: u64) -> TableModel {
        let t = TableModel {
            by_peer_tuple: self.by_peer_tuple.insert(addr.spec_key(), id),
            ..self
        };
        t.modify(id, |a: AllocModel| a.know_peer(addr, now_ms))
    }

    /// Removes an allocation and every trace of it in the indices.
    pub open spec fn remove(self, id: u64) -> TableModel {
        if self.allocations.contains_key(id) {
            let a = self.allocations[id];
            TableModel {
                allocations: self.allocations.remove(id),
                by_client: self.by_client.remove(a.client_addr.spec_key()),
                by_ufrag: self.by_ufrag.remove(a.local_ufrag),
                by_permission: forget_permissions(self.by_permission, a.permissions, id),
                by_peer_tuple: self.by_peer_tuple.remove_keys(a.known_peers.dom()),
                by_ice_ufrag: match a.ice_ufrag {
                    Some(local) => self.by_ice_ufrag.remove(local),
                    None => self.by_ice_ufrag,
                },
                by_ice_ufrag_pair: match (a.ice_ufrag, a.ice_remote_ufrag) {
                    (Some(local), Some(remote)) => self.by_ice_ufrag_pair.remove((local, remote)),
                    _ => self.by_ice_ufrag_pair,
                },
                next_id: self.next_id,
            }
        } else {
            self
        }
    }

    /// Removes allocations one after the other.
    pub open spec fn remove_each(self, ids: Seq<u64>) -> TableModel
        decreases ids.len(),
    {
        if ids.len() == 0 {
            self
        } else {
            self.remove_each(ids.drop_last()).remove(ids.last())
        }
    }

    /// The IP addresses of the clients of the given allocations.
    pub open spec fn client_ips(self, ids: Seq<u64>) -> Seq<IpAddr> {
        ids.map_values(|id: u64| self.allocations[id].client_addr.ip)
    }

    /// `ids` lists each allocation that satisfies `p` once.
    pub open spec fn lists(self, ids: Seq<u64>, p: spec_fn(AllocModel) -> bool) -> bool {
        &&& ids.no_duplicates()
        &&& forall|id: u64| #[trigger]
            ids.contains(id) <==> self.allocations.contains_key(id) && p(self.allocations[id])
    }

    /// `after` is this table with every allocation removed that satisfies `p`,
    /// and `ips` are the addresses of their clients, in the order of removal.
    pub open spec fn swept(
        self,
        after: TableModel,
        ips: Seq<IpAddr>,
        p: spec_fn(AllocModel) -> bool,
    ) -> bool {
        exists|ids: Seq<u64>| #[trigger]
            self.lists(ids, p) && after == self.remove_each(ids) && ips == self.client_ips(ids)
    }
}

} // verus!
