//! TURN allocations.

use dashmap::DashMap;
use vstd::prelude::*;
use vstd::string::*;

use super::maps::{
    addr_entries, addr_map_get, addr_map_insert, addr_map_keys, addr_map_new,
    addr_map_remove, channel_entries, channel_map_get, channel_map_insert, channel_map_len,
    channel_map_new, channel_map_remove,
};
use super::model::{expiry_of, ufrag_code, ufrag_of, AllocModel};
use crate::coarse_time::{coarse_now_ms, is_expired_secs, CoarseClock};
use crate::net::{AddrKey, IpAddr, SocketAddr};
use crate::text::{
    ascii_chars, ascii_string, chars_of, decimal_codes, decimal_is_digits, push_decimal,
};

verus! {

/// Unique allocation identifier.
#[derive(Debug, Clone, Copy, PartialEq, Eq, Structural, Hash)]
pub struct AllocationId(pub u64);

impl AllocationId {
    /// The identifier as text, such as "alloc-7".
    pub fn text(&self) -> (s: String)
        ensures
            s@ == "alloc-"@ + ascii_chars(decimal_codes(self.0 as nat)),
    {
        let mut digits: Vec<u8> = Vec::new();
        push_decimal(&mut digits, self.0);
        proof {
            decimal_is_digits(self.0 as nat);
            assert(digits@ =~= decimal_codes(self.0 as nat));
        }
        let mut s = "alloc-".to_string();
        s.append(ascii_string(digits).as_str());
        s
    }
}

/// What is known of a peer.
#[derive(Debug, Clone, Copy)]
pub struct PeerInfo {
    /// When traffic from this peer was last seen (coarse timestamp in ms)
    pub last_seen_ms: u64,
}

/// TURN allocation state.
pub struct Allocation {
    pub id: AllocationId,
    /// Client's address (TURN control connection)
    pub client_addr: SocketAddr,
    /// Ufrag that the server generated for this allocation
    pub local_ufrag: String,
    /// Remote ICE username fragment
    pub remote_ufrag: Option<String>,
    /// Permitted peer IP addresses, each once
    permissions: Vec<IpAddr>,
    /// Channel bindings: channel to peer
    channels: DashMap<u16, SocketAddr>,
    /// Reverse channel bindings: peer to channel
    channels_reverse: DashMap<AddrKey, u64>,
    /// Known peers, with the time they were last seen
    known_peers: DashMap<AddrKey, u64>,
    /// When the allocation expires (coarse timestamp in ms)
    expires_at_ms: u64,
    /// Allocation lifetime in seconds
    lifetime_secs: u64,
    /// Last activity in either direction
    last_activity_ms: u64,
    /// Last traffic from the client
    last_received_ms: u64,
    /// Last time data was relayed; 0 if never tried
    last_successful_relay_ms: u64,
    /// Whether a relay was ever attempted
    has_relay_attempt: bool,
    /// Username of the client
    pub username: String,
    /// Transaction id of the Allocate request that created this allocation. It
    /// tells a retransmission from a new request over the same 5-tuple.
    pub allocate_txn_id: [u8; 12],
    /// ICE ufrag of the sender this allocation wants to receive from
    paired_ufrag: Option<String>,
    /// This client's own ICE ufrag, learned from its checks
    ice_ufrag: Option<String>,
    /// ICE ufrag of the peer that this client talks to
    ice_remote_ufrag: Option<String>,
}

impl View for Allocation {
    type V = AllocModel;

    closed spec fn view(&self) -> AllocModel {
        AllocModel {
            id: self.id.0,
            client_addr: self.client_addr,
            local_ufrag: self.local_ufrag@,
            remote_ufrag: chars_of(self.remote_ufrag),
            permissions: self.permissions@.to_set(),
            channels: channel_entries(self.channels),
            channels_reverse: addr_entries(self.channels_reverse),
            known_peers: addr_entries(self.known_peers),
            expires_at_ms: self.expires_at_ms,
            lifetime_secs: self.lifetime_secs,
            last_activity_ms: self.last_activity_ms,
            last_received_ms: self.last_received_ms,
            last_successful_relay_ms: self.last_successful_relay_ms,
            has_relay_attempt: self.has_relay_attempt,
            username: self.username@,
            allocate_txn_id: self.allocate_txn_id@,
            paired_ufrag: chars_of(self.paired_ufrag),
            ice_ufrag: chars_of(self.ice_ufrag),
            ice_remote_ufrag: chars_of(self.ice_remote_ufrag),
        }
    }
}

/// Checks whether a list holds an address.
pub(crate) fn holds_ip(list: &Vec<IpAddr>, ip: IpAddr) -> (r: bool)
    ensures
        r == list@.contains(ip),
{
    let n: usize = list.len();
    let mut i: usize = 0;
    while i < n
        invariant
            i <= n,
            n == list@.len(),
            forall|j: int| 0 <= j < i ==> list@[j] != ip,
        decreases n - i,
    {
        if list[i] == ip {
            assert(list@[i as int] == ip);
            return true;
        }
        i = i + 1;
    }
    false
}

/// Makes a ufrag from random bytes.
fn generate_ufrag(seed: &[u8; 12]) -> (s: String)
    ensures
        s@ == ufrag_of(seed@),
{
    let mut codes: Vec<u8> = Vec::new();
    let mut i: usize = 0;
    let ghost want = Seq::new(12, |i: int| ufrag_code(seed@[i]));
    while i < 12
        invariant
            i <= 12,
            want == Seq::new(12, |i: int| ufrag_code(seed@[i])),
            codes@ == want.subrange(0, i as int),
        decreases 12 - i,
    {
        let k: u8 = seed[i] % 62;
        let code: u8 = if k < 26 {
            65 + k
        } else if k < 52 {
            97 + (k - 26)
        } else {
            48 + (k - 52)
        };
        codes.push(code);
        i = i + 1;
        assert(codes@ =~= want.subrange(0, i as int));
    }
    assert(codes@ =~= want);
    ascii_string(codes)
}

/// When a lifetime that starts at `now_ms` ends, in the 64 bits of the clock.
fn expiry(now_ms: u64, lifetime_secs: u32) -> (ms: u64)
    ensures
        ms == expiry_of(now_ms, lifetime_secs),
{
    let lifetime_ms: u64 = lifetime_secs as u64 * 1000;
    assert(now_ms + lifetime_ms > u64::MAX ==> (now_ms + lifetime_ms) as u64 == now_ms + lifetime_ms
        - 0x1_0000_0000_0000_0000) by (bit_vector);
    now_ms.wrapping_add(lifetime_ms)
}

impl Allocation {
    /// Channels and peers correspond, and no permission is listed twice.
    pub closed spec fn wf(&self) -> bool {
        self.permissions@.no_duplicates() && self@.wf()
    }

    /// The allocation is well formed as a mathematical value, so that the laws
    /// of allocations apply.
    pub proof fn allocation_facts(&self)
        requires
            self.wf(),
        ensures
            self@.wf(),
    {
    }

    /// Creates a new allocation with the ufrag that `seed` gives.
    pub fn new(
        id: AllocationId,
        client_addr: SocketAddr,
        username: String,
        lifetime_secs: u32,
        allocate_txn_id: [u8; 12],
        seed: &[u8; 12],
        clock: &CoarseClock,
    ) -> (a: Self)
        ensures
            a.wf(),
            a@ == AllocModel::fresh(
                id.0,
                client_addr,
                username@,
                lifetime_secs,
                allocate_txn_id@,
                seed@,
                clock.ms(),
            ),
    {
        let now_ms: u64 = coarse_now_ms(clock);
        let a = Self {
            id,
            client_addr,
            local_ufrag: generate_ufrag(seed),
            remote_ufrag: None,
            permissions: Vec::new(),
            channels: channel_map_new(),
            channels_reverse: addr_map_new(),
            known_peers: addr_map_new(),
            expires_at_ms: expiry(now_ms, lifetime_secs),
            lifetime_secs: lifetime_secs as u64,
            last_activity_ms: now_ms,
            last_received_ms: now_ms,
            last_successful_relay_ms: 0,
            has_relay_attempt: false,
            username,
            allocate_txn_id,
            paired_ufrag: None,
            ice_ufrag: None,
            ice_remote_ufrag: None,
        };
        assert(a.permissions@.to_set() =~= Set::<IpAddr>::empty());
        a
    }

    /// The identifier of this allocation.
    pub fn id(&self) -> (id: AllocationId)
        ensures
            id.0 == self@.id,
    {
        self.id
    }

    /// The address of the client.
    pub fn client_addr(&self) -> (addr: SocketAddr)
        ensures
            addr == self@.client_addr,
    {
        self.client_addr
    }

    /// The name of the user the allocation belongs to.
    pub fn username(&self) -> (s: &str)
        ensures
            s@ == self@.username,
    {
        self.username.as_str()
    }

    /// The ufrag that the server generated.
    pub fn local_ufrag(&self) -> (s: &str)
        ensures
            s@ == self@.local_ufrag,
    {
        self.local_ufrag.as_str()
    }

    /// Whether the Allocate request that created this allocation had the
    /// given transaction id.
    pub fn was_created_by(&self, transaction_id: &[u8; 12]) -> (r: bool)
        ensures
            r == (self@.allocate_txn_id == transaction_id@),
    {
        let mut i: usize = 0;
        while i < 12
            invariant
                i <= 12,
                forall|j: int| 0 <= j < i ==> self.allocate_txn_id@[j] == transaction_id@[j],
            decreases 12 - i,
        {
            if self.allocate_txn_id[i] != transaction_id[i] {
                return false;
            }
            i = i + 1;
        }
        assert(self.allocate_txn_id@ =~= transaction_id@);
        true
    }

    /// Sets the ufrag this allocation wants to receive from. Returns whether
    /// that changed it.
    pub fn set_paired_ufrag(&mut self, ufrag: &str) -> (r: bool)
        requires
            old(self).wf(),
        ensures
            final(self).wf(),
            final(self)@ == (AllocModel { paired_ufrag: Some(ufrag@), ..old(self)@ }),
            r == (old(self)@.paired_ufrag != Some(ufrag@)),
    {
        let changed = !is_text(&self.paired_ufrag, ufrag);
        self.paired_ufrag = Some(ufrag.to_string());
        changed
    }

    /// The ufrag this allocation wants to receive from.
    pub fn get_paired_ufrag(&self) -> (r: Option<String>)
        ensures
            chars_of(r) == self@.paired_ufrag,
    {
        self.paired_ufrag.clone()
    }

    /// Sets this allocation's ICE ufrag. Returns whether that changed it.
    pub fn set_ice_ufrag(&mut self, ufrag: &str) -> (r: bool)
        requires
            old(self).wf(),
        ensures
            final(self).wf(),
            final(self)@ == (AllocModel { ice_ufrag: Some(ufrag@), ..old(self)@ }),
            r == (old(self)@.ice_ufrag != Some(ufrag@)),
    {
        let changed = !is_text(&self.ice_ufrag, ufrag);
        self.ice_ufrag = Some(ufrag.to_string());
        changed
    }

    /// This allocation's ICE ufrag.
    pub fn get_ice_ufrag(&self) -> (r: Option<String>)
        ensures
            chars_of(r) == self@.ice_ufrag,
    {
        self.ice_ufrag.clone()
    }

    /// Sets the ICE ufrag of the peer. Returns whether that changed it.
    pub fn set_ice_remote_ufrag(&mut self, ufrag: &str) -> (r: bool)
        requires
            old(self).wf(),
        ensures
            final(self).wf(),
            final(self)@ == (AllocModel { ice_remote_ufrag: Some(ufrag@), ..old(self)@ }),
            r == (old(self)@.ice_remote_ufrag != Some(ufrag@)),
    {
        let changed = !is_text(&self.ice_remote_ufrag, ufrag);
        self.ice_remote_ufrag = Some(ufrag.to_string());
        changed
    }

    /// The ICE ufrag of the peer.
    pub fn get_ice_remote_ufrag(&self) -> (r: Option<String>)
        ensures
            chars_of(r) == self@.ice_remote_ufrag,
    {
        self.ice_remote_ufrag.clone()
    }

    /// Checks whether a peer IP is permitted.
    pub fn is_permitted(&self, peer_ip: IpAddr) -> (r: bool)
        ensures
            r == self@.is_permitted(peer_ip),
    {
        holds_ip(&self.permissions, peer_ip)
    }

    /// Adds a permission for a peer IP.
    pub fn add_permission(&mut self, peer_ip: IpAddr)
        requires
            old(self).wf(),
        ensures
            final(self).wf(),
            final(self)@ == old(self)@.add_permission(peer_ip),
    {
        let ghost before = self.permissions@;
        if holds_ip(&self.permissions, peer_ip) {
            assert(before.to_set().insert(peer_ip) =~= before.to_set());
        } else {
            self.permissions.push(peer_ip);
            assert(self.permissions@.to_set() =~= before.to_set().insert(peer_ip)) by {
                assert forall|x: IpAddr| self.permissions@.contains(x) <==> before.contains(x) || x
                    == peer_ip by {
                    if before.contains(x) {
                        let i = choose|i: int| 0 <= i < before.len() && before[i] == x;
                        assert(self.permissions@[i] == x);
                    }
                    assert(self.permissions@[before.len() as int] == peer_ip);
                }
            }
        }
    }

    /// Number of permissions held.
    pub fn permissions_count(&self) -> (n: usize)
        requires
            self.wf(),
        ensures
            self@.permissions.finite(),
            n == self@.permissions.len(),
    {
        proof {
            self.permissions@.unique_seq_to_set();
        }
        self.permissions.len()
    }

    /// The permitted peer IPs, each once.
    pub fn permitted_ips(&self) -> (ips: Vec<IpAddr>)
        requires
            self.wf(),
        ensures
            ips@.no_duplicates(),
            ips@.to_set() == self@.permissions,
    {
        self.permissions.clone()
    }

    /// Binds a channel to a peer. If either was bound before, the stale
    /// binding is removed, so that the old peer's traffic is not framed with a
    /// channel that the client now takes for the new peer.
    pub fn bind_channel(&mut self, channel: u16, peer_addr: SocketAddr)
        requires
            old(self).wf(),
        ensures
            final(self).wf(),
            final(self)@ == old(self)@.bind_channel(channel, peer_addr),
    {
        broadcast use crate::net::addr_key_injective;

        let ghost before = self@;
        proof {
            super::model::bind_channel_keeps_wf(before, channel, peer_addr);
        }
        if let Some(old_peer) = channel_map_insert(&mut self.channels, channel, peer_addr) {
            if old_peer != peer_addr {
                addr_map_remove(&mut self.channels_reverse, &old_peer.key());
            }
        }
        if let Some(old_channel) = addr_map_insert(
            &mut self.channels_reverse,
            peer_addr.key(),
            channel as u64,
        ) {
            if old_channel != channel as u64 {
                channel_map_remove(&mut self.channels, old_channel as u16);
            }
        }
        assert(self@.channels =~= before.bind_channel(channel, peer_addr).channels);
        assert(self@.channels_reverse =~= before.bind_channel(channel, peer_addr).channels_reverse);
    }

    /// Number of channels bound.
    pub fn channels_count(&self) -> (n: usize)
        ensures
            n == self@.channels.len(),
    {
        channel_map_len(&self.channels)
    }

    /// The channel bound to a peer.
    pub fn channel_for_peer(&self, peer_addr: SocketAddr) -> (r: Option<u16>)
        ensures
            r == self@.channel_for_peer(peer_addr),
    {
        match addr_map_get(&self.channels_reverse, &peer_addr.key()) {
            Some(c) => Some(c as u16),
            None => None,
        }
    }

    /// The peer bound to a channel.
    pub fn peer_for_channel(&self, channel: u16) -> (r: Option<SocketAddr>)
        ensures
            r == self@.peer_for_channel(channel),
    {
        channel_map_get(&self.channels, channel)
    }

    /// What is known of a peer, if traffic from it was seen.
    pub fn known_peer(&self, peer_addr: SocketAddr) -> (r: Option<PeerInfo>)
        ensures
            match r {
                Some(info) => self@.known_peers.get(peer_addr.spec_key()) == Some(
                    info.last_seen_ms,
                ),
                None => self@.known_peers.get(peer_addr.spec_key()) is None,
            },
    {
        match addr_map_get(&self.known_peers, &peer_addr.key()) {
            Some(t) => Some(PeerInfo { last_seen_ms: t }),
            None => None,
        }
    }

    /// Remembers a peer, and that it was seen now.
    pub fn know_peer(&mut self, peer_addr: SocketAddr, clock: &CoarseClock)
        requires
            old(self).wf(),
        ensures
            final(self).wf(),
            final(self)@ == old(self)@.know_peer(peer_addr, clock.ms()),
    {
        addr_map_insert(&mut self.known_peers, peer_addr.key(), coarse_now_ms(clock));
    }

    /// The keys of the known peers, each once.
    pub fn known_peer_keys(&self) -> (keys: Vec<AddrKey>)
        ensures
            keys@.no_duplicates(),
            keys@.to_set() == self@.known_peers.dom(),
    {
        addr_map_keys(&self.known_peers)
    }

    /// Records activity.
    pub fn touch(&mut self, clock: &CoarseClock)
        requires
            old(self).wf(),
        ensures
            final(self).wf(),
            final(self)@ == old(self)@.touch(clock.ms()),
    {
        self.last_activity_ms = coarse_now_ms(clock);
    }

    /// Records traffic from the client. Not to be called for traffic to it.
    pub fn touch_received(&mut self, clock: &CoarseClock)
        requires
            old(self).wf(),
        ensures
            final(self).wf(),
            final(self)@ == old(self)@.touch_received(clock.ms()),
    {
        let now: u64 = coarse_now_ms(clock);
        self.last_received_ms = now;
        self.last_activity_ms = now;
    }

    /// Checks whether no traffic came from the client for the given time.
    pub fn is_inactive(&self, clock: &CoarseClock, timeout_secs: u64) -> (r: bool)
        requires
            timeout_secs * 1000 <= u64::MAX,
        ensures
            r == self@.is_inactive(timeout_secs, clock.ms()),
    {
        is_expired_secs(clock, self.last_received_ms, timeout_secs)
    }

    /// Records a successful relay (data was sent to at least one target).
    pub fn touch_relay_success(&mut self, clock: &CoarseClock)
        requires
            old(self).wf(),
        ensures
            final(self).wf(),
            final(self)@ == old(self)@.touch_relay_success(clock.ms()),
    {
        self.last_successful_relay_ms = coarse_now_ms(clock);
        self.has_relay_attempt = true;
    }

    /// Records a relay attempt: starts the orphan timer if it is not running.
    pub fn touch_relay_attempt(&mut self, clock: &CoarseClock)
        requires
            old(self).wf(),
        ensures
            final(self).wf(),
            final(self)@ == old(self)@.touch_relay_attempt(clock.ms()),
    {
        if !self.has_relay_attempt {
            self.has_relay_attempt = true;
            self.last_successful_relay_ms = coarse_now_ms(clock);
        }
    }

    /// Checks whether the client is sending, but to nobody, for the given time.
    pub fn is_orphaned_sender(&self, clock: &CoarseClock, timeout_secs: u64) -> (r: bool)
        requires
            timeout_secs * 1000 <= u64::MAX,
        ensures
            r == self@.is_orphaned_sender(timeout_secs, clock.ms()),
    {
        if !self.has_relay_attempt {
            return false;
        }
        is_expired_secs(clock, self.last_successful_relay_ms, timeout_secs)
    }

    /// Checks whether the allocation has expired.
    pub fn is_expired(&self, clock: &CoarseClock) -> (r: bool)
        ensures
            r == self@.is_expired(clock.ms()),
    {
        coarse_now_ms(clock) > self.expires_at_ms
    }

    /// Gives the allocation a new lifetime.
    pub fn refresh(&mut self, lifetime_secs: u32, clock: &CoarseClock)
        requires
            old(self).wf(),
        ensures
            final(self).wf(),
            final(self)@ == old(self)@.refresh(lifetime_secs, clock.ms()),
    {
        let now_ms: u64 = coarse_now_ms(clock);
        self.expires_at_ms = expiry(now_ms, lifetime_secs);
        self.lifetime_secs = lifetime_secs as u64;
    }

    /// Remaining lifetime in whole seconds.
    pub fn remaining_lifetime(&self, clock: &CoarseClock) -> (secs: u32)
        ensures
            secs == self@.remaining_lifetime(clock.ms()),
    {
        let now_ms: u64 = coarse_now_ms(clock);
        if self.expires_at_ms > now_ms {
            ((self.expires_at_ms - now_ms) / 1000) as u32
        } else {
            0
        }
    }
}

/// Checks whether an optional string is there and equal to a text.
fn is_text(s: &Option<String>, text: &str) -> (r: bool)
    ensures
        r == (chars_of(*s) == Some(text@)),
{
    match s {
        Some(t) => *t == text.to_string(),
        None => false,
    }
}

} // verus!
