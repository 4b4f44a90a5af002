//! The table of allocations: several ways to look one up.
//!
//! - by the address of the client (the 5-tuple of the TURN connection)
//! - by ICE ufrag, and by the pair of ufrags for matching in both directions
//! - by the address or the IP of a peer

use dashmap::mapref::one::Ref;
use dashmap::DashMap;
use vstd::prelude::*;
use vstd::string::*;

use super::allocation::{holds_ip, Allocation, AllocationId};
use super::maps::{
    addr_entries, addr_map_contains, addr_map_get, addr_map_insert, addr_map_new, addr_map_remove,
    allocation_entries, allocation_map_get, allocation_map_insert, allocation_map_keys,
    allocation_map_new, allocation_map_remove, allocation_of, held_allocation, pair_entries,
    pair_map_get, pair_map_insert, pair_map_new, pair_map_remove, permission_entries,
    permission_map_get, permission_map_insert, permission_map_new, ufrag_entries, ufrag_map_get,
    ufrag_map_insert, ufrag_map_new, ufrag_map_remove,
};
use super::model::{
    expired_at, forget_permissions, has_ip_key, inactive_at, new_ips, orphaned_at, without,
    AllocModel, TableModel,
};
use crate::bytes::zeros;
use crate::coarse_time::CoarseClock;
use crate::net::{AddrKey, IpAddr, IpKey, SocketAddr};
use crate::random::random_12;

verus! {

/// Multi-index lookup table for allocations.
pub struct AllocationTable {
    /// All allocations by ID
    allocations: DashMap<u64, Allocation>,
    /// By client address
    by_client: DashMap<AddrKey, u64>,
    /// By the ufrag that the server generated
    by_ufrag: DashMap<String, u64>,
    /// By permitted peer IP (several clients may permit the same peer)
    by_permission: DashMap<IpKey, Vec<u64>>,
    /// By peer address, for peers that traffic came from
    by_peer_tuple: DashMap<AddrKey, u64>,
    /// By the client's ICE ufrag
    by_ice_ufrag: DashMap<String, u64>,
    /// By the client's ICE ufrag and that of its peer
    by_ice_ufrag_pair: DashMap<(String, String), u64>,
    /// The ID of the next allocation
    next_id: u64,
}

impl View for AllocationTable {
    type V = TableModel;

    closed spec fn view(&self) -> TableModel {
        TableModel {
            allocations: allocation_entries(self.allocations).map_values(|a: Allocation| a@),
            by_client: addr_entries(self.by_client),
            by_ufrag: ufrag_entries(self.by_ufrag),
            by_permission: permission_entries(self.by_permission),
            by_peer_tuple: addr_entries(self.by_peer_tuple),
            by_ice_ufrag: ufrag_entries(self.by_ice_ufrag),
            by_ice_ufrag_pair: pair_entries(self.by_ice_ufrag_pair),
            next_id: self.next_id,
        }
    }
}

impl AllocationTable {
    /// Every allocation is well formed, and the indices lead to every
    /// allocation and nowhere else.
    pub closed spec fn wf(&self) -> bool {
        &&& self@.wf()
        &&& self.sound()
    }

    spec fn sound(&self) -> bool {
        forall|id: u64| #[trigger]
            allocation_entries(self.allocations).contains_key(id) ==> allocation_entries(
                self.allocations,
            )[id].wf()
    }

    /// The table is well formed as a mathematical value, so that its laws apply.
    pub proof fn table_facts(&self)
        requires
            self.wf(),
        ensures
            self@.wf(),
    {
    }

    /// Facts about the client at an address: its allocation is where its
    /// identifier says, and nothing is left there once it is removed.
    pub proof fn client_facts(&self, src: SocketAddr)
        requires
            self.wf(),
        ensures
            self@.client(src) is Some <==> self@.is_client(src),
            self@.client(src) matches Some(a) ==> {
                &&& self@.allocations.get(a.id) == Some(a)
                &&& self@.by_client.get(src.spec_key()) == Some(a.id)
                &&& a.client_addr == src
                &&& a.id < self@.next_id
                &&& !self@.remove(a.id).is_client(src)
            },
    {
        super::laws::client_is_indexed(self@, src);
        super::laws::client_is_removed(self@, src);
    }

    /// The candidates for a peer's traffic are identifiers that were given out.
    pub proof fn candidate_facts(&self, peer: SocketAddr)
        requires
            self.wf(),
        ensures
            forall|i: int|
                0 <= i < self@.candidates(peer).len() ==> #[trigger] self@.candidates(peer)[i]
                    < self@.next_id,
    {
        let t = self@;
        if t.by_peer_tuple.contains_key(peer.spec_key()) {
            assert(t.by_peer_tuple[peer.spec_key()] < t.next_id);
        } else if t.by_permission.contains_key(peer.ip.spec_key()) {
            assert(t.issued(t.by_permission[peer.ip.spec_key()]));
        }
    }

    /// Creates an empty table.
    pub fn new() -> (t: Self)
        ensures
            t.wf(),
            t@ == TableModel::empty(),
    {
        let t = Self {
            allocations: allocation_map_new(),
            by_client: addr_map_new(),
            by_ufrag: ufrag_map_new(),
            by_permission: permission_map_new(),
            by_peer_tuple: addr_map_new(),
            by_ice_ufrag: ufrag_map_new(),
            by_ice_ufrag_pair: pair_map_new(),
            next_id: 1,
        };
        assert(t@.allocations =~= Map::<u64, AllocModel>::empty());
        t
    }

    /// Get allocation by ID.
    pub fn get(&self, id: AllocationId) -> (r: Option<Ref<'_, u64, Allocation>>)
        requires
            self.wf(),
        ensures
            match r {
                Some(a) => self@.allocations.get(id.0) == Some(held_allocation(a)@)
                    && held_allocation(a).wf(),
                None => self@.allocations.get(id.0) is None,
            },
    {
        allocation_map_get(&self.allocations, id.0)
    }

    /// Takes an allocation out of the primary map, to be put back changed.
    fn take(&mut self, id: u64) -> (r: Option<Allocation>)
        requires
            old(self).sound(),
        ensures
            final(self).sound(),
            match r {
                Some(a) => old(self)@.allocations.get(id) == Some(a@) && a.wf(),
                None => old(self)@.allocations.get(id) is None,
            },
            final(self)@ == (TableModel {
                allocations: old(self)@.allocations.remove(id),
                ..old(self)@
            }),
    {
        let r = allocation_map_remove(&mut self.allocations, id);
        assert(self@.allocations =~= old(self)@.allocations.remove(id));
        r
    }

    /// Puts an allocation into the primary map.
    fn put(&mut self, id: u64, a: Allocation)
        requires
            old(self).sound(),
            a.wf(),
        ensures
            final(self).sound(),
            final(self)@ == (TableModel {
                allocations: old(self)@.allocations.insert(id, a@),
                ..old(self)@
            }),
    {
        allocation_map_insert(&mut self.allocations, id, a);
        assert(self@.allocations =~= old(self)@.allocations.insert(id, a@));
    }

    /// Whether there are identifiers left for new allocations.
    pub fn can_allocate(&self) -> (r: bool)
        ensures
            r == (self@.next_id < u64::MAX),
    {
        self.next_id < u64::MAX
    }

    /// Creates an allocation, or returns the one the client already has.
    ///
    /// Returns the identifier, and whether the allocation is new.
    pub fn create_or_get(
        &mut self,
        client_addr: SocketAddr,
        username: String,
        lifetime_secs: u32,
        allocate_txn_id: [u8; 12],
        clock: &CoarseClock,
    ) -> (r: (AllocationId, bool))
        requires
            old(self).wf(),
            old(self)@.next_id < u64::MAX,
        ensures
            final(self).wf(),
            exists|seed: Seq<u8>|
                seed.len() == 12 && final(self)@ == #[trigger] old(self)@.create_or_get(
                    client_addr,
                    username@,
                    lifetime_secs,
                    allocate_txn_id@,
                    seed,
                    clock.ms(),
                ),
            r.1 == !old(self)@.is_client(client_addr),
            final(self)@.by_client.get(client_addr.spec_key()) == Some(r.0.0),
            r.0.0 < final(self)@.next_id,
    {
        let seed = random_12();
        self.create_or_get_with(
            client_addr,
            username,
            lifetime_secs,
            allocate_txn_id,
            &seed,
            clock,
        )
    }

    /// Creates an allocation with the ufrag that `seed` gives, or returns the
    /// one the client already has.
    pub fn create_or_get_with(
        &mut self,
        client_addr: SocketAddr,
        username: String,
        lifetime_secs: u32,
        allocate_txn_id: [u8; 12],
        seed: &[u8; 12],
        clock: &CoarseClock,
    ) -> (r: (AllocationId, bool))
        requires
            old(self).wf(),
            old(self)@.next_id < u64::MAX,
        ensures
            final(self).wf(),
            final(self)@ == old(self)@.create_or_get(
                client_addr,
                username@,
                lifetime_secs,
                allocate_txn_id@,
                seed@,
                clock.ms(),
            ),
            r.1 == !old(self)@.is_client(client_addr),
            final(self)@.by_client.get(client_addr.spec_key()) == Some(r.0.0),
            r.0.0 < final(self)@.next_id,
    {
        if let Some(id) = addr_map_get(&self.by_client, &client_addr.key()) {
            proof {
                assert(self@.by_client.contains_key(client_addr.spec_key()));
                assert(self@.allocations.contains_key(id));
                assert(self@.indexed(id));
            }
            return (AllocationId(id), false);
        }
        let ghost before = self@;
        let ghost name = username@;
        proof {
            super::laws::create_keeps_wf(
                before,
                client_addr,
                name,
                lifetime_secs,
                allocate_txn_id@,
                seed@,
                clock.ms(),
            );
        }
        let id: u64 = self.next_id;
        self.next_id = id + 1;
        let alloc = Allocation::new(
            AllocationId(id),
            client_addr,
            username,
            lifetime_secs,
            allocate_txn_id,
            seed,
            clock,
        );
        let ufrag = alloc.local_ufrag().to_string();
        self.put(id, alloc);
        addr_map_insert(&mut self.by_client, client_addr.key(), id);
        ufrag_map_insert(&mut self.by_ufrag, ufrag, id);
        assert(self@ =~= before.create(
            client_addr,
            name,
            lifetime_secs,
            allocate_txn_id@,
            seed@,
            clock.ms(),
        ));
        (AllocationId(id), true)
    }

    /// Creates an allocation for a request without a transaction id.
    pub fn create(
        &mut self,
        client_addr: SocketAddr,
        username: String,
        lifetime_secs: u32,
        clock: &CoarseClock,
    ) -> (id: AllocationId)
        requires
            old(self).wf(),
            old(self)@.next_id < u64::MAX,
        ensures
            final(self).wf(),
            exists|seed: Seq<u8>|
                seed.len() == 12 && final(self)@ == #[trigger] old(self)@.create_or_get(
                    client_addr,
                    username@,
                    lifetime_secs,
                    zeros(12),
                    seed,
                    clock.ms(),
                ),
            final(self)@.by_client.get(client_addr.spec_key()) == Some(id.0),
            id.0 < final(self)@.next_id,
    {
        let txn: [u8; 12] = [0, 0, 0, 0, 0, 0, 0, 0, 0, 0, 0, 0];
        assert(txn@ =~= zeros(12));
        let r = self.create_or_get(client_addr, username, lifetime_secs, txn, clock);
        r.0
    }

    /// Get allocation by client address.
    pub fn get_by_client(&self, addr: SocketAddr) -> (r: Option<Ref<'_, u64, Allocation>>)
        requires
            self.wf(),
        ensures
            match r {
                Some(a) => self@.client(addr) == Some(held_allocation(a)@)
                    && held_allocation(a).wf(),
                None => self@.client(addr) is None,
            },
    {
        match addr_map_get(&self.by_client, &addr.key()) {
            Some(id) => self.get(AllocationId(id)),
            None => None,
        }
    }

    /// The identifier of the allocation of the client at an address.
    pub fn lookup_by_client(&self, addr: SocketAddr) -> (r: Option<AllocationId>)
        ensures
            opt_num(r) == self@.by_client.get(addr.spec_key()),
    {
        opt_id(addr_map_get(&self.by_client, &addr.key()))
    }

    /// Checks whether a client with an allocation is at an address. Peers that
    /// traffic came from do not count.
    pub fn is_client(&self, addr: SocketAddr) -> (r: bool)
        ensures
            r == self@.is_client(addr),
    {
        addr_map_contains(&self.by_client, &addr.key())
    }

    /// The allocation that traffic from a registered peer is meant for.
    pub fn lookup_by_peer_tuple(&self, addr: SocketAddr) -> (r: Option<AllocationId>)
        ensures
            opt_num(r) == self@.by_peer_tuple.get(addr.spec_key()),
    {
        opt_id(addr_map_get(&self.by_peer_tuple, &addr.key()))
    }

    /// The allocation at a source address, be it a client's or a peer's.
    pub fn lookup_by_source(&self, addr: SocketAddr) -> (r: Option<AllocationId>)
        ensures
            opt_num(r) == self@.source(addr),
    {
        match addr_map_get(&self.by_client, &addr.key()) {
            Some(id) => Some(AllocationId(id)),
            None => self.lookup_by_peer_tuple(addr),
        }
    }

    /// Lookup by the ufrag that the server generated.
    pub fn lookup_by_ufrag(&self, ufrag: &str) -> (r: Option<AllocationId>)
        ensures
            opt_num(r) == self@.by_ufrag.get(ufrag@),
    {
        opt_id(ufrag_map_get(&self.by_ufrag, ufrag))
    }

    /// Lookup by the client's ICE ufrag.
    pub fn lookup_by_ice_ufrag(&self, ice_ufrag: &str) -> (r: Option<AllocationId>)
        ensures
            opt_num(r) == self@.by_ice_ufrag.get(ice_ufrag@),
    {
        opt_id(ufrag_map_get(&self.by_ice_ufrag, ice_ufrag))
    }

    /// The allocations that want to receive from the given ufrag, each once
    /// and in no particular order.
    pub fn find_paired_allocations(&self, ufrag: &str) -> (r: Vec<AllocationId>)
        requires
            self.wf(),
        ensures
            self@.lists(nums(r@), |a: AllocModel| a.paired_ufrag == Some(ufrag@)),
    {
        let keys = allocation_map_keys(&self.allocations);
        let n: usize = keys.len();
        let mut out: Vec<AllocationId> = Vec::new();
        let mut i: usize = 0;
        while i < n
            invariant
                i <= n,
                n == keys@.len(),
                self.wf(),
                keys@.no_duplicates(),
                keys@.to_set() == allocation_entries(self.allocations).dom(),
                forall|k: u64| #[trigger]
                    nums(out@).contains(k) <==> keys@.subrange(0, i as int).contains(k)
                        && self@.allocations[k].paired_ufrag == Some(ufrag@),
                nums(out@).no_duplicates(),
            decreases n - i,
        {
            let key: u64 = keys[i];
            let ghost before = out@;
            assert(keys@.to_set().contains(key));
            proof {
                subrange_step(keys@, i as int);
            }
            if let Some(r) = self.get(AllocationId(key)) {
                let a = allocation_of(&r);
                if let Some(paired) = a.get_paired_ufrag() {
                    if paired == ufrag.to_string() {
                        proof {
                            nums_push(out@, AllocationId(key));
                        }
                        out.push(AllocationId(key));
                    }
                }
            }
            i = i + 1;
        }
        proof {
            assert(keys@.subrange(0, n as int) =~= keys@);
            assert forall|k: u64| #[trigger] nums(out@).contains(k) <==> self@.allocations.contains_key(
                k,
            ) && self@.allocations[k].paired_ufrag == Some(ufrag@) by {
                assert(keys@.contains(k) <==> keys@.to_set().contains(k));
            }
        }
        out
    }

    /// The allocations that want to receive from the sender with the given ICE
    /// ufrag, each once and in no particular order.
    pub fn find_paired_by_ice_ufrag(&self, ice_ufrag: &str) -> (r: Vec<AllocationId>)
        requires
            self.wf(),
        ensures
            self@.lists(nums(r@), |a: AllocModel| a.paired_ufrag == Some(ice_ufrag@)),
    {
        self.find_paired_allocations(ice_ufrag)
    }

    /// The allocations whose ICE ufrags mirror the sender's: if the sender has
    /// local X and remote Y, those with local Y and remote X.
    pub fn find_ice_peers(&self, sender_local: &str, sender_remote: &str) -> (r: Vec<AllocationId>)
        ensures
            nums(r@) == self@.ice_peers(sender_local@, sender_remote@),
    {
        let mirrored = (sender_remote.to_string(), sender_local.to_string());
        let mut out: Vec<AllocationId> = Vec::new();
        if let Some(id) = pair_map_get(&self.by_ice_ufrag_pair, &mirrored) {
            out.push(AllocationId(id));
        }
        assert(nums(out@) =~= self@.ice_peers(sender_local@, sender_remote@));
        out
    }

    /// The allocations that permit a peer IP, in the order they permitted it.
    pub fn lookup_by_peer_ip(&self, ip: IpAddr) -> (r: Vec<AllocationId>)
        ensures
            nums(r@) == self@.permitting(ip),
    {
        match permission_map_get(&self.by_permission, &ip.key()) {
            Some(ids) => to_ids(&ids),
            None => {
                let out: Vec<AllocationId> = Vec::new();
                assert(nums(out@) =~= Seq::<u64>::empty());
                out
            },
        }
    }

    /// Lookup by peer address: the registered allocation, or else all that
    /// permit the IP. Also returns whether there is exactly one, in which case
    /// the address may be registered for direct lookup.
    pub fn lookup_by_peer_addr(&self, addr: SocketAddr) -> (r: (Vec<AllocationId>, bool))
        ensures
            nums(r.0@) == self@.candidates(addr),
            r.1 == (self@.candidates(addr).len() == 1),
    {
        if let Some(id) = addr_map_get(&self.by_peer_tuple, &addr.key()) {
            let mut out: Vec<AllocationId> = Vec::new();
            out.push(AllocationId(id));
            assert(nums(out@) =~= seq![id]);
            return (out, true);
        }
        let candidates = self.lookup_by_peer_ip(addr.ip);
        let is_unique = candidates.len() == 1;
        (candidates, is_unique)
    }

    /// Registers the ICE ufrags of an allocation, learned from the USERNAME of
    /// a check: its own, and that of the peer it wants to talk to.
    ///
    /// First come, first served: a ufrag that is taken is not registered
    /// again, nor a second ufrag for an allocation. Returns whether the pair
    /// was registered.
    pub fn register_ice_ufrags(&mut self, id: AllocationId, local_ufrag: &str, remote_ufrag: &str) -> (r:
        bool)
        requires
            old(self).wf(),
        ensures
            final(self).wf(),
            final(self)@ == old(self)@.register_ice(id.0, local_ufrag@, remote_ufrag@),
            r == old(self)@.can_register(id.0, local_ufrag@),
    {
        proof {
            super::laws::register_ice_keeps_wf(self@, id.0, local_ufrag@, remote_ufrag@);
        }
        if ufrag_map_get(&self.by_ice_ufrag, local_ufrag).is_some() {
            return false;
        }
        let free = match self.get(id) {
            Some(r) => allocation_of(&r).get_ice_ufrag().is_none(),
            None => false,
        };
        if !free {
            return false;
        }
        let ghost before = self@;
        if let Some(mut a) = self.take(id.0) {
            a.set_ice_ufrag(local_ufrag);
            a.set_ice_remote_ufrag(remote_ufrag);
            self.put(id.0, a);
            ufrag_map_insert(&mut self.by_ice_ufrag, local_ufrag.to_string(), id.0);
            pair_map_insert(
                &mut self.by_ice_ufrag_pair,
                (local_ufrag.to_string(), remote_ufrag.to_string()),
                id.0,
            );
            assert(self@ =~= before.register_ice(id.0, local_ufrag@, remote_ufrag@));
        }
        true
    }

    /// Makes the allocation with the receiver's ICE ufrag want to receive from
    /// the sender. Returns false if there is no such receiver.
    pub fn set_pairing(&mut self, sender_ice_ufrag: &str, receiver_ice_ufrag: &str) -> (r: bool)
        requires
            old(self).wf(),
        ensures
            final(self).wf(),
            final(self)@ == old(self)@.set_pairing(sender_ice_ufrag@, receiver_ice_ufrag@),
            r == old(self)@.by_ice_ufrag.contains_key(receiver_ice_ufrag@),
    {
        if let Some(id) = ufrag_map_get(&self.by_ice_ufrag, receiver_ice_ufrag) {
            let ghost before = self@;
            proof {
                assert(before.by_ice_ufrag.contains_key(receiver_ice_ufrag@));
                assert(before.indexed(id));
                super::laws::modify_keeps_wf(
                    before,
                    id,
                    |a: AllocModel| AllocModel { paired_ufrag: Some(sender_ice_ufrag@), ..a },
                );
            }
            if let Some(mut a) = self.take(id) {
                a.set_paired_ufrag(sender_ice_ufrag);
                self.put(id, a);
                assert(self@ =~= before.set_pairing(sender_ice_ufrag@, receiver_ice_ufrag@));
            }
            return true;
        }
        false
    }

    /// Adds a number to the list of those who permit an IP, unless it is on it.
    fn index_permission(&mut self, ip: IpAddr, id: u64)
        ensures
            final(self)@ == old(self)@.index_permission(ip, id),
            old(self).sound() ==> final(self).sound(),
    {
        let mut ids: Vec<u64> = match permission_map_get(&self.by_permission, &ip.key()) {
            Some(ids) => ids,
            None => Vec::new(),
        };
        assert(ids@ =~= self@.permitting(ip));
        if !holds(&ids, id) {
            ids.push(id);
        }
        permission_map_insert(&mut self.by_permission, ip.key(), ids);
    }

    /// Adds a permission and indexes it.
    pub fn add_permission(&mut self, id: AllocationId, peer_ip: IpAddr)
        requires
            old(self).wf(),
            id.0 < old(self)@.next_id,
        ensures
            final(self).wf(),
            final(self)@ == old(self)@.add_permission(id.0, peer_ip),
    {
        let ghost before = self@;
        proof {
            super::laws::add_permission_keeps_wf(before, id.0, peer_ip);
        }
        if let Some(mut a) = self.take(id.0) {
            a.add_permission(peer_ip);
            self.put(id.0, a);
        }
        assert(self@ =~= before.modify(id.0, |a: AllocModel| a.add_permission(peer_ip)));
        self.index_permission(peer_ip, id.0);
    }

    /// Permits the peer IPs unless the allocation would then hold more than
    /// `cap` permissions. IPs that are permitted already do not count as new,
    /// and one that is listed twice counts once.
    ///
    /// Returns false if the allocation does not exist or the cap would be
    /// exceeded; in both cases nothing is changed.
    pub fn try_add_permissions_capped(&mut self, id: AllocationId, peer_ips: &[IpAddr], cap: usize) -> (r:
        bool)
        requires
            old(self).wf(),
        ensures
            final(self).wf(),
            final(self)@ == old(self)@.add_permissions_capped(id.0, peer_ips@, cap as nat),
            r == old(self)@.fits_permissions(id.0, peer_ips@, cap as nat),
    {
        let ghost before = self@;
        proof {
            super::laws::add_permissions_capped_keeps_wf(before, id.0, peer_ips@, cap as nat);
        }
        let fresh: Vec<IpAddr> = match self.get(id) {
            Some(r) => {
                let a = allocation_of(&r);
                let fresh = select_new(a, peer_ips);
                let count: usize = a.permissions_count();
                proof {
                    super::laws::union_len(a@.permissions, peer_ips@);
                }
                if count > cap || fresh.len() > cap - count {
                    return false;
                }
                fresh
            },
            None => {
                return false;
            },
        };
        let n: usize = fresh.len();
        let ghost held = before.allocations[id.0].permissions;
        if let Some(mut a) = self.take(id.0) {
            let ghost a0 = a@;
            let mut i: usize = 0;
            assert(held.union(fresh@.subrange(0, 0).to_set()) =~= held);
            while i < n
                invariant
                    i <= n,
                    n == fresh@.len(),
                    a.wf(),
                    a@ == (AllocModel {
                        permissions: held.union(fresh@.subrange(0, i as int).to_set()),
                        ..a0
                    }),
                decreases n - i,
            {
                a.add_permission(fresh[i]);
                proof {
                    prefix_set(fresh@, i as int);
                    assert(a@.permissions =~= held.union(fresh@.subrange(0, i + 1).to_set()));
                }
                i = i + 1;
            }
            proof {
                assert(fresh@.subrange(0, n as int) =~= fresh@);
                assert(held.union(fresh@.to_set()) =~= held.union(peer_ips@.to_set())) by {
                    assert forall|ip: IpAddr| held.contains(ip) || fresh@.contains(ip)
                        <==> held.contains(ip) || peer_ips@.contains(ip) by {
                        super::laws::new_ips_members(peer_ips@, held, ip);
                    }
                }
            }
            self.put(id.0, a);
        }
        let ghost middle = before.modify(
            id.0,
            |a: AllocModel|
                AllocModel { permissions: a.permissions.union(peer_ips@.to_set()), ..a },
        );
        assert(self@ =~= middle);
        let mut i: usize = 0;
        assert(fresh@.subrange(0, 0) =~= Seq::<IpAddr>::empty());
        while i < n
            invariant
                i <= n,
                n == fresh@.len(),
                self.sound(),
                self@ == middle.index_permissions(fresh@.subrange(0, i as int), id.0),
            decreases n - i,
        {
            self.index_permission(fresh[i], id.0);
            proof {
                let next = fresh@.subrange(0, i + 1);
                assert(next.drop_last() =~= fresh@.subrange(0, i as int));
            }
            i = i + 1;
        }
        assert(fresh@.subrange(0, n as int) =~= fresh@);
        true
    }

    /// Registers the address of a peer for direct lookup, and remembers the
    /// peer so that the entry goes with the allocation.
    pub fn register_peer_tuple(&mut self, id: AllocationId, peer_addr: SocketAddr, clock: &CoarseClock)
        requires
            old(self).wf(),
            id.0 < old(self)@.next_id,
        ensures
            final(self).wf(),
            final(self)@ == old(self)@.register_peer(id.0, peer_addr, clock.ms()),
    {
        let ghost before = self@;
        proof {
            super::laws::register_peer_keeps_wf(before, id.0, peer_addr, clock.ms());
        }
        addr_map_insert(&mut self.by_peer_tuple, peer_addr.key(), id.0);
        if let Some(mut a) = self.take(id.0) {
            a.know_peer(peer_addr, clock);
            self.put(id.0, a);
        }
        assert(self@ =~= before.register_peer(id.0, peer_addr, clock.ms()));
    }

    /// Takes `id` off the lists of those who permit the given IPs.
    fn forget_permissions(&mut self, ips: &Vec<IpAddr>, id: u64)
        ensures
            final(self)@ == (TableModel {
                by_permission: forget_permissions(
                    old(self)@.by_permission,
                    ips@.to_set(),
                    id,
                ),
                ..old(self)@
            }),
            old(self).sound() ==> final(self).sound(),
    {
        let ghost index = self@.by_permission;
        let n: usize = ips.len();
        let mut i: usize = 0;
        assert(index =~= forget_permissions(index, ips@.subrange(0, 0).to_set(), id));
        while i < n
            invariant
                i <= n,
                n == ips@.len(),
                self@ == (TableModel {
                    by_permission: forget_permissions(
                        index,
                        ips@.subrange(0, i as int).to_set(),
                        id,
                    ),
                    ..old(self)@
                }),
                old(self).sound() ==> self.sound(),
            decreases n - i,
        {
            let k = ips[i].key();
            let ghost before = self@.by_permission;
            if let Some(ids) = permission_map_get(&self.by_permission, &k) {
                permission_map_insert(&mut self.by_permission, k, remaining(&ids, id));
            }
            proof {
                let done = ips@.subrange(0, i as int).to_set();
                let next = ips@.subrange(0, i + 1).to_set();
                prefix_set(ips@, i as int);
                assert forall|q: IpKey| has_ip_key(next, q) <==> has_ip_key(done, q) || q == k by {
                    if has_ip_key(done, q) {
                        let ip = choose|ip: IpAddr| #[trigger] done.contains(ip) && ip.spec_key() == q;
                        assert(next.contains(ip));
                    }
                    assert(next.contains(ips@[i as int]));
                    if has_ip_key(next, q) && q != k {
                        let ip = choose|ip: IpAddr| #[trigger] next.contains(ip) && ip.spec_key() == q;
                        assert(done.contains(ip));
                    }
                }
                assert forall|q: IpKey| index.contains_key(q) && has_ip_key(done, q) implies without(
                    before[q],
                    id,
                ) == before[q] by {
                    super::laws::without_idempotent(index[q], id);
                }
                assert(self@.by_permission =~= forget_permissions(index, next, id));
            }
            i = i + 1;
        }
        assert(ips@.subrange(0, n as int) =~= ips@);
    }

    /// Removes peers from the index of registered addresses.
    fn forget_peers(&mut self, keys: &Vec<AddrKey>)
        ensures
            final(self)@ == (TableModel {
                by_peer_tuple: old(self)@.by_peer_tuple.remove_keys(keys@.to_set()),
                ..old(self)@
            }),
            old(self).sound() ==> final(self).sound(),
    {
        let ghost index = self@.by_peer_tuple;
        let n: usize = keys.len();
        let mut i: usize = 0;
        assert(index =~= index.remove_keys(keys@.subrange(0, 0).to_set()));
        while i < n
            invariant
                i <= n,
                n == keys@.len(),
                self@ == (TableModel {
                    by_peer_tuple: index.remove_keys(keys@.subrange(0, i as int).to_set()),
                    ..old(self)@
                }),
                old(self).sound() ==> self.sound(),
            decreases n - i,
        {
            addr_map_remove(&mut self.by_peer_tuple, &keys[i]);
            proof {
                prefix_set(keys@, i as int);
                assert(self@.by_peer_tuple =~= index.remove_keys(
                    keys@.subrange(0, i + 1).to_set(),
                ));
            }
            i = i + 1;
        }
        assert(keys@.subrange(0, n as int) =~= keys@);
    }

    /// Removes an allocation.
    ///
    /// Returns true if the allocation existed and was removed by this call.
    /// Only then may a caller release its quota.
    pub fn remove(&mut self, id: AllocationId) -> (r: bool)
        requires
            old(self).wf(),
        ensures
            final(self).wf(),
            final(self)@ == old(self)@.remove(id.0),
            r == old(self)@.allocations.contains_key(id.0),
    {
        let ghost before = self@;
        proof {
            super::laws::remove_keeps_wf(before, id.0);
        }
        match self.take(id.0) {
            Some(a) => {
                addr_map_remove(&mut self.by_client, &a.client_addr().key());
                ufrag_map_remove(&mut self.by_ufrag, a.local_ufrag());
                if let Some(local) = a.get_ice_ufrag() {
                    ufrag_map_remove(&mut self.by_ice_ufrag, local.as_str());
                    if let Some(remote) = a.get_ice_remote_ufrag() {
                        pair_map_remove(&mut self.by_ice_ufrag_pair, &(local, remote));
                    }
                }
                self.forget_permissions(&a.permitted_ips(), id.0);
                self.forget_peers(&a.known_peer_keys());
                assert(self@ =~= before.remove(id.0));
                true
            },
            None => {
                assert(self@ =~= before);
                false
            },
        }
    }

    /// Removes allocations one after the other. Returns the IPs of their clients.
    fn remove_all(&mut self, ids: &Vec<u64>) -> (ips: Vec<IpAddr>)
        requires
            old(self).wf(),
            ids@.no_duplicates(),
            forall|i: int| 0 <= i < ids@.len() ==> old(self)@.allocations.contains_key(ids@[i]),
        ensures
            final(self).wf(),
            final(self)@ == old(self)@.remove_each(ids@),
            ips@ == old(self)@.client_ips(ids@),
    {
        let ghost before = self@;
        let n: usize = ids.len();
        let mut ips: Vec<IpAddr> = Vec::new();
        let mut i: usize = 0;
        assert(ids@.subrange(0, 0) =~= Seq::<u64>::empty());
        assert(ips@ =~= before.client_ips(ids@.subrange(0, 0)));
        while i < n
            invariant
                i <= n,
                n == ids@.len(),
                self.wf(),
                before.wf(),
                ids@.no_duplicates(),
                forall|j: int| 0 <= j < ids@.len() ==> before.allocations.contains_key(ids@[j]),
                self@ == before.remove_each(ids@.subrange(0, i as int)),
                ips@ == before.client_ips(ids@.subrange(0, i as int)),
            decreases n - i,
        {
            let id: u64 = ids[i];
            proof {
                let done = ids@.subrange(0, i as int);
                let next = ids@.subrange(0, i + 1);
                super::laws::remove_each_keeps_wf(before, done);
                subrange_step(ids@, i as int);
                assert(!done.to_set().contains(id));
                assert(self@.allocations.contains_key(id));
                assert(self@.allocations[id] == before.allocations[id]);
                assert(next.drop_last() =~= done);
                assert(before.client_ips(next) =~= before.client_ips(done).push(
                    before.allocations[id].client_addr.ip,
                ));
            }
            if let Some(r) = self.get(AllocationId(id)) {
                ips.push(allocation_of(&r).client_addr().ip);
            }
            self.remove(AllocationId(id));
            i = i + 1;
        }
        assert(ids@.subrange(0, n as int) =~= ids@);
        ips
    }

    /// Removes expired allocations. Returns the IPs of their clients, in no
    /// particular order.
    pub fn cleanup_expired(&mut self, clock: &CoarseClock) -> (ips: Vec<IpAddr>)
        requires
            old(self).wf(),
        ensures
            final(self).wf(),
            old(self)@.swept(final(self)@, ips@, expired_at(clock.ms())),
    {
        let ids = self.select(Sweep::Expired, clock);
        let ips = self.remove_all(&ids);
        proof {
            assert(old(self)@.lists(ids@, expired_at(clock.ms())));
        }
        ips
    }

    /// Removes allocations without traffic from the client for `timeout_secs`.
    /// Returns the IPs of their clients, in no particular order.
    pub fn cleanup_inactive(&mut self, clock: &CoarseClock, timeout_secs: u64) -> (ips: Vec<IpAddr>)
        requires
            old(self).wf(),
            timeout_secs * 1000 <= u64::MAX,
        ensures
            final(self).wf(),
            old(self)@.swept(final(self)@, ips@, inactive_at(timeout_secs, clock.ms())),
    {
        let ids = self.select(Sweep::Inactive(timeout_secs), clock);
        let ips = self.remove_all(&ids);
        proof {
            assert(old(self)@.lists(ids@, inactive_at(timeout_secs, clock.ms())));
        }
        ips
    }

    /// Removes allocations that send, but reached nobody for `timeout_secs`.
    /// Returns the IPs of their clients, in no particular order.
    pub fn cleanup_orphaned_senders(&mut self, clock: &CoarseClock, timeout_secs: u64) -> (ips: Vec<
        IpAddr,
    >)
        requires
            old(self).wf(),
            timeout_secs * 1000 <= u64::MAX,
        ensures
            final(self).wf(),
            old(self)@.swept(final(self)@, ips@, orphaned_at(timeout_secs, clock.ms())),
    {
        let ids = self.select(Sweep::Orphaned(timeout_secs), clock);
        let ips = self.remove_all(&ids);
        proof {
            assert(old(self)@.lists(ids@, orphaned_at(timeout_secs, clock.ms())));
        }
        ips
    }

    /// The allocations that a sweep is to remove, each once.
    fn select(&self, sweep: Sweep, clock: &CoarseClock) -> (ids: Vec<u64>)
        requires
            self.wf(),
            sweep.in_range(),
        ensures
            ids@.no_duplicates(),
            forall|id: u64| #[trigger]
                ids@.contains(id) <==> self@.allocations.contains_key(id) && sweep.takes(
                    self@.allocations[id],
                    clock.ms(),
                ),
            forall|i: int| 0 <= i < ids@.len() ==> self@.allocations.contains_key(ids@[i]),
    {
        let keys = allocation_map_keys(&self.allocations);
        let n: usize = keys.len();
        let mut ids: Vec<u64> = Vec::new();
        let mut i: usize = 0;
        while i < n
            invariant
                i <= n,
                n == keys@.len(),
                self.wf(),
                sweep.in_range(),
                keys@.no_duplicates(),
                keys@.to_set() == allocation_entries(self.allocations).dom(),
                forall|k: u64| #[trigger]
                    ids@.contains(k) <==> keys@.subrange(0, i as int).contains(k) && sweep.takes(
                        self@.allocations[k],
                        clock.ms(),
                    ),
                ids@.no_duplicates(),
            decreases n - i,
        {
            let key: u64 = keys[i];
            assert(keys@.to_set().contains(key));
            proof {
                subrange_step(keys@, i as int);
            }
            if let Some(r) = self.get(AllocationId(key)) {
                let a = allocation_of(&r);
                let taken = match sweep {
                    Sweep::Expired => a.is_expired(clock),
                    Sweep::Inactive(secs) => a.is_inactive(clock, secs),
                    Sweep::Orphaned(secs) => a.is_orphaned_sender(clock, secs),
                };
                if taken {
                    proof {
                        push_members(ids@, key);
                    }
                    ids.push(key);
                }
            }
            i = i + 1;
        }
        proof {
            assert(keys@.subrange(0, n as int) =~= keys@);
            assert forall|id: u64| #[trigger] ids@.contains(id) <==> self@.allocations.contains_key(id)
                && sweep.takes(self@.allocations[id], clock.ms()) by {
                assert(keys@.contains(id) <==> keys@.to_set().contains(id));
            }
            assert forall|i: int| 0 <= i < ids@.len() implies self@.allocations.contains_key(
                ids@[i],
            ) by {
                assert(ids@.contains(ids@[i]));
            }
        }
        ids
    }

    /// Records traffic to the client of an allocation, if it is still there.
    pub fn touch(&mut self, id: AllocationId, clock: &CoarseClock)
        requires
            old(self).wf(),
        ensures
            final(self).wf(),
            final(self)@ == old(self)@.touch(id.0, clock.ms()),
    {
        let ghost before = self@;
        proof {
            assert(before.allocations.contains_key(id.0) ==> before.indexed(id.0));
            super::laws::modify_keeps_wf(before, id.0, |a: AllocModel| a.touch(clock.ms()));
        }
        if let Some(mut a) = self.take(id.0) {
            a.touch(clock);
            self.put(id.0, a);
        }
        assert(self@ =~= before.touch(id.0, clock.ms()));
    }

    /// Records traffic from the client of an allocation, if it is still there.
    pub fn touch_received(&mut self, id: AllocationId, clock: &CoarseClock)
        requires
            old(self).wf(),
        ensures
            final(self).wf(),
            final(self)@ == old(self)@.touch_received(id.0, clock.ms()),
    {
        let ghost before = self@;
        proof {
            assert(before.allocations.contains_key(id.0) ==> before.indexed(id.0));
            super::laws::modify_keeps_wf(before, id.0, |a: AllocModel| a.touch_received(clock.ms()));
        }
        if let Some(mut a) = self.take(id.0) {
            a.touch_received(clock);
            self.put(id.0, a);
        }
        assert(self@ =~= before.touch_received(id.0, clock.ms()));
    }

    /// Records the outcome of a relay attempt, if the allocation is still there.
    pub fn touch_relay(&mut self, id: AllocationId, relayed: bool, clock: &CoarseClock)
        requires
            old(self).wf(),
        ensures
            final(self).wf(),
            final(self)@ == old(self)@.touch_relay(id.0, relayed, clock.ms()),
    {
        let ghost before = self@;
        proof {
            assert(before.allocations.contains_key(id.0) ==> before.indexed(id.0));
            super::laws::modify_keeps_wf(
                before,
                id.0,
                |a: AllocModel| a.touch_relay(relayed, clock.ms()),
            );
        }
        if let Some(mut a) = self.take(id.0) {
            if relayed {
                a.touch_relay_success(clock);
            } else {
                a.touch_relay_attempt(clock);
            }
            self.put(id.0, a);
        }
        assert(self@ =~= before.touch_relay(id.0, relayed, clock.ms()));
    }

    /// Gives an allocation a new lifetime, if it is still there.
    pub fn refresh(&mut self, id: AllocationId, lifetime_secs: u32, clock: &CoarseClock)
        requires
            old(self).wf(),
        ensures
            final(self).wf(),
            final(self)@ == old(self)@.refresh(id.0, lifetime_secs, clock.ms()),
    {
        let ghost before = self@;
        proof {
            assert(before.allocations.contains_key(id.0) ==> before.indexed(id.0));
            super::laws::modify_keeps_wf(
                before,
                id.0,
                |a: AllocModel| a.refresh(lifetime_secs, clock.ms()),
            );
        }
        if let Some(mut a) = self.take(id.0) {
            a.refresh(lifetime_secs, clock);
            self.put(id.0, a);
        }
        assert(self@ =~= before.refresh(id.0, lifetime_secs, clock.ms()));
    }

    /// Binds a channel of an allocation, if it is still there.
    pub fn bind_channel(&mut self, id: AllocationId, channel: u16, peer_addr: SocketAddr)
        requires
            old(self).wf(),
        ensures
            final(self).wf(),
            final(self)@ == old(self)@.bind_channel(id.0, channel, peer_addr),
    {
        let ghost before = self@;
        proof {
            if before.allocations.contains_key(id.0) {
                assert(before.indexed(id.0));
                super::model::bind_channel_keeps_wf(
                    before.allocations[id.0],
                    channel,
                    peer_addr,
                );
            }
            super::laws::modify_keeps_wf(
                before,
                id.0,
                |a: AllocModel| a.bind_channel(channel, peer_addr),
            );
        }
        if let Some(mut a) = self.take(id.0) {
            a.bind_channel(channel, peer_addr);
            self.put(id.0, a);
        }
        assert(self@ =~= before.bind_channel(id.0, channel, peer_addr));
    }
}

impl Default for AllocationTable {
    fn default() -> (t: Self)
        ensures
            t.wf(),
            t@ == TableModel::empty(),
    {
        Self::new()
    }
}

/// Which allocations a sweep removes.
#[derive(Clone, Copy)]
enum Sweep {
    Expired,
    Inactive(u64),
    Orphaned(u64),
}

impl Sweep {
    spec fn takes(self, a: AllocModel, now_ms: u64) -> bool {
        match self {
            Sweep::Expired => a.is_expired(now_ms),
            Sweep::Inactive(secs) => a.is_inactive(secs, now_ms),
            Sweep::Orphaned(secs) => a.is_orphaned_sender(secs, now_ms),
        }
    }

    spec fn in_range(self) -> bool {
        match self {
            Sweep::Expired => true,
            Sweep::Inactive(secs) => secs * 1000 <= u64::MAX,
            Sweep::Orphaned(secs) => secs * 1000 <= u64::MAX,
        }
    }
}

/// The numbers of identifiers.
pub open spec fn nums(ids: Seq<AllocationId>) -> Seq<u64> {
    ids.map_values(|id: AllocationId| id.0)
}

/// The number of an optional identifier.
pub open spec fn opt_num(id: Option<AllocationId>) -> Option<u64> {
    match id {
        Some(i) => Some(i.0),
        None => None,
    }
}

fn opt_id(n: Option<u64>) -> (id: Option<AllocationId>)
    ensures
        opt_num(id) == n,
{
    match n {
        Some(i) => Some(AllocationId(i)),
        None => None,
    }
}

fn to_ids(numbers: &Vec<u64>) -> (ids: Vec<AllocationId>)
    ensures
        nums(ids@) == numbers@,
{
    let n: usize = numbers.len();
    let mut out: Vec<AllocationId> = Vec::new();
    let mut i: usize = 0;
    while i < n
        invariant
            i <= n,
            n == numbers@.len(),
            nums(out@) == numbers@.subrange(0, i as int),
        decreases n - i,
    {
        proof {
            nums_push(out@, AllocationId(numbers@[i as int]));
            assert(numbers@.subrange(0, i + 1) =~= numbers@.subrange(0, i as int).push(
                numbers@[i as int],
            ));
        }
        out.push(AllocationId(numbers[i]));
        i = i + 1;
    }
    assert(numbers@.subrange(0, n as int) =~= numbers@);
    out
}

proof fn nums_push(ids: Seq<AllocationId>, id: AllocationId)
    ensures
        nums(ids.push(id)) == nums(ids).push(id.0),
        forall|k: u64| #[trigger]
            nums(ids.push(id)).contains(k) <==> nums(ids).contains(k) || k == id.0,
        nums(ids).no_duplicates() && !nums(ids).contains(id.0) ==> nums(ids.push(id)).no_duplicates(),
{
    assert(nums(ids.push(id)) =~= nums(ids).push(id.0));
    push_members(nums(ids), id.0);
}

/// One more key of a list without duplicates.
proof fn subrange_step(s: Seq<u64>, i: int)
    requires
        0 <= i < s.len(),
        s.no_duplicates(),
    ensures
        !s.subrange(0, i).contains(s[i]),
        forall|k: u64| #[trigger]
            s.subrange(0, i + 1).contains(k) <==> s.subrange(0, i).contains(k) || k == s[i],
{
    let a = s.subrange(0, i);
    let b = s.subrange(0, i + 1);
    assert forall|k: u64| #[trigger] b.contains(k) <==> a.contains(k) || k == s[i] by {
        if a.contains(k) {
            let j = choose|j: int| 0 <= j < a.len() && a[j] == k;
            assert(b[j] == k);
        }
        assert(b[i] == s[i]);
        if b.contains(k) && k != s[i] {
            let j = choose|j: int| 0 <= j < b.len() && b[j] == k;
            assert(a[j] == k);
        }
    }
}

/// Checks whether a list holds a number.
fn holds(ids: &Vec<u64>, id: u64) -> (r: bool)
    ensures
        r == ids@.contains(id),
{
    let n: usize = ids.len();
    let mut i: usize = 0;
    while i < n
        invariant
            i <= n,
            n == ids@.len(),
            forall|j: int| 0 <= j < i ==> ids@[j] != id,
        decreases n - i,
    {
        if ids[i] == id {
            assert(ids@[i as int] == id);
            return true;
        }
        i = i + 1;
    }
    false
}

/// Those of `ips` that the allocation does not permit yet, each once.
fn select_new(a: &Allocation, ips: &[IpAddr]) -> (out: Vec<IpAddr>)
    ensures
        out@ == new_ips(ips@, a@.permissions),
{
    let n: usize = ips.len();
    let mut out: Vec<IpAddr> = Vec::new();
    let mut i: usize = 0;
    assert(ips@.subrange(0, 0) =~= Seq::<IpAddr>::empty());
    while i < n
        invariant
            i <= n,
            n == ips@.len(),
            out@ == new_ips(ips@.subrange(0, i as int), a@.permissions),
        decreases n - i,
    {
        let ip = ips[i];
        proof {
            let next = ips@.subrange(0, i + 1);
            assert(next.drop_last() =~= ips@.subrange(0, i as int));
        }
        if !a.is_permitted(ip) && !holds_ip(&out, ip) {
            out.push(ip);
        }
        i = i + 1;
    }
    assert(ips@.subrange(0, n as int) =~= ips@);
    out
}

proof fn prefix_set<A>(s: Seq<A>, i: int)
    requires
        0 <= i < s.len(),
    ensures
        s.subrange(0, i + 1).to_set() == s.subrange(0, i).to_set().insert(s[i]),
{
    let a = s.subrange(0, i);
    let b = s.subrange(0, i + 1);
    assert forall|x: A| b.contains(x) <==> a.contains(x) || x == s[i] by {
        if a.contains(x) {
            let j = choose|j: int| 0 <= j < a.len() && a[j] == x;
            assert(b[j] == x);
        }
        assert(b[i] == s[i]);
        if b.contains(x) && x != s[i] {
            let j = choose|j: int| 0 <= j < b.len() && b[j] == x;
            assert(a[j] == x);
        }
    }
    assert(b.to_set() =~= a.to_set().insert(s[i]));
}

proof fn push_members(s: Seq<u64>, x: u64)
    ensures
        forall|k: u64| #[trigger] s.push(x).contains(k) <==> s.contains(k) || k == x,
        s.no_duplicates() && !s.contains(x) ==> s.push(x).no_duplicates(),
{
    let t = s.push(x);
    assert forall|k: u64| #[trigger] t.contains(k) <==> s.contains(k) || k == x by {
        if s.contains(k) {
            let j = choose|j: int| 0 <= j < s.len() && s[j] == k;
            assert(t[j] == k);
        }
        assert(t[s.len() as int] == x);
        if t.contains(k) && k != x {
            let j = choose|j: int| 0 <= j < t.len() && t[j] == k;
            assert(s[j] == k);
        }
    }
    if s.no_duplicates() && !s.contains(x) {
        assert forall|i: int, j: int| 0 <= i < t.len() && 0 <= j < t.len() && i != j implies t[i]
            != t[j] by {
            if i == s.len() {
                assert(s.contains(s[j]));
            } else if j == s.len() {
                assert(s.contains(s[i]));
            }
        }
    }
}

/// The numbers of a list that are not `id`.
fn remaining(ids: &Vec<u64>, id: u64) -> (out: Vec<u64>)
    ensures
        out@ == without(ids@, id),
{
    let n: usize = ids.len();
    let mut out: Vec<u64> = Vec::new();
    let mut i: usize = 0;
    proof {
        reveal(Seq::filter);
    }
    assert(ids@.subrange(0, 0) =~= Seq::<u64>::empty());
    while i < n
        invariant
            i <= n,
            n == ids@.len(),
            out@ == without(ids@.subrange(0, i as int), id),
        decreases n - i,
    {
        proof {
            reveal(Seq::filter);
            let next = ids@.subrange(0, i + 1);
            assert(next.drop_last() =~= ids@.subrange(0, i as int));
        }
        if ids[i] != id {
            out.push(ids[i]);
        }
        i = i + 1;
    }
    assert(ids@.subrange(0, n as int) =~= ids@);
    out
}

} // verus!
