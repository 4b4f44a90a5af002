//! What every operation on the table keeps, and what operations do together.

use vstd::prelude::*;

use super::model::{has_ip_key, new_ips, other_than, without, AllocModel, TableModel};
use crate::net::{AddrKey, IpAddr, IpKey, SocketAddr};

verus! {

/// `b` is known by the same things as `a`, and has forgotten no peer.
pub open spec fn same_identity(a: AllocModel, b: AllocModel) -> bool {
    &&& a.id == b.id
    &&& a.client_addr == b.client_addr
    &&& a.local_ufrag == b.local_ufrag
    &&& a.permissions == b.permissions
    &&& a.ice_ufrag == b.ice_ufrag
    &&& a.ice_remote_ufrag == b.ice_remote_ufrag
    &&& forall|k: AddrKey| #[trigger] a.known_peers.contains_key(k) ==> b.known_peers.contains_key(k)
}

/// An empty table is well formed.
pub proof fn empty_is_wf()
    ensures
        TableModel::empty().wf(),
{
}

/// Changing an allocation without changing what it is known by keeps the table
/// well formed.
pub proof fn modify_keeps_wf(t: TableModel, id: u64, f: spec_fn(AllocModel) -> AllocModel)
    requires
        t.wf(),
        t.allocations.contains_key(id) ==> same_identity(t.allocations[id], f(t.allocations[id]))
            && f(t.allocations[id]).wf(),
    ensures
        t.modify(id, f).wf(),
{
    let u = t.modify(id, f);
    if t.allocations.contains_key(id) {
        assert forall|i: u64| #[trigger] u.allocations.contains_key(i) implies u.indexed(i) by {
            assert(t.allocations.contains_key(i));
            assert(t.indexed(i));
        }
    }
}

/// Creating an allocation keeps the table well formed.
pub proof fn create_keeps_wf(
    t: TableModel,
    client_addr: SocketAddr,
    username: Seq<char>,
    lifetime_secs: u32,
    txn: Seq<u8>,
    seed: Seq<u8>,
    now_ms: u64,
)
    requires
        t.wf(),
        !t.is_client(client_addr),
        t.next_id < u64::MAX,
    ensures
        t.create(client_addr, username, lifetime_secs, txn, seed, now_ms).wf(),
{
    let u = t.create(client_addr, username, lifetime_secs, txn, seed, now_ms);
    let id = t.next_id;
    assert(!t.allocations.contains_key(id));
    assert forall|i: u64| #[trigger] u.allocations.contains_key(i) implies u.indexed(i) by {
        if i != id {
            assert(t.allocations.contains_key(i));
            assert(t.indexed(i));
            assert(t.by_client.contains_key(t.allocations[i].client_addr.spec_key()));
        }
    }
    assert forall|k: IpKey| #[trigger] u.by_permission.contains_key(k) implies u.issued(
        u.by_permission[k],
    ) by {
        assert(t.issued(t.by_permission[k]));
    }
}

/// Registering ICE ufrags keeps the table well formed.
pub proof fn register_ice_keeps_wf(t: TableModel, id: u64, local: Seq<char>, remote: Seq<char>)
    requires
        t.wf(),
    ensures
        t.register_ice(id, local, remote).wf(),
{
    let u = t.register_ice(id, local, remote);
    if t.can_register(id, local) {
        assert(t.indexed(id));
        assert forall|i: u64| #[trigger] u.allocations.contains_key(i) implies u.indexed(i) by {
            assert(t.allocations.contains_key(i));
            assert(t.indexed(i));
        }
    }
}

proof fn index_permission_lists(t: TableModel, ip: IpAddr, id: u64)
    requires
        forall|k: IpKey| #[trigger] t.by_permission.contains_key(k) ==> t.issued(t.by_permission[k]),
        id < t.next_id,
    ensures
        ({
            let u = t.index_permission(ip, id);
            &&& forall|k: IpKey| #[trigger]
                u.by_permission.contains_key(k) ==> u.issued(u.by_permission[k])
            &&& u.by_permission.contains_key(ip.spec_key())
            &&& u.by_permission[ip.spec_key()].contains(id)
            &&& forall|k: IpKey, i: u64|
                t.by_permission.contains_key(k) && #[trigger] t.by_permission[k].contains(i)
                    ==> u.by_permission.contains_key(k) && u.by_permission[k].contains(i)
            &&& forall|k: IpKey, i: u64|
                u.by_permission.contains_key(k) && #[trigger] u.by_permission[k].contains(i) ==> (
                t.by_permission.contains_key(k) && t.by_permission[k].contains(i)) || (k
                    == ip.spec_key() && i == id)
        }),
{
    let u = t.index_permission(ip, id);
    let ids = t.permitting(ip);
    let k0 = ip.spec_key();
    if t.by_permission.contains_key(k0) {
        assert(t.issued(ids));
    }
    if !ids.contains(id) {
        let more = ids.push(id);
        assert(more[ids.len() as int] == id);
        assert forall|i: int, j: int| 0 <= i < more.len() && 0 <= j < more.len() && i != j implies more[i]
            != more[j] by {
            if i == ids.len() {
                assert(ids.contains(ids[j]));
            } else if j == ids.len() {
                assert(ids.contains(ids[i]));
            }
        }
    }
    assert forall|k: IpKey| #[trigger] u.by_permission.contains_key(k) implies u.issued(
        u.by_permission[k],
    ) by {
        if k != k0 {
            assert(t.by_permission.contains_key(k));
        }
    }
    assert forall|k: IpKey, i: u64|
        t.by_permission.contains_key(k) && #[trigger] t.by_permission[k].contains(i) implies
        u.by_permission.contains_key(k) && u.by_permission[k].contains(i) by {
        if k == k0 && !ids.contains(id) {
            let j = choose|j: int| 0 <= j < ids.len() && ids[j] == i;
            assert(ids.push(id)[j] == i);
        }
    }
    assert forall|k: IpKey, i: u64|
        u.by_permission.contains_key(k) && #[trigger] u.by_permission[k].contains(i) implies (
    t.by_permission.contains_key(k) && t.by_permission[k].contains(i)) || (k == k0 && i == id) by {
        if k == k0 && i != id {
            let j = choose|j: int| 0 <= j < u.by_permission[k].len() && u.by_permission[k][j] == i;
            assert(ids[j] == i);
        }
    }
}

proof fn index_permissions_lists(t: TableModel, ips: Seq<IpAddr>, id: u64)
    requires
        forall|k: IpKey| #[trigger] t.by_permission.contains_key(k) ==> t.issued(t.by_permission[k]),
        id < t.next_id,
    ensures
        ({
            let u = t.index_permissions(ips, id);
            &&& u == (TableModel { by_permission: u.by_permission, ..t })
            &&& forall|k: IpKey| #[trigger]
                u.by_permission.contains_key(k) ==> u.issued(u.by_permission[k])
            &&& forall|ip: IpAddr| #[trigger]
                ips.contains(ip) ==> u.by_permission.contains_key(ip.spec_key())
                    && u.by_permission[ip.spec_key()].contains(id)
            &&& forall|k: IpKey, i: u64|
                t.by_permission.contains_key(k) && #[trigger] t.by_permission[k].contains(i)
                    ==> u.by_permission.contains_key(k) && u.by_permission[k].contains(i)
            &&& forall|k: IpKey, i: u64|
                u.by_permission.contains_key(k) && #[trigger] u.by_permission[k].contains(i) ==> (
                t.by_permission.contains_key(k) && t.by_permission[k].contains(i)) || (i == id
                    && has_ip_key(ips.to_set(), k))
        }),
    decreases ips.len(),
{
    if ips.len() > 0 {
        index_permissions_lists(t, ips.drop_last(), id);
        let v = t.index_permissions(ips.drop_last(), id);
        index_permission_lists(v, ips.last(), id);
        let u = t.index_permissions(ips, id);
        assert forall|ip: IpAddr| #[trigger] ips.contains(ip) implies u.by_permission.contains_key(
            ip.spec_key(),
        ) && u.by_permission[ip.spec_key()].contains(id) by {
            if ip != ips.last() {
                let j = choose|j: int| 0 <= j < ips.len() && ips[j] == ip;
                assert(ips.drop_last()[j] == ip);
                assert(ips.drop_last().contains(ip));
                assert(v.by_permission[ip.spec_key()].contains(id));
            }
        }
        assert forall|k: IpKey, i: u64|
            t.by_permission.contains_key(k) && #[trigger] t.by_permission[k].contains(i) implies
            u.by_permission.contains_key(k) && u.by_permission[k].contains(i) by {
            assert(v.by_permission[k].contains(i));
        }
        assert forall|k: IpKey, i: u64|
            u.by_permission.contains_key(k) && #[trigger] u.by_permission[k].contains(i) implies (
        t.by_permission.contains_key(k) && t.by_permission[k].contains(i)) || (i == id
            && has_ip_key(ips.to_set(), k)) by {
            if v.by_permission.contains_key(k) && v.by_permission[k].contains(i) {
                if !(t.by_permission.contains_key(k) && t.by_permission[k].contains(i)) {
                    let q = choose|q: IpAddr| #[trigger]
                        ips.drop_last().to_set().contains(q) && q.spec_key() == k;
                    let j = choose|j: int|
                        0 <= j < ips.drop_last().len() && ips.drop_last()[j] == q;
                    assert(ips[j] == q);
                    assert(ips.to_set().contains(q));
                }
            } else {
                assert(ips[ips.len() - 1] == ips.last());
                assert(ips.to_set().contains(ips.last()));
            }
        }
    }
}

/// Adding a permission keeps the table well formed.
pub proof fn add_permission_keeps_wf(t: TableModel, id: u64, ip: IpAddr)
    requires
        t.wf(),
        id < t.next_id,
    ensures
        t.add_permission(id, ip).wf(),
{
    let m = t.modify(id, |a: AllocModel| a.add_permission(ip));
    let u = t.add_permission(id, ip);
    assert(forall|k: IpKey| #[trigger]
        m.by_permission.contains_key(k) ==> t.issued(t.by_permission[k]));
    index_permission_lists(m, ip, id);
    assert forall|i: u64| #[trigger] u.allocations.contains_key(i) implies u.indexed(i) by {
        assert(t.allocations.contains_key(i));
        assert(t.indexed(i));
        let a = u.allocations[i];
        assert forall|q: IpAddr| #[trigger] a.permissions.contains(q) implies
            u.by_permission.contains_key(q.spec_key()) && u.by_permission[q.spec_key()].contains(
            i,
        ) by {
            if t.allocations[i].permissions.contains(q) {
                assert(m.by_permission[q.spec_key()].contains(i));
            }
        }
    }
    assert forall|k: IpKey, i: u64|
        u.by_permission.contains_key(k) && #[trigger] u.by_permission[k].contains(i)
            && u.allocations.contains_key(i) implies has_ip_key(u.allocations[i].permissions, k) by {
        if t.by_permission.contains_key(k) && t.by_permission[k].contains(i) {
            assert(has_ip_key(t.allocations[i].permissions, k));
            let q = choose|q: IpAddr| #[trigger]
                t.allocations[i].permissions.contains(q) && q.spec_key() == k;
            assert(u.allocations[i].permissions.contains(q));
        } else {
            assert(u.allocations[i].permissions.contains(ip));
        }
    }
}

/// Adding permissions within a cap keeps the table well formed.
pub proof fn add_permissions_capped_keeps_wf(t: TableModel, id: u64, ips: Seq<IpAddr>, cap: nat)
    requires
        t.wf(),
    ensures
        t.add_permissions_capped(id, ips, cap).wf(),
{
    if t.fits_permissions(id, ips, cap) {
        assert(t.indexed(id));
        let held = t.allocations[id].permissions;
        let fresh = new_ips(ips, held);
        let m = t.modify(
            id,
            |a: AllocModel| AllocModel { permissions: a.permissions.union(ips.to_set()), ..a },
        );
        let u = t.add_permissions_capped(id, ips, cap);
        assert(forall|k: IpKey| #[trigger]
            m.by_permission.contains_key(k) ==> t.issued(t.by_permission[k]));
        index_permissions_lists(m, fresh, id);
        assert forall|i: u64| #[trigger] u.allocations.contains_key(i) implies u.indexed(i) by {
            assert(t.allocations.contains_key(i));
            assert(t.indexed(i));
            let a = u.allocations[i];
            assert forall|q: IpAddr| #[trigger] a.permissions.contains(q) implies
                u.by_permission.contains_key(q.spec_key())
                && u.by_permission[q.spec_key()].contains(i) by {
                if t.allocations[i].permissions.contains(q) {
                    assert(m.by_permission[q.spec_key()].contains(i));
                } else {
                    new_ips_members(ips, held, q);
                    assert(fresh.contains(q));
                }
            }
        }
        assert forall|k: IpKey, i: u64|
            u.by_permission.contains_key(k) && #[trigger] u.by_permission[k].contains(i)
                && u.allocations.contains_key(i) implies has_ip_key(
            u.allocations[i].permissions,
            k,
        ) by {
            if t.by_permission.contains_key(k) && t.by_permission[k].contains(i) {
                assert(has_ip_key(t.allocations[i].permissions, k));
                let q = choose|q: IpAddr| #[trigger]
                    t.allocations[i].permissions.contains(q) && q.spec_key() == k;
                assert(u.allocations[i].permissions.contains(q));
            } else {
                let q = choose|q: IpAddr| #[trigger]
                    fresh.to_set().contains(q) && q.spec_key() == k;
                new_ips_members(ips, held, q);
                assert(u.allocations[i].permissions.contains(q));
            }
        }
    }
}

/// A filtered list holds what the list holds and the filter lets pass.
pub proof fn filter_members<A>(s: Seq<A>, p: spec_fn(A) -> bool, x: A)
    ensures
        s.filter(p).contains(x) <==> s.contains(x) && p(x),
    decreases s.len(),
{
    reveal(Seq::filter);
    if s.len() > 0 {
        let rest = s.drop_last();
        filter_members(rest, p, x);
        let f = rest.filter(p);
        assert(s.contains(x) <==> rest.contains(x) || x == s.last()) by {
            if rest.contains(x) {
                let j = choose|j: int| 0 <= j < rest.len() && rest[j] == x;
                assert(s[j] == x);
            }
            if s.contains(x) && x != s.last() {
                let j = choose|j: int| 0 <= j < s.len() && s[j] == x;
                assert(rest[j] == x);
            }
            assert(s[s.len() - 1] == s.last());
        }
        if p(s.last()) {
            let g = f.push(s.last());
            assert(g.contains(x) <==> f.contains(x) || x == s.last()) by {
                if f.contains(x) {
                    let j = choose|j: int| 0 <= j < f.len() && f[j] == x;
                    assert(g[j] == x);
                }
                assert(g[f.len() as int] == s.last());
                if g.contains(x) && x != s.last() {
                    let j = choose|j: int| 0 <= j < g.len() && g[j] == x;
                    assert(f[j] == x);
                }
            }
        }
    }
}

/// What is new in a list of addresses.
pub proof fn new_ips_members(ips: Seq<IpAddr>, held: Set<IpAddr>, ip: IpAddr)
    ensures
        new_ips(ips, held).contains(ip) <==> ips.contains(ip) && !held.contains(ip),
    decreases ips.len(),
{
    if ips.len() > 0 {
        let rest = ips.drop_last();
        let before = new_ips(rest, held);
        new_ips_members(rest, held, ip);
        assert(ips.contains(ip) <==> rest.contains(ip) || ip == ips.last()) by {
            if rest.contains(ip) {
                let j = choose|j: int| 0 <= j < rest.len() && rest[j] == ip;
                assert(ips[j] == ip);
            }
            if ips.contains(ip) && ip != ips.last() {
                let j = choose|j: int| 0 <= j < ips.len() && ips[j] == ip;
                assert(rest[j] == ip);
            }
            assert(ips[ips.len() - 1] == ips.last());
        }
        let after = before.push(ips.last());
        assert(after.contains(ip) <==> before.contains(ip) || ip == ips.last()) by {
            if before.contains(ip) {
                let j = choose|j: int| 0 <= j < before.len() && before[j] == ip;
                assert(after[j] == ip);
            }
            assert(after[before.len() as int] == ips.last());
        }
    }
}

/// Registering a peer keeps the table well formed.
pub proof fn register_peer_keeps_wf(t: TableModel, id: u64, addr: SocketAddr, now_ms: u64)
    requires
        t.wf(),
        id < t.next_id,
    ensures
        t.register_peer(id, addr, now_ms).wf(),
{
    let u = t.register_peer(id, addr, now_ms);
    assert forall|i: u64| #[trigger] u.allocations.contains_key(i) implies u.indexed(i) by {
        assert(t.allocations.contains_key(i));
        assert(t.indexed(i));
    }
    assert forall|k: IpKey| #[trigger] u.by_permission.contains_key(k) implies u.issued(
        u.by_permission[k],
    ) by {
        assert(t.issued(t.by_permission[k]));
    }
}

proof fn without_member(ids: Seq<u64>, id: u64, x: u64)
    ensures
        without(ids, id).contains(x) <==> ids.contains(x) && x != id,
{
    filter_members(ids, other_than(id), x);
}

/// Leaving an identifier out of a list leaves the others, each still once.
pub proof fn without_members(ids: Seq<u64>, id: u64)
    requires
        ids.no_duplicates(),
    ensures
        without(ids, id).no_duplicates(),
        forall|i: u64| #[trigger] without(ids, id).contains(i) <==> ids.contains(i) && i != id,
    decreases ids.len(),
{
    assert forall|i: u64| #[trigger] without(ids, id).contains(i) <==> ids.contains(i) && i
        != id by {
        without_member(ids, id, i);
    }
    reveal(Seq::filter);
    if ids.len() > 0 {
        let rest = ids.drop_last();
        without_members(rest, id);
        let f = without(rest, id);
        if ids.last() != id {
            let g = f.push(ids.last());
            if f.contains(ids.last()) {
                let j = choose|j: int| 0 <= j < rest.len() && rest[j] == ids.last();
                assert(ids[j] == ids[ids.len() - 1]);
            }
            assert forall|i: int, j: int| 0 <= i < g.len() && 0 <= j < g.len() && i != j implies g[i]
                != g[j] by {
                if i == f.len() {
                    assert(f.contains(f[j]));
                } else if j == f.len() {
                    assert(f.contains(f[i]));
                }
            }
        }
    }
}

/// Leaving an identifier out twice is leaving it out once.
pub proof fn without_idempotent(ids: Seq<u64>, id: u64)
    ensures
        without(without(ids, id), id) == without(ids, id),
    decreases ids.len(),
{
    reveal(Seq::filter);
    if ids.len() > 0 {
        let rest = ids.drop_last();
        without_idempotent(rest, id);
        if ids.last() != id {
            let f = without(rest, id);
            assert(f.push(ids.last()).drop_last() =~= f);
        }
    }
}

/// Removing an allocation keeps the table well formed.
pub proof fn remove_keeps_wf(t: TableModel, id: u64)
    requires
        t.wf(),
    ensures
        t.remove(id).wf(),
{
    let u = t.remove(id);
    if t.allocations.contains_key(id) {
        let a = t.allocations[id];
        assert(t.indexed(id));
        assert forall|k: IpKey| #[trigger] u.by_permission.contains_key(k) implies u.issued(
            u.by_permission[k],
        ) by {
            assert(t.issued(t.by_permission[k]));
            without_members(t.by_permission[k], id);
            let f = u.by_permission[k];
            assert forall|i: int| 0 <= i < f.len() implies #[trigger] f[i] < u.next_id by {
                assert(f.contains(f[i]));
                let j = choose|j: int|
                    0 <= j < t.by_permission[k].len() && t.by_permission[k][j] == f[i];
                assert(t.by_permission[k][j] < t.next_id);
            }
        }
        assert forall|i: u64| #[trigger] u.allocations.contains_key(i) implies u.indexed(i) by {
            assert(t.allocations.contains_key(i));
            assert(t.indexed(i));
            let b = t.allocations[i];
            assert forall|q: IpAddr| #[trigger] b.permissions.contains(q) implies
                u.by_permission.contains_key(q.spec_key())
                && u.by_permission[q.spec_key()].contains(i) by {
                assert(t.issued(t.by_permission[q.spec_key()]));
                without_members(t.by_permission[q.spec_key()], id);
            }
        }
        assert forall|k: IpKey, i: u64|
            u.by_permission.contains_key(k) && #[trigger] u.by_permission[k].contains(i)
                && u.allocations.contains_key(i) implies has_ip_key(
            u.allocations[i].permissions,
            k,
        ) by {
            assert(t.issued(t.by_permission[k]));
            without_members(t.by_permission[k], id);
            assert(t.by_permission[k].contains(i));
        }
    }
}

/// Removing allocations one after the other keeps the table well formed, and
/// leaves exactly the others, unchanged.
pub proof fn remove_each_keeps_wf(t: TableModel, ids: Seq<u64>)
    requires
        t.wf(),
    ensures
        t.remove_each(ids).wf(),
        t.remove_each(ids).allocations == t.allocations.remove_keys(ids.to_set()),
        t.remove_each(ids).next_id == t.next_id,
    decreases ids.len(),
{
    if ids.len() == 0 {
        assert(t.allocations =~= t.allocations.remove_keys(ids.to_set()));
    } else {
        let rest = ids.drop_last();
        remove_each_keeps_wf(t, rest);
        remove_keeps_wf(t.remove_each(rest), ids.last());
        assert(ids.to_set() =~= rest.to_set().insert(ids.last())) by {
            assert forall|i: u64| ids.contains(i) <==> rest.contains(i) || i == ids.last() by {
                if rest.contains(i) {
                    let j = choose|j: int| 0 <= j < rest.len() && rest[j] == i;
                    assert(ids[j] == i);
                }
                if ids.contains(i) && i != ids.last() {
                    let j = choose|j: int| 0 <= j < ids.len() && ids[j] == i;
                    assert(rest[j] == i);
                }
                assert(ids[ids.len() - 1] == ids.last());
            }
        }
        assert(t.remove_each(ids).allocations =~= t.allocations.remove_keys(ids.to_set()));
    }
}

/// The allocation of a client is where its identifier says.
pub proof fn client_is_indexed(t: TableModel, src: SocketAddr)
    requires
        t.wf(),
    ensures
        t.client(src) is Some <==> t.is_client(src),
        t.client(src) matches Some(a) ==> t.allocations.get(a.id) == Some(a) && t.by_client.get(
            src.spec_key(),
        ) == Some(a.id) && a.client_addr == src && a.id < t.next_id && a.wf(),
{
    broadcast use crate::net::addr_key_injective;

    if t.by_client.contains_key(src.spec_key()) {
        let id = t.by_client[src.spec_key()];
        assert(t.indexed(id));
        assert(t.allocations[id].client_addr.spec_key() == src.spec_key());
    }
}

/// Removing the allocation of a client leaves no client at its address.
pub proof fn client_is_removed(t: TableModel, src: SocketAddr)
    requires
        t.wf(),
    ensures
        t.client(src) matches Some(a) ==> !t.remove(a.id).is_client(src),
{
    client_is_indexed(t, src);
}

/// No two allocations share a client address: the 5-tuple is unique.
pub proof fn client_addresses_are_unique(t: TableModel, a: u64, b: u64)
    requires
        t.wf(),
        t.allocations.contains_key(a),
        t.allocations.contains_key(b),
        t.allocations[a].client_addr == t.allocations[b].client_addr,
    ensures
        a == b,
{
    assert(t.indexed(a) && t.indexed(b));
}

/// No two allocations share an ICE ufrag.
pub proof fn ice_ufrags_are_unique(t: TableModel, a: u64, b: u64)
    requires
        t.wf(),
        t.allocations.contains_key(a),
        t.allocations.contains_key(b),
        t.allocations[a].ice_ufrag is Some,
        t.allocations[a].ice_ufrag == t.allocations[b].ice_ufrag,
    ensures
        a == b,
{
    assert(t.indexed(a) && t.indexed(b));
}

/// A client that asks for an allocation has one, and asking again gives the
/// same one and changes nothing.
pub proof fn create_or_get_is_idempotent(
    t: TableModel,
    client_addr: SocketAddr,
    username: Seq<char>,
    lifetime_secs: u32,
    txn: Seq<u8>,
    seed: Seq<u8>,
    now_ms: u64,
    username2: Seq<char>,
    lifetime2: u32,
    txn2: Seq<u8>,
    seed2: Seq<u8>,
    now2: u64,
)
    requires
        t.wf(),
    ensures
        ({
            let u = t.create_or_get(client_addr, username, lifetime_secs, txn, seed, now_ms);
            &&& u.client(client_addr) is Some
            &&& u.create_or_get(client_addr, username2, lifetime2, txn2, seed2, now2) == u
        }),
{
    if t.is_client(client_addr) {
        client_is_indexed(t, client_addr);
    }
}

/// A new allocation is found by its client's address, and every other client
/// keeps the allocation it had.
pub proof fn create_leaves_others(
    t: TableModel,
    client_addr: SocketAddr,
    username: Seq<char>,
    lifetime_secs: u32,
    txn: Seq<u8>,
    seed: Seq<u8>,
    now_ms: u64,
    other: SocketAddr,
)
    requires
        t.wf(),
        !t.is_client(client_addr),
        other != client_addr,
    ensures
        ({
            let u = t.create(client_addr, username, lifetime_secs, txn, seed, now_ms);
            &&& u.client(client_addr) == Some(
                AllocModel::fresh(
                    t.next_id,
                    client_addr,
                    username,
                    lifetime_secs,
                    txn,
                    seed,
                    now_ms,
                ),
            )
            &&& u.client(other) == t.client(other)
        }),
{
    broadcast use crate::net::addr_key_injective;

    assert(other.spec_key() != client_addr.spec_key());
    if t.is_client(other) {
        client_is_indexed(t, other);
    }
}

/// After an allocation is removed no index leads to it: not the address of its
/// client, not a ufrag, not the address of a peer, and not the list of any IP.
/// Removing it again changes nothing.
pub proof fn remove_leaves_no_trace(t: TableModel, id: u64)
    requires
        t.wf(),
        t.allocations.contains_key(id),
    ensures
        ({
            let u = t.remove(id);
            &&& !u.allocations.contains_key(id)
            &&& forall|k: AddrKey| #[trigger] u.by_client.contains_key(k) ==> u.by_client[k] != id
            &&& forall|n: Seq<char>| #[trigger] u.by_ufrag.contains_key(n) ==> u.by_ufrag[n] != id
            &&& forall|n: Seq<char>| #[trigger]
                u.by_ice_ufrag.contains_key(n) ==> u.by_ice_ufrag[n] != id
            &&& forall|p: (Seq<char>, Seq<char>)| #[trigger]
                u.by_ice_ufrag_pair.contains_key(p) ==> u.by_ice_ufrag_pair[p] != id
            &&& forall|k: AddrKey| #[trigger]
                u.by_peer_tuple.contains_key(k) ==> u.by_peer_tuple[k] != id
            &&& forall|ip: IpAddr| !(#[trigger] u.permitting(ip)).contains(id)
            &&& u.remove(id) == u
        }),
{
    let u = t.remove(id);
    let a = t.allocations[id];
    assert(t.indexed(id));
    assert forall|ip: IpAddr| !(#[trigger] u.permitting(ip)).contains(id) by {
        let k = ip.spec_key();
        if t.by_permission.contains_key(k) {
            assert(t.issued(t.by_permission[k]));
            without_members(t.by_permission[k], id);
            if t.by_permission[k].contains(id) {
                assert(has_ip_key(a.permissions, k));
            }
        }
    }
}

/// The list of an IP is exact: of the allocations that are there, it holds those
/// that permit the IP and no other.
pub proof fn listed_exactly_if_permitted(t: TableModel, id: u64, ip: IpAddr)
    requires
        t.wf(),
        t.allocations.contains_key(id),
    ensures
        t.permitting(ip).contains(id) <==> t.allocations[id].is_permitted(ip),
{
    broadcast use crate::net::ip_key_injective;

    assert(t.indexed(id));
    let k = ip.spec_key();
    let a = t.allocations[id];
    if t.permitting(ip).contains(id) {
        assert(t.by_permission[k].contains(id));
        assert(has_ip_key(a.permissions, k));
        let q = choose|q: IpAddr| #[trigger] a.permissions.contains(q) && q.spec_key() == k;
        assert(q == ip);
    }
    if a.is_permitted(ip) {
        assert(a.permissions.contains(ip));
    }
}

/// Removing an allocation leaves every other allocation as it was, and still
/// found by the address of its client and by its ICE ufrag.
pub proof fn remove_leaves_others(t: TableModel, id: u64, other: u64)
    requires
        t.wf(),
        t.allocations.contains_key(other),
        other != id,
    ensures
        ({
            let u = t.remove(id);
            let b = t.allocations[other];
            &&& u.allocations.get(other) == Some(b)
            &&& u.client(b.client_addr) == Some(b)
            &&& (b.ice_ufrag matches Some(n) ==> u.by_ice_ufrag.get(n) == Some(other))
        }),
{
    remove_keeps_wf(t, id);
    let u = t.remove(id);
    assert(u.allocations.contains_key(other));
    assert(u.indexed(other));
}

/// An ICE ufrag belongs to the first allocation that registered it: no later
/// registration, by whomever, changes who it leads to.
pub proof fn first_registration_holds(
    t: TableModel,
    owner: u64,
    ufrag: Seq<char>,
    id: u64,
    local: Seq<char>,
    remote: Seq<char>,
)
    requires
        t.by_ice_ufrag.get(ufrag) == Some(owner),
    ensures
        t.register_ice(id, local, remote).by_ice_ufrag.get(ufrag) == Some(owner),
        local == ufrag ==> t.register_ice(id, local, remote) == t,
{
}

/// An allocation that has registered ICE ufrags keeps them.
pub proof fn registered_ufrags_are_kept(
    t: TableModel,
    owner: u64,
    id: u64,
    local: Seq<char>,
    remote: Seq<char>,
)
    requires
        t.allocations.contains_key(owner),
        t.allocations[owner].ice_ufrag is Some,
    ensures
        t.register_ice(id, local, remote).allocations[owner] == t.allocations[owner],
{
}

/// ICE pairing works both ways: if one allocation mirrors the ufrags of
/// another, the other mirrors those of the one.
pub proof fn pairing_is_symmetric(t: TableModel, a: u64, b: u64)
    requires
        t.wf(),
        t.allocations.contains_key(a),
        t.allocations.contains_key(b),
        t.allocations[a].ice_ufrag is Some,
        t.allocations[b].ice_ufrag is Some,
    ensures
        t.ice_peers(
            t.allocations[a].ice_ufrag->0,
            t.allocations[a].ice_remote_ufrag->0,
        ).contains(b) <==> t.ice_peers(
            t.allocations[b].ice_ufrag->0,
            t.allocations[b].ice_remote_ufrag->0,
        ).contains(a),
{
    let (x, y) = (t.allocations[a], t.allocations[b]);
    if t.ice_peers(x.ice_ufrag->0, x.ice_remote_ufrag->0).contains(b) {
        mirror(t, a, b);
    }
    if t.ice_peers(y.ice_ufrag->0, y.ice_remote_ufrag->0).contains(a) {
        mirror(t, b, a);
    }
}

proof fn mirror(t: TableModel, a: u64, b: u64)
    requires
        t.wf(),
        t.allocations.contains_key(a),
        t.allocations.contains_key(b),
        t.allocations[a].ice_ufrag is Some,
        t.allocations[b].ice_ufrag is Some,
        t.ice_peers(
            t.allocations[a].ice_ufrag->0,
            t.allocations[a].ice_remote_ufrag->0,
        ).contains(b),
    ensures
        t.ice_peers(
            t.allocations[b].ice_ufrag->0,
            t.allocations[b].ice_remote_ufrag->0,
        ).contains(a),
{
    assert(t.indexed(a) && t.indexed(b));
    let local = t.allocations[a].ice_ufrag->0;
    let remote = t.allocations[a].ice_remote_ufrag->0;
    assert(t.by_ice_ufrag_pair.contains_key((remote, local)));
    assert(t.by_ice_ufrag_pair[(remote, local)] == b);
    assert(t.allocations[b].ice_ufrag == Some(remote));
    assert(t.allocations[b].ice_remote_ufrag == Some(local));
    let found = t.ice_peers(remote, local);
    assert(found[0] == a);
}

/// The ICE peer of a client is the one other client that has the ufrag it asked
/// for and asked for its own: there is at most one, and it is live.
pub proof fn ice_peer_is_unique(t: TableModel, local: Seq<char>, remote: Seq<char>)
    requires
        t.wf(),
    ensures
        t.ice_peers(local, remote).len() <= 1,
        forall|id: u64| #[trigger]
            t.ice_peers(local, remote).contains(id) <==> t.allocations.contains_key(id)
                && t.allocations[id].ice_ufrag == Some(remote)
                && t.allocations[id].ice_remote_ufrag == Some(local),
{
    let found = t.ice_peers(local, remote);
    assert forall|id: u64| #[trigger] found.contains(id) <==> t.allocations.contains_key(id)
        && t.allocations[id].ice_ufrag == Some(remote) && t.allocations[id].ice_remote_ufrag == Some(
        local,
    ) by {
        if t.allocations.contains_key(id) && t.allocations[id].ice_ufrag == Some(remote)
            && t.allocations[id].ice_remote_ufrag == Some(local) {
            assert(t.indexed(id));
            assert(found[0] == id);
        }
        if found.contains(id) {
            assert(t.by_ice_ufrag_pair.contains_key((remote, local)));
        }
    }
}

/// Permitting a list of addresses makes as many permissions more as there are
/// new addresses in it.
pub proof fn union_len(held: Set<IpAddr>, ips: Seq<IpAddr>)
    requires
        held.finite(),
    ensures
        held.union(ips.to_set()).finite(),
        held.union(ips.to_set()).len() == held.len() + new_ips(ips, held).len(),
    decreases ips.len(),
{
    if ips.len() == 0 {
        assert(held.union(ips.to_set()) =~= held);
    } else {
        let rest = ips.drop_last();
        union_len(held, rest);
        let before = held.union(rest.to_set());
        assert(held.union(ips.to_set()) =~= before.insert(ips.last())) by {
            assert forall|x: IpAddr| ips.contains(x) <==> rest.contains(x) || x == ips.last() by {
                if rest.contains(x) {
                    let j = choose|j: int| 0 <= j < rest.len() && rest[j] == x;
                    assert(ips[j] == x);
                }
                if ips.contains(x) && x != ips.last() {
                    let j = choose|j: int| 0 <= j < ips.len() && ips[j] == x;
                    assert(rest[j] == x);
                }
                assert(ips[ips.len() - 1] == ips.last());
            }
        }
        new_ips_members(rest, held, ips.last());
        if before.contains(ips.last()) {
            assert(before.insert(ips.last()) =~= before);
        }
    }
}

/// The cap on permissions holds: an allocation within its cap stays within it,
/// whatever is asked for, and a refused request changes nothing at all.
pub proof fn permission_cap_holds(t: TableModel, id: u64, ips: Seq<IpAddr>, cap: nat)
    requires
        t.allocations.contains_key(id),
        t.allocations[id].permissions.finite(),
        t.allocations[id].permissions.len() <= cap,
    ensures
        ({
            let u = t.add_permissions_capped(id, ips, cap);
            &&& u.allocations[id].permissions.finite()
            &&& u.allocations[id].permissions.len() <= cap
            &&& !t.fits_permissions(id, ips, cap) ==> u == t
            &&& t.fits_permissions(id, ips, cap) ==> u.allocations[id].permissions
                == t.allocations[id].permissions.union(ips.to_set())
        }),
{
    union_len(t.allocations[id].permissions, ips);
    if t.fits_permissions(id, ips, cap) {
        fitting_permissions_are_added(t, id, ips, cap);
    }
}

proof fn index_keeps_allocations(t: TableModel, ips: Seq<IpAddr>, id: u64)
    ensures
        ({
            let u = t.index_permissions(ips, id);
            u == (TableModel { by_permission: u.by_permission, ..t })
        }),
    decreases ips.len(),
{
    if ips.len() > 0 {
        index_keeps_allocations(t, ips.drop_last(), id);
    }
}

/// Permissions that fit are added to those that are held. But for the index of
/// permissions, nothing else changes.
pub proof fn fitting_permissions_are_added(t: TableModel, id: u64, ips: Seq<IpAddr>, cap: nat)
    requires
        t.fits_permissions(id, ips, cap),
    ensures
        ({
            let u = t.add_permissions_capped(id, ips, cap);
            let a = t.allocations[id];
            u == (TableModel {
                allocations: t.allocations.insert(
                    id,
                    AllocModel { permissions: a.permissions.union(ips.to_set()), ..a },
                ),
                by_permission: u.by_permission,
                ..t
            })
        }),
{
    let held = t.allocations[id].permissions;
    let m = t.modify(
        id,
        |a: AllocModel| AllocModel { permissions: a.permissions.union(ips.to_set()), ..a },
    );
    index_keeps_allocations(m, new_ips(ips, held), id);
}

/// Permissions that are held already can always be refreshed, even at the cap.
pub proof fn refresh_fits_at_cap(t: TableModel, id: u64, ips: Seq<IpAddr>, cap: nat)
    requires
        t.allocations.contains_key(id),
        t.allocations[id].permissions.len() <= cap,
        forall|i: int| 0 <= i < ips.len() ==> t.allocations[id].permissions.contains(#[trigger] ips[i]),
    ensures
        t.fits_permissions(id, ips, cap),
{
    let held = t.allocations[id].permissions;
    assert(held.union(ips.to_set()) =~= held);
}

/// A client that permits an IP is among those that traffic from this IP is for,
/// unless the peer's address is registered for another.
pub proof fn permitted_client_is_candidate(t: TableModel, id: u64, peer: SocketAddr)
    requires
        t.wf(),
        t.allocations.contains_key(id),
        t.allocations[id].is_permitted(peer.ip),
        !t.by_peer_tuple.contains_key(peer.spec_key()),
    ensures
        t.candidates(peer).contains(id),
{
    assert(t.indexed(id));
    assert(t.allocations[id].permissions.contains(peer.ip));
}

/// After a sweep no allocation is left that it was to remove, and all others
/// are as they were.
pub proof fn sweep_is_exact(
    t: TableModel,
    after: TableModel,
    ips: Seq<IpAddr>,
    p: spec_fn(AllocModel) -> bool,
)
    requires
        t.wf(),
        t.swept(after, ips, p),
    ensures
        after.wf(),
        after.next_id == t.next_id,
        forall|id: u64| #[trigger]
            after.allocations.contains_key(id) <==> t.allocations.contains_key(id) && !p(
                t.allocations[id],
            ),
        forall|id: u64|
            after.allocations.contains_key(id) ==> #[trigger] after.allocations[id]
                == t.allocations[id],
{
    let ids = choose|ids: Seq<u64>| #[trigger]
        t.lists(ids, p) && after == t.remove_each(ids) && ips == t.client_ips(ids);
    remove_each_keeps_wf(t, ids);
    assert forall|id: u64| #[trigger] after.allocations.contains_key(id) <==> t.allocations.contains_key(
        id,
    ) && !p(t.allocations[id]) by {
        assert(ids.to_set().contains(id) <==> ids.contains(id));
    }
}

} // verus!
