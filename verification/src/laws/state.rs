//! What the operations on the state of the server do to it.

use vstd::prelude::*;

use super::checks::may_claim;
use super::media::is_no_client;
use super::terms::{found_at, is_at};
use crate::accounting::cleanup_is_exact;
use crate::lookup::laws::{client_is_indexed, listed_exactly_if_permitted};
use crate::lookup::model::{AllocModel, TableModel};
use crate::lookup::rate_limit::{recent, LimiterModel, RateLimitError};
use crate::net::{IpAddr, SocketAddr};
use crate::relay::effect::{apply, EffectModel};
use crate::server::{cleaned_by, CleanupSteps};

verus! {

/// The table with the allocation `id` replaced.
pub open spec fn replaced(t: TableModel, id: u64, a: AllocModel) -> TableModel {
    TableModel { allocations: t.allocations.insert(id, a), ..t }
}

/// The effects record what happened with the allocation they name, and nothing else.
/// Traffic to a client is activity; traffic from it is activity, and the client was
/// heard of. Whether it reached anyone is known since the last success, or since the
/// first attempt if there was none.
pub proof fn effects_record(t: TableModel, id: u64, a: AllocModel, src: SocketAddr, now_ms: u64)
    requires
        t.wf(),
        is_at(t, id, a, src),
    ensures
        ({
            let heard = AllocModel { last_activity_ms: now_ms, last_received_ms: now_ms, ..a };
            &&& apply(t, EffectModel::Touch { id }, now_ms) == replaced(
                t,
                id,
                AllocModel { last_activity_ms: now_ms, ..a },
            )
            &&& apply(t, EffectModel::TouchReceived { id }, now_ms) == replaced(t, id, heard)
            &&& apply(
                t,
                EffectModel::TouchReceivedFrom { client: src, relayed: false },
                now_ms,
            ) == replaced(t, id, heard)
            &&& apply(
                t,
                EffectModel::TouchReceivedFrom { client: src, relayed: true },
                now_ms,
            ) == replaced(
                t,
                id,
                AllocModel { last_successful_relay_ms: now_ms, has_relay_attempt: true, ..heard },
            )
            &&& apply(t, EffectModel::TouchRelay { id, relayed: true }, now_ms) == replaced(
                t,
                id,
                AllocModel { last_successful_relay_ms: now_ms, has_relay_attempt: true, ..a },
            )
            &&& !a.has_relay_attempt ==> apply(
                t,
                EffectModel::TouchRelay { id, relayed: false },
                now_ms,
            ) == replaced(
                t,
                id,
                AllocModel { last_successful_relay_ms: now_ms, has_relay_attempt: true, ..a },
            )
            &&& a.has_relay_attempt ==> apply(
                t,
                EffectModel::TouchRelay { id, relayed: false },
                now_ms,
            ) == t
        }),
{
    found_at(t, id, a, src);
    assert(t.indexed(id));
    assert(t.allocations.insert(id, a) =~= t.allocations);
    let heard = AllocModel { last_activity_ms: now_ms, last_received_ms: now_ms, ..a };
    let both = AllocModel { last_successful_relay_ms: now_ms, has_relay_attempt: true, ..heard };
    assert(t.allocations.insert(id, heard).insert(id, both) =~= t.allocations.insert(id, both));
}

/// Sending changes nothing, and neither does an effect on an allocation that is gone.
pub proof fn effects_on_nobody_change_nothing(t: TableModel, e: EffectModel, now_ms: u64)
    requires
        t.wf(),
        match e {
            EffectModel::Send { .. } => true,
            EffectModel::Touch { id } => !t.allocations.contains_key(id),
            EffectModel::TouchReceived { id } => !t.allocations.contains_key(id),
            EffectModel::TouchReceivedFrom { client, .. } => is_no_client(t, client),
            EffectModel::TouchRelay { id, .. } => !t.allocations.contains_key(id),
        },
    ensures
        apply(t, e, now_ms) == t,
{
    if let EffectModel::TouchReceivedFrom { client, relayed } = e {
        if t.by_client.contains_key(client.spec_key()) {
            client_is_indexed(t, client);
            assert(t.allocations.contains_key(t.by_client[client.spec_key()]));
        }
    }
}

/// An allocation is over once its time has come, once its client was not heard of
/// for 45 seconds, or once it has tried to relay and reached nobody for as long.
pub open spec fn is_over(a: AllocModel, now_ms: u64) -> bool {
    ||| now_ms > a.expires_at_ms
    ||| now_ms - a.last_received_ms >= 45_000
    ||| a.has_relay_attempt && now_ms - a.last_successful_relay_ms >= 45_000
}

/// A cleanup removes the allocations that are over and keeps all others as they are.
pub proof fn cleanup_removes_what_is_over(
    s: CleanupSteps,
    t: TableModel,
    l: LimiterModel,
    t2: TableModel,
    l2: LimiterModel,
    now_ms: u64,
    now_ns: u128,
    id: u64,
)
    requires
        t.wf(),
        cleaned_by(s, t, l, t2, l2, now_ms, now_ns),
    ensures
        t2.allocations.contains_key(id) <==> t.allocations.contains_key(id) && !is_over(
            t.allocations[id],
            now_ms,
        ),
        t2.allocations.contains_key(id) ==> t2.allocations[id] == t.allocations[id],
{
    cleanup_is_exact(s, t, l, t2, l2, now_ms, now_ns);
    assert(t2.allocations.contains_key(id) ==> t2.allocations[id] == t.allocations[id]);
}

/// An allocation expires when its time has passed, and tells the whole seconds that
/// are left until then.
pub proof fn lifetime_is_told(a: AllocModel, now_ms: u64)
    ensures
        a.is_expired(now_ms) <==> now_ms > a.expires_at_ms,
        now_ms >= a.expires_at_ms ==> a.remaining_lifetime(now_ms) == 0,
        now_ms <= a.expires_at_ms && a.expires_at_ms - now_ms <= 4_000_000_000 ==> {
            let left = a.remaining_lifetime(now_ms);
            left * 1000 <= a.expires_at_ms - now_ms < left * 1000 + 1000
        },
{
}

/// A client that was heard of is inactive when it was not heard of again for as long
/// as the timeout says, and not before.
pub proof fn inactivity_is_silence(a: AllocModel, now_ms: u64, later_ms: u64, timeout_secs: u64)
    requires
        now_ms <= later_ms,
    ensures
        a.touch_received(now_ms).is_inactive(timeout_secs, later_ms) <==> later_ms - now_ms
            >= timeout_secs * 1000,
        a.touch(now_ms).is_inactive(timeout_secs, later_ms) == a.is_inactive(
            timeout_secs,
            later_ms,
        ),
{
}

/// A sender is orphaned when it has reached nobody for as long as the timeout says,
/// counted from its last success, or from its first attempt if it had none.
pub proof fn orphans_reach_nobody(a: AllocModel, now_ms: u64, later_ms: u64, timeout_secs: u64)
    requires
        now_ms <= later_ms,
    ensures
        a.touch_relay_success(now_ms).is_orphaned_sender(timeout_secs, later_ms) <==> later_ms
            - now_ms >= timeout_secs * 1000,
        !a.has_relay_attempt ==> (a.touch_relay_attempt(now_ms).is_orphaned_sender(
            timeout_secs,
            later_ms,
        ) <==> later_ms - now_ms >= timeout_secs * 1000),
        a.has_relay_attempt ==> a.touch_relay_attempt(now_ms) == a,
        !a.has_relay_attempt ==> !a.is_orphaned_sender(timeout_secs, later_ms),
{
}

/// Permitting an IP permits it, and no other.
pub proof fn permission_is_for_one_ip(a: AllocModel, ip: IpAddr, other: IpAddr)
    ensures
        a.add_permission(ip).is_permitted(other) <==> other == ip || a.is_permitted(other),
        a.add_permission(ip) == (AllocModel { permissions: a.permissions.insert(ip), ..a }),
{
}

/// An allocation is found by the address of its client, and by no other.
pub proof fn client_is_found(t: TableModel, id: u64, a: AllocModel, addr: SocketAddr)
    requires
        t.wf(),
        t.allocations.contains_key(id),
        t.allocations[id] == a,
    ensures
        t.client(addr) == Some(a) <==> a.client_addr == addr,
        t.is_client(addr) <==> !is_no_client(t, addr),
        a.client_addr == addr ==> t.source(addr) == Some(id),
        is_no_client(t, addr) ==> t.source(addr) == t.by_peer_tuple.get(addr.spec_key()),
{
    client_is_indexed(t, addr);
    if a.client_addr == addr {
        found_at(t, id, a, addr);
    }
    if t.is_client(addr) {
        assert(t.allocations.contains_key(t.by_client[addr.spec_key()]));
    }
    if !is_no_client(t, addr) {
        let x = choose|x: u64| #[trigger]
            t.allocations.contains_key(x) && t.allocations[x].client_addr == addr;
        found_at(t, x, t.allocations[x], addr);
    }
}

/// Permitting an IP in the table permits it for that allocation, and lists the
/// allocation with those that permit it. Nothing else changes.
pub proof fn permission_is_listed(t: TableModel, id: u64, a: AllocModel, ip: IpAddr)
    requires
        t.wf(),
        t.allocations.contains_key(id),
        t.allocations[id] == a,
    ensures
        ({
            let u = t.add_permission(id, ip);
            &&& u.allocations == t.allocations.insert(
                id,
                AllocModel { permissions: a.permissions.insert(ip), ..a },
            )
            &&& u.permitting(ip).contains(id)
            &&& forall|other: u64| #[trigger]
                t.permitting(ip).contains(other) ==> u.permitting(ip).contains(other)
            &&& forall|other: IpAddr|
                other != ip ==> #[trigger] u.permitting(other) == t.permitting(other)
            &&& u.by_client == t.by_client
            &&& u.by_peer_tuple == t.by_peer_tuple
            &&& u.by_ice_ufrag == t.by_ice_ufrag
            &&& u.next_id == t.next_id
        }),
{
    broadcast use crate::net::ip_key_injective;

    let u = t.add_permission(id, ip);
    let ids = t.permitting(ip);
    if !ids.contains(id) {
        assert(ids.push(id)[ids.len() as int] == id);
        assert forall|other: u64| #[trigger] ids.contains(other) implies ids.push(id).contains(
            other,
        ) by {
            let k = choose|k: int| 0 <= k < ids.len() && ids[k] == other;
            assert(ids.push(id)[k] == other);
        }
    }
    assert forall|other: IpAddr| other != ip implies #[trigger] u.permitting(other) == t.permitting(
        other,
    ) by {
        assert(other.spec_key() != ip.spec_key());
    }
}

/// The live allocations in the list for an IP are exactly those that permit it, each
/// once.
pub proof fn list_is_of_those_who_permit(t: TableModel, ip: IpAddr, id: u64)
    requires
        t.wf(),
        t.allocations.contains_key(id),
    ensures
        t.permitting(ip).contains(id) <==> t.allocations[id].permissions.contains(ip),
        t.permitting(ip).no_duplicates(),
{
    listed_exactly_if_permitted(t, id, ip);
    if t.by_permission.contains_key(ip.spec_key()) {
        assert(t.issued(t.by_permission[ip.spec_key()]));
    }
}

/// ICE ufrags are registered if the client has none and nobody has the one it claims.
/// It is then found by its own ufrag, and by the mirrored pair. Otherwise nothing
/// changes.
pub proof fn ufrags_are_registered(
    t: TableModel,
    id: u64,
    a: AllocModel,
    local: Seq<char>,
    remote: Seq<char>,
)
    requires
        t.wf(),
        t.allocations.contains_key(id),
        t.allocations[id] == a,
    ensures
        ({
            let u = t.register_ice(id, local, remote);
            &&& t.can_register(id, local) <==> may_claim(t, a, local)
            &&& may_claim(t, a, local) ==> {
                &&& u.allocations == t.allocations.insert(
                    id,
                    AllocModel { ice_ufrag: Some(local), ice_remote_ufrag: Some(remote), ..a },
                )
                &&& u.by_ice_ufrag.get(local) == Some(id)
                &&& u.ice_peers(remote, local) == seq![id]
            }
            &&& !may_claim(t, a, local) ==> u == t
        }),
{
    if t.by_ice_ufrag.contains_key(local) {
        assert(t.allocations.contains_key(t.by_ice_ufrag[local]));
    } else {
        assert forall|x: u64| #[trigger] t.allocations.contains_key(x) implies
            t.allocations[x].ice_ufrag != Some(local) by {
            assert(t.indexed(x));
        }
    }
}

/// Pairing marks the client with the receiver's ufrag, and nobody else; if there is
/// no such client, it does nothing.
pub proof fn pairing_marks_the_receiver(t: TableModel, sender: Seq<char>, receiver: Seq<char>)
    requires
        t.wf(),
    ensures
        forall|id: u64| #[trigger]
            t.allocations.contains_key(id) && t.allocations[id].ice_ufrag == Some(receiver)
                ==> t.set_pairing(sender, receiver) == replaced(
                t,
                id,
                AllocModel { paired_ufrag: Some(sender), ..t.allocations[id] },
            ),
        (forall|id: u64| #[trigger]
            t.allocations.contains_key(id) ==> t.allocations[id].ice_ufrag != Some(receiver))
            ==> t.set_pairing(sender, receiver) == t,
{
    assert forall|id: u64| #[trigger]
        t.allocations.contains_key(id) && t.allocations[id].ice_ufrag == Some(
            receiver,
        ) implies t.by_ice_ufrag.get(receiver) == Some(id) by {
        assert(t.indexed(id));
    }
    if t.by_ice_ufrag.contains_key(receiver) {
        assert(t.allocations.contains_key(t.by_ice_ufrag[receiver]));
    }
}

/// Registering the address of a peer leads from there to the allocation, which
/// remembers when. Nothing else changes.
pub proof fn peer_address_is_registered(
    t: TableModel,
    id: u64,
    a: AllocModel,
    peer: SocketAddr,
    now_ms: u64,
)
    requires
        t.allocations.contains_key(id),
        t.allocations[id] == a,
    ensures
        t.register_peer(id, peer, now_ms) == (TableModel {
            by_peer_tuple: t.by_peer_tuple.insert(peer.spec_key(), id),
            allocations: t.allocations.insert(
                id,
                AllocModel { known_peers: a.known_peers.insert(peer.spec_key(), now_ms), ..a },
            ),
            ..t
        }),
        t.register_peer(id, peer, now_ms).candidates(peer) == seq![id],
{
}

/// A new allocation is found by its client's address, by its ufrag and by its
/// identifier, which is the next one; it is the only thing that is new.
pub proof fn created_is_found(
    t: TableModel,
    client: SocketAddr,
    username: Seq<char>,
    lifetime_secs: u32,
    txn: Seq<u8>,
    seed: Seq<u8>,
    now_ms: u64,
)
    requires
        t.wf(),
        is_no_client(t, client),
        t.next_id < u64::MAX,
    ensures
        ({
            let u = t.create_or_get(client, username, lifetime_secs, txn, seed, now_ms);
            let a = u.allocations[t.next_id];
            &&& u.allocations == t.allocations.insert(t.next_id, a)
            &&& u.client(client) == Some(a)
            &&& u.by_ufrag.get(a.local_ufrag) == Some(t.next_id)
            &&& u.next_id == t.next_id + 1
            &&& a.client_addr == client
            &&& a.username == username
            &&& a.allocate_txn_id == txn
            &&& a.lifetime_secs == lifetime_secs
            &&& now_ms + lifetime_secs * 1000 <= u64::MAX ==> a.expires_at_ms == now_ms
                + lifetime_secs * 1000
            &&& a.last_received_ms == now_ms
            &&& !a.has_relay_attempt
            &&& a.local_ufrag.len() == seed.len()
        }),
{
    client_is_indexed(t, client);
    if t.is_client(client) {
        assert(t.allocations.contains_key(t.by_client[client.spec_key()]));
    }
}

/// Asking for an allocation where a client has one gives that one.
pub proof fn existing_is_kept(
    t: TableModel,
    id: u64,
    a: AllocModel,
    client: SocketAddr,
    username: Seq<char>,
    lifetime_secs: u32,
    txn: Seq<u8>,
    seed: Seq<u8>,
    now_ms: u64,
)
    requires
        t.wf(),
        is_at(t, id, a, client),
    ensures
        t.create_or_get(client, username, lifetime_secs, txn, seed, now_ms) == t,
{
    found_at(t, id, a, client);
}

/// How many of the times lie less than a minute before `now`, in nanoseconds.
pub open spec fn count_of_minute(times: Seq<u128>, now: u128) -> nat
    decreases times.len(),
{
    if times.len() == 0 {
        0
    } else {
        count_of_minute(times.drop_last(), now) + if now - times.last() < 60_000_000_000 {
            1nat
        } else {
            0nat
        }
    }
}

proof fn recent_is_counted(times: Seq<u128>, now: u128)
    ensures
        recent(times, now).len() == count_of_minute(times, now),
    decreases times.len(),
{
    reveal(Seq::filter);
    if times.len() > 0 {
        recent_is_counted(times.drop_last(), now);
    }
}

/// A request is refused for its rate exactly if there is a limit and as many of the
/// address were allowed in the last minute; else for the quota exactly if there is one
/// and the address has as many allocations. Otherwise it is allowed.
pub proof fn limits_decide(l: LimiterModel, ip: IpAddr, now: u128)
    ensures
        ({
            let times = if l.entries.contains_key(ip.spec_key()) {
                l.entries[ip.spec_key()].0
            } else {
                Seq::empty()
            };
            let count = if l.entries.contains_key(ip.spec_key()) {
                l.entries[ip.spec_key()].1
            } else {
                0
            };
            let is_too_fast = l.max_requests_per_minute != 0 && count_of_minute(times, now)
                >= l.max_requests_per_minute;
            let is_used_up = l.max_allocations_per_ip != 0 && count >= l.max_allocations_per_ip;
            &&& is_too_fast ==> l.check(ip, now) == Err::<(), RateLimitError>(
                RateLimitError::TooManyRequests,
            )
            &&& !is_too_fast && is_used_up ==> l.check(ip, now) == Err::<(), RateLimitError>(
                RateLimitError::QuotaExceeded,
            )
            &&& !is_too_fast && !is_used_up ==> l.check(ip, now) is Ok
        }),
{
    recent_is_counted(l.entry(ip).0, now);
}

/// An allowed request counts one more in the next minute, a refused one does not.
pub proof fn requests_count_for_a_minute(l: LimiterModel, ip: IpAddr, now: u128, later: u128)
    requires
        now <= later,
    ensures
        ({
            let after = l.after_check(ip, now);
            count_of_minute(after.entry(ip).0, later) == count_of_minute(l.entry(ip).0, later) + if l.check(
                ip,
                now,
            ) is Ok && later - now < 60_000_000_000 {
                1nat
            } else {
                0nat
            }
        }),
{
    let times = l.entry(ip).0;
    let kept = recent(times, now);
    kept_counts(times, now, later);
    assert(kept.push(now).drop_last() =~= kept);
}

proof fn kept_counts(times: Seq<u128>, now: u128, later: u128)
    requires
        now <= later,
    ensures
        count_of_minute(recent(times, now), later) == count_of_minute(times, later),
    decreases times.len(),
{
    reveal(Seq::filter);
    if times.len() > 0 {
        let rest = times.drop_last();
        kept_counts(rest, now, later);
        if now - times.last() < 60_000_000_000 {
            assert(recent(rest, now).push(times.last()).drop_last() =~= recent(rest, now));
        }
    }
}

/// A cleanup forgets the addresses that have no allocation and made no request in the
/// last minute, and of the others the requests that are older.
pub proof fn cleanup_forgets_stale_addresses(
    s: CleanupSteps,
    t: TableModel,
    l: LimiterModel,
    t2: TableModel,
    l2: LimiterModel,
    now_ms: u64,
    now_ns: u128,
    ip: IpAddr,
)
    requires
        cleaned_by(s, t, l, t2, l2, now_ms, now_ns),
        l2.entries.contains_key(ip.spec_key()),
    ensures
        ({
            let (times, count) = l2.entries[ip.spec_key()];
            &&& count > 0 || times.len() > 0
            &&& times.len() == count_of_minute(times, now_ns)
        }),
{
    let before = l.record_deallocations(s.expired_ips).record_deallocations(
        s.inactive_ips,
    ).record_deallocations(s.orphaned_ips);
    let times = before.entries[ip.spec_key()].0;
    kept_counts(times, now_ns, now_ns);
    recent_is_counted(times, now_ns);
}

} // verus!
