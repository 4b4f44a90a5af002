//! What holds of the server as a whole: its invariants, the quota and the caps.

use vstd::prelude::*;

use crate::config::Config;
use crate::demux::protocol::{packet_of, PacketModel};
use crate::demux::stun::{StunClass, StunMethod, StunModel};
use crate::lookup::laws::{
    add_permissions_capped_keeps_wf, client_is_indexed, fitting_permissions_are_added,
    remove_each_keeps_wf, remove_keeps_wf, sweep_is_exact, union_len,
};
use crate::lookup::model::{
    bind_channel_idempotent, expired_at, inactive_at, orphaned_at, AllocModel, TableModel,
};
use crate::lookup::rate_limit::LimiterModel;
use crate::net::{IpAddr, SocketAddr};
use crate::relay::effect::{apply, EffectModel};
use crate::relay::laws::{effect_keeps_wf, relaying_keeps_wf};
use crate::server::{cleaned_by, on_packet, CleanupSteps, INACTIVITY_TIMEOUT_SECS};
use crate::turn::laws::stun_keeps_table_wf;
use crate::turn::rules::{
    allocate_new, allocation_user, authenticate, authorize, bind_error, binding_conflicts, ips_of,
    on_stun, Draw,
};

verus! {

/// The allocations whose clients are at an IP.
pub open spec fn clients_at(t: TableModel, ip: IpAddr) -> Set<u64> {
    Set::new(
        |id: u64| t.allocations.contains_key(id) && t.allocations[id].client_addr.ip == ip,
    )
}

/// The rate limiter counts, for each IP, the allocations of its clients.
pub open spec fn accounted(t: TableModel, l: LimiterModel) -> bool {
    &&& t.allocations.dom().finite()
    &&& forall|ip: IpAddr| (#[trigger] l.entry(ip)).1 == clients_at(t, ip).len()
}

/// No IP has more allocations than the limit, if there is one.
pub open spec fn within_quota(t: TableModel, l: LimiterModel) -> bool {
    l.max_allocations_per_ip > 0 ==> forall|ip: IpAddr| (#[trigger] clients_at(t, ip)).len()
        <= l.max_allocations_per_ip
}

/// The books of a new server balance.
pub proof fn new_server_is_accounted(max_requests_per_minute: u32, max_allocations_per_ip: u32)
    ensures
        ({
            let l = LimiterModel {
                entries: Map::empty(),
                max_requests_per_minute,
                max_allocations_per_ip,
            };
            TableModel::empty().wf() && accounted(TableModel::empty(), l) && within_quota(
                TableModel::empty(),
                l,
            )
        }),
{
    let t = TableModel::empty();
    assert forall|ip: IpAddr| (#[trigger] clients_at(t, ip)).len() == 0 by {
        assert(clients_at(t, ip) =~= Set::empty());
    }
}

/// Whatever datagram arrives, the table stays well formed.
pub proof fn packet_keeps_table_wf(
    c: Config,
    data: Seq<u8>,
    src: SocketAddr,
    draw: Draw,
    t: TableModel,
    l: LimiterModel,
    now_ms: u64,
)
    requires
        t.wf(),
    ensures
        on_packet(c, data, src, draw, t, l, now_ms).table.wf(),
{
    match packet_of(data) {
        PacketModel::Stun(m) => {
            stun_keeps_table_wf(c, m, src, draw, t, l, now_ms);
        },
        PacketModel::TurnChannelData { channel, data: payload } => {
            relaying_keeps_wf(c, channel, payload, src, t, true, true, now_ms);
        },
        other => {
            relaying_keeps_wf(c, 0, data, src, t, other is Rtp, !(other is Dtls), now_ms);
        },
    }
}

/// Both tables have the same allocations for the same clients.
spec fn same_clients(t: TableModel, u: TableModel) -> bool {
    &&& u.allocations.dom() == t.allocations.dom()
    &&& forall|id: u64| #[trigger]
        t.allocations.contains_key(id) ==> u.allocations[id].client_addr
            == t.allocations[id].client_addr
}

/// Both limiters have the same counts.
spec fn same_counts(l: LimiterModel, k: LimiterModel) -> bool {
    &&& k.max_allocations_per_ip == l.max_allocations_per_ip
    &&& forall|ip: IpAddr| (#[trigger] k.entry(ip)).1 == l.entry(ip).1
}

proof fn unchanged_accounts(t: TableModel, l: LimiterModel, u: TableModel, k: LimiterModel)
    requires
        accounted(t, l),
        same_clients(t, u),
        same_counts(l, k),
    ensures
        accounted(u, k),
        within_quota(t, l) ==> within_quota(u, k),
{
    assert forall|ip: IpAddr| #[trigger] clients_at(u, ip) == clients_at(t, ip) by {
        assert(clients_at(u, ip) =~= clients_at(t, ip));
    }
}

proof fn removal_is_accounted(t: TableModel, l: LimiterModel, id: u64)
    requires
        accounted(t, l),
        t.allocations.contains_key(id),
    ensures
        ({
            let k = l.record_deallocation(t.allocations[id].client_addr.ip);
            &&& accounted(t.remove(id), k)
            &&& within_quota(t, l) ==> within_quota(t.remove(id), k)
        }),
{
    broadcast use crate::net::ip_key_injective;

    let u = t.remove(id);
    let home = t.allocations[id].client_addr.ip;
    let k = l.record_deallocation(home);
    assert forall|ip: IpAddr| (#[trigger] k.entry(ip)).1 == clients_at(u, ip).len() && clients_at(
        u,
        ip,
    ).len() <= clients_at(t, ip).len() by {
        assert(l.entry(ip).1 == clients_at(t, ip).len());
        vstd::set_lib::lemma_len_subset(clients_at(t, ip), t.allocations.dom());
        if ip == home {
            assert(clients_at(u, ip) =~= clients_at(t, ip).remove(id));
            assert(clients_at(t, ip).contains(id));
        } else {
            assert(clients_at(u, ip) =~= clients_at(t, ip));
        }
    }
    assert forall|ip: IpAddr| within_quota(t, l) && l.max_allocations_per_ip > 0 implies (
    #[trigger] clients_at(u, ip)).len() <= l.max_allocations_per_ip by {
        assert(k.entry(ip).1 == clients_at(u, ip).len());
        assert(clients_at(t, ip).len() <= l.max_allocations_per_ip);
    }
}

proof fn creation_is_accounted(
    t: TableModel,
    l: LimiterModel,
    src: SocketAddr,
    username: Seq<char>,
    txn: Seq<u8>,
    seed: Seq<u8>,
    now_ms: u64,
)
    requires
        t.wf(),
        accounted(t, l),
        l.entry(src.ip).1 < u32::MAX,
        l.max_allocations_per_ip > 0 ==> l.entry(src.ip).1 < l.max_allocations_per_ip,
    ensures
        ({
            let u = t.create(src, username, 60, txn, seed, now_ms);
            let k = l.record_allocation(src.ip);
            &&& accounted(u, k)
            &&& within_quota(t, l) ==> within_quota(u, k)
        }),
{
    broadcast use crate::net::ip_key_injective;

    let u = t.create(src, username, 60, txn, seed, now_ms);
    let k = l.record_allocation(src.ip);
    let id = t.next_id;
    assert(!t.allocations.contains_key(id)) by {
        if t.allocations.contains_key(id) {
            assert(t.indexed(id));
        }
    }
    assert(u.allocations.dom() =~= t.allocations.dom().insert(id));
    assert forall|ip: IpAddr| (#[trigger] k.entry(ip)).1 == clients_at(u, ip).len() by {
        assert(l.entry(ip).1 == clients_at(t, ip).len());
        vstd::set_lib::lemma_len_subset(clients_at(t, ip), t.allocations.dom());
        if ip == src.ip {
            assert(clients_at(u, ip) =~= clients_at(t, ip).insert(id));
            assert(!clients_at(t, ip).contains(id));
        } else {
            assert(clients_at(u, ip) =~= clients_at(t, ip));
        }
    }
    assert forall|ip: IpAddr| within_quota(t, l) && l.max_allocations_per_ip > 0 implies (
    #[trigger] clients_at(u, ip)).len() <= l.max_allocations_per_ip by {
        assert(k.entry(ip).1 == clients_at(u, ip).len());
        assert(l.entry(ip).1 == clients_at(t, ip).len());
        assert(ip != src.ip ==> ip.spec_key() != src.ip.spec_key());
    }
}

proof fn check_keeps_counts(l: LimiterModel, ip: IpAddr, now: u128)
    ensures
        same_counts(l, l.after_check(ip, now)),
{
    broadcast use crate::net::ip_key_injective;

}

proof fn allocate_new_is_accounted(
    c: Config,
    m: StunModel,
    src: SocketAddr,
    auth: Option<(Seq<char>, Seq<u8>)>,
    draw: Draw,
    t: TableModel,
    l: LimiterModel,
    now_ms: u64,
)
    requires
        t.wf(),
        accounted(t, l),
        l.entry(src.ip).1 < u32::MAX,
    ensures
        ({
            let o = allocate_new(c, m, src, auth, draw, t, l, now_ms);
            &&& accounted(o.table, o.limiter)
            &&& within_quota(t, l) ==> within_quota(o.table, o.limiter)
        }),
{
    let l1 = l.after_check(src.ip, draw.limiter_ns);
    check_keeps_counts(l, src.ip, draw.limiter_ns);
    unchanged_accounts(t, l, t, l1);
    if l.check(src.ip, draw.limiter_ns) is Ok {
        assert(l1.entry(src.ip).1 == l.entry(src.ip).1);
        creation_is_accounted(
            t,
            l1,
            src,
            allocation_user(m, auth),
            m.transaction_id,
            draw.seed@,
            now_ms,
        );
    }
}

proof fn stun_is_accounted(
    c: Config,
    m: StunModel,
    src: SocketAddr,
    draw: Draw,
    t: TableModel,
    l: LimiterModel,
    now_ms: u64,
)
    requires
        t.wf(),
        accounted(t, l),
        l.entry(src.ip).1 < u32::MAX,
    ensures
        ({
            let o = on_stun(c, m, src, draw, t, l, now_ms);
            &&& accounted(o.table, o.limiter)
            &&& within_quota(t, l) ==> within_quota(o.table, o.limiter)
        }),
{
    client_is_indexed(t, src);
    let o = on_stun(c, m, src, draw, t, l, now_ms);
    match (m.class, m.method) {
        (StunClass::Request, StunMethod::Allocate) => {
            if let Ok(auth) = authenticate(c, m, draw.unix_secs) {
                match t.client(src) {
                    None => {
                        allocate_new_is_accounted(c, m, src, auth, draw, t, l, now_ms);
                    },
                    Some(a) => {
                        if a.is_expired(now_ms) {
                            let k = l.record_deallocation(src.ip);
                            removal_is_accounted(t, l, a.id);
                            remove_keeps_wf(t, a.id);
                            allocate_new_is_accounted(
                                c,
                                m,
                                src,
                                auth,
                                draw,
                                t.remove(a.id),
                                k,
                                now_ms,
                            );
                        }
                    },
                }
            }
        },
        (StunClass::Request, StunMethod::Refresh) => {
            if let Ok((id, _)) = authorize(c, m, src, t, draw.unix_secs) {
                if m.lifetime == Some(0u32) {
                    removal_is_accounted(t, l, id);
                } else {
                    assert(same_clients(t, o.table)) by {
                        assert(o.table.allocations.dom() =~= t.allocations.dom());
                    }
                    unchanged_accounts(t, l, o.table, l);
                }
            }
        },
        (StunClass::Request, StunMethod::CreatePermission) => {
            if let Ok((id, _)) = authorize(c, m, src, t, draw.unix_secs) {
                let t1 = t.touch_received(id, now_ms);
                let ips = ips_of(m.xor_peer_addresses);
                let cap = c.max_permissions_per_alloc as nat;
                if t1.fits_permissions(id, ips, cap) {
                    fitting_permissions_are_added(t1, id, ips, cap);
                }
            }
            assert(same_clients(t, o.table)) by {
                assert(o.table.allocations.dom() =~= t.allocations.dom());
            }
            unchanged_accounts(t, l, o.table, l);
        },
        (StunClass::Request, StunMethod::ChannelBind) => {
            if let Ok((id, _)) = authorize(c, m, src, t, draw.unix_secs) {
                let ips = seq![m.xor_peer_addresses[0].ip];
                let cap = c.max_permissions_per_alloc as nat;
                if t.fits_permissions(id, ips, cap) {
                    fitting_permissions_are_added(t, id, ips, cap);
                }
            }
            assert(same_clients(t, o.table)) by {
                assert(o.table.allocations.dom() =~= t.allocations.dom());
            }
            unchanged_accounts(t, l, o.table, l);
        },
        _ => {
            assert(same_clients(t, o.table)) by {
                assert(o.table.allocations.dom() =~= t.allocations.dom());
            }
            unchanged_accounts(t, l, o.table, l);
        },
    }
}

/// The books balance: if the rate limiter counts the allocations of every IP
/// before a datagram is handled, it does so afterwards. And no IP ever gets more
/// allocations than the limit. (A count at the largest number cannot grow.)
pub proof fn packet_is_accounted(
    c: Config,
    data: Seq<u8>,
    src: SocketAddr,
    draw: Draw,
    t: TableModel,
    l: LimiterModel,
    now_ms: u64,
)
    requires
        t.wf(),
        accounted(t, l),
        l.entry(src.ip).1 < u32::MAX,
    ensures
        ({
            let o = on_packet(c, data, src, draw, t, l, now_ms);
            &&& accounted(o.table, o.limiter)
            &&& within_quota(t, l) ==> within_quota(o.table, o.limiter)
        }),
{
    let o = on_packet(c, data, src, draw, t, l, now_ms);
    match packet_of(data) {
        PacketModel::Stun(m) => {
            stun_is_accounted(c, m, src, draw, t, l, now_ms);
        },
        _ => {
            assert(same_clients(t, o.table)) by {
                assert(o.table.allocations.dom() =~= t.allocations.dom());
            }
            unchanged_accounts(t, l, o.table, l);
        },
    }
}

/// Carrying out an effect leaves the books as they are.
pub proof fn effect_is_accounted(t: TableModel, l: LimiterModel, e: EffectModel, now_ms: u64)
    requires
        t.wf(),
        accounted(t, l),
    ensures
        accounted(apply(t, e, now_ms), l),
        within_quota(t, l) ==> within_quota(apply(t, e, now_ms), l),
{
    effect_keeps_wf(t, e, now_ms);
    unchanged_accounts(t, l, apply(t, e, now_ms), l);
}

proof fn removals_are_accounted(t: TableModel, l: LimiterModel, ids: Seq<u64>)
    requires
        t.wf(),
        accounted(t, l),
        ids.no_duplicates(),
        forall|i: int| 0 <= i < ids.len() ==> t.allocations.contains_key(#[trigger] ids[i]),
    ensures
        accounted(t.remove_each(ids), l.record_deallocations(t.client_ips(ids))),
        within_quota(t, l) ==> within_quota(
            t.remove_each(ids),
            l.record_deallocations(t.client_ips(ids)),
        ),
        l.record_deallocations(t.client_ips(ids)).max_allocations_per_ip == l.max_allocations_per_ip,
    decreases ids.len(),
{
    if ids.len() > 0 {
        let rest = ids.drop_last();
        let id = ids.last();
        assert forall|i: int| 0 <= i < rest.len() implies t.allocations.contains_key(
            #[trigger] rest[i],
        ) by {
            assert(rest[i] == ids[i]);
        }
        removals_are_accounted(t, l, rest);
        remove_each_keeps_wf(t, rest);
        assert(ids[ids.len() - 1] == id);
        assert(!rest.contains(id)) by {
            if rest.contains(id) {
                let j = choose|j: int| 0 <= j < rest.len() && rest[j] == id;
                assert(ids[j] == ids[ids.len() - 1]);
            }
        }
        let u = t.remove_each(rest);
        assert(u.allocations.contains_key(id) && u.allocations[id] == t.allocations[id]);
        assert(t.client_ips(ids).drop_last() =~= t.client_ips(rest));
        removal_is_accounted(u, l.record_deallocations(t.client_ips(rest)), id);
    }
}

proof fn sweep_is_accounted(
    t: TableModel,
    l: LimiterModel,
    after: TableModel,
    ips: Seq<IpAddr>,
    p: spec_fn(AllocModel) -> bool,
)
    requires
        t.wf(),
        accounted(t, l),
        t.swept(after, ips, p),
    ensures
        after.wf(),
        accounted(after, l.record_deallocations(ips)),
        within_quota(t, l) ==> within_quota(after, l.record_deallocations(ips)),
{
    let ids = choose|ids: Seq<u64>| #[trigger]
        t.lists(ids, p) && after == t.remove_each(ids) && ips == t.client_ips(ids);
    assert forall|i: int| 0 <= i < ids.len() implies t.allocations.contains_key(
        #[trigger] ids[i],
    ) by {
        assert(ids.contains(ids[i]));
    }
    removals_are_accounted(t, l, ids);
    remove_each_keeps_wf(t, ids);
}

/// A cleanup removes exactly the allocations that have expired, have been
/// inactive or have had nobody to relay to for too long. All others are as they
/// were, and the table stays well formed.
pub proof fn cleanup_is_exact(
    s: CleanupSteps,
    t: TableModel,
    l: LimiterModel,
    t2: TableModel,
    l2: LimiterModel,
    now_ms: u64,
    now_ns: u128,
)
    requires
        t.wf(),
        cleaned_by(s, t, l, t2, l2, now_ms, now_ns),
    ensures
        t2.wf(),
        forall|id: u64| #[trigger]
            t2.allocations.contains_key(id) <==> t.allocations.contains_key(id)
                && !t.allocations[id].is_expired(now_ms) && !t.allocations[id].is_inactive(
                INACTIVITY_TIMEOUT_SECS,
                now_ms,
            ) && !t.allocations[id].is_orphaned_sender(INACTIVITY_TIMEOUT_SECS, now_ms),
        forall|id: u64|
            t2.allocations.contains_key(id) ==> #[trigger] t2.allocations[id] == t.allocations[id],
{
    sweep_is_exact(t, s.unexpired, s.expired_ips, expired_at(now_ms));
    sweep_is_exact(s.unexpired, s.active, s.inactive_ips, inactive_at(INACTIVITY_TIMEOUT_SECS, now_ms));
    sweep_is_exact(s.active, t2, s.orphaned_ips, orphaned_at(INACTIVITY_TIMEOUT_SECS, now_ms));
}

/// A cleanup keeps the books balanced: it releases the quota of what it removes.
pub proof fn cleanup_is_accounted(
    s: CleanupSteps,
    t: TableModel,
    l: LimiterModel,
    t2: TableModel,
    l2: LimiterModel,
    now_ms: u64,
    now_ns: u128,
)
    requires
        t.wf(),
        accounted(t, l),
        cleaned_by(s, t, l, t2, l2, now_ms, now_ns),
    ensures
        accounted(t2, l2),
        within_quota(t, l) ==> within_quota(t2, l2),
{
    let l1 = l.record_deallocations(s.expired_ips);
    let l3 = l1.record_deallocations(s.inactive_ips);
    let l4 = l3.record_deallocations(s.orphaned_ips);
    sweep_is_accounted(t, l, s.unexpired, s.expired_ips, expired_at(now_ms));
    sweep_is_accounted(s.unexpired, l1, s.active, s.inactive_ips, inactive_at(INACTIVITY_TIMEOUT_SECS, now_ms));
    sweep_is_accounted(s.active, l3, t2, s.orphaned_ips, orphaned_at(INACTIVITY_TIMEOUT_SECS, now_ms));
    unchanged_accounts(t2, l4, t2, l2);
}

/// An allocation is within its caps: it permits no more IPs than it may, apart
/// from the relay's own, and has bound no more channels than it may.
pub open spec fn is_capped(c: Config, a: AllocModel) -> bool {
    &&& a.permissions.finite()
    &&& a.permissions.remove(c.external_ip).len() <= c.max_permissions_per_alloc
    &&& a.channels.dom().finite()
    &&& a.channels.len() <= c.max_channels_per_alloc
}

/// Every allocation is within its caps.
pub open spec fn within_caps(c: Config, t: TableModel) -> bool {
    forall|id: u64| #[trigger] t.allocations.contains_key(id) ==> is_capped(c, t.allocations[id])
}

/// Every allocation of `u` permits and has bound what it did in `t`.
spec fn same_holdings(t: TableModel, u: TableModel) -> bool {
    forall|id: u64| #[trigger]
        u.allocations.contains_key(id) ==> t.allocations.contains_key(id)
            && u.allocations[id].permissions == t.allocations[id].permissions
            && u.allocations[id].channels == t.allocations[id].channels
}

proof fn same_holdings_keep_caps(c: Config, t: TableModel, u: TableModel)
    requires
        within_caps(c, t),
        same_holdings(t, u),
    ensures
        within_caps(c, u),
{
}

proof fn added_permissions_keep_caps(c: Config, t: TableModel, id: u64, ips: Seq<IpAddr>)
    requires
        within_caps(c, t),
    ensures
        within_caps(c, t.add_permissions_capped(id, ips, c.max_permissions_per_alloc as nat)),
{
    let cap = c.max_permissions_per_alloc as nat;
    if t.fits_permissions(id, ips, cap) {
        fitting_permissions_are_added(t, id, ips, cap);
        union_len(t.allocations[id].permissions, ips);
        let held = t.add_permissions_capped(id, ips, cap).allocations[id].permissions;
        vstd::set_lib::lemma_len_subset(held.remove(c.external_ip), held);
    }
}

proof fn binding_keeps_caps(c: Config, t: TableModel, id: u64, channel: u16, peer: SocketAddr)
    requires
        t.wf(),
        within_caps(c, t),
        t.allocations.contains_key(id),
        !binding_conflicts(t.allocations[id], channel, peer),
        t.allocations[id].peer_for_channel(channel) is None ==> t.allocations[id].channels.len()
            < c.max_channels_per_alloc,
    ensures
        within_caps(c, t.bind_channel(id, channel, peer)),
{
    let a = t.allocations[id];
    let b = a.bind_channel(channel, peer);
    assert(t.indexed(id));
    if a.peer_for_channel(channel) is Some {
        bind_channel_idempotent(a, channel, peer);
    } else {
        if a.channels_reverse.contains_key(peer.spec_key()) {
            assert(a.channels.contains_key(a.channels_reverse[peer.spec_key()] as u16));
        }
        assert(b.channels.dom() =~= a.channels.dom().insert(channel));
    }
}

/// Whatever datagram arrives, every allocation stays within its caps.
pub proof fn packet_keeps_caps(
    c: Config,
    data: Seq<u8>,
    src: SocketAddr,
    draw: Draw,
    t: TableModel,
    l: LimiterModel,
    now_ms: u64,
)
    requires
        t.wf(),
        within_caps(c, t),
    ensures
        within_caps(c, on_packet(c, data, src, draw, t, l, now_ms).table),
{
    let u = on_packet(c, data, src, draw, t, l, now_ms).table;
    match packet_of(data) {
        PacketModel::Stun(m) => {
            stun_keeps_caps(c, m, src, draw, t, l, now_ms);
        },
        _ => {
            same_holdings_keep_caps(c, t, u);
        },
    }
}

proof fn stun_keeps_caps(
    c: Config,
    m: StunModel,
    src: SocketAddr,
    draw: Draw,
    t: TableModel,
    l: LimiterModel,
    now_ms: u64,
)
    requires
        t.wf(),
        within_caps(c, t),
    ensures
        within_caps(c, on_stun(c, m, src, draw, t, l, now_ms).table),
{
    client_is_indexed(t, src);
    let u = on_stun(c, m, src, draw, t, l, now_ms).table;
    match (m.class, m.method) {
        (StunClass::Request, StunMethod::Binding) => {
            if let Some(a) = t.client(src) {
                let ext = c.external_ip;
                assert(a.permissions.insert(ext).remove(ext) =~= a.permissions.remove(ext));
                assert forall|id: u64| #[trigger] u.allocations.contains_key(id) implies is_capped(
                    c,
                    u.allocations[id],
                ) by {
                    assert(t.allocations.contains_key(id));
                }
            }
        },
        (StunClass::Request, StunMethod::Allocate) => {
            assert forall|id: u64| #[trigger] u.allocations.contains_key(id) implies is_capped(
                c,
                u.allocations[id],
            ) by {
                if t.allocations.contains_key(id) && u.allocations[id] == t.allocations[id] {
                } else {
                    let b = u.allocations[id];
                    assert(b.permissions == Set::<IpAddr>::empty());
                    assert(b.permissions.remove(c.external_ip) =~= Set::<IpAddr>::empty());
                    assert(b.channels == Map::<u16, SocketAddr>::empty());
                    assert(b.channels.dom() =~= Set::<u16>::empty());
                }
            }
        },
        (StunClass::Request, StunMethod::CreatePermission) => {
            if let Ok((id, _)) = authorize(c, m, src, t, draw.unix_secs) {
                let t1 = t.touch_received(id, now_ms);
                same_holdings_keep_caps(c, t, t1);
                added_permissions_keep_caps(c, t1, id, ips_of(m.xor_peer_addresses));
            }
        },
        (StunClass::Request, StunMethod::ChannelBind) => {
            if m.channel_number is Some && m.xor_peer_addresses.len() > 0 {
                if let Ok((id, _)) = authorize(c, m, src, t, draw.unix_secs) {
                    let channel = m.channel_number->0;
                    let peer = m.xor_peer_addresses[0];
                    let ips = seq![peer.ip];
                    let cap = c.max_permissions_per_alloc as nat;
                    if bind_error(c, t, id, channel, peer) is None {
                        let t1 = t.add_permissions_capped(id, ips, cap);
                        fitting_permissions_are_added(t, id, ips, cap);
                        added_permissions_keep_caps(c, t, id, ips);
                        add_permissions_capped_keeps_wf(t, id, ips, cap);
                        binding_keeps_caps(c, t1, id, channel, peer);
                        same_holdings_keep_caps(c, t1.bind_channel(id, channel, peer), u);
                    }
                }
            }
        },
        _ => {
            same_holdings_keep_caps(c, t, u);
        },
    }
}

/// Neither an effect nor a cleanup takes an allocation out of its caps.
pub proof fn upkeep_keeps_caps(
    c: Config,
    t: TableModel,
    e: EffectModel,
    s: CleanupSteps,
    l: LimiterModel,
    t2: TableModel,
    l2: LimiterModel,
    now_ms: u64,
    now_ns: u128,
)
    requires
        t.wf(),
        within_caps(c, t),
    ensures
        within_caps(c, apply(t, e, now_ms)),
        cleaned_by(s, t, l, t2, l2, now_ms, now_ns) ==> within_caps(c, t2),
{
    effect_keeps_wf(t, e, now_ms);
    same_holdings_keep_caps(c, t, apply(t, e, now_ms));
    if cleaned_by(s, t, l, t2, l2, now_ms, now_ns) {
        cleanup_is_exact(s, t, l, t2, l2, now_ms, now_ns);
        same_holdings_keep_caps(c, t, t2);
    }
}

} // verus!
