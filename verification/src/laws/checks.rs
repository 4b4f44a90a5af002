//! Who is owed what is relayed: Binding requests, responses, and what is ignored.

use vstd::prelude::*;

use super::media::is_no_client;
use super::terms::{
    found_at, has_attribute, is_at, is_message, is_reply, named_pair, names, other_is_listed,
    relay_of, sends_at,
};
use crate::config::Config;
use crate::demux::stun::{xor_address_of, StunClass, StunMethod, StunModel};
use crate::lookup::laws::{
    add_permission_keeps_wf, client_is_indexed, listed_exactly_if_permitted, modify_keeps_wf,
    register_ice_keeps_wf,
};
use crate::lookup::model::{AllocModel, TableModel};
use crate::lookup::rate_limit::LimiterModel;
use crate::net::SocketAddr;
use crate::relay::effect::{reply, send_to, DatagramModel, EffectModel};
use crate::relay::laws::{are_paired, sends};
use crate::server::on_packet;
use crate::turn::encode::{attribute, xor_value, ATTR_XOR_MAPPED_ADDRESS, BINDING_SUCCESS};
use crate::turn::rules::{
    binding_response, ice_target, learn_ufrags, on_binding, other_clients, send_to_all, Draw,
};
use crate::turn::wire_laws::{address_round_trip, message_parses, octet_count};

verus! {

/// A Binding request from an address without an allocation is answered with that
/// address, under the transaction id of the request, and changes nothing.
pub proof fn binding_tells_the_source(
    c: Config,
    data: Seq<u8>,
    src: SocketAddr,
    draw: Draw,
    t: TableModel,
    l: LimiterModel,
    now_ms: u64,
    m: StunModel,
)
    requires
        t.wf(),
        is_message(data, m, StunClass::Request, StunMethod::Binding),
        is_no_client(t, src),
    ensures
        ({
            let o = on_packet(c, data, src, draw, t, l, now_ms);
            &&& o.table == t
            &&& o.limiter == l
            &&& exists|bytes: Seq<u8>, value: Seq<u8>|
                {
                    &&& o.effects == seq![
                        EffectModel::Send { to: seq![src], datagram: DatagramModel::Raw(bytes) },
                    ]
                    &&& is_reply(bytes, 0x0101, data.subrange(8, 20))
                    &&& #[trigger] has_attribute(bytes, 20, 0x0020, value)
                    &&& xor_address_of(value, data.subrange(8, 20)) == Some(
                        SocketAddr { ip: src.ip, port: src.port, flow_info: 0, scope_id: 0 },
                    )
                }
        }),
{
    client_is_indexed(t, src);
    if let Some(a) = t.client(src) {
        assert(t.allocations.contains_key(a.id));
    }
    let txn = data.subrange(8, 20);
    assert(m.transaction_id == txn);
    let bytes = binding_response(m, src);
    let plain = SocketAddr { ip: src.ip, port: src.port, flow_info: 0, scope_id: 0 };
    let value = xor_value(src, txn);
    octet_count(src.ip);
    assert(xor_value(src, txn) == xor_value(plain, txn));
    address_round_trip(plain, txn);
    let attrs = attribute(ATTR_XOR_MAPPED_ADDRESS, value);
    message_parses(BINDING_SUCCESS, txn, attrs);
    super::terms::reply_of(BINDING_SUCCESS, txn, attrs);
    super::terms::first_attribute(
        BINDING_SUCCESS,
        txn,
        ATTR_XOR_MAPPED_ADDRESS,
        value,
        Seq::empty(),
    );
    assert(attrs + Seq::<u8>::empty() =~= attrs);
    assert(on_binding(c, m, src, t, now_ms).effects == reply(src, bytes));
    assert(has_attribute(bytes, 20, 0x0020, value));
}

/// Whether nobody has the ufrag, and the client of `a` has none yet.
pub open spec fn may_claim(t: TableModel, a: AllocModel, ufrag: Seq<char>) -> bool {
    a.ice_ufrag is None && forall|x: u64| #[trigger]
        t.allocations.contains_key(x) ==> t.allocations[x].ice_ufrag != Some(ufrag)
}

/// A Binding request from a client is never answered by the server. It counts as
/// traffic from the client, permits the relay, and registers the ufrags that it
/// names if they are free. Nothing else of any allocation changes.
pub proof fn binding_registers_the_client(
    c: Config,
    data: Seq<u8>,
    src: SocketAddr,
    draw: Draw,
    t: TableModel,
    l: LimiterModel,
    now_ms: u64,
    m: StunModel,
    id: u64,
    a: AllocModel,
)
    requires
        t.wf(),
        is_message(data, m, StunClass::Request, StunMethod::Binding),
        is_at(t, id, a, src),
    ensures
        ({
            let o = on_packet(c, data, src, draw, t, l, now_ms);
            let seen = AllocModel {
                permissions: a.permissions.insert(c.external_ip),
                last_activity_ms: now_ms,
                last_received_ms: now_ms,
                ..a
            };
            &&& o.limiter == l
            &&& o.table.wf()
            &&& forall|remote: Seq<char>, local: Seq<char>| #[trigger]
                names(m, remote, local) && may_claim(t, a, local) ==> o.table.allocations
                    == t.allocations.insert(
                    id,
                    AllocModel { ice_ufrag: Some(local), ice_remote_ufrag: Some(remote), ..seen },
                )
            &&& (forall|remote: Seq<char>, local: Seq<char>| #[trigger]
                names(m, remote, local) ==> !may_claim(t, a, local)) ==> o.table.allocations
                == t.allocations.insert(id, seen)
        }),
{
    found_at(t, id, a, src);
    let o = on_packet(c, data, src, draw, t, l, now_ms);
    assert(o.table == on_binding(c, m, src, t, now_ms).table);
    let pair = m.ice_username();
    let t1 = learn_ufrags(t, id, pair);
    if let Some((remote, local)) = pair {
        named_pair(m, remote, local);
        claim_is_free(t, id, a, local);
        register_ice_keeps_wf(t, id, local, remote);
    }
    let t2 = if a.permissions.contains(c.external_ip) {
        t1
    } else {
        t1.add_permission(id, c.external_ip)
    };
    if !a.permissions.contains(c.external_ip) {
        add_permission_keeps_wf(t1, id, c.external_ip);
    }
    modify_keeps_wf(t2, id, |x: AllocModel| x.touch_received(now_ms));
    assert(t1.allocations[id].permissions == a.permissions);
    assert(t2.allocations[id].permissions =~= a.permissions.insert(c.external_ip));
    assert(o.table.allocations == t2.allocations.insert(
        id,
        t2.allocations[id].touch_received(now_ms),
    ));
    assert(o.table.allocations =~= t.allocations.insert(
        id,
        AllocModel {
            permissions: a.permissions.insert(c.external_ip),
            ..t1.allocations[id]
        }.touch_received(now_ms),
    ));
    assert forall|remote: Seq<char>, local: Seq<char>| #[trigger]
        names(m, remote, local) && may_claim(t, a, local) implies pair == Some((remote, local)) by {
        named_pair(m, remote, local);
    }
}

proof fn claim_is_free(t: TableModel, id: u64, a: AllocModel, local: Seq<char>)
    requires
        t.wf(),
        t.allocations.contains_key(id),
        t.allocations[id] == a,
    ensures
        t.can_register(id, local) <==> may_claim(t, a, local),
{
    if t.by_ice_ufrag.contains_key(local) {
        assert(t.allocations.contains_key(t.by_ice_ufrag[local]));
    } else {
        assert forall|x: u64| #[trigger] t.allocations.contains_key(x) implies
            t.allocations[x].ice_ufrag != Some(local) by {
            assert(t.indexed(x));
        }
    }
}

/// An ICE check that a client sends to the relay is delivered, as it is and in an
/// indication from the relay, to the client whose ufrag it names, if that one
/// permits the relay. It goes nowhere else.
pub proof fn binding_is_delivered(
    c: Config,
    data: Seq<u8>,
    src: SocketAddr,
    draw: Draw,
    t: TableModel,
    l: LimiterModel,
    now_ms: u64,
    m: StunModel,
    id: u64,
    a: AllocModel,
)
    requires
        t.wf(),
        is_message(data, m, StunClass::Request, StunMethod::Binding),
        is_at(t, id, a, src),
    ensures
        ({
            let o = on_packet(c, data, src, draw, t, l, now_ms);
            let d = DatagramModel::DataIndication { source: relay_of(c), data };
            &&& forall|remote: Seq<char>, local: Seq<char>, other: u64, b: AllocModel|
                #![trigger names(m, remote, local), is_at(t, other, b, b.client_addr)]
                names(m, remote, local) && is_at(t, other, b, b.client_addr) && b.client_addr != src
                    && b.ice_ufrag == Some(remote) && b.permissions.contains(c.external_ip)
                    ==> o.effects == seq![
                    EffectModel::Send { to: seq![b.client_addr], datagram: d },
                ]
            &&& o.effects.len() == 0 || exists|addr: SocketAddr| #[trigger]
                sends(o.effects, addr, d)
            &&& forall|addr: SocketAddr, x: DatagramModel| #[trigger]
                sends(o.effects, addr, x) ==> addr != src && x == d && (t.client(addr) matches Some(
                    b,
                ) && b.client_addr == addr && b.permissions.contains(c.external_ip) && exists|
                    remote: Seq<char>,
                    local: Seq<char>,
                |
                    #[trigger] names(m, remote, local) && b.ice_ufrag == Some(remote))
        }),
{
    binding_registers_the_client(c, data, src, draw, t, l, now_ms, m, id, a);
    found_at(t, id, a, src);
    let o = on_packet(c, data, src, draw, t, l, now_ms);
    let t3 = o.table;
    let d = DatagramModel::DataIndication { source: relay_of(c), data };
    assert(m.raw == data);
    assert forall|remote: Seq<char>, local: Seq<char>, other: u64, b: AllocModel|
        #![trigger names(m, remote, local), is_at(t, other, b, b.client_addr)]
        names(m, remote, local) && is_at(t, other, b, b.client_addr) && b.client_addr != src
            && b.ice_ufrag == Some(remote) && b.permissions.contains(c.external_ip) implies o.effects
        == seq![EffectModel::Send { to: seq![b.client_addr], datagram: d }] by {
        named_pair(m, remote, local);
        assert(t.indexed(other));
        assert(other != id);
        assert(is_at(t3, other, b, b.client_addr));
        assert(t3.indexed(other));
        assert(ice_target(c, t3, remote, src) == Some(b.client_addr));
    }
    if o.effects.len() > 0 {
        let (remote, local) = m.ice_username()->0;
        let addr = ice_target(c, t3, remote, src)->0;
        assert(o.effects[0] == send_to(addr, d));
        assert(seq![addr][0] == addr);
        sends_at(o.effects, 0, seq![addr], addr, d);
    }
    assert forall|addr: SocketAddr, x: DatagramModel| #[trigger]
        sends(o.effects, addr, x) implies addr != src && x == d && (t.client(addr) matches Some(b)
        && b.client_addr == addr && b.permissions.contains(c.external_ip) && exists|
        remote: Seq<char>,
        local: Seq<char>,
    |
        #[trigger] names(m, remote, local) && b.ice_ufrag == Some(remote)) by {
        let (remote, local) = m.ice_username()->0;
        named_pair(m, remote, local);
        let target = ice_target(c, t3, remote, src);
        assert(target == Some(addr));
        assert(t3.by_ice_ufrag.contains_key(remote));
        let y = t3.by_ice_ufrag[remote];
        assert(t3.allocations.contains_key(y));
        assert(y != id);
        found_at(t, y, t.allocations[y], addr);
    }
}

/// The address is known: a client is there, or it is registered for a client.
pub open spec fn is_known(t: TableModel, addr: SocketAddr) -> bool {
    !is_no_client(t, addr) || t.by_peer_tuple.contains_key(addr.spec_key())
}

proof fn others_are_distinct(t: TableModel, ids: Seq<u64>, src: SocketAddr)
    requires
        t.wf(),
        ids.no_duplicates(),
    ensures
        other_clients(t, ids, src).no_duplicates(),
    decreases ids.len(),
{
    if ids.len() > 0 {
        let rest = ids.drop_last();
        let before = other_clients(t, rest, src);
        others_are_distinct(t, rest, src);
        let last = ids.last();
        if t.allocations.contains_key(last) {
            let addr = t.allocations[last].client_addr;
            other_is_listed(t, rest, src, addr);
            if before.contains(addr) {
                let x = choose|x: u64| #[trigger]
                    rest.contains(x) && t.allocations.contains_key(x)
                        && t.allocations[x].client_addr == addr;
                found_at(t, x, t.allocations[x], addr);
                found_at(t, last, t.allocations[last], addr);
                let k = choose|k: int| 0 <= k < rest.len() && rest[k] == x;
                assert(ids[k] == ids[ids.len() - 1]);
            }
            assert forall|i: int, j: int|
                0 <= i < j < before.push(addr).len() && !before.contains(
                    addr,
                ) implies #[trigger] before.push(addr)[i] != #[trigger] before.push(addr)[j] by {
                if j == before.len() {
                    assert(before[i] != addr);
                }
            }
        }
    }
}

/// A STUN response from a known address is delivered, as it is and in an
/// indication that names the address, to every other client that permits its IP,
/// and to nobody else. From any other address it is dropped. It changes nothing.
pub proof fn response_is_delivered(
    c: Config,
    data: Seq<u8>,
    src: SocketAddr,
    draw: Draw,
    t: TableModel,
    l: LimiterModel,
    now_ms: u64,
    m: StunModel,
)
    requires
        t.wf(),
        is_message(data, m, StunClass::SuccessResponse, m.method) || is_message(
            data,
            m,
            StunClass::ErrorResponse,
            m.method,
        ),
    ensures
        ({
            let o = on_packet(c, data, src, draw, t, l, now_ms);
            &&& o.table == t
            &&& o.limiter == l
            &&& !is_known(t, src) ==> o.effects.len() == 0
            &&& o.effects.len() <= 1
            &&& o.effects.len() == 1 ==> (o.effects[0] matches EffectModel::Send { to, .. }
                && to.no_duplicates())
            &&& is_known(t, src) ==> forall|addr: SocketAddr, d: DatagramModel| #[trigger]
                sends(o.effects, addr, d) <==> {
                    &&& d == (DatagramModel::DataIndication { source: src, data })
                    &&& addr != src
                    &&& exists|id: u64| #[trigger]
                        t.allocations.contains_key(id) && t.allocations[id].client_addr == addr
                            && t.allocations[id].permissions.contains(src.ip)
                }
        }),
{
    let o = on_packet(c, data, src, draw, t, l, now_ms);
    assert(m.raw == data);
    client_is_indexed(t, src);
    if t.by_client.contains_key(src.spec_key()) {
        assert(t.allocations.contains_key(t.by_client[src.spec_key()]));
        assert(!is_no_client(t, src));
    }
    if !is_no_client(t, src) {
        let x = choose|x: u64| #[trigger]
            t.allocations.contains_key(x) && t.allocations[x].client_addr == src;
        found_at(t, x, t.allocations[x], src);
    }
    assert(is_known(t, src) <==> t.source(src) is Some);
    if is_known(t, src) {
        let ids = t.permitting(src.ip);
        let to = other_clients(t, ids, src);
        let dd = DatagramModel::DataIndication { source: src, data };
        assert(o.effects == send_to_all(to, dd));
        if t.by_permission.contains_key(src.ip.spec_key()) {
            assert(t.issued(t.by_permission[src.ip.spec_key()]));
        }
        others_are_distinct(t, ids, src);
        assert forall|addr: SocketAddr| to.contains(addr) <==> addr != src && exists|id: u64|
            #[trigger] t.allocations.contains_key(id) && t.allocations[id].client_addr == addr
                && t.allocations[id].permissions.contains(src.ip) by {
            other_is_listed(t, ids, src, addr);
            assert forall|id: u64| #[trigger] t.allocations.contains_key(id) implies (ids.contains(
                id,
            ) <==> t.allocations[id].permissions.contains(src.ip)) by {
                listed_exactly_if_permitted(t, id, src.ip);
            }
            if to.contains(addr) {
                let id = choose|id: u64| #[trigger]
                    ids.contains(id) && t.allocations.contains_key(id)
                        && t.allocations[id].client_addr == addr;
                assert(t.allocations.contains_key(id));
            }
            if addr != src && exists|id: u64| #[trigger]
                t.allocations.contains_key(id) && t.allocations[id].client_addr == addr
                    && t.allocations[id].permissions.contains(src.ip) {
                let id = choose|id: u64| #[trigger]
                    t.allocations.contains_key(id) && t.allocations[id].client_addr == addr
                        && t.allocations[id].permissions.contains(src.ip);
                assert(ids.contains(id));
            }
        }
        assert forall|addr: SocketAddr, d: DatagramModel| #[trigger]
            sends(o.effects, addr, d) <==> d == dd && to.contains(addr) by {
            if d == dd && to.contains(addr) {
                assert(to.len() > 0);
                assert(o.effects[0] == (EffectModel::Send { to, datagram: dd }));
                sends_at(o.effects, 0, to, addr, dd);
            }
        }
    }
}

/// Indications other than Send, and requests that are none of the server's, are
/// ignored.
pub proof fn other_messages_are_ignored(
    c: Config,
    data: Seq<u8>,
    src: SocketAddr,
    draw: Draw,
    t: TableModel,
    l: LimiterModel,
    now_ms: u64,
    m: StunModel,
)
    requires
        is_message(data, m, StunClass::Indication, m.method) && m.method != StunMethod::Send
            || is_message(data, m, StunClass::Request, m.method) && (m.method is Send
            || m.method is Data || m.method is Unknown),
    ensures
        ({
            let o = on_packet(c, data, src, draw, t, l, now_ms);
            o.table == t && o.limiter == l && o.effects.len() == 0
        }),
{
}

/// Two clients whose checks name each other are paired from then on: each is the one
/// that the other's data to the relay goes to.
pub proof fn mirrored_checks_pair(
    c: Config,
    first: Seq<u8>,
    second: Seq<u8>,
    draw: Draw,
    t: TableModel,
    l: LimiterModel,
    now_ms: u64,
    then_ms: u64,
    m: StunModel,
    n: StunModel,
    id: u64,
    a: AllocModel,
    other: u64,
    b: AllocModel,
    here: Seq<char>,
    there: Seq<char>,
)
    requires
        t.wf(),
        is_message(first, m, StunClass::Request, StunMethod::Binding),
        is_message(second, n, StunClass::Request, StunMethod::Binding),
        is_at(t, id, a, a.client_addr),
        is_at(t, other, b, b.client_addr),
        id != other,
        names(m, there, here),
        names(n, here, there),
        here != there,
        may_claim(t, a, here),
        may_claim(t, b, there),
    ensures
        ({
            let o = on_packet(c, first, a.client_addr, draw, t, l, now_ms);
            let u = on_packet(c, second, b.client_addr, draw, o.table, o.limiter, then_ms).table;
            are_paired(u.allocations[id], u.allocations[other])
        }),
{
    binding_registers_the_client(c, first, a.client_addr, draw, t, l, now_ms, m, id, a);
    let o = on_packet(c, first, a.client_addr, draw, t, l, now_ms);
    assert(is_at(o.table, other, b, b.client_addr));
    assert(may_claim(o.table, b, there));
    binding_registers_the_client(
        c,
        second,
        b.client_addr,
        draw,
        o.table,
        o.limiter,
        then_ms,
        n,
        other,
        b,
    );
}

} // verus!
