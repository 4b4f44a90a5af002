//! The `dashmap` maps that the tables are made of.
//!
//! Every function here makes one call into `dashmap` (version 6) and states
//! what that call does to the entries of the map. A caller that changes a map
//! holds it exclusively, so no reference into the map is alive during the call
//! and the shard locks are free. Keys are integers, tuples of integers or
//! strings, whose equality and hashing agree.

use dashmap::mapref::one::Ref;
use dashmap::DashMap;
use vstd::prelude::*;

use super::allocation::Allocation;
use crate::net::{AddrKey, IpKey, SocketAddr};

verus! {

#[verifier::external_type_specification]
#[verifier::external_body]
#[verifier::reject_recursive_types(K)]
#[verifier::reject_recursive_types(V)]
#[verifier::reject_recursive_types(S)]
pub struct ExDashMap<K, V, S>(dashmap::DashMap<K, V, S>);

#[verifier::external_type_specification]
#[verifier::external_body]
#[verifier::reject_recursive_types(K)]
#[verifier::reject_recursive_types(V)]
pub struct ExRef<'a, K, V>(dashmap::mapref::one::Ref<'a, K, V>);

/// The entries of a map from transport addresses to numbers.
pub uninterp spec fn addr_entries(m: DashMap<AddrKey, u64>) -> Map<AddrKey, u64>;

/// The entries of a map from ufrags to numbers.
pub uninterp spec fn ufrag_entries(m: DashMap<String, u64>) -> Map<Seq<char>, u64>;

/// The entries of a map from pairs of ufrags to numbers.
pub uninterp spec fn pair_entries(m: DashMap<(String, String), u64>) -> Map<
    (Seq<char>, Seq<char>),
    u64,
>;

/// The entries of a map from channel numbers to transport addresses.
pub uninterp spec fn channel_entries(m: DashMap<u16, SocketAddr>) -> Map<u16, SocketAddr>;

/// The entries of a map from IP addresses to lists of numbers.
pub uninterp spec fn permission_entries(m: DashMap<IpKey, Vec<u64>>) -> Map<IpKey, Seq<u64>>;

/// The entries of a map from numbers to allocations.
pub uninterp spec fn allocation_entries(m: DashMap<u64, Allocation>) -> Map<u64, Allocation>;

/// The allocation that a reference into a map points to.
pub uninterp spec fn held_allocation(r: Ref<u64, Allocation>) -> Allocation;

/// The entries of a map from IP addresses to request times and a count.
pub uninterp spec fn limit_entries(m: DashMap<IpKey, (Vec<u128>, u32)>) -> Map<
    IpKey,
    (Seq<u128>, u32),
>;

/// `DashMap::new`: the map is empty.
#[verifier::external_body]
pub(crate) fn addr_map_new() -> (m: DashMap<AddrKey, u64>)
    ensures
        addr_entries(m) == (Map::<AddrKey, u64>::empty()),
{
    DashMap::new()
}

/// `DashMap::get`, the value copied out: the value of the key, if it has one.
#[verifier::external_body]
pub(crate) fn addr_map_get(m: &DashMap<AddrKey, u64>, k: &AddrKey) -> (v: Option<u64>)
    ensures
        v == addr_entries(*m).get(*k),
{
    m.get(k).map(|r| *r)
}

/// `DashMap::contains_key`: whether the key has a value.
#[verifier::external_body]
pub(crate) fn addr_map_contains(m: &DashMap<AddrKey, u64>, k: &AddrKey) -> (b: bool)
    ensures
        b == addr_entries(*m).contains_key(*k),
{
    m.contains_key(k)
}

/// `DashMap::insert`: the key now has the value; its former value is returned.
#[verifier::external_body]
pub(crate) fn addr_map_insert(m: &mut DashMap<AddrKey, u64>, k: AddrKey, v: u64) -> (r: Option<u64>)
    ensures
        addr_entries(*final(m)) == addr_entries(*old(m)).insert(k, v),
        r == addr_entries(*old(m)).get(k),
{
    m.insert(k, v)
}

/// `DashMap::remove`: the key has no value any more.
#[verifier::external_body]
pub(crate) fn addr_map_remove(m: &mut DashMap<AddrKey, u64>, k: &AddrKey)
    ensures
        addr_entries(*final(m)) == addr_entries(*old(m)).remove(*k),
{
    m.remove(k);
}

/// `DashMap::iter`, the keys copied out: every key once, in no particular order.
#[verifier::external_body]
pub(crate) fn addr_map_keys(m: &DashMap<AddrKey, u64>) -> (keys: Vec<AddrKey>)
    ensures
        keys@.no_duplicates(),
        keys@.to_set() == addr_entries(*m).dom(),
{
    m.iter().map(|e| *e.key()).collect()
}

/// `DashMap::new`: the map is empty.
#[verifier::external_body]
pub(crate) fn ufrag_map_new() -> (m: DashMap<String, u64>)
    ensures
        ufrag_entries(m) == (Map::<Seq<char>, u64>::empty()),
{
    DashMap::new()
}

/// `DashMap::get`, the value copied out: the value of the key, if it has one.
#[verifier::external_body]
pub(crate) fn ufrag_map_get(m: &DashMap<String, u64>, k: &str) -> (v: Option<u64>)
    ensures
        v == ufrag_entries(*m).get(k@),
{
    m.get(k).map(|r| *r)
}

/// `DashMap::insert`: the key now has the value.
#[verifier::external_body]
pub(crate) fn ufrag_map_insert(m: &mut DashMap<String, u64>, k: String, v: u64)
    ensures
        ufrag_entries(*final(m)) == ufrag_entries(*old(m)).insert(k@, v),
{
    m.insert(k, v);
}

/// `DashMap::remove`: the key has no value any more.
#[verifier::external_body]
pub(crate) fn ufrag_map_remove(m: &mut DashMap<String, u64>, k: &str)
    ensures
        ufrag_entries(*final(m)) == ufrag_entries(*old(m)).remove(k@),
{
    m.remove(k);
}

/// `DashMap::new`: the map is empty.
#[verifier::external_body]
pub(crate) fn pair_map_new() -> (m: DashMap<(String, String), u64>)
    ensures
        pair_entries(m) == (Map::<(Seq<char>, Seq<char>), u64>::empty()),
{
    DashMap::new()
}

/// `DashMap::get`, the value copied out: the value of the key, if it has one.
#[verifier::external_body]
pub(crate) fn pair_map_get(m: &DashMap<(String, String), u64>, k: &(String, String)) -> (v: Option<u64>)
    ensures
        v == pair_entries(*m).get((k.0@, k.1@)),
{
    m.get(k).map(|r| *r)
}

/// `DashMap::insert`: the key now has the value.
#[verifier::external_body]
pub(crate) fn pair_map_insert(m: &mut DashMap<(String, String), u64>, k: (String, String), v: u64)
    ensures
        pair_entries(*final(m)) == pair_entries(*old(m)).insert((k.0@, k.1@), v),
{
    m.insert(k, v);
}

/// `DashMap::remove`: the key has no value any more.
#[verifier::external_body]
pub(crate) fn pair_map_remove(m: &mut DashMap<(String, String), u64>, k: &(String, String))
    ensures
        pair_entries(*final(m)) == pair_entries(*old(m)).remove((k.0@, k.1@)),
{
    m.remove(k);
}

/// `DashMap::new`: the map is empty.
#[verifier::external_body]
pub(crate) fn channel_map_new() -> (m: DashMap<u16, SocketAddr>)
    ensures
        channel_entries(m) == (Map::<u16, SocketAddr>::empty()),
{
    DashMap::new()
}

/// `DashMap::get`, the value copied out: the value of the key, if it has one.
#[verifier::external_body]
pub(crate) fn channel_map_get(m: &DashMap<u16, SocketAddr>, k: u16) -> (v: Option<SocketAddr>)
    ensures
        v == channel_entries(*m).get(k),
{
    m.get(&k).map(|r| *r)
}

/// `DashMap::insert`: the key now has the value; its former value is returned.
#[verifier::external_body]
pub(crate) fn channel_map_insert(m: &mut DashMap<u16, SocketAddr>, k: u16, v: SocketAddr) -> (r: Option<
    SocketAddr,
>)
    ensures
        channel_entries(*final(m)) == channel_entries(*old(m)).insert(k, v),
        r == channel_entries(*old(m)).get(k),
{
    m.insert(k, v)
}

/// `DashMap::remove`: the key has no value any more.
#[verifier::external_body]
pub(crate) fn channel_map_remove(m: &mut DashMap<u16, SocketAddr>, k: u16)
    ensures
        channel_entries(*final(m)) == channel_entries(*old(m)).remove(k),
{
    m.remove(&k);
}

/// `DashMap::len`: the number of entries.
#[verifier::external_body]
pub(crate) fn channel_map_len(m: &DashMap<u16, SocketAddr>) -> (n: usize)
    ensures
        n == channel_entries(*m).len(),
{
    m.len()
}

/// `DashMap::new`: the map is empty.
#[verifier::external_body]
pub(crate) fn permission_map_new() -> (m: DashMap<IpKey, Vec<u64>>)
    ensures
        permission_entries(m) == (Map::<IpKey, Seq<u64>>::empty()),
{
    DashMap::new()
}

/// `DashMap::get`, the value cloned: the value of the key, if it has one.
#[verifier::external_body]
pub(crate) fn permission_map_get(m: &DashMap<IpKey, Vec<u64>>, k: &IpKey) -> (v: Option<Vec<u64>>)
    ensures
        match v {
            Some(ids) => permission_entries(*m).get(*k) == Some(ids@),
            None => permission_entries(*m).get(*k) is None,
        },
{
    m.get(k).map(|r| r.value().clone())
}

/// `DashMap::insert`: the key now has the value.
#[verifier::external_body]
pub(crate) fn permission_map_insert(m: &mut DashMap<IpKey, Vec<u64>>, k: IpKey, v: Vec<u64>)
    ensures
        permission_entries(*final(m)) == permission_entries(*old(m)).insert(k, v@),
{
    m.insert(k, v);
}

/// `DashMap::new`: the map is empty.
#[verifier::external_body]
pub(crate) fn allocation_map_new() -> (m: DashMap<u64, Allocation>)
    ensures
        allocation_entries(m) == (Map::<u64, Allocation>::empty()),
{
    DashMap::new()
}

/// `DashMap::get`: a reference to the value of the key, if it has one.
#[verifier::external_body]
pub(crate) fn allocation_map_get<'a>(m: &'a DashMap<u64, Allocation>, k: u64) -> (r: Option<
    Ref<'a, u64, Allocation>,
>)
    ensures
        match r {
            Some(a) => allocation_entries(*m).get(k) == Some(held_allocation(a)),
            None => allocation_entries(*m).get(k) is None,
        },
{
    m.get(&k)
}

/// `Ref::value`: the value that the reference points to.
#[verifier::external_body]
pub(crate) fn allocation_of<'a>(r: &'a Ref<u64, Allocation>) -> (a: &'a Allocation)
    ensures
        *a == held_allocation(*r),
{
    r.value()
}

/// `DashMap::insert`: the key now has the value.
#[verifier::external_body]
pub(crate) fn allocation_map_insert(m: &mut DashMap<u64, Allocation>, k: u64, v: Allocation)
    ensures
        allocation_entries(*final(m)) == allocation_entries(*old(m)).insert(k, v),
{
    m.insert(k, v);
}

/// `DashMap::remove`: the key has no value any more; its former value is returned.
#[verifier::external_body]
pub(crate) fn allocation_map_remove(m: &mut DashMap<u64, Allocation>, k: u64) -> (v: Option<Allocation>)
    ensures
        allocation_entries(*final(m)) == allocation_entries(*old(m)).remove(k),
        v == allocation_entries(*old(m)).get(k),
{
    m.remove(&k).map(|e| e.1)
}

/// `DashMap::iter`, the keys copied out: every key once, in no particular order.
#[verifier::external_body]
pub(crate) fn allocation_map_keys(m: &DashMap<u64, Allocation>) -> (keys: Vec<u64>)
    ensures
        keys@.no_duplicates(),
        keys@.to_set() == allocation_entries(*m).dom(),
{
    m.iter().map(|e| *e.key()).collect()
}

/// `DashMap::new`: the map is empty.
#[verifier::external_body]
pub(crate) fn limit_map_new() -> (m: DashMap<IpKey, (Vec<u128>, u32)>)
    ensures
        limit_entries(m) == (Map::<IpKey, (Seq<u128>, u32)>::empty()),
{
    DashMap::new()
}

/// `DashMap::get`, the value cloned: the value of the key, if it has one.
#[verifier::external_body]
pub(crate) fn limit_map_get(m: &DashMap<IpKey, (Vec<u128>, u32)>, k: &IpKey) -> (v: Option<
    (Vec<u128>, u32),
>)
    ensures
        match v {
            Some(e) => limit_entries(*m).get(*k) == Some((e.0@, e.1)),
            None => limit_entries(*m).get(*k) is None,
        },
{
    m.get(k).map(|r| r.value().clone())
}

/// `DashMap::insert`: the key now has the value.
#[verifier::external_body]
pub(crate) fn limit_map_insert(m: &mut DashMap<IpKey, (Vec<u128>, u32)>, k: IpKey, v: (Vec<u128>, u32))
    ensures
        limit_entries(*final(m)) == limit_entries(*old(m)).insert(k, (v.0@, v.1)),
{
    m.insert(k, v);
}

/// `DashMap::remove`: the key has no value any more.
#[verifier::external_body]
pub(crate) fn limit_map_remove(m: &mut DashMap<IpKey, (Vec<u128>, u32)>, k: &IpKey)
    ensures
        limit_entries(*final(m)) == limit_entries(*old(m)).remove(*k),
{
    m.remove(k);
}

/// `DashMap::iter`, the keys copied out: every key once, in no particular order.
#[verifier::external_body]
pub(crate) fn limit_map_keys(m: &DashMap<IpKey, (Vec<u128>, u32)>) -> (keys: Vec<IpKey>)
    ensures
        keys@.no_duplicates(),
        keys@.to_set() == limit_entries(*m).dom(),
{
    m.iter().map(|e| *e.key()).collect()
}

} // verus!
