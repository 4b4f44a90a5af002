//! Rate limiting and quota enforcement.

use dashmap::DashMap;
use std::time::Instant;
use vstd::prelude::*;

use super::maps::{
    limit_entries, limit_map_get, limit_map_insert, limit_map_keys, limit_map_new, limit_map_remove,
};
use crate::coarse_time::{elapsed_nanos, instant_now};
use crate::net::{IpAddr, IpKey};

verus! {

/// The length of the window in which requests are counted, in nanoseconds.
pub const WINDOW_NS: u128 = 60_000_000_000;

/// Rate limiter for TURN allocation requests.
pub struct RateLimiter {
    /// For each IP, the times of the requests in the window (nanoseconds after
    /// `base`) and the number of active allocations
    entries: DashMap<IpKey, (Vec<u128>, u32)>,
    /// Maximum requests per minute (0 = unlimited)
    max_requests_per_minute: u32,
    /// Maximum allocations per IP (0 = unlimited)
    max_allocations_per_ip: u32,
    /// When the limiter was created
    base: Instant,
}

/// Why an allocation request is refused.
#[derive(Debug, Clone, Copy, PartialEq, Eq, Structural)]
pub enum RateLimitError {
    /// Too many requests in the time window
    TooManyRequests,
    /// Maximum allocations per IP exceeded
    QuotaExceeded,
}

impl RateLimitError {
    /// The reason as text.
    pub fn message(&self) -> (s: &'static str)
        ensures
            s@ == match *self {
                RateLimitError::TooManyRequests => "rate limit exceeded"@,
                RateLimitError::QuotaExceeded => "allocation quota exceeded"@,
            },
    {
        match *self {
            RateLimitError::TooManyRequests => "rate limit exceeded",
            RateLimitError::QuotaExceeded => "allocation quota exceeded",
        }
    }
}

/// A rate limiter as mathematical values.
#[verifier::ext_equal]
pub struct LimiterModel {
    pub entries: Map<IpKey, (Seq<u128>, u32)>,
    pub max_requests_per_minute: u32,
    pub max_allocations_per_ip: u32,
}

/// Whether a request at the time `t` still counts at the time `now`.
pub open spec fn in_window(now: u128, t: u128) -> bool {
    now - t < WINDOW_NS
}

/// Counting at the time `now`.
pub open spec fn counts_at(now: u128) -> spec_fn(u128) -> bool {
    |t: u128| in_window(now, t)
}

/// Those of the request times that still count at the time `now`.
pub open spec fn recent(times: Seq<u128>, now: u128) -> Seq<u128> {
    times.filter(counts_at(now))
}

impl LimiterModel {
    /// A limiter that knows of no request and no allocation.
    pub open spec fn fresh(max_requests_per_minute: u32, max_allocations_per_ip: u32) -> LimiterModel {
        LimiterModel { entries: Map::empty(), max_requests_per_minute, max_allocations_per_ip }
    }

    /// The request times and the allocation count of an address.
    pub open spec fn entry(self, ip: IpAddr) -> (Seq<u128>, u32) {
        match self.entries.get(ip.spec_key()) {
            Some(e) => e,
            None => (Seq::empty(), 0u32),
        }
    }

    pub open spec fn with_entry(self, ip: IpAddr, e: (Seq<u128>, u32)) -> LimiterModel {
        LimiterModel { entries: self.entries.insert(ip.spec_key(), e), ..self }
    }

    /// Whether a request at the time `now` is allowed: first the rate, then
    /// the quota. A limit of 0 is no limit.
    pub open spec fn check(self, ip: IpAddr, now: u128) -> Result<(), RateLimitError> {
        let e = self.entry(ip);
        if self.max_requests_per_minute > 0 && recent(e.0, now).len()
            >= self.max_requests_per_minute {
            Err(RateLimitError::TooManyRequests)
        } else if self.max_allocations_per_ip > 0 && e.1 >= self.max_allocations_per_ip {
            Err(RateLimitError::QuotaExceeded)
        } else {
            Ok(())
        }
    }

    /// The limiter after a request at the time `now`. Times that no longer
    /// count are forgotten; that of an allowed request is remembered.
    pub open spec fn after_check(self, ip: IpAddr, now: u128) -> LimiterModel {
        let e = self.entry(ip);
        let kept = recent(e.0, now);
        self.with_entry(
            ip,
            (
                if self.check(ip, now) is Ok {
                    kept.push(now)
                } else {
                    kept
                },
                e.1,
            ),
        )
    }

    pub open spec fn record_allocation(self, ip: IpAddr) -> LimiterModel {
        let e = self.entry(ip);
        self.with_entry(
            ip,
            (
                e.0,
                if e.1 < u32::MAX {
                    (e.1 + 1) as u32
                } else {
                    e.1
                },
            ),
        )
    }

    pub open spec fn record_deallocation(self, ip: IpAddr) -> LimiterModel {
        if self.entries.contains_key(ip.spec_key()) {
            let e = self.entry(ip);
            self.with_entry(
                ip,
                (
                    e.0,
                    if e.1 > 0 {
                        (e.1 - 1) as u32
                    } else {
                        0
                    },
                ),
            )
        } else {
            self
        }
    }

    /// Deallocations for a list of addresses, one after the other.
    pub open spec fn record_deallocations(self, ips: Seq<IpAddr>) -> LimiterModel
        decreases ips.len(),
    {
        if ips.len() == 0 {
            self
        } else {
            self.record_deallocations(ips.drop_last()).record_deallocation(ips.last())
        }
    }

    /// Whether an entry is still of use at the time `now`.
    pub open spec fn in_use(e: (Seq<u128>, u32), now: u128) -> bool {
        e.1 > 0 || recent(e.0, now).len() > 0
    }

    /// The limiter without stale request times, and without entries that hold
    /// neither a request time nor an allocation.
    pub open spec fn cleanup(self, now: u128) -> LimiterModel {
        LimiterModel {
            entries: Map::new(
                |k: IpKey|
                    self.entries.contains_key(k) && LimiterModel::in_use(self.entries[k], now),
                |k: IpKey| (recent(self.entries[k].0, now), self.entries[k].1),
            ),
            ..self
        }
    }
}

impl View for RateLimiter {
    type V = LimiterModel;

    closed spec fn view(&self) -> LimiterModel {
        LimiterModel {
            entries: limit_entries(self.entries),
            max_requests_per_minute: self.max_requests_per_minute,
            max_allocations_per_ip: self.max_allocations_per_ip,
        }
    }
}

impl RateLimiter {
    /// The instant that request times are counted from.
    pub closed spec fn base(&self) -> Instant {
        self.base
    }

    /// Creates a rate limiter.
    pub fn new(max_requests_per_minute: u32, max_allocations_per_ip: u32) -> (l: Self)
        ensures
            l@ == LimiterModel::fresh(max_requests_per_minute, max_allocations_per_ip),
    {
        Self {
            entries: limit_map_new(),
            max_requests_per_minute,
            max_allocations_per_ip,
            base: instant_now(),
        }
    }

    /// The time since the limiter was created, in nanoseconds.
    pub fn elapsed(&self) -> (ns: u128) {
        elapsed_nanos(&self.base)
    }

    /// Checks whether an allocation request is allowed now, and records it.
    pub fn check_allocation_request(&mut self, ip: IpAddr) -> (r: Result<(), RateLimitError>)
        ensures
            final(self).base() == old(self).base(),
            exists|now: u128|
                r == old(self)@.check(ip, now) && final(self)@ == #[trigger] old(self)@.after_check(
                    ip,
                    now,
                ),
    {
        let now: u128 = self.elapsed();
        self.check_allocation_request_at(ip, now)
    }

    /// Checks whether an allocation request is allowed at the time `now`
    /// (nanoseconds after the limiter was created), and records it.
    pub fn check_allocation_request_at(&mut self, ip: IpAddr, now: u128) -> (r: Result<
        (),
        RateLimitError,
    >)
        ensures
            final(self).base() == old(self).base(),
            r == old(self)@.check(ip, now),
            final(self)@ == old(self)@.after_check(ip, now),
    {
        let (times, count) = self.entry(ip);
        let mut kept = keep_recent(&times, now);
        let result = if self.max_requests_per_minute > 0 && kept.len()
            >= self.max_requests_per_minute as usize {
            Err(RateLimitError::TooManyRequests)
        } else if self.max_allocations_per_ip > 0 && count >= self.max_allocations_per_ip {
            Err(RateLimitError::QuotaExceeded)
        } else {
            kept.push(now);
            Ok(())
        };
        limit_map_insert(&mut self.entries, ip.key(), (kept, count));
        result
    }

    fn entry(&self, ip: IpAddr) -> (e: (Vec<u128>, u32))
        ensures
            (e.0@, e.1) == self@.entry(ip),
    {
        match limit_map_get(&self.entries, &ip.key()) {
            Some(e) => e,
            None => {
                let none: Vec<u128> = Vec::new();
                assert(none@ =~= Seq::<u128>::empty());
                (none, 0)
            },
        }
    }

    /// Records a successful allocation.
    pub fn record_allocation(&mut self, ip: IpAddr)
        ensures
            final(self).base() == old(self).base(),
            final(self)@ == old(self)@.record_allocation(ip),
    {
        let (times, count) = self.entry(ip);
        let more: u32 = if count < u32::MAX {
            count + 1
        } else {
            count
        };
        limit_map_insert(&mut self.entries, ip.key(), (times, more));
    }

    /// Records that an allocation was removed.
    pub fn record_deallocation(&mut self, ip: IpAddr)
        ensures
            final(self).base() == old(self).base(),
            final(self)@ == old(self)@.record_deallocation(ip),
    {
        if let Some((times, count)) = limit_map_get(&self.entries, &ip.key()) {
            let less: u32 = if count > 0 {
                count - 1
            } else {
                0
            };
            limit_map_insert(&mut self.entries, ip.key(), (times, less));
        }
    }

    /// Records that allocations were removed, one for each address in the list.
    pub fn record_deallocations(&mut self, ips: &Vec<IpAddr>)
        ensures
            final(self).base() == old(self).base(),
            final(self)@ == old(self)@.record_deallocations(ips@),
    {
        let n: usize = ips.len();
        let mut i: usize = 0;
        assert(ips@.subrange(0, 0) =~= Seq::<IpAddr>::empty());
        while i < n
            invariant
                i <= n,
                n == ips@.len(),
                self.base() == old(self).base(),
                self@ == old(self)@.record_deallocations(ips@.subrange(0, i as int)),
            decreases n - i,
        {
            self.record_deallocation(ips[i]);
            proof {
                let next = ips@.subrange(0, i + 1);
                assert(next.drop_last() =~= ips@.subrange(0, i as int));
            }
            i = i + 1;
        }
        assert(ips@.subrange(0, n as int) =~= ips@);
    }

    /// The number of active allocations of an IP.
    pub fn allocation_count(&self, ip: IpAddr) -> (n: u32)
        ensures
            n == self@.entry(ip).1,
    {
        self.entry(ip).1
    }

    /// Forgets what is stale now. To be called periodically.
    pub fn cleanup(&mut self)
        ensures
            final(self).base() == old(self).base(),
            exists|now: u128| final(self)@ == #[trigger] old(self)@.cleanup(now),
    {
        let now: u128 = self.elapsed();
        self.cleanup_at(now);
    }

    /// Forgets what is stale at the time `now` (nanoseconds after the limiter
    /// was created).
    pub fn cleanup_at(&mut self, now: u128)
        ensures
            final(self).base() == old(self).base(),
            final(self)@ == old(self)@.cleanup(now),
    {
        let ghost before = self@.entries;
        let ghost after = self@.cleanup(now).entries;
        let keys = limit_map_keys(&self.entries);
        let n: usize = keys.len();
        let mut i: usize = 0;
        while i < n
            invariant
                i <= n,
                n == keys@.len(),
                keys@.no_duplicates(),
                keys@.to_set() == before.dom(),
                before == old(self)@.entries,
                after == old(self)@.cleanup(now).entries,
                self.base() == old(self).base(),
                self@ == (LimiterModel { entries: self@.entries, ..old(self)@ }),
                forall|k: IpKey|
                    #![trigger self@.entries.contains_key(k)]
                    #![trigger self@.entries[k]]
                    if keys@.subrange(0, i as int).contains(k) {
                        self@.entries.contains_key(k) == after.contains_key(k)
                            && self@.entries[k] == after[k]
                            || !self@.entries.contains_key(k) && !after.contains_key(k)
                    } else {
                        self@.entries.contains_key(k) == before.contains_key(k)
                            && self@.entries[k] == before[k]
                    },
            decreases n - i,
        {
            let k = keys[i];
            let ghost done = keys@.subrange(0, i as int);
            let ghost next = keys@.subrange(0, i + 1);
            let ghost now_entries = self@.entries;
            proof {
                assert(keys@.to_set().contains(k));
                assert(!done.contains(k)) by {
                    if done.contains(k) {
                        let j = choose|j: int| 0 <= j < done.len() && done[j] == k;
                        assert(keys@[j] == keys@[i as int]);
                    }
                }
                assert forall|q: IpKey| next.contains(q) <==> done.contains(q) || q == k by {
                    if done.contains(q) {
                        let j = choose|j: int| 0 <= j < done.len() && done[j] == q;
                        assert(next[j] == q);
                    }
                    assert(next[i as int] == k);
                    if next.contains(q) && q != k {
                        let j = choose|j: int| 0 <= j < next.len() && next[j] == q;
                        assert(done[j] == q);
                    }
                }
                assert(now_entries.contains_key(k) == before.contains_key(k));
            }
            if let Some((times, count)) = limit_map_get(&self.entries, &k) {
                let kept = keep_recent(&times, now);
                if count > 0 || kept.len() > 0 {
                    limit_map_insert(&mut self.entries, k, (kept, count));
                } else {
                    limit_map_remove(&mut self.entries, &k);
                }
            }
            i = i + 1;
        }
        proof {
            assert(keys@.subrange(0, n as int) =~= keys@);
            assert forall|k: IpKey| self@.entries.contains_key(k) <==> after.contains_key(k) by {
                assert(keys@.contains(k) <==> keys@.to_set().contains(k));
            }
            assert forall|k: IpKey| self@.entries.contains_key(k) implies #[trigger] self@.entries[k]
                == after[k] by {
                assert(keys@.contains(k) <==> keys@.to_set().contains(k));
            }
            assert(self@.entries =~= after);
        }
    }
}

/// The request times that still count at the time `now`.
fn keep_recent(times: &Vec<u128>, now: u128) -> (kept: Vec<u128>)
    ensures
        kept@ == recent(times@, now),
{
    let n: usize = times.len();
    let mut kept: Vec<u128> = Vec::new();
    let mut i: usize = 0;
    proof {
        reveal(Seq::filter);
    }
    assert(times@.subrange(0, 0) =~= Seq::<u128>::empty());
    while i < n
        invariant
            i <= n,
            n == times@.len(),
            kept@ == recent(times@.subrange(0, i as int), now),
        decreases n - i,
    {
        proof {
            reveal(Seq::filter);
            let next = times@.subrange(0, i + 1);
            assert(next.drop_last() =~= times@.subrange(0, i as int));
        }
        let t: u128 = times[i];
        let age: u128 = if t <= now {
            now - t
        } else {
            0
        };
        if age < WINDOW_NS {
            kept.push(t);
        }
        i = i + 1;
    }
    assert(times@.subrange(0, n as int) =~= times@);
    kept
}

proof fn recent_shrinks(times: Seq<u128>, now: u128, later: u128)
    requires
        now <= later,
    ensures
        recent(times, later).len() <= recent(times, now).len() <= times.len(),
        recent(recent(times, now), later) == recent(times, later),
    decreases times.len(),
{
    reveal(Seq::filter);
    if times.len() > 0 {
        let rest = times.drop_last();
        recent_shrinks(rest, now, later);
        if in_window(now, times.last()) {
            assert(recent(rest, now).push(times.last()).drop_last() =~= recent(rest, now));
        }
    }
}

/// The rate limit holds: if no more requests of an address count than the limit
/// allows, then this is still so after any request of any address, now and at
/// every later time.
pub proof fn rate_is_limited(l: LimiterModel, ip: IpAddr, from: IpAddr, now: u128, later: u128)
    requires
        now <= later,
        l.max_requests_per_minute > 0,
        recent(l.entry(ip).0, now).len() <= l.max_requests_per_minute,
    ensures
        recent(l.after_check(from, now).entry(ip).0, later).len() <= l.max_requests_per_minute,
{
    broadcast use crate::net::ip_key_injective;

    recent_shrinks(l.entry(ip).0, now, later);
    recent_shrinks(l.after_check(from, now).entry(ip).0, later, later);
}

/// A refused request does not count: the next one is judged as if it had not
/// been made. Neither do the requests of one address count for another.
pub proof fn refusals_do_not_count(l: LimiterModel, ip: IpAddr, from: IpAddr, now: u128, later: u128)
    requires
        now <= later,
    ensures
        l.check(from, now) is Err ==> l.after_check(from, now).check(ip, later) == l.check(ip, later),
        from != ip ==> l.after_check(from, now).entry(ip) == l.entry(ip),
{
    broadcast use crate::net::ip_key_injective;

    recent_shrinks(l.entry(ip).0, now, later);
}

/// Releasing an allocation undoes recording it, and neither concerns another
/// address. (A count that has reached the largest number stays there.)
pub proof fn release_undoes_record(l: LimiterModel, ip: IpAddr, other: IpAddr)
    requires
        l.entry(ip).1 < u32::MAX,
        other != ip,
    ensures
        l.record_allocation(ip).entry(ip).1 == l.entry(ip).1 + 1,
        l.record_allocation(ip).record_deallocation(ip).entry(ip) == l.entry(ip),
        l.record_allocation(ip).entry(other) == l.entry(other),
        l.record_deallocation(ip).entry(other) == l.entry(other),
{
    broadcast use crate::net::ip_key_injective;

    assert(other.spec_key() != ip.spec_key());
}

/// A cleanup forgets nothing that still matters: every later request is judged
/// as it would have been, and the allocation counts stay.
pub proof fn cleanup_keeps_verdicts(l: LimiterModel, ip: IpAddr, now: u128, later: u128)
    requires
        now <= later,
    ensures
        l.cleanup(now).check(ip, later) == l.check(ip, later),
        l.cleanup(now).entry(ip).1 == l.entry(ip).1,
{
    recent_shrinks(l.entry(ip).0, now, later);
    recent_shrinks(Seq::empty(), later, later);
}

/// Something that a limiter is told.
pub enum LimiterEvent {
    /// A request of an address, at a time
    Request { ip: IpAddr, now: u128 },
    /// An allocation was made
    Allocation { ip: IpAddr },
    /// An allocation was removed
    Deallocation { ip: IpAddr },
    /// A cleanup, at a time
    Cleanup { now: u128 },
}

impl LimiterEvent {
    /// When the event was, if it has a time.
    pub open spec fn time(self) -> Option<u128> {
        match self {
            LimiterEvent::Request { ip: _, now } => Some(now),
            LimiterEvent::Cleanup { now } => Some(now),
            _ => None,
        }
    }

    /// Whether the event was no later than `now`.
    pub open spec fn is_by(self, now: u128) -> bool {
        self.time() matches Some(t) ==> t <= now
    }
}

/// All the events were no later than `now`.
pub open spec fn all_by(events: Seq<LimiterEvent>, now: u128) -> bool {
    forall|i: int| 0 <= i < events.len() ==> (#[trigger] events[i]).is_by(now)
}

impl LimiterModel {
    /// The limiter after an event.
    pub open spec fn after(self, event: LimiterEvent) -> LimiterModel {
        match event {
            LimiterEvent::Request { ip, now } => self.after_check(ip, now),
            LimiterEvent::Allocation { ip } => self.record_allocation(ip),
            LimiterEvent::Deallocation { ip } => self.record_deallocation(ip),
            LimiterEvent::Cleanup { now } => self.cleanup(now),
        }
    }

    /// The limiter after a history of events.
    pub open spec fn replay(self, events: Seq<LimiterEvent>) -> LimiterModel
        decreases events.len(),
    {
        if events.len() == 0 {
            self
        } else {
            self.replay(events.drop_last()).after(events.last())
        }
    }

    /// The times of those requests of `ip` that were allowed when they came.
    pub open spec fn allowed_times(self, events: Seq<LimiterEvent>, ip: IpAddr) -> Seq<u128>
        decreases events.len(),
    {
        if events.len() == 0 {
            Seq::empty()
        } else {
            let before = self.allowed_times(events.drop_last(), ip);
            match events.last() {
                LimiterEvent::Request { ip: from, now } if from == ip && self.replay(
                    events.drop_last(),
                ).check(ip, now) is Ok => before.push(now),
                _ => before,
            }
        }
    }
}

proof fn recent_push(times: Seq<u128>, t: u128, now: u128)
    ensures
        recent(times.push(t), now) == if in_window(now, t) {
            recent(times, now).push(t)
        } else {
            recent(times, now)
        },
{
    reveal(Seq::filter);
    assert(times.push(t).drop_last() =~= times);
}

proof fn recent_of_none(now: u128)
    ensures
        recent(Seq::empty(), now) == Seq::<u128>::empty(),
{
    reveal(Seq::filter);
}

/// One event changes what still counts of an address as the history says.
proof fn event_counts(l: LimiterModel, event: LimiterEvent, ip: IpAddr, now: u128)
    requires
        event.is_by(now),
    ensures
        recent(l.after(event).entry(ip).0, now) == match event {
            LimiterEvent::Request { ip: from, now: t } if from == ip && l.check(ip, t) is Ok => recent(
                l.entry(ip).0.push(t),
                now,
            ),
            _ => recent(l.entry(ip).0, now),
        },
        l.after(event).max_requests_per_minute == l.max_requests_per_minute,
        l.after(event).max_allocations_per_ip == l.max_allocations_per_ip,
{
    broadcast use crate::net::ip_key_injective;

    let times = l.entry(ip).0;
    match event {
        LimiterEvent::Request { ip: from, now: t } => {
            if from == ip {
                recent_shrinks(times, t, now);
                recent_push(recent(times, t), t, now);
                recent_push(times, t, now);
            } else {
                assert(from.spec_key() != ip.spec_key());
            }
        },
        LimiterEvent::Allocation { ip: of } => {
            if of != ip {
                assert(of.spec_key() != ip.spec_key());
            }
        },
        LimiterEvent::Deallocation { ip: of } => {
            if of != ip {
                assert(of.spec_key() != ip.spec_key());
            }
        },
        LimiterEvent::Cleanup { now: t } => {
            recent_shrinks(times, t, now);
            recent_of_none(now);
            if recent(times, t).len() == 0 {
                assert(recent(times, t) =~= Seq::<u128>::empty());
            }
        },
    }
}

proof fn history_counts(l: LimiterModel, events: Seq<LimiterEvent>, ip: IpAddr, now: u128)
    requires
        l == LimiterModel::fresh(l.max_requests_per_minute, l.max_allocations_per_ip),
        all_by(events, now),
    ensures
        recent(l.replay(events).entry(ip).0, now) == recent(l.allowed_times(events, ip), now),
        l.replay(events).max_requests_per_minute == l.max_requests_per_minute,
        l.replay(events).max_allocations_per_ip == l.max_allocations_per_ip,
    decreases events.len(),
{
    if events.len() > 0 {
        let rest = events.drop_last();
        let before = l.replay(rest);
        assert forall|i: int| 0 <= i < rest.len() implies (#[trigger] rest[i]).is_by(now) by {
            assert(rest[i] == events[i]);
        }
        history_counts(l, rest, ip, now);
        assert(events[events.len() - 1].is_by(now));
        event_counts(before, events.last(), ip, now);
        if let LimiterEvent::Request { ip: from, now: t } = events.last() {
            recent_push(before.entry(ip).0, t, now);
            recent_push(l.allowed_times(rest, ip), t, now);
        }
    }
}

/// The limits hold over every history of calls. With `n` the number of requests
/// of the address that were allowed less than a minute ago, a request is refused
/// for its rate exactly if there is a limit and `n` has reached it, else for the
/// quota exactly if there is one and the allocations have reached it. Requests
/// that were refused are not in `n`, and cleanups make no difference.
pub proof fn limits_hold_over_history(
    max_requests_per_minute: u32,
    max_allocations_per_ip: u32,
    events: Seq<LimiterEvent>,
    ip: IpAddr,
    now: u128,
)
    requires
        all_by(events, now),
    ensures
        ({
            let new = LimiterModel::fresh(max_requests_per_minute, max_allocations_per_ip);
            let l = new.replay(events);
            let n = recent(new.allowed_times(events, ip), now).len();
            l.check(ip, now) == if max_requests_per_minute > 0 && n >= max_requests_per_minute {
                Err(RateLimitError::TooManyRequests)
            } else if max_allocations_per_ip > 0 && l.entry(ip).1 >= max_allocations_per_ip {
                Err(RateLimitError::QuotaExceeded)
            } else {
                Ok(())
            }
        }),
{
    let new = LimiterModel::fresh(max_requests_per_minute, max_allocations_per_ip);
    history_counts(new, events, ip, now);
}

/// A request, allowed or refused, changes no allocation count, and nothing of
/// what is known of other addresses.
pub proof fn request_leaves_the_rest(l: LimiterModel, ip: IpAddr, other: IpAddr, now: u128)
    ensures
        l.after_check(ip, now).entry(ip).1 == l.entry(ip).1,
        other != ip ==> l.after_check(ip, now).entry(other) == l.entry(other),
{
    broadcast use crate::net::ip_key_injective;

    if other != ip {
        assert(other.spec_key() != ip.spec_key());
    }
}

} // verus!
