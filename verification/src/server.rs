//! The server without its socket: one packet in, a list of effects out.

use std::sync::Arc;
use std::time::Instant;
use vstd::prelude::*;

use crate::coarse_time::{clock_ms, init, update_coarse_time, CoarseClock};
use crate::config::Config;
use crate::demux::protocol::{packet_of, PacketModel};
use crate::demux::{Demuxer, PacketType};
use crate::lookup::model::{expired_at, inactive_at, orphaned_at, TableModel};
use crate::lookup::rate_limit::LimiterModel;
use crate::lookup::{AllocationTable, RateLimiter};
use crate::net::{IpAddr, SocketAddr};
use crate::relay::effect::{apply, effects_of, Effect};
use crate::relay::rules::{on_channel_data, on_client_data, on_peer_packet};
use crate::relay::RelayEngine;
use crate::turn::rules::{on_stun, Draw, Outcome, Step};
use crate::turn::TurnHandler;

verus! {

/// Seconds between two cleanups.
pub const CLEANUP_INTERVAL_SECS: u64 = 2;

/// Seconds without traffic from a client, or without anyone to relay to, after
/// which an allocation is removed.
pub const INACTIVITY_TIMEOUT_SECS: u64 = 45;

/// Size of the receive buffer: no datagram is larger, so none is truncated.
pub const RECV_BUFFER_SIZE: usize = 65_535;

/// Handling a datagram. STUN goes to the TURN handler whoever sent it, and
/// ChannelData to the relay engine. Anything else from a client goes to its ICE
/// peer, and from elsewhere to the clients that permit it.
pub open spec fn on_packet(
    c: Config,
    data: Seq<u8>,
    src: SocketAddr,
    draw: Draw,
    t: TableModel,
    l: LimiterModel,
    now_ms: u64,
) -> Outcome {
    match packet_of(data) {
        PacketModel::Stun(m) => on_stun(c, m, src, draw, t, l, now_ms),
        PacketModel::TurnChannelData { channel, data: payload } => on_channel_data(
            c,
            channel,
            payload,
            src,
            t,
        ).with(l),
        other => if t.is_client(src) {
            on_client_data(c, data, src, t).with(l)
        } else {
            on_peer_packet(t, src, data, other is Rtp, !(other is Dtls), now_ms).with(l)
        },
    }
}

/// The states of a cleanup: first the expired allocations go, then the
/// inactive, then the orphaned senders. Each releases its quota, and at the
/// end stale entries of the rate limiter go.
pub struct CleanupSteps {
    pub unexpired: TableModel,
    pub active: TableModel,
    pub expired_ips: Seq<IpAddr>,
    pub inactive_ips: Seq<IpAddr>,
    pub orphaned_ips: Seq<IpAddr>,
}

/// Whether a cleanup at the given times leads from one state to another through
/// the given steps.
pub open spec fn cleaned_by(
    s: CleanupSteps,
    t: TableModel,
    l: LimiterModel,
    t2: TableModel,
    l2: LimiterModel,
    now_ms: u64,
    now_ns: u128,
) -> bool {
    &&& t.swept(s.unexpired, s.expired_ips, expired_at(now_ms))
    &&& s.unexpired.swept(s.active, s.inactive_ips, inactive_at(INACTIVITY_TIMEOUT_SECS, now_ms))
    &&& s.active.swept(t2, s.orphaned_ips, orphaned_at(INACTIVITY_TIMEOUT_SECS, now_ms))
    &&& l2 == l.record_deallocations(s.expired_ips).record_deallocations(
        s.inactive_ips,
    ).record_deallocations(s.orphaned_ips).cleanup(now_ns)
}

/// uTURN server.
pub struct Server {
    config: Arc<Config>,
    allocations: AllocationTable,
    turn_handler: TurnHandler,
    relay_engine: RelayEngine,
    rate_limiter: RateLimiter,
    clock: CoarseClock,
}

impl Server {
    /// The table of allocations.
    pub closed spec fn table(&self) -> TableModel {
        self.allocations@
    }

    /// The rate limiter.
    pub closed spec fn limiter(&self) -> LimiterModel {
        self.rate_limiter@
    }

    /// The configuration.
    pub closed spec fn spec_config(&self) -> Config {
        *self.config
    }

    /// The time that the clock shows, in milliseconds.
    pub closed spec fn now_ms(&self) -> u64 {
        self.clock.ms()
    }

    /// The instants that the clock and the rate limiter count time from.
    pub closed spec fn bases(&self) -> (Instant, Instant) {
        (self.clock.base(), self.rate_limiter.base())
    }

    /// The table is well formed, and all parts have the same configuration.
    pub closed spec fn wf(&self) -> bool {
        &&& self.allocations.wf()
        &&& self.turn_handler.config() == *self.config
        &&& self.relay_engine.config() == *self.config
    }

    /// The table is well formed, so that the laws of the table apply.
    pub proof fn table_facts(&self)
        requires
            self.wf(),
        ensures
            self.table().wf(),
    {
        self.allocations.table_facts();
    }

    /// Creates a server with the given configuration.
    pub fn new(config: Config) -> (s: Self)
        ensures
            s.wf(),
            s.spec_config() == config,
            s.table() == TableModel::empty(),
            s.limiter() == LimiterModel::fresh(
                config.rate_limit_per_minute,
                config.max_allocations_per_ip,
            ),
    {
        let rate_limiter = RateLimiter::new(
            config.rate_limit_per_minute,
            config.max_allocations_per_ip,
        );
        let config = Arc::new(config);
        Self {
            turn_handler: TurnHandler::new(config.clone()),
            relay_engine: RelayEngine::new(config.clone()),
            config,
            allocations: AllocationTable::new(),
            rate_limiter,
            clock: init(),
        }
    }

    /// The address to listen on: the wildcard of the external IP's family.
    pub fn bind_addr(&self) -> (addr: SocketAddr)
        ensures
            addr.port == self.spec_config().port,
            addr.ip == match self.spec_config().external_ip {
                IpAddr::V4(_) => IpAddr::V4(0),
                IpAddr::V6(_) => IpAddr::V6(0),
            },
    {
        SocketAddr::wildcard_for(self.config.external_ip, self.config.port)
    }

    /// The address every allocation is relayed through.
    pub fn relay_addr(&self) -> (addr: SocketAddr)
        ensures
            addr == self.spec_config().spec_relay_addr(),
    {
        self.config.relay_addr()
    }

    /// Updates the clock. To be called every few milliseconds.
    pub fn tick(&mut self)
        requires
            old(self).wf(),
        ensures
            final(self).wf(),
            final(self).spec_config() == old(self).spec_config(),
            final(self).bases() == old(self).bases(),
            final(self).table() == old(self).table(),
            final(self).limiter() == old(self).limiter(),
            exists|ns: u128| final(self).now_ms() == #[trigger] clock_ms(ns),
    {
        update_coarse_time(&mut self.clock);
    }

    /// Sets the clock to `elapsed_ns` nanoseconds after its start.
    pub fn advance_to(&mut self, elapsed_ns: u128)
        requires
            old(self).wf(),
        ensures
            final(self).wf(),
            final(self).spec_config() == old(self).spec_config(),
            final(self).bases() == old(self).bases(),
            final(self).table() == old(self).table(),
            final(self).limiter() == old(self).limiter(),
            final(self).now_ms() == clock_ms(elapsed_ns),
    {
        self.clock.advance_to(elapsed_ns);
    }

    /// Handles an incoming datagram. The effects are to be carried out in
    /// order, with [`Server::apply`] for those that are no sends.
    pub fn handle_packet(&mut self, data: &[u8], src_addr: SocketAddr) -> (r: Vec<Effect>)
        requires
            old(self).wf(),
        ensures
            final(self).wf(),
            final(self).spec_config() == old(self).spec_config(),
            final(self).bases() == old(self).bases(),
            final(self).now_ms() == old(self).now_ms(),
            exists|draw: Draw|
                (Outcome {
                    table: final(self).table(),
                    limiter: final(self).limiter(),
                    effects: effects_of(r@),
                }) == #[trigger] on_packet(
                    old(self).spec_config(),
                    data@,
                    src_addr,
                    draw,
                    old(self).table(),
                    old(self).limiter(),
                    old(self).now_ms(),
                ),
    {
        let draw = Draw::take(&self.rate_limiter);
        self.handle_packet_with(data, src_addr, &draw)
    }

    /// Handles an incoming datagram, with what it takes from outside the
    /// protocol given.
    pub fn handle_packet_with(&mut self, data: &[u8], src_addr: SocketAddr, draw: &Draw) -> (r: Vec<
        Effect,
    >)
        requires
            old(self).wf(),
        ensures
            final(self).wf(),
            final(self).spec_config() == old(self).spec_config(),
            final(self).bases() == old(self).bases(),
            final(self).now_ms() == old(self).now_ms(),
            (Outcome {
                table: final(self).table(),
                limiter: final(self).limiter(),
                effects: effects_of(r@),
            }) == on_packet(
                old(self).spec_config(),
                data@,
                src_addr,
                *draw,
                old(self).table(),
                old(self).limiter(),
                old(self).now_ms(),
            ),
    {
        // Clients are told by their allocation alone: a peer whose address was
        // learned is no client.
        let is_client = self.allocations.is_client(src_addr);
        // Classify first: a new client may send its Allocate request from an
        // IP that others permit as a peer.
        match Demuxer::classify(data) {
            PacketType::Stun(msg) => self.turn_handler.handle_stun_with(
                &msg,
                src_addr,
                draw,
                &mut self.allocations,
                &mut self.rate_limiter,
                &self.clock,
            ),
            PacketType::TurnChannelData { channel, data: payload } => self.relay_engine.handle_channel_data(
                channel,
                payload.as_slice(),
                src_addr,
                &mut self.allocations,
            ),
            PacketType::Rtp { ssrc, data: packet } => {
                if is_client {
                    self.relay_client_data(data, src_addr)
                } else {
                    self.relay_engine.handle_rtp(
                        ssrc,
                        packet.as_slice(),
                        src_addr,
                        &mut self.allocations,
                        &self.clock,
                    )
                }
            },
            PacketType::Rtcp(packet) => {
                if is_client {
                    self.relay_client_data(data, src_addr)
                } else {
                    self.relay_engine.handle_rtcp(
                        packet.as_slice(),
                        src_addr,
                        &mut self.allocations,
                        &self.clock,
                    )
                }
            },
            PacketType::Dtls(packet) => {
                if is_client {
                    self.relay_client_data(data, src_addr)
                } else {
                    self.relay_engine.handle_dtls(
                        packet.as_slice(),
                        src_addr,
                        &mut self.allocations,
                        &self.clock,
                    )
                }
            },
            PacketType::Unknown => {
                if is_client {
                    self.relay_client_data(data, src_addr)
                } else {
                    self.relay_engine.handle_peer_data(
                        data,
                        src_addr,
                        &mut self.allocations,
                        &self.clock,
                    )
                }
            },
        }
    }

    /// Relays data from one client to another.
    fn relay_client_data(&self, data: &[u8], src_addr: SocketAddr) -> (r: Vec<Effect>)
        requires
            self.wf(),
        ensures
            (Step { table: self.table(), effects: effects_of(r@) }) == on_client_data(
                self.spec_config(),
                data@,
                src_addr,
                self.table(),
            ),
    {
        self.relay_engine.relay_client_data(data, src_addr, &self.allocations)
    }

    /// Carries out what an effect does to the server. A send is left to the caller.
    pub fn apply(&mut self, effect: &Effect)
        requires
            old(self).wf(),
        ensures
            final(self).wf(),
            final(self).spec_config() == old(self).spec_config(),
            final(self).bases() == old(self).bases(),
            final(self).now_ms() == old(self).now_ms(),
            final(self).limiter() == old(self).limiter(),
            final(self).table() == apply(old(self).table(), effect@, old(self).now_ms()),
    {
        self.allocations.apply(effect, &self.clock);
    }

    /// Removes expired and inactive allocations and orphaned senders, and
    /// releases their quota. To be called every few seconds.
    pub fn cleanup(&mut self)
        requires
            old(self).wf(),
        ensures
            final(self).wf(),
            final(self).spec_config() == old(self).spec_config(),
            final(self).bases() == old(self).bases(),
            final(self).now_ms() == old(self).now_ms(),
            exists|s: CleanupSteps, now_ns: u128| #[trigger]
                cleaned_by(
                    s,
                    old(self).table(),
                    old(self).limiter(),
                    final(self).table(),
                    final(self).limiter(),
                    old(self).now_ms(),
                    now_ns,
                ),
    {
        let now_ns: u128 = self.rate_limiter.elapsed();
        self.cleanup_at(now_ns);
    }

    /// Cleans up, with `now_ns` nanoseconds passed since the rate limiter was
    /// created.
    pub fn cleanup_at(&mut self, now_ns: u128)
        requires
            old(self).wf(),
        ensures
            final(self).wf(),
            final(self).spec_config() == old(self).spec_config(),
            final(self).bases() == old(self).bases(),
            final(self).now_ms() == old(self).now_ms(),
            exists|s: CleanupSteps| #[trigger]
                cleaned_by(
                    s,
                    old(self).table(),
                    old(self).limiter(),
                    final(self).table(),
                    final(self).limiter(),
                    old(self).now_ms(),
                    now_ns,
                ),
    {
        let expired = self.allocations.cleanup_expired(&self.clock);
        let ghost unexpired = self.allocations@;
        self.rate_limiter.record_deallocations(&expired);
        let inactive = self.allocations.cleanup_inactive(&self.clock, INACTIVITY_TIMEOUT_SECS);
        let ghost active = self.allocations@;
        self.rate_limiter.record_deallocations(&inactive);
        let orphaned = self.allocations.cleanup_orphaned_senders(
            &self.clock,
            INACTIVITY_TIMEOUT_SECS,
        );
        self.rate_limiter.record_deallocations(&orphaned);
        self.rate_limiter.cleanup_at(now_ns);
        proof {
            let s = CleanupSteps {
                unexpired,
                active,
                expired_ips: expired@,
                inactive_ips: inactive@,
                orphaned_ips: orphaned@,
            };
            assert(cleaned_by(
                s,
                old(self).table(),
                old(self).limiter(),
                self.table(),
                self.limiter(),
                old(self).now_ms(),
                now_ns,
            ));
        }
    }
}

} // verus!
