//! TURN message handler.

use std::sync::Arc;
use vstd::prelude::*;
use vstd::slice::*;
use vstd::string::*;

use super::auth::TurnAuth;
use super::encode::{
    append_error, append_lifetime, append_text, append_xor_address, attribute, begin,
    error_attribute, finish, header, key_bytes, lifetime_value, sealed_is_signed, text_value,
    xor_value, ALLOCATE_SUCCESS, ATTR_XOR_MAPPED_ADDRESS, ATTR_XOR_RELAYED_ADDRESS, BINDING_SUCCESS,
    REFRESH_SUCCESS,
};
use super::message::TurnErrorCode;
use super::rules::{
    allocate_new, allocate_response, authenticate, authorize, binding_conflicts, binding_response,
    challenge, check_ufrags, credentials_of, error_response, error_type, ice_target, ips_of,
    is_forbidden_addr, is_forbidden_ip, is_forbidden_v4, on_allocate, on_binding, on_channel_bind,
    on_create_permission, on_refresh, on_response, on_send, on_stun, other_clients, peers_of,
    permitting_clients, refresh_response, relay_targets, request_covered, send_to_all,
    success_response, success_type, Draw, Outcome, Step,
};
use crate::bytes::{low16_sum, read_u16, set_length, u16_at};
use crate::coarse_time::{unix_secs, CoarseClock};
use crate::config::Config;
use crate::demux::stun::{StunClass, StunInfo, StunMethod, ATTR_NONCE, ATTR_REALM};
use crate::lookup::allocation::Allocation;
use crate::lookup::maps::allocation_of;
use crate::lookup::table::nums;
use crate::lookup::{AllocationId, AllocationTable, RateLimitError, RateLimiter};
use crate::net::{IpAddr, SocketAddr};
use crate::random::random_12;
use crate::relay::effect::{
    effects_of, no_effects, push_effect, reply_effects, send_effect, send_to, Datagram,
    DatagramModel, Effect,
};

verus! {

/// TURN protocol handler.
pub struct TurnHandler {
    config: Arc<Config>,
}

fn is_forbidden_peer_v4(ip: u32) -> (r: bool)
    ensures
        r == is_forbidden_v4(ip),
{
    ip / 0x1000000 == 127 || ip / 0x10000000 == 14 || ip == 0xffffffff || ip == 0 || ip / 0x10000
        == 0xa9fe
}

/// Peer IPs that the server refuses to relay to, regardless of permission.
///
/// Loopback, multicast, broadcast and unspecified addresses either reach
/// services on the relay host or fan out on the local network; link-local ones
/// cover the metadata services of cloud providers. An IPv4-mapped IPv6 address
/// reaches the IPv4 host, so it is judged by the IPv4 rules.
pub fn is_forbidden_peer_ip(ip: IpAddr) -> (r: bool)
    ensures
        r == is_forbidden_ip(ip),
{
    match ip {
        IpAddr::V4(v) => is_forbidden_peer_v4(v),
        IpAddr::V6(v) => {
            if v / 0x1_0000_0000 == 0xffff {
                return is_forbidden_peer_v4((v % 0x1_0000_0000) as u32);
            }
            v == 1 || v == 0 || v / 0x1_000000_0000_0000_0000_0000_0000_0000 == 0xff || v
                / 0x40_0000_0000_0000_0000_0000_0000_0000 == 0x3fa
        },
    }
}

/// Peer transport addresses that the server refuses to relay to.
///
/// Beyond forbidden IPs, this is the server's own external IP on any port but
/// the relay port: the relay address is the legitimate target of internal
/// routing, everything else there would be another service on the relay host.
pub fn is_forbidden_peer_addr(config: &Config, addr: SocketAddr) -> (r: bool)
    ensures
        r == is_forbidden_addr(*config, addr),
{
    is_forbidden_peer_ip(addr.ip) || (addr.ip == config.external_ip && addr.port != config.port)
}

impl Draw {
    /// Reads the clocks and draws the random bytes.
    pub fn take(limiter: &RateLimiter) -> (d: Draw) {
        Draw { unix_secs: unix_secs(), limiter_ns: limiter.elapsed(), seed: random_12() }
    }
}

/// The bytes of an optional key that is held by value.
pub open spec fn held_key(key: Option<[u8; 16]>) -> Option<Seq<u8>> {
    match key {
        Some(k) => Some(k@),
        None => None,
    }
}

/// An authenticated user as mathematical values.
pub open spec fn user_of(auth: Option<(String, [u8; 16])>) -> Option<(Seq<char>, Seq<u8>)> {
    match auth {
        Some((name, key)) => Some((name@, key@)),
        None => None,
    }
}

impl TurnHandler {
    /// The configuration of the handler.
    pub closed spec fn config(&self) -> Config {
        *self.config
    }

    /// Creates a handler.
    pub fn new(config: Arc<Config>) -> (h: Self)
        ensures
            h.config() == *config,
    {
        Self { config }
    }

    /// The message type of a request with the given bits set.
    fn response_type(request: &StunInfo, bits: u16) -> (t: u16)
        requires
            request@.wf(),
        ensures
            t == u16_at(request@.raw, 0) | bits,
    {
        read_u16(request.raw.as_slice(), 0) | bits
    }

    /// Builds an error response without MESSAGE-INTEGRITY, for errors raised
    /// before the credentials were verified.
    pub fn build_error_response(&self, request: &StunInfo, error: TurnErrorCode) -> (r: Vec<u8>)
        requires
            request@.wf(),
        ensures
            r@ == error_response(request@, error, None),
    {
        self.build_signed_error_response(request, error, None)
    }

    /// Builds an error response, signed when the request was authenticated.
    ///
    /// A client that uses long-term credentials discards an error response
    /// without MESSAGE-INTEGRITY, except for 400, 401 and 438.
    pub fn build_signed_error_response(
        &self,
        request: &StunInfo,
        error: TurnErrorCode,
        key: Option<&[u8; 16]>,
    ) -> (r: Vec<u8>)
        requires
            request@.wf(),
        ensures
            r@ == error_response(request@, error, key_bytes(key)),
    {
        let mut buf = begin(Self::response_type(request, 0x0110), &request.transaction_id);
        append_error(&mut buf, error);
        proof {
            sealed_is_signed(
                error_type(request@),
                request@.transaction_id,
                error_attribute(error),
                key_bytes(key),
            );
        }
        finish(buf, key)
    }

    /// Builds an error response that asks for authentication, with the realm
    /// and a fresh nonce.
    fn build_challenge(&self, request: &StunInfo, error: TurnErrorCode, now_secs: u64) -> (r: Vec<u8>)
        requires
            request@.wf(),
        ensures
            r@ == challenge(self.config(), request@, error, now_secs),
    {
        let mut buf = begin(Self::response_type(request, 0x0110), &request.transaction_id);
        append_error(&mut buf, error);
        append_text(&mut buf, ATTR_REALM, self.config.realm.as_str());
        let nonce = TurnAuth::signed_nonce_at(now_secs, self.config.nonce_secret.as_slice());
        append_text(&mut buf, ATTR_NONCE, nonce.as_str());
        proof {
            let c = self.config();
            let attrs = error_attribute(error) + text_value(ATTR_REALM, c.realm@) + text_value(
                ATTR_NONCE,
                nonce@,
            );
            assert(buf@ =~= header(error_type(request@), 0, request@.transaction_id) + attrs);
            sealed_is_signed(error_type(request@), request@.transaction_id, attrs, None);
        }
        finish(buf, None)
    }

    /// Builds a 401 Unauthorized response with REALM and NONCE.
    pub fn build_unauthorized_response(&self, request: &StunInfo, now_secs: u64) -> (r: Vec<u8>)
        requires
            request@.wf(),
        ensures
            r@ == challenge(self.config(), request@, TurnErrorCode::Unauthorized, now_secs),
    {
        self.build_challenge(request, TurnErrorCode::Unauthorized, now_secs)
    }

    /// Builds a 438 Stale Nonce response with REALM and a fresh NONCE, so that
    /// the client can retry.
    pub fn build_stale_nonce_response(&self, request: &StunInfo, now_secs: u64) -> (r: Vec<u8>)
        requires
            request@.wf(),
        ensures
            r@ == challenge(self.config(), request@, TurnErrorCode::StaleNonce, now_secs),
    {
        self.build_challenge(request, TurnErrorCode::StaleNonce, now_secs)
    }

    /// Builds a STUN Binding response.
    pub fn build_binding_response(&self, request: &StunInfo, client_addr: SocketAddr) -> (r: Vec<u8>)
        ensures
            r@ == binding_response(request@, client_addr),
    {
        let mut buf = begin(BINDING_SUCCESS, &request.transaction_id);
        append_xor_address(
            &mut buf,
            ATTR_XOR_MAPPED_ADDRESS,
            client_addr,
            &request.transaction_id,
        );
        proof {
            sealed_is_signed(
                BINDING_SUCCESS,
                request@.transaction_id,
                attribute(
                    ATTR_XOR_MAPPED_ADDRESS,
                    xor_value(client_addr, request@.transaction_id),
                ),
                None,
            );
        }
        finish(buf, None)
    }

    /// Builds a TURN Allocate success response.
    pub fn build_allocate_response(
        &self,
        request: &StunInfo,
        client_addr: SocketAddr,
        lifetime: u32,
        key: Option<&[u8; 16]>,
    ) -> (r: Vec<u8>)
        ensures
            r@ == allocate_response(
                self.config(),
                request@,
                client_addr,
                lifetime,
                key_bytes(key),
            ),
    {
        let mut buf = begin(ALLOCATE_SUCCESS, &request.transaction_id);
        append_xor_address(
            &mut buf,
            ATTR_XOR_RELAYED_ADDRESS,
            self.config.relay_addr(),
            &request.transaction_id,
        );
        append_xor_address(
            &mut buf,
            ATTR_XOR_MAPPED_ADDRESS,
            client_addr,
            &request.transaction_id,
        );
        append_lifetime(&mut buf, lifetime);
        proof {
            let txn = request@.transaction_id;
            let attrs = attribute(
                ATTR_XOR_RELAYED_ADDRESS,
                xor_value(self.config().spec_relay_addr(), txn),
            ) + attribute(ATTR_XOR_MAPPED_ADDRESS, xor_value(client_addr, txn)) + lifetime_value(
                lifetime,
            );
            assert(buf@ =~= header(ALLOCATE_SUCCESS, 0, txn) + attrs);
            sealed_is_signed(ALLOCATE_SUCCESS, txn, attrs, key_bytes(key));
        }
        finish(buf, key)
    }

    /// Builds a TURN Refresh success response.
    pub fn build_refresh_response(&self, request: &StunInfo, lifetime: u32, key: Option<&[u8; 16]>) -> (r:
        Vec<u8>)
        ensures
            r@ == refresh_response(request@, lifetime, key_bytes(key)),
    {
        let mut buf = begin(REFRESH_SUCCESS, &request.transaction_id);
        append_lifetime(&mut buf, lifetime);
        proof {
            sealed_is_signed(
                REFRESH_SUCCESS,
                request@.transaction_id,
                lifetime_value(lifetime),
                key_bytes(key),
            );
        }
        finish(buf, key)
    }

    /// Builds a success response without attributes of its own.
    pub fn build_success_response(&self, request: &StunInfo, key: Option<&[u8; 16]>) -> (r: Vec<u8>)
        requires
            request@.wf(),
        ensures
            r@ == success_response(request@, key_bytes(key)),
    {
        let buf = begin(Self::response_type(request, 0x0100), &request.transaction_id);
        proof {
            let none = Seq::<u8>::empty();
            assert(buf@ =~= header(success_type(request@), 0, request@.transaction_id) + none);
            sealed_is_signed(
                success_type(request@),
                request@.transaction_id,
                none,
                key_bytes(key),
            );
        }
        finish(buf, key)
    }

    /// Verifies the long-term credentials of a request.
    ///
    /// Returns the user and their key, or the response that refuses the
    /// request: 401 or 438 with REALM and a fresh NONCE, or 400.
    pub fn verify_long_term_credentials(&self, msg: &StunInfo, now_secs: u64) -> (r: Result<
        (String, [u8; 16]),
        Vec<u8>,
    >)
        requires
            msg@.wf(),
        ensures
            match r {
                Ok((user, key)) => credentials_of(self.config(), msg@, now_secs) == Ok::<
                    (Seq<char>, Seq<u8>),
                    Seq<u8>,
                >((user@, key@)),
                Err(response) => credentials_of(self.config(), msg@, now_secs) == Err::<
                    (Seq<char>, Seq<u8>),
                    Seq<u8>,
                >(response@),
            },
    {
        let integrity = match &msg.message_integrity {
            Some(i) => i,
            None => {
                return Err(self.build_unauthorized_response(msg, now_secs));
            },
        };
        let username = match &msg.username {
            Some(u) => u,
            None => {
                return Err(self.build_error_response(msg, TurnErrorCode::BadRequest));
            },
        };
        let password = match self.config.get_password(username.as_str()) {
            Some(p) => p,
            None => {
                return Err(self.build_unauthorized_response(msg, now_secs));
            },
        };
        match &msg.nonce {
            Some(nonce) => {
                if !TurnAuth::validate_signed_nonce_at(
                    nonce.as_str(),
                    self.config.nonce_lifetime_secs,
                    self.config.nonce_secret.as_slice(),
                    now_secs,
                ) {
                    return Err(self.build_stale_nonce_response(msg, now_secs));
                }
            },
            None => {
                return Err(self.build_error_response(msg, TurnErrorCode::BadRequest));
            },
        }
        let realm_matches = match &msg.realm {
            Some(realm) => *realm == self.config.realm,
            None => false,
        };
        if !realm_matches {
            return Err(self.build_unauthorized_response(msg, now_secs));
        }
        let key = TurnAuth::compute_key(username.as_str(), self.config.realm.as_str(), password);
        let offset: usize = match msg.message_integrity_offset {
            Some(o) => o,
            None => {
                return Err(self.build_error_response(msg, TurnErrorCode::BadRequest));
            },
        };
        // The length in the header is to end right after MESSAGE-INTEGRITY.
        let mut covered = slice_to_vec(slice_subrange(msg.raw.as_slice(), 0, offset));
        set_length(&mut covered, low16_sum(offset, 4));
        assert(covered@ == request_covered(msg@, offset as int));
        if !TurnAuth::verify_message_integrity(
            covered.as_slice(),
            integrity.as_slice(),
            key.as_slice(),
        ) {
            return Err(self.build_unauthorized_response(msg, now_secs));
        }
        Ok((username.clone(), key))
    }

    /// Authenticates a request, if credentials are configured.
    fn authenticate(&self, msg: &StunInfo, now_secs: u64) -> (r: Result<
        Option<(String, [u8; 16])>,
        Vec<u8>,
    >)
        requires
            msg@.wf(),
        ensures
            match r {
                Ok(auth) => authenticate(self.config(), msg@, now_secs) == Ok::<
                    Option<(Seq<char>, Seq<u8>)>,
                    Seq<u8>,
                >(user_of(auth)),
                Err(response) => authenticate(self.config(), msg@, now_secs) == Err::<
                    Option<(Seq<char>, Seq<u8>)>,
                    Seq<u8>,
                >(response@),
            },
    {
        if self.config.credentials.len() == 0 {
            return Ok(None);
        }
        match self.verify_long_term_credentials(msg, now_secs) {
            Ok(user) => Ok(Some(user)),
            Err(response) => Err(response),
        }
    }

    /// Authenticates a request on an existing allocation (Refresh,
    /// CreatePermission, ChannelBind) and finds that allocation, which must
    /// belong to the same user.
    ///
    /// Authentication runs before the lookup, so that a missing allocation is
    /// answered with a signed 437: an authenticated client discards an
    /// unsigned one and retransmits until it times out.
    ///
    /// Returns the allocation and the key that every response on this request
    /// is signed with (`None` in anonymous mode), or the error response.
    pub fn authenticate_for_allocation(
        &self,
        msg: &StunInfo,
        src_addr: SocketAddr,
        now_secs: u64,
        allocations: &AllocationTable,
    ) -> (r: Result<(AllocationId, Option<[u8; 16]>), Vec<u8>>)
        requires
            msg@.wf(),
            allocations.wf(),
        ensures
            match r {
                Ok((id, key)) => authorize(
                    self.config(),
                    msg@,
                    src_addr,
                    allocations@,
                    now_secs,
                ) == Ok::<(u64, Option<Seq<u8>>), Seq<u8>>((id.0, held_key(key))),
                Err(response) => authorize(
                    self.config(),
                    msg@,
                    src_addr,
                    allocations@,
                    now_secs,
                ) == Err::<(u64, Option<Seq<u8>>), Seq<u8>>(response@),
            },
    {
        let auth = match self.authenticate(msg, now_secs) {
            Ok(auth) => auth,
            Err(response) => {
                return Err(response);
            },
        };
        let key: Option<[u8; 16]> = match &auth {
            Some((_, k)) => Some(*k),
            None => None,
        };
        match allocations.get_by_client(src_addr) {
            None => Err(
                self.build_signed_error_response(
                    msg,
                    TurnErrorCode::AllocationMismatch,
                    key.as_ref(),
                ),
            ),
            Some(r) => {
                let a = allocation_of(&r);
                if let Some((username, _)) = &auth {
                    if a.username().to_string() != *username {
                        return Err(self.build_unauthorized_response(msg, now_secs));
                    }
                }
                Ok((a.id(), key))
            },
        }
    }

    /// Handles an incoming STUN or TURN message. The clocks are read and the
    /// random bytes drawn once.
    pub fn handle_stun(
        &self,
        msg: &StunInfo,
        src_addr: SocketAddr,
        allocations: &mut AllocationTable,
        rate_limiter: &mut RateLimiter,
        clock: &CoarseClock,
    ) -> (r: Vec<Effect>)
        requires
            msg@.wf(),
            old(allocations).wf(),
        ensures
            final(allocations).wf(),
            final(rate_limiter).base() == old(rate_limiter).base(),
            exists|draw: Draw|
                (Outcome {
                    table: final(allocations)@,
                    limiter: final(rate_limiter)@,
                    effects: effects_of(r@),
                }) == #[trigger] on_stun(
                    self.config(),
                    msg@,
                    src_addr,
                    draw,
                    old(allocations)@,
                    old(rate_limiter)@,
                    clock.ms(),
                ),
    {
        let draw = Draw::take(rate_limiter);
        self.handle_stun_with(msg, src_addr, &draw, allocations, rate_limiter, clock)
    }

    /// Handles an incoming STUN or TURN message.
    pub fn handle_stun_with(
        &self,
        msg: &StunInfo,
        src_addr: SocketAddr,
        draw: &Draw,
        allocations: &mut AllocationTable,
        rate_limiter: &mut RateLimiter,
        clock: &CoarseClock,
    ) -> (r: Vec<Effect>)
        requires
            msg@.wf(),
            old(allocations).wf(),
        ensures
            final(allocations).wf(),
            final(rate_limiter).base() == old(rate_limiter).base(),
            (Outcome {
                table: final(allocations)@,
                limiter: final(rate_limiter)@,
                effects: effects_of(r@),
            }) == on_stun(
                self.config(),
                msg@,
                src_addr,
                *draw,
                old(allocations)@,
                old(rate_limiter)@,
                clock.ms(),
            ),
    {
        let secs: u64 = draw.unix_secs;
        match (msg.class, msg.method) {
            (StunClass::Request, StunMethod::Binding) => self.handle_binding_request(
                msg,
                src_addr,
                allocations,
                clock,
            ),
            (StunClass::Request, StunMethod::Allocate) => self.handle_allocate(
                msg,
                src_addr,
                draw,
                allocations,
                rate_limiter,
                clock,
            ),
            (StunClass::Request, StunMethod::Refresh) => self.handle_refresh(
                msg,
                src_addr,
                secs,
                allocations,
                rate_limiter,
                clock,
            ),
            (StunClass::Request, StunMethod::CreatePermission) => self.handle_create_permission(
                msg,
                src_addr,
                secs,
                allocations,
                clock,
            ),
            (StunClass::Request, StunMethod::ChannelBind) => self.handle_channel_bind(
                msg,
                src_addr,
                secs,
                allocations,
                clock,
            ),
            (StunClass::Indication, StunMethod::Send) => self.handle_send(
                msg,
                src_addr,
                allocations,
            ),
            (StunClass::SuccessResponse, _) => self.handle_client_response(
                msg,
                src_addr,
                allocations,
            ),
            (StunClass::ErrorResponse, _) => self.handle_client_response(
                msg,
                src_addr,
                allocations,
            ),
            _ => no_effects(),
        }
    }

    /// The client that an ICE check for a ufrag is delivered to.
    fn find_ice_target(&self, allocations: &AllocationTable, remote_ufrag: &str, src_addr: SocketAddr) -> (r:
        Option<SocketAddr>)
        requires
            allocations.wf(),
        ensures
            r == ice_target(self.config(), allocations@, remote_ufrag@, src_addr),
    {
        let id = match allocations.lookup_by_ice_ufrag(remote_ufrag) {
            Some(id) => id,
            None => {
                return None;
            },
        };
        match allocations.get(id) {
            Some(r) => {
                let a = allocation_of(&r);
                if a.client_addr() != src_addr && a.is_permitted(self.config.external_ip) {
                    Some(a.client_addr())
                } else {
                    None
                }
            },
            None => None,
        }
    }

    /// Handles a STUN Binding request.
    ///
    /// In single-port TURN, ICE checks may arrive as direct Binding requests,
    /// because the remote relay address is the server's own. Such a check is
    /// delivered to the client whose ICE ufrag it names, or dropped. The server
    /// does not answer it itself, so that consent expires when the peer is gone.
    pub fn handle_binding_request(
        &self,
        msg: &StunInfo,
        src_addr: SocketAddr,
        allocations: &mut AllocationTable,
        clock: &CoarseClock,
    ) -> (r: Vec<Effect>)
        requires
            old(allocations).wf(),
        ensures
            final(allocations).wf(),
            (Step { table: final(allocations)@, effects: effects_of(r@) }) == on_binding(
                self.config(),
                msg@,
                src_addr,
                old(allocations)@,
                clock.ms(),
            ),
    {
        let ip = self.config.external_ip;
        let (id, permitted) = match allocations.get_by_client(src_addr) {
            Some(r) => {
                let a = allocation_of(&r);
                (a.id(), a.is_permitted(ip))
            },
            None => {
                return reply_effects(src_addr, self.build_binding_response(msg, src_addr));
            },
        };
        proof {
            allocations.client_facts(src_addr);
        }
        let pair = msg.parse_ice_username();
        if let Some((remote, local)) = &pair {
            allocations.register_ice_ufrags(id, local.as_str(), remote.as_str());
        }
        if !permitted {
            allocations.add_permission(id, ip);
        }
        allocations.touch_received(id, clock);
        let target = match &pair {
            Some((remote, _)) => self.find_ice_target(allocations, remote.as_str(), src_addr),
            None => None,
        };
        let mut effects = no_effects();
        if let Some(addr) = target {
            push_effect(
                &mut effects,
                send_effect(
                    addr,
                    Datagram::DataIndication {
                        source: self.config.relay_addr(),
                        data: msg.raw.clone(),
                    },
                ),
            );
            assert(effects_of(effects@) =~= seq![
                send_to(
                    addr,
                    DatagramModel::DataIndication {
                        source: self.config().spec_relay_addr(),
                        data: msg@.raw,
                    },
                ),
            ]);
        }
        effects
    }

    /// Handles a STUN response: relays it to the clients that permit its source.
    pub fn handle_client_response(
        &self,
        msg: &StunInfo,
        src_addr: SocketAddr,
        allocations: &AllocationTable,
    ) -> (r: Vec<Effect>)
        requires
            allocations.wf(),
        ensures
            (Step { table: allocations@, effects: effects_of(r@) }) == on_response(
                msg@,
                src_addr,
                allocations@,
            ),
    {
        if allocations.lookup_by_source(src_addr).is_none() {
            return no_effects();
        }
        let ids = allocations.lookup_by_peer_ip(src_addr.ip);
        let n: usize = ids.len();
        let mut targets: Vec<SocketAddr> = Vec::new();
        let mut i: usize = 0;
        assert(nums(ids@).subrange(0, 0) =~= Seq::<u64>::empty());
        assert(targets@ =~= other_clients(allocations@, Seq::<u64>::empty(), src_addr));
        while i < n
            invariant
                i <= n,
                n == ids@.len(),
                allocations.wf(),
                targets@ == other_clients(
                    allocations@,
                    nums(ids@).subrange(0, i as int),
                    src_addr,
                ),
            decreases n - i,
        {
            proof {
                let next = nums(ids@).subrange(0, i + 1);
                assert(next.drop_last() =~= nums(ids@).subrange(0, i as int));
                assert(next.last() == ids@[i as int].0);
            }
            if let Some(r) = allocations.get(ids[i]) {
                let addr = allocation_of(&r).client_addr();
                if addr != src_addr {
                    targets.push(addr);
                }
            }
            i = i + 1;
        }
        assert(nums(ids@).subrange(0, n as int) =~= nums(ids@));
        broadcast_effects(
            targets,
            Datagram::DataIndication { source: src_addr, data: msg.raw.clone() },
        )
    }

    /// Handles a TURN Allocate request: authenticate, check the 5-tuple for an
    /// existing allocation, validate, ask the rate limiter, create.
    pub fn handle_allocate(
        &self,
        msg: &StunInfo,
        src_addr: SocketAddr,
        draw: &Draw,
        allocations: &mut AllocationTable,
        rate_limiter: &mut RateLimiter,
        clock: &CoarseClock,
    ) -> (r: Vec<Effect>)
        requires
            msg@.wf(),
            old(allocations).wf(),
        ensures
            final(allocations).wf(),
            final(rate_limiter).base() == old(rate_limiter).base(),
            (Outcome {
                table: final(allocations)@,
                limiter: final(rate_limiter)@,
                effects: effects_of(r@),
            }) == on_allocate(
                self.config(),
                msg@,
                src_addr,
                *draw,
                old(allocations)@,
                old(rate_limiter)@,
                clock.ms(),
            ),
    {
        let auth = match self.authenticate(msg, draw.unix_secs) {
            Ok(auth) => auth,
            Err(response) => {
                return reply_effects(src_addr, response);
            },
        };
        let key: Option<[u8; 16]> = match &auth {
            Some((_, k)) => Some(*k),
            None => None,
        };
        let existing = match allocations.get_by_client(src_addr) {
            Some(r) => {
                let a = allocation_of(&r);
                Some(
                    (
                        a.id(),
                        a.is_expired(clock),
                        a.was_created_by(&msg.transaction_id),
                        a.remaining_lifetime(clock),
                    ),
                )
            },
            None => None,
        };
        proof {
            allocations.client_facts(src_addr);
        }
        if let Some((id, expired, is_retransmission, lifetime)) = existing {
            if !expired {
                let response = if is_retransmission {
                    self.build_allocate_response(msg, src_addr, lifetime, key.as_ref())
                } else {
                    self.build_signed_error_response(
                        msg,
                        TurnErrorCode::AllocationMismatch,
                        key.as_ref(),
                    )
                };
                return reply_effects(src_addr, response);
            }
            // Lapsed, but not reaped yet: it is not live, and its quota is free.
            if allocations.remove(id) {
                rate_limiter.record_deallocation(src_addr.ip);
            }
        }
        self.allocate(msg, src_addr, auth, draw, allocations, rate_limiter, clock)
    }

    /// Creates an allocation for a source that has none.
    fn allocate(
        &self,
        msg: &StunInfo,
        src_addr: SocketAddr,
        auth: Option<(String, [u8; 16])>,
        draw: &Draw,
        allocations: &mut AllocationTable,
        rate_limiter: &mut RateLimiter,
        clock: &CoarseClock,
    ) -> (r: Vec<Effect>)
        requires
            msg@.wf(),
            old(allocations).wf(),
            !old(allocations)@.is_client(src_addr),
        ensures
            final(allocations).wf(),
            final(rate_limiter).base() == old(rate_limiter).base(),
            (Outcome {
                table: final(allocations)@,
                limiter: final(rate_limiter)@,
                effects: effects_of(r@),
            }) == allocate_new(
                self.config(),
                msg@,
                src_addr,
                user_of(auth),
                *draw,
                old(allocations)@,
                old(rate_limiter)@,
                clock.ms(),
            ),
    {
        let key: Option<[u8; 16]> = match &auth {
            Some((_, k)) => Some(*k),
            None => None,
        };
        if let Some(protocol) = msg.requested_transport {
            if protocol != 17 {
                let response = self.build_signed_error_response(
                    msg,
                    TurnErrorCode::UnsupportedTransport,
                    key.as_ref(),
                );
                return reply_effects(src_addr, response);
            }
        }
        if let Err(e) = rate_limiter.check_allocation_request_at(src_addr.ip, draw.limiter_ns) {
            let code = match e {
                RateLimitError::TooManyRequests => TurnErrorCode::InsufficientCapacity,
                RateLimitError::QuotaExceeded => TurnErrorCode::AllocationQuotaReached,
            };
            let response = self.build_signed_error_response(msg, code, key.as_ref());
            return reply_effects(src_addr, response);
        }
        if !allocations.can_allocate() {
            let response = self.build_signed_error_response(
                msg,
                TurnErrorCode::InsufficientCapacity,
                key.as_ref(),
            );
            return reply_effects(src_addr, response);
        }
        let username: String = match auth {
            Some((name, _)) => name,
            None => match &msg.username {
                Some(name) => name.clone(),
                None => "anonymous".to_string(),
            },
        };
        allocations.create_or_get_with(
            src_addr,
            username,
            60,
            msg.transaction_id,
            &draw.seed,
            clock,
        );
        rate_limiter.record_allocation(src_addr.ip);
        let lifetime: u32 = match allocations.get_by_client(src_addr) {
            Some(r) => allocation_of(&r).remaining_lifetime(clock),
            None => 60,
        };
        reply_effects(
            src_addr,
            self.build_allocate_response(msg, src_addr, lifetime, key.as_ref()),
        )
    }

    /// Handles a TURN Refresh request.
    pub fn handle_refresh(
        &self,
        msg: &StunInfo,
        src_addr: SocketAddr,
        now_secs: u64,
        allocations: &mut AllocationTable,
        rate_limiter: &mut RateLimiter,
        clock: &CoarseClock,
    ) -> (r: Vec<Effect>)
        requires
            msg@.wf(),
            old(allocations).wf(),
        ensures
            final(allocations).wf(),
            final(rate_limiter).base() == old(rate_limiter).base(),
            (Outcome {
                table: final(allocations)@,
                limiter: final(rate_limiter)@,
                effects: effects_of(r@),
            }) == on_refresh(
                self.config(),
                msg@,
                src_addr,
                now_secs,
                old(allocations)@,
                old(rate_limiter)@,
                clock.ms(),
            ),
    {
        let (id, key) = match self.authenticate_for_allocation(
            msg,
            src_addr,
            now_secs,
            allocations,
        ) {
            Ok(v) => v,
            Err(response) => {
                return reply_effects(src_addr, response);
            },
        };
        proof {
            allocations.client_facts(src_addr);
        }
        let requested: u32 = match msg.lifetime {
            Some(s) => s,
            None => 60,
        };
        if requested == 0 {
            if allocations.remove(id) {
                rate_limiter.record_deallocation(src_addr.ip);
            }
            return reply_effects(src_addr, self.build_refresh_response(msg, 0, key.as_ref()));
        }
        let lifetime: u32 = if requested < 10 {
            10
        } else if requested > 60 {
            60
        } else {
            requested
        };
        allocations.refresh(id, lifetime, clock);
        allocations.touch_received(id, clock);
        reply_effects(src_addr, self.build_refresh_response(msg, lifetime, key.as_ref()))
    }

    /// Handles a TURN CreatePermission request.
    pub fn handle_create_permission(
        &self,
        msg: &StunInfo,
        src_addr: SocketAddr,
        now_secs: u64,
        allocations: &mut AllocationTable,
        clock: &CoarseClock,
    ) -> (r: Vec<Effect>)
        requires
            msg@.wf(),
            old(allocations).wf(),
        ensures
            final(allocations).wf(),
            (Step { table: final(allocations)@, effects: effects_of(r@) }) == on_create_permission(
                self.config(),
                msg@,
                src_addr,
                now_secs,
                old(allocations)@,
                clock.ms(),
            ),
    {
        let n: usize = msg.xor_peer_addresses.len();
        if n == 0 {
            let response = self.build_error_response(msg, TurnErrorCode::BadRequest);
            return reply_effects(src_addr, response);
        }
        let (id, key) = match self.authenticate_for_allocation(
            msg,
            src_addr,
            now_secs,
            allocations,
        ) {
            Ok(v) => v,
            Err(response) => {
                return reply_effects(src_addr, response);
            },
        };
        // Only now, so that the response can be signed.
        let ghost peers = msg@.xor_peer_addresses;
        let mut peer_ips: Vec<IpAddr> = Vec::new();
        let mut i: usize = 0;
        while i < n
            invariant
                i <= n,
                n == msg.xor_peer_addresses@.len(),
                msg@.wf(),
                peers == msg.xor_peer_addresses@,
                allocations@ == old(allocations)@,
                allocations.wf(),
                n > 0,
                authorize(self.config(), msg@, src_addr, old(allocations)@, now_secs) == Ok::<
                    (u64, Option<Seq<u8>>),
                    Seq<u8>,
                >((id.0, held_key(key))),
                peer_ips@ == ips_of(peers).subrange(0, i as int),
                forall|j: int| 0 <= j < i ==> !(#[trigger] is_forbidden_ip(peers[j].ip)),
            decreases n - i,
        {
            let ip = msg.xor_peer_addresses[i].ip;
            if is_forbidden_peer_ip(ip) {
                assert(is_forbidden_ip(peers[i as int].ip));
                let response = self.build_signed_error_response(
                    msg,
                    TurnErrorCode::Forbidden,
                    key.as_ref(),
                );
                return reply_effects(src_addr, response);
            }
            peer_ips.push(ip);
            i = i + 1;
            assert(peer_ips@ =~= ips_of(peers).subrange(0, i as int));
        }
        assert(peer_ips@ =~= ips_of(peers));
        allocations.touch_received(id, clock);
        if !allocations.try_add_permissions_capped(
            id,
            peer_ips.as_slice(),
            self.config.max_permissions_per_alloc,
        ) {
            let response = self.build_signed_error_response(
                msg,
                TurnErrorCode::InsufficientCapacity,
                key.as_ref(),
            );
            return reply_effects(src_addr, response);
        }
        reply_effects(src_addr, self.build_success_response(msg, key.as_ref()))
    }

    /// The error that an authorized ChannelBind request is refused with, if
    /// it is, apart from the permission cap.
    fn check_bind(&self, a: &Allocation, channel: u16, peer_addr: SocketAddr) -> (r: Option<
        TurnErrorCode,
    >)
        ensures
            r == if is_forbidden_addr(self.config(), peer_addr) {
                Some(TurnErrorCode::Forbidden)
            } else if binding_conflicts(a@, channel, peer_addr) {
                Some(TurnErrorCode::BadRequest)
            } else if a@.peer_for_channel(channel) is None && a@.channels.len()
                >= self.config().max_channels_per_alloc {
                Some(TurnErrorCode::InsufficientCapacity)
            } else {
                None
            },
    {
        if is_forbidden_peer_addr(&self.config, peer_addr) {
            return Some(TurnErrorCode::Forbidden);
        }
        let bound_peer = a.peer_for_channel(channel);
        // A channel may not be rebound to another peer, nor a peer to another
        // channel, while bound.
        if let Some(p) = bound_peer {
            if p != peer_addr {
                return Some(TurnErrorCode::BadRequest);
            }
        }
        if let Some(c) = a.channel_for_peer(peer_addr) {
            if c != channel {
                return Some(TurnErrorCode::BadRequest);
            }
        }
        // A refresh of the same pair takes no new slot.
        if bound_peer.is_none() && a.channels_count() >= self.config.max_channels_per_alloc {
            return Some(TurnErrorCode::InsufficientCapacity);
        }
        None
    }

    /// Handles a TURN ChannelBind request. The outcome is decided before
    /// anything is changed: an error response leaves the allocation untouched.
    pub fn handle_channel_bind(
        &self,
        msg: &StunInfo,
        src_addr: SocketAddr,
        now_secs: u64,
        allocations: &mut AllocationTable,
        clock: &CoarseClock,
    ) -> (r: Vec<Effect>)
        requires
            msg@.wf(),
            old(allocations).wf(),
        ensures
            final(allocations).wf(),
            (Step { table: final(allocations)@, effects: effects_of(r@) }) == on_channel_bind(
                self.config(),
                msg@,
                src_addr,
                now_secs,
                old(allocations)@,
                clock.ms(),
            ),
    {
        if msg.channel_number.is_none() || msg.xor_peer_addresses.len() == 0 {
            let response = self.build_error_response(msg, TurnErrorCode::BadRequest);
            return reply_effects(src_addr, response);
        }
        let channel: u16 = msg.channel_number.unwrap();
        let peer_addr = msg.xor_peer_addresses[0];
        let (id, key) = match self.authenticate_for_allocation(
            msg,
            src_addr,
            now_secs,
            allocations,
        ) {
            Ok(v) => v,
            Err(response) => {
                return reply_effects(src_addr, response);
            },
        };
        proof {
            allocations.client_facts(src_addr);
        }
        let refused = match allocations.get(id) {
            Some(r) => self.check_bind(allocation_of(&r), channel, peer_addr),
            None => None,
        };
        if let Some(error) = refused {
            let response = self.build_signed_error_response(msg, error, key.as_ref());
            return reply_effects(src_addr, response);
        }
        // The permission for the peer goes through the cap as well, so that
        // ChannelBind is no way around it.
        let mut peer_ips: Vec<IpAddr> = Vec::new();
        peer_ips.push(peer_addr.ip);
        assert(peer_ips@ =~= seq![peer_addr.ip]);
        if !allocations.try_add_permissions_capped(
            id,
            peer_ips.as_slice(),
            self.config.max_permissions_per_alloc,
        ) {
            let response = self.build_signed_error_response(
                msg,
                TurnErrorCode::InsufficientCapacity,
                key.as_ref(),
            );
            return reply_effects(src_addr, response);
        }
        allocations.bind_channel(id, channel, peer_addr);
        allocations.touch_received(id, clock);
        reply_effects(src_addr, self.build_success_response(msg, key.as_ref()))
    }

    /// Who data that a client sends to the relay address is delivered to.
    fn find_relay_targets(
        &self,
        allocations: &AllocationTable,
        id: AllocationId,
        src_addr: SocketAddr,
        data: &Vec<u8>,
        pair: &Option<(String, String)>,
    ) -> (targets: Vec<SocketAddr>)
        requires
            allocations.wf(),
            match *pair {
                Some(p) => check_ufrags(data@) == Some((p.0@, p.1@)),
                None => check_ufrags(data@) is None,
            },
        ensures
            targets@ == relay_targets(self.config(), allocations@, id.0, src_addr, data@),
    {
        let mut targets: Vec<SocketAddr> = Vec::new();
        if let Some((remote, _)) = pair {
            if let Some(addr) = self.find_ice_target(allocations, remote.as_str(), src_addr) {
                targets.push(addr);
                assert(targets@ =~= seq![addr]);
                return targets;
            }
        }
        let ids = ice_peers_of(allocations, id);
        let n: usize = ids.len();
        let ghost c = self.config();
        let mut i: usize = 0;
        assert(nums(ids@).subrange(0, 0) =~= Seq::<u64>::empty());
        assert(targets@ =~= permitting_clients(c, allocations@, Seq::<u64>::empty(), src_addr));
        while i < n
            invariant
                i <= n,
                n == ids@.len(),
                allocations.wf(),
                c == self.config(),
                targets@ == permitting_clients(
                    c,
                    allocations@,
                    nums(ids@).subrange(0, i as int),
                    src_addr,
                ),
            decreases n - i,
        {
            proof {
                let next = nums(ids@).subrange(0, i + 1);
                assert(next.drop_last() =~= nums(ids@).subrange(0, i as int));
                assert(next.last() == ids@[i as int].0);
            }
            if let Some(r) = allocations.get(ids[i]) {
                let a = allocation_of(&r);
                if a.client_addr() != src_addr && a.is_permitted(self.config.external_ip) {
                    targets.push(a.client_addr());
                }
            }
            i = i + 1;
        }
        assert(nums(ids@).subrange(0, n as int) =~= nums(ids@));
        targets
    }

    /// Handles a TURN Send indication.
    ///
    /// Data for the relay's own address goes to another client: a check to the
    /// one whose ICE ufrag it names, anything else to the ICE peer of the
    /// sender. What has no target is dropped, and does not start the timer for
    /// senders without recipients, because checks are sent before a peer exists.
    pub fn handle_send(
        &self,
        msg: &StunInfo,
        src_addr: SocketAddr,
        allocations: &mut AllocationTable,
    ) -> (r: Vec<Effect>)
        requires
            old(allocations).wf(),
        ensures
            final(allocations).wf(),
            (Step { table: final(allocations)@, effects: effects_of(r@) }) == on_send(
                self.config(),
                msg@,
                src_addr,
                old(allocations)@,
            ),
    {
        if msg.xor_peer_addresses.len() == 0 {
            return no_effects();
        }
        let peer_addr = msg.xor_peer_addresses[0];
        if is_forbidden_peer_addr(&self.config, peer_addr) {
            return no_effects();
        }
        let (id, permitted) = match allocations.get_by_client(src_addr) {
            Some(r) => {
                let a = allocation_of(&r);
                (a.id(), a.is_permitted(peer_addr.ip))
            },
            None => {
                return no_effects();
            },
        };
        if !permitted {
            return no_effects();
        }
        let data = match &msg.data {
            Some(d) => d,
            None => {
                return no_effects();
            },
        };
        let relay_addr = self.config.relay_addr();
        if peer_addr == relay_addr {
            let pair = parse_check(data.as_slice());
            if let Some((remote, local)) = &pair {
                allocations.register_ice_ufrags(id, local.as_str(), remote.as_str());
            }
            let targets = self.find_relay_targets(allocations, id, src_addr, data, &pair);
            let relayed = targets.len() > 0;
            let mut effects = broadcast_effects(
                targets,
                Datagram::DataIndication { source: relay_addr, data: data.clone() },
            );
            push_effect(&mut effects, Effect::TouchReceivedFrom { client: src_addr, relayed });
            return effects;
        }
        let mut effects = no_effects();
        match allocations.get_by_client(peer_addr) {
            Some(r) => {
                let b = allocation_of(&r);
                push_effect(
                    &mut effects,
                    send_effect(
                        peer_addr,
                        frame(b.channel_for_peer(src_addr), src_addr, data.clone()),
                    ),
                );
                push_effect(&mut effects, Effect::Touch { id: b.id() });
                push_effect(
                    &mut effects,
                    Effect::TouchReceivedFrom { client: src_addr, relayed: false },
                );
            },
            None => {
                push_effect(&mut effects, send_effect(peer_addr, Datagram::Raw(data.clone())));
                push_effect(
                    &mut effects,
                    Effect::TouchReceivedFrom { client: src_addr, relayed: false },
                );
            },
        }
        assert(effects_of(effects@) =~= on_send(
            self.config(),
            msg@,
            src_addr,
            old(allocations)@,
        ).effects);
        effects
    }
}

/// The allocations that mirror the ICE ufrags of an allocation.
pub fn ice_peers_of(allocations: &AllocationTable, id: AllocationId) -> (ids: Vec<AllocationId>)
    requires
        allocations.wf(),
    ensures
        nums(ids@) == peers_of(allocations@, id.0),
{
    let (local, remote) = match allocations.get(id) {
        Some(r) => {
            let a = allocation_of(&r);
            (a.get_ice_ufrag(), a.get_ice_remote_ufrag())
        },
        None => (None, None),
    };
    match (local, remote) {
        (Some(l), Some(r)) => allocations.find_ice_peers(l.as_str(), r.as_str()),
        _ => {
            let none: Vec<AllocationId> = Vec::new();
            assert(nums(none@) =~= Seq::<u64>::empty());
            none
        },
    }
}

/// The ufrags that data carries, if it is an ICE check.
fn parse_check(data: &[u8]) -> (r: Option<(String, String)>)
    ensures
        match r {
            Some(p) => check_ufrags(data@) == Some((p.0@, p.1@)),
            None => check_ufrags(data@) is None,
        },
{
    match StunInfo::parse(data) {
        Some(m) => if m.method == StunMethod::Binding && m.class == StunClass::Request {
            m.parse_ice_username()
        } else {
            None
        },
        None => None,
    }
}

/// Data for a client: in the channel that is bound to its source, or else in
/// an indication.
pub fn frame(channel: Option<u16>, source: SocketAddr, data: Vec<u8>) -> (d: Datagram)
    ensures
        d@ == match channel {
            Some(c) => DatagramModel::ChannelData { channel: c, data: data@ },
            None => DatagramModel::DataIndication { source, data: data@ },
        },
{
    match channel {
        Some(c) => Datagram::ChannelData { channel: c, data },
        None => Datagram::DataIndication { source, data },
    }
}

/// A datagram for all addresses of a list; nothing if the list is empty.
pub fn broadcast_effects(targets: Vec<SocketAddr>, datagram: Datagram) -> (r: Vec<Effect>)
    ensures
        effects_of(r@) == send_to_all(targets@, datagram@),
{
    let mut effects = no_effects();
    if targets.len() > 0 {
        let e = Effect::Send { to: targets, datagram };
        push_effect(&mut effects, e);
        assert(effects_of(effects@) =~= seq![e@]);
    }
    effects
}

} // verus!
