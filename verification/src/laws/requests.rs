//! Who may make requests, and what a request that may not be made is answered.

use vstd::prelude::*;
use vstd::utf8::*;

use super::answers::{
    answers, challenge_is_challenge, challenges, error_response_is_error, refuses, request_facts,
    request_number,
};
use super::media::is_no_client;
use super::terms::{found_at, is_at, is_message};
use crate::config::Config;
use crate::demux::stun::{StunClass, StunModel};
use crate::lookup::laws::client_is_indexed;
use crate::lookup::model::{AllocModel, TableModel};
use crate::lookup::rate_limit::LimiterModel;
use crate::net::SocketAddr;
use crate::relay::effect::reply;
use crate::server::on_packet;
use crate::turn::auth::{hmac_sha1_of, key_of, signed_nonce_is_valid};
use crate::turn::encode::with_length;
use crate::turn::message::TurnErrorCode;
use crate::turn::rules::{authenticate, authorize, challenge, error_response, key_part, Draw};

verus! {

/// The nonce of the message is one that the server gave out not too long ago.
pub open spec fn has_valid_nonce(c: Config, m: StunModel, secs: u64) -> bool {
    m.nonce matches Some(nonce) && signed_nonce_is_valid(
        nonce,
        c.nonce_lifetime_secs,
        c.nonce_secret@,
        secs,
    )
}

/// The MESSAGE-INTEGRITY of the message verifies under the key: it is the code of
/// all that stands before it, with a length that counts it in.
pub open spec fn verifies(m: StunModel, key: Seq<u8>) -> bool {
    m.message_integrity matches Some(code) && m.message_integrity_offset matches Some(at) && code
        == hmac_sha1_of(key, with_length(m.raw.subrange(0, at as int), at + 4))
}

/// The message is signed by a configured user, for this realm and with a valid
/// nonce; `key` is the key of that user.
pub open spec fn is_signed_by(c: Config, m: StunModel, secs: u64, user: Seq<char>, key: Seq<u8>) -> bool {
    &&& m.username == Some(user)
    &&& m.realm == Some(c.realm@)
    &&& has_valid_nonce(c, m, secs)
    &&& c.spec_password(user) matches Some(password) && key == key_of(user, c.realm@, password)
    &&& verifies(m, key)
}

/// Where credentials are configured, exactly the requests that one of the users
/// signed are accepted, as coming from that user. Where none are, every request is
/// accepted, as coming from nobody.
pub proof fn signature_decides(c: Config, m: StunModel, secs: u64)
    ensures
        c.credentials@.len() == 0 ==> authenticate(c, m, secs) == Ok::<
            Option<(Seq<char>, Seq<u8>)>,
            Seq<u8>,
        >(None),
        c.credentials@.len() > 0 ==> forall|user: Seq<char>, key: Seq<u8>| #[trigger]
            is_signed_by(c, m, secs, user, key) <==> authenticate(c, m, secs) == Ok::<
                Option<(Seq<char>, Seq<u8>)>,
                Seq<u8>,
            >(Some((user, key))),
        c.credentials@.len() > 0 && authenticate(c, m, secs) is Ok ==> exists|
            user: Seq<char>,
            key: Seq<u8>,
        | #[trigger] is_signed_by(c, m, secs, user, key),
{
    if c.credentials@.len() > 0 {
        assert forall|user: Seq<char>, key: Seq<u8>| #[trigger]
            is_signed_by(c, m, secs, user, key) <==> authenticate(c, m, secs) == Ok::<
                Option<(Seq<char>, Seq<u8>)>,
                Seq<u8>,
            >(Some((user, key))) by {
            if let Some(at) = m.message_integrity_offset {
                assert(at as int - 20 + 24 == at + 4);
            }
        }
        if let Ok(auth) = authenticate(c, m, secs) {
            let (user, key) = auth->0;
            assert(is_signed_by(c, m, secs, user, key));
        }
    }
}

/// A request is authorized for an allocation exactly if it is accepted as coming
/// from nobody, or from the user that the allocation belongs to.
pub proof fn owner_is_authorized(
    c: Config,
    m: StunModel,
    src: SocketAddr,
    t: TableModel,
    secs: u64,
    id: u64,
    a: AllocModel,
)
    requires
        t.wf(),
        is_at(t, id, a, src),
    ensures
        match authenticate(c, m, secs) {
            Ok(None) => authorize(c, m, src, t, secs) == Ok::<(u64, Option<Seq<u8>>), Seq<u8>>(
                (id, None),
            ),
            Ok(Some((user, key))) => if user == a.username {
                authorize(c, m, src, t, secs) == Ok::<(u64, Option<Seq<u8>>), Seq<u8>>(
                    (id, Some(key)),
                )
            } else {
                authorize(c, m, src, t, secs) is Err
            },
            Err(_) => authorize(c, m, src, t, secs) is Err,
        },
{
    found_at(t, id, a, src);
}

/// What is asked for is in the request, as far as it must be.
pub open spec fn is_complete(m: StunModel) -> bool {
    &&& m.method is CreatePermission || m.method is ChannelBind ==> m.xor_peer_addresses.len() > 0
    &&& m.method is ChannelBind ==> m.channel_number is Some
}

/// A CreatePermission without a peer, or a ChannelBind without a channel or a peer,
/// is a bad request, whoever makes it.
pub proof fn incomplete_request_is_refused(
    c: Config,
    data: Seq<u8>,
    src: SocketAddr,
    draw: Draw,
    t: TableModel,
    l: LimiterModel,
    now_ms: u64,
    m: StunModel,
)
    requires
        is_message(data, m, StunClass::Request, m.method),
        m.method is CreatePermission || m.method is ChannelBind,
        !is_complete(m),
    ensures
        ({
            let o = on_packet(c, data, src, draw, t, l, now_ms);
            &&& o.table == t
            &&& o.limiter == l
            &&& refuses(
                o.effects,
                src,
                (0x0110 + request_number(m.method)) as u16,
                data.subrange(8, 20),
                400,
                None,
            )
        }),
{
    request_facts(data, m, m.method);
    error_response_is_error(m, TurnErrorCode::BadRequest, None);
    let bytes = error_response(m, TurnErrorCode::BadRequest, None);
    let o = on_packet(c, data, src, draw, t, l, now_ms);
    assert(o.effects == reply(src, bytes));
    assert(answers(o.effects, src, bytes));
}

proof fn authentication_fails_with(c: Config, m: StunModel, secs: u64)
    requires
        c.credentials@.len() > 0,
    ensures
        ({
            let user = m.username->0;
            let key = key_of(user, c.realm@, c.spec_password(user)->0);
            let bad = error_response(m, TurnErrorCode::BadRequest, None);
            let unauthorized = challenge(c, m, TurnErrorCode::Unauthorized, secs);
            let stale = challenge(c, m, TurnErrorCode::StaleNonce, secs);
            let r = authenticate(c, m, secs);
            if m.message_integrity is None {
                r == Err::<Option<(Seq<char>, Seq<u8>)>, Seq<u8>>(unauthorized)
            } else if m.username is None {
                r == Err::<Option<(Seq<char>, Seq<u8>)>, Seq<u8>>(bad)
            } else if c.spec_password(user) is None {
                r == Err::<Option<(Seq<char>, Seq<u8>)>, Seq<u8>>(unauthorized)
            } else if m.nonce is None {
                r == Err::<Option<(Seq<char>, Seq<u8>)>, Seq<u8>>(bad)
            } else if !has_valid_nonce(c, m, secs) {
                r == Err::<Option<(Seq<char>, Seq<u8>)>, Seq<u8>>(stale)
            } else if m.realm != Some(c.realm@) {
                r == Err::<Option<(Seq<char>, Seq<u8>)>, Seq<u8>>(unauthorized)
            } else if m.message_integrity_offset is Some && !verifies(m, key) {
                r == Err::<Option<(Seq<char>, Seq<u8>)>, Seq<u8>>(unauthorized)
            } else {
                r is Ok || m.message_integrity_offset is None
            }
        }),
{
    if let Some(at) = m.message_integrity_offset {
        assert(at as int - 20 + 24 == at + 4);
    }
}

/// Where credentials are configured, a request that is not properly signed is
/// refused and changes nothing. Without a signature, with the name of an unknown
/// user, for another realm or with a signature that does not verify, it is answered
/// with a challenge, 401. With a nonce that is not valid any more it is answered
/// with a challenge, 438. Without a name or a nonce beside the signature it is a
/// bad request.
pub proof fn unsigned_request_is_refused(
    c: Config,
    data: Seq<u8>,
    src: SocketAddr,
    draw: Draw,
    t: TableModel,
    l: LimiterModel,
    now_ms: u64,
    m: StunModel,
)
    requires
        is_message(data, m, StunClass::Request, m.method),
        m.method is Allocate || m.method is Refresh || m.method is CreatePermission
            || m.method is ChannelBind,
        is_complete(m),
        c.credentials@.len() > 0,
        encode_utf8(c.realm@).len() <= 60000,
    ensures
        ({
            let o = on_packet(c, data, src, draw, t, l, now_ms);
            let secs = draw.unix_secs;
            let msg_type = (0x0110 + request_number(m.method)) as u16;
            let txn = data.subrange(8, 20);
            let user = m.username->0;
            let key = key_of(user, c.realm@, c.spec_password(user)->0);
            let is_known_user = m.username is Some && c.spec_password(user) is Some;
            &&& authenticate(c, m, secs) is Err ==> o.table == t && o.limiter == l
            &&& m.message_integrity is None ==> challenges(
                c,
                o.effects,
                src,
                msg_type,
                txn,
                401,
                secs,
            )
            &&& m.message_integrity is Some && m.username is None ==> refuses(
                o.effects,
                src,
                msg_type,
                txn,
                400,
                None,
            )
            &&& m.message_integrity is Some && m.username is Some && !is_known_user ==> challenges(
                c,
                o.effects,
                src,
                msg_type,
                txn,
                401,
                secs,
            )
            &&& m.message_integrity is Some && is_known_user && m.nonce is None ==> refuses(
                o.effects,
                src,
                msg_type,
                txn,
                400,
                None,
            )
            &&& m.message_integrity is Some && is_known_user && m.nonce is Some && !has_valid_nonce(
                c,
                m,
                secs,
            ) ==> challenges(c, o.effects, src, msg_type, txn, 438, secs)
            &&& m.message_integrity is Some && is_known_user && has_valid_nonce(c, m, secs)
                && m.realm != Some(c.realm@) ==> challenges(
                c,
                o.effects,
                src,
                msg_type,
                txn,
                401,
                secs,
            )
            &&& m.message_integrity is Some && m.message_integrity_offset is Some && is_known_user
                && has_valid_nonce(c, m, secs) && m.realm == Some(c.realm@) && !verifies(m, key)
                ==> challenges(c, o.effects, src, msg_type, txn, 401, secs)
        }),
{
    let secs = draw.unix_secs;
    request_facts(data, m, m.method);
    authentication_fails_with(c, m, secs);
    error_response_is_error(m, TurnErrorCode::BadRequest, None);
    challenge_is_challenge(
        c,
        m,
        TurnErrorCode::Unauthorized,
        secs,
        challenge(c, m, TurnErrorCode::Unauthorized, secs),
    );
    challenge_is_challenge(
        c,
        m,
        TurnErrorCode::StaleNonce,
        secs,
        challenge(c, m, TurnErrorCode::StaleNonce, secs),
    );
    refusal_is_sent(c, data, src, draw, t, l, now_ms, m);
}

/// What refuses a request is all that is done.
proof fn refusal_is_sent(
    c: Config,
    data: Seq<u8>,
    src: SocketAddr,
    draw: Draw,
    t: TableModel,
    l: LimiterModel,
    now_ms: u64,
    m: StunModel,
)
    requires
        is_message(data, m, StunClass::Request, m.method),
        m.method is Allocate || m.method is Refresh || m.method is CreatePermission
            || m.method is ChannelBind,
        is_complete(m),
    ensures
        ({
            let o = on_packet(c, data, src, draw, t, l, now_ms);
            &&& authenticate(c, m, draw.unix_secs) matches Err(r) ==> o.table == t && o.limiter == l
                && answers(o.effects, src, r)
            &&& !(m.method is Allocate) ==> (authorize(c, m, src, t, draw.unix_secs) matches Err(r)
                ==> o.table == t && o.limiter == l && answers(o.effects, src, r))
        }),
{
}

/// A request on an allocation, other than Allocate, that comes from an address
/// without one is answered with a mismatch, 437. One from a user that the allocation
/// does not belong to is answered with a challenge, 401. Neither changes anything.
pub proof fn stranger_is_refused(
    c: Config,
    data: Seq<u8>,
    src: SocketAddr,
    draw: Draw,
    t: TableModel,
    l: LimiterModel,
    now_ms: u64,
    m: StunModel,
)
    requires
        t.wf(),
        is_message(data, m, StunClass::Request, m.method),
        m.method is Refresh || m.method is CreatePermission || m.method is ChannelBind,
        is_complete(m),
        encode_utf8(c.realm@).len() <= 60000,
    ensures
        ({
            let o = on_packet(c, data, src, draw, t, l, now_ms);
            let secs = draw.unix_secs;
            let msg_type = (0x0110 + request_number(m.method)) as u16;
            let txn = data.subrange(8, 20);
            &&& is_no_client(t, src) ==> o.table == t && o.limiter == l
            &&& is_no_client(t, src) ==> (authenticate(c, m, secs) matches Ok(auth) ==> refuses(
                o.effects,
                src,
                msg_type,
                txn,
                437,
                match auth {
                    Some((_, key)) => Some(key),
                    None => None,
                },
            ))
            &&& forall|id: u64, a: AllocModel, user: Seq<char>, key: Seq<u8>|
                #![trigger is_at(t, id, a, src), is_signed_by(c, m, secs, user, key)]
                c.credentials@.len() > 0 && is_at(t, id, a, src) && is_signed_by(
                    c,
                    m,
                    secs,
                    user,
                    key,
                ) && user != a.username ==> o.table == t && o.limiter == l && challenges(
                    c,
                    o.effects,
                    src,
                    msg_type,
                    txn,
                    401,
                    secs,
                )
        }),
{
    let secs = draw.unix_secs;
    let o = on_packet(c, data, src, draw, t, l, now_ms);
    let msg_type = (0x0110 + request_number(m.method)) as u16;
    let txn = data.subrange(8, 20);
    request_facts(data, m, m.method);
    signature_decides(c, m, secs);
    refusal_is_sent(c, data, src, draw, t, l, now_ms, m);
    client_is_indexed(t, src);
    if is_no_client(t, src) {
        if let Some(a) = t.client(src) {
            assert(t.allocations.contains_key(a.id));
        }
        if let Ok(auth) = authenticate(c, m, secs) {
            error_response_is_error(m, TurnErrorCode::AllocationMismatch, key_part(auth));
        }
    }
    let response = challenge(c, m, TurnErrorCode::Unauthorized, secs);
    challenge_is_challenge(c, m, TurnErrorCode::Unauthorized, secs, response);
    assert forall|id: u64, a: AllocModel, user: Seq<char>, key: Seq<u8>|
        #![trigger is_at(t, id, a, src), is_signed_by(c, m, secs, user, key)]
        c.credentials@.len() > 0 && is_at(t, id, a, src) && is_signed_by(c, m, secs, user, key)
            && user != a.username implies o.table == t && o.limiter == l && challenges(
        c,
        o.effects,
        src,
        msg_type,
        txn,
        401,
        secs,
    ) by {
        found_at(t, id, a, src);
        assert(authorize(c, m, src, t, secs) == Err::<(u64, Option<Seq<u8>>), Seq<u8>>(response));
        assert(answers(o.effects, src, response));
    }
}

} // verus!
