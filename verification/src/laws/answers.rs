//! What the answers to requests say.

use vstd::prelude::*;
use vstd::utf8::*;

use super::terms::{attribute_at, has_attribute, is_message, is_reply};
use crate::bytes::u16_at;
use crate::config::Config;
use crate::demux::stun::{
    class_of, cookie, method_number, method_of, stun_of, StunClass, StunMethod, StunModel,
    ATTR_NONCE, ATTR_REALM,
};
use crate::net::SocketAddr;
use crate::relay::effect::{reply, DatagramModel, EffectModel};
use crate::turn::auth::{
    hmac_sha1_of, signed_nonce, signed_nonce_is_valid, signed_nonce_lives_for_its_lifetime,
};
use crate::turn::encode::{
    attribute, covered, error_attribute, error_value, header, signed, text_value, ATTR_ERROR_CODE,
};
use crate::turn::laws::{
    challenge_tells_realm_and_nonce, error_value_is_short, nonce_length, utf8_is_short,
};
use crate::turn::message::TurnErrorCode;
use crate::turn::rules::{challenge, error_response, error_type, success_response, success_type};
use crate::turn::wire_laws::attribute_is_padded;

verus! {

/// All that is to be done is to send `bytes` to `to`.
pub open spec fn answers(effects: Seq<EffectModel>, to: SocketAddr, bytes: Seq<u8>) -> bool {
    effects == seq![EffectModel::Send { to: seq![to], datagram: DatagramModel::Raw(bytes) }]
}

/// If there is a key, the last attribute of `bytes` is a MESSAGE-INTEGRITY that
/// verifies under it.
pub open spec fn is_signed_with(bytes: Seq<u8>, key: Option<Seq<u8>>) -> bool {
    key matches Some(k) ==> bytes.len() >= 44 && has_attribute(
        bytes,
        bytes.len() - 24,
        0x0008,
        hmac_sha1_of(k, bytes.subrange(0, bytes.len() - 24)),
    )
}

/// `bytes` is an error response with the given number.
pub open spec fn is_error(bytes: Seq<u8>, msg_type: u16, txn: Seq<u8>, code: int, key: Option<Seq<u8>>) -> bool {
    &&& is_reply(bytes, msg_type, txn)
    &&& is_signed_with(bytes, key)
    &&& exists|value: Seq<u8>| #[trigger]
        has_attribute(bytes, 20, 0x0009, value) && value.len() >= 4 && value[2] * 100 + value[3]
            == code
}

/// The one answer is an error response with the given number.
pub open spec fn refuses(
    effects: Seq<EffectModel>,
    to: SocketAddr,
    msg_type: u16,
    txn: Seq<u8>,
    code: int,
    key: Option<Seq<u8>>,
) -> bool {
    exists|bytes: Seq<u8>| #[trigger]
        answers(effects, to, bytes) && is_error(bytes, msg_type, txn, code, key)
}

/// `bytes` tells the realm, and a nonce that will be accepted.
pub open spec fn tells_realm_and_nonce(c: Config, bytes: Seq<u8>, secs: u64) -> bool {
    stun_of(bytes) matches Some(e) && e.realm == Some(c.realm@) && (e.nonce matches Some(nonce) && (
    c.nonce_lifetime_secs > 0 ==> signed_nonce_is_valid(
        nonce,
        c.nonce_lifetime_secs,
        c.nonce_secret@,
        secs,
    )))
}

/// `bytes` is an error response with the given number that tells the realm, and a
/// nonce that will be accepted.
pub open spec fn is_challenge(c: Config, bytes: Seq<u8>, msg_type: u16, txn: Seq<u8>, code: int, secs: u64) -> bool {
    is_error(bytes, msg_type, txn, code, None) && tells_realm_and_nonce(c, bytes, secs)
}

/// The one answer is a challenge with the given number.
pub open spec fn challenges(
    c: Config,
    effects: Seq<EffectModel>,
    to: SocketAddr,
    msg_type: u16,
    txn: Seq<u8>,
    code: int,
    secs: u64,
) -> bool {
    exists|bytes: Seq<u8>| #[trigger]
        answers(effects, to, bytes) && is_challenge(c, bytes, msg_type, txn, code, secs)
}

/// The one answer is a success response without attributes of its own.
pub open spec fn succeeds(
    effects: Seq<EffectModel>,
    to: SocketAddr,
    msg_type: u16,
    txn: Seq<u8>,
    key: Option<Seq<u8>>,
) -> bool {
    exists|bytes: Seq<u8>| #[trigger]
        answers(effects, to, bytes) && is_reply(bytes, msg_type, txn) && is_signed_with(bytes, key)
}

/// A signed message is a reply, holds its attributes right after its header, and
/// verifies.
pub(crate) proof fn signed_reply(msg_type: u16, txn: Seq<u8>, attrs: Seq<u8>, key: Option<Seq<u8>>) -> (r: (
    Seq<u8>,
    Seq<u8>,
))
    requires
        txn.len() == 12,
        attrs.len() <= 65500,
        attrs.len() % 4 == 0,
    ensures
        r.0.len() == 20,
        signed(msg_type, txn, attrs, key) == r.0 + attrs + r.1,
        is_reply(signed(msg_type, txn, attrs, key), msg_type, txn),
        is_signed_with(signed(msg_type, txn, attrs, key), key),
{
    let bytes = signed(msg_type, txn, attrs, key);
    let len = match key {
        Some(_) => attrs.len() as int + 24,
        None => attrs.len() as int,
    };
    let h = header(msg_type, len, txn);
    let l = (len % 65536) as u16;
    crate::bytes::u16_round_trip(msg_type);
    crate::bytes::u16_round_trip(l);
    let t = crate::bytes::u16_be(msg_type);
    let n = crate::bytes::u16_be(l);
    assert(h.len() == 20);
    assert(h[0] == t[0] && h[1] == t[1] && h[2] == n[0] && h[3] == n[1]);
    assert(h[4] == cookie()[0] && h[5] == cookie()[1] && h[6] == cookie()[2] && h[7]
        == cookie()[3]);
    assert(h.subrange(8, 20) =~= txn);
    let tail = match key {
        Some(k) => seq![0x00u8, 0x08, 0x00, 0x14] + hmac_sha1_of(k, covered(msg_type, txn, attrs)),
        None => Seq::empty(),
    };
    assert(bytes =~= h + attrs + tail);
    assert(bytes.subrange(8, 20) =~= txn);
    assert(forall|i: int| 0 <= i < 8 ==> bytes[i] == h[i]);
    if let Some(k) = key {
        let head = covered(msg_type, txn, attrs);
        let start = bytes.len() - 24;
        assert(bytes.subrange(0, start) =~= head);
        let code = hmac_sha1_of(k, head);
        assert(code.len() == 20);
        assert(bytes.subrange(start + 4, start + 4 + code.len()) =~= code);
        assert(bytes[start] == 0x00 && bytes[start + 1] == 0x08 && bytes[start + 2] == 0x00
            && bytes[start + 3] == 0x14);
    }
    (h, tail)
}

/// What an ERROR-CODE holds.
proof fn error_number(error: TurnErrorCode)
    ensures
        4 <= error_value(error).len() <= 200,
        error_value(error)[2] * 100 + error_value(error)[3] == error.spec_code(),
{
    error_value_is_short(error);
    let reason = encode_utf8(error.spec_reason());
    let code = seq![0u8, 0, (error.spec_code() / 100) as u8, (error.spec_code() % 100) as u8];
    assert(error_value(error) == code + reason);
    assert((code + reason)[2] == code[2] && (code + reason)[3] == code[3]);
}

proof fn first_is_told(msg_type: u16, txn: Seq<u8>, value: Seq<u8>, rest: Seq<u8>, key: Option<Seq<u8>>)
    requires
        txn.len() == 12,
        value.len() <= 200,
        rest.len() <= 64000,
        rest.len() % 4 == 0,
    ensures
        ({
            let bytes = signed(msg_type, txn, attribute(ATTR_ERROR_CODE, value) + rest, key);
            &&& is_reply(bytes, msg_type, txn)
            &&& is_signed_with(bytes, key)
            &&& has_attribute(bytes, 20, 0x0009, value)
        }),
{
    let x = attribute(ATTR_ERROR_CODE, value);
    attribute_is_padded(ATTR_ERROR_CODE, value);
    let (h, tail) = signed_reply(msg_type, txn, x + rest, key);
    assert(h + (x + rest) + tail =~= h + x + (rest + tail));
    attribute_at(signed(msg_type, txn, x + rest, key), h, ATTR_ERROR_CODE, value, rest + tail);
}

/// An error response tells its number.
pub(crate) proof fn error_response_is_error(m: StunModel, error: TurnErrorCode, key: Option<Seq<u8>>)
    requires
        m.transaction_id.len() == 12,
    ensures
        is_error(
            error_response(m, error, key),
            error_type(m),
            m.transaction_id,
            error.spec_code() as int,
            key,
        ),
{
    error_number(error);
    let value = error_value(error);
    first_is_told(error_type(m), m.transaction_id, value, Seq::empty(), key);
    assert(attribute(ATTR_ERROR_CODE, value) + Seq::<u8>::empty() =~= error_attribute(error));
}

proof fn texts_are_padded(realm: Seq<char>, nonce: Seq<char>)
    requires
        encode_utf8(realm).len() <= 60000,
        nonce.len() <= 200,
    ensures
        ({
            let rest = text_value(ATTR_REALM, realm) + text_value(ATTR_NONCE, nonce);
            rest.len() <= 64000 && rest.len() % 4 == 0
        }),
{
    utf8_is_short(nonce);
    attribute_is_padded(ATTR_REALM, encode_utf8(realm));
    attribute_is_padded(ATTR_NONCE, encode_utf8(nonce));
}

proof fn challenge_is_error(c: Config, m: StunModel, error: TurnErrorCode, secs: u64)
    requires
        m.transaction_id.len() == 12,
        encode_utf8(c.realm@).len() <= 60000,
    ensures
        is_error(
            challenge(c, m, error, secs),
            error_type(m),
            m.transaction_id,
            error.spec_code() as int,
            None,
        ),
{
    let nonce = signed_nonce(secs, c.nonce_secret@);
    nonce_length(secs, c.nonce_secret@);
    texts_are_padded(c.realm@, nonce);
    error_number(error);
    let x = error_attribute(error);
    let y = text_value(ATTR_REALM, c.realm@);
    let z = text_value(ATTR_NONCE, nonce);
    first_is_told(error_type(m), m.transaction_id, error_value(error), y + z, None);
    assert(x + y + z =~= x + (y + z));
}

proof fn challenge_tells(c: Config, m: StunModel, error: TurnErrorCode, secs: u64, bytes: Seq<u8>)
    requires
        m.transaction_id.len() == 12,
        class_of(u16_at(m.raw, 0)) == StunClass::Request,
        encode_utf8(c.realm@).len() <= 60000,
        bytes == challenge(c, m, error, secs),
    ensures
        tells_realm_and_nonce(c, bytes, secs),
{
    challenge_tells_realm_and_nonce(c, m, error, secs);
    signed_nonce_lives_for_its_lifetime(secs, c.nonce_lifetime_secs, c.nonce_secret@, secs);
}

/// A challenge tells its number, the realm and a valid nonce.
pub(crate) proof fn challenge_is_challenge(c: Config, m: StunModel, error: TurnErrorCode, secs: u64, bytes: Seq<u8>)
    requires
        m.transaction_id.len() == 12,
        class_of(u16_at(m.raw, 0)) == StunClass::Request,
        encode_utf8(c.realm@).len() <= 60000,
        bytes == challenge(c, m, error, secs),
    ensures
        is_challenge(
            c,
            bytes,
            error_type(m),
            m.transaction_id,
            error.spec_code() as int,
            secs,
        ),
{
    challenge_is_error(c, m, error, secs);
    challenge_tells(c, m, error, secs, bytes);
}

/// The number of a method that is answered.
pub open spec fn request_number(method: StunMethod) -> u16 {
    match method {
        StunMethod::Allocate => 0x0003,
        StunMethod::Refresh => 0x0004,
        StunMethod::CreatePermission => 0x0008,
        _ => 0x0009,
    }
}

/// What is known of a request that is answered.
pub(crate) proof fn request_facts(data: Seq<u8>, m: StunModel, method: StunMethod)
    requires
        is_message(data, m, StunClass::Request, method),
        method is Allocate || method is Refresh || method is CreatePermission
            || method is ChannelBind,
    ensures
        m.transaction_id == data.subrange(8, 20),
        m.transaction_id.len() == 12,
        m.raw == data,
        u16_at(m.raw, 0) == request_number(method),
        class_of(u16_at(m.raw, 0)) == StunClass::Request,
        error_type(m) == 0x0110 + request_number(method),
        success_type(m) == 0x0100 + request_number(method),
{
    let ty = u16_at(data, 0);
    let n = method_number(ty);
    assert(method_of(n) == method);
    assert(n == request_number(method));
    assert(ty < 1024);
    assert(ty == n && (ty | 0x0110u16) == 0x0110 + n && (ty | 0x0100u16) == 0x0100 + n)
        by (bit_vector)
        requires
            ty < 1024,
            ty / 256 % 2 == 0,
            ty / 16 % 2 == 0,
            n == ty / 512 % 32 * 128 + ty / 32 % 8 * 16 + ty % 16,
            n < 16,
    ;
}

/// A success response is one.
pub(crate) proof fn success_is_told(m: StunModel, key: Option<Seq<u8>>)
    requires
        m.transaction_id.len() == 12,
    ensures
        is_reply(success_response(m, key), success_type(m), m.transaction_id),
        is_signed_with(success_response(m, key), key),
{
    let (h, tail) = signed_reply(success_type(m), m.transaction_id, Seq::empty(), key);
}

/// Answering with an error response refuses the request.
pub(crate) proof fn error_refuses(
    effects: Seq<EffectModel>,
    to: SocketAddr,
    m: StunModel,
    error: TurnErrorCode,
    key: Option<Seq<u8>>,
)
    requires
        m.transaction_id.len() == 12,
        effects == reply(to, error_response(m, error, key)),
    ensures
        refuses(effects, to, error_type(m), m.transaction_id, error.spec_code() as int, key),
{
    error_response_is_error(m, error, key);
    assert(answers(effects, to, error_response(m, error, key)));
}

} // verus!
