//! TURN authentication with long-term credentials.

use hmac::{Hmac, Mac};
use sha1::Sha1;
use vstd::prelude::*;
use vstd::string::*;
use vstd::utf8::*;

use crate::bytes::{be_bytes, be_round_trip, be_value, octets, pow256, push_bytes};
use crate::coarse_time::unix_secs;
use crate::text::{ascii_chars, ascii_string, split_at_colon, split_pair};

verus! {

/// The MD5 digest of a byte string.
pub uninterp spec fn md5_of(data: Seq<u8>) -> Seq<u8>;

/// The HMAC-SHA1 of a message under a key, which is 20 bytes.
pub uninterp spec fn hmac_sha1_code(key: Seq<u8>, message: Seq<u8>) -> [u8; 20];

/// The bytes of the HMAC-SHA1 of a message under a key.
pub open spec fn hmac_sha1_of(key: Seq<u8>, message: Seq<u8>) -> Seq<u8> {
    hmac_sha1_code(key, message)@
}

/// `md5::compute`: the digest is a function of the bytes alone.
#[verifier::external_body]
fn md5_digest(data: &[u8]) -> (digest: [u8; 16])
    ensures
        digest@ == md5_of(data@),
{
    md5::compute(data).0
}

/// HMAC-SHA1 by the `hmac` and `sha1` crates: `new_from_slice` takes a key of
/// any length, and the code, 20 bytes, is a function of key and message alone.
#[verifier::external_body]
fn hmac_sha1(key: &[u8], message: &[u8]) -> (code: [u8; 20])
    ensures
        code@ == hmac_sha1_code(key@, message@)@,
{
    let mut mac = Hmac::<Sha1>::new_from_slice(key).expect("HMAC takes keys of any length");
    mac.update(message);
    mac.finalize().into_bytes().into()
}

/// What the key of a user is the digest of: "username:realm:password".
pub open spec fn key_material(username: Seq<char>, realm: Seq<char>, password: Seq<char>) -> Seq<u8> {
    encode_utf8(username) + seq![0x3au8] + encode_utf8(realm) + seq![0x3au8] + encode_utf8(password)
}

/// The long-term credential key of a user.
pub open spec fn key_of(username: Seq<char>, realm: Seq<char>, password: Seq<char>) -> Seq<u8> {
    md5_of(key_material(username, realm, password))
}

/// The code of a hexadecimal digit, in lower case.
pub open spec fn hex_code(d: u8) -> u8 {
    if d < 10 {
        (48 + d) as u8
    } else {
        (87 + d) as u8
    }
}

/// The codes of the hexadecimal digits of a byte string.
pub open spec fn hex_codes(s: Seq<u8>) -> Seq<u8>
    decreases s.len(),
{
    if s.len() == 0 {
        Seq::empty()
    } else {
        hex_codes(s.drop_last()).push(hex_code(s.last() / 16)).push(hex_code(s.last() % 16))
    }
}

/// A byte string in hexadecimal.
pub open spec fn hex_text(s: Seq<u8>) -> Seq<char> {
    ascii_chars(hex_codes(s))
}

/// A timestamp as a nonce holds it: sixteen hexadecimal digits.
pub open spec fn timestamp_text(secs: u64) -> Seq<char> {
    hex_text(be_bytes(secs as nat, 8))
}

/// The value of a hexadecimal digit in either case.
pub open spec fn digit_value(code: u8) -> Option<int> {
    if 48 <= code <= 57 {
        Some(code - 48)
    } else if 97 <= code <= 102 {
        Some(code - 87)
    } else if 65 <= code <= 70 {
        Some(code - 55)
    } else {
        None
    }
}

/// The number that hexadecimal digits denote; `None` if one of them is no digit.
pub open spec fn hex_value(s: Seq<u8>) -> Option<int>
    decreases s.len(),
{
    if s.len() == 0 {
        Some(0)
    } else {
        match (hex_value(s.drop_last()), digit_value(s.last())) {
            (Some(v), Some(d)) => Some(16 * v + d),
            _ => None,
        }
    }
}

/// The timestamp in a text: at least one hexadecimal digit, after an optional
/// plus sign, denoting a number of 64 bits.
pub open spec fn timestamp_of(s: Seq<u8>) -> Option<u64> {
    let digits = if s.len() > 0 && s[0] == 43 {
        s.drop_first()
    } else {
        s
    };
    match hex_value(digits) {
        Some(v) if digits.len() > 0 && v <= u64::MAX => Some(v as u64),
        _ => None,
    }
}

/// Whether `nonce` is a timestamp less than `max_age_secs` before `now_secs`.
/// One from the future counts as no age at all.
pub open spec fn nonce_is_fresh(nonce: Seq<char>, max_age_secs: u64, now_secs: u64) -> bool {
    match timestamp_of(encode_utf8(nonce)) {
        Some(t) => (if t <= now_secs {
            now_secs - t
        } else {
            0
        }) < max_age_secs,
        None => false,
    }
}

/// The nonce "timestamp:HMAC(timestamp, secret)", the code in hexadecimal.
pub open spec fn signed_nonce(secs: u64, secret: Seq<u8>) -> Seq<char> {
    let t = timestamp_text(secs);
    t + seq![':'] + hex_text(hmac_sha1_of(secret, encode_utf8(t)))
}

/// Whether `nonce` was signed with `secret` and its timestamp is fresh.
pub open spec fn signed_nonce_is_valid(
    nonce: Seq<char>,
    max_age_secs: u64,
    secret: Seq<u8>,
    now_secs: u64,
) -> bool {
    match split_at_colon(nonce) {
        Some((t, code)) => nonce_is_fresh(t, max_age_secs, now_secs) && code == hex_text(
            hmac_sha1_of(secret, encode_utf8(t)),
        ),
        None => false,
    }
}

/// TURN authentication helper.
pub struct TurnAuth;

impl TurnAuth {
    /// The long-term credential key: MD5(username ":" realm ":" password).
    pub fn compute_key(username: &str, realm: &str, password: &str) -> (key: [u8; 16])
        ensures
            key@ == key_of(username@, realm@, password@),
    {
        let mut input: Vec<u8> = Vec::new();
        push_bytes(&mut input, username.as_bytes());
        input.push(0x3a);
        push_bytes(&mut input, realm.as_bytes());
        input.push(0x3a);
        push_bytes(&mut input, password.as_bytes());
        assert(input@ =~= key_material(username@, realm@, password@));
        md5_digest(input.as_slice())
    }

    /// The value of MESSAGE-INTEGRITY: the HMAC-SHA1 of the message up to, but
    /// not including, that attribute.
    pub fn compute_message_integrity(message: &[u8], key: &[u8]) -> (code: [u8; 20])
        ensures
            code@ == hmac_sha1_of(key@, message@),
    {
        hmac_sha1(key, message)
    }

    /// Checks MESSAGE-INTEGRITY, in a time that does not depend on where the
    /// first difference stands.
    pub fn verify_message_integrity(message: &[u8], received_integrity: &[u8], key: &[u8]) -> (r: bool)
        ensures
            r == (received_integrity@ == hmac_sha1_of(key@, message@)),
    {
        let computed = Self::compute_message_integrity(message, key);
        if received_integrity.len() != 20 {
            return false;
        }
        let mut diff: u8 = 0;
        let mut i: usize = 0;
        while i < 20
            invariant
                i <= 20,
                received_integrity@.len() == 20,
                diff == 0 <==> forall|j: int|
                    0 <= j < i ==> computed@[j] == received_integrity@[j],
            decreases 20 - i,
        {
            let a: u8 = computed[i];
            let b: u8 = received_integrity[i];
            assert(diff | (a ^ b) == 0 <==> diff == 0 && a == b) by (bit_vector);
            diff = diff | (a ^ b);
            i = i + 1;
        }
        proof {
            if diff == 0 {
                assert(computed@ =~= received_integrity@);
            }
        }
        diff == 0
    }

    /// Generates a nonce value: the current time.
    pub fn generate_nonce() -> (nonce: String)
        ensures
            exists|secs: u64| nonce@ == #[trigger] timestamp_text(secs),
    {
        Self::nonce_at(unix_secs())
    }

    /// The nonce for the time `secs`.
    pub fn nonce_at(secs: u64) -> (nonce: String)
        ensures
            nonce@ == timestamp_text(secs),
    {
        hex_string(octets(secs as u128, 8).as_slice())
    }

    /// Checks that a nonce is not too old.
    pub fn validate_nonce(nonce: &str, max_age_secs: u64) -> (r: bool)
        ensures
            exists|now: u64| r == #[trigger] nonce_is_fresh(nonce@, max_age_secs, now),
    {
        Self::validate_nonce_at(nonce, max_age_secs, unix_secs())
    }

    /// Checks that a nonce is not too old at the time `now_secs`.
    pub fn validate_nonce_at(nonce: &str, max_age_secs: u64, now_secs: u64) -> (r: bool)
        ensures
            r == nonce_is_fresh(nonce@, max_age_secs, now_secs),
    {
        match parse_timestamp(nonce.as_bytes()) {
            Some(t) => {
                let age: u64 = if t <= now_secs {
                    now_secs - t
                } else {
                    0
                };
                age < max_age_secs
            },
            None => false,
        }
    }

    /// The nonce for the time `secs`, signed with the server's secret.
    pub fn signed_nonce_at(secs: u64, secret: &[u8]) -> (nonce: String)
        ensures
            nonce@ == signed_nonce(secs, secret@),
    {
        let mut nonce = Self::nonce_at(secs);
        let code = hmac_sha1(secret, nonce.as_str().as_bytes());
        proof {
            reveal_strlit(":");
            assert(":"@ =~= seq![':']);
        }
        let suffix = hex_string(code.as_slice());
        nonce.append(":");
        nonce.append(suffix.as_str());
        nonce
    }

    /// Checks that a nonce was signed with the server's secret and is not too
    /// old at the time `now_secs`.
    pub fn validate_signed_nonce_at(nonce: &str, max_age_secs: u64, secret: &[u8], now_secs: u64) -> (r:
        bool)
        ensures
            r == signed_nonce_is_valid(nonce@, max_age_secs, secret@, now_secs),
    {
        match split_pair(nonce) {
            Some((timestamp, code)) => {
                let expected = hex_string(
                    hmac_sha1(secret, timestamp.as_str().as_bytes()).as_slice(),
                );
                Self::validate_nonce_at(timestamp.as_str(), max_age_secs, now_secs) && code
                    == expected
            },
            None => false,
        }
    }
}

/// A byte string in hexadecimal.
fn hex_string(s: &[u8]) -> (text: String)
    ensures
        text@ == hex_text(s@),
{
    let n: usize = s.len();
    let mut codes: Vec<u8> = Vec::new();
    let mut i: usize = 0;
    assert(s@.subrange(0, 0) =~= Seq::<u8>::empty());
    while i < n
        invariant
            i <= n,
            n == s@.len(),
            codes@ == hex_codes(s@.subrange(0, i as int)),
            forall|j: int| 0 <= j < codes@.len() ==> codes@[j] < 128,
        decreases n - i,
    {
        let b: u8 = s[i];
        codes.push(hex_digit(b / 16));
        codes.push(hex_digit(b % 16));
        proof {
            let next = s@.subrange(0, i + 1);
            assert(next.drop_last() =~= s@.subrange(0, i as int));
        }
        i = i + 1;
    }
    assert(s@.subrange(0, n as int) =~= s@);
    ascii_string(codes)
}

fn hex_digit(d: u8) -> (code: u8)
    requires
        d < 16,
    ensures
        code == hex_code(d),
        code < 128,
{
    if d < 10 {
        48 + d
    } else {
        87 + d
    }
}

/// The timestamp in a text, if it holds one.
fn parse_timestamp(s: &[u8]) -> (r: Option<u64>)
    ensures
        r == timestamp_of(s@),
{
    let n: usize = s.len();
    let start: usize = if n > 0 && s[0] == 43 {
        1
    } else {
        0
    };
    if start == n {
        return None;
    }
    let ghost digits = s@.subrange(start as int, n as int);
    proof {
        if n > 0 && s@[0] == 43 {
            assert(digits =~= s@.drop_first());
        } else {
            assert(digits =~= s@);
        }
    }
    let mut v: u64 = 0;
    let mut i: usize = start;
    assert(s@.subrange(start as int, start as int) =~= Seq::<u8>::empty());
    while i < n
        invariant
            start <= i <= n,
            n == s@.len(),
            digits == s@.subrange(start as int, n as int),
            hex_value(s@.subrange(start as int, i as int)) == Some(v as int),
            timestamp_of(s@) == (match hex_value(digits) {
                Some(w) if digits.len() > 0 && w <= u64::MAX => Some(w as u64),
                _ => None,
            }),
        decreases n - i,
    {
        let code: u8 = s[i];
        proof {
            let next = s@.subrange(start as int, i + 1);
            assert(next.drop_last() =~= s@.subrange(start as int, i as int));
            hex_value_prefix(digits, i + 1 - start);
            assert(digits.subrange(0, i + 1 - start) =~= next);
        }
        let d: u8 = if 48 <= code && code <= 57 {
            code - 48
        } else if 97 <= code && code <= 102 {
            code - 87
        } else if 65 <= code && code <= 70 {
            code - 55
        } else {
            return None;
        };
        if v > (u64::MAX - d as u64) / 16 {
            return None;
        }
        v = 16 * v + d as u64;
        i = i + 1;
    }
    Some(v)
}

/// More digits denote no smaller a number, and do not mend a wrong one.
proof fn hex_value_prefix(s: Seq<u8>, n: int)
    requires
        0 <= n <= s.len(),
    ensures
        match (hex_value(s.subrange(0, n)), hex_value(s)) {
            (Some(a), Some(b)) => 0 <= a <= b,
            (None, r) => r is None,
            (Some(a), None) => 0 <= a,
        },
    decreases s.len(),
{
    if n == s.len() {
        assert(s.subrange(0, n) =~= s);
        if s.len() > 0 {
            hex_value_prefix(s.drop_last(), s.len() - 1);
            assert(s.drop_last().subrange(0, s.len() - 1) =~= s.drop_last());
        }
    } else {
        hex_value_prefix(s.drop_last(), n);
        assert(s.drop_last().subrange(0, n) =~= s.subrange(0, n));
    }
}

/// Hexadecimal digits are ASCII, two for each byte, and denote what the bytes denote.
proof fn hex_codes_value(s: Seq<u8>)
    ensures
        hex_codes(s).len() == 2 * s.len(),
        forall|i: int| 0 <= i < hex_codes(s).len() ==> (#[trigger] hex_codes(s)[i]) < 128
            && hex_codes(s)[i] != 43 && hex_codes(s)[i] != 58,
        hex_value(hex_codes(s)) == Some(be_value(s) as int),
    decreases s.len(),
{
    if s.len() > 0 {
        hex_codes_value(s.drop_last());
        let h = hex_codes(s.drop_last());
        let hi = hex_code(s.last() / 16);
        let lo = hex_code(s.last() % 16);
        assert(h.push(hi).drop_last() =~= h);
        assert(hex_codes(s).drop_last() =~= h.push(hi));
        assert(hex_value(h.push(hi)) == Some(16 * be_value(s.drop_last()) + s.last() / 16));
    }
}

/// A text of ASCII codes is encoded as those codes.
proof fn encode_ascii(codes: Seq<u8>)
    requires
        forall|i: int| 0 <= i < codes.len() ==> codes[i] < 128,
    ensures
        encode_utf8(ascii_chars(codes)) == codes,
{
    let cs = ascii_chars(codes);
    assert(is_ascii_chars(cs));
    is_ascii_chars_encode_utf8(cs);
    assert(encode_utf8(cs) =~= codes);
}

/// The timestamp of a generated nonce is the time it was generated for.
pub proof fn timestamp_round_trip(secs: u64)
    ensures
        timestamp_text(secs).len() == 16,
        timestamp_of(encode_utf8(timestamp_text(secs))) == Some(secs),
{
    assert(pow256(8) == 0x1_0000_0000_0000_0000) by {
        reveal_with_fuel(pow256, 9);
    }
    be_round_trip(secs as nat, 8);
    hex_codes_value(be_bytes(secs as nat, 8));
    encode_ascii(hex_codes(be_bytes(secs as nat, 8)));
}

/// A nonce is accepted from the time it was generated until it is
/// `max_age_secs` old, and refused from then on.
pub proof fn nonce_lives_for_its_lifetime(secs: u64, max_age_secs: u64, now_secs: u64)
    requires
        secs <= now_secs,
    ensures
        nonce_is_fresh(timestamp_text(secs), max_age_secs, now_secs) <==> now_secs - secs
            < max_age_secs,
{
    timestamp_round_trip(secs);
}

/// A signed nonce is accepted by the server that signed it from the time it
/// was generated until it is `max_age_secs` old, and refused from then on.
pub proof fn signed_nonce_lives_for_its_lifetime(
    secs: u64,
    max_age_secs: u64,
    secret: Seq<u8>,
    now_secs: u64,
)
    requires
        secs <= now_secs,
    ensures
        signed_nonce_is_valid(signed_nonce(secs, secret), max_age_secs, secret, now_secs)
            <==> now_secs - secs < max_age_secs,
{
    nonce_lives_for_its_lifetime(secs, max_age_secs, now_secs);
    let digits = be_bytes(secs as nat, 8);
    hex_codes_value(digits);
    let t = timestamp_text(secs);
    let code = hex_text(hmac_sha1_of(secret, encode_utf8(t)));
    assert forall|i: int| 0 <= i < t.len() implies t[i] != ':' by {
        assert(hex_codes(digits)[i] != 58);
    }
    crate::text::split_joined(t, code);
}

/// A nonce signed with one secret is refused by a server with another, unless
/// the two secrets sign its timestamp alike.
pub proof fn foreign_nonce_is_refused(
    secs: u64,
    max_age_secs: u64,
    secret: Seq<u8>,
    other: Seq<u8>,
    now_secs: u64,
)
    ensures
        hex_text(hmac_sha1_of(secret, encode_utf8(timestamp_text(secs)))) != hex_text(
            hmac_sha1_of(other, encode_utf8(timestamp_text(secs))),
        ) ==> !signed_nonce_is_valid(signed_nonce(secs, secret), max_age_secs, other, now_secs),
{
    let digits = be_bytes(secs as nat, 8);
    hex_codes_value(digits);
    let t = timestamp_text(secs);
    assert forall|i: int| 0 <= i < t.len() implies t[i] != ':' by {
        assert(hex_codes(digits)[i] != 58);
    }
    crate::text::split_joined(t, hex_text(hmac_sha1_of(secret, encode_utf8(t))));
}

} // verus!
