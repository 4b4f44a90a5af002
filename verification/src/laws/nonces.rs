//! What nonces are made of, and which are accepted.

use vstd::prelude::*;
use vstd::utf8::*;

use crate::bytes::be_bytes;
use crate::text::{split_at_colon, split_joined};
use crate::turn::auth::{
    hex_code, hex_codes, hex_text, hex_value, hmac_sha1_of, signed_nonce, signed_nonce_is_valid,
    signed_nonce_lives_for_its_lifetime, timestamp_of, timestamp_round_trip, timestamp_text,
};

verus! {

/// The number that a hexadecimal digit of either case denotes; -1 for anything else.
pub open spec fn digit_of(code: u8) -> int {
    if '0' as u8 <= code <= '9' as u8 {
        code - '0' as u8
    } else if 'a' as u8 <= code <= 'f' as u8 {
        code - 'a' as u8 + 10
    } else if 'A' as u8 <= code <= 'F' as u8 {
        code - 'A' as u8 + 10
    } else {
        -1
    }
}

/// The number that hexadecimal digits denote.
pub open spec fn number_of(s: Seq<u8>) -> int
    decreases s.len(),
{
    if s.len() == 0 {
        0
    } else {
        number_of(s.drop_last()) * 16 + digit_of(s.last())
    }
}

/// All the bytes are hexadecimal digits.
pub open spec fn are_digits(s: Seq<u8>) -> bool {
    forall|i: int| 0 <= i < s.len() ==> digit_of(#[trigger] s[i]) >= 0
}

proof fn digits_are_read(s: Seq<u8>)
    ensures
        are_digits(s) ==> hex_value(s) == Some(number_of(s)),
        !are_digits(s) ==> hex_value(s) is None,
    decreases s.len(),
{
    if s.len() > 0 {
        let rest = s.drop_last();
        digits_are_read(rest);
        assert(s[s.len() - 1] == s.last());
        assert(are_digits(s) <==> are_digits(rest) && digit_of(s.last()) >= 0) by {
            if are_digits(s) {
                assert forall|i: int| 0 <= i < rest.len() implies digit_of(#[trigger] rest[i]) >= 0 by {
                    assert(rest[i] == s[i]);
                }
            }
            if are_digits(rest) && digit_of(s.last()) >= 0 {
                assert forall|i: int| 0 <= i < s.len() implies digit_of(#[trigger] s[i]) >= 0 by {
                    if i < rest.len() {
                        assert(rest[i] == s[i]);
                    }
                }
            }
        }
    }
}

/// A timestamp is read from one or more hexadecimal digits that denote a number of 64
/// bits, with or without a plus sign before them, and from nothing else.
pub proof fn timestamp_is_read(digits: Seq<u8>)
    requires
        digits.len() > 0 ==> digits[0] != '+' as u8,
    ensures
        digits.len() > 0 && are_digits(digits) && number_of(digits) <= u64::MAX ==> timestamp_of(
            digits,
        ) == Some(number_of(digits) as u64),
        !(digits.len() > 0 && are_digits(digits) && number_of(digits) <= u64::MAX) ==> timestamp_of(
            digits,
        ) is None,
        timestamp_of(seq!['+' as u8] + digits) == timestamp_of(digits),
{
    digits_are_read(digits);
    assert((seq!['+' as u8] + digits).drop_first() =~= digits);
}

/// A nonce from the future is as good as a new one.
pub proof fn future_nonce_is_accepted(secs: u64, max_age_secs: u64, secret: Seq<u8>, now_secs: u64)
    requires
        secs >= now_secs,
    ensures
        signed_nonce_is_valid(signed_nonce(secs, secret), max_age_secs, secret, now_secs)
            <==> max_age_secs > 0,
{
    signed_nonce_lives_for_its_lifetime(secs, max_age_secs, secret, secs);
    timestamp_round_trip(secs);
    nonce_is_split(secs, secret);
}

proof fn nonce_is_split(secs: u64, secret: Seq<u8>)
    ensures
        split_at_colon(signed_nonce(secs, secret)) == Some(
            (
                timestamp_text(secs),
                hex_text(hmac_sha1_of(secret, encode_utf8(timestamp_text(secs)))),
            ),
        ),
{
    let t = timestamp_text(secs);
    let bytes = be_bytes(secs as nat, 8);
    digits_are_written(bytes);
    assert forall|i: int| 0 <= i < t.len() implies t[i] != ':' by {
        assert(digit_of(hex_codes(bytes)[i]) >= 0);
    }
    split_joined(t, hex_text(hmac_sha1_of(secret, encode_utf8(t))));
}

/// A byte string is written in hexadecimal as two digits for each byte, in lower case.
pub proof fn digits_are_written(s: Seq<u8>)
    ensures
        hex_codes(s).len() == 2 * s.len(),
        forall|i: int|
            0 <= i < s.len() ==> {
                let hi = hex_codes(s)[2 * i];
                let lo = hex_codes(s)[2 * i + 1];
                digit_of(hi) * 16 + digit_of(lo) == #[trigger] s[i]
            },
        forall|k: int|
            0 <= k < hex_codes(s).len() ==> digit_of(#[trigger] hex_codes(s)[k]) >= 0 && !('A' as u8
                <= hex_codes(s)[k] <= 'F' as u8),
    decreases s.len(),
{
    if s.len() > 0 {
        let rest = s.drop_last();
        let before = hex_codes(rest);
        let all = hex_codes(s);
        digits_are_written(rest);
        assert(all == before.push(hex_code(s.last() / 16)).push(hex_code(s.last() % 16)));
        assert forall|i: int| 0 <= i < s.len() implies {
            let hi = all[2 * i];
            let lo = all[2 * i + 1];
            digit_of(hi) * 16 + digit_of(lo) == #[trigger] s[i]
        } by {
            if i < rest.len() {
                assert(rest[i] == s[i]);
                assert(all[2 * i] == before[2 * i]);
                assert(all[2 * i + 1] == before[2 * i + 1]);
            }
        }
        assert forall|k: int| 0 <= k < all.len() implies digit_of(#[trigger] all[k]) >= 0 && !('A' as u8
            <= all[k] <= 'F' as u8) by {
            if k < before.len() {
                assert(all[k] == before[k]);
            }
        }
    }
}

/// A nonce is "timestamp:code": sixteen digits that denote the time, a colon, and the
/// code of the digits under the secret of the server. It is accepted exactly if it is
/// of this form, its code is right, and its time is not too long ago.
pub proof fn nonce_is_timestamp_and_code(
    nonce: Seq<char>,
    t: Seq<char>,
    code: Seq<char>,
    max_age_secs: u64,
    secret: Seq<u8>,
    now_secs: u64,
)
    requires
        nonce == t + seq![':'] + code,
        !t.contains(':'),
    ensures
        signed_nonce_is_valid(nonce, max_age_secs, secret, now_secs) <==> {
            &&& code == hex_text(hmac_sha1_of(secret, encode_utf8(t)))
            &&& timestamp_of(encode_utf8(t)) matches Some(secs) && now_secs - secs < max_age_secs
                && max_age_secs > 0
        },
{
    split_joined(t, code);
}

/// A text without a colon is no nonce.
pub proof fn nonce_without_colon_is_refused(nonce: Seq<char>, max_age_secs: u64, secret: Seq<u8>, now_secs: u64)
    requires
        !nonce.contains(':'),
    ensures
        !signed_nonce_is_valid(nonce, max_age_secs, secret, now_secs),
{
    nonce.index_of_first_ensures(':');
}

} // verus!
