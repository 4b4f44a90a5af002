//! Strings: decoding, and the pairs that a colon separates.

use vstd::prelude::*;
use vstd::slice::*;
use vstd::string::*;
use vstd::utf8::*;

verus! {

/// The text that `bytes` encode, if they are valid UTF-8.
pub open spec fn text_of(bytes: Seq<u8>) -> Option<Seq<char>> {
    if valid_utf8(bytes) {
        Some(decode_utf8(bytes))
    } else {
        None
    }
}

/// The characters of an optional string.
pub open spec fn chars_of(s: Option<String>) -> Option<Seq<char>> {
    match s {
        Some(t) => Some(t@),
        None => None,
    }
}

/// The parts of `s` before and after its first colon.
pub open spec fn split_at_colon(s: Seq<char>) -> Option<(Seq<char>, Seq<char>)> {
    if s.contains(':') {
        let i = s.index_of_first(':')->0;
        Some((s.subrange(0, i), s.subrange(i + 1, s.len() as int)))
    } else {
        None
    }
}

/// The characters with the given codes.
pub open spec fn ascii_chars(codes: Seq<u8>) -> Seq<char> {
    Seq::new(codes.len(), |i: int| codes[i] as char)
}

/// Decodes UTF-8 with `String::from_utf8`: it succeeds exactly on valid
/// UTF-8, and the string then holds the characters that the bytes encode.
#[verifier::external_body]
pub(crate) fn decode_string(bytes: Vec<u8>) -> (s: Option<String>)
    ensures
        chars_of(s) == text_of(bytes@),
{
    String::from_utf8(bytes).ok()
}

/// The string of the ASCII characters with the given codes.
pub fn ascii_string(codes: Vec<u8>) -> (s: String)
    requires
        forall|i: int| 0 <= i < codes@.len() ==> codes@[i] < 128,
    ensures
        s@ == ascii_chars(codes@),
{
    proof {
        let cs = ascii_chars(codes@);
        assert(is_ascii_chars(cs));
        is_ascii_chars_encode_utf8(cs);
        assert(encode_utf8(cs) =~= codes@);
        encode_utf8_valid_utf8(cs);
        encode_utf8_decode_utf8(cs);
    }
    match decode_string(codes) {
        Some(s) => s,
        None => String::new(),
    }
}

/// The encoding of a text is the encoding of its parts, one after the other.
pub(crate) proof fn encode_concat(a: Seq<char>, b: Seq<char>)
    ensures
        encode_utf8(a + b) == encode_utf8(a) + encode_utf8(b),
    decreases a.len(),
{
    if a.len() == 0 {
        assert(a + b =~= b);
        assert(encode_utf8(a) + encode_utf8(b) =~= encode_utf8(b));
    } else {
        assert((a + b).drop_first() =~= a.drop_first() + b);
        encode_concat(a.drop_first(), b);
        assert(encode_utf8(a + b) =~= encode_utf8(a) + encode_utf8(b));
    }
}

/// Only a colon is encoded with the byte of a colon.
proof fn scalar_without_colon(c: char)
    requires
        c != ':',
    ensures
        !encode_scalar(c as u32).contains(0x3au8),
{
    char_is_scalar(c);
    let v = c as u32;
    assert(has_width_1_encoding(v) ==> leading_byte_width_1(v) as u32 == v) by (bit_vector);
    assert(leading_byte_width_2(v) >= 0x80 && leading_byte_width_3(v) >= 0x80
        && leading_byte_width_4(v) >= 0x80 && last_continuation_byte(v) >= 0x80
        && second_last_continuation_byte(v) >= 0x80 && third_last_continuation_byte(v) >= 0x80)
        by (bit_vector);
}

/// A text without colons is encoded without the byte of a colon.
proof fn encoding_without_colon(s: Seq<char>)
    requires
        !s.contains(':'),
    ensures
        !encode_utf8(s).contains(0x3au8),
    decreases s.len(),
{
    if s.len() > 0 {
        let rest = s.drop_first();
        assert(s[0] != ':');
        assert forall|i: int| 0 <= i < rest.len() implies rest[i] != ':' by {
            assert(rest[i] == s[i + 1]);
        }
        encoding_without_colon(rest);
        scalar_without_colon(s[0]);
        let head = encode_scalar(s[0] as u32);
        let tail = encode_utf8(rest);
        assert forall|i: int| 0 <= i < encode_utf8(s).len() implies encode_utf8(s)[i] != 0x3au8 by {
            if i < head.len() {
                assert(encode_utf8(s)[i] == head[i]);
            } else {
                assert(encode_utf8(s)[i] == tail[i - head.len()]);
            }
        }
    }
}

/// Where the byte of the first colon stands in the encoding of a text.
proof fn first_colon(s: Seq<char>)
    requires
        s.contains(':'),
    ensures
        split_at_colon(s) matches Some((head, tail)) && {
            &&& encode_utf8(s) == encode_utf8(head) + seq![0x3au8] + encode_utf8(tail)
            &&& !encode_utf8(head).contains(0x3au8)
        },
{
    s.index_of_first_ensures(':');
    let i = s.index_of_first(':')->0;
    let head = s.subrange(0, i);
    let tail = s.subrange(i + 1, s.len() as int);
    assert(s =~= head + seq![':'] + tail);
    encode_concat(head + seq![':'], tail);
    encode_concat(head, seq![':']);
    assert(encode_utf8(seq![':']) =~= seq![0x3au8]) by {
        is_ascii_chars_encode_utf8(seq![':']);
    }
    assert(!head.contains(':'));
    encoding_without_colon(head);
}

/// Two parts joined by a colon are told apart again, if the first has none.
pub proof fn split_joined(head: Seq<char>, tail: Seq<char>)
    requires
        !head.contains(':'),
    ensures
        split_at_colon(head + seq![':'] + tail) == Some((head, tail)),
{
    let s = head + seq![':'] + tail;
    assert(s[head.len() as int] == ':');
    s.index_of_first_ensures(':');
    let i = s.index_of_first(':')->0;
    if i < head.len() {
        assert(head[i] == s[i]);
    }
    assert(s.subrange(0, i) =~= head);
    assert(s.subrange(i + 1, s.len() as int) =~= tail);
}

/// Splits `s` at its first colon.
pub fn split_pair(s: &str) -> (r: Option<(String, String)>)
    ensures
        match r {
            Some(p) => split_at_colon(s@) == Some((p.0@, p.1@)),
            None => split_at_colon(s@) is None,
        },
{
    let bytes = s.as_bytes();
    let n: usize = bytes.len();
    let mut i: usize = 0;
    while i < n
        invariant
            i <= n,
            n == bytes@.len(),
            bytes@ == encode_utf8(s@),
            forall|j: int| 0 <= j < i ==> bytes@[j] != 0x3au8,
        decreases n - i,
    {
        if bytes[i] == 0x3a {
            proof {
                if !s@.contains(':') {
                    encoding_without_colon(s@);
                    assert(bytes@.contains(0x3au8));
                }
                first_colon(s@);
                let (head, tail) = split_at_colon(s@)->0;
                let h = encode_utf8(head);
                assert(bytes@[h.len() as int] == 0x3au8);
                if i < h.len() {
                    assert(h[i as int] == bytes@[i as int]);
                }
                assert(bytes@.subrange(0, i as int) =~= h);
                assert(bytes@.subrange(i + 1, n as int) =~= encode_utf8(tail));
                encode_utf8_valid_utf8(head);
                encode_utf8_valid_utf8(tail);
                encode_utf8_decode_utf8(head);
                encode_utf8_decode_utf8(tail);
            }
            let first = decode_string(slice_to_vec(slice_subrange(bytes, 0, i)));
            let second = decode_string(slice_to_vec(slice_subrange(bytes, i + 1, n)));
            return match (first, second) {
                (Some(a), Some(b)) => Some((a, b)),
                _ => None,
            };
        }
        i = i + 1;
    }
    proof {
        if s@.contains(':') {
            first_colon(s@);
            let head = encode_utf8((split_at_colon(s@)->0).0);
            assert(bytes@[head.len() as int] == 0x3au8);
        }
    }
    None
}

/// The codes of the decimal digits of a number.
pub open spec fn decimal_codes(n: nat) -> Seq<u8>
    decreases n,
{
    if n < 10 {
        seq![(48 + n) as u8]
    } else {
        decimal_codes(n / 10).push((48 + n % 10) as u8)
    }
}

/// Appends the decimal digits of a number.
pub fn push_decimal(codes: &mut Vec<u8>, n: u64)
    ensures
        final(codes)@ == old(codes)@ + decimal_codes(n as nat),
    decreases n,
{
    if n >= 10 {
        push_decimal(codes, n / 10);
    }
    codes.push((48 + n % 10) as u8);
    assert(codes@ =~= old(codes)@ + decimal_codes(n as nat));
}

/// Decimal digits are digits, and there is at least one.
pub proof fn decimal_is_digits(n: nat)
    ensures
        decimal_codes(n).len() > 0,
        forall|i: int| 0 <= i < decimal_codes(n).len() ==> 48 <= #[trigger] decimal_codes(n)[i] <= 57,
    decreases n,
{
    if n >= 10 {
        decimal_is_digits(n / 10);
    }
}

} // verus!
