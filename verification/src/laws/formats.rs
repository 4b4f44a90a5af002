//! What the bytes on the wire and the texts of the configuration mean.

use vstd::prelude::*;
use vstd::utf8::*;

use super::answers::signed_reply;
use super::channel::{holds, is_stun_like};
use super::lifetimes::{address_attribute_len, address_is_told, address_len, tells_address};
use super::terms::{attribute_at, has_attribute, is_reply};
use crate::bytes::{
    be_value, be_value_bound, pow256, pow256_of_16, u16_at, u16_be, u16_round_trip, xor_bytes,
};
use crate::coarse_time::clock_ms;
use crate::config::{credentials_in, Config};
use crate::demux::protocol::{packet_of, PacketModel};
use crate::demux::rtp::rtp_of;
use crate::demux::stun::{
    address_mask, attributes, class_of, cookie, kept_of, last_of_push_auto, method_number,
    method_of, stun_of, xor_address_of, Attribute, AttrsModel, StunClass, StunMethod, StunModel,
};
use crate::lookup::model::ufrag_of;
use crate::net::{IpAddr, SocketAddr};
use crate::relay::effect::DatagramModel;
use crate::relay::rules::{looks_like_dtls, looks_like_rtp, looks_like_stun};
use crate::text::{decimal_codes, encode_concat, split_at_colon, split_joined, text_of};
use crate::turn::auth::{key_of, md5_of};
use crate::turn::encode::{attribute, channel_data, data_indication, xor_value};
use crate::turn::message::{code_digits, TurnErrorCode};
use crate::turn::rules::{is_forbidden_addr, is_forbidden_ip};
use crate::turn::wire_laws::attribute_is_padded;

verus! {

/// The big-endian number in two bytes.
pub open spec fn two_bytes(data: Seq<u8>, at: int) -> int {
    data[at] * 0x100 + data[at + 1]
}

/// The big-endian number in four bytes.
pub open spec fn four_bytes(data: Seq<u8>, at: int) -> int {
    data[at] * 0x1000000 + data[at + 1] * 0x10000 + data[at + 2] * 0x100 + data[at + 3]
}

/// The datagram is an RTCP packet: version 2, a packet type of RTCP, and as many
/// words as its length says, with room for the report blocks of a report.
pub open spec fn has_rtcp_shape(data: Seq<u8>) -> bool {
    let words = two_bytes(data, 2) + 1;
    let blocks = data[0] % 32;
    &&& data.len() >= 8
    &&& 128 <= data[0] <= 191
    &&& 200 <= data[1] <= 204
    &&& words * 4 <= data.len()
    &&& data[1] == 200 ==> words >= 7 + blocks * 6
    &&& data[1] == 201 ==> words >= 2 + blocks * 6
}

/// The datagram starts with a whole RTP header.
pub open spec fn has_rtp_shape(data: Seq<u8>) -> bool {
    data.len() >= 12 && 128 <= data[0] <= 191 && data.len() >= 12 + data[0] % 16 * 4
}

/// Every datagram is told by its bytes. A first byte up to 3 and a whole message with
/// the cookie make it STUN; 20 to 63 make it DTLS; 64 to 127 and a whole payload make it
/// ChannelData; 128 to 191 make it RTCP if it has that shape, and else RTP if it has
/// that one.
pub proof fn packets_are_told_apart(data: Seq<u8>)
    ensures
        packet_of(data) is Stun <==> is_stun_like(data) && data.len() >= 20 + two_bytes(data, 2),
        packet_of(data) is Dtls <==> data.len() > 0 && 20 <= data[0] <= 63,
        forall|channel: u16, payload: Seq<u8>| #[trigger]
            holds(data, channel, payload) <==> packet_of(data) == (PacketModel::TurnChannelData {
                channel,
                data: payload,
            }),
        packet_of(data) is Rtcp <==> has_rtcp_shape(data),
        packet_of(data) is Rtp <==> has_rtp_shape(data) && !has_rtcp_shape(data),
        packet_of(data) matches PacketModel::Rtp { ssrc, data: d } ==> ssrc == four_bytes(data, 8)
            && d == data,
        packet_of(data) matches PacketModel::Stun(m) ==> stun_of(data) == Some(m) && m.raw == data,
{
    if data.len() >= 20 {
        let s = data.subrange(4, 8);
        assert(s[0] == data[4] && s[1] == data[5] && s[2] == data[6] && s[3] == data[7]);
        if is_stun_like(data) {
            assert(s =~= cookie());
        }
    }
    assert forall|channel: u16, payload: Seq<u8>| #[trigger]
        holds(data, channel, payload) <==> packet_of(data) == (PacketModel::TurnChannelData {
            channel,
            data: payload,
        }) by {
        if packet_of(data) == (PacketModel::TurnChannelData { channel, data: payload }) {
            assert(payload == data.subrange(4, 4 + u16_at(data, 2)));
        }
    }
}

/// The fields of an RTP header are the bits of its bytes.
pub proof fn rtp_header_is_read(data: Seq<u8>)
    ensures
        rtp_of(data) is Some <==> has_rtp_shape(data),
        rtp_of(data) matches Some(h) ==> {
            &&& h.version == 2
            &&& h.csrc_count < 16
            &&& h.payload_type < 128
            &&& data[0] == 128 + (if h.padding {
                32int
            } else {
                0
            }) + (if h.extension {
                16int
            } else {
                0
            }) + h.csrc_count
            &&& data[1] == (if h.marker {
                128int
            } else {
                0
            }) + h.payload_type
            &&& h.sequence_number == two_bytes(data, 2)
            &&& h.timestamp == four_bytes(data, 4)
            &&& h.ssrc == four_bytes(data, 8)
        },
{
}

/// What relayed data looks like is told by its first bytes.
pub proof fn looks_are_told_by_bytes(data: Seq<u8>)
    ensures
        looks_like_stun(data) <==> is_stun_like(data),
        looks_like_dtls(data) <==> data.len() >= 3 && 0x14 <= data[0] <= 0x19 && data[1] == 0xfe,
        looks_like_rtp(data) <==> data.len() >= 2 && !(data.len() >= 3 && 0x14 <= data[0] <= 0x19
            && data[1] == 0xfe) && !(64 <= data[1] < 96) && !(192 <= data[1] < 224),
{
    if data.len() >= 20 {
        let s = data.subrange(4, 8);
        assert(s[0] == data[4] && s[1] == data[5] && s[2] == data[6] && s[3] == data[7]);
        if is_stun_like(data) {
            assert(s =~= cookie());
        }
    }
}

/// The type of a message is its method with the two bits of its class between: bit 4
/// for an indication or an error, bit 8 for a response.
pub proof fn type_is_method_and_class(method: u16, low: u16, high: u16)
    requires
        method < 0x1000,
        low <= 1,
        high <= 1,
    ensures
        ({
            let msg_type = (method % 16 + low * 16 + method / 16 % 8 * 32 + high * 256 + method / 128
                * 512) as u16;
            &&& method_number(msg_type) == method
            &&& class_of(msg_type) == if high == 0 && low == 0 {
                StunClass::Request
            } else if high == 0 {
                StunClass::Indication
            } else if low == 0 {
                StunClass::SuccessResponse
            } else {
                StunClass::ErrorResponse
            }
        }),
{
    let ty = (method % 16 + low * 16 + method / 16 % 8 * 32 + high * 256 + method / 128 * 512) as u16;
    assert(ty / 512 % 32 * 128 + ty / 32 % 8 * 16 + ty % 16 == method && ty / 256 % 2 == high && ty
        / 16 % 2 == low) by (bit_vector)
        requires
            method < 0x1000,
            low <= 1,
            high <= 1,
            ty == method % 16 + low * 16 + method / 16 % 8 * 32 + high * 256 + method / 128 * 512,
    ;
}

/// The methods have the numbers that STUN and TURN give them.
pub proof fn methods_are_numbered(n: u16)
    ensures
        method_of(n) == StunMethod::Binding <==> n == 1,
        method_of(n) == StunMethod::Allocate <==> n == 3,
        method_of(n) == StunMethod::Refresh <==> n == 4,
        method_of(n) == StunMethod::Send <==> n == 6,
        method_of(n) == StunMethod::Data <==> n == 7,
        method_of(n) == StunMethod::CreatePermission <==> n == 8,
        method_of(n) == StunMethod::ChannelBind <==> n == 9,
        method_of(n) matches StunMethod::Unknown(k) ==> k == n,
{
}

/// What is kept of the attributes before an attribute and of it together: it sets the
/// field of its type if it is valid, and leaves all others as they were. Of attributes
/// of one type the last counts, but the peers of all are kept in order.
pub proof fn attribute_sets_its_field(attrs: Seq<Attribute>, a: Attribute, txn: Seq<u8>)
    ensures
        ({
            let before = kept_of(attrs, txn);
            let after = kept_of(attrs.push(a), txn);
            let v = a.value;
            let is_channel = v.len() >= 2 && 0x4000 <= two_bytes(v, 0) <= 0x7fff;
            &&& after.username == if a.kind == 0x0006 {
                text_of(v)
            } else {
                before.username
            }
            &&& after.realm == if a.kind == 0x0014 {
                text_of(v)
            } else {
                before.realm
            }
            &&& after.nonce == if a.kind == 0x0015 {
                text_of(v)
            } else {
                before.nonce
            }
            &&& after.data == if a.kind == 0x0013 {
                Some(v)
            } else {
                before.data
            }
            &&& a.kind == 0x000c && is_channel ==> after.channel_number == Some(
                two_bytes(v, 0) as u16,
            )
            &&& !(a.kind == 0x000c && is_channel) ==> after.channel_number == before.channel_number
            &&& a.kind == 0x000d && v.len() >= 4 ==> after.lifetime == Some(four_bytes(v, 0) as u32)
            &&& !(a.kind == 0x000d && v.len() >= 4) ==> after.lifetime == before.lifetime
            &&& a.kind == 0x0019 && v.len() > 0 ==> after.requested_transport == Some(v[0])
            &&& !(a.kind == 0x0019 && v.len() > 0) ==> after.requested_transport
                == before.requested_transport
            &&& a.kind == 0x0008 && v.len() == 20 ==> after.message_integrity == Some(v)
                && after.message_integrity_offset == Some((20 + a.offset) as usize)
            &&& !(a.kind == 0x0008 && v.len() == 20) ==> after.message_integrity
                == before.message_integrity && after.message_integrity_offset
                == before.message_integrity_offset
            &&& a.kind == 0x0012 && xor_address_of(v, txn) is Some ==> after.xor_peer_addresses
                == before.xor_peer_addresses.push(xor_address_of(v, txn)->0)
            &&& !(a.kind == 0x0012 && xor_address_of(v, txn) is Some) ==> after.xor_peer_addresses
                == before.xor_peer_addresses
        }),
{
    broadcast use last_of_push_auto;

    assert(attrs.push(a).drop_last() =~= attrs);
    assert(attrs.push(a).last() == a);
}

/// Without attributes there is nothing to keep.
pub proof fn nothing_is_kept_of_nothing(txn: Seq<u8>)
    ensures
        kept_of(Seq::empty(), txn) == (AttrsModel {
            username: None,
            xor_peer_addresses: Seq::empty(),
            channel_number: None,
            lifetime: None,
            data: None,
            realm: None,
            nonce: None,
            message_integrity: None,
            message_integrity_offset: None,
            requested_transport: None,
        }),
{
}

/// An IPv4 address is read from an attribute octet by octet, each masked with the
/// cookie, and the port with its first half.
pub proof fn v4_address_is_read(
    value: Seq<u8>,
    txn: Seq<u8>,
    a: u8,
    b: u8,
    c: u8,
    d: u8,
    hi: u8,
    lo: u8,
)
    requires
        value.len() == 8,
        value[1] == 1,
        value[2] == hi ^ 0x21,
        value[3] == lo ^ 0x12,
        value[4] == a ^ 0x21,
        value[5] == b ^ 0x12,
        value[6] == c ^ 0xa4,
        value[7] == d ^ 0x42,
    ensures
        xor_address_of(value, txn) == Some(
            SocketAddr {
                ip: IpAddr::V4((a * 0x1000000 + b * 0x10000 + c * 0x100 + d) as u32),
                port: (hi * 0x100 + lo) as u16,
                flow_info: 0,
                scope_id: 0,
            },
        ),
{
    let octets = xor_bytes(value.subrange(4, 8), address_mask(txn));
    let mask = address_mask(txn);
    assert(mask[0] == 0x21 && mask[1] == 0x12 && mask[2] == 0xa4 && mask[3] == 0x42);
    assert((a ^ 0x21) ^ 0x21 == a && (b ^ 0x12) ^ 0x12 == b && (c ^ 0xa4) ^ 0xa4 == c && (d ^ 0x42)
        ^ 0x42 == d) by (bit_vector);
    assert(octets[0] == a && octets[1] == b && octets[2] == c && octets[3] == d);
    port_is_unmasked(value, hi, lo);
}

proof fn port_is_unmasked(value: Seq<u8>, hi: u8, lo: u8)
    requires
        value[2] == hi ^ 0x21,
        value[3] == lo ^ 0x12,
    ensures
        u16_at(value, 2) ^ 0x2112u16 == hi * 0x100 + lo,
{
    let x = hi ^ 0x21;
    let y = lo ^ 0x12;
    let m = u16_at(value, 2);
    assert(m ^ 0x2112u16 == hi * 0x100 + lo) by (bit_vector)
        requires
            x == hi ^ 0x21,
            y == lo ^ 0x12,
            m == x * 256 + y,
    ;
}

/// An IPv6 address is read from an attribute in the same way, where the mask goes on
/// with the transaction id.
pub proof fn v6_address_is_read(value: Seq<u8>, txn: Seq<u8>, octets: Seq<u8>, hi: u8, lo: u8)
    requires
        value.len() == 20,
        txn.len() == 12,
        octets.len() == 16,
        value[1] == 2,
        value[2] == hi ^ 0x21,
        value[3] == lo ^ 0x12,
        value[4] == octets[0] ^ 0x21,
        value[5] == octets[1] ^ 0x12,
        value[6] == octets[2] ^ 0xa4,
        value[7] == octets[3] ^ 0x42,
        forall|i: int| 4 <= i < 16 ==> value[i + 4] == #[trigger] octets[i] ^ txn[i - 4],
    ensures
        xor_address_of(value, txn) == Some(
            SocketAddr {
                ip: IpAddr::V6(be_value(octets) as u128),
                port: (hi * 0x100 + lo) as u16,
                flow_info: 0,
                scope_id: 0,
            },
        ),
{
    let mask = address_mask(txn);
    let read = xor_bytes(value.subrange(4, 20), mask);
    assert(mask[0] == 0x21 && mask[1] == 0x12 && mask[2] == 0xa4 && mask[3] == 0x42);
    assert forall|i: int| 0 <= i < 16 implies read[i] == octets[i] by {
        let (o, k) = (octets[i], mask[i]);
        assert((o ^ k) ^ k == o) by (bit_vector);
        assert(value.subrange(4, 20)[i] == value[i + 4]);
        if i >= 4 {
            assert(mask[i] == txn[i - 4]);
        }
    }
    assert(read =~= octets);
    port_is_unmasked(value, hi, lo);
}

/// An IPv4 address is forbidden exactly if it is loopback, multicast, the broadcast
/// address, unspecified or link-local; in IPv6 dress it is judged alike.
pub proof fn forbidden_v4_by_octets(a: u8, b: u8, c: u8, d: u8)
    ensures
        ({
            let ip = (a * 0x1000000 + b * 0x10000 + c * 0x100 + d) as u32;
            let mapped = (0xffff_0000_0000 + ip) as u128;
            &&& is_forbidden_ip(IpAddr::V4(ip)) <==> {
                ||| a == 127
                ||| 224 <= a <= 239
                ||| a == 255 && b == 255 && c == 255 && d == 255
                ||| a == 0 && b == 0 && c == 0 && d == 0
                ||| a == 169 && b == 254
            }
            &&& is_forbidden_ip(IpAddr::V6(mapped)) == is_forbidden_ip(IpAddr::V4(ip))
        }),
{
}

/// An IPv6 address that maps no IPv4 address is forbidden exactly if it is loopback,
/// unspecified, multicast or link-local, which the first 16 bits tell.
pub proof fn forbidden_v6_by_segments(first: u16, rest: u128)
    requires
        rest < 0x1_0000_0000_0000_0000_0000_0000_0000,
        !(first == 0 && rest / 0x1_0000_0000 == 0xffff),
    ensures
        is_forbidden_ip(
            IpAddr::V6((first * 0x1_0000_0000_0000_0000_0000_0000_0000 + rest) as u128),
        ) <==> {
            ||| first == 0 && rest <= 1
            ||| 0xff00 <= first
            ||| 0xfe80 <= first <= 0xfebf
        },
{
}

/// A peer is forbidden exactly if its IP is, or if it is the server's own IP on another
/// port than the relay's.
pub proof fn forbidden_address(c: Config, addr: SocketAddr)
    ensures
        is_forbidden_addr(c, addr) <==> is_forbidden_ip(addr.ip) || addr.ip == c.external_ip
            && addr.port != c.port,
{
}

/// A text is split at its first colon, and only there.
pub proof fn split_is_at_the_first_colon(s: Seq<char>)
    ensures
        split_at_colon(s) is None <==> !s.contains(':'),
        split_at_colon(s) matches Some((head, tail)) ==> s == head + seq![':'] + tail
            && !head.contains(':'),
{
    if s.contains(':') {
        s.index_of_first_ensures(':');
        let i = s.index_of_first(':')->0;
        let head = s.subrange(0, i);
        assert(s =~= head + seq![':'] + s.subrange(i + 1, s.len() as int));
        if head.contains(':') {
            let j = choose|j: int| 0 <= j < head.len() && head[j] == ':';
            assert(s[j] == ':');
        }
    }
}

/// Each text "user:password" adds that user with that password; one without a colon
/// adds nothing.
pub proof fn credentials_are_read(users: Seq<Seq<char>>, user: Seq<char>, password: Seq<char>, other: Seq<char>)
    ensures
        credentials_in(Seq::empty()) == Seq::<(Seq<char>, Seq<char>)>::empty(),
        !user.contains(':') ==> credentials_in(users.push(user + seq![':'] + password))
            == credentials_in(users).push((user, password)),
        !other.contains(':') ==> credentials_in(users.push(other)) == credentials_in(users),
{
    let entry = user + seq![':'] + password;
    assert(users.push(entry).drop_last() =~= users);
    assert(users.push(other).drop_last() =~= users);
    if !user.contains(':') {
        split_joined(user, password);
    }
}

/// The clock shows whole milliseconds.
pub proof fn clock_shows_milliseconds(elapsed_ns: u128)
    requires
        elapsed_ns / 1_000_000 <= u64::MAX,
    ensures
        clock_ms(elapsed_ns) * 1_000_000 <= elapsed_ns < (clock_ms(elapsed_ns) + 1) * 1_000_000,
{
}

/// The number that decimal digits denote.
pub open spec fn decimal_value(codes: Seq<u8>) -> int
    decreases codes.len(),
{
    if codes.len() == 0 {
        0
    } else {
        decimal_value(codes.drop_last()) * 10 + (codes.last() - 48)
    }
}

/// The decimal digits of a number denote it, and the first is no zero unless it is the
/// only one.
pub proof fn decimal_is_read_back(n: nat)
    ensures
        decimal_value(decimal_codes(n)) == n,
        n > 0 ==> decimal_codes(n)[0] != 48,
        decimal_codes(n).len() > 0,
        n == 0 ==> decimal_codes(n) == seq![48u8],
    decreases n,
{
    if n >= 10 {
        decimal_is_read_back(n / 10);
        let rest = decimal_codes(n / 10);
        assert(rest.push((48 + n % 10) as u8).drop_last() =~= rest);
    } else {
        let one = seq![(48 + n) as u8];
        assert(one.drop_last() =~= Seq::<u8>::empty());
        reveal_with_fuel(decimal_value, 2);
    }
}

/// The text of an error number is its three digits.
pub proof fn error_number_is_read_back(code: u16)
    requires
        code < 1000,
    ensures
        code_digits(code).len() == 3,
        (code_digits(code)[0] as int - 48) * 100 + (code_digits(code)[1] as int - 48) * 10 + (
        code_digits(code)[2] as int - 48) == code,
{
}

/// The key of a user is the digest of the text "user:realm:password".
pub proof fn key_is_digest_of_text(user: Seq<char>, realm: Seq<char>, password: Seq<char>)
    ensures
        key_of(user, realm, password) == md5_of(
            encode_utf8(user + seq![':'] + realm + seq![':'] + password),
        ),
{
    let colon = seq![':'];
    assert(encode_utf8(colon) =~= seq![0x3au8]) by {
        is_ascii_chars_encode_utf8(colon);
    }
    encode_concat(user, colon);
    encode_concat(user + colon, realm);
    encode_concat(user + colon + realm, colon);
    encode_concat(user + colon + realm + colon, password);
}

/// An indication is laid out as a message that names the source, and then holds the
/// data as it is.
pub proof fn indication_is_laid_out(txn: Seq<u8>, source: SocketAddr, data: Seq<u8>)
    requires
        txn.len() == 12,
        data.len() <= 65000,
    ensures
        ({
            let d = DatagramModel::DataIndication { source, data };
            let bytes = d.bytes(txn);
            &&& is_reply(bytes, 0x0017, txn)
            &&& tells_address(bytes, 20, 0x0012, txn, source.ip, source.port)
            &&& has_attribute(bytes, 24 + address_len(source.ip), 0x0013, data)
        }),
{
    let x = attribute(0x0012, xor_value(source, txn));
    let y = attribute(0x0013, data);
    address_attribute_len(0x0012, source, txn);
    attribute_is_padded(0x0013, data);
    let (h, tail) = signed_reply(0x0017, txn, x + y, None);
    indication_parts(data_indication(txn, source, data), h, tail, txn, source, data);
}

proof fn indication_parts(
    bytes: Seq<u8>,
    h: Seq<u8>,
    tail: Seq<u8>,
    txn: Seq<u8>,
    source: SocketAddr,
    data: Seq<u8>,
)
    requires
        txn.len() == 12,
        h.len() == 20,
        data.len() <= 65000,
        bytes == h + (attribute(0x0012, xor_value(source, txn)) + attribute(0x0013, data)) + tail,
    ensures
        tells_address(bytes, 20, 0x0012, txn, source.ip, source.port),
        has_attribute(bytes, 24 + address_len(source.ip), 0x0013, data),
{
    let x = attribute(0x0012, xor_value(source, txn));
    let y = attribute(0x0013, data);
    two_parts(h, x, y, tail);
    address_is_told(bytes, h, 0x0012, source, txn, y + tail);
    assert((h + x).len() == 24 + address_len(source.ip));
    attribute_at(bytes, h + x, 0x0013, data, tail);
}

proof fn two_parts(h: Seq<u8>, x: Seq<u8>, y: Seq<u8>, tail: Seq<u8>)
    ensures
        h + (x + y) + tail == h + x + (y + tail),
        h + (x + y) + tail == (h + x) + y + tail,
{
    assert(h + (x + y) + tail =~= h + x + (y + tail));
    assert(h + (x + y) + tail =~= (h + x) + y + tail);
}

/// ChannelData is laid out as channel, length and payload, with zeros up to a multiple
/// of four. Data that is sent as it is has no frame.
pub proof fn channel_data_is_laid_out(channel: u16, data: Seq<u8>, txn: Seq<u8>)
    requires
        0x4000 <= channel <= 0x7fff,
        data.len() <= 65535,
    ensures
        ({
            let bytes = (DatagramModel::ChannelData { channel, data }).bytes(txn);
            &&& holds(bytes, channel, data)
            &&& bytes.len() % 4 == 0
            &&& bytes.len() < data.len() + 8
            &&& forall|i: int| data.len() + 4 <= i < bytes.len() ==> #[trigger] bytes[i] == 0
        }),
        (DatagramModel::Raw(data)).bytes(txn) == data,
{
    let bytes = channel_data(channel, data);
    let n = data.len() as u16;
    u16_round_trip(channel);
    u16_round_trip(n);
    assert(bytes[0] == u16_be(channel)[0] && bytes[1] == u16_be(channel)[1]);
    assert(bytes[2] == u16_be(n)[0] && bytes[3] == u16_be(n)[1]);
    assert(bytes.subrange(4, data.len() + 4int) =~= data);
}

/// The characters of generated ufrags follow the alphabet: capital letters, small
/// letters, digits. Bytes that leave the same remainder by their number give the same
/// character, and only those.
pub proof fn ufrag_characters_follow_the_alphabet(x: u8, y: u8)
    ensures
        ({
            let c = ufrag_of(seq![x])[0];
            let d = ufrag_of(seq![y])[0];
            &&& x % 62 < 26 <==> 'A' <= c <= 'Z'
            &&& 26 <= x % 62 < 52 <==> 'a' <= c <= 'z'
            &&& 52 <= x % 62 <==> '0' <= c <= '9'
            &&& x % 62 == y % 62 <==> c == d
            &&& x % 62 < y % 62 && y % 62 < 26 ==> c < d
            &&& 26 <= x % 62 < y % 62 && y % 62 < 52 ==> c < d
            &&& 52 <= x % 62 < y % 62 ==> c < d
        }),
{
}

/// A ufrag is made byte by byte.
pub proof fn ufrag_is_made_bytewise(seed: Seq<u8>, i: int)
    requires
        0 <= i < seed.len(),
    ensures
        ufrag_of(seed).len() == seed.len(),
        ufrag_of(seed)[i] == ufrag_of(seq![seed[i]])[0],
{
}

/// The fields of a message stand where they should: the type in the first two bytes,
/// the transaction id after the cookie, and the attributes after it, as many bytes as
/// the header says.
pub proof fn message_fields_are_read(data: Seq<u8>, m: StunModel)
    requires
        stun_of(data) == Some(m),
    ensures
        ({
            let len = two_bytes(data, 2);
            let kept = kept_of(attributes(data.subrange(20, 20 + len), 0, len), m.transaction_id);
            &&& m.class == class_of(two_bytes(data, 0) as u16)
            &&& m.method == method_of(method_number(two_bytes(data, 0) as u16))
            &&& m.transaction_id == data.subrange(8, 20)
            &&& m.raw == data
            &&& m.username == kept.username
            &&& m.xor_peer_addresses == kept.xor_peer_addresses
            &&& m.channel_number == kept.channel_number
            &&& m.lifetime == kept.lifetime
            &&& m.data == kept.data
            &&& m.realm == kept.realm
            &&& m.nonce == kept.nonce
            &&& m.message_integrity == kept.message_integrity
            &&& m.message_integrity_offset == kept.message_integrity_offset
            &&& m.requested_transport == kept.requested_transport
        }),
{
}

/// Errors have the numbers and the reason phrases that STUN and TURN give them.
pub proof fn errors_are_numbered(e: TurnErrorCode)
    ensures
        e is BadRequest <==> e.spec_code() == 400,
        e is Unauthorized <==> e.spec_code() == 401,
        e is Forbidden <==> e.spec_code() == 403,
        e is UnknownAttribute <==> e.spec_code() == 420,
        e is AllocationMismatch <==> e.spec_code() == 437,
        e is StaleNonce <==> e.spec_code() == 438,
        e is WrongCredentials <==> e.spec_code() == 441,
        e is UnsupportedTransport <==> e.spec_code() == 442,
        e is AllocationQuotaReached <==> e.spec_code() == 486,
        e is ServerError <==> e.spec_code() == 500,
        e is InsufficientCapacity <==> e.spec_code() == 508,
        e.spec_code() == 400 ==> e.spec_reason() == "Bad Request"@,
        e.spec_code() == 401 ==> e.spec_reason() == "Unauthorized"@,
        e.spec_code() == 403 ==> e.spec_reason() == "Forbidden"@,
        e.spec_code() == 420 ==> e.spec_reason() == "Unknown Attribute"@,
        e.spec_code() == 437 ==> e.spec_reason() == "Allocation Mismatch"@,
        e.spec_code() == 438 ==> e.spec_reason() == "Stale Nonce"@,
        e.spec_code() == 441 ==> e.spec_reason() == "Wrong Credentials"@,
        e.spec_code() == 442 ==> e.spec_reason() == "Unsupported Transport Protocol"@,
        e.spec_code() == 486 ==> e.spec_reason() == "Allocation Quota Reached"@,
        e.spec_code() == 500 ==> e.spec_reason() == "Server Error"@,
        e.spec_code() == 508 ==> e.spec_reason() == "Insufficient Capacity"@,
{
}

/// A message is one of TURN's exactly if its method has a number of TURN's.
pub proof fn turn_methods_are_told(m: StunModel, n: u16)
    requires
        m.method == method_of(n),
    ensures
        m.is_turn() <==> n == 3 || n == 4 || 6 <= n <= 9,
{
}

/// The first octet of a number leads: it counts as many times as the others can denote
/// numbers.
pub proof fn first_octet_leads(octets: Seq<u8>)
    requires
        octets.len() > 0,
    ensures
        be_value(octets) == octets[0] * pow256((octets.len() - 1) as nat) + be_value(
            octets.drop_first(),
        ),
    decreases octets.len(),
{
    if octets.len() == 1 {
        assert(octets.drop_last() =~= Seq::<u8>::empty());
        assert(octets.drop_first() =~= Seq::<u8>::empty());
        reveal_with_fuel(be_value, 2);
        assert(pow256(0) == 1);
        assert(octets[0] * 1 == octets[0]);
    } else {
        let rest = octets.drop_last();
        first_octet_leads(rest);
        let tail = octets.drop_first();
        assert(tail.drop_last() =~= rest.drop_first());
        let (a, b, p, c) = (
            octets[0] as int,
            be_value(rest.drop_first()) as int,
            pow256((octets.len() - 2) as nat) as int,
            octets.last() as int,
        );
        assert(256 * (a * p + b) + c == a * (256 * p) + (256 * b + c)) by (nonlinear_arith);
    }
}

/// The first two octets of an IPv6 address are its first 16 bits.
pub proof fn first_segment_is_first_octets(octets: Seq<u8>)
    requires
        octets.len() == 16,
    ensures
        be_value(octets) <= u128::MAX,
        be_value(octets) / 0x1_0000_0000_0000_0000_0000_0000_0000 == octets[0] * 256 + octets[1],
{
    let tail = octets.drop_first();
    let rest = tail.drop_first();
    first_octet_leads(octets);
    first_octet_leads(tail);
    be_value_bound(rest);
    pow256_of_16();
    assert(pow256(15) == 0x1_0000_0000_0000_0000_0000_0000_0000 * 256 && pow256(14)
        == 0x1_0000_0000_0000_0000_0000_0000_0000) by {
        reveal_with_fuel(pow256, 16);
    }
    be_value_bound(octets);
    assert(tail[0] == octets[1]);
    let (x, y) = (octets[0] as int, octets[1] as int);
    assert(x * pow256(15) == x * (0x1_0000_0000_0000_0000_0000_0000_0000 * 256));
    assert(y * pow256(14) == y * 0x1_0000_0000_0000_0000_0000_0000_0000);
    assert(be_value(octets) == (x * 256 + y) * 0x1_0000_0000_0000_0000_0000_0000_0000 + be_value(
        rest,
    ));
    assert(rest.len() == 14);
}

} // verus!
