//! What is written to the wire is read back from it.

use vstd::prelude::*;
use vstd::utf8::*;

use super::auth::hmac_sha1_of;
use super::encode::{
    attribute, channel_data, covered, data_indication, header, ip_octets, message, signed,
    with_length, xor_value, DATA_INDICATION,
};
use crate::bytes::{
    be_round_trip, padding, pow256_of_16, u16_at, u16_be, xor_bytes, xor_bytes_involution,
};
use crate::demux::protocol::{channel_data_of, packet_of, PacketModel};
use crate::demux::stun::{
    address_mask, attributes, channel_attribute, class_of, cookie, data_attribute,
    integrity_attribute, is_attribute_run, is_stun_message, is_truncated_attribute, last_of,
    lifetime_attribute, message_with, method_number, method_of, peer_attributes, stun_of,
    text_attribute, transport_attribute, truncated_attribute_is_ignored, xor_address_of, Attribute,
    StunClass, StunMethod, StunModel, ATTR_DATA, ATTR_MESSAGE_INTEGRITY, ATTR_NONCE, ATTR_REALM,
    ATTR_USERNAME, ATTR_XOR_PEER_ADDRESS,
};
use crate::net::{IpAddr, SocketAddr};

verus! {

/// An IPv4 address has four octets, an IPv6 address sixteen.
pub proof fn octet_count(ip: IpAddr)
    ensures
        ip_octets(ip).len() == match ip {
            IpAddr::V4(_) => 4nat,
            IpAddr::V6(_) => 16nat,
        },
{
    if let IpAddr::V6(v) = ip {
        pow256_of_16();
        be_round_trip(v as nat, 16);
    }
}

/// An address is read back from the attribute it was written to, whatever the
/// transaction id. (Flow label and scope are not transmitted.)
pub proof fn address_round_trip(addr: SocketAddr, txn: Seq<u8>)
    requires
        txn.len() == 12,
        addr.flow_info == 0,
        addr.scope_id == 0,
    ensures
        xor_address_of(xor_value(addr, txn), txn) == Some(addr),
{
    let value = xor_value(addr, txn);
    let octets = ip_octets(addr.ip);
    let mask = address_mask(txn);
    let port = addr.port;
    assert((port ^ 0x2112u16) ^ 0x2112u16 == port) by (bit_vector);
    assert(u16_at(value, 2) == port ^ 0x2112u16);
    octet_count(addr.ip);
    xor_bytes_involution(octets, mask);
    match addr.ip {
        IpAddr::V4(v) => {
            assert(value.subrange(4, 8) =~= xor_bytes(octets, mask));
        },
        IpAddr::V6(v) => {
            pow256_of_16();
            be_round_trip(v as nat, 16);
            assert(value.subrange(4, 20) =~= xor_bytes(octets, mask));
        },
    }
}

/// ChannelData is told apart and read back, for every channel that TURN allows.
pub proof fn channel_data_round_trip(channel: u16, data: Seq<u8>)
    requires
        0x4000 <= channel <= 0x7FFF,
        data.len() <= 65535,
    ensures
        packet_of(channel_data(channel, data)) == (PacketModel::TurnChannelData { channel, data }),
        channel_data(channel, data).len() % 4 == 0,
{
    channel_data_parses(channel, data);
}

proof fn channel_data_parses(channel: u16, data: Seq<u8>)
    requires
        0x4000 <= channel <= 0x7FFF,
        data.len() <= 65535,
    ensures
        ({
            let m = channel_data(channel, data);
            &&& m.len() % 4 == 0
            &&& m.len() > 0
            &&& 64 <= m[0] <= 127
            &&& channel_data_of(m) == Some((channel, data))
        }),
{
    let m = channel_data(channel, data);
    let l = data.len() as u16;
    crate::bytes::u16_round_trip(channel);
    crate::bytes::u16_round_trip(l);
    assert(m[0] == u16_be(channel)[0] && m[1] == u16_be(channel)[1]);
    assert(m[2] == u16_be(l)[0] && m[3] == u16_be(l)[1]);
    assert(64 <= m[0] <= 127);
    assert(channel_data_of(m) == Some((channel, data))) by {
        assert(m.subrange(4, 4 + data.len() as int) =~= data);
    }
}

/// The encoding of a list of attributes (type and value), one after the other.
pub open spec fn encode_list(list: Seq<(u16, Seq<u8>)>) -> Seq<u8>
    decreases list.len(),
{
    if list.len() == 0 {
        Seq::empty()
    } else {
        attribute(list[0].0, list[0].1) + encode_list(list.drop_first())
    }
}

/// The attributes of a list, as they stand in a message from `at` on.
pub open spec fn located(list: Seq<(u16, Seq<u8>)>, at: int) -> Seq<Attribute>
    decreases list.len(),
{
    if list.len() == 0 {
        Seq::empty()
    } else {
        seq![Attribute { kind: list[0].0, offset: at, value: list[0].1 }] + located(
            list.drop_first(),
            at + attribute(list[0].0, list[0].1).len(),
        )
    }
}

/// Every value of the list fits in an attribute.
pub open spec fn values_fit(list: Seq<(u16, Seq<u8>)>) -> bool {
    forall|i: int| 0 <= i < list.len() ==> (#[trigger] list[i]).1.len() <= 65535
}

/// The attributes of a list are read back in order, wherever the list stands.
pub proof fn attributes_round_trip(pre: Seq<u8>, list: Seq<(u16, Seq<u8>)>, post: Seq<u8>)
    requires
        values_fit(list),
    ensures
        ({
            let s = pre + encode_list(list) + post;
            let at = pre.len() as int;
            let next = at + encode_list(list).len();
            attributes(s, at, s.len() as int) == located(list, at) + attributes(
                s,
                next,
                s.len() as int,
            )
        }),
    decreases list.len(),
{
    let s = pre + encode_list(list) + post;
    let at = pre.len() as int;
    let end = s.len() as int;
    if list.len() == 0 {
        assert(located(list, at) + attributes(s, at, end) =~= attributes(s, at, end));
    } else {
        let (kind, value) = list[0];
        let first = attribute(kind, value);
        let rest = list.drop_first();
        let pre2 = pre + first;
        assert(s =~= pre2 + encode_list(rest) + post);
        assert(values_fit(rest)) by {
            assert forall|i: int| 0 <= i < rest.len() implies (#[trigger] rest[i]).1.len() <= 65535 by {
                assert(rest[i] == list[i + 1]);
            }
        }
        attributes_round_trip(pre2, rest, post);
        assert(value.len() <= 65535);
        assert(s.subrange(at, at + first.len()) =~= first);
        assert forall|i: int| 0 <= i < first.len() implies s[at + i] == first[i] by {
            assert(s.subrange(at, at + first.len())[i] == s[at + i]);
        }
        assert(u16_at(s, at) == kind);
        assert(u16_at(s, at + 2) == value.len());
        assert(s.subrange(at + 4, at + 4 + value.len()) =~= value) by {
            assert forall|i: int| 0 <= i < value.len() implies s[at + 4 + i] == value[i] by {
                assert(first[4 + i] == value[i]);
            }
        }
        let a = Attribute { kind, offset: at, value };
        let next = at + 4 + value.len() as int + padding(value.len() as int);
        assert(next == pre2.len());
        assert(attributes(s, at, end) == seq![a] + attributes(s, next, end));
        let after = pre2.len() + encode_list(rest).len();
        assert(seq![a] + (located(rest, next) + attributes(s, after as int, end)) =~= (seq![a]
            + located(rest, next)) + attributes(s, after as int, end));
    }
}

/// The attributes of a message that consists of a list are that list.
pub proof fn message_attributes(list: Seq<(u16, Seq<u8>)>)
    requires
        values_fit(list),
    ensures
        attributes(encode_list(list), 0, encode_list(list).len() as int) == located(list, 0),
{
    let none = Seq::<u8>::empty();
    let s = encode_list(list);
    assert(none + s + none =~= s);
    attributes_round_trip(none, list, none);
    assert(attributes(s, s.len() as int, s.len() as int) =~= Seq::<Attribute>::empty());
    assert(located(list, 0) + Seq::<Attribute>::empty() =~= located(list, 0));
}

/// The fields of a header.
proof fn header_fields(msg_type: u16, len: int, txn: Seq<u8>)
    requires
        txn.len() == 12,
        0 <= len <= 65535,
    ensures
        ({
            let h = header(msg_type, len, txn);
            &&& h.len() == 20
            &&& u16_at(h, 0) == msg_type
            &&& u16_at(h, 2) == len
            &&& h.subrange(4, 8) == cookie()
            &&& h.subrange(8, 20) == txn
        }),
{
    let h = header(msg_type, len, txn);
    let l = (len % 65536) as u16;
    assert(l == len);
    assert(h[0] == u16_be(msg_type)[0] && h[1] == u16_be(msg_type)[1]);
    assert(h[2] == u16_be(l)[0] && h[3] == u16_be(l)[1]);
    crate::bytes::u16_round_trip(msg_type);
    crate::bytes::u16_round_trip(l);
    assert(h.subrange(4, 8) =~= cookie());
    assert(h.subrange(8, 20) =~= txn);
}

/// A message is a STUN message with the type, the transaction id and the
/// attributes it was made from.
pub proof fn message_parses(msg_type: u16, txn: Seq<u8>, attrs: Seq<u8>)
    requires
        txn.len() == 12,
        attrs.len() <= 65535,
    ensures
        ({
            let m = message(msg_type, txn, attrs);
            &&& is_stun_message(m)
            &&& u16_at(m, 0) == msg_type
            &&& u16_at(m, 2) == attrs.len()
            &&& m.subrange(8, 20) == txn
            &&& m.subrange(20, 20 + attrs.len() as int) == attrs
            &&& m.len() == 20 + attrs.len()
        }),
{
    let h = header(msg_type, attrs.len() as int, txn);
    let m = h + attrs;
    header_fields(msg_type, attrs.len() as int, txn);
    assert(m[0] == h[0] && m[1] == h[1] && m[2] == h[2] && m[3] == h[3]);
    assert(m.subrange(4, 8) =~= h.subrange(4, 8));
    assert(m.subrange(8, 20) =~= h.subrange(8, 20));
    assert(m.subrange(20, 20 + attrs.len() as int) =~= attrs);
}

/// A message is read back as what it was made from.
pub proof fn message_is_read_back(msg_type: u16, txn: Seq<u8>, attrs: Seq<u8>)
    requires
        txn.len() == 12,
        attrs.len() <= 65535,
    ensures
        ({
            let m = message(msg_type, txn, attrs);
            stun_of(m) == Some(
                message_with(msg_type, txn, attributes(attrs, 0, attrs.len() as int), m),
            )
        }),
{
    message_parses(msg_type, txn, attrs);
}

/// Attributes are padded to a multiple of four bytes.
pub proof fn attribute_is_padded(kind: u16, value: Seq<u8>)
    ensures
        attribute(kind, value).len() % 4 == 0,
        attribute(kind, value).len() == 4 + value.len() + padding(value.len() as int),
{
}

/// An address that is appended to a buffer as an attribute can be decoded from
/// there, and what the buffer held stays as it was.
pub proof fn appended_address_is_read_back(
    buf: Seq<u8>,
    kind: u16,
    addr: SocketAddr,
    txn: Seq<u8>,
)
    requires
        txn.len() == 12,
        addr.flow_info == 0,
        addr.scope_id == 0,
    ensures
        ({
            let after = buf + attribute(kind, xor_value(addr, txn));
            &&& after.subrange(0, buf.len() as int) == buf
            &&& xor_address_of(after.subrange(buf.len() as int + 4, after.len() as int), txn) == Some(addr)
        }),
{
    let value = xor_value(addr, txn);
    let after = buf + attribute(kind, value);
    octet_count(addr.ip);
    attribute_is_padded(kind, value);
    assert(after.subrange(0, buf.len() as int) =~= buf);
    assert(after.subrange(buf.len() as int + 4, after.len() as int) =~= value);
    address_round_trip(addr, txn);
}

/// A truncated last attribute of a message is ignored: all that is parsed is as
/// it would be without it.
pub proof fn truncated_attribute_changes_no_field(
    msg_type: u16,
    txn: Seq<u8>,
    attrs: Seq<u8>,
    t: Seq<u8>,
)
    requires
        txn.len() == 12,
        is_attribute_run(attrs, 0),
        is_truncated_attribute(t),
        attrs.len() + t.len() <= 65535,
    ensures
        ({
            let whole = message(msg_type, txn, attrs);
            let longer = message(msg_type, txn, attrs + t);
            stun_of(whole) matches Some(m) && stun_of(longer) == Some(StunModel { raw: longer, ..m })
        }),
{
    message_is_read_back(msg_type, txn, attrs);
    message_is_read_back(msg_type, txn, attrs + t);
    truncated_attribute_is_ignored(attrs, t, txn);
}

/// A Data indication is read back as what it was made from: the class, the
/// method, the one peer, and the data. It holds no other attribute that is
/// parsed, and its length is a multiple of four.
pub proof fn data_indication_round_trip(txn: Seq<u8>, peer: SocketAddr, data: Seq<u8>)
    requires
        txn.len() == 12,
        peer.flow_info == 0,
        peer.scope_id == 0,
        data.len() <= 65500,
    ensures
        stun_of(data_indication(txn, peer, data)) matches Some(m) && {
            &&& m.class == StunClass::Indication
            &&& m.method == StunMethod::Data
            &&& m.transaction_id == txn
            &&& m.xor_peer_addresses == seq![peer]
            &&& m.data == Some(data)
            &&& m.username is None
            &&& m.realm is None
            &&& m.nonce is None
            &&& m.lifetime is None
            &&& m.channel_number is None
            &&& m.requested_transport is None
            &&& m.message_integrity is None
            &&& m.message_integrity_offset is None
        },
        data_indication(txn, peer, data).len() % 4 == 0,
{
    let attrs = data_attributes(txn, peer, data);
    data_attributes_are_found(txn, peer, data);
    address_round_trip(peer, txn);
    data_message_parses(txn, peer, data, attrs);
}

proof fn data_message_parses(txn: Seq<u8>, peer: SocketAddr, data: Seq<u8>, attrs: Seq<u8>)
    requires
        txn.len() == 12,
        attrs.len() <= 65535,
        attrs.len() % 4 == 0,
        ({
            let found = attributes(attrs, 0, attrs.len() as int);
            &&& found.len() == 2
            &&& found[0].kind == ATTR_XOR_PEER_ADDRESS
            &&& xor_address_of(found[0].value, txn) == Some(peer)
            &&& found[1].kind == ATTR_DATA
            &&& found[1].value == data
        }),
    ensures
        stun_of(message(DATA_INDICATION, txn, attrs)) matches Some(m) && {
            &&& m.class == StunClass::Indication
            &&& m.method == StunMethod::Data
            &&& m.transaction_id == txn
            &&& m.xor_peer_addresses == seq![peer]
            &&& m.data == Some(data)
            &&& m.username is None
            &&& m.realm is None
            &&& m.nonce is None
            &&& m.lifetime is None
            &&& m.channel_number is None
            &&& m.requested_transport is None
            &&& m.message_integrity is None
            &&& m.message_integrity_offset is None
        },
        message(DATA_INDICATION, txn, attrs).len() % 4 == 0,
{
    message_is_read_back(DATA_INDICATION, txn, attrs);
    message_parses(DATA_INDICATION, txn, attrs);
    peer_and_data(attributes(attrs, 0, attrs.len() as int), txn, peer, data);
}

spec fn data_attributes(txn: Seq<u8>, peer: SocketAddr, data: Seq<u8>) -> Seq<u8> {
    attribute(ATTR_XOR_PEER_ADDRESS, xor_value(peer, txn)) + attribute(ATTR_DATA, data)
}

proof fn data_attributes_are_found(txn: Seq<u8>, peer: SocketAddr, data: Seq<u8>)
    requires
        txn.len() == 12,
        data.len() <= 65500,
    ensures
        ({
            let attrs = data_attributes(txn, peer, data);
            let found = attributes(attrs, 0, attrs.len() as int);
            &&& attrs.len() <= 65535
            &&& attrs.len() % 4 == 0
            &&& found.len() == 2
            &&& found[0].kind == ATTR_XOR_PEER_ADDRESS
            &&& found[0].value == xor_value(peer, txn)
            &&& found[1].kind == ATTR_DATA
            &&& found[1].value == data
        }),
{
    let attrs = data_attributes(txn, peer, data);
    let list = seq![
        (ATTR_XOR_PEER_ADDRESS, xor_value(peer, txn)),
        (ATTR_DATA, data),
    ];
    let rest = list.drop_first();
    octet_count(peer.ip);
    assert(xor_value(peer, txn).len() <= 20);
    attribute_is_padded(ATTR_XOR_PEER_ADDRESS, xor_value(peer, txn));
    attribute_is_padded(ATTR_DATA, data);
    assert(rest =~= seq![(ATTR_DATA, data)]);
    assert(rest.drop_first() =~= Seq::<(u16, Seq<u8>)>::empty());
    assert(encode_list(rest) =~= attribute(ATTR_DATA, data)) by {
        reveal_with_fuel(encode_list, 2);
    }
    assert(encode_list(list) == attrs);
    let n = attribute(ATTR_XOR_PEER_ADDRESS, xor_value(peer, txn)).len() as int;
    let b = Attribute { kind: ATTR_DATA, offset: n, value: data };
    assert(located(rest, n) =~= seq![b]) by {
        reveal_with_fuel(located, 2);
    }
    message_attributes(list);
}

proof fn peer_and_data(found: Seq<Attribute>, txn: Seq<u8>, peer: SocketAddr, data: Seq<u8>)
    requires
        found.len() == 2,
        found[0].kind == ATTR_XOR_PEER_ADDRESS,
        xor_address_of(found[0].value, txn) == Some(peer),
        found[1].kind == ATTR_DATA,
        found[1].value == data,
    ensures
        peer_attributes(found, txn) == seq![peer],
        data_attribute(found) == Some(data),
        text_attribute(found, ATTR_USERNAME) is None,
        text_attribute(found, ATTR_REALM) is None,
        text_attribute(found, ATTR_NONCE) is None,
        lifetime_attribute(found) is None,
        channel_attribute(found) is None,
        transport_attribute(found) is None,
        integrity_attribute(found) is None,
{
    assert(found.last() == found[1]);
    assert(found.drop_last().last() == found[0]);
    assert(found.drop_last().drop_last() =~= Seq::<Attribute>::empty());
    reveal_with_fuel(last_of, 3);
    assert(peer_attributes(found, txn) =~= seq![peer]) by {
        reveal_with_fuel(peer_attributes, 3);
    }
}

/// A response has the class of a response and the method of its request.
pub proof fn response_types(msg_type: u16)
    requires
        class_of(msg_type) == StunClass::Request,
    ensures
        class_of(msg_type | 0x0110) == StunClass::ErrorResponse,
        class_of(msg_type | 0x0100) == StunClass::SuccessResponse,
        method_number(msg_type | 0x0110) == method_number(msg_type),
        method_number(msg_type | 0x0100) == method_number(msg_type),
{
    let e = msg_type | 0x0110;
    let s = msg_type | 0x0100;
    assert(e / 256 % 2 == 1 && e / 16 % 2 == 1 && s / 256 % 2 == 1 && s / 16 % 2 == 0 && e / 512 % 32
        == msg_type / 512 % 32 && e / 32 % 8 == msg_type / 32 % 8 && e % 16 == msg_type % 16 && s
        / 512 % 32 == msg_type / 512 % 32 && s / 32 % 8 == msg_type / 32 % 8 && s % 16 == msg_type
        % 16) by (bit_vector)
        requires
            msg_type / 16 % 2 == 0,
            e == msg_type | 0x0110,
            s == msg_type | 0x0100,
    ;
}

/// A signed message declares exactly the bytes that follow its header, and its
/// MESSAGE-INTEGRITY, the last attribute, verifies: it is the code of what comes
/// before it.
pub proof fn signed_message_verifies(msg_type: u16, txn: Seq<u8>, attrs: Seq<u8>, key: Seq<u8>)
    requires
        txn.len() == 12,
        attrs.len() <= 65000,
    ensures
        ({
            let m = signed(msg_type, txn, attrs, Some(key));
            let start = m.len() - 24;
            &&& u16_at(m, 2) == m.len() - 20
            &&& m.subrange(start, start + 4) == seq![0x00u8, 0x08, 0x00, 0x14]
            &&& m.subrange(start + 4, m.len() as int) == hmac_sha1_of(key, m.subrange(0, start))
        }),
{
    let m = signed(msg_type, txn, attrs, Some(key));
    let head = covered(msg_type, txn, attrs);
    let start = m.len() - 24;
    assert(m.subrange(0, start) =~= head);
    assert(m.subrange(start, start + 4) =~= seq![0x00u8, 0x08, 0x00, 0x14]);
    assert(m.subrange(start + 4, m.len() as int) =~= hmac_sha1_of(key, head));
    assert(u16_at(m, 2) == attrs.len() + 24);
}

/// An unsigned message declares exactly the bytes that follow its header.
pub proof fn unsigned_message_length(msg_type: u16, txn: Seq<u8>, attrs: Seq<u8>)
    requires
        txn.len() == 12,
        attrs.len() <= 65535,
    ensures
        u16_at(signed(msg_type, txn, attrs, None), 2) == signed(msg_type, txn, attrs, None).len()
            - 20,
{
    message_parses(msg_type, txn, attrs);
}

/// A signed message is parsed with its MESSAGE-INTEGRITY right after the other
/// attributes, and what the code is checked against is what was signed.
pub proof fn signed_message_is_covered(
    msg_type: u16,
    txn: Seq<u8>,
    list: Seq<(u16, Seq<u8>)>,
    key: Seq<u8>,
)
    requires
        txn.len() == 12,
        values_fit(list),
        encode_list(list).len() <= 65000,
    ensures
        ({
            let attrs = encode_list(list);
            let raw = signed(msg_type, txn, attrs, Some(key));
            stun_of(raw) matches Some(m) && {
                &&& m.class == class_of(msg_type)
                &&& m.method == method_of(method_number(msg_type))
                &&& m.transaction_id == txn
                &&& m.raw == raw
                &&& m.message_integrity == Some(hmac_sha1_of(key, covered(msg_type, txn, attrs)))
                &&& m.message_integrity_offset == Some((20 + attrs.len()) as usize)
                &&& with_length(raw.subrange(0, 20 + attrs.len() as int), attrs.len() as int + 24)
                    == covered(msg_type, txn, attrs)
            }
        }),
{
    let attrs = encode_list(list);
    let code = hmac_sha1_of(key, covered(msg_type, txn, attrs));
    signed_message_parses(msg_type, txn, list, key, code);
}

proof fn signed_message_parses(
    msg_type: u16,
    txn: Seq<u8>,
    list: Seq<(u16, Seq<u8>)>,
    key: Seq<u8>,
    code: Seq<u8>,
)
    requires
        txn.len() == 12,
        values_fit(list),
        encode_list(list).len() <= 65000,
        code == hmac_sha1_of(key, covered(msg_type, txn, encode_list(list))),
        code.len() == 20,
    ensures
        ({
            let attrs = encode_list(list);
            let raw = signed(msg_type, txn, attrs, Some(key));
            stun_of(raw) matches Some(m) && {
                &&& m.class == class_of(msg_type)
                &&& m.method == method_of(method_number(msg_type))
                &&& m.transaction_id == txn
                &&& m.raw == raw
                &&& m.message_integrity == Some(code)
                &&& m.message_integrity_offset == Some((20 + attrs.len()) as usize)
                &&& with_length(raw.subrange(0, 20 + attrs.len() as int), attrs.len() as int + 24)
                    == covered(msg_type, txn, attrs)
            }
        }),
{
    let attrs = encode_list(list);
    let raw = signed(msg_type, txn, attrs, Some(key));
    let longer = list.push((ATTR_MESSAGE_INTEGRITY, code));
    encode_list_push(list, ATTR_MESSAGE_INTEGRITY, code);
    let all = encode_list(longer);
    assert(attribute(ATTR_MESSAGE_INTEGRITY, code) =~= seq![0x00u8, 0x08, 0x00, 0x14] + code);
    assert(all.len() == attrs.len() + 24);
    assert(raw =~= message(msg_type, txn, all)) by {
        assert(header(msg_type, attrs.len() as int + 24, txn) + all =~= raw);
    }
    assert(values_fit(longer)) by {
        assert forall|i: int| 0 <= i < longer.len() implies (#[trigger] longer[i]).1.len() <= 65535 by {
            if i < list.len() {
                assert(longer[i] == list[i]);
            }
        }
    }
    message_parses(msg_type, txn, all);
    message_attributes(longer);
    located_push(list, 0, ATTR_MESSAGE_INTEGRITY, code);
    let found = located(longer, 0);
    assert(found.last() == Attribute {
        kind: ATTR_MESSAGE_INTEGRITY,
        offset: attrs.len() as int,
        value: code,
    });
    let head = raw.subrange(0, 20 + attrs.len() as int);
    assert(head =~= covered(msg_type, txn, attrs));
    assert(with_length(head, attrs.len() as int + 24) =~= covered(msg_type, txn, attrs));
}

proof fn encode_list_push(list: Seq<(u16, Seq<u8>)>, kind: u16, value: Seq<u8>)
    ensures
        encode_list(list.push((kind, value))) == encode_list(list) + attribute(kind, value),
    decreases list.len(),
{
    let longer = list.push((kind, value));
    if list.len() == 0 {
        assert(longer.drop_first() =~= Seq::<(u16, Seq<u8>)>::empty());
        reveal_with_fuel(encode_list, 2);
        assert(encode_list(longer) =~= encode_list(list) + attribute(kind, value));
    } else {
        assert(longer.drop_first() =~= list.drop_first().push((kind, value)));
        encode_list_push(list.drop_first(), kind, value);
        assert(encode_list(longer) =~= encode_list(list) + attribute(kind, value));
    }
}

proof fn located_push(list: Seq<(u16, Seq<u8>)>, at: int, kind: u16, value: Seq<u8>)
    ensures
        located(list.push((kind, value)), at) == located(list, at).push(
            Attribute { kind, offset: at + encode_list(list).len(), value },
        ),
    decreases list.len(),
{
    let longer = list.push((kind, value));
    if list.len() == 0 {
        assert(longer.drop_first() =~= Seq::<(u16, Seq<u8>)>::empty());
        reveal_with_fuel(located, 2);
        assert(located(longer, at) =~= located(list, at).push(
            Attribute { kind, offset: at + encode_list(list).len(), value },
        ));
    } else {
        assert(longer.drop_first() =~= list.drop_first().push((kind, value)));
        let next = at + attribute(list[0].0, list[0].1).len();
        located_push(list.drop_first(), next, kind, value);
        assert(located(longer, at) =~= located(list, at).push(
            Attribute { kind, offset: at + encode_list(list).len(), value },
        ));
    }
}

} // verus!
