//! STUN and TURN messages as bytes.

use vstd::prelude::*;
use vstd::string::*;
use vstd::utf8::*;

use super::auth::{hmac_sha1_of, TurnAuth};
use super::message::TurnErrorCode;
use crate::bytes::{
    be_bytes, low16, low16_sum, octets, padding, push_bytes, push_padding, push_u16, push_u32, set_length,
    u16_be, u32_be, xor_bytes, zeros,
};
use crate::demux::stun::{address_mask, cookie};
use crate::net::{IpAddr, SocketAddr};

verus! {

pub const ATTR_ERROR_CODE: u16 = 0x0009;
pub const ATTR_XOR_RELAYED_ADDRESS: u16 = 0x0016;
pub const ATTR_XOR_MAPPED_ADDRESS: u16 = 0x0020;

pub const BINDING_SUCCESS: u16 = 0x0101;
pub const ALLOCATE_SUCCESS: u16 = 0x0103;
pub const REFRESH_SUCCESS: u16 = 0x0104;
pub const DATA_INDICATION: u16 = 0x0017;

/// A length as a field of 16 bits holds it.
pub open spec fn length_field(n: int) -> Seq<u8> {
    u16_be((n % 65536) as u16)
}

/// A STUN header: type, length of what follows, magic cookie, transaction id.
pub open spec fn header(msg_type: u16, len: int, txn: Seq<u8>) -> Seq<u8> {
    u16_be(msg_type) + length_field(len) + cookie() + txn
}

/// A message without MESSAGE-INTEGRITY.
pub open spec fn message(msg_type: u16, txn: Seq<u8>, attrs: Seq<u8>) -> Seq<u8> {
    header(msg_type, attrs.len() as int, txn) + attrs
}

/// What MESSAGE-INTEGRITY covers: everything before that attribute, with a
/// length that counts the attribute in.
pub open spec fn covered(msg_type: u16, txn: Seq<u8>, attrs: Seq<u8>) -> Seq<u8> {
    header(msg_type, attrs.len() as int + 24, txn) + attrs
}

/// A message, signed with MESSAGE-INTEGRITY if there is a key.
pub open spec fn signed(msg_type: u16, txn: Seq<u8>, attrs: Seq<u8>, key: Option<Seq<u8>>) -> Seq<u8> {
    match key {
        Some(k) => covered(msg_type, txn, attrs) + seq![0x00u8, 0x08, 0x00, 0x14] + hmac_sha1_of(
            k,
            covered(msg_type, txn, attrs),
        ),
        None => message(msg_type, txn, attrs),
    }
}

/// An attribute: type, length, and the value padded to four bytes.
pub open spec fn attribute(kind: u16, value: Seq<u8>) -> Seq<u8> {
    u16_be(kind) + length_field(value.len() as int) + value + zeros(padding(value.len() as int))
}

/// The octets of an IP address.
pub open spec fn ip_octets(ip: IpAddr) -> Seq<u8> {
    match ip {
        IpAddr::V4(v) => u32_be(v),
        IpAddr::V6(v) => be_bytes(v as nat, 16),
    }
}

/// The value of an XOR address attribute.
pub open spec fn xor_value(addr: SocketAddr, txn: Seq<u8>) -> Seq<u8> {
    let family = match addr.ip {
        IpAddr::V4(_) => 1u8,
        IpAddr::V6(_) => 2u8,
    };
    seq![0u8, family] + u16_be(addr.port ^ 0x2112u16) + xor_bytes(
        ip_octets(addr.ip),
        address_mask(txn),
    )
}

/// The value of an ERROR-CODE attribute: the hundreds and the rest of the code,
/// and the reason.
pub open spec fn error_value(error: TurnErrorCode) -> Seq<u8> {
    seq![0u8, 0, (error.spec_code() / 100) as u8, (error.spec_code() % 100) as u8] + encode_utf8(
        error.spec_reason(),
    )
}

/// An ERROR-CODE attribute.
pub open spec fn error_attribute(error: TurnErrorCode) -> Seq<u8> {
    attribute(ATTR_ERROR_CODE, error_value(error))
}

/// A text attribute.
pub open spec fn text_value(kind: u16, text: Seq<char>) -> Seq<u8> {
    attribute(kind, encode_utf8(text))
}

/// A LIFETIME attribute.
pub open spec fn lifetime_value(secs: u32) -> Seq<u8> {
    attribute(0x000D, u32_be(secs))
}

/// A Data indication: data that came from a peer, for a client.
pub open spec fn data_indication(txn: Seq<u8>, peer: SocketAddr, data: Seq<u8>) -> Seq<u8> {
    message(
        DATA_INDICATION,
        txn,
        attribute(0x0012, xor_value(peer, txn)) + attribute(0x0013, data),
    )
}

/// A ChannelData message, padded to four bytes.
pub open spec fn channel_data(channel: u16, data: Seq<u8>) -> Seq<u8> {
    u16_be(channel) + length_field(data.len() as int) + data + zeros(padding(data.len() as int))
}

/// A message with its length field overwritten.
pub open spec fn with_length(m: Seq<u8>, len: int) -> Seq<u8> {
    m.update(2, length_field(len)[0]).update(3, length_field(len)[1])
}

/// Overwriting the length in a header leaves everything else.
pub proof fn with_length_of_header(msg_type: u16, len: int, txn: Seq<u8>, rest: Seq<u8>, new_len: int)
    requires
        txn.len() == 12,
    ensures
        with_length(header(msg_type, len, txn) + rest, new_len) == header(msg_type, new_len, txn)
            + rest,
{
    assert(with_length(header(msg_type, len, txn) + rest, new_len) =~= header(
        msg_type,
        new_len,
        txn,
    ) + rest);
}

/// The bytes of an optional key.
pub open spec fn key_bytes(key: Option<&[u8; 16]>) -> Option<Seq<u8>> {
    match key {
        Some(k) => Some(k@),
        None => None,
    }
}

/// A message whose length was still open, completed and signed if there is a key.
pub open spec fn sealed(m: Seq<u8>, key: Option<Seq<u8>>) -> Seq<u8> {
    match key {
        Some(k) => {
            let head = with_length(m, m.len() - 20 + 24);
            head + seq![0x00u8, 0x08, 0x00, 0x14] + hmac_sha1_of(k, head)
        },
        None => with_length(m, m.len() - 20),
    }
}

/// Completing a header and its attributes gives the whole message.
pub proof fn sealed_is_signed(msg_type: u16, txn: Seq<u8>, attrs: Seq<u8>, key: Option<Seq<u8>>)
    requires
        txn.len() == 12,
    ensures
        sealed(header(msg_type, 0, txn) + attrs, key) == signed(msg_type, txn, attrs, key),
{
    with_length_of_header(msg_type, 0, txn, attrs, attrs.len() as int + 24);
    with_length_of_header(msg_type, 0, txn, attrs, attrs.len() as int);
    assert(header(msg_type, 0, txn).len() == 20);
}

/// A header without attributes, its length still zero.
pub fn begin(msg_type: u16, transaction_id: &[u8; 12]) -> (buf: Vec<u8>)
    ensures
        buf@ == header(msg_type, 0, transaction_id@),
        buf@.len() == 20,
{
    let mut buf: Vec<u8> = Vec::new();
    push_u16(&mut buf, msg_type);
    push_u16(&mut buf, 0);
    buf.push(0x21);
    buf.push(0x12);
    buf.push(0xa4);
    buf.push(0x42);
    push_bytes(&mut buf, transaction_id.as_slice());
    assert(buf@ =~= header(msg_type, 0, transaction_id@));
    buf
}

/// Sets the length of a message, and signs it if there is a key.
pub fn finish(buf: Vec<u8>, key: Option<&[u8; 16]>) -> (r: Vec<u8>)
    requires
        buf@.len() >= 20,
    ensures
        r@ == sealed(buf@, key_bytes(key)),
{
    let mut r = buf;
    let n: usize = r.len();
    match key {
        Some(k) => {
            set_length(&mut r, low16_sum(n, 4));
            let ghost head = r@;
            assert(head == with_length(buf@, n + 4));
            let code = TurnAuth::compute_message_integrity(r.as_slice(), k.as_slice());
            push_u16(&mut r, 0x0008);
            push_u16(&mut r, 0x0014);
            push_bytes(&mut r, code.as_slice());
            proof {
                assert(u16_be(0x0008) + u16_be(0x0014) =~= seq![0x00u8, 0x08, 0x00, 0x14]);
                assert(head + u16_be(0x0008) + u16_be(0x0014) =~= head + seq![
                    0x00u8,
                    0x08,
                    0x00,
                    0x14,
                ]);
            }
        },
        None => {
            set_length(&mut r, low16(n - 20));
        },
    }
    r
}

/// Appends an attribute.
pub fn append_attribute(buf: &mut Vec<u8>, kind: u16, value: &[u8])
    ensures
        final(buf)@ == old(buf)@ + attribute(kind, value@),
{
    push_u16(buf, kind);
    push_u16(buf, low16(value.len()));
    push_bytes(buf, value);
    push_padding(buf, value.len());
    assert(buf@ =~= old(buf)@ + attribute(kind, value@));
}

/// Appends an address attribute, masked with the cookie and the transaction id.
pub fn append_xor_address(buf: &mut Vec<u8>, kind: u16, addr: SocketAddr, transaction_id: &[u8; 12])
    ensures
        final(buf)@ == old(buf)@ + attribute(kind, xor_value(addr, transaction_id@)),
{
    let mut value: Vec<u8> = Vec::new();
    value.push(0);
    let plain = match addr.ip {
        IpAddr::V4(v) => {
            value.push(1);
            let mut o: Vec<u8> = Vec::new();
            push_u32(&mut o, v);
            assert(o@ =~= u32_be(v));
            o
        },
        IpAddr::V6(v) => {
            value.push(2);
            octets(v, 16)
        },
    };
    push_u16(&mut value, addr.port ^ 0x2112u16);
    let ghost front = value@;
    let ghost masked = xor_bytes(plain@, address_mask(transaction_id@));
    let magic: [u8; 4] = [0x21, 0x12, 0xa4, 0x42];
    let n: usize = plain.len();
    let mut i: usize = 0;
    assert(value@ =~= front + masked.subrange(0, 0));
    while i < n
        invariant
            i <= n,
            n == plain@.len(),
            n <= 16,
            magic@ == cookie(),
            masked == xor_bytes(plain@, address_mask(transaction_id@)),
            value@ == front + masked.subrange(0, i as int),
        decreases n - i,
    {
        let mask: u8 = if i < 4 {
            magic[i]
        } else {
            transaction_id[i - 4]
        };
        value.push(plain[i] ^ mask);
        i = i + 1;
        assert(value@ =~= front + masked.subrange(0, i as int));
    }
    assert(value@ =~= xor_value(addr, transaction_id@)) by {
        assert(masked.subrange(0, n as int) =~= masked);
    }
    append_attribute(buf, kind, value.as_slice());
}

/// Appends a LIFETIME attribute.
pub fn append_lifetime(buf: &mut Vec<u8>, lifetime: u32)
    ensures
        final(buf)@ == old(buf)@ + lifetime_value(lifetime),
{
    let mut value: Vec<u8> = Vec::new();
    push_u32(&mut value, lifetime);
    assert(value@ =~= u32_be(lifetime));
    append_attribute(buf, 0x000D, value.as_slice());
}

/// Appends an ERROR-CODE attribute.
pub fn append_error(buf: &mut Vec<u8>, error: TurnErrorCode)
    ensures
        final(buf)@ == old(buf)@ + error_attribute(error),
{
    let code: u16 = error.code();
    let mut value: Vec<u8> = Vec::new();
    value.push(0);
    value.push(0);
    value.push((code / 100) as u8);
    value.push((code % 100) as u8);
    push_bytes(&mut value, error.reason().as_bytes());
    assert(value@ =~= seq![0u8, 0, (code / 100) as u8, (code % 100) as u8] + encode_utf8(
        error.spec_reason(),
    ));
    append_attribute(buf, ATTR_ERROR_CODE, value.as_slice());
}

/// Appends a text attribute such as REALM or NONCE.
pub fn append_text(buf: &mut Vec<u8>, kind: u16, text: &str)
    ensures
        final(buf)@ == old(buf)@ + text_value(kind, text@),
{
    append_attribute(buf, kind, text.as_bytes());
}

/// A Data indication with the given transaction id.
pub fn build_data_indication(transaction_id: &[u8; 12], peer_addr: SocketAddr, data: &[u8]) -> (r: Vec<
    u8,
>)
    ensures
        r@ == data_indication(transaction_id@, peer_addr, data@),
{
    let mut buf = begin(DATA_INDICATION, transaction_id);
    append_xor_address(&mut buf, 0x0012, peer_addr, transaction_id);
    append_attribute(&mut buf, 0x0013, data);
    proof {
        let attrs = attribute(0x0012, xor_value(peer_addr, transaction_id@)) + attribute(
            0x0013,
            data@,
        );
        assert(buf@ =~= header(DATA_INDICATION, 0, transaction_id@) + attrs);
        sealed_is_signed(DATA_INDICATION, transaction_id@, attrs, None);
    }
    finish(buf, None)
}

/// A ChannelData message.
pub fn build_channel_data(channel: u16, data: &[u8]) -> (r: Vec<u8>)
    ensures
        r@ == channel_data(channel, data@),
{
    let mut packet: Vec<u8> = Vec::new();
    push_u16(&mut packet, channel);
    push_u16(&mut packet, low16(data.len()));
    push_bytes(&mut packet, data);
    push_padding(&mut packet, data.len());
    assert(packet@ =~= channel_data(channel, data@));
    packet
}

} // verus!
