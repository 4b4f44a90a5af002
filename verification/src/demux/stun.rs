//! STUN messages: the header, the attributes and the ICE username.

use vstd::prelude::*;
use vstd::slice::*;

use crate::bytes::{be_value, padding, read_u128, read_u16, read_u32, u16_at, u32_at, xor_bytes};
use crate::net::{socket_addr, IpAddr, SocketAddr};
use crate::text::{chars_of, decode_string, split_at_colon, split_pair, text_of};

verus! {

/// STUN magic cookie.
pub const STUN_MAGIC_COOKIE: u32 = 0x2112A442;

pub const ATTR_USERNAME: u16 = 0x0006;
pub const ATTR_MESSAGE_INTEGRITY: u16 = 0x0008;
pub const ATTR_CHANNEL_NUMBER: u16 = 0x000C;
pub const ATTR_LIFETIME: u16 = 0x000D;
pub const ATTR_XOR_PEER_ADDRESS: u16 = 0x0012;
pub const ATTR_DATA: u16 = 0x0013;
pub const ATTR_REALM: u16 = 0x0014;
pub const ATTR_NONCE: u16 = 0x0015;
pub const ATTR_REQUESTED_TRANSPORT: u16 = 0x0019;

/// STUN message class.
#[derive(Debug, Clone, Copy, PartialEq, Eq, Structural)]
pub enum StunClass {
    Request,
    Indication,
    SuccessResponse,
    ErrorResponse,
}

/// STUN message method.
#[derive(Debug, Clone, Copy, PartialEq, Eq, Structural)]
pub enum StunMethod {
    Binding,
    Allocate,
    Refresh,
    Send,
    Data,
    CreatePermission,
    ChannelBind,
    Unknown(u16),
}

/// A parsed STUN message.
#[derive(Debug, Clone)]
pub struct StunInfo {
    /// Message class
    pub class: StunClass,
    /// Message method
    pub method: StunMethod,
    /// Transaction ID (96 bits)
    pub transaction_id: [u8; 12],
    /// USERNAME attribute. ICE checks hold "receiverUfrag:senderUfrag" in it.
    pub username: Option<String>,
    /// XOR-PEER-ADDRESS attributes
    pub xor_peer_addresses: Vec<SocketAddr>,
    /// CHANNEL-NUMBER attribute
    pub channel_number: Option<u16>,
    /// LIFETIME attribute
    pub lifetime: Option<u32>,
    /// DATA attribute
    pub data: Option<Vec<u8>>,
    /// REALM attribute
    pub realm: Option<String>,
    /// NONCE attribute
    pub nonce: Option<String>,
    /// MESSAGE-INTEGRITY attribute (HMAC-SHA1, 20 bytes)
    pub message_integrity: Option<Vec<u8>>,
    /// Where in the message MESSAGE-INTEGRITY starts
    pub message_integrity_offset: Option<usize>,
    /// REQUESTED-TRANSPORT attribute (protocol number, 17 for UDP)
    pub requested_transport: Option<u8>,
    /// Raw message bytes
    pub raw: Vec<u8>,
}

/// What a [`StunInfo`] says, as mathematical values.
#[verifier::ext_equal]
pub struct StunModel {
    pub class: StunClass,
    pub method: StunMethod,
    pub transaction_id: Seq<u8>,
    pub username: Option<Seq<char>>,
    pub xor_peer_addresses: Seq<SocketAddr>,
    pub channel_number: Option<u16>,
    pub lifetime: Option<u32>,
    pub data: Option<Seq<u8>>,
    pub realm: Option<Seq<char>>,
    pub nonce: Option<Seq<char>>,
    pub message_integrity: Option<Seq<u8>>,
    pub message_integrity_offset: Option<usize>,
    pub requested_transport: Option<u8>,
    pub raw: Seq<u8>,
}

/// The bytes of an optional vector.
pub open spec fn bytes_of(v: Option<Vec<u8>>) -> Option<Seq<u8>> {
    match v {
        Some(b) => Some(b@),
        None => None,
    }
}

impl View for StunInfo {
    type V = StunModel;

    open spec fn view(&self) -> StunModel {
        StunModel {
            class: self.class,
            method: self.method,
            transaction_id: self.transaction_id@,
            username: chars_of(self.username),
            xor_peer_addresses: self.xor_peer_addresses@,
            channel_number: self.channel_number,
            lifetime: self.lifetime,
            data: bytes_of(self.data),
            realm: chars_of(self.realm),
            nonce: chars_of(self.nonce),
            message_integrity: bytes_of(self.message_integrity),
            message_integrity_offset: self.message_integrity_offset,
            requested_transport: self.requested_transport,
            raw: self.raw@,
        }
    }
}

/// One attribute of a message: its type, the place of its header and its value.
pub struct Attribute {
    pub kind: u16,
    pub offset: int,
    pub value: Seq<u8>,
}

/// The attributes whose headers stand in `s` from `at` up to `end`, in order.
/// The list ends where the remaining bytes hold no header, or not the whole of
/// the value that the header announces. Each value is padded to four bytes.
pub open spec fn attributes(s: Seq<u8>, at: int, end: int) -> Seq<Attribute>
    decreases vstd::math::max(end - at, 0),
{
    let len = u16_at(s, at + 2) as int;
    if at + 4 > end || at + 4 + len > s.len() {
        Seq::empty()
    } else {
        let a = Attribute {
            kind: u16_at(s, at),
            offset: at,
            value: s.subrange(at + 4, at + 4 + len),
        };
        seq![a] + attributes(s, at + 4 + len + padding(len), end)
    }
}

/// The last attribute that satisfies `p`.
pub open spec fn last_of(attrs: Seq<Attribute>, p: spec_fn(Attribute) -> bool) -> Option<Attribute>
    decreases attrs.len(),
{
    if attrs.len() == 0 {
        None
    } else if p(attrs.last()) {
        Some(attrs.last())
    } else {
        last_of(attrs.drop_last(), p)
    }
}

/// The text in the last attribute of type `kind`; nothing if that one is not valid UTF-8.
pub open spec fn text_attribute(attrs: Seq<Attribute>, kind: u16) -> Option<Seq<char>> {
    match last_of(attrs, |a: Attribute| a.kind == kind) {
        Some(a) => text_of(a.value),
        None => None,
    }
}

/// The last channel number in the range that TURN allows.
pub open spec fn channel_attribute(attrs: Seq<Attribute>) -> Option<u16> {
    match last_of(
        attrs,
        |a: Attribute|
            a.kind == ATTR_CHANNEL_NUMBER && a.value.len() >= 2 && 0x4000 <= u16_at(a.value, 0)
                <= 0x7FFF,
    ) {
        Some(a) => Some(u16_at(a.value, 0)),
        None => None,
    }
}

/// The last lifetime of four bytes or more.
pub open spec fn lifetime_attribute(attrs: Seq<Attribute>) -> Option<u32> {
    match last_of(attrs, |a: Attribute| a.kind == ATTR_LIFETIME && a.value.len() >= 4) {
        Some(a) => Some(u32_at(a.value, 0)),
        None => None,
    }
}

/// The value of the last DATA attribute.
pub open spec fn data_attribute(attrs: Seq<Attribute>) -> Option<Seq<u8>> {
    match last_of(attrs, |a: Attribute| a.kind == ATTR_DATA) {
        Some(a) => Some(a.value),
        None => None,
    }
}

/// The last MESSAGE-INTEGRITY attribute that has the length of an HMAC-SHA1.
pub open spec fn integrity_attribute(attrs: Seq<Attribute>) -> Option<Attribute> {
    last_of(attrs, |a: Attribute| a.kind == ATTR_MESSAGE_INTEGRITY && a.value.len() == 20)
}

/// The protocol number in the last nonempty REQUESTED-TRANSPORT attribute.
pub open spec fn transport_attribute(attrs: Seq<Attribute>) -> Option<u8> {
    match last_of(attrs, |a: Attribute| a.kind == ATTR_REQUESTED_TRANSPORT && a.value.len() > 0) {
        Some(a) => Some(a.value[0]),
        None => None,
    }
}

/// The decodable XOR-PEER-ADDRESS attributes, in order.
pub open spec fn peer_attributes(attrs: Seq<Attribute>, txn: Seq<u8>) -> Seq<SocketAddr>
    decreases attrs.len(),
{
    if attrs.len() == 0 {
        Seq::empty()
    } else {
        let before = peer_attributes(attrs.drop_last(), txn);
        match xor_address_of(attrs.last().value, txn) {
            Some(addr) if attrs.last().kind == ATTR_XOR_PEER_ADDRESS => before.push(addr),
            _ => before,
        }
    }
}

/// The magic cookie as it stands in a message.
pub open spec fn cookie() -> Seq<u8> {
    seq![0x21u8, 0x12, 0xa4, 0x42]
}

/// What address bytes are masked with: the magic cookie and the transaction id.
pub open spec fn address_mask(txn: Seq<u8>) -> Seq<u8> {
    cookie() + txn
}

/// The address that an XOR address attribute holds: a reserved byte, the
/// family, the port masked with the upper half of the cookie, and the address
/// masked with cookie and transaction id.
pub open spec fn xor_address_of(value: Seq<u8>, txn: Seq<u8>) -> Option<SocketAddr> {
    let port = u16_at(value, 2) ^ 0x2112u16;
    if value.len() >= 8 && value[1] == 1 {
        let octets = xor_bytes(value.subrange(4, 8), address_mask(txn));
        Some(socket_addr(IpAddr::V4(u32_at(octets, 0)), port))
    } else if value.len() >= 20 && value[1] == 2 {
        let octets = xor_bytes(value.subrange(4, 20), address_mask(txn));
        Some(socket_addr(IpAddr::V6(be_value(octets) as u128), port))
    } else {
        None
    }
}

/// The class in a message type: bits 8 and 4.
pub open spec fn class_of(msg_type: u16) -> StunClass {
    let success = msg_type / 256 % 2 == 1;
    let low = msg_type / 16 % 2 == 1;
    if success {
        if low {
            StunClass::ErrorResponse
        } else {
            StunClass::SuccessResponse
        }
    } else if low {
        StunClass::Indication
    } else {
        StunClass::Request
    }
}

/// The method number in a message type: the bits around the two class bits.
pub open spec fn method_number(msg_type: u16) -> u16 {
    (msg_type / 512 % 32 * 128 + msg_type / 32 % 8 * 16 + msg_type % 16) as u16
}

/// The method with the given number.
pub open spec fn method_of(number: u16) -> StunMethod {
    if number == 0x001 {
        StunMethod::Binding
    } else if number == 0x003 {
        StunMethod::Allocate
    } else if number == 0x004 {
        StunMethod::Refresh
    } else if number == 0x006 {
        StunMethod::Send
    } else if number == 0x007 {
        StunMethod::Data
    } else if number == 0x008 {
        StunMethod::CreatePermission
    } else if number == 0x009 {
        StunMethod::ChannelBind
    } else {
        StunMethod::Unknown(number)
    }
}

/// Whether `data` starts with a STUN header and holds the whole message that
/// the header announces.
pub open spec fn is_stun_message(data: Seq<u8>) -> bool {
    &&& data.len() >= 20
    &&& data.subrange(4, 8) == cookie()
    &&& data.len() >= 20 + u16_at(data, 2)
}

/// What is kept of the attributes of a message, as mathematical values.
#[verifier::ext_equal]
pub struct AttrsModel {
    pub username: Option<Seq<char>>,
    pub xor_peer_addresses: Seq<SocketAddr>,
    pub channel_number: Option<u16>,
    pub lifetime: Option<u32>,
    pub data: Option<Seq<u8>>,
    pub realm: Option<Seq<char>>,
    pub nonce: Option<Seq<char>>,
    pub message_integrity: Option<Seq<u8>>,
    pub message_integrity_offset: Option<usize>,
    pub requested_transport: Option<u8>,
}

/// What is kept of a list of attributes. The place of MESSAGE-INTEGRITY is
/// counted from the start of the message, 20 bytes before the attributes.
pub open spec fn kept_of(attrs: Seq<Attribute>, txn: Seq<u8>) -> AttrsModel {
    let integrity = integrity_attribute(attrs);
    AttrsModel {
        username: text_attribute(attrs, ATTR_USERNAME),
        xor_peer_addresses: peer_attributes(attrs, txn),
        channel_number: channel_attribute(attrs),
        lifetime: lifetime_attribute(attrs),
        data: data_attribute(attrs),
        realm: text_attribute(attrs, ATTR_REALM),
        nonce: text_attribute(attrs, ATTR_NONCE),
        message_integrity: match integrity {
            Some(a) => Some(a.value),
            None => None,
        },
        message_integrity_offset: match integrity {
            Some(a) => Some((20 + a.offset) as usize),
            None => None,
        },
        requested_transport: transport_attribute(attrs),
    }
}

/// What is kept of the attributes in the bytes after a header.
pub open spec fn parsed_attributes(s: Seq<u8>, txn: Seq<u8>) -> AttrsModel {
    kept_of(attributes(s, 0, s.len() as int), txn)
}

/// The message with the given type, transaction id and attributes.
pub open spec fn message_with(msg_type: u16, txn: Seq<u8>, attrs: Seq<Attribute>, raw: Seq<u8>) -> StunModel {
    let kept = kept_of(attrs, txn);
    StunModel {
        class: class_of(msg_type),
        method: method_of(method_number(msg_type)),
        transaction_id: txn,
        username: kept.username,
        xor_peer_addresses: kept.xor_peer_addresses,
        channel_number: kept.channel_number,
        lifetime: kept.lifetime,
        data: kept.data,
        realm: kept.realm,
        nonce: kept.nonce,
        message_integrity: kept.message_integrity,
        message_integrity_offset: kept.message_integrity_offset,
        requested_transport: kept.requested_transport,
        raw,
    }
}

/// The STUN message in `data`.
pub open spec fn stun_of(data: Seq<u8>) -> Option<StunModel> {
    if is_stun_message(data) {
        let len = u16_at(data, 2) as int;
        let attrs = attributes(data.subrange(20, 20 + len), 0, len);
        Some(message_with(u16_at(data, 0), data.subrange(8, 20), attrs, data))
    } else {
        None
    }
}

impl StunModel {
    /// What any message from the wire satisfies: there is a whole header, and
    /// an integrity attribute comes after it.
    pub open spec fn wf(self) -> bool {
        &&& self.transaction_id.len() == 12
        &&& self.raw.len() >= 20
        &&& (self.message_integrity_offset matches Some(o) ==> 20 <= o <= self.raw.len())
    }

    /// The pair of ufrags in an ICE username: the receiver's, then the sender's.
    pub open spec fn ice_username(self) -> Option<(Seq<char>, Seq<char>)> {
        match self.username {
            Some(u) => split_at_colon(u),
            None => None,
        }
    }

    /// Whether the method is one of TURN's, and not just a STUN binding.
    pub open spec fn is_turn(self) -> bool {
        !(self.method is Binding || self.method is Unknown)
    }
}

/// Attributes of interest, collected while walking a message.
#[derive(Debug)]
pub struct ParsedAttrs {
    pub username: Option<String>,
    pub xor_peer_addresses: Vec<SocketAddr>,
    pub channel_number: Option<u16>,
    pub lifetime: Option<u32>,
    pub data: Option<Vec<u8>>,
    pub realm: Option<String>,
    pub nonce: Option<String>,
    pub message_integrity: Option<Vec<u8>>,
    pub message_integrity_offset: Option<usize>,
    pub requested_transport: Option<u8>,
}

impl View for ParsedAttrs {
    type V = AttrsModel;

    open spec fn view(&self) -> AttrsModel {
        AttrsModel {
            username: chars_of(self.username),
            xor_peer_addresses: self.xor_peer_addresses@,
            channel_number: self.channel_number,
            lifetime: self.lifetime,
            data: bytes_of(self.data),
            realm: chars_of(self.realm),
            nonce: chars_of(self.nonce),
            message_integrity: bytes_of(self.message_integrity),
            message_integrity_offset: self.message_integrity_offset,
            requested_transport: self.requested_transport,
        }
    }
}

impl ParsedAttrs {
    /// The fields hold what `attrs` say.
    spec fn describes(self, attrs: Seq<Attribute>, txn: Seq<u8>) -> bool {
        &&& chars_of(self.username) == text_attribute(attrs, ATTR_USERNAME)
        &&& self.xor_peer_addresses@ == peer_attributes(attrs, txn)
        &&& self.channel_number == channel_attribute(attrs)
        &&& self.lifetime == lifetime_attribute(attrs)
        &&& bytes_of(self.data) == data_attribute(attrs)
        &&& chars_of(self.realm) == text_attribute(attrs, ATTR_REALM)
        &&& chars_of(self.nonce) == text_attribute(attrs, ATTR_NONCE)
        &&& match integrity_attribute(attrs) {
            Some(a) => bytes_of(self.message_integrity) == Some(a.value)
                && self.message_integrity_offset == Some((20 + a.offset) as usize),
            None => self.message_integrity is None && self.message_integrity_offset is None,
        }
        &&& self.requested_transport == transport_attribute(attrs)
    }
}

proof fn last_of_push(attrs: Seq<Attribute>, a: Attribute, p: spec_fn(Attribute) -> bool)
    ensures
        last_of(attrs.push(a), p) == if p(a) {
            Some(a)
        } else {
            last_of(attrs, p)
        },
{
    assert(attrs.push(a).drop_last() =~= attrs);
}

pub(crate) broadcast proof fn last_of_push_auto(attrs: Seq<Attribute>, a: Attribute, p: spec_fn(Attribute) -> bool)
    ensures
        #[trigger] last_of(attrs.push(a), p) == if p(a) {
            Some(a)
        } else {
            last_of(attrs, p)
        },
{
    last_of_push(attrs, a, p);
}

proof fn peer_attributes_push(attrs: Seq<Attribute>, a: Attribute, txn: Seq<u8>)
    ensures
        peer_attributes(attrs.push(a), txn) == match xor_address_of(a.value, txn) {
            Some(addr) if a.kind == ATTR_XOR_PEER_ADDRESS => peer_attributes(attrs, txn).push(addr),
            _ => peer_attributes(attrs, txn),
        },
{
    assert(attrs.push(a).drop_last() =~= attrs);
}

impl StunInfo {
    /// Parses a STUN message: header and attributes.
    pub fn parse(data: &[u8]) -> (r: Option<Self>)
        ensures
            match r {
                Some(m) => stun_of(data@) == Some(m@) && m@.wf(),
                None => stun_of(data@) is None,
            },
    {
        let n: usize = data.len();
        if n < 20 {
            return None;
        }
        proof {
            let c = data@.subrange(4, 8);
            assert(u32_at(data@, 4) == STUN_MAGIC_COOKIE <==> c =~= cookie()) by {
                assert(c[0] == data@[4] && c[1] == data@[5] && c[2] == data@[6] && c[3] == data@[7]);
            }
        }
        if read_u32(data, 4) != STUN_MAGIC_COOKIE {
            return None;
        }
        let msg_type: u16 = read_u16(data, 0);
        let success = msg_type / 256 % 2 == 1;
        let low = msg_type / 16 % 2 == 1;
        let class = if success {
            if low {
                StunClass::ErrorResponse
            } else {
                StunClass::SuccessResponse
            }
        } else if low {
            StunClass::Indication
        } else {
            StunClass::Request
        };
        let number: u16 = msg_type / 512 % 32 * 128 + msg_type / 32 % 8 * 16 + msg_type % 16;
        let method = match number {
            0x001 => StunMethod::Binding,
            0x003 => StunMethod::Allocate,
            0x004 => StunMethod::Refresh,
            0x006 => StunMethod::Send,
            0x007 => StunMethod::Data,
            0x008 => StunMethod::CreatePermission,
            0x009 => StunMethod::ChannelBind,
            other => StunMethod::Unknown(other),
        };
        let msg_len: usize = read_u16(data, 2) as usize;
        if n < 20 + msg_len {
            return None;
        }
        let transaction_id: [u8; 12] = [
            data[8],
            data[9],
            data[10],
            data[11],
            data[12],
            data[13],
            data[14],
            data[15],
            data[16],
            data[17],
            data[18],
            data[19],
        ];
        assert(transaction_id@ =~= data@.subrange(8, 20));
        let section = slice_subrange(data, 20, 20 + msg_len);
        let attrs = Self::parse_attributes(section, &transaction_id);
        proof {
            integrity_offset_bound(section@, 0, msg_len as int);
        }
        Some(
            Self {
                class,
                method,
                transaction_id,
                username: attrs.username,
                xor_peer_addresses: attrs.xor_peer_addresses,
                channel_number: attrs.channel_number,
                lifetime: attrs.lifetime,
                data: attrs.data,
                realm: attrs.realm,
                nonce: attrs.nonce,
                message_integrity: attrs.message_integrity,
                message_integrity_offset: attrs.message_integrity_offset,
                requested_transport: attrs.requested_transport,
                raw: slice_to_vec(data),
            },
        )
    }

    /// Parses all relevant attributes of a message, which stand in the bytes
    /// after its header.
    pub fn parse_attributes(attrs: &[u8], transaction_id: &[u8; 12]) -> (r: ParsedAttrs)
        ensures
            r@ == parsed_attributes(attrs@, transaction_id@),
    {
        let mut result = ParsedAttrs {
            username: None,
            xor_peer_addresses: Vec::new(),
            channel_number: None,
            lifetime: None,
            data: None,
            realm: None,
            nonce: None,
            message_integrity: None,
            message_integrity_offset: None,
            requested_transport: None,
        };
        let n: usize = attrs.len();
        let mut offset: usize = 0;
        let ghost all = attributes(attrs@, 0, n as int);
        let ghost mut done: Seq<Attribute> = Seq::empty();
        assert(done + attributes(attrs@, 0, n as int) =~= all);
        while n - offset >= 4
            invariant_except_break
                done + attributes(attrs@, offset as int, n as int) == all,
            invariant
                n == attrs@.len(),
                offset <= n,
                all == attributes(attrs@, 0, n as int),
                result.describes(done, transaction_id@),
            ensures
                done == all,
            decreases n - offset,
        {
            let attr_type: u16 = read_u16(attrs, offset);
            let attr_len: usize = read_u16(attrs, offset + 2) as usize;
            let room: usize = n - offset - 4;
            if attr_len > room {
                assert(done + attributes(attrs@, offset as int, n as int) =~= done);
                break;
            }
            let value = slice_subrange(attrs, offset + 4, offset + 4 + attr_len);
            let ghost a = Attribute { kind: attr_type, offset: offset as int, value: value@ };
            let ghost before = result;
            if attr_type == ATTR_USERNAME {
                result.username = decode_string(slice_to_vec(value));
            } else if attr_type == ATTR_XOR_PEER_ADDRESS {
                if let Some(addr) = Self::decode_xor_address(value, transaction_id) {
                    result.xor_peer_addresses.push(addr);
                }
            } else if attr_type == ATTR_CHANNEL_NUMBER {
                if value.len() >= 2 {
                    let channel: u16 = read_u16(value, 0);
                    if 0x4000 <= channel && channel <= 0x7FFF {
                        result.channel_number = Some(channel);
                    }
                }
            } else if attr_type == ATTR_LIFETIME {
                if value.len() >= 4 {
                    result.lifetime = Some(read_u32(value, 0));
                }
            } else if attr_type == ATTR_DATA {
                result.data = Some(slice_to_vec(value));
            } else if attr_type == ATTR_REALM {
                result.realm = decode_string(slice_to_vec(value));
            } else if attr_type == ATTR_NONCE {
                result.nonce = decode_string(slice_to_vec(value));
            } else if attr_type == ATTR_MESSAGE_INTEGRITY {
                if value.len() == 20 {
                    result.message_integrity = Some(slice_to_vec(value));
                    result.message_integrity_offset = Some(20 + offset);
                }
            } else if attr_type == ATTR_REQUESTED_TRANSPORT {
                if value.len() > 0 {
                    result.requested_transport = Some(value[0]);
                }
            }
            proof {
                broadcast use last_of_push_auto;

                peer_attributes_push(done, a, transaction_id@);
                assert(result.describes(done.push(a), transaction_id@));
                let next = offset + 4 + attr_len + padding(attr_len as int);
                assert(done + attributes(attrs@, offset as int, n as int) =~= done.push(a)
                    + attributes(attrs@, next, n as int));
                done = done.push(a);
            }
            let padded_len: usize = attr_len + (4 - attr_len % 4) % 4;
            if padded_len > room {
                assert(done + attributes(attrs@, offset + 4 + padded_len, n as int) =~= done);
                break;
            }
            offset = offset + 4 + padded_len;
        }
        assert(result@ =~= kept_of(all, transaction_id@));
        result
    }

    /// Decodes the value of an XOR-PEER-ADDRESS or XOR-MAPPED-ADDRESS attribute.
    pub fn decode_xor_address(value: &[u8], transaction_id: &[u8; 12]) -> (r: Option<SocketAddr>)
        ensures
            r == xor_address_of(value@, transaction_id@),
    {
        let n: usize = value.len();
        if n < 8 {
            return None;
        }
        let family: u8 = value[1];
        let port: u16 = read_u16(value, 2) ^ 0x2112u16;
        if family == 1 {
            let octets = xor_address_bytes(value, 4, transaction_id);
            Some(SocketAddr::new(IpAddr::V4(read_u32(octets.as_slice(), 0)), port))
        } else if family == 2 {
            if n < 20 {
                return None;
            }
            let octets = xor_address_bytes(value, 16, transaction_id);
            proof {
                assert(octets@.subrange(0, 16) =~= octets@);
            }
            Some(SocketAddr::new(IpAddr::V6(read_u128(octets.as_slice(), 0)), port))
        } else {
            None
        }
    }

    /// The ufrag pair of an ICE username "receiverUfrag:senderUfrag".
    pub fn parse_ice_username(&self) -> (r: Option<(String, String)>)
        ensures
            match r {
                Some(p) => self@.ice_username() == Some((p.0@, p.1@)),
                None => self@.ice_username() is None,
            },
    {
        match &self.username {
            Some(u) => split_pair(u.as_str()),
            None => None,
        }
    }

    /// Whether this is a TURN message, and not just a STUN binding.
    pub fn is_turn(&self) -> (r: bool)
        ensures
            r == self@.is_turn(),
    {
        match self.method {
            StunMethod::Binding => false,
            StunMethod::Unknown(_) => false,
            _ => true,
        }
    }
}

/// The `count` address bytes of an XOR address attribute, unmasked.
fn xor_address_bytes(value: &[u8], count: usize, transaction_id: &[u8; 12]) -> (octets: Vec<u8>)
    requires
        count <= 16,
        4 + count <= value@.len(),
    ensures
        octets@ == xor_bytes(value@.subrange(4, 4 + count), address_mask(transaction_id@)),
{
    let magic: [u8; 4] = [0x21, 0x12, 0xa4, 0x42];
    let ghost want = xor_bytes(value@.subrange(4, 4 + count), address_mask(transaction_id@));
    let mut octets: Vec<u8> = Vec::new();
    let mut i: usize = 0;
    while i < count
        invariant
            i <= count,
            count <= 16,
            4 + count <= value@.len(),
            magic@ == cookie(),
            want == xor_bytes(value@.subrange(4, 4 + count), address_mask(transaction_id@)),
            octets@ == want.subrange(0, i as int),
        decreases count - i,
    {
        let mask: u8 = if i < 4 {
            magic[i]
        } else {
            transaction_id[i - 4]
        };
        octets.push(value[4 + i] ^ mask);
        i = i + 1;
        assert(octets@ =~= want.subrange(0, i as int));
    }
    assert(want.subrange(0, count as int) =~= want);
    octets
}

/// From `at` on, `s` is a run of whole attributes, each padded to four bytes.
pub open spec fn is_attribute_run(s: Seq<u8>, at: int) -> bool
    decreases vstd::math::max(s.len() - at, 0),
{
    let len = u16_at(s, at + 2) as int;
    at == s.len() || at + 4 <= s.len() && is_attribute_run(s, at + 4 + len + padding(len))
}

/// `t` is too short for an attribute: there is no whole header, or not the whole
/// of the value that the header announces.
pub open spec fn is_truncated_attribute(t: Seq<u8>) -> bool {
    t.len() < 4 || t.len() < 4 + u16_at(t, 2)
}

proof fn run_is_unchanged(s: Seq<u8>, t: Seq<u8>, at: int)
    requires
        0 <= at <= s.len(),
        is_attribute_run(s, at),
        is_truncated_attribute(t),
    ensures
        attributes(s + t, at, (s + t).len() as int) == attributes(s, at, s.len() as int),
    decreases s.len() - at,
{
    let w = s + t;
    let end = w.len() as int;
    if at == s.len() {
        if t.len() >= 4 {
            assert(w[at + 2] == t[2] && w[at + 3] == t[3]);
            assert(u16_at(w, at + 2) == u16_at(t, 2));
        }
        assert(attributes(w, at, end) =~= attributes(s, at, s.len() as int));
    } else {
        let len = u16_at(s, at + 2) as int;
        let next = at + 4 + len + padding(len);
        run_within(s, next);
        run_is_unchanged(s, t, next);
        assert(w[at] == s[at] && w[at + 1] == s[at + 1] && w[at + 2] == s[at + 2] && w[at + 3] == s[at
            + 3]);
        assert(w.subrange(at + 4, at + 4 + len) =~= s.subrange(at + 4, at + 4 + len));
    }
}

proof fn run_within(s: Seq<u8>, at: int)
    requires
        is_attribute_run(s, at),
    ensures
        at <= s.len(),
{
}

/// A truncated last attribute is ignored: behind a run of whole attributes it
/// changes nothing of what is found, and nothing of what is parsed.
pub proof fn truncated_attribute_is_ignored(s: Seq<u8>, t: Seq<u8>, txn: Seq<u8>)
    requires
        is_attribute_run(s, 0),
        is_truncated_attribute(t),
    ensures
        attributes(s + t, 0, (s + t).len() as int) == attributes(s, 0, s.len() as int),
        parsed_attributes(s + t, txn) == parsed_attributes(s, txn),
{
    run_is_unchanged(s, t, 0);
}

/// Attributes stand between `at` and the end of the bytes.
proof fn attributes_offsets(s: Seq<u8>, at: int, end: int)
    requires
        0 <= at,
        end <= s.len(),
    ensures
        forall|i: int|
            0 <= i < attributes(s, at, end).len() ==> {
                let a = #[trigger] attributes(s, at, end)[i];
                at <= a.offset && a.offset + 4 + a.value.len() <= s.len()
            },
    decreases vstd::math::max(end - at, 0),
{
    let len = u16_at(s, at + 2) as int;
    if at + 4 > end || at + 4 + len > s.len() {
    } else {
        let next = at + 4 + len + padding(len);
        attributes_offsets(s, next, end);
        let rest = attributes(s, next, end);
        assert forall|i: int| 0 <= i < attributes(s, at, end).len() implies {
            let a = #[trigger] attributes(s, at, end)[i];
            at <= a.offset && a.offset + 4 + a.value.len() <= s.len()
        } by {
            if i > 0 {
                assert(attributes(s, at, end)[i] == rest[i - 1]);
            }
        }
    }
}

proof fn last_of_member(attrs: Seq<Attribute>, p: spec_fn(Attribute) -> bool)
    ensures
        last_of(attrs, p) matches Some(a) ==> p(a) && attrs.contains(a),
    decreases attrs.len(),
{
    if attrs.len() > 0 {
        if p(attrs.last()) {
            assert(attrs[attrs.len() - 1] == attrs.last());
        } else {
            last_of_member(attrs.drop_last(), p);
            if let Some(a) = last_of(attrs.drop_last(), p) {
                let i = choose|i: int| 0 <= i < attrs.drop_last().len() && attrs.drop_last()[i] == a;
                assert(attrs[i] == a);
            }
        }
    }
}

proof fn integrity_offset_bound(s: Seq<u8>, at: int, end: int)
    requires
        0 <= at,
        end <= s.len() <= 65535,
    ensures
        integrity_attribute(attributes(s, at, end)) matches Some(a) ==> 0 <= a.offset <= s.len(),
{
    let attrs = attributes(s, at, end);
    attributes_offsets(s, at, end);
    last_of_member(attrs, |a: Attribute| a.kind == ATTR_MESSAGE_INTEGRITY && a.value.len() == 20);
}

} // verus!
