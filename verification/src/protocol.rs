//! The AMT message codec.

use crate::bytes::{append_bytes, append_u16, append_u32, u16_at, u16_bytes, u32_at, u32_bytes};
use crate::net::{append_ip, append_ipv6, ip_octets, ipv4_at, ipv6_at, ipv6_octets, read_ipv4};
use crate::net::{law_addresses_are_read_in_network_order, law_octets_spell_the_address};
use crate::net::{read_ipv6, IpAddr, Ipv4Addr, Ipv6Addr};
use vstd::arithmetic::power::pow;
use vstd::prelude::*;
use vstd::slice::slice_subrange;

verus! {

/// UDP port assigned by IANA for AMT.
pub const AMT_PORT: u16 = 2268;

/// The length of the gateway port and address fields.
pub const GATEWAY_FIELDS_LEN: usize = 18;

/// AMT message types; [`MessageType::nibble`] gives their wire values.
#[derive(Debug, Clone, Copy, PartialEq, Eq, Structural)]
pub enum MessageType {
    RelayDiscovery,
    RelayAdvertisement,
    Request,
    MembershipQuery,
    MembershipUpdate,
    MulticastData,
    Teardown,
}

impl MessageType {
    /// The value of the type field.
    pub open spec fn nibble_spec(self) -> u8 {
        match self {
            MessageType::RelayDiscovery => 1,
            MessageType::RelayAdvertisement => 2,
            MessageType::Request => 3,
            MessageType::MembershipQuery => 4,
            MessageType::MembershipUpdate => 5,
            MessageType::MulticastData => 6,
            MessageType::Teardown => 7,
        }
    }

    /// The value of the type field.
    pub fn nibble(self) -> (value: u8)
        ensures
            value == self.nibble_spec(),
    {
        match self {
            MessageType::RelayDiscovery => 1,
            MessageType::RelayAdvertisement => 2,
            MessageType::Request => 3,
            MessageType::MembershipQuery => 4,
            MessageType::MembershipUpdate => 5,
            MessageType::MulticastData => 6,
            MessageType::Teardown => 7,
        }
    }

    /// The message type with the given value of the type field.
    pub fn from_nibble(value: u8) -> (result: Result<Self, DecodeError>)
        ensures
            match result {
                Ok(message_type) => message_type.nibble_spec() == value,
                Err(error) => (value == 0 || value > 7) && error
                    == DecodeError::UnknownMessageType(value),
            },
    {
        match value {
            1 => Ok(MessageType::RelayDiscovery),
            2 => Ok(MessageType::RelayAdvertisement),
            3 => Ok(MessageType::Request),
            4 => Ok(MessageType::MembershipQuery),
            5 => Ok(MessageType::MembershipUpdate),
            6 => Ok(MessageType::MulticastData),
            7 => Ok(MessageType::Teardown),
            other => Err(DecodeError::UnknownMessageType(other)),
        }
    }
}

/// The group membership protocol requested for a relay's Membership Query.
#[derive(Debug, Clone, Copy, PartialEq, Eq, Structural)]
pub enum MembershipProtocol {
    Igmpv3,
    Mldv2,
}

impl MembershipProtocol {
    /// The protocol that the P flag selects.
    pub fn from_p_flag(p_flag: bool) -> (protocol: Self)
        ensures
            (protocol is Mldv2) == p_flag,
    {
        if p_flag {
            MembershipProtocol::Mldv2
        } else {
            MembershipProtocol::Igmpv3
        }
    }

    /// The P flag that selects the protocol.
    pub fn p_flag(self) -> (p_flag: bool)
        ensures
            p_flag == (self is Mldv2),
    {
        matches!(self, MembershipProtocol::Mldv2)
    }
}

/// A six-byte AMT Response MAC.
#[derive(Debug, Clone, Copy, PartialEq, Eq, Hash, Structural)]
pub struct ResponseMac {
    /// The first two bytes as one big-endian number.
    pub high: u16,
    /// The last four bytes as one big-endian number.
    pub low: u32,
}

impl ResponseMac {
    /// The six bytes, in wire order.
    pub open spec fn octets_spec(self) -> Seq<u8> {
        u16_bytes(self.high) + u32_bytes(self.low)
    }

    /// The MAC that the six bytes at `at` stand for.
    pub open spec fn at(s: Seq<u8>, at: int) -> Self {
        ResponseMac { high: u16_at(s, at) as u16, low: u32_at(s, at + 2) as u32 }
    }

    /// The MAC whose bytes are all zero.
    pub fn zero() -> (mac: Self)
        ensures
            mac.octets_spec() == seq![0u8, 0u8, 0u8, 0u8, 0u8, 0u8],
    {
        let mac = ResponseMac { high: 0, low: 0 };
        proof {
            assert(mac.octets_spec() =~= seq![0u8, 0u8, 0u8, 0u8, 0u8, 0u8]);
        }
        mac
    }

    pub fn new(bytes: [u8; 6]) -> (mac: Self)
        ensures
            mac == Self::at(bytes@, 0),
            mac.octets_spec() == bytes@,
    {
        let mac = read_response_mac(bytes.as_slice(), 0);
        proof {
            lemma_mac_of_octets(bytes@);
        }
        mac
    }

    pub fn as_bytes(self) -> (bytes: [u8; 6])
        ensures
            bytes@ == self.octets_spec(),
    {
        let bytes: [u8; 6] = [
            (self.high / 256) as u8,
            (self.high % 256) as u8,
            (self.low / 16777216) as u8,
            ((self.low / 65536) % 256) as u8,
            ((self.low / 256) % 256) as u8,
            (self.low % 256) as u8,
        ];
        proof {
            assert(bytes@ =~= self.octets_spec());
        }
        bytes
    }

    /// Whether two MACs are equal, without a branch on the position of the
    /// first difference.
    pub fn constant_time_eq(self, other: Self) -> (equal: bool)
        ensures
            equal == (self == other),
    {
        let high: u16 = self.high ^ other.high;
        let low: u32 = self.low ^ other.low;
        let difference: u32 = high as u32 | low;
        let a: u16 = self.high;
        let b: u16 = other.high;
        let c: u32 = self.low;
        let d: u32 = other.low;
        assert((((a ^ b) as u32) | (c ^ d)) == 0 <==> (a == b && c == d)) by (bit_vector);
        difference == 0
    }
}

/// The bytes of the MAC that six bytes stand for are those bytes.
pub proof fn lemma_mac_of_octets(s: Seq<u8>)
    requires
        s.len() == 6,
    ensures
        ResponseMac::at(s, 0).octets_spec() == s,
{
    let mac = ResponseMac::at(s, 0);
    crate::bytes::lemma_u16_of_bytes(s, 0);
    crate::bytes::lemma_u32_of_bytes(s, 2);
    assert(mac.octets_spec() =~= s);
}

/// A MAC is read back from where its bytes stand.
pub proof fn lemma_mac_read_back(mac: ResponseMac, s: Seq<u8>, at: int)
    requires
        0 <= at,
        at + 6 <= s.len(),
        s.subrange(at, at + 6) == mac.octets_spec(),
    ensures
        ResponseMac::at(s, at) == mac,
{
    let part = s.subrange(at, at + 6);
    assert(part[0] == s[at] && part[1] == s[at + 1] && part[2] == s[at + 2] && part[3] == s[at + 3]
        && part[4] == s[at + 4] && part[5] == s[at + 5]);
    crate::bytes::lemma_u32_bytes_read_back(mac.low);
    assert(mac.octets_spec()[2] == u32_bytes(mac.low)[0]);
    assert(mac.octets_spec()[3] == u32_bytes(mac.low)[1]);
    assert(mac.octets_spec()[4] == u32_bytes(mac.low)[2]);
    assert(mac.octets_spec()[5] == u32_bytes(mac.low)[3]);
    assert(mac.octets_spec()[0] == u16_bytes(mac.high)[0]);
    assert(mac.octets_spec()[1] == u16_bytes(mac.high)[1]);
}

/// A 16-byte gateway address field from Membership Query and Teardown messages.
///
/// An IPv4 gateway address is stored as an IPv4-compatible IPv6 address (96
/// zero bits followed by the IPv4 address).  `bits` is the whole field as one
/// big-endian number.
#[derive(Debug, Clone, Copy, PartialEq, Eq, Hash, Structural)]
pub struct GatewayAddress {
    pub bits: u128,
}

impl GatewayAddress {
    /// The sixteen bytes, in wire order.
    pub open spec fn octets_spec(self) -> Seq<u8> {
        ipv6_octets(Ipv6Addr { bits: self.bits })
    }

    /// The field that carries `addr`.
    pub open spec fn of_ip(addr: IpAddr) -> Self {
        match addr {
            IpAddr::V4(a) => GatewayAddress { bits: a.bits as u128 },
            IpAddr::V6(a) => GatewayAddress { bits: a.bits },
        }
    }

    /// The IPv4 address in the field, if its first 96 bits are zero.
    pub open spec fn ipv4_compatible_spec(self) -> Option<Ipv4Addr> {
        if self.bits <= 0xffff_ffff {
            Some(Ipv4Addr { bits: self.bits as u32 })
        } else {
            None
        }
    }

    pub fn from_octets(octets: [u8; 16]) -> (address: Self)
        ensures
            address.octets_spec() == octets@,
    {
        let addr = Ipv6Addr::from_octets(octets);
        GatewayAddress { bits: addr.bits }
    }

    pub fn from_ip_addr(addr: IpAddr) -> (address: Self)
        ensures
            address == Self::of_ip(addr),
    {
        match addr {
            IpAddr::V4(a) => GatewayAddress { bits: a.bits as u128 },
            IpAddr::V6(a) => GatewayAddress { bits: a.bits },
        }
    }

    pub fn octets(self) -> (octets: [u8; 16])
        ensures
            octets@ == self.octets_spec(),
    {
        Ipv6Addr { bits: self.bits }.octets()
    }

    pub fn as_ipv6(self) -> (addr: Ipv6Addr)
        ensures
            ipv6_octets(addr) == self.octets_spec(),
            addr.bits == self.bits,
    {
        Ipv6Addr { bits: self.bits }
    }

    pub fn as_ipv4_compatible(self) -> (addr: Option<Ipv4Addr>)
        ensures
            addr == self.ipv4_compatible_spec(),
    {
        if self.bits <= 0xffff_ffff {
            Some(Ipv4Addr { bits: self.bits as u32 })
        } else {
            None
        }
    }
}

/// An IPv4 address survives the trip through the address field, and so does an
/// IPv6 address.
pub proof fn law_gateway_address_keeps_the_ip_address(addr: IpAddr)
    ensures
        match addr {
            IpAddr::V4(a) => GatewayAddress::of_ip(addr).ipv4_compatible_spec() == Some(a),
            IpAddr::V6(a) => GatewayAddress::of_ip(addr).bits == a.bits,
        },
{
}

/// Gateway endpoint fields carried by Membership Query and Teardown messages.
#[derive(Debug, Clone, Copy, PartialEq, Eq, Hash, Structural)]
pub struct GatewayEndpoint {
    pub port: u16,
    pub address: GatewayAddress,
}

impl GatewayEndpoint {
    pub fn new(port: u16, address: IpAddr) -> (endpoint: Self)
        ensures
            endpoint.port == port,
            endpoint.address == GatewayAddress::of_ip(address),
    {
        GatewayEndpoint { port, address: GatewayAddress::from_ip_addr(address) }
    }

    /// The port and address fields, in wire order.
    pub open spec fn octets_spec(self) -> Seq<u8> {
        u16_bytes(self.port) + self.address.octets_spec()
    }

    /// The endpoint that the 18 bytes at `at` stand for.
    pub open spec fn at(s: Seq<u8>, at: int) -> Self {
        GatewayEndpoint {
            port: u16_at(s, at) as u16,
            address: GatewayAddress { bits: ipv6_at(s, at + 2).bits },
        }
    }
}

/// An endpoint is read back from where its bytes stand.
pub proof fn lemma_endpoint_read_back(endpoint: GatewayEndpoint, s: Seq<u8>, at: int)
    requires
        0 <= at,
        at + 18 <= s.len(),
        s.subrange(at, at + 18) == endpoint.octets_spec(),
    ensures
        GatewayEndpoint::at(s, at) == endpoint,
{
    let part = s.subrange(at, at + 18);
    let addr = Ipv6Addr { bits: endpoint.address.bits };
    crate::net::lemma_ipv6_octets_read_back(addr);
    assert(part[0] == s[at] && part[1] == s[at + 1]);
    assert(endpoint.octets_spec()[0] == u16_bytes(endpoint.port)[0]);
    assert(endpoint.octets_spec()[1] == u16_bytes(endpoint.port)[1]);
    assert(s.subrange(at + 2, at + 18) =~= part.subrange(2, 18));
    assert(part.subrange(2, 18) =~= ipv6_octets(addr));
}

/// Borrowed view of one AMT message.
#[allow(inconsistent_fields)]
#[derive(Debug, Clone, Copy, PartialEq, Eq)]
pub enum Message<'a> {
    RelayDiscovery { discovery_nonce: u32 },
    RelayAdvertisement { discovery_nonce: u32, relay_address: IpAddr },
    Request {
        request_nonce: u32,
        protocol: MembershipProtocol,
        /// The E flag: the gateway propagates ECN when it decapsulates.
        ecn_capable: bool,
    },
    MembershipQuery {
        response_mac: ResponseMac,
        request_nonce: u32,
        limit: bool,
        gateway: Option<GatewayEndpoint>,
        general_query: &'a [u8],
    },
    MembershipUpdate {
        response_mac: ResponseMac,
        request_nonce: u32,
        membership_update: &'a [u8],
    },
    MulticastData { packet: &'a [u8] },
    Teardown { response_mac: ResponseMac, request_nonce: u32, gateway: GatewayEndpoint },
}

/// What a [`Message`] says, with its byte strings as sequences.
#[allow(inconsistent_fields)]
pub enum MessageModel {
    RelayDiscovery { discovery_nonce: u32 },
    RelayAdvertisement { discovery_nonce: u32, relay_address: IpAddr },
    Request { request_nonce: u32, protocol: MembershipProtocol, ecn_capable: bool },
    MembershipQuery {
        response_mac: ResponseMac,
        request_nonce: u32,
        limit: bool,
        gateway: Option<GatewayEndpoint>,
        general_query: Seq<u8>,
    },
    MembershipUpdate {
        response_mac: ResponseMac,
        request_nonce: u32,
        membership_update: Seq<u8>,
    },
    MulticastData { packet: Seq<u8> },
    Teardown { response_mac: ResponseMac, request_nonce: u32, gateway: GatewayEndpoint },
}

impl<'a> View for Message<'a> {
    type V = MessageModel;

    open spec fn view(&self) -> MessageModel {
        match *self {
            Message::RelayDiscovery { discovery_nonce } => MessageModel::RelayDiscovery {
                discovery_nonce,
            },
            Message::RelayAdvertisement { discovery_nonce, relay_address } => {
                MessageModel::RelayAdvertisement { discovery_nonce, relay_address }
            },
            Message::Request { request_nonce, protocol, ecn_capable } => MessageModel::Request {
                request_nonce,
                protocol,
                ecn_capable,
            },
            Message::MembershipQuery {
                response_mac,
                request_nonce,
                limit,
                gateway,
                general_query,
            } => MessageModel::MembershipQuery {
                response_mac,
                request_nonce,
                limit,
                gateway,
                general_query: general_query@,
            },
            Message::MembershipUpdate { response_mac, request_nonce, membership_update } => {
                MessageModel::MembershipUpdate {
                    response_mac,
                    request_nonce,
                    membership_update: membership_update@,
                }
            },
            Message::MulticastData { packet } => MessageModel::MulticastData { packet: packet@ },
            Message::Teardown { response_mac, request_nonce, gateway } => MessageModel::Teardown {
                response_mac,
                request_nonce,
                gateway,
            },
        }
    }
}

/// Why a datagram is not an AMT message.
#[allow(inconsistent_fields)]
#[derive(Debug, Clone, Copy, PartialEq, Eq)]
pub enum DecodeError {
    UnsupportedVersion(u8),
    UnknownMessageType(u8),
    Truncated { message_type: Option<MessageType>, expected_at_least: usize, actual: usize },
    InvalidLength { message_type: MessageType, expected: &'static str, actual: usize },
}

/// What a [`DecodeError`] says, with its text as a sequence.
#[allow(inconsistent_fields)]
pub enum DecodeErrorModel {
    UnsupportedVersion(u8),
    UnknownMessageType(u8),
    Truncated { message_type: Option<MessageType>, expected_at_least: int, actual: int },
    InvalidLength { message_type: MessageType, expected: Seq<char>, actual: int },
}

impl View for DecodeError {
    type V = DecodeErrorModel;

    open spec fn view(&self) -> DecodeErrorModel {
        match *self {
            DecodeError::UnsupportedVersion(version) => DecodeErrorModel::UnsupportedVersion(
                version,
            ),
            DecodeError::UnknownMessageType(value) => DecodeErrorModel::UnknownMessageType(value),
            DecodeError::Truncated { message_type, expected_at_least, actual } => {
                DecodeErrorModel::Truncated {
                    message_type,
                    expected_at_least: expected_at_least as int,
                    actual: actual as int,
                }
            },
            DecodeError::InvalidLength { message_type, expected, actual } => {
                DecodeErrorModel::InvalidLength {
                    message_type,
                    expected: expected@,
                    actual: actual as int,
                }
            },
        }
    }
}

/// `1` for a set flag, `0` for a clear one.
pub open spec fn flag(set: bool) -> u8 {
    if set {
        1
    } else {
        0
    }
}

/// The wire form of a message.
pub open spec fn message_bytes(message: MessageModel) -> Seq<u8> {
    match message {
        MessageModel::RelayDiscovery { discovery_nonce } => seq![1u8, 0u8, 0u8, 0u8] + u32_bytes(
            discovery_nonce,
        ),
        MessageModel::RelayAdvertisement { discovery_nonce, relay_address } => seq![
            2u8,
            0u8,
            0u8,
            0u8,
        ] + u32_bytes(discovery_nonce) + ip_octets(relay_address),
        MessageModel::Request { request_nonce, protocol, ecn_capable } => seq![
            3u8,
            (2 * flag(ecn_capable) + flag(protocol is Mldv2)) as u8,
            0u8,
            0u8,
        ] + u32_bytes(request_nonce),
        MessageModel::MembershipQuery {
            response_mac,
            request_nonce,
            limit,
            gateway,
            general_query,
        } => seq![4u8, (2 * flag(limit) + flag(gateway is Some)) as u8]
            + response_mac.octets_spec() + u32_bytes(request_nonce) + general_query + (
        match gateway {
            Some(endpoint) => endpoint.octets_spec(),
            None => Seq::empty(),
        }),
        MessageModel::MembershipUpdate { response_mac, request_nonce, membership_update } => seq![
            5u8,
            0u8,
        ] + response_mac.octets_spec() + u32_bytes(request_nonce) + membership_update,
        MessageModel::MulticastData { packet } => seq![6u8, 0u8] + packet,
        MessageModel::Teardown { response_mac, request_nonce, gateway } => seq![7u8, 0u8]
            + response_mac.octets_spec() + u32_bytes(request_nonce) + gateway.octets_spec(),
    }
}

/// A length error of a message that must have exactly `expected` bytes.
pub open spec fn exact_length_error(
    message_type: MessageType,
    expected: int,
    actual: int,
) -> DecodeErrorModel {
    if actual < expected {
        DecodeErrorModel::Truncated {
            message_type: Some(message_type),
            expected_at_least: expected,
            actual,
        }
    } else {
        DecodeErrorModel::InvalidLength {
            message_type,
            expected: "the fixed RFC 7450 message length"@,
            actual,
        }
    }
}

pub open spec fn truncated_error(
    message_type: MessageType,
    expected_at_least: int,
    actual: int,
) -> DecodeErrorModel {
    DecodeErrorModel::Truncated { message_type: Some(message_type), expected_at_least, actual }
}

/// Whether bit 0 of the flags byte is set.
pub open spec fn low_flag(s: Seq<u8>) -> bool {
    s[1] % 2 == 1
}

/// Whether bit 1 of the flags byte is set.
pub open spec fn second_flag(s: Seq<u8>) -> bool {
    (s[1] / 2) % 2 == 1
}

/// What a datagram says, or why it says nothing.
pub open spec fn decoded(s: Seq<u8>) -> Result<MessageModel, DecodeErrorModel> {
    if s.len() == 0 {
        Err(DecodeErrorModel::Truncated { message_type: None, expected_at_least: 1, actual: 0 })
    } else if s[0] / 16 != 0 {
        Err(DecodeErrorModel::UnsupportedVersion((s[0] / 16) as u8))
    } else if s[0] == 1 {
        if s.len() == 8 {
            Ok(MessageModel::RelayDiscovery { discovery_nonce: u32_at(s, 4) as u32 })
        } else {
            Err(exact_length_error(MessageType::RelayDiscovery, 8, s.len() as int))
        }
    } else if s[0] == 2 {
        if s.len() < 8 {
            Err(truncated_error(MessageType::RelayAdvertisement, 8, s.len() as int))
        } else if s.len() == 12 {
            Ok(
                MessageModel::RelayAdvertisement {
                    discovery_nonce: u32_at(s, 4) as u32,
                    relay_address: IpAddr::V4(ipv4_at(s, 8)),
                },
            )
        } else if s.len() == 24 {
            Ok(
                MessageModel::RelayAdvertisement {
                    discovery_nonce: u32_at(s, 4) as u32,
                    relay_address: IpAddr::V6(ipv6_at(s, 8)),
                },
            )
        } else {
            Err(
                DecodeErrorModel::InvalidLength {
                    message_type: MessageType::RelayAdvertisement,
                    expected: "12 bytes for IPv4 or 24 bytes for IPv6"@,
                    actual: s.len() as int,
                },
            )
        }
    } else if s[0] == 3 {
        if s.len() == 8 {
            Ok(
                MessageModel::Request {
                    request_nonce: u32_at(s, 4) as u32,
                    protocol: if low_flag(s) {
                        MembershipProtocol::Mldv2
                    } else {
                        MembershipProtocol::Igmpv3
                    },
                    ecn_capable: second_flag(s),
                },
            )
        } else {
            Err(exact_length_error(MessageType::Request, 8, s.len() as int))
        }
    } else if s[0] == 4 {
        if s.len() < 12 {
            Err(truncated_error(MessageType::MembershipQuery, 12, s.len() as int))
        } else if low_flag(s) && s.len() < 30 {
            Err(truncated_error(MessageType::MembershipQuery, 30, s.len() as int))
        } else {
            let end = if low_flag(s) {
                s.len() - 18
            } else {
                s.len() as int
            };
            Ok(
                MessageModel::MembershipQuery {
                    response_mac: ResponseMac::at(s, 2),
                    request_nonce: u32_at(s, 8) as u32,
                    limit: second_flag(s),
                    gateway: if low_flag(s) {
                        Some(GatewayEndpoint::at(s, end))
                    } else {
                        None
                    },
                    general_query: s.subrange(12, end),
                },
            )
        }
    } else if s[0] == 5 {
        if s.len() < 12 {
            Err(truncated_error(MessageType::MembershipUpdate, 12, s.len() as int))
        } else {
            Ok(
                MessageModel::MembershipUpdate {
                    response_mac: ResponseMac::at(s, 2),
                    request_nonce: u32_at(s, 8) as u32,
                    membership_update: s.subrange(12, s.len() as int),
                },
            )
        }
    } else if s[0] == 6 {
        if s.len() < 2 {
            Err(truncated_error(MessageType::MulticastData, 2, s.len() as int))
        } else {
            Ok(MessageModel::MulticastData { packet: s.subrange(2, s.len() as int) })
        }
    } else if s[0] == 7 {
        if s.len() == 30 {
            Ok(
                MessageModel::Teardown {
                    response_mac: ResponseMac::at(s, 2),
                    request_nonce: u32_at(s, 8) as u32,
                    gateway: GatewayEndpoint::at(s, 12),
                },
            )
        } else {
            Err(exact_length_error(MessageType::Teardown, 30, s.len() as int))
        }
    } else {
        Err(DecodeErrorModel::UnknownMessageType((s[0] % 16) as u8))
    }
}

/// A decoded message in terms of what it says.
pub open spec fn result_model(
    result: Result<Message<'_>, DecodeError>,
) -> Result<MessageModel, DecodeErrorModel> {
    match result {
        Ok(message) => Ok(message@),
        Err(error) => Err(error@),
    }
}

impl<'a> Message<'a> {
    /// Decodes a borrowed AMT message from one UDP datagram payload.
    pub fn decode(input: &'a [u8]) -> (result: Result<Self, DecodeError>)
        ensures
            result_model(result) == decoded(input@),
    {
        if input.len() == 0 {
            return Err(
                DecodeError::Truncated { message_type: None, expected_at_least: 1, actual: 0 },
            );
        }
        let first: u8 = input[0];
        let version: u8 = first / 16;
        if version != 0 {
            return Err(DecodeError::UnsupportedVersion(version));
        }
        let message_type = match MessageType::from_nibble(first % 16) {
            Ok(message_type) => message_type,
            Err(error) => return Err(error),
        };
        match message_type {
            MessageType::RelayDiscovery => decode_relay_discovery(input),
            MessageType::RelayAdvertisement => decode_relay_advertisement(input),
            MessageType::Request => decode_request(input),
            MessageType::MembershipQuery => decode_membership_query(input),
            MessageType::MembershipUpdate => decode_membership_update(input),
            MessageType::MulticastData => decode_multicast_data(input),
            MessageType::Teardown => decode_teardown(input),
        }
    }

    /// Encodes this message into `out`, appending to any existing bytes.
    pub fn encode(&self, out: &mut Vec<u8>)
        ensures
            final(out)@ == old(out)@ + message_bytes(self@),
    {
        let ghost before = out@;
        match *self {
            Message::RelayDiscovery { discovery_nonce } => {
                append_header(out, MessageType::RelayDiscovery, 0);
                out.push(0);
                out.push(0);
                append_u32(out, discovery_nonce);
            },
            Message::RelayAdvertisement { discovery_nonce, relay_address } => {
                append_header(out, MessageType::RelayAdvertisement, 0);
                out.push(0);
                out.push(0);
                append_u32(out, discovery_nonce);
                append_ip(out, relay_address);
            },
            Message::Request { request_nonce, protocol, ecn_capable } => {
                append_header(
                    out,
                    MessageType::Request,
                    flag_bits(ecn_capable, protocol.p_flag()),
                );
                out.push(0);
                out.push(0);
                append_u32(out, request_nonce);
            },
            Message::MembershipQuery {
                response_mac,
                request_nonce,
                limit,
                gateway,
                general_query,
            } => {
                append_header(
                    out,
                    MessageType::MembershipQuery,
                    flag_bits(limit, gateway.is_some()),
                );
                append_bytes(out, response_mac.as_bytes().as_slice());
                append_u32(out, request_nonce);
                append_bytes(out, general_query);
                if let Some(endpoint) = gateway {
                    put_gateway_endpoint(out, endpoint);
                }
            },
            Message::MembershipUpdate { response_mac, request_nonce, membership_update } => {
                append_header(out, MessageType::MembershipUpdate, 0);
                append_bytes(out, response_mac.as_bytes().as_slice());
                append_u32(out, request_nonce);
                append_bytes(out, membership_update);
            },
            Message::MulticastData { packet } => {
                append_header(out, MessageType::MulticastData, 0);
                append_bytes(out, packet);
            },
            Message::Teardown { response_mac, request_nonce, gateway } => {
                append_header(out, MessageType::Teardown, 0);
                append_bytes(out, response_mac.as_bytes().as_slice());
                append_u32(out, request_nonce);
                put_gateway_endpoint(out, gateway);
            },
        }
        proof {
            assert(out@ =~= before + message_bytes(self@));
        }
    }

    /// The length of the wire form.
    pub fn encoded_len(&self) -> (length: usize)
        requires
            message_bytes(self@).len() <= usize::MAX,
        ensures
            length == message_bytes(self@).len(),
    {
        proof {
            lemma_message_len(self@);
        }
        match *self {
            Message::RelayDiscovery { .. } => 8,
            Message::RelayAdvertisement { relay_address, .. } => match relay_address {
                IpAddr::V4(_) => 12,
                IpAddr::V6(_) => 24,
            },
            Message::Request { .. } => 8,
            Message::MembershipQuery { gateway, general_query, .. } => {
                let fields: usize = if gateway.is_some() {
                    GATEWAY_FIELDS_LEN
                } else {
                    0
                };
                12 + general_query.len() + fields
            },
            Message::MembershipUpdate { membership_update, .. } => 12 + membership_update.len(),
            Message::MulticastData { packet } => 2 + packet.len(),
            Message::Teardown { .. } => 12 + GATEWAY_FIELDS_LEN,
        }
    }
}

/// How long each kind of message is.
pub proof fn lemma_message_len(message: MessageModel)
    ensures
        message_bytes(message).len() == match message {
            MessageModel::RelayDiscovery { .. } => 8nat,
            MessageModel::RelayAdvertisement { relay_address, .. } => if relay_address is V4 {
                12nat
            } else {
                24nat
            },
            MessageModel::Request { .. } => 8nat,
            MessageModel::MembershipQuery { gateway, general_query, .. } => 12 + general_query.len()
                + (if gateway is Some {
                18nat
            } else {
                0nat
            }),
            MessageModel::MembershipUpdate { membership_update, .. } => 12
                + membership_update.len(),
            MessageModel::MulticastData { packet } => 2 + packet.len(),
            MessageModel::Teardown { .. } => 30nat,
        },
{
    match message {
        MessageModel::RelayAdvertisement { relay_address, .. } => {
            match relay_address {
                IpAddr::V4(a) => crate::net::lemma_ipv4_octets_read_back(a),
                IpAddr::V6(a) => crate::net::lemma_ipv6_octets_read_back(a),
            }
        },
        MessageModel::MembershipQuery { gateway, .. } => {
            if let Some(endpoint) = gateway {
                crate::net::lemma_ipv6_octets_read_back(
                    Ipv6Addr { bits: endpoint.address.bits },
                );
            }
        },
        MessageModel::Teardown { gateway, .. } => {
            crate::net::lemma_ipv6_octets_read_back(Ipv6Addr { bits: gateway.address.bits });
        },
        _ => {},
    }
}

proof fn lemma_nonce_read_back(s: Seq<u8>, at: int, nonce: u32)
    requires
        0 <= at,
        at + 4 <= s.len(),
        s.subrange(at, at + 4) == u32_bytes(nonce),
    ensures
        u32_at(s, at) == nonce,
{
    let part = s.subrange(at, at + 4);
    assert(part[0] == s[at] && part[1] == s[at + 1] && part[2] == s[at + 2] && part[3] == s[at
        + 3]);
    crate::bytes::lemma_u32_bytes_read_back(nonce);
}

/// Decoding an encoded message gives the message back.
pub proof fn law_decode_undoes_encode(message: MessageModel)
    ensures
        decoded(message_bytes(message)) == Ok::<MessageModel, DecodeErrorModel>(message),
{
    let s = message_bytes(message);
    lemma_message_len(message);
    match message {
        MessageModel::RelayDiscovery { discovery_nonce } => {
            assert(s.subrange(4, 8) =~= u32_bytes(discovery_nonce));
            lemma_nonce_read_back(s, 4, discovery_nonce);
        },
        MessageModel::RelayAdvertisement { discovery_nonce, relay_address } => {
            assert(s.subrange(4, 8) =~= u32_bytes(discovery_nonce));
            lemma_nonce_read_back(s, 4, discovery_nonce);
            match relay_address {
                IpAddr::V4(a) => {
                    crate::net::lemma_ipv4_octets_read_back(a);
                    assert(s.subrange(8, 12) =~= crate::net::ipv4_octets(a));
                },
                IpAddr::V6(a) => {
                    crate::net::lemma_ipv6_octets_read_back(a);
                    assert(s.subrange(8, 24) =~= ipv6_octets(a));
                },
            }
        },
        MessageModel::Request { request_nonce, protocol, ecn_capable } => {
            assert(s.subrange(4, 8) =~= u32_bytes(request_nonce));
            lemma_nonce_read_back(s, 4, request_nonce);
        },
        MessageModel::MembershipQuery {
            response_mac,
            request_nonce,
            limit,
            gateway,
            general_query,
        } => {
            assert(s.subrange(2, 8) =~= response_mac.octets_spec());
            lemma_mac_read_back(response_mac, s, 2);
            assert(s.subrange(8, 12) =~= u32_bytes(request_nonce));
            lemma_nonce_read_back(s, 8, request_nonce);
            let end = 12 + general_query.len() as int;
            assert(s.subrange(12, end) =~= general_query);
            if let Some(endpoint) = gateway {
                assert(s.subrange(end, end + 18) =~= endpoint.octets_spec());
                lemma_endpoint_read_back(endpoint, s, end);
            }
        },
        MessageModel::MembershipUpdate { response_mac, request_nonce, membership_update } => {
            assert(s.subrange(2, 8) =~= response_mac.octets_spec());
            lemma_mac_read_back(response_mac, s, 2);
            assert(s.subrange(8, 12) =~= u32_bytes(request_nonce));
            lemma_nonce_read_back(s, 8, request_nonce);
            assert(s.subrange(12, s.len() as int) =~= membership_update);
        },
        MessageModel::MulticastData { packet } => {
            assert(s.subrange(2, s.len() as int) =~= packet);
        },
        MessageModel::Teardown { response_mac, request_nonce, gateway } => {
            assert(s.subrange(2, 8) =~= response_mac.octets_spec());
            lemma_mac_read_back(response_mac, s, 2);
            assert(s.subrange(8, 12) =~= u32_bytes(request_nonce));
            lemma_nonce_read_back(s, 8, request_nonce);
            assert(s.subrange(12, 30) =~= gateway.octets_spec());
            lemma_endpoint_read_back(gateway, s, 12);
        },
    }
}

/// Decodes a borrowed AMT message from one UDP datagram payload.
pub fn decode(input: &[u8]) -> (result: Result<Message<'_>, DecodeError>)
    ensures
        result_model(result) == decoded(input@),
{
    Message::decode(input)
}

/// Encodes a message into a fresh byte vector.
pub fn encode(message: &Message<'_>) -> (out: Vec<u8>)
    ensures
        out@ == message_bytes(message@),
{
    let mut out: Vec<u8> = Vec::new();
    message.encode(&mut out);
    proof {
        assert(Seq::<u8>::empty() + message_bytes(message@) =~= message_bytes(message@));
    }
    out
}

fn flag_bits(second: bool, low: bool) -> (bits: u8)
    ensures
        bits == 2 * flag(second) + flag(low),
{
    match (second, low) {
        (false, false) => 0,
        (false, true) => 1,
        (true, false) => 2,
        (true, true) => 3,
    }
}

fn append_header(out: &mut Vec<u8>, message_type: MessageType, flags: u8)
    ensures
        final(out)@ == old(out)@.push(message_type.nibble_spec()).push(flags),
{
    out.push(message_type.nibble());
    out.push(flags);
}

fn decode_relay_discovery(input: &[u8]) -> (result: Result<Message<'_>, DecodeError>)
    requires
        input@.len() > 0,
        input@[0] == 1,
    ensures
        result_model(result) == decoded(input@),
{
    match require_exact(MessageType::RelayDiscovery, input, 8) {
        Ok(()) => Ok(
            Message::RelayDiscovery { discovery_nonce: crate::bytes::read_u32_at(input, 4) },
        ),
        Err(error) => Err(error),
    }
}

fn decode_relay_advertisement(input: &[u8]) -> (result: Result<Message<'_>, DecodeError>)
    requires
        input@.len() > 0,
        input@[0] == 2,
    ensures
        result_model(result) == decoded(input@),
{
    if let Err(error) = require_at_least(MessageType::RelayAdvertisement, input, 8) {
        return Err(error);
    }
    let discovery_nonce: u32 = crate::bytes::read_u32_at(input, 4);
    let relay_address = match input.len() - 8 {
        4 => IpAddr::V4(read_ipv4(input, 8)),
        16 => IpAddr::V6(read_ipv6(input, 8)),
        _ => {
            return Err(
                DecodeError::InvalidLength {
                    message_type: MessageType::RelayAdvertisement,
                    expected: "12 bytes for IPv4 or 24 bytes for IPv6",
                    actual: input.len(),
                },
            );
        },
    };
    Ok(Message::RelayAdvertisement { discovery_nonce, relay_address })
}

fn decode_request(input: &[u8]) -> (result: Result<Message<'_>, DecodeError>)
    requires
        input@.len() > 0,
        input@[0] == 3,
    ensures
        result_model(result) == decoded(input@),
{
    match require_exact(MessageType::Request, input, 8) {
        Ok(()) => Ok(
            Message::Request {
                request_nonce: crate::bytes::read_u32_at(input, 4),
                protocol: MembershipProtocol::from_p_flag(input[1] % 2 == 1),
                ecn_capable: (input[1] / 2) % 2 == 1,
            },
        ),
        Err(error) => Err(error),
    }
}

fn decode_membership_query(input: &[u8]) -> (result: Result<Message<'_>, DecodeError>)
    requires
        input@.len() > 0,
        input@[0] == 4,
    ensures
        result_model(result) == decoded(input@),
{
    if let Err(error) = require_at_least(MessageType::MembershipQuery, input, 12) {
        return Err(error);
    }
    let has_gateway: bool = input[1] % 2 == 1;
    let gateway_offset: usize = if has_gateway {
        if input.len() < 12 + GATEWAY_FIELDS_LEN {
            return Err(
                DecodeError::Truncated {
                    message_type: Some(MessageType::MembershipQuery),
                    expected_at_least: 12 + GATEWAY_FIELDS_LEN,
                    actual: input.len(),
                },
            );
        }
        input.len() - GATEWAY_FIELDS_LEN
    } else {
        input.len()
    };
    let gateway = if has_gateway {
        Some(read_gateway_endpoint(input, gateway_offset))
    } else {
        None
    };
    Ok(
        Message::MembershipQuery {
            response_mac: read_response_mac(input, 2),
            request_nonce: crate::bytes::read_u32_at(input, 8),
            limit: (input[1] / 2) % 2 == 1,
            gateway,
            general_query: slice_subrange(input, 12, gateway_offset),
        },
    )
}

fn decode_membership_update(input: &[u8]) -> (result: Result<Message<'_>, DecodeError>)
    requires
        input@.len() > 0,
        input@[0] == 5,
    ensures
        result_model(result) == decoded(input@),
{
    if let Err(error) = require_at_least(MessageType::MembershipUpdate, input, 12) {
        return Err(error);
    }
    Ok(
        Message::MembershipUpdate {
            response_mac: read_response_mac(input, 2),
            request_nonce: crate::bytes::read_u32_at(input, 8),
            membership_update: slice_subrange(input, 12, input.len()),
        },
    )
}

fn decode_multicast_data(input: &[u8]) -> (result: Result<Message<'_>, DecodeError>)
    requires
        input@.len() > 0,
        input@[0] == 6,
    ensures
        result_model(result) == decoded(input@),
{
    if let Err(error) = require_at_least(MessageType::MulticastData, input, 2) {
        return Err(error);
    }
    Ok(Message::MulticastData { packet: slice_subrange(input, 2, input.len()) })
}

fn decode_teardown(input: &[u8]) -> (result: Result<Message<'_>, DecodeError>)
    requires
        input@.len() > 0,
        input@[0] == 7,
    ensures
        result_model(result) == decoded(input@),
{
    match require_exact(MessageType::Teardown, input, 12 + GATEWAY_FIELDS_LEN) {
        Ok(()) => Ok(
            Message::Teardown {
                response_mac: read_response_mac(input, 2),
                request_nonce: crate::bytes::read_u32_at(input, 8),
                gateway: read_gateway_endpoint(input, 12),
            },
        ),
        Err(error) => Err(error),
    }
}

fn require_exact(message_type: MessageType, input: &[u8], expected: usize) -> (result: Result<
    (),
    DecodeError,
>)
    ensures
        match result {
            Ok(()) => input@.len() == expected,
            Err(error) => input@.len() != expected && error@ == exact_length_error(
                message_type,
                expected as int,
                input@.len() as int,
            ),
        },
{
    if input.len() == expected {
        Ok(())
    } else if input.len() < expected {
        Err(
            DecodeError::Truncated {
                message_type: Some(message_type),
                expected_at_least: expected,
                actual: input.len(),
            },
        )
    } else {
        Err(
            DecodeError::InvalidLength {
                message_type,
                expected: "the fixed RFC 7450 message length",
                actual: input.len(),
            },
        )
    }
}

fn require_at_least(
    message_type: MessageType,
    input: &[u8],
    expected_at_least: usize,
) -> (result: Result<(), DecodeError>)
    ensures
        match result {
            Ok(()) => input@.len() >= expected_at_least,
            Err(error) => input@.len() < expected_at_least && error@ == truncated_error(
                message_type,
                expected_at_least as int,
                input@.len() as int,
            ),
        },
{
    if input.len() >= expected_at_least {
        Ok(())
    } else {
        Err(
            DecodeError::Truncated {
                message_type: Some(message_type),
                expected_at_least,
                actual: input.len(),
            },
        )
    }
}

fn read_response_mac(input: &[u8], offset: usize) -> (mac: ResponseMac)
    requires
        offset + 6 <= input@.len(),
    ensures
        mac == ResponseMac::at(input@, offset as int),
{
    let length: usize = input.len();
    assert(offset + 6 <= length);
    ResponseMac {
        high: crate::bytes::read_u16_at(input, offset),
        low: crate::bytes::read_u32_at(input, offset + 2),
    }
}

fn read_gateway_endpoint(input: &[u8], offset: usize) -> (endpoint: GatewayEndpoint)
    requires
        offset + 18 <= input@.len(),
    ensures
        endpoint == GatewayEndpoint::at(input@, offset as int),
{
    let length: usize = input.len();
    assert(offset + 18 <= length);
    let address = read_ipv6(input, offset + 2);
    GatewayEndpoint {
        port: crate::bytes::read_u16_at(input, offset),
        address: GatewayAddress { bits: address.bits },
    }
}

fn put_gateway_endpoint(out: &mut Vec<u8>, gateway: GatewayEndpoint)
    ensures
        final(out)@ == old(out)@ + gateway.octets_spec(),
{
    let ghost before = out@;
    append_u16(out, gateway.port);
    append_ipv6(out, Ipv6Addr { bits: gateway.address.bits });
    proof {
        assert(out@ =~= before + gateway.octets_spec());
    }
}

proof fn lemma_words_stand_where_they_are(s: Seq<u8>, at: int, value: u32)
    requires
        0 <= at,
        at + 4 <= s.len(),
        s.subrange(at, at + 4) == u32_bytes(value),
    ensures
        s[at] * 0x100_0000 + s[at + 1] * 0x1_0000 + s[at + 2] * 0x100 + s[at + 3] == value,
{
    lemma_nonce_read_back(s, at, value);
    crate::bytes::lemma_u32_bytes_read_back(value);
    let part = s.subrange(at, at + 4);
    assert(part[0] == s[at] && part[1] == s[at + 1] && part[2] == s[at + 2] && part[3] == s[at
        + 3]);
}

/// The wire form of each message, byte by byte: the type in the first byte, the
/// flags in the second, every number with its most significant byte first.  A
/// nonce that a discovery or a request carries stands behind the first four
/// bytes.  A response MAC stands in the bytes from 2 to 8, with the request's
/// nonce behind it.  An advertised address ends its message, and so do the port
/// and the address of a gateway.
pub proof fn law_messages_are_laid_out(message: MessageModel)
    ensures
        ({
            let s = message_bytes(message);
            let half = |i: int| s[i] * 0x100 + s[i + 1];
            let word = |i: int|
                s[i] * 0x100_0000 + s[i + 1] * 0x1_0000 + s[i + 2] * 0x100 + s[i + 3];
            match message {
                MessageModel::RelayDiscovery { discovery_nonce } => s.len() == 8 && word(0)
                    == 0x0100_0000 && word(4) == discovery_nonce,
                MessageModel::RelayAdvertisement { discovery_nonce, relay_address } => word(0)
                    == 0x0200_0000 && word(4) == discovery_nonce && match relay_address {
                    IpAddr::V4(a) => s.len() == 12 && word(8) == a.bits,
                    IpAddr::V6(a) => s.len() == 24 && forall|i: int|
                        8 <= i < 24 ==> #[trigger] s[i] as int == (a.bits as int / pow(
                            256,
                            (23 - i) as nat,
                        )) % 256,
                },
                MessageModel::Request { request_nonce, protocol, ecn_capable } => {
                    &&& s.len() == 8
                    &&& s[0] == 3 && s[2] == 0 && s[3] == 0
                    &&& s[1] == (if protocol is Mldv2 {
                        1int
                    } else {
                        0
                    }) + (if ecn_capable {
                        2int
                    } else {
                        0
                    })
                    &&& word(4) == request_nonce
                },
                MessageModel::MembershipQuery {
                    response_mac,
                    request_nonce,
                    limit,
                    gateway,
                    general_query,
                } => {
                    let end = 12 + general_query.len() as int;
                    &&& s[0] == 4
                    &&& s[1] == (if gateway is Some {
                        1int
                    } else {
                        0
                    }) + (if limit {
                        2int
                    } else {
                        0
                    })
                    &&& half(2) == response_mac.high && word(4) == response_mac.low
                    &&& word(8) == request_nonce
                    &&& s.subrange(12, end) == general_query
                    &&& match gateway {
                        None => s.len() == end,
                        Some(endpoint) => s.len() == end + 18 && half(end) == endpoint.port
                            && forall|i: int|
                            end + 2 <= i < end + 18 ==> #[trigger] s[i] as int == (
                            endpoint.address.bits as int / pow(256, (end + 17 - i) as nat)) % 256,
                    }
                },
                MessageModel::MembershipUpdate {
                    response_mac,
                    request_nonce,
                    membership_update,
                } => {
                    &&& s[0] == 5 && s[1] == 0
                    &&& half(2) == response_mac.high && word(4) == response_mac.low
                    &&& word(8) == request_nonce
                    &&& s.skip(12) == membership_update
                },
                MessageModel::MulticastData { packet } => s[0] == 6 && s[1] == 0 && s.skip(2)
                    == packet,
                MessageModel::Teardown { response_mac, request_nonce, gateway } => {
                    &&& s.len() == 30
                    &&& s[0] == 7 && s[1] == 0
                    &&& half(2) == response_mac.high && word(4) == response_mac.low
                    &&& word(8) == request_nonce
                    &&& half(12) == gateway.port
                    &&& forall|i: int|
                        14 <= i < 30 ==> #[trigger] s[i] as int == (gateway.address.bits as int
                            / pow(256, (29 - i) as nat)) % 256
                },
            }
        }),
{
    let s = message_bytes(message);
    match message {
        MessageModel::RelayDiscovery { discovery_nonce } => {
            assert(s.subrange(4, 8) =~= u32_bytes(discovery_nonce));
            lemma_words_stand_where_they_are(s, 4, discovery_nonce);
        },
        MessageModel::RelayAdvertisement { discovery_nonce, relay_address } => {
            law_octets_spell_the_address(relay_address);
            let octets = ip_octets(relay_address);
            assert(s.subrange(4, 8) =~= u32_bytes(discovery_nonce));
            lemma_words_stand_where_they_are(s, 4, discovery_nonce);
            assert forall|i: int| 8 <= i < s.len() implies #[trigger] s[i] == octets[i - 8] by {}
        },
        MessageModel::Request { request_nonce, .. } => {
            assert(s.subrange(4, 8) =~= u32_bytes(request_nonce));
            lemma_words_stand_where_they_are(s, 4, request_nonce);
        },
        MessageModel::MembershipQuery { response_mac, request_nonce, gateway, general_query, .. } => {
            let end = 12 + general_query.len() as int;
            assert(s[2] == u16_bytes(response_mac.high)[0]);
            assert(s[3] == u16_bytes(response_mac.high)[1]);
            assert(s.subrange(4, 8) =~= u32_bytes(response_mac.low));
            lemma_words_stand_where_they_are(s, 4, response_mac.low);
            assert(s.subrange(8, 12) =~= u32_bytes(request_nonce));
            lemma_words_stand_where_they_are(s, 8, request_nonce);
            assert(s.subrange(12, end) =~= general_query);
            if let Some(endpoint) = gateway {
                let addr = Ipv6Addr { bits: endpoint.address.bits };
                law_octets_spell_the_address(IpAddr::V6(addr));
                assert(s[end] == u16_bytes(endpoint.port)[0]);
                assert(s[end + 1] == u16_bytes(endpoint.port)[1]);
                let octets = ip_octets(IpAddr::V6(addr));
                assert forall|i: int| end + 2 <= i < end + 18 implies #[trigger] s[i] == octets[i
                    - end - 2] by {}
            }
        },
        MessageModel::MembershipUpdate { response_mac, request_nonce, membership_update } => {
            assert(s[2] == u16_bytes(response_mac.high)[0]);
            assert(s[3] == u16_bytes(response_mac.high)[1]);
            assert(s.subrange(4, 8) =~= u32_bytes(response_mac.low));
            lemma_words_stand_where_they_are(s, 4, response_mac.low);
            assert(s.subrange(8, 12) =~= u32_bytes(request_nonce));
            lemma_words_stand_where_they_are(s, 8, request_nonce);
            assert(s.skip(12) =~= membership_update);
        },
        MessageModel::MulticastData { packet } => {
            assert(s.skip(2) =~= packet);
        },
        MessageModel::Teardown { response_mac, request_nonce, gateway } => {
            assert(s[2] == u16_bytes(response_mac.high)[0]);
            assert(s[3] == u16_bytes(response_mac.high)[1]);
            assert(s.subrange(4, 8) =~= u32_bytes(response_mac.low));
            lemma_words_stand_where_they_are(s, 4, response_mac.low);
            assert(s.subrange(8, 12) =~= u32_bytes(request_nonce));
            lemma_words_stand_where_they_are(s, 8, request_nonce);
            let addr = Ipv6Addr { bits: gateway.address.bits };
            law_octets_spell_the_address(IpAddr::V6(addr));
            assert(s[12] == u16_bytes(gateway.port)[0]);
            assert(s[13] == u16_bytes(gateway.port)[1]);
            let octets = ip_octets(IpAddr::V6(addr));
            assert forall|i: int| 14 <= i < 30 implies #[trigger] s[i] == octets[i - 14] by {}
        },
    }
}

/// What is read from a datagram, byte by byte, whatever its reserved bits hold:
/// the fields of the message that its first byte names, where its length is one
/// that the message can have, and nothing else.
pub proof fn law_messages_are_read_by_offset(s: Seq<u8>)
    requires
        s.len() > 0,
    ensures
        ({
            let half = |i: int| s[i] * 0x100 + s[i + 1];
            let word = |i: int|
                s[i] * 0x100_0000 + s[i + 1] * 0x1_0000 + s[i + 2] * 0x100 + s[i + 3];
            let bit = |n: int| (s[1] as int / n) % 2 == 1;
            let said = decoded(s);
            &&& said is Ok <==> {
                ||| s[0] == 1 && s.len() == 8
                ||| s[0] == 2 && (s.len() == 12 || s.len() == 24)
                ||| s[0] == 3 && s.len() == 8
                ||| s[0] == 4 && s.len() >= 12 && (bit(1) ==> s.len() >= 30)
                ||| s[0] == 5 && s.len() >= 12
                ||| s[0] == 6 && s.len() >= 2
                ||| s[0] == 7 && s.len() == 30
            }
            &&& said matches Ok(message) ==> match message {
                MessageModel::RelayDiscovery { discovery_nonce } => s[0] == 1 && discovery_nonce
                    == word(4),
                MessageModel::RelayAdvertisement { discovery_nonce, relay_address } => s[0] == 2
                    && discovery_nonce == word(4) && match relay_address {
                    IpAddr::V4(a) => s.len() == 12 && a.bits == word(8),
                    IpAddr::V6(a) => s.len() == 24 && forall|i: int|
                        8 <= i < 24 ==> (a.bits as int / pow(256, (23 - i) as nat)) % 256
                            == #[trigger] s[i],
                },
                MessageModel::Request { request_nonce, protocol, ecn_capable } => s[0] == 3
                    && request_nonce == word(4) && (protocol is Mldv2 <==> bit(1)) && (ecn_capable
                    <==> bit(2)),
                MessageModel::MembershipQuery {
                    response_mac,
                    request_nonce,
                    limit,
                    gateway,
                    general_query,
                } => {
                    &&& s[0] == 4
                    &&& response_mac.high == half(2) && response_mac.low == word(4)
                    &&& request_nonce == word(8)
                    &&& limit <==> bit(2)
                    &&& gateway is Some <==> bit(1)
                    &&& match gateway {
                        None => general_query == s.skip(12),
                        Some(endpoint) => {
                            let end = s.len() - 18;
                            &&& general_query == s.subrange(12, end)
                            &&& endpoint.port == half(end)
                            &&& forall|i: int|
                                end + 2 <= i < end + 18 ==> (endpoint.address.bits as int / pow(
                                    256,
                                    (end + 17 - i) as nat,
                                )) % 256 == #[trigger] s[i]
                        },
                    }
                },
                MessageModel::MembershipUpdate {
                    response_mac,
                    request_nonce,
                    membership_update,
                } => s[0] == 5 && response_mac.high == half(2) && response_mac.low == word(4)
                    && request_nonce == word(8) && membership_update == s.skip(12),
                MessageModel::MulticastData { packet } => s[0] == 6 && packet == s.skip(2),
                MessageModel::Teardown { response_mac, request_nonce, gateway } => {
                    &&& s[0] == 7
                    &&& response_mac.high == half(2) && response_mac.low == word(4)
                    &&& request_nonce == word(8)
                    &&& gateway.port == half(12)
                    &&& forall|i: int|
                        14 <= i < 30 ==> (gateway.address.bits as int / pow(256, (29 - i) as nat))
                            % 256 == #[trigger] s[i]
                },
            }
        }),
{
    if s.len() >= 8 {
        crate::bytes::lemma_u32_of_bytes(s, 4);
        crate::bytes::lemma_u16_of_bytes(s, 2);
        law_addresses_are_read_in_network_order(s, 8);
    }
    if s.len() >= 12 {
        crate::bytes::lemma_u32_of_bytes(s, 8);
        assert(s.subrange(12, s.len() as int) =~= s.skip(12));
    }
    if s.len() >= 18 {
        let end = s.len() - 18;
        crate::bytes::lemma_u16_of_bytes(s, end);
        law_addresses_are_read_in_network_order(s, end + 2);
    }
    if s.len() == 30 {
        crate::bytes::lemma_u16_of_bytes(s, 12);
        law_addresses_are_read_in_network_order(s, 14);
    }
    if s.len() >= 2 {
        assert(s.subrange(2, s.len() as int) =~= s.skip(2));
    }
    if s[0] >= 16 {
        assert(s[0] / 16 != 0);
    }
}

/// Why a datagram is refused: its first byte names another version or no message,
/// or its length is none that the message can have.
pub proof fn law_refused_datagrams_are_told_why(s: Seq<u8>)
    ensures
        decoded(s) matches Err(error) ==> match error {
            DecodeErrorModel::UnsupportedVersion(version) => s.len() > 0 && version == s[0] / 16
                && version > 0,
            DecodeErrorModel::UnknownMessageType(value) => s.len() > 0 && value == s[0] && (value
                == 0 || 8 <= value < 16),
            DecodeErrorModel::Truncated { message_type, expected_at_least, actual } => actual
                == s.len() && actual < expected_at_least && (message_type is None <==> s.len()
                == 0),
            DecodeErrorModel::InvalidLength { actual, .. } => actual == s.len() && (1 <= s[0] <= 3
                || s[0] == 7),
        },
        s.len() > 0 && s[0] >= 16 ==> decoded(s) matches Err(
            DecodeErrorModel::UnsupportedVersion(_),
        ),
        s.len() > 0 && (s[0] == 0 || 8 <= s[0] < 16) ==> decoded(s) matches Err(
            DecodeErrorModel::UnknownMessageType(_),
        ),
{
    if s.len() > 0 {
        law_messages_are_read_by_offset(s);
    }
}

} // verus!
