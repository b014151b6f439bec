//! Errors in words.

use crate::address_text::{hex_text, ip_words, prefixed_hex, socket_words};
use crate::driad::DriadError;
use crate::ecn::EcnError;
use crate::gateway::{GatewayError, GatewayPhase};
use crate::ip::IpPacketError;
use crate::local_membership::LocalMembershipError;
use crate::membership::{MembershipBuildError, MembershipParseError, MembershipRecordKind};
use crate::mtu::Ipv4FragmentError;
use crate::pmtu::PmtuFeedbackError;
use crate::protocol::{DecodeError, MembershipProtocol, MessageType};
use crate::query::QueryValidationError;
use crate::relay::RelayError;
use crate::state::StateLimitError;
use crate::text::{decimal_text, number_text};
use crate::time::Duration;
use vstd::prelude::*;

verus! {

/// What `std::time::Duration` writes of a span under `{:?}`.
pub uninterp spec fn span_written(seconds: u64, nanos: u32) -> Seq<char>;

/// The `Debug` text of the `std::time::Duration` of some seconds and
/// nanoseconds, which depends on the span alone.  It is named and not spelled
/// out: std does not document how it reads.
#[verifier::external_body]
fn debug_span(seconds: u64, nanos: u32) -> (text: String)
    requires
        nanos < 1_000_000_000,
    ensures
        text@ == span_written(seconds, nanos),
{
    format!("{:?}", std::time::Duration::new(seconds, nanos))
}

/// The whole seconds of a span, up to the most that can be told.
pub open spec fn told_seconds(span: Duration) -> u64 {
    if span.nanos / 1_000_000_000 > u64::MAX {
        u64::MAX
    } else {
        (span.nanos / 1_000_000_000) as u64
    }
}

/// A span in words.
pub open spec fn span_words(span: Duration) -> Seq<char> {
    span_written(told_seconds(span), (span.nanos % 1_000_000_000) as u32)
}

impl Duration {
    /// The span in words.
    pub fn text(self) -> (text: String)
        ensures
            text@ == span_words(self),
    {
        let whole: u128 = self.nanos / 1_000_000_000;
        let seconds: u64 = if whole > 0xffff_ffff_ffff_ffff {
            u64::MAX
        } else {
            whole as u64
        };
        debug_span(seconds, (self.nanos % 1_000_000_000) as u32)
    }
}

/// The name of a kind of record.
pub open spec fn kind_name(value: MembershipRecordKind) -> Seq<char> {
    match value {
        MembershipRecordKind::ModeIsInclude => "ModeIsInclude"@,
        MembershipRecordKind::ModeIsExclude => "ModeIsExclude"@,
        MembershipRecordKind::ChangeToInclude => "ChangeToInclude"@,
        MembershipRecordKind::ChangeToExclude => "ChangeToExclude"@,
        MembershipRecordKind::AllowNewSources => "AllowNewSources"@,
        MembershipRecordKind::BlockOldSources => "BlockOldSources"@,
        MembershipRecordKind::LegacyReport => "LegacyReport"@,
        MembershipRecordKind::LegacyLeave => "LegacyLeave"@,
    }
}

/// The name of a kind of record.
pub fn kind_label(value: MembershipRecordKind) -> (name: &'static str)
    ensures
        name@ == kind_name(value),
{
    match value {
        MembershipRecordKind::ModeIsInclude => "ModeIsInclude",
        MembershipRecordKind::ModeIsExclude => "ModeIsExclude",
        MembershipRecordKind::ChangeToInclude => "ChangeToInclude",
        MembershipRecordKind::ChangeToExclude => "ChangeToExclude",
        MembershipRecordKind::AllowNewSources => "AllowNewSources",
        MembershipRecordKind::BlockOldSources => "BlockOldSources",
        MembershipRecordKind::LegacyReport => "LegacyReport",
        MembershipRecordKind::LegacyLeave => "LegacyLeave",
    }
}

/// The name of a protocol.
pub open spec fn protocol_name(value: MembershipProtocol) -> Seq<char> {
    match value {
        MembershipProtocol::Igmpv3 => "Igmpv3"@,
        MembershipProtocol::Mldv2 => "Mldv2"@,
    }
}

/// The name of a protocol.
pub fn protocol_label(value: MembershipProtocol) -> (name: &'static str)
    ensures
        name@ == protocol_name(value),
{
    match value {
        MembershipProtocol::Igmpv3 => "Igmpv3",
        MembershipProtocol::Mldv2 => "Mldv2",
    }
}

/// The name of a kind of message.
pub open spec fn message_kind_name(value: MessageType) -> Seq<char> {
    match value {
        MessageType::RelayDiscovery => "RelayDiscovery"@,
        MessageType::RelayAdvertisement => "RelayAdvertisement"@,
        MessageType::Request => "Request"@,
        MessageType::MembershipQuery => "MembershipQuery"@,
        MessageType::MembershipUpdate => "MembershipUpdate"@,
        MessageType::MulticastData => "MulticastData"@,
        MessageType::Teardown => "Teardown"@,
    }
}

/// The name of a kind of message.
pub fn message_kind_label(value: MessageType) -> (name: &'static str)
    ensures
        name@ == message_kind_name(value),
{
    match value {
        MessageType::RelayDiscovery => "RelayDiscovery",
        MessageType::RelayAdvertisement => "RelayAdvertisement",
        MessageType::Request => "Request",
        MessageType::MembershipQuery => "MembershipQuery",
        MessageType::MembershipUpdate => "MembershipUpdate",
        MessageType::MulticastData => "MulticastData",
        MessageType::Teardown => "Teardown",
    }
}

/// The name of a phase.
pub open spec fn phase_name(value: GatewayPhase) -> Seq<char> {
    match value {
        GatewayPhase::Discovering => "Discovering"@,
        GatewayPhase::AwaitingMembershipQuery => "AwaitingMembershipQuery"@,
        GatewayPhase::Established => "Established"@,
    }
}

/// The name of a phase.
pub fn phase_label(value: GatewayPhase) -> (name: &'static str)
    ensures
        name@ == phase_name(value),
{
    match value {
        GatewayPhase::Discovering => "Discovering",
        GatewayPhase::AwaitingMembershipQuery => "AwaitingMembershipQuery",
        GatewayPhase::Established => "Established",
    }
}

/// The name of a kind of message that may not be known.
pub open spec fn optional_kind_name(value: Option<MessageType>) -> Seq<char> {
    match value {
        Some(message_type) => "Some("@ + message_kind_name(message_type) + ")"@,
        None => "None"@,
    }
}

/// The name of a kind of message that may not be known.
fn optional_kind_label(value: Option<MessageType>) -> (name: String)
    ensures
        name@ == optional_kind_name(value),
{
    match value {
        Some(message_type) => "Some(".to_string().concat(message_kind_label(message_type)).concat(")"),
        None => "None".to_string(),
    }
}

/// Which limit would be exceeded, in words.
pub open spec fn limit_words(error: StateLimitError) -> Seq<char> {
    "AMT relay "@ + error.resource@ + " limit exceeded: requested "@ + decimal_text(
        error.requested as nat,
    ) + ", limit "@ + decimal_text(error.limit as nat)
}

impl StateLimitError {
    /// The error in words.
    pub fn message(&self) -> (text: String)
        ensures
            text@ == limit_words(*self),
    {
        "AMT relay ".to_string().concat(self.resource).concat(
            " limit exceeded: requested ",
        ).concat(number_text(self.requested as u64).as_str()).concat(", limit ").concat(
            number_text(self.limit as u64).as_str(),
        )
    }
}

/// Why a datagram is no message, in words.
pub open spec fn decode_words(error: DecodeError) -> Seq<char> {
    match error {
        DecodeError::UnsupportedVersion(version) => "unsupported AMT version "@ + decimal_text(version as nat),
        DecodeError::UnknownMessageType(message_type) => "unknown AMT message type "@ + decimal_text(message_type as nat),
        DecodeError::Truncated { message_type, expected_at_least, actual } => "truncated AMT message "@ + optional_kind_name(message_type) + ": expected at least "@ + decimal_text(expected_at_least as nat) + " bytes, got "@ + decimal_text(actual as nat),
        DecodeError::InvalidLength { message_type, expected, actual } => "invalid AMT "@ + message_kind_name(message_type) + " length: expected "@ + expected@ + ", got "@ + decimal_text(actual as nat),
    }
}

impl DecodeError {
    /// The error in words.
    pub fn message(&self) -> (text: String)
        ensures
            text@ == decode_words(*self),
    {
        match self {
            DecodeError::UnsupportedVersion(version) => "unsupported AMT version ".to_string().concat(number_text(*version as u64).as_str()),
            DecodeError::UnknownMessageType(message_type) => "unknown AMT message type ".to_string().concat(number_text(*message_type as u64).as_str()),
            DecodeError::Truncated { message_type, expected_at_least, actual } => "truncated AMT message ".to_string().concat(optional_kind_label(*message_type).as_str()).concat(": expected at least ").concat(number_text(*expected_at_least as u64).as_str()).concat(" bytes, got ").concat(number_text(*actual as u64).as_str()),
            DecodeError::InvalidLength { message_type, expected, actual } => "invalid AMT ".to_string().concat(message_kind_label(*message_type)).concat(" length: expected ").concat(expected).concat(", got ").concat(number_text(*actual as u64).as_str()),
        }
    }
}

/// Why a packet is no membership report, in words.
pub open spec fn parse_words(error: MembershipParseError) -> Seq<char> {
    match error {
        MembershipParseError::Truncated { context, expected_at_least, actual } => "truncated "@ + context@ + ": expected at least "@ + decimal_text(expected_at_least as nat) + " bytes, got "@ + decimal_text(actual as nat),
        MembershipParseError::InvalidIpVersion(version) => "invalid IP version "@ + decimal_text(version as nat),
        MembershipParseError::InvalidIpv4HeaderLength(length) => "invalid IPv4 header length "@ + decimal_text(length as nat),
        MembershipParseError::InvalidTotalLength { total_length, available } => "invalid IP total length "@ + decimal_text(total_length as nat) + "; only "@ + decimal_text(available as nat) + " bytes available"@,
        MembershipParseError::InvalidProtocol { expected, actual } => "invalid IP protocol "@ + decimal_text(actual as nat) + "; expected "@ + decimal_text(expected as nat),
        MembershipParseError::InvalidChecksum(context) => "invalid "@ + context@ + " checksum"@,
        MembershipParseError::MissingIpv6RouterAlert => "missing IPv6 Router Alert option"@,
        MembershipParseError::UnsupportedMembershipMessage(message) => "unsupported membership message type "@ + decimal_text(message as nat),
        MembershipParseError::UnknownRecordType(record) => "unknown membership record type "@ + decimal_text(record as nat),
        MembershipParseError::InvalidMulticastGroup(group) => "invalid multicast group "@ + ip_words(group),
        MembershipParseError::MixedAddressFamilies => "record group/source address family mismatch"@,
        MembershipParseError::TooManyRecords { limit, actual } => "too many membership records: "@ + decimal_text(actual as nat) + "; limit "@ + decimal_text(limit as nat),
        MembershipParseError::TooManySources { limit, actual } => "too many membership sources: "@ + decimal_text(actual as nat) + "; limit "@ + decimal_text(limit as nat),
    }
}

impl MembershipParseError {
    /// The error in words.
    pub fn message(&self) -> (text: String)
        ensures
            text@ == parse_words(*self),
    {
        match self {
            MembershipParseError::Truncated { context, expected_at_least, actual } => "truncated ".to_string().concat(context).concat(": expected at least ").concat(number_text(*expected_at_least as u64).as_str()).concat(" bytes, got ").concat(number_text(*actual as u64).as_str()),
            MembershipParseError::InvalidIpVersion(version) => "invalid IP version ".to_string().concat(number_text(*version as u64).as_str()),
            MembershipParseError::InvalidIpv4HeaderLength(length) => "invalid IPv4 header length ".to_string().concat(number_text(*length as u64).as_str()),
            MembershipParseError::InvalidTotalLength { total_length, available } => "invalid IP total length ".to_string().concat(number_text(*total_length as u64).as_str()).concat("; only ").concat(number_text(*available as u64).as_str()).concat(" bytes available"),
            MembershipParseError::InvalidProtocol { expected, actual } => "invalid IP protocol ".to_string().concat(number_text(*actual as u64).as_str()).concat("; expected ").concat(number_text(*expected as u64).as_str()),
            MembershipParseError::InvalidChecksum(context) => "invalid ".to_string().concat(context).concat(" checksum"),
            MembershipParseError::MissingIpv6RouterAlert => "missing IPv6 Router Alert option".to_string(),
            MembershipParseError::UnsupportedMembershipMessage(message) => "unsupported membership message type ".to_string().concat(number_text(*message as u64).as_str()),
            MembershipParseError::UnknownRecordType(record) => "unknown membership record type ".to_string().concat(number_text(*record as u64).as_str()),
            MembershipParseError::InvalidMulticastGroup(group) => "invalid multicast group ".to_string().concat(group.text().as_str()),
            MembershipParseError::MixedAddressFamilies => "record group/source address family mismatch".to_string(),
            MembershipParseError::TooManyRecords { limit, actual } => "too many membership records: ".to_string().concat(number_text(*actual as u64).as_str()).concat("; limit ").concat(number_text(*limit as u64).as_str()),
            MembershipParseError::TooManySources { limit, actual } => "too many membership sources: ".to_string().concat(number_text(*actual as u64).as_str()).concat("; limit ").concat(number_text(*limit as u64).as_str()),
        }
    }
}

/// Why a membership report cannot be built, in words.
pub open spec fn build_words(error: MembershipBuildError) -> Seq<char> {
    match error {
        MembershipBuildError::EmptyReport => "membership report has no records"@,
        MembershipBuildError::TooManyRecords(count) => "too many membership records: "@ + decimal_text(count as nat),
        MembershipBuildError::TooManySources(count) => "too many membership sources: "@ + decimal_text(count as nat),
        MembershipBuildError::PacketTooLong(length) => "membership report packet too long: "@ + decimal_text(length as nat) + " bytes"@,
        MembershipBuildError::UnsupportedRecordKind(record) => "membership record kind "@ + kind_name(record) + " cannot be encoded in v3/v2 reports"@,
        MembershipBuildError::InvalidMulticastGroup(group) => "invalid multicast group "@ + ip_words(group),
        MembershipBuildError::MixedAddressFamilies => "record group/source address family mismatch"@,
        MembershipBuildError::ProtocolAddressFamilyMismatch { protocol, group } => protocol_name(protocol) + " cannot encode membership for group "@ + ip_words(group),
    }
}

impl MembershipBuildError {
    /// The error in words.
    pub fn message(&self) -> (text: String)
        ensures
            text@ == build_words(*self),
    {
        match self {
            MembershipBuildError::EmptyReport => "membership report has no records".to_string(),
            MembershipBuildError::TooManyRecords(count) => "too many membership records: ".to_string().concat(number_text(*count as u64).as_str()),
            MembershipBuildError::TooManySources(count) => "too many membership sources: ".to_string().concat(number_text(*count as u64).as_str()),
            MembershipBuildError::PacketTooLong(length) => "membership report packet too long: ".to_string().concat(number_text(*length as u64).as_str()).concat(" bytes"),
            MembershipBuildError::UnsupportedRecordKind(record) => "membership record kind ".to_string().concat(kind_label(*record)).concat(" cannot be encoded in v3/v2 reports"),
            MembershipBuildError::InvalidMulticastGroup(group) => "invalid multicast group ".to_string().concat(group.text().as_str()),
            MembershipBuildError::MixedAddressFamilies => "record group/source address family mismatch".to_string(),
            MembershipBuildError::ProtocolAddressFamilyMismatch { protocol, group } => protocol_label(*protocol).to_owned().concat(" cannot encode membership for group ").concat(group.text().as_str()),
        }
    }
}

/// Why a packet is no General Query, in words.
pub open spec fn query_words(error: QueryValidationError) -> Seq<char> {
    match error {
        QueryValidationError::Truncated => "truncated General Query"@,
        QueryValidationError::WrongAddressFamily => "General Query address family does not match P flag"@,
        QueryValidationError::InvalidLength => "invalid General Query packet length"@,
        QueryValidationError::InvalidHeader => "invalid General Query IP header"@,
        QueryValidationError::InvalidChecksum => "invalid General Query checksum"@,
        QueryValidationError::InvalidSource => "invalid General Query source address"@,
        QueryValidationError::NotGeneralQuery => "encapsulated packet is not a General Query"@,
    }
}

impl QueryValidationError {
    /// The error in words.
    pub fn message(&self) -> (text: String)
        ensures
            text@ == query_words(*self),
    {
        match self {
            QueryValidationError::Truncated => "truncated General Query".to_string(),
            QueryValidationError::WrongAddressFamily => "General Query address family does not match P flag".to_string(),
            QueryValidationError::InvalidLength => "invalid General Query packet length".to_string(),
            QueryValidationError::InvalidHeader => "invalid General Query IP header".to_string(),
            QueryValidationError::InvalidChecksum => "invalid General Query checksum".to_string(),
            QueryValidationError::InvalidSource => "invalid General Query source address".to_string(),
            QueryValidationError::NotGeneralQuery => "encapsulated packet is not a General Query".to_string(),
        }
    }
}

/// Why a packet is no multicast packet, in words.
pub open spec fn packet_words(error: IpPacketError) -> Seq<char> {
    match error {
        IpPacketError::Truncated => "truncated IP packet"@,
        IpPacketError::UnsupportedVersion(version) => "unsupported IP version "@ + decimal_text(version as nat),
        IpPacketError::InvalidHeader => "invalid IP header"@,
        IpPacketError::InvalidLength => "invalid IP packet length"@,
        IpPacketError::InvalidChecksum => "invalid IPv4 header checksum"@,
        IpPacketError::InvalidSource(source) => "invalid multicast source address "@ + ip_words(source),
        IpPacketError::NonMulticastDestination(destination) => "IP destination "@ + ip_words(destination) + " is not multicast"@,
    }
}

impl IpPacketError {
    /// The error in words.
    pub fn message(&self) -> (text: String)
        ensures
            text@ == packet_words(*self),
    {
        match self {
            IpPacketError::Truncated => "truncated IP packet".to_string(),
            IpPacketError::UnsupportedVersion(version) => "unsupported IP version ".to_string().concat(number_text(*version as u64).as_str()),
            IpPacketError::InvalidHeader => "invalid IP header".to_string(),
            IpPacketError::InvalidLength => "invalid IP packet length".to_string(),
            IpPacketError::InvalidChecksum => "invalid IPv4 header checksum".to_string(),
            IpPacketError::InvalidSource(source) => "invalid multicast source address ".to_string().concat(source.text().as_str()),
            IpPacketError::NonMulticastDestination(destination) => "IP destination ".to_string().concat(destination.text().as_str()).concat(" is not multicast"),
        }
    }
}

/// Why the congestion mark of a packet cannot be told, in words.
pub open spec fn ecn_words(error: EcnError) -> Seq<char> {
    match error {
        EcnError::Truncated => "truncated IP packet while processing ECN"@,
        EcnError::UnsupportedVersion(version) => "unsupported IP version "@ + decimal_text(version as nat) + " while processing ECN"@,
        EcnError::InvalidHeader => "invalid IP header while processing ECN"@,
        EcnError::InvalidLength => "invalid IP packet length while processing ECN"@,
    }
}

impl EcnError {
    /// The error in words.
    pub fn message(&self) -> (text: String)
        ensures
            text@ == ecn_words(*self),
    {
        match self {
            EcnError::Truncated => "truncated IP packet while processing ECN".to_string(),
            EcnError::UnsupportedVersion(version) => "unsupported IP version ".to_string().concat(number_text(*version as u64).as_str()).concat(" while processing ECN"),
            EcnError::InvalidHeader => "invalid IP header while processing ECN".to_string(),
            EcnError::InvalidLength => "invalid IP packet length while processing ECN".to_string(),
        }
    }
}

/// Why a packet cannot be fragmented, in words.
pub open spec fn fragment_words(error: Ipv4FragmentError) -> Seq<char> {
    match error {
        Ipv4FragmentError::InvalidPacket => "invalid IPv4 packet"@,
        Ipv4FragmentError::DontFragment => "IPv4 packet has DF set"@,
        Ipv4FragmentError::HeaderOptions => "oversized IPv4 packet contains unsupported header options"@,
        Ipv4FragmentError::MtuTooSmall => "tunnel MTU is too small for IPv4 fragmentation"@,
        Ipv4FragmentError::FragmentOffsetOverflow => "IPv4 fragment offset would overflow"@,
    }
}

impl Ipv4FragmentError {
    /// The error in words.
    pub fn message(&self) -> (text: String)
        ensures
            text@ == fragment_words(*self),
    {
        match self {
            Ipv4FragmentError::InvalidPacket => "invalid IPv4 packet".to_string(),
            Ipv4FragmentError::DontFragment => "IPv4 packet has DF set".to_string(),
            Ipv4FragmentError::HeaderOptions => "oversized IPv4 packet contains unsupported header options".to_string(),
            Ipv4FragmentError::MtuTooSmall => "tunnel MTU is too small for IPv4 fragmentation".to_string(),
            Ipv4FragmentError::FragmentOffsetOverflow => "IPv4 fragment offset would overflow".to_string(),
        }
    }
}

/// Why there is no feedback on a packet, in words.
pub open spec fn feedback_words(error: PmtuFeedbackError) -> Seq<char> {
    match error {
        PmtuFeedbackError::InvalidPacket(error) => "invalid PMTU invoking packet: "@ + packet_words(error),
        PmtuFeedbackError::InvalidLocalAddress(address) => "invalid PMTU feedback source address "@ + ip_words(address),
        PmtuFeedbackError::InvalidMtu(mtu) => "invalid AMT tunnel MTU "@ + decimal_text(mtu as nat),
    }
}

impl PmtuFeedbackError {
    /// The error in words.
    pub fn message(&self) -> (text: String)
        ensures
            text@ == feedback_words(*self),
    {
        match self {
            PmtuFeedbackError::InvalidPacket(error) => "invalid PMTU invoking packet: ".to_string().concat(error.message().as_str()),
            PmtuFeedbackError::InvalidLocalAddress(address) => "invalid PMTU feedback source address ".to_string().concat(address.text().as_str()),
            PmtuFeedbackError::InvalidMtu(mtu) => "invalid AMT tunnel MTU ".to_string().concat(number_text(*mtu as u64).as_str()),
        }
    }
}

/// Why a relay did not act, in words.
pub open spec fn relay_words(error: RelayError) -> Seq<char> {
    match error {
        RelayError::Decode(error) => decode_words(error),
        RelayError::Membership(error) => parse_words(error),
        RelayError::ResourceLimit(error) => limit_words(error),
        RelayError::ZeroNonce => "AMT nonce must not be zero"@,
    }
}

impl RelayError {
    /// The error in words.
    pub fn message(&self) -> (text: String)
        ensures
            text@ == relay_words(*self),
    {
        match self {
            RelayError::Decode(error) => error.message(),
            RelayError::Membership(error) => error.message(),
            RelayError::ResourceLimit(error) => error.message(),
            RelayError::ZeroNonce => "AMT nonce must not be zero".to_string(),
        }
    }
}

/// Why a gateway did not act, in words.
pub open spec fn gateway_words(error: GatewayError) -> Seq<char> {
    match error {
        GatewayError::Decode(error) => decode_words(error),
        GatewayError::MembershipBuild(error) => build_words(error),
        GatewayError::InvalidGeneralQuery(error) => "invalid Membership Query: "@ + query_words(error),
        GatewayError::InvalidMulticastPacket(error) => "invalid Multicast Data: "@ + packet_words(error),
        GatewayError::InvalidEcn(error) => "invalid Multicast Data ECN: "@ + ecn_words(error),
        GatewayError::UnexpectedDiscoveryNonce { expected, actual } => "unexpected Relay Advertisement nonce "@ + prefixed_hex(actual as nat) + "; expected "@ + prefixed_hex(expected as nat),
        GatewayError::UnexpectedRequestNonce { expected, actual } => "unexpected Membership Query nonce "@ + prefixed_hex(actual as nat) + "; expected "@ + prefixed_hex(expected as nat),
        GatewayError::UnexpectedPeer { expected, actual } => "AMT datagram came from "@ + socket_words(actual) + "; expected "@ + socket_words(expected),
        GatewayError::UnexpectedMessageForState { message, phase } => "unexpected "@ + message@ + " while gateway is "@ + phase_name(phase),
        GatewayError::InvalidRelayAddress(address) => "Relay Advertisement contains invalid relay address "@ + ip_words(address),
        GatewayError::MissingRelayEndpoint => "gateway has not discovered a relay yet"@,
        GatewayError::MissingMembershipQuery => "gateway has not received a Membership Query yet"@,
        GatewayError::MissingGatewayEndpoint => "relay did not provide gateway endpoint fields"@,
        GatewayError::Randomness(error) => error.message@,
    }
}

impl GatewayError {
    /// The error in words.
    pub fn message(&self) -> (text: String)
        ensures
            text@ == gateway_words(*self),
    {
        match self {
            GatewayError::Decode(error) => error.message(),
            GatewayError::MembershipBuild(error) => error.message(),
            GatewayError::InvalidGeneralQuery(error) => "invalid Membership Query: ".to_string().concat(error.message().as_str()),
            GatewayError::InvalidMulticastPacket(error) => "invalid Multicast Data: ".to_string().concat(error.message().as_str()),
            GatewayError::InvalidEcn(error) => "invalid Multicast Data ECN: ".to_string().concat(error.message().as_str()),
            GatewayError::UnexpectedDiscoveryNonce { expected, actual } => "unexpected Relay Advertisement nonce ".to_string().concat(hex_text(*actual as u32).as_str()).concat("; expected ").concat(hex_text(*expected as u32).as_str()),
            GatewayError::UnexpectedRequestNonce { expected, actual } => "unexpected Membership Query nonce ".to_string().concat(hex_text(*actual as u32).as_str()).concat("; expected ").concat(hex_text(*expected as u32).as_str()),
            GatewayError::UnexpectedPeer { expected, actual } => "AMT datagram came from ".to_string().concat(actual.text().as_str()).concat("; expected ").concat(expected.text().as_str()),
            GatewayError::UnexpectedMessageForState { message, phase } => "unexpected ".to_string().concat(message).concat(" while gateway is ").concat(phase_label(*phase)),
            GatewayError::InvalidRelayAddress(address) => "Relay Advertisement contains invalid relay address ".to_string().concat(address.text().as_str()),
            GatewayError::MissingRelayEndpoint => "gateway has not discovered a relay yet".to_string(),
            GatewayError::MissingMembershipQuery => "gateway has not received a Membership Query yet".to_string(),
            GatewayError::MissingGatewayEndpoint => "relay did not provide gateway endpoint fields".to_string(),
            GatewayError::Randomness(error) => error.message.clone(),
        }
    }
}

/// Why a local report was not taken in, in words.
pub open spec fn local_words(error: LocalMembershipError) -> Seq<char> {
    match error {
        LocalMembershipError::Receive(error) => error@,
        LocalMembershipError::Parse(error) => parse_words(error),
    }
}

impl LocalMembershipError {
    /// The error in words.
    pub fn message(&self) -> (text: String)
        ensures
            text@ == local_words(*self),
    {
        match self {
            LocalMembershipError::Receive(error) => error.clone(),
            LocalMembershipError::Parse(error) => error.message(),
        }
    }
}

/// Why no relay was found, in words.
pub open spec fn driad_words(error: DriadError) -> Seq<char> {
    match error {
        DriadError::NoResolvers => "no DRIAD DNS resolvers are configured"@,
        DriadError::InsecureResolver(resolver) => "DRIAD resolver "@ + socket_words(resolver) + " is not on loopback; use a validating local resolver or explicitly allow insecure DNS"@,
        DriadError::NoRecords(name) => "no AMTRELAY records found for "@ + name@,
        DriadError::NoUsableRelay => "AMTRELAY records did not contain a usable relay"@,
        DriadError::NoRelayPresent => "AMTRELAY record says no relay is present"@,
        DriadError::AliasLoop(name) => "DNS alias loop while resolving "@ + name@,
        DriadError::AliasDepthExceeded(name) => "too many DNS aliases while resolving "@ + name@,
        DriadError::Truncated(context) => "truncated DRIAD "@ + context@,
        DriadError::InvalidDnsName(name) => "invalid DNS name '"@ + name@ + "'"@,
        DriadError::InvalidDnsPointer => "invalid compressed DNS name pointer"@,
        DriadError::InvalidResponseId { expected, actual } => "unexpected DNS response id "@ + prefixed_hex(actual as nat) + "; expected "@ + prefixed_hex(expected as nat),
        DriadError::DnsResponseCode(code) => "DNS response returned rcode "@ + decimal_text(code as nat),
        DriadError::InvalidDnsFlags(flags) => "invalid DNS response flags "@ + prefixed_hex(flags as nat),
        DriadError::InvalidQuestion => "DNS response question does not match query"@,
        DriadError::InvalidRelayType(relay_type) => "unsupported AMTRELAY target type "@ + decimal_text(relay_type as nat),
        DriadError::InvalidRelayLength { relay_type, expected, actual } => "invalid AMTRELAY target type "@ + decimal_text(relay_type as nat) + " length "@ + decimal_text(actual as nat) + "; expected "@ + decimal_text(expected as nat),
        DriadError::InvalidRelayName => "invalid AMTRELAY domain-name target"@,
        DriadError::InvalidConfig(error) => "invalid DRIAD configuration: "@ + error@,
        DriadError::Randomness(error) => "failed to generate DNS query ID: "@ + error@,
        DriadError::Io(error) => error@,
    }
}

impl DriadError {
    /// The error in words.
    pub fn message(&self) -> (text: String)
        ensures
            text@ == driad_words(*self),
    {
        match self {
            DriadError::NoResolvers => "no DRIAD DNS resolvers are configured".to_string(),
            DriadError::InsecureResolver(resolver) => "DRIAD resolver ".to_string().concat(resolver.text().as_str()).concat(" is not on loopback; use a validating local resolver or explicitly allow insecure DNS"),
            DriadError::NoRecords(name) => "no AMTRELAY records found for ".to_string().concat(name.as_str()),
            DriadError::NoUsableRelay => "AMTRELAY records did not contain a usable relay".to_string(),
            DriadError::NoRelayPresent => "AMTRELAY record says no relay is present".to_string(),
            DriadError::AliasLoop(name) => "DNS alias loop while resolving ".to_string().concat(name.as_str()),
            DriadError::AliasDepthExceeded(name) => "too many DNS aliases while resolving ".to_string().concat(name.as_str()),
            DriadError::Truncated(context) => "truncated DRIAD ".to_string().concat(context),
            DriadError::InvalidDnsName(name) => "invalid DNS name '".to_string().concat(name.as_str()).concat("'"),
            DriadError::InvalidDnsPointer => "invalid compressed DNS name pointer".to_string(),
            DriadError::InvalidResponseId { expected, actual } => "unexpected DNS response id ".to_string().concat(hex_text(*actual as u32).as_str()).concat("; expected ").concat(hex_text(*expected as u32).as_str()),
            DriadError::DnsResponseCode(code) => "DNS response returned rcode ".to_string().concat(number_text(*code as u64).as_str()),
            DriadError::InvalidDnsFlags(flags) => "invalid DNS response flags ".to_string().concat(hex_text(*flags as u32).as_str()),
            DriadError::InvalidQuestion => "DNS response question does not match query".to_string(),
            DriadError::InvalidRelayType(relay_type) => "unsupported AMTRELAY target type ".to_string().concat(number_text(*relay_type as u64).as_str()),
            DriadError::InvalidRelayLength { relay_type, expected, actual } => "invalid AMTRELAY target type ".to_string().concat(number_text(*relay_type as u64).as_str()).concat(" length ").concat(number_text(*actual as u64).as_str()).concat("; expected ").concat(number_text(*expected as u64).as_str()),
            DriadError::InvalidRelayName => "invalid AMTRELAY domain-name target".to_string(),
            DriadError::InvalidConfig(error) => "invalid DRIAD configuration: ".to_string().concat(error),
            DriadError::Randomness(error) => "failed to generate DNS query ID: ".to_string().concat(error.as_str()),
            DriadError::Io(error) => error.clone(),
        }
    }
}

/// A kind of record goes by its own name.
pub proof fn law_kinds_have_their_own_names(value: MembershipRecordKind)
    ensures
        kind_name(value) == "ModeIsInclude"@ <==> value is ModeIsInclude,
        kind_name(value) == "ModeIsExclude"@ <==> value is ModeIsExclude,
        kind_name(value) == "ChangeToInclude"@ <==> value is ChangeToInclude,
        kind_name(value) == "ChangeToExclude"@ <==> value is ChangeToExclude,
        kind_name(value) == "AllowNewSources"@ <==> value is AllowNewSources,
        kind_name(value) == "BlockOldSources"@ <==> value is BlockOldSources,
        kind_name(value) == "LegacyReport"@ <==> value is LegacyReport,
        kind_name(value) == "LegacyLeave"@ <==> value is LegacyLeave,
{
    reveal_strlit("ModeIsInclude");
    reveal_strlit("ModeIsExclude");
    reveal_strlit("ChangeToInclude");
    reveal_strlit("ChangeToExclude");
    reveal_strlit("AllowNewSources");
    reveal_strlit("BlockOldSources");
    reveal_strlit("LegacyReport");
    reveal_strlit("LegacyLeave");
    assert("ModeIsInclude"@.len() == 13);
    assert("ModeIsExclude"@.len() == 13);
    assert("ChangeToInclude"@.len() == 15);
    assert("ChangeToExclude"@.len() == 15);
    assert("AllowNewSources"@.len() == 15);
    assert("BlockOldSources"@.len() == 15);
    assert("LegacyReport"@.len() == 12);
    assert("LegacyLeave"@.len() == 11);
    assert("ModeIsInclude"@[6] != "ModeIsExclude"@[6]);
    assert("ChangeToInclude"@[8] != "ChangeToExclude"@[8]);
    assert("ChangeToInclude"@[0] != "AllowNewSources"@[0]);
    assert("ChangeToInclude"@[0] != "BlockOldSources"@[0]);
    assert("ChangeToExclude"@[0] != "AllowNewSources"@[0]);
    assert("ChangeToExclude"@[0] != "BlockOldSources"@[0]);
    assert("AllowNewSources"@[0] != "BlockOldSources"@[0]);
}

/// A kind of message goes by its own name.
pub proof fn law_messages_have_their_own_names(value: MessageType)
    ensures
        message_kind_name(value) == "RelayDiscovery"@ <==> value is RelayDiscovery,
        message_kind_name(value) == "RelayAdvertisement"@ <==> value is RelayAdvertisement,
        message_kind_name(value) == "Request"@ <==> value is Request,
        message_kind_name(value) == "MembershipQuery"@ <==> value is MembershipQuery,
        message_kind_name(value) == "MembershipUpdate"@ <==> value is MembershipUpdate,
        message_kind_name(value) == "MulticastData"@ <==> value is MulticastData,
        message_kind_name(value) == "Teardown"@ <==> value is Teardown,
{
    reveal_strlit("RelayDiscovery");
    reveal_strlit("RelayAdvertisement");
    reveal_strlit("Request");
    reveal_strlit("MembershipQuery");
    reveal_strlit("MembershipUpdate");
    reveal_strlit("MulticastData");
    reveal_strlit("Teardown");
    assert("RelayDiscovery"@.len() == 14);
    assert("RelayAdvertisement"@.len() == 18);
    assert("Request"@.len() == 7);
    assert("MembershipQuery"@.len() == 15);
    assert("MembershipUpdate"@.len() == 16);
    assert("MulticastData"@.len() == 13);
    assert("Teardown"@.len() == 8);
}

/// A phase goes by its own name.
pub proof fn law_phases_have_their_own_names(value: GatewayPhase)
    ensures
        phase_name(value) == "Discovering"@ <==> value is Discovering,
        phase_name(value) == "AwaitingMembershipQuery"@ <==> value is AwaitingMembershipQuery,
        phase_name(value) == "Established"@ <==> value is Established,
{
    reveal_strlit("Discovering");
    reveal_strlit("AwaitingMembershipQuery");
    reveal_strlit("Established");
    assert("Discovering"@.len() == 11);
    assert("AwaitingMembershipQuery"@.len() == 23);
    assert("Established"@.len() == 11);
    assert("Discovering"@[0] != "Established"@[0]);
}

/// A protocol goes by its own name.
pub proof fn law_protocols_have_their_own_names(value: MembershipProtocol)
    ensures
        protocol_name(value) == "Igmpv3"@ <==> value is Igmpv3,
        protocol_name(value) == "Mldv2"@ <==> value is Mldv2,
{
    reveal_strlit("Igmpv3");
    reveal_strlit("Mldv2");
    assert("Igmpv3"@.len() == 6);
    assert("Mldv2"@.len() == 5);
}

proof fn lemma_last_words(first: Seq<char>, last: Seq<char>)
    ensures
        last.is_suffix_of(first + last),
        first.is_prefix_of(first + last),
{
    assert(last =~= (first + last).subrange(first.len() as int, (first + last).len() as int));
    assert(first =~= (first + last).subrange(0, first.len() as int));
}

/// Words about a message of the wrong length end in the length that came.
pub proof fn law_decoding_errors_end_in_what_came(error: DecodeError)
    ensures
        error matches DecodeError::Truncated { actual, .. } ==> decimal_text(actual as nat).is_suffix_of(decode_words(error)),
        error matches DecodeError::InvalidLength { actual, .. } ==> decimal_text(actual as nat).is_suffix_of(decode_words(error)),
{
    match error {
        DecodeError::Truncated { actual, .. } => {
            let said = decode_words(error);
            let last = decimal_text(actual as nat);
            lemma_last_words(said.take(said.len() - last.len()), last);
            assert(said =~= said.take(said.len() - last.len()) + last);
        },
        DecodeError::InvalidLength { actual, .. } => {
            let said = decode_words(error);
            let last = decimal_text(actual as nat);
            lemma_last_words(said.take(said.len() - last.len()), last);
            assert(said =~= said.take(said.len() - last.len()) + last);
        },
        _ => {},
    }
}

/// Words about a report that is too short end in its length, those about a wrong
/// protocol in the right one, and those about too many records or sources in the
/// limit.
pub proof fn law_report_errors_end_in_a_number(error: MembershipParseError)
    ensures
        error matches MembershipParseError::Truncated { actual, .. } ==> decimal_text(actual as nat).is_suffix_of(parse_words(error)),
        error matches MembershipParseError::InvalidProtocol { expected, .. } ==> decimal_text(expected as nat).is_suffix_of(parse_words(error)),
        error matches MembershipParseError::TooManyRecords { limit, .. } ==> decimal_text(limit as nat).is_suffix_of(parse_words(error)),
        error matches MembershipParseError::TooManySources { limit, .. } ==> decimal_text(limit as nat).is_suffix_of(parse_words(error)),
{
    match error {
        MembershipParseError::Truncated { actual, .. } => {
            let said = parse_words(error);
            let last = decimal_text(actual as nat);
            lemma_last_words(said.take(said.len() - last.len()), last);
            assert(said =~= said.take(said.len() - last.len()) + last);
        },
        MembershipParseError::InvalidProtocol { expected, .. } => {
            let said = parse_words(error);
            let last = decimal_text(expected as nat);
            lemma_last_words(said.take(said.len() - last.len()), last);
            assert(said =~= said.take(said.len() - last.len()) + last);
        },
        MembershipParseError::TooManyRecords { limit, .. } => {
            let said = parse_words(error);
            let last = decimal_text(limit as nat);
            lemma_last_words(said.take(said.len() - last.len()), last);
            assert(said =~= said.take(said.len() - last.len()) + last);
        },
        MembershipParseError::TooManySources { limit, .. } => {
            let said = parse_words(error);
            let last = decimal_text(limit as nat);
            lemma_last_words(said.take(said.len() - last.len()), last);
            assert(said =~= said.take(said.len() - last.len()) + last);
        },
        _ => {},
    }
}

/// Words about an answer that does not match end in what was expected, and those
/// about a message at the wrong time in the phase.
pub proof fn law_gateway_errors_end_in_what_was_expected(error: GatewayError)
    ensures
        error matches GatewayError::UnexpectedDiscoveryNonce { expected, .. } ==> prefixed_hex(expected as nat).is_suffix_of(gateway_words(error)),
        error matches GatewayError::UnexpectedRequestNonce { expected, .. } ==> prefixed_hex(expected as nat).is_suffix_of(gateway_words(error)),
        error matches GatewayError::UnexpectedPeer { expected, .. } ==> socket_words(expected).is_suffix_of(gateway_words(error)),
        error matches GatewayError::UnexpectedMessageForState { phase, .. } ==> phase_name(phase).is_suffix_of(gateway_words(error)),
{
    match error {
        GatewayError::UnexpectedDiscoveryNonce { expected, .. } => {
            let said = gateway_words(error);
            let last = prefixed_hex(expected as nat);
            lemma_last_words(said.take(said.len() - last.len()), last);
            assert(said =~= said.take(said.len() - last.len()) + last);
        },
        GatewayError::UnexpectedRequestNonce { expected, .. } => {
            let said = gateway_words(error);
            let last = prefixed_hex(expected as nat);
            lemma_last_words(said.take(said.len() - last.len()), last);
            assert(said =~= said.take(said.len() - last.len()) + last);
        },
        GatewayError::UnexpectedPeer { expected, .. } => {
            let said = gateway_words(error);
            let last = socket_words(expected);
            lemma_last_words(said.take(said.len() - last.len()), last);
            assert(said =~= said.take(said.len() - last.len()) + last);
        },
        GatewayError::UnexpectedMessageForState { phase, .. } => {
            let said = gateway_words(error);
            let last = phase_name(phase);
            lemma_last_words(said.take(said.len() - last.len()), last);
            assert(said =~= said.take(said.len() - last.len()) + last);
        },
        _ => {},
    }
}

/// Words about a reply that does not match end in what was expected.
pub proof fn law_discovery_errors_end_in_what_was_expected(error: DriadError)
    ensures
        error matches DriadError::InvalidResponseId { expected, .. } ==> prefixed_hex(expected as nat).is_suffix_of(driad_words(error)),
        error matches DriadError::InvalidRelayLength { expected, .. } ==> decimal_text(expected as nat).is_suffix_of(driad_words(error)),
{
    match error {
        DriadError::InvalidResponseId { expected, .. } => {
            let said = driad_words(error);
            let last = prefixed_hex(expected as nat);
            lemma_last_words(said.take(said.len() - last.len()), last);
            assert(said =~= said.take(said.len() - last.len()) + last);
        },
        DriadError::InvalidRelayLength { expected, .. } => {
            let said = driad_words(error);
            let last = decimal_text(expected as nat);
            lemma_last_words(said.take(said.len() - last.len()), last);
            assert(said =~= said.take(said.len() - last.len()) + last);
        },
        _ => {},
    }
}

/// Words about a limit end in the limit, and tell the number that was asked for
/// before it.
pub proof fn law_limits_are_told_last(error: StateLimitError)
    ensures
        decimal_text(error.limit as nat).is_suffix_of(limit_words(error)),
        ("AMT relay "@ + error.resource@ + " limit exceeded: requested "@ + decimal_text(
            error.requested as nat,
        )).is_prefix_of(limit_words(error)),
{
    let first = "AMT relay "@ + error.resource@ + " limit exceeded: requested "@ + decimal_text(
        error.requested as nat,
    );
    lemma_last_words(first + ", limit "@, decimal_text(error.limit as nat));
    assert(limit_words(error) =~= first + (", limit "@ + decimal_text(error.limit as nat)));
    lemma_last_words(first, ", limit "@ + decimal_text(error.limit as nat));
}

} // verus!
