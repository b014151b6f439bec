//! IGMPv3 and MLDv2 General Queries.

use crate::bytes::{append_bytes, append_u16, read_u16_at, read_u32_at, u16_at, u16_bytes, u32_at};
use crate::checksum::{
    checksum, checksum_of, lemma_stored_checksum_verifies,
    lemma_stored_upper_layer_checksum_verifies, ones_complement_sum, ones_sum,
    upper_layer_checksum, upper_layer_input, with_word,
};
use crate::ecn::set_word;
use crate::ip::{has_ipv4_router_alert, has_ipv6_router_alert, ip_version, ipv4_header_len};
use crate::ip::{ipv4_router_alert_from, ipv6_router_alert_from};
use crate::net::{append_ipv4, append_ipv6, ipv4_at, ipv4_octets, ipv6_at, ipv6_octets};
use crate::net::{law_addresses_are_spelled_by_their_octets, read_ipv4, read_ipv6, spells, IpAddr};
use crate::net::{Ipv4Addr, Ipv6Addr};
use crate::protocol::MembershipProtocol;
use crate::time::Duration;
use vstd::prelude::*;
use vstd::slice::slice_subrange;

verus! {

/// `224.0.0.1`, all systems.
pub const ALL_SYSTEMS_V4_BITS: u32 = 0xe000_0001;

/// `ff02::1`, all nodes.
pub const ALL_NODES_V6_BITS: u128 = 0xff02_0000_0000_0000_0000_0000_0000_0001;

/// What a General Query says.
#[derive(Debug, Clone, Copy, PartialEq, Eq, Structural)]
pub struct GeneralQueryConfig {
    pub igmp_source: Ipv4Addr,
    pub mld_source: Ipv6Addr,
    pub igmp_max_response_code: u8,
    pub mld_max_response_code: u16,
    pub robustness_variable: u8,
    pub query_interval_code: u8,
}

/// Why a packet is not a General Query of the expected protocol.
#[derive(Debug, Clone, Copy, PartialEq, Eq, Structural)]
pub enum QueryValidationError {
    Truncated,
    WrongAddressFamily,
    InvalidLength,
    InvalidHeader,
    InvalidChecksum,
    InvalidSource,
    NotGeneralQuery,
}

impl GeneralQueryConfig {
    /// Unspecified sources, for a pseudo-interface without a native address,
    /// ten seconds to respond and 125 seconds between queries.
    pub open spec fn default_spec() -> Self {
        GeneralQueryConfig {
            igmp_source: Ipv4Addr { bits: 0 },
            mld_source: Ipv6Addr { bits: 0 },
            igmp_max_response_code: 100,
            mld_max_response_code: 10_000,
            robustness_variable: 2,
            query_interval_code: 125,
        }
    }
}

impl Default for GeneralQueryConfig {
    fn default() -> (config: Self)
        ensures
            config == Self::default_spec(),
    {
        GeneralQueryConfig {
            igmp_source: Ipv4Addr { bits: 0 },
            mld_source: Ipv6Addr { bits: 0 },
            // IGMP counts tenths of a second below 128, MLD milliseconds.
            igmp_max_response_code: 100,
            mld_max_response_code: 10_000,
            robustness_variable: 2,
            query_interval_code: 125,
        }
    }
}

/// `8 * 2^exponent`.
pub open spec fn interval_scale(exponent: int) -> int
    decreases exponent,
{
    if exponent <= 0 {
        8
    } else {
        2 * interval_scale(exponent - 1)
    }
}

/// The seconds that a Querier's Query Interval Code stands for: the code
/// itself below 128, else a mantissa and an exponent.
pub open spec fn interval_secs(code: u8) -> int {
    if code < 128 {
        code as int
    } else {
        (16 + code as int % 16) * interval_scale((code as int / 16) % 8)
    }
}

/// The Query Interval Code of an IGMPv3 General Query, or why the packet is
/// none.
pub open spec fn igmpv3_query_code(s: Seq<u8>) -> Result<u8, QueryValidationError> {
    let header_len = ipv4_header_len(s);
    let igmp = s.skip(header_len);
    if s.len() == 0 {
        Err(QueryValidationError::Truncated)
    } else if ip_version(s) != 4 {
        Err(QueryValidationError::WrongAddressFamily)
    } else if s.len() < 36 {
        Err(QueryValidationError::Truncated)
    } else if header_len < 24 || header_len > s.len() {
        Err(QueryValidationError::InvalidHeader)
    } else if u16_at(s, 2) != s.len() || s.len() != header_len + 12 {
        Err(QueryValidationError::InvalidLength)
    } else if s[8] != 1 || s[9] != 2 || u16_at(s, 6) % 0x4000 != 0 || ipv4_at(s, 16).bits
        != ALL_SYSTEMS_V4_BITS || !ipv4_router_alert_from(s.subrange(20, header_len), 0) {
        Err(QueryValidationError::InvalidHeader)
    } else if ipv4_at(s, 12).multicast_spec() || ipv4_at(s, 12).broadcast_spec() {
        Err(QueryValidationError::InvalidSource)
    } else if ones_sum(s.take(header_len)) != 0xffff {
        Err(QueryValidationError::InvalidChecksum)
    } else if igmp[0] != 0x11 || u32_at(igmp, 4) != 0 || u16_at(igmp, 10) != 0 {
        Err(QueryValidationError::NotGeneralQuery)
    } else if ones_sum(igmp) != 0xffff {
        Err(QueryValidationError::InvalidChecksum)
    } else {
        Ok(igmp[9])
    }
}

/// The Query Interval Code of an MLDv2 General Query, or why the packet is
/// none.
pub open spec fn mldv2_query_code(s: Seq<u8>) -> Result<u8, QueryValidationError> {
    let mld = s.skip(48);
    if s.len() == 0 {
        Err(QueryValidationError::Truncated)
    } else if ip_version(s) != 6 {
        Err(QueryValidationError::WrongAddressFamily)
    } else if s.len() < 76 {
        Err(QueryValidationError::Truncated)
    } else if 40 + u16_at(s, 4) != s.len() || u16_at(s, 4) != 36 {
        Err(QueryValidationError::InvalidLength)
    } else if s[6] != 0 || s[7] != 1 || ipv6_at(s, 24).bits != ALL_NODES_V6_BITS || s[40] != 58
        || !ipv6_router_alert_from(s.subrange(42, 48), 0) {
        Err(QueryValidationError::InvalidHeader)
    } else if ipv6_at(s, 8).multicast_spec() {
        Err(QueryValidationError::InvalidSource)
    } else if mld[0] != 130 || mld[1] != 0 || ipv6_at(mld, 8).bits != 0 || u16_at(mld, 26) != 0 {
        Err(QueryValidationError::NotGeneralQuery)
    } else if checksum_of(
        upper_layer_input(s.subrange(8, 24), s.subrange(24, 40), 58, mld),
    ) != 0 {
        Err(QueryValidationError::InvalidChecksum)
    } else {
        Ok(mld[25])
    }
}

/// The Query Interval Code of a General Query of the given protocol.
pub open spec fn query_code(protocol: MembershipProtocol, s: Seq<u8>) -> Result<
    u8,
    QueryValidationError,
> {
    match protocol {
        MembershipProtocol::Igmpv3 => igmpv3_query_code(s),
        MembershipProtocol::Mldv2 => mldv2_query_code(s),
    }
}

/// The IPv4 header of a General Query, with a zero checksum field.
pub open spec fn igmpv3_query_header(config: GeneralQueryConfig) -> Seq<u8> {
    seq![0x46u8, 0xc0u8] + u16_bytes(36) + seq![0u8, 0u8, 0u8, 0u8, 1u8, 2u8, 0u8, 0u8]
        + ipv4_octets(config.igmp_source) + seq![224u8, 0u8, 0u8, 1u8] + seq![
        0x94u8,
        4u8,
        0u8,
        0u8,
    ]
}

/// The IGMP part of a General Query, with a zero checksum field.
pub open spec fn igmpv3_query_message(config: GeneralQueryConfig) -> Seq<u8> {
    seq![
        0x11u8,
        config.igmp_max_response_code,
        0u8,
        0u8,
        0u8,
        0u8,
        0u8,
        0u8,
        (config.robustness_variable % 8) as u8,
        config.query_interval_code,
        0u8,
        0u8,
    ]
}

/// An IGMPv3 General Query with its checksums.
pub open spec fn igmpv3_query_bytes(config: GeneralQueryConfig) -> Seq<u8> {
    let header = igmpv3_query_header(config);
    let message = igmpv3_query_message(config);
    with_word(header, 10, checksum_of(header)) + with_word(message, 2, checksum_of(message))
}

/// The IPv6 header and hop-by-hop options of a General Query.
pub open spec fn mldv2_query_header(config: GeneralQueryConfig) -> Seq<u8> {
    seq![0x60u8, 0u8, 0u8, 0u8] + u16_bytes(36) + seq![0u8, 1u8] + ipv6_octets(config.mld_source)
        + ipv6_octets(Ipv6Addr { bits: ALL_NODES_V6_BITS }) + seq![
        58u8,
        0u8,
        5u8,
        2u8,
        0u8,
        0u8,
        1u8,
        0u8,
    ]
}

/// The MLD part of a General Query, with a zero checksum field.
pub open spec fn mldv2_query_message(config: GeneralQueryConfig) -> Seq<u8> {
    seq![130u8, 0u8, 0u8, 0u8] + u16_bytes(config.mld_max_response_code) + seq![0u8, 0u8]
        + ipv6_octets(Ipv6Addr { bits: 0 }) + seq![
        (config.robustness_variable % 8) as u8,
        config.query_interval_code,
        0u8,
        0u8,
    ]
}

/// An MLDv2 General Query with its checksum.
pub open spec fn mldv2_query_bytes(config: GeneralQueryConfig) -> Seq<u8> {
    let message = mldv2_query_message(config);
    let sum = checksum_of(
        upper_layer_input(
            ipv6_octets(config.mld_source),
            ipv6_octets(Ipv6Addr { bits: ALL_NODES_V6_BITS }),
            58,
            message,
        ),
    );
    mldv2_query_header(config) + with_word(message, 2, sum)
}

/// A General Query of the given protocol.
pub open spec fn query_bytes(protocol: MembershipProtocol, config: GeneralQueryConfig) -> Seq<u8> {
    match protocol {
        MembershipProtocol::Igmpv3 => igmpv3_query_bytes(config),
        MembershipProtocol::Mldv2 => mldv2_query_bytes(config),
    }
}

/// Builds a General Query as a whole IP datagram.
pub fn build_general_query(protocol: MembershipProtocol, config: &GeneralQueryConfig) -> (packet:
    Vec<u8>)
    ensures
        packet@ == query_bytes(protocol, *config),
{
    match protocol {
        MembershipProtocol::Igmpv3 => build_igmpv3_general_query(config),
        MembershipProtocol::Mldv2 => build_mldv2_general_query(config),
    }
}

/// Checks that a packet is a General Query of the given protocol.
pub fn validate_general_query(protocol: MembershipProtocol, packet: &[u8]) -> (result: Result<
    (),
    QueryValidationError,
>)
    ensures
        result == (match query_code(protocol, packet@) {
            Ok(_) => Ok::<(), QueryValidationError>(()),
            Err(error) => Err(error),
        }),
{
    match general_query_interval(protocol, packet) {
        Ok(_) => Ok(()),
        Err(error) => Err(error),
    }
}

/// The query interval that a General Query of the given protocol announces.
pub fn general_query_interval(protocol: MembershipProtocol, packet: &[u8]) -> (result: Result<
    Duration,
    QueryValidationError,
>)
    ensures
        match query_code(protocol, packet@) {
            Ok(code) => result == Ok::<Duration, QueryValidationError>(
                Duration::secs_spec(interval_secs(code) as u64),
            ),
            Err(error) => result == Err::<Duration, QueryValidationError>(error),
        },
{
    let code = match protocol {
        MembershipProtocol::Igmpv3 => validate_igmpv3_general_query(packet),
        MembershipProtocol::Mldv2 => validate_mldv2_general_query(packet),
    };
    match code {
        Ok(code) => Ok(query_interval(code)),
        Err(error) => Err(error),
    }
}

proof fn lemma_interval_scale(exponent: int)
    requires
        0 <= exponent < 8,
    ensures
        8 <= interval_scale(exponent) <= 1024,
{
    reveal_with_fuel(interval_scale, 9);
}

/// No code stands for more than 31744 seconds.
pub proof fn lemma_interval_bound(code: u8)
    ensures
        0 <= interval_secs(code) <= 31744,
        interval_secs(255) == 31744,
{
    assert(interval_scale(7) == 1024) by {
        reveal_with_fuel(interval_scale, 9);
    }
    if code >= 128 {
        lemma_interval_scale((code as int / 16) % 8);
        let m = 16 + code as int % 16;
        let k = interval_scale((code as int / 16) % 8);
        assert(0 <= m * k <= 31 * 1024) by (nonlinear_arith)
            requires
                0 <= m <= 31,
                0 <= k <= 1024,
        ;
    }
}

fn interval_seconds(code: u8) -> (seconds: u64)
    ensures
        seconds == interval_secs(code),
{
    if code < 128 {
        return code as u64;
    }
    proof {
        reveal_with_fuel(interval_scale, 9);
    }
    let scale: u64 = match (code / 16) % 8 {
        0 => 8,
        1 => 16,
        2 => 32,
        3 => 64,
        4 => 128,
        5 => 256,
        6 => 512,
        _ => 1024,
    };
    let mantissa: u64 = 16 + (code % 16) as u64;
    assert(0 <= mantissa * scale <= 31 * 1024) by (nonlinear_arith)
        requires
            0 <= mantissa <= 31,
            0 <= scale <= 1024,
    ;
    mantissa * scale
}

/// The span that a Query Interval Code stands for.
pub fn query_interval(code: u8) -> (span: Duration)
    ensures
        span == Duration::secs_spec(interval_secs(code) as u64),
{
    let seconds: u64 = interval_seconds(code);
    Duration::from_secs(seconds)
}

/// The smallest Query Interval Code that stands for at least the whole seconds
/// of `interval`, or the largest code where none does.
pub fn encode_query_interval(interval: Duration) -> (code: u8)
    ensures
        forall|c: u8| c < code ==> interval_secs(c) < interval.nanos / 1_000_000_000,
        interval_secs(code) >= interval.nanos / 1_000_000_000 || code == 255,
{
    let seconds: u128 = interval.as_secs();
    if seconds < 128 {
        return seconds as u8;
    }
    let mut code: u8 = 128;
    while code < 255
        invariant
            128 <= code,
            seconds >= 128,
            seconds == interval.nanos / 1_000_000_000,
            forall|c: u8| c < code ==> interval_secs(c) < seconds,
        decreases 255 - code,
    {
        if interval_seconds(code) as u128 >= seconds {
            return code;
        }
        code += 1;
    }
    255
}

fn validate_igmpv3_general_query(packet: &[u8]) -> (result: Result<u8, QueryValidationError>)
    ensures
        result == igmpv3_query_code(packet@),
{
    if packet.len() == 0 {
        return Err(QueryValidationError::Truncated);
    }
    if packet[0] / 16 != 4 {
        return Err(QueryValidationError::WrongAddressFamily);
    }
    if packet.len() < 36 {
        return Err(QueryValidationError::Truncated);
    }
    let ihl: usize = (packet[0] % 16) as usize * 4;
    if ihl < 24 || ihl > packet.len() {
        return Err(QueryValidationError::InvalidHeader);
    }
    let total_len: usize = read_u16_at(packet, 2) as usize;
    if total_len != packet.len() || total_len != ihl + 12 {
        return Err(QueryValidationError::InvalidLength);
    }
    if packet[8] != 1 || packet[9] != 2 || read_u16_at(packet, 6) % 0x4000 != 0 || read_ipv4(
        packet,
        16,
    ).bits != ALL_SYSTEMS_V4_BITS || !has_ipv4_router_alert(slice_subrange(packet, 20, ihl)) {
        return Err(QueryValidationError::InvalidHeader);
    }
    let source = read_ipv4(packet, 12);
    if source.is_multicast() || source.is_broadcast() {
        return Err(QueryValidationError::InvalidSource);
    }
    proof {
        assert(packet@.subrange(0, ihl as int) =~= packet@.take(ihl as int));
        assert(packet@.subrange(ihl as int, packet@.len() as int) =~= packet@.skip(ihl as int));
    }
    if ones_complement_sum(slice_subrange(packet, 0, ihl)) != 0xffff {
        return Err(QueryValidationError::InvalidChecksum);
    }
    let igmp = slice_subrange(packet, ihl, packet.len());
    if igmp[0] != 0x11 || read_u32_at(igmp, 4) != 0 || read_u16_at(igmp, 10) != 0 {
        return Err(QueryValidationError::NotGeneralQuery);
    }
    if ones_complement_sum(igmp) != 0xffff {
        return Err(QueryValidationError::InvalidChecksum);
    }
    Ok(igmp[9])
}

fn validate_mldv2_general_query(packet: &[u8]) -> (result: Result<u8, QueryValidationError>)
    ensures
        result == mldv2_query_code(packet@),
{
    if packet.len() == 0 {
        return Err(QueryValidationError::Truncated);
    }
    if packet[0] / 16 != 6 {
        return Err(QueryValidationError::WrongAddressFamily);
    }
    if packet.len() < 76 {
        return Err(QueryValidationError::Truncated);
    }
    let payload_len: usize = read_u16_at(packet, 4) as usize;
    if 40 + payload_len != packet.len() || payload_len != 36 {
        return Err(QueryValidationError::InvalidLength);
    }
    if packet[6] != 0 || packet[7] != 1 || read_ipv6(packet, 24).bits != ALL_NODES_V6_BITS
        || packet[40] != 58 || !has_ipv6_router_alert(slice_subrange(packet, 42, 48)) {
        return Err(QueryValidationError::InvalidHeader);
    }
    let source = read_ipv6(packet, 8);
    if source.is_multicast() {
        return Err(QueryValidationError::InvalidSource);
    }
    let mld = slice_subrange(packet, 48, packet.len());
    proof {
        assert(mld@ =~= packet@.skip(48));
    }
    if mld[0] != 130 || mld[1] != 0 || read_ipv6(mld, 8).bits != 0 || read_u16_at(mld, 26) != 0 {
        return Err(QueryValidationError::NotGeneralQuery);
    }
    let destination = read_ipv6(packet, 24);
    proof {
        crate::net::lemma_ipv6_of_octets(packet@.subrange(8, 24));
        crate::net::lemma_ipv6_of_octets(packet@.subrange(24, 40));
    }
    if upper_layer_checksum(&source.octets(), &destination.octets(), 58, mld) != 0 {
        return Err(QueryValidationError::InvalidChecksum);
    }
    Ok(mld[25])
}

/// Builds an IGMPv3 General Query as a whole IPv4 datagram.
pub fn build_igmpv3_general_query(config: &GeneralQueryConfig) -> (packet: Vec<u8>)
    ensures
        packet@ == igmpv3_query_bytes(*config),
{
    let mut header: Vec<u8> = Vec::with_capacity(36);
    // IPv4 with a 24-byte header because Router Alert is present, Internet
    // Control precedence.
    append_bytes(&mut header, [0x46u8, 0xc0].as_slice());
    append_u16(&mut header, 36);
    append_bytes(&mut header, [0u8, 0, 0, 0, 1, 2, 0, 0].as_slice());
    append_ipv4(&mut header, config.igmp_source);
    append_bytes(&mut header, [224u8, 0, 0, 1].as_slice());
    append_bytes(&mut header, [0x94u8, 4, 0, 0].as_slice());
    proof {
        crate::net::lemma_ipv4_octets_read_back(config.igmp_source);
        assert(header@ =~= igmpv3_query_header(*config));
    }
    let header_checksum: u16 = checksum(header.as_slice());
    set_word(header.as_mut_slice(), 10, header_checksum);

    let mut message: Vec<u8> = Vec::with_capacity(12);
    append_bytes(
        &mut message,
        [0x11u8, config.igmp_max_response_code, 0, 0, 0, 0, 0, 0].as_slice(),
    );
    append_bytes(
        &mut message,
        [config.robustness_variable % 8, config.query_interval_code, 0, 0].as_slice(),
    );
    proof {
        assert(message@ =~= igmpv3_query_message(*config));
    }
    let message_checksum: u16 = checksum(message.as_slice());
    set_word(message.as_mut_slice(), 2, message_checksum);
    append_bytes(&mut header, message.as_slice());
    header
}

/// Builds an MLDv2 General Query as a whole IPv6 datagram.
pub fn build_mldv2_general_query(config: &GeneralQueryConfig) -> (packet: Vec<u8>)
    ensures
        packet@ == mldv2_query_bytes(*config),
{
    let all_nodes = Ipv6Addr { bits: ALL_NODES_V6_BITS };
    let mut header: Vec<u8> = Vec::with_capacity(76);
    append_bytes(&mut header, [0x60u8, 0, 0, 0].as_slice());
    append_u16(&mut header, 36);
    // No upper-layer header yet but hop-by-hop options, and the hop limit of
    // one that MLD requires.
    append_bytes(&mut header, [0u8, 1].as_slice());
    append_ipv6(&mut header, config.mld_source);
    append_ipv6(&mut header, all_nodes);
    append_bytes(&mut header, [58u8, 0, 5, 2, 0, 0, 1, 0].as_slice());
    proof {
        crate::net::lemma_ipv6_octets_read_back(config.mld_source);
        crate::net::lemma_ipv6_octets_read_back(all_nodes);
        crate::net::lemma_ipv6_octets_read_back(Ipv6Addr { bits: 0 });
        assert(header@ =~= mldv2_query_header(*config));
    }
    let mut message: Vec<u8> = Vec::with_capacity(28);
    append_bytes(&mut message, [130u8, 0, 0, 0].as_slice());
    append_u16(&mut message, config.mld_max_response_code);
    append_bytes(&mut message, [0u8, 0].as_slice());
    append_ipv6(&mut message, Ipv6Addr { bits: 0 });
    append_bytes(
        &mut message,
        [config.robustness_variable % 8, config.query_interval_code, 0, 0].as_slice(),
    );
    proof {
        assert(message@ =~= mldv2_query_message(*config));
    }
    let message_checksum: u16 = upper_layer_checksum(
        &config.mld_source.octets(),
        &all_nodes.octets(),
        58,
        message.as_slice(),
    );
    set_word(message.as_mut_slice(), 2, message_checksum);
    append_bytes(&mut header, message.as_slice());
    header
}

/// A built IGMPv3 General Query from a unicast or unspecified source is one,
/// and announces the configured interval.
pub proof fn law_built_igmpv3_query_validates(config: GeneralQueryConfig)
    requires
        !config.igmp_source.multicast_spec(),
        !config.igmp_source.broadcast_spec(),
    ensures
        query_code(MembershipProtocol::Igmpv3, query_bytes(MembershipProtocol::Igmpv3, config))
            == Ok::<u8, QueryValidationError>(config.query_interval_code),
{
    let s = igmpv3_query_bytes(config);
    let header = igmpv3_query_header(config);
    let message = igmpv3_query_message(config);
    crate::net::lemma_ipv4_octets_read_back(config.igmp_source);
    assert(header.len() == 24);
    assert(header[10] == 0 && header[11] == 0);
    lemma_stored_checksum_verifies(header, 10);
    lemma_stored_checksum_verifies(message, 2);
    assert(s.take(24) =~= with_word(header, 10, checksum_of(header)));
    assert(s.skip(24) =~= with_word(message, 2, checksum_of(message)));
    assert(s[0] == 0x46);
    assert(s[2] == 0 && s[3] == 36);
    assert(s[6] == 0 && s[7] == 0);
    assert(s.subrange(12, 16) =~= ipv4_octets(config.igmp_source));
    assert(s.subrange(16, 20) =~= seq![224u8, 0u8, 0u8, 1u8]);
    crate::bytes::lemma_be_value_four(s.subrange(16, 20));
    let options = s.subrange(20, 24);
    assert(options =~= seq![0x94u8, 4u8, 0u8, 0u8]);
    assert(ipv4_router_alert_from(options, 0));
}

/// A built MLDv2 General Query from a source that is not multicast is one, and
/// announces the configured interval.
pub proof fn law_built_mldv2_query_validates(config: GeneralQueryConfig)
    requires
        !config.mld_source.multicast_spec(),
    ensures
        query_code(MembershipProtocol::Mldv2, query_bytes(MembershipProtocol::Mldv2, config))
            == Ok::<u8, QueryValidationError>(config.query_interval_code),
{
    let s = mldv2_query_bytes(config);
    let all_nodes = Ipv6Addr { bits: ALL_NODES_V6_BITS };
    let header = mldv2_query_header(config);
    let message = mldv2_query_message(config);
    let zero = Ipv6Addr { bits: 0 };
    crate::net::lemma_ipv6_octets_read_back(config.mld_source);
    crate::net::lemma_ipv6_octets_read_back(all_nodes);
    crate::net::lemma_ipv6_octets_read_back(zero);
    let source = ipv6_octets(config.mld_source);
    let destination = ipv6_octets(all_nodes);
    assert(message[2] == 0 && message[3] == 0);
    lemma_stored_upper_layer_checksum_verifies(source, destination, 58, message, 2);
    let sum = checksum_of(upper_layer_input(source, destination, 58, message));
    assert(header.len() == 48);
    assert(s.skip(48) =~= with_word(message, 2, sum));
    assert(s[0] == 0x60);
    assert(s[4] == 0 && s[5] == 36);
    assert(s[6] == 0 && s[7] == 1 && s[40] == 58);
    assert(s.subrange(8, 24) =~= source);
    assert(s.subrange(24, 40) =~= destination);
    let options = s.subrange(42, 48);
    assert(options =~= seq![5u8, 2u8, 0u8, 0u8, 1u8, 0u8]);
    assert(ipv6_router_alert_from(options, 0));
    let mld = s.skip(48);
    assert(mld.subrange(8, 24) =~= ipv6_octets(zero));
    assert(mld[0] == 130 && mld[1] == 0 && mld[26] == 0 && mld[27] == 0);
}

/// An interval that some code reaches is announced as at least itself.
pub proof fn law_encoded_interval_is_not_shorter(seconds: int, code: u8)
    requires
        seconds <= 31744,
        interval_secs(code) >= seconds || code == 255,
    ensures
        interval_secs(code) >= seconds,
{
    lemma_interval_bound(code);
}

/// Encoding the interval of a code gives a code of the same interval.
pub proof fn law_interval_codes_are_fixed_points(code: u8, encoded: u8)
    requires
        forall|c: u8| c < encoded ==> interval_secs(c) < interval_secs(code),
        interval_secs(encoded) >= interval_secs(code) || encoded == 255,
    ensures
        interval_secs(encoded) == interval_secs(code),
{
    lemma_interval_bound(code);
    if code < encoded {
        assert(interval_secs(code) < interval_secs(code));
    }
    lemma_interval_monotonic(encoded, code);
}

proof fn lemma_interval_monotonic(low: u8, high: u8)
    requires
        low <= high,
    ensures
        interval_secs(low) <= interval_secs(high),
    decreases high - low,
{
    if low < high {
        let next = (low + 1) as u8;
        lemma_interval_step(low);
        lemma_interval_monotonic(next, high);
    }
}

proof fn lemma_interval_step(low: u8)
    requires
        low < 255,
    ensures
        interval_secs(low) <= interval_secs((low + 1) as u8),
{
    if low == 127 {
        reveal_with_fuel(interval_scale, 9);
    } else if low >= 128 {
        let e = (low as int / 16) % 8;
        lemma_interval_scale(e);
        let k = interval_scale(e);
        let m = 16 + low as int % 16;
        if low % 16 == 15 {
            let next = (low + 1) as u8;
            assert((next as int / 16) % 8 == e + 1);
            assert(interval_scale(e + 1) == 2 * k);
            assert(next % 16 == 0);
            assert(31 * k <= 16 * (2 * k));
        } else {
            assert(((low as int + 1) / 16) % 8 == e);
            assert(m * k <= (m + 1) * k) by (nonlinear_arith)
                requires
                    k >= 0,
            ;
        }
    }
}

proof fn lemma_scale_is_a_power(exponent: nat)
    ensures
        interval_scale(exponent as int) == vstd::arithmetic::power2::pow2(exponent + 3),
    decreases exponent,
{
    vstd::arithmetic::power2::lemma2_to64();
    if exponent > 0 {
        lemma_scale_is_a_power((exponent - 1) as nat);
        vstd::arithmetic::power2::lemma_pow2_unfold(exponent + 3);
    }
}

/// The seconds of a Query Interval Code: below 128 the code itself; from there on
/// a floating number, whose mantissa is the low four bits behind a one, and whose
/// exponent, less three, is the three bits before them.
pub proof fn law_interval_codes_are_floating_numbers(code: u8)
    ensures
        code < 128 ==> interval_secs(code) == code,
        code >= 128 ==> interval_secs(code) == (16 + code % 16) * vstd::arithmetic::power2::pow2(
            (3 + code / 16 % 8) as nat,
        ),
{
    lemma_scale_is_a_power((code / 16 % 8) as nat);
}

/// An IGMPv3 General Query, byte by byte: to 224.0.0.1, one hop far, behind a
/// Router Alert, from the configured source, with the configured codes in their
/// places, no group, no sources, and valid checksums.
#[verifier::rlimit(40)]
pub proof fn law_igmpv3_queries_are_laid_out(config: GeneralQueryConfig)
    ensures
        ({
            let s = query_bytes(MembershipProtocol::Igmpv3, config);
            &&& s.len() == 36
            &&& s[0] == 0x46 && s[2] == 0 && s[3] == 36
            &&& s[6] == 0 && s[7] == 0 && s[8] == 1 && s[9] == 2
            &&& spells(s, 12, IpAddr::V4(config.igmp_source))
            &&& s.subrange(16, 24) == seq![224u8, 0, 0, 1, 0x94, 4, 0, 0]
            &&& s[24] == 0x11 && s[25] == config.igmp_max_response_code
            &&& s.subrange(28, 32) == seq![0u8, 0, 0, 0]
            &&& s[32] == config.robustness_variable % 8 && s[33] == config.query_interval_code
            &&& s[34] == 0 && s[35] == 0
            &&& ones_sum(s.take(24)) == 0xffff && ones_sum(s.skip(24)) == 0xffff
        }),
{
    let s = query_bytes(MembershipProtocol::Igmpv3, config);
    let header = igmpv3_query_header(config);
    let message = igmpv3_query_message(config);
    crate::net::law_octets_spell_the_address(IpAddr::V4(config.igmp_source));
    crate::bytes::lemma_u16_bytes_read_back(36);
    let octets = ipv4_octets(config.igmp_source);
    assert(octets == crate::net::ip_octets(IpAddr::V4(config.igmp_source)));
    assert(header.len() == 24);
    assert(header[10] == 0 && header[11] == 0);
    assert(message[2] == 0 && message[3] == 0);
    lemma_stored_checksum_verifies(header, 10);
    lemma_stored_checksum_verifies(message, 2);
    let front = with_word(header, 10, checksum_of(header));
    let back = with_word(message, 2, checksum_of(message));
    assert(s == front + back);
    assert(s.take(24) =~= front);
    assert(s.skip(24) =~= back);
    assert(header[2] == 0 && header[3] == 36);
    assert(header[12] == octets[0] && header[13] == octets[1] && header[14] == octets[2]
        && header[15] == octets[3]);
    assert(header.subrange(16, 24) =~= seq![224u8, 0, 0, 1, 0x94, 4, 0, 0]);
    assert(s.subrange(16, 24) =~= header.subrange(16, 24));
    assert(s.subrange(28, 32) =~= seq![0u8, 0, 0, 0]);
}

/// An MLDv2 General Query, byte by byte: to ff02::1, one hop far, behind a Router
/// Alert, from the configured source, with the configured codes in their places,
/// no group, no sources, and a valid checksum.
#[verifier::rlimit(40)]
pub proof fn law_mldv2_queries_are_laid_out(config: GeneralQueryConfig)
    ensures
        ({
            let s = query_bytes(MembershipProtocol::Mldv2, config);
            &&& s.len() == 76
            &&& s[0] == 0x60 && s[4] == 0 && s[5] == 36 && s[6] == 0 && s[7] == 1
            &&& spells(s, 8, IpAddr::V6(config.mld_source))
            &&& spells(
                s,
                24,
                IpAddr::V6(Ipv6Addr { bits: 0xff02_0000_0000_0000_0000_0000_0000_0001 }),
            )
            &&& s.subrange(40, 48) == seq![58u8, 0, 5, 2, 0, 0, 1, 0]
            &&& s[48] == 130 && s[49] == 0
            &&& s[52] * 256 + s[53] == config.mld_max_response_code
            &&& spells(s, 56, IpAddr::V6(Ipv6Addr { bits: 0 }))
            &&& s[72] == config.robustness_variable % 8 && s[73] == config.query_interval_code
            &&& s[74] == 0 && s[75] == 0
            &&& checksum_of(
                upper_layer_input(s.subrange(8, 24), s.subrange(24, 40), 58, s.skip(48)),
            ) == 0
        }),
{
    let s = query_bytes(MembershipProtocol::Mldv2, config);
    let all = Ipv6Addr { bits: ALL_NODES_V6_BITS };
    let none = Ipv6Addr { bits: 0 };
    let from = ipv6_octets(config.mld_source);
    let to = ipv6_octets(all);
    let message = mldv2_query_message(config);
    let header = mldv2_query_header(config);
    crate::net::lemma_ipv6_octets_read_back(config.mld_source);
    crate::net::lemma_ipv6_octets_read_back(all);
    crate::net::lemma_ipv6_octets_read_back(none);
    crate::bytes::lemma_u16_bytes_read_back(36);
    crate::bytes::lemma_u16_bytes_read_back(config.mld_max_response_code);
    assert(header.len() == 48);
    assert(message.len() == 28);
    assert(message[2] == 0 && message[3] == 0);
    lemma_stored_upper_layer_checksum_verifies(from, to, 58, message, 2);
    let sum = checksum_of(upper_layer_input(from, to, 58, message));
    let back = with_word(message, 2, sum);
    assert(s == header + back);
    assert(s.skip(48) =~= back);
    assert(header[4] == 0 && header[5] == 36);
    assert(s.subrange(8, 24) =~= from);
    assert(s.subrange(24, 40) =~= to);
    assert(message.subrange(8, 24) =~= ipv6_octets(none));
    assert(s.subrange(56, 72) =~= message.subrange(8, 24));
    law_addresses_are_spelled_by_their_octets(s, 8, IpAddr::V6(none));
    law_addresses_are_spelled_by_their_octets(s, 24, IpAddr::V6(none));
    law_addresses_are_spelled_by_their_octets(s, 56, IpAddr::V6(none));
    assert(ipv6_at(s, 8) == config.mld_source && ipv6_at(s, 24) == all && ipv6_at(s, 56) == none);
    assert(header.subrange(40, 48) =~= seq![58u8, 0, 5, 2, 0, 0, 1, 0]);
    assert(s.subrange(40, 48) =~= header.subrange(40, 48));
    let code = u16_bytes(config.mld_max_response_code);
    assert(message[4] == code[0] && message[5] == code[1]);
}

/// Which packets are taken for IGMPv3 General Queries, byte by byte, and where
/// their interval code stands.
pub proof fn law_igmpv3_queries_are_checked(s: Seq<u8>)
    ensures
        ({
            let header = s[0] % 16 * 4;
            let sound = {
                &&& s.len() >= 36
                &&& s[0] / 16 == 4 && 24 <= header && s.len() == header + 12
                &&& s[2] * 256 + s[3] == s.len()
                &&& s[8] == 1 && s[9] == 2 && s[6] % 0x40 == 0 && s[7] == 0
                &&& s[16] == 224 && s[17] == 0 && s[18] == 0 && s[19] == 1
                &&& ipv4_router_alert_from(s.subrange(20, header), 0)
                &&& s[12] / 16 != 14
                &&& !(s[12] == 255 && s[13] == 255 && s[14] == 255 && s[15] == 255)
                &&& ones_sum(s.take(header)) == 0xffff && ones_sum(s.skip(header)) == 0xffff
                &&& s[header] == 0x11
                &&& s[header + 4] == 0 && s[header + 5] == 0 && s[header + 6] == 0 && s[header + 7]
                    == 0
                &&& s[header + 10] == 0 && s[header + 11] == 0
            };
            &&& query_code(MembershipProtocol::Igmpv3, s) is Ok <==> sound
            &&& sound ==> query_code(MembershipProtocol::Igmpv3, s)->Ok_0 == s[header + 9]
        }),
{
    let header = s[0] % 16 * 4;
    if s.len() >= 36 {
        law_addresses_are_spelled_by_their_octets(s, 12, IpAddr::V4(ipv4_at(s, 12)));
        law_addresses_are_spelled_by_their_octets(s, 16, IpAddr::V4(ipv4_at(s, 16)));
        assert(u16_at(s, 6) % 0x4000 == s[6] % 0x40 * 256 + s[7]);
        if header <= s.len() {
            let igmp = s.skip(header);
            if igmp.len() == 12 {
                assert forall|i: int| 0 <= i < 12 implies #[trigger] igmp[i] == s[header + i] by {}
                assert(igmp[4] == s[header + 4] && igmp[5] == s[header + 5] && igmp[6] == s[header
                    + 6] && igmp[7] == s[header + 7]);
                assert(igmp[10] == s[header + 10] && igmp[11] == s[header + 11]);
                assert(igmp[0] == s[header] && igmp[9] == s[header + 9]);
            }
        }
    }
}

/// Which packets are taken for MLDv2 General Queries, byte by byte, and where
/// their interval code stands.
pub proof fn law_mldv2_queries_are_checked(s: Seq<u8>)
    ensures
        ({
            let sound = {
                &&& s.len() == 76
                &&& s[0] / 16 == 6
                &&& s[4] == 0 && s[5] == 36 && s[6] == 0 && s[7] == 1
                &&& spells(
                    s,
                    24,
                    IpAddr::V6(Ipv6Addr { bits: 0xff02_0000_0000_0000_0000_0000_0000_0001 }),
                )
                &&& s[40] == 58 && ipv6_router_alert_from(s.subrange(42, 48), 0)
                &&& s[8] != 0xff
                &&& s[48] == 130 && s[49] == 0
                &&& spells(s, 56, IpAddr::V6(Ipv6Addr { bits: 0 }))
                &&& s[74] == 0 && s[75] == 0
                &&& checksum_of(
                    upper_layer_input(s.subrange(8, 24), s.subrange(24, 40), 58, s.skip(48)),
                ) == 0
            };
            &&& query_code(MembershipProtocol::Mldv2, s) is Ok <==> sound
            &&& sound ==> query_code(MembershipProtocol::Mldv2, s)->Ok_0 == s[73]
        }),
{
    if s.len() >= 76 {
        let mld = s.skip(48);
        let all = Ipv6Addr { bits: 0xff02_0000_0000_0000_0000_0000_0000_0001 };
        law_addresses_are_spelled_by_their_octets(s, 24, IpAddr::V6(all));
        law_addresses_are_spelled_by_their_octets(s, 56, IpAddr::V6(all));
        crate::net::law_first_octets_are_the_highest(s, 8);
        crate::net::law_spelling_is_unique(s, 24, ipv6_at(s, 24), all);
        crate::net::law_spelling_is_unique(s, 56, ipv6_at(s, 56), Ipv6Addr { bits: 0 });
        assert(mld.subrange(8, 24) =~= s.subrange(56, 72));
        assert(mld[0] == s[48] && mld[1] == s[49] && mld[25] == s[73] && mld[26] == s[74]
            && mld[27] == s[75]);
    }
}

/// No interval is negative.
pub proof fn lemma_intervals_are_not_negative(code: u8)
    ensures
        0 <= interval_secs(code) <= 31744,
{
    reveal_with_fuel(interval_scale, 9);
    let scale = interval_scale((code as int / 16) % 8);
    assert(8 <= scale <= 1024);
    assert((16 + code as int % 16) * scale <= 31 * 1024) by (nonlinear_arith)
        requires
            0 <= scale <= 1024,
            0 <= code as int % 16 <= 15,
    ;
    assert((16 + code as int % 16) * scale >= 0) by (nonlinear_arith)
        requires
            0 <= scale,
            0 <= code as int % 16,
    ;
}

/// What is said of a packet that is no General Query is true of it, by its own
/// bytes.
pub proof fn law_query_refusals_are_true(s: Seq<u8>)
    ensures
        query_code(MembershipProtocol::Igmpv3, s) matches Err(error) ==> {
            let header = s[0] % 16 * 4;
            match error {
                QueryValidationError::Truncated => s.len() < 36,
                QueryValidationError::WrongAddressFamily => s.len() > 0 && s[0] / 16 != 4,
                QueryValidationError::InvalidLength => s.len() != header + 12 || s[2] * 256 + s[3]
                    != s.len(),
                QueryValidationError::InvalidHeader => header < 24 || header > s.len() || s[8] != 1
                    || s[9] != 2 || s[6] % 64 != 0 || s[7] != 0 || !(s[16] == 224 && s[17] == 0
                    && s[18] == 0 && s[19] == 1) || !ipv4_router_alert_from(
                    s.subrange(20, header),
                    0,
                ),
                QueryValidationError::InvalidSource => 224 <= s[12] < 240 || (s[12] == 255 && s[13]
                    == 255 && s[14] == 255 && s[15] == 255),
                QueryValidationError::NotGeneralQuery => s[header] != 0x11 || s[header + 4] != 0
                    || s[header + 5] != 0 || s[header + 6] != 0 || s[header + 7] != 0 || s[header
                    + 10] != 0 || s[header + 11] != 0,
                QueryValidationError::InvalidChecksum => ones_sum(s.take(header)) != 0xffff
                    || ones_sum(s.skip(header)) != 0xffff,
            }
        },
        query_code(MembershipProtocol::Mldv2, s) matches Err(error) ==> match error {
            QueryValidationError::Truncated => s.len() < 76,
            QueryValidationError::WrongAddressFamily => s.len() > 0 && s[0] / 16 != 6,
            QueryValidationError::InvalidLength => s.len() != 76 || s[4] != 0 || s[5] != 36,
            QueryValidationError::InvalidHeader => s[6] != 0 || s[7] != 1 || s[40] != 58
                || !ipv6_router_alert_from(s.subrange(42, 48), 0) || !crate::net::spells(
                s,
                24,
                IpAddr::V6(Ipv6Addr { bits: 0xff02_0000_0000_0000_0000_0000_0000_0001 }),
            ),
            QueryValidationError::InvalidSource => s[8] == 255,
            QueryValidationError::NotGeneralQuery => s[48] != 130 || s[49] != 0
                || !crate::net::spells(s, 56, IpAddr::V6(Ipv6Addr { bits: 0 })) || s[74] != 0
                || s[75] != 0,
            QueryValidationError::InvalidChecksum => checksum_of(
                upper_layer_input(s.subrange(8, 24), s.subrange(24, 40), 58, s.skip(48)),
            ) != 0,
        },
{
    if s.len() >= 36 && s[0] / 16 == 4 {
        lemma_igmpv3_query_fields(s);
    }
    if s.len() >= 76 && s[0] / 16 == 6 {
        lemma_mldv2_query_fields(s);
    }
}

proof fn lemma_igmpv3_query_fields(s: Seq<u8>)
    requires
        s.len() >= 36,
    ensures
        ipv4_at(s, 12).multicast_spec() ==> 224 <= s[12] < 240,
        ipv4_at(s, 12).broadcast_spec() ==> s[12] == 255 && s[13] == 255 && s[14] == 255 && s[15]
            == 255,
        s[16] == 224 && s[17] == 0 && s[18] == 0 && s[19] == 1 ==> ipv4_at(s, 16).bits
            == ALL_SYSTEMS_V4_BITS,
        u16_at(s, 6) % 0x4000 != 0 ==> s[6] % 64 != 0 || s[7] != 0,
{
    crate::net::law_addresses_are_read_in_network_order(s, 12);
    crate::net::law_addresses_are_read_in_network_order(s, 16);
}

proof fn lemma_mldv2_query_fields(s: Seq<u8>)
    requires
        s.len() >= 76,
    ensures
        ipv6_at(s, 8).multicast_spec() ==> s[8] == 255,
        crate::net::spells(
            s,
            24,
            IpAddr::V6(Ipv6Addr { bits: 0xff02_0000_0000_0000_0000_0000_0000_0001 }),
        ) ==> ipv6_at(s, 24).bits == ALL_NODES_V6_BITS,
        s.len() == 76 && crate::net::spells(s, 56, IpAddr::V6(Ipv6Addr { bits: 0 })) ==> ipv6_at(
            s.skip(48),
            8,
        ).bits == 0,
{
    crate::net::law_first_octets_are_the_highest(s, 8);
    crate::net::law_addresses_are_spelled_by_their_octets(s, 24, IpAddr::V6(ipv6_at(s, 24)));
    if crate::net::spells(
        s,
        24,
        IpAddr::V6(Ipv6Addr { bits: 0xff02_0000_0000_0000_0000_0000_0000_0001 }),
    ) {
        crate::net::law_spelling_is_unique(
            s,
            24,
            ipv6_at(s, 24),
            Ipv6Addr { bits: 0xff02_0000_0000_0000_0000_0000_0000_0001 },
        );
    }
    crate::net::law_addresses_are_spelled_by_their_octets(s, 56, IpAddr::V6(ipv6_at(s, 56)));
    if crate::net::spells(s, 56, IpAddr::V6(Ipv6Addr { bits: 0 })) {
        crate::net::law_spelling_is_unique(s, 56, ipv6_at(s, 56), Ipv6Addr { bits: 0 });
        assert(s.skip(48).subrange(8, 24) =~= s.subrange(56, 72));
    }
}

} // verus!
