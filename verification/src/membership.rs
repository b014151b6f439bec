//! IGMP and MLD membership reports.

use crate::bytes::{append_bytes, append_u16, read_u16_at, u16_at, u16_bytes};
use crate::checksum::{
    checksum, checksum_of, lemma_stored_checksum_verifies,
    lemma_stored_upper_layer_checksum_verifies, ones_complement_sum, ones_sum,
    upper_layer_checksum, upper_layer_input, with_word,
};
use crate::ecn::set_word;
use crate::ip::{has_ipv6_router_alert, ip_version, ipv4_header_len, ipv6_router_alert_from};
use crate::net::{append_ip, append_ipv4, append_ipv6, ip_octets, ipv4_at, ipv4_octets, ipv6_at};
use crate::net::{ipv6_octets, read_ipv4, read_ipv6, same_family, same_family_spec, IpAddr};
use crate::net::{
    law_addresses_are_spelled_by_their_octets, law_first_octets_are_the_highest, spells, Ipv4Addr,
    Ipv6Addr,
};
use crate::protocol::MembershipProtocol;
use vstd::prelude::*;
use vstd::slice::slice_subrange;

verus! {

/// `224.0.0.22`, where IGMPv3 reports go.
pub const IGMPV3_REPORT_DESTINATION_BITS: u32 = 0xe000_0016;

/// `ff02::16`, where MLDv2 reports go.
pub const MLDV2_REPORT_DESTINATION_BITS: u128 = 0xff02_0000_0000_0000_0000_0000_0000_0016;

/// A membership report: one record for each group it speaks of.
#[derive(Debug, PartialEq, Eq)]
pub struct MembershipReport {
    pub protocol: MembershipProtocol,
    pub records: Vec<MembershipRecord>,
}

/// What a report says of one group.
#[derive(Debug, PartialEq, Eq)]
pub struct MembershipRecord {
    pub kind: MembershipRecordKind,
    pub group: IpAddr,
    pub sources: Vec<IpAddr>,
}

#[derive(Debug, Clone, Copy, PartialEq, Eq, Structural)]
pub enum MembershipRecordKind {
    ModeIsInclude,
    ModeIsExclude,
    ChangeToInclude,
    ChangeToExclude,
    AllowNewSources,
    BlockOldSources,
    LegacyReport,
    LegacyLeave,
}

/// A [`MembershipRecord`] with its sources as a sequence.
#[verifier::ext_equal]
pub struct RecordModel {
    pub kind: MembershipRecordKind,
    pub group: IpAddr,
    pub sources: Seq<IpAddr>,
}

/// A [`MembershipReport`] with its records as a sequence.
#[verifier::ext_equal]
pub struct ReportModel {
    pub protocol: MembershipProtocol,
    pub records: Seq<RecordModel>,
}

impl View for MembershipRecord {
    type V = RecordModel;

    open spec fn view(&self) -> RecordModel {
        RecordModel { kind: self.kind, group: self.group, sources: self.sources@ }
    }
}

/// Records by what they say.
pub open spec fn record_models(records: Seq<MembershipRecord>) -> Seq<RecordModel> {
    records.map_values(|record: MembershipRecord| record@)
}

impl View for MembershipReport {
    type V = ReportModel;

    open spec fn view(&self) -> ReportModel {
        ReportModel { protocol: self.protocol, records: record_models(self.records@) }
    }
}

/// Copies a list of addresses.
pub fn copy_addresses(addresses: &Vec<IpAddr>) -> (copy: Vec<IpAddr>)
    ensures
        copy@ == addresses@,
{
    let mut copy: Vec<IpAddr> = Vec::with_capacity(addresses.len());
    let mut i: usize = 0;
    while i < addresses.len()
        invariant
            i <= addresses@.len(),
            copy@ == addresses@.take(i as int),
        decreases addresses@.len() - i,
    {
        copy.push(addresses[i]);
        i += 1;
        proof {
            assert(copy@ =~= addresses@.take(i as int));
        }
    }
    proof {
        assert(addresses@.take(addresses@.len() as int) =~= addresses@);
    }
    copy
}

impl Clone for MembershipRecord {
    fn clone(&self) -> (copy: Self)
        ensures
            copy@ == self@,
    {
        MembershipRecord {
            kind: self.kind,
            group: self.group,
            sources: copy_addresses(&self.sources),
        }
    }
}

impl Clone for MembershipReport {
    fn clone(&self) -> (copy: Self)
        ensures
            copy@ == self@,
    {
        let mut records: Vec<MembershipRecord> = Vec::with_capacity(self.records.len());
        let mut i: usize = 0;
        while i < self.records.len()
            invariant
                i <= self.records@.len(),
                record_models(records@) == record_models(self.records@).take(i as int),
            decreases self.records@.len() - i,
        {
            let ghost before = records@;
            records.push(self.records[i].clone());
            i += 1;
            proof {
                assert(record_models(records@) =~= record_models(before).push(
                    records@.last()@,
                ));
                assert(record_models(records@) =~= record_models(self.records@).take(i as int));
            }
        }
        proof {
            assert(record_models(records@) =~= record_models(self.records@));
        }
        MembershipReport { protocol: self.protocol, records }
    }
}

/// How many records a report, and how many sources a record, may have.
#[derive(Debug, Clone, Copy, PartialEq, Eq, Structural)]
pub struct MembershipParseLimits {
    pub max_records: usize,
    pub max_sources_per_record: usize,
}

/// Why a packet is not a membership report.
#[allow(inconsistent_fields)]
#[derive(Debug, Clone, Copy, PartialEq, Eq)]
pub enum MembershipParseError {
    Truncated { context: &'static str, expected_at_least: usize, actual: usize },
    InvalidIpVersion(u8),
    InvalidIpv4HeaderLength(usize),
    InvalidTotalLength { total_length: usize, available: usize },
    InvalidProtocol { expected: u8, actual: u8 },
    InvalidChecksum(&'static str),
    MissingIpv6RouterAlert,
    UnsupportedMembershipMessage(u8),
    UnknownRecordType(u8),
    InvalidMulticastGroup(IpAddr),
    MixedAddressFamilies,
    /// More records than the limits allow.
    TooManyRecords { limit: usize, actual: usize },
    /// More sources in one record than the limits allow.
    TooManySources { limit: usize, actual: usize },
}

/// What a [`MembershipParseError`] says, with its texts as sequences.
#[allow(inconsistent_fields)]
pub enum ParseErrorModel {
    Truncated { context: Seq<char>, expected_at_least: int, actual: int },
    InvalidIpVersion(u8),
    InvalidIpv4HeaderLength(int),
    InvalidTotalLength { total_length: int, available: int },
    InvalidProtocol { expected: u8, actual: u8 },
    InvalidChecksum(Seq<char>),
    MissingIpv6RouterAlert,
    UnsupportedMembershipMessage(u8),
    UnknownRecordType(u8),
    InvalidMulticastGroup(IpAddr),
    MixedAddressFamilies,
    TooManyRecords { limit: int, actual: int },
    TooManySources { limit: int, actual: int },
}

impl View for MembershipParseError {
    type V = ParseErrorModel;

    open spec fn view(&self) -> ParseErrorModel {
        match *self {
            MembershipParseError::Truncated { context, expected_at_least, actual } => {
                ParseErrorModel::Truncated {
                    context: context@,
                    expected_at_least: expected_at_least as int,
                    actual: actual as int,
                }
            },
            MembershipParseError::InvalidIpVersion(version) => ParseErrorModel::InvalidIpVersion(
                version,
            ),
            MembershipParseError::InvalidIpv4HeaderLength(length) => {
                ParseErrorModel::InvalidIpv4HeaderLength(length as int)
            },
            MembershipParseError::InvalidTotalLength { total_length, available } => {
                ParseErrorModel::InvalidTotalLength {
                    total_length: total_length as int,
                    available: available as int,
                }
            },
            MembershipParseError::InvalidProtocol { expected, actual } => {
                ParseErrorModel::InvalidProtocol { expected, actual }
            },
            MembershipParseError::InvalidChecksum(context) => ParseErrorModel::InvalidChecksum(
                context@,
            ),
            MembershipParseError::MissingIpv6RouterAlert => ParseErrorModel::MissingIpv6RouterAlert,
            MembershipParseError::UnsupportedMembershipMessage(kind) => {
                ParseErrorModel::UnsupportedMembershipMessage(kind)
            },
            MembershipParseError::UnknownRecordType(kind) => ParseErrorModel::UnknownRecordType(
                kind,
            ),
            MembershipParseError::InvalidMulticastGroup(group) => {
                ParseErrorModel::InvalidMulticastGroup(group)
            },
            MembershipParseError::MixedAddressFamilies => ParseErrorModel::MixedAddressFamilies,
            MembershipParseError::TooManyRecords { limit, actual } => {
                ParseErrorModel::TooManyRecords { limit: limit as int, actual: actual as int }
            },
            MembershipParseError::TooManySources { limit, actual } => {
                ParseErrorModel::TooManySources { limit: limit as int, actual: actual as int }
            },
        }
    }
}

/// Why records cannot be written as a report.
#[derive(Debug, Clone, Copy, PartialEq, Eq, Structural)]
pub enum MembershipBuildError {
    EmptyReport,
    TooManyRecords(usize),
    TooManySources(usize),
    PacketTooLong(usize),
    UnsupportedRecordKind(MembershipRecordKind),
    InvalidMulticastGroup(IpAddr),
    MixedAddressFamilies,
    ProtocolAddressFamilyMismatch { protocol: MembershipProtocol, group: IpAddr },
}

/// The length of an address of the family that a protocol reports on.
pub open spec fn address_width(protocol: MembershipProtocol) -> int {
    match protocol {
        MembershipProtocol::Igmpv3 => 4,
        MembershipProtocol::Mldv2 => 16,
    }
}

/// The address at `at`, of the family that the protocol reports on.
pub open spec fn address_at(protocol: MembershipProtocol, s: Seq<u8>, at: int) -> IpAddr {
    match protocol {
        MembershipProtocol::Igmpv3 => IpAddr::V4(ipv4_at(s, at)),
        MembershipProtocol::Mldv2 => IpAddr::V6(ipv6_at(s, at)),
    }
}

/// What a record of the protocol is called where it is cut short.
pub open spec fn record_context(protocol: MembershipProtocol) -> Seq<char> {
    match protocol {
        MembershipProtocol::Igmpv3 => "IGMPv3 group record"@,
        MembershipProtocol::Mldv2 => "MLDv2 multicast address record"@,
    }
}

/// The record kind with the given type value.
pub open spec fn kind_of(value: u8) -> Option<MembershipRecordKind> {
    if value == 1 {
        Some(MembershipRecordKind::ModeIsInclude)
    } else if value == 2 {
        Some(MembershipRecordKind::ModeIsExclude)
    } else if value == 3 {
        Some(MembershipRecordKind::ChangeToInclude)
    } else if value == 4 {
        Some(MembershipRecordKind::ChangeToExclude)
    } else if value == 5 {
        Some(MembershipRecordKind::AllowNewSources)
    } else if value == 6 {
        Some(MembershipRecordKind::BlockOldSources)
    } else {
        None
    }
}

/// The type value of a record kind, if it has one.
pub open spec fn kind_value(kind: MembershipRecordKind) -> Option<u8> {
    match kind {
        MembershipRecordKind::ModeIsInclude => Some(1),
        MembershipRecordKind::ModeIsExclude => Some(2),
        MembershipRecordKind::ChangeToInclude => Some(3),
        MembershipRecordKind::ChangeToExclude => Some(4),
        MembershipRecordKind::AllowNewSources => Some(5),
        MembershipRecordKind::BlockOldSources => Some(6),
        _ => None,
    }
}

/// Whether every source is an address of the group's family that is not
/// multicast.
pub open spec fn sources_fit(group: IpAddr, sources: Seq<IpAddr>) -> bool {
    forall|i: int|
        0 <= i < sources.len() ==> same_family_spec(group, #[trigger] sources[i])
            && !sources[i].multicast_spec()
}

/// What is wrong with a group and its sources, if anything.
pub open spec fn record_error(group: IpAddr, sources: Seq<IpAddr>) -> Option<ParseErrorModel> {
    if !group.multicast_spec() {
        Some(ParseErrorModel::InvalidMulticastGroup(group))
    } else if !sources_fit(group, sources) {
        Some(ParseErrorModel::MixedAddressFamilies)
    } else {
        None
    }
}

pub open spec fn truncated(context: Seq<char>, expected_at_least: int, actual: int) -> ParseErrorModel {
    ParseErrorModel::Truncated { context, expected_at_least, actual }
}

/// The length of the record at `offset`: a fixed part with the group, the
/// sources and auxiliary words.
pub open spec fn record_len(protocol: MembershipProtocol, s: Seq<u8>, offset: int) -> int {
    let width = address_width(protocol);
    4 + width + u16_at(s, offset + 2) * width + s[offset + 1] * 4
}

/// The sources of the record at `offset`.
pub open spec fn record_sources(protocol: MembershipProtocol, s: Seq<u8>, offset: int) -> Seq<
    IpAddr,
> {
    let width = address_width(protocol);
    Seq::new(
        u16_at(s, offset + 2) as nat,
        |i: int| address_at(protocol, s, offset + 4 + width + i * width),
    )
}

/// The record at `offset`, or why there is none.
#[verifier::opaque]
pub open spec fn record_at(
    protocol: MembershipProtocol,
    s: Seq<u8>,
    offset: int,
    max_sources: int,
) -> Result<RecordModel, ParseErrorModel> {
    let width = address_width(protocol);
    let rest = s.len() - offset;
    let group = address_at(protocol, s, offset + 4);
    let sources = record_sources(protocol, s, offset);
    if rest < 4 + width {
        Err(truncated(record_context(protocol), 4 + width, rest))
    } else {
        match kind_of(s[offset]) {
            None => Err(ParseErrorModel::UnknownRecordType(s[offset])),
            Some(kind) => if u16_at(s, offset + 2) > max_sources {
                Err(
                    ParseErrorModel::TooManySources {
                        limit: max_sources,
                        actual: u16_at(s, offset + 2),
                    },
                )
            } else if rest < record_len(protocol, s, offset) {
                Err(truncated(record_context(protocol), record_len(protocol, s, offset), rest))
            } else {
                match record_error(group, sources) {
                    Some(error) => Err(error),
                    None => Ok(RecordModel { kind, group, sources }),
                }
            },
        }
    }
}

/// The first `count` records of a message and where they end, or the first
/// error among them.
pub open spec fn records_upto(
    protocol: MembershipProtocol,
    s: Seq<u8>,
    count: nat,
    max_sources: int,
) -> Result<(Seq<RecordModel>, int), ParseErrorModel>
    decreases count,
{
    if count == 0 {
        Ok((Seq::empty(), 8))
    } else {
        match records_upto(protocol, s, (count - 1) as nat, max_sources) {
            Err(error) => Err(error),
            Ok((records, offset)) => match record_at(protocol, s, offset, max_sources) {
                Err(error) => Err(error),
                Ok(record) => Ok(
                    (records.push(record), offset + record_len(protocol, s, offset)),
                ),
            },
        }
    }
}

/// The records of a version 3 (IGMP) or version 2 (MLD) report message.
pub open spec fn message_records(
    protocol: MembershipProtocol,
    s: Seq<u8>,
    limits: MembershipParseLimits,
) -> Result<Seq<RecordModel>, ParseErrorModel> {
    if u16_at(s, 6) > limits.max_records {
        Err(
            ParseErrorModel::TooManyRecords {
                limit: limits.max_records as int,
                actual: u16_at(s, 6),
            },
        )
    } else {
        match records_upto(
            protocol,
            s,
            u16_at(s, 6) as nat,
            limits.max_sources_per_record as int,
        ) {
            Err(error) => Err(error),
            Ok((records, _)) => Ok(records),
        }
    }
}

/// The one record of a message of an earlier protocol version.
pub open spec fn legacy_records(kind: MembershipRecordKind, group: IpAddr) -> Result<
    Seq<RecordModel>,
    ParseErrorModel,
> {
    if group.multicast_spec() {
        Ok(seq![RecordModel { kind, group, sources: Seq::empty() }])
    } else {
        Err(ParseErrorModel::InvalidMulticastGroup(group))
    }
}

/// The records of an IGMP message.
pub open spec fn igmp_records(s: Seq<u8>, limits: MembershipParseLimits) -> Result<
    Seq<RecordModel>,
    ParseErrorModel,
> {
    if s.len() < 8 {
        Err(truncated("IGMP message"@, 8, s.len() as int))
    } else if ones_sum(s) != 0xffff {
        Err(ParseErrorModel::InvalidChecksum("IGMP"@))
    } else if s[0] == 0x12 || s[0] == 0x16 {
        legacy_records(MembershipRecordKind::LegacyReport, IpAddr::V4(ipv4_at(s, 4)))
    } else if s[0] == 0x17 {
        legacy_records(MembershipRecordKind::LegacyLeave, IpAddr::V4(ipv4_at(s, 4)))
    } else if s[0] == 0x22 {
        message_records(MembershipProtocol::Igmpv3, s, limits)
    } else {
        Err(ParseErrorModel::UnsupportedMembershipMessage(s[0]))
    }
}

/// The records of an MLD message sent from `source` to `destination`.
pub open spec fn mld_records(
    source: Seq<u8>,
    destination: Seq<u8>,
    s: Seq<u8>,
    limits: MembershipParseLimits,
) -> Result<Seq<RecordModel>, ParseErrorModel> {
    if s.len() < 8 {
        Err(truncated("MLD message"@, 8, s.len() as int))
    } else if checksum_of(upper_layer_input(source, destination, 58, s)) != 0 {
        Err(ParseErrorModel::InvalidChecksum("ICMPv6"@))
    } else if s[0] == 131 {
        if s.len() < 24 {
            Err(truncated("MLDv1 Listener Report"@, 24, s.len() as int))
        } else {
            legacy_records(MembershipRecordKind::LegacyReport, IpAddr::V6(ipv6_at(s, 8)))
        }
    } else if s[0] == 132 {
        if s.len() < 24 {
            Err(truncated("MLDv1 Listener Done"@, 24, s.len() as int))
        } else {
            legacy_records(MembershipRecordKind::LegacyLeave, IpAddr::V6(ipv6_at(s, 8)))
        }
    } else if s[0] == 143 {
        message_records(MembershipProtocol::Mldv2, s, limits)
    } else {
        Err(ParseErrorModel::UnsupportedMembershipMessage(s[0]))
    }
}

/// The records of an IPv4 packet.
pub open spec fn ipv4_records(s: Seq<u8>, limits: MembershipParseLimits) -> Result<
    Seq<RecordModel>,
    ParseErrorModel,
> {
    let header_len = ipv4_header_len(s);
    if s.len() < 20 {
        Err(truncated("IPv4 header"@, 20, s.len() as int))
    } else if header_len < 20 {
        Err(ParseErrorModel::InvalidIpv4HeaderLength(header_len))
    } else if s.len() < header_len {
        Err(truncated("IPv4 header"@, header_len, s.len() as int))
    } else if u16_at(s, 2) < header_len || u16_at(s, 2) > s.len() {
        Err(
            ParseErrorModel::InvalidTotalLength {
                total_length: u16_at(s, 2),
                available: s.len() as int,
            },
        )
    } else if s[9] != 2 {
        Err(ParseErrorModel::InvalidProtocol { expected: 2, actual: s[9] })
    } else if ones_sum(s.take(header_len)) != 0xffff {
        Err(ParseErrorModel::InvalidChecksum("IPv4 header"@))
    } else {
        igmp_records(s.subrange(header_len, u16_at(s, 2)), limits)
    }
}

/// The length of the hop-by-hop header that follows the IPv6 header.
pub open spec fn hop_by_hop_len(s: Seq<u8>) -> int {
    (s[41] + 1) * 8
}

/// The records of an IPv6 packet.
pub open spec fn ipv6_records(s: Seq<u8>, limits: MembershipParseLimits) -> Result<
    Seq<RecordModel>,
    ParseErrorModel,
> {
    let end = 40 + u16_at(s, 4);
    if s.len() < 40 {
        Err(truncated("IPv6 header"@, 40, s.len() as int))
    } else if end > s.len() {
        Err(
            ParseErrorModel::InvalidTotalLength {
                total_length: end,
                available: s.len() as int,
            },
        )
    } else if s[7] != 1 {
        Err(ParseErrorModel::InvalidProtocol { expected: 1, actual: s[7] })
    } else if s[6] != 0 {
        Err(ParseErrorModel::MissingIpv6RouterAlert)
    } else if end < 48 {
        Err(truncated("IPv6 hop-by-hop header"@, 8, end - 40))
    } else if end < 40 + hop_by_hop_len(s) {
        Err(truncated("IPv6 hop-by-hop header"@, hop_by_hop_len(s), end - 40))
    } else if !ipv6_router_alert_from(s.subrange(42, 40 + hop_by_hop_len(s)), 0) {
        Err(ParseErrorModel::MissingIpv6RouterAlert)
    } else if s[40] != 58 {
        Err(ParseErrorModel::InvalidProtocol { expected: 58, actual: s[40] })
    } else {
        mld_records(
            s.subrange(8, 24),
            s.subrange(24, 40),
            s.subrange(40 + hop_by_hop_len(s), end),
            limits,
        )
    }
}

/// The membership report that an IP packet carries, or why it carries none.
pub open spec fn packet_report(s: Seq<u8>, limits: MembershipParseLimits) -> Result<
    ReportModel,
    ParseErrorModel,
> {
    if s.len() == 0 {
        Err(truncated("IP packet"@, 1, 0))
    } else if ip_version(s) == 4 {
        match ipv4_records(s, limits) {
            Ok(records) => Ok(ReportModel { protocol: MembershipProtocol::Igmpv3, records }),
            Err(error) => Err(error),
        }
    } else if ip_version(s) == 6 {
        match ipv6_records(s, limits) {
            Ok(records) => Ok(ReportModel { protocol: MembershipProtocol::Mldv2, records }),
            Err(error) => Err(error),
        }
    } else {
        Err(ParseErrorModel::InvalidIpVersion(ip_version(s) as u8))
    }
}

/// Limits that nothing exceeds.
pub open spec fn no_limits() -> MembershipParseLimits {
    MembershipParseLimits { max_records: usize::MAX, max_sources_per_record: usize::MAX }
}

/// A parse result in terms of what it says.
pub open spec fn report_result(
    result: Result<MembershipReport, MembershipParseError>,
) -> Result<ReportModel, ParseErrorModel> {
    match result {
        Ok(report) => Ok(report@),
        Err(error) => Err(error@),
    }
}

pub open spec fn records_result(
    result: Result<Vec<MembershipRecord>, MembershipParseError>,
) -> Result<Seq<RecordModel>, ParseErrorModel> {
    match result {
        Ok(records) => Ok(record_models(records@)),
        Err(error) => Err(error@),
    }
}

/// Reads the membership report that an IP packet carries.
pub fn parse_membership_report(packet: &[u8]) -> (result: Result<
    MembershipReport,
    MembershipParseError,
>)
    ensures
        report_result(result) == packet_report(packet@, no_limits()),
{
    parse_membership_report_with_limits(
        packet,
        MembershipParseLimits { max_records: usize::MAX, max_sources_per_record: usize::MAX },
    )
}

/// Reads the membership report that an IP packet carries, refusing one that
/// exceeds the limits before any of its sources is read.
pub fn parse_membership_report_with_limits(
    packet: &[u8],
    limits: MembershipParseLimits,
) -> (result: Result<MembershipReport, MembershipParseError>)
    ensures
        report_result(result) == packet_report(packet@, limits),
{
    if packet.len() == 0 {
        return Err(
            MembershipParseError::Truncated {
                context: "IP packet",
                expected_at_least: 1,
                actual: 0,
            },
        );
    }
    match packet[0] / 16 {
        4 => match parse_ipv4_membership_report(packet, limits) {
            Ok(records) => Ok(
                MembershipReport { protocol: MembershipProtocol::Igmpv3, records },
            ),
            Err(error) => Err(error),
        },
        6 => match parse_ipv6_membership_report(packet, limits) {
            Ok(records) => Ok(MembershipReport { protocol: MembershipProtocol::Mldv2, records }),
            Err(error) => Err(error),
        },
        version => Err(MembershipParseError::InvalidIpVersion(version)),
    }
}

fn require_len(context: &'static str, actual: usize, expected_at_least: usize) -> (result: Result<
    (),
    MembershipParseError,
>)
    ensures
        match result {
            Ok(()) => actual >= expected_at_least,
            Err(error) => actual < expected_at_least && error@ == truncated(
                context@,
                expected_at_least as int,
                actual as int,
            ),
        },
{
    if actual < expected_at_least {
        Err(MembershipParseError::Truncated { context, expected_at_least, actual })
    } else {
        Ok(())
    }
}

fn parse_ipv4_membership_report(packet: &[u8], limits: MembershipParseLimits) -> (result: Result<
    Vec<MembershipRecord>,
    MembershipParseError,
>)
    requires
        packet@.len() > 0,
    ensures
        records_result(result) == ipv4_records(packet@, limits),
{
    if let Err(error) = require_len("IPv4 header", packet.len(), 20) {
        return Err(error);
    }
    let ihl: usize = (packet[0] % 16) as usize * 4;
    if ihl < 20 {
        return Err(MembershipParseError::InvalidIpv4HeaderLength(ihl));
    }
    if let Err(error) = require_len("IPv4 header", packet.len(), ihl) {
        return Err(error);
    }
    let total_len: usize = read_u16_at(packet, 2) as usize;
    if total_len < ihl || total_len > packet.len() {
        return Err(
            MembershipParseError::InvalidTotalLength {
                total_length: total_len,
                available: packet.len(),
            },
        );
    }
    if packet[9] != 2 {
        return Err(MembershipParseError::InvalidProtocol { expected: 2, actual: packet[9] });
    }
    proof {
        assert(packet@.subrange(0, ihl as int) =~= packet@.take(ihl as int));
    }
    if ones_complement_sum(slice_subrange(packet, 0, ihl)) != 0xffff {
        return Err(MembershipParseError::InvalidChecksum("IPv4 header"));
    }
    let igmp = slice_subrange(packet, ihl, total_len);
    if let Err(error) = require_len("IGMP message", igmp.len(), 8) {
        return Err(error);
    }
    if ones_complement_sum(igmp) != 0xffff {
        return Err(MembershipParseError::InvalidChecksum("IGMP"));
    }
    match igmp[0] {
        0x12 | 0x16 => legacy_record(
            MembershipRecordKind::LegacyReport,
            IpAddr::V4(read_ipv4(igmp, 4)),
        ),
        0x17 => legacy_record(MembershipRecordKind::LegacyLeave, IpAddr::V4(read_ipv4(igmp, 4))),
        0x22 => parse_records(MembershipProtocol::Igmpv3, igmp, limits),
        kind => Err(MembershipParseError::UnsupportedMembershipMessage(kind)),
    }
}

fn parse_ipv6_membership_report(packet: &[u8], limits: MembershipParseLimits) -> (result: Result<
    Vec<MembershipRecord>,
    MembershipParseError,
>)
    requires
        packet@.len() > 0,
    ensures
        records_result(result) == ipv6_records(packet@, limits),
{
    if let Err(error) = require_len("IPv6 header", packet.len(), 40) {
        return Err(error);
    }
    let total_len: usize = 40 + read_u16_at(packet, 4) as usize;
    if total_len > packet.len() {
        return Err(
            MembershipParseError::InvalidTotalLength {
                total_length: total_len,
                available: packet.len(),
            },
        );
    }
    if packet[7] != 1 {
        return Err(MembershipParseError::InvalidProtocol { expected: 1, actual: packet[7] });
    }
    let source = read_ipv6(packet, 8);
    let destination = read_ipv6(packet, 24);
    proof {
        crate::net::lemma_ipv6_of_octets(packet@.subrange(8, 24));
        crate::net::lemma_ipv6_of_octets(packet@.subrange(24, 40));
    }
    // Only the hop-by-hop header can hold the Router Alert.
    if packet[6] != 0 {
        return Err(MembershipParseError::MissingIpv6RouterAlert);
    }
    if let Err(error) = require_len("IPv6 hop-by-hop header", total_len - 40, 8) {
        return Err(error);
    }
    let next_header: u8 = packet[40];
    let extension_len: usize = (packet[41] as usize + 1) * 8;
    if let Err(error) = require_len("IPv6 hop-by-hop header", total_len - 40, extension_len) {
        return Err(error);
    }
    if !has_ipv6_router_alert(slice_subrange(packet, 42, 40 + extension_len)) {
        return Err(MembershipParseError::MissingIpv6RouterAlert);
    }
    if next_header != 58 {
        return Err(MembershipParseError::InvalidProtocol { expected: 58, actual: next_header });
    }
    let mld = slice_subrange(packet, 40 + extension_len, total_len);
    if let Err(error) = require_len("MLD message", mld.len(), 8) {
        return Err(error);
    }
    if upper_layer_checksum(&source.octets(), &destination.octets(), 58, mld) != 0 {
        return Err(MembershipParseError::InvalidChecksum("ICMPv6"));
    }
    match mld[0] {
        131 => {
            if let Err(error) = require_len("MLDv1 Listener Report", mld.len(), 24) {
                return Err(error);
            }
            legacy_record(MembershipRecordKind::LegacyReport, IpAddr::V6(read_ipv6(mld, 8)))
        },
        132 => {
            if let Err(error) = require_len("MLDv1 Listener Done", mld.len(), 24) {
                return Err(error);
            }
            legacy_record(MembershipRecordKind::LegacyLeave, IpAddr::V6(read_ipv6(mld, 8)))
        },
        143 => parse_records(MembershipProtocol::Mldv2, mld, limits),
        kind => Err(MembershipParseError::UnsupportedMembershipMessage(kind)),
    }
}

proof fn lemma_first_error_stays(
    protocol: MembershipProtocol,
    s: Seq<u8>,
    early: nat,
    late: nat,
    max_sources: int,
)
    requires
        early <= late,
        records_upto(protocol, s, early, max_sources) is Err,
    ensures
        records_upto(protocol, s, late, max_sources) == records_upto(
            protocol,
            s,
            early,
            max_sources,
        ),
    decreases late,
{
    if early < late {
        lemma_first_error_stays(protocol, s, early, (late - 1) as nat, max_sources);
    }
}

fn read_address(protocol: MembershipProtocol, s: &[u8], at: usize) -> (address: IpAddr)
    requires
        at + address_width(protocol) <= s@.len(),
    ensures
        address == address_at(protocol, s@, at as int),
{
    match protocol {
        MembershipProtocol::Igmpv3 => IpAddr::V4(read_ipv4(s, at)),
        MembershipProtocol::Mldv2 => IpAddr::V6(read_ipv6(s, at)),
    }
}

/// Reads the records of a report message that has passed its checksum.
fn parse_records(
    protocol: MembershipProtocol,
    message: &[u8],
    limits: MembershipParseLimits,
) -> (result: Result<Vec<MembershipRecord>, MembershipParseError>)
    requires
        message@.len() >= 8,
    ensures
        records_result(result) == message_records(protocol, message@, limits),
{
    let length: usize = message.len();
    let count: usize = read_u16_at(message, 6) as usize;
    if count > limits.max_records {
        return Err(
            MembershipParseError::TooManyRecords { limit: limits.max_records, actual: count },
        );
    }
    let mut records: Vec<MembershipRecord> = Vec::new();
    let mut offset: usize = 8;
    let mut done: usize = 0;
    let ghost max_sources = limits.max_sources_per_record as int;
    proof {
        assert(record_models(records@) =~= Seq::empty());
    }
    while done < count
        invariant
            length == message@.len(),
            count == u16_at(message@, 6),
            count <= limits.max_records,
            max_sources == limits.max_sources_per_record,
            done <= count,
            8 <= offset <= length,
            records_upto(protocol, message@, done as nat, max_sources) == Ok::<
                (Seq<RecordModel>, int),
                ParseErrorModel,
            >((record_models(records@), offset as int)),
        decreases count - done,
    {
        let ghost before = records@;
        match parse_record(protocol, message, offset, limits.max_sources_per_record) {
            Ok((record, next)) => {
                records.push(record);
                offset = next;
                done += 1;
                proof {
                    assert(record_models(records@) =~= record_models(before).push(record@));
                }
            },
            Err(error) => {
                proof {
                    lemma_first_error_stays(
                        protocol,
                        message@,
                        (done + 1) as nat,
                        count as nat,
                        max_sources,
                    );
                }
                return Err(error);
            },
        }
    }
    Ok(records)
}

fn parse_record(
    protocol: MembershipProtocol,
    message: &[u8],
    offset: usize,
    max_sources: usize,
) -> (result: Result<(MembershipRecord, usize), MembershipParseError>)
    requires
        offset <= message@.len(),
    ensures
        match result {
            Ok((record, next)) => record_at(protocol, message@, offset as int, max_sources as int)
                == Ok::<RecordModel, ParseErrorModel>(record@) && next == offset + record_len(
                protocol,
                message@,
                offset as int,
            ) && next <= message@.len(),
            Err(error) => record_at(protocol, message@, offset as int, max_sources as int) == Err::<
                RecordModel,
                ParseErrorModel,
            >(error@),
        },
{
    proof {
        reveal(record_at);
    }
    let width: usize = match protocol {
        MembershipProtocol::Igmpv3 => 4,
        MembershipProtocol::Mldv2 => 16,
    };
    let context: &'static str = match protocol {
        MembershipProtocol::Igmpv3 => "IGMPv3 group record",
        MembershipProtocol::Mldv2 => "MLDv2 multicast address record",
    };
    let rest: usize = message.len() - offset;
    if let Err(error) = require_len(context, rest, 4 + width) {
        return Err(error);
    }
    let kind = match record_kind(message[offset]) {
        Ok(kind) => kind,
        Err(error) => return Err(error),
    };
    let aux_len: usize = message[offset + 1] as usize * 4;
    let source_count: usize = read_u16_at(message, offset + 2) as usize;
    if source_count > max_sources {
        return Err(
            MembershipParseError::TooManySources { limit: max_sources, actual: source_count },
        );
    }
    let sources_len: usize = match protocol {
        MembershipProtocol::Igmpv3 => source_count * 4,
        MembershipProtocol::Mldv2 => source_count * 16,
    };
    let whole_len: usize = 4 + width + sources_len + aux_len;
    if let Err(error) = require_len(context, rest, whole_len) {
        return Err(error);
    }
    let group = read_address(protocol, message, offset + 4);
    let sources = read_sources(protocol, message, offset + 4 + width, source_count);
    proof {
        assert(sources@ =~= record_sources(protocol, message@, offset as int));
    }
    if let Err(error) = validate_record(group, &sources) {
        return Err(error);
    }
    Ok((MembershipRecord { kind, group, sources }, offset + whole_len))
}

fn read_sources(
    protocol: MembershipProtocol,
    message: &[u8],
    at: usize,
    count: usize,
) -> (sources: Vec<IpAddr>)
    requires
        count <= 65535,
        at + count * address_width(protocol) <= message@.len(),
    ensures
        sources@ == Seq::new(
            count as nat,
            |i: int| address_at(protocol, message@, at + i * address_width(protocol)),
        ),
{
    let length: usize = message.len();
    let mut sources: Vec<IpAddr> = Vec::with_capacity(count);
    let mut i: usize = 0;
    let mut cursor: usize = at;
    let width: usize = match protocol {
        MembershipProtocol::Igmpv3 => 4,
        MembershipProtocol::Mldv2 => 16,
    };
    while i < count
        invariant
            i <= count <= 65535,
            length == message@.len(),
            width == address_width(protocol),
            width == 4 || width == 16,
            at + count * width <= length,
            cursor == at + i * width,
            sources@.len() == i,
            forall|j: int|
                0 <= j < i ==> #[trigger] sources@[j] == address_at(
                    protocol,
                    message@,
                    at + j * address_width(protocol),
                ),
        decreases count - i,
    {
        assert((i + 1) * width <= count * width) by (nonlinear_arith)
            requires
                i + 1 <= count,
                width > 0,
        ;
        assert((i + 1) * width == i * width + width) by (nonlinear_arith);
        sources.push(read_address(protocol, message, cursor));
        cursor += width;
        i += 1;
    }
    proof {
        assert(sources@ =~= Seq::new(
            count as nat,
            |i: int| address_at(protocol, message@, at + i * address_width(protocol)),
        ));
    }
    sources
}

/// The record kind with the given type value.
pub fn record_kind(value: u8) -> (result: Result<MembershipRecordKind, MembershipParseError>)
    ensures
        match result {
            Ok(kind) => kind_of(value) == Some(kind),
            Err(error) => kind_of(value) is None && error@ == ParseErrorModel::UnknownRecordType(
                value,
            ),
        },
{
    match value {
        1 => Ok(MembershipRecordKind::ModeIsInclude),
        2 => Ok(MembershipRecordKind::ModeIsExclude),
        3 => Ok(MembershipRecordKind::ChangeToInclude),
        4 => Ok(MembershipRecordKind::ChangeToExclude),
        5 => Ok(MembershipRecordKind::AllowNewSources),
        6 => Ok(MembershipRecordKind::BlockOldSources),
        other => Err(MembershipParseError::UnknownRecordType(other)),
    }
}

fn legacy_record(kind: MembershipRecordKind, group: IpAddr) -> (result: Result<
    Vec<MembershipRecord>,
    MembershipParseError,
>)
    ensures
        records_result(result) == legacy_records(kind, group),
{
    let sources: Vec<IpAddr> = Vec::new();
    if let Err(error) = validate_record(group, &sources) {
        return Err(error);
    }
    let mut records: Vec<MembershipRecord> = Vec::new();
    records.push(MembershipRecord { kind, group, sources });
    proof {
        assert(record_models(records@) =~= seq![
            RecordModel { kind, group, sources: Seq::empty() },
        ]);
    }
    Ok(records)
}

fn all_sources_fit(group: IpAddr, sources: &Vec<IpAddr>) -> (fit: bool)
    ensures
        fit == sources_fit(group, sources@),
{
    let mut i: usize = 0;
    while i < sources.len()
        invariant
            i <= sources@.len(),
            forall|j: int|
                0 <= j < i ==> same_family_spec(group, #[trigger] sources@[j])
                    && !sources@[j].multicast_spec(),
        decreases sources@.len() - i,
    {
        let source = sources[i];
        if !same_family(group, source) || source.is_multicast() {
            return false;
        }
        i += 1;
    }
    true
}

fn validate_record(group: IpAddr, sources: &Vec<IpAddr>) -> (result: Result<
    (),
    MembershipParseError,
>)
    ensures
        match result {
            Ok(()) => record_error(group, sources@) is None,
            Err(error) => record_error(group, sources@) == Some(error@),
        },
{
    if !group.is_multicast() {
        return Err(MembershipParseError::InvalidMulticastGroup(group));
    }
    if !all_sources_fit(group, sources) {
        return Err(MembershipParseError::MixedAddressFamilies);
    }
    Ok(())
}

/// Why a record cannot be written in a report of the protocol, if it cannot.
pub open spec fn record_build_error(
    protocol: MembershipProtocol,
    record: RecordModel,
) -> Option<MembershipBuildError> {
    if kind_value(record.kind) is None {
        Some(MembershipBuildError::UnsupportedRecordKind(record.kind))
    } else if !record.group.multicast_spec() {
        Some(MembershipBuildError::InvalidMulticastGroup(record.group))
    } else if (protocol is Igmpv3) != (record.group is V4) {
        Some(
            MembershipBuildError::ProtocolAddressFamilyMismatch { protocol, group: record.group },
        )
    } else if record.sources.len() > 65535 {
        Some(MembershipBuildError::TooManySources(record.sources.len() as usize))
    } else if !sources_fit(record.group, record.sources) {
        Some(MembershipBuildError::MixedAddressFamilies)
    } else {
        None
    }
}

/// The error of the first of the records that cannot be written, if any.
pub open spec fn first_build_error(
    protocol: MembershipProtocol,
    records: Seq<RecordModel>,
) -> Option<MembershipBuildError>
    decreases records.len(),
{
    if records.len() == 0 {
        None
    } else {
        match first_build_error(protocol, records.drop_last()) {
            Some(error) => Some(error),
            None => record_build_error(protocol, records.last()),
        }
    }
}

/// The length of all records in a report of the protocol.
pub open spec fn records_len(protocol: MembershipProtocol, records: Seq<RecordModel>) -> int
    decreases records.len(),
{
    if records.len() == 0 {
        0
    } else {
        records_len(protocol, records.drop_last()) + 4 + address_width(protocol)
            + records.last().sources.len() * address_width(protocol)
    }
}

/// The octets of addresses, one after the other.
pub open spec fn addresses_bytes(addresses: Seq<IpAddr>) -> Seq<u8>
    decreases addresses.len(),
{
    if addresses.len() == 0 {
        Seq::empty()
    } else {
        addresses_bytes(addresses.drop_last()) + ip_octets(addresses.last())
    }
}

/// The wire form of one record, without auxiliary data.
pub open spec fn record_bytes(record: RecordModel) -> Seq<u8> {
    seq![kind_value(record.kind)->Some_0, 0u8] + u16_bytes(record.sources.len() as u16)
        + ip_octets(record.group) + addresses_bytes(record.sources)
}

/// The wire form of records, one after the other.
pub open spec fn records_bytes(records: Seq<RecordModel>) -> Seq<u8>
    decreases records.len(),
{
    if records.len() == 0 {
        Seq::empty()
    } else {
        records_bytes(records.drop_last()) + record_bytes(records.last())
    }
}

/// The message of a report with the given type value, with a zero checksum
/// field.
pub open spec fn report_message(kind: u8, records: Seq<RecordModel>) -> Seq<u8> {
    seq![kind, 0u8, 0u8, 0u8, 0u8, 0u8] + u16_bytes(records.len() as u16) + records_bytes(records)
}

/// The IPv4 header of an IGMPv3 report of `total_len` bytes, with a zero
/// checksum field.
pub open spec fn igmpv3_report_header(total_len: u16) -> Seq<u8> {
    seq![0x46u8, 0xc0u8] + u16_bytes(total_len) + seq![0u8, 0u8, 0u8, 0u8, 1u8, 2u8, 0u8, 0u8]
        + ipv4_octets(Ipv4Addr { bits: 0 }) + ipv4_octets(
        Ipv4Addr { bits: IGMPV3_REPORT_DESTINATION_BITS },
    ) + seq![0x94u8, 4u8, 0u8, 0u8]
}

/// An IGMPv3 report as a whole IPv4 datagram.
pub open spec fn igmpv3_report_bytes(records: Seq<RecordModel>) -> Seq<u8> {
    let message = report_message(0x22, records);
    let header = igmpv3_report_header((24 + message.len()) as u16);
    with_word(header, 10, checksum_of(header)) + with_word(message, 2, checksum_of(message))
}

/// The IPv6 header and hop-by-hop options of an MLDv2 report.
pub open spec fn mldv2_report_header(payload_len: u16) -> Seq<u8> {
    seq![0x60u8, 0u8, 0u8, 0u8] + u16_bytes(payload_len) + seq![0u8, 1u8] + ipv6_octets(
        Ipv6Addr { bits: 0 },
    ) + ipv6_octets(Ipv6Addr { bits: MLDV2_REPORT_DESTINATION_BITS }) + seq![
        58u8,
        0u8,
        5u8,
        2u8,
        0u8,
        0u8,
        1u8,
        0u8,
    ]
}

/// An MLDv2 report as a whole IPv6 datagram.
pub open spec fn mldv2_report_bytes(records: Seq<RecordModel>) -> Seq<u8> {
    let message = report_message(143, records);
    let sum = checksum_of(
        upper_layer_input(
            ipv6_octets(Ipv6Addr { bits: 0 }),
            ipv6_octets(Ipv6Addr { bits: MLDV2_REPORT_DESTINATION_BITS }),
            58,
            message,
        ),
    );
    mldv2_report_header((8 + message.len()) as u16) + with_word(message, 2, sum)
}

/// A length as a `usize`, cut off at the largest.
pub open spec fn clamp_len(length: int) -> usize {
    if length <= usize::MAX {
        length as usize
    } else {
        usize::MAX
    }
}

/// Why records cannot be written as a report of the protocol, if they cannot.
pub open spec fn build_error(
    protocol: MembershipProtocol,
    records: Seq<RecordModel>,
) -> Option<MembershipBuildError> {
    let length = 8 + records_len(protocol, records);
    if records.len() == 0 {
        Some(MembershipBuildError::EmptyReport)
    } else if records.len() > 65535 {
        Some(MembershipBuildError::TooManyRecords(records.len() as usize))
    } else if let Some(error) = first_build_error(protocol, records) {
        Some(error)
    } else {
        match protocol {
            MembershipProtocol::Igmpv3 => if 24 + length > 65535 {
                Some(MembershipBuildError::PacketTooLong(clamp_len(24 + length)))
            } else {
                None
            },
            MembershipProtocol::Mldv2 => if 8 + length > 65535 {
                Some(MembershipBuildError::PacketTooLong(clamp_len(48 + length)))
            } else {
                None
            },
        }
    }
}

/// A report as a whole IP datagram.
pub open spec fn report_bytes(protocol: MembershipProtocol, records: Seq<RecordModel>) -> Seq<u8> {
    match protocol {
        MembershipProtocol::Igmpv3 => igmpv3_report_bytes(records),
        MembershipProtocol::Mldv2 => mldv2_report_bytes(records),
    }
}

/// Whether a build result is the datagram or the error that the records call
/// for.
pub open spec fn built(
    protocol: MembershipProtocol,
    records: Seq<RecordModel>,
    result: Result<Vec<u8>, MembershipBuildError>,
) -> bool {
    match result {
        Ok(packet) => build_error(protocol, records) is None && packet@ == report_bytes(
            protocol,
            records,
        ),
        Err(error) => build_error(protocol, records) == Some(error),
    }
}

/// Writes a report as a whole IP datagram.
pub fn build_membership_report(report: &MembershipReport) -> (result: Result<
    Vec<u8>,
    MembershipBuildError,
>)
    ensures
        built(report@.protocol, report@.records, result),
{
    match report.protocol {
        MembershipProtocol::Igmpv3 => build_igmpv3_membership_report(report.records.as_slice()),
        MembershipProtocol::Mldv2 => build_mldv2_membership_report(report.records.as_slice()),
    }
}

proof fn lemma_widths(protocol: MembershipProtocol, records: Seq<RecordModel>)
    requires
        first_build_error(protocol, records) is None,
    ensures
        records_bytes(records).len() == records_len(protocol, records),
    decreases records.len(),
{
    if records.len() > 0 {
        let front = records.drop_last();
        let record = records.last();
        lemma_widths(protocol, front);
        lemma_address_widths(protocol, record.group, record.sources);
    }
}

proof fn lemma_address_widths(
    protocol: MembershipProtocol,
    group: IpAddr,
    sources: Seq<IpAddr>,
)
    requires
        (protocol is Igmpv3) == (group is V4),
        sources_fit(group, sources),
    ensures
        ip_octets(group).len() == address_width(protocol),
        addresses_bytes(sources).len() == sources.len() * address_width(protocol),
    decreases sources.len(),
{
    lemma_octets_len(group);
    if sources.len() > 0 {
        let front = sources.drop_last();
        assert(sources_fit(group, front)) by {
            assert forall|i: int| 0 <= i < front.len() implies same_family_spec(
                group,
                #[trigger] front[i],
            ) && !front[i].multicast_spec() by {
                assert(front[i] == sources[i]);
            }
        }
        lemma_address_widths(protocol, group, front);
        assert(same_family_spec(group, sources[sources.len() - 1]));
        lemma_octets_len(sources.last());
        let width = address_width(protocol);
        assert((sources.len() - 1) * width + width == sources.len() * width) by (nonlinear_arith);
    }
}

proof fn lemma_octets_len(address: IpAddr)
    ensures
        ip_octets(address).len() == if address is V4 {
            4nat
        } else {
            16nat
        },
{
    match address {
        IpAddr::V4(a) => crate::net::lemma_ipv4_octets_read_back(a),
        IpAddr::V6(a) => crate::net::lemma_ipv6_octets_read_back(a),
    }
}

fn append_addresses(out: &mut Vec<u8>, addresses: &Vec<IpAddr>)
    ensures
        final(out)@ == old(out)@ + addresses_bytes(addresses@),
{
    let ghost before = out@;
    let mut i: usize = 0;
    proof {
        assert(addresses@.take(0) =~= Seq::empty());
        assert(before + addresses_bytes(Seq::empty()) =~= before);
    }
    while i < addresses.len()
        invariant
            i <= addresses@.len(),
            out@ == before + addresses_bytes(addresses@.take(i as int)),
        decreases addresses@.len() - i,
    {
        append_ip(out, addresses[i]);
        i += 1;
        proof {
            assert(addresses@.take(i as int).drop_last() =~= addresses@.take(i - 1));
            assert(out@ =~= before + addresses_bytes(addresses@.take(i as int)));
        }
    }
    proof {
        assert(addresses@.take(addresses@.len() as int) =~= addresses@);
    }
}

/// The type value of a record kind.
pub fn encode_record_kind(kind: MembershipRecordKind) -> (result: Result<u8, MembershipBuildError>)
    ensures
        match result {
            Ok(value) => kind_value(kind) == Some(value),
            Err(error) => kind_value(kind) is None && error
                == MembershipBuildError::UnsupportedRecordKind(kind),
        },
{
    match kind {
        MembershipRecordKind::ModeIsInclude => Ok(1),
        MembershipRecordKind::ModeIsExclude => Ok(2),
        MembershipRecordKind::ChangeToInclude => Ok(3),
        MembershipRecordKind::ChangeToExclude => Ok(4),
        MembershipRecordKind::AllowNewSources => Ok(5),
        MembershipRecordKind::BlockOldSources => Ok(6),
        MembershipRecordKind::LegacyReport | MembershipRecordKind::LegacyLeave => Err(
            MembershipBuildError::UnsupportedRecordKind(kind),
        ),
    }
}

proof fn lemma_first_build_error_stays(
    protocol: MembershipProtocol,
    records: Seq<RecordModel>,
    early: int,
)
    requires
        0 <= early <= records.len(),
        first_build_error(protocol, records.take(early)) is Some,
    ensures
        first_build_error(protocol, records) == first_build_error(protocol, records.take(early)),
    decreases records.len() - early,
{
    if early == records.len() {
        assert(records.take(early) =~= records);
    } else {
        assert(records.take(early + 1).drop_last() =~= records.take(early));
        lemma_first_build_error_stays(protocol, records, early + 1);
    }
}

fn validate_build_record(protocol: MembershipProtocol, record: &MembershipRecord) -> (result:
    Result<(), MembershipBuildError>)
    ensures
        match result {
            Ok(()) => record_build_error(protocol, record@) is None,
            Err(error) => record_build_error(protocol, record@) == Some(error),
        },
{
    if let Err(error) = encode_record_kind(record.kind) {
        return Err(error);
    }
    if !record.group.is_multicast() {
        return Err(MembershipBuildError::InvalidMulticastGroup(record.group));
    }
    match (protocol, record.group) {
        (MembershipProtocol::Igmpv3, IpAddr::V4(_)) | (
            MembershipProtocol::Mldv2,
            IpAddr::V6(_),
        ) => {},
        _ => {
            return Err(
                MembershipBuildError::ProtocolAddressFamilyMismatch {
                    protocol,
                    group: record.group,
                },
            );
        },
    }
    if record.sources.len() > 65535 {
        return Err(MembershipBuildError::TooManySources(record.sources.len()));
    }
    if !all_sources_fit(record.group, &record.sources) {
        return Err(MembershipBuildError::MixedAddressFamilies);
    }
    Ok(())
}

/// Checks the records and adds up their length.
fn validate_build_records(protocol: MembershipProtocol, records: &[MembershipRecord]) -> (result:
    Result<u64, MembershipBuildError>)
    ensures
        ({
            let models = record_models(records@);
            match result {
                Ok(length) => 0 < models.len() <= 65535 && first_build_error(protocol, models)
                    is None && length == records_len(protocol, models) && length <= 131_070_000_000,
                Err(error) => if models.len() == 0 {
                    error == MembershipBuildError::EmptyReport
                } else if models.len() > 65535 {
                    error == MembershipBuildError::TooManyRecords(models.len() as usize)
                } else {
                    first_build_error(protocol, models) == Some(error)
                },
            }
        }),
{
    if records.len() == 0 {
        return Err(MembershipBuildError::EmptyReport);
    }
    if records.len() > 65535 {
        return Err(MembershipBuildError::TooManyRecords(records.len()));
    }
    let ghost models = record_models(records@);
    let mut i: usize = 0;
    let mut length: u64 = 0;
    let width: u64 = match protocol {
        MembershipProtocol::Igmpv3 => 4,
        MembershipProtocol::Mldv2 => 16,
    };
    proof {
        assert(models.take(0) =~= Seq::empty());
    }
    while i < records.len()
        invariant
            i <= records@.len() <= 65535,
            models == record_models(records@),
            width == address_width(protocol),
            width == 4 || width == 16,
            first_build_error(protocol, models.take(i as int)) is None,
            length == records_len(protocol, models.take(i as int)),
            length <= i * 2_000_000,
        decreases records@.len() - i,
    {
        let record = &records[i];
        proof {
            assert(models.take(i + 1).drop_last() =~= models.take(i as int));
            assert(models.take(i + 1).last() == record@);
        }
        if let Err(error) = validate_build_record(protocol, record) {
            proof {
                lemma_first_build_error_stays(protocol, models, i + 1);
            }
            return Err(error);
        }
        let count: u64 = record.sources.len() as u64;
        assert(0 <= count * width <= 65535 * 16) by (nonlinear_arith)
            requires
                0 <= count <= 65535,
                0 <= width <= 16,
        ;
        length = length + 4 + width + count * width;
        i += 1;
    }
    proof {
        assert(models.take(models.len() as int) =~= models);
    }
    Ok(length)
}

fn to_len(length: u64) -> (clamped: usize)
    ensures
        clamped == clamp_len(length as int),
{
    if length <= usize::MAX as u64 {
        length as usize
    } else {
        usize::MAX
    }
}

/// Writes a report message, its checksum field zero.
fn build_report_message(
    protocol: MembershipProtocol,
    kind: u8,
    records: &[MembershipRecord],
) -> (message: Vec<u8>)
    requires
        records@.len() <= 65535,
        first_build_error(protocol, record_models(records@)) is None,
    ensures
        message@ == report_message(kind, record_models(records@)),
{
    let ghost models = record_models(records@);
    let mut message: Vec<u8> = Vec::new();
    message.push(kind);
    append_bytes(&mut message, [0u8, 0, 0, 0, 0].as_slice());
    append_u16(&mut message, records.len() as u16);
    let ghost head = message@;
    proof {
        assert(head =~= seq![kind, 0u8, 0u8, 0u8, 0u8, 0u8] + u16_bytes(models.len() as u16));
    }
    let mut i: usize = 0;
    proof {
        assert(models.take(0) =~= Seq::empty());
        assert(head + records_bytes(Seq::empty()) =~= head);
    }
    while i < records.len()
        invariant
            i <= records@.len() <= 65535,
            models == record_models(records@),
            first_build_error(protocol, models) is None,
            message@ == head + records_bytes(models.take(i as int)),
        decreases records@.len() - i,
    {
        let record = &records[i];
        let ghost so_far = message@;
        proof {
            if first_build_error(protocol, models.take(i + 1)) is Some {
                lemma_first_build_error_stays(protocol, models, i + 1);
            }
            assert(models.take(i + 1).drop_last() =~= models.take(i as int));
            assert(models.take(i + 1).last() == record@);
        }
        let value: u8 = match encode_record_kind(record.kind) {
            Ok(value) => value,
            Err(_) => 0,
        };
        message.push(value);
        message.push(0);
        append_u16(&mut message, record.sources.len() as u16);
        append_ip(&mut message, record.group);
        append_addresses(&mut message, &record.sources);
        i += 1;
        proof {
            assert(message@ =~= so_far + record_bytes(record@));
            assert(message@ =~= head + records_bytes(models.take(i as int)));
        }
    }
    proof {
        assert(models.take(models.len() as int) =~= models);
    }
    message
}

/// Writes an IGMPv3 report as a whole IPv4 datagram.
pub fn build_igmpv3_membership_report(records: &[MembershipRecord]) -> (result: Result<
    Vec<u8>,
    MembershipBuildError,
>)
    ensures
        built(MembershipProtocol::Igmpv3, record_models(records@), result),
{
    let protocol = MembershipProtocol::Igmpv3;
    let records_length: u64 = match validate_build_records(protocol, records) {
        Ok(length) => length,
        Err(error) => return Err(error),
    };
    proof {
        lemma_widths(protocol, record_models(records@));
    }
    let total: u64 = 32 + records_length;
    if total > 65535 {
        return Err(MembershipBuildError::PacketTooLong(to_len(total)));
    }
    let mut message: Vec<u8> = build_report_message(protocol, 0x22, records);
    let message_checksum: u16 = checksum(message.as_slice());
    set_word(message.as_mut_slice(), 2, message_checksum);

    let mut packet: Vec<u8> = Vec::new();
    append_bytes(&mut packet, [0x46u8, 0xc0].as_slice());
    append_u16(&mut packet, total as u16);
    append_bytes(&mut packet, [0u8, 0, 0, 0, 1, 2, 0, 0].as_slice());
    append_ipv4(&mut packet, Ipv4Addr { bits: 0 });
    append_ipv4(&mut packet, Ipv4Addr { bits: IGMPV3_REPORT_DESTINATION_BITS });
    append_bytes(&mut packet, [0x94u8, 4, 0, 0].as_slice());
    proof {
        crate::net::lemma_ipv4_octets_read_back(Ipv4Addr { bits: 0 });
        crate::net::lemma_ipv4_octets_read_back(
            Ipv4Addr { bits: IGMPV3_REPORT_DESTINATION_BITS },
        );
        assert(packet@ =~= igmpv3_report_header(total as u16));
    }
    let header_checksum: u16 = checksum(packet.as_slice());
    set_word(packet.as_mut_slice(), 10, header_checksum);
    append_bytes(&mut packet, message.as_slice());
    Ok(packet)
}

/// Writes an MLDv2 report as a whole IPv6 datagram.
pub fn build_mldv2_membership_report(records: &[MembershipRecord]) -> (result: Result<
    Vec<u8>,
    MembershipBuildError,
>)
    ensures
        built(MembershipProtocol::Mldv2, record_models(records@), result),
{
    let protocol = MembershipProtocol::Mldv2;
    let records_length: u64 = match validate_build_records(protocol, records) {
        Ok(length) => length,
        Err(error) => return Err(error),
    };
    proof {
        lemma_widths(protocol, record_models(records@));
    }
    let payload: u64 = 16 + records_length;
    if payload > 65535 {
        return Err(MembershipBuildError::PacketTooLong(to_len(40 + payload)));
    }
    let source = Ipv6Addr { bits: 0 };
    let destination = Ipv6Addr { bits: MLDV2_REPORT_DESTINATION_BITS };
    let mut message: Vec<u8> = build_report_message(protocol, 143, records);
    let message_checksum: u16 = upper_layer_checksum(
        &source.octets(),
        &destination.octets(),
        58,
        message.as_slice(),
    );
    set_word(message.as_mut_slice(), 2, message_checksum);

    let mut packet: Vec<u8> = Vec::new();
    append_bytes(&mut packet, [0x60u8, 0, 0, 0].as_slice());
    append_u16(&mut packet, payload as u16);
    append_bytes(&mut packet, [0u8, 1].as_slice());
    append_ipv6(&mut packet, source);
    append_ipv6(&mut packet, destination);
    append_bytes(&mut packet, [58u8, 0, 5, 2, 0, 0, 1, 0].as_slice());
    proof {
        crate::net::lemma_ipv6_octets_read_back(source);
        crate::net::lemma_ipv6_octets_read_back(destination);
        assert(packet@ =~= mldv2_report_header(payload as u16));
    }
    append_bytes(&mut packet, message.as_slice());
    Ok(packet)
}

proof fn lemma_addresses_split(
    protocol: MembershipProtocol,
    group: IpAddr,
    sources: Seq<IpAddr>,
    i: int,
)
    requires
        (protocol is Igmpv3) == (group is V4),
        sources_fit(group, sources),
        0 <= i < sources.len(),
    ensures
        0 <= i * address_width(protocol),
        (i + 1) * address_width(protocol) <= addresses_bytes(sources).len(),
        addresses_bytes(sources).subrange(
            i * address_width(protocol),
            (i + 1) * address_width(protocol),
        ) == ip_octets(sources[i]),
    decreases sources.len(),
{
    let width = address_width(protocol);
    let n = sources.len() as int;
    let front = sources.drop_last();
    assert(sources_fit(group, front)) by {
        assert forall|j: int| 0 <= j < front.len() implies same_family_spec(
            group,
            #[trigger] front[j],
        ) && !front[j].multicast_spec() by {
            assert(front[j] == sources[j]);
        }
    }
    lemma_address_widths(protocol, group, sources);
    lemma_address_widths(protocol, group, front);
    assert(same_family_spec(group, sources[n - 1]));
    lemma_octets_len(sources.last());
    lemma_octets_len(group);
    assert(0 <= i * width) by (nonlinear_arith)
        requires
            i >= 0,
            width > 0,
    ;
    assert((i + 1) * width == i * width + width) by (nonlinear_arith);
    assert((i + 1) * width <= n * width) by (nonlinear_arith)
        requires
            i + 1 <= n,
            width > 0,
    ;
    assert((n - 1) * width + width == n * width) by (nonlinear_arith);
    let all = addresses_bytes(sources);
    if i == n - 1 {
        assert(all.subrange(i * width, (i + 1) * width) =~= ip_octets(sources.last()));
    } else {
        lemma_addresses_split(protocol, group, front, i);
        assert(all.subrange(i * width, (i + 1) * width) =~= addresses_bytes(front).subrange(
            i * width,
            (i + 1) * width,
        ));
    }
}

proof fn lemma_address_read_back(
    protocol: MembershipProtocol,
    address: IpAddr,
    s: Seq<u8>,
    at: int,
)
    requires
        (protocol is Igmpv3) == (address is V4),
        0 <= at,
        at + address_width(protocol) <= s.len(),
        s.subrange(at, at + address_width(protocol)) == ip_octets(address),
    ensures
        address_at(protocol, s, at) == address,
{
    match address {
        IpAddr::V4(a) => crate::net::lemma_ipv4_octets_read_back(a),
        IpAddr::V6(a) => crate::net::lemma_ipv6_octets_read_back(a),
    }
}

proof fn lemma_record_read_back(
    protocol: MembershipProtocol,
    s: Seq<u8>,
    offset: int,
    record: RecordModel,
    max_sources: int,
)
    requires
        record_build_error(protocol, record) is None,
        record.sources.len() <= max_sources,
        0 <= offset,
        offset + record_bytes(record).len() <= s.len(),
        s.subrange(offset, offset + record_bytes(record).len()) == record_bytes(record),
    ensures
        record_at(protocol, s, offset, max_sources) == Ok::<RecordModel, ParseErrorModel>(record),
        record_len(protocol, s, offset) == record_bytes(record).len(),
        record_bytes(record).len() == 4 + address_width(protocol) + record.sources.len()
            * address_width(protocol),
{
    reveal(record_at);
    let width = address_width(protocol);
    let bytes = record_bytes(record);
    let n = record.sources.len() as int;
    lemma_address_widths(protocol, record.group, record.sources);
    lemma_octets_len(record.group);
    assert(0 <= n * width) by (nonlinear_arith)
        requires
            n >= 0,
            width > 0,
    ;
    let part = s.subrange(offset, offset + bytes.len());
    assert(part[0] == s[offset] && part[1] == s[offset + 1] && part[2] == s[offset + 2] && part[3]
        == s[offset + 3]);
    assert(bytes[0] == kind_value(record.kind)->Some_0);
    assert(bytes[1] == 0);
    crate::bytes::lemma_u16_bytes_read_back(n as u16);
    assert(bytes[2] == u16_bytes(n as u16)[0]);
    assert(bytes[3] == u16_bytes(n as u16)[1]);
    assert(u16_at(s, offset + 2) == n);
    assert(s.subrange(offset + 4, offset + 4 + width) =~= part.subrange(4, 4 + width));
    assert(part.subrange(4, 4 + width) =~= ip_octets(record.group));
    lemma_address_read_back(protocol, record.group, s, offset + 4);
    let sources = record_sources(protocol, s, offset);
    assert(sources.len() == record.sources.len());
    assert forall|i: int| 0 <= i < n implies #[trigger] sources[i] == record.sources[i] by {
        lemma_addresses_split(protocol, record.group, record.sources, i);
        let base = 4 + width;
        assert((i + 1) * width == i * width + width) by (nonlinear_arith);
        assert(s.subrange(offset + base + i * width, offset + base + i * width + width)
            =~= part.subrange(base + i * width, base + (i + 1) * width));
        assert(part.subrange(base + i * width, base + (i + 1) * width) =~= addresses_bytes(
            record.sources,
        ).subrange(i * width, (i + 1) * width));
        assert(same_family_spec(record.group, record.sources[i]));
        lemma_address_read_back(
            protocol,
            record.sources[i],
            s,
            offset + base + i * width,
        );
    }
    assert(sources =~= record.sources);
}

proof fn lemma_records_split(protocol: MembershipProtocol, records: Seq<RecordModel>, k: int)
    requires
        first_build_error(protocol, records) is None,
        0 <= k < records.len(),
    ensures
        ({
            let start = records_len(protocol, records.take(k));
            let end = records_len(protocol, records.take(k + 1));
            &&& 0 <= start <= end <= records_bytes(records).len()
            &&& records_bytes(records).subrange(start, end) == record_bytes(records[k])
            &&& record_build_error(protocol, records[k]) is None
            &&& end == start + record_bytes(records[k]).len()
        }),
    decreases records.len(),
{
    let front = records.drop_last();
    let n = records.len() as int;
    lemma_widths(protocol, records);
    lemma_widths(protocol, front);
    let all = records_bytes(records);
    if k == n - 1 {
        assert(records.take(k) =~= front);
        assert(records.take(k + 1) =~= records);
        lemma_address_widths(protocol, records.last().group, records.last().sources);
        assert(all.subrange(
            records_len(protocol, front),
            records_len(protocol, records),
        ) =~= record_bytes(records.last()));
    } else {
        lemma_records_split(protocol, front, k);
        assert(front.take(k) =~= records.take(k));
        assert(front.take(k + 1) =~= records.take(k + 1));
        let start = records_len(protocol, records.take(k));
        let end = records_len(protocol, records.take(k + 1));
        assert(all.subrange(start, end) =~= records_bytes(front).subrange(start, end));
    }
}

proof fn lemma_records_upto_step(
    protocol: MembershipProtocol,
    s: Seq<u8>,
    records: Seq<RecordModel>,
    offset: int,
    max_sources: int,
    k: nat,
    record: RecordModel,
    length: int,
)
    requires
        records_upto(protocol, s, k, max_sources) == Ok::<
            (Seq<RecordModel>, int),
            ParseErrorModel,
        >((records, offset)),
        record_at(protocol, s, offset, max_sources) == Ok::<RecordModel, ParseErrorModel>(record),
        record_len(protocol, s, offset) == length,
    ensures
        records_upto(protocol, s, k + 1, max_sources) == Ok::<
            (Seq<RecordModel>, int),
            ParseErrorModel,
        >((records.push(record), offset + length)),
{
}

proof fn lemma_part_behind_header(
    s: Seq<u8>,
    body: Seq<u8>,
    start: int,
    end: int,
    part: Seq<u8>,
)
    requires
        s.len() == 8 + body.len(),
        s.skip(8) == body,
        0 <= start <= end <= body.len(),
        body.subrange(start, end) == part,
    ensures
        s.subrange(8 + start, 8 + end) == part,
        part.len() == end - start,
{
    assert(s.subrange(8 + start, 8 + end) =~= s.skip(8).subrange(start, end));
}

proof fn lemma_record_at_place(
    protocol: MembershipProtocol,
    s: Seq<u8>,
    records: Seq<RecordModel>,
    max_sources: int,
    j: int,
)
    requires
        first_build_error(protocol, records) is None,
        0 <= j < records.len(),
        s.len() == 8 + records_bytes(records).len(),
        s.skip(8) == records_bytes(records),
        records[j].sources.len() <= max_sources,
    ensures
        ({
            let start = records_len(protocol, records.take(j));
            let end = records_len(protocol, records.take(j + 1));
            &&& record_at(protocol, s, 8 + start, max_sources) == Ok::<
                RecordModel,
                ParseErrorModel,
            >(records[j])
            &&& record_len(protocol, s, 8 + start) == end - start
        }),
{
    let start = records_len(protocol, records.take(j));
    let end = records_len(protocol, records.take(j + 1));
    let record = records[j];
    lemma_records_split(protocol, records, j);
    lemma_part_behind_header(s, records_bytes(records), start, end, record_bytes(record));
    lemma_record_read_back(protocol, s, 8 + start, record, max_sources);
}

proof fn lemma_records_read_back(
    protocol: MembershipProtocol,
    s: Seq<u8>,
    records: Seq<RecordModel>,
    max_sources: int,
    k: nat,
)
    requires
        first_build_error(protocol, records) is None,
        k <= records.len(),
        s.len() == 8 + records_bytes(records).len(),
        s.skip(8) == records_bytes(records),
        forall|i: int|
            0 <= i < records.len() ==> (#[trigger] records[i]).sources.len() <= max_sources,
    ensures
        records_upto(protocol, s, k, max_sources) == Ok::<(Seq<RecordModel>, int), ParseErrorModel>(
            (records.take(k as int), 8 + records_len(protocol, records.take(k as int))),
        ),
    decreases k,
{
    if k == 0 {
        assert(records.take(0) =~= Seq::empty());
    } else {
        let j = (k - 1) as nat;
        lemma_records_read_back(protocol, s, records, max_sources, j);
        let record = records[j as int];
        let start = records_len(protocol, records.take(j as int));
        let end = records_len(protocol, records.take(k as int));
        lemma_record_at_place(protocol, s, records, max_sources, j as int);
        lemma_records_upto_step(
            protocol,
            s,
            records.take(j as int),
            8 + start,
            max_sources,
            j,
            record,
            end - start,
        );
        assert(records.take(k as int) =~= records.take(j as int).push(record));
    }
}

#[verifier::rlimit(60)]
proof fn lemma_igmpv3_report_reads_back(records: Seq<RecordModel>, limits: MembershipParseLimits)
    requires
        build_error(MembershipProtocol::Igmpv3, records) is None,
        records.len() <= limits.max_records,
        forall|i: int|
            0 <= i < records.len() ==> (#[trigger] records[i]).sources.len()
                <= limits.max_sources_per_record,
    ensures
        packet_report(report_bytes(MembershipProtocol::Igmpv3, records), limits) == Ok::<
            ReportModel,
            ParseErrorModel,
        >(ReportModel { protocol: MembershipProtocol::Igmpv3, records }),
{
    let protocol = MembershipProtocol::Igmpv3;
    let s = report_bytes(protocol, records);
    let message = report_message(0x22, records);
    lemma_widths(protocol, records);
    assert(message.len() == 8 + records_bytes(records).len());
    assert(message[2] == 0 && message[3] == 0);
    let n = records.len();
    crate::bytes::lemma_u16_bytes_read_back(n as u16);
    let sum = checksum_of(message);
    let done = with_word(message, 2, sum);
    let total = (24 + message.len()) as u16;
    let header = igmpv3_report_header(total);
    let zero = Ipv4Addr { bits: 0 };
    let destination = Ipv4Addr { bits: IGMPV3_REPORT_DESTINATION_BITS };
    crate::net::lemma_ipv4_octets_read_back(zero);
    crate::net::lemma_ipv4_octets_read_back(destination);
    assert(header.len() == 24);
    assert(header[10] == 0 && header[11] == 0);
    lemma_stored_checksum_verifies(header, 10);
    lemma_stored_checksum_verifies(message, 2);
    assert(s.take(24) =~= with_word(header, 10, checksum_of(header)));
    assert(s.subrange(24, s.len() as int) =~= done);
    crate::bytes::lemma_u16_bytes_read_back(total);
    assert(s[0] == 0x46 && s[9] == 2);
    assert(s[2] == u16_bytes(total)[0] && s[3] == u16_bytes(total)[1]);
    assert(done[6] == u16_bytes(n as u16)[0] && done[7] == u16_bytes(n as u16)[1]);
    assert(done.skip(8) =~= records_bytes(records));
    lemma_records_read_back(
        protocol,
        done,
        records,
        limits.max_sources_per_record as int,
        n,
    );
    assert(records.take(n as int) =~= records);
    assert(u16_at(s, 2) == s.len());
}

#[verifier::rlimit(60)]
proof fn lemma_mldv2_report_reads_back(records: Seq<RecordModel>, limits: MembershipParseLimits)
    requires
        build_error(MembershipProtocol::Mldv2, records) is None,
        records.len() <= limits.max_records,
        forall|i: int|
            0 <= i < records.len() ==> (#[trigger] records[i]).sources.len()
                <= limits.max_sources_per_record,
    ensures
        packet_report(report_bytes(MembershipProtocol::Mldv2, records), limits) == Ok::<
            ReportModel,
            ParseErrorModel,
        >(ReportModel { protocol: MembershipProtocol::Mldv2, records }),
{
    let protocol = MembershipProtocol::Mldv2;
    let s = report_bytes(protocol, records);
    let message = report_message(143, records);
    lemma_widths(protocol, records);
    assert(message.len() == 8 + records_bytes(records).len());
    assert(message[2] == 0 && message[3] == 0);
    let n = records.len();
    crate::bytes::lemma_u16_bytes_read_back(n as u16);
    let zero = Ipv6Addr { bits: 0 };
    let destination = Ipv6Addr { bits: MLDV2_REPORT_DESTINATION_BITS };
    let from = ipv6_octets(zero);
    let to = ipv6_octets(destination);
    let sum = checksum_of(upper_layer_input(from, to, 58, message));
    let done = with_word(message, 2, sum);
    let payload = (8 + message.len()) as u16;
    let header = mldv2_report_header(payload);
    crate::net::lemma_ipv6_octets_read_back(zero);
    crate::net::lemma_ipv6_octets_read_back(destination);
    lemma_stored_upper_layer_checksum_verifies(from, to, 58, message, 2);
    assert(header.len() == 48);
    crate::bytes::lemma_u16_bytes_read_back(payload);
    assert(s[0] == 0x60 && s[6] == 0 && s[7] == 1 && s[40] == 58 && s[41] == 0);
    assert(s[4] == u16_bytes(payload)[0] && s[5] == u16_bytes(payload)[1]);
    assert(s.subrange(8, 24) =~= from);
    assert(s.subrange(24, 40) =~= to);
    assert(s.subrange(48, s.len() as int) =~= done);
    let options = s.subrange(42, 48);
    assert(options =~= seq![5u8, 2u8, 0u8, 0u8, 1u8, 0u8]);
    assert(ipv6_router_alert_from(options, 0));
    assert(done[6] == u16_bytes(n as u16)[0] && done[7] == u16_bytes(n as u16)[1]);
    assert(done.skip(8) =~= records_bytes(records));
    lemma_records_read_back(
        protocol,
        done,
        records,
        limits.max_sources_per_record as int,
        n,
    );
    assert(records.take(n as int) =~= records);
    assert(40 + u16_at(s, 4) == s.len());
}

/// A report that can be written is read back from its datagram, record by
/// record, by a reader whose limits it keeps.
pub proof fn law_built_report_reads_back(
    protocol: MembershipProtocol,
    records: Seq<RecordModel>,
    limits: MembershipParseLimits,
)
    requires
        build_error(protocol, records) is None,
        records.len() <= limits.max_records,
        forall|i: int|
            0 <= i < records.len() ==> (#[trigger] records[i]).sources.len()
                <= limits.max_sources_per_record,
    ensures
        packet_report(report_bytes(protocol, records), limits) == Ok::<
            ReportModel,
            ParseErrorModel,
        >(ReportModel { protocol, records }),
{
    match protocol {
        MembershipProtocol::Igmpv3 => lemma_igmpv3_report_reads_back(records, limits),
        MembershipProtocol::Mldv2 => lemma_mldv2_report_reads_back(records, limits),
    }
}

/// An IGMP message of an earlier version reads as one record without sources for
/// the group in its bytes from 4 to 8: types 0x12 and 0x16 join it and type 0x17
/// leaves it.  Any other type but that of a version 3 report is refused, and so
/// is a group that is none.
pub proof fn law_igmp_types_say_what_is_reported(s: Seq<u8>, limits: MembershipParseLimits)
    requires
        s.len() >= 8,
        ones_sum(s) == 0xffff,
    ensures
        ({
            let read = igmp_records(s, limits);
            let legacy = s[0] == 0x12 || s[0] == 0x16 || s[0] == 0x17;
            &&& legacy && s[4] / 16 == 14 ==> read is Ok && read->Ok_0.len() == 1
                && read->Ok_0[0].group is V4 && spells(s, 4, read->Ok_0[0].group)
                && read->Ok_0[0].sources.len() == 0 && (s[0] == 0x17
                ==> read->Ok_0[0].kind is LegacyLeave) && (s[0] != 0x17
                ==> read->Ok_0[0].kind is LegacyReport)
            &&& legacy && s[4] / 16 != 14 ==> (read matches Err(
                ParseErrorModel::InvalidMulticastGroup(group),
            ) && group is V4 && spells(s, 4, group))
            &&& !legacy && s[0] != 0x22 ==> read == Err::<Seq<RecordModel>, ParseErrorModel>(
                ParseErrorModel::UnsupportedMembershipMessage(s[0]),
            )
        }),
{
    law_addresses_are_spelled_by_their_octets(s, 4, IpAddr::V4(ipv4_at(s, 4)));
}

/// An MLD message of the first version reads as one record without sources for
/// the group in its bytes from 8 to 24: type 131 joins it and type 132 leaves it.
/// Any other type but that of a version 2 report is refused, and so is a group
/// that is none.
pub proof fn law_mld_types_say_what_is_reported(
    source: Seq<u8>,
    destination: Seq<u8>,
    s: Seq<u8>,
    limits: MembershipParseLimits,
)
    requires
        s.len() >= 24,
        checksum_of(upper_layer_input(source, destination, 58, s)) == 0,
    ensures
        ({
            let read = mld_records(source, destination, s, limits);
            let legacy = s[0] == 131 || s[0] == 132;
            &&& legacy && s[8] == 0xff ==> read is Ok && read->Ok_0.len() == 1
                && read->Ok_0[0].group is V6 && spells(s, 8, read->Ok_0[0].group)
                && read->Ok_0[0].sources.len() == 0 && (s[0] == 131
                ==> read->Ok_0[0].kind is LegacyReport) && (s[0] == 132
                ==> read->Ok_0[0].kind is LegacyLeave)
            &&& legacy && s[8] != 0xff ==> (read matches Err(
                ParseErrorModel::InvalidMulticastGroup(group),
            ) && group is V6 && spells(s, 8, group))
            &&& !legacy && s[0] != 143 ==> read == Err::<Seq<RecordModel>, ParseErrorModel>(
                ParseErrorModel::UnsupportedMembershipMessage(s[0]),
            )
        }),
{
    law_addresses_are_spelled_by_their_octets(s, 8, IpAddr::V6(ipv6_at(s, 8)));
    law_first_octets_are_the_highest(s, 8);
}

/// A record of a version 3 (IGMP) or version 2 (MLD) report, byte by byte: the
/// kind in the first byte, the length of what follows the sources in the second,
/// in words of four bytes, the number of sources in the next two, then the group
/// and the sources.
pub proof fn law_records_are_read_by_offset(
    protocol: MembershipProtocol,
    s: Seq<u8>,
    offset: int,
    max_sources: int,
)
    requires
        0 <= offset <= s.len(),
    ensures
        ({
            let width = if protocol is Igmpv3 {
                4int
            } else {
                16
            };
            let count = s[offset + 2] * 256 + s[offset + 3];
            let length = 4 + width + count * width + s[offset + 1] * 4;
            let read = record_at(protocol, s, offset, max_sources);
            &&& read matches Ok(record) ==> {
                &&& offset + length <= s.len()
                &&& record_len(protocol, s, offset) == length
                &&& match record.kind {
                    MembershipRecordKind::ModeIsInclude => s[offset] == 1,
                    MembershipRecordKind::ModeIsExclude => s[offset] == 2,
                    MembershipRecordKind::ChangeToInclude => s[offset] == 3,
                    MembershipRecordKind::ChangeToExclude => s[offset] == 4,
                    MembershipRecordKind::AllowNewSources => s[offset] == 5,
                    MembershipRecordKind::BlockOldSources => s[offset] == 6,
                    _ => false,
                }
                &&& (record.group is V4) == (protocol is Igmpv3)
                &&& spells(s, offset + 4, record.group)
                &&& record.group.multicast_spec()
                &&& record.sources.len() == count <= max_sources
                &&& forall|i: int|
                    0 <= i < count ==> {
                        &&& ((#[trigger] record.sources[i]) is V4) == (protocol is Igmpv3)
                        &&& spells(s, offset + 4 + width + i * width, record.sources[i])
                        &&& !record.sources[i].multicast_spec()
                    }
            }
            &&& read is Err ==> {
                ||| offset + 4 + width > s.len()
                ||| s[offset] == 0 || s[offset] > 6
                ||| count > max_sources
                ||| offset + length > s.len()
                ||| !address_at(protocol, s, offset + 4).multicast_spec()
                ||| exists|i: int|
                    0 <= i < count && (#[trigger] record_sources(
                        protocol,
                        s,
                        offset,
                    )[i]).multicast_spec()
            }
        }),
{
    reveal(record_at);
    let width = address_width(protocol);
    let count = u16_at(s, offset + 2);
    let sources = record_sources(protocol, s, offset);
    let group = address_at(protocol, s, offset + 4);
    if offset + 4 + width <= s.len() {
        law_addresses_are_spelled_by_their_octets(s, offset + 4, group);
        let read = record_at(protocol, s, offset, max_sources);
        assert(count * width >= 0) by (nonlinear_arith)
            requires
                count >= 0,
                width > 0,
        ;
        if offset + record_len(protocol, s, offset) <= s.len() {
            assert forall|i: int| 0 <= i < count implies spells(
                s,
                offset + 4 + width + i * width,
                #[trigger] sources[i],
            ) by {
                assert(0 <= i * width && i * width + width <= count * width) by (nonlinear_arith)
                    requires
                        0 <= i < count,
                        width > 0,
                ;
                law_addresses_are_spelled_by_their_octets(
                    s,
                    offset + 4 + width + i * width,
                    sources[i],
                );
            }
        }
        if read is Ok {
            let record = read->Ok_0;
            assert(record.sources == sources);
            assert forall|i: int| 0 <= i < count implies ((#[trigger] record.sources[i]) is V4) == (
            protocol is Igmpv3) && spells(s, offset + 4 + width + i * width, record.sources[i])
                && !record.sources[i].multicast_spec() by {
                assert(sources[i] == record.sources[i]);
            }
        }
        if !sources_fit(group, sources) {
            let i = choose|i: int|
                0 <= i < sources.len() && !(same_family_spec(group, #[trigger] sources[i])
                    && !sources[i].multicast_spec());
            assert(sources[i].multicast_spec());
        }
    }
}

/// The records of a report follow one another from byte 8 on, as many as its
/// bytes 6 and 7 say.
pub proof fn law_records_follow_one_another(
    protocol: MembershipProtocol,
    s: Seq<u8>,
    limits: MembershipParseLimits,
)
    requires
        s.len() >= 8,
    ensures
        message_records(protocol, s, limits) matches Ok(records) ==> {
            &&& records.len() == s[6] * 256 + s[7] <= limits.max_records
            &&& exists|at: Seq<int>|
                at.len() == records.len() + 1 && at[0] == 8 && forall|k: int|
                    0 <= k < records.len() ==> record_at(
                        protocol,
                        s,
                        #[trigger] at[k],
                        limits.max_sources_per_record as int,
                    ) == Ok::<RecordModel, ParseErrorModel>(records[k]) && at[k + 1] == at[k]
                        + record_len(protocol, s, at[k])
        },
{
    let count = u16_at(s, 6) as nat;
    let most = limits.max_sources_per_record as int;
    if message_records(protocol, s, limits) is Ok {
        let at = lemma_record_offsets(protocol, s, count, most);
        let records = message_records(protocol, s, limits)->Ok_0;
        assert(at.len() == records.len() + 1 && at[0] == 8);
    }
}

proof fn lemma_record_offsets(
    protocol: MembershipProtocol,
    s: Seq<u8>,
    count: nat,
    max_sources: int,
) -> (at: Seq<int>)
    requires
        records_upto(protocol, s, count, max_sources) is Ok,
    ensures
        ({
            let (records, end) = records_upto(protocol, s, count, max_sources)->Ok_0;
            &&& records.len() == count
            &&& at.len() == count + 1
            &&& at[0] == 8
            &&& at[count as int] == end
            &&& forall|k: int|
                0 <= k < count ==> record_at(protocol, s, #[trigger] at[k], max_sources) == Ok::<
                    RecordModel,
                    ParseErrorModel,
                >(records[k]) && at[k + 1] == at[k] + record_len(protocol, s, at[k])
        }),
    decreases count,
{
    if count == 0 {
        seq![8int]
    } else {
        let before = lemma_record_offsets(protocol, s, (count - 1) as nat, max_sources);
        let (_, end) = records_upto(protocol, s, count, max_sources)->Ok_0;
        before.push(end)
    }
}

/// The IGMP message of an IPv4 packet stands between the header, whose length the
/// low half of the first byte gives in words, and the end that bytes 2 and 3
/// give; what it says is what the packet reports.  Only the protocol IGMP, a
/// header that the packet holds, and a valid header checksum are taken.
pub proof fn law_igmp_is_found_in_its_packet(s: Seq<u8>, limits: MembershipParseLimits)
    requires
        s.len() > 0,
        s[0] / 16 == 4,
    ensures
        ({
            let header = s[0] % 16 * 4;
            let end = s[2] * 256 + s[3];
            let sound = s.len() >= 20 && 20 <= header <= end <= s.len() && s[9] == 2 && ones_sum(
                s.take(header),
            ) == 0xffff;
            let read = packet_report(s, limits);
            &&& !sound ==> read is Err
            &&& sound ==> match igmp_records(s.subrange(header, end), limits) {
                Ok(records) => read == Ok::<ReportModel, ParseErrorModel>(
                    ReportModel { protocol: MembershipProtocol::Igmpv3, records },
                ),
                Err(error) => read == Err::<ReportModel, ParseErrorModel>(error),
            }
        }),
{
}

/// The MLD message of an IPv6 packet stands behind the hop-by-hop header, whose
/// length byte 41 gives in words of eight without the first, and ends where bytes
/// 4 and 5 say; what it says is what the packet reports.  Only a hop limit of
/// one, a hop-by-hop header with a Router Alert, and ICMPv6 behind it are taken.
pub proof fn law_mld_is_found_in_its_packet(s: Seq<u8>, limits: MembershipParseLimits)
    requires
        s.len() > 0,
        s[0] / 16 == 6,
    ensures
        ({
            let end = 40 + s[4] * 256 + s[5];
            let start = 48 + s[41] * 8;
            let sound = s.len() >= 40 && 48 <= end <= s.len() && s[6] == 0 && s[7] == 1 && start
                <= end && s[40] == 58 && ipv6_router_alert_from(s.subrange(42, start), 0);
            let read = packet_report(s, limits);
            &&& !sound ==> read is Err
            &&& sound ==> match mld_records(
                s.subrange(8, 24),
                s.subrange(24, 40),
                s.subrange(start, end),
                limits,
            ) {
                Ok(records) => read == Ok::<ReportModel, ParseErrorModel>(
                    ReportModel { protocol: MembershipProtocol::Mldv2, records },
                ),
                Err(error) => read == Err::<ReportModel, ParseErrorModel>(error),
            }
        }),
{
}

/// The header of an IGMPv3 report that is sent: it goes to 224.0.0.22, one hop
/// far, behind a Router Alert, from no address, with the type and the number of
/// records in their place, and valid checksums.
#[verifier::rlimit(40)]
pub proof fn law_igmpv3_reports_are_addressed(records: Seq<RecordModel>)
    requires
        build_error(MembershipProtocol::Igmpv3, records) is None,
    ensures
        ({
            let s = report_bytes(MembershipProtocol::Igmpv3, records);
            &&& s.len() >= 32
            &&& s[0] == 0x46 && s[2] * 256 + s[3] == s.len()
            &&& s[6] == 0 && s[7] == 0 && s[8] == 1 && s[9] == 2
            &&& s.subrange(12, 24) == seq![0u8, 0, 0, 0, 224, 0, 0, 22, 0x94, 4, 0, 0]
            &&& s[24] == 0x22 && s[30] * 256 + s[31] == records.len()
            &&& ones_sum(s.take(24)) == 0xffff
            &&& ones_sum(s.skip(24)) == 0xffff
        }),
{
    let s = report_bytes(MembershipProtocol::Igmpv3, records);
    lemma_widths(MembershipProtocol::Igmpv3, records);
    let message = report_message(0x22, records);
    assert(message.len() == 8 + records_bytes(records).len());
    let n = u16_bytes(records.len() as u16);
    crate::bytes::lemma_u16_bytes_read_back(records.len() as u16);
    let total = (24 + message.len()) as u16;
    let header = igmpv3_report_header(total);
    let none = Ipv4Addr { bits: 0 };
    let all = Ipv4Addr { bits: 0xe000_0016 };
    crate::bytes::lemma_u16_bytes_read_back(total);
    lemma_octets_of_report_addresses(none, all);
    assert(header.len() == 24);
    assert(header[10] == 0 && header[11] == 0);
    assert(message[2] == 0 && message[3] == 0);
    assert(message[6] == n[0] && message[7] == n[1]);
    lemma_stored_checksum_verifies(header, 10);
    lemma_stored_checksum_verifies(message, 2);
    let front = with_word(header, 10, checksum_of(header));
    let back = with_word(message, 2, checksum_of(message));
    assert(s == front + back);
    assert(s.take(24) =~= front);
    assert(s.skip(24) =~= back);
    assert(header[2] == u16_bytes(total)[0] && header[3] == u16_bytes(total)[1]);
    assert(header.subrange(12, 24) =~= seq![0u8, 0, 0, 0, 224, 0, 0, 22, 0x94, 4, 0, 0]);
    assert(s.subrange(12, 24) =~= header.subrange(12, 24));
}

proof fn lemma_octets_of_report_addresses(none: Ipv4Addr, all: Ipv4Addr)
    requires
        none.bits == 0,
        all.bits == 0xe000_0016,
    ensures
        ipv4_octets(none) == seq![0u8, 0, 0, 0],
        ipv4_octets(all) == seq![224u8, 0, 0, 22],
{
    crate::net::law_octets_spell_the_address(IpAddr::V4(none));
    crate::net::law_octets_spell_the_address(IpAddr::V4(all));
    assert(ipv4_octets(none) =~= seq![0u8, 0, 0, 0]);
    assert(ipv4_octets(all) =~= seq![224u8, 0, 0, 22]);
}

/// The header of an MLDv2 report that is sent: it goes to ff02::16, one hop far,
/// behind a Router Alert, from no address, with the type and the number of
/// records in their place, and a valid checksum.
#[verifier::rlimit(40)]
pub proof fn law_mldv2_reports_are_addressed(records: Seq<RecordModel>)
    requires
        build_error(MembershipProtocol::Mldv2, records) is None,
    ensures
        ({
            let s = report_bytes(MembershipProtocol::Mldv2, records);
            &&& s.len() >= 56
            &&& s[0] == 0x60 && 40 + s[4] * 256 + s[5] == s.len()
            &&& s[6] == 0 && s[7] == 1
            &&& spells(s, 8, IpAddr::V6(Ipv6Addr { bits: 0 }))
            &&& spells(
                s,
                24,
                IpAddr::V6(Ipv6Addr { bits: 0xff02_0000_0000_0000_0000_0000_0000_0016 }),
            )
            &&& s.subrange(40, 48) == seq![58u8, 0, 5, 2, 0, 0, 1, 0]
            &&& s[48] == 143 && s[54] * 256 + s[55] == records.len()
            &&& checksum_of(
                upper_layer_input(s.subrange(8, 24), s.subrange(24, 40), 58, s.skip(48)),
            ) == 0
        }),
{
    let s = report_bytes(MembershipProtocol::Mldv2, records);
    lemma_widths(MembershipProtocol::Mldv2, records);
    let message = report_message(143, records);
    assert(message.len() == 8 + records_bytes(records).len());
    let n = u16_bytes(records.len() as u16);
    crate::bytes::lemma_u16_bytes_read_back(records.len() as u16);
    let payload = (8 + message.len()) as u16;
    let header = mldv2_report_header(payload);
    let none = Ipv6Addr { bits: 0 };
    let all = Ipv6Addr { bits: 0xff02_0000_0000_0000_0000_0000_0000_0016 };
    let from = ipv6_octets(none);
    let to = ipv6_octets(all);
    crate::bytes::lemma_u16_bytes_read_back(payload);
    crate::net::lemma_ipv6_octets_read_back(none);
    crate::net::lemma_ipv6_octets_read_back(all);
    assert(header.len() == 48);
    assert(message[2] == 0 && message[3] == 0);
    assert(message[6] == n[0] && message[7] == n[1]);
    lemma_stored_upper_layer_checksum_verifies(from, to, 58, message, 2);
    let sum = checksum_of(upper_layer_input(from, to, 58, message));
    let back = with_word(message, 2, sum);
    assert(s == header + back);
    assert(s.skip(48) =~= back);
    assert(header[4] == u16_bytes(payload)[0] && header[5] == u16_bytes(payload)[1]);
    assert(s.subrange(8, 24) =~= from);
    assert(s.subrange(24, 40) =~= to);
    assert(ipv6_at(s, 8) == none && ipv6_at(s, 24) == all);
    law_addresses_are_spelled_by_their_octets(s, 8, IpAddr::V6(none));
    law_addresses_are_spelled_by_their_octets(s, 24, IpAddr::V6(all));
    assert(header.subrange(40, 48) =~= seq![58u8, 0, 5, 2, 0, 0, 1, 0]);
    assert(s.subrange(40, 48) =~= header.subrange(40, 48));
}

/// Which records can be written as a report: at least one and at most 65535, each
/// of a kind of the current versions, for a group of the protocol's family, with
/// senders of that family as sources, and all of them in one packet.
pub proof fn law_reports_can_be_written(protocol: MembershipProtocol, records: Seq<RecordModel>)
    requires
        0 < records.len() <= 65535,
        forall|i: int|
            0 <= i < records.len() ==> {
                let record = #[trigger] records[i];
                &&& !(record.kind is LegacyReport) && !(record.kind is LegacyLeave)
                &&& record.group.multicast_spec()
                &&& (record.group is V4) == (protocol is Igmpv3)
                &&& record.sources.len() <= 65535
                &&& forall|k: int|
                    0 <= k < record.sources.len() ==> ((#[trigger] record.sources[k]) is V4) == (
                    record.group is V4) && !record.sources[k].multicast_spec()
            },
        records_len(protocol, records) <= 65503,
    ensures
        build_error(protocol, records) is None,
{
    lemma_no_build_error(protocol, records);
}

proof fn lemma_no_build_error(protocol: MembershipProtocol, records: Seq<RecordModel>)
    requires
        forall|i: int|
            0 <= i < records.len() ==> record_build_error(protocol, #[trigger] records[i]) is None,
    ensures
        first_build_error(protocol, records) is None,
    decreases records.len(),
{
    if records.len() > 0 {
        lemma_no_build_error(protocol, records.drop_last());
    }
}

/// Whether an error can be true: what was too short is shorter than what was
/// needed, what was too much is more than the limit, a record type that is not
/// known is none of the six, and a group that is refused is not multicast.
pub open spec fn can_be_true(error: ParseErrorModel, limits: MembershipParseLimits) -> bool {
    match error {
        ParseErrorModel::Truncated { expected_at_least, actual, .. } => 0 <= actual
            < expected_at_least,
        ParseErrorModel::UnknownRecordType(value) => value == 0 || value > 6,
        ParseErrorModel::InvalidMulticastGroup(group) => !group.multicast_spec(),
        ParseErrorModel::TooManyRecords { limit, actual } => limit == limits.max_records && actual
            > limit,
        ParseErrorModel::TooManySources { limit, actual } => limit
            == limits.max_sources_per_record && actual > limit,
        ParseErrorModel::InvalidProtocol { expected, actual } => expected != actual,
        _ => true,
    }
}

proof fn lemma_record_refusals(
    protocol: MembershipProtocol,
    s: Seq<u8>,
    count: nat,
    limits: MembershipParseLimits,
)
    requires
        s.len() >= 8,
    ensures
        ({
            let read = records_upto(protocol, s, count, limits.max_sources_per_record as int);
            &&& read matches Err(error) ==> can_be_true(error, limits) && (error is Truncated
                || error is UnknownRecordType || error is TooManySources
                || error is InvalidMulticastGroup || error is MixedAddressFamilies)
            &&& read matches Ok((_, offset)) ==> 8 <= offset <= s.len()
        }),
    decreases count,
{
    reveal(record_at);
    if count > 0 {
        lemma_record_refusals(protocol, s, (count - 1) as nat, limits);
        let before = records_upto(
            protocol,
            s,
            (count - 1) as nat,
            limits.max_sources_per_record as int,
        );
        if before is Ok {
            let offset = before->Ok_0.1;
            assert(u16_at(s, offset + 2) * address_width(protocol) >= 0) by (nonlinear_arith)
                requires
                    u16_at(s, offset + 2) >= 0,
                    address_width(protocol) >= 0,
            ;
        }
    }
}

/// What is said of an IGMP message that is refused is true of it: an IGMP checksum
/// is blamed only if it is wrong, and a type only if it is none of those known.
pub proof fn law_igmp_refusals_are_true(s: Seq<u8>, limits: MembershipParseLimits)
    ensures
        igmp_records(s, limits) matches Err(error) ==> {
            &&& can_be_true(error, limits)
            &&& error is InvalidChecksum <==> s.len() >= 8 && ones_sum(s) != 0xffff
            &&& error is InvalidChecksum ==> error->InvalidChecksum_0 == "IGMP"@
            &&& error matches ParseErrorModel::UnsupportedMembershipMessage(value) ==> value == s[0]
                && value != 0x12 && value != 0x16 && value != 0x17 && value != 0x22
            &&& s.len() < 8 ==> error is Truncated && error->Truncated_actual == s.len()
                && error->Truncated_expected_at_least == 8
            &&& error is TooManyRecords ==> error->TooManyRecords_actual == s[6] * 256 + s[7]
            &&& !(error is InvalidIpVersion) && !(error is InvalidIpv4HeaderLength)
            &&& !(error is InvalidTotalLength) && !(error is InvalidProtocol)
            &&& !(error is MissingIpv6RouterAlert)
        },
{
    if s.len() >= 8 {
        lemma_record_refusals(
            MembershipProtocol::Igmpv3,
            s,
            u16_at(s, 6) as nat,
            limits,
        );
    }
}

/// What is said of an MLD message that is refused is true of it.
pub proof fn law_mld_refusals_are_true(
    source: Seq<u8>,
    destination: Seq<u8>,
    s: Seq<u8>,
    limits: MembershipParseLimits,
)
    ensures
        mld_records(source, destination, s, limits) matches Err(error) ==> {
            &&& can_be_true(error, limits)
            &&& error is InvalidChecksum <==> s.len() >= 8 && checksum_of(
                upper_layer_input(source, destination, 58, s),
            ) != 0
            &&& error is InvalidChecksum ==> error->InvalidChecksum_0 == "ICMPv6"@
            &&& error matches ParseErrorModel::UnsupportedMembershipMessage(value) ==> value == s[0]
                && value != 131 && value != 132 && value != 143
            &&& s.len() < 8 ==> error is Truncated && error->Truncated_actual == s.len()
                && error->Truncated_expected_at_least == 8
            &&& error is TooManyRecords ==> error->TooManyRecords_actual == s[6] * 256 + s[7]
            &&& error is Truncated && s.len() >= 8 && s[0] != 143
                ==> error->Truncated_expected_at_least == 24 && error->Truncated_actual == s.len()
            &&& !(error is InvalidIpVersion) && !(error is InvalidIpv4HeaderLength)
            &&& !(error is InvalidTotalLength) && !(error is InvalidProtocol)
            &&& !(error is MissingIpv6RouterAlert)
        },
{
    if s.len() >= 8 {
        lemma_record_refusals(
            MembershipProtocol::Mldv2,
            s,
            u16_at(s, 6) as nat,
            limits,
        );
    }
}

/// What is said of a packet that is refused is true of it, by its own bytes.
pub proof fn law_packet_refusals_are_true(s: Seq<u8>, limits: MembershipParseLimits)
    ensures
        packet_report(s, limits) matches Err(error) ==> {
            &&& can_be_true(error, limits)
            &&& error is InvalidIpVersion <==> s.len() > 0 && s[0] / 16 != 4 && s[0] / 16 != 6
            &&& error matches ParseErrorModel::InvalidIpVersion(version) ==> version == s[0] / 16
            &&& error matches ParseErrorModel::InvalidIpv4HeaderLength(length) ==> s[0] / 16 == 4
                && length == s[0] % 16 * 4 && length < 20
            &&& error matches ParseErrorModel::InvalidTotalLength { total_length, available } ==> {
                &&& available == s.len()
                &&& s[0] / 16 == 4 ==> total_length == s[2] * 256 + s[3] && (total_length > s.len()
                    || total_length < s[0] % 16 * 4)
                &&& s[0] / 16 == 6 ==> total_length == 40 + s[4] * 256 + s[5] && total_length
                    > s.len()
            }
            &&& error matches ParseErrorModel::InvalidProtocol { expected, actual } ==> {
                &&& s[0] / 16 == 4 ==> expected == 2 && actual == s[9]
                &&& s[0] / 16 == 6 ==> (expected == 1 && actual == s[7]) || (expected == 58
                    && actual == s[40])
            }
            &&& error is MissingIpv6RouterAlert ==> s[0] / 16 == 6 && s.len() >= 40 && (s[6] != 0
                || !ipv6_router_alert_from(s.subrange(42, 48 + s[41] * 8), 0))
            &&& s.len() == 0 ==> error is Truncated
            &&& s.len() > 0 && s[0] / 16 == 4 && s.len() < 20 ==> error is Truncated
                && error->Truncated_expected_at_least == 20 && error->Truncated_actual == s.len()
            &&& s.len() > 0 && s[0] / 16 == 6 && s.len() < 40 ==> error is Truncated
                && error->Truncated_expected_at_least == 40 && error->Truncated_actual == s.len()
        },
{
    if s.len() >= 20 && s[0] / 16 == 4 {
        let header = ipv4_header_len(s);
        if 20 <= header <= u16_at(s, 2) <= s.len() {
            law_igmp_refusals_are_true(s.subrange(header, u16_at(s, 2)), limits);
        }
    }
    if s.len() >= 48 && s[0] / 16 == 6 {
        let end = 40 + u16_at(s, 4);
        if 40 + hop_by_hop_len(s) <= end <= s.len() {
            law_mld_refusals_are_true(
                s.subrange(8, 24),
                s.subrange(24, 40),
                s.subrange(40 + hop_by_hop_len(s), end),
                limits,
            );
        }
    }
}

/// What is said of a report that cannot be written is true of it: of its number of
/// records, of one of its records, or of its length.
pub proof fn law_build_refusals_are_true(protocol: MembershipProtocol, records: Seq<RecordModel>)
    ensures
        build_error(protocol, records) matches Some(error) ==> match error {
            MembershipBuildError::EmptyReport => records.len() == 0,
            MembershipBuildError::TooManyRecords(_) => records.len() > 65535,
            MembershipBuildError::PacketTooLong(_) => records_len(protocol, records) > 65503,
            _ => exists|i: int|
                0 <= i < records.len() && record_refused(protocol, #[trigger] records[i], error),
        },
{
    if records.len() > 0 && first_build_error(protocol, records) is Some {
        lemma_first_build_error(protocol, records);
    }
}

/// Whether what is said of a record that cannot be written is true of it.
pub open spec fn record_refused(
    protocol: MembershipProtocol,
    record: RecordModel,
    error: MembershipBuildError,
) -> bool {
    match error {
        MembershipBuildError::UnsupportedRecordKind(kind) => kind == record.kind && (
        kind is LegacyReport || kind is LegacyLeave),
        MembershipBuildError::InvalidMulticastGroup(group) => group == record.group
            && !group.multicast_spec(),
        MembershipBuildError::ProtocolAddressFamilyMismatch { protocol: spoken, group } => spoken
            == protocol && group == record.group && (group is V4) != (protocol is Igmpv3),
        MembershipBuildError::TooManySources(_) => record.sources.len() > 65535,
        MembershipBuildError::MixedAddressFamilies => exists|k: int|
            0 <= k < record.sources.len() && (((#[trigger] record.sources[k]) is V4) != (
            record.group is V4) || record.sources[k].multicast_spec()),
        _ => false,
    }
}

proof fn lemma_first_build_error(protocol: MembershipProtocol, records: Seq<RecordModel>)
    requires
        first_build_error(protocol, records) is Some,
    ensures
        exists|i: int|
            0 <= i < records.len() && record_refused(
                protocol,
                #[trigger] records[i],
                first_build_error(protocol, records)->Some_0,
            ),
        !(first_build_error(protocol, records)->Some_0 is EmptyReport),
        !(first_build_error(protocol, records)->Some_0 is TooManyRecords),
        !(first_build_error(protocol, records)->Some_0 is PacketTooLong),
    decreases records.len(),
{
    let before = records.drop_last();
    if first_build_error(protocol, before) is Some {
        lemma_first_build_error(protocol, before);
        let error = first_build_error(protocol, before)->Some_0;
        let i = choose|i: int|
            0 <= i < before.len() && record_refused(protocol, #[trigger] before[i], error);
        assert(records[i] == before[i]);
    } else {
        assert(records[records.len() - 1] == records.last());
    }
}

} // verus!
