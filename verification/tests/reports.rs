use amt::checksum::{checksum, icmpv6_checksum};
use amt::membership::{
    build_membership_report, parse_membership_report, parse_membership_report_with_limits,
    MembershipBuildError, MembershipParseError, MembershipParseLimits, MembershipRecord,
    MembershipRecordKind, MembershipReport, IGMPV3_REPORT_DESTINATION_BITS,
    MLDV2_REPORT_DESTINATION_BITS,
};
use amt::net::{IpAddr, Ipv4Addr, Ipv6Addr};
use amt::protocol::MembershipProtocol;

const IPV4_MIN_HEADER_LEN: usize = 20;
const IPV6_HEADER_LEN: usize = 40;
const IPV6_HOP_BY_HOP: u8 = 0;
const IGMP_PROTOCOL: u8 = 2;
const ICMPV6_PROTOCOL: u8 = 58;
const IGMPV2_MEMBERSHIP_REPORT: u8 = 0x16;
const IGMPV2_LEAVE_GROUP: u8 = 0x17;
const IGMPV3_MEMBERSHIP_REPORT: u8 = 0x22;
const MLDV2_LISTENER_REPORT: u8 = 143;

#[test]
fn parses_igmpv3_membership_report() {
    let packet = ipv4_packet(igmpv3_report(&[igmpv3_record(
        1,
        Ipv4Addr::new(232, 1, 2, 3),
        &[Ipv4Addr::new(192, 0, 2, 1)],
    )]));

    let report = parse_membership_report(&packet).unwrap();

    assert_eq!(report.protocol, MembershipProtocol::Igmpv3);
    assert_eq!(
        report.records,
        vec![MembershipRecord {
            kind: MembershipRecordKind::ModeIsInclude,
            group: IpAddr::V4(Ipv4Addr::new(232, 1, 2, 3)),
            sources: vec![IpAddr::V4(Ipv4Addr::new(192, 0, 2, 1))],
        }]
    );
}

#[test]
fn parses_igmpv2_leave() {
    let packet = ipv4_packet(igmpv2_message(
        IGMPV2_LEAVE_GROUP,
        Ipv4Addr::new(239, 1, 2, 3),
    ));

    let report = parse_membership_report(&packet).unwrap();

    assert_eq!(
        report.records,
        vec![MembershipRecord {
            kind: MembershipRecordKind::LegacyLeave,
            group: IpAddr::V4(Ipv4Addr::new(239, 1, 2, 3)),
            sources: Vec::new(),
        }]
    );
}

#[test]
fn parses_mldv2_listener_report() {
    let packet = ipv6_packet(mldv2_report(&[mldv2_record(
        4,
        Ipv6Addr::new(0xff3e, 0, 0, 0, 0, 0, 0x8000, 0x1234),
        &[Ipv6Addr::new(0x2001, 0xdb8, 0, 0, 0, 0, 0, 1)],
    )]));

    let report = parse_membership_report(&packet).unwrap();

    assert_eq!(report.protocol, MembershipProtocol::Mldv2);
    assert_eq!(
        report.records,
        vec![MembershipRecord {
            kind: MembershipRecordKind::ChangeToExclude,
            group: IpAddr::V6(Ipv6Addr::new(0xff3e, 0, 0, 0, 0, 0, 0x8000, 0x1234)),
            sources: vec![IpAddr::V6(Ipv6Addr::new(0x2001, 0xdb8, 0, 0, 0, 0, 0, 1))],
        }]
    );
}

#[test]
fn rejects_bad_igmp_checksum() {
    let mut packet = ipv4_packet(igmpv2_message(
        IGMPV2_MEMBERSHIP_REPORT,
        Ipv4Addr::new(239, 1, 2, 3),
    ));
    let offset = IPV4_MIN_HEADER_LEN + 2;
    packet[offset] ^= 0xff;

    assert_eq!(
        parse_membership_report(&packet),
        Err(MembershipParseError::InvalidChecksum("IGMP"))
    );
}

#[test]
fn rejects_truncated_igmpv3_record_after_checksum_validation() {
    let packet = ipv4_packet(igmpv3_report(&[]));
    let mut packet = packet;
    let igmp_offset = IPV4_MIN_HEADER_LEN;
    packet[igmp_offset + 6..igmp_offset + 8].copy_from_slice(&1u16.to_be_bytes());
    packet[igmp_offset + 2..igmp_offset + 4].copy_from_slice(&[0, 0]);
    let checksum = checksum(&packet[igmp_offset..]);
    packet[igmp_offset + 2..igmp_offset + 4].copy_from_slice(&checksum.to_be_bytes());

    assert_eq!(
        parse_membership_report(&packet),
        Err(MembershipParseError::Truncated {
            context: "IGMPv3 group record",
            expected_at_least: 8,
            actual: 0
        })
    );
}

#[test]
fn builds_parseable_igmpv3_membership_report() {
    let report = MembershipReport {
        protocol: MembershipProtocol::Igmpv3,
        records: vec![MembershipRecord {
            kind: MembershipRecordKind::ModeIsInclude,
            group: IpAddr::V4(Ipv4Addr::new(232, 1, 2, 3)),
            sources: vec![IpAddr::V4(Ipv4Addr::new(192, 0, 2, 1))],
        }],
    };

    let packet = build_membership_report(&report).unwrap();

    assert_eq!(packet[0], 0x46);
    assert_eq!(&packet[16..20], &Ipv4Addr { bits: IGMPV3_REPORT_DESTINATION_BITS }.octets());
    assert_eq!(parse_membership_report(&packet).unwrap(), report);
}

#[test]
fn builds_parseable_mldv2_membership_report() {
    let report = MembershipReport {
        protocol: MembershipProtocol::Mldv2,
        records: vec![MembershipRecord {
            kind: MembershipRecordKind::ChangeToExclude,
            group: IpAddr::V6(Ipv6Addr::new(0xff3e, 0, 0, 0, 0, 0, 0x8000, 0x1234)),
            sources: vec![IpAddr::V6(Ipv6Addr::new(0x2001, 0xdb8, 0, 0, 0, 0, 0, 1))],
        }],
    };

    let packet = build_membership_report(&report).unwrap();

    assert_eq!(packet[0], 0x60);
    assert_eq!(&packet[24..40], &Ipv6Addr { bits: MLDV2_REPORT_DESTINATION_BITS }.octets());
    assert_eq!(parse_membership_report(&packet).unwrap(), report);
}

#[test]
fn build_rejects_empty_reports() {
    let report = MembershipReport {
        protocol: MembershipProtocol::Igmpv3,
        records: Vec::new(),
    };

    assert_eq!(
        build_membership_report(&report),
        Err(MembershipBuildError::EmptyReport)
    );
}

#[test]
fn build_rejects_multicast_sources() {
    let report = MembershipReport {
        protocol: MembershipProtocol::Igmpv3,
        records: vec![MembershipRecord {
            kind: MembershipRecordKind::ModeIsInclude,
            group: IpAddr::V4(Ipv4Addr::new(232, 1, 2, 3)),
            sources: vec![IpAddr::V4(Ipv4Addr::new(239, 1, 2, 4))],
        }],
    };

    assert_eq!(
        build_membership_report(&report),
        Err(MembershipBuildError::MixedAddressFamilies)
    );
}

fn ipv4_packet(mut payload: Vec<u8>) -> Vec<u8> {
    let total_len = IPV4_MIN_HEADER_LEN + payload.len();
    let mut packet = vec![0; IPV4_MIN_HEADER_LEN];
    packet[0] = 0x45;
    packet[2..4].copy_from_slice(&(total_len as u16).to_be_bytes());
    packet[8] = 1;
    packet[9] = IGMP_PROTOCOL;
    packet[12..16].copy_from_slice(&Ipv4Addr::new(198, 51, 100, 1).octets());
    packet[16..20].copy_from_slice(&Ipv4Addr::new(224, 0, 0, 22).octets());
    let checksum = checksum(&packet);
    packet[10..12].copy_from_slice(&checksum.to_be_bytes());
    packet.append(&mut payload);
    packet
}

fn igmpv2_message(kind: u8, group: Ipv4Addr) -> Vec<u8> {
    let mut payload = vec![0; 8];
    payload[0] = kind;
    payload[4..8].copy_from_slice(&group.octets());
    let checksum = checksum(&payload);
    payload[2..4].copy_from_slice(&checksum.to_be_bytes());
    payload
}

fn igmpv3_report(records: &[Vec<u8>]) -> Vec<u8> {
    let mut payload = vec![0; 8];
    payload[0] = IGMPV3_MEMBERSHIP_REPORT;
    payload[6..8].copy_from_slice(&(records.len() as u16).to_be_bytes());
    for record in records {
        payload.extend_from_slice(record);
    }
    let checksum = checksum(&payload);
    payload[2..4].copy_from_slice(&checksum.to_be_bytes());
    payload
}

fn igmpv3_record(kind: u8, group: Ipv4Addr, sources: &[Ipv4Addr]) -> Vec<u8> {
    let mut record = vec![0; 8];
    record[0] = kind;
    record[2..4].copy_from_slice(&(sources.len() as u16).to_be_bytes());
    record[4..8].copy_from_slice(&group.octets());
    for source in sources {
        record.extend_from_slice(&source.octets());
    }
    record
}

fn ipv6_packet(mut icmp: Vec<u8>) -> Vec<u8> {
    let payload_len = 8 + icmp.len();
    let total_len = IPV6_HEADER_LEN + payload_len;
    let mut packet = vec![0; total_len];
    packet[0] = 0x60;
    packet[4..6].copy_from_slice(&(payload_len as u16).to_be_bytes());
    packet[6] = IPV6_HOP_BY_HOP;
    packet[7] = 1;
    let src = Ipv6Addr::new(0, 0, 0, 0, 0, 0, 0, 1).octets();
    let dst = Ipv6Addr::new(0xff02, 0, 0, 0, 0, 0, 0, 0x16).octets();
    packet[8..24].copy_from_slice(&src);
    packet[24..40].copy_from_slice(&dst);
    packet[40..48].copy_from_slice(&[ICMPV6_PROTOCOL, 0, 5, 2, 0, 0, 1, 0]);
    let checksum = icmpv6_checksum(&src, &dst, ICMPV6_PROTOCOL, &icmp);
    icmp[2..4].copy_from_slice(&checksum.to_be_bytes());
    packet[48..].copy_from_slice(&icmp);
    packet
}

fn mldv2_report(records: &[Vec<u8>]) -> Vec<u8> {
    let mut payload = vec![0; 8];
    payload[0] = MLDV2_LISTENER_REPORT;
    payload[6..8].copy_from_slice(&(records.len() as u16).to_be_bytes());
    for record in records {
        payload.extend_from_slice(record);
    }
    payload
}

fn mldv2_record(kind: u8, group: Ipv6Addr, sources: &[Ipv6Addr]) -> Vec<u8> {
    let mut record = vec![0; 20];
    record[0] = kind;
    record[2..4].copy_from_slice(&(sources.len() as u16).to_be_bytes());
    record[4..20].copy_from_slice(&group.octets());
    for source in sources {
        record.extend_from_slice(&source.octets());
    }
    record
}

fn report_of(records: Vec<MembershipRecord>) -> MembershipReport {
    MembershipReport {
        protocol: MembershipProtocol::Igmpv3,
        records,
    }
}

fn include_record(group: IpAddr, sources: Vec<IpAddr>) -> MembershipRecord {
    MembershipRecord {
        kind: MembershipRecordKind::ModeIsInclude,
        group,
        sources,
    }
}

fn v4(a: u8, b: u8, c: u8, d: u8) -> IpAddr {
    IpAddr::V4(Ipv4Addr::new(a, b, c, d))
}

#[test]
fn parse_limits_bound_records_and_sources() {
    let packet = ipv4_packet(igmpv3_report(&[
        igmpv3_record(
            1,
            Ipv4Addr::new(232, 1, 2, 3),
            &[Ipv4Addr::new(192, 0, 2, 1), Ipv4Addr::new(192, 0, 2, 2)],
        ),
        igmpv3_record(2, Ipv4Addr::new(239, 1, 2, 4), &[]),
    ]));

    assert_eq!(
        parse_membership_report_with_limits(
            &packet,
            MembershipParseLimits { max_records: 1, max_sources_per_record: 2 }
        ),
        Err(MembershipParseError::TooManyRecords { limit: 1, actual: 2 })
    );
    assert_eq!(
        parse_membership_report_with_limits(
            &packet,
            MembershipParseLimits { max_records: 2, max_sources_per_record: 1 }
        ),
        Err(MembershipParseError::TooManySources { limit: 1, actual: 2 })
    );
    let report = parse_membership_report_with_limits(
        &packet,
        MembershipParseLimits { max_records: 2, max_sources_per_record: 2 },
    )
    .unwrap();
    assert_eq!(report.records.len(), 2);
    assert_eq!(report.records[1].kind, MembershipRecordKind::ModeIsExclude);
}

#[test]
fn parse_names_each_defect() {
    assert!(matches!(
        parse_membership_report(&[]),
        Err(MembershipParseError::Truncated { .. })
    ));
    assert_eq!(
        parse_membership_report(&[0x50]),
        Err(MembershipParseError::InvalidIpVersion(5))
    );
    let good = ipv4_packet(igmpv2_message(IGMPV2_MEMBERSHIP_REPORT, Ipv4Addr::new(239, 1, 2, 3)));
    assert_eq!(
        parse_membership_report(&good).unwrap().records[0].kind,
        MembershipRecordKind::LegacyReport
    );

    let mut packet = good.clone();
    packet[0] = 0x44;
    assert!(matches!(
        parse_membership_report(&packet),
        Err(MembershipParseError::InvalidIpv4HeaderLength(_))
    ));

    let mut packet = good.clone();
    packet[3] = 29;
    assert_eq!(
        parse_membership_report(&packet),
        Err(MembershipParseError::InvalidTotalLength { total_length: 29, available: 28 })
    );

    let mut packet = good.clone();
    packet[10] ^= 0xff;
    assert!(matches!(
        parse_membership_report(&packet),
        Err(MembershipParseError::InvalidChecksum(_))
    ));

    let mut packet = good.clone();
    packet[9] = 17;
    packet[10..12].fill(0);
    let sum = checksum(&packet[..IPV4_MIN_HEADER_LEN]);
    packet[10..12].copy_from_slice(&sum.to_be_bytes());
    assert_eq!(
        parse_membership_report(&packet),
        Err(MembershipParseError::InvalidProtocol { expected: 2, actual: 17 })
    );

    assert_eq!(
        parse_membership_report(&ipv4_packet(igmpv2_message(0x99, Ipv4Addr::new(239, 1, 2, 3)))),
        Err(MembershipParseError::UnsupportedMembershipMessage(0x99))
    );
    assert_eq!(
        parse_membership_report(&ipv4_packet(igmpv3_report(&[igmpv3_record(
            9,
            Ipv4Addr::new(232, 1, 2, 3),
            &[]
        )]))),
        Err(MembershipParseError::UnknownRecordType(9))
    );
    assert_eq!(
        parse_membership_report(&ipv4_packet(igmpv2_message(
            IGMPV2_MEMBERSHIP_REPORT,
            Ipv4Addr::new(192, 0, 2, 1)
        ))),
        Err(MembershipParseError::InvalidMulticastGroup(v4(192, 0, 2, 1)))
    );
}

#[test]
fn build_names_each_defect() {
    let group = v4(232, 1, 2, 3);
    let legacy = MembershipRecord {
        kind: MembershipRecordKind::LegacyReport,
        group,
        sources: Vec::new(),
    };
    assert_eq!(
        build_membership_report(&report_of(vec![legacy])),
        Err(MembershipBuildError::UnsupportedRecordKind(MembershipRecordKind::LegacyReport))
    );
    assert_eq!(
        build_membership_report(&report_of(vec![include_record(v4(192, 0, 2, 1), vec![])])),
        Err(MembershipBuildError::InvalidMulticastGroup(v4(192, 0, 2, 1)))
    );
    let wide = IpAddr::V6(Ipv6Addr::new(0xff3e, 0, 0, 0, 0, 0, 0, 1));
    assert_eq!(
        build_membership_report(&report_of(vec![include_record(wide, vec![])])),
        Err(MembershipBuildError::ProtocolAddressFamilyMismatch {
            protocol: MembershipProtocol::Igmpv3,
            group: wide,
        })
    );
    let sources: Vec<IpAddr> = (0..70_000u32)
        .map(|i| IpAddr::V4(Ipv4Addr { bits: 0x0a00_0000 + i }))
        .collect();
    assert_eq!(
        build_membership_report(&report_of(vec![include_record(group, sources)])),
        Err(MembershipBuildError::TooManySources(70_000))
    );
    let sources: Vec<IpAddr> = (0..20_000u32)
        .map(|i| IpAddr::V4(Ipv4Addr { bits: 0x0a00_0000 + i }))
        .collect();
    assert!(matches!(
        build_membership_report(&report_of(vec![include_record(group, sources)])),
        Err(MembershipBuildError::PacketTooLong(_))
    ));
    let records: Vec<MembershipRecord> = (0..70_000)
        .map(|_| include_record(group, vec![]))
        .collect();
    assert_eq!(
        build_membership_report(&report_of(records)),
        Err(MembershipBuildError::TooManyRecords(70_000))
    );
}
