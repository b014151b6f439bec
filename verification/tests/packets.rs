use amt::checksum::{checksum, checksum_parts, icmpv6_checksum, ones_complement_sum};
use amt::ecn::{decapsulate_ecn, decapsulation_result, ip_ecn, EcnCodepoint, EcnError};
use amt::ip::{
    has_ipv4_router_alert, has_ipv6_router_alert, is_amt_forwardable_group,
    parse_multicast_packet, IpPacketError,
};
use amt::mtu::{fragment_ipv4_for_tunnel, Ipv4FragmentError};
use amt::net::{IpAddr, Ipv4Addr, Ipv6Addr};
use amt::protocol::MembershipProtocol;
use amt::query::{
    build_general_query, build_igmpv3_general_query, build_mldv2_general_query,
    encode_query_interval, general_query_interval, query_interval, validate_general_query,
    GeneralQueryConfig, QueryValidationError,
};
use amt::time::Duration;

const IPV4_HEADER_LEN: usize = 20;
const IPV4_MF: u16 = 0x2000;
const IPV4_DF: u16 = 0x4000;
const IPV4_OFFSET_MASK: u16 = 0x1fff;

fn v4(a: u8, b: u8, c: u8, d: u8) -> IpAddr {
    IpAddr::V4(Ipv4Addr::new(a, b, c, d))
}

fn v6(first: u16, second: u16, last: u16) -> IpAddr {
    IpAddr::V6(Ipv6Addr::new(first, second, 0, 0, 0, 0, 0, last))
}

#[test]
fn split_parts_preserve_odd_byte_boundaries() {
    let bytes = [1, 2, 3, 4, 5];

    assert_eq!(
        checksum_parts(&[&bytes[..1], &bytes[1..4], &bytes[4..]]),
        checksum(&bytes)
    );
}

#[test]
fn checksum_of_known_header() {
    let header = [
        0x45, 0x00, 0x00, 0x73, 0x00, 0x00, 0x40, 0x00, 0x40, 0x11, 0x00, 0x00, 0xc0, 0xa8, 0x00,
        0x01, 0xc0, 0xa8, 0x00, 0xc7,
    ];
    assert_eq!(checksum(&header), 0xb861);
    assert_eq!(checksum(&[]), 0xffff);
    assert_eq!(ones_complement_sum(&[0xff]), 0xff00);
}

#[test]
fn stored_icmpv6_checksum_verifies() {
    let source = Ipv6Addr::new(0xfe80, 0, 0, 0, 0, 0, 0, 1);
    let destination = Ipv6Addr::new(0xff02, 0, 0, 0, 0, 0, 0, 1);
    let mut message = vec![130u8, 0, 0, 0, 1, 2, 3, 4, 5];
    let sum = icmpv6_checksum(&source.octets(), &destination.octets(), 58, &message);
    message[2..4].copy_from_slice(&sum.to_be_bytes());
    assert_eq!(icmpv6_checksum(&source.octets(), &destination.octets(), 58, &message), 0);
}

fn ecn_ipv4_packet(ecn: EcnCodepoint) -> Vec<u8> {
    let mut packet = vec![0u8; 20];
    packet[0] = 0x45;
    packet[1] = 0b1010_1100 | ecn.bits();
    packet[2..4].copy_from_slice(&20u16.to_be_bytes());
    packet[8] = 16;
    packet[9] = 17;
    packet[12..16].copy_from_slice(&[192, 0, 2, 1]);
    packet[16..20].copy_from_slice(&[239, 1, 2, 3]);
    let header_checksum = checksum(&packet);
    packet[10..12].copy_from_slice(&header_checksum.to_be_bytes());
    packet
}

fn ecn_ipv6_packet(ecn: EcnCodepoint) -> Vec<u8> {
    let mut packet = vec![0u8; 40];
    packet[0] = 0b0110_1010;
    packet[1] = 0b1000_1111 | (ecn.bits() << 4);
    packet
}

#[test]
fn extracts_ipv4_and_ipv6_ecn_without_mixing_dscp() {
    assert_eq!(
        ip_ecn(&ecn_ipv4_packet(EcnCodepoint::Ect0)),
        Ok(EcnCodepoint::Ect0)
    );
    assert_eq!(
        ip_ecn(&ecn_ipv6_packet(EcnCodepoint::Ect1)),
        Ok(EcnCodepoint::Ect1)
    );
}

#[test]
fn propagates_more_severe_marking_and_repairs_ipv4_checksum() {
    let mut packet = ecn_ipv4_packet(EcnCodepoint::Ect0);
    let dscp = packet[1] & 0xfc;

    let result = decapsulate_ecn(&mut packet, EcnCodepoint::Ce).unwrap();

    assert_eq!(result.output, Some(EcnCodepoint::Ce));
    assert!(result.propagated_ce());
    assert_eq!(packet[1] & 0xfc, dscp);
    assert_eq!(ip_ecn(&packet), Ok(EcnCodepoint::Ce));
    assert_eq!(ones_complement_sum(&packet), 0xffff);
}

#[test]
fn preserves_ipv6_traffic_class_and_flow_label_bits() {
    let mut packet = ecn_ipv6_packet(EcnCodepoint::Ect0);
    let first = packet[0];
    let non_ecn = packet[1] & !0x30;

    decapsulate_ecn(&mut packet, EcnCodepoint::Ect1).unwrap();

    assert_eq!(packet[0], first);
    assert_eq!(packet[1] & !0x30, non_ecn);
    assert_eq!(ip_ecn(&packet), Ok(EcnCodepoint::Ect1));
}

#[test]
fn drops_not_ect_inner_with_ce_outer() {
    let mut packet = ecn_ipv4_packet(EcnCodepoint::NotEct);
    let original = packet.clone();

    let result = decapsulate_ecn(&mut packet, EcnCodepoint::Ce).unwrap();

    assert!(result.is_drop());
    assert!(result.currently_unused);
    assert_eq!(packet, original);
}

#[test]
fn implements_all_rfc_6040_figure_four_outputs() {
    let (not_ect, ect0, ect1, ce) = (
        EcnCodepoint::NotEct,
        EcnCodepoint::Ect0,
        EcnCodepoint::Ect1,
        EcnCodepoint::Ce,
    );
    let expected = [
        (not_ect, not_ect, Some(not_ect)),
        (not_ect, ect0, Some(not_ect)),
        (not_ect, ect1, Some(not_ect)),
        (not_ect, ce, None),
        (ect0, not_ect, Some(ect0)),
        (ect0, ect0, Some(ect0)),
        (ect0, ect1, Some(ect1)),
        (ect0, ce, Some(ce)),
        (ect1, not_ect, Some(ect1)),
        (ect1, ect0, Some(ect1)),
        (ect1, ect1, Some(ect1)),
        (ect1, ce, Some(ce)),
        (ce, not_ect, Some(ce)),
        (ce, ect0, Some(ce)),
        (ce, ect1, Some(ce)),
        (ce, ce, Some(ce)),
    ];

    for (inner, outer, output) in expected {
        assert_eq!(decapsulation_result(inner, outer).0, output);
    }
}

#[test]
fn ecn_of_bad_packets_is_refused() {
    assert_eq!(ip_ecn(&[]), Err(EcnError::Truncated));
    assert_eq!(ip_ecn(&[0x50; 60]), Err(EcnError::UnsupportedVersion(5)));
    let mut packet = ecn_ipv4_packet(EcnCodepoint::Ect0);
    packet[0] = 0x44;
    assert_eq!(ip_ecn(&packet), Err(EcnError::InvalidHeader));
}

fn mtu_packet(payload_len: usize, flags: u16) -> Vec<u8> {
    let total_len = IPV4_HEADER_LEN + payload_len;
    let mut packet = vec![0; total_len];
    packet[0] = 0x45;
    packet[2..4].copy_from_slice(&(total_len as u16).to_be_bytes());
    packet[4..6].copy_from_slice(&0x1234u16.to_be_bytes());
    packet[6..8].copy_from_slice(&flags.to_be_bytes());
    packet[8] = 16;
    packet[9] = 17;
    packet[12..16].copy_from_slice(&[192, 0, 2, 1]);
    packet[16..20].copy_from_slice(&[239, 1, 2, 3]);
    for (index, byte) in packet[IPV4_HEADER_LEN..].iter_mut().enumerate() {
        *byte = index as u8;
    }
    let header_checksum = checksum(&packet[..IPV4_HEADER_LEN]);
    packet[10..12].copy_from_slice(&header_checksum.to_be_bytes());
    packet
}

#[test]
fn fragments_oversized_ipv4_inside_tunnel_mtu() {
    let packet = mtu_packet(1_480, 0);
    let fragments = fragment_ipv4_for_tunnel(&packet, 1_250).unwrap();

    assert_eq!(fragments.len(), 2);
    assert!(fragments.iter().all(|fragment| fragment.len() <= 1_250));
    assert_eq!(fragments[0].len(), 1_244);
    assert_eq!(
        u16::from_be_bytes([fragments[0][6], fragments[0][7]]),
        IPV4_MF
    );
    assert_eq!(
        u16::from_be_bytes([fragments[1][6], fragments[1][7]]),
        1_224 / 8
    );
    assert!(fragments
        .iter()
        .all(|fragment| checksum(&fragment[..IPV4_HEADER_LEN]) == 0));
    let reassembled = fragments
        .iter()
        .flat_map(|fragment| fragment[IPV4_HEADER_LEN..].iter().copied())
        .collect::<Vec<_>>();
    assert_eq!(reassembled, packet[IPV4_HEADER_LEN..]);
}

#[test]
fn refuses_to_fragment_df_packet() {
    assert_eq!(
        fragment_ipv4_for_tunnel(&mtu_packet(1_480, IPV4_DF), 1_250),
        Err(Ipv4FragmentError::DontFragment)
    );
}

#[test]
fn preserves_existing_fragment_offset_and_more_flag() {
    let packet = mtu_packet(1_000, IPV4_MF | 10);
    let fragments = fragment_ipv4_for_tunnel(&packet, 620).unwrap();

    assert_eq!(fragments.len(), 2);
    assert_eq!(
        u16::from_be_bytes([fragments[0][6], fragments[0][7]]),
        IPV4_MF | 10
    );
    assert_eq!(
        u16::from_be_bytes([fragments[1][6], fragments[1][7]]),
        IPV4_MF | (10 + 600 / 8)
    );
}

#[test]
fn rejects_existing_fragment_that_cannot_fit_a_reassembled_ipv4_packet() {
    assert_eq!(
        fragment_ipv4_for_tunnel(&mtu_packet(16, IPV4_OFFSET_MASK), 28),
        Err(Ipv4FragmentError::FragmentOffsetOverflow)
    );
}

#[test]
fn every_reason_not_to_fragment() {
    assert_eq!(
        fragment_ipv4_for_tunnel(&[0x60; 40], 30),
        Err(Ipv4FragmentError::InvalidPacket)
    );
    assert_eq!(
        fragment_ipv4_for_tunnel(&mtu_packet(100, 0), 27),
        Err(Ipv4FragmentError::MtuTooSmall)
    );
    let mut options = mtu_packet(100, 0);
    options[0] = 0x46;
    assert_eq!(
        fragment_ipv4_for_tunnel(&options, 60),
        Err(Ipv4FragmentError::HeaderOptions)
    );
    let whole = mtu_packet(100, 0);
    assert_eq!(fragment_ipv4_for_tunnel(&whole, 120), Ok(vec![whole]));
}

fn ip_packet(fragment: u16) -> Vec<u8> {
    let mut packet = vec![0u8; 28];
    packet[0] = 0x45;
    packet[2..4].copy_from_slice(&28u16.to_be_bytes());
    packet[6..8].copy_from_slice(&fragment.to_be_bytes());
    packet[8] = 16;
    packet[9] = 17;
    packet[12..16].copy_from_slice(&[192, 0, 2, 1]);
    packet[16..20].copy_from_slice(&[239, 1, 2, 3]);
    let checksum = !ones_complement_sum(&packet[..20]);
    packet[10..12].copy_from_slice(&checksum.to_be_bytes());
    packet
}

#[test]
fn parses_fragmented_ipv4_multicast() {
    let packet = ip_packet(0x2000);
    let parsed = parse_multicast_packet(&packet).unwrap();
    assert!(parsed.fragmented);
    assert_eq!(parsed.group, v4(239, 1, 2, 3));
}

#[test]
fn rejects_trailing_data_and_bad_checksum() {
    let mut packet = ip_packet(0);
    packet.push(0);
    assert_eq!(
        parse_multicast_packet(&packet),
        Err(IpPacketError::InvalidLength)
    );

    let mut packet = ip_packet(0);
    packet[8] ^= 1;
    assert_eq!(
        parse_multicast_packet(&packet),
        Err(IpPacketError::InvalidChecksum)
    );
}

#[test]
fn every_reason_to_refuse_a_packet() {
    assert_eq!(parse_multicast_packet(&[]), Err(IpPacketError::Truncated));
    assert_eq!(
        parse_multicast_packet(&[0x70; 64]),
        Err(IpPacketError::UnsupportedVersion(7))
    );
    let mut unicast = ip_packet(0);
    unicast[16..20].copy_from_slice(&[192, 0, 2, 9]);
    unicast[10..12].copy_from_slice(&[0, 0]);
    let sum = checksum(&unicast[..20]);
    unicast[10..12].copy_from_slice(&sum.to_be_bytes());
    assert_eq!(
        parse_multicast_packet(&unicast),
        Err(IpPacketError::NonMulticastDestination(v4(192, 0, 2, 9)))
    );
    let mut nobody = ip_packet(0);
    nobody[12..16].copy_from_slice(&[0, 0, 0, 0]);
    nobody[10..12].copy_from_slice(&[0, 0]);
    let sum = checksum(&nobody[..20]);
    nobody[10..12].copy_from_slice(&sum.to_be_bytes());
    assert_eq!(
        parse_multicast_packet(&nobody),
        Err(IpPacketError::InvalidSource(v4(0, 0, 0, 0)))
    );
    let mut header = ip_packet(0);
    header[0] = 0x44;
    assert_eq!(
        parse_multicast_packet(&header),
        Err(IpPacketError::InvalidHeader)
    );
}

#[test]
fn filters_link_local_and_reserved_multicast_scopes() {
    assert!(!is_amt_forwardable_group(v4(224, 0, 0, 22)));
    assert!(is_amt_forwardable_group(v4(239, 1, 2, 3)));
    assert!(!is_amt_forwardable_group(v6(0xff02, 0, 1)));
    assert!(is_amt_forwardable_group(v6(0xff3e, 0, 1)));
    assert!(!is_amt_forwardable_group(v6(0xffff, 0, 1)));
}

#[test]
fn router_alert_must_start_at_an_option_boundary() {
    assert!(has_ipv4_router_alert(&[0x94, 4, 0, 0]));
    assert!(!has_ipv4_router_alert(&[0x82, 6, 0x94, 4, 0, 0]));
    assert!(has_ipv6_router_alert(&[5, 2, 0, 0, 1, 0]));
    assert!(!has_ipv6_router_alert(&[1, 4, 5, 2, 0, 0]));
}

#[test]
fn builds_igmpv3_general_query_ip_datagram() {
    let packet = build_igmpv3_general_query(&GeneralQueryConfig::default());

    assert_eq!(packet.len(), 36);
    assert_eq!(packet[0], 0x46);
    assert_eq!(u16::from_be_bytes([packet[2], packet[3]]), 36);
    assert_eq!(packet[8], 1);
    assert_eq!(packet[9], 2);
    assert_eq!(&packet[16..20], &[224, 0, 0, 1]);
    assert_eq!(&packet[20..24], &[0x94, 0x04, 0x00, 0x00]);
    assert_eq!(ones_complement_sum(&packet[..24]), 0xffff);

    let igmp = &packet[24..];
    assert_eq!(igmp[0], 0x11);
    assert_eq!(igmp[1], 100);
    assert_eq!(&igmp[4..8], &[0, 0, 0, 0]);
    assert_eq!(u16::from_be_bytes([igmp[10], igmp[11]]), 0);
    assert_eq!(ones_complement_sum(igmp), 0xffff);
}

#[test]
fn builds_mldv2_general_query_ip_datagram() {
    let packet = build_mldv2_general_query(&GeneralQueryConfig::default());
    let all_nodes = Ipv6Addr::new(0xff02, 0, 0, 0, 0, 0, 0, 1).octets();

    assert_eq!(packet.len(), 76);
    assert_eq!(packet[0], 0x60);
    assert_eq!(u16::from_be_bytes([packet[4], packet[5]]), 36);
    assert_eq!(packet[6], 0);
    assert_eq!(packet[7], 1);
    assert_eq!(&packet[24..40], &all_nodes);
    assert_eq!(&packet[40..48], &[58, 0, 5, 2, 0, 0, 1, 0]);

    let mld = &packet[48..];
    assert_eq!(mld[0], 130);
    assert_eq!(u16::from_be_bytes([mld[4], mld[5]]), 10_000);
    assert_eq!(&mld[8..24], &[0; 16]);
    assert_eq!(u16::from_be_bytes([mld[26], mld[27]]), 0);

    let mut pseudo_header = Vec::new();
    pseudo_header.extend_from_slice(&[0; 16]);
    pseudo_header.extend_from_slice(&all_nodes);
    pseudo_header.extend_from_slice(&28u32.to_be_bytes());
    pseudo_header.extend_from_slice(&[0, 0, 0, 58]);
    pseudo_header.extend_from_slice(mld);
    assert_eq!(ones_complement_sum(&pseudo_header), 0xffff);
}

#[test]
fn validates_built_queries_and_rejects_wrong_family() {
    let igmp = build_general_query(MembershipProtocol::Igmpv3, &GeneralQueryConfig::default());
    let mld = build_general_query(MembershipProtocol::Mldv2, &GeneralQueryConfig::default());

    assert_eq!(
        validate_general_query(MembershipProtocol::Igmpv3, &igmp),
        Ok(())
    );
    assert_eq!(
        validate_general_query(MembershipProtocol::Mldv2, &mld),
        Ok(())
    );
    assert_eq!(
        validate_general_query(MembershipProtocol::Mldv2, &igmp),
        Err(QueryValidationError::WrongAddressFamily)
    );
}

#[test]
fn rejects_query_without_link_local_hop_limit() {
    let mut query = build_general_query(MembershipProtocol::Igmpv3, &GeneralQueryConfig::default());
    query[8] = 2;

    assert_eq!(
        validate_general_query(MembershipProtocol::Igmpv3, &query),
        Err(QueryValidationError::InvalidHeader)
    );
}

#[test]
fn accepts_global_unicast_mld_query_source() {
    let config = GeneralQueryConfig {
        mld_source: Ipv6Addr::new(0x2001, 0xdb8, 0, 0, 0, 0, 0, 1),
        ..GeneralQueryConfig::default()
    };
    let query = build_general_query(MembershipProtocol::Mldv2, &config);

    assert_eq!(
        validate_general_query(MembershipProtocol::Mldv2, &query),
        Ok(())
    );
}

#[test]
fn built_queries_carry_their_interval() {
    let config = GeneralQueryConfig {
        query_interval_code: 0x8f,
        ..GeneralQueryConfig::default()
    };
    for protocol in [MembershipProtocol::Igmpv3, MembershipProtocol::Mldv2] {
        let query = build_general_query(protocol, &config);
        assert_eq!(
            general_query_interval(protocol, &query),
            Ok(query_interval(0x8f))
        );
    }
}

#[test]
fn every_reason_to_refuse_a_query() {
    let protocol = MembershipProtocol::Igmpv3;
    let good = build_general_query(protocol, &GeneralQueryConfig::default());
    assert_eq!(
        validate_general_query(protocol, &[]),
        Err(QueryValidationError::Truncated)
    );
    let mut long = good.clone();
    long.push(0);
    assert_eq!(
        validate_general_query(protocol, &long),
        Err(QueryValidationError::InvalidLength)
    );
    let mut sum = good.clone();
    sum[26] ^= 1;
    assert_eq!(
        validate_general_query(protocol, &sum),
        Err(QueryValidationError::InvalidChecksum)
    );
    let mut specific = good;
    specific[28..32].copy_from_slice(&[239, 1, 2, 3]);
    specific[26..28].copy_from_slice(&[0, 0]);
    let igmp = checksum(&specific[24..]);
    specific[26..28].copy_from_slice(&igmp.to_be_bytes());
    assert_eq!(
        validate_general_query(protocol, &specific),
        Err(QueryValidationError::NotGeneralQuery)
    );
    let config = GeneralQueryConfig {
        igmp_source: Ipv4Addr::new(239, 1, 1, 1),
        ..GeneralQueryConfig::default()
    };
    assert_eq!(
        validate_general_query(protocol, &build_general_query(protocol, &config)),
        Err(QueryValidationError::InvalidSource)
    );
}

#[test]
fn decodes_query_interval_code() {
    assert_eq!(query_interval(125), Duration::from_secs(125));
    assert_eq!(query_interval(0x80), Duration::from_secs(128));
    assert_eq!(query_interval(0xff), Duration::from_secs(31_744));
    assert_eq!(encode_query_interval(Duration::from_secs(125)), 125);
    assert_eq!(
        query_interval(encode_query_interval(Duration::from_secs(300))),
        Duration::from_secs(304)
    );
    assert_eq!(encode_query_interval(Duration::from_secs(40_000)), u8::MAX);
}
