use amt::downstream::{
    parse_ip_multicast_datagram, platform_support, DownstreamConfig, DownstreamConfigError, Egress,
    EgressSupport, PublicationAddressFamily,
};
use amt::net::{IpAddr, Ipv4Addr, Ipv6Addr};
use amt::protocol::MembershipProtocol;

const IPV4_MIN_HEADER_LEN: usize = 20;
const IPV6_HEADER_LEN: usize = 40;
const UDP_HEADER_LEN: usize = 8;
const UDP_PROTOCOL: u8 = 17;

#[test]
fn parses_ipv4_udp_multicast_datagram() {
    let packet = ipv4_udp_packet(
        Ipv4Addr::new(192, 0, 2, 1),
        Ipv4Addr::new(239, 1, 2, 3),
        5000,
        b"hello",
    );

    let parsed = parse_ip_multicast_datagram(&packet).unwrap();

    assert_eq!(parsed.family, PublicationAddressFamily::Ipv4);
    assert_eq!(parsed.source, IpAddr::V4(Ipv4Addr::new(192, 0, 2, 1)));
    assert_eq!(parsed.group, IpAddr::V4(Ipv4Addr::new(239, 1, 2, 3)));
    assert_eq!(parsed.ip_protocol, UDP_PROTOCOL);
    assert_eq!(parsed.udp_dst_port, Some(5000));
    assert_eq!(parsed.datagram_len, packet.len());
}

#[test]
fn parses_ipv6_udp_multicast_datagram() {
    let packet = ipv6_udp_packet(
        Ipv6Addr::new(0x2001, 0xdb8, 0, 0, 0, 0, 0, 1),
        Ipv6Addr::new(0xff3e, 0, 0, 0, 0, 0, 0x8000, 0x1234),
        5000,
        b"hello",
    );

    let parsed = parse_ip_multicast_datagram(&packet).unwrap();

    assert_eq!(parsed.family, PublicationAddressFamily::Ipv6);
    assert_eq!(parsed.source, IpAddr::V6(Ipv6Addr::new(0x2001, 0xdb8, 0, 0, 0, 0, 0, 1)));
    assert_eq!(parsed.group, IpAddr::V6(Ipv6Addr::new(0xff3e, 0, 0, 0, 0, 0, 0x8000, 0x1234)));
    assert_eq!(parsed.ip_protocol, UDP_PROTOCOL);
    assert_eq!(parsed.udp_dst_port, Some(5000));
    assert_eq!(parsed.datagram_len, packet.len());
}

#[test]
fn no_interface_builds_route_selected_publication() {
    let publication =
        DownstreamConfig::default().build_publication_config(PublicationAddressFamily::Ipv4);

    assert_eq!(publication.egress, Egress::RoutedIpv4);
    assert_eq!(publication.loopback, None);
}

#[test]
fn explicit_interface_stays_pinned() {
    let config = DownstreamConfig {
        interface: Some(IpAddr::V4(Ipv4Addr::new(192, 0, 2, 2))),
        ..DownstreamConfig::default()
    };

    let publication = config.build_publication_config(PublicationAddressFamily::Ipv4);

    assert_eq!(publication.egress, Egress::Ipv4(Ipv4Addr::new(192, 0, 2, 2)));
}

#[test]
fn ipv6_loopback_request_is_rejected_portably() {
    let config = DownstreamConfig {
        interface: Some(IpAddr::V6(Ipv6Addr::new(0x2001, 0xdb8, 0, 0, 0, 0, 0, 2))),
        loopback: Some(true),
        ..DownstreamConfig::default()
    };

    assert_eq!(
        config
            .validate_options_for_protocol(MembershipProtocol::Mldv2)
            .unwrap_err(),
        DownstreamConfigError::Ipv6LoopbackUnsupported
    );
}

#[test]
fn linux_supports_route_selected_full_header_ipv6() {
    assert!(
        DownstreamConfig::default()
            .validate_for_protocol(MembershipProtocol::Mldv2)
            .is_ok()
    );
}

#[test]
fn parses_non_udp_multicast_datagram_without_udp_port() {
    let packet = ipv4_packet(
        Ipv4Addr::new(192, 0, 2, 1),
        Ipv4Addr::new(239, 1, 2, 3),
        1,
        &[],
    );

    let parsed = parse_ip_multicast_datagram(&packet).unwrap();

    assert_eq!(parsed.ip_protocol, 1);
    assert_eq!(parsed.udp_dst_port, None);
    assert_eq!(parsed.datagram_len, packet.len());
}

#[test]
fn malformed_udp_length_keeps_datagram_but_omits_udp_port() {
    let mut packet = ipv4_udp_packet(
        Ipv4Addr::new(192, 0, 2, 1),
        Ipv4Addr::new(239, 1, 2, 3),
        5000,
        b"hello",
    );
    packet[IPV4_MIN_HEADER_LEN + 4..IPV4_MIN_HEADER_LEN + 6]
        .copy_from_slice(&100u16.to_be_bytes());

    let parsed = parse_ip_multicast_datagram(&packet).unwrap();

    assert_eq!(parsed.ip_protocol, UDP_PROTOCOL);
    assert_eq!(parsed.udp_dst_port, None);
    assert_eq!(parsed.datagram_len, packet.len());
}

#[test]
fn ignores_non_multicast_destinations() {
    let packet = ipv4_packet(
        Ipv4Addr::new(192, 0, 2, 1),
        Ipv4Addr::new(198, 51, 100, 20),
        UDP_PROTOCOL,
        &[0; UDP_HEADER_LEN],
    );

    assert_eq!(parse_ip_multicast_datagram(&packet), None);
}

#[test]
fn trims_ipv4_trailing_bytes_to_ip_total_length() {
    let mut packet = ipv4_udp_packet(
        Ipv4Addr::new(192, 0, 2, 1),
        Ipv4Addr::new(239, 1, 2, 3),
        5000,
        b"hello",
    );
    let total_len = packet.len();
    packet.extend_from_slice(&[0xaa, 0xbb]);

    let parsed = parse_ip_multicast_datagram(&packet).unwrap();

    assert_eq!(parsed.datagram_len, total_len);
}

fn ipv4_udp_packet(
    source: Ipv4Addr,
    group: Ipv4Addr,
    dst_port: u16,
    payload: &[u8],
) -> Vec<u8> {
    let udp_len = UDP_HEADER_LEN + payload.len();
    let mut udp = vec![0; udp_len];
    udp[2..4].copy_from_slice(&dst_port.to_be_bytes());
    udp[4..6].copy_from_slice(&(udp_len as u16).to_be_bytes());
    udp[UDP_HEADER_LEN..].copy_from_slice(payload);
    ipv4_packet(source, group, UDP_PROTOCOL, &udp)
}

fn ipv4_packet(source: Ipv4Addr, group: Ipv4Addr, protocol: u8, payload: &[u8]) -> Vec<u8> {
    let total_len = IPV4_MIN_HEADER_LEN + payload.len();
    let mut packet = vec![0; total_len];
    packet[0] = 0x45;
    packet[2..4].copy_from_slice(&(total_len as u16).to_be_bytes());
    packet[8] = 1;
    packet[9] = protocol;
    packet[12..16].copy_from_slice(&source.octets());
    packet[16..20].copy_from_slice(&group.octets());
    packet[IPV4_MIN_HEADER_LEN..].copy_from_slice(payload);
    packet
}

fn ipv6_udp_packet(
    source: Ipv6Addr,
    group: Ipv6Addr,
    dst_port: u16,
    payload: &[u8],
) -> Vec<u8> {
    let udp_len = UDP_HEADER_LEN + payload.len();
    let mut packet = vec![0; IPV6_HEADER_LEN + udp_len];
    packet[0] = 0x60;
    packet[4..6].copy_from_slice(&(udp_len as u16).to_be_bytes());
    packet[6] = UDP_PROTOCOL;
    packet[7] = 1;
    packet[8..24].copy_from_slice(&source.octets());
    packet[24..40].copy_from_slice(&group.octets());
    packet[IPV6_HEADER_LEN + 2..IPV6_HEADER_LEN + 4].copy_from_slice(&dst_port.to_be_bytes());
    packet[IPV6_HEADER_LEN + 4..IPV6_HEADER_LEN + 6]
        .copy_from_slice(&(udp_len as u16).to_be_bytes());
    packet[IPV6_HEADER_LEN + UDP_HEADER_LEN..].copy_from_slice(payload);
    packet
}

fn full_support() -> EgressSupport {
    EgressSupport {
        route_selected_ipv4: true,
        route_selected_ipv6: true,
        explicit_full_header: true,
        routed_full_header: true,
    }
}

#[test]
fn each_downstream_defect_is_named() {
    let validate = |config: DownstreamConfig, family, support| {
        config.validate_for_family(family, support).unwrap_err()
    };
    let plain = DownstreamConfig::default();
    let v4 = IpAddr::V4(Ipv4Addr::new(192, 0, 2, 2));
    let (ipv4, ipv6) = (PublicationAddressFamily::Ipv4, PublicationAddressFamily::Ipv6);

    assert_eq!(
        validate(DownstreamConfig { interface: Some(v4), ..plain }, ipv6, full_support()),
        DownstreamConfigError::InterfaceAddressFamilyMismatch(ipv6)
    );
    assert_eq!(
        validate(DownstreamConfig { interface_index: Some(0), ..plain }, ipv6, full_support()),
        DownstreamConfigError::InvalidInterfaceIndex
    );
    let index = validate(DownstreamConfig { interface_index: Some(3), ..plain }, ipv4, full_support());
    assert_eq!(index, DownstreamConfigError::Ipv4InterfaceIndexUnsupported(3));
    assert_eq!(
        index.message(),
        "--downstream-ifindex 3 is IPv6-only; use --downstream-interface for IPv4"
    );
    assert_eq!(
        validate(plain, ipv4, EgressSupport { route_selected_ipv4: false, ..full_support() }),
        DownstreamConfigError::RouteSelectedEgressUnsupported(ipv4)
    );
    assert_eq!(
        validate(plain, ipv6, EgressSupport { routed_full_header: false, ..full_support() }),
        DownstreamConfigError::FullHeaderIpv6Unsupported { route_selected: true }
    );
    assert_eq!(
        validate(
            DownstreamConfig { interface_index: Some(3), ..plain },
            ipv6,
            EgressSupport { explicit_full_header: false, ..full_support() }
        ),
        DownstreamConfigError::FullHeaderIpv6Unsupported { route_selected: false }
    );
}

#[test]
fn unusable_interface_addresses_are_refused() {
    let config = DownstreamConfig {
        interface: Some(IpAddr::V4(Ipv4Addr::new(239, 1, 2, 3))),
        ..DownstreamConfig::default()
    };
    let error = config
        .validate_for_family(PublicationAddressFamily::Ipv4, full_support())
        .unwrap_err();
    assert!(matches!(error, DownstreamConfigError::InvalidRawConfiguration(_)));

    let config = DownstreamConfig {
        interface: Some(IpAddr::V4(Ipv4Addr::new(192, 0, 2, 2))),
        ..DownstreamConfig::default()
    };
    assert_eq!(
        config.validate_for_family(PublicationAddressFamily::Ipv4, full_support()),
        Ok(())
    );
    let pinned = DownstreamConfig {
        interface: Some(IpAddr::V6(Ipv6Addr::new(0x2001, 0xdb8, 0, 0, 0, 0, 0, 2))),
        interface_index: Some(4),
        loopback: Some(false),
    };
    let plan = pinned
        .publication_config(PublicationAddressFamily::Ipv6, full_support())
        .unwrap();
    assert_eq!(
        plan.egress,
        Egress::Ipv6Pinned(Ipv6Addr::new(0x2001, 0xdb8, 0, 0, 0, 0, 0, 2), 4)
    );
    assert_eq!(plan.loopback, Some(false));
}

#[test]
fn this_platform_routes_raw_multicast() {
    let support = platform_support();
    assert!(support.route_selected_ipv4);
    assert!(support.route_selected_ipv6);
    assert!(support.explicit_full_header);
    assert!(support.routed_full_header);
}
