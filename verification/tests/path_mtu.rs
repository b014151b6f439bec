use amt::checksum::{checksum, icmpv6_checksum, ones_complement_sum};
use amt::ip::parse_multicast_packet;
use amt::net::{IpAddr, Ipv4Addr, Ipv6Addr};
use amt::pmtu::{
    build_pmtu_feedback, ipv6_upper_layer, suppress_icmp_error, FeedbackRateLimiter, PmtuFeedback,
    PmtuFeedbackError, PmtuFeedbackSender,
};
use amt::time::{Duration, Instant};

const IPV4_HEADER_LEN: usize = 20;
const IPV6_HEADER_LEN: usize = 40;
const IPV4_MIN_REASSEMBLY_MTU: usize = 576;
const IPV6_MIN_MTU: usize = 1_280;
const ICMPV4_PROTOCOL: u8 = 1;
const ICMPV6_PROTOCOL: u8 = 58;

fn start() -> Instant {
    Instant::at(Duration::from_secs(100))
}

fn ipv4_multicast(payload_len: usize, protocol: u8) -> Vec<u8> {
    let total_len = IPV4_HEADER_LEN + payload_len;
    let mut packet = vec![0u8; total_len];
    packet[0] = 0x45;
    packet[2..4].copy_from_slice(&(total_len as u16).to_be_bytes());
    packet[6..8].copy_from_slice(&0x4000u16.to_be_bytes());
    packet[8] = 16;
    packet[9] = protocol;
    packet[12..16].copy_from_slice(&[192, 0, 2, 10]);
    packet[16..20].copy_from_slice(&[232, 1, 2, 3]);
    let header_checksum = checksum(&packet[..IPV4_HEADER_LEN]);
    packet[10..12].copy_from_slice(&header_checksum.to_be_bytes());
    packet
}

fn ipv6_multicast(payload_len: usize, next_header: u8) -> Vec<u8> {
    let mut packet = vec![0u8; IPV6_HEADER_LEN + payload_len];
    packet[0] = 0x60;
    packet[4..6].copy_from_slice(&(payload_len as u16).to_be_bytes());
    packet[6] = next_header;
    packet[7] = 16;
    packet[8..24].copy_from_slice(&Ipv6Addr::new(0x2001, 0xdb8, 0, 0, 0, 0, 0, 0x10).octets());
    packet[24..40].copy_from_slice(&Ipv6Addr::new(0xff3e, 0, 0, 0, 0, 0, 0, 0x1234).octets());
    packet
}

#[test]
fn builds_valid_icmpv4_fragmentation_needed_with_bounded_quote() {
    let invoking = ipv4_multicast(1_480, 17);
    let packet =
        build_pmtu_feedback(IpAddr::V4(Ipv4Addr::new(192, 0, 2, 1)), &invoking, 1_230).unwrap();

    assert_eq!(packet.len(), IPV4_MIN_REASSEMBLY_MTU);
    assert_eq!(&packet[16..20], &[192, 0, 2, 10]);
    assert_eq!(&packet[20..22], &[3, 4]);
    assert_eq!(u16::from_be_bytes([packet[26], packet[27]]), 1_230);
    assert_eq!(ones_complement_sum(&packet[..20]), 0xffff);
    assert_eq!(ones_complement_sum(&packet[20..]), 0xffff);
    assert_eq!(&packet[28..48], &invoking[..20]);
}

#[test]
fn builds_valid_icmpv6_packet_too_big_with_bounded_quote() {
    let invoking = ipv6_multicast(1_300, 17);
    let local = Ipv6Addr::new(0x2001, 0xdb8, 0, 0, 0, 0, 0, 1);
    let source = Ipv6Addr::new(0x2001, 0xdb8, 0, 0, 0, 0, 0, 0x10);
    let packet = build_pmtu_feedback(IpAddr::V6(local), &invoking, 1_210).unwrap();

    assert_eq!(packet.len(), IPV6_MIN_MTU);
    assert_eq!(&packet[24..40], &source.octets());
    assert_eq!(&packet[40..42], &[2, 0]);
    assert_eq!(
        u32::from_be_bytes(packet[44..48].try_into().unwrap()),
        1_210
    );
    assert_eq!(
        icmpv6_checksum(
            &local.octets(),
            &source.octets(),
            ICMPV6_PROTOCOL,
            &packet[40..]
        ),
        0
    );
    assert_eq!(&packet[48..88], &invoking[..40]);
}

#[test]
fn suppresses_icmp_error_responses() {
    let mut ipv4 = ipv4_multicast(8, ICMPV4_PROTOCOL);
    ipv4[20] = 3;
    let parsed = parse_multicast_packet(&ipv4).unwrap();
    assert!(suppress_icmp_error(&ipv4, parsed));

    let mut fragmented_ipv4 = ipv4_multicast(8, ICMPV4_PROTOCOL);
    fragmented_ipv4[6..8].copy_from_slice(&0x2000u16.to_be_bytes());
    fragmented_ipv4[10..12].fill(0);
    let header_checksum = checksum(&fragmented_ipv4[..IPV4_HEADER_LEN]);
    fragmented_ipv4[10..12].copy_from_slice(&header_checksum.to_be_bytes());
    let parsed = parse_multicast_packet(&fragmented_ipv4).unwrap();
    assert!(suppress_icmp_error(&fragmented_ipv4, parsed));

    let mut ipv6 = ipv6_multicast(8, ICMPV6_PROTOCOL);
    ipv6[40] = 2;
    let parsed = parse_multicast_packet(&ipv6).unwrap();
    assert!(suppress_icmp_error(&ipv6, parsed));

    let mut extended_ipv6 = ipv6_multicast(16, 0);
    extended_ipv6[40] = ICMPV6_PROTOCOL;
    extended_ipv6[41] = 0;
    extended_ipv6[48] = 2;
    let parsed = parse_multicast_packet(&extended_ipv6).unwrap();
    assert!(suppress_icmp_error(&extended_ipv6, parsed));

    let udp = ipv6_multicast(8, 17);
    let parsed = parse_multicast_packet(&udp).unwrap();
    assert!(!suppress_icmp_error(&udp, parsed));
}

#[test]
fn feedback_rate_limiter_bounds_flows_and_repeats() {
    let first_source = IpAddr::V4(Ipv4Addr::new(192, 0, 2, 10));
    let second_source = IpAddr::V4(Ipv4Addr::new(192, 0, 2, 11));
    let group = IpAddr::V4(Ipv4Addr::new(232, 1, 2, 3));
    let mut limiter = FeedbackRateLimiter::new(Duration::from_secs(60), 1);

    assert!(limiter.allow(start(), first_source, group));
    assert!(!limiter.allow(start(), first_source, group));
    assert!(!limiter.allow(start(), second_source, group));

    let mut expiring = FeedbackRateLimiter::new(Duration::zero(), 1);
    assert!(expiring.allow(start(), first_source, group));
    assert!(expiring.allow(start(), second_source, group));
}

#[test]
fn sender_limits_and_suppresses_feedback() {
    let mut sender =
        PmtuFeedbackSender::new(IpAddr::V4(Ipv4Addr::new(192, 0, 2, 1))).unwrap();
    let packet = ipv4_multicast(1_480, 17);

    let PmtuFeedback::Send(sent) = sender.prepare(start(), &packet, 1_230).unwrap() else {
        panic!("expected feedback");
    };
    assert_eq!(
        sent,
        build_pmtu_feedback(IpAddr::V4(Ipv4Addr::new(192, 0, 2, 1)), &packet, 1_230).unwrap()
    );
    assert_eq!(
        sender.prepare(start(), &packet, 1_230),
        Ok(PmtuFeedback::RateLimited)
    );
    assert_eq!(
        sender.prepare(start(), &ipv6_multicast(1_300, 17), 1_300),
        Ok(PmtuFeedback::AddressFamilyUnavailable)
    );
    let mut icmp = ipv4_multicast(8, ICMPV4_PROTOCOL);
    icmp[20] = 3;
    assert_eq!(
        sender.prepare(start(), &icmp, 1_230),
        Ok(PmtuFeedback::Suppressed)
    );
}

#[test]
fn feedback_errors_name_their_cause() {
    let unspecified = IpAddr::V4(Ipv4Addr::new(0, 0, 0, 0));
    assert!(matches!(
        PmtuFeedbackSender::new(unspecified),
        Err(PmtuFeedbackError::InvalidLocalAddress(address)) if address == unspecified
    ));
    let local = IpAddr::V4(Ipv4Addr::new(192, 0, 2, 1));
    assert!(matches!(
        build_pmtu_feedback(local, &[0x45], 1_230),
        Err(PmtuFeedbackError::InvalidPacket(_))
    ));
    assert_eq!(
        build_pmtu_feedback(local, &ipv4_multicast(8, 17), 70_000),
        Err(PmtuFeedbackError::InvalidMtu(70_000))
    );
}

#[test]
fn upper_layer_lies_behind_the_extension_headers() {
    let mut packet = ipv6_multicast(16, 0);
    packet[40] = 17;
    assert_eq!(ipv6_upper_layer(&packet), Some((17, 48)));
    packet[41] = 200;
    assert_eq!(ipv6_upper_layer(&packet), None);
}
