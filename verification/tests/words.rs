use amt::address_text::hex_text;
use amt::cli::CliError;
use amt::daemon::{DaemonConfigError, UpstreamConfig};
use amt::forwarding::RelayPmtuOutcome;
use amt::metrics::{MetricsConfig, MetricsConfigError};
use amt::metrics_flags::{
    base_flags, gateway_metrics_flags, relay_metrics_flags, SocketBufferSizes, UpstreamCapture,
};
use amt::mtu::Ipv4FragmentError;
use amt::net::{IpAddr, Ipv4Addr, Ipv6Addr, SocketAddr, SocketAddrV6};
use amt::query::QueryValidationError;
use amt::random::RandomnessError;
use amt::relay_feedback::{FeedbackSetupError, RelayFeedbackStep, RelayPmtuFeedback};
use amt::time::{Duration, Instant};
use amt::{
    DecodeError, DriadError, EcnError, Gateway, GatewayConfig, GatewayError, GatewayPhase,
    IpPacketError, LocalMembershipError, MembershipBuildError, MembershipParseError,
    MembershipProtocol, MembershipRecordKind, MessageType, PmtuFeedbackError, Relay, RelayConfig,
    RelayError, RelaySecret, StateLimitError,
};

fn v4(a: u8, b: u8, c: u8, d: u8) -> IpAddr {
    IpAddr::V4(Ipv4Addr::new(a, b, c, d))
}

fn v6(parts: [u16; 8]) -> IpAddr {
    let [a, b, c, d, e, f, g, h] = parts;
    IpAddr::V6(Ipv6Addr::new(a, b, c, d, e, f, g, h))
}

#[test]
fn addresses_are_written_as_short_as_can_be() {
    assert_eq!(v4(192, 0, 2, 10).text(), "192.0.2.10");
    assert_eq!(v6([0; 8]).text(), "::");
    assert_eq!(v6([0, 0, 0, 0, 0, 0, 0, 1]).text(), "::1");
    assert_eq!(v6([0x2001, 0xdb8, 0, 0, 0, 0, 0, 0x10]).text(), "2001:db8::10");
    assert_eq!(v6([0x2001, 0, 0, 1, 0, 0, 0, 1]).text(), "2001:0:0:1::1");
    assert_eq!(v6([1, 0, 0, 2, 3, 0, 0, 4]).text(), "1::2:3:0:0:4");
    assert_eq!(v6([1, 0, 2, 3, 4, 5, 6, 7]).text(), "1:0:2:3:4:5:6:7");
    assert_eq!(v6([0xff02, 0, 0, 0, 0, 0, 0, 0]).text(), "ff02::");
    assert_eq!(v6([0, 0, 0, 0, 0, 0xffff, 0xc000, 0x0201]).text(), "::ffff:192.0.2.1");
    assert_eq!(SocketAddr::new(v4(127, 0, 0, 1), 2268).text(), "127.0.0.1:2268");
    assert_eq!(SocketAddr::new(v6([0; 8]), 0).text(), "[::]:0");
    assert_eq!(
        SocketAddr::V6(SocketAddrV6 {
            ip: Ipv6Addr::new(0xfe80, 0, 0, 0, 0, 0, 0, 1),
            port: 53,
            flowinfo: 0,
            scope_id: 4,
        })
        .text(),
        "[fe80::1%4]:53"
    );
    assert_eq!(hex_text(0x00ab_c012), "0xabc012");
}

#[test]
fn spans_are_written_with_their_unit() {
    assert_eq!(Duration::from_secs(125).text(), "125s");
    assert_eq!(Duration::from_millis(2_500).text(), "2.5s");
    assert_eq!(Duration::from_millis(40).text(), "40ms");
}

#[test]
fn protocol_errors_are_told_in_words() {
    assert_eq!(
        DecodeError::Truncated {
            message_type: Some(MessageType::Request),
            expected_at_least: 8,
            actual: 3,
        }
        .message(),
        "truncated AMT message Some(Request): expected at least 8 bytes, got 3"
    );
    assert_eq!(
        DecodeError::Truncated { message_type: None, expected_at_least: 1, actual: 0 }.message(),
        "truncated AMT message None: expected at least 1 bytes, got 0"
    );
    assert_eq!(DecodeError::UnsupportedVersion(2).message(), "unsupported AMT version 2");
    assert_eq!(DecodeError::UnknownMessageType(9).message(), "unknown AMT message type 9");
    assert_eq!(
        DecodeError::InvalidLength {
            message_type: MessageType::Teardown,
            expected: "30 bytes",
            actual: 4,
        }
        .message(),
        "invalid AMT Teardown length: expected 30 bytes, got 4"
    );
    assert_eq!(
        RelayError::Membership(MembershipParseError::InvalidChecksum("IGMP")).message(),
        "invalid IGMP checksum"
    );
    assert_eq!(RelayError::ZeroNonce.message(), "AMT nonce must not be zero");
    assert_eq!(
        RelayError::ResourceLimit(StateLimitError {
            resource: "endpoint",
            requested: 3,
            limit: 2,
        })
        .message(),
        "AMT relay endpoint limit exceeded: requested 3, limit 2"
    );
    assert_eq!(
        GatewayError::UnexpectedRequestNonce { expected: 255, actual: 16 }.message(),
        "unexpected Membership Query nonce 0x10; expected 0xff"
    );
    assert_eq!(
        GatewayError::UnexpectedPeer {
            expected: SocketAddr::new(v4(192, 0, 2, 1), 2268),
            actual: SocketAddr::new(v4(192, 0, 2, 2), 2268),
        }
        .message(),
        "AMT datagram came from 192.0.2.2:2268; expected 192.0.2.1:2268"
    );
    assert_eq!(
        GatewayError::UnexpectedMessageForState {
            message: "Relay Advertisement",
            phase: GatewayPhase::Established,
        }
        .message(),
        "unexpected Relay Advertisement while gateway is Established"
    );
    assert_eq!(
        GatewayError::InvalidGeneralQuery(QueryValidationError::InvalidChecksum).message(),
        "invalid Membership Query: invalid General Query checksum"
    );
    assert_eq!(
        GatewayError::InvalidEcn(EcnError::UnsupportedVersion(5)).message(),
        "invalid Multicast Data ECN: unsupported IP version 5 while processing ECN"
    );
    assert_eq!(
        GatewayError::Randomness(RandomnessError { message: "none left".to_string() }).message(),
        "none left"
    );
}

#[test]
fn membership_errors_are_told_in_words() {
    assert_eq!(
        MembershipBuildError::ProtocolAddressFamilyMismatch {
            protocol: MembershipProtocol::Igmpv3,
            group: v6([0xff3e, 0, 0, 0, 0, 0, 0, 1]),
        }
        .message(),
        "Igmpv3 cannot encode membership for group ff3e::1"
    );
    assert_eq!(
        MembershipBuildError::UnsupportedRecordKind(MembershipRecordKind::LegacyLeave).message(),
        "membership record kind LegacyLeave cannot be encoded in v3/v2 reports"
    );
    assert_eq!(
        LocalMembershipError::Parse(MembershipParseError::InvalidProtocol {
            expected: 2,
            actual: 17,
        })
        .message(),
        "invalid IP protocol 17; expected 2"
    );
    assert_eq!(
        MembershipParseError::InvalidTotalLength { total_length: 40, available: 30 }.message(),
        "invalid IP total length 40; only 30 bytes available"
    );
    assert_eq!(
        PmtuFeedbackError::InvalidPacket(IpPacketError::NonMulticastDestination(v4(10, 0, 0, 1)))
            .message(),
        "invalid PMTU invoking packet: IP destination 10.0.0.1 is not multicast"
    );
    assert_eq!(
        Ipv4FragmentError::MtuTooSmall.message(),
        "tunnel MTU is too small for IPv4 fragmentation"
    );
}

#[test]
fn set_up_errors_are_told_in_words() {
    assert_eq!(
        DriadError::InvalidResponseId { expected: 1, actual: 0x1234 }.message(),
        "unexpected DNS response id 0x1234; expected 0x1"
    );
    assert_eq!(
        CliError::SystemResolvers(DriadError::NoResolvers).message(),
        "failed to load system DNS resolvers for DRIAD: no DRIAD DNS resolvers are configured"
    );
    assert_eq!(
        DaemonConfigError::Resolver(DriadError::InsecureResolver(SocketAddr::new(
            v4(192, 0, 2, 53),
            53
        )))
        .message(),
        "invalid DRIAD resolver configuration: DRIAD resolver 192.0.2.53:53 is not on loopback; use a validating local resolver or explicitly allow insecure DNS"
    );
    assert_eq!(
        DaemonConfigError::IdleTimeoutTooShort {
            timeout: Duration::from_secs(30),
            advertised: Duration::from_secs(125),
        }
        .message(),
        "gateway idle timeout (30s) must be greater than the advertised query interval (125s)"
    );
    assert_eq!(
        MetricsConfigError::InvalidNodeId.message(),
        "metrics node_id must be a non-empty path component"
    );
}

fn relay() -> Relay {
    Relay::new(
        RelayConfig::with_secret(
            SocketAddr::new(v4(192, 0, 2, 10), 2268),
            RelaySecret::new([7; 32]),
        ),
        Instant::at(Duration::from_secs(1)),
    )
}

#[test]
fn daemons_tell_their_set_up() {
    let base = base_flags("relay", "node");
    assert_eq!(base.len(), 2);
    assert_eq!(base["role"], "relay");
    assert_eq!(base["node_id"], "node");

    let upstream = UpstreamCapture {
        config: UpstreamConfig {
            interface: Some(v4(192, 0, 2, 20)),
            interface_index: None,
        },
        shared: true,
        queue_capacity: 512,
    };
    let flags = relay_metrics_flags(
        &MetricsConfig::default(),
        SocketAddr::new(v4(192, 0, 2, 10), 2268),
        &relay(),
        upstream,
        1_500,
        false,
        SocketBufferSizes { receive: 10, send: 20 },
    );
    assert_eq!(flags["bind_addr"], "192.0.2.10:2268");
    assert_eq!(flags["advertise_ipv4"], "192.0.2.10");
    assert_eq!(flags["upstream_interface"], "192.0.2.20");
    assert!(flags.get("upstream_ifindex").is_none());
    assert_eq!(flags["path_mtu"], 1_500);
    assert_eq!(flags["tunnel_receive_buffer_bytes"], 10);
    assert_eq!(flags["tunnel_send_buffer_bytes"], 20);
    assert_eq!(flags["shared_upstream_capture"], true);
    assert_eq!(flags["pmtu_feedback_enabled"], false);
    assert_eq!(flags["upstream_packet_queue_capacity"], 512);

    let gateway = Gateway::new(
        GatewayConfig::new(SocketAddr::new(v4(192, 0, 2, 10), 2268), MembershipProtocol::Mldv2)
            .unwrap(),
    )
    .unwrap();
    let flags = gateway_metrics_flags(
        &MetricsConfig::default(),
        SocketAddr::new(v4(0, 0, 0, 0), 0),
        &gateway,
        true,
        false,
        3,
    );
    assert_eq!(flags["role"], "gateway");
    assert_eq!(flags["protocol"], "Mldv2");
    assert_eq!(flags["configured_joins"], 3);
    assert_eq!(flags["downstream_enabled"], true);
}

#[test]
fn relays_tell_sources_from_their_upstream_interface() {
    let none = UpstreamConfig { interface: None, interface_index: None };
    let now = Instant::at(Duration::from_secs(1));
    let mut disabled = RelayPmtuFeedback::new(false, none).unwrap();
    assert_eq!(
        disabled.prepare(now, &[], 1_470),
        RelayFeedbackStep::Done(RelayPmtuOutcome::Disabled)
    );
    let missing = RelayPmtuFeedback::new(true, none).unwrap_err();
    assert_eq!(missing, FeedbackSetupError::NoInterface);
    assert_eq!(
        missing.message(),
        "PMTU feedback requires an explicit upstream interface address"
    );
    let unusable = UpstreamConfig { interface: Some(v4(239, 0, 0, 1)), ..none };
    assert!(matches!(
        RelayPmtuFeedback::new(true, unusable),
        Err(FeedbackSetupError::Sender(_))
    ));
    let usable = UpstreamConfig { interface: Some(v4(192, 0, 2, 10)), ..none };
    let mut feedback = RelayPmtuFeedback::new(true, usable).unwrap();
    assert_eq!(
        feedback.prepare(now, &[0x45], 1_470),
        RelayFeedbackStep::Done(RelayPmtuOutcome::Failed(
            "invalid PMTU invoking packet: truncated IP packet".to_string()
        ))
    );
}
