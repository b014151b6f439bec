use amt::checksum::checksum;
use amt::membership::{
    build_membership_report, MembershipParseError, MembershipRecord, MembershipRecordKind,
    MembershipReport,
};
use amt::net::{IpAddr, Ipv4Addr, Ipv6Addr, SocketAddr};
use amt::protocol::{
    decode, encode, DecodeError, GatewayEndpoint, MembershipProtocol, Message, ResponseMac,
};
use amt::relay::{
    default_bind, mac_message, response_mac_with_secret, truncated_mac, PreviousSecret, Relay, RelayAction,
    RelayConfig, RelayError, RelaySecret,
};
use amt::state::UpstreamSubscription;
use amt::time::{Duration, Instant};

fn socket(octets: [u8; 4], port: u16) -> SocketAddr {
    let [a, b, c, d] = octets;
    SocketAddr::new(IpAddr::V4(Ipv4Addr::new(a, b, c, d)), port)
}

fn start() -> Instant {
    Instant::at(Duration::from_secs(1_000))
}

fn relay() -> Relay {
    Relay::new(
        RelayConfig::with_secret(socket([192, 0, 2, 10], 2268), RelaySecret::new([7; 32])),
        start(),
    )
}

#[test]
fn discovery_gets_advertisement_with_same_nonce() {
    let mut relay = relay();
    let discovery = encode(&Message::RelayDiscovery {
        discovery_nonce: 0x1122_3344,
    });

    let action = relay
        .handle_datagram(start(), socket([198, 51, 100, 8], 40_000), &discovery)
        .unwrap();

    let RelayAction::Send(response) = action else {
        panic!("expected response");
    };
    assert_eq!(
        decode(&response),
        Ok(Message::RelayAdvertisement {
            discovery_nonce: 0x1122_3344,
            relay_address: IpAddr::V4(Ipv4Addr::new(192, 0, 2, 10)),
        })
    );
}

#[test]
fn request_gets_membership_query_with_gateway_fields() {
    let mut relay = relay();
    let peer = socket([198, 51, 100, 8], 40_000);
    let request = encode(&Message::Request {
        request_nonce: 0x0102_0304,
        protocol: MembershipProtocol::Igmpv3,
        ecn_capable: false,
    });

    let action = relay.handle_datagram(start(), peer, &request).unwrap();

    let RelayAction::Send(response) = action else {
        panic!("expected response");
    };
    let message = decode(&response).unwrap();
    let Message::MembershipQuery {
        response_mac,
        request_nonce,
        limit,
        gateway,
        general_query,
    } = message
    else {
        panic!("expected membership query");
    };

    assert_eq!(request_nonce, 0x0102_0304);
    assert_eq!(
        response_mac,
        relay.response_mac(peer.ip(), peer.port(), request_nonce)
    );
    assert!(!limit);
    assert_eq!(
        gateway,
        Some(GatewayEndpoint::new(40_000, IpAddr::V4(Ipv4Addr::new(198, 51, 100, 8))))
    );
    assert_eq!(general_query[0] >> 4, 4);
    assert_eq!(general_query[24], 0x11);
}

#[test]
fn request_p_flag_selects_mldv2_query() {
    let mut relay = relay();
    let request = encode(&Message::Request {
        request_nonce: 99,
        protocol: MembershipProtocol::Mldv2,
        ecn_capable: false,
    });

    let action = relay
        .handle_datagram(start(), socket([198, 51, 100, 8], 40_000), &request)
        .unwrap();

    let RelayAction::Send(response) = action else {
        panic!("expected response");
    };
    let Message::MembershipQuery { general_query, .. } = decode(&response).unwrap() else {
        panic!("expected membership query");
    };
    assert_eq!(general_query[0] >> 4, 6);
    assert_eq!(general_query[48], 130);
}

#[test]
fn membership_update_authenticates_response_mac() {
    let mut relay = relay();
    let peer = socket([198, 51, 100, 8], 40_000);
    let nonce = 0xaabb_ccdd;
    let response_mac = relay.response_mac(peer.ip(), peer.port(), nonce);
    let group = Ipv4Addr::new(232, 1, 2, 3);
    let source = Ipv4Addr::new(192, 0, 2, 1);
    let packet = igmpv3_join_packet(group, source);
    let update = encode(&Message::MembershipUpdate {
        response_mac,
        request_nonce: nonce,
        membership_update: &packet,
    });

    assert_eq!(
        relay.handle_datagram(start(), peer, &update).unwrap(),
        RelayAction::AcceptedMembershipUpdate {
            protocol: MembershipProtocol::Igmpv3,
            bytes: packet.len(),
            records_applied: 1,
            upstream_subscriptions: vec![UpstreamSubscription::ssm(
                IpAddr::V4(group),
                IpAddr::V4(source)
            )],
        }
    );
    assert_eq!(
        relay
            .state()
            .endpoints_for_packet(IpAddr::V4(source), IpAddr::V4(group)),
        vec![peer]
    );
}

#[test]
fn bad_membership_update_mac_is_rejected() {
    let mut relay = relay();
    let packet = igmpv3_join_packet(Ipv4Addr::new(232, 1, 2, 3), Ipv4Addr::new(192, 0, 2, 1));
    let update = encode(&Message::MembershipUpdate {
        response_mac: ResponseMac::zero(),
        request_nonce: 1,
        membership_update: &packet,
    });

    assert_eq!(
        relay
            .handle_datagram(start(), socket([198, 51, 100, 8], 40_000), &update)
            .unwrap(),
        RelayAction::RejectedAuth
    );
}

#[test]
fn zero_nonce_request_is_rejected_without_reflection() {
    let mut relay = relay();
    let request = encode(&Message::Request {
        request_nonce: 0,
        protocol: MembershipProtocol::Igmpv3,
        ecn_capable: false,
    });

    assert_eq!(
        relay.handle_datagram(start(), socket([198, 51, 100, 8], 40_000), &request),
        Err(RelayError::ZeroNonce)
    );
}

#[test]
fn resource_limit_rejection_does_not_commit_membership() {
    let mut relay = relay();
    relay.config.limits.max_groups_per_endpoint = 1;
    let peer = socket([198, 51, 100, 8], 40_000);
    let nonce = 42;
    let report = MembershipReport {
        protocol: MembershipProtocol::Igmpv3,
        records: vec![
            MembershipRecord {
                kind: MembershipRecordKind::ModeIsExclude,
                group: IpAddr::V4(Ipv4Addr::new(239, 1, 2, 3)),
                sources: Vec::new(),
            },
            MembershipRecord {
                kind: MembershipRecordKind::ModeIsExclude,
                group: IpAddr::V4(Ipv4Addr::new(239, 1, 2, 4)),
                sources: Vec::new(),
            },
        ],
    };
    let packet = build_membership_report(&report).unwrap();
    let update = encode(&Message::MembershipUpdate {
        response_mac: relay.response_mac(peer.ip(), peer.port(), nonce),
        request_nonce: nonce,
        membership_update: &packet,
    });

    assert!(matches!(
        relay.handle_datagram(start(), peer, &update),
        Err(RelayError::ResourceLimit(_))
    ));
    assert_eq!(relay.state().endpoint_count(), 0);
}

#[test]
fn membership_query_sets_limit_flag_near_capacity() {
    let mut relay = relay();
    relay.config.limits.max_endpoints = 1;
    let endpoint = socket([198, 51, 100, 8], 40_000);
    relay.state.apply_report(
        endpoint,
        &MembershipReport {
            protocol: MembershipProtocol::Igmpv3,
            records: vec![MembershipRecord {
                kind: MembershipRecordKind::ModeIsExclude,
                group: IpAddr::V4(Ipv4Addr::new(239, 1, 2, 3)),
                sources: Vec::new(),
            }],
        },
    );
    let request = encode(&Message::Request {
        request_nonce: 42,
        protocol: MembershipProtocol::Igmpv3,
        ecn_capable: false,
    });

    let RelayAction::Send(response) = relay
        .handle_datagram(start(), socket([198, 51, 100, 9], 40_001), &request)
        .unwrap()
    else {
        panic!("expected Membership Query response");
    };
    assert!(matches!(
        Message::decode(&response),
        Ok(Message::MembershipQuery { limit: true, .. })
    ));
}

#[test]
fn limit_flag_causes_new_endpoint_updates_to_be_ignored() {
    let mut relay = relay();
    relay.config.limit = true;
    let peer = socket([198, 51, 100, 8], 40_000);
    let nonce = 42;
    let packet = igmpv3_join_packet(Ipv4Addr::new(232, 1, 2, 3), Ipv4Addr::new(192, 0, 2, 1));
    let update = encode(&Message::MembershipUpdate {
        response_mac: relay.response_mac(peer.ip(), peer.port(), nonce),
        request_nonce: nonce,
        membership_update: &packet,
    });

    assert_eq!(
        relay.handle_datagram(start(), peer, &update),
        Ok(RelayAction::Ignored)
    );
    assert_eq!(relay.state().endpoint_count(), 0);
}

#[test]
fn previous_secret_expires_after_two_query_intervals() {
    let mut relay = relay();
    let peer = socket([198, 51, 100, 8], 40_000);
    let nonce = 42;
    let previous = RelaySecret::new([3; 32]);
    let mac = response_mac_with_secret(&previous, peer.ip(), peer.port(), nonce);

    relay.previous_secret = Some(PreviousSecret {
        secret: previous.clone(),
        rotated_at: start(),
    });
    assert!(relay.valid_response_mac(start(), mac, peer.ip(), peer.port(), nonce));

    relay.previous_secret = Some(PreviousSecret {
        secret: previous,
        rotated_at: Instant::at(Duration::from_secs(1_000 - 300)),
    });
    assert!(!relay.valid_response_mac(start(), mac, peer.ip(), peer.port(), nonce));
}

#[test]
fn secret_rotation_waits_until_the_previous_secret_grace_expires() {
    let mut relay = relay();
    relay.config.secret_rotation_interval = Some(Duration::zero());
    relay.secret_rotated_at = Instant::at(Duration::from_secs(1_000 - 1));
    relay.previous_secret = Some(PreviousSecret {
        secret: RelaySecret::new([3; 32]),
        rotated_at: start(),
    });
    let current = relay.config.secret.clone();
    let rotated_at = relay.secret_rotated_at;

    relay.rotate_secret_if_due(start());

    assert!(relay.config.secret == current);
    assert_eq!(relay.secret_rotated_at, rotated_at);
}

#[test]
fn malformed_authenticated_membership_update_does_not_create_state() {
    let mut relay = relay();
    let peer = socket([198, 51, 100, 8], 40_000);
    let nonce = 0xaabb_ccdd;
    let response_mac = relay.response_mac(peer.ip(), peer.port(), nonce);
    let mut packet =
        igmpv3_join_packet(Ipv4Addr::new(232, 1, 2, 3), Ipv4Addr::new(192, 0, 2, 1));
    packet[26] ^= 0xff;
    let update = encode(&Message::MembershipUpdate {
        response_mac,
        request_nonce: nonce,
        membership_update: &packet,
    });

    assert!(matches!(
        relay.handle_datagram(start(), peer, &update),
        Err(RelayError::Membership(
            MembershipParseError::InvalidChecksum("IGMP")
        ))
    ));
    assert_eq!(relay.state().endpoint_count(), 0);
    assert!(relay.state().upstream_subscriptions().is_empty());
}

#[test]
fn teardown_removes_endpoint_state() {
    let mut relay = relay();
    let peer = socket([198, 51, 100, 8], 40_000);
    let nonce = 0xaabb_ccdd;
    let response_mac = relay.response_mac(peer.ip(), peer.port(), nonce);
    let group = Ipv4Addr::new(232, 1, 2, 3);
    let source = Ipv4Addr::new(192, 0, 2, 1);
    let packet = igmpv3_join_packet(group, source);
    let update = encode(&Message::MembershipUpdate {
        response_mac,
        request_nonce: nonce,
        membership_update: &packet,
    });
    relay.handle_datagram(start(), peer, &update).unwrap();
    assert!(!relay.state().upstream_subscriptions().is_empty());

    let teardown = encode(&Message::Teardown {
        response_mac,
        request_nonce: nonce,
        gateway: GatewayEndpoint::new(peer.port(), peer.ip()),
    });

    assert_eq!(
        relay.handle_datagram(start(), peer, &teardown).unwrap(),
        RelayAction::AcceptedTeardown {
            gateway: GatewayEndpoint::new(peer.port(), peer.ip()),
            removed: true,
        }
    );
    assert!(relay.state().upstream_subscriptions().is_empty());
}

#[test]
fn teardown_may_arrive_from_a_changed_nat_endpoint() {
    let mut relay = relay();
    let old_peer = socket([198, 51, 100, 8], 40_000);
    let new_peer = socket([198, 51, 100, 8], 40_001);
    let nonce = 0xaabb_ccdd;
    let response_mac = relay.response_mac(old_peer.ip(), old_peer.port(), nonce);
    let packet = igmpv3_join_packet(Ipv4Addr::new(232, 1, 2, 3), Ipv4Addr::new(192, 0, 2, 1));
    let update = encode(&Message::MembershipUpdate {
        response_mac,
        request_nonce: nonce,
        membership_update: &packet,
    });
    relay.handle_datagram(start(), old_peer, &update).unwrap();

    let teardown = encode(&Message::Teardown {
        response_mac,
        request_nonce: nonce,
        gateway: GatewayEndpoint::new(old_peer.port(), old_peer.ip()),
    });

    assert!(matches!(
        relay.handle_datagram(start(), new_peer, &teardown),
        Ok(RelayAction::AcceptedTeardown { removed: true, .. })
    ));
    assert_eq!(relay.state().endpoint_count(), 0);
}

#[test]
fn bad_teardown_mac_does_not_remove_endpoint_state() {
    let mut relay = relay();
    let peer = socket([198, 51, 100, 8], 40_000);
    let nonce = 0xaabb_ccdd;
    let response_mac = relay.response_mac(peer.ip(), peer.port(), nonce);
    let group = Ipv4Addr::new(232, 1, 2, 3);
    let source = Ipv4Addr::new(192, 0, 2, 1);
    let packet = igmpv3_join_packet(group, source);
    let update = encode(&Message::MembershipUpdate {
        response_mac,
        request_nonce: nonce,
        membership_update: &packet,
    });
    relay.handle_datagram(start(), peer, &update).unwrap();

    let teardown = encode(&Message::Teardown {
        response_mac: ResponseMac::zero(),
        request_nonce: nonce,
        gateway: GatewayEndpoint::new(peer.port(), peer.ip()),
    });

    assert_eq!(
        relay.handle_datagram(start(), peer, &teardown).unwrap(),
        RelayAction::RejectedAuth
    );
    assert_eq!(
        relay
            .state()
            .endpoints_for_packet(IpAddr::V4(source), IpAddr::V4(group)),
        vec![peer]
    );
    assert_eq!(
        relay.state().upstream_subscriptions(),
        vec![UpstreamSubscription::ssm(IpAddr::V4(group), IpAddr::V4(source))]
    );
}

fn igmpv3_join_packet(group: Ipv4Addr, source: Ipv4Addr) -> Vec<u8> {
    let mut payload = vec![0; 20];
    payload[0] = 0x22;
    payload[6..8].copy_from_slice(&1u16.to_be_bytes());
    payload[8] = 1;
    payload[10..12].copy_from_slice(&1u16.to_be_bytes());
    payload[12..16].copy_from_slice(&group.octets());
    payload[16..20].copy_from_slice(&source.octets());
    let igmp_checksum = checksum(&payload);
    payload[2..4].copy_from_slice(&igmp_checksum.to_be_bytes());

    let total_len = 24 + payload.len();
    let mut packet = vec![0; 24];
    packet[0] = 0x46;
    packet[2..4].copy_from_slice(&(total_len as u16).to_be_bytes());
    packet[8] = 1;
    packet[9] = 2;
    packet[12..16].copy_from_slice(&Ipv4Addr::new(198, 51, 100, 1).octets());
    packet[16..20].copy_from_slice(&Ipv4Addr::new(224, 0, 0, 22).octets());
    packet[20..24].copy_from_slice(&[0x94, 0x04, 0, 0]);
    let ip_checksum = checksum(&packet);
    packet[10..12].copy_from_slice(&ip_checksum.to_be_bytes());
    packet.extend_from_slice(&payload);
    packet
}

#[test]
fn response_mac_is_a_truncated_keyed_digest() {
    let secret = RelaySecret::new([7; 32]);
    let peer = socket([198, 51, 100, 8], 40_000);
    let mac = response_mac_with_secret(&secret, peer.ip(), peer.port(), 0x0102_0304);

    assert_eq!(mac, ResponseMac::new([0xbd, 0x70, 0x24, 0x5e, 0xf2, 0x6b]));
    assert_eq!(
        mac_message(peer.ip(), peer.port(), 0x0102_0304),
        [0, 0, 0, 0, 0, 0, 0, 0, 0, 0, 0, 0, 198, 51, 100, 8, 0x9c, 0x40, 1, 2, 3, 4]
    );
    let mut code = [9; 32];
    code[..6].copy_from_slice(&[1, 2, 3, 4, 5, 6]);
    assert_eq!(truncated_mac(code), ResponseMac::new([1, 2, 3, 4, 5, 6]));
    for other in [
        response_mac_with_secret(&RelaySecret::new([8; 32]), peer.ip(), peer.port(), 0x0102_0304),
        response_mac_with_secret(&secret, peer.ip(), 40_001, 0x0102_0304),
        response_mac_with_secret(&secret, peer.ip(), peer.port(), 0x0102_0305),
        response_mac_with_secret(
            &secret,
            IpAddr::V6(Ipv6Addr::new(0x2001, 0xdb8, 0, 0, 0, 0, 0, 1)),
            peer.port(),
            0x0102_0304,
        ),
    ] {
        assert_ne!(mac, other);
    }
}

#[test]
fn generated_secrets_differ() {
    let first = RelaySecret::generate().unwrap();
    let second = RelaySecret::try_generate().unwrap();
    assert!(first != second);
    assert_ne!(first.expose_bytes(), &[0u8; 32]);
}

#[test]
fn malformed_datagrams_are_reported() {
    let mut relay = relay();
    let peer = socket([198, 51, 100, 8], 40_000);
    assert!(matches!(
        relay.handle_datagram(start(), peer, &[]),
        Err(RelayError::Decode(DecodeError::Truncated { .. }))
    ));
}

#[test]
fn rotation_keeps_the_old_secret_for_a_while() {
    let mut relay = relay();
    relay.config.secret_rotation_interval = Some(Duration::from_secs(60));
    let peer = socket([198, 51, 100, 8], 40_000);
    let mac = relay.response_mac(peer.ip(), peer.port(), 5);
    let later = Instant::at(Duration::from_secs(1_060));
    assert!(!relay.secret_rotation_due(Instant::at(Duration::from_secs(1_059))));
    assert!(relay.secret_rotation_due(later));

    relay.rotate_secret(later, RelaySecret::new([9; 32]));

    assert_ne!(relay.response_mac(peer.ip(), peer.port(), 5), mac);
    assert!(relay.valid_response_mac(later, mac, peer.ip(), peer.port(), 5));
    assert!(!relay.secret_rotation_due(Instant::at(Duration::from_secs(1_120))));
}

#[test]
fn ecn_capability_follows_the_latest_request() {
    let mut relay = relay();
    relay.config.ecn = true;
    let peer = socket([198, 51, 100, 8], 40_000);
    for ecn_capable in [true, false] {
        let request = encode(&Message::Request {
            request_nonce: 7,
            protocol: MembershipProtocol::Igmpv3,
            ecn_capable,
        });
        relay.handle_datagram(start(), peer, &request).unwrap();
        assert_eq!(relay.gateway_ecn_capable(peer), ecn_capable);
    }
}

#[test]
fn judged_messages_depend_on_their_authentication() {
    let mut relay = relay();
    let peer = socket([198, 51, 100, 8], 40_000);
    let packet = igmpv3_join_packet(Ipv4Addr::new(232, 1, 2, 3), Ipv4Addr::new(192, 0, 2, 1));

    assert_eq!(
        relay.judge_update(peer, 5, false, &packet),
        Ok((RelayAction::RejectedAuth, None))
    );
    assert_eq!(
        relay.judge_update(peer, 0, true, &packet),
        Err(RelayError::ZeroNonce)
    );
    let (action, state) = relay.judge_update(peer, 5, true, &packet).unwrap();
    assert!(matches!(action, RelayAction::AcceptedMembershipUpdate { .. }));
    relay.commit_state(state.unwrap());
    assert!(relay.state().contains_endpoint(peer));

    let gateway = GatewayEndpoint::new(peer.port(), peer.ip());
    assert_eq!(
        relay.judge_teardown(5, false, gateway),
        Ok((RelayAction::RejectedAuth, None))
    );
    let (action, state) = relay.judge_teardown(5, true, gateway).unwrap();
    assert_eq!(
        action,
        RelayAction::AcceptedTeardown { gateway, removed: true }
    );
    assert!(!state.unwrap().contains_endpoint(peer));
}

#[test]
fn a_mac_is_taken_under_either_secret() {
    let mut relay = relay();
    let (current, before, other) = (
        ResponseMac::new([1; 6]),
        ResponseMac::new([2; 6]),
        ResponseMac::new([3; 6]),
    );
    assert!(relay.accepts_mac(start(), current, current, None));
    assert!(!relay.accepts_mac(start(), before, current, Some(before)));
    relay.rotate_secret(start(), RelaySecret::new([9; 32]));
    assert!(relay.accepts_mac(start(), before, current, Some(before)));
    assert!(!relay.accepts_mac(start(), other, current, Some(before)));

    let query = relay.query_for(
        socket([198, 51, 100, 8], 40_000),
        7,
        MembershipProtocol::Igmpv3,
        other,
    );
    assert!(matches!(
        decode(&query),
        Ok(Message::MembershipQuery { response_mac, request_nonce: 7, .. }) if response_mac == other
    ));
}

#[test]
fn relays_advertise_the_address_they_bind() {
    let config = RelayConfig::for_bind(socket([192, 0, 2, 10], 2268)).unwrap();
    assert_eq!(config.advertise_ipv4, Ipv4Addr::new(192, 0, 2, 10));
    assert!(config.include_gateway_address);
    assert_eq!(default_bind(), socket([0, 0, 0, 0], 2268));
    let config = config.with_advertise_addr(IpAddr::V4(Ipv4Addr::new(203, 0, 113, 1)));
    assert_eq!(config.advertise_ipv4, Ipv4Addr::new(203, 0, 113, 1));
}

#[test]
fn secrets_rotate_only_when_that_is_due_and_one_was_drawn() {
    let mut relay = relay();
    relay.config.secret_rotation_interval = Some(Duration::from_secs(10));
    relay.secret_rotated_at = start();
    let current = relay.config.secret.clone();
    let soon = start().after(Duration::from_secs(9));
    let later = start().after(Duration::from_secs(10));

    relay.rotate_secret_with(soon, Some(RelaySecret::new([8; 32])));
    relay.rotate_secret_with(later, None);
    assert!(relay.config.secret == current);
    relay.rotate_secret_with(later, Some(RelaySecret::new([8; 32])));
    assert!(relay.config.secret == RelaySecret::new([8; 32]));
    assert_eq!(relay.secret_rotated_at, later);

    let much_later = start().after(Duration::from_secs(100_000));
    let discovery = encode(&Message::RelayDiscovery { discovery_nonce: 5 });
    let prepared = relay.prepare_datagram_with(
        much_later,
        socket([198, 51, 100, 8], 40_000),
        &discovery,
        Some(RelaySecret::new([9; 32])),
    );
    assert!(matches!(prepared, Ok((RelayAction::Send(_), None))));
    assert!(relay.config.secret == RelaySecret::new([9; 32]));
}
