use amt::checksum::checksum;
use amt::ecn::{ip_ecn, EcnCodepoint, EcnDecapsulation};
use amt::gateway::{
    reception_endpoint, Gateway, GatewayAction, GatewayConfig, GatewayError, GatewayPhase,
    GatewaySession,
};
use amt::membership::{MembershipRecord, MembershipRecordKind, MembershipReport};
use amt::net::{IpAddr, Ipv4Addr, Ipv6Addr, SocketAddr};
use amt::ordered::OrdSet;
use amt::protocol::{
    decode, encode, GatewayEndpoint, MembershipProtocol, Message, ResponseMac,
};
use amt::query::{build_general_query, GeneralQueryConfig};
use amt::random::RandomnessError;

fn socket(octets: [u8; 4], port: u16) -> SocketAddr {
    let [a, b, c, d] = octets;
    SocketAddr::new(IpAddr::V4(Ipv4Addr::new(a, b, c, d)), port)
}

fn config(relay: SocketAddr) -> GatewayConfig {
    GatewayConfig::new(relay, MembershipProtocol::Igmpv3).unwrap()
}

fn gateway_for(config: GatewayConfig) -> Gateway {
    Gateway::new(config).unwrap()
}

fn await_query(gateway: &mut Gateway, relay: SocketAddr) {
    gateway.relay_endpoint = Some(relay);
    gateway.phase = GatewayPhase::AwaitingMembershipQuery;
}

fn membership_query(
    response_mac: ResponseMac,
    request_nonce: u32,
    gateway: Option<GatewayEndpoint>,
) -> Vec<u8> {
    let general_query =
        build_general_query(MembershipProtocol::Igmpv3, &GeneralQueryConfig::default());
    encode(&Message::MembershipQuery {
        response_mac,
        request_nonce,
        limit: false,
        gateway,
        general_query: &general_query,
    })
}

fn multicast_packet(source: Ipv4Addr, group: Ipv4Addr) -> Vec<u8> {
    let mut packet = vec![0u8; 28];
    packet[0] = 0x45;
    packet[2..4].copy_from_slice(&28u16.to_be_bytes());
    packet[8] = 16;
    packet[9] = 17;
    packet[12..16].copy_from_slice(&source.octets());
    packet[16..20].copy_from_slice(&group.octets());
    let checksum = checksum(&packet[..20]);
    packet[10..12].copy_from_slice(&checksum.to_be_bytes());
    packet
}

fn multicast_packet_with_ecn(source: Ipv4Addr, group: Ipv4Addr, ecn: EcnCodepoint) -> Vec<u8> {
    let mut packet = multicast_packet(source, group);
    packet[1] = ecn.bits();
    packet[10..12].fill(0);
    let checksum = checksum(&packet[..20]);
    packet[10..12].copy_from_slice(&checksum.to_be_bytes());
    packet
}

#[test]
fn discovery_builds_relay_discovery() {
    let relay = socket([127, 0, 0, 1], 2268);
    let gateway = gateway_for(
        config(relay)
            .with_nonces(0x0102_0304, 0x0506_0708),
    );

    let Some((destination, datagram)) = gateway.discovery().into_send() else {
        panic!("expected send action");
    };

    assert_eq!(destination, relay);
    assert_eq!(
        decode(&datagram),
        Ok(Message::RelayDiscovery {
            discovery_nonce: 0x0102_0304
        })
    );
}

#[test]
fn advertisement_triggers_request_to_advertised_address() {
    let discovery_relay = socket([127, 0, 0, 1], 2268);
    let mut gateway = gateway_for(
        config(discovery_relay)
            .with_nonces(0x0102_0304, 0x0506_0708),
    );
    let advertisement = encode(&Message::RelayAdvertisement {
        discovery_nonce: 0x0102_0304,
        relay_address: IpAddr::V4(Ipv4Addr::new(192, 0, 2, 20)),
    });

    let action = gateway
        .handle_datagram(discovery_relay, &advertisement)
        .unwrap();

    let Some((destination, datagram)) = action.into_send() else {
        panic!("expected request send action");
    };
    assert_eq!(destination, socket([192, 0, 2, 20], 2268));
    assert_eq!(
        decode(&datagram),
        Ok(Message::Request {
            request_nonce: 0x0506_0708,
            protocol: MembershipProtocol::Igmpv3,
            ecn_capable: false,
        })
    );
}

#[test]
fn request_builds_amt_request_for_discovered_relay() {
    let relay = socket([192, 0, 2, 20], 2268);
    let mut gateway = gateway_for(
        config(relay)
            .with_nonces(0x0102_0304, 0x0506_0708),
    );
    await_query(&mut gateway, relay);

    let action = gateway.request().unwrap();

    let Some((destination, datagram)) = action.into_send() else {
        panic!("expected send action");
    };
    assert_eq!(destination, relay);
    assert_eq!(
        decode(&datagram),
        Ok(Message::Request {
            request_nonce: 0x0506_0708,
            protocol: MembershipProtocol::Igmpv3,
            ecn_capable: false,
        })
    );
}

#[test]
fn ecn_gateway_sets_request_capability_flag() {
    let relay = socket([192, 0, 2, 20], 2268);
    let mut gateway = gateway_for(
        config(relay)
            .with_ecn(true)
            .with_nonces(0x0102_0304, 0x0506_0708),
    );
    await_query(&mut gateway, relay);

    let (_, datagram) = gateway.request().unwrap().into_send().unwrap();

    assert_eq!(
        decode(&datagram),
        Ok(Message::Request {
            request_nonce: 0x0506_0708,
            protocol: MembershipProtocol::Igmpv3,
            ecn_capable: true,
        })
    );
}

#[test]
fn unexpected_advertisement_nonce_does_not_update_relay_endpoint() {
    let discovery_relay = socket([127, 0, 0, 1], 2268);
    let mut gateway = gateway_for(
        config(discovery_relay)
            .with_nonces(0x0102_0304, 0x0506_0708),
    );
    let advertisement = encode(&Message::RelayAdvertisement {
        discovery_nonce: 0xffff_ffff,
        relay_address: IpAddr::V4(Ipv4Addr::new(192, 0, 2, 20)),
    });

    assert_eq!(
        gateway.handle_datagram(discovery_relay, &advertisement),
        Err(GatewayError::UnexpectedDiscoveryNonce {
            expected: 0x0102_0304,
            actual: 0xffff_ffff
        })
    );
    assert_eq!(gateway.relay_endpoint(), None);
}

#[test]
fn unexpected_query_nonce_does_not_replace_cached_query_state() {
    let relay = socket([127, 0, 0, 1], 2268);
    let mut gateway = gateway_for(
        config(relay)
            .with_nonces(0x0102_0304, 0x0506_0708),
    );
    let existing_mac = ResponseMac::new([1, 2, 3, 4, 5, 6]);
    let existing_gateway = GatewayEndpoint::new(40_000, IpAddr::V4(Ipv4Addr::new(198, 51, 100, 8)));
    await_query(&mut gateway, relay);
    gateway.session = Some(GatewaySession {
        response_mac: existing_mac,
        request_nonce: 0x0101_0101,
        gateway_endpoint: Some(existing_gateway),
        reported_memberships: true,
    });
    let query = encode(&Message::MembershipQuery {
        response_mac: ResponseMac::new([6, 5, 4, 3, 2, 1]),
        request_nonce: 0xffff_ffff,
        limit: true,
        gateway: None,
        general_query: &[0x45, 0, 0, 20],
    });

    assert_eq!(
        gateway.handle_datagram(relay, &query),
        Err(GatewayError::UnexpectedRequestNonce {
            expected: 0x0506_0708,
            actual: 0xffff_ffff
        })
    );
    assert_eq!(gateway.response_mac(), Some(existing_mac));
    assert_eq!(
        gateway.session.and_then(|session| session.gateway_endpoint),
        Some(existing_gateway)
    );
}

#[test]
fn join_group_builds_membership_update_after_query() {
    let relay = socket([127, 0, 0, 1], 2268);
    let mut gateway = gateway_for(
        config(relay)
            .with_nonces(0x0102_0304, 0x0506_0708),
    );
    await_query(&mut gateway, relay);
    let response_mac = ResponseMac::new([1, 2, 3, 4, 5, 6]);
    let query = membership_query(response_mac, 0x0506_0708, None);
    gateway.handle_datagram(relay, &query).unwrap();

    let action = gateway
        .join_group(
            IpAddr::V4(Ipv4Addr::new(232, 1, 2, 3)),
            Some(IpAddr::V4(Ipv4Addr::new(192, 0, 2, 1))),
        )
        .unwrap();
    let (_, update) = action.into_send().unwrap();
    let Message::MembershipUpdate {
        response_mac: actual_mac,
        request_nonce,
        membership_update,
    } = decode(&update).unwrap()
    else {
        panic!("expected membership update");
    };

    assert_eq!(actual_mac, response_mac);
    assert_eq!(request_nonce, 0x0506_0708);
    assert!(membership_update.starts_with(&[0x46]));
}

#[test]
fn repeated_ssm_joins_are_additive() {
    let relay = socket([127, 0, 0, 1], 2268);
    let group = IpAddr::V4(Ipv4Addr::new(232, 1, 2, 3));
    let first = IpAddr::V4(Ipv4Addr::new(192, 0, 2, 1));
    let second = IpAddr::V4(Ipv4Addr::new(192, 0, 2, 2));
    let mut gateway = gateway_for(
        config(relay)
            .with_nonces(0x0102_0304, 0x0506_0708),
    );
    await_query(&mut gateway, relay);
    let query = membership_query(ResponseMac::new([1, 2, 3, 4, 5, 6]), 0x0506_0708, None);
    gateway.handle_datagram(relay, &query).unwrap();

    gateway.join_group(group, Some(first)).unwrap();
    gateway.join_group(group, Some(second)).unwrap();

    let interest = gateway
        .reception_state
        .endpoint_interest(reception_endpoint(), group)
        .unwrap();
    assert_eq!(interest.sources, OrdSet::from_list(&vec![first, second]));
}

#[test]
fn rediscovery_does_not_carry_reported_status_into_new_session() {
    let relay = socket([127, 0, 0, 1], 2268);
    let mut gateway = gateway_for(
        config(relay)
            .with_nonces(0x0102_0304, 0x0506_0708),
    );
    await_query(&mut gateway, relay);
    let query = membership_query(ResponseMac::new([1, 2, 3, 4, 5, 6]), 0x0506_0708, None);
    gateway.handle_datagram(relay, &query).unwrap();
    gateway
        .join_group(
            IpAddr::V4(Ipv4Addr::new(232, 1, 2, 3)),
            Some(IpAddr::V4(Ipv4Addr::new(192, 0, 2, 1))),
        )
        .unwrap();
    assert!(gateway.has_reported_memberships());

    gateway.restart_discovery().unwrap();

    assert!(!gateway.has_reported_memberships());
}

#[test]
fn teardown_requires_gateway_endpoint_from_membership_query() {
    let relay = socket([127, 0, 0, 1], 2268);
    let mut gateway = gateway_for(
        config(relay)
            .with_nonces(0x0102_0304, 0x0506_0708),
    );
    await_query(&mut gateway, relay);
    let query = membership_query(ResponseMac::new([1, 2, 3, 4, 5, 6]), 0x0506_0708, None);
    gateway.handle_datagram(relay, &query).unwrap();

    assert_eq!(
        gateway.teardown(),
        Err(GatewayError::MissingGatewayEndpoint)
    );
}

#[test]
fn rejects_advertisement_from_a_different_peer() {
    let relay = socket([192, 0, 2, 10], 2268);
    let attacker = socket([192, 0, 2, 11], 2268);
    let mut gateway =
        gateway_for(config(relay).with_nonces(1, 2));
    let advertisement = encode(&Message::RelayAdvertisement {
        discovery_nonce: 1,
        relay_address: relay.ip(),
    });

    assert_eq!(
        gateway.handle_datagram(attacker, &advertisement),
        Err(GatewayError::UnexpectedPeer {
            expected: relay,
            actual: attacker,
        })
    );
    assert!(matches!(
        gateway.handle_datagram(attacker, &[0xff]),
        Err(GatewayError::UnexpectedPeer { .. })
    ));
    assert_eq!(gateway.relay_endpoint(), None);
}

#[test]
fn multicast_data_requires_selected_relay_and_requested_source() {
    let relay = socket([192, 0, 2, 10], 2268);
    let attacker = socket([192, 0, 2, 11], 2268);
    let source = Ipv4Addr::new(192, 0, 2, 1);
    let other_source = Ipv4Addr::new(192, 0, 2, 2);
    let group = Ipv4Addr::new(232, 1, 2, 3);
    let mut gateway =
        gateway_for(config(relay).with_nonces(1, 2));
    await_query(&mut gateway, relay);
    let query = membership_query(ResponseMac::new([1; 6]), 2, None);
    gateway.handle_datagram(relay, &query).unwrap();
    gateway
        .join_group(IpAddr::V4(group), Some(IpAddr::V4(source)))
        .unwrap();

    let packet = multicast_packet(source, group);
    let data = encode(&Message::MulticastData { packet: &packet });
    assert!(matches!(
        gateway.handle_datagram(attacker, &data),
        Err(GatewayError::UnexpectedPeer { .. })
    ));

    let packet = multicast_packet(other_source, group);
    let data = encode(&Message::MulticastData { packet: &packet });
    assert_eq!(
        gateway.handle_datagram(relay, &data),
        Ok(GatewayAction::Ignored)
    );
}

#[test]
fn ecn_gateway_propagates_outer_ce_into_inner_packet() {
    let relay = socket([192, 0, 2, 10], 2268);
    let source = Ipv4Addr::new(192, 0, 2, 1);
    let group = Ipv4Addr::new(232, 1, 2, 3);
    let mut gateway = gateway_for(
        config(relay)
            .with_ecn(true)
            .with_nonces(1, 2),
    );
    await_query(&mut gateway, relay);
    let query = membership_query(ResponseMac::new([1; 6]), 2, None);
    gateway.handle_datagram(relay, &query).unwrap();
    gateway
        .join_group(IpAddr::V4(group), Some(IpAddr::V4(source)))
        .unwrap();
    let packet = multicast_packet_with_ecn(source, group, EcnCodepoint::Ect0);
    let data = encode(&Message::MulticastData { packet: &packet });

    let action = gateway
        .handle_datagram_with_ecn(relay, &data, EcnCodepoint::Ce)
        .unwrap();

    let GatewayAction::MulticastData { packet, ecn } = action else {
        panic!("expected forwarded multicast data");
    };
    assert_eq!(ip_ecn(&packet), Ok(EcnCodepoint::Ce));
    assert!(ecn.unwrap().propagated_ce());
}

#[test]
fn ecn_gateway_drops_not_ect_inner_with_outer_ce() {
    let relay = socket([192, 0, 2, 10], 2268);
    let source = Ipv4Addr::new(192, 0, 2, 1);
    let group = Ipv4Addr::new(232, 1, 2, 3);
    let mut gateway = gateway_for(
        config(relay)
            .with_ecn(true)
            .with_nonces(1, 2),
    );
    await_query(&mut gateway, relay);
    let query = membership_query(ResponseMac::new([1; 6]), 2, None);
    gateway.handle_datagram(relay, &query).unwrap();
    gateway
        .join_group(IpAddr::V4(group), Some(IpAddr::V4(source)))
        .unwrap();
    let packet = multicast_packet_with_ecn(source, group, EcnCodepoint::NotEct);
    let data = encode(&Message::MulticastData { packet: &packet });

    let action = gateway
        .handle_datagram_with_ecn(relay, &data, EcnCodepoint::Ce)
        .unwrap();

    assert!(matches!(
        action,
        GatewayAction::DroppedEcn {
            ecn: EcnDecapsulation { output: None, .. },
            ..
        }
    ));
}

#[test]
fn rejects_membership_query_without_valid_general_query() {
    let relay = socket([192, 0, 2, 10], 2268);
    let mut gateway =
        gateway_for(config(relay).with_nonces(1, 2));
    await_query(&mut gateway, relay);
    let query = encode(&Message::MembershipQuery {
        response_mac: ResponseMac::new([1; 6]),
        request_nonce: 2,
        limit: false,
        gateway: None,
        general_query: &[0x45, 0, 0, 20],
    });

    assert!(matches!(
        gateway.handle_datagram(relay, &query),
        Err(GatewayError::InvalidGeneralQuery(_))
    ));
    assert!(!gateway.is_established());
}

#[test]
fn fresh_query_cycle_leaves_established_phase_and_rotates_nonce() {
    let relay = socket([192, 0, 2, 10], 2268);
    let mut gateway =
        gateway_for(config(relay).with_nonces(1, 2));
    await_query(&mut gateway, relay);
    let query = membership_query(ResponseMac::new([1; 6]), 2, None);
    gateway.handle_datagram(relay, &query).unwrap();
    assert!(gateway.is_established());

    let action = gateway.begin_query_cycle().unwrap();

    assert!(!gateway.is_established());
    assert!(gateway.is_awaiting_query());
    let (_, request) = action.into_send().unwrap();
    let Message::Request { request_nonce, .. } = Message::decode(&request).unwrap() else {
        panic!("expected Request");
    };
    assert_ne!(request_nonce, 0);
}

#[test]
fn restart_discovery_rotates_fallback_relays() {
    let first = socket([192, 0, 2, 10], 2268);
    let second = socket([192, 0, 2, 11], 2268);
    let mut gateway = gateway_for(
        config(first).with_fallback_relays(vec![second]),
    );

    let (destination, _) = gateway.restart_discovery().unwrap().into_send().unwrap();
    assert_eq!(destination, second);
    let (destination, _) = gateway.restart_discovery().unwrap().into_send().unwrap();
    assert_eq!(destination, first);
}

#[test]
fn fallback_relays_stay_in_the_primary_outer_address_family() {
    let primary = socket([192, 0, 2, 1], 2268);
    let ipv4_fallback = socket([192, 0, 2, 2], 2268);
    let ipv6_fallback = SocketAddr::new(IpAddr::V6(Ipv6Addr::new(0x2001, 0xdb8, 0, 0, 0, 0, 0, 1)), 2268);
    let config = config(primary)
        .with_fallback_relays(vec![ipv6_fallback, ipv4_fallback]);

    assert_eq!(config.fallback_relays, vec![ipv4_fallback]);
}

#[test]
fn refreshed_candidates_retire_removed_relay_without_reintroducing_it() {
    let first = socket([192, 0, 2, 10], 2268);
    let second = socket([192, 0, 2, 11], 2268);
    let third = socket([192, 0, 2, 12], 2268);
    let mut gateway = gateway_for(
        config(first).with_fallback_relays(vec![second]),
    );

    assert!(gateway.replace_relay_candidates(vec![second, third]));
    assert_eq!(gateway.config().relay, first);
    assert!(gateway.current_relay_is_retired());

    assert_eq!(gateway.restart_discovery().unwrap().into_send().unwrap().0, second);
    assert_eq!(gateway.restart_discovery().unwrap().into_send().unwrap().0, third);
    assert_eq!(gateway.restart_discovery().unwrap().into_send().unwrap().0, second);
}

fn established(relay: SocketAddr) -> Gateway {
    let mut gateway = gateway_for(config(relay).with_nonces(1, 2));
    await_query(&mut gateway, relay);
    let endpoint = GatewayEndpoint::new(40_000, IpAddr::V4(Ipv4Addr::new(198, 51, 100, 8)));
    let query = membership_query(ResponseMac::new([1; 6]), 2, Some(endpoint));
    gateway.handle_datagram(relay, &query).unwrap();
    gateway
}

fn excluding(group: IpAddr) -> MembershipReport {
    MembershipReport {
        protocol: MembershipProtocol::Igmpv3,
        records: vec![MembershipRecord {
            kind: MembershipRecordKind::ChangeToExclude,
            group,
            sources: Vec::new(),
        }],
    }
}

#[test]
fn nonces_are_never_zero() {
    let relay = socket([192, 0, 2, 10], 2268);
    let given = GatewayConfig::from_nonces(relay, MembershipProtocol::Igmpv3, 7, 8);
    assert_eq!((given.discovery_nonce, given.request_nonce), (7, 8));
    let failed = || RandomnessError { message: "none".to_string() };
    let drawn = |first, second| {
        GatewayConfig::from_drawn(relay, MembershipProtocol::Igmpv3, first, second)
    };
    assert_eq!(drawn(Ok(7), Ok(8)), Ok(given));
    assert_eq!(drawn(Ok(7), Err(failed())), Err(failed()));
    assert_eq!(drawn(Err(failed()), Ok(8)), Err(failed()));
    let gateway = gateway_for(config(relay).with_nonces(0, 0));
    assert_ne!(gateway.config().discovery_nonce, 0);
    assert_ne!(gateway.config().request_nonce, 0);
}

#[test]
fn requests_wait_for_a_relay_and_updates_for_a_query() {
    let relay = socket([192, 0, 2, 10], 2268);
    let mut gateway = gateway_for(config(relay).with_nonces(1, 2));
    assert_eq!(gateway.request(), Err(GatewayError::MissingRelayEndpoint));
    assert!(gateway
        .join_group(IpAddr::V4(Ipv4Addr::new(239, 1, 2, 3)), None)
        .is_err());
    assert!(gateway.teardown().is_err());
    assert!(!gateway.has_reported_memberships());
}

#[test]
fn replaced_memberships_send_only_what_changed() {
    let relay = socket([192, 0, 2, 10], 2268);
    let first = IpAddr::V4(Ipv4Addr::new(239, 1, 2, 3));
    let second = IpAddr::V4(Ipv4Addr::new(239, 1, 2, 4));
    let mut gateway = established(relay);

    assert!(gateway.replace_memberships(excluding(first)).unwrap().is_some());
    assert!(gateway.replace_memberships(excluding(second)).unwrap().is_some());
    assert!(gateway
        .reception_state
        .endpoint_interest(reception_endpoint(), first)
        .is_none());
    assert!(gateway
        .reception_state
        .endpoint_interest(reception_endpoint(), second)
        .is_some());
}

#[test]
fn teardown_names_the_endpoint_that_the_relay_saw() {
    let relay = socket([192, 0, 2, 10], 2268);
    let gateway = established(relay);

    let (destination, datagram) = gateway.teardown().unwrap().into_send().unwrap();

    assert_eq!(destination, relay);
    assert_eq!(
        decode(&datagram),
        Ok(Message::Teardown {
            response_mac: ResponseMac::new([1; 6]),
            request_nonce: 2,
            gateway: GatewayEndpoint::new(40_000, IpAddr::V4(Ipv4Addr::new(198, 51, 100, 8))),
        })
    );
}

#[test]
fn undecodable_and_misdirected_datagrams_are_errors() {
    let relay = socket([192, 0, 2, 10], 2268);
    let mut gateway = established(relay);
    assert!(matches!(
        gateway.handle_datagram(relay, &[]),
        Err(GatewayError::Decode(_))
    ));
    let discovery = encode(&Message::RelayDiscovery { discovery_nonce: 1 });
    assert_eq!(
        gateway.handle_datagram(relay, &discovery),
        Ok(GatewayAction::Ignored)
    );
}

#[test]
fn each_gateway_error_has_its_cause() {
    let relay = socket([192, 0, 2, 10], 2268);
    let mut fresh = gateway_for(config(relay).with_nonces(1, 2));
    let loopback = encode(&Message::RelayAdvertisement {
        discovery_nonce: 1,
        relay_address: IpAddr::V4(Ipv4Addr::new(224, 0, 0, 1)),
    });
    assert_eq!(
        fresh.handle_datagram(relay, &loopback),
        Err(GatewayError::InvalidRelayAddress(IpAddr::V4(Ipv4Addr::new(224, 0, 0, 1))))
    );
    await_query(&mut fresh, relay);
    assert_eq!(
        fresh.join_group(IpAddr::V4(Ipv4Addr::new(239, 1, 2, 3)), None),
        Err(GatewayError::MissingMembershipQuery)
    );
    let late = encode(&Message::RelayAdvertisement {
        discovery_nonce: 1,
        relay_address: relay.ip(),
    });
    assert_eq!(
        fresh.handle_datagram(relay, &late),
        Err(GatewayError::UnexpectedMessageForState {
            message: "Relay Advertisement",
            phase: GatewayPhase::AwaitingMembershipQuery,
        })
    );

    let mut gateway = established(relay);
    assert!(matches!(
        gateway.join_group(IpAddr::V4(Ipv4Addr::new(192, 0, 2, 1)), None),
        Err(GatewayError::MembershipBuild(_))
    ));
    let garbage = encode(&Message::MulticastData { packet: &[0x45, 0] });
    assert!(matches!(
        gateway.handle_datagram(relay, &garbage),
        Err(GatewayError::InvalidMulticastPacket(_))
    ));
}
