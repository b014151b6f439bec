use amt::net::{IpAddr, Ipv4Addr, Ipv6Addr};
use amt::protocol::{
    decode, encode, DecodeError, GatewayAddress, GatewayEndpoint, MembershipProtocol, Message,
    MessageType, ResponseMac,
};

fn mac() -> ResponseMac {
    ResponseMac::new([0xaa, 0xbb, 0xcc, 0xdd, 0xee, 0xff])
}

#[test]
fn relay_discovery_round_trip() {
    let message = Message::RelayDiscovery {
        discovery_nonce: 0x0102_0304,
    };

    let encoded = encode(&message);

    assert_eq!(encoded, [0x01, 0, 0, 0, 1, 2, 3, 4]);
    assert_eq!(decode(&encoded), Ok(message));
}

#[test]
fn relay_advertisement_ipv4_round_trip() {
    let message = Message::RelayAdvertisement {
        discovery_nonce: 7,
        relay_address: IpAddr::V4(Ipv4Addr::new(192, 52, 193, 1)),
    };

    let encoded = encode(&message);

    assert_eq!(encoded.len(), 12);
    assert_eq!(decode(&encoded), Ok(message));
}

#[test]
fn relay_advertisement_ipv6_round_trip() {
    let message = Message::RelayAdvertisement {
        discovery_nonce: 9,
        relay_address: IpAddr::V6(Ipv6Addr::new(0x2001, 3, 0, 0, 0, 0, 0, 1)),
    };

    let encoded = encode(&message);

    assert_eq!(encoded.len(), 24);
    assert_eq!(decode(&encoded), Ok(message));
}

#[test]
fn request_uses_p_flag_for_mldv2() {
    let message = Message::Request {
        request_nonce: 0x1122_3344,
        protocol: MembershipProtocol::Mldv2,
        ecn_capable: false,
    };

    let encoded = encode(&message);

    assert_eq!(encoded, [0x03, 1, 0, 0, 0x11, 0x22, 0x33, 0x44]);
    assert_eq!(decode(&encoded), Ok(message));
}

#[test]
fn request_uses_e_flag_for_ecn() {
    let message = Message::Request {
        request_nonce: 0x1122_3344,
        protocol: MembershipProtocol::Mldv2,
        ecn_capable: true,
    };

    let encoded = encode(&message);

    assert_eq!(encoded, [0x03, 3, 0, 0, 0x11, 0x22, 0x33, 0x44]);
    assert_eq!(decode(&encoded), Ok(message));
}

#[test]
fn membership_query_without_gateway_round_trip() {
    let query = [0x45, 0, 0, 20];
    let message = Message::MembershipQuery {
        response_mac: mac(),
        request_nonce: 0x0102_0304,
        limit: true,
        gateway: None,
        general_query: &query,
    };

    let encoded = encode(&message);

    assert_eq!(encoded[0], 0x04);
    assert_eq!(encoded[1], 0x02);
    assert_eq!(decode(&encoded), Ok(message));
}

#[test]
fn membership_query_with_gateway_splits_trailing_fields() {
    let query = [0x60, 0, 0, 0, 0, 32];
    let gateway = GatewayEndpoint::new(50_000, IpAddr::V4(Ipv4Addr::new(203, 0, 113, 8)));
    let message = Message::MembershipQuery {
        response_mac: mac(),
        request_nonce: 0x5566_7788,
        limit: false,
        gateway: Some(gateway),
        general_query: &query,
    };

    let encoded = encode(&message);

    assert_eq!(encoded[0], 0x04);
    assert_eq!(encoded[1], 0x01);
    assert_eq!(decode(&encoded), Ok(message));
}

#[test]
fn membership_update_round_trip() {
    let update = [0x46, 0, 0, 28, 0x16, 0];
    let message = Message::MembershipUpdate {
        response_mac: mac(),
        request_nonce: 0x0102_0304,
        membership_update: &update,
    };

    let encoded = encode(&message);

    assert_eq!(encoded[0], 0x05);
    assert_eq!(decode(&encoded), Ok(message));
}

#[test]
fn multicast_data_uses_two_byte_shim() {
    let packet = [0x45, 0, 0, 20];
    let message = Message::MulticastData { packet: &packet };

    let encoded = encode(&message);

    assert_eq!(encoded, [0x06, 0, 0x45, 0, 0, 20]);
    assert_eq!(decode(&encoded), Ok(message));
}

#[test]
fn teardown_round_trip() {
    let gateway = GatewayEndpoint::new(2268, IpAddr::V6(Ipv6Addr::new(0, 0, 0, 0, 0, 0, 0, 1)));
    let message = Message::Teardown {
        response_mac: mac(),
        request_nonce: 0x99aa_bbcc,
        gateway,
    };

    let encoded = encode(&message);

    assert_eq!(encoded.len(), 30);
    assert_eq!(decode(&encoded), Ok(message));
}

#[test]
fn unsupported_version_is_rejected() {
    assert_eq!(
        decode(&[0x11, 0, 0, 0, 0, 0, 0, 0]),
        Err(DecodeError::UnsupportedVersion(1))
    );
}

#[test]
fn unknown_type_is_rejected() {
    assert_eq!(decode(&[0x08]), Err(DecodeError::UnknownMessageType(8)));
}

#[test]
fn truncated_message_is_rejected() {
    assert_eq!(
        decode(&[0x01, 0]),
        Err(DecodeError::Truncated {
            message_type: Some(MessageType::RelayDiscovery),
            expected_at_least: 8,
            actual: 2,
        })
    );
}

#[test]
fn advertisement_of_odd_length_is_rejected() {
    let mut bytes = encode(&Message::RelayAdvertisement {
        discovery_nonce: 7,
        relay_address: IpAddr::V4(Ipv4Addr::new(192, 52, 193, 1)),
    });
    bytes.push(0);
    assert!(matches!(
        decode(&bytes),
        Err(DecodeError::InvalidLength {
            message_type: MessageType::RelayAdvertisement,
            actual: 13,
            ..
        })
    ));
}

#[test]
fn gateway_addresses_keep_ip_addresses() {
    let v4 = Ipv4Addr::new(203, 0, 113, 8);
    let address = GatewayAddress::from_ip_addr(IpAddr::V4(v4));
    assert_eq!(address.as_ipv4_compatible(), Some(v4));
    let v6 = Ipv6Addr::new(0x2001, 0xdb8, 0, 0, 0, 0, 0, 8);
    let address = GatewayAddress::from_ip_addr(IpAddr::V6(v6));
    assert_eq!(address.as_ipv4_compatible(), None);
    assert_eq!(address.as_ipv6(), v6);
}

#[test]
fn macs_compare_by_all_bytes() {
    assert!(mac().constant_time_eq(mac()));
    let mut bytes = mac().as_bytes();
    bytes[5] ^= 1;
    assert!(!mac().constant_time_eq(ResponseMac::new(bytes)));
    assert_eq!(ResponseMac::zero().as_bytes(), [0; 6]);
}

#[test]
fn encoded_lengths_match_the_wire_form() {
    let query = [0x45, 0, 0, 20];
    let gateway = GatewayEndpoint::new(40_000, IpAddr::V4(Ipv4Addr::new(198, 51, 100, 8)));
    for message in [
        Message::RelayDiscovery { discovery_nonce: 1 },
        Message::MembershipQuery {
            response_mac: mac(),
            request_nonce: 2,
            limit: true,
            gateway: Some(gateway),
            general_query: &query,
        },
        Message::MulticastData { packet: &query },
        Message::Teardown {
            response_mac: mac(),
            request_nonce: 3,
            gateway,
        },
    ] {
        assert_eq!(message.encoded_len(), encode(&message).len());
    }
}
