use amt::candidates::{
    order_relay_candidates, order_relay_candidates_with, xorshift64, DriadRelaySelection,
};
use amt::dns::{
    apply_dname, build_dns_query, dns_name_eq, is_truncated_response, parse_address_response,
    parse_amtrelay_rdata, parse_dns_name, parse_dns_response, put_dns_name, stream_query,
    stream_response_len, AmtRelayRecord, AmtRelayTarget, Timed, AMTRELAY_RRTYPE, DNS_CLASS_IN,
    DNS_HEADER_LEN, DNS_TYPE_A, DNS_TYPE_AAAA, DNS_TYPE_CNAME,
};
use amt::driad::{
    amt_anycast_ipv4, amt_anycast_ipv6, nameserver_entries, parse_resolver_addr,
    randomized_duration, randomized_duration_with, reverse_source_name, system_resolvers,
    DnsQueryLimiter, DriadError, DriadResolver, DriadResolverConfig,
};
use amt::lookup::{
    is_usable_relay_address, lookup_host, new_query, relay_socket_addrs, CandidateSearch,
    HostLookup, RelayLookup,
};
use amt::net::{AddressText, IpAddr, Ipv4Addr, Ipv6Addr, SocketAddr};
use amt::protocol::AMT_PORT;
use amt::time::{Duration, Instant};

fn socket(octets: [u8; 4], port: u16) -> SocketAddr {
    let [a, b, c, d] = octets;
    SocketAddr::new(IpAddr::V4(Ipv4Addr::new(a, b, c, d)), port)
}

fn socket6(last: u16) -> SocketAddr {
    SocketAddr::new(IpAddr::V6(Ipv6Addr::new(0x2001, 0xdb8, 0, 0, 0, 0, 0, last)), 2268)
}

fn selection(precedence: u8, relay: SocketAddr) -> DriadRelaySelection {
    DriadRelaySelection {
        source: IpAddr::V4(Ipv4Addr::new(192, 0, 2, 1)),
        query_name: "1.2.0.192.in-addr.arpa".to_string(),
        record: AmtRelayRecord {
            precedence,
            discovery_optional: false,
            target: match relay.ip() {
                IpAddr::V4(address) => AmtRelayTarget::Ipv4(address),
                IpAddr::V6(address) => AmtRelayTarget::Ipv6(address),
            },
        },
        relay,
        ttl: Duration::from_secs(60),
    }
}

#[test]
fn reverse_names_match_ipv4_and_ipv6_sources() {
    assert_eq!(
        reverse_source_name(IpAddr::V4(Ipv4Addr::new(198, 51, 100, 12))),
        "12.100.51.198.in-addr.arpa"
    );
    assert_eq!(
        reverse_source_name(IpAddr::V6(Ipv6Addr::new(0, 0, 0, 0, 0, 0, 0, 1))),
        "1.0.0.0.0.0.0.0.0.0.0.0.0.0.0.0.0.0.0.0.0.0.0.0.0.0.0.0.0.0.0.0.ip6.arpa"
    );
}

#[test]
fn candidate_order_preserves_precedence_and_interleaves_families() {
    let candidates = vec![
        selection(20, socket6(2)),
        selection(10, socket([192, 0, 2, 1], 2268)),
        selection(10, socket6(1)),
        selection(10, socket([192, 0, 2, 2], 2268)),
        selection(10, socket6(3)),
    ];

    let candidates = order_relay_candidates(&candidates);

    assert_eq!(
        candidates
            .iter()
            .map(|candidate| candidate.record.precedence)
            .collect::<Vec<_>>(),
        vec![10, 10, 10, 10, 20]
    );
    assert!(
        candidates[..4]
            .windows(2)
            .all(|pair| { pair[0].relay.is_ipv4() != pair[1].relay.is_ipv4() })
    );
}

#[test]
fn dns_query_limiter_bounds_each_window() {
    let start = Instant::at(Duration::from_secs(50));
    let mut limiter = DnsQueryLimiter::new(2, Duration::from_millis(100));

    assert_eq!(limiter.reserve_at(start), None);
    assert_eq!(limiter.reserve_at(start), None);
    assert_eq!(limiter.reserve_at(start), Some(Duration::from_millis(100)));
    assert_eq!(
        limiter.reserve_at(start.after(Duration::from_millis(99))),
        Some(Duration::from_millis(1))
    );
    assert_eq!(limiter.reserve_at(start.after(Duration::from_millis(100))), None);
}

#[test]
fn parses_amtrelay_ipv4_ipv6_name_and_no_relay() {
    assert_eq!(
        parse_amtrelay_rdata(&[10, 1, 203, 0, 113, 15]),
        Ok(AmtRelayRecord {
            precedence: 10,
            discovery_optional: false,
            target: AmtRelayTarget::Ipv4(Ipv4Addr::new(203, 0, 113, 15)),
        })
    );

    let mut ipv6 = vec![10, 2];
    ipv6.extend_from_slice(&Ipv6Addr::new(0, 0, 0, 0, 0, 0, 0, 1).octets());
    assert_eq!(
        parse_amtrelay_rdata(&ipv6).unwrap().target,
        AmtRelayTarget::Ipv6(Ipv6Addr::new(0, 0, 0, 0, 0, 0, 0, 1))
    );

    let mut name = vec![128, 0x83];
    put_dns_name(&mut name, "amtrelays.example.com").unwrap();
    assert_eq!(
        parse_amtrelay_rdata(&name),
        Ok(AmtRelayRecord {
            precedence: 128,
            discovery_optional: true,
            target: AmtRelayTarget::Name("amtrelays.example.com".to_string()),
        })
    );

    assert_eq!(
        parse_amtrelay_rdata(&[0, 0]),
        Ok(AmtRelayRecord {
            precedence: 0,
            discovery_optional: false,
            target: AmtRelayTarget::NoRelay,
        })
    );
}

#[test]
fn rejects_bad_amtrelay_lengths() {
    assert_eq!(
        parse_amtrelay_rdata(&[10, 1, 203, 0, 113]),
        Err(DriadError::InvalidRelayLength {
            relay_type: 1,
            expected: 4,
            actual: 3,
        })
    );
    assert_eq!(
        parse_amtrelay_rdata(&[10, 4]),
        Err(DriadError::InvalidRelayType(4))
    );
    assert_eq!(
        parse_amtrelay_rdata(&[10, 3, 0xc0, 0x00]),
        Err(DriadError::InvalidRelayName)
    );
}

#[test]
fn resolver_configuration_rejects_zero_limits() {
    let mut config = DriadResolverConfig::new(vec![socket([127, 0, 0, 1], 53)]);
    config.max_candidates = 0;
    assert!(matches!(
        DriadResolver::new(config).validate(),
        Err(DriadError::InvalidConfig(_))
    ));
}

#[test]
fn parses_dns_response_with_amtrelay_answer() {
    let name = "12.100.51.198.in-addr.arpa";
    let mut response = Vec::new();
    response.extend_from_slice(&0x1234u16.to_be_bytes());
    response.extend_from_slice(&0x8180u16.to_be_bytes());
    response.extend_from_slice(&1u16.to_be_bytes());
    response.extend_from_slice(&1u16.to_be_bytes());
    response.extend_from_slice(&0u16.to_be_bytes());
    response.extend_from_slice(&0u16.to_be_bytes());
    put_dns_name(&mut response, name).unwrap();
    response.extend_from_slice(&AMTRELAY_RRTYPE.to_be_bytes());
    response.extend_from_slice(&DNS_CLASS_IN.to_be_bytes());
    response.extend_from_slice(&[0xc0, 0x0c]);
    response.extend_from_slice(&AMTRELAY_RRTYPE.to_be_bytes());
    response.extend_from_slice(&DNS_CLASS_IN.to_be_bytes());
    response.extend_from_slice(&60u32.to_be_bytes());
    response.extend_from_slice(&6u16.to_be_bytes());
    response.extend_from_slice(&[10, 1, 203, 0, 113, 15]);

    let parsed = parse_dns_response(0x1234, name, &response).unwrap();

    assert_eq!(
        parsed.records,
        vec![Timed {
            value: AmtRelayRecord {
                precedence: 10,
                discovery_optional: false,
                target: AmtRelayTarget::Ipv4(Ipv4Addr::new(203, 0, 113, 15)),
            },
            ttl: Duration::from_secs(60),
        }]
    );
}

#[test]
fn follows_cname_answers() {
    let name = "12.100.51.198.in-addr.arpa";
    let mut response = Vec::new();
    response.extend_from_slice(&0x1234u16.to_be_bytes());
    response.extend_from_slice(&0x8180u16.to_be_bytes());
    response.extend_from_slice(&1u16.to_be_bytes());
    response.extend_from_slice(&1u16.to_be_bytes());
    response.extend_from_slice(&0u16.to_be_bytes());
    response.extend_from_slice(&0u16.to_be_bytes());
    put_dns_name(&mut response, name).unwrap();
    response.extend_from_slice(&AMTRELAY_RRTYPE.to_be_bytes());
    response.extend_from_slice(&DNS_CLASS_IN.to_be_bytes());
    response.extend_from_slice(&[0xc0, 0x0c]);
    response.extend_from_slice(&DNS_TYPE_CNAME.to_be_bytes());
    response.extend_from_slice(&DNS_CLASS_IN.to_be_bytes());
    response.extend_from_slice(&60u32.to_be_bytes());
    let rdlen_offset = response.len();
    response.extend_from_slice(&0u16.to_be_bytes());
    let rdata_offset = response.len();
    put_dns_name(&mut response, "relay.example.com").unwrap();
    let rdlen = (response.len() - rdata_offset) as u16;
    response[rdlen_offset..rdlen_offset + 2].copy_from_slice(&rdlen.to_be_bytes());

    let parsed = parse_dns_response(0x1234, name, &response).unwrap();

    assert_eq!(
        parsed.aliases,
        vec![Timed {
            value: "relay.example.com".to_string(),
            ttl: Duration::from_secs(60),
        }]
    );
}

#[test]
fn parses_address_ttl_for_named_relay() {
    let name = "relay.example.com";
    let mut response = Vec::new();
    response.extend_from_slice(&0x1234u16.to_be_bytes());
    response.extend_from_slice(&0x8180u16.to_be_bytes());
    response.extend_from_slice(&1u16.to_be_bytes());
    response.extend_from_slice(&1u16.to_be_bytes());
    response.extend_from_slice(&0u16.to_be_bytes());
    response.extend_from_slice(&0u16.to_be_bytes());
    put_dns_name(&mut response, name).unwrap();
    response.extend_from_slice(&DNS_TYPE_A.to_be_bytes());
    response.extend_from_slice(&DNS_CLASS_IN.to_be_bytes());
    response.extend_from_slice(&[0xc0, 0x0c]);
    response.extend_from_slice(&DNS_TYPE_A.to_be_bytes());
    response.extend_from_slice(&DNS_CLASS_IN.to_be_bytes());
    response.extend_from_slice(&30u32.to_be_bytes());
    response.extend_from_slice(&4u16.to_be_bytes());
    response.extend_from_slice(&[203, 0, 113, 15]);

    let parsed = parse_address_response(0x1234, name, DNS_TYPE_A, &response).unwrap();

    assert_eq!(
        parsed.addresses,
        vec![Timed {
            value: IpAddr::V4(Ipv4Addr::new(203, 0, 113, 15)),
            ttl: Duration::from_secs(30),
        }]
    );
    assert_eq!(parsed.alias, None);
}

#[test]
fn applies_dname_suffix_rewrite() {
    assert_eq!(
        apply_dname(
            "12.100.51.198.in-addr.arpa",
            "100.51.198.in-addr.arpa",
            "example.net",
        ),
        Some("12.example.net".to_string())
    );
}

#[test]
fn rejects_untrusted_remote_resolver_by_default() {
    let resolver = socket([192, 0, 2, 53], 53);
    let driad = DriadResolver::new(DriadResolverConfig::new(vec![resolver]));

    assert_eq!(
        driad.begin_lookup(IpAddr::V4(Ipv4Addr::new(198, 51, 100, 12))),
        Err(DriadError::InsecureResolver(resolver))
    );
}

fn answer(query: &[u8], ttl: u32, last_octet: u8) -> Vec<u8> {
    let (_, question_end) = parse_dns_name(query, DNS_HEADER_LEN).unwrap();
    let question_end = question_end + 4;
    let mut response = Vec::new();
    response.extend_from_slice(&query[..2]);
    response.extend_from_slice(&0x8180u16.to_be_bytes());
    response.extend_from_slice(&1u16.to_be_bytes());
    response.extend_from_slice(&1u16.to_be_bytes());
    response.extend_from_slice(&0u16.to_be_bytes());
    response.extend_from_slice(&0u16.to_be_bytes());
    response.extend_from_slice(&query[DNS_HEADER_LEN..question_end]);
    response.extend_from_slice(&[0xc0, 0x0c]);
    response.extend_from_slice(&AMTRELAY_RRTYPE.to_be_bytes());
    response.extend_from_slice(&DNS_CLASS_IN.to_be_bytes());
    response.extend_from_slice(&ttl.to_be_bytes());
    response.extend_from_slice(&6u16.to_be_bytes());
    response.extend_from_slice(&[10, 1, 203, 0, 113, last_octet]);
    response
}

fn local_resolver() -> DriadResolver {
    let mut config = DriadResolverConfig::new(vec![socket([127, 0, 0, 1], 5_353)]);
    config.timeout = Duration::from_secs(1);
    config.attempts = 1;
    DriadResolver::new(config)
}

fn first_selection(
    resolver: &DriadResolver,
    source: IpAddr,
    lookup: RelayLookup,
) -> DriadRelaySelection {
    let RelayLookup::Done(records) = lookup else {
        panic!("expected an answer");
    };
    let mut search = CandidateSearch::start(resolver.config(), source, records.unwrap()).unwrap();
    while let Some(target) = search.due() {
        let relays = relay_socket_addrs(target, Err(DriadError::NoUsableRelay));
        search.join(relays);
    }
    search.finish().unwrap().remove(0)
}

#[test]
fn resolver_returns_effective_amtrelay_ttl() {
    let resolver = local_resolver();
    let source = IpAddr::V4(Ipv4Addr::new(198, 51, 100, 12));
    let lookup = resolver.begin_lookup(source).unwrap();
    let RelayLookup::Asking(walk) = &lookup else {
        panic!("expected a query");
    };
    assert_eq!(
        walk.question(resolver.config()),
        Some((socket([127, 0, 0, 1], 5_353), 0))
    );
    let (id, query) = new_query(&walk.current, AMTRELAY_RRTYPE).unwrap();
    let response = answer(&query, 2, 15);

    let selection = first_selection(
        &resolver,
        source,
        lookup.reply(resolver.config(), Ok((id, response))),
    );

    assert_eq!(selection.relay, socket([203, 0, 113, 15], AMT_PORT));
    assert_eq!(selection.ttl, Duration::from_secs(2));
}

#[test]
fn resolver_retries_truncated_udp_answer_over_tcp() {
    let resolver = local_resolver();
    let source = IpAddr::V4(Ipv4Addr::new(198, 51, 100, 12));
    let lookup = resolver.begin_lookup(source).unwrap();
    let RelayLookup::Asking(walk) = &lookup else {
        panic!("expected a query");
    };
    let (id, query) = new_query(&walk.current, AMTRELAY_RRTYPE).unwrap();
    let mut truncated = [0u8; DNS_HEADER_LEN];
    truncated[..2].copy_from_slice(&query[..2]);
    truncated[2..4].copy_from_slice(&0x8380u16.to_be_bytes());
    truncated[4..6].copy_from_slice(&1u16.to_be_bytes());
    assert!(is_truncated_response(&truncated));

    let framed = stream_query(&query).unwrap();
    assert_eq!(&framed[..2], &(query.len() as u16).to_be_bytes());
    let response = answer(&framed[2..], 5, 16);
    assert_eq!(
        stream_response_len((response.len() as u16).to_be_bytes()),
        Ok(response.len())
    );
    assert!(!is_truncated_response(&response));

    let selection = first_selection(
        &resolver,
        source,
        lookup.reply(resolver.config(), Ok((id, response))),
    );

    assert_eq!(selection.relay, socket([203, 0, 113, 16], AMT_PORT));
    assert_eq!(selection.ttl, Duration::from_secs(5));
}

#[test]
fn rejects_dns_response_with_mismatched_question() {
    let expected_name = "12.100.51.198.in-addr.arpa";
    let mut response = Vec::new();
    response.extend_from_slice(&0x1234u16.to_be_bytes());
    response.extend_from_slice(&0x8180u16.to_be_bytes());
    response.extend_from_slice(&1u16.to_be_bytes());
    response.extend_from_slice(&0u16.to_be_bytes());
    response.extend_from_slice(&0u16.to_be_bytes());
    response.extend_from_slice(&0u16.to_be_bytes());
    put_dns_name(&mut response, "13.100.51.198.in-addr.arpa").unwrap();
    response.extend_from_slice(&AMTRELAY_RRTYPE.to_be_bytes());
    response.extend_from_slice(&DNS_CLASS_IN.to_be_bytes());

    assert_eq!(
        parse_dns_response(0x1234, expected_name, &response),
        Err(DriadError::InvalidQuestion)
    );
}

fn record(precedence: u8, target: AmtRelayTarget) -> Timed<AmtRelayRecord> {
    Timed {
        value: AmtRelayRecord {
            precedence,
            discovery_optional: false,
            target,
        },
        ttl: Duration::from_secs(60),
    }
}

fn text_address(text: &str, ip: Option<IpAddr>, socket: Option<SocketAddr>) -> AddressText {
    AddressText {
        text: text.to_string(),
        ip,
        socket,
    }
}

/// A response to a query for `name` that holds one record.
fn response_with(id: u16, name: &str, query_type: u16, owner: &str, kind: u16, data: &[u8]) -> Vec<u8> {
    let mut response = Vec::new();
    response.extend_from_slice(&id.to_be_bytes());
    response.extend_from_slice(&[0x81, 0x80, 0, 1, 0, 1, 0, 0, 0, 0]);
    put_dns_name(&mut response, name).unwrap();
    response.extend_from_slice(&query_type.to_be_bytes());
    response.extend_from_slice(&DNS_CLASS_IN.to_be_bytes());
    put_dns_name(&mut response, owner).unwrap();
    response.extend_from_slice(&kind.to_be_bytes());
    response.extend_from_slice(&DNS_CLASS_IN.to_be_bytes());
    response.extend_from_slice(&60u32.to_be_bytes());
    response.extend_from_slice(&(data.len() as u16).to_be_bytes());
    response.extend_from_slice(data);
    response
}

#[test]
fn written_names_read_back() {
    let mut message = vec![0xee; 5];
    put_dns_name(&mut message, "Relay.example.com.").unwrap();
    assert_eq!(
        parse_dns_name(&message, 5),
        Ok(("Relay.example.com".to_string(), message.len()))
    );
    assert_eq!(&message[5..12], b"\x05Relay\x07");
    assert!(dns_name_eq(b"relay.EXAMPLE.com", b"Relay.example.com."));
    assert!(!dns_name_eq(b"relay.example.org", b"relay.example.com"));
}

#[test]
fn unwritable_and_unreadable_names_are_refused() {
    let mut out = Vec::new();
    let long = "a".repeat(64);
    assert_eq!(
        put_dns_name(&mut out, &long),
        Err(DriadError::InvalidDnsName(long.clone()))
    );
    assert!(put_dns_name(&mut out, "relay..example").is_err());
    let many = vec!["abcdefghi"; 30].join(".");
    assert!(put_dns_name(&mut out, &many).is_err());
    assert_eq!(
        parse_dns_name(&[0xc0, 0x00], 0),
        Err(DriadError::InvalidDnsPointer)
    );
    assert!(matches!(
        parse_dns_name(&[3, b'a'], 0),
        Err(DriadError::Truncated(_))
    ));
    assert_eq!(
        parse_dns_name(&[2, 0xff, 0xfe, 0], 0),
        Err(DriadError::InvalidRelayName)
    );
}

#[test]
fn queries_hold_one_question() {
    assert_eq!(
        build_dns_query(0x0102, "a.bc", DNS_TYPE_A),
        Ok(vec![1, 2, 1, 0, 0, 1, 0, 0, 0, 0, 0, 0, 1, b'a', 2, b'b', b'c', 0, 0, 1, 0, 1])
    );
    let (first, query) = new_query("a.bc", DNS_TYPE_A).unwrap();
    assert_eq!(query, build_dns_query(first, "a.bc", DNS_TYPE_A).unwrap());
}

#[test]
fn responses_must_fit_their_query() {
    let name = "12.100.51.198.in-addr.arpa";
    let good = response_with(7, name, AMTRELAY_RRTYPE, name, AMTRELAY_RRTYPE, &[10, 0]);
    assert_eq!(parse_dns_response(7, name, &good).unwrap().records.len(), 1);
    assert_eq!(
        parse_dns_response(8, name, &good),
        Err(DriadError::InvalidResponseId { expected: 8, actual: 7 })
    );
    let mut failed = good.clone();
    failed[3] = 0x83;
    assert_eq!(
        parse_dns_response(7, name, &failed),
        Err(DriadError::DnsResponseCode(3))
    );
    let mut query = good.clone();
    query[2] = 0x01;
    assert!(matches!(
        parse_dns_response(7, name, &query),
        Err(DriadError::InvalidDnsFlags(_))
    ));
    assert!(matches!(
        parse_dns_response(7, name, &good[..good.len() - 1]),
        Err(DriadError::Truncated(_))
    ));
}

#[test]
fn aliases_restart_the_search_and_circles_end_it() {
    let mut config = DriadResolverConfig::new(vec![socket([127, 0, 0, 1], 53)]);
    config.attempts = 1;
    let mut relay_name = Vec::new();
    put_dns_name(&mut relay_name, "b.example").unwrap();
    let mut back = Vec::new();
    put_dns_name(&mut back, "a.example").unwrap();

    let lookup = RelayLookup::start(&config, "a.example").reply(
        &config,
        Ok((
            1,
            response_with(1, "a.example", AMTRELAY_RRTYPE, "a.example", DNS_TYPE_CNAME, &relay_name),
        )),
    );
    let RelayLookup::Asking(walk) = &lookup else {
        panic!("expected another query");
    };
    assert_eq!(walk.current, "b.example");
    let lookup = lookup.reply(
        &config,
        Ok((
            2,
            response_with(2, "b.example", AMTRELAY_RRTYPE, "b.example", DNS_TYPE_CNAME, &back),
        )),
    );
    assert!(matches!(
        lookup,
        RelayLookup::Done(Err(DriadError::AliasLoop(_)))
    ));
}

#[test]
fn failed_queries_go_to_the_next_attempt_and_resolver() {
    let config = DriadResolverConfig::new(vec![
        socket([127, 0, 0, 1], 53),
        socket([127, 0, 0, 2], 53),
    ]);
    let mut lookup = RelayLookup::start(&config, "a.example");
    let mut asked = Vec::new();
    while let RelayLookup::Asking(walk) = &lookup {
        asked.push(walk.question(&config).unwrap());
        lookup = lookup.reply(&config, Err(DriadError::Io("timed out".to_string())));
    }
    assert_eq!(asked.len(), 4);
    assert_eq!(
        lookup,
        RelayLookup::Done(Err(DriadError::Io("timed out".to_string())))
    );
}

#[test]
fn hosts_are_looked_up_in_both_families() {
    let mut config = DriadResolverConfig::new(vec![socket([127, 0, 0, 1], 53)]);
    config.attempts = 1;
    let wide = Ipv6Addr::new(0x2001, 0xdb8, 0, 0, 0, 0, 0, 9);
    let done = HostLookup::start(&config, "relay.example").reply(
        &config,
        DNS_TYPE_AAAA,
        Ok((
            4,
            response_with(
                4,
                "relay.example",
                DNS_TYPE_AAAA,
                "relay.example",
                DNS_TYPE_AAAA,
                &wide.octets(),
            ),
        )),
    );
    let HostLookup::Done(ipv6) = done else {
        panic!("expected addresses");
    };
    let ipv4 = vec![Timed {
        value: IpAddr::V4(Ipv4Addr::new(203, 0, 113, 1)),
        ttl: Duration::from_secs(9),
    }];
    let found = lookup_host(Ok(ipv4), ipv6).unwrap();
    assert_eq!(found.len(), 2);
    let relays = relay_socket_addrs(&AmtRelayTarget::Name("relay.example".to_string()), Ok(found));
    assert_eq!(
        relays.unwrap().iter().map(|relay| relay.value).collect::<Vec<_>>(),
        vec![
            socket([203, 0, 113, 1], AMT_PORT),
            SocketAddr::new(IpAddr::V6(wide), AMT_PORT)
        ]
    );
}

#[test]
fn candidate_searches_keep_usable_and_distinct_relays() {
    let config = DriadResolverConfig::new(vec![socket([127, 0, 0, 1], 53)]);
    let source = IpAddr::V4(Ipv4Addr::new(198, 51, 100, 12));
    let relay = Ipv4Addr::new(203, 0, 113, 1);
    let mut search = CandidateSearch::start(
        &config,
        source,
        vec![
            record(20, AmtRelayTarget::Ipv4(relay)),
            record(10, AmtRelayTarget::Ipv4(relay)),
            record(5, AmtRelayTarget::Ipv4(Ipv4Addr::new(224, 0, 0, 1))),
        ],
    )
    .unwrap();
    while let Some(target) = search.due() {
        let relays = relay_socket_addrs(target, Err(DriadError::NoUsableRelay));
        search.join(relays);
    }
    let selections = search.finish().unwrap();
    assert_eq!(selections.len(), 1);
    assert_eq!(selections[0].record.precedence, 10);
    assert_eq!(selections[0].query_name, "12.100.51.198.in-addr.arpa");
    assert!(!is_usable_relay_address(IpAddr::V4(Ipv4Addr::new(0, 0, 0, 0))));
}

#[test]
fn a_record_without_a_relay_means_no_relay() {
    let config = DriadResolverConfig::new(vec![socket([127, 0, 0, 1], 53)]);
    let source = IpAddr::V4(Ipv4Addr::new(198, 51, 100, 12));
    assert_eq!(
        CandidateSearch::start(&config, source, vec![record(1, AmtRelayTarget::NoRelay)]),
        Err(DriadError::NoRelayPresent)
    );
    let search = CandidateSearch::start(&config, source, vec![]).unwrap();
    assert!(search.due().is_none());
    assert_eq!(search.finish(), Err(DriadError::NoUsableRelay));
}

#[test]
fn ordering_is_fixed_by_its_seeds() {
    let candidates = vec![
        selection(10, socket([192, 0, 2, 1], 2268)),
        selection(10, socket([192, 0, 2, 2], 2268)),
        selection(0, socket6(1)),
    ];
    let seeds: Vec<u64> = (1..=256).collect();
    let ordered = order_relay_candidates_with(&candidates, &seeds);
    assert_eq!(ordered, order_relay_candidates_with(&candidates, &seeds));
    assert_eq!(ordered.len(), 3);
    assert_eq!(ordered[0].relay, socket6(1));
    assert_eq!(xorshift64(1), 0x4082_2041);
}

#[test]
fn random_spans_stay_in_bounds() {
    let (low, high) = (Duration::from_millis(100), Duration::from_millis(200));
    for random in [0u64, 1, 50, u64::MAX] {
        let span = randomized_duration_with(low, high, random);
        assert!(low.nanos <= span.nanos && span.nanos <= high.nanos);
    }
    let span = randomized_duration(low, high);
    assert!(low.nanos <= span.nanos && span.nanos <= high.nanos);
}

#[test]
fn resolver_defects_are_named() {
    let source = IpAddr::V4(Ipv4Addr::new(198, 51, 100, 12));
    assert_eq!(
        DriadResolver::new(DriadResolverConfig::new(vec![])).begin_lookup(source),
        Err(DriadError::NoResolvers)
    );
    let mut config = DriadResolverConfig::new(vec![socket([192, 0, 2, 53], 53)]);
    config.allow_insecure_dns = true;
    assert_eq!(DriadResolver::new(config).validate(), Ok(()));
}

#[test]
fn system_resolvers_come_from_nameserver_lines() {
    let contents = "# local\nsearch example.com\nnameserver 127.0.0.53 # stub\nnameserver ::1\n";
    assert_eq!(nameserver_entries(contents), vec!["127.0.0.53", "::1"]);
    let stub = IpAddr::V4(Ipv4Addr::new(127, 0, 0, 53));
    assert_eq!(
        system_resolvers(&vec![text_address("127.0.0.53", Some(stub), None)]),
        Ok(vec![SocketAddr::new(stub, 53)])
    );
    assert_eq!(system_resolvers(&vec![]), Err(DriadError::NoResolvers));
    assert_eq!(
        parse_resolver_addr(&text_address(
            "127.0.0.53:54",
            None,
            Some(SocketAddr::new(stub, 54))
        )),
        Ok(SocketAddr::new(stub, 54))
    );
    assert!(parse_resolver_addr(&text_address("resolver", None, None)).is_err());
}

#[test]
fn anycast_addresses_are_the_assigned_ones() {
    assert_eq!(amt_anycast_ipv4(), Ipv4Addr::new(192, 52, 193, 1));
    assert_eq!(amt_anycast_ipv6(), Ipv6Addr::new(0x2001, 3, 0, 0, 0, 0, 0, 1));
}

#[test]
fn long_chains_of_aliases_and_empty_answers_end_a_lookup() {
    let mut config = DriadResolverConfig::new(vec![socket([127, 0, 0, 1], 53)]);
    config.attempts = 1;
    let mut lookup = RelayLookup::start(&config, "n0.example");
    for step in 0..8u16 {
        let current = format!("n{step}.example");
        let mut next = Vec::new();
        put_dns_name(&mut next, &format!("n{}.example", step + 1)).unwrap();
        assert!(matches!(lookup, RelayLookup::Asking(_)));
        lookup = lookup.reply(
            &config,
            Ok((
                step,
                response_with(step, &current, AMTRELAY_RRTYPE, &current, DNS_TYPE_CNAME, &next),
            )),
        );
    }
    assert_eq!(
        lookup,
        RelayLookup::Done(Err(DriadError::AliasDepthExceeded("n0.example".to_string())))
    );

    let empty = response_with(1, "a.example", AMTRELAY_RRTYPE, "other.example", DNS_TYPE_A, &[1; 4]);
    assert_eq!(
        RelayLookup::start(&config, "a.example").reply(&config, Ok((1, empty))),
        RelayLookup::Done(Err(DriadError::NoRecords("a.example".to_string())))
    );
    assert_eq!(
        relay_socket_addrs(&AmtRelayTarget::NoRelay, Err(DriadError::NoUsableRelay)),
        Err(DriadError::NoRelayPresent)
    );
}
