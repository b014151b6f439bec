use amt::cli::{parse_command, split_config_arg, CliError, Command};
use amt::config::{
    DownstreamFileConfig, DriadFileConfig, FileConfig, GatewayFileConfig, GatewayJoinFileConfig,
    LocalMembershipFileConfig, MetricsFileConfig, OneOrMany, RateLimitFileConfig, RelayFileConfig,
    RelayLimitsFileConfig,
};
use amt::daemon::{GatewayDaemonConfig, GatewayJoin, RelayDaemonConfig};
use amt::driad::DriadError;
use amt::gateway_options::parse_relay_discovery;
use amt::gateway_setup::{
    driad_sources_for_joins, parse_gateway_config, parse_gateway_config_with,
};
use amt::net::{AddressText, IpAddr, Ipv4Addr, Ipv6Addr, SocketAddr};
use amt::ordered::OrdSet;
use amt::protocol::MembershipProtocol;
use amt::random::RandomnessError;
use amt::relay::RelaySecret;
use amt::relay_options::{apply_relay_limits, parse_relay_config, parse_relay_config_with};
use amt::state::RelayLimits;
use amt::time::Duration;

fn v4(octets: [u8; 4]) -> IpAddr {
    let [a, b, c, d] = octets;
    IpAddr::V4(Ipv4Addr::new(a, b, c, d))
}

fn v6(segments: [u16; 8]) -> IpAddr {
    let [a, b, c, d, e, f, g, h] = segments;
    IpAddr::V6(Ipv6Addr::new(a, b, c, d, e, f, g, h))
}

fn socket(octets: [u8; 4], port: u16) -> SocketAddr {
    SocketAddr::new(v4(octets), port)
}

fn socket6(segments: [u16; 8], port: u16) -> SocketAddr {
    SocketAddr::new(v6(segments), port)
}

/// An argument, with the address that its text writes.
fn argument(text: &str) -> AddressText {
    let (ip, socket) = match text {
        "127.0.0.1:9999" => (None, Some(socket([127, 0, 0, 1], 9999))),
        "127.0.0.1:53" => (None, Some(socket([127, 0, 0, 1], 53))),
        "203.0.113.10:2268" => (None, Some(socket([203, 0, 113, 10], 2268))),
        "[2001:db8::10]:2268" => (
            None,
            Some(socket6([0x2001, 0xdb8, 0, 0, 0, 0, 0, 0x10], 2268)),
        ),
        "[::]:0" => (None, Some(socket6([0; 8], 0))),
        "192.0.2.10" => (Some(v4([192, 0, 2, 10])), None),
        "192.0.2.20" => (Some(v4([192, 0, 2, 20])), None),
        "232.1.2.3" => (Some(v4([232, 1, 2, 3])), None),
        "239.1.2.3" => (Some(v4([239, 1, 2, 3])), None),
        "ff3e::1234" => (Some(v6([0xff3e, 0, 0, 0, 0, 0, 0, 0x1234])), None),
        "2001:db8::10" => (Some(v6([0x2001, 0xdb8, 0, 0, 0, 0, 0, 0x10])), None),
        "2001:db8::20" => (Some(v6([0x2001, 0xdb8, 0, 0, 0, 0, 0, 0x20])), None),
        _ => (None, None),
    };
    AddressText {
        text: text.to_string(),
        ip,
        socket,
    }
}

fn relay(
    args: &[&str],
    file: Option<&FileConfig>,
) -> Result<Option<RelayDaemonConfig>, CliError> {
    let args: Vec<AddressText> = args.iter().map(|text| argument(text)).collect();
    parse_relay_config(&args, file)
}

fn gateway(
    args: &[&str],
    file: Option<&FileConfig>,
) -> Result<Option<GatewayDaemonConfig>, CliError> {
    let args: Vec<AddressText> = args.iter().map(|text| argument(text)).collect();
    parse_gateway_config(&args, file, Err(DriadError::NoResolvers))
}

fn relay_problem(result: Result<Option<RelayDaemonConfig>, CliError>) -> String {
    match result {
        Ok(_) => panic!("expected a problem"),
        Err(error) => error.message(),
    }
}

fn relay_section() -> RelayFileConfig {
    RelayFileConfig {
        bind: None,
        ecn: None,
        relay_address: None,
        upstream_interface: None,
        upstream_interface_index: None,
        gateway_idle_timeout_secs: None,
        gateway_prune_interval_secs: None,
        path_mtu: None,
        pmtu_feedback: None,
        secret_rotation_secs: None,
        rate_limit: None,
        limits: None,
    }
}

fn gateway_section() -> GatewayFileConfig {
    GatewayFileConfig {
        bind: None,
        ecn: None,
        relay: None,
        relay_discovery: None,
        driad: None,
        protocol: None,
        group: None,
        source: None,
        transparent: None,
        no_downstream: None,
        downstream: None,
        local_membership: None,
        local_query_interval_secs: None,
        membership_refresh_interval_secs: None,
        joins: Vec::new(),
    }
}

fn downstream_section() -> DownstreamFileConfig {
    DownstreamFileConfig {
        interface: None,
        interface_index: None,
        ttl: None,
        loopback: None,
    }
}

fn gateway_file(section: GatewayFileConfig) -> FileConfig {
    FileConfig {
        relay: None,
        gateway: Some(section),
        metrics: None,
    }
}

#[test]
fn relay_config_file_loads_and_cli_overrides() {
    let file = FileConfig {
        relay: Some(RelayFileConfig {
            bind: Some(socket([0, 0, 0, 0], 2268)),
            ecn: Some(true),
            relay_address: Some(OneOrMany::One(v4([203, 0, 113, 10]))),
            upstream_interface: Some(v4([192, 0, 2, 10])),
            gateway_idle_timeout_secs: Some(260),
            path_mtu: Some(1500),
            ..relay_section()
        }),
        gateway: None,
        metrics: Some(MetricsFileConfig {
            output_dir: Some("/tmp/heimdall".to_string()),
            node_id: Some("relay-a".to_string()),
            interval_ms: Some(250),
            max_file_bytes: None,
        }),
    };

    let config = relay(&["--bind", "127.0.0.1:9999", "--no-ecn"], Some(&file))
    .unwrap()
    .unwrap();

    assert_eq!(config.relay.bind, socket([127, 0, 0, 1], 9999));
    assert_eq!(
        config.upstream.interface,
        Some(v4([192, 0, 2, 10]))
    );
    assert_eq!(config.gateway_idle_timeout, Some(Duration::from_secs(260)));
    assert_eq!(config.path_mtu, 1500);
    assert!(!config.relay.ecn);
    assert_eq!(
        config.metrics.output_dir.as_deref(),
        Some("/tmp/heimdall")
    );
    assert_eq!(config.metrics.node_id, "relay-a");
    assert_eq!(config.metrics.sample_interval, Duration::from_millis(250));
}

#[test]
fn gateway_config_accepts_join_tables_without_top_level_group() {
    let file = gateway_file(GatewayFileConfig {
        relay: Some(socket([203, 0, 113, 10], 2268)),
        protocol: Some("igmpv3".to_string()),
        ecn: Some(true),
        downstream: Some(DownstreamFileConfig {
            interface: Some(v4([192, 168, 1, 20])),
            ..downstream_section()
        }),
        joins: vec![
            GatewayJoinFileConfig {
                group: v4([239, 1, 2, 3]),
                source: None,
            },
            GatewayJoinFileConfig {
                group: v4([232, 1, 2, 3]),
                source: Some(v4([192, 0, 2, 10])),
            },
        ],
        ..gateway_section()
    });

    let config = gateway(&[], Some(&file))
        .unwrap()
        .unwrap();

    assert_eq!(config.gateway.relay, socket([203, 0, 113, 10], 2268));
    assert_eq!(config.gateway.protocol, MembershipProtocol::Igmpv3);
    assert!(config.gateway.ecn);
    assert_eq!(config.joins.len(), 2);
    assert_eq!(
        config
            .downstream
            .as_ref()
            .and_then(|downstream| downstream.interface),
        Some(v4([192, 168, 1, 20]))
    );
}

#[test]
fn gateway_auto_discovery_keeps_static_relay_when_configured() {
    let config = gateway(
        &[
            "--relay",
            "203.0.113.10:2268",
            "--relay-discovery",
            "auto",
            "--group",
            "232.1.2.3",
            "--source",
            "192.0.2.10",
        ],
        None,
    )
    .unwrap()
    .unwrap();

    assert_eq!(config.gateway.relay, socket([203, 0, 113, 10], 2268));
    assert_eq!(config.joins.len(), 1);
}

#[test]
fn ipv6_gateway_infers_ipv6_unspecified_bind() {
    let config = gateway(
        &[
            "--relay",
            "[2001:db8::10]:2268",
            "--group",
            "ff3e::1234",
            "--source",
            "2001:db8::20",
        ],
        None,
    )
    .unwrap()
    .unwrap();

    assert_eq!(config.bind, socket6([0; 8], 0));
    assert_eq!(config.gateway.protocol, MembershipProtocol::Mldv2);
}

#[test]
fn mld_over_ipv4_infers_bind_from_outer_relay_family() {
    let config = gateway(
        &[
            "--relay",
            "203.0.113.10:2268",
            "--group",
            "ff3e::1234",
            "--source",
            "2001:db8::20",
        ],
        None,
    )
    .unwrap()
    .unwrap();

    assert_eq!(config.bind, socket([0, 0, 0, 0], 0));
    assert_eq!(config.gateway.protocol, MembershipProtocol::Mldv2);
}

#[test]
fn gateway_rejects_explicit_outer_address_family_mismatch() {
    let error = gateway(
        &[
            "--bind",
            "[::]:0",
            "--relay",
            "203.0.113.10:2268",
            "--group",
            "239.1.2.3",
        ],
        None,
    )
    .unwrap_err()
    .message();

    assert!(error.contains("same outer address family"));
}

#[test]
fn gateway_rejects_downstream_interface_for_wrong_inner_family() {
    let error = gateway(
        &[
            "--relay",
            "203.0.113.10:2268",
            "--group",
            "ff3e::1234",
            "--source",
            "2001:db8::20",
            "--downstream-interface",
            "192.0.2.20",
        ],
        None,
    )
    .unwrap_err()
    .message();

    assert!(error.contains("downstream-interface address family"));
}

#[test]
fn gateway_rejects_downstream_ttl_for_ipv4() {
    let error = gateway(
        &[
            "--relay",
            "203.0.113.10:2268",
            "--group",
            "239.1.2.3",
            "--downstream-ttl",
            "16",
        ],
        None,
    )
    .unwrap_err()
    .message();

    assert!(error.contains("--downstream-ttl"));
    assert!(error.contains("preserves the complete inner IP header"));
}

#[test]
fn gateway_toml_rejects_downstream_ttl() {
    let file = gateway_file(GatewayFileConfig {
        relay: Some(socket([203, 0, 113, 10], 2268)),
        protocol: Some("igmpv3".to_string()),
        group: Some(v4([239, 1, 2, 3])),
        downstream: Some(DownstreamFileConfig {
            interface: Some(v4([192, 0, 2, 20])),
            ttl: Some(16),
            ..downstream_section()
        }),
        ..gateway_section()
    });

    let error = gateway(&[], Some(&file)).unwrap_err().message();

    assert!(error.contains("gateway.downstream.ttl"));
    assert!(error.contains("set the IPv4 TTL or IPv6 Hop Limit at the multicast source"));
}

#[test]
fn gateway_toml_rejects_loopback_for_full_header_ipv6() {
    let file = gateway_file(GatewayFileConfig {
        relay: Some(socket([203, 0, 113, 10], 2268)),
        protocol: Some("mldv2".to_string()),
        group: Some(v6([0xff3e, 0, 0, 0, 0, 0, 0, 0x1234])),
        source: Some(v6([0x2001, 0xdb8, 0, 0, 0, 0, 0, 0x20])),
        downstream: Some(DownstreamFileConfig {
            interface: Some(v6([0x2001, 0xdb8, 0, 0, 0, 0, 0, 0x30])),
            loopback: Some(true),
            ..downstream_section()
        }),
        ..gateway_section()
    });

    let error = gateway(&[], Some(&file)).unwrap_err().message();

    assert!(error.contains("loopback=true"));
    assert!(error.contains("full-header IPv6"));
}

#[test]
fn relay_path_mtu_defaults_to_common_ethernet_mtu() {
    let config = relay(&[], None).unwrap().unwrap();

    assert_eq!(config.path_mtu, 1_500);
    assert!(!config.pmtu_feedback);
}

#[test]
fn relay_rejects_idle_timeout_not_above_the_query_interval() {
    let error = relay_problem(relay(&["--gateway-idle-timeout", "125"], None));
    assert!(error.contains("must be greater than"));

    let disabled = relay(&["--gateway-idle-timeout", "0"], None)
        .unwrap()
        .unwrap();
    assert_eq!(disabled.gateway_idle_timeout, None);
}

#[test]
fn relay_pmtu_feedback_requires_and_uses_upstream_interface() {
    let missing = relay_problem(relay(&["--pmtu-feedback"], None));
    assert!(missing.contains("upstream-interface"));

    let config = relay(
        &[
            "--upstream-interface",
            "192.0.2.10",
            "--pmtu-feedback",
        ],
        None,
    )
    .unwrap()
    .unwrap();
    assert!(config.pmtu_feedback);
}

#[test]
fn ipv6_only_relay_address_infers_ipv6_bind() {
    let config = relay(&["--relay-address", "2001:db8::10"], None)
        .unwrap()
        .unwrap();

    assert_eq!(config.relay.bind, socket6([0; 8], 2268));
    assert_eq!(
        IpAddr::V6(config.relay.advertise_ipv6),
        v6([0x2001, 0xdb8, 0, 0, 0, 0, 0, 0x10])
    );
}

#[test]
fn driad_source_selection_supports_transparent_and_multiple_sources() {
    assert!(driad_sources_for_joins(&vec![], false).is_err());
    assert!(driad_sources_for_joins(&vec![], true).unwrap().is_empty());
    assert!(
        driad_sources_for_joins(
            &vec![GatewayJoin {
                group: v4([239, 1, 2, 3]),
                source: None,
            }],
            false,
        )
        .is_err()
    );
    assert!(
        driad_sources_for_joins(
            &vec![GatewayJoin {
                group: v4([239, 1, 2, 3]),
                source: Some(v4([192, 0, 2, 10])),
            }],
            false,
        )
        .is_err()
    );
    assert!(
        driad_sources_for_joins(
            &vec![GatewayJoin {
                group: v6([0xff3e, 0, 0, 0, 0, 0, 0, 0x1234]),
                source: Some(v4([192, 0, 2, 10])),
            }],
            false,
        )
        .is_err()
    );

    let sources = driad_sources_for_joins(
        &vec![
            GatewayJoin {
                group: v4([232, 1, 2, 3]),
                source: Some(v4([192, 0, 2, 10])),
            },
            GatewayJoin {
                group: v4([232, 1, 2, 4]),
                source: Some(v4([192, 0, 2, 11])),
            },
            GatewayJoin {
                group: v4([232, 1, 2, 5]),
                source: Some(v4([192, 0, 2, 10])),
            },
        ],
        false,
    )
    .unwrap();
    assert_eq!(
        sources,
        OrdSet::from_list(&vec![v4([192, 0, 2, 10]), v4([192, 0, 2, 11])])
    );
}

#[test]
fn driad_source_selection_rejects_non_unicast_sources() {
    assert!(
        driad_sources_for_joins(
            &vec![GatewayJoin {
                group: v4([232, 1, 2, 3]),
                source: Some(v4([0, 0, 0, 0])),
            }],
            false
        )
        .is_err()
    );
    assert!(
        driad_sources_for_joins(
            &vec![GatewayJoin {
                group: v4([232, 1, 2, 3]),
                source: Some(v4([232, 2, 3, 4])),
            }],
            false
        )
        .is_err()
    );
}

#[test]
fn driad_cli_applies_runtime_and_resource_controls() {
    let config = gateway(
        &[
            "--relay-discovery",
            "driad",
            "--driad-resolver",
            "127.0.0.1:53",
            "--group",
            "232.1.2.3",
            "--source",
            "192.0.2.10",
            "--driad-max-candidates",
            "12",
            "--driad-max-queries",
            "7",
            "--driad-query-window-ms",
            "150",
            "--driad-happy-eyeballs-delay-ms",
            "200",
            "--driad-relay-hold-down",
            "500",
            "--driad-traffic-hold-down",
            "240",
            "--driad-initial-traffic-timeout",
            "5",
            "--driad-maximum-traffic-timeout",
            "90",
            "--driad-max-source-tunnels",
            "64",
            "--driad-max-concurrent-probes",
            "3",
            "--driad-max-dns-workers",
            "4",
        ],
        None,
    )
    .unwrap()
    .unwrap();

    let driad = config.driad.unwrap();
    assert_eq!(driad.resolver.config().max_candidates, 12);
    assert_eq!(driad.resolver.config().max_queries_per_window, 7);
    assert_eq!(
        driad.resolver.config().query_rate_window,
        Duration::from_millis(150)
    );
    assert_eq!(driad.happy_eyeballs_delay, Duration::from_millis(200));
    assert_eq!(driad.relay_hold_down, Duration::from_secs(500));
    assert_eq!(driad.traffic_hold_down, Duration::from_secs(240));
    assert_eq!(driad.initial_traffic_timeout, Duration::from_secs(5));
    assert_eq!(driad.maximum_traffic_timeout, Duration::from_secs(90));
    assert_eq!(driad.max_source_tunnels, 64);
    assert_eq!(driad.max_concurrent_probes, 3);
    assert_eq!(driad.max_dns_workers, 4);
}

#[test]
fn transparent_driad_does_not_require_a_seed_source() {
    let config = gateway(
        &[
            "--relay-discovery",
            "auto",
            "--driad-resolver",
            "127.0.0.1:53",
            "--transparent",
            "--protocol",
            "igmpv3",
        ],
        None,
    )
    .unwrap()
    .unwrap();

    assert!(config.joins.is_empty());
    assert!(config.local_membership.is_some());
    assert!(config.driad.as_ref().unwrap().use_anycast);
}

#[test]
fn driad_rejects_invalid_advanced_limits() {
    let zero = gateway(
        &[
            "--relay-discovery",
            "driad",
            "--group",
            "232.1.2.3",
            "--source",
            "192.0.2.10",
            "--driad-max-dns-workers",
            "0",
        ],
        None,
    )
    .unwrap_err()
    .message();
    assert!(zero.contains("must not be 0"));

    let inverted = gateway(
        &[
            "--relay-discovery",
            "driad",
            "--group",
            "232.1.2.3",
            "--source",
            "192.0.2.10",
            "--driad-initial-traffic-timeout",
            "30",
            "--driad-maximum-traffic-timeout",
            "10",
        ],
        None,
    )
    .unwrap_err()
    .message();
    assert!(inverted.contains("must be at least"));
}

#[test]
fn parses_relay_config_with_one_or_many_addresses() {
    let config = FileConfig {
        relay: Some(RelayFileConfig {
            bind: Some(socket([0, 0, 0, 0], 2268)),
            relay_address: Some(OneOrMany::Many(vec![
                v4([203, 0, 113, 10]),
                v6([0x2001, 0xdb8, 0, 0, 0, 0, 0, 0x10]),
            ])),
            upstream_interface: Some(v4([192, 0, 2, 10])),
            upstream_interface_index: Some(7),
            gateway_idle_timeout_secs: Some(120),
            ..relay_section()
        }),
        gateway: None,
        metrics: Some(MetricsFileConfig {
            output_dir: Some("/tmp/heimdall".to_string()),
            node_id: Some("amt-relay-a".to_string()),
            interval_ms: Some(500),
            max_file_bytes: None,
        }),
    };
    let parsed = relay(&["--gateway-idle-timeout", "0"], Some(&config))
        .unwrap()
        .unwrap();

    let section = config.relay.unwrap();
    assert_eq!(section.bind.unwrap(), socket([0, 0, 0, 0], 2268));
    assert_eq!(section.relay_address.unwrap().into_vec().len(), 2);
    assert_eq!(section.upstream_interface_index, Some(7));
    assert_eq!(config.metrics.unwrap().interval_ms, Some(500));
    assert_eq!(parsed.relay.advertise_ipv4, Ipv4Addr::new(203, 0, 113, 10));
    assert_eq!(parsed.upstream.interface_index, Some(7));
    assert_eq!(OneOrMany::One(4).into_vec(), vec![4]);
}

#[test]
fn parses_gateway_config_with_nested_sections() {
    let section = GatewayFileConfig {
        relay: Some(socket([203, 0, 113, 10], 2268)),
        protocol: Some("igmpv3".to_string()),
        transparent: Some(true),
        membership_refresh_interval_secs: Some(30),
        downstream: Some(DownstreamFileConfig {
            interface: Some(v4([192, 168, 1, 20])),
            ttl: Some(16),
            ..downstream_section()
        }),
        local_membership: Some(LocalMembershipFileConfig {
            interface: None,
            interface_index: Some(4),
            query_interval_secs: Some(15),
            reporter_timeout_secs: None,
        }),
        joins: vec![GatewayJoinFileConfig {
            group: v4([239, 1, 2, 3]),
            source: Some(v4([192, 0, 2, 10])),
        }],
        ..gateway_section()
    };
    let config = gateway_file(section);
    let refused = gateway(&[], Some(&config)).unwrap_err().message();
    assert!(refused.contains("gateway.downstream.ttl"));

    let gateway = config.gateway.unwrap();
    assert_eq!(gateway.relay.unwrap(), socket([203, 0, 113, 10], 2268));
    assert_eq!(gateway.joins.len(), 1);
    assert_eq!(gateway.downstream.unwrap().ttl, Some(16));
    assert_eq!(gateway.local_membership.unwrap().interface_index, Some(4));
}

#[test]
fn the_first_argument_picks_the_daemon() {
    let command = |text: &str| parse_command(&vec![text.to_string()]);
    assert_eq!(command("relay"), Command::Relay);
    assert_eq!(command("gateway"), Command::Gateway);
    assert_eq!(command("--help"), Command::Usage);
    assert_eq!(command("bridge"), Command::Unknown);
    assert_eq!(parse_command(&vec![]), Command::Usage);
}

#[test]
fn the_configuration_path_is_taken_out() {
    let args = ["--bind", "127.0.0.1:9999", "--config", "relay.toml", "--ecn"];
    let args: Vec<String> = args.iter().map(|text| text.to_string()).collect();
    let (path, rest) = split_config_arg(&args).unwrap();
    assert_eq!(path.as_deref(), Some("relay.toml"));
    assert_eq!(rest, vec!["--bind", "127.0.0.1:9999", "--ecn"]);
    assert!(split_config_arg(&vec!["--config".to_string()]).is_err());
}

#[test]
fn unknown_arguments_and_bad_values_are_refused() {
    assert!(matches!(
        relay(&["--relay-color"], None),
        Err(CliError::UnknownRelayArgument(text)) if text == "--relay-color"
    ));
    assert!(matches!(
        gateway(&["--gateway-color"], None),
        Err(CliError::UnknownGatewayArgument(text)) if text == "--gateway-color"
    ));
    assert!(matches!(
        relay(&["--bind", "nowhere"], None),
        Err(CliError::Message(_))
    ));
    assert!(relay(&["--bind"], None).is_err());
    assert!(relay(&["--path-mtu", "20"], None).is_err());
    assert!(matches!(relay(&["--help"], None), Ok(None)));
    assert!(matches!(gateway(&["-h"], None), Ok(None)));
    assert!(parse_relay_discovery("guess").is_err());
}

#[test]
fn configured_limits_replace_the_defaults() {
    let none = RelayLimitsFileConfig {
        max_endpoints: None,
        max_endpoints_per_ip: None,
        max_groups_per_endpoint: None,
        max_sources_per_group: None,
        max_total_endpoint_groups: None,
        max_total_sources: None,
        max_upstream_subscriptions: None,
        max_records_per_report: None,
    };
    assert_eq!(
        apply_relay_limits(RelayLimits::default(), &none),
        Ok(RelayLimits::default())
    );
    let some = RelayLimitsFileConfig {
        max_endpoints: Some(3),
        ..none
    };
    assert_eq!(
        apply_relay_limits(RelayLimits::default(), &some),
        Ok(RelayLimits { max_endpoints: 3, ..RelayLimits::default() })
    );
    let zero = RelayLimitsFileConfig {
        max_total_sources: Some(0),
        ..none
    };
    assert!(apply_relay_limits(RelayLimits::default(), &zero).is_err());

    let file = FileConfig {
        relay: Some(RelayFileConfig {
            limits: Some(some),
            rate_limit: Some(RateLimitFileConfig {
                per_source_per_second: Some(4),
                per_source_burst: None,
                global_per_second: None,
                global_burst: None,
            }),
            ..relay_section()
        }),
        gateway: None,
        metrics: None,
    };
    let config = relay(&[], Some(&file)).unwrap().unwrap();
    assert_eq!(config.relay.limits.max_endpoints, 3);
    assert_eq!(config.control_rate_per_second, 4);
}

#[test]
fn discovery_in_dns_reads_its_section() {
    let file = gateway_file(GatewayFileConfig {
        relay_discovery: Some("driad".to_string()),
        group: Some(v4([232, 1, 2, 3])),
        source: Some(v4([192, 0, 2, 10])),
        driad: Some(DriadFileConfig {
            resolvers: Some(OneOrMany::One(argument("127.0.0.1:53"))),
            timeout_ms: Some(700),
            attempts: Some(3),
            allow_insecure_dns: None,
            max_candidates: Some(9),
            max_queries_per_window: None,
            query_rate_window_ms: None,
            happy_eyeballs_delay_ms: None,
            relay_hold_down_secs: None,
            traffic_hold_down_secs: None,
            initial_traffic_timeout_secs: None,
            maximum_traffic_timeout_secs: None,
            max_source_tunnels: None,
            max_concurrent_probes: None,
            max_dns_workers: None,
        }),
        ..gateway_section()
    });
    let config = gateway(&[], Some(&file)).unwrap().unwrap();
    let driad = config.driad.unwrap();
    assert_eq!(driad.resolver.config().timeout, Duration::from_millis(700));
    assert_eq!(driad.resolver.config().attempts, 3);
    assert_eq!(driad.resolver.config().max_candidates, 9);
    assert_eq!(
        driad.resolver.config().resolvers,
        vec![socket([127, 0, 0, 1], 53)]
    );
}

#[test]
fn discovery_without_resolvers_reports_the_system() {
    assert!(matches!(
        gateway(
            &[
                "--relay-discovery",
                "driad",
                "--group",
                "232.1.2.3",
                "--source",
                "192.0.2.10",
            ],
            None,
        ),
        Err(CliError::SystemResolvers(DriadError::NoResolvers))
    ));
}

#[test]
fn set_up_problems_keep_their_kind() {
    assert!(matches!(
        relay(&["--gateway-idle-timeout", "125"], None),
        Err(CliError::Daemon(_))
    ));
    assert!(matches!(
        gateway(
            &[
                "--relay",
                "203.0.113.10:2268",
                "--group",
                "239.1.2.3",
                "--downstream-ifindex",
                "4",
            ],
            None,
        ),
        Err(CliError::Downstream(_))
    ));
    let args = [
        "--relay-discovery",
        "driad",
        "--group",
        "232.1.2.3",
        "--source",
        "192.0.2.10",
    ];
    let args: Vec<AddressText> = args.iter().map(|text| argument(text)).collect();
    assert!(matches!(
        parse_gateway_config(&args, None, Ok(vec![socket([192, 0, 2, 53], 53)])),
        Err(CliError::ResolverConfig(DriadError::InsecureResolver(_)))
    ));
}

#[test]
fn gateways_are_set_up_with_the_nonces_that_were_drawn() {
    let parse = |args: &[&str], first, second| {
        let args: Vec<AddressText> = args.iter().map(|text| argument(text)).collect();
        parse_gateway_config_with(&args, None, Err(DriadError::NoResolvers), first, second)
    };
    let failed = || RandomnessError { message: "none".to_string() };
    let args = ["--relay", "203.0.113.10:2268", "--group", "239.1.2.3"];
    let config = parse(&args, Ok(7), Ok(8)).unwrap().unwrap();
    assert_eq!(config.gateway.relay, socket([203, 0, 113, 10], 2268));
    assert_eq!((config.gateway.discovery_nonce, config.gateway.request_nonce), (7, 8));
    assert!(matches!(
        parse(&args, Ok(7), Err(failed())),
        Err(CliError::Randomness(error)) if error == failed()
    ));
    assert!(matches!(
        parse(&["--unknown"], Err(failed()), Ok(8)),
        Err(CliError::UnknownGatewayArgument(_))
    ));
    assert!(matches!(parse(&["--help"], Err(failed()), Ok(8)), Ok(None)));
}

#[test]
fn relays_are_set_up_with_the_secret_that_was_drawn() {
    let parse = |args: &[&str], secret| {
        let args: Vec<AddressText> = args.iter().map(|text| argument(text)).collect();
        parse_relay_config_with(&args, None, secret)
    };
    let failed = || RandomnessError { message: "none".to_string() };
    let Ok(Some(config)) = parse(&[], Ok(RelaySecret::new([6; 32]))) else {
        panic!("expected a relay");
    };
    assert_eq!(config.relay.secret.expose_bytes(), &[6; 32]);
    assert!(matches!(
        parse(&[], Err(failed())),
        Err(CliError::Randomness(error)) if error == failed()
    ));
    assert!(matches!(parse(&["--help"], Err(failed())), Ok(None)));
    assert!(matches!(
        parse(&["--unknown"], Err(failed())),
        Err(CliError::UnknownRelayArgument(_))
    ));
    assert!(matches!(
        parse(&["--relay-address", "239.1.2.3"], Err(failed())),
        Err(CliError::Message(_))
    ));
}
