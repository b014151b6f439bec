use amt::activity::{prune_stale_gateways, GatewayActivity};
use amt::candidates::DriadRelaySelection;
use amt::daemon::{
    DaemonConfigError, GatewayDaemonConfig, GatewayDriadConfig, GatewayJoin, RelayDaemonConfig,
};
use amt::desired::{
    configured_joins_report, desired_driad_reports, desired_membership_report, SourceReport,
};
use amt::dns::{AmtRelayRecord, AmtRelayTarget};
use amt::downstream::DownstreamConfig;
use amt::driad::{reverse_source_name, DriadError, DriadResolver, DriadResolverConfig};
use amt::driad_gateway::{driad_gauges, reconcile_driad_tunnels, TunnelGauge, TunnelVerdict};
use amt::driad_sends::{ActiveSend, WinnerUpdate};
use amt::driad_tunnel::{
    clamp_driad_refresh, teardown_sent, ActiveStep, DriadActiveFailure, DriadSourceTunnel,
    DriadWorkerPool, ProbeStep, RefreshSchedule, TunnelSettings, DRIAD_MAX_REFRESH_SECS, DRIAD_MIN_REFRESH_SECS,
};
use amt::ecn::EcnCodepoint;
use amt::forwarding::{
    plan_forwarding, prepare_oversized_tunnel_data, protocol_name, record_pmtu_feedback,
    record_unmatched, tunnel_ecn, tunnel_mtu, ForwardingTally, PreparedTunnelData, RelayPmtuOutcome,
    RelayWorkBudget, TunnelSend,
};
use amt::gateway::{Gateway, GatewayConfig, GatewayError, GatewayPhase, GatewaySend};
use amt::gateway_daemon::{
    count_local_report, count_refresh, count_response, count_send_error,
    effective_refresh_interval_for, has_lapsed, is_due_again,
    limit_requires_rediscovery, local_query_sent, record_downstream, DownstreamOutcome,
};
use amt::local_membership::{LocalMembershipConfig, LocalMembershipManager};
use amt::logs::{ErrorSummary, GatewayDataLog, RelayDataLog};
use amt::membership::{
    build_membership_report, MembershipRecord, MembershipRecordKind, MembershipReport,
};
use amt::metrics::{AmtMetricsCounters, MetricsConfig, MetricsRecorder};
use amt::mtu::Ipv4FragmentError;
use amt::net::{IpAddr, Ipv4Addr, Ipv6Addr, SocketAddr};
use amt::ordered::OrdMap;
use amt::probe_queue::{build_probe_queue, DriadCandidateOrigin};
use amt::protocol::{encode, MembershipProtocol, Message};
use amt::random::{
    drawn, drawn_or, half_word_of, nonce_if, nonce_of, nonzero_or_random, random_nonce,
    random_u16, random_u64, word_of, RandomnessError,
};
use amt::rate_limit::{rate_source_capacity, RateLimitSources};
use amt::relay::{Relay, RelayAction, RelayConfig, RelaySecret};
use amt::relay_daemon::{
    account_upstream_worker, may_wait, prune_due, relay_wait_timeout, ControlStep, RelayControl,
    UpstreamReconcile, UpstreamWorkerSnapshot, MAX_CONTROL_DRAIN,
};
use amt::retry::{
    randomized_duration_between_with, randomized_retry_delay, randomized_retry_delay_with,
    GatewayRetry,
};
use amt::state::UpstreamSubscription;
use amt::static_gateway::{LocalStep, StaticGateway, StaticStep};
use amt::time::{Duration, Instant};

fn v4(a: u8, b: u8, c: u8, d: u8) -> IpAddr {
    IpAddr::V4(Ipv4Addr::new(a, b, c, d))
}

fn socket(octets: [u8; 4], port: u16) -> SocketAddr {
    let [a, b, c, d] = octets;
    SocketAddr::new(v4(a, b, c, d), port)
}

fn at(seconds: u64) -> Instant {
    Instant::at(Duration::from_secs(seconds))
}

fn gateway_config(relay: SocketAddr, protocol: MembershipProtocol) -> GatewayConfig {
    GatewayConfig::new(relay, protocol).unwrap()
}

fn relay_config() -> RelayConfig {
    RelayConfig::with_secret(socket([0, 0, 0, 0], 2268), RelaySecret::new([7; 32]))
}

fn report(records: Vec<MembershipRecord>) -> MembershipReport {
    MembershipReport {
        protocol: MembershipProtocol::Igmpv3,
        records,
    }
}

fn source_record(group: IpAddr, source: IpAddr) -> MembershipRecord {
    MembershipRecord {
        kind: MembershipRecordKind::ModeIsInclude,
        group,
        sources: vec![source],
    }
}

fn multicast(source: [u8; 4], group: [u8; 4], payload_len: usize, flags: u16) -> Vec<u8> {
    let mut packet = vec![0u8; 20 + payload_len];
    packet[0] = 0x45;
    let length = packet.len() as u16;
    packet[2..4].copy_from_slice(&length.to_be_bytes());
    packet[6..8].copy_from_slice(&flags.to_be_bytes());
    packet[8] = 16;
    packet[9] = 17;
    packet[12..16].copy_from_slice(&source);
    packet[16..20].copy_from_slice(&group);
    let sum = amt::checksum::checksum(&packet[..20]);
    packet[10..12].copy_from_slice(&sum.to_be_bytes());
    packet
}

#[test]
fn gateway_validation_requires_source_for_active_local_queries() {
    let gateway = gateway_config(socket([192, 0, 2, 10], 2268), MembershipProtocol::Igmpv3);
    let mut config = GatewayDaemonConfig::new(socket([0, 0, 0, 0], 0), gateway);
    config.downstream = Some(DownstreamConfig {
        interface: Some(v4(192, 0, 2, 20)),
        ..DownstreamConfig::default()
    });
    config.local_membership = Some(LocalMembershipConfig::new(MembershipProtocol::Igmpv3));

    let error = config.validate().unwrap_err();

    assert_eq!(error, DaemonConfigError::NoQuerySource);
    assert!(error.message().contains("--local-membership-interface"));
}

#[test]
fn gateway_validation_rejects_route_selected_mld_queries() {
    let relay = SocketAddr::new(
        IpAddr::V6(Ipv6Addr::new(0x2001, 0xdb8, 0, 0, 0, 0, 0, 0x10)),
        2268,
    );
    let gateway = gateway_config(relay, MembershipProtocol::Mldv2);
    let bind = SocketAddr::new(IpAddr::V6(Ipv6Addr::new(0, 0, 0, 0, 0, 0, 0, 0)), 0);
    let mut config = GatewayDaemonConfig::new(bind, gateway);
    config.downstream = Some(DownstreamConfig::default());
    let mut local = LocalMembershipConfig::new(MembershipProtocol::Mldv2);
    local.interface = Some(IpAddr::V6(Ipv6Addr::new(0xfe80, 0, 0, 0, 0, 0, 0, 0x20)));
    config.local_membership = Some(local);

    let error = config.validate().unwrap_err();

    assert_eq!(error, DaemonConfigError::QueryNeedsInterface);
    assert!(error.message().contains("ff02::1"));
}

#[test]
fn disabled_local_queries_allow_route_selected_downstream() {
    let gateway = gateway_config(socket([192, 0, 2, 10], 2268), MembershipProtocol::Igmpv3);
    let mut config = GatewayDaemonConfig::new(socket([0, 0, 0, 0], 0), gateway);
    config.downstream = Some(DownstreamConfig::default());
    let mut local = LocalMembershipConfig::new(MembershipProtocol::Igmpv3);
    local.query_interval = None;
    config.local_membership = Some(local);

    assert!(config.validate().is_ok());
}

#[test]
fn relay_data_budget_forwards_the_first_packet_without_batch_delay() {
    let budget = RelayWorkBudget::new(512, Duration::from_millis(2), at(1));

    assert!(budget.can_take_packet(at(1)));
}

#[test]
fn relay_data_budget_yields_to_control_under_continuous_traffic() {
    let mut budget = RelayWorkBudget::new(4, Duration::from_secs(1), at(1));
    while budget.can_take_packet(at(1)) {
        budget.record_packet();
    }

    assert_eq!(budget.packets, 4);
    assert!(budget.exhausted(at(1)));
}

#[test]
fn relay_data_budget_enforces_its_time_slice() {
    let mut budget = RelayWorkBudget::new(512, Duration::from_millis(1), at(1));
    budget.record_packet();
    let later = at(1).after(Duration::from_millis(2));

    assert!(!budget.can_take_packet(later));
    assert!(budget.exhausted(later));
}

#[test]
fn upstream_worker_accounting_applies_only_new_activity() {
    let mut metrics = MetricsRecorder::new(&MetricsConfig::default(), at(1), true).unwrap();
    let mut data_log = RelayDataLog::new(at(1));
    let mut accounted = UpstreamWorkerSnapshot::idle();
    let snapshot = UpstreamWorkerSnapshot {
        accepted_packets: 10,
        accepted_bytes: 12_000,
        queue_drops: 2,
        failures: 1,
        ..UpstreamWorkerSnapshot::idle()
    };

    account_upstream_worker(snapshot, &mut accounted, metrics.counters_mut(), &mut data_log);
    account_upstream_worker(snapshot, &mut accounted, metrics.counters_mut(), &mut data_log);

    assert_eq!(metrics.counters().upstream_packets_received_total, 10);
    assert_eq!(metrics.counters().upstream_bytes_received_total, 12_000);
    assert_eq!(metrics.counters().upstream_worker_queue_drops_total, 2);
    assert_eq!(metrics.counters().upstream_worker_failures_total, 1);
    assert_eq!(data_log.received_packets, 10);
    assert_eq!(data_log.worker_queue_drops, 2);
}

#[test]
fn gateway_activity_reports_only_stale_endpoints() {
    let start = at(100);
    let fresh = socket([198, 51, 100, 8], 40_000);
    let stale = socket([198, 51, 100, 9], 40_001);
    let mut activity = GatewayActivity::new();

    activity.mark_seen_at(fresh, start.after(Duration::from_secs(15)));
    activity.mark_seen_at(stale, start);

    assert_eq!(
        activity.stale_endpoints_at(
            Duration::from_secs(20),
            start.after(Duration::from_secs(19))
        ),
        Vec::<SocketAddr>::new()
    );
    assert_eq!(
        activity.stale_endpoints_at(
            Duration::from_secs(20),
            start.after(Duration::from_secs(30))
        ),
        vec![stale]
    );
}

#[test]
fn prune_stale_gateways_drops_activity_even_when_relay_has_no_state() {
    let start = at(100);
    let stale = socket([198, 51, 100, 8], 40_000);
    let mut relay = Relay::new(relay_config(), start);
    let mut activity = GatewayActivity::new();
    activity.mark_seen_at(stale, start);

    let expired = prune_stale_gateways(&mut relay, &mut activity, Duration::zero(), start);

    assert_eq!(expired.len(), 0);
    assert_eq!(activity.len(), 0);
    assert_eq!(relay.state().endpoint_count(), 0);
}

#[test]
fn configured_ssm_sources_for_one_group_share_one_record() {
    let group = v4(232, 1, 2, 3);
    let first = v4(192, 0, 2, 1);
    let second = v4(192, 0, 2, 2);
    let report = configured_joins_report(
        MembershipProtocol::Igmpv3,
        &vec![
            GatewayJoin {
                group,
                source: Some(first),
            },
            GatewayJoin {
                group,
                source: Some(second),
            },
        ],
    )
    .unwrap();

    assert_eq!(report.records.len(), 1);
    assert_eq!(report.records[0].sources, vec![first, second]);
}

#[test]
fn relay_limit_only_preserves_existing_memberships_on_the_same_endpoint() {
    assert!(limit_requires_rediscovery(true, false, false));
    assert!(limit_requires_rediscovery(true, true, true));
    assert!(!limit_requires_rediscovery(true, true, false));
    assert!(!limit_requires_rediscovery(false, false, true));
}

#[test]
fn refresh_interval_never_exceeds_relays_query_interval() {
    let configured = Duration::from_secs(60);
    assert_eq!(
        effective_refresh_interval_for(configured, Duration::from_secs(125)),
        configured
    );
    assert_eq!(
        effective_refresh_interval_for(configured, Duration::from_secs(30)),
        Duration::from_secs(30)
    );
    assert_eq!(
        effective_refresh_interval_for(configured, Duration::zero()),
        configured
    );
}

#[test]
fn relay_idle_timeout_must_exceed_advertised_query_interval() {
    let mut config = RelayDaemonConfig::new(relay_config());
    config.gateway_idle_timeout = Some(Duration::from_secs(125));
    assert_eq!(
        config.validate().unwrap_err(),
        DaemonConfigError::IdleTimeoutTooShort {
            timeout: Duration::from_secs(125),
            advertised: Duration::from_secs(125),
        }
    );

    config.gateway_idle_timeout = Some(Duration::from_secs(126));
    assert!(config.validate().is_ok());

    config.gateway_idle_timeout = None;
    assert!(config.validate().is_ok());
}

#[test]
fn gateway_retry_backoff_is_capped() {
    assert_eq!(GatewayRetry::upper_delay(0), Duration::from_secs(1));
    assert_eq!(GatewayRetry::upper_delay(3), Duration::from_secs(8));
    assert_eq!(GatewayRetry::upper_delay(7), Duration::from_secs(120));
    assert_eq!(GatewayRetry::upper_delay(20), Duration::from_secs(120));
}

#[test]
fn pmtu_feedback_is_limited_to_rfc_required_drop_reasons() {
    assert!(PreparedTunnelData::Drop(Ipv4FragmentError::DontFragment).requires_pmtu_feedback());
    assert!(PreparedTunnelData::DropIpv6.requires_pmtu_feedback());
    assert!(!PreparedTunnelData::Drop(Ipv4FragmentError::HeaderOptions).requires_pmtu_feedback());
    assert!(!PreparedTunnelData::Drop(Ipv4FragmentError::InvalidPacket).requires_pmtu_feedback());
}

#[test]
fn driad_refresh_interval_is_bounded() {
    assert_eq!(
        clamp_driad_refresh(Duration::zero()),
        Duration::from_secs(DRIAD_MIN_REFRESH_SECS)
    );
    assert_eq!(
        clamp_driad_refresh(Duration::from_secs(60)),
        Duration::from_secs(60)
    );
    assert_eq!(
        clamp_driad_refresh(Duration::from_secs(7 * 24 * 60 * 60)),
        Duration::from_secs(DRIAD_MAX_REFRESH_SECS)
    );
}

fn report_for(reports: &[SourceReport], source: IpAddr) -> &MembershipReport {
    &reports
        .iter()
        .find(|entry| entry.source == source)
        .unwrap()
        .report
}

#[test]
fn driad_memberships_are_partitioned_by_source() {
    let first = v4(192, 0, 2, 10);
    let second = v4(192, 0, 2, 11);
    let (reports, unsupported) = desired_driad_reports(
        MembershipProtocol::Igmpv3,
        &vec![
            GatewayJoin {
                group: v4(232, 1, 2, 3),
                source: Some(first),
            },
            GatewayJoin {
                group: v4(232, 1, 2, 4),
                source: Some(first),
            },
            GatewayJoin {
                group: v4(232, 1, 2, 3),
                source: Some(second),
            },
            GatewayJoin {
                group: v4(239, 1, 2, 3),
                source: None,
            },
        ],
        None,
    );

    assert_eq!(unsupported, 1);
    assert_eq!(reports.len(), 2);
    assert_eq!(report_for(&reports, first).records.len(), 2);
    assert!(report_for(&reports, first)
        .records
        .iter()
        .all(|record| record.sources == vec![first]));
    assert_eq!(report_for(&reports, second).records.len(), 1);
    assert_eq!(report_for(&reports, second).records[0].sources, vec![second]);
}

#[test]
fn driad_worker_pool_bounds_live_resolvers() {
    let mut pool = DriadWorkerPool::new(2);
    assert!(pool.try_acquire());
    assert!(pool.try_acquire());
    assert!(!pool.try_acquire());

    pool.release();
    assert!(pool.try_acquire());
    assert!(!pool.try_acquire());
    pool.release();
    pool.release();
    assert!(pool.try_acquire());
}

#[test]
fn driad_source_limit_keeps_existing_tunnels_stable() {
    let first = v4(192, 0, 2, 10);
    let second = v4(192, 0, 2, 11);
    let (reports, unsupported) = desired_driad_reports(
        MembershipProtocol::Igmpv3,
        &vec![
            GatewayJoin {
                group: v4(232, 1, 2, 3),
                source: Some(first),
            },
            GatewayJoin {
                group: v4(232, 1, 2, 4),
                source: Some(second),
            },
        ],
        None,
    );

    let plan = reconcile_driad_tunnels(&vec![], &reports, 1);

    assert_eq!(plan.removed, vec![]);
    assert_eq!(plan.verdicts, vec![TunnelVerdict::Add, TunnelVerdict::OverLimit]);
    assert_eq!((unsupported, plan.over_limit), (0, 1));
    assert_eq!(reports[0].source, first);

    let mut config = GatewayDriadConfig::new(DriadResolver::new(DriadResolverConfig::new(vec![])));
    config.max_source_tunnels = 1;
    let settings = TunnelSettings::new(first, MembershipProtocol::Igmpv3, false, &config);
    let mut tunnel = DriadSourceTunnel::new(
        settings,
        report(vec![source_record(v4(232, 1, 2, 3), first)]),
        at(1),
    );
    let (reports, _) = desired_driad_reports(
        MembershipProtocol::Igmpv3,
        &vec![GatewayJoin {
            group: v4(232, 1, 2, 5),
            source: Some(first),
        }],
        None,
    );
    let plan = reconcile_driad_tunnels(&vec![first], &reports, 1);
    assert_eq!(plan.verdicts, vec![TunnelVerdict::Keep]);
    assert_eq!(plan.over_limit, 0);
    for entry in reports {
        assert_eq!(tunnel.set_desired(entry.report), Ok(None));
    }
    assert_eq!(tunnel.desired.records[0].group, v4(232, 1, 2, 5));
}

fn driad_test_selection(source: IpAddr, relay: SocketAddr) -> DriadRelaySelection {
    DriadRelaySelection {
        source,
        query_name: reverse_source_name(source),
        record: AmtRelayRecord {
            precedence: 10,
            discovery_optional: false,
            target: match relay.ip() {
                IpAddr::V4(address) => AmtRelayTarget::Ipv4(address),
                IpAddr::V6(address) => AmtRelayTarget::Ipv6(address),
            },
        },
        relay,
        ttl: Duration::from_secs(60),
    }
}

fn driad_tunnel(candidates: &[SocketAddr], now: Instant) -> DriadSourceTunnel {
    let source = v4(192, 0, 2, 10);
    let resolver = DriadResolver::new(DriadResolverConfig::new(Vec::new()));
    let mut config = GatewayDriadConfig::new(resolver);
    config.bind = Some(socket([127, 0, 0, 1], 0));
    config.happy_eyeballs_delay = Duration::from_millis(1);
    config.max_concurrent_probes = 2;
    let settings = TunnelSettings::new(source, MembershipProtocol::Igmpv3, false, &config);
    let desired = report(vec![source_record(v4(232, 1, 2, 3), source)]);
    let mut tunnel = DriadSourceTunnel::new(settings, desired, now);
    tunnel.refresh.next_refresh = now.after(Duration::from_secs(60));
    tunnel.dns_candidates = candidates
        .iter()
        .map(|relay| driad_test_selection(source, *relay))
        .collect();
    tunnel.rebuild_probe_queue(now);
    tunnel
}

/// Starts the probes that are due, and says hello to their relays.
fn start_probes(
    tunnel: &mut DriadSourceTunnel,
    counters: &mut AmtMetricsCounters,
    now: Instant,
) -> Vec<GatewaySend> {
    let mut hellos = Vec::new();
    while let Some((candidate, bind)) = tunnel.take_probe(now) {
        assert!(bind.is_ipv4());
        let relay = candidate.selection.relay;
        let (given, _) = tunnel.probe_gateway_with(relay, 7, 8).unwrap();
        assert_eq!(given.config().relay, relay);
        assert_eq!(given.config().discovery_nonce, 7);
        assert_eq!(given.config().request_nonce, 8);
        let (gateway, hello) = tunnel.probe_gateway(relay).unwrap();
        assert_ne!(gateway.config().discovery_nonce, 0);
        tunnel.probe_started(now, candidate, gateway, counters);
        hellos.push(hello);
    }
    hellos
}

#[test]
fn driad_happy_eyeballs_skips_a_black_hole_and_becomes_idle() {
    let gateway_addr = socket([127, 0, 0, 1], 50_000);
    let black_hole = socket([127, 0, 0, 1], 40_001);
    let relay_addr = socket([127, 0, 0, 1], 40_002);
    let (source, group) = (v4(192, 0, 2, 10), v4(232, 1, 2, 3));
    let mut relay = Relay::new(
        RelayConfig::with_secret(relay_addr, RelaySecret::new([1; 32])),
        at(1),
    );
    let mut counters = AmtMetricsCounters::default();
    let mut tunnel = driad_tunnel(&[black_hole, relay_addr], at(1));

    let mut now = at(1);
    let mut upstream = None;
    for _ in 0..20 {
        for send in start_probes(&mut tunnel, &mut counters, now) {
            if send.destination != relay_addr {
                continue;
            }
            let mut outgoing = Some(send);
            while let Some(send) = outgoing.take() {
                let action = relay.handle_datagram(now, gateway_addr, &send.datagram).unwrap();
                let RelayAction::Send(response) = action else {
                    panic!("unexpected relay action: {action:?}");
                };
                let index = tunnel
                    .probes
                    .iter()
                    .position(|probe| probe.candidate.selection.relay == relay_addr)
                    .unwrap();
                let step = tunnel.probes[index].handle_datagram(
                    &mut counters,
                    relay_addr,
                    &response,
                    EcnCodepoint::NotEct,
                );
                match step {
                    ProbeStep::Send(request) => outgoing = Some(request),
                    ProbeStep::Winner { query_interval, .. } => {
                        let (active, update) = tunnel.take_winner(now, index, query_interval);
                        let update = update.unwrap().unwrap();
                        let accepted = relay
                            .handle_datagram(now, gateway_addr, &update.datagram)
                            .unwrap();
                        let RelayAction::AcceptedMembershipUpdate {
                            upstream_subscriptions, ..
                        } = accepted
                        else {
                            panic!("expected an accepted update");
                        };
                        upstream = Some(upstream_subscriptions);
                        assert!(tunnel.winner_settled(
                            active,
                            WinnerUpdate::Sent,
                            now,
                            &mut counters
                        ));
                    }
                    other => panic!("unexpected step: {other:?}"),
                }
            }
        }
        if tunnel.is_active() {
            break;
        }
        now = now.after(Duration::from_millis(1));
    }

    assert!(tunnel.is_active());
    assert_eq!(counters.driad_probes_started_total, 2);
    assert_eq!(counters.driad_probe_errors_total, 0);
    assert_eq!(counters.driad_connections_established_total, 1);
    assert_eq!(upstream, Some(vec![UpstreamSubscription::ssm(group, source)]));
    assert_eq!(tunnel.active.as_ref().unwrap().overdue(now), None);

    tunnel.active.as_mut().unwrap().traffic_deadline = Some(now);
    let failure = tunnel.active.as_ref().unwrap().overdue(now);
    assert_eq!(failure, Some(DriadActiveFailure::NoTraffic));
    let teardown = tunnel.fail_active(DriadActiveFailure::NoTraffic, now, &mut counters);
    assert!(teardown.is_some());
    assert!(!tunnel.is_active());
    assert_eq!(counters.driad_no_traffic_hold_downs_total, 1);
    assert_eq!(tunnel.hold_down_count(now), 1);
}

#[test]
fn driad_holds_down_a_loaded_relay_and_uses_its_peer() {
    let gateway_addr = socket([127, 0, 0, 1], 50_000);
    let loaded_addr = socket([127, 0, 0, 1], 40_001);
    let healthy_addr = socket([127, 0, 0, 2], 40_002);
    let mut loaded_config = RelayConfig::with_secret(loaded_addr, RelaySecret::new([1; 32]));
    loaded_config.limit = true;
    let mut loaded = Relay::new(loaded_config, at(1));
    let mut healthy = Relay::new(
        RelayConfig::with_secret(healthy_addr, RelaySecret::new([2; 32])),
        at(1),
    );
    let mut counters = AmtMetricsCounters::default();
    let mut tunnel = driad_tunnel(&[loaded_addr, healthy_addr], at(1));

    let mut now = at(1);
    let mut waiting: Vec<GatewaySend> = Vec::new();
    let mut joined = false;
    for _ in 0..40 {
        waiting.extend(start_probes(&mut tunnel, &mut counters, now));
        let mut order: Vec<GatewaySend> = Vec::new();
        let mut later: Vec<GatewaySend> = Vec::new();
        for send in waiting.drain(..) {
            let loaded_done = tunnel.hold_downs.contains_key(loaded_addr);
            if send.destination == loaded_addr || loaded_done {
                order.push(send);
            } else {
                later.push(send);
            }
        }
        waiting = later;
        for send in order {
            let relay_addr = send.destination;
            let relay = if relay_addr == loaded_addr { &mut loaded } else { &mut healthy };
            let RelayAction::Send(response) =
                relay.handle_datagram(now, gateway_addr, &send.datagram).unwrap()
            else {
                panic!("a relay should only answer discovery and request");
            };
            let index = tunnel
                .probes
                .iter()
                .position(|probe| probe.candidate.selection.relay == relay_addr)
                .unwrap();
            let step = tunnel.probes[index].handle_datagram(
                &mut counters,
                relay_addr,
                &response,
                EcnCodepoint::NotEct,
            );
            match step {
                ProbeStep::Send(request) => waiting.push(request),
                ProbeStep::Loaded(actual) => {
                    tunnel.probe_loaded(now, index, actual, &mut counters);
                }
                ProbeStep::Winner { query_interval, .. } => {
                    let (mut active, update) = tunnel.take_winner(now, index, query_interval);
                    let update = update.unwrap().unwrap();
                    joined = matches!(
                        healthy.handle_datagram(now, gateway_addr, &update.datagram),
                        Ok(RelayAction::AcceptedMembershipUpdate { .. })
                    );
                    let timeout = tunnel.next_traffic_timeout();
                    active.desired_sent(now, timeout, &mut counters);
                    tunnel.activate(active, &mut counters);
                }
                ProbeStep::Nothing => panic!("expected a step"),
            }
        }
        if tunnel.is_active() {
            break;
        }
        now = now.after(Duration::from_millis(1));
    }

    assert!(tunnel.is_active());
    assert!(joined);
    assert_eq!(
        tunnel.active.as_ref().unwrap().candidate.selection.relay,
        healthy_addr
    );
    assert!(tunnel.hold_downs.contains_key(loaded_addr));
    assert_eq!(counters.driad_loaded_hold_downs_total, 1);

    tunnel.settings.use_anycast = true;
    tunnel.lookup_started(&mut counters);
    let (teardown, withdrawn) =
        tunnel.resolved(now, Err(DriadError::NoRelayPresent), &mut counters);
    assert!(withdrawn);
    assert_eq!(teardown.unwrap().destination, healthy_addr);
    teardown_sent(&mut counters, true);
    assert!(!tunnel.is_active());
    assert!(tunnel.no_relay_present);
    assert!(tunnel.pending.is_empty());
    assert!(tunnel.probes.is_empty());
    assert!(tunnel.retry_round_at.is_none());
    assert_eq!(counters.driad_no_relay_withdrawals_total, 1);
    assert_eq!(counters.gateway_teardowns_sent_total, 1);
}

#[test]
fn probes_lapse_and_rounds_start_again() {
    let relay = socket([127, 0, 0, 1], 40_001);
    let mut counters = AmtMetricsCounters::default();
    let mut tunnel = driad_tunnel(&[relay], at(1));
    assert_eq!(start_probes(&mut tunnel, &mut counters, at(1)).len(), 1);
    assert!(!tunnel.probe_drained(at(2), 0, &mut counters));
    let late = tunnel.probes[0].deadline;
    assert!(tunnel.probe_drained(late, 0, &mut counters));
    assert_eq!(tunnel.probe_count(), 0);

    tunnel.schedule_next_round_if_exhausted(late);
    assert!(tunnel.retry_round_at.is_some());
}

#[test]
fn lookups_are_scheduled_by_their_outcome() {
    let mut schedule = RefreshSchedule::new(at(10));
    assert!(schedule.is_due(at(10)));
    schedule.schedule_success(at(10), Duration::from_secs(30));
    assert!(!schedule.is_due(at(39)));
    assert!(schedule.is_due(at(40)));
    schedule.schedule_failure(at(40));
    assert_eq!(schedule.retry_attempt, 1);
    assert!(!schedule.is_due(at(40)));
}

#[test]
fn probe_queues_go_by_rank_and_leave_out_held_relays() {
    let source = v4(192, 0, 2, 10);
    let (first, second) = (
        socket([203, 0, 113, 1], 2268),
        socket([203, 0, 113, 2], 2268),
    );
    let mut late = driad_test_selection(source, first);
    late.record.precedence = 20;
    let early = driad_test_selection(source, second);
    let queue = build_probe_queue(
        source,
        None,
        true,
        &vec![late.clone(), early.clone()],
        &OrdMap::new(),
        &vec![],
    );
    let ranks: Vec<u32> = queue.iter().map(|candidate| candidate.rank()).collect();
    assert!(ranks.windows(2).all(|pair| pair[0] <= pair[1]));
    let origins = |origin| {
        queue
            .iter()
            .filter(|candidate| candidate.origin == origin)
            .count()
    };
    assert_eq!(origins(DriadCandidateOrigin::Anycast), 2);
    assert_eq!(origins(DriadCandidateOrigin::SourceDns), 2);

    let mut held = OrdMap::new();
    held.insert(second, at(100));
    let queue = build_probe_queue(source, None, false, &vec![late, early], &held, &vec![]);
    assert_eq!(queue.len(), 1);
    assert_eq!(queue[0].selection.relay, first);
}

#[test]
fn tunnel_gauges_add_up() {
    let gauges = driad_gauges(
        &vec![
            TunnelGauge {
                active: true,
                probes: 0,
                held_down: 1,
            },
            TunnelGauge {
                active: false,
                probes: 2,
                held_down: 1,
            },
        ],
        true,
        false,
        3,
    );
    assert!(gauges.relay_connected);
    assert_eq!(gauges.driad_source_tunnels, 2);
    assert_eq!(gauges.driad_active_tunnels, 1);
    assert_eq!(gauges.driad_candidate_probes, 2);
    assert_eq!(gauges.driad_held_down_relays, 2);
}

#[test]
fn rate_limited_sources_stay_within_capacity() {
    assert_eq!(rate_source_capacity(10), 1_024);
    assert_eq!(rate_source_capacity(100_000), 65_536);
    assert_eq!(rate_source_capacity(2_000), 2_000);
    let mut sources = RateLimitSources::new(1, at(1));
    let (first, second) = (v4(192, 0, 2, 1), v4(192, 0, 2, 2));
    let admission = sources.track(at(1), first);
    assert!(admission.admitted && admission.fresh);
    let admission = sources.track(at(1), first);
    assert!(admission.admitted && !admission.fresh);
    assert!(!sources.track(at(1), second).admitted);
    let later = sources.track(at(2_000), second);
    assert!(later.admitted && later.fresh);
    assert_eq!(later.forgotten, vec![first]);
}

#[test]
fn retries_stay_within_their_bounds() {
    for attempt in [0u32, 4, 9] {
        let upper = GatewayRetry::upper_delay(attempt);
        for random in [0u64, 999, u64::MAX] {
            let delay = randomized_retry_delay_with(upper, random);
            assert!(delay.nanos >= Duration::from_secs(1).nanos);
            assert!(delay.nanos <= upper.nanos);
        }
    }
    let (low, high) = (Duration::from_secs(4), Duration::from_secs(9));
    for random in [0u64, 77, u64::MAX] {
        let span = randomized_duration_between_with(low, high, random);
        assert!(low.nanos <= span.nanos && span.nanos <= high.nanos);
    }
    let mut retry = GatewayRetry::due_now(at(5));
    assert!(retry.is_due(at(5)));
    retry.after_send(at(5));
    assert_eq!(retry.attempt, 1);
    assert!(!retry.is_due(at(5)));
    assert!(retry.is_due(at(5 + 120)));
    retry.reset_after_send(at(6));
    assert_eq!(retry.attempt, 1);
    retry.after_send_with(at(7), 500);
    assert_eq!(retry.attempt, 2);
    assert_eq!(
        retry.next_attempt.nanos,
        at(7).nanos + Duration::from_millis(1_500).nanos
    );
    retry.reset_after_send_with(at(8), 500);
    assert_eq!(retry, GatewayRetry { attempt: 1, next_attempt: at(9) });
}

#[test]
fn forwarding_fits_packets_into_the_path() {
    let mut relay = Relay::new(relay_config(), at(1));
    let peer = socket([198, 51, 100, 8], 40_000);
    let (source, group) = (v4(192, 0, 2, 1), v4(232, 1, 2, 3));
    relay.state.apply_report(
        peer,
        &report(vec![source_record(group, source)]),
    );
    let small = multicast([192, 0, 2, 1], [232, 1, 2, 3], 100, 0);
    let plan = plan_forwarding(&relay, 1_500, source, group, &small);
    assert_eq!(plan.endpoints, vec![peer]);
    assert!(plan.data_for(peer).is_none());

    let large = multicast([192, 0, 2, 1], [232, 1, 2, 3], 1_480, 0);
    let plan = plan_forwarding(&relay, 1_500, source, group, &large);
    let Some(PreparedTunnelData::Packets(datagrams)) = plan.data_for(peer) else {
        panic!("expected fragments");
    };
    assert!(datagrams.len() > 1);
    assert!(datagrams.iter().all(|datagram| datagram.len() + 28 <= 1_500));

    let whole = multicast([192, 0, 2, 1], [232, 1, 2, 3], 1_480, 0x4000);
    let plan = plan_forwarding(&relay, 1_500, source, group, &whole);
    let data = plan.data_for(peer).unwrap();
    assert!(data.requires_pmtu_feedback());
    assert_eq!(plan.feedback_mtu, Some(tunnel_mtu(1_500, peer)));
    assert_eq!(tunnel_mtu(1_500, peer), 1_470);
    assert_eq!(
        prepare_oversized_tunnel_data(&[0x60; 40], 20),
        PreparedTunnelData::DropIpv6
    );
    assert_eq!(
        tunnel_ecn(&relay, peer, &small).0,
        EcnCodepoint::NotEct
    );
    assert_eq!(protocol_name(Some(17)), "UDP");
    assert_eq!(protocol_name(None), "IP");
}

#[test]
fn sends_and_feedback_are_tallied() {
    let mut counters = AmtMetricsCounters::default();
    let mut log = RelayDataLog::new(at(1));
    let mut tally = ForwardingTally::new();
    tally.record(
        TunnelSend::Whole { bytes: 102, normal_mode: false },
        &mut counters,
        &mut log,
    );
    tally.record(
        TunnelSend::Failed { error: "unreachable".to_string(), fragment: false },
        &mut counters,
        &mut log,
    );
    tally.finish(100, &mut counters, &mut log);
    assert_eq!(tally.endpoints, 1);
    assert_eq!(log.forwarded_packets, 1);
    assert_eq!(log.send_errors, 1);
    assert_eq!(counters.send_errors_total, 1);

    record_pmtu_feedback(
        RelayPmtuOutcome::Sent { bytes_sent: 576 },
        &mut counters,
        &mut log,
    );
    assert_eq!(counters.upstream_pmtu_feedback_sent_total, 1);
    assert!(log.has_events());
    assert!(log.maybe_emit(at(1)).is_none());
    let due = log.maybe_emit(at(100)).unwrap();
    assert_eq!(due.send_errors, 1);
    assert!(!log.has_events());
}

#[test]
fn errors_are_summed_up() {
    let mut summary = ErrorSummary::new("receive", at(1));
    assert!(summary.maybe_emit(at(1_000)).is_none());
    summary.record("first".to_string());
    summary.record("second".to_string());
    let report = summary.maybe_emit(at(2_000)).unwrap();
    assert_eq!(report.count, 2);
    assert_eq!(report.last_error.as_deref(), Some("second"));
    assert!(summary.maybe_emit(at(3_000)).is_none());
}

#[test]
fn relay_control_reconciles_before_it_commits() {
    let peer = socket([198, 51, 100, 8], 40_000);
    let group = v4(239, 1, 2, 3);
    let mut control = RelayControl::new(relay_config(), AmtMetricsCounters::default(), at(1));
    let request = encode(&Message::Request {
        request_nonce: 9,
        protocol: MembershipProtocol::Igmpv3,
        ecn_capable: false,
    });
    let ControlStep::Send(response) = control.handle_amt_datagram(at(1), peer, &request) else {
        panic!("expected a query");
    };
    control.response_sent(response.len(), true);
    let packet = build_membership_report(&report(vec![MembershipRecord {
        kind: MembershipRecordKind::ChangeToExclude,
        group,
        sources: vec![],
    }]))
    .unwrap();
    let update = encode(&Message::MembershipUpdate {
        response_mac: control.relay.response_mac(peer.ip(), peer.port(), 9),
        request_nonce: 9,
        membership_update: &packet,
    });

    let step = control.handle_amt_datagram(at(2), peer, &update);
    let ControlStep::Reconcile { subscriptions, pending } = step else {
        panic!("expected a reconcile");
    };
    assert_eq!(subscriptions, vec![UpstreamSubscription::any_source(group)]);
    assert_eq!(control.subscriptions(), vec![]);
    control.reconciled(
        at(2),
        peer,
        pending,
        UpstreamReconcile {
            added: 1,
            removed: 0,
            failed_removals: 0,
            active: 1,
        },
    );
    assert_eq!(control.subscriptions(), subscriptions);
    assert_eq!(control.prune(Some(Duration::from_secs(60)), at(61)), vec![]);
    assert_eq!(control.prune(Some(Duration::from_secs(60)), at(62)), vec![peer]);
    assert_eq!(control.subscriptions(), vec![]);

    let step = control.handle_amt_datagram(at(70), peer, &update);
    assert!(matches!(step, ControlStep::Reconcile { .. }));
    control.reconcile_failed(at(70), peer);
    assert_eq!(control.subscriptions(), vec![]);
    control.rate_limited();
    assert_eq!(control.counters.upstream_reconcile_failures_total, 1);
}

#[test]
fn idle_relays_wait_for_the_next_event() {
    let metrics = MetricsRecorder::new(&MetricsConfig::default(), at(1), true).unwrap();
    assert!(prune_due(at(1), Duration::from_secs(5), at(6)));
    assert!(!prune_due(at(1), Duration::from_secs(5), at(5)));
    assert!(may_wait(0, false, 0));
    assert!(!may_wait(MAX_CONTROL_DRAIN, false, 0));
    assert!(!may_wait(0, true, 0));
    assert!(!may_wait(0, false, 1));
    let wait = relay_wait_timeout(at(1), Duration::from_secs(5), &metrics, at(5));
    assert!(wait.nanos <= Duration::from_secs(1).nanos);
}

#[test]
fn a_gateway_joins_through_a_relay() {
    let gateway_addr = socket([198, 51, 100, 8], 40_000);
    let relay_addr = socket([192, 0, 2, 10], 2268);
    let (source, group) = (v4(192, 0, 2, 1), v4(232, 1, 2, 3));
    let mut relay = Relay::new(
        RelayConfig::with_secret(relay_addr, RelaySecret::new([5; 32])),
        at(1),
    );
    let gateway = Gateway::new(gateway_config(relay_addr, MembershipProtocol::Igmpv3)).unwrap();
    let join = GatewayJoin { group, source: Some(source) };
    let mut daemon = StaticGateway::new(gateway, None, vec![join], None, at(1));

    let mut outgoing = daemon.relay_step(at(1)).unwrap();
    let mut updates = 0;
    for _ in 0..4 {
        let Some(send) = outgoing.take() else { break };
        assert_eq!(send.destination, relay_addr);
        let RelayAction::Send(response) =
            relay.handle_datagram(at(1), gateway_addr, &send.datagram).unwrap()
        else {
            panic!("expected an answer");
        };
        match daemon
            .handle_datagram(at(1), relay_addr, &response, EcnCodepoint::NotEct)
            .unwrap()
        {
            StaticStep::Send(send) => outgoing = Some(send),
            StaticStep::Refresh { update, .. } => {
                let update = update.unwrap();
                assert!(matches!(
                    relay.handle_datagram(at(1), gateway_addr, &update.datagram),
                    Ok(RelayAction::AcceptedMembershipUpdate { .. })
                ));
                updates += 1;
            }
            other => panic!("unexpected step: {other:?}"),
        }
    }
    assert_eq!(updates, 1);
    assert_eq!(
        relay.state().upstream_subscriptions(),
        vec![UpstreamSubscription::ssm(group, source)]
    );
    assert!(daemon.gauges(true).relay_connected);

    let packet = multicast([192, 0, 2, 1], [232, 1, 2, 3], 8, 0);
    let data = encode(&Message::MulticastData { packet: &packet });
    assert_eq!(
        daemon.handle_datagram(at(2), relay_addr, &data, EcnCodepoint::NotEct),
        Ok(StaticStep::Forward(packet))
    );

    let teardown = daemon.shutdown().unwrap();
    assert!(matches!(
        relay.handle_datagram(at(3), gateway_addr, &teardown.datagram),
        Ok(RelayAction::AcceptedTeardown { removed: true, .. })
    ));
}

#[test]
fn local_reports_widen_what_a_gateway_wants() {
    let relay_addr = socket([192, 0, 2, 10], 2268);
    let gateway = Gateway::new(gateway_config(relay_addr, MembershipProtocol::Igmpv3)).unwrap();
    let local = LocalMembershipManager::new(LocalMembershipConfig::new(MembershipProtocol::Igmpv3));
    let mut daemon = StaticGateway::new(gateway, Some(local), vec![], None, at(1));
    assert!(daemon.local_query_step(at(1)).is_some());
    assert!(daemon.local_query_step(at(2)).is_none());

    let group = v4(239, 1, 2, 3);
    let packet = build_membership_report(&report(vec![MembershipRecord {
        kind: MembershipRecordKind::ModeIsExclude,
        group,
        sources: vec![],
    }]))
    .unwrap();
    let step = daemon
        .local_report(at(3), Some(v4(192, 168, 1, 10)), &packet)
        .unwrap();
    let LocalStep::Reported { event, update, session } = step else {
        panic!("expected a report");
    };
    assert_eq!(event.records_received, 1);
    assert_eq!(event.active_subscriptions, vec![UpstreamSubscription::any_source(group)]);
    assert!(update.is_none());
    assert!(!session);
    assert!(matches!(
        daemon.local_report(at(3), None, &[0x50]),
        Ok(LocalStep::Invalid(_))
    ));

    let wanted = desired_membership_report(
        MembershipProtocol::Igmpv3,
        &vec![GatewayJoin { group: v4(232, 1, 2, 3), source: Some(v4(192, 0, 2, 1)) }],
        daemon.local.as_ref(),
    );
    let groups: Vec<IpAddr> = wanted.records.iter().map(|record| record.group).collect();
    assert_eq!(groups, vec![v4(232, 1, 2, 3), group]);
    assert_eq!(daemon.prune_local(at(3)).unwrap().0, 0);
}

#[test]
fn gateway_bookkeeping_counts_what_happened() {
    let mut counters = AmtMetricsCounters::default();
    let mut log = GatewayDataLog::new(at(1));
    record_downstream(&mut counters, &mut log, DownstreamOutcome::Forwarded(40));
    record_downstream(&mut counters, &mut log, DownstreamOutcome::NotMulticast);
    record_downstream(
        &mut counters,
        &mut log,
        DownstreamOutcome::Failed("closed".to_string()),
    );
    assert_eq!(log.downstream_packets, 1);
    assert_eq!(log.downstream_bytes, 40);
    assert_eq!(log.non_multicast_packets, 1);
    assert_eq!(log.last_downstream_error.as_deref(), Some("closed"));

    count_response(&mut counters, 12);
    assert_eq!(counters.control_responses_sent_total, 1);
    assert_eq!(counters.control_response_bytes_sent_total, 12);
    local_query_sent(&mut counters, true);
    assert_eq!(counters.local_queries_sent_total, 1);

    assert!(has_lapsed(Some(at(1)), Duration::from_secs(10), at(11)));
    assert!(!has_lapsed(None, Duration::from_secs(10), at(11)));
    assert!(is_due_again(None, Duration::from_secs(10), at(1)));
    assert!(!is_due_again(Some(at(1)), Duration::from_secs(10), at(10)));
}

#[test]
fn discovery_settings_are_checked() {
    let local = || DriadResolver::new(DriadResolverConfig::new(vec![socket([127, 0, 0, 1], 53)]));
    assert_eq!(GatewayDriadConfig::new(local()).validate(), Ok(()));
    let mut config = GatewayDriadConfig::new(local());
    config.bind = Some(socket([0, 0, 0, 0], 9));
    assert_eq!(config.validate(), Err(DaemonConfigError::DriadBindPort));
    let mut config = GatewayDriadConfig::new(local());
    config.relay_hold_down = Duration::zero();
    assert_eq!(config.validate(), Err(DaemonConfigError::DriadTimers));
    let mut config = GatewayDriadConfig::new(local());
    config.maximum_traffic_timeout = Duration::from_millis(1);
    assert_eq!(config.validate(), Err(DaemonConfigError::DriadTrafficTimeout));
    let mut config = GatewayDriadConfig::new(local());
    config.max_dns_workers = 0;
    assert_eq!(config.validate(), Err(DaemonConfigError::DriadLimits));
    let config = GatewayDriadConfig::new(DriadResolver::new(DriadResolverConfig::new(vec![])));
    assert_eq!(
        config.validate(),
        Err(DaemonConfigError::Resolver(DriadError::NoResolvers))
    );
}

#[test]
fn random_delays_stay_within_their_bounds() {
    let delay = randomized_retry_delay(Duration::from_secs(8));
    assert!(delay.nanos >= Duration::from_secs(1).nanos);
    assert!(delay.nanos <= Duration::from_secs(8).nanos);
    assert_eq!(word_of([0, 0, 0, 1, 0, 0, 0, 2]), 0x1_0000_0002);
    assert!(random_u64().is_ok());
    assert_ne!(random_nonce().unwrap(), 0);
    assert_eq!(nonzero_or_random(5), Ok(5));
}

#[test]
fn draws_give_their_bytes_or_fail() {
    assert_eq!(drawn(Ok(()), [1, 2, 3]), Ok([1, 2, 3]));
    let failed = drawn(Err(getrandom::Error::UNSUPPORTED), [1, 2, 3]).unwrap_err();
    assert_eq!(failed.message, getrandom::Error::UNSUPPORTED.to_string());
    assert_eq!(drawn_or(Ok(3), 4), 3);
    assert_eq!(drawn_or(Err(failed), 4), 4);
    assert!(random_u16().is_ok());
    assert_eq!(half_word_of([0x12, 0x34]), 0x1234);
    assert_eq!(nonce_of([0, 0, 1, 2]), Some(0x102));
    assert_eq!(nonce_of([0, 0, 0, 0]), None);
    assert_eq!(nonce_if(false), Ok(1));
    assert_ne!(nonce_if(true), Ok(0));
}

#[test]
fn gateway_events_are_counted() {
    let mut counters = AmtMetricsCounters::default();
    count_local_report(&mut counters, true);
    count_local_report(&mut counters, false);
    count_send_error(&mut counters);
    count_refresh(&mut counters);
    assert_eq!(counters.local_membership_reports_total, 1);
    assert_eq!(counters.local_membership_parse_errors_total, 1);
    assert_eq!(counters.send_errors_total, 1);
    assert_eq!(counters.gateway_membership_refreshes_total, 1);

    let mut log = RelayDataLog::new(at(1));
    record_unmatched(Some(2), &mut counters, &mut log);
    assert_eq!(counters.upstream_unmatched_packets_total, 1);
    assert_eq!(log.last_unmatched_protocol, Some("IGMP"));
}

#[test]
fn silent_and_loaded_relays_are_left() {
    let (first, second) = (
        socket([192, 0, 2, 10], 2268),
        socket([192, 0, 2, 11], 2268),
    );
    let config = gateway_config(first, MembershipProtocol::Igmpv3)
        .with_fallback_relays(vec![second]);
    let gateway = Gateway::new(config).unwrap();
    let mut daemon = StaticGateway::new(gateway, None, vec![], None, at(1));
    assert_eq!(daemon.relay_step(at(1)).unwrap().unwrap().destination, first);
    let next = daemon.relay_step(at(11)).unwrap().unwrap();
    assert_eq!(next.destination, second);

    let mut loaded = RelayConfig::with_secret(second, RelaySecret::new([4; 32]));
    loaded.limit = true;
    let mut relay = Relay::new(loaded, at(1));
    let peer = socket([198, 51, 100, 8], 40_000);
    let mut outgoing = next;
    for _ in 0..2 {
        let RelayAction::Send(response) =
            relay.handle_datagram(at(11), peer, &outgoing.datagram).unwrap()
        else {
            panic!("expected an answer");
        };
        match daemon
            .handle_datagram(at(11), second, &response, EcnCodepoint::NotEct)
            .unwrap()
        {
            StaticStep::Send(request) => outgoing = request,
            StaticStep::Rediscover { discovery, .. } => {
                assert_eq!(discovery.destination, first);
                return;
            }
            other => panic!("unexpected step: {other:?}"),
        }
    }
    panic!("expected another discovery");
}

#[test]
fn relays_that_cannot_be_reached_are_given_up() {
    let relay_addr = socket([127, 0, 0, 1], 40_002);
    let mut counters = AmtMetricsCounters::default();
    let mut tunnel = driad_tunnel(&[relay_addr], at(1));
    assert_eq!(
        tunnel.active_sent(ActiveSend::Request, false, at(1), &mut counters),
        None
    );
    assert_eq!(counters, AmtMetricsCounters::default());

    assert_eq!(start_probes(&mut tunnel, &mut counters, at(1)).len(), 1);
    let (winner, _) = tunnel.take_winner(at(1), 0, Duration::from_secs(60));
    assert!(tunnel.winner_settled(winner, WinnerUpdate::Nothing, at(1), &mut counters));
    assert!(tunnel.is_active());
    tunnel.active_sent(ActiveSend::Response(12), true, at(1), &mut counters);
    assert_eq!(counters.control_response_bytes_sent_total, 12);
    tunnel.active_sent(ActiveSend::Refresh, true, at(2), &mut counters);
    assert_eq!(counters.gateway_membership_refreshes_total, 1);
    assert_eq!(counters.gateway_membership_updates_sent_total, 1);
    assert!(tunnel.active.as_ref().unwrap().traffic_deadline.is_some());

    tunnel.active_sent(ActiveSend::Update, false, at(3), &mut counters);
    assert!(!tunnel.is_active());
    assert_eq!(counters.send_errors_total, 1);
    assert_eq!(counters.driad_query_timeouts_total, 1);

    assert_eq!(start_probes(&mut tunnel, &mut counters, at(4)).len(), 1);
    let (winner, _) = tunnel.take_winner(at(4), 0, Duration::from_secs(60));
    assert!(!tunnel.winner_settled(winner, WinnerUpdate::Failed, at(4), &mut counters));
    assert!(!tunnel.is_active());
    assert_eq!(counters.driad_probe_errors_total, 1);
}

fn no_draw() -> Result<u32, RandomnessError> {
    Err(RandomnessError { message: "none".to_string() })
}

fn no_nonce<T>() -> Result<T, GatewayError> {
    Err(GatewayError::Randomness(RandomnessError { message: "none".to_string() }))
}

fn discovery(destination: SocketAddr, discovery_nonce: u32) -> GatewaySend {
    GatewaySend { destination, datagram: encode(&Message::RelayDiscovery { discovery_nonce }) }
}

fn request(destination: SocketAddr, request_nonce: u32) -> GatewaySend {
    let request = Message::Request {
        request_nonce,
        protocol: MembershipProtocol::Igmpv3,
        ecn_capable: false,
    };
    GatewaySend { destination, datagram: encode(&request) }
}

#[test]
fn relays_are_left_under_the_nonces_that_were_drawn() {
    let (first, second) = (
        socket([192, 0, 2, 10], 2268),
        socket([192, 0, 2, 11], 2268),
    );
    let config = GatewayConfig::from_nonces(first, MembershipProtocol::Igmpv3, 7, 8)
        .with_fallback_relays(vec![second]);
    let gateway = Gateway::new(config).unwrap();
    let mut daemon = StaticGateway::new(gateway, None, vec![], None, at(1));
    assert_eq!(
        daemon.relay_step_with(at(1), no_draw(), no_draw(), 0),
        Ok(Some(discovery(first, 7)))
    );
    assert_eq!(daemon.query_cycle_started, Some(at(1)));
    assert_eq!(daemon.relay_step_with(at(1), no_draw(), no_draw(), 0), Ok(None));

    assert_eq!(daemon.relay_step_with(at(11), Ok(9), no_draw(), 0), no_nonce());
    assert_eq!(daemon.query_cycle_started, Some(at(1)));
    assert_eq!(
        daemon.relay_step_with(at(11), Ok(9), Ok(10), 0),
        Ok(Some(discovery(second, 9)))
    );
    assert_eq!(daemon.query_cycle_started, Some(at(11)));
    assert_eq!(daemon.retry, GatewayRetry { attempt: 1, next_attempt: at(12) });

    let mut loaded = RelayConfig::with_secret(second, RelaySecret::new([4; 32]));
    loaded.limit = true;
    let mut relay = Relay::new(loaded, at(1));
    let peer = socket([198, 51, 100, 8], 40_000);
    let mut answer = |send: &GatewaySend| {
        match relay.handle_datagram(at(11), peer, &send.datagram).unwrap() {
            RelayAction::Send(response) => response,
            other => panic!("unexpected answer: {other:?}"),
        }
    };
    let ecn = EcnCodepoint::NotEct;
    let offer = answer(&discovery(second, 9));
    assert_eq!(
        daemon.handle_datagram_with(at(12), second, &offer, ecn, no_draw(), no_draw(), 0),
        Ok(StaticStep::Send(request(second, 10)))
    );
    let query = answer(&request(second, 10));
    assert_eq!(
        daemon.handle_datagram_with(at(13), second, &query, ecn, no_draw(), Ok(12), 0),
        no_nonce()
    );
    assert_eq!(daemon.counters.gateway_membership_queries_received_total, 1);
    assert_eq!(daemon.counters.gateway_discoveries_sent_total, 2);

    let config = GatewayConfig::from_nonces(second, MembershipProtocol::Igmpv3, 9, 10)
        .with_fallback_relays(vec![first]);
    let mut daemon = StaticGateway::new(Gateway::new(config).unwrap(), None, vec![], None, at(11));
    daemon.relay_step(at(11)).unwrap();
    daemon.handle_datagram(at(12), second, &offer, ecn).unwrap();
    assert_eq!(
        daemon.handle_datagram_with(at(13), second, &query, ecn, Ok(11), Ok(12), 0),
        Ok(StaticStep::Rediscover { teardown: None, discovery: discovery(first, 11) })
    );
    assert_eq!(daemon.gateway.config().request_nonce, 12);
    assert_eq!(daemon.query_cycle_started, Some(at(13)));
}

#[test]
fn refreshes_go_under_the_nonce_that_was_drawn() {
    let relay_addr = socket([192, 0, 2, 10], 2268);
    let gateway_addr = socket([198, 51, 100, 8], 40_000);
    let mut relay = Relay::new(
        RelayConfig::with_secret(relay_addr, RelaySecret::new([5; 32])),
        at(1),
    );
    let gateway = Gateway::new(gateway_config(relay_addr, MembershipProtocol::Igmpv3)).unwrap();
    let join = GatewayJoin { group: v4(232, 1, 2, 3), source: Some(v4(192, 0, 2, 1)) };
    let mut daemon = StaticGateway::new(gateway, None, vec![join], None, at(1));
    let mut outgoing = daemon.relay_step(at(1)).unwrap();
    while let Some(send) = outgoing.take() {
        let RelayAction::Send(response) =
            relay.handle_datagram(at(1), gateway_addr, &send.datagram).unwrap()
        else {
            panic!("expected an answer");
        };
        if let StaticStep::Send(send) = daemon
            .handle_datagram(at(1), relay_addr, &response, EcnCodepoint::NotEct)
            .unwrap()
        {
            outgoing = Some(send);
        }
    }
    assert_eq!(daemon.refresh_step_with(at(2), no_draw(), 0), Ok(None));
    assert_eq!(daemon.refresh_step(at(2)), Ok(None));
    assert_eq!(daemon.refresh_step_with(at(1_000), no_draw(), 0), no_nonce());
    assert_eq!(daemon.query_cycle_started, None);
    assert_eq!(
        daemon.refresh_step_with(at(1_000), Ok(21), 0),
        Ok(Some(request(relay_addr, 21)))
    );
    assert_eq!(daemon.query_cycle_started, Some(at(1_000)));
    assert_eq!(daemon.retry, GatewayRetry { attempt: 1, next_attempt: at(1_001) });
    assert!(daemon.gateway.is_awaiting_query());
}

#[test]
fn served_sources_refresh_under_the_nonce_that_was_drawn() {
    let relay_addr = socket([127, 0, 0, 1], 40_002);
    let mut counters = AmtMetricsCounters::default();
    let mut tunnel = driad_tunnel(&[relay_addr], at(1));
    assert_eq!(start_probes(&mut tunnel, &mut counters, at(1)).len(), 1);
    let minute = Duration::from_secs(60);
    let (winner, _) = tunnel.take_winner(at(1), 0, minute);
    assert!(tunnel.winner_settled(winner, WinnerUpdate::Nothing, at(1), &mut counters));
    let active = tunnel.active.as_mut().unwrap();
    active.query_cycle_started = None;
    let failed = ActiveStep::Fail { teardown: None, failure: DriadActiveFailure::QueryTimeout };

    assert_eq!(active.refresh_step_with(minute, at(2), no_draw()), ActiveStep::Nothing);
    active.gateway.relay_endpoint = None;
    assert_eq!(active.refresh_step_with(minute, at(1_000), Ok(21)), failed);
    assert_eq!(active.refresh_step(minute, at(1_000)), failed);
    active.gateway.relay_endpoint = Some(relay_addr);
    active.gateway.phase = GatewayPhase::AwaitingMembershipQuery;
    assert_eq!(active.refresh_step_with(minute, at(1_000), no_draw()), failed);
    assert_eq!(active.query_cycle_started, None);
    assert_eq!(
        active.refresh_step_with(minute, at(1_000), Ok(21)),
        ActiveStep::Send(request(relay_addr, 21))
    );
    assert_eq!(active.query_cycle_started, Some(at(1_000)));
}
