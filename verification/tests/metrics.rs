use amt::metrics::{
    count, extend_sample, rotation_due, AmtMetricsCounters, GatewayMetricsGauges, MetricsConfig,
    MetricsConfigError, MetricsGauges, MetricsRecorder, MetricsSnapshot, MetricsWriter,
    RelayMetricsGauges,
};
use amt::time::{Duration, Instant};
use serde_json::{Map as JsonMap, Value};

fn sample_of(previous: &MetricsSnapshot, current: &MetricsSnapshot) -> JsonMap<String, Value> {
    let mut sample = JsonMap::new();
    extend_sample(&mut sample, previous, current);
    sample
}

#[test]
fn sample_json_reports_totals_deltas_rates_and_gauges() {
    let previous = MetricsSnapshot {
        counters: AmtMetricsCounters {
            upstream_packets_received_total: 10,
            upstream_bytes_received_total: 1000,
            upstream_pmtu_feedback_sent_total: 1,
            driad_refreshes_succeeded_total: 1,
            gateway_ecn_ce_propagated_total: 2,
            ..AmtMetricsCounters::default()
        },
        gauges: MetricsGauges::Relay(RelayMetricsGauges {
            active_gateways: 1,
            active_upstream_subscriptions: 1,
            upstream_capture_sockets: 1,
        }),
    };
    let current = MetricsSnapshot {
        counters: AmtMetricsCounters {
            upstream_packets_received_total: 14,
            upstream_bytes_received_total: 1400,
            upstream_pmtu_feedback_sent_total: 3,
            driad_refreshes_succeeded_total: 3,
            gateway_ecn_ce_propagated_total: 5,
            ..AmtMetricsCounters::default()
        },
        gauges: MetricsGauges::Relay(RelayMetricsGauges {
            active_gateways: 2,
            active_upstream_subscriptions: 3,
            upstream_capture_sockets: 1,
        }),
    };

    let sample = sample_of(&previous, &current);

    assert_eq!(sample["active_gateways"], 2);
    assert_eq!(sample["active_upstream_subscriptions"], 3);
    assert_eq!(sample["upstream_capture_sockets"], 1);
    assert_eq!(sample["upstream_packets_received_total"], 14);
    assert_eq!(sample["upstream_packets_received_delta"], 4);
    assert_eq!(sample["upstream_pmtu_feedback_sent_delta"], 2);
    assert_eq!(sample["driad_refreshes_succeeded_delta"], 2);
    assert_eq!(sample["gateway_ecn_ce_propagated_delta"], 3);
}

#[test]
fn gateway_sample_reports_driad_runtime_state() {
    let previous = MetricsSnapshot {
        counters: AmtMetricsCounters {
            driad_probes_started_total: 2,
            driad_loaded_hold_downs_total: 1,
            ..AmtMetricsCounters::default()
        },
        gauges: MetricsGauges::Gateway(GatewayMetricsGauges {
            relay_connected: false,
            downstream_enabled: true,
            transparent_enabled: true,
            configured_joins: 0,
            driad_source_tunnels: 1,
            driad_active_tunnels: 0,
            driad_candidate_probes: 2,
            driad_held_down_relays: 1,
        }),
    };
    let current = MetricsSnapshot {
        counters: AmtMetricsCounters {
            driad_probes_started_total: 5,
            driad_loaded_hold_downs_total: 2,
            driad_connections_established_total: 1,
            ..AmtMetricsCounters::default()
        },
        gauges: MetricsGauges::Gateway(GatewayMetricsGauges {
            relay_connected: true,
            downstream_enabled: true,
            transparent_enabled: true,
            configured_joins: 0,
            driad_source_tunnels: 3,
            driad_active_tunnels: 2,
            driad_candidate_probes: 1,
            driad_held_down_relays: 2,
        }),
    };

    let sample = sample_of(&previous, &current);

    assert_eq!(sample["relay_connected"], 1);
    assert_eq!(sample["driad_source_tunnels"], 3);
    assert_eq!(sample["driad_active_tunnels"], 2);
    assert_eq!(sample["driad_candidate_probes"], 1);
    assert_eq!(sample["driad_held_down_relays"], 2);
    assert_eq!(sample["driad_probes_started_delta"], 3);
    assert_eq!(sample["driad_loaded_hold_downs_delta"], 1);
    assert_eq!(sample["driad_connections_established_total"], 1);
}

#[test]
fn failed_sample_write_disables_metrics() {
    let gauges = MetricsGauges::Relay(RelayMetricsGauges {
        active_gateways: 1,
        active_upstream_subscriptions: 1,
        upstream_capture_sockets: 1,
    });
    let previous = MetricsSnapshot {
        counters: AmtMetricsCounters::default(),
        gauges,
    };
    let now = Instant::at(Duration::from_secs(100));
    let mut recorder = MetricsRecorder {
        counters: AmtMetricsCounters {
            upstream_packets_received_total: 1,
            ..AmtMetricsCounters::default()
        },
        writer: Some(MetricsWriter {
            sample_interval: Duration::from_secs(60),
            next_emit_at: Instant::at(Duration::from_secs(99)),
            previous: Some(previous),
            max_file_bytes: None,
        }),
    };

    let (before, after) = recorder.maybe_emit(now, gauges).unwrap();
    assert_eq!(before, previous);
    assert_eq!(after.counters.upstream_packets_received_total, 1);
    recorder.write_failed();

    assert!(recorder.writer.is_none());
    assert!(recorder
        .maybe_emit(now.after(Duration::from_secs(600)), gauges)
        .is_none());
}

#[test]
fn rejects_node_id_path_traversal() {
    let config = MetricsConfig {
        node_id: "../outside".to_string(),
        ..MetricsConfig::default()
    };

    assert_eq!(
        config.validate().unwrap_err(),
        MetricsConfigError::InvalidNodeId
    );
}

#[test]
fn every_counter_is_reported_with_its_increase() {
    let gauges = MetricsGauges::Relay(RelayMetricsGauges {
        active_gateways: 0,
        active_upstream_subscriptions: 0,
        upstream_capture_sockets: 0,
    });
    let zero = MetricsSnapshot {
        counters: AmtMetricsCounters::default(),
        gauges,
    };
    let mut sample = JsonMap::new();
    sample.insert("kept".to_string(), Value::from(5));
    extend_sample(&mut sample, &zero, &zero);

    assert_eq!(sample["kept"], 5);
    let totals = sample.keys().filter(|name| name.ends_with("_total")).count();
    let deltas = sample.keys().filter(|name| name.ends_with("_delta")).count();
    assert_eq!(totals, 63);
    assert_eq!(deltas, 63);
    assert_eq!(sample.len(), 1 + 3 + 63 + 63);
}

#[test]
fn deltas_never_go_below_zero() {
    let later = AmtMetricsCounters {
        local_queries_sent_total: 3,
        ..AmtMetricsCounters::default()
    };
    let restarted = AmtMetricsCounters::default();
    assert_eq!(later.delta_since(&restarted).local_queries_sent_total, 3);
    assert_eq!(restarted.delta_since(&later).local_queries_sent_total, 0);
    assert_eq!(later.delta_since(&later), AmtMetricsCounters::default());
    assert_eq!(count(u64::MAX, 2), 1);
}

#[test]
fn the_first_look_only_takes_a_snapshot() {
    let config = MetricsConfig {
        output_dir: Some("/tmp".to_string()),
        ..MetricsConfig::default()
    };
    assert!(config.requested() && config.is_enabled());
    assert!(!MetricsConfig::default().is_enabled());
    let start = Instant::at(Duration::from_secs(10));
    let gauges = MetricsGauges::Gateway(GatewayMetricsGauges {
        relay_connected: false,
        downstream_enabled: false,
        transparent_enabled: false,
        configured_joins: 0,
        driad_source_tunnels: 0,
        driad_active_tunnels: 0,
        driad_candidate_probes: 0,
        driad_held_down_relays: 0,
    });
    let mut recorder = MetricsRecorder::new(&config, start, true).unwrap();
    assert!(recorder.maybe_emit(start, gauges).is_none());
    assert_eq!(recorder.next_emit_in(start), Some(Duration::from_secs(1)));
    recorder.counters_mut().local_queries_sent_total = 4;
    let later = start.after(Duration::from_secs(1));
    let (_, after) = recorder.maybe_emit(later, gauges).unwrap();
    assert_eq!(after.counters.local_queries_sent_total, 4);

    let idle = MetricsRecorder::new(&config, start, false).unwrap();
    assert_eq!(idle.next_emit_in(start), None);
}

#[test]
fn full_files_are_rotated() {
    assert!(rotation_due(Some(10), Some(10)));
    assert!(!rotation_due(Some(10), Some(9)));
    assert!(!rotation_due(Some(0), Some(9)));
    assert!(!rotation_due(None, Some(9)));
    assert!(!rotation_due(Some(10), None));
}

#[test]
fn either_daemon_reports_its_gauges() {
    let writer = MetricsWriter {
        sample_interval: Duration::from_secs(1),
        next_emit_at: Instant::at(Duration::from_secs(5)),
        previous: Some(MetricsSnapshot {
            counters: AmtMetricsCounters::default(),
            gauges: MetricsGauges::Relay(RelayMetricsGauges {
                active_gateways: 0,
                active_upstream_subscriptions: 0,
                upstream_capture_sockets: 0,
            }),
        }),
        max_file_bytes: None,
    };
    let recorder = MetricsRecorder {
        counters: AmtMetricsCounters::default(),
        writer: Some(writer),
    };
    let now = Instant::at(Duration::from_secs(5));
    let relay = RelayMetricsGauges {
        active_gateways: 2,
        active_upstream_subscriptions: 1,
        upstream_capture_sockets: 1,
    };
    let mut first = recorder;
    let (_, snapshot) = first.maybe_emit_relay(now, relay).unwrap();
    assert_eq!(snapshot.gauges, MetricsGauges::Relay(relay));
    let gateway = GatewayMetricsGauges {
        relay_connected: true,
        downstream_enabled: false,
        transparent_enabled: false,
        configured_joins: 1,
        driad_source_tunnels: 0,
        driad_active_tunnels: 0,
        driad_candidate_probes: 0,
        driad_held_down_relays: 0,
    };
    let mut second = recorder;
    let (_, snapshot) = second.maybe_emit_gateway(now, gateway).unwrap();
    assert_eq!(snapshot.gauges, MetricsGauges::Gateway(gateway));
}
