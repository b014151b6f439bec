//! What the relay and the gateway count, and when they report it.

use crate::text::same_text;
use crate::time::{Duration, Instant};
use vstd::prelude::*;

verus! {

/// The kind of report that a relay writes.
pub const AMT_RELAY_ARTIFACT_TYPE: &'static str = "amt-relay";

/// The kind of report that a gateway writes.
pub const AMT_GATEWAY_ARTIFACT_TYPE: &'static str = "amt-gateway";

/// Who writes the reports.
pub const AMT_METRICS_PRODUCER: &'static str = "amt";

/// Where and how often reports are written.
#[derive(Debug, PartialEq, Eq)]
pub struct MetricsConfig {
    pub output_dir: Option<String>,
    pub node_id: String,
    pub sample_interval: Duration,
    pub max_file_bytes: Option<u64>,
}

/// A [`MetricsConfig`] with its texts as sequences.
#[verifier::ext_equal]
pub struct MetricsModel {
    pub output_dir: Option<Seq<char>>,
    pub node_id: Seq<char>,
    pub sample_interval: Duration,
    pub max_file_bytes: Option<u64>,
}

impl View for MetricsConfig {
    type V = MetricsModel;

    open spec fn view(&self) -> MetricsModel {
        MetricsModel {
            output_dir: match self.output_dir {
                Some(dir) => Some(dir@),
                None => None,
            },
            node_id: self.node_id@,
            sample_interval: self.sample_interval,
            max_file_bytes: self.max_file_bytes,
        }
    }
}

/// Reports once a second, in files of at most 64 MiB, but nowhere.
pub open spec fn default_metrics() -> MetricsModel {
    MetricsModel {
        output_dir: None,
        node_id: "amt"@,
        sample_interval: Duration::secs_spec(1),
        max_file_bytes: Some(67_108_864),
    }
}

impl Default for MetricsConfig {
    fn default() -> (config: Self)
        ensures
            config@ == default_metrics(),
    {
        MetricsConfig {
            output_dir: None,
            node_id: "amt".to_string(),
            sample_interval: Duration::from_secs(1),
            max_file_bytes: Some(64 * 1024 * 1024),
        }
    }
}

/// Why reports cannot be written as configured.
#[derive(Debug, Clone, Copy, PartialEq, Eq, Structural)]
pub enum MetricsConfigError {
    /// The node's name does not name a single directory.
    InvalidNodeId,
}

impl MetricsConfigError {
    /// The error in words.
    pub fn message(self) -> (text: String)
        ensures
            text@ == "metrics node_id must be a non-empty path component"@,
    {
        "metrics node_id must be a non-empty path component".to_string()
    }
}

/// Whether a text names a single directory.
pub open spec fn path_component(text: Seq<char>) -> bool {
    &&& text.len() > 0
    &&& text != "."@
    &&& text != ".."@
    &&& forall|i: int|
        0 <= i < text.len() ==> #[trigger] text[i] != '/' && text[i] != '\\' && text[i] != '\0'
}

impl MetricsConfig {
    /// Whether reports are asked for.
    pub fn requested(&self) -> (b: bool)
        ensures
            b == (self.output_dir is Some && self.sample_interval.nanos > 0),
    {
        self.output_dir.is_some() && !self.sample_interval.is_zero()
    }

    /// Whether reports are written.
    pub fn is_enabled(&self) -> (b: bool)
        ensures
            b == (self.output_dir is Some && self.sample_interval.nanos > 0),
    {
        self.requested()
    }

    /// Whether the configuration can be used.
    pub fn validate(&self) -> (result: Result<(), MetricsConfigError>)
        ensures
            result == if path_component(self.node_id@) {
                Ok::<(), MetricsConfigError>(())
            } else {
                Err(MetricsConfigError::InvalidNodeId)
            },
    {
        let name: &str = self.node_id.as_str();
        let length: usize = name.unicode_len();
        if length == 0 || same_text(name, ".") || same_text(name, "..") {
            return Err(MetricsConfigError::InvalidNodeId);
        }
        let mut i: usize = 0;
        while i < length
            invariant
                length == name@.len(),
                name@ == self.node_id@,
                i <= length,
                forall|k: int|
                    0 <= k < i ==> #[trigger] name@[k] != '/' && name@[k] != '\\' && name@[k]
                        != '\0',
            decreases length - i,
        {
            let c: char = name.get_char(i);
            if c == '/' || c == '\\' || c == '\0' {
                return Err(MetricsConfigError::InvalidNodeId);
            }
            i += 1;
        }
        Ok(())
    }
}

/// Everything that is counted.
#[derive(Debug, Clone, Copy, PartialEq, Eq, Structural)]
pub struct AmtMetricsCounters {
    pub control_datagrams_received_total: u64,
    pub control_datagrams_invalid_total: u64,
    pub control_datagrams_ignored_total: u64,
    pub control_datagrams_rate_limited_total: u64,
    pub resource_limit_rejections_total: u64,
    pub control_responses_sent_total: u64,
    pub control_response_bytes_sent_total: u64,
    pub send_errors_total: u64,
    pub membership_updates_accepted_total: u64,
    pub membership_records_applied_total: u64,
    pub teardowns_accepted_total: u64,
    pub auth_rejections_total: u64,
    pub gateways_expired_total: u64,
    pub upstream_subscription_adds_total: u64,
    pub upstream_subscription_removes_total: u64,
    pub upstream_reconcile_failures_total: u64,
    pub upstream_packets_received_total: u64,
    pub upstream_bytes_received_total: u64,
    pub upstream_worker_queue_drops_total: u64,
    pub upstream_worker_failures_total: u64,
    pub upstream_packets_forwarded_total: u64,
    pub upstream_bytes_forwarded_total: u64,
    pub upstream_unmatched_packets_total: u64,
    pub upstream_forward_errors_total: u64,
    pub upstream_mtu_drops_total: u64,
    pub upstream_fragments_sent_total: u64,
    pub upstream_pmtu_feedback_sent_total: u64,
    pub upstream_pmtu_feedback_bytes_sent_total: u64,
    pub upstream_pmtu_feedback_rate_limited_total: u64,
    pub upstream_pmtu_feedback_suppressed_total: u64,
    pub upstream_pmtu_feedback_unavailable_total: u64,
    pub upstream_pmtu_feedback_errors_total: u64,
    pub relay_ecn_normal_mode_datagrams_sent_total: u64,
    pub gateway_discoveries_sent_total: u64,
    pub gateway_membership_queries_received_total: u64,
    pub gateway_membership_updates_sent_total: u64,
    pub gateway_membership_refreshes_total: u64,
    pub gateway_teardowns_sent_total: u64,
    pub driad_refreshes_started_total: u64,
    pub driad_refreshes_succeeded_total: u64,
    pub driad_refreshes_failed_total: u64,
    pub driad_candidate_changes_total: u64,
    pub driad_no_relay_withdrawals_total: u64,
    pub driad_probes_started_total: u64,
    pub driad_probe_timeouts_total: u64,
    pub driad_probe_errors_total: u64,
    pub driad_connections_established_total: u64,
    pub driad_loaded_hold_downs_total: u64,
    pub driad_no_traffic_hold_downs_total: u64,
    pub driad_query_timeouts_total: u64,
    pub multicast_data_received_total: u64,
    pub multicast_data_bytes_received_total: u64,
    pub gateway_ecn_ce_received_total: u64,
    pub gateway_ecn_ce_propagated_total: u64,
    pub gateway_ecn_currently_unused_total: u64,
    pub gateway_ecn_invalid_drops_total: u64,
    pub downstream_packets_forwarded_total: u64,
    pub downstream_bytes_forwarded_total: u64,
    pub downstream_non_multicast_packets_total: u64,
    pub downstream_forward_errors_total: u64,
    pub local_queries_sent_total: u64,
    pub local_membership_reports_total: u64,
    pub local_membership_parse_errors_total: u64,
}

/// One of two numbers less the other, or zero.
pub open spec fn less(a: u64, b: u64) -> u64 {
    if a >= b {
        (a - b) as u64
    } else {
        0
    }
}

impl Default for AmtMetricsCounters {
    /// Nothing counted.
    fn default() -> (counters: Self)
        ensures
            counters == AmtMetricsCounters::zero(),
    {
        AmtMetricsCounters {
            control_datagrams_received_total: 0,
            control_datagrams_invalid_total: 0,
            control_datagrams_ignored_total: 0,
            control_datagrams_rate_limited_total: 0,
            resource_limit_rejections_total: 0,
            control_responses_sent_total: 0,
            control_response_bytes_sent_total: 0,
            send_errors_total: 0,
            membership_updates_accepted_total: 0,
            membership_records_applied_total: 0,
            teardowns_accepted_total: 0,
            auth_rejections_total: 0,
            gateways_expired_total: 0,
            upstream_subscription_adds_total: 0,
            upstream_subscription_removes_total: 0,
            upstream_reconcile_failures_total: 0,
            upstream_packets_received_total: 0,
            upstream_bytes_received_total: 0,
            upstream_worker_queue_drops_total: 0,
            upstream_worker_failures_total: 0,
            upstream_packets_forwarded_total: 0,
            upstream_bytes_forwarded_total: 0,
            upstream_unmatched_packets_total: 0,
            upstream_forward_errors_total: 0,
            upstream_mtu_drops_total: 0,
            upstream_fragments_sent_total: 0,
            upstream_pmtu_feedback_sent_total: 0,
            upstream_pmtu_feedback_bytes_sent_total: 0,
            upstream_pmtu_feedback_rate_limited_total: 0,
            upstream_pmtu_feedback_suppressed_total: 0,
            upstream_pmtu_feedback_unavailable_total: 0,
            upstream_pmtu_feedback_errors_total: 0,
            relay_ecn_normal_mode_datagrams_sent_total: 0,
            gateway_discoveries_sent_total: 0,
            gateway_membership_queries_received_total: 0,
            gateway_membership_updates_sent_total: 0,
            gateway_membership_refreshes_total: 0,
            gateway_teardowns_sent_total: 0,
            driad_refreshes_started_total: 0,
            driad_refreshes_succeeded_total: 0,
            driad_refreshes_failed_total: 0,
            driad_candidate_changes_total: 0,
            driad_no_relay_withdrawals_total: 0,
            driad_probes_started_total: 0,
            driad_probe_timeouts_total: 0,
            driad_probe_errors_total: 0,
            driad_connections_established_total: 0,
            driad_loaded_hold_downs_total: 0,
            driad_no_traffic_hold_downs_total: 0,
            driad_query_timeouts_total: 0,
            multicast_data_received_total: 0,
            multicast_data_bytes_received_total: 0,
            gateway_ecn_ce_received_total: 0,
            gateway_ecn_ce_propagated_total: 0,
            gateway_ecn_currently_unused_total: 0,
            gateway_ecn_invalid_drops_total: 0,
            downstream_packets_forwarded_total: 0,
            downstream_bytes_forwarded_total: 0,
            downstream_non_multicast_packets_total: 0,
            downstream_forward_errors_total: 0,
            local_queries_sent_total: 0,
            local_membership_reports_total: 0,
            local_membership_parse_errors_total: 0,
        }
    }
}

/// A counter after `n` more; it starts again at zero behind its largest value.
pub open spec fn counted(counter: u64, n: int) -> u64 {
    ((counter + n) % 0x1_0000_0000_0000_0000) as u64
}

/// A counter after `n` more.
pub fn count(counter: u64, n: u64) -> (next: u64)
    ensures
        next == counted(counter, n as int),
{
    counter.wrapping_add(n)
}

impl AmtMetricsCounters {
    /// Nothing counted.
    pub open spec fn zero() -> Self {
        AmtMetricsCounters {
            control_datagrams_received_total: 0,
            control_datagrams_invalid_total: 0,
            control_datagrams_ignored_total: 0,
            control_datagrams_rate_limited_total: 0,
            resource_limit_rejections_total: 0,
            control_responses_sent_total: 0,
            control_response_bytes_sent_total: 0,
            send_errors_total: 0,
            membership_updates_accepted_total: 0,
            membership_records_applied_total: 0,
            teardowns_accepted_total: 0,
            auth_rejections_total: 0,
            gateways_expired_total: 0,
            upstream_subscription_adds_total: 0,
            upstream_subscription_removes_total: 0,
            upstream_reconcile_failures_total: 0,
            upstream_packets_received_total: 0,
            upstream_bytes_received_total: 0,
            upstream_worker_queue_drops_total: 0,
            upstream_worker_failures_total: 0,
            upstream_packets_forwarded_total: 0,
            upstream_bytes_forwarded_total: 0,
            upstream_unmatched_packets_total: 0,
            upstream_forward_errors_total: 0,
            upstream_mtu_drops_total: 0,
            upstream_fragments_sent_total: 0,
            upstream_pmtu_feedback_sent_total: 0,
            upstream_pmtu_feedback_bytes_sent_total: 0,
            upstream_pmtu_feedback_rate_limited_total: 0,
            upstream_pmtu_feedback_suppressed_total: 0,
            upstream_pmtu_feedback_unavailable_total: 0,
            upstream_pmtu_feedback_errors_total: 0,
            relay_ecn_normal_mode_datagrams_sent_total: 0,
            gateway_discoveries_sent_total: 0,
            gateway_membership_queries_received_total: 0,
            gateway_membership_updates_sent_total: 0,
            gateway_membership_refreshes_total: 0,
            gateway_teardowns_sent_total: 0,
            driad_refreshes_started_total: 0,
            driad_refreshes_succeeded_total: 0,
            driad_refreshes_failed_total: 0,
            driad_candidate_changes_total: 0,
            driad_no_relay_withdrawals_total: 0,
            driad_probes_started_total: 0,
            driad_probe_timeouts_total: 0,
            driad_probe_errors_total: 0,
            driad_connections_established_total: 0,
            driad_loaded_hold_downs_total: 0,
            driad_no_traffic_hold_downs_total: 0,
            driad_query_timeouts_total: 0,
            multicast_data_received_total: 0,
            multicast_data_bytes_received_total: 0,
            gateway_ecn_ce_received_total: 0,
            gateway_ecn_ce_propagated_total: 0,
            gateway_ecn_currently_unused_total: 0,
            gateway_ecn_invalid_drops_total: 0,
            downstream_packets_forwarded_total: 0,
            downstream_bytes_forwarded_total: 0,
            downstream_non_multicast_packets_total: 0,
            downstream_forward_errors_total: 0,
            local_queries_sent_total: 0,
            local_membership_reports_total: 0,
            local_membership_parse_errors_total: 0,
        }
    }

    /// All counters in the order in which they are reported.
    pub open spec fn values(self) -> Seq<u64> {
        seq![
            self.control_datagrams_received_total,
            self.control_datagrams_invalid_total,
            self.control_datagrams_ignored_total,
            self.control_datagrams_rate_limited_total,
            self.resource_limit_rejections_total,
            self.control_responses_sent_total,
            self.control_response_bytes_sent_total,
            self.send_errors_total,
            self.membership_updates_accepted_total,
            self.membership_records_applied_total,
            self.teardowns_accepted_total,
            self.auth_rejections_total,
            self.gateways_expired_total,
            self.upstream_subscription_adds_total,
            self.upstream_subscription_removes_total,
            self.upstream_reconcile_failures_total,
            self.upstream_packets_received_total,
            self.upstream_bytes_received_total,
            self.upstream_worker_queue_drops_total,
            self.upstream_worker_failures_total,
            self.upstream_packets_forwarded_total,
            self.upstream_bytes_forwarded_total,
            self.upstream_unmatched_packets_total,
            self.upstream_forward_errors_total,
            self.upstream_mtu_drops_total,
            self.upstream_fragments_sent_total,
            self.upstream_pmtu_feedback_sent_total,
            self.upstream_pmtu_feedback_bytes_sent_total,
            self.upstream_pmtu_feedback_rate_limited_total,
            self.upstream_pmtu_feedback_suppressed_total,
            self.upstream_pmtu_feedback_unavailable_total,
            self.upstream_pmtu_feedback_errors_total,
            self.relay_ecn_normal_mode_datagrams_sent_total,
            self.gateway_discoveries_sent_total,
            self.gateway_membership_queries_received_total,
            self.gateway_membership_updates_sent_total,
            self.gateway_membership_refreshes_total,
            self.gateway_teardowns_sent_total,
            self.driad_refreshes_started_total,
            self.driad_refreshes_succeeded_total,
            self.driad_refreshes_failed_total,
            self.driad_candidate_changes_total,
            self.driad_no_relay_withdrawals_total,
            self.driad_probes_started_total,
            self.driad_probe_timeouts_total,
            self.driad_probe_errors_total,
            self.driad_connections_established_total,
            self.driad_loaded_hold_downs_total,
            self.driad_no_traffic_hold_downs_total,
            self.driad_query_timeouts_total,
            self.multicast_data_received_total,
            self.multicast_data_bytes_received_total,
            self.gateway_ecn_ce_received_total,
            self.gateway_ecn_ce_propagated_total,
            self.gateway_ecn_currently_unused_total,
            self.gateway_ecn_invalid_drops_total,
            self.downstream_packets_forwarded_total,
            self.downstream_bytes_forwarded_total,
            self.downstream_non_multicast_packets_total,
            self.downstream_forward_errors_total,
            self.local_queries_sent_total,
            self.local_membership_reports_total,
            self.local_membership_parse_errors_total,
        ]
    }

    /// What was counted since an earlier state, counter by counter.
    pub open spec fn since(self, earlier: Self) -> Self {
        AmtMetricsCounters {
            control_datagrams_received_total: less(
                self.control_datagrams_received_total,
                earlier.control_datagrams_received_total,
            ),
            control_datagrams_invalid_total: less(
                self.control_datagrams_invalid_total,
                earlier.control_datagrams_invalid_total,
            ),
            control_datagrams_ignored_total: less(
                self.control_datagrams_ignored_total,
                earlier.control_datagrams_ignored_total,
            ),
            control_datagrams_rate_limited_total: less(
                self.control_datagrams_rate_limited_total,
                earlier.control_datagrams_rate_limited_total,
            ),
            resource_limit_rejections_total: less(
                self.resource_limit_rejections_total,
                earlier.resource_limit_rejections_total,
            ),
            control_responses_sent_total: less(
                self.control_responses_sent_total,
                earlier.control_responses_sent_total,
            ),
            control_response_bytes_sent_total: less(
                self.control_response_bytes_sent_total,
                earlier.control_response_bytes_sent_total,
            ),
            send_errors_total: less(
                self.send_errors_total,
                earlier.send_errors_total,
            ),
            membership_updates_accepted_total: less(
                self.membership_updates_accepted_total,
                earlier.membership_updates_accepted_total,
            ),
            membership_records_applied_total: less(
                self.membership_records_applied_total,
                earlier.membership_records_applied_total,
            ),
            teardowns_accepted_total: less(
                self.teardowns_accepted_total,
                earlier.teardowns_accepted_total,
            ),
            auth_rejections_total: less(
                self.auth_rejections_total,
                earlier.auth_rejections_total,
            ),
            gateways_expired_total: less(
                self.gateways_expired_total,
                earlier.gateways_expired_total,
            ),
            upstream_subscription_adds_total: less(
                self.upstream_subscription_adds_total,
                earlier.upstream_subscription_adds_total,
            ),
            upstream_subscription_removes_total: less(
                self.upstream_subscription_removes_total,
                earlier.upstream_subscription_removes_total,
            ),
            upstream_reconcile_failures_total: less(
                self.upstream_reconcile_failures_total,
                earlier.upstream_reconcile_failures_total,
            ),
            upstream_packets_received_total: less(
                self.upstream_packets_received_total,
                earlier.upstream_packets_received_total,
            ),
            upstream_bytes_received_total: less(
                self.upstream_bytes_received_total,
                earlier.upstream_bytes_received_total,
            ),
            upstream_worker_queue_drops_total: less(
                self.upstream_worker_queue_drops_total,
                earlier.upstream_worker_queue_drops_total,
            ),
            upstream_worker_failures_total: less(
                self.upstream_worker_failures_total,
                earlier.upstream_worker_failures_total,
            ),
            upstream_packets_forwarded_total: less(
                self.upstream_packets_forwarded_total,
                earlier.upstream_packets_forwarded_total,
            ),
            upstream_bytes_forwarded_total: less(
                self.upstream_bytes_forwarded_total,
                earlier.upstream_bytes_forwarded_total,
            ),
            upstream_unmatched_packets_total: less(
                self.upstream_unmatched_packets_total,
                earlier.upstream_unmatched_packets_total,
            ),
            upstream_forward_errors_total: less(
                self.upstream_forward_errors_total,
                earlier.upstream_forward_errors_total,
            ),
            upstream_mtu_drops_total: less(
                self.upstream_mtu_drops_total,
                earlier.upstream_mtu_drops_total,
            ),
            upstream_fragments_sent_total: less(
                self.upstream_fragments_sent_total,
                earlier.upstream_fragments_sent_total,
            ),
            upstream_pmtu_feedback_sent_total: less(
                self.upstream_pmtu_feedback_sent_total,
                earlier.upstream_pmtu_feedback_sent_total,
            ),
            upstream_pmtu_feedback_bytes_sent_total: less(
                self.upstream_pmtu_feedback_bytes_sent_total,
                earlier.upstream_pmtu_feedback_bytes_sent_total,
            ),
            upstream_pmtu_feedback_rate_limited_total: less(
                self.upstream_pmtu_feedback_rate_limited_total,
                earlier.upstream_pmtu_feedback_rate_limited_total,
            ),
            upstream_pmtu_feedback_suppressed_total: less(
                self.upstream_pmtu_feedback_suppressed_total,
                earlier.upstream_pmtu_feedback_suppressed_total,
            ),
            upstream_pmtu_feedback_unavailable_total: less(
                self.upstream_pmtu_feedback_unavailable_total,
                earlier.upstream_pmtu_feedback_unavailable_total,
            ),
            upstream_pmtu_feedback_errors_total: less(
                self.upstream_pmtu_feedback_errors_total,
                earlier.upstream_pmtu_feedback_errors_total,
            ),
            relay_ecn_normal_mode_datagrams_sent_total: less(
                self.relay_ecn_normal_mode_datagrams_sent_total,
                earlier.relay_ecn_normal_mode_datagrams_sent_total,
            ),
            gateway_discoveries_sent_total: less(
                self.gateway_discoveries_sent_total,
                earlier.gateway_discoveries_sent_total,
            ),
            gateway_membership_queries_received_total: less(
                self.gateway_membership_queries_received_total,
                earlier.gateway_membership_queries_received_total,
            ),
            gateway_membership_updates_sent_total: less(
                self.gateway_membership_updates_sent_total,
                earlier.gateway_membership_updates_sent_total,
            ),
            gateway_membership_refreshes_total: less(
                self.gateway_membership_refreshes_total,
                earlier.gateway_membership_refreshes_total,
            ),
            gateway_teardowns_sent_total: less(
                self.gateway_teardowns_sent_total,
                earlier.gateway_teardowns_sent_total,
            ),
            driad_refreshes_started_total: less(
                self.driad_refreshes_started_total,
                earlier.driad_refreshes_started_total,
            ),
            driad_refreshes_succeeded_total: less(
                self.driad_refreshes_succeeded_total,
                earlier.driad_refreshes_succeeded_total,
            ),
            driad_refreshes_failed_total: less(
                self.driad_refreshes_failed_total,
                earlier.driad_refreshes_failed_total,
            ),
            driad_candidate_changes_total: less(
                self.driad_candidate_changes_total,
                earlier.driad_candidate_changes_total,
            ),
            driad_no_relay_withdrawals_total: less(
                self.driad_no_relay_withdrawals_total,
                earlier.driad_no_relay_withdrawals_total,
            ),
            driad_probes_started_total: less(
                self.driad_probes_started_total,
                earlier.driad_probes_started_total,
            ),
            driad_probe_timeouts_total: less(
                self.driad_probe_timeouts_total,
                earlier.driad_probe_timeouts_total,
            ),
            driad_probe_errors_total: less(
                self.driad_probe_errors_total,
                earlier.driad_probe_errors_total,
            ),
            driad_connections_established_total: less(
                self.driad_connections_established_total,
                earlier.driad_connections_established_total,
            ),
            driad_loaded_hold_downs_total: less(
                self.driad_loaded_hold_downs_total,
                earlier.driad_loaded_hold_downs_total,
            ),
            driad_no_traffic_hold_downs_total: less(
                self.driad_no_traffic_hold_downs_total,
                earlier.driad_no_traffic_hold_downs_total,
            ),
            driad_query_timeouts_total: less(
                self.driad_query_timeouts_total,
                earlier.driad_query_timeouts_total,
            ),
            multicast_data_received_total: less(
                self.multicast_data_received_total,
                earlier.multicast_data_received_total,
            ),
            multicast_data_bytes_received_total: less(
                self.multicast_data_bytes_received_total,
                earlier.multicast_data_bytes_received_total,
            ),
            gateway_ecn_ce_received_total: less(
                self.gateway_ecn_ce_received_total,
                earlier.gateway_ecn_ce_received_total,
            ),
            gateway_ecn_ce_propagated_total: less(
                self.gateway_ecn_ce_propagated_total,
                earlier.gateway_ecn_ce_propagated_total,
            ),
            gateway_ecn_currently_unused_total: less(
                self.gateway_ecn_currently_unused_total,
                earlier.gateway_ecn_currently_unused_total,
            ),
            gateway_ecn_invalid_drops_total: less(
                self.gateway_ecn_invalid_drops_total,
                earlier.gateway_ecn_invalid_drops_total,
            ),
            downstream_packets_forwarded_total: less(
                self.downstream_packets_forwarded_total,
                earlier.downstream_packets_forwarded_total,
            ),
            downstream_bytes_forwarded_total: less(
                self.downstream_bytes_forwarded_total,
                earlier.downstream_bytes_forwarded_total,
            ),
            downstream_non_multicast_packets_total: less(
                self.downstream_non_multicast_packets_total,
                earlier.downstream_non_multicast_packets_total,
            ),
            downstream_forward_errors_total: less(
                self.downstream_forward_errors_total,
                earlier.downstream_forward_errors_total,
            ),
            local_queries_sent_total: less(
                self.local_queries_sent_total,
                earlier.local_queries_sent_total,
            ),
            local_membership_reports_total: less(
                self.local_membership_reports_total,
                earlier.local_membership_reports_total,
            ),
            local_membership_parse_errors_total: less(
                self.local_membership_parse_errors_total,
                earlier.local_membership_parse_errors_total,
            ),
        }
    }

    /// What was counted since an earlier state.
    pub fn delta_since(&self, earlier: &Self) -> (delta: Self)
        ensures
            delta == self.since(*earlier),
    {
        AmtMetricsCounters {
            control_datagrams_received_total: self.control_datagrams_received_total.saturating_sub(
                earlier.control_datagrams_received_total,
            ),
            control_datagrams_invalid_total: self.control_datagrams_invalid_total.saturating_sub(
                earlier.control_datagrams_invalid_total,
            ),
            control_datagrams_ignored_total: self.control_datagrams_ignored_total.saturating_sub(
                earlier.control_datagrams_ignored_total,
            ),
            control_datagrams_rate_limited_total: self.control_datagrams_rate_limited_total.saturating_sub(
                earlier.control_datagrams_rate_limited_total,
            ),
            resource_limit_rejections_total: self.resource_limit_rejections_total.saturating_sub(
                earlier.resource_limit_rejections_total,
            ),
            control_responses_sent_total: self.control_responses_sent_total.saturating_sub(
                earlier.control_responses_sent_total,
            ),
            control_response_bytes_sent_total: self.control_response_bytes_sent_total.saturating_sub(
                earlier.control_response_bytes_sent_total,
            ),
            send_errors_total: self.send_errors_total.saturating_sub(
                earlier.send_errors_total,
            ),
            membership_updates_accepted_total: self.membership_updates_accepted_total.saturating_sub(
                earlier.membership_updates_accepted_total,
            ),
            membership_records_applied_total: self.membership_records_applied_total.saturating_sub(
                earlier.membership_records_applied_total,
            ),
            teardowns_accepted_total: self.teardowns_accepted_total.saturating_sub(
                earlier.teardowns_accepted_total,
            ),
            auth_rejections_total: self.auth_rejections_total.saturating_sub(
                earlier.auth_rejections_total,
            ),
            gateways_expired_total: self.gateways_expired_total.saturating_sub(
                earlier.gateways_expired_total,
            ),
            upstream_subscription_adds_total: self.upstream_subscription_adds_total.saturating_sub(
                earlier.upstream_subscription_adds_total,
            ),
            upstream_subscription_removes_total: self.upstream_subscription_removes_total.saturating_sub(
                earlier.upstream_subscription_removes_total,
            ),
            upstream_reconcile_failures_total: self.upstream_reconcile_failures_total.saturating_sub(
                earlier.upstream_reconcile_failures_total,
            ),
            upstream_packets_received_total: self.upstream_packets_received_total.saturating_sub(
                earlier.upstream_packets_received_total,
            ),
            upstream_bytes_received_total: self.upstream_bytes_received_total.saturating_sub(
                earlier.upstream_bytes_received_total,
            ),
            upstream_worker_queue_drops_total: self.upstream_worker_queue_drops_total.saturating_sub(
                earlier.upstream_worker_queue_drops_total,
            ),
            upstream_worker_failures_total: self.upstream_worker_failures_total.saturating_sub(
                earlier.upstream_worker_failures_total,
            ),
            upstream_packets_forwarded_total: self.upstream_packets_forwarded_total.saturating_sub(
                earlier.upstream_packets_forwarded_total,
            ),
            upstream_bytes_forwarded_total: self.upstream_bytes_forwarded_total.saturating_sub(
                earlier.upstream_bytes_forwarded_total,
            ),
            upstream_unmatched_packets_total: self.upstream_unmatched_packets_total.saturating_sub(
                earlier.upstream_unmatched_packets_total,
            ),
            upstream_forward_errors_total: self.upstream_forward_errors_total.saturating_sub(
                earlier.upstream_forward_errors_total,
            ),
            upstream_mtu_drops_total: self.upstream_mtu_drops_total.saturating_sub(
                earlier.upstream_mtu_drops_total,
            ),
            upstream_fragments_sent_total: self.upstream_fragments_sent_total.saturating_sub(
                earlier.upstream_fragments_sent_total,
            ),
            upstream_pmtu_feedback_sent_total: self.upstream_pmtu_feedback_sent_total.saturating_sub(
                earlier.upstream_pmtu_feedback_sent_total,
            ),
            upstream_pmtu_feedback_bytes_sent_total: self.upstream_pmtu_feedback_bytes_sent_total.saturating_sub(
                earlier.upstream_pmtu_feedback_bytes_sent_total,
            ),
            upstream_pmtu_feedback_rate_limited_total: self.upstream_pmtu_feedback_rate_limited_total.saturating_sub(
                earlier.upstream_pmtu_feedback_rate_limited_total,
            ),
            upstream_pmtu_feedback_suppressed_total: self.upstream_pmtu_feedback_suppressed_total.saturating_sub(
                earlier.upstream_pmtu_feedback_suppressed_total,
            ),
            upstream_pmtu_feedback_unavailable_total: self.upstream_pmtu_feedback_unavailable_total.saturating_sub(
                earlier.upstream_pmtu_feedback_unavailable_total,
            ),
            upstream_pmtu_feedback_errors_total: self.upstream_pmtu_feedback_errors_total.saturating_sub(
                earlier.upstream_pmtu_feedback_errors_total,
            ),
            relay_ecn_normal_mode_datagrams_sent_total: self.relay_ecn_normal_mode_datagrams_sent_total.saturating_sub(
                earlier.relay_ecn_normal_mode_datagrams_sent_total,
            ),
            gateway_discoveries_sent_total: self.gateway_discoveries_sent_total.saturating_sub(
                earlier.gateway_discoveries_sent_total,
            ),
            gateway_membership_queries_received_total: self.gateway_membership_queries_received_total.saturating_sub(
                earlier.gateway_membership_queries_received_total,
            ),
            gateway_membership_updates_sent_total: self.gateway_membership_updates_sent_total.saturating_sub(
                earlier.gateway_membership_updates_sent_total,
            ),
            gateway_membership_refreshes_total: self.gateway_membership_refreshes_total.saturating_sub(
                earlier.gateway_membership_refreshes_total,
            ),
            gateway_teardowns_sent_total: self.gateway_teardowns_sent_total.saturating_sub(
                earlier.gateway_teardowns_sent_total,
            ),
            driad_refreshes_started_total: self.driad_refreshes_started_total.saturating_sub(
                earlier.driad_refreshes_started_total,
            ),
            driad_refreshes_succeeded_total: self.driad_refreshes_succeeded_total.saturating_sub(
                earlier.driad_refreshes_succeeded_total,
            ),
            driad_refreshes_failed_total: self.driad_refreshes_failed_total.saturating_sub(
                earlier.driad_refreshes_failed_total,
            ),
            driad_candidate_changes_total: self.driad_candidate_changes_total.saturating_sub(
                earlier.driad_candidate_changes_total,
            ),
            driad_no_relay_withdrawals_total: self.driad_no_relay_withdrawals_total.saturating_sub(
                earlier.driad_no_relay_withdrawals_total,
            ),
            driad_probes_started_total: self.driad_probes_started_total.saturating_sub(
                earlier.driad_probes_started_total,
            ),
            driad_probe_timeouts_total: self.driad_probe_timeouts_total.saturating_sub(
                earlier.driad_probe_timeouts_total,
            ),
            driad_probe_errors_total: self.driad_probe_errors_total.saturating_sub(
                earlier.driad_probe_errors_total,
            ),
            driad_connections_established_total: self.driad_connections_established_total.saturating_sub(
                earlier.driad_connections_established_total,
            ),
            driad_loaded_hold_downs_total: self.driad_loaded_hold_downs_total.saturating_sub(
                earlier.driad_loaded_hold_downs_total,
            ),
            driad_no_traffic_hold_downs_total: self.driad_no_traffic_hold_downs_total.saturating_sub(
                earlier.driad_no_traffic_hold_downs_total,
            ),
            driad_query_timeouts_total: self.driad_query_timeouts_total.saturating_sub(
                earlier.driad_query_timeouts_total,
            ),
            multicast_data_received_total: self.multicast_data_received_total.saturating_sub(
                earlier.multicast_data_received_total,
            ),
            multicast_data_bytes_received_total: self.multicast_data_bytes_received_total.saturating_sub(
                earlier.multicast_data_bytes_received_total,
            ),
            gateway_ecn_ce_received_total: self.gateway_ecn_ce_received_total.saturating_sub(
                earlier.gateway_ecn_ce_received_total,
            ),
            gateway_ecn_ce_propagated_total: self.gateway_ecn_ce_propagated_total.saturating_sub(
                earlier.gateway_ecn_ce_propagated_total,
            ),
            gateway_ecn_currently_unused_total: self.gateway_ecn_currently_unused_total.saturating_sub(
                earlier.gateway_ecn_currently_unused_total,
            ),
            gateway_ecn_invalid_drops_total: self.gateway_ecn_invalid_drops_total.saturating_sub(
                earlier.gateway_ecn_invalid_drops_total,
            ),
            downstream_packets_forwarded_total: self.downstream_packets_forwarded_total.saturating_sub(
                earlier.downstream_packets_forwarded_total,
            ),
            downstream_bytes_forwarded_total: self.downstream_bytes_forwarded_total.saturating_sub(
                earlier.downstream_bytes_forwarded_total,
            ),
            downstream_non_multicast_packets_total: self.downstream_non_multicast_packets_total.saturating_sub(
                earlier.downstream_non_multicast_packets_total,
            ),
            downstream_forward_errors_total: self.downstream_forward_errors_total.saturating_sub(
                earlier.downstream_forward_errors_total,
            ),
            local_queries_sent_total: self.local_queries_sent_total.saturating_sub(
                earlier.local_queries_sent_total,
            ),
            local_membership_reports_total: self.local_membership_reports_total.saturating_sub(
                earlier.local_membership_reports_total,
            ),
            local_membership_parse_errors_total: self.local_membership_parse_errors_total.saturating_sub(
                earlier.local_membership_parse_errors_total,
            ),
        }
    }
}

/// Nothing is new since the same state, and everything is new since the start.
pub proof fn law_deltas_start_at_zero(counters: AmtMetricsCounters)
    ensures
        counters.since(counters) == AmtMetricsCounters::zero(),
        counters.since(AmtMetricsCounters::zero()) == counters,
{
}

/// The names under which the counters are reported, in order.
pub open spec fn counter_names() -> Seq<Seq<char>> {
    seq![
        "control_datagrams_received"@,
        "control_datagrams_invalid"@,
        "control_datagrams_ignored"@,
        "control_datagrams_rate_limited"@,
        "resource_limit_rejections"@,
        "control_responses_sent"@,
        "control_response_bytes_sent"@,
        "send_errors"@,
        "membership_updates_accepted"@,
        "membership_records_applied"@,
        "teardowns_accepted"@,
        "auth_rejections"@,
        "gateways_expired"@,
        "upstream_subscription_adds"@,
        "upstream_subscription_removes"@,
        "upstream_reconcile_failures"@,
        "upstream_packets_received"@,
        "upstream_bytes_received"@,
        "upstream_worker_queue_drops"@,
        "upstream_worker_failures"@,
        "upstream_packets_forwarded"@,
        "upstream_bytes_forwarded"@,
        "upstream_unmatched_packets"@,
        "upstream_forward_errors"@,
        "upstream_mtu_drops"@,
        "upstream_fragments_sent"@,
        "upstream_pmtu_feedback_sent"@,
        "upstream_pmtu_feedback_bytes_sent"@,
        "upstream_pmtu_feedback_rate_limited"@,
        "upstream_pmtu_feedback_suppressed"@,
        "upstream_pmtu_feedback_unavailable"@,
        "upstream_pmtu_feedback_errors"@,
        "relay_ecn_normal_mode_datagrams_sent"@,
        "gateway_discoveries_sent"@,
        "gateway_membership_queries_received"@,
        "gateway_membership_updates_sent"@,
        "gateway_membership_refreshes"@,
        "gateway_teardowns_sent"@,
        "driad_refreshes_started"@,
        "driad_refreshes_succeeded"@,
        "driad_refreshes_failed"@,
        "driad_candidate_changes"@,
        "driad_no_relay_withdrawals"@,
        "driad_probes_started"@,
        "driad_probe_timeouts"@,
        "driad_probe_errors"@,
        "driad_connections_established"@,
        "driad_loaded_hold_downs"@,
        "driad_no_traffic_hold_downs"@,
        "driad_query_timeouts"@,
        "multicast_data_received"@,
        "multicast_data_bytes_received"@,
        "gateway_ecn_ce_received"@,
        "gateway_ecn_ce_propagated"@,
        "gateway_ecn_currently_unused"@,
        "gateway_ecn_invalid_drops"@,
        "downstream_packets_forwarded"@,
        "downstream_bytes_forwarded"@,
        "downstream_non_multicast_packets"@,
        "downstream_forward_errors"@,
        "local_queries_sent"@,
        "local_membership_reports"@,
        "local_membership_parse_errors"@,
    ]
}

/// What is known of a relay at one moment.
#[derive(Debug, Clone, Copy, PartialEq, Eq, Structural)]
pub struct RelayMetricsGauges {
    pub active_gateways: u64,
    pub active_upstream_subscriptions: u64,
    pub upstream_capture_sockets: u64,
}

/// What is known of a gateway at one moment.
#[derive(Debug, Clone, Copy, PartialEq, Eq, Structural)]
pub struct GatewayMetricsGauges {
    pub relay_connected: bool,
    pub downstream_enabled: bool,
    pub transparent_enabled: bool,
    pub configured_joins: u64,
    pub driad_source_tunnels: u64,
    pub driad_active_tunnels: u64,
    pub driad_candidate_probes: u64,
    pub driad_held_down_relays: u64,
}

/// What is known at one moment.
#[derive(Debug, Clone, Copy, PartialEq, Eq, Structural)]
pub enum MetricsGauges {
    Relay(RelayMetricsGauges),
    Gateway(GatewayMetricsGauges),
}

/// `serde_json::Map`: the members of a JSON object.
#[verifier::external_type_specification]
#[verifier::external_body]
#[verifier::reject_recursive_types(K)]
#[verifier::reject_recursive_types(V)]
pub struct ExJsonMap<K, V>(serde_json::Map<K, V>);

/// `serde_json::Value`: a JSON value.
#[verifier::external_type_specification]
#[verifier::external_body]
pub struct ExJsonValue(serde_json::Value);

/// The value of a member of a JSON object, as far as reports hold such.
#[derive(Debug, PartialEq, Eq)]
pub enum JsonMember {
    Count(u64),
    Flag(bool),
    Text(String),
}

/// A [`JsonMember`] with its text as a sequence.
pub enum MemberModel {
    Count(u64),
    Flag(bool),
    Text(Seq<char>),
}

/// Members of a JSON object by their names.
pub type MembersModel = Map<Seq<char>, MemberModel>;

impl View for JsonMember {
    type V = MemberModel;

    open spec fn view(&self) -> MemberModel {
        match *self {
            JsonMember::Count(n) => MemberModel::Count(n),
            JsonMember::Flag(b) => MemberModel::Flag(b),
            JsonMember::Text(text) => MemberModel::Text(text@),
        }
    }
}

/// The members of a JSON object whose value is a truth value, a text, or a whole
/// number that 64 bits hold without a sign, by their names.
pub uninterp spec fn members_in(
    sample: serde_json::Map<String, serde_json::Value>,
) -> Map<Seq<char>, MemberModel>;

/// `serde_json::Map::insert` puts a member under a name, in place of one that
/// the name already has, and leaves the other members as they are.
#[verifier::external_body]
fn insert_member(
    sample: &mut serde_json::Map<String, serde_json::Value>,
    name: String,
    value: JsonMember,
)
    ensures
        members_in(*final(sample)) == members_in(*old(sample)).insert(name@, value@),
{
    let value = match value {
        JsonMember::Count(n) => serde_json::Value::from(n),
        JsonMember::Flag(b) => serde_json::Value::from(b),
        JsonMember::Text(text) => serde_json::Value::from(text),
    };
    sample.insert(name, value);
}

/// Puts a number under a name.
pub fn insert_count(
    sample: &mut serde_json::Map<String, serde_json::Value>,
    name: String,
    value: u64,
)
    ensures
        members_in(*final(sample)) == members_in(*old(sample)).insert(
            name@,
            MemberModel::Count(value),
        ),
{
    insert_member(sample, name, JsonMember::Count(value));
}

/// Puts a truth value under a name.
pub fn insert_flag(
    sample: &mut serde_json::Map<String, serde_json::Value>,
    name: String,
    value: bool,
)
    ensures
        members_in(*final(sample)) == members_in(*old(sample)).insert(
            name@,
            MemberModel::Flag(value),
        ),
{
    insert_member(sample, name, JsonMember::Flag(value));
}

/// Puts a text under a name.
pub fn insert_text(
    sample: &mut serde_json::Map<String, serde_json::Value>,
    name: String,
    value: String,
)
    ensures
        members_in(*final(sample)) == members_in(*old(sample)).insert(
            name@,
            MemberModel::Text(value@),
        ),
{
    insert_member(sample, name, JsonMember::Text(value));
}

/// The members that report a counter, added to others: its total, and how much
/// of it is new.
pub open spec fn counter_reported(
    members: MembersModel,
    name: Seq<char>,
    total: u64,
    delta: u64,
) -> MembersModel {
    members.insert(name + "_total"@, MemberModel::Count(total)).insert(
        name + "_delta"@,
        MemberModel::Count(delta),
    )
}

/// The members that report the first `n` counters, added to others.
pub open spec fn counters_reported(
    members: MembersModel,
    total: AmtMetricsCounters,
    delta: AmtMetricsCounters,
    n: nat,
) -> MembersModel
    decreases n,
{
    if n == 0 {
        members
    } else {
        counter_reported(
            counters_reported(members, total, delta, (n - 1) as nat),
            counter_names()[n - 1],
            total.values()[n - 1],
            delta.values()[n - 1],
        )
    }
}

/// Reports one counter.
pub fn counter(
    sample: &mut serde_json::Map<String, serde_json::Value>,
    name: &str,
    total: u64,
    delta: u64,
)
    ensures
        members_in(*final(sample)) == counter_reported(
            members_in(*old(sample)),
            name@,
            total,
            delta,
        ),
{
    insert_count(sample, name.to_owned().concat("_total"), total);
    insert_count(sample, name.to_owned().concat("_delta"), delta);
}

/// Reports the counter of the given place.
fn extend_counter(
    sample: &mut serde_json::Map<String, serde_json::Value>,
    total: &AmtMetricsCounters,
    delta: &AmtMetricsCounters,
    place: usize,
)
    requires
        place < total.values().len(),
    ensures
        members_in(*final(sample)) == counter_reported(
            members_in(*old(sample)),
            counter_names()[place as int],
            total.values()[place as int],
            delta.values()[place as int],
        ),
{
    let (name, whole, new) = counter_row(total, delta, place);
    counter(sample, name, whole, new);
}

/// The name, the total and what is new of the counter of the given place.
pub fn counter_row(total: &AmtMetricsCounters, delta: &AmtMetricsCounters, place: usize) -> (row: (
    &'static str,
    u64,
    u64,
))
    requires
        place < total.values().len(),
    ensures
        row.0@ == counter_names()[place as int],
        row.1 == total.values()[place as int],
        row.2 == delta.values()[place as int],
{
    match place {
        0 => (
            "control_datagrams_received",
            total.control_datagrams_received_total,
            delta.control_datagrams_received_total,
        ),
        1 => (
            "control_datagrams_invalid",
            total.control_datagrams_invalid_total,
            delta.control_datagrams_invalid_total,
        ),
        2 => (
            "control_datagrams_ignored",
            total.control_datagrams_ignored_total,
            delta.control_datagrams_ignored_total,
        ),
        3 => (
            "control_datagrams_rate_limited",
            total.control_datagrams_rate_limited_total,
            delta.control_datagrams_rate_limited_total,
        ),
        4 => (
            "resource_limit_rejections",
            total.resource_limit_rejections_total,
            delta.resource_limit_rejections_total,
        ),
        5 => (
            "control_responses_sent",
            total.control_responses_sent_total,
            delta.control_responses_sent_total,
        ),
        6 => (
            "control_response_bytes_sent",
            total.control_response_bytes_sent_total,
            delta.control_response_bytes_sent_total,
        ),
        7 => (
            "send_errors",
            total.send_errors_total,
            delta.send_errors_total,
        ),
        8 => (
            "membership_updates_accepted",
            total.membership_updates_accepted_total,
            delta.membership_updates_accepted_total,
        ),
        9 => (
            "membership_records_applied",
            total.membership_records_applied_total,
            delta.membership_records_applied_total,
        ),
        10 => (
            "teardowns_accepted",
            total.teardowns_accepted_total,
            delta.teardowns_accepted_total,
        ),
        11 => (
            "auth_rejections",
            total.auth_rejections_total,
            delta.auth_rejections_total,
        ),
        12 => (
            "gateways_expired",
            total.gateways_expired_total,
            delta.gateways_expired_total,
        ),
        13 => (
            "upstream_subscription_adds",
            total.upstream_subscription_adds_total,
            delta.upstream_subscription_adds_total,
        ),
        14 => (
            "upstream_subscription_removes",
            total.upstream_subscription_removes_total,
            delta.upstream_subscription_removes_total,
        ),
        15 => (
            "upstream_reconcile_failures",
            total.upstream_reconcile_failures_total,
            delta.upstream_reconcile_failures_total,
        ),
        16 => (
            "upstream_packets_received",
            total.upstream_packets_received_total,
            delta.upstream_packets_received_total,
        ),
        17 => (
            "upstream_bytes_received",
            total.upstream_bytes_received_total,
            delta.upstream_bytes_received_total,
        ),
        18 => (
            "upstream_worker_queue_drops",
            total.upstream_worker_queue_drops_total,
            delta.upstream_worker_queue_drops_total,
        ),
        19 => (
            "upstream_worker_failures",
            total.upstream_worker_failures_total,
            delta.upstream_worker_failures_total,
        ),
        20 => (
            "upstream_packets_forwarded",
            total.upstream_packets_forwarded_total,
            delta.upstream_packets_forwarded_total,
        ),
        21 => (
            "upstream_bytes_forwarded",
            total.upstream_bytes_forwarded_total,
            delta.upstream_bytes_forwarded_total,
        ),
        22 => (
            "upstream_unmatched_packets",
            total.upstream_unmatched_packets_total,
            delta.upstream_unmatched_packets_total,
        ),
        23 => (
            "upstream_forward_errors",
            total.upstream_forward_errors_total,
            delta.upstream_forward_errors_total,
        ),
        24 => (
            "upstream_mtu_drops",
            total.upstream_mtu_drops_total,
            delta.upstream_mtu_drops_total,
        ),
        25 => (
            "upstream_fragments_sent",
            total.upstream_fragments_sent_total,
            delta.upstream_fragments_sent_total,
        ),
        26 => (
            "upstream_pmtu_feedback_sent",
            total.upstream_pmtu_feedback_sent_total,
            delta.upstream_pmtu_feedback_sent_total,
        ),
        27 => (
            "upstream_pmtu_feedback_bytes_sent",
            total.upstream_pmtu_feedback_bytes_sent_total,
            delta.upstream_pmtu_feedback_bytes_sent_total,
        ),
        28 => (
            "upstream_pmtu_feedback_rate_limited",
            total.upstream_pmtu_feedback_rate_limited_total,
            delta.upstream_pmtu_feedback_rate_limited_total,
        ),
        29 => (
            "upstream_pmtu_feedback_suppressed",
            total.upstream_pmtu_feedback_suppressed_total,
            delta.upstream_pmtu_feedback_suppressed_total,
        ),
        30 => (
            "upstream_pmtu_feedback_unavailable",
            total.upstream_pmtu_feedback_unavailable_total,
            delta.upstream_pmtu_feedback_unavailable_total,
        ),
        31 => (
            "upstream_pmtu_feedback_errors",
            total.upstream_pmtu_feedback_errors_total,
            delta.upstream_pmtu_feedback_errors_total,
        ),
        32 => (
            "relay_ecn_normal_mode_datagrams_sent",
            total.relay_ecn_normal_mode_datagrams_sent_total,
            delta.relay_ecn_normal_mode_datagrams_sent_total,
        ),
        33 => (
            "gateway_discoveries_sent",
            total.gateway_discoveries_sent_total,
            delta.gateway_discoveries_sent_total,
        ),
        34 => (
            "gateway_membership_queries_received",
            total.gateway_membership_queries_received_total,
            delta.gateway_membership_queries_received_total,
        ),
        35 => (
            "gateway_membership_updates_sent",
            total.gateway_membership_updates_sent_total,
            delta.gateway_membership_updates_sent_total,
        ),
        36 => (
            "gateway_membership_refreshes",
            total.gateway_membership_refreshes_total,
            delta.gateway_membership_refreshes_total,
        ),
        37 => (
            "gateway_teardowns_sent",
            total.gateway_teardowns_sent_total,
            delta.gateway_teardowns_sent_total,
        ),
        38 => (
            "driad_refreshes_started",
            total.driad_refreshes_started_total,
            delta.driad_refreshes_started_total,
        ),
        39 => (
            "driad_refreshes_succeeded",
            total.driad_refreshes_succeeded_total,
            delta.driad_refreshes_succeeded_total,
        ),
        40 => (
            "driad_refreshes_failed",
            total.driad_refreshes_failed_total,
            delta.driad_refreshes_failed_total,
        ),
        41 => (
            "driad_candidate_changes",
            total.driad_candidate_changes_total,
            delta.driad_candidate_changes_total,
        ),
        42 => (
            "driad_no_relay_withdrawals",
            total.driad_no_relay_withdrawals_total,
            delta.driad_no_relay_withdrawals_total,
        ),
        43 => (
            "driad_probes_started",
            total.driad_probes_started_total,
            delta.driad_probes_started_total,
        ),
        44 => (
            "driad_probe_timeouts",
            total.driad_probe_timeouts_total,
            delta.driad_probe_timeouts_total,
        ),
        45 => (
            "driad_probe_errors",
            total.driad_probe_errors_total,
            delta.driad_probe_errors_total,
        ),
        46 => (
            "driad_connections_established",
            total.driad_connections_established_total,
            delta.driad_connections_established_total,
        ),
        47 => (
            "driad_loaded_hold_downs",
            total.driad_loaded_hold_downs_total,
            delta.driad_loaded_hold_downs_total,
        ),
        48 => (
            "driad_no_traffic_hold_downs",
            total.driad_no_traffic_hold_downs_total,
            delta.driad_no_traffic_hold_downs_total,
        ),
        49 => (
            "driad_query_timeouts",
            total.driad_query_timeouts_total,
            delta.driad_query_timeouts_total,
        ),
        50 => (
            "multicast_data_received",
            total.multicast_data_received_total,
            delta.multicast_data_received_total,
        ),
        51 => (
            "multicast_data_bytes_received",
            total.multicast_data_bytes_received_total,
            delta.multicast_data_bytes_received_total,
        ),
        52 => (
            "gateway_ecn_ce_received",
            total.gateway_ecn_ce_received_total,
            delta.gateway_ecn_ce_received_total,
        ),
        53 => (
            "gateway_ecn_ce_propagated",
            total.gateway_ecn_ce_propagated_total,
            delta.gateway_ecn_ce_propagated_total,
        ),
        54 => (
            "gateway_ecn_currently_unused",
            total.gateway_ecn_currently_unused_total,
            delta.gateway_ecn_currently_unused_total,
        ),
        55 => (
            "gateway_ecn_invalid_drops",
            total.gateway_ecn_invalid_drops_total,
            delta.gateway_ecn_invalid_drops_total,
        ),
        56 => (
            "downstream_packets_forwarded",
            total.downstream_packets_forwarded_total,
            delta.downstream_packets_forwarded_total,
        ),
        57 => (
            "downstream_bytes_forwarded",
            total.downstream_bytes_forwarded_total,
            delta.downstream_bytes_forwarded_total,
        ),
        58 => (
            "downstream_non_multicast_packets",
            total.downstream_non_multicast_packets_total,
            delta.downstream_non_multicast_packets_total,
        ),
        59 => (
            "downstream_forward_errors",
            total.downstream_forward_errors_total,
            delta.downstream_forward_errors_total,
        ),
        60 => (
            "local_queries_sent",
            total.local_queries_sent_total,
            delta.local_queries_sent_total,
        ),
        61 => (
            "local_membership_reports",
            total.local_membership_reports_total,
            delta.local_membership_reports_total,
        ),
        _ => (
            "local_membership_parse_errors",
            total.local_membership_parse_errors_total,
            delta.local_membership_parse_errors_total,
        ),
    }
}

/// How many counters there are.
pub const COUNTER_COUNT: usize = 63;

/// Reports all counters.
pub fn extend_counters(
    sample: &mut serde_json::Map<String, serde_json::Value>,
    total: &AmtMetricsCounters,
    delta: &AmtMetricsCounters,
)
    ensures
        members_in(*final(sample)) == counters_reported(
            members_in(*old(sample)),
            *total,
            *delta,
            COUNTER_COUNT as nat,
        ),
{
    let mut place: usize = 0;
    while place < COUNTER_COUNT
        invariant
            place <= COUNTER_COUNT,
            total.values().len() == COUNTER_COUNT,
            members_in(*sample) == counters_reported(
                members_in(*old(sample)),
                *total,
                *delta,
                place as nat,
            ),
        decreases COUNTER_COUNT - place,
    {
        extend_counter(sample, total, delta, place);
        place += 1;
    }
}

/// A truth value as a number.
pub open spec fn flag(b: bool) -> u64 {
    if b {
        1
    } else {
        0
    }
}

fn flag_of(b: bool) -> (n: u64)
    ensures
        n == flag(b),
{
    if b {
        1
    } else {
        0
    }
}

/// The members that report what is known at one moment, added to others.
pub open spec fn gauges_reported(members: MembersModel, gauges: MetricsGauges) -> MembersModel {
    match gauges {
        MetricsGauges::Relay(g) => members.insert(
            "active_gateways"@,
            MemberModel::Count(g.active_gateways),
        ).insert(
            "active_upstream_subscriptions"@,
            MemberModel::Count(g.active_upstream_subscriptions),
        ).insert("upstream_capture_sockets"@, MemberModel::Count(g.upstream_capture_sockets)),
        MetricsGauges::Gateway(g) => members.insert(
            "relay_connected"@,
            MemberModel::Count(flag(g.relay_connected)),
        ).insert("downstream_enabled"@, MemberModel::Count(flag(g.downstream_enabled))).insert(
            "transparent_enabled"@,
            MemberModel::Count(flag(g.transparent_enabled)),
        ).insert("configured_joins"@, MemberModel::Count(g.configured_joins)).insert(
            "driad_source_tunnels"@,
            MemberModel::Count(g.driad_source_tunnels),
        ).insert("driad_active_tunnels"@, MemberModel::Count(g.driad_active_tunnels)).insert(
            "driad_candidate_probes"@,
            MemberModel::Count(g.driad_candidate_probes),
        ).insert("driad_held_down_relays"@, MemberModel::Count(g.driad_held_down_relays)),
    }
}

/// Reports what is known at one moment.
pub fn extend_gauges(
    sample: &mut serde_json::Map<String, serde_json::Value>,
    gauges: MetricsGauges,
)
    ensures
        members_in(*final(sample)) == gauges_reported(members_in(*old(sample)), gauges),
{
    match gauges {
        MetricsGauges::Relay(g) => {
            insert_count(sample, "active_gateways".to_string(), g.active_gateways);
            insert_count(
                sample,
                "active_upstream_subscriptions".to_string(),
                g.active_upstream_subscriptions,
            );
            insert_count(
                sample,
                "upstream_capture_sockets".to_string(),
                g.upstream_capture_sockets,
            );
        },
        MetricsGauges::Gateway(g) => {
            insert_count(sample, "relay_connected".to_string(), flag_of(g.relay_connected));
            insert_count(sample, "downstream_enabled".to_string(), flag_of(g.downstream_enabled));
            insert_count(
                sample,
                "transparent_enabled".to_string(),
                flag_of(g.transparent_enabled),
            );
            insert_count(sample, "configured_joins".to_string(), g.configured_joins);
            insert_count(sample, "driad_source_tunnels".to_string(), g.driad_source_tunnels);
            insert_count(sample, "driad_active_tunnels".to_string(), g.driad_active_tunnels);
            insert_count(sample, "driad_candidate_probes".to_string(), g.driad_candidate_probes);
            insert_count(sample, "driad_held_down_relays".to_string(), g.driad_held_down_relays);
        },
    }
}

/// Counters and gauges at one moment.
#[derive(Debug, Clone, Copy, PartialEq, Eq, Structural)]
pub struct MetricsSnapshot {
    pub counters: AmtMetricsCounters,
    pub gauges: MetricsGauges,
}

/// Reports a snapshot against an earlier one: gauges, totals, and what is new.
pub fn extend_sample(
    sample: &mut serde_json::Map<String, serde_json::Value>,
    previous: &MetricsSnapshot,
    current: &MetricsSnapshot,
)
    ensures
        members_in(*final(sample)) == counters_reported(
            gauges_reported(members_in(*old(sample)), current.gauges),
            current.counters,
            current.counters.since(previous.counters),
            COUNTER_COUNT as nat,
        ),
{
    let delta = current.counters.delta_since(&previous.counters);
    extend_gauges(sample, current.gauges);
    extend_counters(sample, &current.counters, &delta);
}

/// When the next report is due, and what the last one said.
#[derive(Debug, Clone, Copy, PartialEq, Eq, Structural)]
pub struct MetricsWriter {
    pub sample_interval: Duration,
    pub next_emit_at: Instant,
    pub previous: Option<MetricsSnapshot>,
    pub max_file_bytes: Option<u64>,
}

/// Counts, and says when a report is due.
#[derive(Debug, Clone, Copy, PartialEq, Eq, Structural)]
pub struct MetricsRecorder {
    pub counters: AmtMetricsCounters,
    pub writer: Option<MetricsWriter>,
}

/// A writer after a look at the clock, and the snapshots between which to
/// report, where a report is due.  The first look only takes a snapshot.
pub open spec fn looked(
    writer: MetricsWriter,
    now: Instant,
    snapshot: MetricsSnapshot,
) -> (MetricsWriter, Option<(MetricsSnapshot, MetricsSnapshot)>) {
    let renewed = MetricsWriter {
        previous: Some(snapshot),
        next_emit_at: now.after_spec(writer.sample_interval),
        ..writer
    };
    match writer.previous {
        None => (renewed, None),
        Some(previous) => if now.nanos < writer.next_emit_at.nanos {
            (writer, None)
        } else {
            (renewed, Some((previous, snapshot)))
        },
    }
}

impl MetricsRecorder {
    /// A recorder that starts now.  `ready` says whether the file to write to
    /// could be set up.
    pub fn new(config: &MetricsConfig, now: Instant, ready: bool) -> (result: Result<
        Self,
        MetricsConfigError,
    >)
        requires
            now.can_add(config.sample_interval),
        ensures
            match result {
                Ok(recorder) => path_component(config.node_id@) && recorder == (MetricsRecorder {
                    counters: AmtMetricsCounters::zero(),
                    writer: if config.output_dir is Some && config.sample_interval.nanos > 0
                        && ready {
                        Some(
                            MetricsWriter {
                                sample_interval: config.sample_interval,
                                next_emit_at: now.after_spec(config.sample_interval),
                                previous: None,
                                max_file_bytes: config.max_file_bytes,
                            },
                        )
                    } else {
                        None
                    },
                }),
                Err(error) => !path_component(config.node_id@) && error
                    == MetricsConfigError::InvalidNodeId,
            },
    {
        match config.validate() {
            Ok(()) => {},
            Err(error) => return Err(error),
        }
        let writer = if config.is_enabled() && ready {
            Some(
                MetricsWriter {
                    sample_interval: config.sample_interval,
                    next_emit_at: now.after(config.sample_interval),
                    previous: None,
                    max_file_bytes: config.max_file_bytes,
                },
            )
        } else {
            None
        };
        Ok(MetricsRecorder { counters: AmtMetricsCounters::default(), writer })
    }

    pub fn counters_mut(&mut self) -> (counters: &mut AmtMetricsCounters)
        ensures
            *counters == old(self).counters,
            *final(self) == (MetricsRecorder { counters: *final(counters), ..*old(self) }),
    {
        &mut self.counters
    }

    pub fn counters(&self) -> (counters: &AmtMetricsCounters)
        ensures
            *counters == self.counters,
    {
        &self.counters
    }

    /// The recorder after a look at the clock, and the snapshots between which
    /// to report, where a report is due.
    pub open spec fn emitted(self, now: Instant, gauges: MetricsGauges) -> (
        Self,
        Option<(MetricsSnapshot, MetricsSnapshot)>,
    ) {
        match self.writer {
            None => (self, None),
            Some(writer) => {
                let (next, pair) = looked(
                    writer,
                    now,
                    MetricsSnapshot { counters: self.counters, gauges },
                );
                (MetricsRecorder { writer: Some(next), ..self }, pair)
            },
        }
    }

    /// The snapshots between which to report now, if a report is due.
    pub fn maybe_emit(&mut self, now: Instant, gauges: MetricsGauges) -> (due: Option<
        (MetricsSnapshot, MetricsSnapshot),
    >)
        requires
            old(self).writer matches Some(writer) ==> now.can_add(writer.sample_interval),
        ensures
            (*final(self), due) == old(self).emitted(now, gauges),
    {
        let mut writer: MetricsWriter = match self.writer {
            Some(writer) => writer,
            None => return None,
        };
        let snapshot = MetricsSnapshot { counters: self.counters, gauges };
        let due = match writer.previous {
            None => None,
            Some(previous) => {
                if now.nanos < writer.next_emit_at.nanos {
                    return None;
                }
                Some((previous, snapshot))
            },
        };
        writer.previous = Some(snapshot);
        writer.next_emit_at = now.after(writer.sample_interval);
        self.writer = Some(writer);
        due
    }

    /// The snapshots of a relay between which to report now, if a report is due.
    pub fn maybe_emit_relay(&mut self, now: Instant, gauges: RelayMetricsGauges) -> (due: Option<
        (MetricsSnapshot, MetricsSnapshot),
    >)
        requires
            old(self).writer matches Some(writer) ==> now.can_add(writer.sample_interval),
        ensures
            (*final(self), due) == old(self).emitted(now, MetricsGauges::Relay(gauges)),
    {
        self.maybe_emit(now, MetricsGauges::Relay(gauges))
    }

    /// The snapshots of a gateway between which to report now, if a report is
    /// due.
    pub fn maybe_emit_gateway(&mut self, now: Instant, gauges: GatewayMetricsGauges) -> (due:
        Option<(MetricsSnapshot, MetricsSnapshot)>)
        requires
            old(self).writer matches Some(writer) ==> now.can_add(writer.sample_interval),
        ensures
            (*final(self), due) == old(self).emitted(now, MetricsGauges::Gateway(gauges)),
    {
        self.maybe_emit(now, MetricsGauges::Gateway(gauges))
    }

    /// Writes no more reports, once one could not be written.
    pub fn write_failed(&mut self)
        ensures
            *final(self) == (MetricsRecorder { writer: None, ..*old(self) }),
    {
        self.writer = None;
    }

    /// How long until the next report is due.
    pub fn next_emit_in(&self, now: Instant) -> (wait: Option<Duration>)
        ensures
            wait == match self.writer {
                None => None::<Duration>,
                Some(writer) => Some(
                    Duration {
                        nanos: if writer.next_emit_at.nanos >= now.nanos {
                            (writer.next_emit_at.nanos - now.nanos) as u128
                        } else {
                            0
                        },
                    },
                ),
            },
    {
        match self.writer {
            None => None,
            Some(writer) => if writer.next_emit_at.nanos >= now.nanos {
                Some(Duration { nanos: writer.next_emit_at.nanos - now.nanos })
            } else {
                Some(Duration::zero())
            },
        }
    }
}

/// Whether a file has grown so far that a new one is to be begun.  Zero stands
/// for no limit; a file that is not there has no length.
pub fn rotation_due(max_file_bytes: Option<u64>, length: Option<u64>) -> (due: bool)
    ensures
        due == (max_file_bytes is Some && max_file_bytes->Some_0 != 0 && length is Some
            && length->Some_0 >= max_file_bytes->Some_0),
{
    match (max_file_bytes, length) {
        (Some(limit), Some(length)) => limit != 0 && length >= limit,
        _ => false,
    }
}

/// Every counter is reported under its own name.
pub proof fn law_counters_have_their_own_names(counters: AmtMetricsCounters)
    ensures
        counter_names().len() == counters.values().len() == 63,
        counter_names()[0] == "control_datagrams_received"@ && counters.values()[0] == counters.control_datagrams_received_total,
        counter_names()[1] == "control_datagrams_invalid"@ && counters.values()[1] == counters.control_datagrams_invalid_total,
        counter_names()[2] == "control_datagrams_ignored"@ && counters.values()[2] == counters.control_datagrams_ignored_total,
        counter_names()[3] == "control_datagrams_rate_limited"@ && counters.values()[3] == counters.control_datagrams_rate_limited_total,
        counter_names()[4] == "resource_limit_rejections"@ && counters.values()[4] == counters.resource_limit_rejections_total,
        counter_names()[5] == "control_responses_sent"@ && counters.values()[5] == counters.control_responses_sent_total,
        counter_names()[6] == "control_response_bytes_sent"@ && counters.values()[6] == counters.control_response_bytes_sent_total,
        counter_names()[7] == "send_errors"@ && counters.values()[7] == counters.send_errors_total,
        counter_names()[8] == "membership_updates_accepted"@ && counters.values()[8] == counters.membership_updates_accepted_total,
        counter_names()[9] == "membership_records_applied"@ && counters.values()[9] == counters.membership_records_applied_total,
        counter_names()[10] == "teardowns_accepted"@ && counters.values()[10] == counters.teardowns_accepted_total,
        counter_names()[11] == "auth_rejections"@ && counters.values()[11] == counters.auth_rejections_total,
        counter_names()[12] == "gateways_expired"@ && counters.values()[12] == counters.gateways_expired_total,
        counter_names()[13] == "upstream_subscription_adds"@ && counters.values()[13] == counters.upstream_subscription_adds_total,
        counter_names()[14] == "upstream_subscription_removes"@ && counters.values()[14] == counters.upstream_subscription_removes_total,
        counter_names()[15] == "upstream_reconcile_failures"@ && counters.values()[15] == counters.upstream_reconcile_failures_total,
        counter_names()[16] == "upstream_packets_received"@ && counters.values()[16] == counters.upstream_packets_received_total,
        counter_names()[17] == "upstream_bytes_received"@ && counters.values()[17] == counters.upstream_bytes_received_total,
        counter_names()[18] == "upstream_worker_queue_drops"@ && counters.values()[18] == counters.upstream_worker_queue_drops_total,
        counter_names()[19] == "upstream_worker_failures"@ && counters.values()[19] == counters.upstream_worker_failures_total,
        counter_names()[20] == "upstream_packets_forwarded"@ && counters.values()[20] == counters.upstream_packets_forwarded_total,
        counter_names()[21] == "upstream_bytes_forwarded"@ && counters.values()[21] == counters.upstream_bytes_forwarded_total,
        counter_names()[22] == "upstream_unmatched_packets"@ && counters.values()[22] == counters.upstream_unmatched_packets_total,
        counter_names()[23] == "upstream_forward_errors"@ && counters.values()[23] == counters.upstream_forward_errors_total,
        counter_names()[24] == "upstream_mtu_drops"@ && counters.values()[24] == counters.upstream_mtu_drops_total,
        counter_names()[25] == "upstream_fragments_sent"@ && counters.values()[25] == counters.upstream_fragments_sent_total,
        counter_names()[26] == "upstream_pmtu_feedback_sent"@ && counters.values()[26] == counters.upstream_pmtu_feedback_sent_total,
        counter_names()[27] == "upstream_pmtu_feedback_bytes_sent"@ && counters.values()[27] == counters.upstream_pmtu_feedback_bytes_sent_total,
        counter_names()[28] == "upstream_pmtu_feedback_rate_limited"@ && counters.values()[28] == counters.upstream_pmtu_feedback_rate_limited_total,
        counter_names()[29] == "upstream_pmtu_feedback_suppressed"@ && counters.values()[29] == counters.upstream_pmtu_feedback_suppressed_total,
        counter_names()[30] == "upstream_pmtu_feedback_unavailable"@ && counters.values()[30] == counters.upstream_pmtu_feedback_unavailable_total,
        counter_names()[31] == "upstream_pmtu_feedback_errors"@ && counters.values()[31] == counters.upstream_pmtu_feedback_errors_total,
        counter_names()[32] == "relay_ecn_normal_mode_datagrams_sent"@ && counters.values()[32] == counters.relay_ecn_normal_mode_datagrams_sent_total,
        counter_names()[33] == "gateway_discoveries_sent"@ && counters.values()[33] == counters.gateway_discoveries_sent_total,
        counter_names()[34] == "gateway_membership_queries_received"@ && counters.values()[34] == counters.gateway_membership_queries_received_total,
        counter_names()[35] == "gateway_membership_updates_sent"@ && counters.values()[35] == counters.gateway_membership_updates_sent_total,
        counter_names()[36] == "gateway_membership_refreshes"@ && counters.values()[36] == counters.gateway_membership_refreshes_total,
        counter_names()[37] == "gateway_teardowns_sent"@ && counters.values()[37] == counters.gateway_teardowns_sent_total,
        counter_names()[38] == "driad_refreshes_started"@ && counters.values()[38] == counters.driad_refreshes_started_total,
        counter_names()[39] == "driad_refreshes_succeeded"@ && counters.values()[39] == counters.driad_refreshes_succeeded_total,
        counter_names()[40] == "driad_refreshes_failed"@ && counters.values()[40] == counters.driad_refreshes_failed_total,
        counter_names()[41] == "driad_candidate_changes"@ && counters.values()[41] == counters.driad_candidate_changes_total,
        counter_names()[42] == "driad_no_relay_withdrawals"@ && counters.values()[42] == counters.driad_no_relay_withdrawals_total,
        counter_names()[43] == "driad_probes_started"@ && counters.values()[43] == counters.driad_probes_started_total,
        counter_names()[44] == "driad_probe_timeouts"@ && counters.values()[44] == counters.driad_probe_timeouts_total,
        counter_names()[45] == "driad_probe_errors"@ && counters.values()[45] == counters.driad_probe_errors_total,
        counter_names()[46] == "driad_connections_established"@ && counters.values()[46] == counters.driad_connections_established_total,
        counter_names()[47] == "driad_loaded_hold_downs"@ && counters.values()[47] == counters.driad_loaded_hold_downs_total,
        counter_names()[48] == "driad_no_traffic_hold_downs"@ && counters.values()[48] == counters.driad_no_traffic_hold_downs_total,
        counter_names()[49] == "driad_query_timeouts"@ && counters.values()[49] == counters.driad_query_timeouts_total,
        counter_names()[50] == "multicast_data_received"@ && counters.values()[50] == counters.multicast_data_received_total,
        counter_names()[51] == "multicast_data_bytes_received"@ && counters.values()[51] == counters.multicast_data_bytes_received_total,
        counter_names()[52] == "gateway_ecn_ce_received"@ && counters.values()[52] == counters.gateway_ecn_ce_received_total,
        counter_names()[53] == "gateway_ecn_ce_propagated"@ && counters.values()[53] == counters.gateway_ecn_ce_propagated_total,
        counter_names()[54] == "gateway_ecn_currently_unused"@ && counters.values()[54] == counters.gateway_ecn_currently_unused_total,
        counter_names()[55] == "gateway_ecn_invalid_drops"@ && counters.values()[55] == counters.gateway_ecn_invalid_drops_total,
        counter_names()[56] == "downstream_packets_forwarded"@ && counters.values()[56] == counters.downstream_packets_forwarded_total,
        counter_names()[57] == "downstream_bytes_forwarded"@ && counters.values()[57] == counters.downstream_bytes_forwarded_total,
        counter_names()[58] == "downstream_non_multicast_packets"@ && counters.values()[58] == counters.downstream_non_multicast_packets_total,
        counter_names()[59] == "downstream_forward_errors"@ && counters.values()[59] == counters.downstream_forward_errors_total,
        counter_names()[60] == "local_queries_sent"@ && counters.values()[60] == counters.local_queries_sent_total,
        counter_names()[61] == "local_membership_reports"@ && counters.values()[61] == counters.local_membership_reports_total,
        counter_names()[62] == "local_membership_parse_errors"@ && counters.values()[62] == counters.local_membership_parse_errors_total,
{
}

/// What is new of a counter makes up the difference to what it was.
pub proof fn law_deltas_make_up_the_difference(
    later: AmtMetricsCounters,
    earlier: AmtMetricsCounters,
)
    ensures
        earlier.control_datagrams_received_total <= later.control_datagrams_received_total ==> earlier.control_datagrams_received_total + later.since(earlier).control_datagrams_received_total
            == later.control_datagrams_received_total,
        earlier.control_datagrams_invalid_total <= later.control_datagrams_invalid_total ==> earlier.control_datagrams_invalid_total + later.since(earlier).control_datagrams_invalid_total
            == later.control_datagrams_invalid_total,
        earlier.control_datagrams_ignored_total <= later.control_datagrams_ignored_total ==> earlier.control_datagrams_ignored_total + later.since(earlier).control_datagrams_ignored_total
            == later.control_datagrams_ignored_total,
        earlier.control_datagrams_rate_limited_total <= later.control_datagrams_rate_limited_total ==> earlier.control_datagrams_rate_limited_total + later.since(earlier).control_datagrams_rate_limited_total
            == later.control_datagrams_rate_limited_total,
        earlier.resource_limit_rejections_total <= later.resource_limit_rejections_total ==> earlier.resource_limit_rejections_total + later.since(earlier).resource_limit_rejections_total
            == later.resource_limit_rejections_total,
        earlier.control_responses_sent_total <= later.control_responses_sent_total ==> earlier.control_responses_sent_total + later.since(earlier).control_responses_sent_total
            == later.control_responses_sent_total,
        earlier.control_response_bytes_sent_total <= later.control_response_bytes_sent_total ==> earlier.control_response_bytes_sent_total + later.since(earlier).control_response_bytes_sent_total
            == later.control_response_bytes_sent_total,
        earlier.send_errors_total <= later.send_errors_total ==> earlier.send_errors_total + later.since(earlier).send_errors_total
            == later.send_errors_total,
        earlier.membership_updates_accepted_total <= later.membership_updates_accepted_total ==> earlier.membership_updates_accepted_total + later.since(earlier).membership_updates_accepted_total
            == later.membership_updates_accepted_total,
        earlier.membership_records_applied_total <= later.membership_records_applied_total ==> earlier.membership_records_applied_total + later.since(earlier).membership_records_applied_total
            == later.membership_records_applied_total,
        earlier.teardowns_accepted_total <= later.teardowns_accepted_total ==> earlier.teardowns_accepted_total + later.since(earlier).teardowns_accepted_total
            == later.teardowns_accepted_total,
        earlier.auth_rejections_total <= later.auth_rejections_total ==> earlier.auth_rejections_total + later.since(earlier).auth_rejections_total
            == later.auth_rejections_total,
        earlier.gateways_expired_total <= later.gateways_expired_total ==> earlier.gateways_expired_total + later.since(earlier).gateways_expired_total
            == later.gateways_expired_total,
        earlier.upstream_subscription_adds_total <= later.upstream_subscription_adds_total ==> earlier.upstream_subscription_adds_total + later.since(earlier).upstream_subscription_adds_total
            == later.upstream_subscription_adds_total,
        earlier.upstream_subscription_removes_total <= later.upstream_subscription_removes_total ==> earlier.upstream_subscription_removes_total + later.since(earlier).upstream_subscription_removes_total
            == later.upstream_subscription_removes_total,
        earlier.upstream_reconcile_failures_total <= later.upstream_reconcile_failures_total ==> earlier.upstream_reconcile_failures_total + later.since(earlier).upstream_reconcile_failures_total
            == later.upstream_reconcile_failures_total,
        earlier.upstream_packets_received_total <= later.upstream_packets_received_total ==> earlier.upstream_packets_received_total + later.since(earlier).upstream_packets_received_total
            == later.upstream_packets_received_total,
        earlier.upstream_bytes_received_total <= later.upstream_bytes_received_total ==> earlier.upstream_bytes_received_total + later.since(earlier).upstream_bytes_received_total
            == later.upstream_bytes_received_total,
        earlier.upstream_worker_queue_drops_total <= later.upstream_worker_queue_drops_total ==> earlier.upstream_worker_queue_drops_total + later.since(earlier).upstream_worker_queue_drops_total
            == later.upstream_worker_queue_drops_total,
        earlier.upstream_worker_failures_total <= later.upstream_worker_failures_total ==> earlier.upstream_worker_failures_total + later.since(earlier).upstream_worker_failures_total
            == later.upstream_worker_failures_total,
        earlier.upstream_packets_forwarded_total <= later.upstream_packets_forwarded_total ==> earlier.upstream_packets_forwarded_total + later.since(earlier).upstream_packets_forwarded_total
            == later.upstream_packets_forwarded_total,
        earlier.upstream_bytes_forwarded_total <= later.upstream_bytes_forwarded_total ==> earlier.upstream_bytes_forwarded_total + later.since(earlier).upstream_bytes_forwarded_total
            == later.upstream_bytes_forwarded_total,
        earlier.upstream_unmatched_packets_total <= later.upstream_unmatched_packets_total ==> earlier.upstream_unmatched_packets_total + later.since(earlier).upstream_unmatched_packets_total
            == later.upstream_unmatched_packets_total,
        earlier.upstream_forward_errors_total <= later.upstream_forward_errors_total ==> earlier.upstream_forward_errors_total + later.since(earlier).upstream_forward_errors_total
            == later.upstream_forward_errors_total,
        earlier.upstream_mtu_drops_total <= later.upstream_mtu_drops_total ==> earlier.upstream_mtu_drops_total + later.since(earlier).upstream_mtu_drops_total
            == later.upstream_mtu_drops_total,
        earlier.upstream_fragments_sent_total <= later.upstream_fragments_sent_total ==> earlier.upstream_fragments_sent_total + later.since(earlier).upstream_fragments_sent_total
            == later.upstream_fragments_sent_total,
        earlier.upstream_pmtu_feedback_sent_total <= later.upstream_pmtu_feedback_sent_total ==> earlier.upstream_pmtu_feedback_sent_total + later.since(earlier).upstream_pmtu_feedback_sent_total
            == later.upstream_pmtu_feedback_sent_total,
        earlier.upstream_pmtu_feedback_bytes_sent_total <= later.upstream_pmtu_feedback_bytes_sent_total ==> earlier.upstream_pmtu_feedback_bytes_sent_total + later.since(earlier).upstream_pmtu_feedback_bytes_sent_total
            == later.upstream_pmtu_feedback_bytes_sent_total,
        earlier.upstream_pmtu_feedback_rate_limited_total <= later.upstream_pmtu_feedback_rate_limited_total ==> earlier.upstream_pmtu_feedback_rate_limited_total + later.since(earlier).upstream_pmtu_feedback_rate_limited_total
            == later.upstream_pmtu_feedback_rate_limited_total,
        earlier.upstream_pmtu_feedback_suppressed_total <= later.upstream_pmtu_feedback_suppressed_total ==> earlier.upstream_pmtu_feedback_suppressed_total + later.since(earlier).upstream_pmtu_feedback_suppressed_total
            == later.upstream_pmtu_feedback_suppressed_total,
        earlier.upstream_pmtu_feedback_unavailable_total <= later.upstream_pmtu_feedback_unavailable_total ==> earlier.upstream_pmtu_feedback_unavailable_total + later.since(earlier).upstream_pmtu_feedback_unavailable_total
            == later.upstream_pmtu_feedback_unavailable_total,
        earlier.upstream_pmtu_feedback_errors_total <= later.upstream_pmtu_feedback_errors_total ==> earlier.upstream_pmtu_feedback_errors_total + later.since(earlier).upstream_pmtu_feedback_errors_total
            == later.upstream_pmtu_feedback_errors_total,
        earlier.relay_ecn_normal_mode_datagrams_sent_total <= later.relay_ecn_normal_mode_datagrams_sent_total ==> earlier.relay_ecn_normal_mode_datagrams_sent_total + later.since(earlier).relay_ecn_normal_mode_datagrams_sent_total
            == later.relay_ecn_normal_mode_datagrams_sent_total,
        earlier.gateway_discoveries_sent_total <= later.gateway_discoveries_sent_total ==> earlier.gateway_discoveries_sent_total + later.since(earlier).gateway_discoveries_sent_total
            == later.gateway_discoveries_sent_total,
        earlier.gateway_membership_queries_received_total <= later.gateway_membership_queries_received_total ==> earlier.gateway_membership_queries_received_total + later.since(earlier).gateway_membership_queries_received_total
            == later.gateway_membership_queries_received_total,
        earlier.gateway_membership_updates_sent_total <= later.gateway_membership_updates_sent_total ==> earlier.gateway_membership_updates_sent_total + later.since(earlier).gateway_membership_updates_sent_total
            == later.gateway_membership_updates_sent_total,
        earlier.gateway_membership_refreshes_total <= later.gateway_membership_refreshes_total ==> earlier.gateway_membership_refreshes_total + later.since(earlier).gateway_membership_refreshes_total
            == later.gateway_membership_refreshes_total,
        earlier.gateway_teardowns_sent_total <= later.gateway_teardowns_sent_total ==> earlier.gateway_teardowns_sent_total + later.since(earlier).gateway_teardowns_sent_total
            == later.gateway_teardowns_sent_total,
        earlier.driad_refreshes_started_total <= later.driad_refreshes_started_total ==> earlier.driad_refreshes_started_total + later.since(earlier).driad_refreshes_started_total
            == later.driad_refreshes_started_total,
        earlier.driad_refreshes_succeeded_total <= later.driad_refreshes_succeeded_total ==> earlier.driad_refreshes_succeeded_total + later.since(earlier).driad_refreshes_succeeded_total
            == later.driad_refreshes_succeeded_total,
        earlier.driad_refreshes_failed_total <= later.driad_refreshes_failed_total ==> earlier.driad_refreshes_failed_total + later.since(earlier).driad_refreshes_failed_total
            == later.driad_refreshes_failed_total,
        earlier.driad_candidate_changes_total <= later.driad_candidate_changes_total ==> earlier.driad_candidate_changes_total + later.since(earlier).driad_candidate_changes_total
            == later.driad_candidate_changes_total,
        earlier.driad_no_relay_withdrawals_total <= later.driad_no_relay_withdrawals_total ==> earlier.driad_no_relay_withdrawals_total + later.since(earlier).driad_no_relay_withdrawals_total
            == later.driad_no_relay_withdrawals_total,
        earlier.driad_probes_started_total <= later.driad_probes_started_total ==> earlier.driad_probes_started_total + later.since(earlier).driad_probes_started_total
            == later.driad_probes_started_total,
        earlier.driad_probe_timeouts_total <= later.driad_probe_timeouts_total ==> earlier.driad_probe_timeouts_total + later.since(earlier).driad_probe_timeouts_total
            == later.driad_probe_timeouts_total,
        earlier.driad_probe_errors_total <= later.driad_probe_errors_total ==> earlier.driad_probe_errors_total + later.since(earlier).driad_probe_errors_total
            == later.driad_probe_errors_total,
        earlier.driad_connections_established_total <= later.driad_connections_established_total ==> earlier.driad_connections_established_total + later.since(earlier).driad_connections_established_total
            == later.driad_connections_established_total,
        earlier.driad_loaded_hold_downs_total <= later.driad_loaded_hold_downs_total ==> earlier.driad_loaded_hold_downs_total + later.since(earlier).driad_loaded_hold_downs_total
            == later.driad_loaded_hold_downs_total,
        earlier.driad_no_traffic_hold_downs_total <= later.driad_no_traffic_hold_downs_total ==> earlier.driad_no_traffic_hold_downs_total + later.since(earlier).driad_no_traffic_hold_downs_total
            == later.driad_no_traffic_hold_downs_total,
        earlier.driad_query_timeouts_total <= later.driad_query_timeouts_total ==> earlier.driad_query_timeouts_total + later.since(earlier).driad_query_timeouts_total
            == later.driad_query_timeouts_total,
        earlier.multicast_data_received_total <= later.multicast_data_received_total ==> earlier.multicast_data_received_total + later.since(earlier).multicast_data_received_total
            == later.multicast_data_received_total,
        earlier.multicast_data_bytes_received_total <= later.multicast_data_bytes_received_total ==> earlier.multicast_data_bytes_received_total + later.since(earlier).multicast_data_bytes_received_total
            == later.multicast_data_bytes_received_total,
        earlier.gateway_ecn_ce_received_total <= later.gateway_ecn_ce_received_total ==> earlier.gateway_ecn_ce_received_total + later.since(earlier).gateway_ecn_ce_received_total
            == later.gateway_ecn_ce_received_total,
        earlier.gateway_ecn_ce_propagated_total <= later.gateway_ecn_ce_propagated_total ==> earlier.gateway_ecn_ce_propagated_total + later.since(earlier).gateway_ecn_ce_propagated_total
            == later.gateway_ecn_ce_propagated_total,
        earlier.gateway_ecn_currently_unused_total <= later.gateway_ecn_currently_unused_total ==> earlier.gateway_ecn_currently_unused_total + later.since(earlier).gateway_ecn_currently_unused_total
            == later.gateway_ecn_currently_unused_total,
        earlier.gateway_ecn_invalid_drops_total <= later.gateway_ecn_invalid_drops_total ==> earlier.gateway_ecn_invalid_drops_total + later.since(earlier).gateway_ecn_invalid_drops_total
            == later.gateway_ecn_invalid_drops_total,
        earlier.downstream_packets_forwarded_total <= later.downstream_packets_forwarded_total ==> earlier.downstream_packets_forwarded_total + later.since(earlier).downstream_packets_forwarded_total
            == later.downstream_packets_forwarded_total,
        earlier.downstream_bytes_forwarded_total <= later.downstream_bytes_forwarded_total ==> earlier.downstream_bytes_forwarded_total + later.since(earlier).downstream_bytes_forwarded_total
            == later.downstream_bytes_forwarded_total,
        earlier.downstream_non_multicast_packets_total <= later.downstream_non_multicast_packets_total ==> earlier.downstream_non_multicast_packets_total + later.since(earlier).downstream_non_multicast_packets_total
            == later.downstream_non_multicast_packets_total,
        earlier.downstream_forward_errors_total <= later.downstream_forward_errors_total ==> earlier.downstream_forward_errors_total + later.since(earlier).downstream_forward_errors_total
            == later.downstream_forward_errors_total,
        earlier.local_queries_sent_total <= later.local_queries_sent_total ==> earlier.local_queries_sent_total + later.since(earlier).local_queries_sent_total
            == later.local_queries_sent_total,
        earlier.local_membership_reports_total <= later.local_membership_reports_total ==> earlier.local_membership_reports_total + later.since(earlier).local_membership_reports_total
            == later.local_membership_reports_total,
        earlier.local_membership_parse_errors_total <= later.local_membership_parse_errors_total ==> earlier.local_membership_parse_errors_total + later.since(earlier).local_membership_parse_errors_total
            == later.local_membership_parse_errors_total,
{
}

/// A report holds the total and what is new of every counter, under the counter's
/// name with `_total` and `_delta` behind it.
pub proof fn law_reports_hold_every_counter(
    members: MembersModel,
    total: AmtMetricsCounters,
    delta: AmtMetricsCounters,
    n: nat,
)
    requires
        0 < n <= counter_names().len(),
    ensures
        ({
            let name = counter_names()[n - 1];
            let reported = counters_reported(members, total, delta, n);
            &&& reported.contains_key(name + "_total"@) && reported.contains_key(name + "_delta"@)
            &&& reported[name + "_delta"@] == MemberModel::Count(delta.values()[n - 1])
            &&& reported[name + "_total"@] == MemberModel::Count(total.values()[n - 1])
        }),
{
    let name = counter_names()[n - 1];
    reveal_strlit("_total");
    reveal_strlit("_delta");
    assert((name + "_total"@)[name.len() as int + 1] == 't');
    assert((name + "_delta"@)[name.len() as int + 1] == 'd');
}

/// Gauges are reported under their own names, flags as one or zero.
pub proof fn law_gauges_have_their_own_names(
    members: MembersModel,
    relay: RelayMetricsGauges,
    gateway: GatewayMetricsGauges,
)
    ensures
        ({
            let at_relay = gauges_reported(members, MetricsGauges::Relay(relay));
            let at_gateway = gauges_reported(members, MetricsGauges::Gateway(gateway));
            let one = |set: bool|
                MemberModel::Count(
                    if set {
                        1
                    } else {
                        0
                    },
                );
            &&& at_relay["active_gateways"@] == MemberModel::Count(relay.active_gateways)
            &&& at_relay["active_upstream_subscriptions"@] == MemberModel::Count(
                relay.active_upstream_subscriptions,
            )
            &&& at_relay["upstream_capture_sockets"@] == MemberModel::Count(
                relay.upstream_capture_sockets,
            )
            &&& at_gateway["relay_connected"@] == one(gateway.relay_connected)
            &&& at_gateway["downstream_enabled"@] == one(gateway.downstream_enabled)
            &&& at_gateway["transparent_enabled"@] == one(gateway.transparent_enabled)
            &&& at_gateway["configured_joins"@] == MemberModel::Count(gateway.configured_joins)
            &&& at_gateway["driad_source_tunnels"@] == MemberModel::Count(
                gateway.driad_source_tunnels,
            )
            &&& at_gateway["driad_active_tunnels"@] == MemberModel::Count(
                gateway.driad_active_tunnels,
            )
            &&& at_gateway["driad_candidate_probes"@] == MemberModel::Count(
                gateway.driad_candidate_probes,
            )
            &&& at_gateway["driad_held_down_relays"@] == MemberModel::Count(
                gateway.driad_held_down_relays,
            )
        }),
{
    reveal_strlit("active_gateways");
    reveal_strlit("active_upstream_subscriptions");
    reveal_strlit("upstream_capture_sockets");
    reveal_strlit("relay_connected");
    reveal_strlit("downstream_enabled");
    reveal_strlit("transparent_enabled");
    reveal_strlit("configured_joins");
    reveal_strlit("driad_source_tunnels");
    reveal_strlit("driad_active_tunnels");
    reveal_strlit("driad_candidate_probes");
    reveal_strlit("driad_held_down_relays");
    assert("driad_source_tunnels"@[6] == 's' && "driad_active_tunnels"@[6] == 'a');
    assert("driad_candidate_probes"@[6] == 'c' && "driad_held_down_relays"@[6] == 'h');
    assert("relay_connected"@.len() == 15 && "downstream_enabled"@.len() == 18
        && "transparent_enabled"@.len() == 19 && "configured_joins"@.len() == 16
        && "driad_source_tunnels"@.len() == 20 && "driad_active_tunnels"@.len() == 20
        && "driad_candidate_probes"@.len() == 22 && "driad_held_down_relays"@.len() == 22);
    assert("active_gateways"@.len() == 15 && "active_upstream_subscriptions"@.len() == 29
        && "upstream_capture_sockets"@.len() == 24);
}

/// Counting adds up, and starts again at zero behind the largest number.
pub proof fn law_counting_adds_up(counter: u64, n: int)
    requires
        0 <= n,
    ensures
        counter + n <= u64::MAX ==> counted(counter, n) == counter + n,
        n <= u64::MAX && counter + n > u64::MAX ==> counted(counter, n) == counter + n - 1
            - u64::MAX,
{
}

/// The first look starts the reports; from then on one is due when its time comes,
/// between what was last reported and now, and the next one an interval later.
pub proof fn law_reports_come_at_intervals(
    writer: MetricsWriter,
    now: Instant,
    snapshot: MetricsSnapshot,
)
    requires
        now.can_add(writer.sample_interval),
    ensures
        ({
            let (next, pair) = looked(writer, now, snapshot);
            &&& writer.previous is None ==> pair is None && next.previous == Some(snapshot)
                && next.next_emit_at.nanos == now.nanos + writer.sample_interval.nanos
            &&& writer.previous is Some && now.nanos < writer.next_emit_at.nanos ==> pair is None
                && next == writer
            &&& writer.previous is Some && now.nanos >= writer.next_emit_at.nanos ==> pair == Some(
                (writer.previous->Some_0, snapshot),
            ) && next.previous == Some(snapshot) && next.next_emit_at.nanos == now.nanos
                + writer.sample_interval.nanos
        }),
{
}

/// A recorder that writes nothing gives nothing to write; one that writes keeps its
/// counters.
pub proof fn law_recorders_keep_their_counters(
    recorder: MetricsRecorder,
    now: Instant,
    gauges: MetricsGauges,
)
    ensures
        ({
            let (after, pair) = recorder.emitted(now, gauges);
            &&& after.counters == recorder.counters
            &&& recorder.writer is None ==> pair is None && after == recorder
            &&& recorder.writer is Some ==> after.writer is Some
            &&& pair matches Some((_, current)) ==> current.counters == recorder.counters
                && current.gauges == gauges
        }),
{
}

/// A name that is to be part of a file's path is neither empty nor that of a
/// directory, and holds no separator.
pub proof fn law_names_stay_in_their_directory(text: Seq<char>, i: int)
    ensures
        path_component(text) ==> text.len() > 0 && text != seq!['.'] && text != seq!['.', '.'],
        path_component(text) && 0 <= i < text.len() ==> text[i] != '/' && text[i] != '\\' && text[i]
            != '\0',
        text.len() > 2 && (forall|j: int|
            0 <= j < text.len() ==> #[trigger] text[j] != '/' && text[j] != '\\' && text[j] != '\0')
            ==> path_component(text),
{
    reveal_strlit(".");
    reveal_strlit("..");
    assert("."@ =~= seq!['.']);
    assert(".."@ =~= seq!['.', '.']);
}

} // verus!
