//! What gateway daemons count and decide, with whichever relays they work.

use crate::ecn::{EcnCodepoint, EcnDecapsulation};
use crate::logs::GatewayDataLog;
use crate::metrics::{count, counted, AmtMetricsCounters};
use crate::time::{Duration, Instant};
use vstd::prelude::*;

verus! {

/// How many seconds a gateway waits for a Membership Query.
pub const GATEWAY_QUERY_TIMEOUT_SECS: u64 = 10;

/// How often, in seconds, a gateway looks for local hosts that fell silent.
pub const LOCAL_REPORTER_PRUNE_INTERVAL_SECS: u64 = 5;

/// How many reports of local hosts are taken in at a time.
pub const MAX_LOCAL_MEMBERSHIP_DRAIN: usize = 64;

/// For how many milliseconds an idle gateway sleeps.
pub const IDLE_SLEEP_MILLIS: u64 = 10;

/// Whether a relay's limit makes a gateway look for another relay: where it has
/// no memberships at that relay, or would get them under a new endpoint.
pub fn limit_requires_rediscovery(
    limit: bool,
    has_reported_memberships: bool,
    endpoint_changed: bool,
) -> (b: bool)
    ensures
        b == (limit && (!has_reported_memberships || endpoint_changed)),
{
    limit && (!has_reported_memberships || endpoint_changed)
}

/// How often a gateway asks for a new query: as configured, but not less often
/// than the relay suggests.
pub open spec fn refresh_interval(configured: Duration, suggested: Duration) -> Duration {
    if suggested.nanos == 0 {
        configured
    } else {
        configured.min_spec(suggested)
    }
}

/// How often a gateway asks for a new query.
pub fn effective_refresh_interval_for(configured: Duration, suggested: Duration) -> (interval:
    Duration)
    ensures
        interval == refresh_interval(configured, suggested),
{
    if suggested.is_zero() {
        configured
    } else {
        configured.min(suggested)
    }
}

/// Whether a span has passed since an event that may not have happened.
pub open spec fn lapsed(since: Option<Instant>, span: Duration, now: Instant) -> bool {
    match since {
        Some(since) => now.since_spec(since).nanos >= span.nanos,
        None => false,
    }
}

/// Whether a span has passed since an event that may not have happened.
pub fn has_lapsed(since: Option<Instant>, span: Duration, now: Instant) -> (b: bool)
    ensures
        b == lapsed(since, span, now),
{
    match since {
        Some(since) => now.duration_since(since).nanos >= span.nanos,
        None => false,
    }
}

/// Whether something that happens at intervals is due: the first time at once.
pub open spec fn due_again(last: Option<Instant>, interval: Duration, now: Instant) -> bool {
    last is None || lapsed(last, interval, now)
}

/// Whether something that happens at intervals is due.
pub fn is_due_again(last: Option<Instant>, interval: Duration, now: Instant) -> (b: bool)
    ensures
        b == due_again(last, interval, now),
{
    match last {
        None => true,
        Some(_) => has_lapsed(last, interval, now),
    }
}

/// A counter after something that happened or did not.
pub open spec fn counted_if(counter: u64, happened: bool) -> u64 {
    if happened {
        counted(counter, 1)
    } else {
        counter
    }
}

/// A counter after something that happened or did not.
pub fn count_if(counter: u64, happened: bool) -> (next: u64)
    ensures
        next == counted_if(counter, happened),
{
    if happened {
        count(counter, 1)
    } else {
        counter
    }
}

/// Counters after a packet out of the tunnel.
pub open spec fn multicast_counted(
    counters: AmtMetricsCounters,
    packet_len: int,
    ecn: Option<EcnDecapsulation>,
) -> AmtMetricsCounters {
    AmtMetricsCounters {
        multicast_data_received_total: counted(counters.multicast_data_received_total, 1),
        multicast_data_bytes_received_total: counted(
            counters.multicast_data_bytes_received_total,
            packet_len,
        ),
        gateway_ecn_ce_received_total: counted_if(
            counters.gateway_ecn_ce_received_total,
            ecn is Some && ecn->Some_0.outer is Ce,
        ),
        gateway_ecn_ce_propagated_total: counted_if(
            counters.gateway_ecn_ce_propagated_total,
            ecn is Some && ecn->Some_0.propagated_ce_spec(),
        ),
        gateway_ecn_currently_unused_total: counted_if(
            counters.gateway_ecn_currently_unused_total,
            ecn is Some && ecn->Some_0.currently_unused,
        ),
        ..counters
    }
}

/// Counts a packet out of the tunnel.
pub fn record_gateway_multicast(
    counters: &mut AmtMetricsCounters,
    data_log: &mut GatewayDataLog,
    packet_len: usize,
    ecn: Option<EcnDecapsulation>,
)
    ensures
        *final(counters) == multicast_counted(*old(counters), packet_len as int, ecn),
        *final(data_log) == (GatewayDataLog {
            amt_packets: counted(old(data_log).amt_packets, 1),
            amt_bytes: counted(old(data_log).amt_bytes, packet_len as int),
            ..*old(data_log)
        }),
{
    counters.multicast_data_received_total = count(counters.multicast_data_received_total, 1);
    counters.multicast_data_bytes_received_total = count(
        counters.multicast_data_bytes_received_total,
        packet_len as u64,
    );
    if let Some(ecn) = ecn {
        let marked: bool = matches!(ecn.outer, EcnCodepoint::Ce);
        counters.gateway_ecn_ce_received_total = count_if(
            counters.gateway_ecn_ce_received_total,
            marked,
        );
        counters.gateway_ecn_ce_propagated_total = count_if(
            counters.gateway_ecn_ce_propagated_total,
            ecn.propagated_ce(),
        );
        counters.gateway_ecn_currently_unused_total = count_if(
            counters.gateway_ecn_currently_unused_total,
            ecn.currently_unused,
        );
    }
    data_log.record_amt_packet(packet_len as u64);
}

/// Counters after a packet that its ECN marks forbid to forward.
pub open spec fn ecn_drop_counted(
    counters: AmtMetricsCounters,
    packet_len: int,
    ecn: EcnDecapsulation,
) -> AmtMetricsCounters {
    AmtMetricsCounters {
        multicast_data_received_total: counted(counters.multicast_data_received_total, 1),
        multicast_data_bytes_received_total: counted(
            counters.multicast_data_bytes_received_total,
            packet_len,
        ),
        gateway_ecn_ce_received_total: counted_if(
            counters.gateway_ecn_ce_received_total,
            ecn.outer is Ce,
        ),
        gateway_ecn_currently_unused_total: counted_if(
            counters.gateway_ecn_currently_unused_total,
            ecn.currently_unused,
        ),
        gateway_ecn_invalid_drops_total: counted(counters.gateway_ecn_invalid_drops_total, 1),
        ..counters
    }
}

/// Counts a packet that its ECN marks forbid to forward.
pub fn record_gateway_ecn_drop(
    counters: &mut AmtMetricsCounters,
    packet_len: usize,
    ecn: EcnDecapsulation,
)
    ensures
        *final(counters) == ecn_drop_counted(*old(counters), packet_len as int, ecn),
{
    counters.multicast_data_received_total = count(counters.multicast_data_received_total, 1);
    counters.multicast_data_bytes_received_total = count(
        counters.multicast_data_bytes_received_total,
        packet_len as u64,
    );
    let marked: bool = matches!(ecn.outer, EcnCodepoint::Ce);
    counters.gateway_ecn_ce_received_total = count_if(
        counters.gateway_ecn_ce_received_total,
        marked,
    );
    counters.gateway_ecn_currently_unused_total = count_if(
        counters.gateway_ecn_currently_unused_total,
        ecn.currently_unused,
    );
    counters.gateway_ecn_invalid_drops_total = count(counters.gateway_ecn_invalid_drops_total, 1);
}

/// What became of a packet that was to be forwarded.
#[derive(Debug, PartialEq, Eq)]
pub enum DownstreamOutcome {
    Forwarded(usize),
    NotMulticast,
    Failed(String),
}

/// Counts what became of a packet that was to be forwarded.
pub fn record_downstream(
    counters: &mut AmtMetricsCounters,
    data_log: &mut GatewayDataLog,
    outcome: DownstreamOutcome,
)
    ensures
        match outcome {
            DownstreamOutcome::Forwarded(bytes) => {
                &&& *final(counters) == (AmtMetricsCounters {
                    downstream_packets_forwarded_total: counted(
                        old(counters).downstream_packets_forwarded_total,
                        1,
                    ),
                    downstream_bytes_forwarded_total: counted(
                        old(counters).downstream_bytes_forwarded_total,
                        bytes as int,
                    ),
                    ..*old(counters)
                })
                &&& *final(data_log) == (GatewayDataLog {
                    downstream_packets: counted(old(data_log).downstream_packets, 1),
                    downstream_bytes: counted(old(data_log).downstream_bytes, bytes as int),
                    ..*old(data_log)
                })
            },
            DownstreamOutcome::NotMulticast => {
                &&& *final(counters) == (AmtMetricsCounters {
                    downstream_non_multicast_packets_total: counted(
                        old(counters).downstream_non_multicast_packets_total,
                        1,
                    ),
                    ..*old(counters)
                })
                &&& *final(data_log) == (GatewayDataLog {
                    non_multicast_packets: counted(old(data_log).non_multicast_packets, 1),
                    ..*old(data_log)
                })
            },
            DownstreamOutcome::Failed(error) => {
                &&& *final(counters) == (AmtMetricsCounters {
                    downstream_forward_errors_total: counted(
                        old(counters).downstream_forward_errors_total,
                        1,
                    ),
                    ..*old(counters)
                })
                &&& *final(data_log) == (GatewayDataLog {
                    downstream_errors: counted(old(data_log).downstream_errors, 1),
                    last_downstream_error: Some(error),
                    ..*old(data_log)
                })
            },
        },
{
    match outcome {
        DownstreamOutcome::Forwarded(bytes) => {
            counters.downstream_packets_forwarded_total = count(
                counters.downstream_packets_forwarded_total,
                1,
            );
            counters.downstream_bytes_forwarded_total = count(
                counters.downstream_bytes_forwarded_total,
                bytes as u64,
            );
            data_log.record_downstream_forwarded(bytes as u64);
        },
        DownstreamOutcome::NotMulticast => {
            counters.downstream_non_multicast_packets_total = count(
                counters.downstream_non_multicast_packets_total,
                1,
            );
            data_log.record_non_multicast();
        },
        DownstreamOutcome::Failed(error) => {
            counters.downstream_forward_errors_total = count(
                counters.downstream_forward_errors_total,
                1,
            );
            data_log.record_downstream_error(error);
        },
    }
}

/// Counters after a control response that was sent.
pub open spec fn response_counted(counters: AmtMetricsCounters, bytes: int) -> AmtMetricsCounters {
    AmtMetricsCounters {
        control_responses_sent_total: counted(counters.control_responses_sent_total, 1),
        control_response_bytes_sent_total: counted(
            counters.control_response_bytes_sent_total,
            bytes,
        ),
        ..counters
    }
}

/// Counts a control response that is sent.
pub fn count_response(counters: &mut AmtMetricsCounters, bytes: usize)
    ensures
        *final(counters) == response_counted(*old(counters), bytes as int),
{
    counters.control_responses_sent_total = count(counters.control_responses_sent_total, 1);
    counters.control_response_bytes_sent_total = count(
        counters.control_response_bytes_sent_total,
        bytes as u64,
    );
}

/// Counts a datagram that could not be sent.
pub fn count_send_error(counters: &mut AmtMetricsCounters)
    ensures
        *final(counters) == (AmtMetricsCounters {
            send_errors_total: counted(old(counters).send_errors_total, 1),
            ..*old(counters)
        }),
{
    counters.send_errors_total = count(counters.send_errors_total, 1);
}

/// Counts a refresh of the memberships at a relay.
pub fn count_refresh(counters: &mut AmtMetricsCounters)
    ensures
        *final(counters) == (AmtMetricsCounters {
            gateway_membership_refreshes_total: counted(
                old(counters).gateway_membership_refreshes_total,
                1,
            ),
            ..*old(counters)
        }),
{
    counters.gateway_membership_refreshes_total = count(
        counters.gateway_membership_refreshes_total,
        1,
    );
}

/// Counts a report from a local host, or a packet that is none.
pub fn count_local_report(counters: &mut AmtMetricsCounters, valid: bool)
    ensures
        *final(counters) == if valid {
            AmtMetricsCounters {
                local_membership_reports_total: counted(
                    old(counters).local_membership_reports_total,
                    1,
                ),
                ..*old(counters)
            }
        } else {
            AmtMetricsCounters {
                local_membership_parse_errors_total: counted(
                    old(counters).local_membership_parse_errors_total,
                    1,
                ),
                ..*old(counters)
            }
        },
{
    if valid {
        counters.local_membership_reports_total = count(counters.local_membership_reports_total, 1);
    } else {
        counters.local_membership_parse_errors_total = count(
            counters.local_membership_parse_errors_total,
            1,
        );
    }
}

/// Counts a query to local hosts that was sent, or could not be sent.
pub fn local_query_sent(counters: &mut AmtMetricsCounters, sent: bool)
    ensures
        *final(counters) == if sent {
            AmtMetricsCounters {
                local_queries_sent_total: counted(old(counters).local_queries_sent_total, 1),
                ..*old(counters)
            }
        } else {
            AmtMetricsCounters {
                downstream_forward_errors_total: counted(
                    old(counters).downstream_forward_errors_total,
                    1,
                ),
                ..*old(counters)
            }
        },
{
    if sent {
        counters.local_queries_sent_total = count(counters.local_queries_sent_total, 1);
    } else {
        counters.downstream_forward_errors_total = count(
            counters.downstream_forward_errors_total,
            1,
        );
    }
}

/// A gateway asks at least as often as it is set up to, and at least as often
/// as the relay suggests, where it suggests anything.
pub proof fn law_refreshes_come_in_time(configured: Duration, suggested: Duration)
    ensures
        refresh_interval(configured, suggested).nanos <= configured.nanos,
        suggested.nanos > 0 ==> refresh_interval(configured, suggested).nanos <= suggested.nanos,
{
}

/// A new query is asked for as often as configured, or as often as the relay
/// suggests where that is more often; no suggestion is none.
pub proof fn law_the_shorter_interval_counts(configured: Duration, suggested: Duration)
    ensures
        suggested.nanos == 0 ==> refresh_interval(configured, suggested) == configured,
        0 < suggested.nanos <= configured.nanos ==> refresh_interval(configured, suggested)
            == suggested,
        suggested.nanos > configured.nanos ==> refresh_interval(configured, suggested)
            == configured,
{
}

/// Something lapses when its span has passed, and what never happened does not;
/// what happens at intervals is due at once the first time, and then when its
/// interval has passed.
pub proof fn law_spans_lapse_in_time(since: Instant, span: Duration, now: Instant)
    requires
        since.nanos <= now.nanos,
    ensures
        lapsed(Some(since), span, now) <==> since.nanos + span.nanos <= now.nanos,
        !lapsed(None, span, now),
        due_again(None, span, now),
        due_again(Some(since), span, now) <==> since.nanos + span.nanos <= now.nanos,
{
}

/// A packet out of the tunnel counts with its bytes; its ECN marks count as seen on
/// the outside, as passed on where congestion was, and as unused.
pub proof fn law_multicast_is_counted(counters: AmtMetricsCounters, packet_len: int, ecn: Option<EcnDecapsulation>)
    ensures
        ({
            let after = multicast_counted(counters, packet_len, ecn);
            &&& after.multicast_data_received_total == counted(counters.multicast_data_received_total, 1)
            &&& after.multicast_data_bytes_received_total == counted(counters.multicast_data_bytes_received_total, packet_len)
            &&& ecn is Some && ecn->Some_0.outer is Ce ==> after.gateway_ecn_ce_received_total == counted(counters.gateway_ecn_ce_received_total, 1)
            &&& !(ecn is Some && ecn->Some_0.outer is Ce) ==> after.gateway_ecn_ce_received_total == counters.gateway_ecn_ce_received_total
            &&& ecn is Some && ecn->Some_0.propagated_ce_spec() ==> after.gateway_ecn_ce_propagated_total == counted(counters.gateway_ecn_ce_propagated_total, 1)
            &&& !(ecn is Some && ecn->Some_0.propagated_ce_spec()) ==> after.gateway_ecn_ce_propagated_total == counters.gateway_ecn_ce_propagated_total
            &&& ecn is Some && ecn->Some_0.currently_unused ==> after.gateway_ecn_currently_unused_total == counted(counters.gateway_ecn_currently_unused_total, 1)
            &&& !(ecn is Some && ecn->Some_0.currently_unused) ==> after.gateway_ecn_currently_unused_total == counters.gateway_ecn_currently_unused_total
            &&& counters == (AmtMetricsCounters {
                multicast_data_received_total: counters.multicast_data_received_total,
                multicast_data_bytes_received_total: counters.multicast_data_bytes_received_total,
                gateway_ecn_ce_received_total: counters.gateway_ecn_ce_received_total,
                gateway_ecn_ce_propagated_total: counters.gateway_ecn_ce_propagated_total,
                gateway_ecn_currently_unused_total: counters.gateway_ecn_currently_unused_total,
                ..after
            })
        }),
{
}

/// A packet that its ECN marks forbid to forward counts as received and as dropped.
pub proof fn law_forbidden_packets_are_counted(counters: AmtMetricsCounters, packet_len: int, ecn: EcnDecapsulation)
    ensures
        ({
            let after = ecn_drop_counted(counters, packet_len, ecn);
            &&& after.multicast_data_received_total == counted(counters.multicast_data_received_total, 1)
            &&& after.multicast_data_bytes_received_total == counted(counters.multicast_data_bytes_received_total, packet_len)
            &&& ecn.outer is Ce ==> after.gateway_ecn_ce_received_total == counted(counters.gateway_ecn_ce_received_total, 1)
            &&& !(ecn.outer is Ce) ==> after.gateway_ecn_ce_received_total == counters.gateway_ecn_ce_received_total
            &&& ecn.currently_unused ==> after.gateway_ecn_currently_unused_total == counted(counters.gateway_ecn_currently_unused_total, 1)
            &&& !(ecn.currently_unused) ==> after.gateway_ecn_currently_unused_total == counters.gateway_ecn_currently_unused_total
            &&& after.gateway_ecn_invalid_drops_total == counted(counters.gateway_ecn_invalid_drops_total, 1)
            &&& counters == (AmtMetricsCounters {
                multicast_data_received_total: counters.multicast_data_received_total,
                multicast_data_bytes_received_total: counters.multicast_data_bytes_received_total,
                gateway_ecn_ce_received_total: counters.gateway_ecn_ce_received_total,
                gateway_ecn_currently_unused_total: counters.gateway_ecn_currently_unused_total,
                gateway_ecn_invalid_drops_total: counters.gateway_ecn_invalid_drops_total,
                ..after
            })
        }),
{
}

/// A control response counts with its bytes.
pub proof fn law_responses_are_counted(counters: AmtMetricsCounters, bytes: int)
    ensures
        ({
            let after = response_counted(counters, bytes);
            &&& after.control_responses_sent_total == counted(counters.control_responses_sent_total, 1)
            &&& after.control_response_bytes_sent_total == counted(counters.control_response_bytes_sent_total, bytes)
            &&& counters == (AmtMetricsCounters {
                control_responses_sent_total: counters.control_responses_sent_total,
                control_response_bytes_sent_total: counters.control_response_bytes_sent_total,
                ..after
            })
        }),
{
}

} // verus!
