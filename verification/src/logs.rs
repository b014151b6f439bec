//! Summaries that are printed from time to time.

use crate::metrics::{count, counted};
use crate::time::{Duration, Instant};
use vstd::prelude::*;

verus! {

/// How often, in seconds, a summary is printed.
pub const DATA_LOG_INTERVAL_SECS: u64 = 5;

/// Whether a summary may be printed again.
pub open spec fn log_due(last_emit: Instant, now: Instant) -> bool {
    now.nanos >= last_emit.nanos && now.nanos - last_emit.nanos >= 5_000_000_000
}

fn is_log_due(last_emit: Instant, now: Instant) -> (due: bool)
    ensures
        due == log_due(last_emit, now),
{
    match now.checked_duration_since(last_emit) {
        Some(elapsed) => elapsed.nanos >= Duration::from_secs(DATA_LOG_INTERVAL_SECS).nanos,
        None => false,
    }
}

/// A product, or the largest number of 64 bits where that is less.
pub open spec fn product(a: u64, b: u64) -> int {
    if a * b <= u64::MAX {
        a * b
    } else {
        u64::MAX as int
    }
}

/// How many errors there were since the last summary, and the last of them.
#[derive(Debug, PartialEq, Eq)]
pub struct ErrorSummary {
    pub label: &'static str,
    pub last_emit: Instant,
    pub count: u64,
    pub last_error: Option<String>,
}

/// What is printed about errors.
#[derive(Debug, PartialEq, Eq)]
pub struct ErrorReport {
    pub label: &'static str,
    pub count: u64,
    pub last_error: Option<String>,
}

impl ErrorSummary {
    pub fn new(label: &'static str, now: Instant) -> (summary: Self)
        ensures
            summary == (ErrorSummary { label, last_emit: now, count: 0, last_error: None }),
    {
        ErrorSummary { label, last_emit: now, count: 0, last_error: None }
    }

    pub fn record(&mut self, error: String)
        ensures
            *final(self) == (ErrorSummary {
                count: counted(old(self).count, 1),
                last_error: Some(error),
                ..*old(self)
            }),
    {
        self.count = count(self.count, 1);
        self.last_error = Some(error);
    }

    /// What to print now, if anything; it is then forgotten.
    pub fn maybe_emit(&mut self, now: Instant) -> (report: Option<ErrorReport>)
        ensures
            if old(self).count != 0 && log_due(old(self).last_emit, now) {
                &&& report == Some(
                    ErrorReport {
                        label: old(self).label,
                        count: old(self).count,
                        last_error: old(self).last_error,
                    },
                )
                &&& *final(self) == (ErrorSummary {
                    label: old(self).label,
                    last_emit: now,
                    count: 0,
                    last_error: None,
                })
            } else {
                report is None && *final(self) == *old(self)
            },
    {
        if self.count == 0 || !is_log_due(self.last_emit, now) {
            return None;
        }
        let mut last_error: Option<String> = None;
        std::mem::swap(&mut last_error, &mut self.last_error);
        let report = ErrorReport { label: self.label, count: self.count, last_error };
        self.count = 0;
        self.last_emit = now;
        Some(report)
    }
}

/// What a relay did with data since the last summary.
#[derive(Debug, PartialEq, Eq)]
pub struct RelayDataLog {
    pub last_emit: Instant,
    pub received_packets: u64,
    pub received_bytes: u64,
    pub forwarded_packets: u64,
    pub forwarded_bytes: u64,
    pub forwarded_gateway_sends: u64,
    pub unmatched_packets: u64,
    pub worker_queue_drops: u64,
    pub send_errors: u64,
    pub mtu_drops: u64,
    pub last_unmatched_protocol: Option<&'static str>,
    pub last_send_error: Option<String>,
    pub last_mtu_drop: Option<&'static str>,
}

impl RelayDataLog {
    /// A log in which nothing has happened.
    pub open spec fn quiet(now: Instant) -> Self {
        RelayDataLog {
            last_emit: now,
            received_packets: 0,
            received_bytes: 0,
            forwarded_packets: 0,
            forwarded_bytes: 0,
            forwarded_gateway_sends: 0,
            unmatched_packets: 0,
            worker_queue_drops: 0,
            send_errors: 0,
            mtu_drops: 0,
            last_unmatched_protocol: None,
            last_send_error: None,
            last_mtu_drop: None,
        }
    }

    pub fn new(now: Instant) -> (log: Self)
        ensures
            log == Self::quiet(now),
    {
        RelayDataLog {
            last_emit: now,
            received_packets: 0,
            received_bytes: 0,
            forwarded_packets: 0,
            forwarded_bytes: 0,
            forwarded_gateway_sends: 0,
            unmatched_packets: 0,
            worker_queue_drops: 0,
            send_errors: 0,
            mtu_drops: 0,
            last_unmatched_protocol: None,
            last_send_error: None,
            last_mtu_drop: None,
        }
    }

    /// What the receiver took in and lost.
    pub fn record_worker_activity(&mut self, packets: u64, bytes: u64, queue_drops: u64)
        ensures
            *final(self) == (RelayDataLog {
                received_packets: counted(old(self).received_packets, packets as int),
                received_bytes: counted(old(self).received_bytes, bytes as int),
                worker_queue_drops: counted(old(self).worker_queue_drops, queue_drops as int),
                ..*old(self)
            }),
    {
        self.received_packets = count(self.received_packets, packets);
        self.received_bytes = count(self.received_bytes, bytes);
        self.worker_queue_drops = count(self.worker_queue_drops, queue_drops);
    }

    /// A packet that no gateway wants.
    pub fn record_unmatched(&mut self, protocol: &'static str)
        ensures
            *final(self) == (RelayDataLog {
                unmatched_packets: counted(old(self).unmatched_packets, 1),
                last_unmatched_protocol: Some(protocol),
                ..*old(self)
            }),
    {
        self.unmatched_packets = count(self.unmatched_packets, 1);
        self.last_unmatched_protocol = Some(protocol);
    }

    /// A packet that went to some gateways.
    pub fn record_forwarded(&mut self, bytes: u64, gateway_sends: u64)
        ensures
            *final(self) == if gateway_sends == 0 {
                *old(self)
            } else {
                RelayDataLog {
                    forwarded_packets: counted(old(self).forwarded_packets, 1),
                    forwarded_bytes: counted(
                        old(self).forwarded_bytes,
                        product(bytes, gateway_sends),
                    ),
                    forwarded_gateway_sends: counted(
                        old(self).forwarded_gateway_sends,
                        gateway_sends as int,
                    ),
                    ..*old(self)
                }
            },
    {
        if gateway_sends != 0 {
            self.forwarded_packets = count(self.forwarded_packets, 1);
            let total: u64 = match bytes.checked_mul(gateway_sends) {
                Some(total) => total,
                None => u64::MAX,
            };
            self.forwarded_bytes = count(self.forwarded_bytes, total);
            self.forwarded_gateway_sends = count(self.forwarded_gateway_sends, gateway_sends);
        }
    }

    /// A datagram that could not be sent.
    pub fn record_send_error(&mut self, error: String)
        ensures
            *final(self) == (RelayDataLog {
                send_errors: counted(old(self).send_errors, 1),
                last_send_error: Some(error),
                ..*old(self)
            }),
    {
        self.send_errors = count(self.send_errors, 1);
        self.last_send_error = Some(error);
    }

    /// A packet too large for a tunnel.
    pub fn record_mtu_drop(&mut self, reason: &'static str)
        ensures
            *final(self) == (RelayDataLog {
                mtu_drops: counted(old(self).mtu_drops, 1),
                last_mtu_drop: Some(reason),
                ..*old(self)
            }),
    {
        self.mtu_drops = count(self.mtu_drops, 1);
        self.last_mtu_drop = Some(reason);
    }

    pub open spec fn has_events_spec(self) -> bool {
        self.received_packets != 0 || self.worker_queue_drops != 0 || self.send_errors != 0 || self.mtu_drops != 0
    }

    /// Whether there is anything to print.
    pub fn has_events(&self) -> (b: bool)
        ensures
            b == self.has_events_spec(),
    {
        self.received_packets != 0 || self.worker_queue_drops != 0 || self.send_errors != 0 || self.mtu_drops != 0
    }

    /// The log to print now, if a summary is due; a new one takes its place.
    pub fn maybe_emit(&mut self, now: Instant) -> (due: Option<RelayDataLog>)
        ensures
            if log_due(old(self).last_emit, now) && old(self).has_events_spec() {
                due == Some(*old(self)) && *final(self) == Self::quiet(now)
            } else {
                due is None && *final(self) == *old(self)
            },
    {
        if !is_log_due(self.last_emit, now) || !self.has_events() {
            return None;
        }
        let mut log = RelayDataLog::new(now);
        std::mem::swap(&mut log, self);
        Some(log)
    }
}

/// What a gateway did with data since the last summary.
#[derive(Debug, PartialEq, Eq)]
pub struct GatewayDataLog {
    pub last_emit: Instant,
    pub amt_packets: u64,
    pub amt_bytes: u64,
    pub downstream_packets: u64,
    pub downstream_bytes: u64,
    pub non_multicast_packets: u64,
    pub downstream_errors: u64,
    pub last_downstream_error: Option<String>,
}

impl GatewayDataLog {
    /// A log in which nothing has happened.
    pub open spec fn quiet(now: Instant) -> Self {
        GatewayDataLog {
            last_emit: now,
            amt_packets: 0,
            amt_bytes: 0,
            downstream_packets: 0,
            downstream_bytes: 0,
            non_multicast_packets: 0,
            downstream_errors: 0,
            last_downstream_error: None,
        }
    }

    pub fn new(now: Instant) -> (log: Self)
        ensures
            log == Self::quiet(now),
    {
        GatewayDataLog {
            last_emit: now,
            amt_packets: 0,
            amt_bytes: 0,
            downstream_packets: 0,
            downstream_bytes: 0,
            non_multicast_packets: 0,
            downstream_errors: 0,
            last_downstream_error: None,
        }
    }

    /// A packet out of the tunnel.
    pub fn record_amt_packet(&mut self, bytes: u64)
        ensures
            *final(self) == (GatewayDataLog {
                amt_packets: counted(old(self).amt_packets, 1),
                amt_bytes: counted(old(self).amt_bytes, bytes as int),
                ..*old(self)
            }),
    {
        self.amt_packets = count(self.amt_packets, 1);
        self.amt_bytes = count(self.amt_bytes, bytes);
    }

    /// A packet that was forwarded.
    pub fn record_downstream_forwarded(&mut self, bytes: u64)
        ensures
            *final(self) == (GatewayDataLog {
                downstream_packets: counted(old(self).downstream_packets, 1),
                downstream_bytes: counted(old(self).downstream_bytes, bytes as int),
                ..*old(self)
            }),
    {
        self.downstream_packets = count(self.downstream_packets, 1);
        self.downstream_bytes = count(self.downstream_bytes, bytes);
    }

    /// A packet that is no multicast.
    pub fn record_non_multicast(&mut self)
        ensures
            *final(self) == (GatewayDataLog {
                non_multicast_packets: counted(old(self).non_multicast_packets, 1),
                ..*old(self)
            }),
    {
        self.non_multicast_packets = count(self.non_multicast_packets, 1);
    }

    /// A packet that could not be forwarded.
    pub fn record_downstream_error(&mut self, error: String)
        ensures
            *final(self) == (GatewayDataLog {
                downstream_errors: counted(old(self).downstream_errors, 1),
                last_downstream_error: Some(error),
                ..*old(self)
            }),
    {
        self.downstream_errors = count(self.downstream_errors, 1);
        self.last_downstream_error = Some(error);
    }

    pub open spec fn has_events_spec(self) -> bool {
        self.amt_packets != 0 || self.downstream_errors != 0
    }

    /// Whether there is anything to print.
    pub fn has_events(&self) -> (b: bool)
        ensures
            b == self.has_events_spec(),
    {
        self.amt_packets != 0 || self.downstream_errors != 0
    }

    /// The log to print now, if a summary is due; a new one takes its place.
    pub fn maybe_emit(&mut self, now: Instant) -> (due: Option<GatewayDataLog>)
        ensures
            if log_due(old(self).last_emit, now) && old(self).has_events_spec() {
                due == Some(*old(self)) && *final(self) == Self::quiet(now)
            } else {
                due is None && *final(self) == *old(self)
            },
    {
        if !is_log_due(self.last_emit, now) || !self.has_events() {
            return None;
        }
        let mut log = GatewayDataLog::new(now);
        std::mem::swap(&mut log, self);
        Some(log)
    }
}

/// A summary may be printed again five seconds after the last one.
pub proof fn law_summaries_are_five_seconds_apart(last_emit: Instant, now: Instant)
    ensures
        log_due(last_emit, now) <==> last_emit.nanos + 5_000_000_000 <= now.nanos,
{
}

} // verus!
