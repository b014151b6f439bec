//! What follows once a tunnel's datagrams are sent, or could not be.

use crate::driad_tunnel::{
    count_probe_error, desired_noted, failure_counted, given_up, probe_error_counted, teardown_of,
    traffic_timeout, ActiveDriadTunnel, ActiveModel, DriadActiveFailure, DriadSourceTunnel,
    TunnelModel,
};
use crate::gateway::GatewaySend;
use crate::gateway_daemon::{count_refresh, count_response, count_send_error, response_counted};
use crate::metrics::{counted, AmtMetricsCounters};
use crate::static_gateway::optional_send;
use crate::time::Instant;
use vstd::prelude::*;

verus! {

/// What was to be sent to the relay in use.
#[derive(Debug, Clone, Copy, PartialEq, Eq, Structural)]
pub enum ActiveSend {
    /// A request for a new query.
    Request,
    /// An answer of so many bytes.
    Response(usize),
    /// The memberships, because they changed.
    Update,
    /// The memberships, because the relay asked for them.
    Refresh,
}

/// Counters after memberships that were sent.
pub open spec fn update_counted(counters: AmtMetricsCounters, what: ActiveSend) -> AmtMetricsCounters {
    AmtMetricsCounters {
        gateway_membership_updates_sent_total: counted(
            counters.gateway_membership_updates_sent_total,
            1,
        ),
        gateway_membership_refreshes_total: if what is Refresh {
            counted(counters.gateway_membership_refreshes_total, 1)
        } else {
            counters.gateway_membership_refreshes_total
        },
        ..counters
    }
}

/// Counters after a datagram that could not be sent.
pub open spec fn send_error_counted(counters: AmtMetricsCounters) -> AmtMetricsCounters {
    AmtMetricsCounters { send_errors_total: counted(counters.send_errors_total, 1), ..counters }
}

/// What became of the memberships for a relay that can serve a source.
#[derive(Debug, Clone, Copy, PartialEq, Eq, Structural)]
pub enum WinnerUpdate {
    Sent,
    /// There was nothing to say.
    Nothing,
    Failed,
}

/// A tunnel that a relay serves from now on.
pub open spec fn activated(m: TunnelModel, active: ActiveModel) -> TunnelModel {
    TunnelModel {
        active: Some(active),
        probes: Seq::empty(),
        pending: Seq::empty(),
        retry_attempt: 0,
        ..m
    }
}

/// Counters after a relay that serves a source from now on.
pub open spec fn activation_counted(counters: AmtMetricsCounters) -> AmtMetricsCounters {
    AmtMetricsCounters {
        driad_connections_established_total: counted(
            counters.driad_connections_established_total,
            1,
        ),
        ..counters
    }
}

impl DriadSourceTunnel {
    /// Takes note of a datagram to the relay in use.  A relay that it could not
    /// be sent to is given up; the teardown to send is then given.
    pub fn active_sent(
        &mut self,
        what: ActiveSend,
        sent: bool,
        now: Instant,
        counters: &mut AmtMetricsCounters,
    ) -> (teardown: Option<GatewaySend>)
        requires
            old(self).wf(),
            old(self).settings.fits_clock(now),
        ensures
            final(self).wf(),
            match old(self)@.active {
                None => final(self)@ == old(self)@ && *final(counters) == *old(counters)
                    && teardown is None,
                Some(active) => if !sent {
                    &&& final(self)@ == given_up(
                        old(self)@,
                        active,
                        DriadActiveFailure::QueryTimeout,
                        now,
                    )
                    &&& *final(counters) == failure_counted(
                        send_error_counted(*old(counters)),
                        DriadActiveFailure::QueryTimeout,
                    )
                    &&& optional_send(teardown) == teardown_of(active.gateway)
                } else {
                    &&& teardown is None
                    &&& match what {
                        ActiveSend::Request => final(self)@ == old(self)@ && *final(counters)
                            == *old(counters),
                        ActiveSend::Response(bytes) => {
                            &&& final(self)@ == old(self)@
                            &&& *final(counters) == response_counted(*old(counters), bytes as int)
                        },
                        ActiveSend::Update | ActiveSend::Refresh => {
                            &&& exists|random: u64|
                                final(self)@ == (TunnelModel {
                                    active: Some(
                                        desired_noted(
                                            active,
                                            now,
                                            #[trigger] traffic_timeout(
                                                old(self).settings,
                                                old(self).traffic_retry_attempt,
                                                random,
                                            ),
                                        ),
                                    ),
                                    ..old(self)@
                                })
                            &&& *final(counters) == update_counted(*old(counters), what)
                        },
                    }
                },
            },
    {
        if !self.is_active() {
            return None;
        }
        if !sent {
            count_send_error(counters);
            return self.fail_active(DriadActiveFailure::QueryTimeout, now, counters);
        }
        match what {
            ActiveSend::Request => None,
            ActiveSend::Response(bytes) => {
                count_response(counters, bytes);
                None
            },
            ActiveSend::Update | ActiveSend::Refresh => {
                let timeout = self.next_traffic_timeout();
                let ghost random = choose|random: u64|
                    timeout == #[trigger] traffic_timeout(
                        self.settings,
                        self.traffic_retry_attempt,
                        random,
                    );
                if let Some(active) = &mut self.active {
                    active.desired_sent(now, timeout, counters);
                }
                if matches!(what, ActiveSend::Refresh) {
                    count_refresh(counters);
                }
                proof {
                    assert(self@.active == Some(
                        desired_noted(
                            old(self)@.active->Some_0,
                            now,
                            traffic_timeout(
                                old(self).settings,
                                old(self).traffic_retry_attempt,
                                random,
                            ),
                        ),
                    ));
                }
                None
            },
        }
    }

    /// Has a relay that can serve the source do so, unless it could not be told
    /// the memberships; tells whether it does.
    pub fn winner_settled(
        &mut self,
        winner: ActiveDriadTunnel,
        update: WinnerUpdate,
        now: Instant,
        counters: &mut AmtMetricsCounters,
    ) -> (serves: bool)
        requires
            old(self).wf(),
            old(self).settings.fits_clock(now),
            winner.wf(),
        ensures
            final(self).wf(),
            serves == !(update is Failed),
            match update {
                WinnerUpdate::Failed => final(self)@ == old(self)@ && *final(counters)
                    == probe_error_counted(*old(counters), true),
                WinnerUpdate::Nothing => final(self)@ == activated(old(self)@, winner@)
                    && *final(counters) == activation_counted(*old(counters)),
                WinnerUpdate::Sent => {
                    &&& exists|random: u64|
                        final(self)@ == activated(
                            old(self)@,
                            desired_noted(
                                winner@,
                                now,
                                #[trigger] traffic_timeout(
                                    old(self).settings,
                                    old(self).traffic_retry_attempt,
                                    random,
                                ),
                            ),
                        )
                    &&& *final(counters) == activation_counted(
                        update_counted(*old(counters), ActiveSend::Update),
                    )
                },
            },
    {
        match update {
            WinnerUpdate::Failed => {
                count_probe_error(counters, true);
                false
            },
            WinnerUpdate::Nothing => {
                self.activate(winner, counters);
                true
            },
            WinnerUpdate::Sent => {
                let timeout = self.next_traffic_timeout();
                let ghost random = choose|random: u64|
                    timeout == #[trigger] traffic_timeout(
                        self.settings,
                        self.traffic_retry_attempt,
                        random,
                    );
                let mut active = winner;
                active.desired_sent(now, timeout, counters);
                self.activate(active, counters);
                proof {
                    assert(self@ == activated(
                        old(self)@,
                        desired_noted(
                            winner@,
                            now,
                            traffic_timeout(
                                old(self).settings,
                                old(self).traffic_retry_attempt,
                                random,
                            ),
                        ),
                    ));
                }
                true
            },
        }
    }
}

/// Memberships that were sent count as an update, and as a refresh where they were
/// sent for one; no other counter moves.
pub proof fn law_updates_are_counted(counters: AmtMetricsCounters, what: ActiveSend)
    ensures
        ({
            let after = update_counted(counters, what);
            &&& after.gateway_membership_updates_sent_total == counted(counters.gateway_membership_updates_sent_total, 1)
            &&& what is Refresh ==> after.gateway_membership_refreshes_total == counted(counters.gateway_membership_refreshes_total, 1)
            &&& !(what is Refresh) ==> after.gateway_membership_refreshes_total == counters.gateway_membership_refreshes_total
            &&& counters == (AmtMetricsCounters {
                gateway_membership_updates_sent_total: counters.gateway_membership_updates_sent_total,
                gateway_membership_refreshes_total: counters.gateway_membership_refreshes_total,
                ..after
            })
        }),
{
}

/// A datagram that could not be sent counts as an error, and nothing else.
pub proof fn law_send_errors_are_counted(counters: AmtMetricsCounters)
    ensures
        ({
            let after = send_error_counted(counters);
            &&& after.send_errors_total == counted(counters.send_errors_total, 1)
            &&& counters == (AmtMetricsCounters {
                send_errors_total: counters.send_errors_total,
                ..after
            })
        }),
{
}

/// A relay that serves a source from now on counts as a connection, and nothing
/// else.
pub proof fn law_connections_are_counted(counters: AmtMetricsCounters)
    ensures
        ({
            let after = activation_counted(counters);
            &&& after.driad_connections_established_total == counted(counters.driad_connections_established_total, 1)
            &&& counters == (AmtMetricsCounters {
                driad_connections_established_total: counters.driad_connections_established_total,
                ..after
            })
        }),
{
}

/// A relay that serves a source from now on ends the search for one: no probe runs
/// or waits, and the next search starts without patience gathered before.
pub proof fn law_relays_that_serve_end_the_search(m: TunnelModel, active: ActiveModel)
    ensures
        ({
            let after = activated(m, active);
            &&& after.active == Some(active)
            &&& after.probes.len() == 0 && after.pending.len() == 0
            &&& after.retry_attempt == 0
            &&& after.hold_downs == m.hold_downs && after.dns_candidates == m.dns_candidates
            &&& after.refresh == m.refresh
        }),
{
}

} // verus!
