//! The relay daemon's decisions.  The caller owns the sockets and the receiver
//! of multicast; it hands in what arrived and does what it is told.

use crate::activity::{
    prune_stale_gateways, relay_without, stale_set, with_memberships, GatewayActivity,
};
use crate::logs::RelayDataLog;
use crate::metrics::{count, counted, less, AmtMetricsCounters, MetricsRecorder};
use crate::net::{IpAddr, SocketAddr};
use crate::ordered::in_order;
use crate::relay::{
    after_answer, after_rotation, answer, named_endpoint, Prepared, Relay, RelayAction,
    RelayActionModel, RelayConfig, RelayError, RelayErrorModel, RelayModel,
};
use crate::state::{subscriptions_of, RelayState, TableModel, UpstreamSubscription};
use crate::time::{Duration, Instant};
use vstd::prelude::*;

verus! {

/// How many control datagrams are taken in before data is looked at.
pub const MAX_CONTROL_DRAIN: usize = 128;

/// The longest time, in seconds, for which an idle relay waits.
pub const RELAY_IDLE_MAINTENANCE_SECS: u64 = 1;

/// A relay, what it knows of its gateways' activity, and what it counts.
#[derive(PartialEq, Eq)]
pub struct RelayControl {
    pub relay: Relay,
    pub activity: GatewayActivity,
    pub counters: AmtMetricsCounters,
}

/// A [`RelayControl`] with its parts as mathematical values.
#[verifier::ext_equal]
pub struct ControlModel {
    pub relay: RelayModel,
    pub activity: Map<SocketAddr, Instant>,
    pub counters: AmtMetricsCounters,
}

impl View for RelayControl {
    type V = ControlModel;

    open spec fn view(&self) -> ControlModel {
        ControlModel {
            relay: self.relay@,
            activity: self.activity@,
            counters: self.counters,
        }
    }
}

/// What changed when the receiver was told which multicast to receive.
#[derive(Debug, Clone, Copy, PartialEq, Eq, Structural)]
pub struct UpstreamReconcile {
    pub added: usize,
    pub removed: usize,
    pub failed_removals: usize,
    pub active: usize,
}

impl UpstreamReconcile {
    pub fn changed(&self) -> (b: bool)
        ensures
            b == (self.added != 0 || self.removed != 0),
    {
        self.added != 0 || self.removed != 0
    }
}

/// Counters after such a change.
pub open spec fn reconcile_counted(
    counters: AmtMetricsCounters,
    changes: UpstreamReconcile,
) -> AmtMetricsCounters {
    AmtMetricsCounters {
        upstream_subscription_adds_total: counted(
            counters.upstream_subscription_adds_total,
            changes.added as int,
        ),
        upstream_subscription_removes_total: counted(
            counters.upstream_subscription_removes_total,
            changes.removed as int,
        ),
        upstream_reconcile_failures_total: counted(
            counters.upstream_reconcile_failures_total,
            changes.failed_removals as int,
        ),
        ..counters
    }
}

/// Counts such a change.
pub fn count_reconcile(counters: &mut AmtMetricsCounters, changes: UpstreamReconcile)
    ensures
        *final(counters) == reconcile_counted(*old(counters), changes),
{
    counters.upstream_subscription_adds_total = count(
        counters.upstream_subscription_adds_total,
        changes.added as u64,
    );
    counters.upstream_subscription_removes_total = count(
        counters.upstream_subscription_removes_total,
        changes.removed as u64,
    );
    counters.upstream_reconcile_failures_total = count(
        counters.upstream_reconcile_failures_total,
        changes.failed_removals as u64,
    );
}

/// An answer that waits for the receiver to follow.
#[derive(Debug, PartialEq, Eq)]
pub struct PendingControl {
    pub action: RelayAction,
    pub state: RelayState,
}

/// What the caller is to do about a control datagram.
#[derive(Debug, PartialEq, Eq)]
#[allow(inconsistent_fields)]
pub enum ControlStep {
    /// Send this back.
    Send(Vec<u8>),
    /// Have the receiver follow these subscriptions, then go on.
    Reconcile { subscriptions: Vec<UpstreamSubscription>, pending: PendingControl },
    /// A gateway that had memberships has left.
    Disconnected,
    /// Nothing.
    Nothing,
}

/// A [`ControlStep`] with its parts as mathematical values.
#[allow(inconsistent_fields)]
pub enum ControlStepModel {
    Send(Seq<u8>),
    Reconcile {
        subscriptions: Seq<UpstreamSubscription>,
        action: RelayActionModel,
        table: TableModel<SocketAddr>,
    },
    Disconnected,
    Nothing,
}

impl View for ControlStep {
    type V = ControlStepModel;

    open spec fn view(&self) -> ControlStepModel {
        match *self {
            ControlStep::Send(datagram) => ControlStepModel::Send(datagram@),
            ControlStep::Reconcile { subscriptions, pending } => ControlStepModel::Reconcile {
                subscriptions: subscriptions@,
                action: pending.action@,
                table: pending.state@,
            },
            ControlStep::Disconnected => ControlStepModel::Disconnected,
            ControlStep::Nothing => ControlStepModel::Nothing,
        }
    }
}

/// What is done about an answer once the receiver has followed.
pub open spec fn acted(c: ControlModel, now: Instant, peer: SocketAddr, action: RelayActionModel) -> (
    ControlModel,
    ControlStepModel,
) {
    match action {
        RelayActionModel::Send(response) => (c, ControlStepModel::Send(response)),
        RelayActionModel::AcceptedMembershipUpdate { records_applied, .. } => (
            ControlModel {
                counters: AmtMetricsCounters {
                    membership_updates_accepted_total: counted(
                        c.counters.membership_updates_accepted_total,
                        1,
                    ),
                    membership_records_applied_total: counted(
                        c.counters.membership_records_applied_total,
                        records_applied,
                    ),
                    ..c.counters
                },
                activity: if c.relay.table.contains_key(peer) {
                    c.activity.insert(peer, now)
                } else {
                    c.activity.remove(peer)
                },
                ..c
            },
            ControlStepModel::Nothing,
        ),
        RelayActionModel::AcceptedTeardown { gateway, removed } => (
            ControlModel {
                counters: AmtMetricsCounters {
                    teardowns_accepted_total: counted(c.counters.teardowns_accepted_total, 1),
                    ..c.counters
                },
                activity: c.activity.remove(named_endpoint(gateway)),
                ..c
            },
            if removed {
                ControlStepModel::Disconnected
            } else {
                ControlStepModel::Nothing
            },
        ),
        RelayActionModel::RejectedAuth => (
            ControlModel {
                counters: AmtMetricsCounters {
                    auth_rejections_total: counted(c.counters.auth_rejections_total, 1),
                    ..c.counters
                },
                ..c
            },
            ControlStepModel::Nothing,
        ),
        RelayActionModel::Ignored => (
            ControlModel {
                counters: AmtMetricsCounters {
                    control_datagrams_ignored_total: counted(
                        c.counters.control_datagrams_ignored_total,
                        1,
                    ),
                    ..c.counters
                },
                ..c
            },
            ControlStepModel::Nothing,
        ),
    }
}

/// What is done about what the relay makes of a datagram.
pub open spec fn answered(c: ControlModel, now: Instant, peer: SocketAddr, prepared: Prepared) -> (
    ControlModel,
    ControlStepModel,
) {
    match prepared {
        Err(error) => (
            ControlModel {
                counters: AmtMetricsCounters {
                    control_datagrams_invalid_total: counted(
                        c.counters.control_datagrams_invalid_total,
                        1,
                    ),
                    resource_limit_rejections_total: if error is ResourceLimit {
                        counted(c.counters.resource_limit_rejections_total, 1)
                    } else {
                        c.counters.resource_limit_rejections_total
                    },
                    ..c.counters
                },
                ..c
            },
            ControlStepModel::Nothing,
        ),
        Ok((action, Some(table))) => (
            c,
            ControlStepModel::Reconcile {
                subscriptions: in_order(subscriptions_of(table)),
                action,
                table,
            },
        ),
        Ok((action, None)) => acted(c, now, peer, action),
    }
}

/// What is done about a control datagram by a relay whose secret is current.
pub open spec fn control_received(
    c: ControlModel,
    ready: RelayModel,
    now: Instant,
    peer: SocketAddr,
    datagram: Seq<u8>,
) -> (ControlModel, ControlStepModel) {
    answered(
        ControlModel {
            relay: after_answer(ready, now, peer, datagram),
            counters: AmtMetricsCounters {
                control_datagrams_received_total: counted(
                    c.counters.control_datagrams_received_total,
                    1,
                ),
                ..c.counters
            },
            ..c
        },
        now,
        peer,
        answer(ready, now, peer, datagram),
    )
}

impl RelayControl {
    pub open spec fn wf(&self) -> bool {
        self.relay.wf() && self.activity.wf()
    }

    pub fn new(config: RelayConfig, counters: AmtMetricsCounters, now: Instant) -> (control: Self)
        ensures
            control.wf(),
            control@ == (ControlModel {
                relay: RelayModel {
                    config: config@,
                    table: Map::empty(),
                    previous: None,
                    rotated_at: now,
                    ecn_gateways: Set::empty(),
                },
                activity: Map::empty(),
                counters,
            }),
    {
        RelayControl {
            relay: Relay::new(config, now),
            activity: GatewayActivity::new(),
            counters,
        }
    }

    /// Takes note of a datagram from a source that sends too many.
    pub fn rate_limited(&mut self)
        requires
            old(self).wf(),
        ensures
            final(self).wf(),
            final(self)@ == (ControlModel {
                counters: AmtMetricsCounters {
                    control_datagrams_received_total: counted(
                        old(self).counters.control_datagrams_received_total,
                        1,
                    ),
                    control_datagrams_rate_limited_total: counted(
                        old(self).counters.control_datagrams_rate_limited_total,
                        1,
                    ),
                    ..old(self).counters
                },
                ..old(self)@
            }),
    {
        self.counters.control_datagrams_received_total = count(
            self.counters.control_datagrams_received_total,
            1,
        );
        self.counters.control_datagrams_rate_limited_total = count(
            self.counters.control_datagrams_rate_limited_total,
            1,
        );
    }

    /// Takes in a control datagram.
    pub fn handle_amt_datagram(&mut self, now: Instant, peer: SocketAddr, datagram: &[u8]) -> (step:
        ControlStep)
        requires
            old(self).wf(),
        ensures
            final(self).wf(),
            step matches ControlStep::Reconcile { pending, .. } ==> pending.state.wf(),
            exists|fresh: Option<Seq<u8>>|
                (final(self)@, step@) == control_received(
                    old(self)@,
                    #[trigger] after_rotation(old(self)@.relay, now, fresh),
                    now,
                    peer,
                    datagram@,
                ),
    {
        self.counters.control_datagrams_received_total = count(
            self.counters.control_datagrams_received_total,
            1,
        );
        let ghost base = self@;
        let prepared = self.relay.prepare_datagram(now, peer, datagram);
        let ghost fresh = choose|fresh: Option<Seq<u8>>|
            ({
                let ready = #[trigger] after_rotation(base.relay, now, fresh);
                &&& self.relay@ == after_answer(ready, now, peer, datagram@)
                &&& crate::relay::prepared_result(prepared) == answer(ready, now, peer, datagram@)
            });
        let ghost ready = after_rotation(base.relay, now, fresh);
        proof {
            assert(self@ == (ControlModel { relay: self.relay@, ..base }));
        }
        match prepared {
            Ok((action, Some(state))) => {
                let subscriptions = state.upstream_subscriptions();
                let step = ControlStep::Reconcile {
                    subscriptions,
                    pending: PendingControl { action, state },
                };
                proof {
                    assert((self@, step@) == control_received(
                        old(self)@,
                        ready,
                        now,
                        peer,
                        datagram@,
                    ));
                }
                step
            },
            Ok((action, None)) => {
                let step = self.act(now, peer, action);
                proof {
                    assert((self@, step@) == control_received(
                        old(self)@,
                        ready,
                        now,
                        peer,
                        datagram@,
                    ));
                }
                step
            },
            Err(error) => {
                self.counters.control_datagrams_invalid_total = count(
                    self.counters.control_datagrams_invalid_total,
                    1,
                );
                if matches!(error, RelayError::ResourceLimit(_)) {
                    self.counters.resource_limit_rejections_total = count(
                        self.counters.resource_limit_rejections_total,
                        1,
                    );
                }
                proof {
                    assert((self@, ControlStep::Nothing@) == control_received(
                        old(self)@,
                        ready,
                        now,
                        peer,
                        datagram@,
                    ));
                }
                ControlStep::Nothing
            },
        }
    }

    fn act(&mut self, now: Instant, peer: SocketAddr, action: RelayAction) -> (step: ControlStep)
        requires
            old(self).wf(),
        ensures
            final(self).wf(),
            !(step is Reconcile),
            (final(self)@, step@) == acted(old(self)@, now, peer, action@),
    {
        match action {
            RelayAction::Send(response) => ControlStep::Send(response),
            RelayAction::AcceptedMembershipUpdate { records_applied, .. } => {
                self.counters.membership_updates_accepted_total = count(
                    self.counters.membership_updates_accepted_total,
                    1,
                );
                self.counters.membership_records_applied_total = count(
                    self.counters.membership_records_applied_total,
                    records_applied as u64,
                );
                if self.relay.state.contains_endpoint(peer) {
                    self.activity.mark_seen_at(peer, now);
                } else {
                    self.activity.remove(peer);
                }
                ControlStep::Nothing
            },
            RelayAction::AcceptedTeardown { gateway, removed } => {
                self.counters.teardowns_accepted_total = count(
                    self.counters.teardowns_accepted_total,
                    1,
                );
                let ip = match gateway.address.as_ipv4_compatible() {
                    Some(address) => IpAddr::V4(address),
                    None => IpAddr::V6(gateway.address.as_ipv6()),
                };
                self.activity.remove(SocketAddr::new(ip, gateway.port));
                if removed {
                    ControlStep::Disconnected
                } else {
                    ControlStep::Nothing
                }
            },
            RelayAction::RejectedAuth => {
                self.counters.auth_rejections_total = count(
                    self.counters.auth_rejections_total,
                    1,
                );
                ControlStep::Nothing
            },
            RelayAction::Ignored => {
                self.counters.control_datagrams_ignored_total = count(
                    self.counters.control_datagrams_ignored_total,
                    1,
                );
                ControlStep::Nothing
            },
        }
    }

    /// Goes on with an answer once the receiver has followed.
    pub fn reconciled(
        &mut self,
        now: Instant,
        peer: SocketAddr,
        pending: PendingControl,
        changes: UpstreamReconcile,
    ) -> (step: ControlStep)
        requires
            old(self).wf(),
            pending.state.wf(),
        ensures
            final(self).wf(),
            !(step is Reconcile),
            (final(self)@, step@) == acted(
                ControlModel {
                    relay: RelayModel { table: pending.state@, ..old(self)@.relay },
                    counters: reconcile_counted(old(self)@.counters, changes),
                    ..old(self)@
                },
                now,
                peer,
                pending.action@,
            ),
    {
        count_reconcile(&mut self.counters, changes);
        self.relay.commit_state(pending.state);
        let ghost before = self@;
        proof {
            assert(before == (ControlModel {
                relay: RelayModel { table: pending.state@, ..old(self)@.relay },
                counters: reconcile_counted(old(self)@.counters, changes),
                ..old(self)@
            }));
        }
        self.act(now, peer, pending.action)
    }

    /// Gives an answer up because the receiver could not follow; the gateway
    /// keeps what it had.
    pub fn reconcile_failed(&mut self, now: Instant, peer: SocketAddr)
        requires
            old(self).wf(),
        ensures
            final(self).wf(),
            final(self)@ == (ControlModel {
                counters: AmtMetricsCounters {
                    upstream_reconcile_failures_total: counted(
                        old(self).counters.upstream_reconcile_failures_total,
                        1,
                    ),
                    ..old(self).counters
                },
                activity: if old(self)@.relay.table.contains_key(peer) {
                    old(self)@.activity.insert(peer, now)
                } else {
                    old(self)@.activity
                },
                ..old(self)@
            }),
    {
        self.counters.upstream_reconcile_failures_total = count(
            self.counters.upstream_reconcile_failures_total,
            1,
        );
        if self.relay.state.contains_endpoint(peer) {
            self.activity.mark_seen_at(peer, now);
        }
    }

    /// Counts a response that was sent, or could not be sent.
    pub fn response_sent(&mut self, bytes: usize, sent: bool)
        requires
            old(self).wf(),
        ensures
            final(self).wf(),
            final(self)@ == (ControlModel {
                counters: if sent {
                    AmtMetricsCounters {
                        control_responses_sent_total: counted(
                            old(self).counters.control_responses_sent_total,
                            1,
                        ),
                        control_response_bytes_sent_total: counted(
                            old(self).counters.control_response_bytes_sent_total,
                            bytes as int,
                        ),
                        ..old(self).counters
                    }
                } else {
                    AmtMetricsCounters {
                        send_errors_total: counted(old(self).counters.send_errors_total, 1),
                        ..old(self).counters
                    }
                },
                ..old(self)@
            }),
    {
        if sent {
            self.counters.control_responses_sent_total = count(
                self.counters.control_responses_sent_total,
                1,
            );
            self.counters.control_response_bytes_sent_total = count(
                self.counters.control_response_bytes_sent_total,
                bytes as u64,
            );
        } else {
            self.counters.send_errors_total = count(self.counters.send_errors_total, 1);
        }
    }

    /// Forgets idle gateways; gives those that had memberships.  The receiver
    /// is then to follow the subscriptions that are left.
    pub fn prune(&mut self, timeout: Option<Duration>, now: Instant) -> (expired: Vec<SocketAddr>)
        requires
            old(self).wf(),
        ensures
            final(self).wf(),
            match timeout {
                None => *final(self) == *old(self) && expired@.len() == 0,
                Some(timeout) => {
                    let stale = stale_set(old(self)@.activity, timeout, now);
                    &&& expired@ == with_memberships(old(self)@.relay, in_order(stale))
                    &&& final(self)@ == (ControlModel {
                        relay: relay_without(old(self)@.relay, stale),
                        activity: old(self)@.activity.remove_keys(stale),
                        counters: AmtMetricsCounters {
                            gateways_expired_total: counted(
                                old(self).counters.gateways_expired_total,
                                expired@.len() as int,
                            ),
                            ..old(self).counters
                        },
                    })
                },
            },
    {
        let timeout = match timeout {
            Some(timeout) => timeout,
            None => return Vec::new(),
        };
        let expired = prune_stale_gateways(&mut self.relay, &mut self.activity, timeout, now);
        self.counters.gateways_expired_total = count(
            self.counters.gateways_expired_total,
            expired.len() as u64,
        );
        expired
    }

    /// What the receiver is to receive.
    pub fn subscriptions(&self) -> (subscriptions: Vec<UpstreamSubscription>)
        requires
            self.wf(),
        ensures
            subscriptions@ == in_order(subscriptions_of(self@.relay.table)),
    {
        self.relay.state.upstream_subscriptions()
    }
}

/// Every gateway with memberships is one whose activity is known, so that none
/// is kept for ever.
pub open spec fn gateways_are_watched(c: ControlModel) -> bool {
    forall|endpoint: SocketAddr| #[trigger]
        c.relay.table.contains_key(endpoint) ==> c.activity.contains_key(endpoint)
}

/// However a control datagram is answered, and whether or not the receiver
/// follows, every gateway with memberships stays one whose activity is known.
pub proof fn law_gateways_stay_watched(
    c: ControlModel,
    ready: RelayModel,
    now: Instant,
    peer: SocketAddr,
    datagram: Seq<u8>,
    changes: UpstreamReconcile,
)
    requires
        gateways_are_watched(c),
        ready.table == c.relay.table,
    ensures
        ({
            let (after, step) = control_received(c, ready, now, peer, datagram);
            &&& gateways_are_watched(after)
            &&& step matches ControlStepModel::Reconcile { action, table, .. }
                ==> gateways_are_watched(
                acted(
                    ControlModel {
                        relay: RelayModel { table, ..after.relay },
                        counters: reconcile_counted(after.counters, changes),
                        ..after
                    },
                    now,
                    peer,
                    action,
                ).0,
            )
        }),
{
    let (after, step) = control_received(c, ready, now, peer, datagram);
    let prepared = answer(ready, now, peer, datagram);
    if let ControlStepModel::Reconcile { action, table, .. } = step {
        assert(prepared == Ok::<
            (RelayActionModel, Option<TableModel<SocketAddr>>),
            RelayErrorModel,
        >((action, Some(table))));
        let done = acted(
            ControlModel {
                relay: RelayModel { table, ..after.relay },
                counters: reconcile_counted(after.counters, changes),
                ..after
            },
            now,
            peer,
            action,
        ).0;
        assert(after.relay.table == c.relay.table);
        assert forall|endpoint: SocketAddr| #[trigger]
            done.relay.table.contains_key(endpoint) implies done.activity.contains_key(
            endpoint,
        ) by {
            assert(table.contains_key(endpoint));
            match action {
                RelayActionModel::AcceptedMembershipUpdate { .. } => {
                    if endpoint != peer {
                        assert(c.relay.table.contains_key(endpoint));
                    }
                },
                RelayActionModel::AcceptedTeardown { gateway, .. } => {
                    assert(c.relay.table.contains_key(endpoint));
                },
                _ => {},
            }
        }
    } else {
        assert(after.relay.table == c.relay.table);
        assert forall|endpoint: SocketAddr| #[trigger]
            after.relay.table.contains_key(endpoint) implies after.activity.contains_key(
            endpoint,
        ) by {
            assert(c.relay.table.contains_key(endpoint));
        }
    }
}

/// Forgetting idle gateways leaves every gateway with memberships one whose
/// activity is known, and leaves none whose activity lies too far back.
pub proof fn law_pruning_leaves_active_gateways(c: ControlModel, timeout: Duration, now: Instant)
    requires
        gateways_are_watched(c),
    ensures
        ({
            let stale = stale_set(c.activity, timeout, now);
            let after = ControlModel {
                relay: relay_without(c.relay, stale),
                activity: c.activity.remove_keys(stale),
                ..c
            };
            &&& gateways_are_watched(after)
            &&& forall|endpoint: SocketAddr| #[trigger]
                after.relay.table.contains_key(endpoint) && now.nanos
                    >= after.activity[endpoint].nanos ==> now.nanos
                    - after.activity[endpoint].nanos < timeout.nanos
            &&& forall|endpoint: SocketAddr|
                c.activity.contains_key(endpoint) && !stale.contains(endpoint) ==> (
                #[trigger] after.relay.table.contains_key(endpoint)
                    <==> c.relay.table.contains_key(endpoint))
        }),
{
    let stale = stale_set(c.activity, timeout, now);
    let after = ControlModel {
        relay: relay_without(c.relay, stale),
        activity: c.activity.remove_keys(stale),
        ..c
    };
    assert forall|endpoint: SocketAddr| #[trigger]
        after.relay.table.contains_key(endpoint) implies after.activity.contains_key(endpoint) by {
        assert(c.relay.table.contains_key(endpoint));
    }
    assert forall|endpoint: SocketAddr| #[trigger]
        after.relay.table.contains_key(endpoint) && now.nanos
            >= after.activity[endpoint].nanos implies now.nanos - after.activity[endpoint].nanos
        < timeout.nanos by {
        assert(c.relay.table.contains_key(endpoint));
        assert(!stale.contains(endpoint));
    }
}

/// What the receiver of multicast has done so far.
#[derive(Debug, Clone, Copy, PartialEq, Eq, Structural)]
pub struct UpstreamWorkerSnapshot {
    pub accepted_packets: u64,
    pub accepted_bytes: u64,
    pub queue_drops: u64,
    pub failures: u64,
    pub active_subscriptions: usize,
    pub capture_sockets: usize,
    pub queue_depth: usize,
    pub queue_high_water: usize,
}

impl UpstreamWorkerSnapshot {
    /// A receiver that has done nothing.
    pub fn idle() -> (snapshot: Self)
        ensures
            snapshot == (UpstreamWorkerSnapshot {
                accepted_packets: 0,
                accepted_bytes: 0,
                queue_drops: 0,
                failures: 0,
                active_subscriptions: 0,
                capture_sockets: 0,
                queue_depth: 0,
                queue_high_water: 0,
            }),
    {
        UpstreamWorkerSnapshot {
            accepted_packets: 0,
            accepted_bytes: 0,
            queue_drops: 0,
            failures: 0,
            active_subscriptions: 0,
            capture_sockets: 0,
            queue_depth: 0,
            queue_high_water: 0,
        }
    }
}

/// Counters after what a receiver has done since it was last looked at.
pub open spec fn worker_counted(
    counters: AmtMetricsCounters,
    current: UpstreamWorkerSnapshot,
    accounted: UpstreamWorkerSnapshot,
) -> AmtMetricsCounters {
    AmtMetricsCounters {
        upstream_packets_received_total: counted(
            counters.upstream_packets_received_total,
            less(current.accepted_packets, accounted.accepted_packets) as int,
        ),
        upstream_bytes_received_total: counted(
            counters.upstream_bytes_received_total,
            less(current.accepted_bytes, accounted.accepted_bytes) as int,
        ),
        upstream_worker_queue_drops_total: counted(
            counters.upstream_worker_queue_drops_total,
            less(current.queue_drops, accounted.queue_drops) as int,
        ),
        upstream_worker_failures_total: counted(
            counters.upstream_worker_failures_total,
            less(current.failures, accounted.failures) as int,
        ),
        ..counters
    }
}

/// Counts what the receiver has done since it was last looked at.
pub fn account_upstream_worker(
    current: UpstreamWorkerSnapshot,
    accounted: &mut UpstreamWorkerSnapshot,
    counters: &mut AmtMetricsCounters,
    data_log: &mut RelayDataLog,
)
    ensures
        *final(accounted) == current,
        *final(counters) == worker_counted(*old(counters), current, *old(accounted)),
        *final(data_log) == (RelayDataLog {
            received_packets: counted(
                old(data_log).received_packets,
                less(current.accepted_packets, old(accounted).accepted_packets) as int,
            ),
            received_bytes: counted(
                old(data_log).received_bytes,
                less(current.accepted_bytes, old(accounted).accepted_bytes) as int,
            ),
            worker_queue_drops: counted(
                old(data_log).worker_queue_drops,
                less(current.queue_drops, old(accounted).queue_drops) as int,
            ),
            ..*old(data_log)
        }),
{
    let packets: u64 = current.accepted_packets.saturating_sub(accounted.accepted_packets);
    let bytes: u64 = current.accepted_bytes.saturating_sub(accounted.accepted_bytes);
    let queue_drops: u64 = current.queue_drops.saturating_sub(accounted.queue_drops);
    let failures: u64 = current.failures.saturating_sub(accounted.failures);
    counters.upstream_packets_received_total = count(
        counters.upstream_packets_received_total,
        packets,
    );
    counters.upstream_bytes_received_total = count(counters.upstream_bytes_received_total, bytes);
    counters.upstream_worker_queue_drops_total = count(
        counters.upstream_worker_queue_drops_total,
        queue_drops,
    );
    counters.upstream_worker_failures_total = count(
        counters.upstream_worker_failures_total,
        failures,
    );
    data_log.record_worker_activity(packets, bytes, queue_drops);
    *accounted = current;
}

/// Whether idle gateways are to be looked for.
pub fn prune_due(last_prune: Instant, interval: Duration, now: Instant) -> (due: bool)
    ensures
        due == (now.since_spec(last_prune).nanos >= interval.nanos),
{
    now.duration_since(last_prune).nanos >= interval.nanos
}

/// Whether a relay may wait for events: when it has taken in all that was
/// there.
pub fn may_wait(control_drained: usize, budget_exhausted: bool, queue_depth: usize) -> (b: bool)
    ensures
        b == (control_drained != MAX_CONTROL_DRAIN && !budget_exhausted && queue_depth == 0),
{
    control_drained != MAX_CONTROL_DRAIN && !budget_exhausted && queue_depth == 0
}

/// How long an idle relay waits at most: until idle gateways are to be looked
/// for or a report is due, but at least a millisecond and at most a second.
pub open spec fn wait_of(prune_left: int, report_left: Option<int>) -> int {
    let at_least = |n: int|
        if n < 1_000_000 {
            1_000_000
        } else {
            n
        };
    let prune_wait = at_least(prune_left);
    let report_wait = match report_left {
        Some(left) => at_least(left),
        None => 1_000_000_000,
    };
    let first = if prune_wait <= report_wait {
        prune_wait
    } else {
        report_wait
    };
    if first <= 1_000_000_000 {
        first
    } else {
        1_000_000_000
    }
}

/// How long an idle relay waits at most.
pub fn relay_wait_timeout(
    last_gateway_prune: Instant,
    gateway_prune_interval: Duration,
    metrics: &MetricsRecorder,
    now: Instant,
) -> (wait: Duration)
    ensures
        wait.nanos == wait_of(
            if gateway_prune_interval.nanos >= now.since_spec(last_gateway_prune).nanos {
                gateway_prune_interval.nanos - now.since_spec(last_gateway_prune).nanos
            } else {
                0
            },
            match metrics.writer {
                Some(writer) => Some(
                    if writer.next_emit_at.nanos >= now.nanos {
                        writer.next_emit_at.nanos - now.nanos
                    } else {
                        0
                    },
                ),
                None => None,
            },
        ),
{
    let minimum = Duration::from_millis(1);
    let longest = Duration::from_secs(RELAY_IDLE_MAINTENANCE_SECS);
    let prune_wait = gateway_prune_interval.saturating_sub(
        now.duration_since(last_gateway_prune),
    ).max(minimum);
    let report_wait = match metrics.next_emit_in(now) {
        Some(wait) => wait.max(minimum),
        None => longest,
    };
    prune_wait.min(report_wait).min(longest)
}

/// What a receiver did is counted once: a second look at the same snapshot
/// counts nothing.
pub proof fn law_activity_is_counted_once(
    counters: AmtMetricsCounters,
    snapshot: UpstreamWorkerSnapshot,
)
    ensures
        worker_counted(counters, snapshot, snapshot) == counters,
{
}

/// An idle relay waits at least a millisecond and at most a second, and never
/// past the time when gateways are to be looked over or a report is due, if that
/// is at least a millisecond away.
pub proof fn law_relays_wake_in_time(prune_left: int, report_left: Option<int>)
    ensures
        1_000_000 <= wait_of(prune_left, report_left) <= 1_000_000_000,
        prune_left >= 1_000_000 ==> wait_of(prune_left, report_left) <= prune_left,
        report_left matches Some(left) ==> left >= 1_000_000 ==> wait_of(prune_left, report_left)
            <= left,
        prune_left < 1_000_000 ==> wait_of(prune_left, report_left) == 1_000_000,
        prune_left >= 1_000_000_000 && (report_left is None || report_left->Some_0
            >= 1_000_000_000) ==> wait_of(prune_left, report_left) == 1_000_000_000,
{
}

/// What is done about an answer: one that changes memberships waits for the
/// receiver to follow, with the subscriptions of the new table; one to be sent is
/// sent; a teardown of a known gateway disconnects it; anything else comes to
/// nothing.
pub proof fn law_answers_are_acted_on(
    c: ControlModel,
    now: Instant,
    peer: SocketAddr,
    prepared: Prepared,
)
    ensures
        ({
            let (after, step) = answered(c, now, peer, prepared);
            &&& after.relay == c.relay
            &&& prepared matches Ok((action, Some(table))) ==> step
                == (ControlStepModel::Reconcile {
                subscriptions: in_order(subscriptions_of(table)),
                action,
                table,
            }) && after == c
            &&& prepared matches Ok((RelayActionModel::Send(response), None)) ==> step
                == ControlStepModel::Send(response) && after.activity == c.activity
            &&& prepared matches Ok(
                (RelayActionModel::AcceptedMembershipUpdate { .. }, None),
            ) ==> step is Nothing && (c.relay.table.contains_key(peer)
                ==> after.activity.contains_key(peer) && after.activity[peer] == now) && (
            !c.relay.table.contains_key(peer) ==> !after.activity.contains_key(peer))
            &&& prepared matches Ok(
                (RelayActionModel::AcceptedTeardown { gateway, removed }, None),
            ) ==> (step is Disconnected <==> removed) && !after.activity.contains_key(
                named_endpoint(gateway),
            )
            &&& prepared is Err || (prepared matches Ok((RelayActionModel::RejectedAuth, None)))
                || (prepared matches Ok((RelayActionModel::Ignored, None))) ==> step is Nothing
                && after.activity == c.activity
        }),
{
}

/// Subscriptions that come and go count one by one, and removals that failed as
/// failures.
pub proof fn law_reconciliations_are_counted(counters: AmtMetricsCounters, changes: UpstreamReconcile)
    ensures
        ({
            let after = reconcile_counted(counters, changes);
            &&& after.upstream_subscription_adds_total == counted(counters.upstream_subscription_adds_total, changes.added as int)
            &&& after.upstream_subscription_removes_total == counted(counters.upstream_subscription_removes_total, changes.removed as int)
            &&& after.upstream_reconcile_failures_total == counted(counters.upstream_reconcile_failures_total, changes.failed_removals as int)
            &&& counters == (AmtMetricsCounters {
                upstream_subscription_adds_total: counters.upstream_subscription_adds_total,
                upstream_subscription_removes_total: counters.upstream_subscription_removes_total,
                upstream_reconcile_failures_total: counters.upstream_reconcile_failures_total,
                ..after
            })
        }),
{
}

/// What a worker did since it was last accounted for is counted; what it lost in
/// the meantime counts for nothing.
pub proof fn law_workers_are_counted(
    counters: AmtMetricsCounters,
    current: UpstreamWorkerSnapshot,
    accounted: UpstreamWorkerSnapshot,
)
    ensures
        ({
            let after = worker_counted(counters, current, accounted);
            &&& accounted.accepted_packets <= current.accepted_packets ==> after.upstream_packets_received_total == counted(
                counters.upstream_packets_received_total,
                current.accepted_packets - accounted.accepted_packets,
            )
            &&& accounted.accepted_packets > current.accepted_packets ==> after.upstream_packets_received_total
                == counters.upstream_packets_received_total
            &&& accounted.accepted_bytes <= current.accepted_bytes ==> after.upstream_bytes_received_total == counted(
                counters.upstream_bytes_received_total,
                current.accepted_bytes - accounted.accepted_bytes,
            )
            &&& accounted.accepted_bytes > current.accepted_bytes ==> after.upstream_bytes_received_total
                == counters.upstream_bytes_received_total
            &&& accounted.queue_drops <= current.queue_drops ==> after.upstream_worker_queue_drops_total == counted(
                counters.upstream_worker_queue_drops_total,
                current.queue_drops - accounted.queue_drops,
            )
            &&& accounted.queue_drops > current.queue_drops ==> after.upstream_worker_queue_drops_total
                == counters.upstream_worker_queue_drops_total
            &&& accounted.failures <= current.failures ==> after.upstream_worker_failures_total == counted(
                counters.upstream_worker_failures_total,
                current.failures - accounted.failures,
            )
            &&& accounted.failures > current.failures ==> after.upstream_worker_failures_total
                == counters.upstream_worker_failures_total
            &&& counters == (AmtMetricsCounters {
                upstream_packets_received_total: counters.upstream_packets_received_total,
                upstream_bytes_received_total: counters.upstream_bytes_received_total,
                upstream_worker_queue_drops_total: counters.upstream_worker_queue_drops_total,
                upstream_worker_failures_total: counters.upstream_worker_failures_total,
                ..after
            })
        }),
{
}

} // verus!
