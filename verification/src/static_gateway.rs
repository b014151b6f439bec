//! The decisions of a gateway that works with one relay at a time.  The caller
//! owns the sockets; it hands in what arrived and sends what it is told.

use crate::daemon::GatewayJoin;
use crate::desired::{desired_membership_report, desired_report, local_model};
use crate::ecn::EcnCodepoint;
use crate::gateway::{
    discovery_send, ended, reaction, replacing, request_send, restarted, updated, ActionModel,
    ConfigModel, Gateway, GatewayAction, GatewayError, GatewayErrorModel, GatewayModel, GatewayPhase,
    GatewaySend, SendModel,
};
use crate::gateway_daemon::{
    count_response, due_again, ecn_drop_counted, effective_refresh_interval_for, has_lapsed,
    is_due_again, lapsed, limit_requires_rediscovery, multicast_counted, record_gateway_ecn_drop,
    record_gateway_multicast, refresh_interval, response_counted, GATEWAY_QUERY_TIMEOUT_SECS,
    LOCAL_REPORTER_PRUNE_INTERVAL_SECS,
};
use crate::local_membership::{
    query_config_of, reporter_endpoint, reporter_of, wanted_now, without_stale,
    LocalMembershipError, LocalMembershipEvent, LocalMembershipManager, LocalModel,
};
use crate::logs::GatewayDataLog;
use crate::membership::{no_limits, packet_report, MembershipParseError};
use crate::metrics::{count, counted, AmtMetricsCounters, GatewayMetricsGauges};
use crate::net::{IpAddr, SocketAddr};
use crate::ordered::in_order;
use crate::protocol::{DecodeErrorModel, MessageModel};
use crate::query::query_bytes;
use crate::random::{failed_draw, nonce_if, RandomnessError};
use crate::retry::{retried, retried_anew, GatewayRetry};
use crate::state::{report_applied, subscriptions_of};
use crate::time::{Duration, Instant};
use vstd::prelude::*;

verus! {

/// A gateway that works with one relay at a time.
#[derive(Debug, PartialEq, Eq)]
pub struct StaticGateway {
    pub gateway: Gateway,
    pub local: Option<LocalMembershipManager>,
    pub joins: Vec<GatewayJoin>,
    pub configured_refresh: Duration,
    pub effective_refresh: Duration,
    pub retry: GatewayRetry,
    pub query_cycle_started: Option<Instant>,
    pub last_local_query: Option<Instant>,
    pub last_local_prune: Instant,
    pub last_membership_refresh: Option<Instant>,
    pub counters: AmtMetricsCounters,
    pub data_log: GatewayDataLog,
}

/// A [`StaticGateway`] with its parts as mathematical values.
#[verifier::ext_equal]
pub struct StaticModel {
    pub gateway: GatewayModel,
    pub local: Option<LocalModel>,
    pub joins: Seq<GatewayJoin>,
    pub configured_refresh: Duration,
    pub effective_refresh: Duration,
    pub retry: GatewayRetry,
    pub query_cycle_started: Option<Instant>,
    pub last_local_query: Option<Instant>,
    pub last_local_prune: Instant,
    pub last_membership_refresh: Option<Instant>,
    pub counters: AmtMetricsCounters,
    pub data_log: GatewayDataLog,
}

/// Local memberships in terms of what they say.
pub open spec fn local_of(local: Option<LocalMembershipManager>) -> Option<LocalModel> {
    match local {
        Some(local) => Some(local@),
        None => None,
    }
}

impl View for StaticGateway {
    type V = StaticModel;

    open spec fn view(&self) -> StaticModel {
        StaticModel {
            gateway: self.gateway@,
            local: local_of(self.local),
            joins: self.joins@,
            configured_refresh: self.configured_refresh,
            effective_refresh: self.effective_refresh,
            retry: self.retry,
            query_cycle_started: self.query_cycle_started,
            last_local_query: self.last_local_query,
            last_local_prune: self.last_local_prune,
            last_membership_refresh: self.last_membership_refresh,
            counters: self.counters,
            data_log: self.data_log,
        }
    }
}

/// A datagram to send, out of an action that is one.
pub open spec fn send_of(action: ActionModel) -> SendModel {
    SendModel { destination: action->Send_destination, datagram: action->Send_datagram }
}

/// An optional datagram to send.
pub open spec fn optional_send(send: Option<GatewaySend>) -> Option<SendModel> {
    match send {
        Some(send) => Some(send@),
        None => None,
    }
}

/// The ten seconds that a gateway waits for a Membership Query.
pub open spec fn query_timeout() -> Duration {
    Duration::secs_spec(10)
}

/// Counters after a discovery that is sent.
pub open spec fn discovery_counted(counters: AmtMetricsCounters) -> AmtMetricsCounters {
    AmtMetricsCounters {
        gateway_discoveries_sent_total: counted(counters.gateway_discoveries_sent_total, 1),
        ..counters
    }
}

/// A gateway that starts over with the next relay.
pub open spec fn rediscovering(
    m: StaticModel,
    now: Instant,
    discovery_nonce: u32,
    request_nonce: u32,
    random: u64,
) -> StaticModel {
    StaticModel {
        gateway: restarted(m.gateway, discovery_nonce, request_nonce),
        query_cycle_started: Some(now),
        retry: retried_anew(now, random),
        counters: discovery_counted(m.counters),
        ..m
    }
}

/// What a gateway sends to reach a relay, if that is due: a discovery of the
/// next relay once no query has come in time, else a discovery or a request
/// again.
pub open spec fn relay_stepped(
    m: StaticModel,
    now: Instant,
    discovery_nonce: u32,
    request_nonce: u32,
    random: u64,
) -> (StaticModel, Option<SendModel>) {
    let due = now.nanos >= m.retry.next_attempt.nanos;
    if lapsed(m.query_cycle_started, query_timeout(), now) {
        let after = rediscovering(m, now, discovery_nonce, request_nonce, random);
        (after, Some(send_of(discovery_send(after.gateway))))
    } else if m.gateway.relay_endpoint is None && due {
        (
            StaticModel {
                query_cycle_started: Some(
                    match m.query_cycle_started {
                        Some(started) => started,
                        None => now,
                    },
                ),
                retry: retried(m.retry, now, random),
                counters: discovery_counted(m.counters),
                ..m
            },
            Some(send_of(discovery_send(m.gateway))),
        )
    } else if m.gateway.phase is AwaitingMembershipQuery && due {
        (
            StaticModel { retry: retried(m.retry, now, random), ..m },
            Some(send_of(request_send(m.gateway, m.gateway.relay_endpoint->Some_0))),
        )
    } else {
        (m, None)
    }
}

/// Whether a new Membership Query is to be asked for.
pub open spec fn refresh_due(m: StaticModel, now: Instant) -> bool {
    m.gateway.phase is Established && m.gateway.session is Some && lapsed(
        m.last_membership_refresh,
        m.effective_refresh,
        now,
    )
}

/// What a gateway sends to have a new Membership Query, if one is to be asked
/// for.
pub open spec fn refreshed(m: StaticModel, now: Instant, request_nonce: u32, random: u64) -> (
    StaticModel,
    Option<SendModel>,
) {
    if refresh_due(m, now) {
        let after = StaticModel {
            gateway: GatewayModel {
                config: ConfigModel { request_nonce, ..m.gateway.config },
                phase: GatewayPhase::AwaitingMembershipQuery,
                ..m.gateway
            },
            query_cycle_started: Some(now),
            retry: retried_anew(now, random),
            ..m
        };
        (after, Some(send_of(request_send(after.gateway, m.gateway.relay_endpoint->Some_0))))
    } else {
        (m, None)
    }
}

/// What reporting to the relay all that the gateway wants does.
pub open spec fn desired_sent(m: StaticModel) -> (
    StaticModel,
    Result<Option<SendModel>, GatewayErrorModel>,
) {
    let whole = replacing(
        m.gateway,
        desired_report(m.gateway.config.protocol, m.joins, m.local),
    );
    if whole.records.len() == 0 {
        (m, Ok(None))
    } else {
        let (gateway, result) = updated(m.gateway, whole);
        match result {
            Ok(action) => (
                StaticModel {
                    gateway,
                    local: match m.local {
                        Some(local) => Some(
                            LocalModel { advertised: wanted_now(local), ..local },
                        ),
                        None => None,
                    },
                    counters: AmtMetricsCounters {
                        gateway_membership_updates_sent_total: counted(
                            m.counters.gateway_membership_updates_sent_total,
                            1,
                        ),
                        ..m.counters
                    },
                    ..m
                },
                Ok(Some(send_of(action))),
            ),
            Err(error) => (StaticModel { gateway, ..m }, Err(error)),
        }
    }
}

/// A result in terms of what it says.
pub open spec fn sent_result(result: Result<Option<GatewaySend>, GatewayError>) -> Result<
    Option<SendModel>,
    GatewayErrorModel,
> {
    match result {
        Ok(send) => Ok(optional_send(send)),
        Err(error) => Err(error@),
    }
}

/// What the caller is to do about a datagram.
#[derive(Debug, PartialEq, Eq)]
#[allow(inconsistent_fields)]
pub enum StaticStep {
    /// Send this.
    Send(GatewaySend),
    /// Send the teardown of an endpoint that is no longer used, if there is
    /// one, then a discovery of the next relay.
    Rediscover { teardown: Option<GatewaySend>, discovery: GatewaySend },
    /// Send the teardown of an endpoint that is no longer used, if there is
    /// one, then the memberships, if there are any.
    Refresh { teardown: Option<GatewaySend>, update: Option<GatewaySend> },
    /// Forward this.
    Forward(Vec<u8>),
    /// Nothing.
    Nothing,
}

/// A [`StaticStep`] with its parts as mathematical values.
#[allow(inconsistent_fields)]
pub enum StaticStepModel {
    Send(SendModel),
    Rediscover { teardown: Option<SendModel>, discovery: SendModel },
    Refresh { teardown: Option<SendModel>, update: Option<SendModel> },
    Forward(Seq<u8>),
    Nothing,
}

impl View for StaticStep {
    type V = StaticStepModel;

    open spec fn view(&self) -> StaticStepModel {
        match *self {
            StaticStep::Send(send) => StaticStepModel::Send(send@),
            StaticStep::Rediscover { teardown, discovery } => StaticStepModel::Rediscover {
                teardown: optional_send(teardown),
                discovery: discovery@,
            },
            StaticStep::Refresh { teardown, update } => StaticStepModel::Refresh {
                teardown: optional_send(teardown),
                update: optional_send(update),
            },
            StaticStep::Forward(packet) => StaticStepModel::Forward(packet@),
            StaticStep::Nothing => StaticStepModel::Nothing,
        }
    }
}

/// The gateway with a Membership Query counted, and the teardown that goes
/// with it.
pub open spec fn query_counted(m: StaticModel, teardown: Option<SendModel>) -> StaticModel {
    StaticModel {
        counters: AmtMetricsCounters {
            gateway_membership_queries_received_total: counted(
                m.counters.gateway_membership_queries_received_total,
                1,
            ),
            gateway_teardowns_sent_total: if teardown is Some {
                counted(m.counters.gateway_teardowns_sent_total, 1)
            } else {
                m.counters.gateway_teardowns_sent_total
            },
            ..m.counters
        },
        ..m
    }
}

/// Whether a Membership Query sends the gateway back to discovery: the relay
/// is loaded, and holds no memberships of the endpoint in use.
pub open spec fn query_turns_away(
    m: StaticModel,
    limit: bool,
    teardown: Option<SendModel>,
) -> bool {
    let reported = m.gateway.session is Some && m.gateway.session->Some_0.reported_memberships;
    limit && (!reported || teardown is Some)
}

/// What a Membership Query leads to.
pub open spec fn query_followed(
    m: StaticModel,
    now: Instant,
    limit: bool,
    query_interval: Duration,
    teardown: Option<SendModel>,
    discovery_nonce: u32,
    request_nonce: u32,
    random: u64,
) -> (StaticModel, Result<StaticStepModel, GatewayErrorModel>) {
    let heard = query_counted(m, teardown);
    if query_turns_away(m, limit, teardown) {
        let after = StaticModel {
            last_membership_refresh: None,
            ..rediscovering(heard, now, discovery_nonce, request_nonce, random)
        };
        (
            after,
            Ok(
                StaticStepModel::Rediscover {
                    teardown,
                    discovery: send_of(discovery_send(after.gateway)),
                },
            ),
        )
    } else {
        let (after, result) = desired_sent(
            StaticModel {
                effective_refresh: refresh_interval(m.configured_refresh, query_interval),
                ..heard
            },
        );
        match result {
            Err(error) => (after, Err(error)),
            Ok(update) => (
                StaticModel {
                    counters: AmtMetricsCounters {
                        gateway_membership_refreshes_total: if update is Some {
                            counted(after.counters.gateway_membership_refreshes_total, 1)
                        } else {
                            after.counters.gateway_membership_refreshes_total
                        },
                        ..after.counters
                    },
                    query_cycle_started: None,
                    last_membership_refresh: Some(now),
                    ..after
                },
                Ok(StaticStepModel::Refresh { teardown, update }),
            ),
        }
    }
}

/// What a datagram leads to, given what the gateway made of it.
pub open spec fn action_followed(
    m: StaticModel,
    now: Instant,
    result: Result<ActionModel, GatewayErrorModel>,
    discovery_nonce: u32,
    request_nonce: u32,
    random: u64,
) -> (StaticModel, Result<StaticStepModel, GatewayErrorModel>) {
    match result {
        Err(_) => (
            StaticModel {
                counters: AmtMetricsCounters {
                    control_datagrams_invalid_total: counted(
                        m.counters.control_datagrams_invalid_total,
                        1,
                    ),
                    ..m.counters
                },
                ..m
            },
            Ok(StaticStepModel::Nothing),
        ),
        Ok(ActionModel::Send { destination, datagram }) => {
            let awaiting = m.gateway.phase is AwaitingMembershipQuery;
            (
                StaticModel {
                    counters: response_counted(m.counters, datagram.len() as int),
                    query_cycle_started: if awaiting {
                        Some(now)
                    } else {
                        m.query_cycle_started
                    },
                    retry: if awaiting {
                        retried_anew(now, random)
                    } else {
                        m.retry
                    },
                    ..m
                },
                Ok(StaticStepModel::Send(SendModel { destination, datagram })),
            )
        },
        Ok(ActionModel::MembershipQuery { limit, query_interval, previous_teardown, .. }) => {
            query_followed(
                m,
                now,
                limit,
                query_interval,
                previous_teardown,
                discovery_nonce,
                request_nonce,
                random,
            )
        },
        Ok(ActionModel::MulticastData { packet, ecn }) => (
            StaticModel {
                counters: multicast_counted(m.counters, packet.len() as int, ecn),
                data_log: GatewayDataLog {
                    amt_packets: counted(m.data_log.amt_packets, 1),
                    amt_bytes: counted(m.data_log.amt_bytes, packet.len() as int),
                    ..m.data_log
                },
                ..m
            },
            Ok(StaticStepModel::Forward(packet)),
        ),
        Ok(ActionModel::DroppedEcn { ecn, packet_len }) => (
            StaticModel { counters: ecn_drop_counted(m.counters, packet_len, ecn), ..m },
            Ok(StaticStepModel::Nothing),
        ),
        Ok(ActionModel::Ignored) => (
            StaticModel {
                counters: AmtMetricsCounters {
                    control_datagrams_ignored_total: counted(
                        m.counters.control_datagrams_ignored_total,
                        1,
                    ),
                    ..m.counters
                },
                ..m
            },
            Ok(StaticStepModel::Nothing),
        ),
    }
}

/// Where the gateway stands when fresh nonces were wanted for following an
/// action and could not be drawn; nothing where none are wanted.
pub open spec fn action_unfollowed(
    m: StaticModel,
    result: Result<ActionModel, GatewayErrorModel>,
) -> Option<StaticModel> {
    match result {
        Ok(ActionModel::MembershipQuery { limit, previous_teardown, .. }) => {
            if query_turns_away(m, limit, previous_teardown) {
                Some(query_counted(m, previous_teardown))
            } else {
                None
            }
        },
        _ => None,
    }
}

/// The gateway with a datagram counted and taken in, and what it made of it.
pub open spec fn datagram_heard(
    m: StaticModel,
    peer: SocketAddr,
    datagram: Seq<u8>,
    outer: EcnCodepoint,
) -> (StaticModel, Result<ActionModel, GatewayErrorModel>) {
    let (gateway, result) = reaction(m.gateway, peer, datagram, outer);
    (
        StaticModel {
            gateway,
            counters: AmtMetricsCounters {
                control_datagrams_received_total: counted(
                    m.counters.control_datagrams_received_total,
                    1,
                ),
                ..m.counters
            },
            ..m
        },
        result,
    )
}

/// What a datagram leads to.
pub open spec fn datagram_followed(
    m: StaticModel,
    now: Instant,
    peer: SocketAddr,
    datagram: Seq<u8>,
    outer: EcnCodepoint,
    discovery_nonce: u32,
    request_nonce: u32,
    random: u64,
) -> (StaticModel, Result<StaticStepModel, GatewayErrorModel>) {
    let (heard, result) = datagram_heard(m, peer, datagram, outer);
    action_followed(heard, now, result, discovery_nonce, request_nonce, random)
}

/// Where the gateway stands when a datagram sends it back to discovery and no
/// nonces could be drawn; nothing for every other datagram.
pub open spec fn datagram_unfollowed(
    m: StaticModel,
    peer: SocketAddr,
    datagram: Seq<u8>,
    outer: EcnCodepoint,
) -> Option<StaticModel> {
    let (heard, result) = datagram_heard(m, peer, datagram, outer);
    action_unfollowed(heard, result)
}

/// A result in terms of what it says.
pub open spec fn step_result(result: Result<StaticStep, GatewayError>) -> Result<
    StaticStepModel,
    GatewayErrorModel,
> {
    match result {
        Ok(step) => Ok(step@),
        Err(error) => Err(error@),
    }
}

/// What became of a packet from a local host.
#[derive(Debug, PartialEq, Eq)]
#[allow(inconsistent_fields)]
pub enum LocalStep {
    /// It is of no interest.
    Idle,
    /// It is a report; the memberships are to be sent, if there is a session
    /// and there is anything to say.
    Reported { event: LocalMembershipEvent, update: Option<GatewaySend>, session: bool },
    /// It cannot be read.
    Invalid(MembershipParseError),
}

pub(crate) fn sends(action: GatewayAction) -> (send: GatewaySend)
    requires
        action is Send,
    ensures
        send@ == send_of(action@),
{
    match action.into_send() {
        Some((destination, datagram)) => GatewaySend { destination, datagram },
        None => GatewaySend {
            destination: crate::gateway::reception_endpoint(),
            datagram: Vec::new(),
        },
    }
}

impl StaticGateway {
    pub open spec fn wf(&self) -> bool {
        &&& self.gateway.wf()
        &&& crate::gateway::consistent(self.gateway@)
        &&& self.local matches Some(local) ==> local.wf()
    }

    pub fn new(
        gateway: Gateway,
        local: Option<LocalMembershipManager>,
        joins: Vec<GatewayJoin>,
        membership_refresh_interval: Option<Duration>,
        now: Instant,
    ) -> (daemon: Self)
        requires
            gateway.wf(),
            crate::gateway::consistent(gateway@),
            local matches Some(local) ==> local.wf(),
        ensures
            daemon.wf(),
            daemon@ == (StaticModel {
                gateway: gateway@,
                local: local_of(local),
                joins: joins@,
                configured_refresh: match membership_refresh_interval {
                    Some(interval) => interval,
                    None => Duration::secs_spec(60),
                },
                effective_refresh: match membership_refresh_interval {
                    Some(interval) => interval,
                    None => Duration::secs_spec(60),
                },
                retry: GatewayRetry { attempt: 0, next_attempt: now },
                query_cycle_started: None,
                last_local_query: None,
                last_local_prune: now,
                last_membership_refresh: None,
                counters: AmtMetricsCounters::zero(),
                data_log: GatewayDataLog::quiet(now),
            }),
    {
        let configured_refresh = match membership_refresh_interval {
            Some(interval) => interval,
            None => Duration::from_secs(crate::daemon::DEFAULT_MEMBERSHIP_REFRESH_INTERVAL_SECS),
        };
        StaticGateway {
            gateway,
            local,
            joins,
            configured_refresh,
            effective_refresh: configured_refresh,
            retry: GatewayRetry::due_now(now),
            query_cycle_started: None,
            last_local_query: None,
            last_local_prune: now,
            last_membership_refresh: None,
            counters: AmtMetricsCounters::default(),
            data_log: GatewayDataLog::new(now),
        }
    }

    fn count_discovery(&mut self)
        ensures
            *final(self) == (StaticGateway {
                counters: discovery_counted(old(self).counters),
                ..*old(self)
            }),
    {
        self.counters.gateway_discoveries_sent_total = count(
            self.counters.gateway_discoveries_sent_total,
            1,
        );
    }

    fn rediscover_with(
        &mut self,
        now: Instant,
        discovery_nonce: Result<u32, RandomnessError>,
        request_nonce: Result<u32, RandomnessError>,
        random: u64,
    ) -> (result: Result<GatewaySend, GatewayError>)
        requires
            old(self).wf(),
            now.can_add(Duration::secs_spec(120)),
        ensures
            final(self).wf(),
            match failed_draw(discovery_nonce, request_nonce) {
                Some(error) => result == Err::<GatewaySend, GatewayError>(
                    GatewayError::Randomness(error),
                ) && final(self)@ == old(self)@,
                None => {
                    &&& result is Ok
                    &&& final(self)@ == rediscovering(
                        old(self)@,
                        now,
                        discovery_nonce->Ok_0,
                        request_nonce->Ok_0,
                        random,
                    )
                    &&& result->Ok_0@ == send_of(discovery_send(final(self)@.gateway))
                },
            },
    {
        let discovery_nonce: u32 = match discovery_nonce {
            Ok(nonce) => nonce,
            Err(error) => return Err(GatewayError::Randomness(error)),
        };
        let request_nonce: u32 = match request_nonce {
            Ok(nonce) => nonce,
            Err(error) => return Err(GatewayError::Randomness(error)),
        };
        let send = sends(self.gateway.restart_discovery_with(discovery_nonce, request_nonce));
        self.count_discovery();
        self.query_cycle_started = Some(now);
        self.retry.reset_after_send_with(now, random);
        Ok(send)
    }

    fn query_is_late(&self, now: Instant) -> (late: bool)
        ensures
            late == lapsed(self@.query_cycle_started, query_timeout(), now),
    {
        has_lapsed(self.query_cycle_started, Duration::from_secs(GATEWAY_QUERY_TIMEOUT_SECS), now)
    }

    /// What to send to reach a relay, if that is due.
    pub fn relay_step(&mut self, now: Instant) -> (result: Result<
        Option<GatewaySend>,
        GatewayError,
    >)
        requires
            old(self).wf(),
            now.can_add(Duration::secs_spec(120)),
        ensures
            final(self).wf(),
            match result {
                Ok(send) => exists|d: u32, r: u32, random: u64|
                    d != 0 && r != 0 && (final(self)@, optional_send(send))
                        == #[trigger] relay_stepped(old(self)@, now, d, r, random),
                Err(error) => error@ is Randomness && final(self)@ == old(self)@ && lapsed(
                    old(self)@.query_cycle_started,
                    query_timeout(),
                    now,
                ),
            },
    {
        let late: bool = self.query_is_late(now);
        let random: u64 = if late || self.retry.is_due(now) {
            GatewayRetry::draw(self.retry.attempt)
        } else {
            0
        };
        self.relay_step_with(now, nonce_if(late), nonce_if(late), random)
    }

    /// What to send to reach a relay, if that is due, with the nonces that two
    /// draws gave, which count only where the gateway turns to the next relay,
    /// and a random number for the time until the next attempt.
    pub fn relay_step_with(
        &mut self,
        now: Instant,
        discovery_nonce: Result<u32, RandomnessError>,
        request_nonce: Result<u32, RandomnessError>,
        random: u64,
    ) -> (result: Result<Option<GatewaySend>, GatewayError>)
        requires
            old(self).wf(),
            now.can_add(Duration::secs_spec(120)),
        ensures
            final(self).wf(),
            ({
                let late = lapsed(old(self)@.query_cycle_started, query_timeout(), now);
                let failed = failed_draw(discovery_nonce, request_nonce);
                if late && failed is Some {
                    &&& result == Err::<Option<GatewaySend>, GatewayError>(
                        GatewayError::Randomness(failed->Some_0),
                    )
                    &&& final(self)@ == old(self)@
                } else {
                    &&& result is Ok
                    &&& (final(self)@, optional_send(result->Ok_0)) == relay_stepped(
                        old(self)@,
                        now,
                        discovery_nonce->Ok_0,
                        request_nonce->Ok_0,
                        random,
                    )
                }
            }),
    {
        if self.query_is_late(now) {
            return match self.rediscover_with(now, discovery_nonce, request_nonce, random) {
                Ok(send) => Ok(Some(send)),
                Err(error) => Err(error),
            };
        }
        let due: bool = self.retry.is_due(now);
        if self.gateway.relay_endpoint().is_none() && due {
            let send = sends(self.gateway.discovery());
            self.count_discovery();
            if self.query_cycle_started.is_none() {
                self.query_cycle_started = Some(now);
            }
            self.retry.after_send_with(now, random);
            return Ok(Some(send));
        }
        if self.gateway.is_awaiting_query() && due {
            let action = match self.gateway.request() {
                Ok(action) => action,
                Err(error) => return Err(error),
            };
            let send = sends(action);
            self.retry.after_send_with(now, random);
            return Ok(Some(send));
        }
        Ok(None)
    }

    /// The query to send to local hosts, if one is due.
    pub fn local_query_step(&mut self, now: Instant) -> (query: Option<Vec<u8>>)
        requires
            old(self).wf(),
        ensures
            final(self).wf(),
            match old(self).local {
                None => query is None && final(self)@ == old(self)@,
                Some(local) => match local.config.query_interval {
                    None => query is None && final(self)@ == old(self)@,
                    Some(interval) => if due_again(old(self).last_local_query, interval, now) {
                        &&& query is Some
                        &&& query->Some_0@ == query_bytes(
                            local.config.protocol,
                            query_config_of(local.config),
                        )
                        &&& final(self)@ == (StaticModel {
                            last_local_query: Some(now),
                            ..old(self)@
                        })
                    } else {
                        query is None && final(self)@ == old(self)@
                    },
                },
            },
    {
        let query = match &self.local {
            None => return None,
            Some(local) => match local.config.query_interval {
                None => return None,
                Some(interval) => {
                    if !is_due_again(self.last_local_query, interval, now) {
                        return None;
                    }
                    local.local_query()
                },
            },
        };
        self.last_local_query = Some(now);
        Some(query)
    }

    fn is_refresh_due(&self, now: Instant) -> (due: bool)
        ensures
            due == refresh_due(self@, now),
    {
        self.gateway.is_established() && has_lapsed(
            self.last_membership_refresh,
            self.effective_refresh,
            now,
        )
    }

    /// The request for a new Membership Query to send, if one is due.
    pub fn refresh_step(&mut self, now: Instant) -> (result: Result<
        Option<GatewaySend>,
        GatewayError,
    >)
        requires
            old(self).wf(),
            now.can_add(Duration::secs_spec(120)),
        ensures
            final(self).wf(),
            match result {
                Ok(send) => exists|nonce: u32, random: u64|
                    nonce != 0 && (final(self)@, optional_send(send)) == #[trigger] refreshed(
                        old(self)@,
                        now,
                        nonce,
                        random,
                    ),
                Err(error) => refresh_due(old(self)@, now) && error@ is Randomness && final(self)@
                    == old(self)@,
            },
    {
        let due: bool = self.is_refresh_due(now);
        let random: u64 = if due {
            GatewayRetry::draw(0)
        } else {
            0
        };
        self.refresh_step_with(now, nonce_if(due), random)
    }

    /// The request for a new Membership Query to send, if one is due, under the
    /// nonce that a draw gave, with a random number for the time until it is sent
    /// again.
    pub fn refresh_step_with(
        &mut self,
        now: Instant,
        nonce: Result<u32, RandomnessError>,
        random: u64,
    ) -> (result: Result<Option<GatewaySend>, GatewayError>)
        requires
            old(self).wf(),
            now.can_add(Duration::secs_spec(120)),
        ensures
            final(self).wf(),
            if refresh_due(old(self)@, now) && nonce is Err {
                &&& result == Err::<Option<GatewaySend>, GatewayError>(
                    GatewayError::Randomness(nonce->Err_0),
                )
                &&& final(self)@ == old(self)@
            } else {
                &&& result is Ok
                &&& (final(self)@, optional_send(result->Ok_0)) == refreshed(
                    old(self)@,
                    now,
                    nonce->Ok_0,
                    random,
                )
            },
    {
        if !self.is_refresh_due(now) {
            return Ok(None);
        }
        let nonce: u32 = match nonce {
            Ok(nonce) => nonce,
            Err(error) => return Err(GatewayError::Randomness(error)),
        };
        let action = match self.gateway.begin_query_cycle_with(nonce) {
            Ok(action) => action,
            Err(error) => return Err(error),
        };
        let send = sends(action);
        self.query_cycle_started = Some(now);
        self.retry.reset_after_send_with(now, random);
        Ok(Some(send))
    }

    /// Reports to the relay all that the gateway wants.
    pub fn send_desired_membership(&mut self) -> (result: Result<
        Option<GatewaySend>,
        GatewayError,
    >)
        requires
            old(self).wf(),
        ensures
            final(self).wf(),
            (final(self)@, sent_result(result)) == desired_sent(old(self)@),
    {
        let report = desired_membership_report(
            self.gateway.config.protocol,
            &self.joins,
            self.local.as_ref(),
        );
        proof {
            assert(local_model(
                match self.local {
                    Some(local) => Some(&local),
                    None => None,
                },
            ) == local_of(self.local));
        }
        let ghost whole = replacing(self.gateway@, report@);
        let action = match self.gateway.replace_memberships(report) {
            Ok(Some(action)) => action,
            Ok(None) => return Ok(None),
            Err(error) => return Err(error),
        };
        proof {
            assert(updated(old(self)@.gateway, whole).1 is Ok);
        }
        let send = sends(action);
        self.counters.gateway_membership_updates_sent_total = count(
            self.counters.gateway_membership_updates_sent_total,
            1,
        );
        match &mut self.local {
            Some(local) => local.mark_advertised(),
            None => {},
        }
        Ok(Some(send))
    }

    /// Takes in a datagram from the tunnel. It fails for want of randomness
    /// only where the datagram sends the gateway back to discovery.
    pub fn handle_datagram(
        &mut self,
        now: Instant,
        peer: SocketAddr,
        datagram: &[u8],
        outer: EcnCodepoint,
    ) -> (result: Result<StaticStep, GatewayError>)
        requires
            old(self).wf(),
            now.can_add(Duration::secs_spec(120)),
        ensures
            final(self).wf(),
            (exists|d: u32, r: u32, random: u64|
                d != 0 && r != 0 && (final(self)@, step_result(result))
                    == #[trigger] datagram_followed(
                    old(self)@,
                    now,
                    peer,
                    datagram@,
                    outer,
                    d,
                    r,
                    random,
                )) || (result matches Err(error) && error@ is Randomness && datagram_unfollowed(
                old(self)@,
                peer,
                datagram@,
                outer,
            ) == Some(final(self)@)),
    {
        let outcome = self.hear(peer, datagram, outer);
        let control: bool = match &outcome {
            Ok(GatewayAction::Send { .. }) => true,
            Ok(GatewayAction::MembershipQuery { .. }) => true,
            _ => false,
        };
        let random: u64 = if control {
            GatewayRetry::draw(0)
        } else {
            0
        };
        let ghost heard = self@;
        let ghost said = crate::gateway::action_result(outcome);
        let discovery_nonce = nonce_if(control);
        let request_nonce = nonce_if(control);
        let result = self.follow_with(now, outcome, discovery_nonce, request_nonce, random);
        proof {
            let failed = failed_draw(discovery_nonce, request_nonce);
            if action_unfollowed(heard, said) is None || failed is None {
                let (d, r) = if failed is None {
                    (discovery_nonce->Ok_0, request_nonce->Ok_0)
                } else {
                    (1u32, 1u32)
                };
                assert((self@, step_result(result)) == datagram_followed(
                    old(self)@,
                    now,
                    peer,
                    datagram@,
                    outer,
                    d,
                    r,
                    random,
                ));
            }
        }
        result
    }

    /// Takes in a datagram from the tunnel, with the nonces that two draws gave,
    /// which count only where the datagram sends the gateway back to discovery,
    /// and a random number for the time until the next attempt.
    pub fn handle_datagram_with(
        &mut self,
        now: Instant,
        peer: SocketAddr,
        datagram: &[u8],
        outer: EcnCodepoint,
        discovery_nonce: Result<u32, RandomnessError>,
        request_nonce: Result<u32, RandomnessError>,
        random: u64,
    ) -> (result: Result<StaticStep, GatewayError>)
        requires
            old(self).wf(),
            now.can_add(Duration::secs_spec(120)),
        ensures
            final(self).wf(),
            match (
                datagram_unfollowed(old(self)@, peer, datagram@, outer),
                failed_draw(discovery_nonce, request_nonce),
            ) {
                (Some(heard), Some(error)) => result == Err::<StaticStep, GatewayError>(
                    GatewayError::Randomness(error),
                ) && final(self)@ == heard,
                _ => (final(self)@, step_result(result)) == datagram_followed(
                    old(self)@,
                    now,
                    peer,
                    datagram@,
                    outer,
                    discovery_nonce->Ok_0,
                    request_nonce->Ok_0,
                    random,
                ),
            },
    {
        let outcome = self.hear(peer, datagram, outer);
        self.follow_with(now, outcome, discovery_nonce, request_nonce, random)
    }

    fn hear(&mut self, peer: SocketAddr, datagram: &[u8], outer: EcnCodepoint) -> (outcome: Result<
        GatewayAction,
        GatewayError,
    >)
        requires
            old(self).wf(),
        ensures
            final(self).wf(),
            (final(self)@, crate::gateway::action_result(outcome)) == datagram_heard(
                old(self)@,
                peer,
                datagram@,
                outer,
            ),
    {
        self.counters.control_datagrams_received_total = count(
            self.counters.control_datagrams_received_total,
            1,
        );
        proof {
            crate::gateway::law_datagrams_keep_gateways_consistent(
                old(self)@.gateway,
                peer,
                datagram@,
                outer,
            );
        }
        self.gateway.handle_datagram_with_ecn(peer, datagram, outer)
    }

    fn follow_with(
        &mut self,
        now: Instant,
        outcome: Result<GatewayAction, GatewayError>,
        discovery_nonce: Result<u32, RandomnessError>,
        request_nonce: Result<u32, RandomnessError>,
        random: u64,
    ) -> (result: Result<StaticStep, GatewayError>)
        requires
            old(self).wf(),
            now.can_add(Duration::secs_spec(120)),
        ensures
            final(self).wf(),
            match (
                action_unfollowed(old(self)@, crate::gateway::action_result(outcome)),
                failed_draw(discovery_nonce, request_nonce),
            ) {
                (Some(heard), Some(error)) => result == Err::<StaticStep, GatewayError>(
                    GatewayError::Randomness(error),
                ) && final(self)@ == heard,
                _ => (final(self)@, step_result(result)) == action_followed(
                    old(self)@,
                    now,
                    crate::gateway::action_result(outcome),
                    discovery_nonce->Ok_0,
                    request_nonce->Ok_0,
                    random,
                ),
            },
    {
        match outcome {
            Err(_) => {
                self.counters.control_datagrams_invalid_total = count(
                    self.counters.control_datagrams_invalid_total,
                    1,
                );
                Ok(StaticStep::Nothing)
            },
            Ok(GatewayAction::Send { destination, datagram }) => {
                count_response(&mut self.counters, datagram.len());
                if self.gateway.is_awaiting_query() {
                    self.query_cycle_started = Some(now);
                    self.retry.reset_after_send_with(now, random);
                }
                Ok(StaticStep::Send(GatewaySend { destination, datagram }))
            },
            Ok(
                GatewayAction::MembershipQuery { limit, query_interval, previous_teardown, .. },
            ) => self.follow_query_with(
                now,
                limit,
                query_interval,
                previous_teardown,
                discovery_nonce,
                request_nonce,
                random,
            ),
            Ok(GatewayAction::MulticastData { packet, ecn }) => {
                record_gateway_multicast(
                    &mut self.counters,
                    &mut self.data_log,
                    packet.len(),
                    ecn,
                );
                Ok(StaticStep::Forward(packet))
            },
            Ok(GatewayAction::DroppedEcn { ecn, packet_len }) => {
                record_gateway_ecn_drop(&mut self.counters, packet_len, ecn);
                Ok(StaticStep::Nothing)
            },
            Ok(GatewayAction::Ignored) => {
                self.counters.control_datagrams_ignored_total = count(
                    self.counters.control_datagrams_ignored_total,
                    1,
                );
                Ok(StaticStep::Nothing)
            },
        }
    }

    fn follow_query_with(
        &mut self,
        now: Instant,
        limit: bool,
        query_interval: Duration,
        teardown: Option<GatewaySend>,
        discovery_nonce: Result<u32, RandomnessError>,
        request_nonce: Result<u32, RandomnessError>,
        random: u64,
    ) -> (result: Result<StaticStep, GatewayError>)
        requires
            old(self).wf(),
            now.can_add(Duration::secs_spec(120)),
        ensures
            final(self).wf(),
            ({
                let failed = failed_draw(discovery_nonce, request_nonce);
                if query_turns_away(old(self)@, limit, optional_send(teardown)) && failed is Some {
                    &&& result == Err::<StaticStep, GatewayError>(
                        GatewayError::Randomness(failed->Some_0),
                    )
                    &&& final(self)@ == query_counted(old(self)@, optional_send(teardown))
                } else {
                    (final(self)@, step_result(result)) == query_followed(
                        old(self)@,
                        now,
                        limit,
                        query_interval,
                        optional_send(teardown),
                        discovery_nonce->Ok_0,
                        request_nonce->Ok_0,
                        random,
                    )
                }
            }),
    {
        let ghost model = optional_send(teardown);
        self.counters.gateway_membership_queries_received_total = count(
            self.counters.gateway_membership_queries_received_total,
            1,
        );
        let endpoint_changed: bool = teardown.is_some();
        if endpoint_changed {
            self.counters.gateway_teardowns_sent_total = count(
                self.counters.gateway_teardowns_sent_total,
                1,
            );
        }
        assert(self@ == query_counted(old(self)@, model));
        if limit_requires_rediscovery(
            limit,
            self.gateway.has_reported_memberships(),
            endpoint_changed,
        ) {
            let discovery = match self.rediscover_with(
                now,
                discovery_nonce,
                request_nonce,
                random,
            ) {
                Ok(send) => send,
                Err(error) => return Err(error),
            };
            self.last_membership_refresh = None;
            return Ok(StaticStep::Rediscover { teardown, discovery });
        }
        self.effective_refresh = effective_refresh_interval_for(
            self.configured_refresh,
            query_interval,
        );
        let update = match self.send_desired_membership() {
            Ok(update) => update,
            Err(error) => return Err(error),
        };
        if update.is_some() {
            self.counters.gateway_membership_refreshes_total = count(
                self.counters.gateway_membership_refreshes_total,
                1,
            );
        }
        self.query_cycle_started = None;
        self.last_membership_refresh = Some(now);
        Ok(StaticStep::Refresh { teardown, update })
    }

    /// Takes in a packet from a local host.
    pub fn local_report(&mut self, now: Instant, source_ip: Option<IpAddr>, datagram: &[u8]) -> (
        result: Result<LocalStep, GatewayError>)
        requires
            old(self).wf(),
        ensures
            final(self).wf(),
            local_followed(old(self)@, now, source_ip, datagram@, final(self)@, result),
    {
        let ghost before = self@;
        let outcome = match &mut self.local {
            None => return Ok(LocalStep::Idle),
            Some(local) => local.handle_packet(now, source_ip, datagram),
        };
        let event = match outcome {
            Ok(Some(event)) => event,
            Ok(None) => return Ok(LocalStep::Idle),
            Err(LocalMembershipError::Parse(error)) => {
                self.counters.local_membership_parse_errors_total = count(
                    self.counters.local_membership_parse_errors_total,
                    1,
                );
                return Ok(LocalStep::Invalid(error));
            },
            Err(LocalMembershipError::Receive(_)) => return Ok(LocalStep::Idle),
        };
        self.counters.local_membership_reports_total = count(
            self.counters.local_membership_reports_total,
            1,
        );
        proof {
            assert(self@ == reported(before, now, source_ip, datagram@));
        }
        if self.gateway.response_mac().is_none() {
            return Ok(LocalStep::Reported { event, update: None, session: false });
        }
        match self.send_desired_membership() {
            Ok(update) => Ok(LocalStep::Reported { event, update, session: true }),
            Err(error) => Err(error),
        }
    }

    /// Forgets local hosts that fell silent, if it is time to; the memberships
    /// are then to be sent, if they may have changed.
    pub fn prune_local(&mut self, now: Instant) -> (result: Result<
        (usize, Option<GatewaySend>),
        GatewayError,
    >)
        requires
            old(self).wf(),
        ensures
            final(self).wf(),
            local_pruned(old(self)@, now, final(self)@, result),
    {
        if now.duration_since(self.last_local_prune).nanos < Duration::from_secs(
            LOCAL_REPORTER_PRUNE_INTERVAL_SECS,
        ).nanos {
            return Ok((0, None));
        }
        let expired: usize = match &mut self.local {
            None => return Ok((0, None)),
            Some(local) => local.prune_stale_reporters(now),
        };
        self.last_local_prune = now;
        if expired == 0 || !self.gateway.is_established() {
            return Ok((expired, None));
        }
        match self.send_desired_membership() {
            Ok(update) => Ok((expired, update)),
            Err(error) => Err(error),
        }
    }

    /// The teardown to send before the gateway stops, or why there is none.
    pub fn shutdown(&mut self) -> (result: Result<GatewaySend, GatewayError>)
        requires
            old(self).wf(),
        ensures
            final(self).wf(),
            match result {
                Ok(send) => {
                    &&& ended(old(self)@.gateway) is Ok
                    &&& send@ == send_of(ended(old(self)@.gateway)->Ok_0)
                    &&& final(self)@ == (StaticModel {
                        counters: AmtMetricsCounters {
                            gateway_teardowns_sent_total: counted(
                                old(self).counters.gateway_teardowns_sent_total,
                                1,
                            ),
                            ..old(self).counters
                        },
                        ..old(self)@
                    })
                },
                Err(error) => ended(old(self)@.gateway) == Err::<ActionModel, GatewayErrorModel>(
                    error@,
                ) && final(self)@ == old(self)@,
            },
    {
        match self.gateway.teardown() {
            Ok(action) => {
                let send = sends(action);
                self.counters.gateway_teardowns_sent_total = count(
                    self.counters.gateway_teardowns_sent_total,
                    1,
                );
                Ok(send)
            },
            Err(error) => Err(error),
        }
    }

    /// What is known of the gateway now.
    pub fn gauges(&self, downstream_enabled: bool) -> (gauges: GatewayMetricsGauges)
        ensures
            gauges == (GatewayMetricsGauges {
                relay_connected: self.gateway.established_spec(),
                downstream_enabled,
                transparent_enabled: self.local is Some,
                configured_joins: self.joins@.len() as u64,
                driad_source_tunnels: 0,
                driad_active_tunnels: 0,
                driad_candidate_probes: 0,
                driad_held_down_relays: 0,
            }),
    {
        GatewayMetricsGauges {
            relay_connected: self.gateway.is_established(),
            downstream_enabled,
            transparent_enabled: self.local.is_some(),
            configured_joins: self.joins.len() as u64,
            driad_source_tunnels: 0,
            driad_active_tunnels: 0,
            driad_candidate_probes: 0,
            driad_held_down_relays: 0,
        }
    }
}

/// A gateway that has taken in a report of a local host.
pub open spec fn reported(
    m: StaticModel,
    now: Instant,
    source_ip: Option<IpAddr>,
    datagram: Seq<u8>,
) -> StaticModel {
    let local = m.local->Some_0;
    let reporter = reporter_endpoint(reporter_of(source_ip, datagram)->Some_0);
    StaticModel {
        local: Some(
            LocalModel {
                table: report_applied(
                    local.table,
                    reporter,
                    packet_report(datagram, no_limits())->Ok_0.records,
                ),
                last_seen: local.last_seen.insert(reporter, now),
                ..local
            },
        ),
        counters: AmtMetricsCounters {
            local_membership_reports_total: counted(
                m.counters.local_membership_reports_total,
                1,
            ),
            ..m.counters
        },
        ..m
    }
}

/// What a packet from a local host leads to: its report counts, and the relay
/// is told, if there is a session.
pub open spec fn local_followed(
    m: StaticModel,
    now: Instant,
    source_ip: Option<IpAddr>,
    datagram: Seq<u8>,
    after: StaticModel,
    result: Result<LocalStep, GatewayError>,
) -> bool {
    if m.local is None {
        after == m && result == Ok::<LocalStep, GatewayError>(LocalStep::Idle)
    } else {
        match packet_report(datagram, no_limits()) {
            Err(error) => {
                &&& after == (StaticModel {
                    counters: AmtMetricsCounters {
                        local_membership_parse_errors_total: counted(
                            m.counters.local_membership_parse_errors_total,
                            1,
                        ),
                        ..m.counters
                    },
                    ..m
                })
                &&& result matches Ok(LocalStep::Invalid(actual)) && actual@ == error
            },
            Ok(report) => if reporter_of(source_ip, datagram) is None || report.protocol
                != m.local->Some_0.config.protocol {
                after == m && result == Ok::<LocalStep, GatewayError>(LocalStep::Idle)
            } else {
                let heard = reported(m, now, source_ip, datagram);
                if m.gateway.session is None {
                    &&& after == heard
                    &&& result matches Ok(LocalStep::Reported { event, update, session })
                        && update is None && !session && event.reporter == reporter_of(
                        source_ip,
                        datagram,
                    )->Some_0 && event.records_received == report.records.len()
                        && event.active_subscriptions@ == in_order(
                        subscriptions_of(heard.local->Some_0.table),
                    )
                } else {
                    let (sent, said) = desired_sent(heard);
                    &&& after == sent
                    &&& match result {
                        Ok(LocalStep::Reported { event, update, session }) => said == Ok::<
                            Option<SendModel>,
                            GatewayErrorModel,
                        >(optional_send(update)) && session && event.reporter == reporter_of(
                            source_ip,
                            datagram,
                        )->Some_0 && event.records_received == report.records.len()
                            && event.active_subscriptions@ == in_order(
                            subscriptions_of(heard.local->Some_0.table),
                        ),
                        Ok(_) => false,
                        Err(error) => said == Err::<Option<SendModel>, GatewayErrorModel>(
                            error@,
                        ),
                    }
                }
            },
        }
    }
}

/// What a look for silent local hosts leads to.
pub open spec fn local_pruned(
    m: StaticModel,
    now: Instant,
    after: StaticModel,
    result: Result<(usize, Option<GatewaySend>), GatewayError>,
) -> bool {
    if m.local is None || now.since_spec(m.last_local_prune).nanos < 5_000_000_000 {
        after == m && result == Ok::<(usize, Option<GatewaySend>), GatewayError>((0, None))
    } else {
        let local = m.local->Some_0;
        let expired = Set::new(
            |endpoint: SocketAddr|
                crate::local_membership::reporter_stale(local, endpoint, now),
        ).len();
        let pruned = StaticModel {
            local: Some(without_stale(local, now)),
            last_local_prune: now,
            ..m
        };
        let established = m.gateway.phase is Established && m.gateway.session is Some;
        if expired == 0 || !established {
            &&& after == pruned
            &&& result is Ok
            &&& result->Ok_0.0 == expired
            &&& result->Ok_0.1 is None
        } else {
            let (sent, said) = desired_sent(pruned);
            &&& after == sent
            &&& match result {
                Ok((count, update)) => count == expired && said == Ok::<
                    Option<SendModel>,
                    GatewayErrorModel,
                >(optional_send(update)),
                Err(error) => said == Err::<Option<SendModel>, GatewayErrorModel>(error@),
            }
        }
    }
}

/// A relay whose query does not come in time is left: the gateway forgets the
/// session and looks for the next relay at once.
pub proof fn law_silent_relays_are_left(
    m: StaticModel,
    now: Instant,
    discovery_nonce: u32,
    request_nonce: u32,
    random: u64,
)
    requires
        m.query_cycle_started matches Some(started) && now.since_spec(started).nanos
            >= query_timeout().nanos,
    ensures
        ({
            let (after, sent) = relay_stepped(m, now, discovery_nonce, request_nonce, random);
            &&& after.gateway == restarted(m.gateway, discovery_nonce, request_nonce)
            &&& after.gateway.session is None
            &&& after.query_cycle_started == Some(now)
            &&& sent == Some(send_of(discovery_send(after.gateway)))
        }),
{
}

/// A relay that is loaded is left, unless it serves the gateway already: then
/// the gateway stays as long as its endpoint does.
pub proof fn law_loaded_relays_are_left(
    m: StaticModel,
    now: Instant,
    query_interval: Duration,
    teardown: Option<SendModel>,
    discovery_nonce: u32,
    request_nonce: u32,
    random: u64,
)
    ensures
        ({
            let served = m.gateway.session is Some
                && m.gateway.session->Some_0.reported_memberships;
            let (after, step) = query_followed(
                m,
                now,
                true,
                query_interval,
                teardown,
                discovery_nonce,
                request_nonce,
                random,
            );
            if served && teardown is None {
                step matches Ok(step) ==> step is Refresh
            } else {
                &&& step matches Ok(step) && step is Rediscover
                &&& after.gateway == restarted(m.gateway, discovery_nonce, request_nonce)
            }
        }),
{
}

/// What is sent to reach a relay.  Ten seconds after a query was awaited first,
/// the next relay is turned to.  Until then a relay that has not answered is
/// discovered again, and one that has is asked again for a query, each when the
/// retry is due, with the nonces that were used before; and nothing is sent in
/// between.
pub proof fn law_relays_are_asked_again(
    m: StaticModel,
    now: Instant,
    discovery_nonce: u32,
    request_nonce: u32,
    random: u64,
)
    requires
        m.query_cycle_started matches Some(started) ==> started.nanos <= now.nanos,
    ensures
        ({
            let (after, sent) = relay_stepped(m, now, discovery_nonce, request_nonce, random);
            let late = m.query_cycle_started matches Some(started) && started.nanos
                + 10_000_000_000 <= now.nanos;
            let due = m.retry.next_attempt.nanos <= now.nanos;
            &&& late ==> after.gateway == restarted(m.gateway, discovery_nonce, request_nonce)
                && sent is Some && sent->Some_0.destination == after.gateway.config.relay
            &&& !late ==> after.gateway == m.gateway
            &&& !late && !due ==> sent is None && after == m
            &&& !late && due && m.gateway.relay_endpoint is None ==> {
                &&& sent is Some && sent->Some_0.destination == m.gateway.config.relay
                &&& crate::protocol::decoded(sent->Some_0.datagram) == Ok::<
                    MessageModel,
                    DecodeErrorModel,
                >(
                    MessageModel::RelayDiscovery {
                        discovery_nonce: m.gateway.config.discovery_nonce,
                    },
                )
                &&& after.query_cycle_started is Some
                &&& after.retry == retried(m.retry, now, random)
            }
            &&& !late && due && m.gateway.relay_endpoint is Some
                && m.gateway.phase is AwaitingMembershipQuery ==> {
                &&& sent is Some && sent->Some_0.destination == m.gateway.relay_endpoint->Some_0
                &&& crate::protocol::decoded(sent->Some_0.datagram) == Ok::<
                    MessageModel,
                    DecodeErrorModel,
                >(
                    MessageModel::Request {
                        request_nonce: m.gateway.config.request_nonce,
                        protocol: m.gateway.config.protocol,
                        ecn_capable: m.gateway.config.ecn,
                    },
                )
                &&& after.retry == retried(m.retry, now, random)
            }
            &&& !late && m.gateway.phase is Established && m.gateway.relay_endpoint is Some
                ==> sent is None && after == m
        }),
{
    crate::protocol::law_decode_undoes_encode(
        MessageModel::RelayDiscovery { discovery_nonce: m.gateway.config.discovery_nonce },
    );
    crate::protocol::law_decode_undoes_encode(
        MessageModel::Request {
            request_nonce: m.gateway.config.request_nonce,
            protocol: m.gateway.config.protocol,
            ecn_capable: m.gateway.config.ecn,
        },
    );
}

/// A new query is asked for once the interval has passed since the memberships
/// were last sent in a session, under the given nonce, at the relay in use.
pub proof fn law_queries_are_asked_for_in_time(
    m: StaticModel,
    now: Instant,
    request_nonce: u32,
    random: u64,
)
    requires
        m.last_membership_refresh matches Some(last) ==> last.nanos <= now.nanos,
        m.gateway.relay_endpoint is Some,
    ensures
        ({
            let (after, sent) = refreshed(m, now, request_nonce, random);
            let due = m.gateway.phase is Established && m.gateway.session is Some && (
            m.last_membership_refresh matches Some(last) && last.nanos + m.effective_refresh.nanos
                <= now.nanos);
            &&& !due ==> sent is None && after == m
            &&& due ==> {
                &&& sent is Some && sent->Some_0.destination == m.gateway.relay_endpoint->Some_0
                &&& crate::protocol::decoded(sent->Some_0.datagram) == Ok::<
                    MessageModel,
                    DecodeErrorModel,
                >(
                    MessageModel::Request {
                        request_nonce,
                        protocol: m.gateway.config.protocol,
                        ecn_capable: m.gateway.config.ecn,
                    },
                )
                &&& after.gateway.config.request_nonce == request_nonce
                &&& after.gateway.phase is AwaitingMembershipQuery
                &&& after.gateway.session == m.gateway.session && after.gateway.reception
                    == m.gateway.reception
                &&& after.query_cycle_started == Some(now)
            }
        }),
{
    crate::protocol::law_decode_undoes_encode(
        MessageModel::Request {
            request_nonce,
            protocol: m.gateway.config.protocol,
            ecn_capable: m.gateway.config.ecn,
        },
    );
}

/// What a query of a relay that is not loaded leads to: the memberships are sent
/// that the configuration and the local hosts call for, the wait for the query is
/// over, and the next one is asked for after the shorter of the configured and the
/// suggested interval.
pub proof fn law_queries_have_memberships_sent(
    m: StaticModel,
    now: Instant,
    query_interval: Duration,
    teardown: Option<SendModel>,
    discovery_nonce: u32,
    request_nonce: u32,
    random: u64,
)
    ensures
        ({
            let (after, step) = query_followed(
                m,
                now,
                false,
                query_interval,
                teardown,
                discovery_nonce,
                request_nonce,
                random,
            );
            let whole = replacing(
                m.gateway,
                desired_report(m.gateway.config.protocol, m.joins, m.local),
            );
            let (gateway, said) = updated(m.gateway, whole);
            &&& after.effective_refresh == refresh_interval(m.configured_refresh, query_interval)
            &&& step is Ok ==> after.query_cycle_started is None && after.last_membership_refresh
                == Some(now)
            &&& whole.records.len() == 0 ==> step == Ok::<StaticStepModel, GatewayErrorModel>(
                StaticStepModel::Refresh { teardown, update: None },
            )
            &&& whole.records.len() > 0 && said is Ok ==> step == Ok::<
                StaticStepModel,
                GatewayErrorModel,
            >(StaticStepModel::Refresh { teardown, update: Some(send_of(said->Ok_0)) })
                && after.gateway == gateway
            &&& whole.records.len() > 0 && said is Err ==> step is Err
        }),
{
}

/// What a datagram from the tunnel leads to, by what the gateway makes of it:
/// packets are forwarded, answers are sent, and an answer that starts the wait for
/// a query is the first attempt; errors and messages that say nothing are counted
/// and come to nothing.
pub proof fn law_datagrams_are_followed(
    m: StaticModel,
    now: Instant,
    peer: SocketAddr,
    datagram: Seq<u8>,
    outer: EcnCodepoint,
    discovery_nonce: u32,
    request_nonce: u32,
    random: u64,
)
    ensures
        ({
            let (after, step) = datagram_followed(
                m,
                now,
                peer,
                datagram,
                outer,
                discovery_nonce,
                request_nonce,
                random,
            );
            let (gateway, result) = reaction(m.gateway, peer, datagram, outer);
            &&& result matches Ok(ActionModel::MulticastData { packet, .. }) ==> step == Ok::<
                StaticStepModel,
                GatewayErrorModel,
            >(StaticStepModel::Forward(packet)) && after.gateway == gateway
            &&& result matches Ok(ActionModel::Send { destination, datagram }) ==> step == Ok::<
                StaticStepModel,
                GatewayErrorModel,
            >(StaticStepModel::Send(SendModel { destination, datagram })) && after.gateway
                == gateway && (gateway.phase is AwaitingMembershipQuery
                ==> after.query_cycle_started == Some(now))
            &&& result is Err || (result matches Ok(ActionModel::Ignored)) || (
            result matches Ok(ActionModel::DroppedEcn { .. })) ==> step == Ok::<
                StaticStepModel,
                GatewayErrorModel,
            >(StaticStepModel::Nothing) && after.gateway == gateway && after.query_cycle_started
                == m.query_cycle_started && after.retry == m.retry
        }),
{
}

/// What a packet of a local host leads to. One that is no report, or of another
/// protocol, changes no memberships; a report has its host heard now and takes
/// effect, and every other host is left as it was. Without a session nothing is
/// sent.
pub proof fn law_local_reports_are_followed(
    m: StaticModel,
    now: Instant,
    source_ip: Option<IpAddr>,
    datagram: Seq<u8>,
    after: StaticModel,
    result: Result<LocalStep, GatewayError>,
    other: SocketAddr,
)
    requires
        m.local is Some,
        local_followed(m, now, source_ip, datagram, after, result),
    ensures
        ({
            let parsed = packet_report(datagram, no_limits());
            let host = reporter_of(source_ip, datagram);
            let known = parsed is Ok && host is Some && parsed->Ok_0.protocol
                == m.local->Some_0.config.protocol;
            let before = m.local->Some_0;
            &&& after.local is Some
            &&& !known ==> after.local == m.local && after.gateway == m.gateway
            &&& parsed is Err ==> (result matches Ok(LocalStep::Invalid(_)))
            &&& parsed is Ok && !known ==> (result matches Ok(LocalStep::Idle))
            &&& known ==> {
                let endpoint = reporter_endpoint(host->Some_0);
                let local = after.local->Some_0;
                &&& local.last_seen.contains_key(endpoint) && local.last_seen[endpoint] == now
                &&& local.table == report_applied(before.table, endpoint, parsed->Ok_0.records)
                &&& other != endpoint ==> local.last_seen.contains_key(other)
                    == before.last_seen.contains_key(other)
                &&& other != endpoint && before.last_seen.contains_key(other)
                    ==> local.last_seen[other] == before.last_seen[other]
                &&& result matches Ok(step) ==> (step matches LocalStep::Reported { event, .. }
                    && event.reporter == host->Some_0)
            }
            &&& known && m.gateway.session is None ==> after.gateway == m.gateway && (
            result matches Ok(LocalStep::Reported { update: None, session: false, .. }))
        }),
{
}

/// A look for silent hosts is taken every five seconds. It forgets those hosts
/// whose time is up, and tells the relay where it forgot any and is served.
pub proof fn law_silent_hosts_are_looked_for(
    m: StaticModel,
    now: Instant,
    after: StaticModel,
    result: Result<(usize, Option<GatewaySend>), GatewayError>,
    endpoint: SocketAddr,
)
    requires
        m.local is Some,
        m.last_local_prune.nanos <= now.nanos,
        local_pruned(m, now, after, result),
    ensures
        now.nanos < m.last_local_prune.nanos + 5_000_000_000 ==> after == m && (
        result matches Ok((0, None))),
        now.nanos >= m.last_local_prune.nanos + 5_000_000_000 ==> {
            let before = m.local->Some_0;
            let silent = before.last_seen.contains_key(endpoint) && before.last_seen[endpoint].nanos
                + before.config.reporter_timeout.nanos <= now.nanos;
            &&& after.local is Some
            &&& after.last_local_prune == now
            &&& silent ==> !after.local->Some_0.table.contains_key(endpoint)
                && !after.local->Some_0.last_seen.contains_key(endpoint)
            &&& !silent ==> after.local->Some_0.table.contains_key(endpoint)
                == before.table.contains_key(endpoint) && (before.table.contains_key(endpoint)
                ==> after.local->Some_0.table[endpoint] == before.table[endpoint])
            &&& !(m.gateway.phase is Established) || m.gateway.session is None ==> (
            result matches Ok((_, None))) && after.gateway == m.gateway
        },
{
    crate::local_membership::law_silent_hosts_are_forgotten(m.local->Some_0, now, endpoint);
}

/// Every datagram from the tunnel counts as received. One that cannot be followed
/// counts as invalid, one that says nothing as ignored, and a packet counts with
/// its bytes.
pub proof fn law_datagrams_are_counted(
    m: StaticModel,
    now: Instant,
    peer: SocketAddr,
    datagram: Seq<u8>,
    outer: EcnCodepoint,
    discovery_nonce: u32,
    request_nonce: u32,
    random: u64,
)
    ensures
        ({
            let (after, step) = datagram_followed(
                m,
                now,
                peer,
                datagram,
                outer,
                discovery_nonce,
                request_nonce,
                random,
            );
            let (gateway, result) = reaction(m.gateway, peer, datagram, outer);
            let before = m.counters;
            &&& after.counters.control_datagrams_received_total == counted(
                before.control_datagrams_received_total,
                1,
            )
            &&& result is Err ==> after.counters.control_datagrams_invalid_total == counted(
                before.control_datagrams_invalid_total,
                1,
            )
            &&& result is Ok ==> after.counters.control_datagrams_invalid_total
                == before.control_datagrams_invalid_total
            &&& (result matches Ok(ActionModel::Ignored))
                ==> after.counters.control_datagrams_ignored_total == counted(
                before.control_datagrams_ignored_total,
                1,
            )
            &&& !(result matches Ok(ActionModel::Ignored))
                ==> after.counters.control_datagrams_ignored_total
                == before.control_datagrams_ignored_total
            &&& (result matches Ok(ActionModel::MembershipQuery { .. }))
                ==> after.counters.gateway_membership_queries_received_total == counted(
                before.gateway_membership_queries_received_total,
                1,
            )
            &&& result matches Ok(ActionModel::MembershipQuery { previous_teardown, .. })
                ==> after.counters.gateway_teardowns_sent_total
                == if previous_teardown is Some {
                counted(before.gateway_teardowns_sent_total, 1)
            } else {
                before.gateway_teardowns_sent_total
            }
            &&& result matches Ok(ActionModel::MulticastData { packet, .. })
                ==> after.counters.multicast_data_bytes_received_total == counted(
                before.multicast_data_bytes_received_total,
                packet.len() as int,
            ) && after.data_log.amt_packets == counted(m.data_log.amt_packets, 1)
                && after.data_log.amt_bytes == counted(m.data_log.amt_bytes, packet.len() as int)
        }),
{
}

} // verus!
