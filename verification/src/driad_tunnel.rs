//! The decisions about the tunnel of one source: which relays are probed for
//! it, which one serves it, and when that one is given up.  The caller owns the
//! sockets, one for each relay that is probed or in use.

use crate::candidates::{selection_models, DriadRelaySelection, SelectionModel};
use crate::daemon::GatewayDriadConfig;
use crate::desired::same_reports;
use crate::driad::{DriadError, DriadErrorModel};
use crate::ecn::EcnCodepoint;
use crate::gateway::{
    consistent, discovery_send, ended, reaction, replacing, request_send, updated, ActionModel,
    ConfigModel, Gateway, GatewayAction, GatewayConfig, GatewayError, GatewayErrorModel,
    GatewayModel, GatewayPhase, GatewaySend, SendModel,
};
use crate::gateway_daemon::{
    ecn_drop_counted, has_lapsed, lapsed, multicast_counted, record_gateway_ecn_drop,
    record_gateway_multicast, GATEWAY_QUERY_TIMEOUT_SECS,
};
use crate::logs::GatewayDataLog;
use crate::membership::{MembershipReport, ReportModel};
use crate::metrics::{count, counted, AmtMetricsCounters};
use crate::net::{IpAddr, Ipv4Addr, Ipv6Addr, SocketAddr};
use crate::ordered::{OrdMap, Stored};
use crate::probe_queue::{
    build_probe_queue, candidate_models, probe_queue, rank_of, same_selections, CandidateModel,
    DriadCandidate,
};
use crate::protocol::MembershipProtocol;
use crate::random::{nonce_if, RandomnessError};
use crate::retry::{
    randomized_duration_between, retry_delay, span_between, upper_delay_of, GatewayRetry,
};
use crate::static_gateway::{optional_send, query_timeout, send_of, sends};
use crate::time::{Duration, Instant};
use vstd::prelude::*;

verus! {

/// The shortest time, in seconds, after which DNS is asked again.
pub const DRIAD_MIN_REFRESH_SECS: u64 = 1;

/// The longest time, in seconds, after which DNS is asked again.
pub const DRIAD_MAX_REFRESH_SECS: u64 = 86_400;

/// When DNS is asked again, for answers that may be kept for the given span.
pub open spec fn refresh_after(ttl: Duration) -> Duration {
    if ttl.nanos < 1_000_000_000 {
        Duration::secs_spec(1)
    } else if ttl.nanos > 86_400_000_000_000 {
        Duration::secs_spec(86_400)
    } else {
        ttl
    }
}

/// When DNS is asked again, for answers that may be kept for the given span.
pub fn clamp_driad_refresh(ttl: Duration) -> (span: Duration)
    ensures
        span == refresh_after(ttl),
{
    let shortest = Duration::from_secs(DRIAD_MIN_REFRESH_SECS);
    let longest = Duration::from_secs(DRIAD_MAX_REFRESH_SECS);
    if ttl.nanos < shortest.nanos {
        shortest
    } else if ttl.nanos > longest.nanos {
        longest
    } else {
        ttl
    }
}

/// How many lookups may run at the same time, and how many do.
#[derive(Debug, PartialEq, Eq, Structural)]
pub struct DriadWorkerPool {
    pub active: usize,
    pub maximum: usize,
}

impl DriadWorkerPool {
    pub open spec fn wf(&self) -> bool {
        self.active <= self.maximum && self.maximum > 0
    }

    pub fn new(maximum: usize) -> (pool: Self)
        ensures
            pool.wf(),
            pool == (DriadWorkerPool {
                active: 0,
                maximum: if maximum == 0 {
                    1
                } else {
                    maximum
                },
            }),
    {
        DriadWorkerPool {
            active: 0,
            maximum: if maximum == 0 {
                1
            } else {
                maximum
            },
        }
    }

    /// Starts a lookup, if there is room for one.
    pub fn try_acquire(&mut self) -> (acquired: bool)
        requires
            old(self).wf(),
        ensures
            final(self).wf(),
            acquired == (old(self).active < old(self).maximum),
            *final(self) == if acquired {
                DriadWorkerPool { active: (old(self).active + 1) as usize, ..*old(self) }
            } else {
                *old(self)
            },
    {
        if self.active < self.maximum {
            self.active = self.active + 1;
            true
        } else {
            false
        }
    }

    /// Ends a lookup.
    pub fn release(&mut self)
        requires
            old(self).wf(),
            old(self).active > 0,
        ensures
            final(self).wf(),
            *final(self) == (DriadWorkerPool {
                active: (old(self).active - 1) as usize,
                ..*old(self)
            }),
    {
        self.active = self.active - 1;
    }
}

/// When DNS is asked for the relays of a source.
#[derive(Debug, Clone, Copy, PartialEq, Eq, Structural)]
pub struct RefreshSchedule {
    pub next_refresh: Instant,
    /// Whether a lookup is running.
    pub pending: bool,
    pub retry_attempt: u32,
}

impl RefreshSchedule {
    pub fn new(now: Instant) -> (schedule: Self)
        ensures
            schedule == (RefreshSchedule { next_refresh: now, pending: false, retry_attempt: 0 }),
    {
        RefreshSchedule { next_refresh: now, pending: false, retry_attempt: 0 }
    }

    /// Whether a lookup is to be started.
    pub fn is_due(&self, now: Instant) -> (due: bool)
        ensures
            due == (!self.pending && now.nanos >= self.next_refresh.nanos),
    {
        !self.pending && now.nanos >= self.next_refresh.nanos
    }

    pub open spec fn after_success(self, now: Instant, ttl: Duration) -> Self {
        RefreshSchedule {
            next_refresh: now.after_spec(refresh_after(ttl)),
            pending: false,
            retry_attempt: 0,
        }
    }

    pub open spec fn after_failure(self, now: Instant, random: u64) -> Self {
        RefreshSchedule {
            next_refresh: now.after_spec(
                retry_delay(upper_delay_of(self.retry_attempt), random),
            ),
            pending: false,
            retry_attempt: if self.retry_attempt < u32::MAX {
                (self.retry_attempt + 1) as u32
            } else {
                self.retry_attempt
            },
        }
    }

    /// Asks again when the answers may no longer be kept.
    pub fn schedule_success(&mut self, now: Instant, ttl: Duration)
        requires
            now.can_add(Duration::secs_spec(86_400)),
        ensures
            *final(self) == old(self).after_success(now, ttl),
    {
        self.retry_attempt = 0;
        self.pending = false;
        self.next_refresh = now.after(clamp_driad_refresh(ttl));
    }

    /// Asks again after a while, which grows with every failure.
    pub fn schedule_failure(&mut self, now: Instant)
        requires
            now.can_add(Duration::secs_spec(86_400)),
        ensures
            exists|random: u64| *final(self) == #[trigger] old(self).after_failure(now, random),
    {
        let mut retry = GatewayRetry { attempt: self.retry_attempt, next_attempt: now };
        retry.after_send(now);
        proof {
            let first = GatewayRetry { attempt: self.retry_attempt, next_attempt: now };
            let random = choose|random: u64|
                retry == #[trigger] crate::retry::retried(first, now, random);
            assert(old(self).after_failure(now, random).next_refresh == retry.next_attempt);
        }
        self.retry_attempt = retry.attempt;
        self.next_refresh = retry.next_attempt;
        self.pending = false;
    }
}

/// What is settled about the tunnel of a source.
#[derive(Debug, Clone, Copy, PartialEq, Eq, Structural)]
pub struct TunnelSettings {
    pub source: IpAddr,
    pub protocol: MembershipProtocol,
    pub ecn: bool,
    pub bind: Option<IpAddr>,
    pub use_anycast: bool,
    pub happy_eyeballs_delay: Duration,
    pub relay_hold_down: Duration,
    pub traffic_hold_down: Duration,
    pub initial_traffic_timeout: Duration,
    pub maximum_traffic_timeout: Duration,
    pub max_concurrent_probes: usize,
}

impl TunnelSettings {
    /// The settings of a source's tunnel under a configuration.
    pub fn new(
        source: IpAddr,
        protocol: MembershipProtocol,
        ecn: bool,
        config: &GatewayDriadConfig,
    ) -> (settings: Self)
        ensures
            settings == (TunnelSettings {
                source,
                protocol,
                ecn,
                bind: match config.bind {
                    Some(bind) => Some(bind.ip_spec()),
                    None => None,
                },
                use_anycast: config.use_anycast,
                happy_eyeballs_delay: config.happy_eyeballs_delay,
                relay_hold_down: config.relay_hold_down,
                traffic_hold_down: config.traffic_hold_down,
                initial_traffic_timeout: config.initial_traffic_timeout,
                maximum_traffic_timeout: config.maximum_traffic_timeout,
                max_concurrent_probes: if config.max_concurrent_probes == 0 {
                    1
                } else {
                    config.max_concurrent_probes
                },
            }),
    {
        TunnelSettings {
            source,
            protocol,
            ecn,
            bind: match config.bind {
                Some(bind) => Some(bind.ip()),
                None => None,
            },
            use_anycast: config.use_anycast,
            happy_eyeballs_delay: config.happy_eyeballs_delay,
            relay_hold_down: config.relay_hold_down,
            traffic_hold_down: config.traffic_hold_down,
            initial_traffic_timeout: config.initial_traffic_timeout,
            maximum_traffic_timeout: config.maximum_traffic_timeout,
            max_concurrent_probes: if config.max_concurrent_probes == 0 {
                1
            } else {
                config.max_concurrent_probes
            },
        }
    }

    /// Whether the clock has room for all the spans of the settings.
    pub open spec fn fits_clock(self, now: Instant) -> bool {
        &&& now.can_add(self.happy_eyeballs_delay)
        &&& now.can_add(self.relay_hold_down)
        &&& now.can_add(self.traffic_hold_down)
        &&& now.can_add(Duration { nanos: crate::time::MAX_SPAN_NANOS })
    }
}

/// A relay that is being probed.
#[derive(Debug, PartialEq, Eq)]
pub struct DriadProbe {
    pub candidate: DriadCandidate,
    pub gateway: Gateway,
    pub deadline: Instant,
}

/// A [`DriadProbe`] with its parts as mathematical values.
pub struct ProbeModel {
    pub candidate: CandidateModel,
    pub gateway: GatewayModel,
    pub deadline: Instant,
}

impl View for DriadProbe {
    type V = ProbeModel;

    open spec fn view(&self) -> ProbeModel {
        ProbeModel {
            candidate: self.candidate@,
            gateway: self.gateway@,
            deadline: self.deadline,
        }
    }
}

/// The relay that serves a source.
#[derive(Debug, PartialEq, Eq)]
pub struct ActiveDriadTunnel {
    pub candidate: DriadCandidate,
    pub gateway: Gateway,
    pub effective_refresh_interval: Duration,
    pub query_cycle_started: Option<Instant>,
    pub last_membership_refresh: Instant,
    /// When the relay is given up, if no packet has come by then.
    pub traffic_deadline: Option<Instant>,
}

/// An [`ActiveDriadTunnel`] with its parts as mathematical values.
#[verifier::ext_equal]
pub struct ActiveModel {
    pub candidate: CandidateModel,
    pub gateway: GatewayModel,
    pub effective_refresh_interval: Duration,
    pub query_cycle_started: Option<Instant>,
    pub last_membership_refresh: Instant,
    pub traffic_deadline: Option<Instant>,
}

impl View for ActiveDriadTunnel {
    type V = ActiveModel;

    open spec fn view(&self) -> ActiveModel {
        ActiveModel {
            candidate: self.candidate@,
            gateway: self.gateway@,
            effective_refresh_interval: self.effective_refresh_interval,
            query_cycle_started: self.query_cycle_started,
            last_membership_refresh: self.last_membership_refresh,
            traffic_deadline: self.traffic_deadline,
        }
    }
}

/// Why the relay that serves a source is given up.
#[derive(Debug, Clone, Copy, PartialEq, Eq, Structural)]
pub enum DriadActiveFailure {
    Loaded,
    QueryTimeout,
    NoTraffic,
}

/// The tunnel of one source.
#[derive(Debug, PartialEq, Eq)]
pub struct DriadSourceTunnel {
    pub settings: TunnelSettings,
    pub refresh: RefreshSchedule,
    pub dns_candidates: Vec<DriadRelaySelection>,
    pub hold_downs: OrdMap<SocketAddr, Instant>,
    pub pending: Vec<DriadCandidate>,
    pub current_rank: Option<u32>,
    pub probes: Vec<DriadProbe>,
    pub next_probe_at: Instant,
    pub retry_round_at: Option<Instant>,
    pub retry_attempt: u32,
    pub traffic_retry_attempt: u32,
    pub no_relay_present: bool,
    pub active: Option<ActiveDriadTunnel>,
    pub desired: MembershipReport,
}

/// A [`DriadSourceTunnel`] with its parts as mathematical values.
#[verifier::ext_equal]
pub struct TunnelModel {
    pub settings: TunnelSettings,
    pub refresh: RefreshSchedule,
    pub dns_candidates: Seq<SelectionModel>,
    pub hold_downs: Map<SocketAddr, Instant>,
    pub pending: Seq<CandidateModel>,
    pub current_rank: Option<u32>,
    pub probes: Seq<ProbeModel>,
    pub next_probe_at: Instant,
    pub retry_round_at: Option<Instant>,
    pub retry_attempt: u32,
    pub traffic_retry_attempt: u32,
    pub no_relay_present: bool,
    pub active: Option<ActiveModel>,
    pub desired: ReportModel,
}

/// What some probes say.
pub open spec fn probe_models(probes: Seq<DriadProbe>) -> Seq<ProbeModel> {
    probes.map_values(|probe: DriadProbe| probe@)
}

/// What an active relay says, if there is one.
pub open spec fn active_model(active: Option<ActiveDriadTunnel>) -> Option<ActiveModel> {
    match active {
        Some(active) => Some(active@),
        None => None,
    }
}

impl View for DriadSourceTunnel {
    type V = TunnelModel;

    open spec fn view(&self) -> TunnelModel {
        TunnelModel {
            settings: self.settings,
            refresh: self.refresh,
            dns_candidates: selection_models(self.dns_candidates@),
            hold_downs: self.hold_downs@,
            pending: candidate_models(self.pending@),
            current_rank: self.current_rank,
            probes: probe_models(self.probes@),
            next_probe_at: self.next_probe_at,
            retry_round_at: self.retry_round_at,
            retry_attempt: self.retry_attempt,
            traffic_retry_attempt: self.traffic_retry_attempt,
            no_relay_present: self.no_relay_present,
            active: active_model(self.active),
            desired: self.desired@,
        }
    }
}

/// The hold-downs that are not over.
pub open spec fn still_held(hold_downs: Map<SocketAddr, Instant>, now: Instant) -> Map<
    SocketAddr,
    Instant,
> {
    hold_downs.remove_keys(
        Set::new(
            |relay: SocketAddr|
                hold_downs.contains_key(relay) && hold_downs[relay].nanos <= now.nanos,
        ),
    )
}

/// The relays that are being probed.
pub open spec fn probed(probes: Seq<ProbeModel>) -> Set<SocketAddr> {
    probes.map_values(|probe: ProbeModel| probe.candidate.selection.relay).to_set()
}

/// The lowest rank that is being probed.
pub open spec fn lowest_rank(probes: Seq<ProbeModel>) -> Option<u32>
    decreases probes.len(),
{
    if probes.len() == 0 {
        None
    } else {
        let last = rank_of(probes.last().candidate) as u32;
        match lowest_rank(probes.drop_last()) {
            Some(rank) => if rank <= last {
                Some(rank)
            } else {
                Some(last)
            },
            None => Some(last),
        }
    }
}

/// A tunnel whose queue of relays to probe is made anew.
pub open spec fn rebuilt(m: TunnelModel, now: Instant) -> TunnelModel {
    let hold_downs = still_held(m.hold_downs, now);
    if m.no_relay_present {
        TunnelModel {
            hold_downs,
            pending: Seq::empty(),
            current_rank: None,
            retry_round_at: None,
            ..m
        }
    } else {
        let pending = probe_queue(
            m.settings.source,
            m.settings.bind,
            m.settings.use_anycast,
            m.dns_candidates,
            hold_downs.dom(),
            probed(m.probes),
        );
        TunnelModel {
            hold_downs,
            pending,
            current_rank: match lowest_rank(m.probes) {
                Some(rank) => Some(rank),
                None => if pending.len() > 0 {
                    Some(rank_of(pending[0]) as u32)
                } else {
                    None
                },
            },
            next_probe_at: now,
            retry_round_at: None,
            ..m
        }
    }
}

/// A tunnel that takes the next relay to probe off its queue, if one is due:
/// one after another, not too many at once, and none of a higher rank while one
/// of a lower rank is being probed.
pub open spec fn taken(m: TunnelModel, now: Instant) -> (TunnelModel, Option<CandidateModel>) {
    if m.retry_round_at is Some && now.nanos < m.retry_round_at->Some_0.nanos {
        (m, None)
    } else {
        let ready = if m.retry_round_at is Some {
            rebuilt(m, now)
        } else {
            m
        };
        if now.nanos < ready.next_probe_at.nanos || ready.probes.len()
            >= ready.settings.max_concurrent_probes {
            (ready, None)
        } else if ready.pending.len() == 0 {
            (ready, None)
        } else {
            let next = rank_of(ready.pending[0]) as u32;
            let current = if ready.probes.len() == 0 {
                Some(next)
            } else {
                ready.current_rank
            };
            if current != Some(next) {
                (TunnelModel { current_rank: current, ..ready }, None)
            } else {
                (
                    TunnelModel {
                        current_rank: current,
                        pending: ready.pending.skip(1),
                        ..ready
                    },
                    Some(ready.pending[0]),
                )
            }
        }
    }
}

impl DriadSourceTunnel {
    pub open spec fn wf(&self) -> bool {
        &&& self.hold_downs.wf()
        &&& forall|i: int|
            0 <= i < self.probes@.len() ==> (#[trigger] self.probes@[i]).gateway.wf()
                && consistent(self.probes@[i].gateway@)
        &&& self.active matches Some(active) ==> active.gateway.wf() && consistent(
            active.gateway@,
        )
    }

    /// A tunnel that starts to look for a relay.
    pub fn new(settings: TunnelSettings, desired: MembershipReport, now: Instant) -> (tunnel: Self)
        ensures
            tunnel.wf(),
            tunnel@ == rebuilt(
                TunnelModel {
                    settings,
                    refresh: RefreshSchedule {
                        next_refresh: now,
                        pending: false,
                        retry_attempt: 0,
                    },
                    dns_candidates: Seq::empty(),
                    hold_downs: Map::empty(),
                    pending: Seq::empty(),
                    current_rank: None,
                    probes: Seq::empty(),
                    next_probe_at: now,
                    retry_round_at: None,
                    retry_attempt: 0,
                    traffic_retry_attempt: 0,
                    no_relay_present: false,
                    active: None,
                    desired: desired@,
                },
                now,
            ),
    {
        let mut tunnel = DriadSourceTunnel {
            settings,
            refresh: RefreshSchedule::new(now),
            dns_candidates: Vec::new(),
            hold_downs: OrdMap::new(),
            pending: Vec::new(),
            current_rank: None,
            probes: Vec::new(),
            next_probe_at: now,
            retry_round_at: None,
            retry_attempt: 0,
            traffic_retry_attempt: 0,
            no_relay_present: false,
            active: None,
            desired,
        };
        proof {
            assert(tunnel@.dns_candidates =~= Seq::empty());
            assert(tunnel@.pending =~= Seq::empty());
            assert(tunnel@.probes =~= Seq::empty());
        }
        tunnel.rebuild_probe_queue(now);
        tunnel
    }

    pub fn is_active(&self) -> (b: bool)
        ensures
            b == (self.active is Some),
    {
        self.active.is_some()
    }

    pub fn probe_count(&self) -> (n: usize)
        ensures
            n == self.probes@.len(),
    {
        self.probes.len()
    }

    fn drop_lapsed_hold_downs(&mut self, now: Instant)
        requires
            old(self).wf(),
        ensures
            final(self).wf(),
            final(self)@ == (TunnelModel {
                hold_downs: still_held(old(self)@.hold_downs, now),
                ..old(self)@
            }),
    {
        let lapsed = lapsed_hold_downs(&self.hold_downs, now);
        let ghost all = self.hold_downs@;
        let mut i: usize = 0;
        proof {
            assert(lapsed@.take(0).to_set() =~= Set::empty());
            assert(all.remove_keys(Set::empty()) =~= all);
        }
        while i < lapsed.len()
            invariant
                i <= lapsed@.len(),
                self.wf(),
                all == old(self)@.hold_downs,
                self@ == (TunnelModel {
                    hold_downs: all.remove_keys(lapsed@.take(i as int).to_set()),
                    ..old(self)@
                }),
            decreases lapsed@.len() - i,
        {
            let relay = lapsed[i];
            self.hold_downs.remove(relay);
            proof {
                let shorter = lapsed@.take(i as int).to_set();
                let longer = lapsed@.take(i + 1).to_set();
                assert forall|r: SocketAddr| #[trigger] longer.contains(r) <==> shorter.contains(
                    r,
                ) || r == relay by {
                    crate::activity::lemma_take_grows(lapsed@, i as int, r);
                }
                assert(all.remove_keys(longer) =~= all.remove_keys(shorter).remove(relay));
            }
            i += 1;
        }
        proof {
            assert(lapsed@.take(i as int) =~= lapsed@);
            assert(still_held(all, now) =~= all.remove_keys(lapsed@.to_set()));
        }
    }

    /// Makes the queue of relays to probe anew.
    pub fn rebuild_probe_queue(&mut self, now: Instant)
        requires
            old(self).wf(),
        ensures
            final(self).wf(),
            final(self)@ == rebuilt(old(self)@, now),
    {
        self.drop_lapsed_hold_downs(now);
        if self.no_relay_present {
            self.pending = Vec::new();
            self.current_rank = None;
            self.retry_round_at = None;
            proof {
                assert(self@.pending =~= Seq::empty());
            }
            return;
        }
        let in_flight = self.probed_relays();
        let lowest = self.lowest_probed_rank();
        let pending = build_probe_queue(
            self.settings.source,
            self.settings.bind,
            self.settings.use_anycast,
            &self.dns_candidates,
            &self.hold_downs,
            &in_flight,
        );
        proof {
            assert(candidate_models(pending@).len() == pending@.len());
        }
        self.current_rank = match lowest {
            Some(rank) => Some(rank),
            None => if pending.len() > 0 {
                proof {
                    assert(candidate_models(pending@)[0] == pending@[0]@);
                }
                Some(pending[0].rank())
            } else {
                None
            },
        };
        self.pending = pending;
        self.next_probe_at = now;
        self.retry_round_at = None;
    }

    fn probed_relays(&self) -> (relays: Vec<SocketAddr>)
        ensures
            relays@.to_set() == probed(self@.probes),
    {
        let ghost all = self@.probes.map_values(
            |probe: ProbeModel| probe.candidate.selection.relay,
        );
        let mut relays: Vec<SocketAddr> = Vec::new();
        let mut i: usize = 0;
        while i < self.probes.len()
            invariant
                i <= self.probes@.len(),
                all == self@.probes.map_values(
                    |probe: ProbeModel| probe.candidate.selection.relay,
                ),
                relays@ == all.take(i as int),
            decreases self.probes@.len() - i,
        {
            proof {
                assert(self@.probes[i as int] == self.probes@[i as int]@);
                assert(all.take(i + 1) =~= all.take(i as int).push(all[i as int]));
            }
            relays.push(self.probes[i].candidate.selection.relay);
            i += 1;
        }
        proof {
            assert(all.take(i as int) =~= all);
        }
        relays
    }

    fn lowest_probed_rank(&self) -> (rank: Option<u32>)
        ensures
            rank == lowest_rank(self@.probes),
    {
        let ghost models = self@.probes;
        let mut lowest: Option<u32> = None;
        let mut i: usize = 0;
        proof {
            assert(models.take(0) =~= Seq::empty());
        }
        while i < self.probes.len()
            invariant
                i <= self.probes@.len(),
                models == self@.probes,
                lowest == lowest_rank(models.take(i as int)),
            decreases self.probes@.len() - i,
        {
            proof {
                assert(models.take(i + 1).drop_last() =~= models.take(i as int));
                assert(models.take(i + 1).last() == self.probes@[i as int]@);
            }
            let rank: u32 = self.probes[i].candidate.rank();
            lowest = match lowest {
                Some(low) => if low <= rank {
                    Some(low)
                } else {
                    Some(rank)
                },
                None => Some(rank),
            };
            i += 1;
        }
        proof {
            assert(models.take(i as int) =~= models);
        }
        lowest
    }

    /// The next relay to probe, if one is due, and the address to bind to.
    pub fn take_probe(&mut self, now: Instant) -> (next: Option<(DriadCandidate, SocketAddr)>)
        requires
            old(self).wf(),
        ensures
            final(self).wf(),
            match next {
                Some((candidate, bind)) => taken(old(self)@, now) == (
                    final(self)@,
                    Some(candidate@),
                ) && bind == SocketAddr::of(
                    match old(self)@.settings.bind {
                        Some(bind) => bind,
                        None => if candidate.selection.relay is V4 {
                            IpAddr::V4(Ipv4Addr { bits: 0 })
                        } else {
                            IpAddr::V6(Ipv6Addr { bits: 0 })
                        },
                    },
                    0,
                ),
                None => taken(old(self)@, now) == (final(self)@, None::<CandidateModel>),
            },
    {
        if let Some(retry_at) = self.retry_round_at {
            if now.nanos < retry_at.nanos {
                return None;
            }
            self.rebuild_probe_queue(now);
        }
        let ghost ready = self@;
        proof {
            assert(ready.probes.len() == self.probes@.len());
            assert(ready.pending.len() == self.pending@.len());
        }
        if now.nanos < self.next_probe_at.nanos || self.probes.len()
            >= self.settings.max_concurrent_probes {
            return None;
        }
        if self.pending.len() == 0 {
            return None;
        }
        proof {
            assert(ready.pending[0] == self.pending@[0]@);
        }
        let rank: u32 = self.pending[0].rank();
        if self.probes.len() == 0 {
            self.current_rank = Some(rank);
        }
        if self.current_rank != Some(rank) {
            return None;
        }
        let ghost queue = self.pending@;
        let candidate = self.pending.remove(0);
        proof {
            assert(candidate_models(self.pending@) =~= candidate_models(queue).skip(1));
        }
        let bind = SocketAddr::new(
            match self.settings.bind {
                Some(bind) => bind,
                None => if candidate.selection.relay.is_ipv4() {
                    IpAddr::V4(Ipv4Addr { bits: 0 })
                } else {
                    IpAddr::V6(Ipv6Addr { bits: 0 })
                },
            },
            0,
        );
        Some((candidate, bind))
    }

    /// How many relays are held down.
    pub fn hold_down_count(&self, now: Instant) -> (n: usize)
        requires
            self.wf(),
        ensures
            n == still_held(self@.hold_downs, now).dom().len(),
    {
        let lapsed = lapsed_hold_downs(&self.hold_downs, now);
        proof {
            self.hold_downs.lemma_facts();
            let all = self.hold_downs@.dom();
            let gone = lapsed@.to_set();
            assert(gone.subset_of(all));
            vstd::set_lib::lemma_len_subset(gone, all);
            lapsed@.unique_seq_to_set();
            assert(still_held(self@.hold_downs, now).dom() =~= all.difference(gone));
            vstd::set_lib::lemma_set_difference_len(all, gone);
            assert(all.intersect(gone) =~= gone);
        }
        self.hold_downs.len() - lapsed.len()
    }
}

fn lapsed_hold_downs(hold_downs: &OrdMap<SocketAddr, Instant>, now: Instant) -> (lapsed: Vec<
    SocketAddr,
>)
    requires
        hold_downs.wf(),
    ensures
        lapsed@.no_duplicates(),
        lapsed@.to_set() == Set::new(
            |relay: SocketAddr|
                hold_downs@.contains_key(relay) && hold_downs@[relay].nanos <= now.nanos,
        ),
{
    let ghost keys = hold_downs.keys_seq();
    let ghost target = Set::new(
        |relay: SocketAddr|
            hold_downs@.contains_key(relay) && hold_downs@[relay].nanos <= now.nanos,
    );
    let mut lapsed: Vec<SocketAddr> = Vec::new();
    let mut i: usize = 0;
    proof {
        hold_downs.lemma_facts();
    }
    while i < hold_downs.len()
        invariant
            hold_downs.wf(),
            keys == hold_downs.keys_seq(),
            keys.no_duplicates(),
            i <= keys.len(),
            lapsed@.no_duplicates(),
            forall|r: SocketAddr| #[trigger]
                lapsed@.contains(r) <==> (keys.take(i as int).contains(r) && hold_downs@[r].nanos
                    <= now.nanos),
        decreases keys.len() - i,
    {
        let ghost before = lapsed@;
        let relay = hold_downs.key_at(i);
        let over: bool = hold_downs.value_at(i).nanos <= now.nanos;
        if over {
            lapsed.push(relay);
        }
        proof {
            hold_downs.lemma_facts();
            assert(!keys.take(i as int).contains(relay)) by {
                if keys.take(i as int).contains(relay) {
                    let m = choose|m: int|
                        0 <= m < keys.take(i as int).len() && keys.take(i as int)[m] == relay;
                    assert(keys[m] == keys[i as int]);
                }
            }
            assert(!before.contains(relay));
            assert forall|r: SocketAddr| #[trigger] lapsed@.contains(r) <==> (keys.take(
                i + 1,
            ).contains(r) && hold_downs@[r].nanos <= now.nanos) by {
                crate::activity::lemma_take_grows(keys, i as int, r);
                assert(before.contains(r) <==> (keys.take(i as int).contains(r)
                    && hold_downs@[r].nanos <= now.nanos));
                if over {
                    assert(lapsed@.take(lapsed@.len() as int) =~= lapsed@);
                    assert(lapsed@.take(lapsed@.len() - 1) =~= before);
                    crate::activity::lemma_take_grows(lapsed@, lapsed@.len() - 1, r);
                }
            }
            assert forall|a: int, b: int| 0 <= a < lapsed@.len() && 0 <= b < lapsed@.len() && a
                != b implies lapsed@[a] != lapsed@[b] by {
                if a < before.len() {
                    assert(before.contains(before[a]));
                    assert(before[a] == lapsed@[a]);
                }
                if b < before.len() {
                    assert(before.contains(before[b]));
                    assert(before[b] == lapsed@[b]);
                }
            }
        }
        i += 1;
    }
    proof {
        hold_downs.lemma_facts();
        assert(keys.take(keys.len() as int) =~= keys);
        assert(lapsed@.to_set() =~= target) by {
            assert forall|r: SocketAddr| lapsed@.to_set().contains(r) <==> #[trigger] target.contains(
                r,
            ) by {
                assert(keys.contains(r) <==> keys.to_set().contains(r));
                assert(lapsed@.contains(r) <==> (keys.contains(r) && hold_downs@[r].nanos
                    <= now.nanos));
            }
        }
    }
    lapsed
}

/// A tunnel after an attempt to start a probe.
pub open spec fn probe_attempted(m: TunnelModel, now: Instant) -> TunnelModel {
    TunnelModel { next_probe_at: now.after_spec(m.settings.happy_eyeballs_delay), ..m }
}

/// Counters after a probe that could not be started or went wrong.
pub open spec fn probe_error_counted(counters: AmtMetricsCounters, send_failed: bool) -> AmtMetricsCounters {
    AmtMetricsCounters {
        send_errors_total: if send_failed {
            counted(counters.send_errors_total, 1)
        } else {
            counters.send_errors_total
        },
        driad_probe_errors_total: counted(counters.driad_probe_errors_total, 1),
        ..counters
    }
}

/// Counts a probe that could not be started or went wrong.
pub fn count_probe_error(counters: &mut AmtMetricsCounters, send_failed: bool)
    ensures
        *final(counters) == probe_error_counted(*old(counters), send_failed),
{
    if send_failed {
        counters.send_errors_total = count(counters.send_errors_total, 1);
    }
    counters.driad_probe_errors_total = count(counters.driad_probe_errors_total, 1);
}

/// Probes without the one at a place; the last one takes the place.
pub open spec fn probe_removed(probes: Seq<ProbeModel>, index: int) -> Seq<ProbeModel> {
    if index == probes.len() - 1 {
        probes.drop_last()
    } else {
        probes.drop_last().update(index, probes.last())
    }
}

/// What the caller is to do about a datagram from a probed relay.
#[derive(Debug, PartialEq, Eq)]
#[allow(inconsistent_fields)]
pub enum ProbeStep {
    /// Send this.
    Send(GatewaySend),
    /// The relay takes no new gateways.
    Loaded(SocketAddr),
    /// The relay can serve the source.
    Winner { query_interval: Duration, previous_teardown: Option<GatewaySend> },
    /// Nothing.
    Nothing,
}

/// A [`ProbeStep`] with its parts as mathematical values.
#[allow(inconsistent_fields)]
pub enum ProbeStepModel {
    Send(SendModel),
    Loaded(SocketAddr),
    Winner { query_interval: Duration, previous_teardown: Option<SendModel> },
    Nothing,
}

impl View for ProbeStep {
    type V = ProbeStepModel;

    open spec fn view(&self) -> ProbeStepModel {
        match *self {
            ProbeStep::Send(send) => ProbeStepModel::Send(send@),
            ProbeStep::Loaded(relay) => ProbeStepModel::Loaded(relay),
            ProbeStep::Winner { query_interval, previous_teardown } => ProbeStepModel::Winner {
                query_interval,
                previous_teardown: optional_send(previous_teardown),
            },
            ProbeStep::Nothing => ProbeStepModel::Nothing,
        }
    }
}

/// The relay that a gateway has reached, or the one that it was told.
pub open spec fn actual_relay(gateway: GatewayModel, candidate: CandidateModel) -> SocketAddr {
    match gateway.relay_endpoint {
        Some(relay) => relay,
        None => candidate.selection.relay,
    }
}

/// What a datagram from a probed relay leads to: a Membership Query ends the
/// probe.
pub open spec fn probe_followed(
    probe: ProbeModel,
    counters: AmtMetricsCounters,
    peer: SocketAddr,
    datagram: Seq<u8>,
    outer: EcnCodepoint,
) -> (ProbeModel, AmtMetricsCounters, ProbeStepModel) {
    let (gateway, result) = reaction(probe.gateway, peer, datagram, outer);
    let after = ProbeModel { gateway, ..probe };
    let heard = AmtMetricsCounters {
        control_datagrams_received_total: counted(counters.control_datagrams_received_total, 1),
        ..counters
    };
    match result {
        Ok(ActionModel::Send { destination, datagram }) => (
            after,
            heard,
            ProbeStepModel::Send(SendModel { destination, datagram }),
        ),
        Ok(ActionModel::MembershipQuery { limit, query_interval, previous_teardown, .. }) => (
            after,
            AmtMetricsCounters {
                gateway_membership_queries_received_total: counted(
                    heard.gateway_membership_queries_received_total,
                    1,
                ),
                ..heard
            },
            if limit {
                ProbeStepModel::Loaded(actual_relay(gateway, probe.candidate))
            } else {
                ProbeStepModel::Winner { query_interval, previous_teardown }
            },
        ),
        Ok(_) => (after, heard, ProbeStepModel::Nothing),
        Err(_) => (
            after,
            AmtMetricsCounters {
                control_datagrams_invalid_total: counted(
                    heard.control_datagrams_invalid_total,
                    1,
                ),
                ..heard
            },
            ProbeStepModel::Nothing,
        ),
    }
}

impl DriadProbe {
    pub open spec fn wf(&self) -> bool {
        self.gateway.wf() && consistent(self.gateway@)
    }

    /// Takes in a datagram from the relay.
    pub fn handle_datagram(
        &mut self,
        counters: &mut AmtMetricsCounters,
        peer: SocketAddr,
        datagram: &[u8],
        outer: EcnCodepoint,
    ) -> (step: ProbeStep)
        requires
            old(self).wf(),
        ensures
            final(self).wf(),
            (final(self)@, *final(counters), step@) == probe_followed(
                old(self)@,
                *old(counters),
                peer,
                datagram@,
                outer,
            ),
    {
        counters.control_datagrams_received_total = count(
            counters.control_datagrams_received_total,
            1,
        );
        proof {
            crate::gateway::law_datagrams_keep_gateways_consistent(
                self.gateway@,
                peer,
                datagram@,
                outer,
            );
        }
        match self.gateway.handle_datagram_with_ecn(peer, datagram, outer) {
            Ok(GatewayAction::Send { destination, datagram }) => ProbeStep::Send(
                GatewaySend { destination, datagram },
            ),
            Ok(
                GatewayAction::MembershipQuery { limit, query_interval, previous_teardown, .. },
            ) => {
                counters.gateway_membership_queries_received_total = count(
                    counters.gateway_membership_queries_received_total,
                    1,
                );
                if limit {
                    ProbeStep::Loaded(
                        match self.gateway.relay_endpoint() {
                            Some(relay) => relay,
                            None => self.candidate.selection.relay,
                        },
                    )
                } else {
                    ProbeStep::Winner { query_interval, previous_teardown }
                }
            },
            Ok(_) => ProbeStep::Nothing,
            Err(_) => {
                counters.control_datagrams_invalid_total = count(
                    counters.control_datagrams_invalid_total,
                    1,
                );
                ProbeStep::Nothing
            },
        }
    }
}

/// A relay that is held down under both of its addresses.
pub open spec fn held_down(
    hold_downs: Map<SocketAddr, Instant>,
    candidate: CandidateModel,
    actual: SocketAddr,
    expires: Instant,
) -> Map<SocketAddr, Instant> {
    hold_downs.insert(candidate.selection.relay, expires).insert(actual, expires)
}

/// The longest time for which a relay may deliver nothing: it doubles with
/// every relay that delivered nothing.
pub open spec fn traffic_upper(settings: TunnelSettings, attempt: u32) -> Duration {
    let factor = vstd::arithmetic::power2::pow2(
        if attempt < 5 {
            attempt as nat
        } else {
            5
        },
    );
    let grown = if settings.initial_traffic_timeout.nanos * factor <= crate::time::MAX_SPAN_NANOS {
        settings.initial_traffic_timeout.nanos * factor
    } else {
        crate::time::MAX_SPAN_NANOS as int
    };
    Duration { nanos: grown as u128 }.min_spec(settings.maximum_traffic_timeout)
}

/// The time for which a relay may deliver nothing, given a random number.
pub open spec fn traffic_timeout(settings: TunnelSettings, attempt: u32, random: u64) -> Duration {
    span_between(
        settings.initial_traffic_timeout,
        traffic_upper(settings, attempt),
        random,
    )
}

/// What telling a relay the memberships does to the gateway; nothing is sent
/// where there is nothing to say.
pub open spec fn desired_built(gateway: GatewayModel, desired: ReportModel) -> (
    GatewayModel,
    Result<Option<SendModel>, GatewayErrorModel>,
) {
    let whole = replacing(gateway, desired);
    if whole.records.len() == 0 {
        (gateway, Ok(None))
    } else {
        let (after, result) = updated(gateway, whole);
        match result {
            Ok(action) => (after, Ok(Some(send_of(action)))),
            Err(error) => (after, Err(error)),
        }
    }
}

/// An active relay once the memberships are sent.
pub open spec fn desired_noted(active: ActiveModel, now: Instant, timeout: Duration) -> ActiveModel {
    ActiveModel {
        last_membership_refresh: now,
        traffic_deadline: Some(now.after_spec(timeout)),
        ..active
    }
}

impl ActiveDriadTunnel {
    pub open spec fn wf(&self) -> bool {
        self.gateway.wf() && consistent(self.gateway@)
    }

    /// The memberships to send to the relay, if there are any.
    pub fn build_desired(&mut self, desired: &MembershipReport) -> (result: Result<
        Option<GatewaySend>,
        GatewayError,
    >)
        requires
            old(self).wf(),
        ensures
            final(self).wf(),
            ({
                let (gateway, said) = desired_built(old(self)@.gateway, desired@);
                &&& final(self)@ == (ActiveModel { gateway, ..old(self)@ })
                &&& crate::static_gateway::sent_result(result) == said
            }),
    {
        let ghost whole = replacing(self.gateway@, desired@);
        match self.gateway.replace_memberships(desired.clone()) {
            Ok(Some(action)) => {
                proof {
                    assert(updated(old(self)@.gateway, whole).1 is Ok);
                }
                Ok(Some(sends(action)))
            },
            Ok(None) => Ok(None),
            Err(error) => Err(error),
        }
    }

    /// Takes note that the memberships were sent.
    pub fn desired_sent(
        &mut self,
        now: Instant,
        timeout: Duration,
        counters: &mut AmtMetricsCounters,
    )
        requires
            old(self).wf(),
            now.can_add(timeout),
        ensures
            final(self).wf(),
            final(self)@ == desired_noted(old(self)@, now, timeout),
            *final(counters) == (AmtMetricsCounters {
                gateway_membership_updates_sent_total: counted(
                    old(counters).gateway_membership_updates_sent_total,
                    1,
                ),
                ..*old(counters)
            }),
    {
        self.last_membership_refresh = now;
        self.traffic_deadline = Some(now.after(timeout));
        counters.gateway_membership_updates_sent_total = count(
            counters.gateway_membership_updates_sent_total,
            1,
        );
    }
}

impl DriadSourceTunnel {
    /// Takes note that no socket could be had for a probe, or that it could not
    /// be sent.
    pub fn probe_not_started(
        &mut self,
        now: Instant,
        send_failed: bool,
        counters: &mut AmtMetricsCounters,
    )
        requires
            old(self).wf(),
            old(self).settings.fits_clock(now),
        ensures
            final(self).wf(),
            final(self)@ == probe_attempted(old(self)@, now),
            *final(counters) == probe_error_counted(*old(counters), send_failed),
    {
        count_probe_error(counters, send_failed);
        self.next_probe_at = now.after(self.settings.happy_eyeballs_delay);
    }

    /// A gateway to probe a relay with, and the discovery that it sends.
    pub fn probe_gateway(&self, relay: SocketAddr) -> (result: Result<
        (Gateway, GatewaySend),
        RandomnessError,
    >)
        ensures
            result matches Ok((gateway, send)) ==> {
                &&& gateway.wf()
                &&& consistent(gateway@)
                &&& gateway.config.discovery_nonce != 0
                &&& gateway.config.request_nonce != 0
                &&& gateway@ == (GatewayModel {
                    config: ConfigModel {
                        relay,
                        fallback_relays: Seq::empty(),
                        protocol: self.settings.protocol,
                        ecn: self.settings.ecn,
                        discovery_nonce: gateway.config.discovery_nonce,
                        request_nonce: gateway.config.request_nonce,
                    },
                    candidates: seq![relay],
                    phase: GatewayPhase::Discovering,
                    relay_endpoint: None,
                    session: None,
                    reception: Map::empty(),
                })
                &&& send@ == send_of(discovery_send(gateway@))
            },
    {
        match GatewayConfig::new(relay, self.settings.protocol) {
            Ok(config) => self.probe_gateway_with(
                relay,
                config.discovery_nonce,
                config.request_nonce,
            ),
            Err(error) => Err(error),
        }
    }

    /// A gateway to probe a relay with under given nonces, a random one in place
    /// of zero, and the discovery that it sends.
    pub fn probe_gateway_with(
        &self,
        relay: SocketAddr,
        discovery_nonce: u32,
        request_nonce: u32,
    ) -> (result: Result<(Gateway, GatewaySend), RandomnessError>)
        ensures
            discovery_nonce != 0 && request_nonce != 0 ==> result is Ok,
            result matches Ok((gateway, send)) ==> {
                &&& gateway.wf()
                &&& consistent(gateway@)
                &&& gateway.config.discovery_nonce != 0
                &&& gateway.config.request_nonce != 0
                &&& discovery_nonce != 0 ==> gateway.config.discovery_nonce == discovery_nonce
                &&& request_nonce != 0 ==> gateway.config.request_nonce == request_nonce
                &&& gateway@ == (GatewayModel {
                    config: ConfigModel {
                        relay,
                        fallback_relays: Seq::empty(),
                        protocol: self.settings.protocol,
                        ecn: self.settings.ecn,
                        discovery_nonce: gateway.config.discovery_nonce,
                        request_nonce: gateway.config.request_nonce,
                    },
                    candidates: seq![relay],
                    phase: GatewayPhase::Discovering,
                    relay_endpoint: None,
                    session: None,
                    reception: Map::empty(),
                })
                &&& send@ == send_of(discovery_send(gateway@))
            },
    {
        let config = GatewayConfig::from_nonces(
            relay,
            self.settings.protocol,
            discovery_nonce,
            request_nonce,
        ).with_ecn(self.settings.ecn);
        let gateway = match Gateway::new(config) {
            Ok(gateway) => gateway,
            Err(error) => return Err(error),
        };
        proof {
            assert(seq![relay] + Seq::<SocketAddr>::empty() =~= seq![relay]);
        }
        let send = sends(gateway.discovery());
        Ok((gateway, send))
    }

    /// Takes note of a probe that was sent.
    pub fn probe_started(
        &mut self,
        now: Instant,
        candidate: DriadCandidate,
        gateway: Gateway,
        counters: &mut AmtMetricsCounters,
    )
        requires
            old(self).wf(),
            old(self).settings.fits_clock(now),
            gateway.wf(),
            consistent(gateway@),
        ensures
            final(self).wf(),
            final(self)@ == (TunnelModel {
                probes: old(self)@.probes.push(
                    ProbeModel {
                        candidate: candidate@,
                        gateway: gateway@,
                        deadline: now.after_spec(query_timeout()),
                    },
                ),
                ..probe_attempted(old(self)@, now)
            }),
            *final(counters) == (AmtMetricsCounters {
                gateway_discoveries_sent_total: counted(
                    old(counters).gateway_discoveries_sent_total,
                    1,
                ),
                driad_probes_started_total: counted(old(counters).driad_probes_started_total, 1),
                ..*old(counters)
            }),
    {
        counters.gateway_discoveries_sent_total = count(
            counters.gateway_discoveries_sent_total,
            1,
        );
        counters.driad_probes_started_total = count(counters.driad_probes_started_total, 1);
        let ghost before = self.probes@;
        self.probes.push(
            DriadProbe {
                candidate,
                gateway,
                deadline: now.after(Duration::from_secs(GATEWAY_QUERY_TIMEOUT_SECS)),
            },
        );
        self.next_probe_at = now.after(self.settings.happy_eyeballs_delay);
        proof {
            assert(probe_models(self.probes@) =~= probe_models(before).push(
                self.probes@.last()@,
            ));
            assert forall|i: int| 0 <= i < self.probes@.len() implies (
            #[trigger] self.probes@[i]).gateway.wf() && consistent(self.probes@[i].gateway@) by {
                if i < before.len() {
                    assert(self.probes@[i] == before[i]);
                }
            }
        }
    }

    fn remove_probe(&mut self, index: usize) -> (probe: DriadProbe)
        requires
            old(self).wf(),
            index < old(self).probes@.len(),
        ensures
            final(self).wf(),
            probe == old(self).probes@[index as int],
            probe@ == old(self)@.probes[index as int],
            probe.wf(),
            final(self)@ == (TunnelModel {
                probes: probe_removed(old(self)@.probes, index as int),
                ..old(self)@
            }),
    {
        let ghost before = self.probes@;
        proof {
            assert(probe_models(before)[index as int] == before[index as int]@);
            assert(before[index as int].gateway.wf());
        }
        let probe = self.probes.swap_remove(index);
        proof {
            assert(probe_models(self.probes@) =~= probe_removed(
                probe_models(before),
                index as int,
            ));
            assert forall|i: int| 0 <= i < self.probes@.len() implies (
            #[trigger] self.probes@[i]).gateway.wf() && consistent(self.probes@[i].gateway@) by {
                if i == index {
                    assert(self.probes@[i] == before[before.len() - 1]);
                } else {
                    assert(self.probes@[i] == before[i]);
                }
            }
        }
        probe
    }

    /// Gives a probe up whose time is over; tells whether it was.
    pub fn probe_drained(&mut self, now: Instant, index: usize, counters: &mut AmtMetricsCounters) -> (
        expired: bool)
        requires
            old(self).wf(),
            index < old(self).probes@.len(),
        ensures
            final(self).wf(),
            expired == (old(self)@.probes[index as int].deadline.nanos <= now.nanos),
            if expired {
                &&& final(self)@ == (TunnelModel {
                    probes: probe_removed(old(self)@.probes, index as int),
                    ..old(self)@
                })
                &&& *final(counters) == (AmtMetricsCounters {
                    driad_probe_timeouts_total: counted(
                        old(counters).driad_probe_timeouts_total,
                        1,
                    ),
                    ..*old(counters)
                })
            } else {
                *final(self) == *old(self) && *final(counters) == *old(counters)
            },
    {
        proof {
            assert(self@.probes[index as int] == self.probes@[index as int]@);
        }
        if self.probes[index].deadline.nanos > now.nanos {
            return false;
        }
        let _ = self.remove_probe(index);
        counters.driad_probe_timeouts_total = count(counters.driad_probe_timeouts_total, 1);
        true
    }

    /// Gives a probe up that went wrong.
    pub fn probe_failed(
        &mut self,
        index: usize,
        send_failed: bool,
        counters: &mut AmtMetricsCounters,
    )
        requires
            old(self).wf(),
            index < old(self).probes@.len(),
        ensures
            final(self).wf(),
            final(self)@ == (TunnelModel {
                probes: probe_removed(old(self)@.probes, index as int),
                ..old(self)@
            }),
            *final(counters) == probe_error_counted(*old(counters), send_failed),
    {
        let _ = self.remove_probe(index);
        count_probe_error(counters, send_failed);
    }

    /// Gives a probe up whose relay takes no new gateways, and holds the relay
    /// down.
    pub fn probe_loaded(
        &mut self,
        now: Instant,
        index: usize,
        relay: SocketAddr,
        counters: &mut AmtMetricsCounters,
    )
        requires
            old(self).wf(),
            old(self).settings.fits_clock(now),
            index < old(self).probes@.len(),
        ensures
            final(self).wf(),
            final(self)@ == (TunnelModel {
                probes: probe_removed(old(self)@.probes, index as int),
                hold_downs: held_down(
                    old(self)@.hold_downs,
                    old(self)@.probes[index as int].candidate,
                    relay,
                    now.after_spec(old(self)@.settings.relay_hold_down),
                ),
                ..old(self)@
            }),
            *final(counters) == (AmtMetricsCounters {
                driad_loaded_hold_downs_total: counted(
                    old(counters).driad_loaded_hold_downs_total,
                    1,
                ),
                ..*old(counters)
            }),
    {
        let probe = self.remove_probe(index);
        let expires = now.after(self.settings.relay_hold_down);
        self.hold_candidate(&probe.candidate, relay, expires);
        counters.driad_loaded_hold_downs_total = count(counters.driad_loaded_hold_downs_total, 1);
    }

    fn hold_candidate(&mut self, candidate: &DriadCandidate, actual: SocketAddr, expires: Instant)
        requires
            old(self).wf(),
        ensures
            final(self).wf(),
            final(self)@ == (TunnelModel {
                hold_downs: held_down(old(self)@.hold_downs, candidate@, actual, expires),
                ..old(self)@
            }),
    {
        self.hold_downs.insert(candidate.selection.relay, expires);
        self.hold_downs.insert(actual, expires);
    }

    /// The relay of a probe that can serve the source, and the memberships to
    /// send to it, if there are any.
    pub fn take_winner(&mut self, now: Instant, index: usize, query_interval: Duration) -> (result: (
        ActiveDriadTunnel,
        Result<Option<GatewaySend>, GatewayError>,
    ))
        requires
            old(self).wf(),
            index < old(self).probes@.len(),
        ensures
            final(self).wf(),
            result.0.wf(),
            final(self)@ == (TunnelModel {
                probes: probe_removed(old(self)@.probes, index as int),
                ..old(self)@
            }),
            ({
                let probe = old(self)@.probes[index as int];
                let (gateway, said) = desired_built(probe.gateway, old(self)@.desired);
                &&& result.0@ == (ActiveModel {
                    candidate: probe.candidate,
                    gateway,
                    effective_refresh_interval: query_interval,
                    query_cycle_started: None,
                    last_membership_refresh: now,
                    traffic_deadline: None,
                })
                &&& crate::static_gateway::sent_result(result.1) == said
            }),
    {
        let probe = self.remove_probe(index);
        let mut active = ActiveDriadTunnel {
            candidate: probe.candidate,
            gateway: probe.gateway,
            effective_refresh_interval: query_interval,
            query_cycle_started: None,
            last_membership_refresh: now,
            traffic_deadline: None,
        };
        let update = active.build_desired(&self.desired);
        (active, update)
    }

    /// Has a relay serve the source; the other probes are given up.
    pub fn activate(&mut self, active: ActiveDriadTunnel, counters: &mut AmtMetricsCounters)
        requires
            old(self).wf(),
            active.wf(),
        ensures
            final(self).wf(),
            final(self)@ == (TunnelModel {
                active: Some(active@),
                probes: Seq::empty(),
                pending: Seq::empty(),
                retry_attempt: 0,
                ..old(self)@
            }),
            *final(counters) == (AmtMetricsCounters {
                driad_connections_established_total: counted(
                    old(counters).driad_connections_established_total,
                    1,
                ),
                ..*old(counters)
            }),
    {
        self.active = Some(active);
        counters.driad_connections_established_total = count(
            counters.driad_connections_established_total,
            1,
        );
        self.probes = Vec::new();
        self.pending = Vec::new();
        self.retry_attempt = 0;
        proof {
            assert(self@.probes =~= Seq::empty());
            assert(self@.pending =~= Seq::empty());
        }
    }

    /// A time for which a relay may deliver nothing.
    pub fn next_traffic_timeout(&self) -> (timeout: Duration)
        ensures
            exists|random: u64| timeout == #[trigger] traffic_timeout(
                self.settings,
                self.traffic_retry_attempt,
                random,
            ),
            timeout.nanos <= crate::time::MAX_SPAN_NANOS,
    {
        proof {
            vstd::arithmetic::power2::lemma2_to64();
        }
        let factor: u32 = match self.traffic_retry_attempt {
            0 => 1,
            1 => 2,
            2 => 4,
            3 => 8,
            4 => 16,
            _ => 32,
        };
        let upper = self.settings.initial_traffic_timeout.saturating_mul(factor).min(
            self.settings.maximum_traffic_timeout,
        );
        let timeout = randomized_duration_between(self.settings.initial_traffic_timeout, upper);
        proof {
            assert(upper == traffic_upper(self.settings, self.traffic_retry_attempt));
            let random = choose|random: u64|
                timeout == #[trigger] span_between(
                    self.settings.initial_traffic_timeout,
                    upper,
                    random,
                );
            assert(timeout == traffic_timeout(
                self.settings,
                self.traffic_retry_attempt,
                random,
            ));
        }
        timeout
    }

    /// Plans another round of probes, once all of this one came to nothing.
    pub fn schedule_next_round_if_exhausted(&mut self, now: Instant)
        requires
            old(self).wf(),
            old(self).settings.fits_clock(now),
        ensures
            final(self).wf(),
            if old(self)@.no_relay_present || old(self)@.active is Some || old(self)@.probes.len()
                > 0 || old(self)@.pending.len() > 0 || old(self)@.retry_round_at is Some {
                final(self)@ == old(self)@
            } else {
                exists|random: u64|
                    final(self)@ == (TunnelModel {
                        retry_round_at: Some(
                            now.after_spec(
                                #[trigger] retry_delay(
                                    upper_delay_of(old(self)@.retry_attempt),
                                    random,
                                ),
                            ),
                        ),
                        retry_attempt: if old(self)@.retry_attempt < u32::MAX {
                            (old(self)@.retry_attempt + 1) as u32
                        } else {
                            old(self)@.retry_attempt
                        },
                        ..old(self)@
                    })
            },
    {
        proof {
            assert(self@.probes.len() == self.probes@.len());
            assert(self@.pending.len() == self.pending@.len());
        }
        if self.no_relay_present || self.active.is_some() || self.probes.len() > 0
            || self.pending.len() > 0 || self.retry_round_at.is_some() {
            return;
        }
        let first = GatewayRetry { attempt: self.retry_attempt, next_attempt: now };
        let mut retry = first;
        retry.after_send(now);
        self.retry_attempt = retry.attempt;
        self.retry_round_at = Some(retry.next_attempt);
        proof {
            let random = choose|random: u64|
                retry == #[trigger] crate::retry::retried(first, now, random);
            let delay = retry_delay(upper_delay_of(old(self)@.retry_attempt), random);
            assert(self@.retry_round_at == Some(now.after_spec(delay)));
        }
    }
}

/// What the caller is to do about the relay that serves a source.
#[derive(Debug, PartialEq, Eq)]
#[allow(inconsistent_fields)]
pub enum ActiveStep {
    /// Send this.
    Send(GatewaySend),
    /// Send the teardown of an endpoint that is no longer used, if there is
    /// one, then the memberships, if there are any.
    Refresh { teardown: Option<GatewaySend>, update: Option<GatewaySend> },
    /// Send the teardown of an endpoint that is no longer used, if there is
    /// one, then give the relay up.
    Fail { teardown: Option<GatewaySend>, failure: DriadActiveFailure },
    /// Forward this.
    Forward(Vec<u8>),
    /// Nothing.
    Nothing,
}

/// An [`ActiveStep`] with its parts as mathematical values.
#[allow(inconsistent_fields)]
pub enum ActiveStepModel {
    Send(SendModel),
    Refresh { teardown: Option<SendModel>, update: Option<SendModel> },
    Fail { teardown: Option<SendModel>, failure: DriadActiveFailure },
    Forward(Seq<u8>),
    Nothing,
}

impl View for ActiveStep {
    type V = ActiveStepModel;

    open spec fn view(&self) -> ActiveStepModel {
        match *self {
            ActiveStep::Send(send) => ActiveStepModel::Send(send@),
            ActiveStep::Refresh { teardown, update } => ActiveStepModel::Refresh {
                teardown: optional_send(teardown),
                update: optional_send(update),
            },
            ActiveStep::Fail { teardown, failure } => ActiveStepModel::Fail {
                teardown: optional_send(teardown),
                failure,
            },
            ActiveStep::Forward(packet) => ActiveStepModel::Forward(packet@),
            ActiveStep::Nothing => ActiveStepModel::Nothing,
        }
    }
}

/// Whether the relay that serves a source is to be asked for a new query.
pub open spec fn active_refresh_due(active: ActiveModel, configured: Duration, now: Instant) -> bool {
    active.query_cycle_started is None && now.since_spec(active.last_membership_refresh).nanos
        >= active.effective_refresh_interval.min_spec(configured).nanos
}

/// The nonce that a draw gave, if it gave one.
pub open spec fn optional_nonce(nonce: Result<u32, RandomnessError>) -> Option<u32> {
    match nonce {
        Ok(nonce) => Some(nonce),
        Err(_) => None,
    }
}

/// What asking for a new query under a nonce comes to, if that is due: the relay
/// is given up where it is not known yet or there is no nonce.
pub open spec fn active_refreshed(
    active: ActiveModel,
    configured: Duration,
    now: Instant,
    nonce: Option<u32>,
) -> (ActiveModel, ActiveStepModel) {
    if !active_refresh_due(active, configured, now) {
        (active, ActiveStepModel::Nothing)
    } else {
        match (active.gateway.relay_endpoint, nonce) {
            (Some(relay), Some(request_nonce)) => {
                let after = ActiveModel {
                    gateway: GatewayModel {
                        config: ConfigModel { request_nonce, ..active.gateway.config },
                        phase: GatewayPhase::AwaitingMembershipQuery,
                        ..active.gateway
                    },
                    query_cycle_started: Some(now),
                    ..active
                };
                (after, ActiveStepModel::Send(send_of(request_send(after.gateway, relay))))
            },
            _ => (
                active,
                ActiveStepModel::Fail { teardown: None, failure: DriadActiveFailure::QueryTimeout },
            ),
        }
    }
}

/// Why the relay that serves a source is to be given up now, if it is: no query
/// has come in time, or no packet.
pub open spec fn active_overdue(active: ActiveModel, now: Instant) -> Option<DriadActiveFailure> {
    if lapsed(active.query_cycle_started, query_timeout(), now) {
        Some(DriadActiveFailure::QueryTimeout)
    } else if active.traffic_deadline is Some && now.nanos
        >= active.traffic_deadline->Some_0.nanos {
        Some(DriadActiveFailure::NoTraffic)
    } else {
        None
    }
}

/// What the caller and the log get to see of a datagram.
#[verifier::ext_equal]
pub struct ActiveOutcome {
    pub active: ActiveModel,
    /// Whether a packet has come.
    pub traffic: bool,
    pub counters: AmtMetricsCounters,
    pub data_log: GatewayDataLog,
    pub step: ActiveStepModel,
}

/// What a datagram from the relay that serves a source leads to.
pub open spec fn active_followed(
    active: ActiveModel,
    desired: ReportModel,
    counters: AmtMetricsCounters,
    data_log: GatewayDataLog,
    peer: SocketAddr,
    datagram: Seq<u8>,
    outer: EcnCodepoint,
) -> ActiveOutcome {
    let (gateway, result) = reaction(active.gateway, peer, datagram, outer);
    let base = ActiveOutcome {
        active: ActiveModel { gateway, ..active },
        traffic: false,
        counters: AmtMetricsCounters {
            control_datagrams_received_total: counted(
                counters.control_datagrams_received_total,
                1,
            ),
            ..counters
        },
        data_log,
        step: ActiveStepModel::Nothing,
    };
    match result {
        Ok(ActionModel::Send { destination, datagram }) => ActiveOutcome {
            step: ActiveStepModel::Send(SendModel { destination, datagram }),
            ..base
        },
        Ok(ActionModel::MembershipQuery { limit, query_interval, previous_teardown, .. }) => {
            let heard = AmtMetricsCounters {
                gateway_membership_queries_received_total: counted(
                    base.counters.gateway_membership_queries_received_total,
                    1,
                ),
                ..base.counters
            };
            if limit {
                ActiveOutcome {
                    counters: heard,
                    step: ActiveStepModel::Fail {
                        teardown: previous_teardown,
                        failure: DriadActiveFailure::Loaded,
                    },
                    ..base
                }
            } else {
                let (after, said) = desired_built(gateway, desired);
                ActiveOutcome {
                    active: ActiveModel {
                        gateway: after,
                        effective_refresh_interval: query_interval,
                        query_cycle_started: None,
                        ..active
                    },
                    counters: if said is Ok {
                        heard
                    } else {
                        AmtMetricsCounters {
                            send_errors_total: counted(heard.send_errors_total, 1),
                            ..heard
                        }
                    },
                    step: match said {
                        Ok(update) => ActiveStepModel::Refresh {
                            teardown: previous_teardown,
                            update,
                        },
                        Err(_) => ActiveStepModel::Fail {
                            teardown: previous_teardown,
                            failure: DriadActiveFailure::QueryTimeout,
                        },
                    },
                    ..base
                }
            }
        },
        Ok(ActionModel::MulticastData { packet, ecn }) => ActiveOutcome {
            active: ActiveModel { traffic_deadline: None, ..base.active },
            traffic: true,
            counters: multicast_counted(base.counters, packet.len() as int, ecn),
            data_log: GatewayDataLog {
                amt_packets: counted(data_log.amt_packets, 1),
                amt_bytes: counted(data_log.amt_bytes, packet.len() as int),
                ..data_log
            },
            step: ActiveStepModel::Forward(packet),
        },
        Ok(ActionModel::DroppedEcn { ecn, packet_len }) => ActiveOutcome {
            counters: ecn_drop_counted(base.counters, packet_len, ecn),
            ..base
        },
        Ok(ActionModel::Ignored) => ActiveOutcome {
            counters: AmtMetricsCounters {
                control_datagrams_ignored_total: counted(
                    base.counters.control_datagrams_ignored_total,
                    1,
                ),
                ..base.counters
            },
            ..base
        },
        Err(_) => ActiveOutcome {
            counters: AmtMetricsCounters {
                control_datagrams_invalid_total: counted(
                    base.counters.control_datagrams_invalid_total,
                    1,
                ),
                ..base.counters
            },
            ..base
        },
    }
}

impl ActiveDriadTunnel {
    fn is_refresh_due(&self, configured: Duration, now: Instant) -> (due: bool)
        ensures
            due == active_refresh_due(self@, configured, now),
    {
        self.query_cycle_started.is_none() && now.duration_since(
            self.last_membership_refresh,
        ).nanos >= self.effective_refresh_interval.min(configured).nanos
    }

    /// The request for a new query to send, if one is due.
    pub fn refresh_step(&mut self, configured: Duration, now: Instant) -> (step: ActiveStep)
        requires
            old(self).wf(),
        ensures
            final(self).wf(),
            exists|nonce: Option<u32>|
                nonce != Some(0u32) && (final(self)@, step@) == #[trigger] active_refreshed(
                    old(self)@,
                    configured,
                    now,
                    nonce,
                ),
    {
        let due: bool = self.is_refresh_due(configured, now);
        self.refresh_step_with(configured, now, nonce_if(due))
    }

    /// The request for a new query to send, if one is due, under the nonce that a
    /// draw gave.
    pub fn refresh_step_with(
        &mut self,
        configured: Duration,
        now: Instant,
        nonce: Result<u32, RandomnessError>,
    ) -> (step: ActiveStep)
        requires
            old(self).wf(),
        ensures
            final(self).wf(),
            (final(self)@, step@) == active_refreshed(
                old(self)@,
                configured,
                now,
                optional_nonce(nonce),
            ),
            step is Fail <==> active_refresh_due(old(self)@, configured, now) && (old(
                self,
            )@.gateway.relay_endpoint is None || nonce is Err),
    {
        if !self.is_refresh_due(configured, now) {
            return ActiveStep::Nothing;
        }
        if let Ok(nonce) = nonce {
            if let Ok(action) = self.gateway.begin_query_cycle_with(nonce) {
                self.query_cycle_started = Some(now);
                return ActiveStep::Send(sends(action));
            }
        }
        ActiveStep::Fail { teardown: None, failure: DriadActiveFailure::QueryTimeout }
    }

    /// Takes in a datagram from the relay; tells whether it brought a packet.
    pub fn handle_datagram(
        &mut self,
        desired: &MembershipReport,
        counters: &mut AmtMetricsCounters,
        data_log: &mut GatewayDataLog,
        peer: SocketAddr,
        datagram: &[u8],
        outer: EcnCodepoint,
    ) -> (result: (ActiveStep, bool))
        requires
            old(self).wf(),
        ensures
            final(self).wf(),
            (ActiveOutcome {
                active: final(self)@,
                traffic: result.1,
                counters: *final(counters),
                data_log: *final(data_log),
                step: result.0@,
            }) == active_followed(
                old(self)@,
                desired@,
                *old(counters),
                *old(data_log),
                peer,
                datagram@,
                outer,
            ),
    {
        counters.control_datagrams_received_total = count(
            counters.control_datagrams_received_total,
            1,
        );
        proof {
            crate::gateway::law_datagrams_keep_gateways_consistent(
                self.gateway@,
                peer,
                datagram@,
                outer,
            );
        }
        match self.gateway.handle_datagram_with_ecn(peer, datagram, outer) {
            Ok(GatewayAction::Send { destination, datagram }) => (
                ActiveStep::Send(GatewaySend { destination, datagram }),
                false,
            ),
            Ok(
                GatewayAction::MembershipQuery { limit, query_interval, previous_teardown, .. },
            ) => {
                counters.gateway_membership_queries_received_total = count(
                    counters.gateway_membership_queries_received_total,
                    1,
                );
                if limit {
                    return (
                        ActiveStep::Fail {
                            teardown: previous_teardown,
                            failure: DriadActiveFailure::Loaded,
                        },
                        false,
                    );
                }
                self.effective_refresh_interval = query_interval;
                self.query_cycle_started = None;
                match self.build_desired(desired) {
                    Ok(update) => (
                        ActiveStep::Refresh { teardown: previous_teardown, update },
                        false,
                    ),
                    Err(_) => {
                        counters.send_errors_total = count(counters.send_errors_total, 1);
                        (
                            ActiveStep::Fail {
                                teardown: previous_teardown,
                                failure: DriadActiveFailure::QueryTimeout,
                            },
                            false,
                        )
                    },
                }
            },
            Ok(GatewayAction::MulticastData { packet, ecn }) => {
                record_gateway_multicast(counters, data_log, packet.len(), ecn);
                self.traffic_deadline = None;
                (ActiveStep::Forward(packet), true)
            },
            Ok(GatewayAction::DroppedEcn { ecn, packet_len }) => {
                record_gateway_ecn_drop(counters, packet_len, ecn);
                (ActiveStep::Nothing, false)
            },
            Ok(GatewayAction::Ignored) => {
                counters.control_datagrams_ignored_total = count(
                    counters.control_datagrams_ignored_total,
                    1,
                );
                (ActiveStep::Nothing, false)
            },
            Err(_) => {
                counters.control_datagrams_invalid_total = count(
                    counters.control_datagrams_invalid_total,
                    1,
                );
                (ActiveStep::Nothing, false)
            },
        }
    }

    /// Why the relay is to be given up now, if it is.
    pub fn overdue(&self, now: Instant) -> (failure: Option<DriadActiveFailure>)
        ensures
            failure == active_overdue(self@, now),
    {
        if has_lapsed(
            self.query_cycle_started,
            Duration::from_secs(GATEWAY_QUERY_TIMEOUT_SECS),
            now,
        ) {
            return Some(DriadActiveFailure::QueryTimeout);
        }
        match self.traffic_deadline {
            Some(deadline) => if now.nanos >= deadline.nanos {
                Some(DriadActiveFailure::NoTraffic)
            } else {
                None
            },
            None => None,
        }
    }

    /// The teardown to send to the relay, if it knows the gateway.
    fn teardown(&self) -> (send: Option<GatewaySend>)
        ensures
            optional_send(send) == teardown_of(self@.gateway),
    {
        match self.gateway.teardown() {
            Ok(action) => Some(sends(action)),
            Err(_) => None,
        }
    }
}

/// The teardown that a gateway sends, if its relay knows it.
pub open spec fn teardown_of(gateway: GatewayModel) -> Option<SendModel> {
    match ended(gateway) {
        Ok(action) => Some(send_of(action)),
        Err(_) => None,
    }
}

/// Counters after a relay that was given up.
pub open spec fn failure_counted(
    counters: AmtMetricsCounters,
    failure: DriadActiveFailure,
) -> AmtMetricsCounters {
    match failure {
        DriadActiveFailure::Loaded => AmtMetricsCounters {
            driad_loaded_hold_downs_total: counted(counters.driad_loaded_hold_downs_total, 1),
            ..counters
        },
        DriadActiveFailure::NoTraffic => AmtMetricsCounters {
            driad_no_traffic_hold_downs_total: counted(
                counters.driad_no_traffic_hold_downs_total,
                1,
            ),
            ..counters
        },
        DriadActiveFailure::QueryTimeout => AmtMetricsCounters {
            driad_query_timeouts_total: counted(counters.driad_query_timeouts_total, 1),
            ..counters
        },
    }
}

/// A tunnel that gives its relay up: a relay that is loaded, or delivers
/// nothing, is held down, and others are probed.
pub open spec fn given_up(
    m: TunnelModel,
    active: ActiveModel,
    failure: DriadActiveFailure,
    now: Instant,
) -> TunnelModel {
    let actual = actual_relay(active.gateway, active.candidate);
    let without = TunnelModel { active: None, ..m };
    let held = match failure {
        DriadActiveFailure::Loaded => TunnelModel {
            hold_downs: held_down(
                m.hold_downs,
                active.candidate,
                actual,
                now.after_spec(m.settings.relay_hold_down),
            ),
            ..without
        },
        DriadActiveFailure::NoTraffic => TunnelModel {
            hold_downs: held_down(
                m.hold_downs,
                active.candidate,
                actual,
                now.after_spec(m.settings.traffic_hold_down),
            ),
            traffic_retry_attempt: if m.traffic_retry_attempt < u32::MAX {
                (m.traffic_retry_attempt + 1) as u32
            } else {
                m.traffic_retry_attempt
            },
            ..without
        },
        DriadActiveFailure::QueryTimeout => without,
    };
    rebuilt(held, now)
}

/// The shortest time for which selections may be kept, a second where there are
/// none.
pub open spec fn shortest_ttl(selections: Seq<SelectionModel>) -> Duration
    decreases selections.len(),
{
    if selections.len() == 0 {
        Duration::secs_spec(1)
    } else if selections.len() == 1 {
        selections[0].ttl
    } else {
        shortest_ttl(selections.drop_last()).min_spec(selections.last().ttl)
    }
}

/// A tunnel after a lookup that found relays.
pub open spec fn relays_found(m: TunnelModel, selections: Seq<SelectionModel>, now: Instant) -> TunnelModel {
    let changed = m.dns_candidates != selections;
    let known = TunnelModel { dns_candidates: selections, no_relay_present: false, ..m };
    let ready = if m.active is None && (changed || m.no_relay_present) {
        rebuilt(known, now)
    } else {
        known
    };
    TunnelModel {
        refresh: m.refresh.after_success(now, shortest_ttl(selections)),
        ..ready
    }
}

/// A tunnel after a lookup that found that there is no relay: the relay in use
/// is given up, and no other is looked for.
pub open spec fn relays_withdrawn(m: TunnelModel, now: Instant, random: u64) -> TunnelModel {
    TunnelModel {
        no_relay_present: true,
        dns_candidates: Seq::empty(),
        pending: Seq::empty(),
        probes: Seq::empty(),
        current_rank: None,
        retry_round_at: None,
        active: None,
        refresh: m.refresh.after_failure(now, random),
        ..m
    }
}

/// Whether a lookup that found no relay changes anything.
pub open spec fn is_withdrawal(m: TunnelModel) -> bool {
    !m.no_relay_present || m.dns_candidates.len() > 0 || m.probes.len() > 0 || m.active is Some
}

/// Counters after a lookup that found relays.
pub open spec fn found_counted(counters: AmtMetricsCounters, changed: bool) -> AmtMetricsCounters {
    AmtMetricsCounters {
        driad_candidate_changes_total: if changed {
            counted(counters.driad_candidate_changes_total, 1)
        } else {
            counters.driad_candidate_changes_total
        },
        driad_refreshes_succeeded_total: counted(counters.driad_refreshes_succeeded_total, 1),
        ..counters
    }
}

/// What a lookup came to.
pub open spec fn lookup_model(result: Result<Vec<DriadRelaySelection>, DriadError>) -> Result<
    Seq<SelectionModel>,
    DriadErrorModel,
> {
    match result {
        Ok(selections) => Ok(selection_models(selections@)),
        Err(error) => Err(error@),
    }
}

fn find_shortest_ttl(selections: &Vec<DriadRelaySelection>) -> (ttl: Duration)
    ensures
        ttl == shortest_ttl(selection_models(selections@)),
{
    let ghost models = selection_models(selections@);
    proof {
        assert(models.len() == selections@.len());
    }
    if selections.len() == 0 {
        return Duration::from_secs(DRIAD_MIN_REFRESH_SECS);
    }
    let mut ttl: Duration = selections[0].ttl;
    let mut i: usize = 1;
    proof {
        assert(models[0] == selections@[0]@);
        assert(models.take(1)[0] == models[0]);
    }
    while i < selections.len()
        invariant
            1 <= i <= selections@.len(),
            models == selection_models(selections@),
            ttl == shortest_ttl(models.take(i as int)),
        decreases selections@.len() - i,
    {
        proof {
            assert(models[i as int] == selections@[i as int]@);
            assert(models.take(i + 1).drop_last() =~= models.take(i as int));
            assert(models.take(i + 1).last() == models[i as int]);
        }
        ttl = ttl.min(selections[i].ttl);
        i += 1;
    }
    proof {
        assert(models.take(i as int) =~= models);
    }
    ttl
}

impl DriadSourceTunnel {
    /// Takes note that a lookup was started.
    pub fn lookup_started(&mut self, counters: &mut AmtMetricsCounters)
        requires
            old(self).wf(),
        ensures
            final(self).wf(),
            final(self)@ == (TunnelModel {
                refresh: RefreshSchedule { pending: true, ..old(self)@.refresh },
                ..old(self)@
            }),
            *final(counters) == (AmtMetricsCounters {
                driad_refreshes_started_total: counted(
                    old(counters).driad_refreshes_started_total,
                    1,
                ),
                ..*old(counters)
            }),
    {
        self.refresh.pending = true;
        counters.driad_refreshes_started_total = count(
            counters.driad_refreshes_started_total,
            1,
        );
    }

    /// Takes in what a lookup came to; gives the teardown to send, where the
    /// relay in use is withdrawn, and tells whether one was.
    pub fn resolved(
        &mut self,
        now: Instant,
        result: Result<Vec<DriadRelaySelection>, DriadError>,
        counters: &mut AmtMetricsCounters,
    ) -> (outcome: (Option<GatewaySend>, bool))
        requires
            old(self).wf(),
            old(self).settings.fits_clock(now),
        ensures
            final(self).wf(),
            match lookup_model(result) {
                Ok(selections) => {
                    &&& final(self)@ == relays_found(old(self)@, selections, now)
                    &&& *final(counters) == found_counted(
                        *old(counters),
                        old(self)@.dns_candidates != selections,
                    )
                    &&& outcome == (None::<GatewaySend>, false)
                },
                Err(DriadErrorModel::NoRelayPresent) => {
                    &&& exists|random: u64|
                        final(self)@ == #[trigger] relays_withdrawn(old(self)@, now, random)
                    &&& outcome.1 == is_withdrawal(old(self)@)
                    &&& optional_send(outcome.0) == match old(self)@.active {
                        Some(active) => teardown_of(active.gateway),
                        None => None,
                    }
                    &&& *final(counters) == (AmtMetricsCounters {
                        driad_no_relay_withdrawals_total: if outcome.1 {
                            counted(old(counters).driad_no_relay_withdrawals_total, 1)
                        } else {
                            old(counters).driad_no_relay_withdrawals_total
                        },
                        ..found_counted(*old(counters), outcome.1)
                    })
                },
                Err(_) => {
                    &&& exists|random: u64|
                        final(self)@ == (TunnelModel {
                            refresh: #[trigger] old(self)@.refresh.after_failure(now, random),
                            ..old(self)@
                        })
                    &&& *final(counters) == (AmtMetricsCounters {
                        driad_refreshes_failed_total: counted(
                            old(counters).driad_refreshes_failed_total,
                            1,
                        ),
                        ..*old(counters)
                    })
                    &&& outcome == (None::<GatewaySend>, false)
                },
            },
    {
        match result {
            Ok(selections) => {
                self.found(now, selections, counters);
                (None, false)
            },
            Err(DriadError::NoRelayPresent) => self.withdraw(now, counters),
            Err(_) => {
                self.refresh.schedule_failure(now);
                counters.driad_refreshes_failed_total = count(
                    counters.driad_refreshes_failed_total,
                    1,
                );
                proof {
                    let random = choose|random: u64|
                        self.refresh == #[trigger] old(self)@.refresh.after_failure(now, random);
                    assert(self@.refresh == old(self)@.refresh.after_failure(now, random));
                }
                (None, false)
            },
        }
    }

    fn found(
        &mut self,
        now: Instant,
        selections: Vec<DriadRelaySelection>,
        counters: &mut AmtMetricsCounters,
    )
        requires
            old(self).wf(),
            old(self).settings.fits_clock(now),
        ensures
            final(self).wf(),
            final(self)@ == relays_found(old(self)@, selection_models(selections@), now),
            *final(counters) == found_counted(
                *old(counters),
                old(self)@.dns_candidates != selection_models(selections@),
            ),
    {
        let ttl = find_shortest_ttl(&selections);
        let changed: bool = !same_selections(&self.dns_candidates, &selections);
        if changed {
            self.dns_candidates = selections;
            counters.driad_candidate_changes_total = count(
                counters.driad_candidate_changes_total,
                1,
            );
        }
        let was_withdrawn: bool = self.no_relay_present;
        self.no_relay_present = false;
        if self.active.is_none() && (changed || was_withdrawn) {
            self.rebuild_probe_queue(now);
        }
        self.refresh.schedule_success(now, ttl);
        counters.driad_refreshes_succeeded_total = count(
            counters.driad_refreshes_succeeded_total,
            1,
        );
    }

    fn withdraw(&mut self, now: Instant, counters: &mut AmtMetricsCounters) -> (outcome: (
        Option<GatewaySend>,
        bool,
    ))
        requires
            old(self).wf(),
            old(self).settings.fits_clock(now),
        ensures
            final(self).wf(),
            exists|random: u64|
                final(self)@ == #[trigger] relays_withdrawn(old(self)@, now, random),
            outcome.1 == is_withdrawal(old(self)@),
            optional_send(outcome.0) == match old(self)@.active {
                Some(active) => teardown_of(active.gateway),
                None => None,
            },
            *final(counters) == (AmtMetricsCounters {
                driad_no_relay_withdrawals_total: if outcome.1 {
                    counted(old(counters).driad_no_relay_withdrawals_total, 1)
                } else {
                    old(counters).driad_no_relay_withdrawals_total
                },
                ..found_counted(*old(counters), outcome.1)
            }),
    {
        proof {
            assert(self@.dns_candidates.len() == self.dns_candidates@.len());
            assert(self@.probes.len() == self.probes@.len());
        }
        let withdrawal: bool = !self.no_relay_present || self.dns_candidates.len() > 0
            || self.probes.len() > 0 || self.active.is_some();
        let teardown = match &self.active {
            Some(active) => active.teardown(),
            None => None,
        };
        self.no_relay_present = true;
        self.dns_candidates = Vec::new();
        self.pending = Vec::new();
        self.probes = Vec::new();
        self.current_rank = None;
        self.retry_round_at = None;
        self.active = None;
        self.refresh.schedule_failure(now);
        counters.driad_refreshes_succeeded_total = count(
            counters.driad_refreshes_succeeded_total,
            1,
        );
        if withdrawal {
            counters.driad_candidate_changes_total = count(
                counters.driad_candidate_changes_total,
                1,
            );
            counters.driad_no_relay_withdrawals_total = count(
                counters.driad_no_relay_withdrawals_total,
                1,
            );
        }
        proof {
            let random = choose|random: u64|
                self.refresh == #[trigger] old(self)@.refresh.after_failure(now, random);
            assert(self@.dns_candidates =~= Seq::empty());
            assert(self@.pending =~= Seq::empty());
            assert(self@.probes =~= Seq::empty());
            assert(self@ == relays_withdrawn(old(self)@, now, random));
        }
        (teardown, withdrawal)
    }

    /// Gives the relay up that serves the source; gives the teardown to send.
    pub fn fail_active(
        &mut self,
        failure: DriadActiveFailure,
        now: Instant,
        counters: &mut AmtMetricsCounters,
    ) -> (teardown: Option<GatewaySend>)
        requires
            old(self).wf(),
            old(self).settings.fits_clock(now),
        ensures
            final(self).wf(),
            match old(self)@.active {
                None => final(self)@ == old(self)@ && *final(counters) == *old(counters)
                    && teardown is None,
                Some(active) => {
                    &&& final(self)@ == given_up(old(self)@, active, failure, now)
                    &&& *final(counters) == failure_counted(*old(counters), failure)
                    &&& optional_send(teardown) == teardown_of(active.gateway)
                },
            },
    {
        let mut taken: Option<ActiveDriadTunnel> = None;
        std::mem::swap(&mut taken, &mut self.active);
        let active = match taken {
            Some(active) => active,
            None => return None,
        };
        let actual = match active.gateway.relay_endpoint() {
            Some(relay) => relay,
            None => active.candidate.selection.relay,
        };
        let teardown = active.teardown();
        match failure {
            DriadActiveFailure::Loaded => {
                counters.driad_loaded_hold_downs_total = count(
                    counters.driad_loaded_hold_downs_total,
                    1,
                );
                let expires = now.after(self.settings.relay_hold_down);
                self.hold_candidate(&active.candidate, actual, expires);
            },
            DriadActiveFailure::NoTraffic => {
                counters.driad_no_traffic_hold_downs_total = count(
                    counters.driad_no_traffic_hold_downs_total,
                    1,
                );
                let expires = now.after(self.settings.traffic_hold_down);
                self.hold_candidate(&active.candidate, actual, expires);
                self.traffic_retry_attempt = self.traffic_retry_attempt.saturating_add(1);
            },
            DriadActiveFailure::QueryTimeout => {
                counters.driad_query_timeouts_total = count(
                    counters.driad_query_timeouts_total,
                    1,
                );
            },
        }
        self.rebuild_probe_queue(now);
        teardown
    }

    /// Takes note of a packet for the source.
    pub fn traffic_arrived(&mut self)
        requires
            old(self).wf(),
        ensures
            final(self).wf(),
            final(self)@ == (TunnelModel { traffic_retry_attempt: 0, ..old(self)@ }),
    {
        self.traffic_retry_attempt = 0;
    }

    /// Changes what is wanted of the source; gives the memberships to send, if
    /// there is a relay to send them to and there is anything to say.
    pub fn set_desired(&mut self, desired: MembershipReport) -> (result: Result<
        Option<GatewaySend>,
        GatewayError,
    >)
        requires
            old(self).wf(),
        ensures
            final(self).wf(),
            if old(self)@.desired == desired@ {
                final(self)@ == old(self)@ && result == Ok::<Option<GatewaySend>, GatewayError>(
                    None,
                )
            } else {
                match old(self)@.active {
                    None => final(self)@ == (TunnelModel { desired: desired@, ..old(self)@ })
                        && result == Ok::<Option<GatewaySend>, GatewayError>(None),
                    Some(active) => {
                        let (gateway, said) = desired_built(active.gateway, desired@);
                        &&& final(self)@ == (TunnelModel {
                            desired: desired@,
                            active: Some(ActiveModel { gateway, ..active }),
                            ..old(self)@
                        })
                        &&& crate::static_gateway::sent_result(result) == said
                    },
                }
            },
    {
        if same_reports(&self.desired, &desired) {
            return Ok(None);
        }
        self.desired = desired;
        match &mut self.active {
            None => Ok(None),
            Some(active) => active.build_desired(&self.desired),
        }
    }

    /// The teardown to send before the tunnel is closed, if there is one.
    pub fn shutdown(&mut self) -> (teardown: Option<GatewaySend>)
        requires
            old(self).wf(),
        ensures
            final(self).wf(),
            final(self)@ == (TunnelModel {
                active: None,
                probes: Seq::empty(),
                ..old(self)@
            }),
            optional_send(teardown) == match old(self)@.active {
                Some(active) => teardown_of(active.gateway),
                None => None,
            },
    {
        let teardown = match &self.active {
            Some(active) => active.teardown(),
            None => None,
        };
        self.active = None;
        self.probes = Vec::new();
        proof {
            assert(self@.probes =~= Seq::empty());
        }
        teardown
    }
}

/// Counts a teardown that was sent, or could not be sent.
pub fn teardown_sent(counters: &mut AmtMetricsCounters, sent: bool)
    ensures
        *final(counters) == if sent {
            AmtMetricsCounters {
                gateway_teardowns_sent_total: counted(
                    old(counters).gateway_teardowns_sent_total,
                    1,
                ),
                ..*old(counters)
            }
        } else {
            AmtMetricsCounters {
                send_errors_total: counted(old(counters).send_errors_total, 1),
                ..*old(counters)
            }
        },
{
    if sent {
        counters.gateway_teardowns_sent_total = count(counters.gateway_teardowns_sent_total, 1);
    } else {
        counters.send_errors_total = count(counters.send_errors_total, 1);
    }
}

/// A relay that is given up because it is loaded or delivers nothing is not
/// probed again until its hold-down is over.
pub proof fn law_given_up_relays_are_not_queued(
    m: TunnelModel,
    active: ActiveModel,
    failure: DriadActiveFailure,
    now: Instant,
    i: int,
)
    requires
        m.settings.fits_clock(now),
        failure is Loaded ==> m.settings.relay_hold_down.nanos > 0,
        failure is NoTraffic ==> m.settings.traffic_hold_down.nanos > 0,
        !(failure is QueryTimeout),
        0 <= i < given_up(m, active, failure, now).pending.len(),
    ensures
        given_up(m, active, failure, now).pending[i].selection.relay
            != active.candidate.selection.relay,
        given_up(m, active, failure, now).pending[i].selection.relay != actual_relay(
            active.gateway,
            active.candidate,
        ),
{
    let after = given_up(m, active, failure, now);
    let actual = actual_relay(active.gateway, active.candidate);
    let held = after.hold_downs.dom();
    let span = if failure is Loaded {
        m.settings.relay_hold_down
    } else {
        m.settings.traffic_hold_down
    };
    let marked = held_down(m.hold_downs, active.candidate, actual, now.after_spec(span));
    assert(now.can_add(span));
    assert(after.hold_downs == still_held(marked, now));
    assert(held.contains(actual));
    assert(held.contains(active.candidate.selection.relay));
    lemma_queued_is_not_held(
        m.settings.source,
        m.settings.bind,
        m.settings.use_anycast,
        m.dns_candidates,
        held,
        probed(m.probes),
        i,
    );
}

proof fn lemma_queued_is_not_held(
    source: IpAddr,
    bind: Option<IpAddr>,
    use_anycast: bool,
    selections: Seq<SelectionModel>,
    held: Set<SocketAddr>,
    in_flight: Set<SocketAddr>,
    i: int,
)
    requires
        0 <= i < probe_queue(source, bind, use_anycast, selections, held, in_flight).len(),
    ensures
        !held.contains(
            probe_queue(source, bind, use_anycast, selections, held, in_flight)[i].selection.relay,
        ),
{
    let all = (if use_anycast {
        crate::probe_queue::anycast_of(source, bind)
    } else {
        Seq::empty()
    }) + crate::probe_queue::all_from_dns(selections);
    let rest = crate::probe_queue::kept(all, bind, held, in_flight);
    crate::probe_queue::law_queued_relays_may_be_probed(all, bind, held, in_flight);
    crate::probe_queue::lemma_ranked_is_kept(rest, crate::probe_queue::RANK_COUNT as nat, i);
}

/// Once DNS says that there is no relay for a source, none is probed for it
/// until DNS names one again.
pub proof fn law_withdrawn_sources_are_not_probed(
    m: TunnelModel,
    now: Instant,
    random: u64,
    later: Instant,
)
    ensures
        taken(relays_withdrawn(m, now, random), later).1 is None,
        taken(rebuilt(relays_withdrawn(m, now, random), later), later).1 is None,
{
}

/// No more relays are probed at once than allowed: where one is taken off the
/// queue there is room for its probe, and taking one starts none by itself.
pub proof fn law_probes_stay_within_the_limit(m: TunnelModel, now: Instant)
    requires
        m.probes.len() <= m.settings.max_concurrent_probes,
    ensures
        taken(m, now).0.probes == m.probes,
        taken(m, now).0.settings == m.settings,
        taken(m, now).1 is Some ==> m.probes.len() < m.settings.max_concurrent_probes,
{
}

/// A relay of a higher rank waits while one of a lower rank is being probed.
pub proof fn law_higher_ranks_wait(m: TunnelModel, now: Instant)
    requires
        m.probes.len() > 0,
        m.retry_round_at is None,
        taken(m, now).1 is Some,
    ensures
        m.current_rank == Some(rank_of(taken(m, now).1->Some_0) as u32),
{
}

/// DNS is asked again when its answers run out, but not before a second and not
/// after a day; after a failure it is asked again after a while that grows with
/// each failure in a row.
pub proof fn law_dns_is_asked_again_in_time(
    schedule: RefreshSchedule,
    now: Instant,
    ttl: Duration,
    random: u64,
)
    requires
        now.can_add(Duration::secs_spec(86_400)),
    ensures
        ({
            let found = schedule.after_success(now, ttl);
            let failed = schedule.after_failure(now, random);
            &&& found.retry_attempt == 0 && !found.pending && !failed.pending
            &&& ttl.nanos <= 1_000_000_000 ==> found.next_refresh.nanos == now.nanos
                + 1_000_000_000
            &&& 1_000_000_000 <= ttl.nanos <= 86_400_000_000_000 ==> found.next_refresh.nanos
                == now.nanos + ttl.nanos
            &&& ttl.nanos >= 86_400_000_000_000 ==> found.next_refresh.nanos == now.nanos
                + 86_400_000_000_000
            &&& schedule.retry_attempt < u32::MAX ==> failed.retry_attempt == schedule.retry_attempt
                + 1
            &&& now.nanos + 1_000_000_000 <= failed.next_refresh.nanos <= now.nanos
                + upper_delay_of(schedule.retry_attempt).nanos
        }),
{
    let retry = GatewayRetry { attempt: schedule.retry_attempt, next_attempt: now };
    crate::retry::lemma_delay_bounds(schedule.retry_attempt, random);
}

/// A relay is held down until its time comes, and no longer.
pub proof fn law_hold_downs_end_in_time(
    hold_downs: Map<SocketAddr, Instant>,
    now: Instant,
    relay: SocketAddr,
)
    ensures
        still_held(hold_downs, now).contains_key(relay) <==> hold_downs.contains_key(relay)
            && hold_downs[relay].nanos > now.nanos,
        still_held(hold_downs, now).contains_key(relay) ==> still_held(hold_downs, now)[relay]
            == hold_downs[relay],
{
}

/// A relay that is given up is held down under both addresses that it is known by
/// for the time that the reason calls for: one that is loaded for the relay's
/// hold-down, one that delivers nothing for the traffic's, after which the next
/// one is given more time, and one that does not answer not at all.  Other relays'
/// hold-downs stay, and the tunnel has no relay.
pub proof fn law_relays_are_held_down_for_a_reason(
    m: TunnelModel,
    active: ActiveModel,
    failure: DriadActiveFailure,
    now: Instant,
    other: SocketAddr,
)
    requires
        m.settings.fits_clock(now),
        m.settings.relay_hold_down.nanos > 0,
        m.settings.traffic_hold_down.nanos > 0,
    ensures
        ({
            let after = given_up(m, active, failure, now);
            let named = active.candidate.selection.relay;
            let actual = match active.gateway.relay_endpoint {
                Some(relay) => relay,
                None => named,
            };
            &&& after.active is None
            &&& failure is Loaded ==> after.hold_downs.contains_key(named)
                && after.hold_downs[named].nanos == now.nanos + m.settings.relay_hold_down.nanos
                && after.hold_downs.contains_key(actual) && after.hold_downs[actual].nanos
                == now.nanos + m.settings.relay_hold_down.nanos
            &&& failure is NoTraffic ==> after.hold_downs.contains_key(named)
                && after.hold_downs[named].nanos == now.nanos + m.settings.traffic_hold_down.nanos
                && after.hold_downs.contains_key(actual) && after.hold_downs[actual].nanos
                == now.nanos + m.settings.traffic_hold_down.nanos && (m.traffic_retry_attempt
                < u32::MAX ==> after.traffic_retry_attempt == m.traffic_retry_attempt + 1)
            &&& !(failure is NoTraffic) ==> after.traffic_retry_attempt == m.traffic_retry_attempt
            &&& failure is QueryTimeout || (other != named && other != actual) ==> (
            after.hold_downs.contains_key(other) <==> m.hold_downs.contains_key(other)
                && m.hold_downs[other].nanos > now.nanos)
        }),
{
}

/// The time for which a relay may deliver nothing doubles with each relay that
/// did so, five times at most, and never exceeds the configured maximum.
pub proof fn law_patience_doubles(settings: TunnelSettings, attempt: u32)
    requires
        settings.initial_traffic_timeout.nanos * 32 <= crate::time::MAX_SPAN_NANOS,
        settings.initial_traffic_timeout.nanos <= settings.maximum_traffic_timeout.nanos,
    ensures
        traffic_upper(settings, 0) == settings.initial_traffic_timeout,
        attempt < 5 ==> traffic_upper(settings, (attempt + 1) as u32).nanos == if 2
            * traffic_upper(settings, attempt).nanos <= settings.maximum_traffic_timeout.nanos {
            2 * traffic_upper(settings, attempt).nanos
        } else {
            settings.maximum_traffic_timeout.nanos as int
        },
        attempt >= 5 ==> traffic_upper(settings, attempt) == traffic_upper(settings, 5),
{
    vstd::arithmetic::power2::lemma2_to64();
    let span = settings.initial_traffic_timeout.nanos as int;
    let one = vstd::arithmetic::power2::pow2(0);
    assert(one == 1);
    assert(span * one == span) by (nonlinear_arith)
        requires
            one == 1,
    ;
    assert(traffic_upper(settings, 0).nanos == span);
    if attempt < 5 {
        let factor = vstd::arithmetic::power2::pow2(attempt as nat);
        vstd::arithmetic::power2::lemma_pow2_unfold((attempt + 1) as nat);
        assert(attempt == 0 || attempt == 1 || attempt == 2 || attempt == 3 || attempt == 4);
        assert(factor <= 16);
        assert(span * (2 * factor) == 2 * (span * factor)) by (nonlinear_arith);
        assert(span * (2 * factor) <= span * 32) by (nonlinear_arith)
            requires
                factor <= 16,
                span >= 0,
        ;
        assert(span * factor >= 0) by (nonlinear_arith)
            requires
                span >= 0,
                factor >= 0,
        ;
    }
}

/// The shortest time for which some relays may be kept is that of one of them, and
/// of none longer; without relays it is a second.
pub proof fn law_the_shortest_lifetime_counts(selections: Seq<SelectionModel>, i: int)
    ensures
        selections.len() == 0 ==> shortest_ttl(selections).nanos == 1_000_000_000,
        0 <= i < selections.len() ==> shortest_ttl(selections).nanos <= selections[i].ttl.nanos,
        selections.len() > 0 ==> exists|k: int|
            0 <= k < selections.len() && (#[trigger] selections[k]).ttl == shortest_ttl(selections),
    decreases selections.len(),
{
    if selections.len() == 1 {
        assert(selections[0].ttl == shortest_ttl(selections));
    } else if selections.len() > 1 {
        let front = selections.drop_last();
        law_the_shortest_lifetime_counts(front, i);
        let k = choose|k: int|
            0 <= k < front.len() && (#[trigger] front[k]).ttl == shortest_ttl(front);
        assert(selections[k] == front[k]);
        assert(selections[selections.len() - 1] == selections.last());
        if 0 <= i < front.len() {
            assert(front[i] == selections[i]);
        }
    }
}

/// What a datagram from a probed relay leads to: a query makes the relay the
/// winner, with the interval that it suggests, unless it says that it is loaded;
/// a step of the handshake is sent; anything else comes to nothing.
pub proof fn law_probes_end_with_a_query(
    probe: ProbeModel,
    counters: AmtMetricsCounters,
    peer: SocketAddr,
    datagram: Seq<u8>,
    outer: EcnCodepoint,
)
    ensures
        ({
            let (after, _, step) = probe_followed(probe, counters, peer, datagram, outer);
            let (gateway, result) = reaction(probe.gateway, peer, datagram, outer);
            &&& after.gateway == gateway && after.candidate == probe.candidate && after.deadline
                == probe.deadline
            &&& step is Loaded <==> (result matches Ok(ActionModel::MembershipQuery { limit, .. })
                && limit)
            &&& step is Winner <==> (result matches Ok(ActionModel::MembershipQuery { limit, .. })
                && !limit)
            &&& step matches ProbeStepModel::Loaded(relay) ==> relay == match gateway.relay_endpoint {
                Some(actual) => actual,
                None => probe.candidate.selection.relay,
            }
            &&& step matches ProbeStepModel::Winner { query_interval, .. } ==> query_interval
                == result->Ok_0->MembershipQuery_query_interval
            &&& step is Send <==> (result matches Ok(action) && action is Send)
            &&& step matches ProbeStepModel::Send(send) ==> send.destination
                == result->Ok_0->Send_destination && send.datagram == result->Ok_0->Send_datagram
        }),
{
}

/// When a relay in use is given up: ten seconds after a query was asked for that
/// has not come, or when no packet has come by the deadline; and when it is asked
/// for a new query: when the shorter of the two intervals has passed since the
/// last one, unless one is awaited.
pub proof fn law_relays_in_use_are_watched(
    active: ActiveModel,
    configured: Duration,
    now: Instant,
)
    requires
        active.query_cycle_started matches Some(started) ==> started.nanos <= now.nanos,
        active.last_membership_refresh.nanos <= now.nanos,
    ensures
        ({
            let silent = active.query_cycle_started matches Some(started) && started.nanos
                + 10_000_000_000 <= now.nanos;
            let dry = active.traffic_deadline matches Some(deadline) && deadline.nanos <= now.nanos;
            let since = now.nanos - active.last_membership_refresh.nanos;
            &&& active_overdue(active, now) == Some(DriadActiveFailure::QueryTimeout) <==> silent
            &&& active_overdue(active, now) == Some(DriadActiveFailure::NoTraffic) <==> !silent
                && dry
            &&& active_overdue(active, now) is None <==> !silent && !dry
            &&& active_refresh_due(active, configured, now) <==> active.query_cycle_started is None
                && (since >= active.effective_refresh_interval.nanos || since >= configured.nanos)
        }),
{
}

/// What a datagram from the relay in use leads to: a packet is forwarded and ends
/// the wait for traffic; a query that says that the relay is loaded ends its use;
/// any other query sets the interval, ends the wait for it and has the wanted
/// memberships sent; a step of the handshake is sent.
pub proof fn law_relays_in_use_are_followed(
    active: ActiveModel,
    desired: ReportModel,
    counters: AmtMetricsCounters,
    data_log: GatewayDataLog,
    peer: SocketAddr,
    datagram: Seq<u8>,
    outer: EcnCodepoint,
)
    ensures
        ({
            let after = active_followed(
                active,
                desired,
                counters,
                data_log,
                peer,
                datagram,
                outer,
            );
            let (gateway, result) = reaction(active.gateway, peer, datagram, outer);
            &&& result matches Ok(ActionModel::MulticastData { packet, .. }) ==> after.step
                == ActiveStepModel::Forward(packet) && after.traffic
                && after.active.traffic_deadline is None && after.active.gateway == gateway
            &&& !(result matches Ok(ActionModel::MulticastData { .. })) ==> !after.traffic
                && after.active.traffic_deadline == active.traffic_deadline && !(
            after.step is Forward)
            &&& result matches Ok(
                ActionModel::MembershipQuery { limit, query_interval, previous_teardown, .. },
            ) ==> {
                &&& limit ==> after.step == (ActiveStepModel::Fail {
                    teardown: previous_teardown,
                    failure: DriadActiveFailure::Loaded,
                })
                &&& !limit ==> after.active.effective_refresh_interval == query_interval
                    && after.active.query_cycle_started is None
                &&& !limit && (replacing(gateway, desired).records.len() == 0 || updated(
                    gateway,
                    replacing(gateway, desired),
                ).1 is Ok) ==> (after.step matches ActiveStepModel::Refresh { teardown, update }
                    && teardown == previous_teardown && (update is None <==> replacing(
                    gateway,
                    desired,
                ).records.len() == 0))
            }
            &&& result matches Ok(ActionModel::Send { destination, datagram }) ==> after.step
                == ActiveStepModel::Send(SendModel { destination, datagram })
            &&& result is Err ==> after.step is Nothing
        }),
{
}

/// What a lookup that found relays changes: the relays are known from then on, DNS
/// is asked again when the first of them runs out, and where no relay is in use
/// and they are new, the queue is made anew.  A lookup that found that there is no
/// relay ends the use of any.
pub proof fn law_lookups_decide_what_is_probed(
    m: TunnelModel,
    selections: Seq<SelectionModel>,
    now: Instant,
    random: u64,
)
    ensures
        ({
            let found = relays_found(m, selections, now);
            let gone = relays_withdrawn(m, now, random);
            &&& found.dns_candidates == selections && !found.no_relay_present && found.active
                == m.active && found.probes == m.probes
            &&& found.refresh == m.refresh.after_success(now, shortest_ttl(selections))
            &&& m.active is None && m.dns_candidates != selections ==> found.pending == probe_queue(
                m.settings.source,
                m.settings.bind,
                m.settings.use_anycast,
                selections,
                still_held(m.hold_downs, now).dom(),
                probed(m.probes),
            )
            &&& m.active is Some ==> found.pending == m.pending
            &&& gone.no_relay_present && gone.dns_candidates.len() == 0 && gone.pending.len() == 0
                && gone.probes.len() == 0 && gone.active is None
        }),
{
}

/// The next relay is taken off the queue when its time has come, there is room for
/// another probe, and none of a lower rank is being probed.
pub proof fn law_due_probes_are_taken(m: TunnelModel, now: Instant)
    requires
        m.retry_round_at is None,
        m.next_probe_at.nanos <= now.nanos,
        m.probes.len() < m.settings.max_concurrent_probes,
        m.pending.len() > 0,
        m.probes.len() == 0 || m.current_rank == Some(rank_of(m.pending[0]) as u32),
    ensures
        taken(m, now).1 == Some(m.pending[0]),
        taken(m, now).0.pending == m.pending.skip(1),
{
}

/// A probe that failed counts as an error of probes, and as one of sending where
/// that is why.
pub proof fn law_probe_errors_are_counted(counters: AmtMetricsCounters, send_failed: bool)
    ensures
        ({
            let after = probe_error_counted(counters, send_failed);
            &&& send_failed ==> after.send_errors_total == counted(counters.send_errors_total, 1)
            &&& !(send_failed) ==> after.send_errors_total == counters.send_errors_total
            &&& after.driad_probe_errors_total == counted(counters.driad_probe_errors_total, 1)
            &&& counters == (AmtMetricsCounters {
                send_errors_total: counters.send_errors_total,
                driad_probe_errors_total: counters.driad_probe_errors_total,
                ..after
            })
        }),
{
}

/// A relay that fails counts once, under the reason for it.
pub proof fn law_failures_are_counted(counters: AmtMetricsCounters, failure: DriadActiveFailure)
    ensures
        ({
            let after = failure_counted(counters, failure);
            &&& failure is Loaded ==> after.driad_loaded_hold_downs_total == counted(counters.driad_loaded_hold_downs_total, 1)
            &&& !(failure is Loaded) ==> after.driad_loaded_hold_downs_total == counters.driad_loaded_hold_downs_total
            &&& failure is NoTraffic ==> after.driad_no_traffic_hold_downs_total == counted(counters.driad_no_traffic_hold_downs_total, 1)
            &&& !(failure is NoTraffic) ==> after.driad_no_traffic_hold_downs_total == counters.driad_no_traffic_hold_downs_total
            &&& failure is QueryTimeout ==> after.driad_query_timeouts_total == counted(counters.driad_query_timeouts_total, 1)
            &&& !(failure is QueryTimeout) ==> after.driad_query_timeouts_total == counters.driad_query_timeouts_total
            &&& counters == (AmtMetricsCounters {
                driad_loaded_hold_downs_total: counters.driad_loaded_hold_downs_total,
                driad_no_traffic_hold_downs_total: counters.driad_no_traffic_hold_downs_total,
                driad_query_timeouts_total: counters.driad_query_timeouts_total,
                ..after
            })
        }),
{
}

/// A lookup that found relays counts as a success, and as a change where they are
/// others than before.
pub proof fn law_lookups_are_counted(counters: AmtMetricsCounters, changed: bool)
    ensures
        ({
            let after = found_counted(counters, changed);
            &&& changed ==> after.driad_candidate_changes_total == counted(counters.driad_candidate_changes_total, 1)
            &&& !(changed) ==> after.driad_candidate_changes_total == counters.driad_candidate_changes_total
            &&& after.driad_refreshes_succeeded_total == counted(counters.driad_refreshes_succeeded_total, 1)
            &&& counters == (AmtMetricsCounters {
                driad_candidate_changes_total: counters.driad_candidate_changes_total,
                driad_refreshes_succeeded_total: counters.driad_refreshes_succeeded_total,
                ..after
            })
        }),
{
}

/// A source whose relays are denied is withdrawn from them once: it counts as a
/// withdrawal exactly if anything was left to withdraw from.
pub proof fn law_withdrawals_are_told_once(m: TunnelModel, now: Instant, random: u64)
    ensures
        ({
            let after = relays_withdrawn(m, now, random);
            &&& !is_withdrawal(after)
            &&& after.no_relay_present && after.active is None && after.probes.len() == 0
            &&& after.dns_candidates.len() == 0 && after.pending.len() == 0
            &&& is_withdrawal(m) <==> m.no_relay_present != after.no_relay_present
                || m.dns_candidates != after.dns_candidates || m.probes != after.probes || m.active
                != after.active
        }),
{
    let after = relays_withdrawn(m, now, random);
    if !is_withdrawal(m) {
        assert(m.dns_candidates =~= after.dns_candidates);
        assert(m.probes =~= after.probes);
    }
}

/// A probe that ends leaves the others running.
pub proof fn law_ended_probes_leave_the_others(probes: Seq<ProbeModel>, index: int, other: int)
    requires
        0 <= index < probes.len(),
        0 <= other < probes.len(),
        other != index,
    ensures
        probe_removed(probes, index).len() == probes.len() - 1,
        probe_removed(probes, index).contains(probes[other]),
{
    let after = probe_removed(probes, index);
    if other == probes.len() - 1 {
        assert(after[index] == probes[other]);
    } else {
        assert(after[other] == probes[other]);
    }
}

/// The next probe waits for the configured delay after an attempt, and a relay that
/// is told what is wanted has the given time from then to send any of it.
pub proof fn law_patience_runs_from_now(
    m: TunnelModel,
    active: ActiveModel,
    now: Instant,
    timeout: Duration,
)
    requires
        now.can_add(m.settings.happy_eyeballs_delay),
        now.can_add(timeout),
    ensures
        probe_attempted(m, now).next_probe_at.nanos == now.nanos
            + m.settings.happy_eyeballs_delay.nanos,
        desired_noted(active, now, timeout).last_membership_refresh == now,
        desired_noted(active, now, timeout).traffic_deadline matches Some(deadline)
            && deadline.nanos == now.nanos + timeout.nanos,
        desired_noted(active, now, timeout).gateway == active.gateway,
{
}

} // verus!
