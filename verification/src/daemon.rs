//! How the daemons are set up.

use crate::downstream::{
    config_error, error_words, family_of, platform_support, protocol_family, routed,
    DownstreamConfig, DownstreamConfigError, DownstreamErrorModel, EgressSupport,
};
use crate::driad::{config_error as resolver_error, DriadError, DriadErrorModel, DriadResolver};
use crate::gateway::{ConfigModel, GatewayConfig};
use crate::local_membership::LocalMembershipConfig;
use crate::metrics::{default_metrics, MetricsConfig, MetricsModel};
use crate::net::{IpAddr, SocketAddr};
use crate::protocol::MembershipProtocol;
use crate::query::{interval_secs, query_interval};
use crate::relay::{RelayConfig, RelayConfigModel};
use crate::time::Duration;
use crate::wording::{driad_words, span_words};
use vstd::prelude::*;

verus! {

/// After how many seconds without a sign of life a relay forgets a gateway.
pub const DEFAULT_GATEWAY_IDLE_TIMEOUT_SECS: u64 = 260;

/// How often, in seconds, a relay looks for such gateways.
pub const DEFAULT_GATEWAY_PRUNE_INTERVAL_SECS: u64 = 5;

/// The largest packet that the path to a gateway carries.
pub const DEFAULT_RELAY_PATH_MTU: usize = 1_500;

/// How often, in seconds, a gateway asks its relay for a new query.
pub const DEFAULT_MEMBERSHIP_REFRESH_INTERVAL_SECS: u64 = 60;

pub const DEFAULT_CONTROL_RATE_PER_SECOND: u32 = 10;

pub const DEFAULT_CONTROL_RATE_BURST: u32 = 20;

pub const DEFAULT_GLOBAL_CONTROL_RATE_PER_SECOND: u32 = 1_000;

pub const DEFAULT_GLOBAL_CONTROL_RATE_BURST: u32 = 2_000;

pub const DEFAULT_DRIAD_MAX_SOURCE_TUNNELS: usize = 256;

pub const DEFAULT_DRIAD_MAX_CONCURRENT_PROBES: usize = 4;

pub const DEFAULT_DRIAD_MAX_DNS_WORKERS: usize = 8;

/// Where a relay receives multicast.
#[derive(Debug, Clone, Copy, PartialEq, Eq, Structural)]
pub struct UpstreamConfig {
    pub interface: Option<IpAddr>,
    pub interface_index: Option<u32>,
}

/// Why a daemon cannot be set up as configured.
#[derive(Debug, PartialEq, Eq)]
#[allow(inconsistent_fields)]
pub enum DaemonConfigError {
    IdleTimeoutTooShort { timeout: Duration, advertised: Duration },
    LocalProtocolMismatch,
    NoQuerySource,
    QueryNeedsInterface,
    Downstream(DownstreamConfigError),
    Resolver(DriadError),
    DriadBindPort,
    DriadTimers,
    DriadTrafficTimeout,
    DriadLimits,
}

/// A [`DaemonConfigError`] without the words of others.
#[allow(inconsistent_fields)]
pub enum DaemonErrorModel {
    IdleTimeoutTooShort { timeout: Duration, advertised: Duration },
    LocalProtocolMismatch,
    NoQuerySource,
    QueryNeedsInterface,
    Downstream(DownstreamErrorModel),
    Resolver(DriadErrorModel),
    DriadBindPort,
    DriadTimers,
    DriadTrafficTimeout,
    DriadLimits,
}

impl View for DaemonConfigError {
    type V = DaemonErrorModel;

    open spec fn view(&self) -> DaemonErrorModel {
        match *self {
            DaemonConfigError::IdleTimeoutTooShort { timeout, advertised } => {
                DaemonErrorModel::IdleTimeoutTooShort { timeout, advertised }
            },
            DaemonConfigError::LocalProtocolMismatch => DaemonErrorModel::LocalProtocolMismatch,
            DaemonConfigError::NoQuerySource => DaemonErrorModel::NoQuerySource,
            DaemonConfigError::QueryNeedsInterface => DaemonErrorModel::QueryNeedsInterface,
            DaemonConfigError::Downstream(error) => DaemonErrorModel::Downstream(error@),
            DaemonConfigError::Resolver(error) => DaemonErrorModel::Resolver(error@),
            DaemonConfigError::DriadBindPort => DaemonErrorModel::DriadBindPort,
            DaemonConfigError::DriadTimers => DaemonErrorModel::DriadTimers,
            DaemonConfigError::DriadTrafficTimeout => DaemonErrorModel::DriadTrafficTimeout,
            DaemonConfigError::DriadLimits => DaemonErrorModel::DriadLimits,
        }
    }
}

/// That an idle timeout is too short, in words.
pub open spec fn idle_timeout_words(timeout: Seq<char>, advertised: Seq<char>) -> Seq<char> {
    "gateway idle timeout ("@ + timeout
        + ") must be greater than the advertised query interval ("@ + advertised + ")"@
}

/// That an idle timeout is too short, in words.
pub fn idle_timeout_message(timeout: &str, advertised: &str) -> (text: String)
    ensures
        text@ == idle_timeout_words(timeout@, advertised@),
{
    "gateway idle timeout (".to_string().concat(timeout).concat(
        ") must be greater than the advertised query interval (",
    ).concat(advertised).concat(")")
}

/// An error in words.
pub open spec fn daemon_error_words(error: DaemonConfigError) -> Seq<char> {
    match error {
        DaemonConfigError::IdleTimeoutTooShort { timeout, advertised } => {
            idle_timeout_words(span_words(timeout), span_words(advertised))
        },
        DaemonConfigError::LocalProtocolMismatch => {
            "local membership protocol must match the AMT gateway protocol"@
        },
        DaemonConfigError::NoQuerySource => {
            "transparent local queries require an address-valued --local-membership-interface (or --downstream-interface) matching the protocol; use --local-query-interval 0 to disable active queries"@
        },
        DaemonConfigError::QueryNeedsInterface => {
            "MLDv2 General Queries target link-local ff02::1 and require an explicit --downstream-interface or --downstream-ifindex; route-selected downstream egress remains available when --local-query-interval is 0"@
        },
        DaemonConfigError::Downstream(error) => error_words(error),
        DaemonConfigError::Resolver(error) => {
            "invalid DRIAD resolver configuration: "@ + driad_words(error)
        },
        DaemonConfigError::DriadBindPort => "DRIAD tunnel bind port must be zero"@,
        DaemonConfigError::DriadTimers => "DRIAD timers must not be zero"@,
        DaemonConfigError::DriadTrafficTimeout => {
            "DRIAD maximum traffic timeout must not be shorter than its initial timeout"@
        },
        DaemonConfigError::DriadLimits => "DRIAD resource limits must not be zero"@,
    }
}

impl DaemonConfigError {
    /// The error in words.
    pub fn message(&self) -> (text: String)
        ensures
            text@ == daemon_error_words(*self),
    {
        match self {
            DaemonConfigError::IdleTimeoutTooShort { timeout, advertised } => {
                idle_timeout_message(timeout.text().as_str(), advertised.text().as_str())
            },
            DaemonConfigError::LocalProtocolMismatch => {
                "local membership protocol must match the AMT gateway protocol".to_string()
            },
            DaemonConfigError::NoQuerySource => {
                "transparent local queries require an address-valued --local-membership-interface (or --downstream-interface) matching the protocol; use --local-query-interval 0 to disable active queries".to_string()
            },
            DaemonConfigError::QueryNeedsInterface => {
                "MLDv2 General Queries target link-local ff02::1 and require an explicit --downstream-interface or --downstream-ifindex; route-selected downstream egress remains available when --local-query-interval is 0".to_string()
            },
            DaemonConfigError::Downstream(error) => error.message(),
            DaemonConfigError::Resolver(error) => {
                "invalid DRIAD resolver configuration: ".to_string().concat(
                    error.message().as_str(),
                )
            },
            DaemonConfigError::DriadBindPort => "DRIAD tunnel bind port must be zero".to_string(),
            DaemonConfigError::DriadTimers => "DRIAD timers must not be zero".to_string(),
            DaemonConfigError::DriadTrafficTimeout => {
                "DRIAD maximum traffic timeout must not be shorter than its initial timeout".to_string()
            },
            DaemonConfigError::DriadLimits => "DRIAD resource limits must not be zero".to_string(),
        }
    }
}

/// How a relay daemon is set up.
#[derive(PartialEq, Eq)]
pub struct RelayDaemonConfig {
    pub relay: RelayConfig,
    pub upstream: UpstreamConfig,
    pub gateway_idle_timeout: Option<Duration>,
    pub gateway_prune_interval: Duration,
    pub path_mtu: usize,
    pub pmtu_feedback: bool,
    pub control_rate_per_second: u32,
    pub control_rate_burst: u32,
    pub global_control_rate_per_second: u32,
    pub global_control_rate_burst: u32,
    pub metrics: MetricsConfig,
}

/// A [`RelayDaemonConfig`] with its parts as mathematical values.
#[verifier::ext_equal]
pub struct RelayDaemonModel {
    pub relay: RelayConfigModel,
    pub upstream: UpstreamConfig,
    pub gateway_idle_timeout: Option<Duration>,
    pub gateway_prune_interval: Duration,
    pub path_mtu: int,
    pub pmtu_feedback: bool,
    pub control_rate_per_second: u32,
    pub control_rate_burst: u32,
    pub global_control_rate_per_second: u32,
    pub global_control_rate_burst: u32,
    pub metrics: MetricsModel,
}

impl View for RelayDaemonConfig {
    type V = RelayDaemonModel;

    open spec fn view(&self) -> RelayDaemonModel {
        RelayDaemonModel {
            relay: self.relay@,
            upstream: self.upstream,
            gateway_idle_timeout: self.gateway_idle_timeout,
            gateway_prune_interval: self.gateway_prune_interval,
            path_mtu: self.path_mtu as int,
            pmtu_feedback: self.pmtu_feedback,
            control_rate_per_second: self.control_rate_per_second,
            control_rate_burst: self.control_rate_burst,
            global_control_rate_per_second: self.global_control_rate_per_second,
            global_control_rate_burst: self.global_control_rate_burst,
            metrics: self.metrics@,
        }
    }
}

/// A relay daemon's defaults around a relay's configuration.
pub open spec fn relay_daemon_defaults(relay: RelayConfigModel) -> RelayDaemonModel {
    RelayDaemonModel {
        relay,
        upstream: UpstreamConfig { interface: None, interface_index: None },
        gateway_idle_timeout: Some(Duration::secs_spec(260)),
        gateway_prune_interval: Duration::secs_spec(5),
        path_mtu: 1500,
        pmtu_feedback: false,
        control_rate_per_second: 10,
        control_rate_burst: 20,
        global_control_rate_per_second: 1000,
        global_control_rate_burst: 2000,
        metrics: default_metrics(),
    }
}

/// What is wrong with a relay daemon's configuration: gateways must be kept
/// longer than the interval at which they are told to ask again.
pub open spec fn relay_daemon_error(config: RelayDaemonModel) -> Option<DaemonErrorModel> {
    let advertised = Duration::secs_spec(
        interval_secs(config.relay.general_query.query_interval_code) as u64,
    );
    match config.gateway_idle_timeout {
        Some(timeout) => if timeout.nanos <= advertised.nanos {
            Some(DaemonErrorModel::IdleTimeoutTooShort { timeout, advertised })
        } else {
            None
        },
        None => None,
    }
}

/// A result in terms of what it says.
pub open spec fn daemon_error_of(result: Result<(), DaemonConfigError>) -> Option<
    DaemonErrorModel,
> {
    match result {
        Ok(()) => None,
        Err(error) => Some(error@),
    }
}

impl RelayDaemonConfig {
    pub fn new(relay: RelayConfig) -> (config: Self)
        ensures
            config@ == relay_daemon_defaults(relay@),
    {
        RelayDaemonConfig {
            relay,
            upstream: UpstreamConfig { interface: None, interface_index: None },
            gateway_idle_timeout: Some(Duration::from_secs(DEFAULT_GATEWAY_IDLE_TIMEOUT_SECS)),
            gateway_prune_interval: Duration::from_secs(DEFAULT_GATEWAY_PRUNE_INTERVAL_SECS),
            path_mtu: DEFAULT_RELAY_PATH_MTU,
            pmtu_feedback: false,
            control_rate_per_second: DEFAULT_CONTROL_RATE_PER_SECOND,
            control_rate_burst: DEFAULT_CONTROL_RATE_BURST,
            global_control_rate_per_second: DEFAULT_GLOBAL_CONTROL_RATE_PER_SECOND,
            global_control_rate_burst: DEFAULT_GLOBAL_CONTROL_RATE_BURST,
            metrics: MetricsConfig::default(),
        }
    }

    /// Validates daemon-level invariants required by RFC 7450.
    pub fn validate(&self) -> (result: Result<(), DaemonConfigError>)
        ensures
            daemon_error_of(result) == relay_daemon_error(self@),
    {
        if let Some(timeout) = self.gateway_idle_timeout {
            let advertised = query_interval(self.relay.general_query.query_interval_code);
            if timeout.nanos <= advertised.nanos {
                return Err(DaemonConfigError::IdleTimeoutTooShort { timeout, advertised });
            }
        }
        Ok(())
    }
}

/// A group, or a source of a group, that the gateway joins.
#[derive(Debug, Clone, Copy, PartialEq, Eq, Structural)]
pub struct GatewayJoin {
    pub group: IpAddr,
    pub source: Option<IpAddr>,
}

/// How a gateway discovers relays in DNS, and how it picks among them.
#[derive(Debug, PartialEq, Eq)]
pub struct GatewayDriadConfig {
    pub resolver: DriadResolver,
    /// Explicit local address for all DRIAD tunnel sockets; port must be zero.
    pub bind: Option<SocketAddr>,
    /// Probe RFC 7450 well-known anycast before source-owned AMTRELAY records.
    pub use_anycast: bool,
    pub happy_eyeballs_delay: Duration,
    pub relay_hold_down: Duration,
    pub traffic_hold_down: Duration,
    pub initial_traffic_timeout: Duration,
    pub maximum_traffic_timeout: Duration,
    /// Maximum number of independently discovered source tunnels.
    pub max_source_tunnels: usize,
    /// Maximum number of simultaneous relay probes for one source.
    pub max_concurrent_probes: usize,
    /// Maximum number of simultaneous blocking DNS resolver workers.
    pub max_dns_workers: usize,
}

/// What is wrong with the configuration of relay discovery.
pub open spec fn driad_config_error(config: GatewayDriadConfig) -> Option<DaemonErrorModel> {
    if resolver_error(config.resolver.config) is Some {
        Some(DaemonErrorModel::Resolver(resolver_error(config.resolver.config)->Some_0))
    } else if config.bind is Some && config.bind->Some_0.port_spec() != 0 {
        Some(DaemonErrorModel::DriadBindPort)
    } else if config.happy_eyeballs_delay.nanos == 0 || config.relay_hold_down.nanos == 0
        || config.traffic_hold_down.nanos == 0 || config.initial_traffic_timeout.nanos == 0
        || config.maximum_traffic_timeout.nanos == 0 {
        Some(DaemonErrorModel::DriadTimers)
    } else if config.maximum_traffic_timeout.nanos < config.initial_traffic_timeout.nanos {
        Some(DaemonErrorModel::DriadTrafficTimeout)
    } else if config.max_source_tunnels == 0 || config.max_concurrent_probes == 0
        || config.max_dns_workers == 0 {
        Some(DaemonErrorModel::DriadLimits)
    } else {
        None
    }
}

impl GatewayDriadConfig {
    pub fn new(resolver: DriadResolver) -> (config: Self)
        ensures
            config == (GatewayDriadConfig {
                resolver,
                bind: None,
                use_anycast: false,
                happy_eyeballs_delay: Duration::millis_spec(250),
                relay_hold_down: Duration::secs_spec(600),
                traffic_hold_down: Duration::secs_spec(300),
                initial_traffic_timeout: Duration::secs_spec(4),
                maximum_traffic_timeout: Duration::secs_spec(120),
                max_source_tunnels: 256,
                max_concurrent_probes: 4,
                max_dns_workers: 8,
            }),
    {
        GatewayDriadConfig {
            resolver,
            bind: None,
            use_anycast: false,
            happy_eyeballs_delay: Duration::from_millis(250),
            relay_hold_down: Duration::from_secs(600),
            traffic_hold_down: Duration::from_secs(300),
            initial_traffic_timeout: Duration::from_secs(4),
            maximum_traffic_timeout: Duration::from_secs(120),
            max_source_tunnels: DEFAULT_DRIAD_MAX_SOURCE_TUNNELS,
            max_concurrent_probes: DEFAULT_DRIAD_MAX_CONCURRENT_PROBES,
            max_dns_workers: DEFAULT_DRIAD_MAX_DNS_WORKERS,
        }
    }

    /// Whether the configuration can be used.
    pub fn validate(&self) -> (result: Result<(), DaemonConfigError>)
        ensures
            daemon_error_of(result) == driad_config_error(*self),
    {
        if let Err(error) = self.resolver.validate() {
            return Err(DaemonConfigError::Resolver(error));
        }
        if let Some(bind) = self.bind {
            if bind.port() != 0 {
                return Err(DaemonConfigError::DriadBindPort);
            }
        }
        if self.happy_eyeballs_delay.is_zero() || self.relay_hold_down.is_zero()
            || self.traffic_hold_down.is_zero() || self.initial_traffic_timeout.is_zero()
            || self.maximum_traffic_timeout.is_zero() {
            return Err(DaemonConfigError::DriadTimers);
        }
        if self.maximum_traffic_timeout.nanos < self.initial_traffic_timeout.nanos {
            return Err(DaemonConfigError::DriadTrafficTimeout);
        }
        if self.max_source_tunnels == 0 || self.max_concurrent_probes == 0 || self.max_dns_workers
            == 0 {
            return Err(DaemonConfigError::DriadLimits);
        }
        Ok(())
    }
}

/// How a gateway daemon is set up.
#[derive(Debug, PartialEq, Eq)]
pub struct GatewayDaemonConfig {
    pub bind: SocketAddr,
    pub gateway: GatewayConfig,
    pub joins: Vec<GatewayJoin>,
    pub downstream: Option<DownstreamConfig>,
    pub local_membership: Option<LocalMembershipConfig>,
    pub membership_refresh_interval: Option<Duration>,
    pub driad: Option<GatewayDriadConfig>,
    pub metrics: MetricsConfig,
}

/// A [`GatewayDaemonConfig`] with its parts as mathematical values.
#[verifier::ext_equal]
pub struct GatewayDaemonModel {
    pub bind: SocketAddr,
    pub gateway: ConfigModel,
    pub joins: Seq<GatewayJoin>,
    pub downstream: Option<DownstreamConfig>,
    pub local_membership: Option<LocalMembershipConfig>,
    pub membership_refresh_interval: Option<Duration>,
    pub metrics: MetricsModel,
}

impl View for GatewayDaemonConfig {
    type V = GatewayDaemonModel;

    open spec fn view(&self) -> GatewayDaemonModel {
        GatewayDaemonModel {
            bind: self.bind,
            gateway: self.gateway@,
            joins: self.joins@,
            downstream: self.downstream,
            local_membership: self.local_membership,
            membership_refresh_interval: self.membership_refresh_interval,
            metrics: self.metrics@,
        }
    }
}

/// Whether local queries have a source address.
pub open spec fn has_query_source(local: LocalMembershipConfig) -> bool {
    match (local.protocol, local.interface) {
        (MembershipProtocol::Igmpv3, Some(IpAddr::V4(address))) => address.bits != 0,
        (MembershipProtocol::Mldv2, Some(IpAddr::V6(address))) => address.bits != 0,
        _ => false,
    }
}

/// What is wrong with how a gateway learns from local hosts.
pub open spec fn local_config_error(
    protocol: MembershipProtocol,
    local: Option<LocalMembershipConfig>,
    downstream: Option<DownstreamConfig>,
) -> Option<DaemonErrorModel> {
    match local {
        None => None,
        Some(local) => if local.protocol != protocol {
            Some(DaemonErrorModel::LocalProtocolMismatch)
        } else if downstream is None || local.query_interval is None {
            None
        } else if !has_query_source(local) {
            Some(DaemonErrorModel::NoQuerySource)
        } else if local.protocol is Mldv2 && routed(downstream->Some_0) {
            Some(DaemonErrorModel::QueryNeedsInterface)
        } else {
            None
        },
    }
}

/// What is wrong with a gateway daemon's configuration on a platform.
pub open spec fn gateway_daemon_error(
    protocol: MembershipProtocol,
    local: Option<LocalMembershipConfig>,
    downstream: Option<DownstreamConfig>,
    support: EgressSupport,
) -> Option<DaemonErrorModel> {
    if local_config_error(protocol, local, downstream) is Some {
        local_config_error(protocol, local, downstream)
    } else {
        match downstream {
            Some(downstream) => match config_error(downstream, family_of(protocol), support) {
                Some(error) => Some(DaemonErrorModel::Downstream(error)),
                None => None,
            },
            None => None,
        }
    }
}

impl GatewayDaemonConfig {
    pub fn new(bind: SocketAddr, gateway: GatewayConfig) -> (config: Self)
        ensures
            config.driad is None,
            config@ == (GatewayDaemonModel {
                bind,
                gateway: gateway@,
                joins: Seq::empty(),
                downstream: Some(
                    DownstreamConfig { interface: None, interface_index: None, loopback: None },
                ),
                local_membership: None,
                membership_refresh_interval: Some(Duration::secs_spec(60)),
                metrics: default_metrics(),
            }),
    {
        GatewayDaemonConfig {
            bind,
            gateway,
            joins: Vec::new(),
            downstream: Some(DownstreamConfig::default()),
            local_membership: None,
            membership_refresh_interval: Some(
                Duration::from_secs(DEFAULT_MEMBERSHIP_REFRESH_INTERVAL_SECS),
            ),
            driad: None,
            metrics: MetricsConfig::default(),
        }
    }

    /// Whether the configuration can be used on a platform.
    pub fn validate_on(&self, support: EgressSupport) -> (result: Result<(), DaemonConfigError>)
        ensures
            daemon_error_of(result) == gateway_daemon_error(
                self.gateway.protocol,
                self.local_membership,
                self.downstream,
                support,
            ),
    {
        if let Some(local) = self.local_membership {
            if local.protocol != self.gateway.protocol {
                return Err(DaemonConfigError::LocalProtocolMismatch);
            }
            if let Some(downstream) = self.downstream {
                if local.query_interval.is_some() {
                    let sourced: bool = match (local.protocol, local.interface) {
                        (MembershipProtocol::Igmpv3, Some(IpAddr::V4(address))) => {
                            !address.is_unspecified()
                        },
                        (MembershipProtocol::Mldv2, Some(IpAddr::V6(address))) => {
                            !address.is_unspecified()
                        },
                        _ => false,
                    };
                    if !sourced {
                        return Err(DaemonConfigError::NoQuerySource);
                    }
                    if local.protocol == MembershipProtocol::Mldv2
                        && downstream.uses_route_selected_egress() {
                        return Err(DaemonConfigError::QueryNeedsInterface);
                    }
                }
            }
        }
        if let Some(downstream) = self.downstream {
            if let Err(error) = downstream.validate_for_family(
                protocol_family(self.gateway.protocol),
                support,
            ) {
                return Err(DaemonConfigError::Downstream(error));
            }
        }
        Ok(())
    }

    /// Whether the configuration can be used here.
    pub fn validate(&self) -> (result: Result<(), DaemonConfigError>)
        ensures
            exists|support: EgressSupport|
                daemon_error_of(result) == #[trigger] gateway_daemon_error(
                    self.gateway.protocol,
                    self.local_membership,
                    self.downstream,
                    support,
                ),
    {
        let support = platform_support();
        let result = self.validate_on(support);
        proof {
            assert(daemon_error_of(result) == gateway_daemon_error(
                self.gateway.protocol,
                self.local_membership,
                self.downstream,
                support,
            ));
        }
        result
    }
}

/// Gateways are kept longer than the interval in which they are asked to report:
/// an idle timeout that is no longer is refused, and none is fine.
pub proof fn law_gateways_outlive_the_query_interval(config: RelayDaemonModel)
    ensures
        relay_daemon_error(config) is Some <==> (config.gateway_idle_timeout matches Some(timeout)
            && timeout.nanos <= interval_secs(config.relay.general_query.query_interval_code)
            * 1_000_000_000),
{
    crate::query::lemma_intervals_are_not_negative(
        config.relay.general_query.query_interval_code,
    );
}

/// Which gateway configurations are refused for how they learn from local hosts:
/// those of another protocol, and those that query without an address to query
/// from or, with MLD, without an interface to query on.
pub proof fn law_local_queries_have_somewhere_to_go(
    protocol: MembershipProtocol,
    local: LocalMembershipConfig,
    downstream: Option<DownstreamConfig>,
)
    ensures
        ({
            let queries = downstream is Some && local.query_interval is Some;
            let sourced = match local.interface {
                Some(IpAddr::V4(a)) => local.protocol is Igmpv3 && a.bits != 0,
                Some(IpAddr::V6(a)) => local.protocol is Mldv2 && a.bits != 0,
                None => false,
            };
            let placed = downstream is Some && (downstream->Some_0.interface is Some
                || downstream->Some_0.interface_index is Some);
            local_config_error(protocol, Some(local), downstream) is None <==> local.protocol
                == protocol && (queries ==> sourced && (local.protocol is Mldv2 ==> placed))
        }),
{
}

/// How a gateway discovers relays is accepted only with a resolver that can be
/// used, without a port of its own, with spans and limits above zero, and with a
/// patience that ends no lower than it begins.
pub proof fn law_discovery_is_checked(config: GatewayDriadConfig)
    ensures
        driad_config_error(config) is None <==> {
            &&& resolver_error(config.resolver.config) is None
            &&& config.bind is None || config.bind->Some_0.port_spec() == 0
            &&& config.happy_eyeballs_delay.nanos > 0 && config.relay_hold_down.nanos > 0
            &&& config.traffic_hold_down.nanos > 0 && config.initial_traffic_timeout.nanos > 0
            &&& config.maximum_traffic_timeout.nanos >= config.initial_traffic_timeout.nanos
            &&& config.max_source_tunnels > 0 && config.max_concurrent_probes > 0
            &&& config.max_dns_workers > 0
        },
{
}

/// A relay daemon keeps silent gateways for 260 seconds, looks after them every
/// five, cuts packets to 1500 bytes and tells sources nothing, unless it is told
/// otherwise.
pub proof fn law_relay_daemons_have_defaults(relay: RelayConfigModel)
    ensures
        ({
            let config = relay_daemon_defaults(relay);
            &&& config.relay == relay
            &&& config.upstream.interface is None && config.upstream.interface_index is None
            &&& config.gateway_idle_timeout == Some(Duration::secs_spec(260))
            &&& config.gateway_prune_interval == Duration::secs_spec(5)
            &&& config.path_mtu == 1500 && !config.pmtu_feedback
            &&& config.control_rate_per_second == 10 && config.control_rate_burst == 20
            &&& config.global_control_rate_per_second == 1000
            &&& config.global_control_rate_burst == 2000
        }),
{
}

/// A gateway daemon is refused where what it learns from its hosts cannot be, and
/// else where its downstream cannot be used.
pub proof fn law_gateway_daemons_are_checked(
    protocol: MembershipProtocol,
    local: Option<LocalMembershipConfig>,
    downstream: Option<DownstreamConfig>,
    support: EgressSupport,
)
    ensures
        gateway_daemon_error(protocol, local, downstream, support) is None <==> {
            &&& local_config_error(protocol, local, downstream) is None
            &&& downstream is Some ==> config_error(
                downstream->Some_0,
                family_of(protocol),
                support,
            ) is None
        },
        local is Some && local->Some_0.protocol != protocol ==> gateway_daemon_error(
            protocol,
            local,
            downstream,
            support,
        ) is Some,
{
}

/// What is said of a configuration of relay discovery that is refused is true of
/// it.
pub proof fn law_discovery_refusals_are_true(config: GatewayDriadConfig)
    ensures
        driad_config_error(config) matches Some(error) ==> match error {
            DaemonErrorModel::Resolver(reason) => resolver_error(config.resolver.config) == Some(
                reason,
            ),
            DaemonErrorModel::DriadBindPort => config.bind is Some
                && config.bind->Some_0.port_spec() != 0,
            DaemonErrorModel::DriadTimers => config.happy_eyeballs_delay.nanos == 0
                || config.relay_hold_down.nanos == 0 || config.traffic_hold_down.nanos == 0
                || config.initial_traffic_timeout.nanos == 0
                || config.maximum_traffic_timeout.nanos == 0,
            DaemonErrorModel::DriadTrafficTimeout => config.maximum_traffic_timeout.nanos
                < config.initial_traffic_timeout.nanos,
            DaemonErrorModel::DriadLimits => config.max_source_tunnels == 0
                || config.max_concurrent_probes == 0 || config.max_dns_workers == 0,
            _ => false,
        },
{
}

/// What is said of a gateway daemon's configuration that is refused is true of it.
pub proof fn law_local_refusals_are_true(
    protocol: MembershipProtocol,
    local: LocalMembershipConfig,
    downstream: Option<DownstreamConfig>,
)
    ensures
        local_config_error(protocol, Some(local), downstream) matches Some(error) ==> match error {
            DaemonErrorModel::LocalProtocolMismatch => local.protocol != protocol,
            DaemonErrorModel::NoQuerySource => local.query_interval is Some && (
            local.interface matches Some(address) ==> address.unspecified_spec() || (address is V4)
                != (local.protocol is Igmpv3)),
            DaemonErrorModel::QueryNeedsInterface => local.query_interval is Some
                && local.protocol is Mldv2 && downstream is Some
                && downstream->Some_0.interface is None
                && downstream->Some_0.interface_index is None,
            _ => false,
        },
        local_config_error(protocol, None, downstream) is None,
{
}

} // verus!
