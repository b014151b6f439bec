//! How a gateway is set up by its options.

use crate::cli::{said, say, words, CliError, CliErrorModel};
use crate::config::{FileConfig, GatewayFileConfig, GatewayJoinFileConfig};
use crate::daemon::{
    GatewayDaemonConfig, GatewayDaemonModel, GatewayDriadConfig, GatewayJoin,
    DEFAULT_MEMBERSHIP_REFRESH_INTERVAL_SECS,
};
use crate::downstream::{family_of, options_error, DownstreamConfig};
use crate::driad::{
    lookup_config_error, DriadError, DriadErrorModel, DriadResolver, DriadResolverConfig,
    AMT_ANYCAST_IPV4_BITS, AMT_ANYCAST_IPV6_BITS,
};
use crate::gateway::{ConfigModel, GatewayConfig};
use crate::gateway_options::{
    apply_gateway_args, driad_from_file, driad_options_error, driad_options_from_file,
    gateway_args, named_discovery, named_protocol, parse_protocol, parse_relay_discovery, present,
    section_copy, ttl_value, validate_driad_options, DriadOptionsModel, GatewayOptions,
    GatewayOptionsModel, GatewayRelayDiscovery, LinkOptions,
};
use crate::ip::{forwardable_group, is_amt_forwardable_group};
use crate::local_membership::{fits_protocol, group_matches_protocol, LocalMembershipConfig};
use crate::metrics::MetricsModel;
use crate::net::{
    same_family, same_family_spec, AddressText, IpAddr, Ipv4Addr, Ipv6Addr, SocketAddr,
};
use crate::ordered::OrdSet;
use crate::protocol::{MembershipProtocol, AMT_PORT};
use crate::random::{random_nonce, RandomnessError};
use crate::relay_options::{
    metrics_config_from_file, metrics_from_file, optional_seconds, or_else, seconds_or_none,
};
use crate::time::{Duration, MAX_SPAN_NANOS};
use vstd::prelude::*;

verus! {

/// The gateway section of a configuration file.
pub open spec fn gateway_section(file: Option<&FileConfig>) -> Option<GatewayFileConfig> {
    match file {
        Some(file) => file.gateway,
        None => None,
    }
}

/// A group or source that a configuration file lists.
pub open spec fn join_of(join: GatewayJoinFileConfig) -> GatewayJoin {
    GatewayJoin { group: join.group, source: join.source }
}

/// Where multicast leaves, as a configuration file says.
pub open spec fn downstream_of(section: GatewayFileConfig) -> Option<DownstreamConfig> {
    let base = if section.no_downstream == Some(true) {
        None
    } else {
        Some(present(None))
    };
    match section.downstream {
        None => base,
        Some(config) => Some(
            DownstreamConfig {
                interface: config.interface,
                interface_index: config.interface_index,
                loopback: match config.loopback {
                    Some(loopback) => Some(loopback),
                    None => None,
                },
            },
        ),
    }
}

/// The options on the gateway's own link that a configuration file sets.
pub open spec fn link_of(section: Option<GatewayFileConfig>) -> LinkOptions {
    match section {
        None => LinkOptions {
            downstream: Some(present(None)),
            local_interface: None,
            local_interface_index: None,
            local_query_interval: Some(Duration::secs_spec(30)),
            local_reporter_timeout: Duration::secs_spec(260),
        },
        Some(section) => {
            let listed = match section.local_membership {
                Some(local) => local.query_interval_secs,
                None => None,
            };
            let seconds = match listed {
                Some(seconds) => Some(seconds),
                None => section.local_query_interval_secs,
            };
            LinkOptions {
                downstream: downstream_of(section),
                local_interface: match section.local_membership {
                    Some(local) => local.interface,
                    None => None,
                },
                local_interface_index: match section.local_membership {
                    Some(local) => local.interface_index,
                    None => None,
                },
                local_query_interval: match seconds {
                    Some(seconds) => seconds_or_none(seconds),
                    None => Some(Duration::secs_spec(30)),
                },
                local_reporter_timeout: match section.local_membership {
                    Some(local) => Duration::secs_spec(or_else(local.reporter_timeout_secs, 260)),
                    None => Duration::secs_spec(260),
                },
            }
        },
    }
}

/// Whether a configuration file has the gateway learn from local hosts: where
/// it does not say, it does so by a section on them.
pub open spec fn transparent_of(section: Option<GatewayFileConfig>) -> bool {
    match section {
        None => false,
        Some(section) => or_else(section.transparent, section.local_membership is Some),
    }
}

/// The options that a configuration file sets, the others at their defaults.
pub open spec fn gateway_from_file(file: Option<&FileConfig>) -> Result<
    GatewayOptionsModel,
    CliErrorModel,
> {
    let section = gateway_section(file);
    let discovery = match section {
        Some(section) => match section.relay_discovery {
            Some(text) => named_discovery(text@),
            None => Ok(GatewayRelayDiscovery::Static),
        },
        None => Ok(GatewayRelayDiscovery::Static),
    };
    let driad = driad_from_file(
        match section {
            Some(section) => section.driad,
            None => None,
        },
    );
    let protocol = match section {
        Some(section) => match section.protocol {
            Some(text) => match named_protocol(text@) {
                Ok(protocol) => Ok(Some(protocol)),
                Err(error) => Err(error),
            },
            None => Ok(None),
        },
        None => Ok(None),
    };
    let sets_ttl = section is Some && section->Some_0.downstream is Some
        && section->Some_0.downstream->Some_0.ttl is Some;
    if discovery is Err {
        Err(discovery->Err_0)
    } else if driad is Err {
        Err(driad->Err_0)
    } else if protocol is Err {
        Err(protocol->Err_0)
    } else if sets_ttl {
        Err(ttl_value()->Err_0)
    } else if link_of(section).local_reporter_timeout.nanos == 0 {
        words("gateway.local_membership.reporter_timeout_secs must not be 0"@)
    } else {
        match metrics_from_file(file) {
            Err(error) => Err(error),
            Ok(metrics) => Ok(
                GatewayOptionsModel {
                    bind: match section {
                        Some(section) => section.bind,
                        None => None,
                    },
                    ecn: match section {
                        Some(section) => or_else(section.ecn, false),
                        None => false,
                    },
                    relay: match section {
                        Some(section) => section.relay,
                        None => None,
                    },
                    relay_discovery: discovery->Ok_0,
                    driad: driad->Ok_0,
                    protocol: protocol->Ok_0,
                    group: match section {
                        Some(section) => section.group,
                        None => None,
                    },
                    source: match section {
                        Some(section) => section.source,
                        None => None,
                    },
                    joins: match section {
                        Some(section) => section.joins@.map_values(
                            |join: GatewayJoinFileConfig| join_of(join),
                        ),
                        None => Seq::empty(),
                    },
                    transparent: transparent_of(section),
                    link: link_of(section),
                    membership_refresh_interval: match section {
                        Some(section) => match section.membership_refresh_interval_secs {
                            Some(seconds) => seconds_or_none(seconds),
                            None => Some(Duration::secs_spec(60)),
                        },
                        None => Some(Duration::secs_spec(60)),
                    },
                    metrics,
                },
            ),
        }
    }
}

fn copy_joins(joins: &Vec<GatewayJoinFileConfig>) -> (list: Vec<GatewayJoin>)
    ensures
        list@ == joins@.map_values(|join: GatewayJoinFileConfig| join_of(join)),
{
    let ghost all = joins@.map_values(|join: GatewayJoinFileConfig| join_of(join));
    let mut list: Vec<GatewayJoin> = Vec::new();
    let mut i: usize = 0;
    while i < joins.len()
        invariant
            i <= joins@.len(),
            all == joins@.map_values(|join: GatewayJoinFileConfig| join_of(join)),
            list@ == all.take(i as int),
        decreases joins@.len() - i,
    {
        list.push(GatewayJoin { group: joins[i].group, source: joins[i].source });
        proof {
            assert(all.take(i + 1) =~= all.take(i as int).push(all[i as int]));
        }
        i += 1;
    }
    proof {
        assert(all.take(i as int) =~= all);
    }
    list
}

fn read_downstream(section: &GatewayFileConfig) -> (downstream: Option<DownstreamConfig>)
    ensures
        downstream == downstream_of(*section),
{
    match &section.downstream {
        None => if section.no_downstream == Some(true) {
            None
        } else {
            Some(DownstreamConfig::default())
        },
        Some(config) => Some(
            DownstreamConfig {
                interface: config.interface,
                interface_index: config.interface_index,
                loopback: config.loopback,
            },
        ),
    }
}

fn read_link(section: Option<&GatewayFileConfig>) -> (link: LinkOptions)
    ensures
        link == link_of(section_copy(section)),
{
    let section = match section {
        Some(section) => section,
        None => return LinkOptions {
            downstream: Some(DownstreamConfig::default()),
            local_interface: None,
            local_interface_index: None,
            local_query_interval: Some(Duration::from_secs(30)),
            local_reporter_timeout: Duration::from_secs(260),
        },
    };
    let downstream = read_downstream(section);
    match &section.local_membership {
        None => LinkOptions {
            downstream,
            local_interface: None,
            local_interface_index: None,
            local_query_interval: query_interval_of(section.local_query_interval_secs),
            local_reporter_timeout: Duration::from_secs(260),
        },
        Some(local) => LinkOptions {
            downstream,
            local_interface: local.interface,
            local_interface_index: local.interface_index,
            local_query_interval: query_interval_of(
                match local.query_interval_secs {
                    Some(seconds) => Some(seconds),
                    None => section.local_query_interval_secs,
                },
            ),
            local_reporter_timeout: Duration::from_secs(local.reporter_timeout_secs.unwrap_or(260)),
        },
    }
}

fn query_interval_of(seconds: Option<u64>) -> (interval: Option<Duration>)
    ensures
        interval == match seconds {
            Some(seconds) => seconds_or_none(seconds),
            None => Some(Duration::secs_spec(30)),
        },
{
    match seconds {
        Some(seconds) => optional_seconds(seconds),
        None => Some(Duration::from_secs(30)),
    }
}

/// The options that a configuration file sets, the others at their defaults.
pub fn gateway_options_from_file(file: Option<&FileConfig>) -> (result: Result<
    GatewayOptions,
    CliError,
>)
    ensures
        match result {
            Ok(options) => gateway_from_file(file) == Ok::<GatewayOptionsModel, CliErrorModel>(
                options@,
            ),
            Err(error) => gateway_from_file(file) == Err::<GatewayOptionsModel, CliErrorModel>(
                error@,
            ),
        },
{
    let section: Option<&GatewayFileConfig> = match file {
        Some(file) => file.gateway.as_ref(),
        None => None,
    };
    let relay_discovery = match section {
        Some(section) => match &section.relay_discovery {
            Some(text) => match parse_relay_discovery(text.as_str()) {
                Ok(discovery) => discovery,
                Err(error) => return Err(error),
            },
            None => GatewayRelayDiscovery::Static,
        },
        None => GatewayRelayDiscovery::Static,
    };
    let driad = match driad_options_from_file(
        match section {
            Some(section) => section.driad.as_ref(),
            None => None,
        },
    ) {
        Ok(driad) => driad,
        Err(error) => return Err(error),
    };
    let protocol = match section {
        Some(section) => match &section.protocol {
            Some(text) => match parse_protocol(text.as_str()) {
                Ok(protocol) => Some(protocol),
                Err(error) => return Err(error),
            },
            None => None,
        },
        None => None,
    };
    if let Some(section) = section {
        if let Some(downstream) = &section.downstream {
            if downstream.ttl.is_some() {
                return Err(refuse_ttl());
            }
        }
    }
    let link = read_link(section);
    if link.local_reporter_timeout.is_zero() {
        return Err(say("gateway.local_membership.reporter_timeout_secs must not be 0"));
    }
    let metrics = match metrics_config_from_file(file) {
        Ok(metrics) => metrics,
        Err(error) => return Err(error),
    };
    match section {
        None => {
            let options = GatewayOptions {
                bind: None,
                ecn: false,
                relay: None,
                relay_discovery,
                driad,
                protocol,
                group: None,
                source: None,
                joins: Vec::new(),
                transparent: false,
                link,
                membership_refresh_interval: Some(
                    Duration::from_secs(DEFAULT_MEMBERSHIP_REFRESH_INTERVAL_SECS),
                ),
                metrics,
            };
            proof {
                assert(options@.joins =~= Seq::empty());
            }
            Ok(options)
        },
        Some(section) => Ok(
            GatewayOptions {
                bind: section.bind,
                ecn: section.ecn.unwrap_or(false),
                relay: section.relay,
                relay_discovery,
                driad,
                protocol,
                group: section.group,
                source: section.source,
                joins: copy_joins(&section.joins),
                transparent: match section.transparent {
                    Some(transparent) => transparent,
                    None => section.local_membership.is_some(),
                },
                link,
                membership_refresh_interval: match section.membership_refresh_interval_secs {
                    Some(seconds) => optional_seconds(seconds),
                    None => Some(Duration::from_secs(DEFAULT_MEMBERSHIP_REFRESH_INTERVAL_SECS)),
                },
                metrics,
            },
        ),
    }
}

fn refuse_ttl() -> (error: CliError)
    ensures
        error@ == ttl_value()->Err_0,
{
    say("--downstream-ttl and gateway.downstream.ttl are unsupported because raw downstream forwarding preserves the complete inner IP header; set the IPv4 TTL or IPv6 Hop Limit at the multicast source")
}

/// What is wrong with a group, or a source of it, to join.
pub open spec fn join_error(group: IpAddr, source: Option<IpAddr>) -> Option<Seq<char>> {
    if !forwardable_group(group) {
        Some("gateway join group must be non-link-local multicast"@)
    } else if source is Some && (!same_family_spec(group, source->Some_0)
        || !source->Some_0.unicast_spec()) {
        Some("gateway join source must be a unicast address in the same family as group"@)
    } else {
        None
    }
}

/// Checks a group, or a source of it, to join.
pub fn validate_gateway_join(group: IpAddr, source: Option<IpAddr>) -> (result: Result<
    (),
    CliError,
>)
    ensures
        said(result) == match join_error(group, source) {
            Some(text) => words::<()>(text),
            None => Ok(()),
        },
{
    if !is_amt_forwardable_group(group) {
        return Err(say("gateway join group must be non-link-local multicast"));
    }
    if let Some(source) = source {
        if !same_family(group, source) || !source.is_unicast() {
            return Err(
                say("gateway join source must be a unicast address in the same family as group"),
            );
        }
    }
    Ok(())
}

/// What is wrong with the first bad one of the configured joins.
pub open spec fn joins_error(joins: Seq<GatewayJoin>, protocol: MembershipProtocol) -> Option<
    Seq<char>,
>
    decreases joins.len(),
{
    if joins.len() == 0 {
        None
    } else {
        match joins_error(joins.drop_last(), protocol) {
            Some(text) => Some(text),
            None => match join_error(joins.last().group, joins.last().source) {
                Some(text) => Some(text),
                None => if fits_protocol(protocol, joins.last().group) {
                    None
                } else {
                    Some("configured gateway join does not match --protocol"@)
                },
            },
        }
    }
}

proof fn lemma_bad_join_stays(joins: Seq<GatewayJoin>, protocol: MembershipProtocol, n: int)
    requires
        0 <= n <= joins.len(),
        joins_error(joins.take(n), protocol) is Some,
    ensures
        joins_error(joins, protocol) == joins_error(joins.take(n), protocol),
    decreases joins.len() - n,
{
    if n == joins.len() {
        assert(joins.take(n) =~= joins);
    } else {
        assert(joins.take(n + 1).drop_last() =~= joins.take(n));
        lemma_bad_join_stays(joins, protocol, n + 1);
    }
}

fn validate_joins(joins: &Vec<GatewayJoin>, protocol: MembershipProtocol) -> (result: Result<
    (),
    CliError,
>)
    ensures
        said(result) == match joins_error(joins@, protocol) {
            Some(text) => words::<()>(text),
            None => Ok(()),
        },
{
    let mut i: usize = 0;
    proof {
        assert(joins@.take(0) =~= Seq::empty());
    }
    while i < joins.len()
        invariant
            i <= joins@.len(),
            joins_error(joins@.take(i as int), protocol) is None,
        decreases joins@.len() - i,
    {
        proof {
            assert(joins@.take(i + 1).drop_last() =~= joins@.take(i as int));
            if joins_error(joins@.take(i + 1), protocol) is Some {
                lemma_bad_join_stays(joins@, protocol, i + 1);
            }
        }
        if let Err(error) = validate_gateway_join(joins[i].group, joins[i].source) {
            return Err(error);
        }
        if !group_matches_protocol(protocol, joins[i].group) {
            return Err(say("configured gateway join does not match --protocol"));
        }
        i += 1;
    }
    proof {
        assert(joins@.take(i as int) =~= joins@);
    }
    Ok(())
}

/// Whether a group is for source-specific multicast.
pub open spec fn ssm_group(group: IpAddr) -> bool {
    match group {
        IpAddr::V4(g) => g.bits / 0x100_0000 == 232,
        IpAddr::V6(g) => g.first_segment_spec() / 16 == 0xff3,
    }
}

/// Whether a group is for source-specific multicast.
pub fn is_ssm_group(group: IpAddr) -> (b: bool)
    ensures
        b == ssm_group(group),
{
    match group {
        IpAddr::V4(g) => g.bits / 0x100_0000 == 232,
        IpAddr::V6(g) => g.first_segment() / 16 == 0xff3,
    }
}

/// What keeps a join from being served by discovered relays.
pub open spec fn driad_join_error(join: GatewayJoin) -> Option<Seq<char>> {
    if !ssm_group(join.group) {
        Some("DRIAD requires groups in the IPv4 or IPv6 SSM range"@)
    } else if join.source is None {
        Some("DRIAD relay discovery requires all configured joins to be SSM joins with a source"@)
    } else if !same_family_spec(join.group, join.source->Some_0) {
        Some("DRIAD SSM groups and sources must use the same address family"@)
    } else if join.source->Some_0.unspecified_spec() || join.source->Some_0.multicast_spec() {
        Some("DRIAD sources must be unicast addresses"@)
    } else {
        None
    }
}

/// The sources that joins name, or what keeps the first bad one from being
/// served by discovered relays.
pub open spec fn driad_sources(joins: Seq<GatewayJoin>) -> Result<Set<IpAddr>, CliErrorModel>
    decreases joins.len(),
{
    if joins.len() == 0 {
        Ok(Set::empty())
    } else {
        match driad_sources(joins.drop_last()) {
            Err(error) => Err(error),
            Ok(sources) => match driad_join_error(joins.last()) {
                Some(text) => words(text),
                None => Ok(sources.insert(joins.last().source->Some_0)),
            },
        }
    }
}

proof fn lemma_bad_source_stays(joins: Seq<GatewayJoin>, n: int)
    requires
        0 <= n <= joins.len(),
        driad_sources(joins.take(n)) is Err,
    ensures
        driad_sources(joins) == driad_sources(joins.take(n)),
    decreases joins.len() - n,
{
    if n == joins.len() {
        assert(joins.take(n) =~= joins);
    } else {
        assert(joins.take(n + 1).drop_last() =~= joins.take(n));
        lemma_bad_source_stays(joins, n + 1);
    }
}

/// The sources for which relays have to be discovered.
pub open spec fn sources_to_discover(joins: Seq<GatewayJoin>, transparent: bool) -> Result<
    Set<IpAddr>,
    CliErrorModel,
> {
    if joins.len() == 0 && !transparent {
        words("DRIAD relay discovery requires a configured SSM --group and --source"@)
    } else {
        driad_sources(joins)
    }
}

fn check_driad_join(join: &GatewayJoin) -> (result: Result<IpAddr, CliError>)
    ensures
        said(result) == match driad_join_error(*join) {
            Some(text) => words::<IpAddr>(text),
            None => Ok(join.source->Some_0),
        },
{
    if !is_ssm_group(join.group) {
        return Err(say("DRIAD requires groups in the IPv4 or IPv6 SSM range"));
    }
    let source = match join.source {
        Some(source) => source,
        None => return Err(
            say(
                "DRIAD relay discovery requires all configured joins to be SSM joins with a source",
            ),
        ),
    };
    if !same_family(join.group, source) {
        return Err(say("DRIAD SSM groups and sources must use the same address family"));
    }
    if source.is_unspecified() || source.is_multicast() {
        return Err(say("DRIAD sources must be unicast addresses"));
    }
    Ok(source)
}

/// The sources for which relays have to be discovered.
pub fn driad_sources_for_joins(joins: &Vec<GatewayJoin>, transparent: bool) -> (result: Result<
    OrdSet<IpAddr>,
    CliError,
>)
    ensures
        match result {
            Ok(sources) => sources.wf() && sources_to_discover(joins@, transparent) == Ok::<
                Set<IpAddr>,
                CliErrorModel,
            >(sources@),
            Err(error) => sources_to_discover(joins@, transparent) == Err::<
                Set<IpAddr>,
                CliErrorModel,
            >(error@),
        },
{
    if joins.len() == 0 && !transparent {
        return Err(say("DRIAD relay discovery requires a configured SSM --group and --source"));
    }
    let mut sources: OrdSet<IpAddr> = OrdSet::new();
    let mut i: usize = 0;
    proof {
        assert(joins@.take(0) =~= Seq::empty());
    }
    while i < joins.len()
        invariant
            i <= joins@.len(),
            sources.wf(),
            driad_sources(joins@.take(i as int)) == Ok::<Set<IpAddr>, CliErrorModel>(sources@),
        decreases joins@.len() - i,
    {
        proof {
            assert(joins@.take(i + 1).drop_last() =~= joins@.take(i as int));
            if driad_sources(joins@.take(i + 1)) is Err {
                lemma_bad_source_stays(joins@, i + 1);
            }
        }
        match check_driad_join(&joins[i]) {
            Ok(source) => {
                sources.insert(source);
            },
            Err(error) => return Err(error),
        }
        i += 1;
    }
    proof {
        assert(joins@.take(i as int) =~= joins@);
    }
    Ok(sources)
}

/// How relays are discovered: by which resolvers, and whether the anycast
/// address is tried first.
#[verifier::ext_equal]
pub struct DriadPlan {
    pub resolvers: Seq<SocketAddr>,
    pub use_anycast: bool,
}

/// The address that stands for a relay until one is discovered.
pub open spec fn anycast_relay(bind: Option<SocketAddr>) -> SocketAddr {
    match bind {
        Some(SocketAddr::V6(_)) => SocketAddr::of(
            IpAddr::V6(Ipv6Addr { bits: AMT_ANYCAST_IPV6_BITS }),
            AMT_PORT,
        ),
        _ => SocketAddr::of(IpAddr::V4(Ipv4Addr { bits: AMT_ANYCAST_IPV4_BITS }), AMT_PORT),
    }
}

/// What the system's resolvers are, or why they could not be had.
pub type SystemResolvers = Result<Seq<SocketAddr>, DriadErrorModel>;

/// The system's resolvers in terms of a sequence.
pub open spec fn system_model(system: Result<Vec<SocketAddr>, DriadError>) -> SystemResolvers {
    match system {
        Ok(resolvers) => Ok(resolvers@),
        Err(error) => Err(error@),
    }
}

/// How discovered relays are to serve a gateway.
pub open spec fn driad_relays(
    o: GatewayOptionsModel,
    joins: Seq<GatewayJoin>,
    system: SystemResolvers,
    use_anycast: bool,
) -> Result<(SocketAddr, Option<DriadPlan>), CliErrorModel> {
    let sources = sources_to_discover(joins, o.transparent);
    if o.bind is Some && o.bind->Some_0.port_spec() != 0 {
        words(
            "DRIAD requires an ephemeral --bind port because each source owns an independent AMT tunnel"@,
        )
    } else if sources is Err {
        Err(sources->Err_0)
    } else if o.driad.resolvers.len() == 0 && system is Err {
        Err(CliErrorModel::SystemResolvers(system->Err_0))
    } else {
        let resolvers = if o.driad.resolvers.len() == 0 {
            system->Ok_0
        } else {
            o.driad.resolvers
        };
        match lookup_config_error(
            resolvers,
            o.driad.timeout,
            o.driad.attempts,
            o.driad.allow_insecure_dns,
            o.driad.max_candidates,
            o.driad.max_queries_per_window,
            o.driad.query_rate_window,
        ) {
            Some(error) => Err(CliErrorModel::ResolverConfig(error)),
            None => Ok((anycast_relay(o.bind), Some(DriadPlan { resolvers, use_anycast }))),
        }
    }
}

/// The relay that a gateway starts with, and how others are discovered, if they
/// are.
pub open spec fn relays_resolved(
    o: GatewayOptionsModel,
    joins: Seq<GatewayJoin>,
    system: SystemResolvers,
) -> Result<(SocketAddr, Option<DriadPlan>), CliErrorModel> {
    match o.relay_discovery {
        GatewayRelayDiscovery::Static => match o.relay {
            Some(relay) => Ok((relay, None)),
            None => words("gateway requires --relay ADDRESS:PORT"@),
        },
        GatewayRelayDiscovery::Auto => match o.relay {
            Some(relay) => Ok((relay, None)),
            None => driad_relays(o, joins, system, true),
        },
        GatewayRelayDiscovery::Driad => driad_relays(o, joins, system, false),
    }
}

/// Whether a configuration sets discovery up as planned.
pub open spec fn follows_driad_plan(
    config: Option<GatewayDriadConfig>,
    plan: Option<DriadPlan>,
    o: DriadOptionsModel,
    bind: Option<SocketAddr>,
) -> bool {
    match (config, plan) {
        (None, None) => true,
        (Some(config), Some(plan)) => {
            &&& config.resolver.config.resolvers@ == plan.resolvers
            &&& config.resolver.config.timeout == o.timeout
            &&& config.resolver.config.attempts == o.attempts
            &&& config.resolver.config.allow_insecure_dns == o.allow_insecure_dns
            &&& config.resolver.config.max_candidates == o.max_candidates
            &&& config.resolver.config.max_queries_per_window == o.max_queries_per_window
            &&& config.resolver.config.query_rate_window == o.query_rate_window
            &&& config.bind == bind
            &&& config.use_anycast == plan.use_anycast
            &&& config.happy_eyeballs_delay == o.happy_eyeballs_delay
            &&& config.relay_hold_down == o.relay_hold_down
            &&& config.traffic_hold_down == o.traffic_hold_down
            &&& config.initial_traffic_timeout == o.initial_traffic_timeout
            &&& config.maximum_traffic_timeout == o.maximum_traffic_timeout
            &&& config.max_source_tunnels == o.max_source_tunnels
            &&& config.max_concurrent_probes == o.max_concurrent_probes
            &&& config.max_dns_workers == o.max_dns_workers
        },
        _ => false,
    }
}

fn resolve_driad_relays(
    o: &GatewayOptions,
    joins: &Vec<GatewayJoin>,
    system: Result<Vec<SocketAddr>, DriadError>,
    use_anycast: bool,
) -> (result: Result<(SocketAddr, Option<GatewayDriadConfig>), CliError>)
    ensures
        match result {
            Ok((relay, config)) => {
                let plan = driad_relays(o@, joins@, system_model(system), use_anycast);
                plan is Ok && plan->Ok_0.0 == relay && follows_driad_plan(
                    config,
                    plan->Ok_0.1,
                    o@.driad,
                    o.bind,
                )
            },
            Err(error) => driad_relays(o@, joins@, system_model(system), use_anycast) == Err::<
                (SocketAddr, Option<DriadPlan>),
                CliErrorModel,
            >(error@),
        },
{
    if let Some(bind) = o.bind {
        if bind.port() != 0 {
            return Err(
                say(
                    "DRIAD requires an ephemeral --bind port because each source owns an independent AMT tunnel",
                ),
            );
        }
    }
    if let Err(error) = driad_sources_for_joins(joins, o.transparent) {
        return Err(error);
    }
    let resolvers = if o.driad.resolvers.len() == 0 {
        match system {
            Ok(resolvers) => resolvers,
            Err(error) => return Err(CliError::SystemResolvers(error)),
        }
    } else {
        copy_resolvers(&o.driad.resolvers)
    };
    let mut config = DriadResolverConfig::new(resolvers);
    config.timeout = o.driad.timeout;
    config.attempts = o.driad.attempts;
    config.allow_insecure_dns = o.driad.allow_insecure_dns;
    config.max_candidates = o.driad.max_candidates;
    config.max_queries_per_window = o.driad.max_queries_per_window;
    config.query_rate_window = o.driad.query_rate_window;
    let resolver = DriadResolver::new(config);
    if let Err(error) = resolver.validate() {
        return Err(CliError::ResolverConfig(error));
    }
    let relay = match o.bind {
        Some(SocketAddr::V6(_)) => SocketAddr::new(
            IpAddr::V6(Ipv6Addr { bits: AMT_ANYCAST_IPV6_BITS }),
            AMT_PORT,
        ),
        _ => SocketAddr::new(IpAddr::V4(Ipv4Addr { bits: AMT_ANYCAST_IPV4_BITS }), AMT_PORT),
    };
    let driad = GatewayDriadConfig {
        resolver,
        bind: o.bind,
        use_anycast,
        happy_eyeballs_delay: o.driad.happy_eyeballs_delay,
        relay_hold_down: o.driad.relay_hold_down,
        traffic_hold_down: o.driad.traffic_hold_down,
        initial_traffic_timeout: o.driad.initial_traffic_timeout,
        maximum_traffic_timeout: o.driad.maximum_traffic_timeout,
        max_source_tunnels: o.driad.max_source_tunnels,
        max_concurrent_probes: o.driad.max_concurrent_probes,
        max_dns_workers: o.driad.max_dns_workers,
    };
    Ok((relay, Some(driad)))
}

fn copy_resolvers(resolvers: &Vec<SocketAddr>) -> (copy: Vec<SocketAddr>)
    ensures
        copy@ == resolvers@,
{
    let mut copy: Vec<SocketAddr> = Vec::new();
    let mut i: usize = 0;
    while i < resolvers.len()
        invariant
            i <= resolvers@.len(),
            copy@ == resolvers@.take(i as int),
        decreases resolvers@.len() - i,
    {
        copy.push(resolvers[i]);
        proof {
            assert(resolvers@.take(i + 1) =~= resolvers@.take(i as int).push(
                resolvers@[i as int],
            ));
        }
        i += 1;
    }
    proof {
        assert(resolvers@.take(i as int) =~= resolvers@);
    }
    copy
}

/// The relay that a gateway starts with, and how others are discovered, if they
/// are.
pub fn resolve_gateway_relays(
    o: &GatewayOptions,
    joins: &Vec<GatewayJoin>,
    system: Result<Vec<SocketAddr>, DriadError>,
) -> (result: Result<(SocketAddr, Option<GatewayDriadConfig>), CliError>)
    ensures
        match result {
            Ok((relay, config)) => {
                let plan = relays_resolved(o@, joins@, system_model(system));
                plan is Ok && plan->Ok_0.0 == relay && follows_driad_plan(
                    config,
                    plan->Ok_0.1,
                    o@.driad,
                    o.bind,
                )
            },
            Err(error) => relays_resolved(o@, joins@, system_model(system)) == Err::<
                (SocketAddr, Option<DriadPlan>),
                CliErrorModel,
            >(error@),
        },
{
    match o.relay_discovery {
        GatewayRelayDiscovery::Static => match o.relay {
            Some(relay) => Ok((relay, None)),
            None => Err(say("gateway requires --relay ADDRESS:PORT")),
        },
        GatewayRelayDiscovery::Auto => match o.relay {
            Some(relay) => Ok((relay, None)),
            None => resolve_driad_relays(o, joins, system, true),
        },
        GatewayRelayDiscovery::Driad => resolve_driad_relays(o, joins, system, false),
    }
}

/// The shortest time for which local hosts may count: two query intervals and
/// ten seconds.
pub open spec fn shortest_reporter_timeout(interval: Duration) -> int {
    let doubled = if interval.nanos * 2 <= MAX_SPAN_NANOS {
        interval.nanos * 2
    } else {
        MAX_SPAN_NANOS as int
    };
    if doubled + 10_000_000_000 <= MAX_SPAN_NANOS {
        doubled + 10_000_000_000
    } else {
        MAX_SPAN_NANOS as int
    }
}

/// The protocol of a gateway: the one that it is told, else that of the family
/// of its first group.
pub open spec fn protocol_of(o: GatewayOptionsModel) -> MembershipProtocol {
    let inferred = match o.group {
        Some(group) => Some(group),
        None => if o.joins.len() > 0 {
            Some(o.joins[0].group)
        } else {
            None
        },
    };
    match o.protocol {
        Some(protocol) => protocol,
        None => match inferred {
            Some(IpAddr::V6(_)) => MembershipProtocol::Mldv2,
            _ => MembershipProtocol::Igmpv3,
        },
    }
}

/// What is wrong with a gateway's options, before relays are looked at.
pub open spec fn options_problem(o: GatewayOptionsModel) -> Option<CliErrorModel> {
    let protocol = protocol_of(o);
    let down_interface = match o.link.downstream {
        Some(downstream) => downstream.interface,
        None => None,
    };
    if driad_options_error(o.driad) is Some {
        Some(CliErrorModel::Message(driad_options_error(o.driad)->Some_0))
    } else if o.group is None && o.joins.len() == 0 && !o.transparent {
        Some(
            CliErrorModel::Message("gateway requires --group IP unless --transparent is set"@),
        )
    } else if o.source is Some && o.group is None {
        Some(CliErrorModel::Message("--source requires --group"@))
    } else if o.transparent && o.link.local_query_interval is Some
        && o.link.local_reporter_timeout.nanos < shortest_reporter_timeout(
        o.link.local_query_interval->Some_0,
    ) {
        Some(
            CliErrorModel::Message(
                "local reporter timeout must be at least (2 * local query interval) + 10 seconds"@,
            ),
        )
    } else if o.group is Some && join_error(o.group->Some_0, o.source) is Some {
        Some(CliErrorModel::Message(join_error(o.group->Some_0, o.source)->Some_0))
    } else if o.group is Some && !fits_protocol(protocol, o.group->Some_0) {
        Some(CliErrorModel::Message("--protocol does not match --group address family"@))
    } else if o.link.local_interface is Some && !fits_protocol(
        protocol,
        o.link.local_interface->Some_0,
    ) {
        Some(
            CliErrorModel::Message(
                "--local-membership-interface address family must match --protocol"@,
            ),
        )
    } else if down_interface is Some && !fits_protocol(protocol, down_interface->Some_0) {
        Some(
            CliErrorModel::Message(
                "--downstream-interface address family must match --protocol"@,
            ),
        )
    } else if o.link.downstream is Some && options_error(
        o.link.downstream->Some_0,
        family_of(protocol),
    ) is Some {
        Some(
            CliErrorModel::Downstream(
                options_error(o.link.downstream->Some_0, family_of(protocol))->Some_0,
            ),
        )
    } else if joins_error(o.joins, protocol) is Some {
        Some(CliErrorModel::Message(joins_error(o.joins, protocol)->Some_0))
    } else {
        None
    }
}

fn infer_protocol(o: &GatewayOptions) -> (protocol: MembershipProtocol)
    ensures
        protocol == protocol_of(o@),
{
    if let Some(protocol) = o.protocol {
        return protocol;
    }
    let inferred = match o.group {
        Some(group) => Some(group),
        None => if o.joins.len() > 0 {
            Some(o.joins[0].group)
        } else {
            None
        },
    };
    match inferred {
        Some(IpAddr::V6(_)) => MembershipProtocol::Mldv2,
        _ => MembershipProtocol::Igmpv3,
    }
}

/// Checks a gateway's options, before relays are looked at.
pub fn check_gateway_options(o: &GatewayOptions) -> (result: Result<MembershipProtocol, CliError>)
    ensures
        said(result) == match options_problem(o@) {
            Some(error) => Err::<MembershipProtocol, CliErrorModel>(error),
            None => Ok(protocol_of(o@)),
        },
{
    if let Err(error) = validate_driad_options(&o.driad) {
        return Err(error);
    }
    if o.group.is_none() && o.joins.len() == 0 && !o.transparent {
        return Err(say("gateway requires --group IP unless --transparent is set"));
    }
    if o.source.is_some() && o.group.is_none() {
        return Err(say("--source requires --group"));
    }
    if o.transparent {
        if let Some(interval) = o.link.local_query_interval {
            let shortest = interval.saturating_mul(2).saturating_add(Duration::from_secs(10));
            if o.link.local_reporter_timeout.nanos < shortest.nanos {
                return Err(
                    say(
                        "local reporter timeout must be at least (2 * local query interval) + 10 seconds",
                    ),
                );
            }
        }
    }
    let protocol = infer_protocol(o);
    if let Some(group) = o.group {
        if let Err(error) = validate_gateway_join(group, o.source) {
            return Err(error);
        }
        if !group_matches_protocol(protocol, group) {
            return Err(say("--protocol does not match --group address family"));
        }
    }
    if let Some(interface) = o.link.local_interface {
        if !group_matches_protocol(protocol, interface) {
            return Err(
                say("--local-membership-interface address family must match --protocol"),
            );
        }
    }
    if let Some(downstream) = o.link.downstream {
        if let Some(interface) = downstream.interface {
            if !group_matches_protocol(protocol, interface) {
                return Err(say("--downstream-interface address family must match --protocol"));
            }
        }
        if let Err(error) = downstream.validate_options_for_protocol(protocol) {
            return Err(CliError::Downstream(error));
        }
    }
    match validate_joins(&o.joins, protocol) {
        Ok(()) => Ok(protocol),
        Err(error) => Err(error),
    }
}

/// The joins of a gateway: those configured, then the one of the command line.
pub open spec fn all_joins(o: GatewayOptionsModel) -> Seq<GatewayJoin> {
    match o.group {
        Some(group) => o.joins.push(GatewayJoin { group, source: o.source }),
        None => o.joins,
    }
}

/// How a gateway learns from local hosts.
pub open spec fn local_of(o: GatewayOptionsModel) -> Option<LocalMembershipConfig> {
    if !o.transparent {
        None
    } else {
        Some(
            LocalMembershipConfig {
                protocol: protocol_of(o),
                interface: match (o.link.local_interface, o.link.downstream) {
                    (Some(interface), _) => Some(interface),
                    (None, Some(downstream)) => downstream.interface,
                    (None, None) => None,
                },
                interface_index: match (o.link.local_interface_index, o.link.downstream) {
                    (Some(index), _) => Some(index),
                    (None, Some(downstream)) => downstream.interface_index,
                    (None, None) => None,
                },
                query_interval: o.link.local_query_interval,
                reporter_timeout: o.link.local_reporter_timeout,
            },
        )
    }
}

/// How a gateway is set up, but for its nonces.
#[verifier::ext_equal]
pub struct GatewayPlan {
    pub daemon: GatewayDaemonModel,
    pub driad: Option<DriadPlan>,
}

/// How options set up a gateway, but for its nonces.
pub open spec fn gateway_plan(o: GatewayOptionsModel, system: SystemResolvers) -> Result<
    GatewayPlan,
    CliErrorModel,
> {
    if options_problem(o) is Some {
        Err(options_problem(o)->Some_0)
    } else {
        match relays_resolved(o, all_joins(o), system) {
            Err(error) => Err(error),
            Ok((relay, driad)) => {
                let bind = or_else(
                    o.bind,
                    SocketAddr::of(
                        match relay {
                            SocketAddr::V6(_) => IpAddr::V6(Ipv6Addr { bits: 0 }),
                            SocketAddr::V4(_) => IpAddr::V4(Ipv4Addr { bits: 0 }),
                        },
                        0,
                    ),
                );
                if !relay.ip_spec().unicast_spec() {
                    words("gateway relay must be a unicast address"@)
                } else if relay.port_spec() == 0 {
                    words("gateway relay port must not be 0"@)
                } else if !same_family_spec(bind.ip_spec(), relay.ip_spec()) {
                    words("gateway bind and relay must use the same outer address family"@)
                } else {
                    Ok(
                        GatewayPlan {
                            daemon: GatewayDaemonModel {
                                bind,
                                gateway: ConfigModel {
                                    relay,
                                    fallback_relays: Seq::empty(),
                                    protocol: protocol_of(o),
                                    ecn: o.ecn,
                                    discovery_nonce: 0,
                                    request_nonce: 0,
                                },
                                joins: all_joins(o),
                                downstream: o.link.downstream,
                                local_membership: local_of(o),
                                membership_refresh_interval: o.membership_refresh_interval,
                                metrics: o.metrics,
                            },
                            driad,
                        },
                    )
                }
            },
        }
    }
}

/// A gateway's configuration without its nonces.
pub open spec fn without_nonces(config: GatewayDaemonModel) -> GatewayDaemonModel {
    GatewayDaemonModel {
        gateway: ConfigModel { discovery_nonce: 0, request_nonce: 0, ..config.gateway },
        ..config
    }
}

/// Sets up a gateway by its options, with random nonces.
pub fn finish_gateway_config(
    o: GatewayOptions,
    system: Result<Vec<SocketAddr>, DriadError>,
) -> (result: Result<GatewayDaemonConfig, CliError>)
    ensures
        match result {
            Ok(config) => {
                let plan = gateway_plan(o@, system_model(system));
                &&& plan is Ok
                &&& without_nonces(config@) == plan->Ok_0.daemon
                &&& follows_driad_plan(config.driad, plan->Ok_0.driad, o@.driad, o.bind)
                &&& config.gateway.discovery_nonce != 0
                &&& config.gateway.request_nonce != 0
            },
            Err(error) => gateway_plan(o@, system_model(system)) == Err::<
                GatewayPlan,
                CliErrorModel,
            >(error@) || (error is Randomness && gateway_plan(o@, system_model(system)) is Ok),
        },
{
    finish_gateway_config_with(o, system, random_nonce(), random_nonce())
}

/// Whether a gateway was set up by a plan, under the nonces that two draws gave.
pub open spec fn gateway_finished(
    plan: Result<GatewayPlan, CliErrorModel>,
    driad: DriadOptionsModel,
    bind: Option<SocketAddr>,
    discovery_nonce: Result<u32, RandomnessError>,
    request_nonce: Result<u32, RandomnessError>,
    result: Result<GatewayDaemonConfig, CliError>,
) -> bool {
    match plan {
        Err(error) => result matches Err(actual) && actual@ == error,
        Ok(plan) => match (discovery_nonce, request_nonce) {
            (Err(error), _) => result == Err::<GatewayDaemonConfig, CliError>(
                CliError::Randomness(error),
            ),
            (Ok(_), Err(error)) => result == Err::<GatewayDaemonConfig, CliError>(
                CliError::Randomness(error),
            ),
            (Ok(discovery_nonce), Ok(request_nonce)) => {
                &&& result is Ok
                &&& without_nonces(result->Ok_0@) == plan.daemon
                &&& follows_driad_plan(result->Ok_0.driad, plan.driad, driad, bind)
                &&& result->Ok_0.gateway.discovery_nonce == discovery_nonce
                &&& result->Ok_0.gateway.request_nonce == request_nonce
            },
        },
    }
}

/// Sets up a gateway by its options, with the nonces that two draws gave.
pub fn finish_gateway_config_with(
    o: GatewayOptions,
    system: Result<Vec<SocketAddr>, DriadError>,
    discovery_nonce: Result<u32, RandomnessError>,
    request_nonce: Result<u32, RandomnessError>,
) -> (result: Result<GatewayDaemonConfig, CliError>)
    ensures
        gateway_finished(
            gateway_plan(o@, system_model(system)),
            o@.driad,
            o.bind,
            discovery_nonce,
            request_nonce,
            result,
        ),
{
    let protocol = match check_gateway_options(&o) {
        Ok(protocol) => protocol,
        Err(error) => return Err(error),
    };
    let mut joins: Vec<GatewayJoin> = copy_join_list(&o.joins);
    if let Some(group) = o.group {
        joins.push(GatewayJoin { group, source: o.source });
    }
    let (relay, driad) = match resolve_gateway_relays(&o, &joins, system) {
        Ok(resolved) => resolved,
        Err(error) => return Err(error),
    };
    if !relay.ip().is_unicast() {
        return Err(say("gateway relay must be a unicast address"));
    }
    if relay.port() == 0 {
        return Err(say("gateway relay port must not be 0"));
    }
    let bind = match o.bind {
        Some(bind) => bind,
        None => match relay {
            SocketAddr::V6(_) => SocketAddr::new(IpAddr::V6(Ipv6Addr { bits: 0 }), 0),
            SocketAddr::V4(_) => SocketAddr::new(IpAddr::V4(Ipv4Addr { bits: 0 }), 0),
        },
    };
    if !same_family(bind.ip(), relay.ip()) {
        return Err(say("gateway bind and relay must use the same outer address family"));
    }
    let gateway = match GatewayConfig::from_drawn(relay, protocol, discovery_nonce, request_nonce) {
        Ok(gateway) => gateway.with_ecn(o.ecn),
        Err(error) => return Err(CliError::Randomness(error)),
    };
    let local_membership = if o.transparent {
        let (down_interface, down_index) = match o.link.downstream {
            Some(downstream) => (downstream.interface, downstream.interface_index),
            None => (None, None),
        };
        Some(
            LocalMembershipConfig {
                protocol,
                interface: match o.link.local_interface {
                    Some(interface) => Some(interface),
                    None => down_interface,
                },
                interface_index: match o.link.local_interface_index {
                    Some(index) => Some(index),
                    None => down_index,
                },
                query_interval: o.link.local_query_interval,
                reporter_timeout: o.link.local_reporter_timeout,
            },
        )
    } else {
        None
    };
    Ok(
        GatewayDaemonConfig {
            bind,
            gateway,
            joins,
            downstream: o.link.downstream,
            local_membership,
            membership_refresh_interval: o.membership_refresh_interval,
            driad,
            metrics: o.metrics,
        },
    )
}

fn copy_join_list(joins: &Vec<GatewayJoin>) -> (copy: Vec<GatewayJoin>)
    ensures
        copy@ == joins@,
{
    let mut copy: Vec<GatewayJoin> = Vec::new();
    let mut i: usize = 0;
    while i < joins.len()
        invariant
            i <= joins@.len(),
            copy@ == joins@.take(i as int),
        decreases joins@.len() - i,
    {
        copy.push(joins[i]);
        proof {
            assert(joins@.take(i + 1) =~= joins@.take(i as int).push(joins@[i as int]));
        }
        i += 1;
    }
    proof {
        assert(joins@.take(i as int) =~= joins@);
    }
    copy
}

/// What a command line and a configuration file say about a gateway; none,
/// where help is asked for.
pub open spec fn gateway_options(args: Seq<AddressText>, file: Option<&FileConfig>) -> Result<
    Option<GatewayOptionsModel>,
    CliErrorModel,
> {
    match gateway_from_file(file) {
        Err(error) => Err(error),
        Ok(options) => gateway_args(options, args, 0),
    }
}

/// Sets up a gateway by a command line and a configuration file.  `system` is
/// what the system says about its resolvers, which counts only where relays are
/// discovered and no resolvers are configured.
pub fn parse_gateway_config(
    args: &Vec<AddressText>,
    file: Option<&FileConfig>,
    system: Result<Vec<SocketAddr>, DriadError>,
) -> (result: Result<Option<GatewayDaemonConfig>, CliError>)
    ensures
        match gateway_options(args@, file) {
            Err(error) => result matches Err(actual) && actual@ == error,
            Ok(None) => result matches Ok(None),
            Ok(Some(o)) => {
                let plan = gateway_plan(o, system_model(system));
                match result {
                    Ok(Some(config)) => {
                        &&& plan is Ok
                        &&& without_nonces(config@) == plan->Ok_0.daemon
                        &&& follows_driad_plan(config.driad, plan->Ok_0.driad, o.driad, o.bind)
                        &&& config.gateway.discovery_nonce != 0
                        &&& config.gateway.request_nonce != 0
                    },
                    Ok(None) => false,
                    Err(error) => plan == Err::<GatewayPlan, CliErrorModel>(error@) || (
                    error is Randomness && plan is Ok),
                }
            },
        },
{
    parse_gateway_config_with(args, file, system, random_nonce(), random_nonce())
}

/// Sets up a gateway by a command line and a configuration file, with the nonces
/// that two draws gave.
pub fn parse_gateway_config_with(
    args: &Vec<AddressText>,
    file: Option<&FileConfig>,
    system: Result<Vec<SocketAddr>, DriadError>,
    discovery_nonce: Result<u32, RandomnessError>,
    request_nonce: Result<u32, RandomnessError>,
) -> (result: Result<Option<GatewayDaemonConfig>, CliError>)
    ensures
        match gateway_options(args@, file) {
            Err(error) => result matches Err(actual) && actual@ == error,
            Ok(None) => result matches Ok(None),
            Ok(Some(o)) => !(result matches Ok(None)) && gateway_finished(
                gateway_plan(o, system_model(system)),
                o.driad,
                o.bind,
                discovery_nonce,
                request_nonce,
                match result {
                    Ok(config) => Ok(config->Some_0),
                    Err(error) => Err(error),
                },
            ),
        },
{
    let options = match gateway_options_from_file(file) {
        Ok(options) => options,
        Err(error) => return Err(error),
    };
    let options = match apply_gateway_args(options, args) {
        Ok(Some(options)) => options,
        Ok(None) => return Ok(None),
        Err(error) => return Err(error),
    };
    match finish_gateway_config_with(options, system, discovery_nonce, request_nonce) {
        Ok(config) => Ok(Some(config)),
        Err(error) => Err(error),
    }
}

/// A group can be joined if it is multicast beyond its link, and a source of it if
/// that is a unicast address of the same family.
pub proof fn law_joins_are_checked(
    joins: Seq<GatewayJoin>,
    protocol: MembershipProtocol,
)
    ensures
        joins_error(joins, protocol) is None <==> forall|i: int|
            0 <= i < joins.len() ==> {
                let join = #[trigger] joins[i];
                &&& forwardable_group(join.group)
                &&& join.group is V4 <==> protocol is Igmpv3
                &&& join.source is Some ==> join.source->Some_0.unicast_spec()
                    && (join.source->Some_0 is V4 <==> join.group is V4)
            },
    decreases joins.len(),
{
    if joins.len() > 0 {
        let before = joins.drop_last();
        law_joins_are_checked(before, protocol);
        assert(joins.last() == joins[joins.len() - 1]);
        assert forall|i: int| 0 <= i < before.len() implies (#[trigger] before[i]) == joins[i] by {}
        if joins_error(joins, protocol) is None {
            assert forall|i: int| 0 <= i < joins.len() implies {
                let join = #[trigger] joins[i];
                &&& forwardable_group(join.group)
                &&& join.group is V4 <==> protocol is Igmpv3
                &&& join.source is Some ==> join.source->Some_0.unicast_spec()
                    && (join.source->Some_0 is V4 <==> join.group is V4)
            } by {
                if i < before.len() {
                    assert(before[i] == joins[i]);
                }
            }
        }
    }
}

/// Relays are discovered for exactly the sources of the joins, and only where each
/// join is of a source and of a group of the ranges for source-specific multicast.
pub proof fn law_relays_are_discovered_for_sources(joins: Seq<GatewayJoin>)
    ensures
        driad_sources(joins) is Ok <==> forall|i: int|
            0 <= i < joins.len() ==> {
                let join = #[trigger] joins[i];
                &&& join.group matches IpAddr::V4(g) ==> 0xe800_0000 <= g.bits < 0xe900_0000
                &&& join.group matches IpAddr::V6(g) ==> g.bits
                    / 0x10_0000_0000_0000_0000_0000_0000_0000 == 0xff3
                &&& join.source is Some && (join.source->Some_0 is V4 <==> join.group is V4)
                &&& !join.source->Some_0.unspecified_spec() && !join.source->Some_0.multicast_spec()
            },
        driad_sources(joins) is Ok ==> forall|source: IpAddr|
            #![trigger driad_sources(joins)->Ok_0.contains(source)]
            driad_sources(joins)->Ok_0.contains(source) <==> exists|i: int|
                0 <= i < joins.len() && (#[trigger] joins[i]).source == Some(source),
    decreases joins.len(),
{
    if joins.len() > 0 {
        let before = joins.drop_last();
        let last = joins.last();
        law_relays_are_discovered_for_sources(before);
        assert(last == joins[joins.len() - 1]);
        assert forall|i: int| 0 <= i < before.len() implies (#[trigger] before[i]) == joins[i] by {}
        if driad_sources(joins) is Ok {
            assert forall|i: int| 0 <= i < joins.len() implies {
                let join = #[trigger] joins[i];
                &&& join.group matches IpAddr::V4(g) ==> 0xe800_0000 <= g.bits < 0xe900_0000
                &&& join.group matches IpAddr::V6(g) ==> g.bits
                    / 0x10_0000_0000_0000_0000_0000_0000_0000 == 0xff3
                &&& join.source is Some && (join.source->Some_0 is V4 <==> join.group is V4)
                &&& !join.source->Some_0.unspecified_spec() && !join.source->Some_0.multicast_spec()
            } by {
                if i < before.len() {
                    assert(before[i] == joins[i]);
                }
            }
            assert forall|source: IpAddr|
                #![trigger driad_sources(joins)->Ok_0.contains(source)]
                driad_sources(joins)->Ok_0.contains(source) <==> exists|i: int|
                    0 <= i < joins.len() && (#[trigger] joins[i]).source == Some(source) by {
                if driad_sources(joins)->Ok_0.contains(source) {
                    if last.source == Some(source) {
                        assert(joins[joins.len() - 1].source == Some(source));
                    } else {
                        assert(driad_sources(before)->Ok_0.contains(source));
                        let i = choose|i: int|
                            0 <= i < before.len() && (#[trigger] before[i]).source == Some(source);
                        assert(joins[i].source == Some(source));
                    }
                }
                if exists|i: int|
                    0 <= i < joins.len() && (#[trigger] joins[i]).source == Some(source) {
                    let i = choose|i: int|
                        0 <= i < joins.len() && (#[trigger] joins[i]).source == Some(source);
                    if i < before.len() {
                        assert(before[i].source == Some(source));
                        assert(driad_sources(before)->Ok_0.contains(source));
                    }
                }
            }
        }
    }
}

/// A gateway with a relay of its own uses it, unless it is to discover relays; it
/// discovers them only where it is to, and then only for sources.
pub proof fn law_relays_are_found_as_told(
    o: GatewayOptionsModel,
    joins: Seq<GatewayJoin>,
    system: SystemResolvers,
)
    ensures
        o.relay_discovery is Static ==> (relays_resolved(o, joins, system) is Ok <==> o.relay is Some),
        !(o.relay_discovery is Driad) && o.relay is Some ==> relays_resolved(o, joins, system)
            == Ok::<(SocketAddr, Option<DriadPlan>), CliErrorModel>((o.relay->Some_0, None)),
        o.relay_discovery is Driad || (o.relay_discovery is Auto && o.relay is None) ==> {
            let resolvers = if o.driad.resolvers.len() > 0 {
                o.driad.resolvers
            } else {
                system->Ok_0
            };
            &&& relays_resolved(o, joins, system) is Ok <==> {
                &&& o.bind is Some ==> o.bind->Some_0.port_spec() == 0
                &&& joins.len() > 0 || o.transparent
                &&& driad_sources(joins) is Ok
                &&& o.driad.resolvers.len() > 0 || system is Ok
                &&& lookup_config_error(
                    resolvers,
                    o.driad.timeout,
                    o.driad.attempts,
                    o.driad.allow_insecure_dns,
                    o.driad.max_candidates,
                    o.driad.max_queries_per_window,
                    o.driad.query_rate_window,
                ) is None
            }
            &&& relays_resolved(o, joins, system) is Ok ==> {
                let (relay, plan) = relays_resolved(o, joins, system)->Ok_0;
                &&& plan is Some
                &&& plan->Some_0.resolvers == resolvers
                &&& plan->Some_0.use_anycast <==> o.relay_discovery is Auto
                &&& relay.port_spec() == 2268
                &&& o.bind is Some && o.bind->Some_0 is V6 ==> relay.ip_spec() == IpAddr::V6(
                    Ipv6Addr { bits: 0x2001_0003_0000_0000_0000_0000_0000_0001 },
                )
                &&& o.bind is None || o.bind->Some_0 is V4 ==> relay.ip_spec() == IpAddr::V4(
                    Ipv4Addr { bits: 0xc034_c101 },
                )
            }
        },
{
}

/// A gateway speaks the protocol that it is told, else that of the family of its
/// group, else of its first join, else IGMPv3.
pub proof fn law_protocols_follow_the_group(o: GatewayOptionsModel)
    ensures
        o.protocol is Some ==> protocol_of(o) == o.protocol->Some_0,
        o.protocol is None && o.group is Some ==> (protocol_of(o) is Mldv2 <==> o.group->Some_0 is V6),
        o.protocol is None && o.group is None && o.joins.len() > 0 ==> (protocol_of(o) is Mldv2
            <==> o.joins[0].group is V6),
        o.protocol is None && o.group is None && o.joins.len() == 0 ==> protocol_of(o) is Igmpv3,
{
}

/// A gateway that learns from its hosts must wait for their reports for two of its
/// query intervals and ten seconds; other gateways need a group to join. A source
/// needs its group, and every group and interface is of the gateway's protocol.
pub proof fn law_gateway_options_are_checked(o: GatewayOptionsModel)
    ensures
        options_problem(o) is None ==> {
            &&& driad_options_error(o.driad) is None
            &&& o.group is Some || o.joins.len() > 0 || o.transparent
            &&& o.source is Some ==> o.group is Some
            &&& o.transparent && o.link.local_query_interval is Some
                && o.link.local_query_interval->Some_0.nanos * 2 + 10_000_000_000 <= MAX_SPAN_NANOS
                ==> o.link.local_reporter_timeout.nanos
                >= o.link.local_query_interval->Some_0.nanos * 2 + 10_000_000_000
            &&& o.group is Some ==> forwardable_group(o.group->Some_0) && (o.group->Some_0 is V4
                <==> protocol_of(o) is Igmpv3)
            &&& o.source is Some ==> o.source->Some_0.unicast_spec() && (o.source->Some_0 is V4
                <==> o.group->Some_0 is V4)
            &&& o.link.local_interface is Some ==> (o.link.local_interface->Some_0 is V4
                <==> protocol_of(o) is Igmpv3)
            &&& o.link.downstream is Some && o.link.downstream->Some_0.interface is Some ==> (
            o.link.downstream->Some_0.interface->Some_0 is V4 <==> protocol_of(o) is Igmpv3)
            &&& o.link.downstream is Some ==> options_error(
                o.link.downstream->Some_0,
                family_of(protocol_of(o)),
            ) is None
            &&& joins_error(o.joins, protocol_of(o)) is None
        },
{
}

/// Options that keep to what is asked of them have no problem.
pub proof fn law_good_gateway_options_are_accepted(o: GatewayOptionsModel)
    requires
        driad_options_error(o.driad) is None,
        o.group is Some || o.joins.len() > 0 || o.transparent,
        o.source is Some ==> o.group is Some,
        o.transparent && o.link.local_query_interval is Some
            ==> o.link.local_reporter_timeout.nanos
            >= o.link.local_query_interval->Some_0.nanos * 2 + 10_000_000_000,
        o.group is Some ==> forwardable_group(o.group->Some_0) && (o.group->Some_0 is V4
            <==> protocol_of(o) is Igmpv3),
        o.source is Some ==> o.source->Some_0.unicast_spec() && (o.source->Some_0 is V4
            <==> o.group->Some_0 is V4),
        o.link.local_interface is Some ==> (o.link.local_interface->Some_0 is V4
            <==> protocol_of(o) is Igmpv3),
        o.link.downstream is Some && o.link.downstream->Some_0.interface is Some ==> (
        o.link.downstream->Some_0.interface->Some_0 is V4 <==> protocol_of(o) is Igmpv3),
        o.link.downstream is Some ==> options_error(
            o.link.downstream->Some_0,
            family_of(protocol_of(o)),
        ) is None,
        joins_error(o.joins, protocol_of(o)) is None,
    ensures
        options_problem(o) is None,
{
}

/// A gateway is set up at the relay that was found, which is a unicast address
/// with a port, and listens where it is told, else at any port of every address of
/// the relay's family. It joins the group of the command line behind the others,
/// and learns from its hosts, where it does, at its own interface, else at that
/// of the downstream.
pub proof fn law_gateways_are_set_up_as_told(o: GatewayOptionsModel, system: SystemResolvers)
    ensures
        options_problem(o) is Some ==> gateway_plan(o, system) == Err::<GatewayPlan, CliErrorModel>(
            options_problem(o)->Some_0,
        ),
        gateway_plan(o, system) is Ok ==> {
            let plan = gateway_plan(o, system)->Ok_0;
            let daemon = plan.daemon;
            let relay = daemon.gateway.relay;
            let own = o.joins.len();
            &&& relays_resolved(o, daemon.joins, system)
                == Ok::<(SocketAddr, Option<DriadPlan>), CliErrorModel>((relay, plan.driad))
            &&& relay.ip_spec().unicast_spec() && relay.port_spec() > 0
            &&& daemon.bind is V4 <==> relay is V4
            &&& o.bind is Some ==> daemon.bind == o.bind->Some_0
            &&& o.bind is None ==> daemon.bind.port_spec() == 0
                && daemon.bind.ip_spec().unspecified_spec()
            &&& daemon.gateway.protocol == protocol_of(o) && daemon.gateway.ecn == o.ecn
            &&& daemon.gateway.fallback_relays.len() == 0
            &&& daemon.joins.len() == own + if o.group is Some { 1int } else { 0 }
            &&& forall|i: int| 0 <= i < own ==> (#[trigger] daemon.joins[i]) == o.joins[i]
            &&& o.group is Some ==> daemon.joins[own as int].group == o.group->Some_0
                && daemon.joins[own as int].source == o.source
            &&& daemon.downstream == o.link.downstream
            &&& daemon.membership_refresh_interval == o.membership_refresh_interval
            &&& daemon.metrics == o.metrics
            &&& daemon.local_membership is Some <==> o.transparent
            &&& daemon.local_membership matches Some(local) ==> {
                &&& local.protocol == protocol_of(o)
                &&& local.query_interval == o.link.local_query_interval
                &&& local.reporter_timeout == o.link.local_reporter_timeout
                &&& o.link.local_interface is Some ==> local.interface == o.link.local_interface
                &&& o.link.local_interface is None && o.link.downstream is Some ==> local.interface
                    == o.link.downstream->Some_0.interface
                &&& o.link.local_interface is None && o.link.downstream is None
                    ==> local.interface is None
                &&& o.link.local_interface_index is Some ==> local.interface_index
                    == o.link.local_interface_index
                &&& o.link.local_interface_index is None && o.link.downstream is Some
                    ==> local.interface_index == o.link.downstream->Some_0.interface_index
                &&& o.link.local_interface_index is None && o.link.downstream is None
                    ==> local.interface_index is None
            }
        },
{
}

/// A gateway whose options have no problem is refused only for a relay that cannot
/// be found or used, or that is of another family than the address it listens on.
pub proof fn law_gateways_can_be_set_up(
    o: GatewayOptionsModel,
    system: SystemResolvers,
    relay: SocketAddr,
    plan: Option<DriadPlan>,
)
    requires
        options_problem(o) is None,
        relays_resolved(o, all_joins(o), system)
            == Ok::<(SocketAddr, Option<DriadPlan>), CliErrorModel>((relay, plan)),
    ensures
        gateway_plan(o, system) is Ok <==> {
            &&& relay.ip_spec().unicast_spec() && relay.port_spec() > 0
            &&& o.bind is Some ==> (o.bind->Some_0 is V4 <==> relay is V4)
        },
{
}

/// A configuration file sets a gateway's options; what it leaves out has its
/// default.
pub proof fn law_gateway_files_are_taken(file: &FileConfig)
    requires
        file.gateway is Some,
    ensures
        gateway_from_file(Some(file)) is Ok ==> {
            let o = gateway_from_file(Some(file))->Ok_0;
            let section = file.gateway->Some_0;
            &&& o.bind == section.bind && o.relay == section.relay
            &&& o.group == section.group && o.source == section.source
            &&& o.ecn <==> section.ecn == Some(true)
            &&& section.relay_discovery is None ==> o.relay_discovery is Static
            &&& section.relay_discovery is Some ==> named_discovery(
                section.relay_discovery->Some_0@,
            ) == Ok::<GatewayRelayDiscovery, CliErrorModel>(o.relay_discovery)
            &&& section.protocol is None ==> o.protocol is None
            &&& section.protocol is Some ==> o.protocol is Some && named_protocol(
                section.protocol->Some_0@,
            ) == Ok::<MembershipProtocol, CliErrorModel>(o.protocol->Some_0)
            &&& driad_from_file(section.driad) == Ok::<DriadOptionsModel, CliErrorModel>(o.driad)
            &&& metrics_from_file(Some(file)) == Ok::<MetricsModel, CliErrorModel>(o.metrics)
            &&& o.joins.len() == section.joins@.len()
            &&& forall|i: int|
                0 <= i < section.joins@.len() ==> (#[trigger] o.joins[i]).group
                    == section.joins@[i].group && o.joins[i].source == section.joins@[i].source
            &&& section.transparent is Some ==> o.transparent == section.transparent->Some_0
            &&& section.transparent is None ==> (o.transparent <==> section.local_membership is Some)
            &&& section.membership_refresh_interval_secs is None ==> o.membership_refresh_interval
                == Some(Duration::secs_spec(60))
            &&& section.membership_refresh_interval_secs == Some(0u64)
                ==> o.membership_refresh_interval is None
            &&& section.membership_refresh_interval_secs is Some
                && section.membership_refresh_interval_secs->Some_0 > 0
                ==> o.membership_refresh_interval == Some(
                Duration::secs_spec(section.membership_refresh_interval_secs->Some_0),
            )
        },
        gateway_from_file(Some(file)) is Err <==> {
            let section = file.gateway->Some_0;
            ||| section.relay_discovery is Some && named_discovery(
                section.relay_discovery->Some_0@,
            ) is Err
            ||| section.protocol is Some && named_protocol(section.protocol->Some_0@) is Err
            ||| driad_from_file(section.driad) is Err
            ||| metrics_from_file(Some(file)) is Err
            ||| section.downstream is Some && section.downstream->Some_0.ttl is Some
            ||| section.local_membership is Some
                && section.local_membership->Some_0.reporter_timeout_secs == Some(0u64)
        },
{
}

/// A configuration file sets how a gateway meets its hosts. The interval between
/// its queries stands with what else is said of the hosts, or by itself; zero
/// turns queries off.
pub proof fn law_links_are_taken_from_files(file: &FileConfig)
    requires
        file.gateway is Some,
        gateway_from_file(Some(file)) is Ok,
    ensures
        ({
            let link = gateway_from_file(Some(file))->Ok_0.link;
            let section = file.gateway->Some_0;
            let local = section.local_membership;
            let down = section.downstream;
            let seconds = if local is Some && local->Some_0.query_interval_secs is Some {
                local->Some_0.query_interval_secs
            } else {
                section.local_query_interval_secs
            };
            &&& local is Some ==> link.local_interface == local->Some_0.interface
                && link.local_interface_index == local->Some_0.interface_index
            &&& local is None ==> link.local_interface is None && link.local_interface_index is None
            &&& seconds is None ==> link.local_query_interval == Some(Duration::secs_spec(30))
            &&& seconds == Some(0u64) ==> link.local_query_interval is None
            &&& seconds is Some && seconds->Some_0 > 0 ==> link.local_query_interval == Some(
                Duration::secs_spec(seconds->Some_0),
            )
            &&& local is None || local->Some_0.reporter_timeout_secs is None
                ==> link.local_reporter_timeout == Duration::secs_spec(260)
            &&& local is Some && local->Some_0.reporter_timeout_secs is Some
                ==> link.local_reporter_timeout == Duration::secs_spec(
                local->Some_0.reporter_timeout_secs->Some_0,
            )
            &&& link.downstream is None <==> down is None && section.no_downstream == Some(true)
            &&& down is Some ==> link.downstream->Some_0.interface == down->Some_0.interface
                && link.downstream->Some_0.interface_index == down->Some_0.interface_index
                && link.downstream->Some_0.loopback == down->Some_0.loopback
            &&& down is None && link.downstream is Some ==> link.downstream->Some_0.interface is None
                && link.downstream->Some_0.interface_index is None
                && link.downstream->Some_0.loopback is None
        }),
{
}

/// Without a section of its own in a configuration file, or without a file, a
/// gateway has its defaults.
pub proof fn law_gateways_have_defaults(file: Option<&FileConfig>)
    requires
        file is None || file->Some_0.gateway is None,
    ensures
        gateway_from_file(file) is Err <==> metrics_from_file(file) is Err,
        gateway_from_file(file) is Ok ==> {
            let o = gateway_from_file(file)->Ok_0;
            &&& o.bind is None && o.relay is None && o.group is None && o.source is None
            &&& !o.ecn && !o.transparent && o.protocol is None && o.relay_discovery is Static
            &&& o.joins.len() == 0
            &&& o.membership_refresh_interval == Some(Duration::secs_spec(60))
            &&& o.link.local_interface is None && o.link.local_interface_index is None
            &&& o.link.local_query_interval == Some(Duration::secs_spec(30))
            &&& o.link.local_reporter_timeout == Duration::secs_spec(260)
            &&& o.link.downstream is Some && o.link.downstream->Some_0.interface is None
            &&& o.link.downstream->Some_0.interface_index is None
            &&& o.link.downstream->Some_0.loopback is None
        },
{
}

} // verus!
