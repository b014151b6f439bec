//! The gateway's options: from a configuration file, then from the command
//! line.

use crate::cli::{
    ip_value, nonzero_value, number_value, owned, parse_nonzero, positive_value, quote, quoted,
    read_ip, read_number, read_positive, read_socket, said, say, socket_value, words,
    CliError, CliErrorModel, Stepped,
};
use crate::config::DriadFileConfig;
use crate::daemon::{
    GatewayJoin, DEFAULT_DRIAD_MAX_CONCURRENT_PROBES, DEFAULT_DRIAD_MAX_DNS_WORKERS,
    DEFAULT_DRIAD_MAX_SOURCE_TUNNELS,
};
use crate::downstream::DownstreamConfig;
use crate::driad::DNS_PORT;
use crate::metrics::{MetricsConfig, MetricsModel};
use crate::net::{AddressText, IpAddr, SocketAddr};
use crate::protocol::MembershipProtocol;
use crate::relay_options::{
    apply_metrics_arg, metrics_step, optional_seconds, or_else, seconds_or_none, value_at,
};
use crate::text::{number, same_text};
use crate::time::Duration;
use vstd::prelude::*;
use vstd::utf8::encode_utf8;

verus! {

/// How a gateway finds its relays.
#[derive(Debug, Clone, Copy, PartialEq, Eq, Structural)]
pub enum GatewayRelayDiscovery {
    Static,
    Driad,
    Auto,
}

/// Options for the discovery of relays in DNS.
#[derive(Debug, PartialEq, Eq)]
pub struct GatewayDriadOptions {
    pub resolvers: Vec<SocketAddr>,
    pub timeout: Duration,
    pub attempts: usize,
    pub allow_insecure_dns: bool,
    pub max_candidates: usize,
    pub max_queries_per_window: usize,
    pub query_rate_window: Duration,
    pub happy_eyeballs_delay: Duration,
    pub relay_hold_down: Duration,
    pub traffic_hold_down: Duration,
    pub initial_traffic_timeout: Duration,
    pub maximum_traffic_timeout: Duration,
    pub max_source_tunnels: usize,
    pub max_concurrent_probes: usize,
    pub max_dns_workers: usize,
}

/// [`GatewayDriadOptions`] with their parts as mathematical values.
#[verifier::ext_equal]
pub struct DriadOptionsModel {
    pub resolvers: Seq<SocketAddr>,
    pub timeout: Duration,
    pub attempts: int,
    pub allow_insecure_dns: bool,
    pub max_candidates: int,
    pub max_queries_per_window: int,
    pub query_rate_window: Duration,
    pub happy_eyeballs_delay: Duration,
    pub relay_hold_down: Duration,
    pub traffic_hold_down: Duration,
    pub initial_traffic_timeout: Duration,
    pub maximum_traffic_timeout: Duration,
    pub max_source_tunnels: int,
    pub max_concurrent_probes: int,
    pub max_dns_workers: int,
}

impl View for GatewayDriadOptions {
    type V = DriadOptionsModel;

    open spec fn view(&self) -> DriadOptionsModel {
        DriadOptionsModel {
            resolvers: self.resolvers@,
            timeout: self.timeout,
            attempts: self.attempts as int,
            allow_insecure_dns: self.allow_insecure_dns,
            max_candidates: self.max_candidates as int,
            max_queries_per_window: self.max_queries_per_window as int,
            query_rate_window: self.query_rate_window,
            happy_eyeballs_delay: self.happy_eyeballs_delay,
            relay_hold_down: self.relay_hold_down,
            traffic_hold_down: self.traffic_hold_down,
            initial_traffic_timeout: self.initial_traffic_timeout,
            maximum_traffic_timeout: self.maximum_traffic_timeout,
            max_source_tunnels: self.max_source_tunnels as int,
            max_concurrent_probes: self.max_concurrent_probes as int,
            max_dns_workers: self.max_dns_workers as int,
        }
    }
}

/// The options for the discovery of relays unless told otherwise.
pub open spec fn default_driad_options() -> DriadOptionsModel {
    DriadOptionsModel {
        resolvers: Seq::empty(),
        timeout: Duration::secs_spec(1),
        attempts: 2,
        allow_insecure_dns: false,
        max_candidates: 64,
        max_queries_per_window: 10,
        query_rate_window: Duration::millis_spec(100),
        happy_eyeballs_delay: Duration::millis_spec(250),
        relay_hold_down: Duration::secs_spec(600),
        traffic_hold_down: Duration::secs_spec(300),
        initial_traffic_timeout: Duration::secs_spec(4),
        maximum_traffic_timeout: Duration::secs_spec(120),
        max_source_tunnels: 256,
        max_concurrent_probes: 4,
        max_dns_workers: 8,
    }
}

impl Default for GatewayDriadOptions {
    fn default() -> (options: Self)
        ensures
            options@ == default_driad_options(),
    {
        let options = GatewayDriadOptions {
            resolvers: Vec::new(),
            timeout: Duration::from_secs(1),
            attempts: 2,
            allow_insecure_dns: false,
            max_candidates: 64,
            max_queries_per_window: 10,
            query_rate_window: Duration::from_millis(100),
            happy_eyeballs_delay: Duration::from_millis(250),
            relay_hold_down: Duration::from_secs(600),
            traffic_hold_down: Duration::from_secs(300),
            initial_traffic_timeout: Duration::from_secs(4),
            maximum_traffic_timeout: Duration::from_secs(120),
            max_source_tunnels: DEFAULT_DRIAD_MAX_SOURCE_TUNNELS,
            max_concurrent_probes: DEFAULT_DRIAD_MAX_CONCURRENT_PROBES,
            max_dns_workers: DEFAULT_DRIAD_MAX_DNS_WORKERS,
        };
        proof {
            assert(options@.resolvers =~= Seq::empty());
        }
        options
    }
}

/// The resolver that a text names.
pub open spec fn named_resolver(value: AddressText) -> Result<SocketAddr, CliErrorModel> {
    match (value.socket, value.ip) {
        (Some(socket), _) => Ok(socket),
        (None, Some(ip)) => Ok(SocketAddr::of(ip, DNS_PORT)),
        (None, None) => words(
            quoted("invalid DRIAD resolver "@, value.text@) + "; expected IP or IP:PORT"@,
        ),
    }
}

/// The resolver that a text names.
pub fn parse_driad_resolver(value: &AddressText) -> (result: Result<SocketAddr, CliError>)
    ensures
        said(result) == named_resolver(*value),
{
    if let Some(socket) = value.socket {
        return Ok(socket);
    }
    if let Some(ip) = value.ip {
        return Ok(SocketAddr::new(ip, DNS_PORT));
    }
    Err(
        CliError::Message(
            quote("invalid DRIAD resolver ", value.text.as_str()).concat(
                "; expected IP or IP:PORT",
            ),
        ),
    )
}

/// The value of `--driad-resolver`.
pub open spec fn resolver_value(value: Option<AddressText>) -> Result<SocketAddr, CliErrorModel> {
    match value {
        None => words("--driad-resolver requires an IP address"@),
        Some(value) => named_resolver(value),
    }
}

fn read_resolver(value: Option<&AddressText>) -> (result: Result<SocketAddr, CliError>)
    ensures
        said(result) == resolver_value(owned(value)),
{
    match value {
        None => Err(say("--driad-resolver requires an IP address")),
        Some(value) => parse_driad_resolver(value),
    }
}

/// The resolvers that texts name, behind others.
pub open spec fn named_resolvers(found: Seq<SocketAddr>, values: Seq<AddressText>) -> Result<
    Seq<SocketAddr>,
    CliErrorModel,
>
    decreases values.len(),
{
    if values.len() == 0 {
        Ok(found)
    } else {
        match named_resolvers(found, values.drop_last()) {
            Err(error) => Err(error),
            Ok(before) => match named_resolver(values.last()) {
                Err(error) => Err(error),
                Ok(resolver) => Ok(before.push(resolver)),
            },
        }
    }
}

proof fn lemma_bad_resolver_stays(found: Seq<SocketAddr>, values: Seq<AddressText>, n: int)
    requires
        0 <= n <= values.len(),
        named_resolvers(found, values.take(n)) is Err,
    ensures
        named_resolvers(found, values) == named_resolvers(found, values.take(n)),
    decreases values.len() - n,
{
    if n == values.len() {
        assert(values.take(n) =~= values);
    } else {
        assert(values.take(n + 1).drop_last() =~= values.take(n));
        lemma_bad_resolver_stays(found, values, n + 1);
    }
}

/// A span of milliseconds that is set, or another.
pub open spec fn millis_or(millis: Option<u64>, other: Duration) -> Duration {
    match millis {
        Some(millis) => Duration::millis_spec(millis),
        None => other,
    }
}

/// A span of seconds that is set, or another.
pub open spec fn secs_or(seconds: Option<u64>, other: Duration) -> Duration {
    match seconds {
        Some(seconds) => Duration::secs_spec(seconds),
        None => other,
    }
}

/// A count that is set, or another.
pub open spec fn count_or(count: Option<usize>, other: int) -> int {
    match count {
        Some(count) => count as int,
        None => other,
    }
}

fn choose_millis(millis: Option<u64>, other: Duration) -> (span: Duration)
    ensures
        span == millis_or(millis, other),
{
    match millis {
        Some(millis) => Duration::from_millis(millis),
        None => other,
    }
}

fn choose_secs(seconds: Option<u64>, other: Duration) -> (span: Duration)
    ensures
        span == secs_or(seconds, other),
{
    match seconds {
        Some(seconds) => Duration::from_secs(seconds),
        None => other,
    }
}

fn choose_count(count: Option<usize>, other: usize) -> (chosen: usize)
    ensures
        chosen == count_or(count, other as int),
{
    match count {
        Some(count) => count,
        None => other,
    }
}

/// The options that a section on the discovery of relays sets.
pub open spec fn driad_of_section(config: DriadFileConfig) -> DriadOptionsModel {
    let base = default_driad_options();
    DriadOptionsModel {
        resolvers: base.resolvers,
        timeout: millis_or(config.timeout_ms, base.timeout),
        attempts: count_or(config.attempts, base.attempts),
        allow_insecure_dns: or_else(config.allow_insecure_dns, false),
        max_candidates: count_or(config.max_candidates, base.max_candidates),
        max_queries_per_window: count_or(config.max_queries_per_window, base.max_queries_per_window),
        query_rate_window: millis_or(config.query_rate_window_ms, base.query_rate_window),
        happy_eyeballs_delay: millis_or(config.happy_eyeballs_delay_ms, base.happy_eyeballs_delay),
        relay_hold_down: secs_or(config.relay_hold_down_secs, base.relay_hold_down),
        traffic_hold_down: secs_or(config.traffic_hold_down_secs, base.traffic_hold_down),
        initial_traffic_timeout: secs_or(config.initial_traffic_timeout_secs, base.initial_traffic_timeout),
        maximum_traffic_timeout: secs_or(config.maximum_traffic_timeout_secs, base.maximum_traffic_timeout),
        max_source_tunnels: count_or(config.max_source_tunnels, base.max_source_tunnels),
        max_concurrent_probes: count_or(config.max_concurrent_probes, base.max_concurrent_probes),
        max_dns_workers: count_or(config.max_dns_workers, base.max_dns_workers),
    }
}

/// The options for the discovery of relays that a configuration file sets.
pub open spec fn driad_from_file(config: Option<DriadFileConfig>) -> Result<
    DriadOptionsModel,
    CliErrorModel,
> {
    match config {
        None => Ok(default_driad_options()),
        Some(config) => {
            let resolvers = match config.resolvers {
                Some(values) => named_resolvers(Seq::empty(), values.values()),
                None => Ok(Seq::empty()),
            };
            match resolvers {
                Err(error) => Err(error),
                Ok(resolvers) => if config.timeout_ms == Some(0u64) {
                    words("gateway.driad.timeout_ms must not be 0"@)
                } else if config.attempts == Some(0usize) {
                    words("gateway.driad.attempts must not be 0"@)
                } else {
                    Ok(DriadOptionsModel { resolvers, ..driad_of_section(config) })
                },
            }
        },
    }
}

fn read_resolvers(values: &crate::config::OneOrMany<AddressText>) -> (result: Result<
    Vec<SocketAddr>,
    CliError,
>)
    ensures
        match result {
            Ok(found) => named_resolvers(Seq::empty(), values.values()) == Ok::<
                Seq<SocketAddr>,
                CliErrorModel,
            >(found@),
            Err(error) => named_resolvers(Seq::empty(), values.values()) == Err::<
                Seq<SocketAddr>,
                CliErrorModel,
            >(error@),
        },
{
    let mut found: Vec<SocketAddr> = Vec::new();
    let count: usize = values.len();
    let ghost all = values.values();
    let mut i: usize = 0;
    proof {
        assert(found@ =~= Seq::empty());
        assert(all.take(0) =~= Seq::empty());
    }
    while i < count
        invariant
            all == values.values(),
            count == all.len(),
            i <= count,
            named_resolvers(Seq::empty(), all.take(i as int)) == Ok::<
                Seq<SocketAddr>,
                CliErrorModel,
            >(found@),
        decreases count - i,
    {
        proof {
            assert(all.take(i + 1).drop_last() =~= all.take(i as int));
        }
        match parse_driad_resolver(values.at(i)) {
            Ok(resolver) => found.push(resolver),
            Err(error) => {
                proof {
                    lemma_bad_resolver_stays(Seq::empty(), all, i + 1);
                }
                return Err(error);
            },
        }
        i += 1;
    }
    proof {
        assert(all.take(i as int) =~= all);
    }
    Ok(found)
}

/// The options for the discovery of relays that a configuration file sets.
pub fn driad_options_from_file(config: Option<&DriadFileConfig>) -> (result: Result<
    GatewayDriadOptions,
    CliError,
>)
    ensures
        match result {
            Ok(options) => driad_from_file(section_copy(config)) == Ok::<
                DriadOptionsModel,
                CliErrorModel,
            >(options@),
            Err(error) => driad_from_file(section_copy(config)) == Err::<
                DriadOptionsModel,
                CliErrorModel,
            >(error@),
        },
{
    let base = GatewayDriadOptions::default();
    let config = match config {
        Some(config) => config,
        None => return Ok(base),
    };
    let resolvers = match &config.resolvers {
        Some(values) => match read_resolvers(values) {
            Ok(found) => found,
            Err(error) => return Err(error),
        },
        None => Vec::new(),
    };
    proof {
        if config.resolvers is None {
            assert(resolvers@ =~= Seq::empty());
        }
    }
    if config.timeout_ms == Some(0u64) {
        return Err(say("gateway.driad.timeout_ms must not be 0"));
    }
    if config.attempts == Some(0usize) {
        return Err(say("gateway.driad.attempts must not be 0"));
    }
    Ok(
        GatewayDriadOptions {
            resolvers,
            allow_insecure_dns: config.allow_insecure_dns.unwrap_or(false),
            timeout: choose_millis(
                config.timeout_ms,
                base.timeout,
            ),
            attempts: choose_count(
                config.attempts,
                base.attempts,
            ),
            max_candidates: choose_count(
                config.max_candidates,
                base.max_candidates,
            ),
            max_queries_per_window: choose_count(
                config.max_queries_per_window,
                base.max_queries_per_window,
            ),
            query_rate_window: choose_millis(
                config.query_rate_window_ms,
                base.query_rate_window,
            ),
            happy_eyeballs_delay: choose_millis(
                config.happy_eyeballs_delay_ms,
                base.happy_eyeballs_delay,
            ),
            relay_hold_down: choose_secs(
                config.relay_hold_down_secs,
                base.relay_hold_down,
            ),
            traffic_hold_down: choose_secs(
                config.traffic_hold_down_secs,
                base.traffic_hold_down,
            ),
            initial_traffic_timeout: choose_secs(
                config.initial_traffic_timeout_secs,
                base.initial_traffic_timeout,
            ),
            maximum_traffic_timeout: choose_secs(
                config.maximum_traffic_timeout_secs,
                base.maximum_traffic_timeout,
            ),
            max_source_tunnels: choose_count(
                config.max_source_tunnels,
                base.max_source_tunnels,
            ),
            max_concurrent_probes: choose_count(
                config.max_concurrent_probes,
                base.max_concurrent_probes,
            ),
            max_dns_workers: choose_count(
                config.max_dns_workers,
                base.max_dns_workers,
            ),
        },
    )
}

/// A section by itself.
pub open spec fn section_copy<T>(section: Option<&T>) -> Option<T> {
    match section {
        Some(section) => Some(*section),
        None => None,
    }
}

/// What is wrong with the options for the discovery of relays.
pub open spec fn driad_options_error(o: DriadOptionsModel) -> Option<Seq<char>> {
    if o.max_candidates == 0 {
        Some("gateway.driad.max_candidates must not be 0"@)
    } else if o.max_queries_per_window == 0 {
        Some("gateway.driad.max_queries_per_window must not be 0"@)
    } else if o.attempts == 0 {
        Some("gateway.driad.attempts must not be 0"@)
    } else if o.max_source_tunnels == 0 {
        Some("gateway.driad.max_source_tunnels must not be 0"@)
    } else if o.max_concurrent_probes == 0 {
        Some("gateway.driad.max_concurrent_probes must not be 0"@)
    } else if o.max_dns_workers == 0 {
        Some("gateway.driad.max_dns_workers must not be 0"@)
    } else if o.timeout.nanos == 0 {
        Some("gateway.driad.timeout_ms must not be 0"@)
    } else if o.query_rate_window.nanos == 0 {
        Some("gateway.driad.query_rate_window_ms must not be 0"@)
    } else if o.happy_eyeballs_delay.nanos == 0 {
        Some("gateway.driad.happy_eyeballs_delay_ms must not be 0"@)
    } else if o.relay_hold_down.nanos == 0 {
        Some("gateway.driad.relay_hold_down_secs must not be 0"@)
    } else if o.traffic_hold_down.nanos == 0 {
        Some("gateway.driad.traffic_hold_down_secs must not be 0"@)
    } else if o.initial_traffic_timeout.nanos == 0 {
        Some("gateway.driad.initial_traffic_timeout_secs must not be 0"@)
    } else if o.maximum_traffic_timeout.nanos == 0 {
        Some("gateway.driad.maximum_traffic_timeout_secs must not be 0"@)
    } else if o.maximum_traffic_timeout.nanos < o.initial_traffic_timeout.nanos {
        Some(
            "gateway.driad.maximum_traffic_timeout_secs must be at least initial_traffic_timeout_secs"@,
        )
    } else {
        None
    }
}

/// Checks the options for the discovery of relays.
pub fn validate_driad_options(o: &GatewayDriadOptions) -> (result: Result<(), CliError>)
    ensures
        said(result) == match driad_options_error(o@) {
            Some(text) => words::<()>(text),
            None => Ok(()),
        },
{
    if o.max_candidates == 0 {
        Err(say("gateway.driad.max_candidates must not be 0"))
    } else if o.max_queries_per_window == 0 {
        Err(say("gateway.driad.max_queries_per_window must not be 0"))
    } else if o.attempts == 0 {
        Err(say("gateway.driad.attempts must not be 0"))
    } else if o.max_source_tunnels == 0 {
        Err(say("gateway.driad.max_source_tunnels must not be 0"))
    } else if o.max_concurrent_probes == 0 {
        Err(say("gateway.driad.max_concurrent_probes must not be 0"))
    } else if o.max_dns_workers == 0 {
        Err(say("gateway.driad.max_dns_workers must not be 0"))
    } else if o.timeout.is_zero() {
        Err(say("gateway.driad.timeout_ms must not be 0"))
    } else if o.query_rate_window.is_zero() {
        Err(say("gateway.driad.query_rate_window_ms must not be 0"))
    } else if o.happy_eyeballs_delay.is_zero() {
        Err(say("gateway.driad.happy_eyeballs_delay_ms must not be 0"))
    } else if o.relay_hold_down.is_zero() {
        Err(say("gateway.driad.relay_hold_down_secs must not be 0"))
    } else if o.traffic_hold_down.is_zero() {
        Err(say("gateway.driad.traffic_hold_down_secs must not be 0"))
    } else if o.initial_traffic_timeout.is_zero() {
        Err(say("gateway.driad.initial_traffic_timeout_secs must not be 0"))
    } else if o.maximum_traffic_timeout.is_zero() {
        Err(say("gateway.driad.maximum_traffic_timeout_secs must not be 0"))
    } else if o.maximum_traffic_timeout.nanos < o.initial_traffic_timeout.nanos {
        Err(
            say(
                "gateway.driad.maximum_traffic_timeout_secs must be at least initial_traffic_timeout_secs",
            ),
        )
    } else {
        Ok(())
    }
}

/// What an argument on the discovery of relays does; nothing, if it is about
/// something else.
pub open spec fn driad_step(
    o: DriadOptionsModel,
    name: Seq<char>,
    value: Option<AddressText>,
) -> Option<Result<(DriadOptionsModel, Stepped), CliErrorModel>> {
    if name == "--driad-resolver"@ {
        Some(match resolver_value(value) {
            Err(error) => Err(error),
            Ok(v) => Ok((DriadOptionsModel { resolvers: o.resolvers.push(v), ..o }, Stepped::Valued)),
        })
    } else if name == "--driad-timeout-ms"@ {
        Some(match positive_value(value, "--driad-timeout-ms requires milliseconds"@, "invalid --driad-timeout-ms "@, "--driad-timeout-ms must not be 0"@, u64::MAX) {
            Err(error) => Err(error),
            Ok(v) => Ok((DriadOptionsModel { timeout: Duration::millis_spec(v), ..o }, Stepped::Valued)),
        })
    } else if name == "--driad-attempts"@ {
        Some(match positive_value(value, "--driad-attempts requires a positive count"@, "invalid --driad-attempts "@, "--driad-attempts must not be 0"@, usize::MAX as u64) {
            Err(error) => Err(error),
            Ok(v) => Ok((DriadOptionsModel { attempts: v as int, ..o }, Stepped::Valued)),
        })
    } else if name == "--driad-allow-insecure-dns"@ {
        Some(Ok((DriadOptionsModel { allow_insecure_dns: true, ..o }, Stepped::Flag)))
    } else if name == "--driad-max-candidates"@ {
        Some(match nonzero_value(value, "--driad-max-candidates"@, usize::MAX as u64) {
            Err(error) => Err(error),
            Ok(v) => Ok((DriadOptionsModel { max_candidates: v as int, ..o }, Stepped::Valued)),
        })
    } else if name == "--driad-max-queries"@ {
        Some(match nonzero_value(value, "--driad-max-queries"@, usize::MAX as u64) {
            Err(error) => Err(error),
            Ok(v) => Ok((DriadOptionsModel { max_queries_per_window: v as int, ..o }, Stepped::Valued)),
        })
    } else if name == "--driad-query-window-ms"@ {
        Some(match nonzero_value(value, "--driad-query-window-ms"@, u64::MAX) {
            Err(error) => Err(error),
            Ok(v) => Ok((DriadOptionsModel { query_rate_window: Duration::millis_spec(v), ..o }, Stepped::Valued)),
        })
    } else if name == "--driad-happy-eyeballs-delay-ms"@ {
        Some(match nonzero_value(value, "--driad-happy-eyeballs-delay-ms"@, u64::MAX) {
            Err(error) => Err(error),
            Ok(v) => Ok((DriadOptionsModel { happy_eyeballs_delay: Duration::millis_spec(v), ..o }, Stepped::Valued)),
        })
    } else if name == "--driad-relay-hold-down"@ {
        Some(match nonzero_value(value, "--driad-relay-hold-down"@, u64::MAX) {
            Err(error) => Err(error),
            Ok(v) => Ok((DriadOptionsModel { relay_hold_down: Duration::secs_spec(v), ..o }, Stepped::Valued)),
        })
    } else if name == "--driad-traffic-hold-down"@ {
        Some(match nonzero_value(value, "--driad-traffic-hold-down"@, u64::MAX) {
            Err(error) => Err(error),
            Ok(v) => Ok((DriadOptionsModel { traffic_hold_down: Duration::secs_spec(v), ..o }, Stepped::Valued)),
        })
    } else if name == "--driad-initial-traffic-timeout"@ {
        Some(match nonzero_value(value, "--driad-initial-traffic-timeout"@, u64::MAX) {
            Err(error) => Err(error),
            Ok(v) => Ok((DriadOptionsModel { initial_traffic_timeout: Duration::secs_spec(v), ..o }, Stepped::Valued)),
        })
    } else if name == "--driad-maximum-traffic-timeout"@ {
        Some(match nonzero_value(value, "--driad-maximum-traffic-timeout"@, u64::MAX) {
            Err(error) => Err(error),
            Ok(v) => Ok((DriadOptionsModel { maximum_traffic_timeout: Duration::secs_spec(v), ..o }, Stepped::Valued)),
        })
    } else if name == "--driad-max-source-tunnels"@ {
        Some(match nonzero_value(value, "--driad-max-source-tunnels"@, usize::MAX as u64) {
            Err(error) => Err(error),
            Ok(v) => Ok((DriadOptionsModel { max_source_tunnels: v as int, ..o }, Stepped::Valued)),
        })
    } else if name == "--driad-max-concurrent-probes"@ {
        Some(match nonzero_value(value, "--driad-max-concurrent-probes"@, usize::MAX as u64) {
            Err(error) => Err(error),
            Ok(v) => Ok((DriadOptionsModel { max_concurrent_probes: v as int, ..o }, Stepped::Valued)),
        })
    } else if name == "--driad-max-dns-workers"@ {
        Some(match nonzero_value(value, "--driad-max-dns-workers"@, usize::MAX as u64) {
            Err(error) => Err(error),
            Ok(v) => Ok((DriadOptionsModel { max_dns_workers: v as int, ..o }, Stepped::Valued)),
        })
    } else {
        None
    }
}

/// Follows an argument on the discovery of relays; does nothing, if it is about
/// something else.
pub fn apply_driad_arg(
    o: &mut GatewayDriadOptions,
    name: &str,
    value: Option<&AddressText>,
) -> (result: Option<Result<Stepped, CliError>>)
    ensures
        match result {
            None => driad_step(old(o)@, name@, owned(value)) is None && final(o)@ == old(o)@,
            Some(Ok(stepped)) => driad_step(old(o)@, name@, owned(value)) == Some(
                Ok::<(DriadOptionsModel, Stepped), CliErrorModel>((final(o)@, stepped)),
            ),
            Some(Err(error)) => driad_step(old(o)@, name@, owned(value)) == Some(
                Err::<(DriadOptionsModel, Stepped), CliErrorModel>(error@),
            ) && final(o)@ == old(o)@,
        },
{
    if same_text(name, "--driad-resolver") {
        Some(match read_resolver(value) {
            Err(error) => Err(error),
            Ok(v) => {
                o.resolvers.push(v);
                Ok(Stepped::Valued)
            },
        })
    } else if same_text(name, "--driad-timeout-ms") {
        Some(match read_positive(value, "--driad-timeout-ms requires milliseconds", "invalid --driad-timeout-ms ", "--driad-timeout-ms must not be 0", u64::MAX) {
            Err(error) => Err(error),
            Ok(v) => {
                o.timeout = Duration::from_millis(v);
                Ok(Stepped::Valued)
            },
        })
    } else if same_text(name, "--driad-attempts") {
        Some(match read_positive(value, "--driad-attempts requires a positive count", "invalid --driad-attempts ", "--driad-attempts must not be 0", usize::MAX as u64) {
            Err(error) => Err(error),
            Ok(v) => {
                o.attempts = v as usize;
                Ok(Stepped::Valued)
            },
        })
    } else if same_text(name, "--driad-allow-insecure-dns") {
        o.allow_insecure_dns = true;
        Some(Ok(Stepped::Flag))
    } else if same_text(name, "--driad-max-candidates") {
        Some(match parse_nonzero(value, "--driad-max-candidates", usize::MAX as u64) {
            Err(error) => Err(error),
            Ok(v) => {
                o.max_candidates = v as usize;
                Ok(Stepped::Valued)
            },
        })
    } else if same_text(name, "--driad-max-queries") {
        Some(match parse_nonzero(value, "--driad-max-queries", usize::MAX as u64) {
            Err(error) => Err(error),
            Ok(v) => {
                o.max_queries_per_window = v as usize;
                Ok(Stepped::Valued)
            },
        })
    } else if same_text(name, "--driad-query-window-ms") {
        Some(match parse_nonzero(value, "--driad-query-window-ms", u64::MAX) {
            Err(error) => Err(error),
            Ok(v) => {
                o.query_rate_window = Duration::from_millis(v);
                Ok(Stepped::Valued)
            },
        })
    } else if same_text(name, "--driad-happy-eyeballs-delay-ms") {
        Some(match parse_nonzero(value, "--driad-happy-eyeballs-delay-ms", u64::MAX) {
            Err(error) => Err(error),
            Ok(v) => {
                o.happy_eyeballs_delay = Duration::from_millis(v);
                Ok(Stepped::Valued)
            },
        })
    } else if same_text(name, "--driad-relay-hold-down") {
        Some(match parse_nonzero(value, "--driad-relay-hold-down", u64::MAX) {
            Err(error) => Err(error),
            Ok(v) => {
                o.relay_hold_down = Duration::from_secs(v);
                Ok(Stepped::Valued)
            },
        })
    } else if same_text(name, "--driad-traffic-hold-down") {
        Some(match parse_nonzero(value, "--driad-traffic-hold-down", u64::MAX) {
            Err(error) => Err(error),
            Ok(v) => {
                o.traffic_hold_down = Duration::from_secs(v);
                Ok(Stepped::Valued)
            },
        })
    } else if same_text(name, "--driad-initial-traffic-timeout") {
        Some(match parse_nonzero(value, "--driad-initial-traffic-timeout", u64::MAX) {
            Err(error) => Err(error),
            Ok(v) => {
                o.initial_traffic_timeout = Duration::from_secs(v);
                Ok(Stepped::Valued)
            },
        })
    } else if same_text(name, "--driad-maximum-traffic-timeout") {
        Some(match parse_nonzero(value, "--driad-maximum-traffic-timeout", u64::MAX) {
            Err(error) => Err(error),
            Ok(v) => {
                o.maximum_traffic_timeout = Duration::from_secs(v);
                Ok(Stepped::Valued)
            },
        })
    } else if same_text(name, "--driad-max-source-tunnels") {
        Some(match parse_nonzero(value, "--driad-max-source-tunnels", usize::MAX as u64) {
            Err(error) => Err(error),
            Ok(v) => {
                o.max_source_tunnels = v as usize;
                Ok(Stepped::Valued)
            },
        })
    } else if same_text(name, "--driad-max-concurrent-probes") {
        Some(match parse_nonzero(value, "--driad-max-concurrent-probes", usize::MAX as u64) {
            Err(error) => Err(error),
            Ok(v) => {
                o.max_concurrent_probes = v as usize;
                Ok(Stepped::Valued)
            },
        })
    } else if same_text(name, "--driad-max-dns-workers") {
        Some(match parse_nonzero(value, "--driad-max-dns-workers", usize::MAX as u64) {
            Err(error) => Err(error),
            Ok(v) => {
                o.max_dns_workers = v as usize;
                Ok(Stepped::Valued)
            },
        })
    } else {
        None
    }
}

/// How a relay is found, by its name.
pub open spec fn named_discovery(text: Seq<char>) -> Result<GatewayRelayDiscovery, CliErrorModel> {
    if text == "static"@ {
        Ok(GatewayRelayDiscovery::Static)
    } else if text == "driad"@ {
        Ok(GatewayRelayDiscovery::Driad)
    } else if text == "auto"@ {
        Ok(GatewayRelayDiscovery::Auto)
    } else {
        words(
            quoted("invalid relay discovery mode "@, text)
                + "; expected static, driad, or auto"@,
        )
    }
}

/// How a relay is found, by its name.
pub fn parse_relay_discovery(text: &str) -> (result: Result<GatewayRelayDiscovery, CliError>)
    ensures
        said(result) == named_discovery(text@),
{
    if same_text(text, "static") {
        Ok(GatewayRelayDiscovery::Static)
    } else if same_text(text, "driad") {
        Ok(GatewayRelayDiscovery::Driad)
    } else if same_text(text, "auto") {
        Ok(GatewayRelayDiscovery::Auto)
    } else {
        Err(
            CliError::Message(
                quote("invalid relay discovery mode ", text).concat(
                    "; expected static, driad, or auto",
                ),
            ),
        )
    }
}

/// The value of `--relay-discovery`.
pub open spec fn discovery_value(value: Option<AddressText>) -> Result<
    GatewayRelayDiscovery,
    CliErrorModel,
> {
    match value {
        None => words("--relay-discovery requires static, driad, or auto"@),
        Some(value) => named_discovery(value.text@),
    }
}

fn read_discovery(value: Option<&AddressText>) -> (result: Result<GatewayRelayDiscovery, CliError>)
    ensures
        said(result) == discovery_value(owned(value)),
{
    match value {
        None => Err(say("--relay-discovery requires static, driad, or auto")),
        Some(value) => parse_relay_discovery(value.text.as_str()),
    }
}

/// A membership protocol, by one of its names.
pub open spec fn named_protocol(text: Seq<char>) -> Result<MembershipProtocol, CliErrorModel> {
    if text == "igmp"@ || text == "igmpv3"@ || text == "ipv4"@ {
        Ok(MembershipProtocol::Igmpv3)
    } else if text == "mld"@ || text == "mldv2"@ || text == "ipv6"@ {
        Ok(MembershipProtocol::Mldv2)
    } else {
        words(quoted("invalid --protocol "@, text))
    }
}

/// A membership protocol, by one of its names.
pub fn parse_protocol(text: &str) -> (result: Result<MembershipProtocol, CliError>)
    ensures
        said(result) == named_protocol(text@),
{
    if same_text(text, "igmp") || same_text(text, "igmpv3") || same_text(text, "ipv4") {
        Ok(MembershipProtocol::Igmpv3)
    } else if same_text(text, "mld") || same_text(text, "mldv2") || same_text(text, "ipv6") {
        Ok(MembershipProtocol::Mldv2)
    } else {
        Err(CliError::Message(quote("invalid --protocol ", text)))
    }
}

/// The value of `--protocol`.
pub open spec fn protocol_value(value: Option<AddressText>) -> Result<
    MembershipProtocol,
    CliErrorModel,
> {
    match value {
        None => words("--protocol requires igmpv3 or mldv2"@),
        Some(value) => named_protocol(value.text@),
    }
}

fn read_protocol(value: Option<&AddressText>) -> (result: Result<MembershipProtocol, CliError>)
    ensures
        said(result) == protocol_value(owned(value)),
{
    match value {
        None => Err(say("--protocol requires igmpv3 or mldv2")),
        Some(value) => parse_protocol(value.text.as_str()),
    }
}

/// Options on the gateway's own link: where multicast leaves, and where local
/// hosts are heard.
#[derive(Debug, Clone, Copy, PartialEq, Eq, Structural)]
pub struct LinkOptions {
    pub downstream: Option<DownstreamConfig>,
    pub local_interface: Option<IpAddr>,
    pub local_interface_index: Option<u32>,
    pub local_query_interval: Option<Duration>,
    pub local_reporter_timeout: Duration,
}

/// A downstream that is there, or the default one.
pub open spec fn present(downstream: Option<DownstreamConfig>) -> DownstreamConfig {
    or_else(
        downstream,
        DownstreamConfig { interface: None, interface_index: None, loopback: None },
    )
}

/// The time to live of forwarded packets cannot be set.
pub open spec fn ttl_value() -> Result<(), CliErrorModel> {
    words("--downstream-ttl and gateway.downstream.ttl are unsupported because raw downstream forwarding preserves the complete inner IP header; set the IPv4 TTL or IPv6 Hop Limit at the multicast source"@)
}

fn read_ttl() -> (result: Result<(), CliError>)
    ensures
        said(result) == ttl_value(),
        result is Err,
{
    Err(say("--downstream-ttl and gateway.downstream.ttl are unsupported because raw downstream forwarding preserves the complete inner IP header; set the IPv4 TTL or IPv6 Hop Limit at the multicast source"))
}

/// What an argument on the gateway's own link does; nothing, if it is about
/// something else.
pub open spec fn link_step(
    o: LinkOptions,
    name: Seq<char>,
    value: Option<AddressText>,
) -> Option<Result<(LinkOptions, Stepped), CliErrorModel>> {
    if name == "--local-membership-interface"@ {
        Some(match ip_value(value, "--local-membership-interface requires an IP address"@, "invalid --local-membership-interface "@) {
            Err(error) => Err(error),
            Ok(v) => Ok((LinkOptions { local_interface: Some(v), ..o }, Stepped::Valued)),
        })
    } else if name == "--local-membership-ifindex"@ {
        Some(match positive_value(value, "--local-membership-ifindex requires a non-zero interface index"@, "invalid --local-membership-ifindex "@, "--local-membership-ifindex must not be 0"@, 4294967295) {
            Err(error) => Err(error),
            Ok(v) => Ok((LinkOptions { local_interface_index: Some(v as u32), ..o }, Stepped::Valued)),
        })
    } else if name == "--local-query-interval"@ {
        Some(match number_value(value, "--local-query-interval requires seconds, or 0 to disable queries"@, "invalid --local-query-interval "@, u64::MAX) {
            Err(error) => Err(error),
            Ok(v) => Ok((LinkOptions { local_query_interval: seconds_or_none(v), ..o }, Stepped::Valued)),
        })
    } else if name == "--local-reporter-timeout"@ {
        Some(match positive_value(value, "--local-reporter-timeout requires a positive number of seconds"@, "invalid --local-reporter-timeout "@, "--local-reporter-timeout must not be 0"@, u64::MAX) {
            Err(error) => Err(error),
            Ok(v) => Ok((LinkOptions { local_reporter_timeout: Duration::secs_spec(v), ..o }, Stepped::Valued)),
        })
    } else if name == "--downstream-interface"@ {
        Some(match ip_value(value, "--downstream-interface requires an IP address"@, "invalid --downstream-interface "@) {
            Err(error) => Err(error),
            Ok(v) => Ok((LinkOptions { downstream: Some(DownstreamConfig { interface: Some(v), ..present(o.downstream) }), ..o }, Stepped::Valued)),
        })
    } else if name == "--downstream-ifindex"@ {
        Some(match positive_value(value, "--downstream-ifindex requires a non-zero interface index"@, "invalid --downstream-ifindex "@, "--downstream-ifindex must not be 0"@, 4294967295) {
            Err(error) => Err(error),
            Ok(v) => Ok((LinkOptions { downstream: Some(DownstreamConfig { interface_index: Some(v as u32), ..present(o.downstream) }), ..o }, Stepped::Valued)),
        })
    } else if name == "--downstream-ttl"@ {
        Some(match ttl_value() {
            Err(error) => Err(error),
            Ok(v) => Ok((o, Stepped::Valued)),
        })
    } else if name == "--no-downstream-loopback"@ {
        Some(Ok((LinkOptions { downstream: Some(DownstreamConfig { loopback: Some(false), ..present(o.downstream) }), ..o }, Stepped::Flag)))
    } else if name == "--no-downstream"@ {
        Some(Ok((LinkOptions { downstream: None, ..o }, Stepped::Flag)))
    } else {
        None
    }
}

/// Follows an argument on the gateway's own link; does nothing, if it is about
/// something else.
pub fn apply_link_arg(o: &mut LinkOptions, name: &str, value: Option<&AddressText>) -> (result:
    Option<Result<Stepped, CliError>>)
    ensures
        match result {
            None => link_step(*old(o), name@, owned(value)) is None && *final(o) == *old(o),
            Some(Ok(stepped)) => link_step(*old(o), name@, owned(value)) == Some(
                Ok::<(LinkOptions, Stepped), CliErrorModel>((*final(o), stepped)),
            ),
            Some(Err(error)) => link_step(*old(o), name@, owned(value)) == Some(
                Err::<(LinkOptions, Stepped), CliErrorModel>(error@),
            ) && *final(o) == *old(o),
        },
{
    if same_text(name, "--local-membership-interface") {
        Some(match read_ip(value, "--local-membership-interface requires an IP address", "invalid --local-membership-interface ") {
            Err(error) => Err(error),
            Ok(v) => {
                o.local_interface = Some(v);
                Ok(Stepped::Valued)
            },
        })
    } else if same_text(name, "--local-membership-ifindex") {
        Some(match read_positive(value, "--local-membership-ifindex requires a non-zero interface index", "invalid --local-membership-ifindex ", "--local-membership-ifindex must not be 0", 4294967295) {
            Err(error) => Err(error),
            Ok(v) => {
                o.local_interface_index = Some(v as u32);
                Ok(Stepped::Valued)
            },
        })
    } else if same_text(name, "--local-query-interval") {
        Some(match read_number(value, "--local-query-interval requires seconds, or 0 to disable queries", "invalid --local-query-interval ", u64::MAX) {
            Err(error) => Err(error),
            Ok(v) => {
                o.local_query_interval = optional_seconds(v);
                Ok(Stepped::Valued)
            },
        })
    } else if same_text(name, "--local-reporter-timeout") {
        Some(match read_positive(value, "--local-reporter-timeout requires a positive number of seconds", "invalid --local-reporter-timeout ", "--local-reporter-timeout must not be 0", u64::MAX) {
            Err(error) => Err(error),
            Ok(v) => {
                o.local_reporter_timeout = Duration::from_secs(v);
                Ok(Stepped::Valued)
            },
        })
    } else if same_text(name, "--downstream-interface") {
        Some(match read_ip(value, "--downstream-interface requires an IP address", "invalid --downstream-interface ") {
            Err(error) => Err(error),
            Ok(v) => {
                let mut downstream = o.downstream.unwrap_or(DownstreamConfig::default());
                downstream.interface = Some(v);
                o.downstream = Some(downstream);
                Ok(Stepped::Valued)
            },
        })
    } else if same_text(name, "--downstream-ifindex") {
        Some(match read_positive(value, "--downstream-ifindex requires a non-zero interface index", "invalid --downstream-ifindex ", "--downstream-ifindex must not be 0", 4294967295) {
            Err(error) => Err(error),
            Ok(v) => {
                let mut downstream = o.downstream.unwrap_or(DownstreamConfig::default());
                downstream.interface_index = Some(v as u32);
                o.downstream = Some(downstream);
                Ok(Stepped::Valued)
            },
        })
    } else if same_text(name, "--downstream-ttl") {
        Some(match read_ttl() {
            Err(error) => Err(error),
            Ok(v) => {
                let _unit: () = v;
                Ok(Stepped::Valued)
            },
        })
    } else if same_text(name, "--no-downstream-loopback") {
        let mut downstream = o.downstream.unwrap_or(DownstreamConfig::default());
        downstream.loopback = Some(false);
        o.downstream = Some(downstream);
        Some(Ok(Stepped::Flag))
    } else if same_text(name, "--no-downstream") {
        o.downstream = None;
        Some(Ok(Stepped::Flag))
    } else {
        None
    }
}

/// A gateway's options.
#[derive(Debug, PartialEq, Eq)]
pub struct GatewayOptions {
    pub bind: Option<SocketAddr>,
    pub ecn: bool,
    pub relay: Option<SocketAddr>,
    pub relay_discovery: GatewayRelayDiscovery,
    pub driad: GatewayDriadOptions,
    pub protocol: Option<MembershipProtocol>,
    pub group: Option<IpAddr>,
    pub source: Option<IpAddr>,
    pub joins: Vec<GatewayJoin>,
    pub transparent: bool,
    pub link: LinkOptions,
    pub membership_refresh_interval: Option<Duration>,
    pub metrics: MetricsConfig,
}

/// [`GatewayOptions`] with their parts as mathematical values.
#[verifier::ext_equal]
pub struct GatewayOptionsModel {
    pub bind: Option<SocketAddr>,
    pub ecn: bool,
    pub relay: Option<SocketAddr>,
    pub relay_discovery: GatewayRelayDiscovery,
    pub driad: DriadOptionsModel,
    pub protocol: Option<MembershipProtocol>,
    pub group: Option<IpAddr>,
    pub source: Option<IpAddr>,
    pub joins: Seq<GatewayJoin>,
    pub transparent: bool,
    pub link: LinkOptions,
    pub membership_refresh_interval: Option<Duration>,
    pub metrics: MetricsModel,
}

impl View for GatewayOptions {
    type V = GatewayOptionsModel;

    open spec fn view(&self) -> GatewayOptionsModel {
        GatewayOptionsModel {
            bind: self.bind,
            ecn: self.ecn,
            relay: self.relay,
            relay_discovery: self.relay_discovery,
            driad: self.driad@,
            protocol: self.protocol,
            group: self.group,
            source: self.source,
            joins: self.joins@,
            transparent: self.transparent,
            link: self.link,
            membership_refresh_interval: self.membership_refresh_interval,
            metrics: self.metrics@,
        }
    }
}

/// What an argument that is neither about reports, nor about discovery, nor
/// about the gateway's own link does.
pub open spec fn gateway_own_step(
    o: GatewayOptionsModel,
    name: Seq<char>,
    value: Option<AddressText>,
) -> Result<(GatewayOptionsModel, Stepped), CliErrorModel> {
    if name == "--bind"@ {
        match socket_value(value, "--bind requires an address like 0.0.0.0:0"@, "invalid --bind address "@) {
            Err(error) => Err(error),
            Ok(v) => Ok((GatewayOptionsModel { bind: Some(v), ..o }, Stepped::Valued)),
        }
    } else if name == "--relay"@ {
        match socket_value(value, "--relay requires an address like 198.51.100.1:2268"@, "invalid --relay address "@) {
            Err(error) => Err(error),
            Ok(v) => Ok((GatewayOptionsModel { relay: Some(v), ..o }, Stepped::Valued)),
        }
    } else if name == "--relay-discovery"@ {
        match discovery_value(value) {
            Err(error) => Err(error),
            Ok(v) => Ok((GatewayOptionsModel { relay_discovery: v, ..o }, Stepped::Valued)),
        }
    } else if name == "--ecn"@ {
        Ok((GatewayOptionsModel { ecn: true, ..o }, Stepped::Flag))
    } else if name == "--no-ecn"@ {
        Ok((GatewayOptionsModel { ecn: false, ..o }, Stepped::Flag))
    } else if name == "--protocol"@ {
        match protocol_value(value) {
            Err(error) => Err(error),
            Ok(v) => Ok((GatewayOptionsModel { protocol: Some(v), ..o }, Stepped::Valued)),
        }
    } else if name == "--group"@ {
        match ip_value(value, "--group requires a multicast IP address"@, "invalid --group address "@) {
            Err(error) => Err(error),
            Ok(v) => Ok((GatewayOptionsModel { group: Some(v), ..o }, Stepped::Valued)),
        }
    } else if name == "--source"@ {
        match ip_value(value, "--source requires a source IP address"@, "invalid --source address "@) {
            Err(error) => Err(error),
            Ok(v) => Ok((GatewayOptionsModel { source: Some(v), ..o }, Stepped::Valued)),
        }
    } else if name == "--transparent"@ {
        Ok((GatewayOptionsModel { transparent: true, ..o }, Stepped::Flag))
    } else if name == "--membership-refresh-interval"@ {
        match number_value(value, "--membership-refresh-interval requires seconds, or 0 to disable refreshes"@, "invalid --membership-refresh-interval "@, u64::MAX) {
            Err(error) => Err(error),
            Ok(v) => Ok((GatewayOptionsModel { membership_refresh_interval: seconds_or_none(v), ..o }, Stepped::Valued)),
        }
    } else if name == "-h"@ || name == "--help"@ {
        Ok((o, Stepped::Help))
    } else {
        Err(CliErrorModel::UnknownGatewayArgument(name))
    }
}

/// What an argument does to the gateway's options.
pub open spec fn gateway_step(
    o: GatewayOptionsModel,
    name: Seq<char>,
    value: Option<AddressText>,
) -> Result<(GatewayOptionsModel, Stepped), CliErrorModel> {
    match metrics_step(o.metrics, name, value) {
        Some(Ok((metrics, stepped))) => Ok((GatewayOptionsModel { metrics, ..o }, stepped)),
        Some(Err(error)) => Err(error),
        None => match driad_step(o.driad, name, value) {
            Some(Ok((driad, stepped))) => Ok((GatewayOptionsModel { driad, ..o }, stepped)),
            Some(Err(error)) => Err(error),
            None => match link_step(o.link, name, value) {
                Some(Ok((link, stepped))) => Ok((GatewayOptionsModel { link, ..o }, stepped)),
                Some(Err(error)) => Err(error),
                None => gateway_own_step(o, name, value),
            },
        },
    }
}

fn apply_gateway_own_arg(o: &mut GatewayOptions, name: &str, value: Option<&AddressText>) -> (
    result: Result<Stepped, CliError>)
    ensures
        match result {
            Ok(stepped) => gateway_own_step(old(o)@, name@, owned(value)) == Ok::<
                (GatewayOptionsModel, Stepped),
                CliErrorModel,
            >((final(o)@, stepped)),
            Err(error) => gateway_own_step(old(o)@, name@, owned(value)) == Err::<
                (GatewayOptionsModel, Stepped),
                CliErrorModel,
            >(error@) && final(o)@ == old(o)@,
        },
{
    if same_text(name, "--bind") {
        match read_socket(value, "--bind requires an address like 0.0.0.0:0", "invalid --bind address ") {
            Err(error) => Err(error),
            Ok(v) => {
                o.bind = Some(v);
                Ok(Stepped::Valued)
            },
        }
    } else if same_text(name, "--relay") {
        match read_socket(value, "--relay requires an address like 198.51.100.1:2268", "invalid --relay address ") {
            Err(error) => Err(error),
            Ok(v) => {
                o.relay = Some(v);
                Ok(Stepped::Valued)
            },
        }
    } else if same_text(name, "--relay-discovery") {
        match read_discovery(value) {
            Err(error) => Err(error),
            Ok(v) => {
                o.relay_discovery = v;
                Ok(Stepped::Valued)
            },
        }
    } else if same_text(name, "--ecn") {
        o.ecn = true;
        Ok(Stepped::Flag)
    } else if same_text(name, "--no-ecn") {
        o.ecn = false;
        Ok(Stepped::Flag)
    } else if same_text(name, "--protocol") {
        match read_protocol(value) {
            Err(error) => Err(error),
            Ok(v) => {
                o.protocol = Some(v);
                Ok(Stepped::Valued)
            },
        }
    } else if same_text(name, "--group") {
        match read_ip(value, "--group requires a multicast IP address", "invalid --group address ") {
            Err(error) => Err(error),
            Ok(v) => {
                o.group = Some(v);
                Ok(Stepped::Valued)
            },
        }
    } else if same_text(name, "--source") {
        match read_ip(value, "--source requires a source IP address", "invalid --source address ") {
            Err(error) => Err(error),
            Ok(v) => {
                o.source = Some(v);
                Ok(Stepped::Valued)
            },
        }
    } else if same_text(name, "--transparent") {
        o.transparent = true;
        Ok(Stepped::Flag)
    } else if same_text(name, "--membership-refresh-interval") {
        match read_number(value, "--membership-refresh-interval requires seconds, or 0 to disable refreshes", "invalid --membership-refresh-interval ", u64::MAX) {
            Err(error) => Err(error),
            Ok(v) => {
                o.membership_refresh_interval = optional_seconds(v);
                Ok(Stepped::Valued)
            },
        }
    } else if same_text(name, "-h") || same_text(name, "--help") {
        Ok(Stepped::Help)
    } else {
        Err(CliError::UnknownGatewayArgument(name.to_owned()))
    }
}

/// Follows one argument.
pub fn apply_gateway_arg(o: &mut GatewayOptions, name: &str, value: Option<&AddressText>) -> (
    result: Result<Stepped, CliError>)
    ensures
        match result {
            Ok(stepped) => gateway_step(old(o)@, name@, owned(value)) == Ok::<
                (GatewayOptionsModel, Stepped),
                CliErrorModel,
            >((final(o)@, stepped)),
            Err(error) => gateway_step(old(o)@, name@, owned(value)) == Err::<
                (GatewayOptionsModel, Stepped),
                CliErrorModel,
            >(error@) && final(o)@ == old(o)@,
        },
{
    if let Some(result) = apply_metrics_arg(&mut o.metrics, name, value) {
        return result;
    }
    if let Some(result) = apply_driad_arg(&mut o.driad, name, value) {
        return result;
    }
    if let Some(result) = apply_link_arg(&mut o.link, name, value) {
        return result;
    }
    apply_gateway_own_arg(o, name, value)
}

/// The gateway's options after the arguments from a place on; none, where help
/// is asked for.
pub open spec fn gateway_args(o: GatewayOptionsModel, args: Seq<AddressText>, i: int) -> Result<
    Option<GatewayOptionsModel>,
    CliErrorModel,
>
    decreases args.len() - i,
{
    if i < 0 || i >= args.len() {
        Ok(Some(o))
    } else {
        match gateway_step(o, args[i].text@, value_at(args, i + 1)) {
            Err(error) => Err(error),
            Ok((next, stepped)) => match stepped {
                Stepped::Help => Ok(None),
                Stepped::Flag => gateway_args(next, args, i + 1),
                Stepped::Valued => gateway_args(next, args, i + 2),
            },
        }
    }
}

/// Follows all arguments; gives none, where help is asked for.
pub fn apply_gateway_args(options: GatewayOptions, args: &Vec<AddressText>) -> (result: Result<
    Option<GatewayOptions>,
    CliError,
>)
    ensures
        match result {
            Ok(Some(after)) => gateway_args(options@, args@, 0) == Ok::<
                Option<GatewayOptionsModel>,
                CliErrorModel,
            >(Some(after@)),
            Ok(None) => gateway_args(options@, args@, 0) == Ok::<
                Option<GatewayOptionsModel>,
                CliErrorModel,
            >(None),
            Err(error) => gateway_args(options@, args@, 0) == Err::<
                Option<GatewayOptionsModel>,
                CliErrorModel,
            >(error@),
        },
{
    let length: usize = args.len();
    let mut o: GatewayOptions = options;
    let mut i: usize = 0;
    while i < length
        invariant
            length == args@.len(),
            gateway_args(options@, args@, 0) == gateway_args(o@, args@, i as int),
        decreases length - i,
    {
        let value: Option<&AddressText> = if length - i > 1 {
            Some(&args[i + 1])
        } else {
            None
        };
        match apply_gateway_arg(&mut o, args[i].text.as_str(), value) {
            Err(error) => return Err(error),
            Ok(Stepped::Help) => return Ok(None),
            Ok(Stepped::Flag) => {
                i += 1;
            },
            Ok(Stepped::Valued) => {
                if length - i < 2 {
                    return Ok(Some(o));
                }
                i += 2;
            },
        }
    }
    Ok(Some(o))
}

proof fn lemma_gateway_arguments_have_their_own_names()
    ensures
        "--bind"@.len() == 6,
        "--relay"@.len() == 7,
        "--group"@.len() == 7,
        "--source"@.len() == 8,
        "--metrics-dir"@.len() == 13,
        "--node-id"@.len() == 9,
        "--metrics-interval-ms"@.len() == 21,
        "--local-membership-interface"@.len() == 28,
        "--local-membership-ifindex"@.len() == 26,
        "--local-reporter-timeout"@.len() == 24,
        "--driad-timeout-ms"@.len() == 18,
        "--driad-attempts"@.len() == 16,
        "--driad-max-candidates"@.len() == 22,
        "--driad-max-queries"@.len() == 19,
        "--driad-query-window-ms"@.len() == 23,
        "--driad-happy-eyeballs-delay-ms"@.len() == 31,
        "--driad-relay-hold-down"@.len() == 23,
        "--driad-traffic-hold-down"@.len() == 25,
        "--driad-initial-traffic-timeout"@.len() == 31,
        "--driad-maximum-traffic-timeout"@.len() == 31,
        "--driad-max-source-tunnels"@.len() == 26,
        "--driad-max-concurrent-probes"@.len() == 29,
        "--driad-max-dns-workers"@.len() == 23,
        "--driad-resolver"@.len() == 16,
        "--relay-discovery"@.len() == 17,
        "--protocol"@.len() == 10,
        "--local-query-interval"@.len() == 22,
        "--membership-refresh-interval"@.len() == 29,
        "--downstream-interface"@.len() == 22,
        "--downstream-ifindex"@.len() == 20,
        "--ecn"@.len() == 5,
        "--no-ecn"@.len() == 8,
        "--transparent"@.len() == 13,
        "--driad-allow-insecure-dns"@.len() == 26,
        "--no-downstream"@.len() == 15,
        "--downstream-ttl"@.len() == 16,
        "--no-downstream-loopback"@.len() == 24,
        "-h"@.len() == 2,
        "--help"@.len() == 6,
        "--bind"@[2] != "--help"@[2],
        "--relay"@[2] != "--group"@[2],
        "--source"@[2] != "--no-ecn"@[2],
        "--metrics-dir"@[2] != "--transparent"@[2],
        "--local-membership-ifindex"@[2] != "--driad-max-source-tunnels"@[2],
        "--local-membership-ifindex"@[2] != "--driad-allow-insecure-dns"@[2],
        "--local-reporter-timeout"@[2] != "--no-downstream-loopback"@[2],
        "--driad-attempts"@[8] != "--driad-resolver"@[8],
        "--driad-attempts"@[3] != "--downstream-ttl"@[3],
        "--driad-max-candidates"@[2] != "--local-query-interval"@[2],
        "--driad-max-candidates"@[3] != "--downstream-interface"@[3],
        "--driad-query-window-ms"@[8] != "--driad-relay-hold-down"@[8],
        "--driad-query-window-ms"@[8] != "--driad-max-dns-workers"@[8],
        "--driad-happy-eyeballs-delay-ms"@[8] != "--driad-initial-traffic-timeout"@[8],
        "--driad-happy-eyeballs-delay-ms"@[8] != "--driad-maximum-traffic-timeout"@[8],
        "--driad-relay-hold-down"@[8] != "--driad-max-dns-workers"@[8],
        "--driad-initial-traffic-timeout"@[8] != "--driad-maximum-traffic-timeout"@[8],
        "--driad-max-source-tunnels"@[8] != "--driad-allow-insecure-dns"@[8],
        "--driad-max-concurrent-probes"@[2] != "--membership-refresh-interval"@[2],
        "--driad-resolver"@[3] != "--downstream-ttl"@[3],
        "--local-query-interval"@[2] != "--downstream-interface"@[2],
{
    reveal_strlit("--bind");
    reveal_strlit("--relay");
    reveal_strlit("--group");
    reveal_strlit("--source");
    reveal_strlit("--metrics-dir");
    reveal_strlit("--node-id");
    reveal_strlit("--metrics-interval-ms");
    reveal_strlit("--local-membership-interface");
    reveal_strlit("--local-membership-ifindex");
    reveal_strlit("--local-reporter-timeout");
    reveal_strlit("--driad-timeout-ms");
    reveal_strlit("--driad-attempts");
    reveal_strlit("--driad-max-candidates");
    reveal_strlit("--driad-max-queries");
    reveal_strlit("--driad-query-window-ms");
    reveal_strlit("--driad-happy-eyeballs-delay-ms");
    reveal_strlit("--driad-relay-hold-down");
    reveal_strlit("--driad-traffic-hold-down");
    reveal_strlit("--driad-initial-traffic-timeout");
    reveal_strlit("--driad-maximum-traffic-timeout");
    reveal_strlit("--driad-max-source-tunnels");
    reveal_strlit("--driad-max-concurrent-probes");
    reveal_strlit("--driad-max-dns-workers");
    reveal_strlit("--driad-resolver");
    reveal_strlit("--relay-discovery");
    reveal_strlit("--protocol");
    reveal_strlit("--local-query-interval");
    reveal_strlit("--membership-refresh-interval");
    reveal_strlit("--downstream-interface");
    reveal_strlit("--downstream-ifindex");
    reveal_strlit("--ecn");
    reveal_strlit("--no-ecn");
    reveal_strlit("--transparent");
    reveal_strlit("--driad-allow-insecure-dns");
    reveal_strlit("--no-downstream");
    reveal_strlit("--downstream-ttl");
    reveal_strlit("--no-downstream-loopback");
    reveal_strlit("-h");
    reveal_strlit("--help");
}

/// An argument of a gateway that takes a value sets its own option to the argument
/// behind it and leaves the others alone; a value that the option cannot have is
/// refused.
pub proof fn law_gateway_arguments_set_options(
    o: GatewayOptionsModel,
    args: Seq<AddressText>,
    i: int,
    n: u64,
)
    requires
        0 <= i && i + 1 < args.len(),
    ensures
        ({
            let name = args[i].text@;
            let value = args[i + 1];
            let spelled = number(encode_utf8(value.text@));
            &&& name == "--bind"@ ==> (value.socket matches Some(v) ==> gateway_args(o, args, i)
                == gateway_args(GatewayOptionsModel { bind: Some(v), ..o }, args, i + 2))
            &&& name == "--bind"@ && value.socket is None ==> gateway_args(o, args, i) is Err
            &&& name == "--relay"@ ==> (value.socket matches Some(v) ==> gateway_args(o, args, i)
                == gateway_args(GatewayOptionsModel { relay: Some(v), ..o }, args, i + 2))
            &&& name == "--relay"@ && value.socket is None ==> gateway_args(o, args, i) is Err
            &&& name == "--group"@ ==> (value.ip matches Some(v) ==> gateway_args(o, args, i)
                == gateway_args(GatewayOptionsModel { group: Some(v), ..o }, args, i + 2))
            &&& name == "--group"@ && value.ip is None ==> gateway_args(o, args, i) is Err
            &&& name == "--source"@ ==> (value.ip matches Some(v) ==> gateway_args(o, args, i)
                == gateway_args(GatewayOptionsModel { source: Some(v), ..o }, args, i + 2))
            &&& name == "--source"@ && value.ip is None ==> gateway_args(o, args, i) is Err
            &&& name == "--metrics-dir"@ ==> gateway_args(o, args, i)
                == gateway_args(GatewayOptionsModel { metrics: MetricsModel { output_dir: Some(value.text@), ..o.metrics }, ..o }, args, i + 2)
            &&& name == "--node-id"@ ==> gateway_args(o, args, i)
                == gateway_args(GatewayOptionsModel { metrics: MetricsModel { node_id: value.text@, ..o.metrics }, ..o }, args, i + 2)
            &&& name == "--metrics-interval-ms"@ && spelled == Some(n as nat) && 0 <= n <= u64::MAX ==> gateway_args(o, args, i)
                == gateway_args(GatewayOptionsModel { metrics: MetricsModel { sample_interval: Duration::millis_spec(n), ..o.metrics }, ..o }, args, i + 2)
            &&& name == "--metrics-interval-ms"@ && (spelled is None || spelled->Some_0 < 0 || spelled->Some_0
                > u64::MAX) ==> gateway_args(o, args, i) is Err
            &&& name == "--local-membership-interface"@ ==> (value.ip matches Some(v) ==> gateway_args(o, args, i)
                == gateway_args(GatewayOptionsModel { link: LinkOptions { local_interface: Some(v), ..o.link }, ..o }, args, i + 2))
            &&& name == "--local-membership-interface"@ && value.ip is None ==> gateway_args(o, args, i) is Err
            &&& name == "--local-membership-ifindex"@ && spelled == Some(n as nat) && 1 <= n <= u32::MAX ==> gateway_args(o, args, i)
                == gateway_args(GatewayOptionsModel { link: LinkOptions { local_interface_index: Some(n as u32), ..o.link }, ..o }, args, i + 2)
            &&& name == "--local-membership-ifindex"@ && (spelled is None || spelled->Some_0 < 1 || spelled->Some_0
                > u32::MAX) ==> gateway_args(o, args, i) is Err
            &&& name == "--local-reporter-timeout"@ && spelled == Some(n as nat) && 1 <= n <= u64::MAX ==> gateway_args(o, args, i)
                == gateway_args(GatewayOptionsModel { link: LinkOptions { local_reporter_timeout: Duration::secs_spec(n), ..o.link }, ..o }, args, i + 2)
            &&& name == "--local-reporter-timeout"@ && (spelled is None || spelled->Some_0 < 1 || spelled->Some_0
                > u64::MAX) ==> gateway_args(o, args, i) is Err
            &&& name == "--local-query-interval"@ && spelled == Some(n as nat) && n > 0 ==> gateway_args(o, args, i)
                == gateway_args(GatewayOptionsModel { link: LinkOptions { local_query_interval: Some(Duration::secs_spec(n)), ..o.link }, ..o }, args, i + 2)
            &&& name == "--local-query-interval"@ && spelled == Some(0nat) ==> gateway_args(o, args, i)
                == gateway_args(GatewayOptionsModel { link: LinkOptions { local_query_interval: None, ..o.link }, ..o }, args, i + 2)
            &&& name == "--local-query-interval"@ && (spelled is None || spelled->Some_0
                > u64::MAX) ==> gateway_args(o, args, i) is Err
            &&& name == "--membership-refresh-interval"@ && spelled == Some(n as nat) && n > 0 ==> gateway_args(o, args, i)
                == gateway_args(GatewayOptionsModel { membership_refresh_interval: Some(Duration::secs_spec(n)), ..o }, args, i + 2)
            &&& name == "--membership-refresh-interval"@ && spelled == Some(0nat) ==> gateway_args(o, args, i)
                == gateway_args(GatewayOptionsModel { membership_refresh_interval: None, ..o }, args, i + 2)
            &&& name == "--membership-refresh-interval"@ && (spelled is None || spelled->Some_0
                > u64::MAX) ==> gateway_args(o, args, i) is Err
        }),
{
    lemma_gateway_arguments_have_their_own_names();
}

/// An argument on the discovery of relays that takes a value sets its own option;
/// a count or a span of zero is refused. A resolver without a port is asked at
/// port 53, and one more resolver stands behind the others.
pub proof fn law_discovery_arguments_set_options(
    o: GatewayOptionsModel,
    args: Seq<AddressText>,
    i: int,
    n: u64,
)
    requires
        0 <= i && i + 1 < args.len(),
    ensures
        ({
            let name = args[i].text@;
            let value = args[i + 1];
            let spelled = number(encode_utf8(value.text@));
            &&& name == "--driad-timeout-ms"@ && spelled == Some(n as nat) && 1 <= n <= u64::MAX ==> gateway_args(o, args, i)
                == gateway_args(GatewayOptionsModel { driad: DriadOptionsModel { timeout: Duration::millis_spec(n), ..o.driad }, ..o }, args, i + 2)
            &&& name == "--driad-timeout-ms"@ && (spelled is None || spelled->Some_0 < 1 || spelled->Some_0
                > u64::MAX) ==> gateway_args(o, args, i) is Err
            &&& name == "--driad-attempts"@ && spelled == Some(n as nat) && 1 <= n <= usize::MAX ==> gateway_args(o, args, i)
                == gateway_args(GatewayOptionsModel { driad: DriadOptionsModel { attempts: n as int, ..o.driad }, ..o }, args, i + 2)
            &&& name == "--driad-attempts"@ && (spelled is None || spelled->Some_0 < 1 || spelled->Some_0
                > usize::MAX) ==> gateway_args(o, args, i) is Err
            &&& name == "--driad-max-candidates"@ && spelled == Some(n as nat) && 1 <= n <= usize::MAX ==> gateway_args(o, args, i)
                == gateway_args(GatewayOptionsModel { driad: DriadOptionsModel { max_candidates: n as int, ..o.driad }, ..o }, args, i + 2)
            &&& name == "--driad-max-candidates"@ && (spelled is None || spelled->Some_0 < 1 || spelled->Some_0
                > usize::MAX) ==> gateway_args(o, args, i) is Err
            &&& name == "--driad-max-queries"@ && spelled == Some(n as nat) && 1 <= n <= usize::MAX ==> gateway_args(o, args, i)
                == gateway_args(GatewayOptionsModel { driad: DriadOptionsModel { max_queries_per_window: n as int, ..o.driad }, ..o }, args, i + 2)
            &&& name == "--driad-max-queries"@ && (spelled is None || spelled->Some_0 < 1 || spelled->Some_0
                > usize::MAX) ==> gateway_args(o, args, i) is Err
            &&& name == "--driad-query-window-ms"@ && spelled == Some(n as nat) && 1 <= n <= u64::MAX ==> gateway_args(o, args, i)
                == gateway_args(GatewayOptionsModel { driad: DriadOptionsModel { query_rate_window: Duration::millis_spec(n), ..o.driad }, ..o }, args, i + 2)
            &&& name == "--driad-query-window-ms"@ && (spelled is None || spelled->Some_0 < 1 || spelled->Some_0
                > u64::MAX) ==> gateway_args(o, args, i) is Err
            &&& name == "--driad-happy-eyeballs-delay-ms"@ && spelled == Some(n as nat) && 1 <= n <= u64::MAX ==> gateway_args(o, args, i)
                == gateway_args(GatewayOptionsModel { driad: DriadOptionsModel { happy_eyeballs_delay: Duration::millis_spec(n), ..o.driad }, ..o }, args, i + 2)
            &&& name == "--driad-happy-eyeballs-delay-ms"@ && (spelled is None || spelled->Some_0 < 1 || spelled->Some_0
                > u64::MAX) ==> gateway_args(o, args, i) is Err
            &&& name == "--driad-relay-hold-down"@ && spelled == Some(n as nat) && 1 <= n <= u64::MAX ==> gateway_args(o, args, i)
                == gateway_args(GatewayOptionsModel { driad: DriadOptionsModel { relay_hold_down: Duration::secs_spec(n), ..o.driad }, ..o }, args, i + 2)
            &&& name == "--driad-relay-hold-down"@ && (spelled is None || spelled->Some_0 < 1 || spelled->Some_0
                > u64::MAX) ==> gateway_args(o, args, i) is Err
            &&& name == "--driad-traffic-hold-down"@ && spelled == Some(n as nat) && 1 <= n <= u64::MAX ==> gateway_args(o, args, i)
                == gateway_args(GatewayOptionsModel { driad: DriadOptionsModel { traffic_hold_down: Duration::secs_spec(n), ..o.driad }, ..o }, args, i + 2)
            &&& name == "--driad-traffic-hold-down"@ && (spelled is None || spelled->Some_0 < 1 || spelled->Some_0
                > u64::MAX) ==> gateway_args(o, args, i) is Err
            &&& name == "--driad-initial-traffic-timeout"@ && spelled == Some(n as nat) && 1 <= n <= u64::MAX ==> gateway_args(o, args, i)
                == gateway_args(GatewayOptionsModel { driad: DriadOptionsModel { initial_traffic_timeout: Duration::secs_spec(n), ..o.driad }, ..o }, args, i + 2)
            &&& name == "--driad-initial-traffic-timeout"@ && (spelled is None || spelled->Some_0 < 1 || spelled->Some_0
                > u64::MAX) ==> gateway_args(o, args, i) is Err
            &&& name == "--driad-maximum-traffic-timeout"@ && spelled == Some(n as nat) && 1 <= n <= u64::MAX ==> gateway_args(o, args, i)
                == gateway_args(GatewayOptionsModel { driad: DriadOptionsModel { maximum_traffic_timeout: Duration::secs_spec(n), ..o.driad }, ..o }, args, i + 2)
            &&& name == "--driad-maximum-traffic-timeout"@ && (spelled is None || spelled->Some_0 < 1 || spelled->Some_0
                > u64::MAX) ==> gateway_args(o, args, i) is Err
            &&& name == "--driad-max-source-tunnels"@ && spelled == Some(n as nat) && 1 <= n <= usize::MAX ==> gateway_args(o, args, i)
                == gateway_args(GatewayOptionsModel { driad: DriadOptionsModel { max_source_tunnels: n as int, ..o.driad }, ..o }, args, i + 2)
            &&& name == "--driad-max-source-tunnels"@ && (spelled is None || spelled->Some_0 < 1 || spelled->Some_0
                > usize::MAX) ==> gateway_args(o, args, i) is Err
            &&& name == "--driad-max-concurrent-probes"@ && spelled == Some(n as nat) && 1 <= n <= usize::MAX ==> gateway_args(o, args, i)
                == gateway_args(GatewayOptionsModel { driad: DriadOptionsModel { max_concurrent_probes: n as int, ..o.driad }, ..o }, args, i + 2)
            &&& name == "--driad-max-concurrent-probes"@ && (spelled is None || spelled->Some_0 < 1 || spelled->Some_0
                > usize::MAX) ==> gateway_args(o, args, i) is Err
            &&& name == "--driad-max-dns-workers"@ && spelled == Some(n as nat) && 1 <= n <= usize::MAX ==> gateway_args(o, args, i)
                == gateway_args(GatewayOptionsModel { driad: DriadOptionsModel { max_dns_workers: n as int, ..o.driad }, ..o }, args, i + 2)
            &&& name == "--driad-max-dns-workers"@ && (spelled is None || spelled->Some_0 < 1 || spelled->Some_0
                > usize::MAX) ==> gateway_args(o, args, i) is Err
            &&& name == "--driad-resolver"@ ==> (value.socket matches Some(v) ==> gateway_args(o, args, i)
                == gateway_args(GatewayOptionsModel { driad: DriadOptionsModel { resolvers: o.driad.resolvers.push(v), ..o.driad }, ..o }, args, i + 2))
            &&& name == "--driad-resolver"@ && value.socket is None ==> (value.ip matches Some(v) ==> gateway_args(o, args, i)
                == gateway_args(GatewayOptionsModel { driad: DriadOptionsModel { resolvers: o.driad.resolvers.push(SocketAddr::of(v, 53)), ..o.driad }, ..o }, args, i + 2))
            &&& name == "--driad-resolver"@ && value.socket is None && value.ip is None ==> gateway_args(o, args, i) is Err
        }),
{
    lemma_gateway_arguments_have_their_own_names();
}

/// An argument on where multicast leaves sets its own part of the downstream, and
/// has one made where there was none.
pub proof fn law_downstream_arguments_set_options(
    o: GatewayOptionsModel,
    args: Seq<AddressText>,
    i: int,
    n: u64,
)
    requires
        0 <= i && i + 1 < args.len(),
    ensures
        ({
            let name = args[i].text@;
            let value = args[i + 1];
            let spelled = number(encode_utf8(value.text@));
            &&& name == "--downstream-interface"@ && value.ip is Some && o.link.downstream is Some ==> gateway_args(o, args, i)
                == gateway_args(GatewayOptionsModel { link: LinkOptions { downstream: Some(DownstreamConfig { interface: value.ip, ..o.link.downstream->Some_0 }), ..o.link }, ..o }, args, i + 2)
            &&& name == "--downstream-interface"@ && value.ip is Some && o.link.downstream is None ==> gateway_args(o, args, i)
                == gateway_args(GatewayOptionsModel { link: LinkOptions { downstream: Some(DownstreamConfig { interface: value.ip, interface_index: None, loopback: None }), ..o.link }, ..o }, args, i + 2)
            &&& name == "--downstream-interface"@ && value.ip is None ==> gateway_args(o, args, i) is Err
            &&& name == "--downstream-ifindex"@ && spelled == Some(n as nat) && 1 <= n <= u32::MAX && o.link.downstream is Some ==> gateway_args(o, args, i)
                == gateway_args(GatewayOptionsModel { link: LinkOptions { downstream: Some(DownstreamConfig { interface_index: Some(n as u32), ..o.link.downstream->Some_0 }), ..o.link }, ..o }, args, i + 2)
            &&& name == "--downstream-ifindex"@ && spelled == Some(n as nat) && 1 <= n <= u32::MAX && o.link.downstream is None ==> gateway_args(o, args, i)
                == gateway_args(GatewayOptionsModel { link: LinkOptions { downstream: Some(DownstreamConfig { interface: None, interface_index: Some(n as u32), loopback: None }), ..o.link }, ..o }, args, i + 2)
            &&& name == "--downstream-ifindex"@ && (spelled is None || spelled->Some_0 < 1 || spelled->Some_0 > u32::MAX) ==> gateway_args(o, args, i) is Err
        }),
{
    lemma_gateway_arguments_have_their_own_names();
}

/// How relays are found, and which protocol is spoken, is told by name.
pub proof fn law_named_arguments_set_options(
    o: GatewayOptionsModel,
    args: Seq<AddressText>,
    i: int,
)
    requires
        0 <= i && i + 1 < args.len(),
    ensures
        ({
            let name = args[i].text@;
            let value = args[i + 1];
            &&& name == "--relay-discovery"@ && (value.text@ == "static"@) ==> gateway_args(o, args, i)
                == gateway_args(GatewayOptionsModel { relay_discovery: GatewayRelayDiscovery::Static, ..o }, args, i + 2)
            &&& name == "--relay-discovery"@ && (value.text@ == "driad"@) ==> gateway_args(o, args, i)
                == gateway_args(GatewayOptionsModel { relay_discovery: GatewayRelayDiscovery::Driad, ..o }, args, i + 2)
            &&& name == "--relay-discovery"@ && (value.text@ == "auto"@) ==> gateway_args(o, args, i)
                == gateway_args(GatewayOptionsModel { relay_discovery: GatewayRelayDiscovery::Auto, ..o }, args, i + 2)
            &&& name == "--relay-discovery"@ && value.text@ != "static"@ && value.text@ != "driad"@ && value.text@ != "auto"@ ==> gateway_args(o, args, i) is Err
            &&& name == "--protocol"@ && (value.text@ == "igmp"@ || value.text@ == "igmpv3"@ || value.text@ == "ipv4"@) ==> gateway_args(o, args, i)
                == gateway_args(GatewayOptionsModel { protocol: Some(MembershipProtocol::Igmpv3), ..o }, args, i + 2)
            &&& name == "--protocol"@ && (value.text@ == "mld"@ || value.text@ == "mldv2"@ || value.text@ == "ipv6"@) ==> gateway_args(o, args, i)
                == gateway_args(GatewayOptionsModel { protocol: Some(MembershipProtocol::Mldv2), ..o }, args, i + 2)
            &&& name == "--protocol"@ && value.text@ != "igmp"@ && value.text@ != "igmpv3"@ && value.text@ != "ipv4"@ && value.text@ != "mld"@ && value.text@ != "mldv2"@ && value.text@ != "ipv6"@ ==> gateway_args(o, args, i) is Err
        }),
{
    lemma_gateway_arguments_have_their_own_names();
    reveal_strlit("static");
    reveal_strlit("driad");
    reveal_strlit("auto");
    reveal_strlit("igmp");
    reveal_strlit("igmpv3");
    reveal_strlit("ipv4");
    reveal_strlit("mld");
    reveal_strlit("mldv2");
    reveal_strlit("ipv6");
    assert("static"@.len() == 6);
    assert("driad"@.len() == 5);
    assert("auto"@.len() == 4);
    assert("igmp"@.len() == 4);
    assert("igmpv3"@.len() == 6);
    assert("ipv4"@.len() == 4);
    assert("mld"@.len() == 3);
    assert("mldv2"@.len() == 5);
    assert("ipv6"@.len() == 4);
    assert("static"@[0] != "igmpv3"@[0]);
    assert("driad"@[0] != "mldv2"@[0]);
    assert("auto"@[0] != "igmp"@[0]);
    assert("auto"@[0] != "ipv4"@[0]);
    assert("auto"@[0] != "ipv6"@[0]);
    assert("igmp"@[1] != "ipv4"@[1]);
    assert("igmp"@[1] != "ipv6"@[1]);
    assert("ipv4"@[3] != "ipv6"@[3]);
}

/// An argument of a gateway that takes no value turns its own option on or off.
/// One that asks for help ends the rest, and one that is not known is refused, as
/// is one that lacks its value.
pub proof fn law_gateway_arguments_turn_options(
    o: GatewayOptionsModel,
    args: Seq<AddressText>,
    i: int,
)
    requires
        0 <= i < args.len(),
    ensures
        ({
            let name = args[i].text@;
            &&& name == "--ecn"@ ==> gateway_args(o, args, i) == gateway_args(GatewayOptionsModel { ecn: true, ..o }, args, i + 1)
            &&& name == "--no-ecn"@ ==> gateway_args(o, args, i) == gateway_args(GatewayOptionsModel { ecn: false, ..o }, args, i + 1)
            &&& name == "--transparent"@ ==> gateway_args(o, args, i) == gateway_args(GatewayOptionsModel { transparent: true, ..o }, args, i + 1)
            &&& name == "--driad-allow-insecure-dns"@ ==> gateway_args(o, args, i) == gateway_args(GatewayOptionsModel { driad: DriadOptionsModel { allow_insecure_dns: true, ..o.driad }, ..o }, args, i + 1)
            &&& name == "--no-downstream"@ ==> gateway_args(o, args, i) == gateway_args(GatewayOptionsModel { link: LinkOptions { downstream: None, ..o.link }, ..o }, args, i + 1)
            &&& name == "--no-downstream-loopback"@ && o.link.downstream is Some ==> gateway_args(o, args, i)
                == gateway_args(GatewayOptionsModel { link: LinkOptions { downstream: Some(DownstreamConfig { loopback: Some(false), ..o.link.downstream->Some_0 }), ..o.link }, ..o }, args, i + 1)
            &&& name == "--no-downstream-loopback"@ && o.link.downstream is None ==> gateway_args(o, args, i)
                == gateway_args(GatewayOptionsModel { link: LinkOptions { downstream: Some(DownstreamConfig { interface: None, interface_index: None, loopback: Some(false) }), ..o.link }, ..o }, args, i + 1)
            &&& name == "--downstream-ttl"@ ==> gateway_args(o, args, i) is Err
            &&& name == "-h"@ || name == "--help"@ ==> gateway_args(o, args, i)
                == Ok::<Option<GatewayOptionsModel>, CliErrorModel>(None)
            &&& (name == "--bind"@
                || name == "--relay"@
                || name == "--group"@
                || name == "--source"@
                || name == "--metrics-dir"@
                || name == "--node-id"@
                || name == "--metrics-interval-ms"@
                || name == "--local-membership-interface"@
                || name == "--local-membership-ifindex"@
                || name == "--local-reporter-timeout"@
                || name == "--driad-timeout-ms"@
                || name == "--driad-attempts"@
                || name == "--driad-max-candidates"@
                || name == "--driad-max-queries"@
                || name == "--driad-query-window-ms"@
                || name == "--driad-happy-eyeballs-delay-ms"@
                || name == "--driad-relay-hold-down"@
                || name == "--driad-traffic-hold-down"@
                || name == "--driad-initial-traffic-timeout"@
                || name == "--driad-maximum-traffic-timeout"@
                || name == "--driad-max-source-tunnels"@
                || name == "--driad-max-concurrent-probes"@
                || name == "--driad-max-dns-workers"@
                || name == "--driad-resolver"@
                || name == "--relay-discovery"@
                || name == "--protocol"@
                || name == "--local-query-interval"@
                || name == "--membership-refresh-interval"@
                || name == "--downstream-interface"@
                || name == "--downstream-ifindex"@) && i + 1 == args.len() ==> gateway_args(o, args, i) is Err
            &&& name != "--bind"@
                && name != "--relay"@
                && name != "--group"@
                && name != "--source"@
                && name != "--metrics-dir"@
                && name != "--node-id"@
                && name != "--metrics-interval-ms"@
                && name != "--local-membership-interface"@
                && name != "--local-membership-ifindex"@
                && name != "--local-reporter-timeout"@
                && name != "--driad-timeout-ms"@
                && name != "--driad-attempts"@
                && name != "--driad-max-candidates"@
                && name != "--driad-max-queries"@
                && name != "--driad-query-window-ms"@
                && name != "--driad-happy-eyeballs-delay-ms"@
                && name != "--driad-relay-hold-down"@
                && name != "--driad-traffic-hold-down"@
                && name != "--driad-initial-traffic-timeout"@
                && name != "--driad-maximum-traffic-timeout"@
                && name != "--driad-max-source-tunnels"@
                && name != "--driad-max-concurrent-probes"@
                && name != "--driad-max-dns-workers"@
                && name != "--driad-resolver"@
                && name != "--relay-discovery"@
                && name != "--protocol"@
                && name != "--local-query-interval"@
                && name != "--membership-refresh-interval"@
                && name != "--downstream-interface"@
                && name != "--downstream-ifindex"@
                && name != "--ecn"@
                && name != "--no-ecn"@
                && name != "--transparent"@
                && name != "--driad-allow-insecure-dns"@
                && name != "--no-downstream"@
                && name != "--downstream-ttl"@
                && name != "--no-downstream-loopback"@
                && name != "-h"@
                && name != "--help"@ ==> gateway_args(o, args, i)
                == Err::<Option<GatewayOptionsModel>, CliErrorModel>(
                CliErrorModel::UnknownGatewayArgument(name))
        }),
        gateway_args(o, args, args.len() as int) == Ok::<Option<GatewayOptionsModel>, CliErrorModel>(Some(o)),
{
    lemma_gateway_arguments_have_their_own_names();
}

/// Resolvers are named in order, each by an address with a port or by one that
/// stands for port 53, behind those that were there; any other text among them
/// is refused.
pub proof fn law_resolvers_are_named_in_order(
    found: Seq<SocketAddr>,
    values: Seq<AddressText>,
    k: int,
)
    requires
        0 <= k < values.len(),
    ensures
        values[k].socket is None && values[k].ip is None ==> named_resolvers(found, values) is Err,
        named_resolvers(found, values) is Ok ==> {
            let resolvers = named_resolvers(found, values)->Ok_0;
            &&& resolvers.len() == found.len() + values.len()
            &&& forall|i: int| 0 <= i < found.len() ==> (#[trigger] resolvers[i]) == found[i]
            &&& values[k].socket is Some ==> resolvers[found.len() + k] == values[k].socket->Some_0
            &&& values[k].socket is None ==> resolvers[found.len() + k].port_spec() == 53
                && resolvers[found.len() + k].ip_spec() == values[k].ip->Some_0
        },
    decreases values.len(),
{
    let before = values.drop_last();
    if k < before.len() {
        law_resolvers_are_named_in_order(found, before, k);
        assert(before[k] == values[k]);
    } else if before.len() > 0 {
        law_resolvers_are_named_in_order(found, before, 0);
    }
}

/// Where each of the texts names a resolver, none is refused.
pub proof fn law_resolvers_can_be_named(found: Seq<SocketAddr>, values: Seq<AddressText>)
    requires
        forall|i: int|
            0 <= i < values.len() ==> (#[trigger] values[i]).socket is Some || values[i].ip is Some,
    ensures
        named_resolvers(found, values) is Ok,
    decreases values.len(),
{
    if values.len() > 0 {
        let before = values.drop_last();
        assert forall|i: int| 0 <= i < before.len() implies (#[trigger] before[i]).socket is Some
            || before[i].ip is Some by {
            assert(before[i] == values[i]);
        }
        law_resolvers_can_be_named(found, before);
        assert(values.last() == values[values.len() - 1]);
    }
}

/// A configuration file sets how relays are discovered; what it leaves out has
/// its default. No file sets a timeout or a number of attempts of zero.
pub proof fn law_discovery_files_are_taken(config: DriadFileConfig)
    ensures
        ({
            let named = match config.resolvers {
                Some(values) => named_resolvers(Seq::empty(), values.values()),
                None => Ok(Seq::empty()),
            };
            &&& driad_from_file(Some(config)) is Err <==> named is Err || config.timeout_ms
                == Some(0u64) || config.attempts == Some(0usize)
            &&& driad_from_file(Some(config)) is Ok ==> driad_from_file(Some(config))->Ok_0.resolvers
                == named->Ok_0
        }),
        driad_from_file(Some(config)) is Ok ==> {
            let o = driad_from_file(Some(config))->Ok_0;
            &&& o.allow_insecure_dns <==> config.allow_insecure_dns == Some(true)
            &&& config.timeout_ms is None ==> o.timeout == Duration::millis_spec(1000)
            &&& config.timeout_ms is Some ==> o.timeout == Duration::millis_spec(config.timeout_ms->Some_0)
            &&& config.query_rate_window_ms is None ==> o.query_rate_window == Duration::millis_spec(100)
            &&& config.query_rate_window_ms is Some ==> o.query_rate_window == Duration::millis_spec(config.query_rate_window_ms->Some_0)
            &&& config.happy_eyeballs_delay_ms is None ==> o.happy_eyeballs_delay == Duration::millis_spec(250)
            &&& config.happy_eyeballs_delay_ms is Some ==> o.happy_eyeballs_delay == Duration::millis_spec(config.happy_eyeballs_delay_ms->Some_0)
            &&& config.relay_hold_down_secs is None ==> o.relay_hold_down == Duration::secs_spec(600)
            &&& config.relay_hold_down_secs is Some ==> o.relay_hold_down == Duration::secs_spec(config.relay_hold_down_secs->Some_0)
            &&& config.traffic_hold_down_secs is None ==> o.traffic_hold_down == Duration::secs_spec(300)
            &&& config.traffic_hold_down_secs is Some ==> o.traffic_hold_down == Duration::secs_spec(config.traffic_hold_down_secs->Some_0)
            &&& config.initial_traffic_timeout_secs is None ==> o.initial_traffic_timeout == Duration::secs_spec(4)
            &&& config.initial_traffic_timeout_secs is Some ==> o.initial_traffic_timeout == Duration::secs_spec(config.initial_traffic_timeout_secs->Some_0)
            &&& config.maximum_traffic_timeout_secs is None ==> o.maximum_traffic_timeout == Duration::secs_spec(120)
            &&& config.maximum_traffic_timeout_secs is Some ==> o.maximum_traffic_timeout == Duration::secs_spec(config.maximum_traffic_timeout_secs->Some_0)
            &&& config.attempts is None ==> o.attempts == 2
            &&& config.attempts is Some ==> o.attempts == config.attempts->Some_0
            &&& config.max_candidates is None ==> o.max_candidates == 64
            &&& config.max_candidates is Some ==> o.max_candidates == config.max_candidates->Some_0
            &&& config.max_queries_per_window is None ==> o.max_queries_per_window == 10
            &&& config.max_queries_per_window is Some ==> o.max_queries_per_window == config.max_queries_per_window->Some_0
            &&& config.max_source_tunnels is None ==> o.max_source_tunnels == 256
            &&& config.max_source_tunnels is Some ==> o.max_source_tunnels == config.max_source_tunnels->Some_0
            &&& config.max_concurrent_probes is None ==> o.max_concurrent_probes == 4
            &&& config.max_concurrent_probes is Some ==> o.max_concurrent_probes == config.max_concurrent_probes->Some_0
            &&& config.max_dns_workers is None ==> o.max_dns_workers == 8
            &&& config.max_dns_workers is Some ==> o.max_dns_workers == config.max_dns_workers->Some_0
        },
        driad_from_file(None) is Ok,
        ({
            let o = driad_from_file(None)->Ok_0;
            &&& o.resolvers.len() == 0 && !o.allow_insecure_dns
            &&& o.timeout == Duration::millis_spec(1000)
            &&& o.query_rate_window == Duration::millis_spec(100)
            &&& o.happy_eyeballs_delay == Duration::millis_spec(250)
            &&& o.relay_hold_down == Duration::secs_spec(600)
            &&& o.traffic_hold_down == Duration::secs_spec(300)
            &&& o.initial_traffic_timeout == Duration::secs_spec(4)
            &&& o.maximum_traffic_timeout == Duration::secs_spec(120)
            &&& o.attempts == 2
            &&& o.max_candidates == 64
            &&& o.max_queries_per_window == 10
            &&& o.max_source_tunnels == 256
            &&& o.max_concurrent_probes == 4
            &&& o.max_dns_workers == 8
        }),
{
}

/// How relays are discovered can be set to no count and no span of zero, and
/// patience ends no lower than it begins.
pub proof fn law_discovery_options_are_checked(o: DriadOptionsModel)
    requires
        o.attempts >= 0, o.max_candidates >= 0, o.max_queries_per_window >= 0, o.max_source_tunnels >= 0, o.max_concurrent_probes >= 0, o.max_dns_workers >= 0,
    ensures
        driad_options_error(o) is None <==> {
            &&& o.attempts > 0 && o.max_candidates > 0 && o.max_queries_per_window > 0 && o.max_source_tunnels > 0 && o.max_concurrent_probes > 0 && o.max_dns_workers > 0
            &&& o.timeout.nanos > 0 && o.query_rate_window.nanos > 0 && o.happy_eyeballs_delay.nanos > 0 && o.relay_hold_down.nanos > 0 && o.traffic_hold_down.nanos > 0 && o.initial_traffic_timeout.nanos > 0 && o.maximum_traffic_timeout.nanos > 0
            &&& o.initial_traffic_timeout.nanos <= o.maximum_traffic_timeout.nanos
        },
{
}

} // verus!
