//! The relay's options: from a configuration file, then from the command line.

use crate::cli::{
    ip_value, number_value, owned, positive_value, read_ip, read_number, read_positive, read_socket,
    read_text, said, say, socket_value, text_value, words, CliError, CliErrorModel, Stepped,
};
use crate::config::{FileConfig, MetricsFileConfig, RelayFileConfig, RelayLimitsFileConfig};
use crate::daemon::{
    relay_daemon_error, RelayDaemonConfig, RelayDaemonModel, UpstreamConfig,
    DEFAULT_CONTROL_RATE_BURST, DEFAULT_CONTROL_RATE_PER_SECOND,
    DEFAULT_GATEWAY_IDLE_TIMEOUT_SECS, DEFAULT_GATEWAY_PRUNE_INTERVAL_SECS,
    DEFAULT_GLOBAL_CONTROL_RATE_BURST, DEFAULT_GLOBAL_CONTROL_RATE_PER_SECOND,
    DEFAULT_RELAY_PATH_MTU,
};
use crate::metrics::{default_metrics, MetricsConfig, MetricsModel};
use crate::net::{AddressText, IpAddr, Ipv4Addr, Ipv6Addr, SocketAddr};
use crate::protocol::AMT_PORT;
use crate::random::RandomnessError;
use crate::relay::{config_for_bind, RelayConfig, RelayConfigModel, RelaySecret};
use crate::state::RelayLimits;
use crate::text::{is_white_space, number, same_text, white_space};
use crate::time::Duration;
use vstd::prelude::*;
use vstd::utf8::encode_utf8;

verus! {

/// A span of whole seconds; zero stands for none.
pub open spec fn seconds_or_none(seconds: u64) -> Option<Duration> {
    if seconds == 0 {
        None
    } else {
        Some(Duration::secs_spec(seconds))
    }
}

/// A span of whole seconds; zero stands for none.
pub fn optional_seconds(seconds: u64) -> (span: Option<Duration>)
    ensures
        span == seconds_or_none(seconds),
{
    if seconds == 0 {
        None
    } else {
        Some(Duration::from_secs(seconds))
    }
}

/// Whether a text holds nothing but white space.
pub open spec fn blank(text: Seq<char>) -> bool {
    forall|i: int| 0 <= i < text.len() ==> white_space(#[trigger] text[i])
}

fn is_blank(text: &str) -> (b: bool)
    ensures
        b == blank(text@),
{
    let length: usize = text.unicode_len();
    let mut i: usize = 0;
    while i < length
        invariant
            length == text@.len(),
            i <= length,
            forall|k: int| 0 <= k < i ==> white_space(#[trigger] text@[k]),
        decreases length - i,
    {
        if !is_white_space(text.get_char(i)) {
            return false;
        }
        i += 1;
    }
    true
}

/// The options on reports that a configuration file sets.
pub open spec fn metrics_from_section(config: MetricsFileConfig) -> Result<
    MetricsModel,
    CliErrorModel,
> {
    let base = default_metrics();
    if config.node_id is Some && blank(config.node_id->Some_0@) {
        words("metrics.node_id must not be empty"@)
    } else {
        Ok(
            MetricsModel {
                output_dir: match config.output_dir {
                    Some(dir) => Some(dir@),
                    None => base.output_dir,
                },
                node_id: match config.node_id {
                    Some(id) => id@,
                    None => base.node_id,
                },
                sample_interval: match config.interval_ms {
                    Some(millis) => Duration::millis_spec(millis),
                    None => base.sample_interval,
                },
                max_file_bytes: match config.max_file_bytes {
                    Some(bytes) => if bytes == 0 {
                        None
                    } else {
                        Some(bytes)
                    },
                    None => base.max_file_bytes,
                },
            },
        )
    }
}

/// The options on reports that a configuration file sets, if it sets any.
pub open spec fn metrics_from_file(file: Option<&FileConfig>) -> Result<
    MetricsModel,
    CliErrorModel,
> {
    match file {
        Some(file) => match file.metrics {
            Some(config) => metrics_from_section(config),
            None => Ok(default_metrics()),
        },
        None => Ok(default_metrics()),
    }
}

/// The options on reports that a configuration file sets.
pub fn metrics_config_from_file(file: Option<&FileConfig>) -> (result: Result<
    MetricsConfig,
    CliError,
>)
    ensures
        match result {
            Ok(metrics) => metrics_from_file(file) == Ok::<MetricsModel, CliErrorModel>(metrics@),
            Err(error) => metrics_from_file(file) == Err::<MetricsModel, CliErrorModel>(error@),
        },
{
    let mut metrics = MetricsConfig::default();
    let file = match file {
        Some(file) => file,
        None => return Ok(metrics),
    };
    let config = match &file.metrics {
        Some(config) => config,
        None => return Ok(metrics),
    };
    if let Some(dir) = &config.output_dir {
        metrics.output_dir = Some(dir.clone());
    }
    if let Some(id) = &config.node_id {
        if is_blank(id.as_str()) {
            return Err(say("metrics.node_id must not be empty"));
        }
        metrics.node_id = id.clone();
    }
    if let Some(millis) = config.interval_ms {
        metrics.sample_interval = Duration::from_millis(millis);
    }
    if let Some(bytes) = config.max_file_bytes {
        metrics.max_file_bytes = if bytes == 0 {
            None
        } else {
            Some(bytes)
        };
    }
    Ok(metrics)
}

/// What an argument on reports does; nothing, if it is about something else.
pub open spec fn metrics_step(
    o: MetricsModel,
    name: Seq<char>,
    value: Option<AddressText>,
) -> Option<Result<(MetricsModel, Stepped), CliErrorModel>> {
    if name == "--metrics-dir"@ {
        Some(match text_value(value, "--metrics-dir requires a directory path"@) {
            Err(error) => Err(error),
            Ok(v) => Ok((MetricsModel { output_dir: Some(v), ..o }, Stepped::Valued)),
        })
    } else if name == "--node-id"@ {
        Some(match text_value(value, "--node-id requires a value"@) {
            Err(error) => Err(error),
            Ok(v) => Ok((MetricsModel { node_id: v, ..o }, Stepped::Valued)),
        })
    } else if name == "--metrics-interval-ms"@ {
        Some(match number_value(value, "--metrics-interval-ms requires milliseconds"@, "invalid --metrics-interval-ms "@, u64::MAX) {
            Err(error) => Err(error),
            Ok(v) => Ok((MetricsModel { sample_interval: Duration::millis_spec(v), ..o }, Stepped::Valued)),
        })
    } else {
        None
    }
}

/// Follows an argument on reports; does nothing, if it is about something else.
pub fn apply_metrics_arg(
    o: &mut MetricsConfig,
    name: &str,
    value: Option<&AddressText>,
) -> (result: Option<Result<Stepped, CliError>>)
    ensures
        match result {
            None => metrics_step(old(o)@, name@, owned(value)) is None && final(o)@ == old(o)@,
            Some(Ok(stepped)) => metrics_step(old(o)@, name@, owned(value)) == Some(
                Ok::<(MetricsModel, Stepped), CliErrorModel>((final(o)@, stepped)),
            ),
            Some(Err(error)) => metrics_step(old(o)@, name@, owned(value)) == Some(
                Err::<(MetricsModel, Stepped), CliErrorModel>(error@),
            ) && final(o)@ == old(o)@,
        },
{
    if same_text(name, "--metrics-dir") {
        Some(match read_text(value, "--metrics-dir requires a directory path") {
            Err(error) => Err(error),
            Ok(v) => {
                o.output_dir = Some(v);
                Ok(Stepped::Valued)
            },
        })
    } else if same_text(name, "--node-id") {
        Some(match read_text(value, "--node-id requires a value") {
            Err(error) => Err(error),
            Ok(v) => {
                o.node_id = v;
                Ok(Stepped::Valued)
            },
        })
    } else if same_text(name, "--metrics-interval-ms") {
        Some(match read_number(value, "--metrics-interval-ms requires milliseconds", "invalid --metrics-interval-ms ", u64::MAX) {
            Err(error) => Err(error),
            Ok(v) => {
                o.sample_interval = Duration::from_millis(v);
                Ok(Stepped::Valued)
            },
        })
    } else {
        None
    }
}

/// A relay's options.
#[derive(Debug, PartialEq, Eq)]
pub struct RelayOptions {
    pub bind: Option<SocketAddr>,
    pub ecn: bool,
    pub relay_addresses: Vec<IpAddr>,
    pub upstream_interface: Option<IpAddr>,
    pub upstream_interface_index: Option<u32>,
    pub gateway_idle_timeout: Option<Duration>,
    pub gateway_prune_interval: Duration,
    pub path_mtu: usize,
    pub pmtu_feedback: bool,
    pub metrics: MetricsConfig,
    pub control_rate_per_second: u32,
    pub control_rate_burst: u32,
    pub global_control_rate_per_second: u32,
    pub global_control_rate_burst: u32,
}

/// [`RelayOptions`] with their parts as mathematical values.
#[verifier::ext_equal]
pub struct RelayOptionsModel {
    pub bind: Option<SocketAddr>,
    pub ecn: bool,
    pub relay_addresses: Seq<IpAddr>,
    pub upstream_interface: Option<IpAddr>,
    pub upstream_interface_index: Option<u32>,
    pub gateway_idle_timeout: Option<Duration>,
    pub gateway_prune_interval: Duration,
    pub path_mtu: int,
    pub pmtu_feedback: bool,
    pub metrics: MetricsModel,
    pub control_rate_per_second: u32,
    pub control_rate_burst: u32,
    pub global_control_rate_per_second: u32,
    pub global_control_rate_burst: u32,
}

impl View for RelayOptions {
    type V = RelayOptionsModel;

    open spec fn view(&self) -> RelayOptionsModel {
        RelayOptionsModel {
            bind: self.bind,
            ecn: self.ecn,
            relay_addresses: self.relay_addresses@,
            upstream_interface: self.upstream_interface,
            upstream_interface_index: self.upstream_interface_index,
            gateway_idle_timeout: self.gateway_idle_timeout,
            gateway_prune_interval: self.gateway_prune_interval,
            path_mtu: self.path_mtu as int,
            pmtu_feedback: self.pmtu_feedback,
            metrics: self.metrics@,
            control_rate_per_second: self.control_rate_per_second,
            control_rate_burst: self.control_rate_burst,
            global_control_rate_per_second: self.global_control_rate_per_second,
            global_control_rate_burst: self.global_control_rate_burst,
        }
    }
}

/// An optional value, or another in its place.
pub open spec fn or_else<T>(value: Option<T>, other: T) -> T {
    match value {
        Some(value) => value,
        None => other,
    }
}

/// Whether a path MTU can be used.
pub open spec fn mtu_fits(path_mtu: int) -> bool {
    1280 <= path_mtu <= 65535
}

/// Checks that a path MTU can be used.
pub fn validate_path_mtu(path_mtu: usize) -> (result: Result<(), CliError>)
    ensures
        said(result) == if mtu_fits(path_mtu as int) {
            Ok::<(), CliErrorModel>(())
        } else {
            words("relay path MTU must be between 1280 and 65535 bytes"@)
        },
{
    if 1280 <= path_mtu && path_mtu <= 65535 {
        Ok(())
    } else {
        Err(say("relay path MTU must be between 1280 and 65535 bytes"))
    }
}

/// The relay section of a configuration file.
pub open spec fn relay_section(file: Option<&FileConfig>) -> Option<RelayFileConfig> {
    match file {
        Some(file) => file.relay,
        None => None,
    }
}

/// The options that the relay section of a configuration file sets, the others
/// at their defaults.
pub open spec fn options_of_section(
    section: Option<RelayFileConfig>,
    metrics: MetricsModel,
) -> RelayOptionsModel {
    let base = RelayOptionsModel {
        bind: None,
        ecn: false,
        relay_addresses: Seq::empty(),
        upstream_interface: None,
        upstream_interface_index: None,
        gateway_idle_timeout: Some(Duration::secs_spec(260)),
        gateway_prune_interval: Duration::secs_spec(5),
        path_mtu: 1500,
        pmtu_feedback: false,
        metrics,
        control_rate_per_second: 10,
        control_rate_burst: 20,
        global_control_rate_per_second: 1000,
        global_control_rate_burst: 2000,
    };
    match section {
        None => base,
        Some(config) => {
            let options = RelayOptionsModel {
                bind: config.bind,
                ecn: or_else(config.ecn, false),
                relay_addresses: match config.relay_address {
                    Some(addresses) => addresses.values(),
                    None => Seq::empty(),
                },
                upstream_interface: config.upstream_interface,
                upstream_interface_index: config.upstream_interface_index,
                gateway_idle_timeout: match config.gateway_idle_timeout_secs {
                    Some(seconds) => seconds_or_none(seconds),
                    None => base.gateway_idle_timeout,
                },
                gateway_prune_interval: match config.gateway_prune_interval_secs {
                    Some(seconds) => Duration::secs_spec(seconds),
                    None => base.gateway_prune_interval,
                },
                path_mtu: match config.path_mtu {
                    Some(path_mtu) => path_mtu as int,
                    None => base.path_mtu,
                },
                pmtu_feedback: or_else(config.pmtu_feedback, false),
                ..base
            };
            match config.rate_limit {
                None => options,
                Some(rate) => RelayOptionsModel {
                    control_rate_per_second: or_else(rate.per_source_per_second, 10),
                    control_rate_burst: or_else(rate.per_source_burst, 20),
                    global_control_rate_per_second: or_else(rate.global_per_second, 1000),
                    global_control_rate_burst: or_else(rate.global_burst, 2000),
                    ..options
                },
            }
        },
    }
}

/// The options that a configuration file sets, the others at their defaults.
pub open spec fn relay_from_file(file: Option<&FileConfig>) -> Result<
    RelayOptionsModel,
    CliErrorModel,
> {
    let section = relay_section(file);
    let draft = options_of_section(section, default_metrics());
    if section is Some && section->Some_0.gateway_prune_interval_secs == Some(0u64) {
        words("relay.gateway_prune_interval_secs must not be 0"@)
    } else if !mtu_fits(draft.path_mtu) {
        words("relay path MTU must be between 1280 and 65535 bytes"@)
    } else {
        match metrics_from_file(file) {
            Err(error) => Err(error),
            Ok(metrics) => if draft.control_rate_per_second == 0 || draft.control_rate_burst == 0
                || draft.global_control_rate_per_second == 0 || draft.global_control_rate_burst
                == 0 {
                words("relay rate-limit values must all be greater than 0"@)
            } else {
                Ok(options_of_section(section, metrics))
            },
        }
    }
}

fn copy_addresses(addresses: &crate::config::OneOrMany<IpAddr>) -> (list: Vec<IpAddr>)
    ensures
        list@ == addresses.values(),
{
    let mut list: Vec<IpAddr> = Vec::new();
    let count: usize = addresses.len();
    let mut i: usize = 0;
    while i < count
        invariant
            count == addresses.values().len(),
            i <= count,
            list@ == addresses.values().take(i as int),
        decreases count - i,
    {
        list.push(*addresses.at(i));
        proof {
            assert(addresses.values().take(i + 1) =~= addresses.values().take(i as int).push(
                addresses.values()[i as int],
            ));
        }
        i += 1;
    }
    proof {
        assert(addresses.values().take(i as int) =~= addresses.values());
    }
    list
}

fn section_options(section: Option<&RelayFileConfig>) -> (options: RelayOptions)
    ensures
        options@ == options_of_section(
            match section {
                Some(section) => Some(*section),
                None => None,
            },
            default_metrics(),
        ),
{
    let mut options = RelayOptions {
        bind: None,
        ecn: false,
        relay_addresses: Vec::new(),
        upstream_interface: None,
        upstream_interface_index: None,
        gateway_idle_timeout: Some(Duration::from_secs(DEFAULT_GATEWAY_IDLE_TIMEOUT_SECS)),
        gateway_prune_interval: Duration::from_secs(DEFAULT_GATEWAY_PRUNE_INTERVAL_SECS),
        path_mtu: DEFAULT_RELAY_PATH_MTU,
        pmtu_feedback: false,
        metrics: MetricsConfig::default(),
        control_rate_per_second: DEFAULT_CONTROL_RATE_PER_SECOND,
        control_rate_burst: DEFAULT_CONTROL_RATE_BURST,
        global_control_rate_per_second: DEFAULT_GLOBAL_CONTROL_RATE_PER_SECOND,
        global_control_rate_burst: DEFAULT_GLOBAL_CONTROL_RATE_BURST,
    };
    proof {
        assert(options.relay_addresses@ =~= Seq::empty());
    }
    let config = match section {
        Some(config) => config,
        None => return options,
    };
    options.bind = config.bind;
    options.ecn = config.ecn.unwrap_or(false);
    if let Some(addresses) = &config.relay_address {
        options.relay_addresses = copy_addresses(addresses);
    }
    options.upstream_interface = config.upstream_interface;
    options.upstream_interface_index = config.upstream_interface_index;
    if let Some(seconds) = config.gateway_idle_timeout_secs {
        options.gateway_idle_timeout = optional_seconds(seconds);
    }
    if let Some(seconds) = config.gateway_prune_interval_secs {
        options.gateway_prune_interval = Duration::from_secs(seconds);
    }
    if let Some(path_mtu) = config.path_mtu {
        options.path_mtu = path_mtu;
    }
    options.pmtu_feedback = config.pmtu_feedback.unwrap_or(false);
    if let Some(rate) = &config.rate_limit {
        options.control_rate_per_second = rate.per_source_per_second.unwrap_or(
            DEFAULT_CONTROL_RATE_PER_SECOND,
        );
        options.control_rate_burst = rate.per_source_burst.unwrap_or(DEFAULT_CONTROL_RATE_BURST);
        options.global_control_rate_per_second = rate.global_per_second.unwrap_or(
            DEFAULT_GLOBAL_CONTROL_RATE_PER_SECOND,
        );
        options.global_control_rate_burst = rate.global_burst.unwrap_or(
            DEFAULT_GLOBAL_CONTROL_RATE_BURST,
        );
    }
    options
}

/// The options that a configuration file sets, the others at their defaults.
pub fn relay_options_from_file(file: Option<&FileConfig>) -> (result: Result<
    RelayOptions,
    CliError,
>)
    ensures
        match result {
            Ok(options) => relay_from_file(file) == Ok::<RelayOptionsModel, CliErrorModel>(
                options@,
            ),
            Err(error) => relay_from_file(file) == Err::<RelayOptionsModel, CliErrorModel>(
                error@,
            ),
        },
{
    let section: Option<&RelayFileConfig> = match file {
        Some(file) => file.relay.as_ref(),
        None => None,
    };
    let mut options = section_options(section);
    if let Some(config) = section {
        if config.gateway_prune_interval_secs == Some(0u64) {
            return Err(say("relay.gateway_prune_interval_secs must not be 0"));
        }
    }
    if let Err(error) = validate_path_mtu(options.path_mtu) {
        return Err(error);
    }
    match metrics_config_from_file(file) {
        Ok(metrics) => {
            options.metrics = metrics;
        },
        Err(error) => return Err(error),
    }
    if options.control_rate_per_second == 0 || options.control_rate_burst == 0
        || options.global_control_rate_per_second == 0 || options.global_control_rate_burst == 0 {
        return Err(say("relay rate-limit values must all be greater than 0"));
    }
    Ok(options)
}

/// The value of `--relay-address`.
pub open spec fn relay_address_value(value: Option<AddressText>) -> Result<
    IpAddr,
    CliErrorModel,
> {
    match ip_value(
        value,
        "--relay-address requires an IP address"@,
        "invalid --relay-address "@,
    ) {
        Err(error) => Err(error),
        Ok(address) => if address.unicast_spec() {
            Ok(address)
        } else {
            words("--relay-address must be a unicast address"@)
        },
    }
}

fn read_relay_address(value: Option<&AddressText>) -> (result: Result<IpAddr, CliError>)
    ensures
        said(result) == relay_address_value(owned(value)),
{
    match read_ip(
        value,
        "--relay-address requires an IP address",
        "invalid --relay-address ",
    ) {
        Err(error) => Err(error),
        Ok(address) => if address.is_unicast() {
            Ok(address)
        } else {
            Err(say("--relay-address must be a unicast address"))
        },
    }
}

/// The value of `--path-mtu`.
pub open spec fn path_mtu_value(value: Option<AddressText>) -> Result<usize, CliErrorModel> {
    match number_value(
        value,
        "--path-mtu requires bytes"@,
        "invalid --path-mtu "@,
        usize::MAX as u64,
    ) {
        Err(error) => Err(error),
        Ok(number) => if mtu_fits(number as int) {
            Ok(number as usize)
        } else {
            words("relay path MTU must be between 1280 and 65535 bytes"@)
        },
    }
}

fn read_path_mtu(value: Option<&AddressText>) -> (result: Result<usize, CliError>)
    ensures
        said(result) == path_mtu_value(owned(value)),
{
    match read_number(
        value,
        "--path-mtu requires bytes",
        "invalid --path-mtu ",
        usize::MAX as u64,
    ) {
        Err(error) => Err(error),
        Ok(number) => match validate_path_mtu(number as usize) {
            Ok(()) => Ok(number as usize),
            Err(error) => Err(error),
        },
    }
}

/// What an argument does to the relay's options.
pub open spec fn relay_step(
    o: RelayOptionsModel,
    name: Seq<char>,
    value: Option<AddressText>,
) -> Result<(RelayOptionsModel, Stepped), CliErrorModel> {
    match metrics_step(o.metrics, name, value) {
        Some(Ok((metrics, stepped))) => Ok((RelayOptionsModel { metrics, ..o }, stepped)),
        Some(Err(error)) => Err(error),
        None => relay_own_step(o, name, value),
    }
}

/// What an argument that is not about reports does to the relay's options.
pub open spec fn relay_own_step(
    o: RelayOptionsModel,
    name: Seq<char>,
    value: Option<AddressText>,
) -> Result<(RelayOptionsModel, Stepped), CliErrorModel> {
    if name == "--bind"@ {
        match socket_value(value, "--bind requires an address like 0.0.0.0:2268"@, "invalid --bind address "@) {
            Err(error) => Err(error),
            Ok(v) => Ok((RelayOptionsModel { bind: Some(v), ..o }, Stepped::Valued)),
        }
    } else if name == "--relay-address"@ || name == "--advertise"@ {
        match relay_address_value(value) {
            Err(error) => Err(error),
            Ok(v) => Ok((RelayOptionsModel { relay_addresses: o.relay_addresses.push(v), ..o }, Stepped::Valued)),
        }
    } else if name == "--upstream-interface"@ {
        match ip_value(value, "--upstream-interface requires an IP address"@, "invalid --upstream-interface "@) {
            Err(error) => Err(error),
            Ok(v) => Ok((RelayOptionsModel { upstream_interface: Some(v), ..o }, Stepped::Valued)),
        }
    } else if name == "--upstream-ifindex"@ {
        match positive_value(value, "--upstream-ifindex requires a non-zero interface index"@, "invalid --upstream-ifindex "@, "--upstream-ifindex must not be 0"@, 4294967295) {
            Err(error) => Err(error),
            Ok(v) => Ok((RelayOptionsModel { upstream_interface_index: Some(v as u32), ..o }, Stepped::Valued)),
        }
    } else if name == "--gateway-idle-timeout"@ {
        match number_value(value, "--gateway-idle-timeout requires seconds, or 0 to disable pruning"@, "invalid --gateway-idle-timeout "@, u64::MAX) {
            Err(error) => Err(error),
            Ok(v) => Ok((RelayOptionsModel { gateway_idle_timeout: seconds_or_none(v), ..o }, Stepped::Valued)),
        }
    } else if name == "--gateway-prune-interval"@ {
        match positive_value(value, "--gateway-prune-interval requires a positive number of seconds"@, "invalid --gateway-prune-interval "@, "--gateway-prune-interval must not be 0"@, u64::MAX) {
            Err(error) => Err(error),
            Ok(v) => Ok((RelayOptionsModel { gateway_prune_interval: Duration::secs_spec(v), ..o }, Stepped::Valued)),
        }
    } else if name == "--path-mtu"@ {
        match path_mtu_value(value) {
            Err(error) => Err(error),
            Ok(v) => Ok((RelayOptionsModel { path_mtu: v as int, ..o }, Stepped::Valued)),
        }
    } else if name == "--pmtu-feedback"@ {
        Ok((RelayOptionsModel { pmtu_feedback: true, ..o }, Stepped::Flag))
    } else if name == "--no-pmtu-feedback"@ {
        Ok((RelayOptionsModel { pmtu_feedback: false, ..o }, Stepped::Flag))
    } else if name == "--ecn"@ {
        Ok((RelayOptionsModel { ecn: true, ..o }, Stepped::Flag))
    } else if name == "--no-ecn"@ {
        Ok((RelayOptionsModel { ecn: false, ..o }, Stepped::Flag))
    } else if name == "-h"@ || name == "--help"@ {
        Ok((o, Stepped::Help))
    } else {
        Err(CliErrorModel::UnknownRelayArgument(name))
    }
}

fn apply_relay_own_arg(o: &mut RelayOptions, name: &str, value: Option<&AddressText>) -> (result:
    Result<Stepped, CliError>)
    ensures
        match result {
            Ok(stepped) => relay_own_step(old(o)@, name@, owned(value)) == Ok::<
                (RelayOptionsModel, Stepped),
                CliErrorModel,
            >((final(o)@, stepped)),
            Err(error) => relay_own_step(old(o)@, name@, owned(value)) == Err::<
                (RelayOptionsModel, Stepped),
                CliErrorModel,
            >(error@) && final(o)@ == old(o)@,
        },
{
    if same_text(name, "--bind") {
        match read_socket(value, "--bind requires an address like 0.0.0.0:2268", "invalid --bind address ") {
            Err(error) => Err(error),
            Ok(v) => {
                o.bind = Some(v);
                Ok(Stepped::Valued)
            },
        }
    } else if same_text(name, "--relay-address") || same_text(name, "--advertise") {
        match read_relay_address(value) {
            Err(error) => Err(error),
            Ok(v) => {
                o.relay_addresses.push(v);
                Ok(Stepped::Valued)
            },
        }
    } else if same_text(name, "--upstream-interface") {
        match read_ip(value, "--upstream-interface requires an IP address", "invalid --upstream-interface ") {
            Err(error) => Err(error),
            Ok(v) => {
                o.upstream_interface = Some(v);
                Ok(Stepped::Valued)
            },
        }
    } else if same_text(name, "--upstream-ifindex") {
        match read_positive(value, "--upstream-ifindex requires a non-zero interface index", "invalid --upstream-ifindex ", "--upstream-ifindex must not be 0", 4294967295) {
            Err(error) => Err(error),
            Ok(v) => {
                o.upstream_interface_index = Some(v as u32);
                Ok(Stepped::Valued)
            },
        }
    } else if same_text(name, "--gateway-idle-timeout") {
        match read_number(value, "--gateway-idle-timeout requires seconds, or 0 to disable pruning", "invalid --gateway-idle-timeout ", u64::MAX) {
            Err(error) => Err(error),
            Ok(v) => {
                o.gateway_idle_timeout = optional_seconds(v);
                Ok(Stepped::Valued)
            },
        }
    } else if same_text(name, "--gateway-prune-interval") {
        match read_positive(value, "--gateway-prune-interval requires a positive number of seconds", "invalid --gateway-prune-interval ", "--gateway-prune-interval must not be 0", u64::MAX) {
            Err(error) => Err(error),
            Ok(v) => {
                o.gateway_prune_interval = Duration::from_secs(v);
                Ok(Stepped::Valued)
            },
        }
    } else if same_text(name, "--path-mtu") {
        match read_path_mtu(value) {
            Err(error) => Err(error),
            Ok(v) => {
                o.path_mtu = v;
                Ok(Stepped::Valued)
            },
        }
    } else if same_text(name, "--pmtu-feedback") {
        o.pmtu_feedback = true;
        Ok(Stepped::Flag)
    } else if same_text(name, "--no-pmtu-feedback") {
        o.pmtu_feedback = false;
        Ok(Stepped::Flag)
    } else if same_text(name, "--ecn") {
        o.ecn = true;
        Ok(Stepped::Flag)
    } else if same_text(name, "--no-ecn") {
        o.ecn = false;
        Ok(Stepped::Flag)
    } else if same_text(name, "-h") || same_text(name, "--help") {
        Ok(Stepped::Help)
    } else {
        Err(CliError::UnknownRelayArgument(name.to_owned()))
    }
}

/// Follows one argument.
pub fn apply_relay_arg(o: &mut RelayOptions, name: &str, value: Option<&AddressText>) -> (result:
    Result<Stepped, CliError>)
    ensures
        match result {
            Ok(stepped) => relay_step(old(o)@, name@, owned(value)) == Ok::<
                (RelayOptionsModel, Stepped),
                CliErrorModel,
            >((final(o)@, stepped)),
            Err(error) => relay_step(old(o)@, name@, owned(value)) == Err::<
                (RelayOptionsModel, Stepped),
                CliErrorModel,
            >(error@) && final(o)@ == old(o)@,
        },
{
    match apply_metrics_arg(&mut o.metrics, name, value) {
        Some(result) => result,
        None => apply_relay_own_arg(o, name, value),
    }
}

/// The argument behind another.
pub open spec fn value_at(args: Seq<AddressText>, i: int) -> Option<AddressText> {
    if 0 <= i < args.len() {
        Some(args[i])
    } else {
        None
    }
}

/// The relay's options after the arguments from a place on; none, where help is
/// asked for.
pub open spec fn relay_args(o: RelayOptionsModel, args: Seq<AddressText>, i: int) -> Result<
    Option<RelayOptionsModel>,
    CliErrorModel,
>
    decreases args.len() - i,
{
    if i < 0 || i >= args.len() {
        Ok(Some(o))
    } else {
        match relay_step(o, args[i].text@, value_at(args, i + 1)) {
            Err(error) => Err(error),
            Ok((next, stepped)) => match stepped {
                Stepped::Help => Ok(None),
                Stepped::Flag => relay_args(next, args, i + 1),
                Stepped::Valued => relay_args(next, args, i + 2),
            },
        }
    }
}

fn apply_relay_args(options: RelayOptions, args: &Vec<AddressText>) -> (result: Result<
    Option<RelayOptions>,
    CliError,
>)
    ensures
        match result {
            Ok(Some(after)) => relay_args(options@, args@, 0) == Ok::<
                Option<RelayOptionsModel>,
                CliErrorModel,
            >(Some(after@)),
            Ok(None) => relay_args(options@, args@, 0) == Ok::<
                Option<RelayOptionsModel>,
                CliErrorModel,
            >(None),
            Err(error) => relay_args(options@, args@, 0) == Err::<
                Option<RelayOptionsModel>,
                CliErrorModel,
            >(error@),
        },
{
    let length: usize = args.len();
    let mut o: RelayOptions = options;
    let mut i: usize = 0;
    while i < length
        invariant
            length == args@.len(),
            relay_args(options@, args@, 0) == relay_args(o@, args@, i as int),
        decreases length - i,
    {
        let value: Option<&AddressText> = if length - i > 1 {
            Some(&args[i + 1])
        } else {
            None
        };
        match apply_relay_arg(&mut o, args[i].text.as_str(), value) {
            Err(error) => return Err(error),
            Ok(Stepped::Help) => return Ok(None),
            Ok(Stepped::Flag) => {
                i += 1;
            },
            Ok(Stepped::Valued) => {
                if length - i < 2 {
                    return Ok(Some(o));
                }
                i += 2;
            },
        }
    }
    Ok(Some(o))
}

/// A limit that a configuration file sets, or the one before.
pub open spec fn limit_or(configured: Option<usize>, limit: usize) -> usize {
    or_else(configured, limit)
}

/// The limits that a configuration file sets, the others as they were; none of
/// them may be zero.
pub open spec fn limits_applied(limits: RelayLimits, configured: RelayLimitsFileConfig) -> Result<
    RelayLimits,
    CliErrorModel,
> {
    if configured.max_endpoints == Some(0usize) {
        words("relay.limits.max_endpoints must not be 0"@)
    } else if configured.max_endpoints_per_ip == Some(0usize) {
        words("relay.limits.max_endpoints_per_ip must not be 0"@)
    } else if configured.max_groups_per_endpoint == Some(0usize) {
        words("relay.limits.max_groups_per_endpoint must not be 0"@)
    } else if configured.max_sources_per_group == Some(0usize) {
        words("relay.limits.max_sources_per_group must not be 0"@)
    } else if configured.max_total_endpoint_groups == Some(0usize) {
        words("relay.limits.max_total_endpoint_groups must not be 0"@)
    } else if configured.max_total_sources == Some(0usize) {
        words("relay.limits.max_total_sources must not be 0"@)
    } else if configured.max_upstream_subscriptions == Some(0usize) {
        words("relay.limits.max_upstream_subscriptions must not be 0"@)
    } else if configured.max_records_per_report == Some(0usize) {
        words("relay.limits.max_records_per_report must not be 0"@)
    } else {
        Ok(
            RelayLimits {
                max_endpoints: limit_or(configured.max_endpoints, limits.max_endpoints),
                max_endpoints_per_ip: limit_or(configured.max_endpoints_per_ip, limits.max_endpoints_per_ip),
                max_groups_per_endpoint: limit_or(configured.max_groups_per_endpoint, limits.max_groups_per_endpoint),
                max_sources_per_group: limit_or(configured.max_sources_per_group, limits.max_sources_per_group),
                max_total_endpoint_groups: limit_or(configured.max_total_endpoint_groups, limits.max_total_endpoint_groups),
                max_total_sources: limit_or(configured.max_total_sources, limits.max_total_sources),
                max_upstream_subscriptions: limit_or(configured.max_upstream_subscriptions, limits.max_upstream_subscriptions),
                max_records_per_report: limit_or(configured.max_records_per_report, limits.max_records_per_report),
            },
        )
    }
}

fn choose_limit(configured: Option<usize>, limit: usize) -> (chosen: usize)
    ensures
        chosen == limit_or(configured, limit),
{
    match configured {
        Some(chosen) => chosen,
        None => limit,
    }
}

/// The limits that a configuration file sets, the others as they were.
pub fn apply_relay_limits(limits: RelayLimits, configured: &RelayLimitsFileConfig) -> (result:
    Result<RelayLimits, CliError>)
    ensures
        said(result) == limits_applied(limits, *configured),
{
    if configured.max_endpoints == Some(0usize) {
        return Err(say("relay.limits.max_endpoints must not be 0"));
    }
    if configured.max_endpoints_per_ip == Some(0usize) {
        return Err(say("relay.limits.max_endpoints_per_ip must not be 0"));
    }
    if configured.max_groups_per_endpoint == Some(0usize) {
        return Err(say("relay.limits.max_groups_per_endpoint must not be 0"));
    }
    if configured.max_sources_per_group == Some(0usize) {
        return Err(say("relay.limits.max_sources_per_group must not be 0"));
    }
    if configured.max_total_endpoint_groups == Some(0usize) {
        return Err(say("relay.limits.max_total_endpoint_groups must not be 0"));
    }
    if configured.max_total_sources == Some(0usize) {
        return Err(say("relay.limits.max_total_sources must not be 0"));
    }
    if configured.max_upstream_subscriptions == Some(0usize) {
        return Err(say("relay.limits.max_upstream_subscriptions must not be 0"));
    }
    if configured.max_records_per_report == Some(0usize) {
        return Err(say("relay.limits.max_records_per_report must not be 0"));
    }
    Ok(
        RelayLimits {
            max_endpoints: choose_limit(configured.max_endpoints, limits.max_endpoints),
            max_endpoints_per_ip: choose_limit(configured.max_endpoints_per_ip, limits.max_endpoints_per_ip),
            max_groups_per_endpoint: choose_limit(configured.max_groups_per_endpoint, limits.max_groups_per_endpoint),
            max_sources_per_group: choose_limit(configured.max_sources_per_group, limits.max_sources_per_group),
            max_total_endpoint_groups: choose_limit(configured.max_total_endpoint_groups, limits.max_total_endpoint_groups),
            max_total_sources: choose_limit(configured.max_total_sources, limits.max_total_sources),
            max_upstream_subscriptions: choose_limit(configured.max_upstream_subscriptions, limits.max_upstream_subscriptions),
            max_records_per_report: choose_limit(configured.max_records_per_report, limits.max_records_per_report),
        },
    )
}

/// The address that a relay listens on unless told otherwise: an IPv6 one where
/// it advertises IPv6 addresses alone.
pub open spec fn inferred_bind(addresses: Seq<IpAddr>) -> SocketAddr {
    let any_v6 = exists|i: int| 0 <= i < addresses.len() && (#[trigger] addresses[i]) is V6;
    let any_v4 = exists|i: int| 0 <= i < addresses.len() && (#[trigger] addresses[i]) is V4;
    if any_v6 && !any_v4 {
        SocketAddr::of(IpAddr::V6(Ipv6Addr { bits: 0 }), AMT_PORT)
    } else {
        SocketAddr::of(IpAddr::V4(Ipv4Addr { bits: 0 }), AMT_PORT)
    }
}

/// A relay's configuration with addresses advertised, the last of each family.
pub open spec fn advertising(config: RelayConfigModel, addresses: Seq<IpAddr>) -> RelayConfigModel
    decreases addresses.len(),
{
    if addresses.len() == 0 {
        config
    } else {
        let before = advertising(config, addresses.drop_last());
        match addresses.last() {
            IpAddr::V4(a) => RelayConfigModel { advertise_ipv4: a, ..before },
            IpAddr::V6(a) => RelayConfigModel { advertise_ipv6: a, ..before },
        }
    }
}

/// The configuration of the relay itself, but for its limits.
pub open spec fn relay_config_of(
    o: RelayOptionsModel,
    section: Option<RelayFileConfig>,
    secret: Seq<u8>,
) -> RelayConfigModel {
    let bind = or_else(o.bind, inferred_bind(o.relay_addresses));
    let config = advertising(
        RelayConfigModel { ecn: o.ecn, ..config_for_bind(bind, secret) },
        o.relay_addresses,
    );
    match section {
        Some(section) => match section.secret_rotation_secs {
            Some(seconds) => RelayConfigModel {
                secret_rotation_interval: seconds_or_none(seconds),
                ..config
            },
            None => config,
        },
        None => config,
    }
}

/// The limits of the relay.
pub open spec fn relay_limits_of(section: Option<RelayFileConfig>) -> Result<
    RelayLimits,
    CliErrorModel,
> {
    match section {
        Some(section) => match section.limits {
            Some(configured) => limits_applied(RelayLimits::default_spec(), configured),
            None => Ok(RelayLimits::default_spec()),
        },
        None => Ok(RelayLimits::default_spec()),
    }
}

/// How options set up a relay daemon under a secret.
pub open spec fn relay_finished(
    o: RelayOptionsModel,
    section: Option<RelayFileConfig>,
    secret: Seq<u8>,
) -> Result<RelayDaemonModel, CliErrorModel> {
    if exists|i: int|
        0 <= i < o.relay_addresses.len() && !(#[trigger] o.relay_addresses[i]).unicast_spec() {
        words("relay.relay_address must be a unicast address"@)
    } else if o.pmtu_feedback && o.upstream_interface is None {
        words("PMTU feedback requires --upstream-interface IP"@)
    } else {
        match relay_limits_of(section) {
            Err(error) => Err(error),
            Ok(limits) => {
                let config = RelayDaemonModel {
                    relay: RelayConfigModel { limits, ..relay_config_of(o, section, secret) },
                    upstream: UpstreamConfig {
                        interface: o.upstream_interface,
                        interface_index: o.upstream_interface_index,
                    },
                    gateway_idle_timeout: o.gateway_idle_timeout,
                    gateway_prune_interval: o.gateway_prune_interval,
                    path_mtu: o.path_mtu,
                    pmtu_feedback: o.pmtu_feedback,
                    control_rate_per_second: o.control_rate_per_second,
                    control_rate_burst: o.control_rate_burst,
                    global_control_rate_per_second: o.global_control_rate_per_second,
                    global_control_rate_burst: o.global_control_rate_burst,
                    metrics: o.metrics,
                };
                match relay_daemon_error(config) {
                    Some(error) => Err(CliErrorModel::Daemon(error)),
                    None => Ok(config),
                }
            },
        }
    }
}

fn infer_bind(addresses: &Vec<IpAddr>) -> (bind: SocketAddr)
    ensures
        bind == inferred_bind(addresses@),
{
    let mut any_v6: bool = false;
    let mut any_v4: bool = false;
    let mut i: usize = 0;
    while i < addresses.len()
        invariant
            i <= addresses@.len(),
            any_v6 == exists|k: int| 0 <= k < i && (#[trigger] addresses@[k]) is V6,
            any_v4 == exists|k: int| 0 <= k < i && (#[trigger] addresses@[k]) is V4,
        decreases addresses@.len() - i,
    {
        let ghost next = addresses@[i as int];
        if addresses[i].is_ipv6() {
            any_v6 = true;
        } else {
            any_v4 = true;
        }
        proof {
            assert(addresses@[i as int] == next);
        }
        i += 1;
    }
    if any_v6 && !any_v4 {
        SocketAddr::new(IpAddr::V6(Ipv6Addr { bits: 0 }), AMT_PORT)
    } else {
        SocketAddr::new(IpAddr::V4(Ipv4Addr { bits: 0 }), AMT_PORT)
    }
}

fn advertise(config: RelayConfig, addresses: &Vec<IpAddr>) -> (after: RelayConfig)
    ensures
        after@ == advertising(config@, addresses@),
{
    let mut after: RelayConfig = config;
    let mut i: usize = 0;
    proof {
        assert(addresses@.take(0) =~= Seq::empty());
    }
    while i < addresses.len()
        invariant
            i <= addresses@.len(),
            after@ == advertising(config@, addresses@.take(i as int)),
        decreases addresses@.len() - i,
    {
        proof {
            assert(addresses@.take(i + 1).drop_last() =~= addresses@.take(i as int));
        }
        after = after.with_advertise_addr(addresses[i]);
        i += 1;
    }
    proof {
        assert(addresses@.take(i as int) =~= addresses@);
    }
    after
}

/// The relay section of a configuration file.
pub open spec fn section_of(section: Option<&RelayFileConfig>) -> Option<RelayFileConfig> {
    match section {
        Some(section) => Some(*section),
        None => None,
    }
}

/// The secret that a draw gave; empty, where it gave none.
pub open spec fn drawn_secret(secret: Result<RelaySecret, RandomnessError>) -> Seq<u8> {
    match secret {
        Ok(secret) => secret@,
        Err(_) => Seq::empty(),
    }
}

/// Sets up a relay daemon under the secret that a draw gave.  That it gave none
/// is an error only where nothing else is.
pub fn finish_relay_config(
    o: RelayOptions,
    section: Option<&RelayFileConfig>,
    secret: Result<RelaySecret, RandomnessError>,
) -> (result: Result<RelayDaemonConfig, CliError>)
    ensures
        match relay_finished(o@, section_of(section), drawn_secret(secret)) {
            Err(error) => result matches Err(actual) && actual@ == error,
            Ok(model) => match secret {
                Ok(_) => result matches Ok(config) && config@ == model,
                Err(error) => result == Err::<RelayDaemonConfig, CliError>(
                    CliError::Randomness(error),
                ),
            },
        },
{
    let ghost drawn = drawn_secret(secret);
    let (secret, failure) = match secret {
        Ok(secret) => (secret, None),
        Err(error) => (RelaySecret::new([0u8; 32]), Some(error)),
    };
    proof {
        lemma_secrets_decide_nothing(o@, section_of(section), secret@, drawn);
    }
    let mut i: usize = 0;
    while i < o.relay_addresses.len()
        invariant
            i <= o.relay_addresses@.len(),
            forall|k: int| 0 <= k < i ==> (#[trigger] o.relay_addresses@[k]).unicast_spec(),
        decreases o.relay_addresses@.len() - i,
    {
        if !o.relay_addresses[i].is_unicast() {
            return Err(say("relay.relay_address must be a unicast address"));
        }
        i += 1;
    }
    if o.pmtu_feedback && o.upstream_interface.is_none() {
        return Err(say("PMTU feedback requires --upstream-interface IP"));
    }
    let bind = match o.bind {
        Some(bind) => bind,
        None => infer_bind(&o.relay_addresses),
    };
    let mut config = RelayConfig::with_secret(bind, secret);
    config.ecn = o.ecn;
    config = advertise(config, &o.relay_addresses);
    proof {
        lemma_advertising_keeps(
            RelayConfigModel { ecn: o.ecn, ..config_for_bind(bind, secret@) },
            o.relay_addresses@,
        );
    }
    if let Some(section) = section {
        if let Some(seconds) = section.secret_rotation_secs {
            config.secret_rotation_interval = optional_seconds(seconds);
        }
        if let Some(configured) = &section.limits {
            match apply_relay_limits(RelayLimits::default(), configured) {
                Ok(limits) => {
                    config.limits = limits;
                },
                Err(error) => return Err(error),
            }
        }
    }
    let daemon = RelayDaemonConfig {
        relay: config,
        upstream: UpstreamConfig {
            interface: o.upstream_interface,
            interface_index: o.upstream_interface_index,
        },
        gateway_idle_timeout: o.gateway_idle_timeout,
        gateway_prune_interval: o.gateway_prune_interval,
        path_mtu: o.path_mtu,
        pmtu_feedback: o.pmtu_feedback,
        control_rate_per_second: o.control_rate_per_second,
        control_rate_burst: o.control_rate_burst,
        global_control_rate_per_second: o.global_control_rate_per_second,
        global_control_rate_burst: o.global_control_rate_burst,
        metrics: o.metrics,
    };
    if let Err(error) = daemon.validate() {
        return Err(CliError::Daemon(error));
    }
    match failure {
        None => Ok(daemon),
        Some(error) => Err(CliError::Randomness(error)),
    }
}

proof fn lemma_advertising_keeps_secrets(
    config: RelayConfigModel,
    addresses: Seq<IpAddr>,
    secret: Seq<u8>,
)
    ensures
        advertising(RelayConfigModel { secret, ..config }, addresses) == (RelayConfigModel {
            secret,
            ..advertising(config, addresses)
        }),
    decreases addresses.len(),
{
    if addresses.len() > 0 {
        lemma_advertising_keeps_secrets(config, addresses.drop_last(), secret);
    }
}

/// A relay daemon's configuration under another secret.
pub open spec fn under_secret(config: RelayDaemonModel, secret: Seq<u8>) -> RelayDaemonModel {
    RelayDaemonModel { relay: RelayConfigModel { secret, ..config.relay }, ..config }
}

proof fn lemma_secrets_decide_nothing(
    o: RelayOptionsModel,
    section: Option<RelayFileConfig>,
    secret: Seq<u8>,
    other: Seq<u8>,
)
    ensures
        relay_finished(o, section, other) == match relay_finished(o, section, secret) {
            Ok(config) => Ok::<RelayDaemonModel, CliErrorModel>(under_secret(config, other)),
            Err(error) => Err(error),
        },
{
    let bind = or_else(o.bind, inferred_bind(o.relay_addresses));
    lemma_advertising_keeps_secrets(
        RelayConfigModel { ecn: o.ecn, ..config_for_bind(bind, secret) },
        o.relay_addresses,
        other,
    );
}

proof fn lemma_advertising_keeps(config: RelayConfigModel, addresses: Seq<IpAddr>)
    ensures
        advertising(config, addresses).limits == config.limits,
    decreases addresses.len(),
{
    if addresses.len() > 0 {
        lemma_advertising_keeps(config, addresses.drop_last());
    }
}

/// What a command line and a configuration file say about a relay; none, where
/// help is asked for.
pub open spec fn relay_options(args: Seq<AddressText>, file: Option<&FileConfig>) -> Result<
    Option<RelayOptionsModel>,
    CliErrorModel,
> {
    match relay_from_file(file) {
        Err(error) => Err(error),
        Ok(options) => relay_args(options, args, 0),
    }
}

/// How a command line and a configuration file set up a relay daemon under a
/// secret.
pub open spec fn relay_setup(
    args: Seq<AddressText>,
    file: Option<&FileConfig>,
    secret: Seq<u8>,
) -> Result<Option<RelayDaemonModel>, CliErrorModel> {
    match relay_options(args, file) {
        Err(error) => Err(error),
        Ok(None) => Ok(None),
        Ok(Some(o)) => match relay_finished(o, relay_section(file), secret) {
            Err(error) => Err(error),
            Ok(config) => Ok(Some(config)),
        },
    }
}

/// A setup in terms of what it says.
pub open spec fn setup_said(result: Result<Option<RelayDaemonConfig>, CliError>) -> Result<
    Option<RelayDaemonModel>,
    CliErrorModel,
> {
    match result {
        Ok(Some(config)) => Ok(Some(config@)),
        Ok(None) => Ok(None),
        Err(error) => Err(error@),
    }
}

/// A secret decides nothing about how a relay daemon is set up, but for the
/// secret itself.
pub proof fn law_secrets_decide_nothing(
    args: Seq<AddressText>,
    file: Option<&FileConfig>,
    secret: Seq<u8>,
    other: Seq<u8>,
)
    ensures
        relay_setup(args, file, other) == match relay_setup(args, file, secret) {
            Ok(Some(config)) => Ok::<Option<RelayDaemonModel>, CliErrorModel>(
                Some(under_secret(config, other)),
            ),
            Ok(None) => Ok(None),
            Err(error) => Err(error),
        },
{
    if let Ok(Some(o)) = relay_options(args, file) {
        lemma_secrets_decide_nothing(o, relay_section(file), secret, other);
    }
}

fn read_relay_options(args: &Vec<AddressText>, file: Option<&FileConfig>) -> (result: Result<
    Option<RelayOptions>,
    CliError,
>)
    ensures
        match relay_options(args@, file) {
            Err(error) => result matches Err(actual) && actual@ == error,
            Ok(None) => result matches Ok(None),
            Ok(Some(o)) => result matches Ok(Some(options)) && options@ == o,
        },
{
    match relay_options_from_file(file) {
        Ok(options) => apply_relay_args(options, args),
        Err(error) => Err(error),
    }
}

fn find_relay_section<'a>(file: Option<&'a FileConfig>) -> (section: Option<&'a RelayFileConfig>)
    ensures
        section_of(section) == relay_section(file),
{
    match file {
        Some(file) => file.relay.as_ref(),
        None => None,
    }
}

/// Sets up a relay daemon by a command line and a configuration file, under the
/// secret that a draw gave.  That it gave none is an error only where nothing
/// else is.
pub fn parse_relay_config_with(
    args: &Vec<AddressText>,
    file: Option<&FileConfig>,
    secret: Result<RelaySecret, RandomnessError>,
) -> (result: Result<Option<RelayDaemonConfig>, CliError>)
    ensures
        match relay_setup(args@, file, drawn_secret(secret)) {
            Err(error) => result matches Err(actual) && actual@ == error,
            Ok(None) => result matches Ok(None),
            Ok(Some(model)) => match secret {
                Ok(_) => result matches Ok(Some(config)) && config@ == model,
                Err(error) => result == Err::<Option<RelayDaemonConfig>, CliError>(
                    CliError::Randomness(error),
                ),
            },
        },
{
    let options = match read_relay_options(args, file) {
        Ok(Some(options)) => options,
        Ok(None) => return Ok(None),
        Err(error) => return Err(error),
    };
    match finish_relay_config(options, find_relay_section(file), secret) {
        Ok(config) => Ok(Some(config)),
        Err(error) => Err(error),
    }
}

/// Sets up a relay daemon by a command line and a configuration file, under a
/// random secret.
pub fn parse_relay_config(args: &Vec<AddressText>, file: Option<&FileConfig>) -> (result: Result<
    Option<RelayDaemonConfig>,
    CliError,
>)
    ensures
        match relay_setup(args@, file, Seq::empty()) {
            Err(error) => result matches Err(actual) && actual@ == error,
            Ok(None) => result matches Ok(None),
            Ok(Some(_)) => (result matches Err(error) && error is Randomness) || exists|
                secret: Seq<u8>,
            |
                setup_said(result) == #[trigger] relay_setup(args@, file, secret),
        },
{
    let options = match read_relay_options(args, file) {
        Ok(Some(options)) => options,
        Ok(None) => return Ok(None),
        Err(error) => return Err(error),
    };
    let secret = RelaySecret::try_generate();
    proof {
        law_secrets_decide_nothing(args@, file, Seq::empty(), drawn_secret(secret));
    }
    match finish_relay_config(options, find_relay_section(file), secret) {
        Ok(config) => Ok(Some(config)),
        Err(error) => Err(error),
    }
}

/// An argument of a relay that takes a value sets its own option to the argument
/// behind it and leaves the others alone; a value that the option cannot have is
/// refused.
pub proof fn law_relay_arguments_set_options(
    o: RelayOptionsModel,
    args: Seq<AddressText>,
    i: int,
    n: u64,
)
    requires
        0 <= i && i + 1 < args.len(),
    ensures
        ({
            let name = args[i].text@;
            let value = args[i + 1];
            let spelled = number(encode_utf8(value.text@));
            &&& name == "--bind"@ ==> (value.socket matches Some(v) ==> relay_args(o, args, i)
                == relay_args(RelayOptionsModel { bind: Some(v), ..o }, args, i + 2))
            &&& name == "--bind"@ && value.socket is None ==> relay_args(o, args, i) is Err
            &&& name == "--relay-address"@ ==> (value.ip is Some && value.ip->Some_0.unicast_spec() ==> relay_args(o, args, i)
                == relay_args(RelayOptionsModel { relay_addresses: o.relay_addresses.push(value.ip->Some_0), ..o }, args, i + 2))
            &&& name == "--relay-address"@ ==> (value.ip is Some && !value.ip->Some_0.unicast_spec() ==> relay_args(o, args, i) is Err)
            &&& name == "--relay-address"@ && value.ip is None ==> relay_args(o, args, i) is Err
            &&& name == "--advertise"@ ==> (value.ip is Some && value.ip->Some_0.unicast_spec() ==> relay_args(o, args, i)
                == relay_args(RelayOptionsModel { relay_addresses: o.relay_addresses.push(value.ip->Some_0), ..o }, args, i + 2))
            &&& name == "--advertise"@ ==> (value.ip is Some && !value.ip->Some_0.unicast_spec() ==> relay_args(o, args, i) is Err)
            &&& name == "--advertise"@ && value.ip is None ==> relay_args(o, args, i) is Err
            &&& name == "--upstream-interface"@ ==> (value.ip matches Some(v) ==> relay_args(o, args, i)
                == relay_args(RelayOptionsModel { upstream_interface: Some(v), ..o }, args, i + 2))
            &&& name == "--upstream-interface"@ && value.ip is None ==> relay_args(o, args, i) is Err
            &&& name == "--upstream-ifindex"@ && spelled == Some(n as nat) && 1 <= n <= u32::MAX ==> relay_args(o, args, i)
                == relay_args(RelayOptionsModel { upstream_interface_index: Some(n as u32), ..o }, args, i + 2)
            &&& name == "--upstream-ifindex"@ && (spelled is None || spelled->Some_0 < 1 || spelled->Some_0
                > u32::MAX) ==> relay_args(o, args, i) is Err
            &&& name == "--gateway-prune-interval"@ && spelled == Some(n as nat) && 1 <= n <= u64::MAX ==> relay_args(o, args, i)
                == relay_args(RelayOptionsModel { gateway_prune_interval: Duration::secs_spec(n), ..o }, args, i + 2)
            &&& name == "--gateway-prune-interval"@ && (spelled is None || spelled->Some_0 < 1 || spelled->Some_0
                > u64::MAX) ==> relay_args(o, args, i) is Err
            &&& name == "--path-mtu"@ && spelled == Some(n as nat) && 1280 <= n <= 65535 ==> relay_args(o, args, i)
                == relay_args(RelayOptionsModel { path_mtu: n as int, ..o }, args, i + 2)
            &&& name == "--path-mtu"@ && (spelled is None || spelled->Some_0 < 1280 || spelled->Some_0
                > 65535) ==> relay_args(o, args, i) is Err
            &&& name == "--metrics-dir"@ ==> relay_args(o, args, i)
                == relay_args(RelayOptionsModel { metrics: MetricsModel { output_dir: Some(value.text@), ..o.metrics }, ..o }, args, i + 2)
            &&& name == "--node-id"@ ==> relay_args(o, args, i)
                == relay_args(RelayOptionsModel { metrics: MetricsModel { node_id: value.text@, ..o.metrics }, ..o }, args, i + 2)
            &&& name == "--metrics-interval-ms"@ && spelled == Some(n as nat) && 0 <= n <= u64::MAX ==> relay_args(o, args, i)
                == relay_args(RelayOptionsModel { metrics: MetricsModel { sample_interval: Duration::millis_spec(n), ..o.metrics }, ..o }, args, i + 2)
            &&& name == "--metrics-interval-ms"@ && (spelled is None || spelled->Some_0 < 0 || spelled->Some_0
                > u64::MAX) ==> relay_args(o, args, i) is Err
            &&& name == "--gateway-idle-timeout"@ && spelled == Some(n as nat) && n > 0 ==> relay_args(
                o, args, i) == relay_args(RelayOptionsModel { gateway_idle_timeout: Some(Duration::secs_spec(n)), ..o }, args, i + 2)
            &&& name == "--gateway-idle-timeout"@ && spelled == Some(0nat) ==> relay_args(o, args, i)
                == relay_args(RelayOptionsModel { gateway_idle_timeout: None, ..o }, args, i + 2)
            &&& name == "--gateway-idle-timeout"@ && (spelled is None || spelled->Some_0
                > u64::MAX) ==> relay_args(o, args, i) is Err
        }),
{
    reveal_strlit("--bind");
    reveal_strlit("--relay-address");
    reveal_strlit("--advertise");
    reveal_strlit("--upstream-interface");
    reveal_strlit("--upstream-ifindex");
    reveal_strlit("--gateway-prune-interval");
    reveal_strlit("--path-mtu");
    reveal_strlit("--metrics-dir");
    reveal_strlit("--node-id");
    reveal_strlit("--metrics-interval-ms");
    reveal_strlit("--gateway-idle-timeout");
    reveal_strlit("--pmtu-feedback");
    reveal_strlit("--no-pmtu-feedback");
    reveal_strlit("--ecn");
    reveal_strlit("--no-ecn");
    reveal_strlit("-h");
    reveal_strlit("--help");
    assert("--bind"@.len() == 6);
    assert("--relay-address"@.len() == 15);
    assert("--advertise"@.len() == 11);
    assert("--upstream-interface"@.len() == 20);
    assert("--upstream-ifindex"@.len() == 18);
    assert("--gateway-prune-interval"@.len() == 24);
    assert("--path-mtu"@.len() == 10);
    assert("--metrics-dir"@.len() == 13);
    assert("--node-id"@.len() == 9);
    assert("--metrics-interval-ms"@.len() == 21);
    assert("--gateway-idle-timeout"@.len() == 22);
    assert("--pmtu-feedback"@.len() == 15);
    assert("--no-pmtu-feedback"@.len() == 18);
    assert("--ecn"@.len() == 5);
    assert("--no-ecn"@.len() == 8);
    assert("-h"@.len() == 2);
    assert("--help"@.len() == 6);
    assert("--bind"@[2] != "--help"@[2]);
    assert("--relay-address"@[2] != "--pmtu-feedback"@[2]);
    assert("--upstream-ifindex"@[2] != "--no-pmtu-feedback"@[2]);
}

/// An argument of a relay that takes no value turns its own option on or off.
/// One that asks for help ends the rest, and one that is not known is refused, as
/// is one that lacks its value.
pub proof fn law_relay_arguments_turn_options(
    o: RelayOptionsModel,
    args: Seq<AddressText>,
    i: int,
)
    requires
        0 <= i < args.len(),
    ensures
        ({
            let name = args[i].text@;
            &&& name == "--pmtu-feedback"@ ==> relay_args(o, args, i) == relay_args(RelayOptionsModel { pmtu_feedback: true, ..o }, args, i + 1)
            &&& name == "--no-pmtu-feedback"@ ==> relay_args(o, args, i) == relay_args(RelayOptionsModel { pmtu_feedback: false, ..o }, args, i + 1)
            &&& name == "--ecn"@ ==> relay_args(o, args, i) == relay_args(RelayOptionsModel { ecn: true, ..o }, args, i + 1)
            &&& name == "--no-ecn"@ ==> relay_args(o, args, i) == relay_args(RelayOptionsModel { ecn: false, ..o }, args, i + 1)
            &&& name == "-h"@ || name == "--help"@ ==> relay_args(o, args, i)
                == Ok::<Option<RelayOptionsModel>, CliErrorModel>(None)
            &&& (name == "--bind"@ || name == "--relay-address"@ || name == "--advertise"@ || name == "--upstream-interface"@ || name == "--upstream-ifindex"@ || name == "--gateway-prune-interval"@ || name == "--path-mtu"@ || name == "--metrics-dir"@ || name == "--node-id"@ || name == "--metrics-interval-ms"@ || name == "--gateway-idle-timeout"@) && i + 1 == args.len() ==> relay_args(o, args, i) is Err
            &&& (name != "--bind"@ && name != "--relay-address"@ && name != "--advertise"@ && name != "--upstream-interface"@ && name != "--upstream-ifindex"@ && name != "--gateway-prune-interval"@ && name != "--path-mtu"@ && name != "--metrics-dir"@ && name != "--node-id"@ && name != "--metrics-interval-ms"@ && name != "--gateway-idle-timeout"@ && name != "--pmtu-feedback"@ && name != "--no-pmtu-feedback"@ && name != "--ecn"@ && name != "--no-ecn"@ && name != "-h"@ && name != "--help"@) ==> relay_args(o, args, i) == Err::<Option<RelayOptionsModel>, CliErrorModel>(
                CliErrorModel::UnknownRelayArgument(name))
        }),
        relay_args(o, args, args.len() as int) == Ok::<Option<RelayOptionsModel>, CliErrorModel>(Some(o)),
{
    reveal_strlit("--bind");
    reveal_strlit("--relay-address");
    reveal_strlit("--advertise");
    reveal_strlit("--upstream-interface");
    reveal_strlit("--upstream-ifindex");
    reveal_strlit("--gateway-prune-interval");
    reveal_strlit("--path-mtu");
    reveal_strlit("--metrics-dir");
    reveal_strlit("--node-id");
    reveal_strlit("--metrics-interval-ms");
    reveal_strlit("--gateway-idle-timeout");
    reveal_strlit("--pmtu-feedback");
    reveal_strlit("--no-pmtu-feedback");
    reveal_strlit("--ecn");
    reveal_strlit("--no-ecn");
    reveal_strlit("-h");
    reveal_strlit("--help");
    assert("--bind"@.len() == 6);
    assert("--relay-address"@.len() == 15);
    assert("--advertise"@.len() == 11);
    assert("--upstream-interface"@.len() == 20);
    assert("--upstream-ifindex"@.len() == 18);
    assert("--gateway-prune-interval"@.len() == 24);
    assert("--path-mtu"@.len() == 10);
    assert("--metrics-dir"@.len() == 13);
    assert("--node-id"@.len() == 9);
    assert("--metrics-interval-ms"@.len() == 21);
    assert("--gateway-idle-timeout"@.len() == 22);
    assert("--pmtu-feedback"@.len() == 15);
    assert("--no-pmtu-feedback"@.len() == 18);
    assert("--ecn"@.len() == 5);
    assert("--no-ecn"@.len() == 8);
    assert("-h"@.len() == 2);
    assert("--help"@.len() == 6);
    assert("--bind"@[2] != "--help"@[2]);
    assert("--relay-address"@[2] != "--pmtu-feedback"@[2]);
    assert("--upstream-ifindex"@[2] != "--no-pmtu-feedback"@[2]);
}

/// Limits that a configuration file sets take the place of those before, and a
/// limit of zero is refused.
pub proof fn law_limits_are_taken_from_files(
    limits: RelayLimits,
    configured: RelayLimitsFileConfig,
)
    ensures
        limits_applied(limits, configured) is Ok <==> !(configured.max_endpoints == Some(0usize)
            || configured.max_endpoints_per_ip == Some(0usize)
            || configured.max_groups_per_endpoint == Some(0usize)
            || configured.max_sources_per_group == Some(0usize)
            || configured.max_total_endpoint_groups == Some(0usize)
            || configured.max_total_sources == Some(0usize)
            || configured.max_upstream_subscriptions == Some(0usize)
            || configured.max_records_per_report == Some(0usize)),
        limits_applied(limits, configured) is Ok ==> {
            let limited = limits_applied(limits, configured)->Ok_0;
            &&& configured.max_endpoints is None ==> limited.max_endpoints == limits.max_endpoints
            &&& configured.max_endpoints is Some ==> limited.max_endpoints == configured.max_endpoints->Some_0
            &&& configured.max_endpoints_per_ip is None ==> limited.max_endpoints_per_ip == limits.max_endpoints_per_ip
            &&& configured.max_endpoints_per_ip is Some ==> limited.max_endpoints_per_ip == configured.max_endpoints_per_ip->Some_0
            &&& configured.max_groups_per_endpoint is None ==> limited.max_groups_per_endpoint == limits.max_groups_per_endpoint
            &&& configured.max_groups_per_endpoint is Some ==> limited.max_groups_per_endpoint == configured.max_groups_per_endpoint->Some_0
            &&& configured.max_sources_per_group is None ==> limited.max_sources_per_group == limits.max_sources_per_group
            &&& configured.max_sources_per_group is Some ==> limited.max_sources_per_group == configured.max_sources_per_group->Some_0
            &&& configured.max_total_endpoint_groups is None ==> limited.max_total_endpoint_groups == limits.max_total_endpoint_groups
            &&& configured.max_total_endpoint_groups is Some ==> limited.max_total_endpoint_groups == configured.max_total_endpoint_groups->Some_0
            &&& configured.max_total_sources is None ==> limited.max_total_sources == limits.max_total_sources
            &&& configured.max_total_sources is Some ==> limited.max_total_sources == configured.max_total_sources->Some_0
            &&& configured.max_upstream_subscriptions is None ==> limited.max_upstream_subscriptions == limits.max_upstream_subscriptions
            &&& configured.max_upstream_subscriptions is Some ==> limited.max_upstream_subscriptions == configured.max_upstream_subscriptions->Some_0
            &&& configured.max_records_per_report is None ==> limited.max_records_per_report == limits.max_records_per_report
            &&& configured.max_records_per_report is Some ==> limited.max_records_per_report == configured.max_records_per_report->Some_0
        },
{
}

/// A relay advertises the last address that it is given of each family, and keeps
/// its own where it is given none of that family.
pub proof fn law_the_last_address_is_advertised(
    config: RelayConfigModel,
    addresses: Seq<IpAddr>,
    k: int,
)
    ensures
        ({
            let advertised = advertising(config, addresses);
            &&& 0 <= k < addresses.len() && addresses[k] is V4 && (forall|j: int|
                k < j < addresses.len() ==> (#[trigger] addresses[j]) is V6)
                ==> advertised.advertise_ipv4 == addresses[k]->V4_0
            &&& 0 <= k < addresses.len() && addresses[k] is V6 && (forall|j: int|
                k < j < addresses.len() ==> (#[trigger] addresses[j]) is V4)
                ==> advertised.advertise_ipv6 == addresses[k]->V6_0
            &&& (forall|j: int| 0 <= j < addresses.len() ==> (#[trigger] addresses[j]) is V6)
                ==> advertised.advertise_ipv4 == config.advertise_ipv4
            &&& (forall|j: int| 0 <= j < addresses.len() ==> (#[trigger] addresses[j]) is V4)
                ==> advertised.advertise_ipv6 == config.advertise_ipv6
            &&& advertised == (RelayConfigModel {
                advertise_ipv4: advertised.advertise_ipv4,
                advertise_ipv6: advertised.advertise_ipv6,
                ..config
            })
        }),
    decreases addresses.len(),
{
    if addresses.len() > 0 {
        let before = addresses.drop_last();
        law_the_last_address_is_advertised(config, before, k);
        assert forall|j: int| 0 <= j < before.len() implies (#[trigger] before[j])
            == addresses[j] by {}
    }
}

/// A relay listens where it is told, else at port 2268 of every address: of IPv6,
/// where all the addresses that it is given are of IPv6, and of IPv4 otherwise.
pub proof fn law_relays_listen_where_told(
    o: RelayOptionsModel,
    section: Option<RelayFileConfig>,
    secret: Seq<u8>,
)
    ensures
        ({
            let config = relay_config_of(o, section, secret);
            let n = o.relay_addresses.len();
            let six = n > 0 && forall|i: int| 0 <= i < n ==> (#[trigger] o.relay_addresses[i]) is V6;
            &&& o.bind is Some ==> config.bind == o.bind->Some_0
            &&& o.bind is None ==> config.bind.port_spec() == 2268
            &&& o.bind is None && six ==> config.bind.ip_spec() == IpAddr::V6(Ipv6Addr { bits: 0 })
            &&& o.bind is None && !six ==> config.bind.ip_spec() == IpAddr::V4(Ipv4Addr { bits: 0 })
            &&& config.secret == secret && config.ecn == o.ecn
            &&& section is None || section->Some_0.secret_rotation_secs is None
                ==> config.secret_rotation_interval == Some(Duration::secs_spec(7200))
            &&& section is Some && section->Some_0.secret_rotation_secs == Some(0u64)
                ==> config.secret_rotation_interval is None
            &&& section is Some && section->Some_0.secret_rotation_secs is Some
                && section->Some_0.secret_rotation_secs->Some_0 > 0
                ==> config.secret_rotation_interval == Some(
                Duration::secs_spec(section->Some_0.secret_rotation_secs->Some_0),
            )
        }),
{
    lemma_advertising_keeps(
        RelayConfigModel {
            ecn: o.ecn,
            ..config_for_bind(or_else(o.bind, inferred_bind(o.relay_addresses)), secret)
        },
        o.relay_addresses,
    );
    law_the_last_address_is_advertised(
        RelayConfigModel {
            ecn: o.ecn,
            ..config_for_bind(or_else(o.bind, inferred_bind(o.relay_addresses)), secret)
        },
        o.relay_addresses,
        0,
    );
    if o.relay_addresses.len() > 0 {
        let first = o.relay_addresses[0];
        assert(first is V4 || first is V6);
    }
}

/// A relay is set up only with unicast addresses to advertise, only with an
/// interface to send feedback from where it sends any, and only where gateways
/// outlive the query interval; then every option is taken over.
pub proof fn law_relays_are_set_up_as_told(
    o: RelayOptionsModel,
    section: Option<RelayFileConfig>,
    secret: Seq<u8>,
)
    ensures
        (exists|i: int|
            0 <= i < o.relay_addresses.len() && !(#[trigger] o.relay_addresses[i]).unicast_spec())
            ==> relay_finished(o, section, secret) is Err,
        o.pmtu_feedback && o.upstream_interface is None ==> relay_finished(o, section, secret) is Err,
        relay_finished(o, section, secret) is Ok ==> {
            let config = relay_finished(o, section, secret)->Ok_0;
            &&& config.upstream.interface == o.upstream_interface
            &&& config.upstream.interface_index == o.upstream_interface_index
            &&& config.gateway_idle_timeout == o.gateway_idle_timeout
            &&& config.gateway_prune_interval == o.gateway_prune_interval
            &&& config.path_mtu == o.path_mtu && config.pmtu_feedback == o.pmtu_feedback
            &&& config.control_rate_per_second == o.control_rate_per_second
            &&& config.control_rate_burst == o.control_rate_burst
            &&& config.global_control_rate_per_second == o.global_control_rate_per_second
            &&& config.global_control_rate_burst == o.global_control_rate_burst
            &&& config.metrics == o.metrics
            &&& config.relay.secret == secret && config.relay.ecn == o.ecn
            &&& o.bind is Some ==> config.relay.bind == o.bind->Some_0
            &&& section is None || section->Some_0.limits is None ==> config.relay.limits
                == RelayLimits::default_spec()
        },
{
    law_relays_listen_where_told(o, section, secret);
}

/// A configuration file sets a relay's options; what it leaves out has its default.
/// No file sets a path MTU outside of 1280 to 65535, no time between prunings or
/// a rate of zero.
pub proof fn law_relay_files_are_taken(file: &FileConfig)
    requires
        file.relay is Some,
    ensures
        relay_from_file(Some(file)) is Ok ==> {
            let o = relay_from_file(Some(file))->Ok_0;
            let section = file.relay->Some_0;
            let rate = section.rate_limit;
            &&& o.bind == section.bind
            &&& o.ecn <==> section.ecn == Some(true)
            &&& section.relay_address is None ==> o.relay_addresses.len() == 0
            &&& section.relay_address is Some ==> o.relay_addresses
                == section.relay_address->Some_0.values()
            &&& o.upstream_interface == section.upstream_interface
            &&& o.upstream_interface_index == section.upstream_interface_index
            &&& section.gateway_idle_timeout_secs is None ==> o.gateway_idle_timeout
                == Some(Duration::secs_spec(260))
            &&& section.gateway_idle_timeout_secs == Some(0u64) ==> o.gateway_idle_timeout is None
            &&& section.gateway_idle_timeout_secs is Some
                && section.gateway_idle_timeout_secs->Some_0 > 0 ==> o.gateway_idle_timeout
                == Some(Duration::secs_spec(section.gateway_idle_timeout_secs->Some_0))
            &&& section.gateway_prune_interval_secs is None ==> o.gateway_prune_interval
                == Duration::secs_spec(5)
            &&& section.gateway_prune_interval_secs is Some ==> o.gateway_prune_interval
                == Duration::secs_spec(section.gateway_prune_interval_secs->Some_0)
                && section.gateway_prune_interval_secs->Some_0 > 0
            &&& section.path_mtu is None ==> o.path_mtu == 1500
            &&& section.path_mtu is Some ==> o.path_mtu == section.path_mtu->Some_0
            &&& 1280 <= o.path_mtu <= 65535
            &&& o.pmtu_feedback <==> section.pmtu_feedback == Some(true)
            &&& rate is None || rate->Some_0.per_source_per_second is None ==> o.control_rate_per_second == 10
            &&& rate is Some && rate->Some_0.per_source_per_second is Some ==> o.control_rate_per_second == rate->Some_0.per_source_per_second->Some_0 && o.control_rate_per_second > 0
            &&& rate is None || rate->Some_0.per_source_burst is None ==> o.control_rate_burst == 20
            &&& rate is Some && rate->Some_0.per_source_burst is Some ==> o.control_rate_burst == rate->Some_0.per_source_burst->Some_0 && o.control_rate_burst > 0
            &&& rate is None || rate->Some_0.global_per_second is None ==> o.global_control_rate_per_second == 1000
            &&& rate is Some && rate->Some_0.global_per_second is Some ==> o.global_control_rate_per_second == rate->Some_0.global_per_second->Some_0 && o.global_control_rate_per_second > 0
            &&& rate is None || rate->Some_0.global_burst is None ==> o.global_control_rate_burst == 2000
            &&& rate is Some && rate->Some_0.global_burst is Some ==> o.global_control_rate_burst == rate->Some_0.global_burst->Some_0 && o.global_control_rate_burst > 0
        },
        relay_from_file(Some(file)) is Err <==> metrics_from_file(Some(file)) is Err || {
            let section = file.relay->Some_0;
            ||| section.gateway_prune_interval_secs == Some(0u64)
            ||| section.path_mtu is Some && !(1280 <= section.path_mtu->Some_0 <= 65535)
            ||| section.rate_limit is Some && {
                let rate = section.rate_limit->Some_0;
                rate.per_source_per_second == Some(0u32) || rate.per_source_burst == Some(0u32)
                    || rate.global_per_second == Some(0u32) || rate.global_burst == Some(0u32)
            }
        },
{
}

/// Without a section of its own in a configuration file, or without a file, a
/// relay has its defaults.
pub proof fn law_relays_have_defaults(file: Option<&FileConfig>)
    requires
        file is None || file->Some_0.relay is None,
    ensures
        relay_from_file(file) is Err <==> metrics_from_file(file) is Err,
        relay_from_file(file) is Ok ==> {
            let o = relay_from_file(file)->Ok_0;
            &&& o.bind is None && !o.ecn && !o.pmtu_feedback && o.relay_addresses.len() == 0
            &&& o.upstream_interface is None && o.upstream_interface_index is None
            &&& o.gateway_idle_timeout == Some(Duration::secs_spec(260))
            &&& o.gateway_prune_interval == Duration::secs_spec(5)
            &&& o.path_mtu == 1500
            &&& o.control_rate_per_second == 10 && o.control_rate_burst == 20
            &&& o.global_control_rate_per_second == 1000 && o.global_control_rate_burst == 2000
        },
        file is None ==> metrics_from_file(file) is Ok,
{
}

/// A configuration file sets how reports are made; what it leaves out has its
/// default. A name of nothing but white space is refused, and a size of zero
/// lifts the limit on the size of files.
pub proof fn law_reports_are_made_as_told(file: &FileConfig)
    requires
        file.metrics is Some,
    ensures
        ({
            let section = file.metrics->Some_0;
            &&& metrics_from_file(Some(file)) is Err <==> section.node_id is Some && forall|i: int|
                0 <= i < section.node_id->Some_0@.len() ==> white_space(
                    #[trigger] section.node_id->Some_0@[i],
                )
            &&& metrics_from_file(Some(file)) is Ok ==> {
                let o = metrics_from_file(Some(file))->Ok_0;
                &&& section.output_dir is None ==> o.output_dir is None
                &&& section.output_dir is Some ==> o.output_dir == Some(
                    section.output_dir->Some_0@,
                )
                &&& section.node_id is None ==> o.node_id == "amt"@
                &&& section.node_id is Some ==> o.node_id == section.node_id->Some_0@
                &&& section.interval_ms is None ==> o.sample_interval == Duration::millis_spec(1000)
                &&& section.interval_ms is Some ==> o.sample_interval == Duration::millis_spec(
                    section.interval_ms->Some_0,
                )
                &&& section.max_file_bytes is None ==> o.max_file_bytes == Some(67_108_864u64)
                &&& section.max_file_bytes == Some(0u64) ==> o.max_file_bytes is None
                &&& section.max_file_bytes is Some && section.max_file_bytes->Some_0 > 0
                    ==> o.max_file_bytes == section.max_file_bytes
            }
        }),
{
}

} // verus!
