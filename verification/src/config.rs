//! What a configuration file can set.

use crate::net::{AddressText, IpAddr, SocketAddr};
use vstd::prelude::*;

verus! {

/// The sections of a configuration file.
#[derive(Debug, PartialEq, Eq)]
pub struct FileConfig {
    pub relay: Option<RelayFileConfig>,
    pub gateway: Option<GatewayFileConfig>,
    pub metrics: Option<MetricsFileConfig>,
}

/// The section on the relay.
#[derive(Debug, PartialEq, Eq)]
pub struct RelayFileConfig {
    pub bind: Option<SocketAddr>,
    pub ecn: Option<bool>,
    pub relay_address: Option<OneOrMany<IpAddr>>,
    pub upstream_interface: Option<IpAddr>,
    pub upstream_interface_index: Option<u32>,
    pub gateway_idle_timeout_secs: Option<u64>,
    pub gateway_prune_interval_secs: Option<u64>,
    pub path_mtu: Option<usize>,
    pub pmtu_feedback: Option<bool>,
    pub secret_rotation_secs: Option<u64>,
    pub rate_limit: Option<RateLimitFileConfig>,
    pub limits: Option<RelayLimitsFileConfig>,
}

/// How many control datagrams a relay takes in.
#[derive(Debug, Clone, Copy, PartialEq, Eq, Structural)]
pub struct RateLimitFileConfig {
    pub per_source_per_second: Option<u32>,
    pub per_source_burst: Option<u32>,
    pub global_per_second: Option<u32>,
    pub global_burst: Option<u32>,
}

/// How much state a relay keeps.
#[derive(Debug, Clone, Copy, PartialEq, Eq, Structural)]
pub struct RelayLimitsFileConfig {
    pub max_endpoints: Option<usize>,
    pub max_endpoints_per_ip: Option<usize>,
    pub max_groups_per_endpoint: Option<usize>,
    pub max_sources_per_group: Option<usize>,
    pub max_total_endpoint_groups: Option<usize>,
    pub max_total_sources: Option<usize>,
    pub max_upstream_subscriptions: Option<usize>,
    pub max_records_per_report: Option<usize>,
}

/// The section on the gateway.
#[derive(Debug, PartialEq, Eq)]
pub struct GatewayFileConfig {
    pub bind: Option<SocketAddr>,
    pub ecn: Option<bool>,
    pub relay: Option<SocketAddr>,
    pub relay_discovery: Option<String>,
    pub driad: Option<DriadFileConfig>,
    pub protocol: Option<String>,
    pub group: Option<IpAddr>,
    pub source: Option<IpAddr>,
    pub transparent: Option<bool>,
    pub no_downstream: Option<bool>,
    pub downstream: Option<DownstreamFileConfig>,
    pub local_membership: Option<LocalMembershipFileConfig>,
    pub local_query_interval_secs: Option<u64>,
    pub membership_refresh_interval_secs: Option<u64>,
    pub joins: Vec<GatewayJoinFileConfig>,
}

/// How relays are discovered in DNS.
#[derive(Debug, PartialEq, Eq)]
pub struct DriadFileConfig {
    pub resolvers: Option<OneOrMany<AddressText>>,
    pub timeout_ms: Option<u64>,
    pub attempts: Option<usize>,
    pub allow_insecure_dns: Option<bool>,
    pub max_candidates: Option<usize>,
    pub max_queries_per_window: Option<usize>,
    pub query_rate_window_ms: Option<u64>,
    pub happy_eyeballs_delay_ms: Option<u64>,
    pub relay_hold_down_secs: Option<u64>,
    pub traffic_hold_down_secs: Option<u64>,
    pub initial_traffic_timeout_secs: Option<u64>,
    pub maximum_traffic_timeout_secs: Option<u64>,
    pub max_source_tunnels: Option<usize>,
    pub max_concurrent_probes: Option<usize>,
    pub max_dns_workers: Option<usize>,
}

/// A group, or a source of a group, that the gateway joins.
#[derive(Debug, Clone, Copy, PartialEq, Eq, Structural)]
pub struct GatewayJoinFileConfig {
    pub group: IpAddr,
    pub source: Option<IpAddr>,
}

/// How forwarded multicast leaves the gateway.
#[derive(Debug, Clone, Copy, PartialEq, Eq, Structural)]
pub struct DownstreamFileConfig {
    pub interface: Option<IpAddr>,
    pub interface_index: Option<u32>,
    pub ttl: Option<u8>,
    pub loopback: Option<bool>,
}

/// Where the gateway learns what local hosts want.
#[derive(Debug, Clone, Copy, PartialEq, Eq, Structural)]
pub struct LocalMembershipFileConfig {
    pub interface: Option<IpAddr>,
    pub interface_index: Option<u32>,
    pub query_interval_secs: Option<u64>,
    pub reporter_timeout_secs: Option<u64>,
}

/// The section on reports.
#[derive(Debug, PartialEq, Eq)]
pub struct MetricsFileConfig {
    pub output_dir: Option<String>,
    pub node_id: Option<String>,
    pub interval_ms: Option<u64>,
    pub max_file_bytes: Option<u64>,
}

/// One value, or a list of values.
#[derive(Debug, PartialEq, Eq)]
pub enum OneOrMany<T> {
    One(T),
    Many(Vec<T>),
}

impl<T> OneOrMany<T> {
    /// The values.
    pub open spec fn values(self) -> Seq<T> {
        match self {
            OneOrMany::One(value) => seq![value],
            OneOrMany::Many(values) => values@,
        }
    }

    pub fn into_vec(self) -> (list: Vec<T>)
        ensures
            list@ == self.values(),
    {
        match self {
            OneOrMany::One(value) => {
                let mut list: Vec<T> = Vec::new();
                list.push(value);
                proof {
                    assert(list@ =~= seq![value]);
                }
                list
            },
            OneOrMany::Many(values) => values,
        }
    }

    /// How many values there are.
    pub fn len(&self) -> (n: usize)
        ensures
            n == self.values().len(),
    {
        match self {
            OneOrMany::One(_) => 1,
            OneOrMany::Many(values) => values.len(),
        }
    }

    /// The value at a place.
    pub fn at(&self, i: usize) -> (value: &T)
        requires
            i < self.values().len(),
        ensures
            *value == self.values()[i as int],
    {
        match self {
            OneOrMany::One(value) => value,
            OneOrMany::Many(values) => &values[i],
        }
    }
}

} // verus!
