//! The relay side of AMT: answering gateways, authenticating their updates and
//! keeping their memberships.

use crate::bytes::{append_bytes, append_u16, append_u32, u16_bytes, u32_bytes};
use crate::ip::{forwardable_group, is_amt_forwardable_group};
use crate::mac::{hmac_sha256, hmac_sha256_of};
use crate::membership::{
    packet_report, parse_membership_report_with_limits, record_models, MembershipParseError,
    MembershipParseLimits, MembershipRecord, MembershipReport, ParseErrorModel, RecordModel,
    ReportModel,
};
use crate::net::{spells, IpAddr, Ipv4Addr, Ipv6Addr, SocketAddr, SocketAddrV4};
use crate::ordered::{in_order, OrdSet, Stored};
use crate::protocol::{
    decoded, encode, message_bytes, DecodeError, DecodeErrorModel, GatewayAddress,
    GatewayEndpoint, MembershipProtocol, Message, MessageModel, ResponseMac, AMT_PORT,
};
use crate::query::{build_general_query, interval_secs, query_bytes, query_interval};
use crate::query::GeneralQueryConfig;
use crate::random::{random_key, RandomnessError};
use crate::state::{
    effective_records, endpoint_groups, endpoints_under, groups_of, listed_sources, nears,
    or_error, report_applied, report_limit_error, subscriptions_of, table_limit_error,
    table_nears_limits, widest_group, LimitErrorModel, RelayLimits, RelayState, StateLimitError,
    TableModel, UpstreamSubscription,
};
use crate::time::{Duration, Instant};
use vstd::prelude::*;

verus! {

/// The key of the response MACs.  It is not printable on purpose.
#[derive(PartialEq, Eq)]
pub struct RelaySecret {
    bytes: [u8; 32],
}

impl View for RelaySecret {
    type V = Seq<u8>;

    closed spec fn view(&self) -> Seq<u8> {
        self.bytes@
    }
}

impl RelaySecret {
    pub fn new(bytes: [u8; 32]) -> (secret: Self)
        ensures
            secret@ == bytes@,
    {
        RelaySecret { bytes }
    }

    /// A random secret, or why there is none.
    pub fn generate() -> (result: Result<Self, RandomnessError>) {
        Self::try_generate()
    }

    /// A random secret, or why there is none.
    pub fn try_generate() -> (result: Result<Self, RandomnessError>) {
        match random_key() {
            Ok(bytes) => Ok(RelaySecret { bytes }),
            Err(error) => Err(error),
        }
    }

    pub fn expose_bytes(&self) -> (bytes: &[u8; 32])
        ensures
            bytes@ == self@,
    {
        &self.bytes
    }
}

impl Clone for RelaySecret {
    fn clone(&self) -> (copy: Self)
        ensures
            copy@ == self@,
    {
        RelaySecret { bytes: self.bytes }
    }
}

/// What a relay is told to do.
#[derive(PartialEq, Eq)]
pub struct RelayConfig {
    pub bind: SocketAddr,
    pub advertise_ipv4: Ipv4Addr,
    pub advertise_ipv6: Ipv6Addr,
    pub secret: RelaySecret,
    pub include_gateway_address: bool,
    pub limit: bool,
    pub limits: RelayLimits,
    pub secret_rotation_interval: Option<Duration>,
    pub general_query: GeneralQueryConfig,
    /// Whether the relay copies ECN marks to capable gateways.
    pub ecn: bool,
}

/// A [`RelayConfig`] with its secret as a sequence.
pub struct RelayConfigModel {
    pub bind: SocketAddr,
    pub advertise_ipv4: Ipv4Addr,
    pub advertise_ipv6: Ipv6Addr,
    pub secret: Seq<u8>,
    pub include_gateway_address: bool,
    pub limit: bool,
    pub limits: RelayLimits,
    pub secret_rotation_interval: Option<Duration>,
    pub general_query: GeneralQueryConfig,
    pub ecn: bool,
}

impl View for RelayConfig {
    type V = RelayConfigModel;

    open spec fn view(&self) -> RelayConfigModel {
        RelayConfigModel {
            bind: self.bind,
            advertise_ipv4: self.advertise_ipv4,
            advertise_ipv6: self.advertise_ipv6,
            secret: self.secret@,
            include_gateway_address: self.include_gateway_address,
            limit: self.limit,
            limits: self.limits,
            secret_rotation_interval: self.secret_rotation_interval,
            general_query: self.general_query,
            ecn: self.ecn,
        }
    }
}

/// The configuration for a bind address: a concrete address is advertised,
/// loopback in place of any other, and the secret rotates every two hours.
pub open spec fn config_for_bind(bind: SocketAddr, secret: Seq<u8>) -> RelayConfigModel {
    RelayConfigModel {
        bind,
        advertise_ipv4: match bind.ip_spec() {
            IpAddr::V4(a) => if a.bits != 0 {
                a
            } else {
                Ipv4Addr { bits: 0x7f00_0001 }
            },
            IpAddr::V6(_) => Ipv4Addr { bits: 0x7f00_0001 },
        },
        advertise_ipv6: match bind.ip_spec() {
            IpAddr::V6(a) => if a.bits != 0 {
                a
            } else {
                Ipv6Addr { bits: 1 }
            },
            IpAddr::V4(_) => Ipv6Addr { bits: 1 },
        },
        secret,
        include_gateway_address: true,
        limit: false,
        limits: RelayLimits::default_spec(),
        secret_rotation_interval: Some(Duration::secs_spec(7200)),
        general_query: GeneralQueryConfig::default_spec(),
        ecn: false,
    }
}

/// The address that a relay listens on unless told otherwise.
pub open spec fn default_bind_spec() -> SocketAddr {
    SocketAddr::V4(SocketAddrV4 { ip: Ipv4Addr { bits: 0 }, port: AMT_PORT })
}

/// The address that a relay listens on unless told otherwise.
pub fn default_bind() -> (bind: SocketAddr)
    ensures
        bind == default_bind_spec(),
{
    SocketAddr::V4(SocketAddrV4 { ip: Ipv4Addr { bits: 0 }, port: AMT_PORT })
}

impl RelayConfig {
    /// The configuration for a bind address under a given secret.
    pub fn with_secret(bind: SocketAddr, secret: RelaySecret) -> (config: Self)
        ensures
            config@ == config_for_bind(bind, secret@),
    {
        let mut advertise_ipv4 = Ipv4Addr { bits: 0x7f00_0001 };
        let mut advertise_ipv6 = Ipv6Addr { bits: 1 };
        match bind.ip() {
            IpAddr::V4(a) => {
                if !a.is_unspecified() {
                    advertise_ipv4 = a;
                }
            },
            IpAddr::V6(a) => {
                if !a.is_unspecified() {
                    advertise_ipv6 = a;
                }
            },
        }
        RelayConfig {
            bind,
            advertise_ipv4,
            advertise_ipv6,
            secret,
            include_gateway_address: true,
            limit: false,
            limits: RelayLimits::default(),
            secret_rotation_interval: Some(Duration::from_secs(7200)),
            general_query: GeneralQueryConfig::default(),
            ecn: false,
        }
    }

    /// The configuration for a bind address under a random secret.
    pub fn for_bind(bind: SocketAddr) -> (result: Result<Self, RandomnessError>)
        ensures
            result matches Ok(config) ==> config@ == config_for_bind(bind, config.secret@),
    {
        match RelaySecret::try_generate() {
            Ok(secret) => Ok(Self::with_secret(bind, secret)),
            Err(error) => Err(error),
        }
    }

    /// Advertises an address for its family.
    pub fn with_advertise_addr(self, addr: IpAddr) -> (config: Self)
        ensures
            config@ == (match addr {
                IpAddr::V4(a) => RelayConfigModel { advertise_ipv4: a, ..self@ },
                IpAddr::V6(a) => RelayConfigModel { advertise_ipv6: a, ..self@ },
            }),
    {
        match addr {
            IpAddr::V4(a) => RelayConfig { advertise_ipv4: a, ..self },
            IpAddr::V6(a) => RelayConfig { advertise_ipv6: a, ..self },
        }
    }

    fn advertised_addr_for(&self, peer: SocketAddr) -> (addr: IpAddr)
        ensures
            addr == advertised_addr(self@, peer),
    {
        match peer {
            SocketAddr::V4(_) => IpAddr::V4(self.advertise_ipv4),
            SocketAddr::V6(_) => IpAddr::V6(self.advertise_ipv6),
        }
    }
}

/// The address that a relay advertises to a peer.
pub open spec fn advertised_addr(config: RelayConfigModel, peer: SocketAddr) -> IpAddr {
    match peer {
        SocketAddr::V4(_) => IpAddr::V4(config.advertise_ipv4),
        SocketAddr::V6(_) => IpAddr::V6(config.advertise_ipv6),
    }
}

/// A secret that has been replaced but may still be in use.
#[derive(PartialEq, Eq)]
pub struct PreviousSecret {
    pub secret: RelaySecret,
    pub rotated_at: Instant,
}

/// A [`PreviousSecret`] with its secret as a sequence.
pub struct PreviousModel {
    pub secret: Seq<u8>,
    pub rotated_at: Instant,
}

impl View for PreviousSecret {
    type V = PreviousModel;

    open spec fn view(&self) -> PreviousModel {
        PreviousModel { secret: self.secret@, rotated_at: self.rotated_at }
    }
}

/// The state of one relay.
#[derive(PartialEq, Eq)]
pub struct Relay {
    pub config: RelayConfig,
    pub state: RelayState,
    pub previous_secret: Option<PreviousSecret>,
    pub secret_rotated_at: Instant,
    /// Gateways whose last request announced that they propagate ECN.
    pub ecn_gateways: OrdSet<SocketAddr>,
}

/// A [`Relay`] with its parts as mathematical values.
#[verifier::ext_equal]
pub struct RelayModel {
    pub config: RelayConfigModel,
    pub table: TableModel<SocketAddr>,
    pub previous: Option<PreviousModel>,
    pub rotated_at: Instant,
    pub ecn_gateways: Set<SocketAddr>,
}

impl View for Relay {
    type V = RelayModel;

    open spec fn view(&self) -> RelayModel {
        RelayModel {
            config: self.config@,
            table: self.state@,
            previous: match self.previous_secret {
                Some(previous) => Some(previous@),
                None => None,
            },
            rotated_at: self.secret_rotated_at,
            ecn_gateways: self.ecn_gateways@,
        }
    }
}

/// What the caller is to do after a datagram, or what happened.
#[allow(inconsistent_fields)]
#[derive(Debug, PartialEq, Eq)]
pub enum RelayAction {
    Send(Vec<u8>),
    AcceptedMembershipUpdate {
        protocol: MembershipProtocol,
        bytes: usize,
        records_applied: usize,
        upstream_subscriptions: Vec<UpstreamSubscription>,
    },
    AcceptedTeardown { gateway: GatewayEndpoint, removed: bool },
    RejectedAuth,
    Ignored,
}

/// A [`RelayAction`] with its lists as sequences.
#[allow(inconsistent_fields)]
pub enum RelayActionModel {
    Send(Seq<u8>),
    AcceptedMembershipUpdate {
        protocol: MembershipProtocol,
        bytes: int,
        records_applied: int,
        upstream_subscriptions: Seq<UpstreamSubscription>,
    },
    AcceptedTeardown { gateway: GatewayEndpoint, removed: bool },
    RejectedAuth,
    Ignored,
}

impl View for RelayAction {
    type V = RelayActionModel;

    open spec fn view(&self) -> RelayActionModel {
        match *self {
            RelayAction::Send(datagram) => RelayActionModel::Send(datagram@),
            RelayAction::AcceptedMembershipUpdate {
                protocol,
                bytes,
                records_applied,
                upstream_subscriptions,
            } => RelayActionModel::AcceptedMembershipUpdate {
                protocol,
                bytes: bytes as int,
                records_applied: records_applied as int,
                upstream_subscriptions: upstream_subscriptions@,
            },
            RelayAction::AcceptedTeardown { gateway, removed } => {
                RelayActionModel::AcceptedTeardown { gateway, removed }
            },
            RelayAction::RejectedAuth => RelayActionModel::RejectedAuth,
            RelayAction::Ignored => RelayActionModel::Ignored,
        }
    }
}

/// Why the relay did not act.
#[derive(Debug, PartialEq, Eq)]
pub enum RelayError {
    Decode(DecodeError),
    Membership(MembershipParseError),
    ResourceLimit(StateLimitError),
    ZeroNonce,
}

/// A [`RelayError`] with its texts as sequences.
pub enum RelayErrorModel {
    Decode(DecodeErrorModel),
    Membership(ParseErrorModel),
    ResourceLimit(LimitErrorModel),
    ZeroNonce,
}

impl View for RelayError {
    type V = RelayErrorModel;

    open spec fn view(&self) -> RelayErrorModel {
        match *self {
            RelayError::Decode(error) => RelayErrorModel::Decode(error@),
            RelayError::Membership(error) => RelayErrorModel::Membership(error@),
            RelayError::ResourceLimit(error) => RelayErrorModel::ResourceLimit(error@),
            RelayError::ZeroNonce => RelayErrorModel::ZeroNonce,
        }
    }
}

/// An answer, and the table to commit if the answer changes it.
pub type Prepared = Result<
    (RelayActionModel, Option<TableModel<SocketAddr>>),
    RelayErrorModel,
>;

/// A result in terms of what it says.
pub open spec fn prepared_result(
    result: Result<(RelayAction, Option<RelayState>), RelayError>,
) -> Prepared {
    match result {
        Ok((action, state)) => Ok(
            (
                action@,
                match state {
                    Some(table) => Some(table@),
                    None => None,
                },
            ),
        ),
        Err(error) => Err(error@),
    }
}

/// What the response MAC of a gateway's endpoint and request covers.
pub open spec fn mac_input(ip: IpAddr, port: u16, request_nonce: u32) -> Seq<u8> {
    GatewayAddress::of_ip(ip).octets_spec() + u16_bytes(port) + u32_bytes(request_nonce)
}

/// The response MAC of a gateway's endpoint and request under a secret: the
/// first six bytes of an HMAC.
pub open spec fn mac_of(secret: Seq<u8>, ip: IpAddr, port: u16, request_nonce: u32) -> ResponseMac {
    ResponseMac::at(hmac_sha256_of(secret, mac_input(ip, port, request_nonce)), 0)
}

/// How long a replaced secret stays good: two query intervals.
pub open spec fn secret_grace(config: RelayConfigModel) -> int {
    2 * interval_secs(config.general_query.query_interval_code) * 1_000_000_000
}

/// Whether a replaced secret is still good.
pub open spec fn in_grace(config: RelayConfigModel, previous: PreviousModel, now: Instant) -> bool {
    now.since_spec(previous.rotated_at).nanos <= secret_grace(config)
}

/// Whether a relay takes a response MAC for its own: it is the one under the
/// current secret, or the one under the secret before, while that is still good.
pub open spec fn mac_accepted(
    relay: RelayModel,
    now: Instant,
    mac: ResponseMac,
    current: ResponseMac,
    before: Option<ResponseMac>,
) -> bool {
    ||| mac == current
    ||| relay.previous is Some && in_grace(relay.config, relay.previous->Some_0, now) && before
        == Some(mac)
}

/// Whether a response MAC proves that the relay answered the request.
pub open spec fn authentic(
    relay: RelayModel,
    now: Instant,
    mac: ResponseMac,
    ip: IpAddr,
    port: u16,
    request_nonce: u32,
) -> bool {
    mac_accepted(
        relay,
        now,
        mac,
        mac_of(relay.config.secret, ip, port, request_nonce),
        match relay.previous {
            Some(previous) => Some(mac_of(previous.secret, ip, port, request_nonce)),
            None => None,
        },
    )
}

/// Whether the secret is to be replaced now.
pub open spec fn rotation_due(relay: RelayModel, now: Instant) -> bool {
    &&& relay.config.secret_rotation_interval is Some
    &&& now.since_spec(relay.rotated_at).nanos
        >= relay.config.secret_rotation_interval->Some_0.nanos
    &&& !(relay.previous is Some && in_grace(relay.config, relay.previous->Some_0, now))
}

/// The relay with a new secret in place of the current one.
pub open spec fn rotated(relay: RelayModel, now: Instant, secret: Seq<u8>) -> RelayModel {
    RelayModel {
        config: RelayConfigModel { secret, ..relay.config },
        previous: Some(PreviousModel { secret: relay.config.secret, rotated_at: now }),
        rotated_at: now,
        ..relay
    }
}

/// The bytes of a secret, if there is one.
pub open spec fn optional_secret(secret: Option<RelaySecret>) -> Option<Seq<u8>> {
    match secret {
        Some(secret) => Some(secret@),
        None => None,
    }
}

/// The relay after a chance to rotate its secret, where `fresh` is what the
/// random source would give, if anything.
pub open spec fn after_rotation(relay: RelayModel, now: Instant, fresh: Option<Seq<u8>>) -> RelayModel {
    match fresh {
        Some(secret) => if rotation_due(relay, now) {
            rotated(relay, now, secret)
        } else {
            relay
        },
        None => relay,
    }
}

/// Whether a relay turns away endpoints under an address that it does not know
/// yet.
pub open spec fn refuses_new(relay: RelayModel, address: IpAddr) -> bool {
    ||| relay.config.limit
    ||| table_nears_limits(relay.table, relay.config.limits)
    ||| nears(
        endpoints_under(relay.table, address).len() as int,
        relay.config.limits.max_endpoints_per_ip,
    )
}

/// The first group that must not be forwarded, if any.
pub open spec fn first_local_group(records: Seq<RecordModel>) -> Option<IpAddr>
    decreases records.len(),
{
    if records.len() == 0 {
        None
    } else {
        match first_local_group(records.drop_last()) {
            Some(group) => Some(group),
            None => if forwardable_group(records.last().group) {
                None
            } else {
                Some(records.last().group)
            },
        }
    }
}

/// The limits under which a relay reads reports.
pub open spec fn parse_limits(limits: RelayLimits) -> MembershipParseLimits {
    MembershipParseLimits {
        max_records: limits.max_records_per_report,
        max_sources_per_record: limits.max_sources_per_group,
    }
}

/// What a relay does with the report of an authenticated update.
pub open spec fn admitted(
    relay: RelayModel,
    peer: SocketAddr,
    bytes: int,
    report: ReportModel,
) -> Prepared {
    let after = report_applied(relay.table, peer, report.records);
    let limits = relay.config.limits;
    let applied = effective_records(groups_of(relay.table, peer), report.records) as int;
    match first_local_group(report.records) {
        Some(group) => Err(
            RelayErrorModel::Membership(ParseErrorModel::InvalidMulticastGroup(group)),
        ),
        None => if after == relay.table {
            Ok(
                (
                    RelayActionModel::AcceptedMembershipUpdate {
                        protocol: report.protocol,
                        bytes,
                        records_applied: applied,
                        upstream_subscriptions: in_order(subscriptions_of(relay.table)),
                    },
                    None,
                ),
            )
        } else {
            match or_error(
                report_limit_error(report.records, limits),
                table_limit_error(after, peer, limits),
            ) {
                Some(error) => Err(RelayErrorModel::ResourceLimit(error)),
                None => Ok(
                    (
                        RelayActionModel::AcceptedMembershipUpdate {
                            protocol: report.protocol,
                            bytes,
                            records_applied: applied,
                            upstream_subscriptions: in_order(subscriptions_of(after)),
                        },
                        Some(after),
                    ),
                ),
            }
        },
    }
}

/// What a relay does with a Membership Update.
pub open spec fn update_answer(
    relay: RelayModel,
    now: Instant,
    peer: SocketAddr,
    mac: ResponseMac,
    request_nonce: u32,
    packet: Seq<u8>,
) -> Prepared {
    update_judged(
        relay,
        peer,
        request_nonce,
        authentic(relay, now, mac, peer.ip_spec(), peer.port_spec(), request_nonce),
        packet,
    )
}

/// What a relay does with a Membership Update whose response MAC is known to be
/// good or not.
pub open spec fn update_judged(
    relay: RelayModel,
    peer: SocketAddr,
    request_nonce: u32,
    good: bool,
    packet: Seq<u8>,
) -> Prepared {
    if request_nonce == 0 {
        Err(RelayErrorModel::ZeroNonce)
    } else if !good {
        Ok((RelayActionModel::RejectedAuth, None))
    } else if !relay.table.contains_key(peer) && refuses_new(relay, peer.ip_spec()) {
        Ok((RelayActionModel::Ignored, None))
    } else {
        match packet_report(packet, parse_limits(relay.config.limits)) {
            Err(error) => Err(RelayErrorModel::Membership(error)),
            Ok(report) => admitted(relay, peer, packet.len() as int, report),
        }
    }
}

/// The endpoint that the gateway fields of a message name.
pub open spec fn named_endpoint(gateway: GatewayEndpoint) -> SocketAddr {
    SocketAddr::of(
        match gateway.address.ipv4_compatible_spec() {
            Some(a) => IpAddr::V4(a),
            None => IpAddr::V6(Ipv6Addr { bits: gateway.address.bits }),
        },
        gateway.port,
    )
}

/// What a relay does with a Teardown.
pub open spec fn teardown_answer(
    relay: RelayModel,
    now: Instant,
    mac: ResponseMac,
    request_nonce: u32,
    gateway: GatewayEndpoint,
) -> Prepared {
    let endpoint = named_endpoint(gateway);
    teardown_judged(
        relay,
        request_nonce,
        authentic(relay, now, mac, endpoint.ip_spec(), endpoint.port_spec(), request_nonce),
        gateway,
    )
}

/// What a relay does with a Teardown whose response MAC is known to be good or
/// not.
pub open spec fn teardown_judged(
    relay: RelayModel,
    request_nonce: u32,
    good: bool,
    gateway: GatewayEndpoint,
) -> Prepared {
    let endpoint = named_endpoint(gateway);
    if request_nonce == 0 {
        Err(RelayErrorModel::ZeroNonce)
    } else if !good {
        Ok((RelayActionModel::RejectedAuth, None))
    } else if relay.table.contains_key(endpoint) {
        Ok(
            (
                RelayActionModel::AcceptedTeardown { gateway, removed: true },
                Some(relay.table.remove(endpoint)),
            ),
        )
    } else {
        Ok((RelayActionModel::AcceptedTeardown { gateway, removed: false }, None))
    }
}

/// What a relay answers to a Request.
pub open spec fn request_answer(
    relay: RelayModel,
    peer: SocketAddr,
    request_nonce: u32,
    protocol: MembershipProtocol,
) -> MessageModel {
    request_answer_with(
        relay,
        peer,
        request_nonce,
        protocol,
        mac_of(relay.config.secret, peer.ip_spec(), peer.port_spec(), request_nonce),
    )
}

/// What a relay answers to a Request under a response MAC.
pub open spec fn request_answer_with(
    relay: RelayModel,
    peer: SocketAddr,
    request_nonce: u32,
    protocol: MembershipProtocol,
    response_mac: ResponseMac,
) -> MessageModel {
    MessageModel::MembershipQuery {
        response_mac,
        request_nonce,
        limit: refuses_new(relay, peer.ip_spec()),
        gateway: if relay.config.include_gateway_address {
            Some(
                GatewayEndpoint {
                    port: peer.port_spec(),
                    address: GatewayAddress::of_ip(peer.ip_spec()),
                },
            )
        } else {
            None
        },
        general_query: query_bytes(protocol, relay.config.general_query),
    }
}

/// What a relay does with a datagram.
pub open spec fn answer(relay: RelayModel, now: Instant, peer: SocketAddr, datagram: Seq<u8>) -> Prepared {
    match decoded(datagram) {
        Err(error) => Err(RelayErrorModel::Decode(error)),
        Ok(MessageModel::RelayDiscovery { discovery_nonce }) => if discovery_nonce == 0 {
            Err(RelayErrorModel::ZeroNonce)
        } else {
            Ok(
                (
                    RelayActionModel::Send(
                        message_bytes(
                            MessageModel::RelayAdvertisement {
                                discovery_nonce,
                                relay_address: advertised_addr(relay.config, peer),
                            },
                        ),
                    ),
                    None,
                ),
            )
        },
        Ok(MessageModel::Request { request_nonce, protocol, ecn_capable }) => {
            if request_nonce == 0 {
                Err(RelayErrorModel::ZeroNonce)
            } else {
                Ok(
                    (
                        RelayActionModel::Send(
                            message_bytes(
                                request_answer(relay, peer, request_nonce, protocol),
                            ),
                        ),
                        None,
                    ),
                )
            }
        },
        Ok(
            MessageModel::MembershipUpdate { response_mac, request_nonce, membership_update },
        ) => update_answer(relay, now, peer, response_mac, request_nonce, membership_update),
        Ok(MessageModel::Teardown { response_mac, request_nonce, gateway }) => teardown_answer(
            relay,
            now,
            response_mac,
            request_nonce,
            gateway,
        ),
        Ok(_) => Ok((RelayActionModel::Ignored, None)),
    }
}

/// The gateways known to propagate ECN after a datagram: the last request of a
/// gateway decides, as long as there is room for it, and an accepted teardown
/// forgets it.
pub open spec fn ecn_gateways_after(
    relay: RelayModel,
    now: Instant,
    peer: SocketAddr,
    datagram: Seq<u8>,
) -> Set<SocketAddr> {
    match decoded(datagram) {
        Ok(MessageModel::Request { request_nonce, protocol, ecn_capable }) => {
            if request_nonce == 0 {
                relay.ecn_gateways
            } else if relay.config.ecn && ecn_capable {
                if relay.ecn_gateways.contains(peer) || relay.ecn_gateways.len()
                    < relay.config.limits.max_endpoints {
                    relay.ecn_gateways.insert(peer)
                } else {
                    relay.ecn_gateways
                }
            } else {
                relay.ecn_gateways.remove(peer)
            }
        },
        Ok(MessageModel::Teardown { response_mac, request_nonce, gateway }) => {
            match teardown_answer(relay, now, response_mac, request_nonce, gateway) {
                Ok((RelayActionModel::AcceptedTeardown { .. }, _)) => relay.ecn_gateways.remove(
                    named_endpoint(gateway),
                ),
                _ => relay.ecn_gateways,
            }
        },
        _ => relay.ecn_gateways,
    }
}

/// The relay after preparing an answer, before anything is committed.
pub open spec fn after_answer(
    relay: RelayModel,
    now: Instant,
    peer: SocketAddr,
    datagram: Seq<u8>,
) -> RelayModel {
    RelayModel { ecn_gateways: ecn_gateways_after(relay, now, peer, datagram), ..relay }
}

/// The relay once the table of an answer is committed.
pub open spec fn committed(relay: RelayModel, prepared: Prepared) -> RelayModel {
    match prepared {
        Ok((_, Some(table))) => RelayModel { table, ..relay },
        _ => relay,
    }
}

impl Relay {
    /// Whether the parts of the relay are well formed.
    pub open spec fn wf(&self) -> bool {
        self.state.wf() && self.ecn_gateways.wf()
    }

    /// A relay without gateways.
    pub fn new(config: RelayConfig, now: Instant) -> (relay: Self)
        ensures
            relay.wf(),
            relay@ == (RelayModel {
                config: config@,
                table: Map::empty(),
                previous: None,
                rotated_at: now,
                ecn_gateways: Set::empty(),
            }),
    {
        Relay {
            config,
            state: RelayState::new(),
            previous_secret: None,
            secret_rotated_at: now,
            ecn_gateways: OrdSet::new(),
        }
    }

    pub fn config(&self) -> (config: &RelayConfig)
        ensures
            *config == self.config,
    {
        &self.config
    }

    pub fn state(&self) -> (state: &RelayState)
        ensures
            *state == self.state,
    {
        &self.state
    }

    /// Forgets a gateway; tells whether it had memberships.
    pub fn remove_gateway(&mut self, endpoint: SocketAddr) -> (removed: bool)
        requires
            old(self).wf(),
        ensures
            final(self).wf(),
            final(self)@ == (RelayModel {
                table: old(self)@.table.remove(endpoint),
                ecn_gateways: old(self)@.ecn_gateways.remove(endpoint),
                ..old(self)@
            }),
            removed == old(self)@.table.contains_key(endpoint),
    {
        self.ecn_gateways.remove(endpoint);
        self.state.remove_endpoint(endpoint)
    }

    /// Whether a gateway's last request announced that it propagates ECN.
    pub fn gateway_ecn_capable(&self, endpoint: SocketAddr) -> (capable: bool)
        requires
            self.wf(),
        ensures
            capable == (self.config.ecn && self.ecn_gateways@.contains(endpoint)),
    {
        self.config.ecn && self.ecn_gateways.contains(endpoint)
    }

    /// Answers a datagram and commits what it changes.
    pub fn handle_datagram(&mut self, now: Instant, peer: SocketAddr, datagram: &[u8]) -> (result:
        Result<RelayAction, RelayError>)
        requires
            old(self).wf(),
        ensures
            final(self).wf(),
            exists|fresh: Option<Seq<u8>>|
                ({
                    let ready = #[trigger] after_rotation(old(self)@, now, fresh);
                    let prepared = answer(ready, now, peer, datagram@);
                    &&& final(self)@ == committed(
                        after_answer(ready, now, peer, datagram@),
                        prepared,
                    )
                    &&& match result {
                        Ok(action) => prepared is Ok && prepared->Ok_0.0 == action@,
                        Err(error) => prepared == Err::<
                            (RelayActionModel, Option<TableModel<SocketAddr>>),
                            RelayErrorModel,
                        >(error@),
                    }
                }),
    {
        match self.prepare_datagram(now, peer, datagram) {
            Ok((action, next_state)) => {
                if let Some(next_state) = next_state {
                    self.state = next_state;
                }
                Ok(action)
            },
            Err(error) => Err(error),
        }
    }

    /// Prepares the answer to a datagram; the table it leads to, if it changes,
    /// is handed out for the caller to commit.
    pub fn prepare_datagram(&mut self, now: Instant, peer: SocketAddr, datagram: &[u8]) -> (result:
        Result<(RelayAction, Option<RelayState>), RelayError>)
        requires
            old(self).wf(),
        ensures
            final(self).wf(),
            result matches Ok((_, Some(state))) ==> state.wf(),
            exists|fresh: Option<Seq<u8>>|
                ({
                    let ready = #[trigger] after_rotation(old(self)@, now, fresh);
                    &&& final(self)@ == after_answer(ready, now, peer, datagram@)
                    &&& prepared_result(result) == answer(ready, now, peer, datagram@)
                }),
    {
        let fresh = self.draw_secret_if_due(now);
        self.prepare_datagram_with(now, peer, datagram, fresh)
    }

    /// Prepares the answer to a datagram, with a fresh secret for the rotation
    /// that may be due.
    pub fn prepare_datagram_with(
        &mut self,
        now: Instant,
        peer: SocketAddr,
        datagram: &[u8],
        fresh: Option<RelaySecret>,
    ) -> (result: Result<(RelayAction, Option<RelayState>), RelayError>)
        requires
            old(self).wf(),
        ensures
            final(self).wf(),
            result matches Ok((_, Some(state))) ==> state.wf(),
            ({
                let ready = after_rotation(old(self)@, now, optional_secret(fresh));
                &&& final(self)@ == after_answer(ready, now, peer, datagram@)
                &&& prepared_result(result) == answer(ready, now, peer, datagram@)
            }),
    {
        self.rotate_secret_with(now, fresh);
        self.respond(now, peer, datagram)
    }

    /// Prepares the answer to a datagram under the secrets at hand.
    pub fn respond(&mut self, now: Instant, peer: SocketAddr, datagram: &[u8]) -> (result: Result<
        (RelayAction, Option<RelayState>),
        RelayError,
    >)
        requires
            old(self).wf(),
        ensures
            final(self).wf(),
            result matches Ok((_, Some(state))) ==> state.wf(),
            final(self)@ == after_answer(old(self)@, now, peer, datagram@),
            prepared_result(result) == answer(old(self)@, now, peer, datagram@),
    {
        let message = match Message::decode(datagram) {
            Ok(message) => message,
            Err(error) => return Err(RelayError::Decode(error)),
        };
        match message {
            Message::RelayDiscovery { discovery_nonce } => {
                if discovery_nonce == 0 {
                    return Err(RelayError::ZeroNonce);
                }
                let response = Message::RelayAdvertisement {
                    discovery_nonce,
                    relay_address: self.config.advertised_addr_for(peer),
                };
                Ok((RelayAction::Send(encode(&response)), None))
            },
            Message::Request { request_nonce, protocol, ecn_capable } => {
                if request_nonce == 0 {
                    return Err(RelayError::ZeroNonce);
                }
                let response_mac = self.response_mac(peer.ip(), peer.port(), request_nonce);
                let response = self.query_for(peer, request_nonce, protocol, response_mac);
                self.note_ecn(peer, ecn_capable);
                Ok((RelayAction::Send(response), None))
            },
            Message::MembershipUpdate { response_mac, request_nonce, membership_update } => {
                self.answer_update(now, peer, response_mac, request_nonce, membership_update)
            },
            Message::Teardown { response_mac, request_nonce, gateway } => {
                self.answer_teardown(now, response_mac, request_nonce, gateway)
            },
            Message::RelayAdvertisement { .. } | Message::MembershipQuery { .. }
            | Message::MulticastData { .. } => Ok((RelayAction::Ignored, None)),
        }
    }

    /// The Membership Query that answers a Request, under a response MAC.
    pub fn query_for(
        &self,
        peer: SocketAddr,
        request_nonce: u32,
        protocol: MembershipProtocol,
        response_mac: ResponseMac,
    ) -> (response: Vec<u8>)
        requires
            self.wf(),
        ensures
            response@ == message_bytes(
                request_answer_with(self@, peer, request_nonce, protocol, response_mac),
            ),
    {
        let general_query = build_general_query(protocol, &self.config.general_query);
        let gateway = if self.config.include_gateway_address {
            Some(GatewayEndpoint::new(peer.port(), peer.ip()))
        } else {
            None
        };
        encode(
            &Message::MembershipQuery {
                response_mac,
                request_nonce,
                limit: self.refusing_new_endpoint(peer.ip()),
                gateway,
                general_query: general_query.as_slice(),
            },
        )
    }

    fn note_ecn(&mut self, peer: SocketAddr, ecn_capable: bool)
        requires
            old(self).wf(),
        ensures
            final(self).wf(),
            final(self)@ == (RelayModel {
                ecn_gateways: if old(self).config.ecn && ecn_capable {
                    if old(self)@.ecn_gateways.contains(peer) || old(self)@.ecn_gateways.len()
                        < old(self).config.limits.max_endpoints {
                        old(self)@.ecn_gateways.insert(peer)
                    } else {
                        old(self)@.ecn_gateways
                    }
                } else {
                    old(self)@.ecn_gateways.remove(peer)
                },
                ..old(self)@
            }),
    {
        if self.config.ecn && ecn_capable {
            if self.ecn_gateways.contains(peer) || self.ecn_gateways.len()
                < self.config.limits.max_endpoints {
                self.ecn_gateways.insert(peer);
            }
        } else {
            self.ecn_gateways.remove(peer);
        }
    }

    fn answer_update(
        &self,
        now: Instant,
        peer: SocketAddr,
        response_mac: ResponseMac,
        request_nonce: u32,
        membership_update: &[u8],
    ) -> (result: Result<(RelayAction, Option<RelayState>), RelayError>)
        requires
            self.wf(),
        ensures
            result matches Ok((_, Some(state))) ==> state.wf(),
            prepared_result(result) == update_answer(
                self@,
                now,
                peer,
                response_mac,
                request_nonce,
                membership_update@,
            ),
    {
        let good = self.valid_response_mac(
            now,
            response_mac,
            peer.ip(),
            peer.port(),
            request_nonce,
        );
        self.judge_update(peer, request_nonce, good, membership_update)
    }

    /// Answers a Membership Update whose response MAC is known to be good or
    /// not.
    pub fn judge_update(
        &self,
        peer: SocketAddr,
        request_nonce: u32,
        good: bool,
        membership_update: &[u8],
    ) -> (result: Result<(RelayAction, Option<RelayState>), RelayError>)
        requires
            self.wf(),
        ensures
            result matches Ok((_, Some(state))) ==> state.wf(),
            prepared_result(result) == update_judged(
                self@,
                peer,
                request_nonce,
                good,
                membership_update@,
            ),
    {
        if request_nonce == 0 {
            return Err(RelayError::ZeroNonce);
        }
        if !good {
            return Ok((RelayAction::RejectedAuth, None));
        }
        if !self.state.contains_endpoint(peer) && self.refusing_new_endpoint(peer.ip()) {
            return Ok((RelayAction::Ignored, None));
        }
        let report = match parse_membership_report_with_limits(
            membership_update,
            MembershipParseLimits {
                max_records: self.config.limits.max_records_per_report,
                max_sources_per_record: self.config.limits.max_sources_per_group,
            },
        ) {
            Ok(report) => report,
            Err(error) => return Err(RelayError::Membership(error)),
        };
        self.admit_report(peer, membership_update.len(), &report)
    }

    /// Applies the report of an authenticated update to a copy of the table.
    pub fn admit_report(&self, peer: SocketAddr, bytes: usize, report: &MembershipReport) -> (result:
        Result<(RelayAction, Option<RelayState>), RelayError>)
        requires
            self.wf(),
        ensures
            result matches Ok((_, Some(state))) ==> state.wf(),
            prepared_result(result) == admitted(self@, peer, bytes as int, report@),
    {
        if let Some(group) = find_local_group(&report.records) {
            return Err(
                RelayError::Membership(MembershipParseError::InvalidMulticastGroup(group)),
            );
        }
        let (records_applied, changed) = self.state.preview_report(peer, report);
        if !changed {
            return Ok(
                (
                    RelayAction::AcceptedMembershipUpdate {
                        protocol: report.protocol,
                        bytes,
                        records_applied,
                        upstream_subscriptions: self.state.upstream_subscriptions(),
                    },
                    None,
                ),
            );
        }
        let mut next_state = self.state.duplicate();
        if let Err(error) = next_state.apply_report_limited(peer, report, &self.config.limits) {
            return Err(RelayError::ResourceLimit(error));
        }
        let upstream_subscriptions = next_state.upstream_subscriptions();
        Ok(
            (
                RelayAction::AcceptedMembershipUpdate {
                    protocol: report.protocol,
                    bytes,
                    records_applied,
                    upstream_subscriptions,
                },
                Some(next_state),
            ),
        )
    }

    fn answer_teardown(
        &mut self,
        now: Instant,
        response_mac: ResponseMac,
        request_nonce: u32,
        gateway: GatewayEndpoint,
    ) -> (result: Result<(RelayAction, Option<RelayState>), RelayError>)
        requires
            old(self).wf(),
        ensures
            final(self).wf(),
            result matches Ok((_, Some(state))) ==> state.wf(),
            prepared_result(result) == teardown_answer(
                old(self)@,
                now,
                response_mac,
                request_nonce,
                gateway,
            ),
            final(self)@ == (RelayModel {
                ecn_gateways: if result is Ok && result->Ok_0.0 is AcceptedTeardown {
                    old(self)@.ecn_gateways.remove(named_endpoint(gateway))
                } else {
                    old(self)@.ecn_gateways
                },
                ..old(self)@
            }),
    {
        let endpoint = endpoint_of(gateway);
        let good = self.valid_response_mac(
            now,
            response_mac,
            endpoint.ip(),
            endpoint.port(),
            request_nonce,
        );
        self.judge_teardown(request_nonce, good, gateway)
    }

    /// Answers a Teardown whose response MAC is known to be good or not.
    pub fn judge_teardown(
        &mut self,
        request_nonce: u32,
        good: bool,
        gateway: GatewayEndpoint,
    ) -> (result: Result<(RelayAction, Option<RelayState>), RelayError>)
        requires
            old(self).wf(),
        ensures
            final(self).wf(),
            result matches Ok((_, Some(state))) ==> state.wf(),
            prepared_result(result) == teardown_judged(old(self)@, request_nonce, good, gateway),
            final(self)@ == (RelayModel {
                ecn_gateways: if result is Ok && result->Ok_0.0 is AcceptedTeardown {
                    old(self)@.ecn_gateways.remove(named_endpoint(gateway))
                } else {
                    old(self)@.ecn_gateways
                },
                ..old(self)@
            }),
    {
        if request_nonce == 0 {
            return Err(RelayError::ZeroNonce);
        }
        if !good {
            return Ok((RelayAction::RejectedAuth, None));
        }
        let endpoint = endpoint_of(gateway);
        self.ecn_gateways.remove(endpoint);
        if !self.state.contains_endpoint(endpoint) {
            return Ok((RelayAction::AcceptedTeardown { gateway, removed: false }, None));
        }
        let mut next_state = self.state.duplicate();
        next_state.remove_endpoint(endpoint);
        Ok((RelayAction::AcceptedTeardown { gateway, removed: true }, Some(next_state)))
    }

    /// Puts a prepared table in place.
    pub fn commit_state(&mut self, state: RelayState)
        requires
            old(self).wf(),
            state.wf(),
        ensures
            final(self).wf(),
            final(self)@ == (RelayModel { table: state@, ..old(self)@ }),
    {
        self.state = state;
    }

    /// The response MAC of a gateway's endpoint and request.
    pub fn response_mac(&self, gateway_ip: IpAddr, gateway_port: u16, request_nonce: u32) -> (mac:
        ResponseMac)
        ensures
            mac == mac_of(self.config.secret@, gateway_ip, gateway_port, request_nonce),
    {
        response_mac_with_secret(&self.config.secret, gateway_ip, gateway_port, request_nonce)
    }

    /// Whether a response MAC proves that the relay answered the request.
    pub fn valid_response_mac(
        &self,
        now: Instant,
        actual: ResponseMac,
        gateway_ip: IpAddr,
        gateway_port: u16,
        request_nonce: u32,
    ) -> (valid: bool)
        ensures
            valid == authentic(self@, now, actual, gateway_ip, gateway_port, request_nonce),
    {
        let current = self.response_mac(gateway_ip, gateway_port, request_nonce);
        let before = match &self.previous_secret {
            Some(previous) => Some(
                response_mac_with_secret(
                    &previous.secret,
                    gateway_ip,
                    gateway_port,
                    request_nonce,
                ),
            ),
            None => None,
        };
        self.accepts_mac(now, actual, current, before)
    }

    /// Whether a response MAC is taken for one of the relay's, which are given:
    /// under the current secret, and under the secret before.
    pub fn accepts_mac(
        &self,
        now: Instant,
        actual: ResponseMac,
        current: ResponseMac,
        before: Option<ResponseMac>,
    ) -> (accepted: bool)
        ensures
            accepted == mac_accepted(self@, now, actual, current, before),
    {
        if actual.constant_time_eq(current) {
            return true;
        }
        match (&self.previous_secret, before) {
            (Some(previous), Some(before)) => now.duration_since(previous.rotated_at).nanos
                <= self.grace().nanos && actual.constant_time_eq(before),
            _ => false,
        }
    }

    fn grace(&self) -> (span: Duration)
        ensures
            span.nanos == secret_grace(self.config@),
    {
        let code: u8 = self.config.general_query.query_interval_code;
        proof {
            crate::query::lemma_interval_bound(code);
        }
        query_interval(code).saturating_mul(2)
    }

    fn refusing_new_endpoint(&self, address: IpAddr) -> (refusing: bool)
        requires
            self.wf(),
        ensures
            refusing == refuses_new(self@, address),
    {
        self.config.limit || self.state.is_near_limits(&self.config.limits)
            || self.state.is_ip_near_endpoint_limit(
            address,
            self.config.limits.max_endpoints_per_ip,
        )
    }

    /// Whether the secret is to be replaced now.
    pub fn secret_rotation_due(&self, now: Instant) -> (due: bool)
        ensures
            due == rotation_due(self@, now),
    {
        let interval = match self.config.secret_rotation_interval {
            Some(interval) => interval,
            None => return false,
        };
        if now.duration_since(self.secret_rotated_at).nanos < interval.nanos {
            return false;
        }
        match &self.previous_secret {
            Some(previous) => now.duration_since(previous.rotated_at).nanos > self.grace().nanos,
            None => true,
        }
    }

    /// Puts a new secret in place of the current one, which stays good for a
    /// while.
    pub fn rotate_secret(&mut self, now: Instant, next_secret: RelaySecret)
        requires
            old(self).wf(),
        ensures
            final(self).wf(),
            final(self)@ == rotated(old(self)@, now, next_secret@),
    {
        let previous = self.config.secret.clone();
        self.config.secret = next_secret;
        self.previous_secret = Some(PreviousSecret { secret: previous, rotated_at: now });
        self.secret_rotated_at = now;
    }

    /// Replaces the secret by a random one if that is due and the random source
    /// gives one.
    pub fn rotate_secret_if_due(&mut self, now: Instant)
        requires
            old(self).wf(),
        ensures
            final(self).wf(),
            exists|fresh: Option<Seq<u8>>|
                final(self)@ == #[trigger] after_rotation(old(self)@, now, fresh),
            !rotation_due(old(self)@, now) ==> final(self)@ == old(self)@,
    {
        let fresh = self.draw_secret_if_due(now);
        self.rotate_secret_with(now, fresh);
    }

    fn draw_secret_if_due(&self, now: Instant) -> (fresh: Option<RelaySecret>)
        requires
            self.wf(),
        ensures
            !rotation_due(self@, now) ==> fresh is None,
    {
        if !self.secret_rotation_due(now) {
            return None;
        }
        match RelaySecret::try_generate() {
            Ok(secret) => Some(secret),
            Err(_) => None,
        }
    }

    /// Replaces the secret by a fresh one if that is due and there is one.
    pub fn rotate_secret_with(&mut self, now: Instant, fresh: Option<RelaySecret>)
        requires
            old(self).wf(),
        ensures
            final(self).wf(),
            final(self)@ == after_rotation(old(self)@, now, optional_secret(fresh)),
    {
        if self.secret_rotation_due(now) {
            if let Some(next_secret) = fresh {
                self.rotate_secret(now, next_secret);
            }
        }
    }
}

fn find_local_group(records: &Vec<MembershipRecord>) -> (found: Option<IpAddr>)
    ensures
        found == first_local_group(record_models(records@)),
{
    let ghost models = record_models(records@);
    let mut i: usize = 0;
    proof {
        assert(models.take(0) =~= Seq::empty());
    }
    while i < records.len()
        invariant
            i <= records@.len(),
            models == record_models(records@),
            first_local_group(models.take(i as int)) is None,
        decreases records@.len() - i,
    {
        let group = records[i].group;
        proof {
            assert(models.take(i + 1).drop_last() =~= models.take(i as int));
            assert(models.take(i + 1).last() == records@[i as int]@);
        }
        if !is_amt_forwardable_group(group) {
            proof {
                lemma_first_local_group_stays(models, i + 1);
            }
            return Some(group);
        }
        i += 1;
    }
    proof {
        assert(models.take(models.len() as int) =~= models);
    }
    None
}

proof fn lemma_first_local_group_stays(records: Seq<RecordModel>, early: int)
    requires
        0 <= early <= records.len(),
        first_local_group(records.take(early)) is Some,
    ensures
        first_local_group(records) == first_local_group(records.take(early)),
    decreases records.len() - early,
{
    if early == records.len() {
        assert(records.take(early) =~= records);
    } else {
        assert(records.take(early + 1).drop_last() =~= records.take(early));
        lemma_first_local_group_stays(records, early + 1);
    }
}

/// The endpoint that the gateway fields of a message name.
fn endpoint_of(gateway: GatewayEndpoint) -> (endpoint: SocketAddr)
    ensures
        endpoint == named_endpoint(gateway),
{
    let ip = match gateway.address.as_ipv4_compatible() {
        Some(a) => IpAddr::V4(a),
        None => IpAddr::V6(gateway.address.as_ipv6()),
    };
    SocketAddr::new(ip, gateway.port)
}

/// What the response MAC of a gateway's endpoint and request covers.
pub fn mac_message(gateway_ip: IpAddr, gateway_port: u16, request_nonce: u32) -> (message: Vec<u8>)
    ensures
        message@ == mac_input(gateway_ip, gateway_port, request_nonce),
{
    let mut message: Vec<u8> = Vec::with_capacity(22);
    append_bytes(&mut message, GatewayAddress::from_ip_addr(gateway_ip).octets().as_slice());
    append_u16(&mut message, gateway_port);
    append_u32(&mut message, request_nonce);
    proof {
        assert(message@ =~= mac_input(gateway_ip, gateway_port, request_nonce));
    }
    message
}

/// The first six bytes of a message authentication code.
pub fn truncated_mac(code: [u8; 32]) -> (mac: ResponseMac)
    ensures
        mac == ResponseMac::at(code@, 0),
{
    ResponseMac::new([code[0], code[1], code[2], code[3], code[4], code[5]])
}

/// The response MAC of a gateway's endpoint and request under a secret.
pub fn response_mac_with_secret(
    secret: &RelaySecret,
    gateway_ip: IpAddr,
    gateway_port: u16,
    request_nonce: u32,
) -> (mac: ResponseMac)
    ensures
        mac == mac_of(secret@, gateway_ip, gateway_port, request_nonce),
{
    let message = mac_message(gateway_ip, gateway_port, request_nonce);
    truncated_mac(hmac_sha256(secret.expose_bytes().as_slice(), message.as_slice()))
}

/// A response MAC given out before a rotation is good for two query intervals
/// after it.
pub proof fn law_mac_survives_rotation(
    relay: RelayModel,
    now: Instant,
    fresh: Seq<u8>,
    later: Instant,
    ip: IpAddr,
    port: u16,
    request_nonce: u32,
)
    requires
        later.since_spec(now).nanos <= secret_grace(relay.config),
    ensures
        authentic(
            rotated(relay, now, fresh),
            later,
            mac_of(relay.config.secret, ip, port, request_nonce),
            ip,
            port,
            request_nonce,
        ),
{
}

/// After that, a response MAC of the old secret proves nothing any more, unless
/// it happens to be one of the new secret too.
pub proof fn law_replaced_secret_expires(
    relay: RelayModel,
    now: Instant,
    fresh: Seq<u8>,
    later: Instant,
    ip: IpAddr,
    port: u16,
    request_nonce: u32,
)
    requires
        later.since_spec(now).nanos > secret_grace(relay.config),
        mac_of(relay.config.secret, ip, port, request_nonce) != mac_of(
            fresh,
            ip,
            port,
            request_nonce,
        ),
    ensures
        !authentic(
            rotated(relay, now, fresh),
            later,
            mac_of(relay.config.secret, ip, port, request_nonce),
            ip,
            port,
            request_nonce,
        ),
{
}

/// A secret is not replaced while the one before it is still good, so no
/// response MAC is cut short by two rotations.
pub proof fn law_no_rotation_in_grace(
    relay: RelayModel,
    now: Instant,
    fresh: Seq<u8>,
    later: Instant,
)
    requires
        later.since_spec(now).nanos <= secret_grace(relay.config),
    ensures
        !rotation_due(rotated(relay, now, fresh), later),
{
}

/// An update or teardown without an authentic response MAC changes nothing.
pub proof fn law_unauthenticated_messages_change_nothing(
    relay: RelayModel,
    now: Instant,
    peer: SocketAddr,
    datagram: Seq<u8>,
)
    requires
        decoded(datagram) is Ok,
        match decoded(datagram)->Ok_0 {
            MessageModel::MembershipUpdate { response_mac, request_nonce, .. } => request_nonce
                != 0 && !authentic(
                relay,
                now,
                response_mac,
                peer.ip_spec(),
                peer.port_spec(),
                request_nonce,
            ),
            MessageModel::Teardown { response_mac, request_nonce, gateway } => request_nonce != 0
                && !authentic(
                relay,
                now,
                response_mac,
                named_endpoint(gateway).ip_spec(),
                gateway.port,
                request_nonce,
            ),
            _ => false,
        },
    ensures
        answer(relay, now, peer, datagram) == Ok::<
            (RelayActionModel, Option<TableModel<SocketAddr>>),
            RelayErrorModel,
        >((RelayActionModel::RejectedAuth, None)),
        after_answer(relay, now, peer, datagram) == relay,
{
}

/// A message with a zero nonce is never answered.
pub proof fn law_zero_nonces_are_refused(
    relay: RelayModel,
    now: Instant,
    peer: SocketAddr,
    datagram: Seq<u8>,
)
    requires
        decoded(datagram) is Ok,
        match decoded(datagram)->Ok_0 {
            MessageModel::RelayDiscovery { discovery_nonce } => discovery_nonce == 0,
            MessageModel::Request { request_nonce, .. } => request_nonce == 0,
            MessageModel::MembershipUpdate { request_nonce, .. } => request_nonce == 0,
            MessageModel::Teardown { request_nonce, .. } => request_nonce == 0,
            _ => false,
        },
    ensures
        answer(relay, now, peer, datagram) == Err::<
            (RelayActionModel, Option<TableModel<SocketAddr>>),
            RelayErrorModel,
        >(RelayErrorModel::ZeroNonce),
        after_answer(relay, now, peer, datagram) == relay,
{
}

/// Only an accepted update or teardown changes memberships, and it changes
/// those of one endpoint: the peer, or the one that the teardown names.
pub proof fn law_only_accepted_messages_change_memberships(
    relay: RelayModel,
    now: Instant,
    peer: SocketAddr,
    datagram: Seq<u8>,
    other: SocketAddr,
)
    requires
        answer(relay, now, peer, datagram) is Ok,
        answer(relay, now, peer, datagram)->Ok_0.1 is Some,
        other != peer,
        decoded(datagram)->Ok_0 matches MessageModel::Teardown { gateway, .. } ==> other
            != named_endpoint(gateway),
    ensures
        answer(relay, now, peer, datagram)->Ok_0.0 is AcceptedMembershipUpdate || answer(
            relay,
            now,
            peer,
            datagram,
        )->Ok_0.0 is AcceptedTeardown,
        groups_of(answer(relay, now, peer, datagram)->Ok_0.1->Some_0, other) == groups_of(
            relay.table,
            other,
        ),
{
}

/// A table that an update leads to keeps every limit.
pub proof fn law_accepted_updates_keep_the_limits(
    relay: RelayModel,
    peer: SocketAddr,
    bytes: int,
    report: ReportModel,
)
    requires
        admitted(relay, peer, bytes, report) is Ok,
        admitted(relay, peer, bytes, report)->Ok_0.1 is Some,
    ensures
        ({
            let after = admitted(relay, peer, bytes, report)->Ok_0.1->Some_0;
            let limits = relay.config.limits;
            &&& after.dom().len() <= limits.max_endpoints
            &&& endpoints_under(after, peer.ip_spec()).len() <= limits.max_endpoints_per_ip
            &&& groups_of(after, peer).dom().len() <= limits.max_groups_per_endpoint
            &&& widest_group(groups_of(after, peer)) <= limits.max_sources_per_group
            &&& limits.max_total_endpoint_groups < usize::MAX ==> endpoint_groups(after).len()
                <= limits.max_total_endpoint_groups
            &&& limits.max_total_sources < usize::MAX ==> listed_sources(after).len()
                <= limits.max_total_sources
            &&& subscriptions_of(after).len() <= limits.max_upstream_subscriptions
        }),
{
}

/// A relay that refuses new endpoints says so in its queries and ignores the
/// updates of endpoints that it does not know.
pub proof fn law_refusal_is_announced(
    relay: RelayModel,
    now: Instant,
    peer: SocketAddr,
    request_nonce: u32,
    protocol: MembershipProtocol,
    mac: ResponseMac,
    packet: Seq<u8>,
)
    requires
        request_nonce != 0,
        !relay.table.contains_key(peer),
        authentic(relay, now, mac, peer.ip_spec(), peer.port_spec(), request_nonce),
        request_answer(relay, peer, request_nonce, protocol)->MembershipQuery_limit,
    ensures
        update_answer(relay, now, peer, mac, request_nonce, packet) == Ok::<
            (RelayActionModel, Option<TableModel<SocketAddr>>),
            RelayErrorModel,
        >((RelayActionModel::Ignored, None)),
{
}

/// A teardown may come from another address than the one it is about: who sends
/// it does not matter.
pub proof fn law_teardowns_may_come_from_anywhere(
    relay: RelayModel,
    now: Instant,
    peer: SocketAddr,
    other: SocketAddr,
    datagram: Seq<u8>,
)
    requires
        decoded(datagram) is Ok,
        decoded(datagram)->Ok_0 is Teardown,
    ensures
        answer(relay, now, peer, datagram) == answer(relay, now, other, datagram),
        after_answer(relay, now, peer, datagram) == after_answer(relay, now, other, datagram),
{
}

/// What a response MAC binds, byte by byte: the gateway's address in sixteen
/// bytes, an IPv4 address behind twelve zeros, then its port, then the nonce of
/// the request.  The MAC is the first six bytes of the code over these.
pub proof fn law_macs_bind_endpoint_and_nonce(
    secret: Seq<u8>,
    ip: IpAddr,
    port: u16,
    request_nonce: u32,
)
    ensures
        ({
            let s = mac_input(ip, port, request_nonce);
            let code = hmac_sha256_of(secret, s);
            let mac = mac_of(secret, ip, port, request_nonce);
            &&& s.len() == 22
            &&& match ip {
                IpAddr::V4(a) => spells(s, 0, IpAddr::V6(Ipv6Addr { bits: a.bits as u128 })),
                IpAddr::V6(a) => spells(s, 0, ip),
            }
            &&& s[16] * 0x100 + s[17] == port
            &&& s[18] * 0x100_0000 + s[19] * 0x1_0000 + s[20] * 0x100 + s[21] == request_nonce
            &&& mac.high == code[0] * 0x100 + code[1]
            &&& mac.low == code[2] * 0x100_0000 + code[3] * 0x1_0000 + code[4] * 0x100 + code[5]
        }),
{
    let s = mac_input(ip, port, request_nonce);
    let field = Ipv6Addr { bits: GatewayAddress::of_ip(ip).bits };
    crate::net::lemma_ipv6_octets_read_back(field);
    crate::net::law_octets_spell_the_address(IpAddr::V6(field));
    let octets = crate::net::ip_octets(IpAddr::V6(field));
    assert forall|i: int| 0 <= i < 16 implies #[trigger] s[i] == octets[i] by {}
    crate::bytes::lemma_u16_bytes_read_back(port);
    crate::bytes::lemma_u32_bytes_read_back(request_nonce);
    assert(s[16] == u16_bytes(port)[0] && s[17] == u16_bytes(port)[1]);
    let word = u32_bytes(request_nonce);
    assert(s[18] == word[0] && s[19] == word[1] && s[20] == word[2] && s[21] == word[3]);
}

/// A discovery is answered with its own nonce and the relay's address of the
/// family that the gateway uses.
pub proof fn law_discoveries_are_answered(
    relay: RelayModel,
    now: Instant,
    peer: SocketAddr,
    discovery_nonce: u32,
)
    requires
        discovery_nonce != 0,
    ensures
        ({
            let prepared = answer(
                relay,
                now,
                peer,
                message_bytes(MessageModel::RelayDiscovery { discovery_nonce }),
            );
            &&& prepared is Ok
            &&& prepared->Ok_0.1 is None
            &&& prepared->Ok_0.0 is Send
            &&& decoded(prepared->Ok_0.0->Send_0) == Ok::<MessageModel, DecodeErrorModel>(
                MessageModel::RelayAdvertisement {
                    discovery_nonce,
                    relay_address: if peer is V4 {
                        IpAddr::V4(relay.config.advertise_ipv4)
                    } else {
                        IpAddr::V6(relay.config.advertise_ipv6)
                    },
                },
            )
        }),
{
    crate::protocol::law_decode_undoes_encode(MessageModel::RelayDiscovery { discovery_nonce });
    crate::protocol::law_decode_undoes_encode(
        MessageModel::RelayAdvertisement {
            discovery_nonce,
            relay_address: advertised_addr(relay.config, peer),
        },
    );
}

/// A request is answered with its own nonce, the MAC of the endpoint that it came
/// from, that endpoint where the relay tells it, the general query of the
/// protocol that it asks for, and the word that new endpoints are refused where
/// they are.
pub proof fn law_requests_are_answered(
    relay: RelayModel,
    now: Instant,
    peer: SocketAddr,
    request_nonce: u32,
    protocol: MembershipProtocol,
    ecn_capable: bool,
)
    requires
        request_nonce != 0,
    ensures
        ({
            let prepared = answer(
                relay,
                now,
                peer,
                message_bytes(MessageModel::Request { request_nonce, protocol, ecn_capable }),
            );
            let ip = match peer {
                SocketAddr::V4(a) => IpAddr::V4(a.ip),
                SocketAddr::V6(a) => IpAddr::V6(a.ip),
            };
            let port = match peer {
                SocketAddr::V4(a) => a.port,
                SocketAddr::V6(a) => a.port,
            };
            &&& prepared is Ok
            &&& prepared->Ok_0.1 is None
            &&& prepared->Ok_0.0 is Send
            &&& decoded(prepared->Ok_0.0->Send_0) matches Ok(
                MessageModel::MembershipQuery {
                    response_mac,
                    request_nonce: nonce,
                    limit,
                    gateway,
                    general_query,
                },
            ) && {
                &&& nonce == request_nonce
                &&& response_mac == mac_of(relay.config.secret, ip, port, request_nonce)
                &&& limit == refuses_new(relay, ip)
                &&& general_query == query_bytes(protocol, relay.config.general_query)
                &&& gateway is Some <==> relay.config.include_gateway_address
                &&& gateway is Some ==> gateway->Some_0.port == port
                    && gateway->Some_0.address.bits == match ip {
                    IpAddr::V4(a) => a.bits as u128,
                    IpAddr::V6(a) => a.bits,
                }
            }
        }),
{
    crate::protocol::law_decode_undoes_encode(
        MessageModel::Request { request_nonce, protocol, ecn_capable },
    );
    crate::protocol::law_decode_undoes_encode(
        request_answer(relay, peer, request_nonce, protocol),
    );
}

/// New endpoints are refused when the operator says so, or when the endpoints,
/// their groups, their sources, the subscriptions or the endpoints under the
/// address have reached nine tenths of their limit, and only then.
pub proof fn law_new_endpoints_are_refused_near_the_limits(relay: RelayModel, address: IpAddr)
    ensures
        ({
            let limits = relay.config.limits;
            let groups = crate::membership::clamp_len(endpoint_groups(relay.table).len() as int);
            let sources = crate::membership::clamp_len(listed_sources(relay.table).len() as int);
            let above = |n: int, limit: usize| limit > 0 && 10 * n >= 9 * limit + 10;
            let near = |n: int, limit: usize| limit > 0 && 10 * n >= 9 * limit;
            &&& relay.config.limit ==> refuses_new(relay, address)
            &&& above(relay.table.dom().len() as int, limits.max_endpoints) ==> refuses_new(
                relay,
                address,
            )
            &&& above(groups as int, limits.max_total_endpoint_groups) ==> refuses_new(
                relay,
                address,
            )
            &&& above(sources as int, limits.max_total_sources) ==> refuses_new(relay, address)
            &&& above(
                subscriptions_of(relay.table).len() as int,
                limits.max_upstream_subscriptions,
            ) ==> refuses_new(relay, address)
            &&& above(
                endpoints_under(relay.table, address).len() as int,
                limits.max_endpoints_per_ip,
            ) ==> refuses_new(relay, address)
            &&& refuses_new(relay, address) ==> {
                ||| relay.config.limit
                ||| near(relay.table.dom().len() as int, limits.max_endpoints)
                ||| near(groups as int, limits.max_total_endpoint_groups)
                ||| near(sources as int, limits.max_total_sources)
                ||| near(
                    subscriptions_of(relay.table).len() as int,
                    limits.max_upstream_subscriptions,
                )
                ||| near(
                    endpoints_under(relay.table, address).len() as int,
                    limits.max_endpoints_per_ip,
                )
            }
        }),
{
}

/// A MAC under the current secret is always good; one under the secret before it
/// is good for twice the interval that the relay's queries announce.
pub proof fn law_secrets_are_good_for_two_query_intervals(
    relay: RelayModel,
    now: Instant,
    ip: IpAddr,
    port: u16,
    request_nonce: u32,
)
    ensures
        authentic(
            relay,
            now,
            mac_of(relay.config.secret, ip, port, request_nonce),
            ip,
            port,
            request_nonce,
        ),
        relay.previous matches Some(previous) ==> {
            let old = mac_of(previous.secret, ip, port, request_nonce);
            let span = 2 * interval_secs(relay.config.general_query.query_interval_code)
                * 1_000_000_000;
            &&& now.nanos <= previous.rotated_at.nanos + span ==> authentic(
                relay,
                now,
                old,
                ip,
                port,
                request_nonce,
            )
            &&& now.nanos > previous.rotated_at.nanos + span && old != mac_of(
                relay.config.secret,
                ip,
                port,
                request_nonce,
            ) ==> !authentic(relay, now, old, ip, port, request_nonce)
        },
        relay.previous is None ==> forall|mac: ResponseMac| #[trigger]
            authentic(relay, now, mac, ip, port, request_nonce) ==> mac == mac_of(
                relay.config.secret,
                ip,
                port,
                request_nonce,
            ),
{
    crate::query::law_interval_codes_are_floating_numbers(
        relay.config.general_query.query_interval_code,
    );
    assert(interval_secs(relay.config.general_query.query_interval_code) >= 0) by {
        crate::query::lemma_intervals_are_not_negative(
            relay.config.general_query.query_interval_code,
        );
    }
}

/// A secret is replaced once its interval is over, where there is one and the
/// secret before it is no longer good; the replaced one is kept, with the time of
/// its replacement.
pub proof fn law_secrets_are_replaced_in_time(relay: RelayModel, now: Instant, fresh: Seq<u8>)
    ensures
        ({
            let after = after_rotation(relay, now, Some(fresh));
            let span = 2 * interval_secs(relay.config.general_query.query_interval_code)
                * 1_000_000_000;
            let free = match relay.previous {
                Some(previous) => now.nanos > previous.rotated_at.nanos + span,
                None => true,
            };
            let due = match relay.config.secret_rotation_interval {
                Some(interval) => now.nanos >= relay.rotated_at.nanos + interval.nanos && free,
                None => false,
            };
            &&& due ==> after.config.secret == fresh && after.rotated_at == now
                && after.previous == Some(
                PreviousModel { secret: relay.config.secret, rotated_at: now },
            )
            &&& !due && now.nanos >= relay.rotated_at.nanos ==> after == relay
            &&& after_rotation(relay, now, None) == relay
            &&& after.table == relay.table && after.ecn_gateways == relay.ecn_gateways
        }),
{
    crate::query::lemma_intervals_are_not_negative(
        relay.config.general_query.query_interval_code,
    );
}

/// The gateway fields of a message name the endpoint that they carry: an address
/// whose first 96 bits are zero is an IPv4 address.
pub proof fn law_gateway_fields_name_an_endpoint(gateway: GatewayEndpoint)
    ensures
        ({
            let endpoint = named_endpoint(gateway);
            &&& endpoint.port_spec() == gateway.port
            &&& endpoint is V4 <==> gateway.address.bits <= 0xffff_ffff
            &&& endpoint matches SocketAddr::V4(a) ==> a.ip.bits == gateway.address.bits
            &&& endpoint matches SocketAddr::V6(a) ==> a.ip.bits == gateway.address.bits
                && a.flowinfo == 0 && a.scope_id == 0
        }),
{
}

/// An authentic teardown removes the endpoint that its fields name, and no other.
pub proof fn law_teardowns_remove_the_named_endpoint(
    relay: RelayModel,
    now: Instant,
    peer: SocketAddr,
    mac: ResponseMac,
    request_nonce: u32,
    gateway: GatewayEndpoint,
    other: SocketAddr,
)
    requires
        request_nonce != 0,
        ({
            let endpoint = named_endpoint(gateway);
            authentic(
                relay,
                now,
                mac,
                endpoint.ip_spec(),
                endpoint.port_spec(),
                request_nonce,
            )
        }),
    ensures
        ({
            let endpoint = named_endpoint(gateway);
            let datagram = message_bytes(
                MessageModel::Teardown { response_mac: mac, request_nonce, gateway },
            );
            let after = committed(
                after_answer(relay, now, peer, datagram),
                answer(relay, now, peer, datagram),
            );
            &&& answer(relay, now, peer, datagram) matches Ok(
                (RelayActionModel::AcceptedTeardown { gateway: named, removed }, _),
            ) && named == gateway && removed == relay.table.contains_key(endpoint)
            &&& !after.table.contains_key(endpoint)
            &&& !after.ecn_gateways.contains(endpoint)
            &&& other != endpoint ==> after.table.contains_key(other) == relay.table.contains_key(
                other,
            ) && (relay.table.contains_key(other) ==> after.table[other] == relay.table[other])
                && after.ecn_gateways.contains(other) == relay.ecn_gateways.contains(other)
            &&& after.config == relay.config
        }),
{
    crate::protocol::law_decode_undoes_encode(
        MessageModel::Teardown { response_mac: mac, request_nonce, gateway },
    );
}

/// An authentic update of a known gateway, or of any where there is room, makes
/// its endpoint want what the report in it says, if no group of it is bound to
/// its link and no limit is exceeded; the action counts the records that changed
/// something and lists the subscriptions of the table that comes of it.
pub proof fn law_updates_take_effect(
    relay: RelayModel,
    now: Instant,
    peer: SocketAddr,
    mac: ResponseMac,
    request_nonce: u32,
    packet: Seq<u8>,
)
    requires
        request_nonce != 0,
        authentic(relay, now, mac, peer.ip_spec(), peer.port_spec(), request_nonce),
        relay.table.contains_key(peer) || !refuses_new(relay, peer.ip_spec()),
    ensures
        ({
            let datagram = message_bytes(
                MessageModel::MembershipUpdate {
                    response_mac: mac,
                    request_nonce,
                    membership_update: packet,
                },
            );
            let prepared = answer(relay, now, peer, datagram);
            let after = committed(after_answer(relay, now, peer, datagram), prepared);
            let read = packet_report(
                packet,
                MembershipParseLimits {
                    max_records: relay.config.limits.max_records_per_report,
                    max_sources_per_record: relay.config.limits.max_sources_per_group,
                },
            );
            &&& read matches Err(error) ==> prepared == Err::<
                (RelayActionModel, Option<TableModel<SocketAddr>>),
                RelayErrorModel,
            >(RelayErrorModel::Membership(error))
            &&& read matches Ok(report) ==> {
                let local = exists|i: int|
                    0 <= i < report.records.len() && !forwardable_group(
                        (#[trigger] report.records[i]).group,
                    );
                &&& local ==> (prepared matches Err(
                    RelayErrorModel::Membership(ParseErrorModel::InvalidMulticastGroup(_)),
                ))
                &&& !local && report_limit_error(report.records, relay.config.limits) is None
                    && table_limit_error(
                    report_applied(relay.table, peer, report.records),
                    peer,
                    relay.config.limits,
                ) is None ==> prepared is Ok
                &&& prepared is Ok ==> {
                    &&& !local
                    &&& after.table == report_applied(relay.table, peer, report.records)
                    &&& prepared->Ok_0.0 matches RelayActionModel::AcceptedMembershipUpdate {
                        protocol,
                        bytes,
                        records_applied,
                        upstream_subscriptions,
                    } && protocol == report.protocol && bytes == packet.len() && records_applied
                        == effective_records(groups_of(relay.table, peer), report.records)
                        && upstream_subscriptions == in_order(subscriptions_of(after.table))
                }
            }
            &&& prepared is Err ==> after.table == relay.table
        }),
{
    crate::protocol::law_decode_undoes_encode(
        MessageModel::MembershipUpdate {
            response_mac: mac,
            request_nonce,
            membership_update: packet,
        },
    );
    let read = packet_report(packet, parse_limits(relay.config.limits));
    if let Ok(report) = read {
        lemma_first_local_group(report.records);
    }
}

proof fn lemma_first_local_group(records: Seq<RecordModel>)
    ensures
        first_local_group(records) is Some <==> exists|i: int|
            0 <= i < records.len() && !forwardable_group((#[trigger] records[i]).group),
        first_local_group(records) matches Some(group) ==> !forwardable_group(group),
    decreases records.len(),
{
    if records.len() > 0 {
        let front = records.drop_last();
        lemma_first_local_group(front);
        if exists|i: int|
            0 <= i < records.len() && !forwardable_group((#[trigger] records[i]).group) {
            let i = choose|i: int|
                0 <= i < records.len() && !forwardable_group((#[trigger] records[i]).group);
            if i < front.len() {
                assert(front[i] == records[i]);
            }
        }
        if exists|i: int| 0 <= i < front.len() && !forwardable_group((#[trigger] front[i]).group) {
            let i = choose|i: int|
                0 <= i < front.len() && !forwardable_group((#[trigger] front[i]).group);
            assert(records[i] == front[i]);
        }
        if !forwardable_group(records.last().group) {
            assert(!forwardable_group(records[records.len() - 1].group));
        }
    }
}

/// A gateway propagates ECN if its last request said so and the relay does: such
/// a request adds it, as long as there is room, any other request removes it, and
/// requests of others leave it alone.
pub proof fn law_requests_tell_who_propagates_ecn(
    relay: RelayModel,
    now: Instant,
    peer: SocketAddr,
    request_nonce: u32,
    protocol: MembershipProtocol,
    ecn_capable: bool,
    other: SocketAddr,
)
    requires
        request_nonce != 0,
    ensures
        ({
            let after = after_answer(
                relay,
                now,
                peer,
                message_bytes(MessageModel::Request { request_nonce, protocol, ecn_capable }),
            );
            &&& !ecn_capable || !relay.config.ecn ==> !after.ecn_gateways.contains(peer)
            &&& ecn_capable && relay.config.ecn && relay.ecn_gateways.len()
                < relay.config.limits.max_endpoints ==> after.ecn_gateways.contains(peer)
            &&& ecn_capable && relay.config.ecn && relay.ecn_gateways.contains(peer)
                ==> after.ecn_gateways.contains(peer)
            &&& other != peer ==> after.ecn_gateways.contains(other)
                == relay.ecn_gateways.contains(other)
            &&& after.table == relay.table && after.config == relay.config
        }),
{
    crate::protocol::law_decode_undoes_encode(
        MessageModel::Request { request_nonce, protocol, ecn_capable },
    );
}

/// A relay advertises the address that it is bound to, and its own host where it
/// is bound to no particular one.
pub proof fn law_relays_advertise_what_they_bind(bind: SocketAddr, secret: Seq<u8>)
    ensures
        ({
            let config = config_for_bind(bind, secret);
            &&& config.bind == bind && config.secret == secret
            &&& bind matches SocketAddr::V4(a) ==> config.advertise_ipv6.bits == 1
                && config.advertise_ipv4.bits == if a.ip.bits == 0 {
                0x7f00_0001
            } else {
                a.ip.bits
            }
            &&& bind matches SocketAddr::V6(a) ==> config.advertise_ipv4.bits == 0x7f00_0001
                && config.advertise_ipv6.bits == if a.ip.bits == 0 {
                1
            } else {
                a.ip.bits
            }
        }),
{
}

/// A relay refuses what it cannot read, for the reason that it cannot be read, and
/// what comes under a nonce of zero; no other message is refused before its MAC
/// was looked at.
pub proof fn law_relay_refusals_are_true(
    relay: RelayModel,
    now: Instant,
    peer: SocketAddr,
    datagram: Seq<u8>,
)
    ensures
        answer(relay, now, peer, datagram) matches Err(error) ==> {
            let told = decoded(datagram);
            &&& error is Decode <==> told is Err
            &&& error matches RelayErrorModel::Decode(reason) ==> told == Err::<
                MessageModel,
                DecodeErrorModel,
            >(reason)
            &&& error is ZeroNonce ==> match told {
                Ok(MessageModel::RelayDiscovery { discovery_nonce }) => discovery_nonce == 0,
                Ok(MessageModel::Request { request_nonce, .. }) => request_nonce == 0,
                Ok(MessageModel::MembershipUpdate { request_nonce, .. }) => request_nonce == 0,
                Ok(MessageModel::Teardown { request_nonce, .. }) => request_nonce == 0,
                _ => false,
            }
            &&& error is Membership || error is ResourceLimit ==> (
            told matches Ok(MessageModel::MembershipUpdate { response_mac, request_nonce, .. })
                && request_nonce != 0 && authentic(
                relay,
                now,
                response_mac,
                peer.ip_spec(),
                peer.port_spec(),
                request_nonce,
            ))
        },
{
}

} // verus!
