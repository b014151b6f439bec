//! The gateway side of AMT: discovering a relay, keeping a membership session
//! with it and taking multicast packets out of the tunnel.

use crate::bytes::copy_range;
use crate::ecn::{decapsulate_ecn, decapsulated, packet_ecn, with_ecn};
use crate::ecn::{EcnCodepoint, EcnDecapsulation, EcnError};
use crate::ip::{multicast_packet, parse_multicast_packet, IpPacketError};
use crate::membership::{
    build_error, build_membership_report, record_models, report_bytes, MembershipBuildError,
    MembershipRecord, MembershipRecordKind, MembershipReport, RecordModel, ReportModel,
};
use crate::net::{same_family, same_family_spec, IpAddr, Ipv4Addr, SocketAddr, SocketAddrV4};
use crate::ordered::{ascending, in_order, OrdSet};
use crate::protocol::{
    decoded, encode, message_bytes, DecodeError, DecodeErrorModel, GatewayEndpoint,
    MembershipProtocol, Message, MessageModel, ResponseMac,
};
use crate::query::{general_query_interval, interval_secs, query_code, QueryValidationError};
use crate::random::{nonzero_or_random, random_nonce, RandomnessError};
use crate::state::{
    aggregate_of, hears, interested, law_records_decide_who_is_heard, record_applied,
    records_applied, report_applied, GroupsModel, RelayState, TableModel,
};
use crate::time::Duration;
use vstd::prelude::*;

verus! {

/// The endpoint under which a gateway keeps its own reception state.
pub open spec fn reception_endpoint_spec() -> SocketAddr {
    SocketAddr::V4(SocketAddrV4 { ip: Ipv4Addr { bits: 0 }, port: 0 })
}

/// The endpoint under which a gateway keeps its own reception state.
pub fn reception_endpoint() -> (endpoint: SocketAddr)
    ensures
        endpoint == reception_endpoint_spec(),
{
    SocketAddr::V4(SocketAddrV4 { ip: Ipv4Addr { bits: 0 }, port: 0 })
}

/// What a gateway is told to do.
#[derive(Debug, PartialEq, Eq)]
pub struct GatewayConfig {
    pub relay: SocketAddr,
    pub fallback_relays: Vec<SocketAddr>,
    pub protocol: MembershipProtocol,
    pub ecn: bool,
    pub discovery_nonce: u32,
    pub request_nonce: u32,
}

/// A [`GatewayConfig`] with its relays as a sequence.
#[verifier::ext_equal]
pub struct ConfigModel {
    pub relay: SocketAddr,
    pub fallback_relays: Seq<SocketAddr>,
    pub protocol: MembershipProtocol,
    pub ecn: bool,
    pub discovery_nonce: u32,
    pub request_nonce: u32,
}

impl View for GatewayConfig {
    type V = ConfigModel;

    open spec fn view(&self) -> ConfigModel {
        ConfigModel {
            relay: self.relay,
            fallback_relays: self.fallback_relays@,
            protocol: self.protocol,
            ecn: self.ecn,
            discovery_nonce: self.discovery_nonce,
            request_nonce: self.request_nonce,
        }
    }
}

/// The relays of a family, each once, without `except`, in the order of their
/// first mention.
pub open spec fn distinct_relays(
    family: IpAddr,
    except: Option<SocketAddr>,
    relays: Seq<SocketAddr>,
) -> Seq<SocketAddr>
    decreases relays.len(),
{
    if relays.len() == 0 {
        Seq::empty()
    } else {
        let front = distinct_relays(family, except, relays.drop_last());
        let relay = relays.last();
        if same_family_spec(relay.ip_spec(), family) && Some(relay) != except && !front.contains(
            relay,
        ) {
            front.push(relay)
        } else {
            front
        }
    }
}

fn contains_relay(relays: &Vec<SocketAddr>, relay: SocketAddr) -> (found: bool)
    ensures
        found == relays@.contains(relay),
{
    let mut i: usize = 0;
    while i < relays.len()
        invariant
            i <= relays@.len(),
            forall|j: int| 0 <= j < i ==> relays@[j] != relay,
        decreases relays@.len() - i,
    {
        if relays[i] == relay {
            return true;
        }
        i += 1;
    }
    false
}

fn collect_relays(
    family: IpAddr,
    except: Option<SocketAddr>,
    relays: &Vec<SocketAddr>,
) -> (distinct: Vec<SocketAddr>)
    ensures
        distinct@ == distinct_relays(family, except, relays@),
{
    let mut distinct: Vec<SocketAddr> = Vec::new();
    let mut i: usize = 0;
    proof {
        assert(relays@.take(0) =~= Seq::empty());
    }
    while i < relays.len()
        invariant
            i <= relays@.len(),
            distinct@ == distinct_relays(family, except, relays@.take(i as int)),
        decreases relays@.len() - i,
    {
        let relay = relays[i];
        proof {
            assert(relays@.take(i + 1).drop_last() =~= relays@.take(i as int));
        }
        let excepted: bool = match except {
            Some(other) => other == relay,
            None => false,
        };
        if same_family(relay.ip(), family) && !excepted && !contains_relay(&distinct, relay) {
            distinct.push(relay);
        }
        i += 1;
    }
    proof {
        assert(relays@.take(relays@.len() as int) =~= relays@);
    }
    distinct
}

impl GatewayConfig {
    /// A configuration with random nonces.
    pub fn new(relay: SocketAddr, protocol: MembershipProtocol) -> (result: Result<
        Self,
        RandomnessError,
    >)
        ensures
            result matches Ok(config) ==> {
                &&& config.discovery_nonce != 0
                &&& config.request_nonce != 0
                &&& config@ == (ConfigModel {
                    relay,
                    fallback_relays: Seq::empty(),
                    protocol,
                    ecn: false,
                    discovery_nonce: config.discovery_nonce,
                    request_nonce: config.request_nonce,
                })
            },
    {
        Self::from_drawn(relay, protocol, random_nonce(), random_nonce())
    }

    /// A configuration with the nonces that two draws gave, if both gave one.
    pub fn from_drawn(
        relay: SocketAddr,
        protocol: MembershipProtocol,
        discovery_nonce: Result<u32, RandomnessError>,
        request_nonce: Result<u32, RandomnessError>,
    ) -> (result: Result<Self, RandomnessError>)
        ensures
            match (discovery_nonce, request_nonce) {
                (Err(error), _) => result == Err::<Self, RandomnessError>(error),
                (Ok(_), Err(error)) => result == Err::<Self, RandomnessError>(error),
                (Ok(discovery_nonce), Ok(request_nonce)) => result matches Ok(config) && config@
                    == (ConfigModel {
                    relay,
                    fallback_relays: Seq::empty(),
                    protocol,
                    ecn: false,
                    discovery_nonce,
                    request_nonce,
                }),
            },
    {
        let discovery_nonce: u32 = match discovery_nonce {
            Ok(nonce) => nonce,
            Err(error) => return Err(error),
        };
        let request_nonce: u32 = match request_nonce {
            Ok(nonce) => nonce,
            Err(error) => return Err(error),
        };
        Ok(Self::from_nonces(relay, protocol, discovery_nonce, request_nonce))
    }

    /// A configuration with given nonces.
    pub fn from_nonces(
        relay: SocketAddr,
        protocol: MembershipProtocol,
        discovery_nonce: u32,
        request_nonce: u32,
    ) -> (config: Self)
        ensures
            config@ == (ConfigModel {
                relay,
                fallback_relays: Seq::empty(),
                protocol,
                ecn: false,
                discovery_nonce,
                request_nonce,
            }),
    {
        GatewayConfig {
            relay,
            fallback_relays: Vec::new(),
            protocol,
            ecn: false,
            discovery_nonce,
            request_nonce,
        }
    }

    pub fn with_nonces(self, discovery_nonce: u32, request_nonce: u32) -> (config: Self)
        ensures
            config@ == (ConfigModel { discovery_nonce, request_nonce, ..self@ }),
    {
        GatewayConfig { discovery_nonce, request_nonce, ..self }
    }

    pub fn with_ecn(self, enabled: bool) -> (config: Self)
        ensures
            config@ == (ConfigModel { ecn: enabled, ..self@ }),
    {
        GatewayConfig { ecn: enabled, ..self }
    }

    /// Replaces the fallback relays by those of the primary relay's family,
    /// each once.
    pub fn with_fallback_relays(self, relays: Vec<SocketAddr>) -> (config: Self)
        ensures
            config@ == (ConfigModel {
                fallback_relays: distinct_relays(self.relay.ip_spec(), Some(self.relay), relays@),
                ..self@
            }),
    {
        let fallback_relays = collect_relays(self.relay.ip(), Some(self.relay), &relays);
        GatewayConfig { fallback_relays, ..self }
    }
}

#[derive(Debug, Clone, Copy, PartialEq, Eq, Structural)]
pub enum GatewayPhase {
    Discovering,
    AwaitingMembershipQuery,
    Established,
}

/// What the relay's last Membership Query gave the gateway.
#[derive(Debug, Clone, Copy, PartialEq, Eq, Structural)]
pub struct GatewaySession {
    pub response_mac: ResponseMac,
    pub request_nonce: u32,
    pub gateway_endpoint: Option<GatewayEndpoint>,
    pub reported_memberships: bool,
}

/// The state of one gateway.
#[derive(Debug, PartialEq, Eq)]
pub struct Gateway {
    pub config: GatewayConfig,
    pub relay_candidates: Vec<SocketAddr>,
    pub phase: GatewayPhase,
    pub relay_endpoint: Option<SocketAddr>,
    pub session: Option<GatewaySession>,
    pub reception_state: RelayState,
}

/// A [`Gateway`] with its parts as mathematical values.
#[verifier::ext_equal]
pub struct GatewayModel {
    pub config: ConfigModel,
    pub candidates: Seq<SocketAddr>,
    pub phase: GatewayPhase,
    pub relay_endpoint: Option<SocketAddr>,
    pub session: Option<GatewaySession>,
    pub reception: TableModel<SocketAddr>,
}

impl View for Gateway {
    type V = GatewayModel;

    open spec fn view(&self) -> GatewayModel {
        GatewayModel {
            config: self.config@,
            candidates: self.relay_candidates@,
            phase: self.phase,
            relay_endpoint: self.relay_endpoint,
            session: self.session,
            reception: self.reception_state@,
        }
    }
}

/// What the caller is to do after an event.
#[allow(inconsistent_fields)]
#[derive(Debug, PartialEq, Eq)]
pub enum GatewayAction {
    Send { destination: SocketAddr, datagram: Vec<u8> },
    MembershipQuery {
        response_mac: ResponseMac,
        limit: bool,
        gateway: Option<GatewayEndpoint>,
        general_query: Vec<u8>,
        query_interval: Duration,
        previous_teardown: Option<GatewaySend>,
    },
    MulticastData { packet: Vec<u8>, ecn: Option<EcnDecapsulation> },
    DroppedEcn { ecn: EcnDecapsulation, packet_len: usize },
    Ignored,
}

/// One datagram to send.
#[derive(Debug, PartialEq, Eq)]
pub struct GatewaySend {
    pub destination: SocketAddr,
    pub datagram: Vec<u8>,
}

/// A [`GatewaySend`] with its datagram as a sequence.
pub struct SendModel {
    pub destination: SocketAddr,
    pub datagram: Seq<u8>,
}

impl View for GatewaySend {
    type V = SendModel;

    open spec fn view(&self) -> SendModel {
        SendModel { destination: self.destination, datagram: self.datagram@ }
    }
}

/// A [`GatewayAction`] with its byte strings as sequences.
#[allow(inconsistent_fields)]
pub enum ActionModel {
    Send { destination: SocketAddr, datagram: Seq<u8> },
    MembershipQuery {
        response_mac: ResponseMac,
        limit: bool,
        gateway: Option<GatewayEndpoint>,
        general_query: Seq<u8>,
        query_interval: Duration,
        previous_teardown: Option<SendModel>,
    },
    MulticastData { packet: Seq<u8>, ecn: Option<EcnDecapsulation> },
    DroppedEcn { ecn: EcnDecapsulation, packet_len: int },
    Ignored,
}

impl View for GatewayAction {
    type V = ActionModel;

    open spec fn view(&self) -> ActionModel {
        match *self {
            GatewayAction::Send { destination, datagram } => ActionModel::Send {
                destination,
                datagram: datagram@,
            },
            GatewayAction::MembershipQuery {
                response_mac,
                limit,
                gateway,
                general_query,
                query_interval,
                previous_teardown,
            } => ActionModel::MembershipQuery {
                response_mac,
                limit,
                gateway,
                general_query: general_query@,
                query_interval,
                previous_teardown: match previous_teardown {
                    Some(send) => Some(send@),
                    None => None,
                },
            },
            GatewayAction::MulticastData { packet, ecn } => ActionModel::MulticastData {
                packet: packet@,
                ecn,
            },
            GatewayAction::DroppedEcn { ecn, packet_len } => ActionModel::DroppedEcn {
                ecn,
                packet_len: packet_len as int,
            },
            GatewayAction::Ignored => ActionModel::Ignored,
        }
    }
}

impl GatewayAction {
    /// The datagram to send, if that is the action.
    pub fn into_send(self) -> (send: Option<(SocketAddr, Vec<u8>)>)
        ensures
            match send {
                Some((destination, datagram)) => self@ == (ActionModel::Send {
                    destination,
                    datagram: datagram@,
                }),
                None => !(self is Send),
            },
    {
        match self {
            GatewayAction::Send { destination, datagram } => Some((destination, datagram)),
            _ => None,
        }
    }
}

/// Why the gateway did not act.
#[allow(inconsistent_fields)]
#[derive(Debug, PartialEq, Eq)]
pub enum GatewayError {
    Decode(DecodeError),
    MembershipBuild(MembershipBuildError),
    InvalidGeneralQuery(QueryValidationError),
    InvalidMulticastPacket(IpPacketError),
    InvalidEcn(EcnError),
    UnexpectedDiscoveryNonce { expected: u32, actual: u32 },
    UnexpectedRequestNonce { expected: u32, actual: u32 },
    UnexpectedPeer { expected: SocketAddr, actual: SocketAddr },
    UnexpectedMessageForState { message: &'static str, phase: GatewayPhase },
    InvalidRelayAddress(IpAddr),
    MissingRelayEndpoint,
    MissingMembershipQuery,
    MissingGatewayEndpoint,
    /// The operating system gave no random nonce.
    Randomness(RandomnessError),
}

/// A [`GatewayError`] with its texts as sequences.
#[allow(inconsistent_fields)]
pub enum GatewayErrorModel {
    Decode(DecodeErrorModel),
    MembershipBuild(MembershipBuildError),
    InvalidGeneralQuery(QueryValidationError),
    InvalidMulticastPacket(IpPacketError),
    InvalidEcn(EcnError),
    UnexpectedDiscoveryNonce { expected: u32, actual: u32 },
    UnexpectedRequestNonce { expected: u32, actual: u32 },
    UnexpectedPeer { expected: SocketAddr, actual: SocketAddr },
    UnexpectedMessageForState { message: Seq<char>, phase: GatewayPhase },
    InvalidRelayAddress(IpAddr),
    MissingRelayEndpoint,
    MissingMembershipQuery,
    MissingGatewayEndpoint,
    Randomness,
}

impl View for GatewayError {
    type V = GatewayErrorModel;

    open spec fn view(&self) -> GatewayErrorModel {
        match *self {
            GatewayError::Decode(error) => GatewayErrorModel::Decode(error@),
            GatewayError::MembershipBuild(error) => GatewayErrorModel::MembershipBuild(error),
            GatewayError::InvalidGeneralQuery(error) => GatewayErrorModel::InvalidGeneralQuery(
                error,
            ),
            GatewayError::InvalidMulticastPacket(error) => {
                GatewayErrorModel::InvalidMulticastPacket(error)
            },
            GatewayError::InvalidEcn(error) => GatewayErrorModel::InvalidEcn(error),
            GatewayError::UnexpectedDiscoveryNonce { expected, actual } => {
                GatewayErrorModel::UnexpectedDiscoveryNonce { expected, actual }
            },
            GatewayError::UnexpectedRequestNonce { expected, actual } => {
                GatewayErrorModel::UnexpectedRequestNonce { expected, actual }
            },
            GatewayError::UnexpectedPeer { expected, actual } => {
                GatewayErrorModel::UnexpectedPeer { expected, actual }
            },
            GatewayError::UnexpectedMessageForState { message, phase } => {
                GatewayErrorModel::UnexpectedMessageForState { message: message@, phase }
            },
            GatewayError::InvalidRelayAddress(address) => GatewayErrorModel::InvalidRelayAddress(
                address,
            ),
            GatewayError::MissingRelayEndpoint => GatewayErrorModel::MissingRelayEndpoint,
            GatewayError::MissingMembershipQuery => GatewayErrorModel::MissingMembershipQuery,
            GatewayError::MissingGatewayEndpoint => GatewayErrorModel::MissingGatewayEndpoint,
            GatewayError::Randomness(_) => GatewayErrorModel::Randomness,
        }
    }
}

pub type Reaction = (GatewayModel, Result<ActionModel, GatewayErrorModel>);

/// A result in terms of what it says.
pub open spec fn action_result(result: Result<GatewayAction, GatewayError>) -> Result<
    ActionModel,
    GatewayErrorModel,
> {
    match result {
        Ok(action) => Ok(action@),
        Err(error) => Err(error@),
    }
}

/// The discovery that a gateway sends.
pub open spec fn discovery_send(gateway: GatewayModel) -> ActionModel {
    ActionModel::Send {
        destination: gateway.config.relay,
        datagram: message_bytes(
            MessageModel::RelayDiscovery { discovery_nonce: gateway.config.discovery_nonce },
        ),
    }
}

/// The request that a gateway sends to a relay.
pub open spec fn request_send(gateway: GatewayModel, relay: SocketAddr) -> ActionModel {
    ActionModel::Send {
        destination: relay,
        datagram: message_bytes(
            MessageModel::Request {
                request_nonce: gateway.config.request_nonce,
                protocol: gateway.config.protocol,
                ecn_capable: gateway.config.ecn,
            },
        ),
    }
}

/// The teardown of a session at a relay.
pub open spec fn teardown_send(
    relay: SocketAddr,
    session: GatewaySession,
    endpoint: GatewayEndpoint,
) -> SendModel {
    SendModel {
        destination: relay,
        datagram: message_bytes(
            MessageModel::Teardown {
                response_mac: session.response_mac,
                request_nonce: session.request_nonce,
                gateway: endpoint,
            },
        ),
    }
}

/// The one peer that a gateway listens to.
pub open spec fn expected_peer(gateway: GatewayModel) -> SocketAddr {
    match gateway.relay_endpoint {
        Some(relay) => relay,
        None => gateway.config.relay,
    }
}

/// What a Relay Advertisement does.
pub open spec fn advertised(
    gateway: GatewayModel,
    peer: SocketAddr,
    discovery_nonce: u32,
    relay_address: IpAddr,
) -> Reaction {
    if gateway.phase != GatewayPhase::Discovering {
        (
            gateway,
            Err(
                GatewayErrorModel::UnexpectedMessageForState {
                    message: "Relay Advertisement"@,
                    phase: gateway.phase,
                },
            ),
        )
    } else if discovery_nonce != gateway.config.discovery_nonce {
        (
            gateway,
            Err(
                GatewayErrorModel::UnexpectedDiscoveryNonce {
                    expected: gateway.config.discovery_nonce,
                    actual: discovery_nonce,
                },
            ),
        )
    } else if !relay_address.unicast_spec() || !same_family_spec(relay_address, peer.ip_spec()) {
        (gateway, Err(GatewayErrorModel::InvalidRelayAddress(relay_address)))
    } else {
        let relay = SocketAddr::of(relay_address, peer.port_spec());
        (
            GatewayModel {
                relay_endpoint: Some(relay),
                phase: GatewayPhase::AwaitingMembershipQuery,
                ..gateway
            },
            Ok(request_send(gateway, relay)),
        )
    }
}

/// The nonce that a Membership Query must carry, if one may come.
pub open spec fn awaited_nonce(gateway: GatewayModel) -> Option<u32> {
    match (gateway.phase, gateway.session) {
        (GatewayPhase::AwaitingMembershipQuery, _) => Some(gateway.config.request_nonce),
        (GatewayPhase::Established, Some(session)) => Some(session.request_nonce),
        _ => None,
    }
}

/// The teardown that a change of the gateway's endpoint calls for.
pub open spec fn superseded_teardown(
    relay: SocketAddr,
    session: Option<GatewaySession>,
    endpoint: Option<GatewayEndpoint>,
) -> Option<SendModel> {
    match session {
        Some(previous) => match previous.gateway_endpoint {
            Some(old) => if previous.gateway_endpoint != endpoint {
                Some(teardown_send(relay, previous, old))
            } else {
                None
            },
            None => None,
        },
        None => None,
    }
}

/// What a Membership Query does.
pub open spec fn queried(
    gateway: GatewayModel,
    response_mac: ResponseMac,
    request_nonce: u32,
    limit: bool,
    endpoint: Option<GatewayEndpoint>,
    general_query: Seq<u8>,
) -> Reaction {
    match gateway.relay_endpoint {
        None => (gateway, Err(GatewayErrorModel::MissingRelayEndpoint)),
        Some(relay) => match awaited_nonce(gateway) {
            None => (
                gateway,
                Err(
                    GatewayErrorModel::UnexpectedMessageForState {
                        message: "Membership Query"@,
                        phase: gateway.phase,
                    },
                ),
            ),
            Some(expected) => if request_nonce != expected {
                (
                    gateway,
                    Err(
                        GatewayErrorModel::UnexpectedRequestNonce {
                            expected,
                            actual: request_nonce,
                        },
                    ),
                )
            } else {
                match query_code(gateway.config.protocol, general_query) {
                    Err(error) => (gateway, Err(GatewayErrorModel::InvalidGeneralQuery(error))),
                    Ok(code) => (
                        GatewayModel {
                            session: Some(
                                GatewaySession {
                                    response_mac,
                                    request_nonce,
                                    gateway_endpoint: endpoint,
                                    reported_memberships: match gateway.session {
                                        Some(previous) => previous.gateway_endpoint == endpoint
                                            && previous.reported_memberships,
                                        None => false,
                                    },
                                },
                            ),
                            phase: GatewayPhase::Established,
                            ..gateway
                        },
                        Ok(
                            ActionModel::MembershipQuery {
                                response_mac,
                                limit,
                                gateway: endpoint,
                                general_query,
                                query_interval: Duration::secs_spec(interval_secs(code) as u64),
                                previous_teardown: superseded_teardown(
                                    relay,
                                    gateway.session,
                                    endpoint,
                                ),
                            },
                        ),
                    ),
                }
            },
        },
    }
}

/// Whether the gateway itself wants packets from a source to a group.
pub open spec fn wants_packet(gateway: GatewayModel, source: IpAddr, group: IpAddr) -> bool {
    interested(gateway.reception, reception_endpoint_spec(), group)
        && gateway.reception[reception_endpoint_spec()][group].wants(source)
}

/// What leaves the tunnel for a wanted packet.
pub open spec fn delivered(gateway: GatewayModel, packet: Seq<u8>, outer: EcnCodepoint) -> Result<
    ActionModel,
    GatewayErrorModel,
> {
    if !gateway.config.ecn {
        Ok(ActionModel::MulticastData { packet, ecn: None })
    } else {
        match packet_ecn(packet) {
            Err(error) => Err(GatewayErrorModel::InvalidEcn(error)),
            Ok(inner) => {
                let (output, currently_unused) = decapsulated(inner, outer);
                let ecn = EcnDecapsulation { inner, outer, output, currently_unused };
                match output {
                    None => Ok(
                        ActionModel::DroppedEcn { ecn, packet_len: packet.len() as int },
                    ),
                    Some(output) => Ok(
                        ActionModel::MulticastData {
                            packet: if output == inner {
                                packet
                            } else {
                                with_ecn(packet, output)
                            },
                            ecn: Some(ecn),
                        },
                    ),
                }
            },
        }
    }
}

/// What Multicast Data does; it never changes the gateway.
pub open spec fn received(gateway: GatewayModel, packet: Seq<u8>, outer: EcnCodepoint) -> Result<
    ActionModel,
    GatewayErrorModel,
> {
    if gateway.relay_endpoint is None {
        Err(GatewayErrorModel::MissingRelayEndpoint)
    } else if gateway.session is None {
        Err(
            GatewayErrorModel::UnexpectedMessageForState {
                message: "Multicast Data"@,
                phase: gateway.phase,
            },
        )
    } else {
        match multicast_packet(packet) {
            Err(error) => Err(GatewayErrorModel::InvalidMulticastPacket(error)),
            Ok(parsed) => if wants_packet(gateway, parsed.source, parsed.group) {
                delivered(gateway, packet, outer)
            } else {
                Ok(ActionModel::Ignored)
            },
        }
    }
}

/// What a datagram does.
pub open spec fn reaction(
    gateway: GatewayModel,
    peer: SocketAddr,
    datagram: Seq<u8>,
    outer: EcnCodepoint,
) -> Reaction {
    if peer != expected_peer(gateway) {
        (
            gateway,
            Err(
                GatewayErrorModel::UnexpectedPeer {
                    expected: expected_peer(gateway),
                    actual: peer,
                },
            ),
        )
    } else {
        match decoded(datagram) {
            Err(error) => (gateway, Err(GatewayErrorModel::Decode(error))),
            Ok(MessageModel::RelayAdvertisement { discovery_nonce, relay_address }) => advertised(
                gateway,
                peer,
                discovery_nonce,
                relay_address,
            ),
            Ok(
                MessageModel::MembershipQuery {
                    response_mac,
                    request_nonce,
                    limit,
                    gateway: endpoint,
                    general_query,
                },
            ) => queried(gateway, response_mac, request_nonce, limit, endpoint, general_query),
            Ok(MessageModel::MulticastData { packet }) => (
                gateway,
                received(gateway, packet, outer),
            ),
            Ok(_) => (gateway, Ok(ActionModel::Ignored)),
        }
    }
}

/// What reporting memberships to the relay does.
pub open spec fn updated(gateway: GatewayModel, report: ReportModel) -> Reaction {
    match gateway.relay_endpoint {
        None => (gateway, Err(GatewayErrorModel::MissingRelayEndpoint)),
        Some(relay) => match gateway.session {
            None => (gateway, Err(GatewayErrorModel::MissingMembershipQuery)),
            Some(session) => match build_error(report.protocol, report.records) {
                Some(error) => (gateway, Err(GatewayErrorModel::MembershipBuild(error))),
                None => {
                    let reception = report_applied(
                        gateway.reception,
                        reception_endpoint_spec(),
                        report.records,
                    );
                    (
                        GatewayModel {
                            session: Some(
                                GatewaySession {
                                    reported_memberships: reception.contains_key(
                                        reception_endpoint_spec(),
                                    ),
                                    ..session
                                },
                            ),
                            reception,
                            ..gateway
                        },
                        Ok(
                            ActionModel::Send {
                                destination: relay,
                                datagram: message_bytes(
                                    MessageModel::MembershipUpdate {
                                        response_mac: session.response_mac,
                                        request_nonce: session.request_nonce,
                                        membership_update: report_bytes(
                                            report.protocol,
                                            report.records,
                                        ),
                                    },
                                ),
                            },
                        ),
                    )
                },
            },
        },
    }
}

/// The groups that records speak of.
pub open spec fn groups_named(records: Seq<RecordModel>) -> Set<IpAddr> {
    Set::new(
        |group: IpAddr|
            exists|i: int| 0 <= i < records.len() && (#[trigger] records[i]).group == group,
    )
}

/// A record that leaves a group.
pub open spec fn leave_record(group: IpAddr) -> RecordModel {
    RecordModel {
        kind: MembershipRecordKind::ChangeToInclude,
        group,
        sources: Seq::empty(),
    }
}

/// A report together with records that leave every group it does not speak of.
pub open spec fn replacing(gateway: GatewayModel, report: ReportModel) -> ReportModel {
    let left = aggregate_of(gateway.reception).dom().difference(groups_named(report.records));
    ReportModel {
        protocol: report.protocol,
        records: report.records + in_order(left).map_values(|group: IpAddr| leave_record(group)),
    }
}

/// The gateway after a restart of discovery with fresh nonces: the next
/// fallback relay takes over, and the one before it becomes the last fallback
/// unless it has been retired.
pub open spec fn restarted(gateway: GatewayModel, discovery_nonce: u32, request_nonce: u32) -> GatewayModel {
    let config = gateway.config;
    let rotated = if config.fallback_relays.len() == 0 {
        config
    } else {
        let rest = config.fallback_relays.skip(1);
        ConfigModel {
            relay: config.fallback_relays[0],
            fallback_relays: if gateway.candidates.contains(config.relay) {
                rest.push(config.relay)
            } else {
                rest
            },
            ..config
        }
    };
    GatewayModel {
        config: ConfigModel { discovery_nonce, request_nonce, ..rotated },
        phase: GatewayPhase::Discovering,
        relay_endpoint: None,
        session: None,
        ..gateway
    }
}

/// The relays that a set of candidates leaves as fallbacks.
pub open spec fn without_relay(candidates: Seq<SocketAddr>, relay: SocketAddr) -> Seq<SocketAddr>
    decreases candidates.len(),
{
    if candidates.len() == 0 {
        Seq::empty()
    } else if candidates.last() == relay {
        without_relay(candidates.drop_last(), relay)
    } else {
        without_relay(candidates.drop_last(), relay).push(candidates.last())
    }
}

/// The gateway with a new set of candidates, unless nothing usable is new.
pub open spec fn with_candidates(gateway: GatewayModel, relays: Seq<SocketAddr>) -> GatewayModel {
    let candidates = distinct_relays(gateway.config.relay.ip_spec(), None, relays);
    if candidates.len() == 0 || candidates == gateway.candidates {
        gateway
    } else {
        GatewayModel {
            candidates,
            config: ConfigModel {
                fallback_relays: without_relay(candidates, gateway.config.relay),
                ..gateway.config
            },
            ..gateway
        }
    }
}

/// Whether the phase fits what the gateway knows: it listens to a relay of its
/// own exactly when discovery is over, and a session needs such a relay.
pub open spec fn consistent(gateway: GatewayModel) -> bool {
    &&& (gateway.phase is Discovering) == (gateway.relay_endpoint is None)
    &&& gateway.phase is Established ==> gateway.session is Some
    &&& gateway.session is Some ==> gateway.relay_endpoint is Some
}

fn same_relays(a: &Vec<SocketAddr>, b: &Vec<SocketAddr>) -> (same: bool)
    ensures
        same == (a@ == b@),
{
    if a.len() != b.len() {
        return false;
    }
    let mut i: usize = 0;
    while i < a.len()
        invariant
            i <= a@.len(),
            a@.len() == b@.len(),
            forall|j: int| 0 <= j < i ==> a@[j] == b@[j],
        decreases a@.len() - i,
    {
        if a[i] != b[i] {
            return false;
        }
        i += 1;
    }
    proof {
        assert(a@ =~= b@);
    }
    true
}

impl Gateway {
    /// Whether the reception state is well formed.
    pub open spec fn wf(&self) -> bool {
        self.reception_state.wf()
    }

    /// A gateway that starts by discovering its primary relay; a zero nonce is
    /// replaced by a random one.
    pub fn new(config: GatewayConfig) -> (result: Result<Self, RandomnessError>)
        ensures
            config.discovery_nonce != 0 && config.request_nonce != 0 ==> result is Ok,
            result matches Ok(gateway) ==> {
                &&& gateway.wf()
                &&& gateway.config.discovery_nonce != 0
                &&& gateway.config.request_nonce != 0
                &&& config.discovery_nonce != 0 ==> gateway.config.discovery_nonce
                    == config.discovery_nonce
                &&& config.request_nonce != 0 ==> gateway.config.request_nonce
                    == config.request_nonce
                &&& gateway@ == (GatewayModel {
                    config: ConfigModel {
                        discovery_nonce: gateway.config.discovery_nonce,
                        request_nonce: gateway.config.request_nonce,
                        ..config@
                    },
                    candidates: seq![config.relay] + config.fallback_relays@,
                    phase: GatewayPhase::Discovering,
                    relay_endpoint: None,
                    session: None,
                    reception: Map::empty(),
                })
            },
    {
        let discovery_nonce: u32 = match nonzero_or_random(config.discovery_nonce) {
            Ok(nonce) => nonce,
            Err(error) => return Err(error),
        };
        let request_nonce: u32 = match nonzero_or_random(config.request_nonce) {
            Ok(nonce) => nonce,
            Err(error) => return Err(error),
        };
        let mut relay_candidates: Vec<SocketAddr> = Vec::new();
        relay_candidates.push(config.relay);
        let mut i: usize = 0;
        while i < config.fallback_relays.len()
            invariant
                i <= config.fallback_relays@.len(),
                relay_candidates@ == seq![config.relay] + config.fallback_relays@.take(i as int),
            decreases config.fallback_relays@.len() - i,
        {
            relay_candidates.push(config.fallback_relays[i]);
            i += 1;
            proof {
                assert(relay_candidates@ =~= seq![config.relay] + config.fallback_relays@.take(
                    i as int,
                ));
            }
        }
        proof {
            assert(config.fallback_relays@.take(i as int) =~= config.fallback_relays@);
        }
        Ok(
            Gateway {
                config: config.with_nonces(discovery_nonce, request_nonce),
                relay_candidates,
                phase: GatewayPhase::Discovering,
                relay_endpoint: None,
                session: None,
                reception_state: RelayState::new(),
            },
        )
    }

    pub fn config(&self) -> (config: &GatewayConfig)
        ensures
            *config == self.config,
    {
        &self.config
    }

    pub fn relay_endpoint(&self) -> (relay: Option<SocketAddr>)
        ensures
            relay == self.relay_endpoint,
    {
        self.relay_endpoint
    }

    pub fn phase(&self) -> (phase: GatewayPhase)
        ensures
            phase == self.phase,
    {
        self.phase
    }

    pub open spec fn established_spec(&self) -> bool {
        self.phase is Established && self.session is Some
    }

    pub fn is_established(&self) -> (b: bool)
        ensures
            b == self.established_spec(),
    {
        matches!(self.phase, GatewayPhase::Established) && self.session.is_some()
    }

    pub fn is_awaiting_query(&self) -> (b: bool)
        ensures
            b == (self.phase is AwaitingMembershipQuery),
    {
        matches!(self.phase, GatewayPhase::AwaitingMembershipQuery)
    }

    pub fn response_mac(&self) -> (mac: Option<ResponseMac>)
        ensures
            mac == (match self.session {
                Some(session) => Some(session.response_mac),
                None => None,
            }),
    {
        match self.session {
            Some(session) => Some(session.response_mac),
            None => None,
        }
    }

    pub open spec fn reported_spec(&self) -> bool {
        self.session is Some && self.session->Some_0.reported_memberships
    }

    pub fn has_reported_memberships(&self) -> (b: bool)
        ensures
            b == self.reported_spec(),
    {
        match self.session {
            Some(session) => session.reported_memberships,
            None => false,
        }
    }

    /// The discovery message for the current relay.
    pub fn discovery(&self) -> (action: GatewayAction)
        ensures
            action@ == discovery_send(self@),
    {
        GatewayAction::Send {
            destination: self.config.relay,
            datagram: encode(
                &Message::RelayDiscovery { discovery_nonce: self.config.discovery_nonce },
            ),
        }
    }

    fn request_to(&self, relay: SocketAddr) -> (action: GatewayAction)
        ensures
            action@ == request_send(self@, relay),
    {
        GatewayAction::Send {
            destination: relay,
            datagram: encode(
                &Message::Request {
                    request_nonce: self.config.request_nonce,
                    protocol: self.config.protocol,
                    ecn_capable: self.config.ecn,
                },
            ),
        }
    }

    /// The request message for the discovered relay.
    pub fn request(&self) -> (result: Result<GatewayAction, GatewayError>)
        ensures
            action_result(result) == (match self.relay_endpoint {
                Some(relay) => Ok::<ActionModel, GatewayErrorModel>(request_send(self@, relay)),
                None => Err(GatewayErrorModel::MissingRelayEndpoint),
            }),
    {
        match self.relay_endpoint {
            Some(relay) => Ok(self.request_to(relay)),
            None => Err(GatewayError::MissingRelayEndpoint),
        }
    }

    /// Asks the relay for a fresh Membership Query under a given nonce.
    pub fn begin_query_cycle_with(&mut self, request_nonce: u32) -> (result: Result<
        GatewayAction,
        GatewayError,
    >)
        ensures
            final(self).wf() == old(self).wf(),
            match old(self).relay_endpoint {
                None => action_result(result) == Err::<ActionModel, GatewayErrorModel>(
                    GatewayErrorModel::MissingRelayEndpoint,
                ) && final(self)@ == old(self)@,
                Some(relay) => {
                    &&& final(self)@ == (GatewayModel {
                        config: ConfigModel { request_nonce, ..old(self)@.config },
                        phase: GatewayPhase::AwaitingMembershipQuery,
                        ..old(self)@
                    })
                    &&& action_result(result) == Ok::<ActionModel, GatewayErrorModel>(
                        request_send(final(self)@, relay),
                    )
                },
            },
    {
        if self.relay_endpoint.is_none() {
            return Err(GatewayError::MissingRelayEndpoint);
        }
        self.config.request_nonce = request_nonce;
        self.phase = GatewayPhase::AwaitingMembershipQuery;
        self.request()
    }

    /// Asks the relay for a fresh Membership Query under a random nonce.
    pub fn begin_query_cycle(&mut self) -> (result: Result<GatewayAction, GatewayError>)
        ensures
            final(self).wf() == old(self).wf(),
            old(self).relay_endpoint is None ==> action_result(result) == Err::<
                ActionModel,
                GatewayErrorModel,
            >(GatewayErrorModel::MissingRelayEndpoint),
            match result {
                Ok(action) => {
                    &&& old(self).relay_endpoint is Some
                    &&& final(self).config.request_nonce != 0
                    &&& final(self)@ == (GatewayModel {
                        config: ConfigModel {
                            request_nonce: final(self).config.request_nonce,
                            ..old(self)@.config
                        },
                        phase: GatewayPhase::AwaitingMembershipQuery,
                        ..old(self)@
                    })
                    &&& action@ == request_send(final(self)@, old(self).relay_endpoint->Some_0)
                },
                Err(error) => final(self)@ == old(self)@ && (old(self).relay_endpoint is Some
                    ==> error@ is Randomness),
            },
    {
        if self.relay_endpoint.is_none() {
            return Err(GatewayError::MissingRelayEndpoint);
        }
        match random_nonce() {
            Ok(nonce) => self.begin_query_cycle_with(nonce),
            Err(error) => Err(GatewayError::Randomness(error)),
        }
    }

    /// Starts over with the next relay under given nonces.
    pub fn restart_discovery_with(&mut self, discovery_nonce: u32, request_nonce: u32) -> (action:
        GatewayAction)
        ensures
            final(self).wf() == old(self).wf(),
            final(self)@ == restarted(old(self)@, discovery_nonce, request_nonce),
            action@ == discovery_send(final(self)@),
    {
        if self.config.fallback_relays.len() > 0 {
            let next = self.config.fallback_relays.remove(0);
            let previous = self.config.relay;
            self.config.relay = next;
            if contains_relay(&self.relay_candidates, previous) {
                self.config.fallback_relays.push(previous);
            }
            proof {
                assert(old(self).config.fallback_relays@.remove(0) =~= old(
                    self,
                ).config.fallback_relays@.skip(1));
            }
        }
        self.config.discovery_nonce = discovery_nonce;
        self.config.request_nonce = request_nonce;
        self.phase = GatewayPhase::Discovering;
        self.relay_endpoint = None;
        self.session = None;
        self.discovery()
    }

    /// Starts over with the next relay under random nonces.
    pub fn restart_discovery(&mut self) -> (result: Result<GatewayAction, GatewayError>)
        ensures
            final(self).wf() == old(self).wf(),
            match result {
                Ok(action) => {
                    &&& final(self).config.discovery_nonce != 0
                    &&& final(self).config.request_nonce != 0
                    &&& final(self)@ == restarted(
                        old(self)@,
                        final(self).config.discovery_nonce,
                        final(self).config.request_nonce,
                    )
                    &&& action@ == discovery_send(final(self)@)
                },
                Err(error) => error@ is Randomness && final(self)@ == old(self)@,
            },
    {
        let discovery_nonce: u32 = match random_nonce() {
            Ok(nonce) => nonce,
            Err(error) => return Err(GatewayError::Randomness(error)),
        };
        let request_nonce: u32 = match random_nonce() {
            Ok(nonce) => nonce,
            Err(error) => return Err(GatewayError::Randomness(error)),
        };
        Ok(self.restart_discovery_with(discovery_nonce, request_nonce))
    }

    /// Replaces the failover set while leaving a healthy active relay in place;
    /// tells whether anything changed.
    ///
    /// If the current relay is no longer present, it is retired on the next
    /// discovery restart rather than disrupting an established traffic flow.
    pub fn replace_relay_candidates(&mut self, relays: Vec<SocketAddr>) -> (changed: bool)
        ensures
            final(self).wf() == old(self).wf(),
            final(self)@ == with_candidates(old(self)@, relays@),
            changed == ({
                let candidates = distinct_relays(old(self).config.relay.ip_spec(), None, relays@);
                candidates.len() != 0 && candidates != old(self).relay_candidates@
            }),
    {
        let candidates = collect_relays(self.config.relay.ip(), None, &relays);
        if candidates.len() == 0 || same_relays(&candidates, &self.relay_candidates) {
            return false;
        }
        let relay = self.config.relay;
        let mut fallback_relays: Vec<SocketAddr> = Vec::new();
        let mut i: usize = 0;
        proof {
            assert(candidates@.take(0) =~= Seq::empty());
        }
        while i < candidates.len()
            invariant
                i <= candidates@.len(),
                fallback_relays@ == without_relay(candidates@.take(i as int), relay),
            decreases candidates@.len() - i,
        {
            let candidate = candidates[i];
            proof {
                assert(candidates@.take(i + 1).drop_last() =~= candidates@.take(i as int));
                assert(candidates@.take(i + 1).last() == candidate);
            }
            if candidate != relay {
                fallback_relays.push(candidate);
            }
            i += 1;
        }
        proof {
            assert(candidates@.take(candidates@.len() as int) =~= candidates@);
        }
        self.relay_candidates = candidates;
        self.config.fallback_relays = fallback_relays;
        true
    }

    pub fn current_relay_is_retired(&self) -> (retired: bool)
        ensures
            retired == !self.relay_candidates@.contains(self.config.relay),
    {
        !contains_relay(&self.relay_candidates, self.config.relay)
    }

    /// Handles one AMT datagram whose outer header carries no ECN mark.
    pub fn handle_datagram(&mut self, peer: SocketAddr, datagram: &[u8]) -> (result: Result<
        GatewayAction,
        GatewayError,
    >)
        requires
            old(self).wf(),
        ensures
            final(self).wf(),
            (final(self)@, action_result(result)) == reaction(
                old(self)@,
                peer,
                datagram@,
                EcnCodepoint::NotEct,
            ),
    {
        self.handle_datagram_with_ecn(peer, datagram, EcnCodepoint::NotEct)
    }

    /// Handles one AMT datagram together with the ECN field from its outer IP
    /// header.
    pub fn handle_datagram_with_ecn(
        &mut self,
        peer: SocketAddr,
        datagram: &[u8],
        outer_ecn: EcnCodepoint,
    ) -> (result: Result<GatewayAction, GatewayError>)
        requires
            old(self).wf(),
        ensures
            final(self).wf(),
            (final(self)@, action_result(result)) == reaction(
                old(self)@,
                peer,
                datagram@,
                outer_ecn,
            ),
    {
        let expected = match self.relay_endpoint {
            Some(relay) => relay,
            None => self.config.relay,
        };
        if peer != expected {
            return Err(GatewayError::UnexpectedPeer { expected, actual: peer });
        }
        let message = match Message::decode(datagram) {
            Ok(message) => message,
            Err(error) => return Err(GatewayError::Decode(error)),
        };
        match message {
            Message::RelayAdvertisement { discovery_nonce, relay_address } => {
                self.handle_advertisement(peer, discovery_nonce, relay_address)
            },
            Message::MembershipQuery {
                response_mac,
                request_nonce,
                limit,
                gateway,
                general_query,
            } => self.handle_query(response_mac, request_nonce, limit, gateway, general_query),
            Message::MulticastData { packet } => self.handle_data(packet, outer_ecn),
            Message::RelayDiscovery { .. } | Message::Request { .. } | Message::MembershipUpdate {
                ..
            } | Message::Teardown { .. } => Ok(GatewayAction::Ignored),
        }
    }

    fn handle_advertisement(
        &mut self,
        peer: SocketAddr,
        discovery_nonce: u32,
        relay_address: IpAddr,
    ) -> (result: Result<GatewayAction, GatewayError>)
        ensures
            final(self).wf() == old(self).wf(),
            (final(self)@, action_result(result)) == advertised(
                old(self)@,
                peer,
                discovery_nonce,
                relay_address,
            ),
    {
        if self.phase != GatewayPhase::Discovering {
            return Err(
                GatewayError::UnexpectedMessageForState {
                    message: "Relay Advertisement",
                    phase: self.phase,
                },
            );
        }
        if discovery_nonce != self.config.discovery_nonce {
            return Err(
                GatewayError::UnexpectedDiscoveryNonce {
                    expected: self.config.discovery_nonce,
                    actual: discovery_nonce,
                },
            );
        }
        if !relay_address.is_unicast() || !same_family(relay_address, peer.ip()) {
            return Err(GatewayError::InvalidRelayAddress(relay_address));
        }
        let relay_endpoint = SocketAddr::new(relay_address, peer.port());
        self.relay_endpoint = Some(relay_endpoint);
        self.phase = GatewayPhase::AwaitingMembershipQuery;
        Ok(self.request_to(relay_endpoint))
    }

    fn handle_query(
        &mut self,
        response_mac: ResponseMac,
        request_nonce: u32,
        limit: bool,
        gateway: Option<GatewayEndpoint>,
        general_query: &[u8],
    ) -> (result: Result<GatewayAction, GatewayError>)
        ensures
            final(self).wf() == old(self).wf(),
            (final(self)@, action_result(result)) == queried(
                old(self)@,
                response_mac,
                request_nonce,
                limit,
                gateway,
                general_query@,
            ),
    {
        let relay = match self.relay_endpoint {
            Some(relay) => relay,
            None => return Err(GatewayError::MissingRelayEndpoint),
        };
        let expected: u32 = match (self.phase, self.session) {
            (GatewayPhase::AwaitingMembershipQuery, _) => self.config.request_nonce,
            (GatewayPhase::Established, Some(session)) => session.request_nonce,
            _ => {
                return Err(
                    GatewayError::UnexpectedMessageForState {
                        message: "Membership Query",
                        phase: self.phase,
                    },
                );
            },
        };
        if request_nonce != expected {
            return Err(
                GatewayError::UnexpectedRequestNonce { expected, actual: request_nonce },
            );
        }
        let query_interval = match general_query_interval(self.config.protocol, general_query) {
            Ok(interval) => interval,
            Err(error) => return Err(GatewayError::InvalidGeneralQuery(error)),
        };
        let mut previous_teardown: Option<GatewaySend> = None;
        let mut reported_memberships: bool = false;
        if let Some(previous) = self.session {
            if previous.gateway_endpoint == gateway {
                reported_memberships = previous.reported_memberships;
            } else if let Some(old_gateway) = previous.gateway_endpoint {
                previous_teardown = Some(
                    GatewaySend {
                        destination: relay,
                        datagram: encode(
                            &Message::Teardown {
                                response_mac: previous.response_mac,
                                request_nonce: previous.request_nonce,
                                gateway: old_gateway,
                            },
                        ),
                    },
                );
            }
        }
        self.session = Some(
            GatewaySession {
                response_mac,
                request_nonce,
                gateway_endpoint: gateway,
                reported_memberships,
            },
        );
        self.phase = GatewayPhase::Established;
        let general_query_copy = copy_range(general_query, 0, general_query.len());
        proof {
            assert(general_query@.subrange(0, general_query@.len() as int) =~= general_query@);
        }
        Ok(
            GatewayAction::MembershipQuery {
                response_mac,
                limit,
                gateway,
                general_query: general_query_copy,
                query_interval,
                previous_teardown,
            },
        )
    }

    fn handle_data(&self, packet: &[u8], outer_ecn: EcnCodepoint) -> (result: Result<
        GatewayAction,
        GatewayError,
    >)
        requires
            self.wf(),
        ensures
            action_result(result) == received(self@, packet@, outer_ecn),
    {
        if self.relay_endpoint.is_none() {
            return Err(GatewayError::MissingRelayEndpoint);
        }
        if self.session.is_none() {
            return Err(
                GatewayError::UnexpectedMessageForState {
                    message: "Multicast Data",
                    phase: self.phase,
                },
            );
        }
        let parsed = match parse_multicast_packet(packet) {
            Ok(parsed) => parsed,
            Err(error) => return Err(GatewayError::InvalidMulticastPacket(error)),
        };
        let wanted: bool = match self.reception_state.endpoint_interest(
            reception_endpoint(),
            parsed.group,
        ) {
            Some(interest) => interest.wants_source(parsed.source),
            None => false,
        };
        if !wanted {
            return Ok(GatewayAction::Ignored);
        }
        let mut copy = copy_range(packet, 0, packet.len());
        proof {
            assert(packet@.subrange(0, packet@.len() as int) =~= packet@);
        }
        if !self.config.ecn {
            return Ok(GatewayAction::MulticastData { packet: copy, ecn: None });
        }
        let ecn = match decapsulate_ecn(copy.as_mut_slice(), outer_ecn) {
            Ok(ecn) => ecn,
            Err(error) => return Err(GatewayError::InvalidEcn(error)),
        };
        if ecn.is_drop() {
            return Ok(GatewayAction::DroppedEcn { ecn, packet_len: copy.len() });
        }
        Ok(GatewayAction::MulticastData { packet: copy, ecn: Some(ecn) })
    }

    /// Reports memberships to the relay and remembers what was asked for.
    pub fn membership_update(&mut self, report: MembershipReport) -> (result: Result<
        GatewayAction,
        GatewayError,
    >)
        requires
            old(self).wf(),
        ensures
            final(self).wf(),
            (final(self)@, action_result(result)) == updated(old(self)@, report@),
    {
        let relay = match self.relay_endpoint {
            Some(relay) => relay,
            None => return Err(GatewayError::MissingRelayEndpoint),
        };
        let session = match self.session {
            Some(session) => session,
            None => return Err(GatewayError::MissingMembershipQuery),
        };
        let membership_update = match build_membership_report(&report) {
            Ok(packet) => packet,
            Err(error) => return Err(GatewayError::MembershipBuild(error)),
        };
        self.reception_state.apply_report(reception_endpoint(), &report);
        let reported_memberships: bool = self.reception_state.endpoint_has_interests(
            reception_endpoint(),
        );
        self.session = Some(GatewaySession { reported_memberships, ..session });
        Ok(
            GatewayAction::Send {
                destination: relay,
                datagram: encode(
                    &Message::MembershipUpdate {
                        response_mac: session.response_mac,
                        request_nonce: session.request_nonce,
                        membership_update: membership_update.as_slice(),
                    },
                ),
            },
        )
    }

    /// Reports memberships in place of all earlier ones: groups that the report
    /// does not speak of are left.
    pub fn replace_memberships(&mut self, report: MembershipReport) -> (result: Result<
        Option<GatewayAction>,
        GatewayError,
    >)
        requires
            old(self).wf(),
        ensures
            final(self).wf(),
            ({
                let whole = replacing(old(self)@, report@);
                if whole.records.len() == 0 {
                    result == Ok::<Option<GatewayAction>, GatewayError>(None) && final(self)@
                        == old(self)@
                } else {
                    match result {
                        Ok(Some(action)) => updated(old(self)@, whole) == (
                            final(self)@,
                            Ok::<ActionModel, GatewayErrorModel>(action@),
                        ),
                        Ok(None) => false,
                        Err(error) => updated(old(self)@, whole) == (
                            final(self)@,
                            Err::<ActionModel, GatewayErrorModel>(error@),
                        ),
                    }
                }
            }),
    {
        let ghost original = report@;
        let whole = self.complete_report(report);
        if whole.records.len() == 0 {
            return Ok(None);
        }
        match self.membership_update(whole) {
            Ok(action) => Ok(Some(action)),
            Err(error) => Err(error),
        }
    }

    fn complete_report(&self, report: MembershipReport) -> (whole: MembershipReport)
        requires
            self.wf(),
        ensures
            whole@ == replacing(self@, report@),
    {
        let ghost original = report@;
        let current = groups_of_records(&report.records);
        let known = self.reception_state.aggregate_interests_ref();
        let protocol = report.protocol;
        let mut records = report.records;
        let ghost keys = known.keys_seq();
        let ghost mut left: Seq<IpAddr> = Seq::empty();
        let mut i: usize = 0;
        proof {
            known.lemma_facts();
            assert(record_models(records@) =~= original.records + left.map_values(
                |group: IpAddr| leave_record(group),
            ));
        }
        while i < known.len()
            invariant
                known.wf(),
                keys == known.keys_seq(),
                ascending(keys),
                i <= keys.len(),
                current.wf(),
                current@ == groups_named(original.records),
                record_models(records@) == original.records + left.map_values(
                    |group: IpAddr| leave_record(group),
                ),
                ascending(left),
                forall|j: int| 0 <= j < left.len() && i < keys.len() ==> crate::ordered::OrdKey::rank(
                    #[trigger] left[j],
                ) < crate::ordered::OrdKey::rank(keys[i as int]),
                forall|g: IpAddr| #[trigger]
                    left.contains(g) <==> (keys.take(i as int).contains(g) && !current@.contains(
                        g,
                    )),
            decreases keys.len() - i,
        {
            let group = known.key_at(i);
            let leaving: bool = !current.contains(group);
            let ghost before = left;
            let ghost records_before = records@;
            if leaving {
                records.push(
                    MembershipRecord {
                        kind: MembershipRecordKind::ChangeToInclude,
                        group,
                        sources: Vec::new(),
                    },
                );
            }
            proof {
                known.lemma_facts();
                if leaving {
                    left = before.push(group);
                    assert(record_models(records@) =~= record_models(records_before).push(
                        leave_record(group),
                    ));
                    assert(left.map_values(|group: IpAddr| leave_record(group))
                        =~= before.map_values(|group: IpAddr| leave_record(group)).push(
                        leave_record(group),
                    ));
                    assert(record_models(records@) =~= original.records + left.map_values(
                        |group: IpAddr| leave_record(group),
                    ));
                }
                assert(ascending(left)) by {
                    assert forall|a: int, b: int| 0 <= a < b < left.len() implies crate::ordered::OrdKey::rank(
                        #[trigger] left[a],
                    ) < crate::ordered::OrdKey::rank(#[trigger] left[b]) by {
                        if b < before.len() {
                            assert(before[a] == left[a] && before[b] == left[b]);
                        } else {
                            assert(before[a] == left[a]);
                        }
                    }
                }
                assert forall|j: int| 0 <= j < left.len() && i + 1 < keys.len() implies crate::ordered::OrdKey::rank(
                    #[trigger] left[j],
                ) < crate::ordered::OrdKey::rank(keys[i + 1]) by {
                    assert(crate::ordered::OrdKey::rank(keys[i as int])
                        < crate::ordered::OrdKey::rank(keys[i + 1]));
                    if j < before.len() {
                        assert(before[j] == left[j]);
                    }
                }
                let shorter = keys.take(i as int);
                let longer = keys.take(i + 1);
                assert forall|g: IpAddr| #[trigger] left.contains(g) <==> (longer.contains(g)
                    && !current@.contains(g)) by {
                    assert(before.contains(g) <==> (shorter.contains(g) && !current@.contains(g)));
                    if shorter.contains(g) {
                        let m = choose|m: int| 0 <= m < shorter.len() && shorter[m] == g;
                        assert(longer[m] == g);
                    }
                    if longer.contains(g) {
                        let m = choose|m: int| 0 <= m < longer.len() && longer[m] == g;
                        if m < i {
                            assert(shorter[m] == g);
                        }
                    }
                    if g == group {
                        assert(longer[i as int] == g);
                    }
                    if leaving {
                        if before.contains(g) {
                            let m = choose|m: int| 0 <= m < before.len() && before[m] == g;
                            assert(left[m] == g);
                        }
                        if g == group {
                            assert(left[before.len() as int] == g);
                        }
                        if left.contains(g) {
                            let m = choose|m: int| 0 <= m < left.len() && left[m] == g;
                            if m < before.len() {
                                assert(before[m] == g);
                            }
                        }
                    }
                }
            }
            i += 1;
        }
        proof {
            known.lemma_facts();
            assert(keys.take(keys.len() as int) =~= keys);
            let target = aggregate_of(self@.reception).dom().difference(
                groups_named(original.records),
            );
            assert(left.to_set() =~= target) by {
                assert forall|g: IpAddr| left.to_set().contains(g) <==> #[trigger] target.contains(
                    g,
                ) by {
                    assert(keys.to_set().contains(g) <==> keys.contains(g));
                    assert(left.contains(g) <==> (keys.contains(g) && !current@.contains(g)));
                }
            }
            crate::ordered::lemma_in_order(left);
        }
        MembershipReport { protocol, records }
    }

    /// Joins a group, or one source of it.
    pub fn join_group(&mut self, group: IpAddr, source: Option<IpAddr>) -> (result: Result<
        GatewayAction,
        GatewayError,
    >)
        requires
            old(self).wf(),
        ensures
            final(self).wf(),
            (final(self)@, action_result(result)) == updated(
                old(self)@,
                ReportModel {
                    protocol: old(self).config.protocol,
                    records: seq![join_record(group, source)],
                },
            ),
    {
        let mut sources: Vec<IpAddr> = Vec::new();
        let kind = match source {
            Some(source) => {
                sources.push(source);
                MembershipRecordKind::AllowNewSources
            },
            None => MembershipRecordKind::ModeIsExclude,
        };
        let mut records: Vec<MembershipRecord> = Vec::new();
        records.push(MembershipRecord { kind, group, sources });
        proof {
            match source {
                Some(s) => assert(sources@ =~= seq![s]),
                None => assert(sources@ =~= Seq::empty()),
            }
            assert(record_models(records@) =~= seq![join_record(group, source)]);
        }
        self.membership_update(MembershipReport { protocol: self.config.protocol, records })
    }

    /// The message that ends the session.
    pub fn teardown(&self) -> (result: Result<GatewayAction, GatewayError>)
        ensures
            action_result(result) == ended(self@),
    {
        let relay = match self.relay_endpoint {
            Some(relay) => relay,
            None => return Err(GatewayError::MissingRelayEndpoint),
        };
        let session = match self.session {
            Some(session) => session,
            None => return Err(GatewayError::MissingMembershipQuery),
        };
        let gateway = match session.gateway_endpoint {
            Some(gateway) => gateway,
            None => return Err(GatewayError::MissingGatewayEndpoint),
        };
        Ok(
            GatewayAction::Send {
                destination: relay,
                datagram: encode(
                    &Message::Teardown {
                        response_mac: session.response_mac,
                        request_nonce: session.request_nonce,
                        gateway,
                    },
                ),
            },
        )
    }
}

/// The record that joins a group, or one source of it.
pub open spec fn join_record(group: IpAddr, source: Option<IpAddr>) -> RecordModel {
    match source {
        Some(source) => RecordModel {
            kind: MembershipRecordKind::AllowNewSources,
            group,
            sources: seq![source],
        },
        None => RecordModel {
            kind: MembershipRecordKind::ModeIsExclude,
            group,
            sources: Seq::empty(),
        },
    }
}

/// The message that ends a session, or why there is none to end.
pub open spec fn ended(gateway: GatewayModel) -> Result<ActionModel, GatewayErrorModel> {
    match gateway.relay_endpoint {
        None => Err(GatewayErrorModel::MissingRelayEndpoint),
        Some(relay) => match gateway.session {
            None => Err(GatewayErrorModel::MissingMembershipQuery),
            Some(session) => match session.gateway_endpoint {
                None => Err(GatewayErrorModel::MissingGatewayEndpoint),
                Some(endpoint) => {
                    let send = teardown_send(relay, session, endpoint);
                    Ok(
                        ActionModel::Send {
                            destination: send.destination,
                            datagram: send.datagram,
                        },
                    )
                },
            },
        },
    }
}

fn groups_of_records(records: &Vec<MembershipRecord>) -> (groups: OrdSet<IpAddr>)
    ensures
        groups.wf(),
        groups@ == groups_named(record_models(records@)),
{
    let ghost models = record_models(records@);
    let mut groups: OrdSet<IpAddr> = OrdSet::new();
    let mut i: usize = 0;
    while i < records.len()
        invariant
            i <= records@.len(),
            models == record_models(records@),
            groups.wf(),
            forall|g: IpAddr| #[trigger]
                groups@.contains(g) <==> exists|j: int|
                    0 <= j < i && (#[trigger] models[j]).group == g,
        decreases records@.len() - i,
    {
        let ghost before = groups@;
        let group = records[i].group;
        groups.insert(group);
        proof {
            assert(models[i as int].group == group);
            assert forall|g: IpAddr| #[trigger] groups@.contains(g) <==> exists|j: int|
                0 <= j < i + 1 && (#[trigger] models[j]).group == g by {
                if before.contains(g) {
                    let j = choose|j: int| 0 <= j < i && (#[trigger] models[j]).group == g;
                    assert(models[j].group == g);
                }
                if exists|j: int| 0 <= j < i + 1 && (#[trigger] models[j]).group == g {
                    let j = choose|j: int| 0 <= j < i + 1 && (#[trigger] models[j]).group == g;
                    if j < i {
                        assert(before.contains(g));
                    }
                }
            }
        }
        i += 1;
    }
    proof {
        assert(groups@ =~= groups_named(models));
    }
    groups
}

/// A datagram that the gateway answers with an error leaves it as it was.
pub proof fn law_errors_change_nothing(
    gateway: GatewayModel,
    peer: SocketAddr,
    datagram: Seq<u8>,
    outer: EcnCodepoint,
)
    requires
        reaction(gateway, peer, datagram, outer).1 is Err,
    ensures
        reaction(gateway, peer, datagram, outer).0 == gateway,
{
}

/// A gateway listens to one peer only; whatever another one sends changes
/// nothing.
pub proof fn law_strangers_are_refused(
    gateway: GatewayModel,
    peer: SocketAddr,
    datagram: Seq<u8>,
    outer: EcnCodepoint,
)
    requires
        peer != expected_peer(gateway),
    ensures
        reaction(gateway, peer, datagram, outer) == (
            gateway,
            Err::<ActionModel, GatewayErrorModel>(
                GatewayErrorModel::UnexpectedPeer {
                    expected: expected_peer(gateway),
                    actual: peer,
                },
            ),
        ),
{
}

/// Only a packet that the gateway asked for, from its relay and in a session,
/// leaves the tunnel; without ECN it leaves it unchanged.
pub proof fn law_only_wanted_packets_are_delivered(
    gateway: GatewayModel,
    peer: SocketAddr,
    datagram: Seq<u8>,
    outer: EcnCodepoint,
)
    requires
        reaction(gateway, peer, datagram, outer).1 is Ok,
        reaction(gateway, peer, datagram, outer).1->Ok_0 is MulticastData,
    ensures
        peer == expected_peer(gateway),
        gateway.relay_endpoint is Some,
        gateway.session is Some,
        decoded(datagram) is Ok,
        decoded(datagram)->Ok_0 is MulticastData,
        multicast_packet(decoded(datagram)->Ok_0->MulticastData_packet) is Ok,
        ({
            let packet = decoded(datagram)->Ok_0->MulticastData_packet;
            let parsed = multicast_packet(packet)->Ok_0;
            &&& wants_packet(gateway, parsed.source, parsed.group)
            &&& !gateway.config.ecn ==> reaction(gateway, peer, datagram, outer).1->Ok_0
                == (ActionModel::MulticastData { packet, ecn: None })
        }),
{
}

/// No datagram makes the phase of a gateway disagree with what it knows.
pub proof fn law_datagrams_keep_gateways_consistent(
    gateway: GatewayModel,
    peer: SocketAddr,
    datagram: Seq<u8>,
    outer: EcnCodepoint,
)
    requires
        consistent(gateway),
    ensures
        consistent(reaction(gateway, peer, datagram, outer).0),
{
}

/// Neither reporting memberships nor a restart makes the phase of a gateway
/// disagree with what it knows.
pub proof fn law_updates_and_restarts_keep_gateways_consistent(
    gateway: GatewayModel,
    report: ReportModel,
    discovery_nonce: u32,
    request_nonce: u32,
)
    requires
        consistent(gateway),
    ensures
        consistent(updated(gateway, report).0),
        consistent(restarted(gateway, discovery_nonce, request_nonce)),
{
}

/// The first advertisement with the right nonce settles the relay: it is asked
/// for a query, and no second advertisement can replace it.
pub proof fn law_first_advertisement_settles_the_relay(
    gateway: GatewayModel,
    peer: SocketAddr,
    discovery_nonce: u32,
    relay_address: IpAddr,
    later_peer: SocketAddr,
    later_nonce: u32,
    later_address: IpAddr,
)
    requires
        advertised(gateway, peer, discovery_nonce, relay_address).1 is Ok,
    ensures
        ({
            let settled = advertised(gateway, peer, discovery_nonce, relay_address).0;
            &&& settled.relay_endpoint == Some(
                SocketAddr::of(relay_address, peer.port_spec()),
            )
            &&& advertised(settled, later_peer, later_nonce, later_address).1 is Err
            &&& advertised(settled, later_peer, later_nonce, later_address).0 == settled
        }),
{
}

/// A restart forgets the session, so nothing counts as reported to the next
/// relay before it has been.
pub proof fn law_restart_forgets_the_session(
    gateway: GatewayModel,
    discovery_nonce: u32,
    request_nonce: u32,
)
    ensures
        restarted(gateway, discovery_nonce, request_nonce).session is None,
        restarted(gateway, discovery_nonce, request_nonce).relay_endpoint is None,
        restarted(gateway, discovery_nonce, request_nonce).reception == gateway.reception,
{
}

/// A relay that is no longer a candidate does not come back as a fallback.
pub proof fn law_retired_relays_stay_away(
    gateway: GatewayModel,
    discovery_nonce: u32,
    request_nonce: u32,
)
    requires
        gateway.config.fallback_relays.len() > 0,
        !gateway.candidates.contains(gateway.config.relay),
        !gateway.config.fallback_relays.contains(gateway.config.relay),
    ensures
        ({
            let next = restarted(gateway, discovery_nonce, request_nonce).config;
            next.relay != gateway.config.relay && !next.fallback_relays.contains(
                gateway.config.relay,
            )
        }),
{
    let all = gateway.config.fallback_relays;
    let rest = all.skip(1);
    assert(all[0] != gateway.config.relay) by {
        if all[0] == gateway.config.relay {
            assert(all.contains(gateway.config.relay));
        }
    }
    assert forall|i: int| 0 <= i < rest.len() implies rest[i] != gateway.config.relay by {
        assert(rest[i] == all[i + 1]);
        if rest[i] == gateway.config.relay {
            assert(all.contains(gateway.config.relay));
        }
    }
}

/// New candidates leave a relay in use alone: neither the session nor what the
/// gateway wants changes, and the relay stays until the next restart.
pub proof fn law_new_candidates_leave_the_session(gateway: GatewayModel, relays: Seq<SocketAddr>)
    ensures
        ({
            let after = with_candidates(gateway, relays);
            &&& after.config.relay == gateway.config.relay
            &&& after.phase == gateway.phase
            &&& after.relay_endpoint == gateway.relay_endpoint
            &&& after.session == gateway.session
            &&& after.reception == gateway.reception
        }),
{
}

/// The relays that a gateway falls back to are of the family of its first
/// relay, and none of them is named twice.
pub proof fn law_fallbacks_are_reachable_and_distinct(
    family: IpAddr,
    except: Option<SocketAddr>,
    relays: Seq<SocketAddr>,
)
    ensures
        distinct_relays(family, except, relays).no_duplicates(),
        forall|i: int|
            0 <= i < distinct_relays(family, except, relays).len() ==> {
                let relay = #[trigger] distinct_relays(family, except, relays)[i];
                same_family_spec(relay.ip_spec(), family) && Some(relay) != except
                    && relays.contains(relay)
            },
    decreases relays.len(),
{
    if relays.len() > 0 {
        let front = relays.drop_last();
        let before = distinct_relays(family, except, front);
        let after = distinct_relays(family, except, relays);
        law_fallbacks_are_reachable_and_distinct(family, except, front);
        assert(relays[relays.len() - 1] == relays.last());
        assert forall|i: int| 0 <= i < after.len() implies {
            let relay = #[trigger] after[i];
            same_family_spec(relay.ip_spec(), family) && Some(relay) != except && relays.contains(
                relay,
            )
        } by {
            if i < before.len() {
                let relay = before[i];
                assert(front.contains(relay));
                let k = choose|k: int| 0 <= k < front.len() && front[k] == relay;
                assert(relays[k] == relay);
            }
        }
        assert forall|i: int, j: int| 0 <= i < j < after.len() implies after[i] != after[j] by {
            if j == before.len() {
                assert(before.contains(before[i]));
            }
        }
    }
}

/// Joins add up: a source that the gateway joins is wanted, and one that was
/// wanted before still is.
pub proof fn law_joins_add_up(
    gateway: GatewayModel,
    group: IpAddr,
    source: IpAddr,
    earlier: IpAddr,
)
    requires
        ({
            let report = ReportModel {
                protocol: gateway.config.protocol,
                records: seq![join_record(group, Some(source))],
            };
            updated(gateway, report).1 is Ok
        }),
    ensures
        ({
            let report = ReportModel {
                protocol: gateway.config.protocol,
                records: seq![join_record(group, Some(source))],
            };
            let after = updated(gateway, report).0;
            &&& wants_packet(after, source, group)
            &&& wants_packet(gateway, earlier, group) ==> wants_packet(after, earlier, group)
        }),
{
    let record = join_record(group, Some(source));
    let records = seq![record];
    let me = reception_endpoint_spec();
    let known = crate::state::groups_of(gateway.reception, me);
    let after = crate::state::records_applied(known, records);
    assert(records.drop_last() =~= Seq::empty());
    assert(records.last() == record);
    assert(crate::state::records_applied(known, Seq::empty()) == known);
    assert(after == crate::state::record_applied(known, record));
    assert(record.sources.to_set().contains(source)) by {
        assert(record.sources[0] == source);
    }
    assert(after.contains_key(group));
    assert(after != Map::<IpAddr, crate::state::InterestModel>::empty());
}

/// An advertisement from the relay that was asked, under the nonce that it was
/// asked with, makes the gateway turn to the advertised address, at the port that
/// the relay answers from, and request a query there, under its request nonce and
/// with its protocol and ECN flag.  It is refused outside of discovery, under
/// another nonce, and with an address that is no unicast address of the relay's
/// family.
pub proof fn law_advertisements_are_followed(
    gateway: GatewayModel,
    discovery_nonce: u32,
    relay_address: IpAddr,
    outer: EcnCodepoint,
)
    ensures
        ({
            let peer = match gateway.relay_endpoint {
                Some(relay) => relay,
                None => gateway.config.relay,
            };
            let port = match peer {
                SocketAddr::V4(a) => a.port,
                SocketAddr::V6(a) => a.port,
            };
            let (after, result) = reaction(
                gateway,
                peer,
                message_bytes(MessageModel::RelayAdvertisement { discovery_nonce, relay_address }),
                outer,
            );
            let sound = gateway.phase is Discovering && discovery_nonce
                == gateway.config.discovery_nonce && relay_address.unicast_spec() && (
            relay_address is V4) == (peer is V4);
            &&& result is Ok <==> sound
            &&& sound ==> {
                &&& after.phase is AwaitingMembershipQuery
                &&& after.relay_endpoint is Some
                &&& after.relay_endpoint->Some_0.ip_spec() == relay_address
                &&& after.relay_endpoint->Some_0.port_spec() == port
                &&& after.config == gateway.config && after.session == gateway.session
                &&& after.reception == gateway.reception && after.candidates == gateway.candidates
                &&& result->Ok_0 matches ActionModel::Send { destination, datagram }
                    && destination == after.relay_endpoint->Some_0 && decoded(datagram) == Ok::<
                    MessageModel,
                    DecodeErrorModel,
                >(
                    MessageModel::Request {
                        request_nonce: gateway.config.request_nonce,
                        protocol: gateway.config.protocol,
                        ecn_capable: gateway.config.ecn,
                    },
                )
            }
        }),
{
    crate::protocol::law_decode_undoes_encode(
        MessageModel::RelayAdvertisement { discovery_nonce, relay_address },
    );
    crate::protocol::law_decode_undoes_encode(
        MessageModel::Request {
            request_nonce: gateway.config.request_nonce,
            protocol: gateway.config.protocol,
            ecn_capable: gateway.config.ecn,
        },
    );
}

/// A query from the relay in use opens or renews a session: it carries the nonce
/// of the last request, while that is awaited, or of the session, and a general
/// query of the gateway's protocol.  The session has the query's MAC, nonce and
/// endpoint; memberships count as reported only if they were and the endpoint is
/// the same; an endpoint that is given up is torn down under the session before.
pub proof fn law_queries_open_sessions(
    gateway: GatewayModel,
    response_mac: ResponseMac,
    request_nonce: u32,
    limit: bool,
    endpoint: Option<GatewayEndpoint>,
    general_query: Seq<u8>,
    outer: EcnCodepoint,
)
    requires
        gateway.relay_endpoint is Some,
    ensures
        ({
            let relay = gateway.relay_endpoint->Some_0;
            let (after, result) = reaction(
                gateway,
                relay,
                message_bytes(
                    MessageModel::MembershipQuery {
                        response_mac,
                        request_nonce,
                        limit,
                        gateway: endpoint,
                        general_query,
                    },
                ),
                outer,
            );
            let awaited = {
                ||| gateway.phase is AwaitingMembershipQuery && request_nonce
                    == gateway.config.request_nonce
                ||| gateway.phase is Established && gateway.session is Some && request_nonce
                    == gateway.session->Some_0.request_nonce
            };
            let code = query_code(gateway.config.protocol, general_query);
            &&& result is Ok <==> awaited && code is Ok
            &&& result matches Ok(action) ==> {
                &&& after.phase is Established
                &&& after.session is Some
                &&& after.session->Some_0.response_mac == response_mac
                &&& after.session->Some_0.request_nonce == request_nonce
                &&& after.session->Some_0.gateway_endpoint == endpoint
                &&& after.session->Some_0.reported_memberships <==> gateway.session is Some
                    && gateway.session->Some_0.reported_memberships
                    && gateway.session->Some_0.gateway_endpoint == endpoint
                &&& after.config == gateway.config && after.reception == gateway.reception
                &&& after.relay_endpoint == gateway.relay_endpoint
                &&& action matches ActionModel::MembershipQuery {
                    response_mac: mac,
                    limit: told,
                    gateway: named,
                    general_query: query,
                    query_interval,
                    previous_teardown,
                } && {
                    &&& mac == response_mac && told == limit && named == endpoint && query
                        == general_query
                    &&& query_interval.nanos == interval_secs(code->Ok_0) * 1_000_000_000
                    &&& previous_teardown is Some <==> gateway.session is Some
                        && gateway.session->Some_0.gateway_endpoint is Some
                        && gateway.session->Some_0.gateway_endpoint != endpoint
                    &&& previous_teardown matches Some(send) ==> send.destination == relay
                        && decoded(send.datagram) == Ok::<MessageModel, DecodeErrorModel>(
                        MessageModel::Teardown {
                            response_mac: gateway.session->Some_0.response_mac,
                            request_nonce: gateway.session->Some_0.request_nonce,
                            gateway: gateway.session->Some_0.gateway_endpoint->Some_0,
                        },
                    )
                }
            }
        }),
{
    crate::protocol::law_decode_undoes_encode(
        MessageModel::MembershipQuery {
            response_mac,
            request_nonce,
            limit,
            gateway: endpoint,
            general_query,
        },
    );
    if let Some(session) = gateway.session {
        if let Some(old) = session.gateway_endpoint {
            crate::protocol::law_decode_undoes_encode(
                MessageModel::Teardown {
                    response_mac: session.response_mac,
                    request_nonce: session.request_nonce,
                    gateway: old,
                },
            );
        }
    }
    if let Ok(code) = query_code(gateway.config.protocol, general_query) {
        crate::query::lemma_intervals_are_not_negative(code);
    }
}

/// What the gateway reports goes to the relay in use, under the session's MAC and
/// nonce, as the report's packet, and from then on decides what it wants; the end
/// of the session goes there too, with the session's endpoint.
pub proof fn law_reports_and_teardowns_go_to_the_relay(
    gateway: GatewayModel,
    report: ReportModel,
)
    requires
        gateway.relay_endpoint is Some,
        gateway.session is Some,
    ensures
        ({
            let relay = gateway.relay_endpoint->Some_0;
            let session = gateway.session->Some_0;
            let (after, result) = updated(gateway, report);
            &&& result is Ok <==> build_error(report.protocol, report.records) is None
            &&& result matches Ok(action) ==> {
                &&& action matches ActionModel::Send { destination, datagram } && destination
                    == relay && decoded(datagram) == Ok::<MessageModel, DecodeErrorModel>(
                    MessageModel::MembershipUpdate {
                        response_mac: session.response_mac,
                        request_nonce: session.request_nonce,
                        membership_update: report_bytes(report.protocol, report.records),
                    },
                )
                &&& after.reception == report_applied(
                    gateway.reception,
                    reception_endpoint_spec(),
                    report.records,
                )
                &&& after.session is Some && after.session->Some_0.response_mac
                    == session.response_mac && after.session->Some_0.request_nonce
                    == session.request_nonce && after.session->Some_0.gateway_endpoint
                    == session.gateway_endpoint
                &&& after.config == gateway.config && after.phase == gateway.phase
            }
            &&& ended(gateway) is Ok <==> session.gateway_endpoint is Some
            &&& ended(gateway) matches Ok(action) ==> action matches ActionModel::Send {
                destination,
                datagram,
            } && destination == relay && decoded(datagram) == Ok::<MessageModel, DecodeErrorModel>(
                MessageModel::Teardown {
                    response_mac: session.response_mac,
                    request_nonce: session.request_nonce,
                    gateway: session.gateway_endpoint->Some_0,
                },
            )
        }),
{
    let session = gateway.session->Some_0;
    crate::protocol::law_decode_undoes_encode(
        MessageModel::MembershipUpdate {
            response_mac: session.response_mac,
            request_nonce: session.request_nonce,
            membership_update: report_bytes(report.protocol, report.records),
        },
    );
    if let Some(endpoint) = session.gateway_endpoint {
        crate::protocol::law_decode_undoes_encode(
            MessageModel::Teardown {
                response_mac: session.response_mac,
                request_nonce: session.request_nonce,
                gateway: endpoint,
            },
        );
    }
}

/// A restart turns to the first of the other relays, where there is one, under
/// the given nonces; the relay that was in use comes last from then on, if it is
/// still a candidate, and the others keep their order.  The discovery goes to the
/// relay that is turned to.
pub proof fn law_restarts_turn_to_the_next_relay(
    gateway: GatewayModel,
    discovery_nonce: u32,
    request_nonce: u32,
)
    ensures
        ({
            let after = restarted(gateway, discovery_nonce, request_nonce);
            let others = gateway.config.fallback_relays;
            let kept = gateway.candidates.contains(gateway.config.relay);
            &&& after.phase is Discovering
            &&& after.config.discovery_nonce == discovery_nonce
            &&& after.config.request_nonce == request_nonce
            &&& after.config.protocol == gateway.config.protocol && after.config.ecn
                == gateway.config.ecn && after.candidates == gateway.candidates
            &&& others.len() == 0 ==> after.config.relay == gateway.config.relay
                && after.config.fallback_relays == others
            &&& others.len() > 0 ==> {
                &&& after.config.relay == others[0]
                &&& after.config.fallback_relays.len() == others.len() - 1 + if kept {
                    1int
                } else {
                    0
                }
                &&& forall|i: int|
                    0 <= i < others.len() - 1 ==> #[trigger] after.config.fallback_relays[i]
                        == others[i + 1]
                &&& kept ==> after.config.fallback_relays.last() == gateway.config.relay
            }
            &&& discovery_send(after) matches ActionModel::Send { destination, datagram }
                && destination == after.config.relay && decoded(datagram) == Ok::<
                MessageModel,
                DecodeErrorModel,
            >(MessageModel::RelayDiscovery { discovery_nonce })
        }),
{
    crate::protocol::law_decode_undoes_encode(MessageModel::RelayDiscovery { discovery_nonce });
}

/// No usable relay is left out: every one of the family that is given is kept, but
/// for the excepted one.
pub proof fn law_usable_relays_are_kept(
    family: IpAddr,
    except: Option<SocketAddr>,
    relays: Seq<SocketAddr>,
    relay: SocketAddr,
)
    requires
        relays.contains(relay),
        Some(relay) != except,
        (relay is V4) == (family is V4),
    ensures
        distinct_relays(family, except, relays).contains(relay),
    decreases relays.len(),
{
    let front = relays.drop_last();
    let before = distinct_relays(family, except, front);
    let after = distinct_relays(family, except, relays);
    if front.contains(relay) {
        law_usable_relays_are_kept(family, except, front, relay);
        let k = choose|k: int| 0 <= k < before.len() && before[k] == relay;
        assert(after[k] == relay);
    } else {
        let k = choose|k: int| 0 <= k < relays.len() && relays[k] == relay;
        if k < front.len() {
            assert(front[k] == relay);
        }
        assert(relays.last() == relay);
        if before.contains(relay) {
            let j = choose|j: int| 0 <= j < before.len() && before[j] == relay;
            assert(after[j] == relay);
        } else {
            assert(after.last() == relay);
        }
    }
}

/// The order in which relays are given is the order in which they are kept: a
/// relay that is given behind others comes behind those of them that are kept.
pub proof fn law_relays_keep_their_order(
    family: IpAddr,
    except: Option<SocketAddr>,
    relays: Seq<SocketAddr>,
    next: SocketAddr,
)
    ensures
        distinct_relays(family, except, relays).is_prefix_of(
            distinct_relays(family, except, relays.push(next)),
        ),
        distinct_relays(family, except, relays.push(next)).len() <= distinct_relays(
            family,
            except,
            relays,
        ).len() + 1,
{
    assert(relays.push(next).drop_last() =~= relays);
}

/// Joining a whole group wants every source of it, joining one source wants that
/// one besides those wanted before, and leaving a group wants none.
pub proof fn law_joins_and_leaves_say_what_is_wanted(
    groups: GroupsModel,
    group: IpAddr,
    source: IpAddr,
    other: IpAddr,
)
    ensures
        hears(record_applied(groups, join_record(group, None)), group, other),
        hears(record_applied(groups, join_record(group, Some(source))), group, other) <==> other
            == source || hears(groups, group, other),
        !hears(record_applied(groups, leave_record(group)), group, other),
        !record_applied(groups, leave_record(group)).contains_key(group),
{
    law_records_decide_who_is_heard(groups, join_record(group, None), other);
    law_records_decide_who_is_heard(groups, join_record(group, Some(source)), other);
    law_records_decide_who_is_heard(groups, leave_record(group), other);
    assert(seq![source].contains(other) <==> other == source) by {
        assert(seq![source][0] == source);
    }
}

proof fn lemma_leaves(groups: GroupsModel, records: Seq<RecordModel>, left: Seq<IpAddr>, group: IpAddr)
    ensures
        ({
            let leaves = left.map_values(|group: IpAddr| leave_record(group));
            let after = records_applied(groups, records + leaves);
            let before = records_applied(groups, records);
            &&& left.contains(group) ==> !after.contains_key(group)
            &&& !left.contains(group) ==> after.contains_key(group) == before.contains_key(group)
                && (before.contains_key(group) ==> after[group] == before[group])
        }),
    decreases left.len(),
{
    let leaves = left.map_values(|group: IpAddr| leave_record(group));
    if left.len() == 0 {
        assert(records + leaves =~= records);
    } else {
        let front = left.drop_last();
        let before = front.map_values(|group: IpAddr| leave_record(group));
        lemma_leaves(groups, records, front, group);
        assert(leaves.drop_last() =~= before);
        assert((records + leaves).drop_last() =~= records + before);
        assert((records + leaves).last() == leave_record(left.last()));
        if left.contains(group) {
            let k = choose|k: int| 0 <= k < left.len() && left[k] == group;
            if k < front.len() {
                assert(front[k] == group);
            }
        } else {
            assert(left[left.len() - 1] == left.last());
            if front.contains(group) {
                let k = choose|k: int| 0 <= k < front.len() && front[k] == group;
                assert(left[k] == group);
            }
        }
    }
}

/// Replacing the memberships leaves every group that the new report does not name:
/// the gateway then wants of the named groups what the report makes of them and
/// nothing of any other.
pub proof fn law_replaced_memberships_are_left(
    gateway: GatewayModel,
    report: ReportModel,
    group: IpAddr,
    source: IpAddr,
)
    requires
        aggregate_of(gateway.reception).dom().finite(),
        interested(gateway.reception, reception_endpoint_spec(), group) ==> aggregate_of(
            gateway.reception,
        ).contains_key(group),
    ensures
        ({
            let groups = crate::state::groups_of(gateway.reception, reception_endpoint_spec());
            let after = records_applied(groups, replacing(gateway, report).records);
            let named = exists|i: int|
                0 <= i < report.records.len() && (#[trigger] report.records[i]).group == group;
            &&& replacing(gateway, report).protocol == report.protocol
            &&& !named ==> !after.contains_key(group)
            &&& named ==> hears(after, group, source) == hears(
                records_applied(groups, report.records),
                group,
                source,
            )
        }),
{
    let groups = crate::state::groups_of(gateway.reception, reception_endpoint_spec());
    let left = aggregate_of(gateway.reception).dom().difference(groups_named(report.records));
    let list = in_order(left);
    crate::ordered::lemma_in_order_lists(left);
    assert(list.contains(group) <==> list.to_set().contains(group));
    lemma_leaves(groups, report.records, list, group);
    if !groups_named(report.records).contains(group) {
        lemma_unnamed_groups_stay(groups, report.records, group);
    }
}

proof fn lemma_unnamed_groups_stay(groups: GroupsModel, records: Seq<RecordModel>, group: IpAddr)
    requires
        forall|i: int| 0 <= i < records.len() ==> (#[trigger] records[i]).group != group,
    ensures
        records_applied(groups, records).contains_key(group) == groups.contains_key(group),
        groups.contains_key(group) ==> records_applied(groups, records)[group] == groups[group],
    decreases records.len(),
{
    if records.len() > 0 {
        lemma_unnamed_groups_stay(groups, records.drop_last(), group);
        crate::state::law_records_touch_one_group(
            records_applied(groups, records.drop_last()),
            records.last(),
            group,
        );
    }
}

/// What a gateway says of a datagram that it does not act on is true of the
/// datagram or of its own state, and leaves it as it was.
pub proof fn law_gateway_refusals_are_true(
    gateway: GatewayModel,
    peer: SocketAddr,
    datagram: Seq<u8>,
    outer: EcnCodepoint,
)
    ensures
        reaction(gateway, peer, datagram, outer).1 matches Err(error) ==> {
            let told = decoded(datagram);
            &&& reaction(gateway, peer, datagram, outer).0 == gateway
            &&& error is UnexpectedPeer <==> peer != expected_peer(gateway)
            &&& error matches GatewayErrorModel::UnexpectedPeer { expected, actual } ==> actual
                == peer && expected == expected_peer(gateway)
            &&& error is Decode <==> peer == expected_peer(gateway) && told is Err
            &&& error matches GatewayErrorModel::Decode(reason) ==> told == Err::<
                MessageModel,
                DecodeErrorModel,
            >(reason)
            &&& error matches GatewayErrorModel::UnexpectedDiscoveryNonce { expected, actual } ==> {
                &&& expected == gateway.config.discovery_nonce && actual != expected
                &&& told matches Ok(MessageModel::RelayAdvertisement { discovery_nonce, .. })
                    && discovery_nonce == actual
            }
            &&& error matches GatewayErrorModel::UnexpectedRequestNonce { expected, actual } ==> {
                &&& actual != expected
                &&& told matches Ok(MessageModel::MembershipQuery { request_nonce, .. })
                    && request_nonce == actual
            }
            &&& error matches GatewayErrorModel::InvalidRelayAddress(address) ==> {
                &&& told matches Ok(MessageModel::RelayAdvertisement { relay_address, .. })
                    && relay_address == address
                &&& !address.unicast_spec() || (address is V4) != (peer is V4)
            }
            &&& error matches GatewayErrorModel::InvalidGeneralQuery(reason) ==> (
            told matches Ok(MessageModel::MembershipQuery { general_query, .. }) && query_code(
                gateway.config.protocol,
                general_query,
            ) == Err::<u8, QueryValidationError>(reason))
            &&& error matches GatewayErrorModel::InvalidMulticastPacket(reason) ==> (
            told matches Ok(MessageModel::MulticastData { packet }) && multicast_packet(packet)
                == Err::<crate::ip::MulticastPacket, IpPacketError>(reason))
            &&& error matches GatewayErrorModel::InvalidEcn(reason) ==> gateway.config.ecn && (
            told matches Ok(MessageModel::MulticastData { packet }) && packet_ecn(packet) == Err::<
                EcnCodepoint,
                EcnError,
            >(reason))
            &&& error is MissingRelayEndpoint ==> gateway.relay_endpoint is None
            &&& error matches GatewayErrorModel::UnexpectedMessageForState { message, phase } ==> {
                &&& phase == gateway.phase
                &&& message == "Relay Advertisement"@ || message == "Membership Query"@ || message
                    == "Multicast Data"@
                &&& told matches Ok(MessageModel::RelayAdvertisement { .. })
                    ==> !(gateway.phase is Discovering) && message == "Relay Advertisement"@
                &&& told matches Ok(MessageModel::MembershipQuery { .. })
                    ==> message == "Membership Query"@
                &&& told matches Ok(MessageModel::MulticastData { .. }) ==> gateway.session is None
                    && message == "Multicast Data"@
            }
        },
{
}

/// A gateway cannot report or leave without a relay, without a query of it, or,
/// to leave, without the endpoint that the relay knows it by; each is told as such.
pub proof fn law_unserved_gateways_are_told_why(gateway: GatewayModel, report: ReportModel)
    ensures
        updated(gateway, report).1 matches Err(error) ==> updated(gateway, report).0 == gateway && (
        error is MissingRelayEndpoint <==> gateway.relay_endpoint is None) && (
        error is MissingMembershipQuery <==> gateway.relay_endpoint is Some
            && gateway.session is None) && (error is MissingRelayEndpoint
            || error is MissingMembershipQuery || error is MembershipBuild),
        updated(gateway, report).1 matches Err(GatewayErrorModel::MembershipBuild(reason))
            ==> build_error(report.protocol, report.records) == Some(reason),
        ended(gateway) is Err <==> gateway.relay_endpoint is None || gateway.session is None
            || gateway.session->Some_0.gateway_endpoint is None,
        ended(gateway) matches Err(error) ==> (error is MissingRelayEndpoint
            <==> gateway.relay_endpoint is None) && (error is MissingMembershipQuery
            <==> gateway.relay_endpoint is Some && gateway.session is None) && (
        error is MissingGatewayEndpoint <==> gateway.relay_endpoint is Some
            && gateway.session is Some),
{
}

} // verus!
