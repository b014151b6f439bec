//! What a relay does with a multicast packet: who gets it, in how many pieces,
//! and what is counted.

use crate::ecn::{ip_ecn, packet_ecn, EcnCodepoint};
use crate::ip::ip_version;
use crate::logs::RelayDataLog;
use crate::metrics::{count, counted, AmtMetricsCounters};
use crate::mtu::{
    contents, fragment_error, fragment_ipv4_for_tunnel, tunnel_fragments, Ipv4FragmentError,
};
use crate::net::{IpAddr, SocketAddr};
use crate::ordered::in_order;
use crate::protocol::{encode, message_bytes, Message, MessageModel};
use crate::relay::{Relay, RelayModel};
use crate::state::{included_sources, wanting};
use crate::time::{Duration, Instant};
use vstd::prelude::*;

verus! {

/// How many packets a relay forwards before it looks at control datagrams.
pub const MAX_RELAY_DATA_DRAIN: usize = 512;

/// For how many milliseconds a relay forwards packets before it looks at
/// control datagrams.
pub const RELAY_DATA_FAIRNESS_BUDGET_MILLIS: u64 = 2;

/// How long, and how many packets, a relay may forward without a look at
/// control datagrams.
#[derive(Debug, Clone, Copy, PartialEq, Eq, Structural)]
pub struct RelayWorkBudget {
    pub started: Instant,
    pub packet_limit: usize,
    pub time_limit: Duration,
    pub packets: usize,
}

impl RelayWorkBudget {
    pub fn new(packet_limit: usize, time_limit: Duration, now: Instant) -> (budget: Self)
        ensures
            budget == (RelayWorkBudget { started: now, packet_limit, time_limit, packets: 0 }),
    {
        RelayWorkBudget { started: now, packet_limit, time_limit, packets: 0 }
    }

    /// Whether another packet may be taken: the first one always, the others as
    /// long as there is time.
    pub fn can_take_packet(&self, now: Instant) -> (b: bool)
        ensures
            b == (self.packets < self.packet_limit && (self.packets == 0 || now.since_spec(
                self.started,
            ).nanos < self.time_limit.nanos)),
    {
        self.packets < self.packet_limit && (self.packets == 0 || now.duration_since(
            self.started,
        ).nanos < self.time_limit.nanos)
    }

    pub fn record_packet(&mut self)
        requires
            old(self).packets < old(self).packet_limit,
        ensures
            *final(self) == (RelayWorkBudget {
                packets: (old(self).packets + 1) as usize,
                ..*old(self)
            }),
    {
        self.packets = self.packets + 1;
    }

    /// Whether packets may be left for want of budget.
    pub fn exhausted(&self, now: Instant) -> (b: bool)
        ensures
            b == (self.packets == self.packet_limit || (self.packets != 0 && now.since_spec(
                self.started,
            ).nanos >= self.time_limit.nanos)),
    {
        self.packets == self.packet_limit || (self.packets != 0 && now.duration_since(
            self.started,
        ).nanos >= self.time_limit.nanos)
    }
}

/// The largest packet that a tunnel to an endpoint carries whole: the path's,
/// less the outer IP header, the UDP header and the AMT header.
pub open spec fn mtu_of_tunnel(path_mtu: int, ipv4: bool) -> int {
    let headers = if ipv4 {
        30int
    } else {
        50
    };
    if path_mtu >= headers {
        path_mtu - headers
    } else {
        0
    }
}

/// The largest packet that a tunnel to an endpoint carries whole.
pub fn tunnel_mtu(path_mtu: usize, endpoint: SocketAddr) -> (mtu: usize)
    ensures
        mtu == mtu_of_tunnel(path_mtu as int, endpoint is V4),
{
    let outer_ip_header: usize = if endpoint.is_ipv4() {
        20
    } else {
        40
    };
    path_mtu.saturating_sub(outer_ip_header + 8 + 2)
}

/// The ECN field of the datagram that carries a packet to an endpoint, and
/// whether it is copied from the packet.
pub open spec fn ecn_of_tunnel(relay: RelayModel, endpoint: SocketAddr, packet: Seq<u8>) -> (
    EcnCodepoint,
    bool,
) {
    if relay.config.ecn && relay.ecn_gateways.contains(endpoint) {
        (
            match packet_ecn(packet) {
                Ok(ecn) => ecn,
                Err(_) => EcnCodepoint::NotEct,
            },
            true,
        )
    } else {
        (EcnCodepoint::NotEct, false)
    }
}

/// The ECN field of the datagram that carries a packet to an endpoint, and
/// whether it is copied from the packet.
pub fn tunnel_ecn(relay: &Relay, endpoint: SocketAddr, packet: &[u8]) -> (ecn: (
    EcnCodepoint,
    bool,
))
    requires
        relay.wf(),
    ensures
        ecn == ecn_of_tunnel(relay@, endpoint, packet@),
{
    if relay.gateway_ecn_capable(endpoint) {
        match ip_ecn(packet) {
            Ok(ecn) => (ecn, true),
            Err(_) => (EcnCodepoint::NotEct, true),
        }
    } else {
        (EcnCodepoint::NotEct, false)
    }
}

/// What goes into a tunnel in place of a packet that is too large for it.
#[derive(Debug, PartialEq, Eq)]
pub enum PreparedTunnelData {
    /// AMT datagrams that carry the packet's fragments.
    Packets(Vec<Vec<u8>>),
    Drop(Ipv4FragmentError),
    DropIpv6,
}

/// [`PreparedTunnelData`] with its datagrams as sequences.
#[allow(inconsistent_fields)]
pub enum PreparedModel {
    Packets(Seq<Seq<u8>>),
    Drop(Ipv4FragmentError),
    DropIpv6,
}

impl View for PreparedTunnelData {
    type V = PreparedModel;

    open spec fn view(&self) -> PreparedModel {
        match *self {
            PreparedTunnelData::Packets(datagrams) => PreparedModel::Packets(
                contents(datagrams@),
            ),
            PreparedTunnelData::Drop(error) => PreparedModel::Drop(error),
            PreparedTunnelData::DropIpv6 => PreparedModel::DropIpv6,
        }
    }
}

/// The AMT datagrams that carry some packets.
pub open spec fn carried(packets: Seq<Seq<u8>>) -> Seq<Seq<u8>> {
    packets.map_values(|packet: Seq<u8>| message_bytes(MessageModel::MulticastData { packet }))
}

/// What goes into a tunnel in place of a packet that is too large for it: the
/// fragments of an IPv4 packet that may be cut, nothing otherwise.
pub open spec fn prepared_for(packet: Seq<u8>, tunnel_mtu: int) -> PreparedModel {
    if packet.len() == 0 || ip_version(packet) != 4 {
        PreparedModel::DropIpv6
    } else {
        match fragment_error(packet, tunnel_mtu) {
            Some(error) => PreparedModel::Drop(error),
            None => PreparedModel::Packets(carried(tunnel_fragments(packet, tunnel_mtu))),
        }
    }
}

/// What goes into a tunnel in place of a packet that is too large for it.
pub fn prepare_oversized_tunnel_data(packet: &[u8], tunnel_mtu: usize) -> (data: PreparedTunnelData)
    ensures
        data@ == prepared_for(packet@, tunnel_mtu as int),
{
    if packet.len() == 0 || packet[0] / 16 != 4 {
        return PreparedTunnelData::DropIpv6;
    }
    let fragments = match fragment_ipv4_for_tunnel(packet, tunnel_mtu) {
        Ok(fragments) => fragments,
        Err(error) => return PreparedTunnelData::Drop(error),
    };
    let ghost packets = contents(fragments@);
    let ghost all = carried(packets);
    let mut datagrams: Vec<Vec<u8>> = Vec::new();
    let mut i: usize = 0;
    proof {
        assert(contents(datagrams@) =~= all.take(0));
    }
    while i < fragments.len()
        invariant
            i <= fragments@.len(),
            packets == contents(fragments@),
            all == carried(packets),
            contents(datagrams@) == all.take(i as int),
        decreases fragments@.len() - i,
    {
        let ghost before = datagrams@;
        let datagram = encode(&Message::MulticastData { packet: fragments[i].as_slice() });
        datagrams.push(datagram);
        proof {
            assert(packets[i as int] == fragments@[i as int]@);
            assert(all[i as int] == datagram@);
            assert(contents(datagrams@) =~= contents(before).push(datagram@));
            assert(all.take(i + 1) =~= all.take(i as int).push(all[i as int]));
        }
        i += 1;
    }
    proof {
        assert(all.take(i as int) =~= all);
    }
    PreparedTunnelData::Packets(datagrams)
}

/// Whether the source of a dropped packet is to be told: where it could have
/// sent a smaller one.
pub open spec fn asks_for_feedback(data: PreparedModel) -> bool {
    data == PreparedModel::Drop(Ipv4FragmentError::DontFragment) || data is DropIpv6
}

impl PreparedTunnelData {
    /// Why the packet is dropped.
    pub fn reason(&self) -> (text: &'static str)
        ensures
            text@ == match self@ {
                PreparedModel::Packets(_) => "not dropped"@,
                PreparedModel::Drop(Ipv4FragmentError::InvalidPacket) => {
                    "invalid oversized IPv4 packet"@
                },
                PreparedModel::Drop(Ipv4FragmentError::DontFragment) => {
                    "oversized IPv4 packet has DF set"@
                },
                PreparedModel::Drop(Ipv4FragmentError::HeaderOptions) => {
                    "oversized IPv4 packet contains header options"@
                },
                PreparedModel::Drop(Ipv4FragmentError::MtuTooSmall) => "tunnel MTU too small"@,
                PreparedModel::Drop(Ipv4FragmentError::FragmentOffsetOverflow) => {
                    "IPv4 fragment offset overflow"@
                },
                PreparedModel::DropIpv6 => "oversized IPv6 packet"@,
            },
    {
        match self {
            PreparedTunnelData::Packets(_) => "not dropped",
            PreparedTunnelData::Drop(Ipv4FragmentError::InvalidPacket) => {
                "invalid oversized IPv4 packet"
            },
            PreparedTunnelData::Drop(Ipv4FragmentError::DontFragment) => {
                "oversized IPv4 packet has DF set"
            },
            PreparedTunnelData::Drop(Ipv4FragmentError::HeaderOptions) => {
                "oversized IPv4 packet contains header options"
            },
            PreparedTunnelData::Drop(Ipv4FragmentError::MtuTooSmall) => "tunnel MTU too small",
            PreparedTunnelData::Drop(Ipv4FragmentError::FragmentOffsetOverflow) => {
                "IPv4 fragment offset overflow"
            },
            PreparedTunnelData::DropIpv6 => "oversized IPv6 packet",
        }
    }

    /// Whether the source of the packet is to be told.
    pub fn requires_pmtu_feedback(&self) -> (b: bool)
        ensures
            b == asks_for_feedback(self@),
    {
        matches!(
            self,
            PreparedTunnelData::Drop(Ipv4FragmentError::DontFragment) | PreparedTunnelData::DropIpv6
        )
    }
}

/// Who gets a packet, and what goes into tunnels of each outer family in place
/// of a packet that is too large for them.
#[derive(Debug, PartialEq, Eq)]
pub struct ForwardingPlan {
    pub endpoints: Vec<SocketAddr>,
    pub ipv4_outer: Option<PreparedTunnelData>,
    pub ipv6_outer: Option<PreparedTunnelData>,
    /// The MTU to tell the source of the packet, if it is to be told.
    pub feedback_mtu: Option<usize>,
}

/// A [`ForwardingPlan`] with its parts as mathematical values.
#[verifier::ext_equal]
pub struct PlanModel {
    pub endpoints: Seq<SocketAddr>,
    pub ipv4_outer: Option<PreparedModel>,
    pub ipv6_outer: Option<PreparedModel>,
    pub feedback_mtu: Option<int>,
}

impl View for ForwardingPlan {
    type V = PlanModel;

    open spec fn view(&self) -> PlanModel {
        PlanModel {
            endpoints: self.endpoints@,
            ipv4_outer: match self.ipv4_outer {
                Some(data) => Some(data@),
                None => None,
            },
            ipv6_outer: match self.ipv6_outer {
                Some(data) => Some(data@),
                None => None,
            },
            feedback_mtu: match self.feedback_mtu {
                Some(mtu) => Some(mtu as int),
                None => None,
            },
        }
    }
}

/// Whether some endpoint has an address of the given family.
pub open spec fn any_of_family(endpoints: Seq<SocketAddr>, ipv4: bool) -> bool {
    exists|i: int| 0 <= i < endpoints.len() && ((#[trigger] endpoints[i]) is V4) == ipv4
}

/// What goes into the tunnels of one outer family in place of a packet, if
/// there are any and it is too large for them.
pub open spec fn family_data(
    endpoints: Seq<SocketAddr>,
    path_mtu: int,
    ipv4: bool,
    packet: Seq<u8>,
) -> Option<PreparedModel> {
    if any_of_family(endpoints, ipv4) && packet.len() > mtu_of_tunnel(path_mtu, ipv4) {
        Some(prepared_for(packet, mtu_of_tunnel(path_mtu, ipv4)))
    } else {
        None
    }
}

/// The MTU that one outer family asks to be told to the source.
pub open spec fn family_feedback(data: Option<PreparedModel>, mtu: int) -> Option<int> {
    match data {
        Some(data) => if asks_for_feedback(data) {
            Some(mtu)
        } else {
            None
        },
        None => None,
    }
}

/// The smaller of two numbers, where both are there.
pub open spec fn smaller(a: Option<int>, b: Option<int>) -> Option<int> {
    match (a, b) {
        (Some(a), Some(b)) => if a <= b {
            Some(a)
        } else {
            Some(b)
        },
        (Some(a), None) => Some(a),
        (None, b) => b,
    }
}

/// What a relay does with a packet.  Its source is told the smallest MTU that
/// it did not fit, if some gateway asked for that very source.
pub open spec fn forwarding_plan(
    relay: RelayModel,
    path_mtu: int,
    source: IpAddr,
    group: IpAddr,
    packet: Seq<u8>,
) -> PlanModel {
    let endpoints = in_order(wanting(relay.table, source, group));
    let ipv4_outer = family_data(endpoints, path_mtu, true, packet);
    let ipv6_outer = family_data(endpoints, path_mtu, false, packet);
    PlanModel {
        endpoints,
        ipv4_outer,
        ipv6_outer,
        feedback_mtu: if included_sources(relay.table, group).contains(source) {
            smaller(
                family_feedback(ipv4_outer, mtu_of_tunnel(path_mtu, true)),
                family_feedback(ipv6_outer, mtu_of_tunnel(path_mtu, false)),
            )
        } else {
            None
        },
    }
}

fn has_family(endpoints: &Vec<SocketAddr>, ipv4: bool) -> (b: bool)
    ensures
        b == any_of_family(endpoints@, ipv4),
{
    let mut i: usize = 0;
    while i < endpoints.len()
        invariant
            i <= endpoints@.len(),
            forall|k: int| 0 <= k < i ==> ((#[trigger] endpoints@[k]) is V4) != ipv4,
        decreases endpoints@.len() - i,
    {
        if endpoints[i].is_ipv4() == ipv4 {
            return true;
        }
        i += 1;
    }
    false
}

fn prepare_family(endpoints: &Vec<SocketAddr>, path_mtu: usize, ipv4: bool, packet: &[u8]) -> (
    data: Option<PreparedTunnelData>)
    ensures
        match data {
            Some(data) => family_data(endpoints@, path_mtu as int, ipv4, packet@) == Some(data@),
            None => family_data(endpoints@, path_mtu as int, ipv4, packet@) is None,
        },
{
    let mtu: usize = family_mtu(path_mtu, ipv4);
    if packet.len() > mtu && has_family(endpoints, ipv4) {
        Some(prepare_oversized_tunnel_data(packet, mtu))
    } else {
        None
    }
}

fn family_mtu(path_mtu: usize, ipv4: bool) -> (mtu: usize)
    ensures
        mtu == mtu_of_tunnel(path_mtu as int, ipv4),
{
    path_mtu.saturating_sub(
        if ipv4 {
            30
        } else {
            50
        },
    )
}

fn feedback_of(data: &Option<PreparedTunnelData>, mtu: usize) -> (told: Option<usize>)
    ensures
        match told {
            Some(told) => Some(told as int),
            None => None::<int>,
        } == family_feedback(
            match *data {
                Some(data) => Some(data@),
                None => None,
            },
            mtu as int,
        ),
{
    match data {
        Some(data) => if data.requires_pmtu_feedback() {
            Some(mtu)
        } else {
            None
        },
        None => None,
    }
}

/// What a relay does with a packet.
pub fn plan_forwarding(
    relay: &Relay,
    path_mtu: usize,
    source: IpAddr,
    group: IpAddr,
    packet: &[u8],
) -> (plan: ForwardingPlan)
    requires
        relay.wf(),
    ensures
        plan@ == forwarding_plan(relay@, path_mtu as int, source, group, packet@),
{
    let endpoints = relay.state.matching_endpoints(source, group);
    let ipv4_outer = prepare_family(&endpoints, path_mtu, true, packet);
    let ipv6_outer = prepare_family(&endpoints, path_mtu, false, packet);
    let feedback_mtu = if relay.state.has_ssm_interest(source, group) {
        let first = feedback_of(&ipv4_outer, family_mtu(path_mtu, true));
        let second = feedback_of(&ipv6_outer, family_mtu(path_mtu, false));
        match (first, second) {
            (Some(a), Some(b)) => if a <= b {
                Some(a)
            } else {
                Some(b)
            },
            (Some(a), None) => Some(a),
            (None, b) => b,
        }
    } else {
        None
    };
    ForwardingPlan { endpoints, ipv4_outer, ipv6_outer, feedback_mtu }
}

/// The datagrams that an endpoint gets under a plan, none where the packet is
/// dropped for it.
pub open spec fn sent_to(plan: PlanModel, endpoint: SocketAddr, packet: Seq<u8>) -> Seq<Seq<u8>> {
    let data = if endpoint is V4 {
        plan.ipv4_outer
    } else {
        plan.ipv6_outer
    };
    match data {
        None => seq![message_bytes(MessageModel::MulticastData { packet })],
        Some(PreparedModel::Packets(datagrams)) => datagrams,
        Some(_) => Seq::empty(),
    }
}

impl ForwardingPlan {
    /// What goes to an endpoint in place of the whole packet.
    pub fn data_for(&self, endpoint: SocketAddr) -> (data: Option<&PreparedTunnelData>)
        ensures
            match data {
                Some(data) => Some(*data),
                None => None,
            } == if endpoint is V4 {
                self.ipv4_outer
            } else {
                self.ipv6_outer
            },
    {
        if endpoint.is_ipv4() {
            self.ipv4_outer.as_ref()
        } else {
            self.ipv6_outer.as_ref()
        }
    }
}

/// Every datagram that a relay sends fits the path: with the outer IP header
/// and the UDP header it is no larger than the path's MTU, as long as the path
/// carries at least the headers.
pub proof fn law_sent_datagrams_fit_the_path(
    relay: RelayModel,
    path_mtu: int,
    source: IpAddr,
    group: IpAddr,
    packet: Seq<u8>,
    endpoint: SocketAddr,
    i: int,
)
    requires
        path_mtu >= 50,
        wanting(relay.table, source, group).finite(),
        wanting(relay.table, source, group).contains(endpoint),
        0 <= i < sent_to(
            forwarding_plan(relay, path_mtu, source, group, packet),
            endpoint,
            packet,
        ).len(),
    ensures
        sent_to(
            forwarding_plan(relay, path_mtu, source, group, packet),
            endpoint,
            packet,
        )[i].len() + 8 + (if endpoint is V4 {
            20int
        } else {
            40
        }) <= path_mtu,
{
    let wanted = wanting(relay.table, source, group);
    let plan = forwarding_plan(relay, path_mtu, source, group, packet);
    let mtu = mtu_of_tunnel(path_mtu, endpoint is V4);
    crate::ordered::lemma_in_order_lists(wanted);
    assert(plan.endpoints.contains(endpoint)) by {
        assert(plan.endpoints.to_set().contains(endpoint));
    }
    let k = choose|k: int| 0 <= k < plan.endpoints.len() && plan.endpoints[k] == endpoint;
    assert((plan.endpoints[k] is V4) == (endpoint is V4));
    assert(any_of_family(plan.endpoints, endpoint is V4));
    let sent = sent_to(plan, endpoint, packet);
    if packet.len() <= mtu {
        assert(sent[i] == message_bytes(MessageModel::MulticastData { packet }));
    } else {
        let fragments = tunnel_fragments(packet, mtu);
        assert(sent == carried(fragments));
        assert(sent[i] == message_bytes(MessageModel::MulticastData { packet: fragments[i] }));
        crate::mtu::law_fragments_fit_and_reassemble(packet, mtu);
        assert(fragments[i].len() <= mtu);
    }
}

/// Counts a packet that no gateway wants.
pub fn record_unmatched(
    ip_protocol: Option<u8>,
    counters: &mut AmtMetricsCounters,
    data_log: &mut RelayDataLog,
)
    ensures
        *final(counters) == (AmtMetricsCounters {
            upstream_unmatched_packets_total: counted(
                old(counters).upstream_unmatched_packets_total,
                1,
            ),
            ..*old(counters)
        }),
        final(data_log).last_unmatched_protocol matches Some(name) && name@ == protocol_words(
            ip_protocol,
        ) && *final(data_log) == (RelayDataLog {
            unmatched_packets: counted(old(data_log).unmatched_packets, 1),
            last_unmatched_protocol: Some(name),
            ..*old(data_log)
        }),
{
    counters.upstream_unmatched_packets_total = count(counters.upstream_unmatched_packets_total, 1);
    data_log.record_unmatched(protocol_name(ip_protocol));
}

/// What happened to feedback about a packet that is too large.
#[derive(Debug, PartialEq, Eq)]
#[allow(inconsistent_fields)]
pub enum RelayPmtuOutcome {
    Disabled,
    Sent { bytes_sent: usize },
    RateLimited,
    Suppressed,
    AddressFamilyUnavailable,
    Failed(String),
}

/// Counters after feedback.
pub open spec fn feedback_counted(
    counters: AmtMetricsCounters,
    outcome: RelayPmtuOutcome,
) -> AmtMetricsCounters {
    match outcome {
        RelayPmtuOutcome::Disabled => counters,
        RelayPmtuOutcome::Sent { bytes_sent } => AmtMetricsCounters {
            upstream_pmtu_feedback_sent_total: counted(
                counters.upstream_pmtu_feedback_sent_total,
                1,
            ),
            upstream_pmtu_feedback_bytes_sent_total: counted(
                counters.upstream_pmtu_feedback_bytes_sent_total,
                bytes_sent as int,
            ),
            ..counters
        },
        RelayPmtuOutcome::RateLimited => AmtMetricsCounters {
            upstream_pmtu_feedback_rate_limited_total: counted(
                counters.upstream_pmtu_feedback_rate_limited_total,
                1,
            ),
            ..counters
        },
        RelayPmtuOutcome::Suppressed => AmtMetricsCounters {
            upstream_pmtu_feedback_suppressed_total: counted(
                counters.upstream_pmtu_feedback_suppressed_total,
                1,
            ),
            ..counters
        },
        RelayPmtuOutcome::AddressFamilyUnavailable => AmtMetricsCounters {
            upstream_pmtu_feedback_unavailable_total: counted(
                counters.upstream_pmtu_feedback_unavailable_total,
                1,
            ),
            ..counters
        },
        RelayPmtuOutcome::Failed(_) => AmtMetricsCounters {
            upstream_pmtu_feedback_errors_total: counted(
                counters.upstream_pmtu_feedback_errors_total,
                1,
            ),
            ..counters
        },
    }
}

/// Counts what happened to feedback; a failure is noted.
pub fn record_pmtu_feedback(
    outcome: RelayPmtuOutcome,
    counters: &mut AmtMetricsCounters,
    data_log: &mut RelayDataLog,
)
    ensures
        *final(counters) == feedback_counted(*old(counters), outcome),
        *final(data_log) == match outcome {
            RelayPmtuOutcome::Failed(error) => RelayDataLog {
                send_errors: counted(old(data_log).send_errors, 1),
                last_send_error: Some(error),
                ..*old(data_log)
            },
            _ => *old(data_log),
        },
{
    match outcome {
        RelayPmtuOutcome::Disabled => {},
        RelayPmtuOutcome::Sent { bytes_sent } => {
            counters.upstream_pmtu_feedback_sent_total = count(
                counters.upstream_pmtu_feedback_sent_total,
                1,
            );
            counters.upstream_pmtu_feedback_bytes_sent_total = count(
                counters.upstream_pmtu_feedback_bytes_sent_total,
                bytes_sent as u64,
            );
        },
        RelayPmtuOutcome::RateLimited => {
            counters.upstream_pmtu_feedback_rate_limited_total = count(
                counters.upstream_pmtu_feedback_rate_limited_total,
                1,
            );
        },
        RelayPmtuOutcome::Suppressed => {
            counters.upstream_pmtu_feedback_suppressed_total = count(
                counters.upstream_pmtu_feedback_suppressed_total,
                1,
            );
        },
        RelayPmtuOutcome::AddressFamilyUnavailable => {
            counters.upstream_pmtu_feedback_unavailable_total = count(
                counters.upstream_pmtu_feedback_unavailable_total,
                1,
            );
        },
        RelayPmtuOutcome::Failed(error) => {
            counters.upstream_pmtu_feedback_errors_total = count(
                counters.upstream_pmtu_feedback_errors_total,
                1,
            );
            data_log.record_send_error(error);
        },
    }
}

/// How far the forwarding of one packet has come.
#[derive(Debug, Clone, Copy, PartialEq, Eq, Structural)]
pub struct ForwardingTally {
    /// To how many endpoints the whole packet went.
    pub endpoints: u64,
    pub bytes: u64,
}

/// One attempt to send to an endpoint.
#[derive(Debug, PartialEq, Eq)]
#[allow(inconsistent_fields)]
pub enum TunnelSend {
    /// The packet went out whole.
    Whole { bytes: usize, normal_mode: bool },
    /// A fragment of the packet went out.
    Fragment { bytes: usize, normal_mode: bool },
    /// All fragments went out.
    AllFragments,
    /// A datagram could not be sent.
    Failed { error: String, fragment: bool },
    /// The packet is dropped for the endpoint.
    Dropped { reason: &'static str },
}

/// Counters after an attempt to send.
pub open spec fn send_counted(counters: AmtMetricsCounters, send: TunnelSend) -> AmtMetricsCounters {
    let normal = match send {
        TunnelSend::Whole { normal_mode, .. } => normal_mode,
        TunnelSend::Fragment { normal_mode, .. } => normal_mode,
        _ => false,
    };
    let failed = send is Failed;
    let dropped = send is Dropped || (send matches TunnelSend::Failed { fragment, .. } && fragment);
    AmtMetricsCounters {
        relay_ecn_normal_mode_datagrams_sent_total: if normal {
            counted(counters.relay_ecn_normal_mode_datagrams_sent_total, 1)
        } else {
            counters.relay_ecn_normal_mode_datagrams_sent_total
        },
        upstream_fragments_sent_total: if send is Fragment {
            counted(counters.upstream_fragments_sent_total, 1)
        } else {
            counters.upstream_fragments_sent_total
        },
        send_errors_total: if failed {
            counted(counters.send_errors_total, 1)
        } else {
            counters.send_errors_total
        },
        upstream_forward_errors_total: if failed {
            counted(counters.upstream_forward_errors_total, 1)
        } else {
            counters.upstream_forward_errors_total
        },
        upstream_mtu_drops_total: if dropped {
            counted(counters.upstream_mtu_drops_total, 1)
        } else {
            counters.upstream_mtu_drops_total
        },
        ..counters
    }
}

/// A tally after an attempt to send.
pub open spec fn send_tallied(tally: ForwardingTally, send: TunnelSend) -> ForwardingTally {
    match send {
        TunnelSend::Whole { bytes, .. } => ForwardingTally {
            endpoints: counted(tally.endpoints, 1),
            bytes: counted(tally.bytes, bytes as int),
        },
        TunnelSend::Fragment { bytes, .. } => ForwardingTally {
            bytes: counted(tally.bytes, bytes as int),
            ..tally
        },
        TunnelSend::AllFragments => ForwardingTally {
            endpoints: counted(tally.endpoints, 1),
            ..tally
        },
        _ => tally,
    }
}

/// Why a packet was dropped because a fragment of it could not be sent.
pub const FRAGMENT_SEND_FAILED: &'static str = "fragment send failed";

/// A log after an attempt to send.
pub open spec fn send_logged(log: RelayDataLog, send: TunnelSend) -> RelayDataLog {
    match send {
        TunnelSend::Failed { error, fragment } => {
            let noted = RelayDataLog {
                send_errors: counted(log.send_errors, 1),
                last_send_error: Some(error),
                ..log
            };
            if fragment {
                RelayDataLog {
                    mtu_drops: counted(log.mtu_drops, 1),
                    last_mtu_drop: Some(FRAGMENT_SEND_FAILED),
                    ..noted
                }
            } else {
                noted
            }
        },
        TunnelSend::Dropped { reason } => RelayDataLog {
            mtu_drops: counted(log.mtu_drops, 1),
            last_mtu_drop: Some(reason),
            ..log
        },
        _ => log,
    }
}

impl ForwardingTally {
    pub fn new() -> (tally: Self)
        ensures
            tally == (ForwardingTally { endpoints: 0, bytes: 0 }),
    {
        ForwardingTally { endpoints: 0, bytes: 0 }
    }

    /// Counts an attempt to send.
    pub fn record(
        &mut self,
        send: TunnelSend,
        counters: &mut AmtMetricsCounters,
        data_log: &mut RelayDataLog,
    )
        ensures
            *final(self) == send_tallied(*old(self), send),
            *final(counters) == send_counted(*old(counters), send),
            *final(data_log) == send_logged(*old(data_log), send),
    {
        match send {
            TunnelSend::Whole { bytes, normal_mode } => {
                if normal_mode {
                    counters.relay_ecn_normal_mode_datagrams_sent_total = count(
                        counters.relay_ecn_normal_mode_datagrams_sent_total,
                        1,
                    );
                }
                self.endpoints = count(self.endpoints, 1);
                self.bytes = count(self.bytes, bytes as u64);
            },
            TunnelSend::Fragment { bytes, normal_mode } => {
                if normal_mode {
                    counters.relay_ecn_normal_mode_datagrams_sent_total = count(
                        counters.relay_ecn_normal_mode_datagrams_sent_total,
                        1,
                    );
                }
                counters.upstream_fragments_sent_total = count(
                    counters.upstream_fragments_sent_total,
                    1,
                );
                self.bytes = count(self.bytes, bytes as u64);
            },
            TunnelSend::AllFragments => {
                self.endpoints = count(self.endpoints, 1);
            },
            TunnelSend::Failed { error, fragment } => {
                counters.send_errors_total = count(counters.send_errors_total, 1);
                counters.upstream_forward_errors_total = count(
                    counters.upstream_forward_errors_total,
                    1,
                );
                data_log.record_send_error(error);
                if fragment {
                    counters.upstream_mtu_drops_total = count(
                        counters.upstream_mtu_drops_total,
                        1,
                    );
                    data_log.record_mtu_drop(FRAGMENT_SEND_FAILED);
                }
            },
            TunnelSend::Dropped { reason } => {
                counters.upstream_mtu_drops_total = count(counters.upstream_mtu_drops_total, 1);
                data_log.record_mtu_drop(reason);
            },
        }
    }

    /// Counts the packet, once all endpoints were tried.
    pub fn finish(
        &self,
        packet_len: usize,
        counters: &mut AmtMetricsCounters,
        data_log: &mut RelayDataLog,
    )
        ensures
            *final(counters) == (AmtMetricsCounters {
                upstream_packets_forwarded_total: counted(
                    old(counters).upstream_packets_forwarded_total,
                    self.endpoints as int,
                ),
                upstream_bytes_forwarded_total: counted(
                    old(counters).upstream_bytes_forwarded_total,
                    self.bytes as int,
                ),
                ..*old(counters)
            }),
            *final(data_log) == if self.endpoints == 0 {
                *old(data_log)
            } else {
                RelayDataLog {
                    forwarded_packets: counted(old(data_log).forwarded_packets, 1),
                    forwarded_bytes: counted(
                        old(data_log).forwarded_bytes,
                        crate::logs::product(packet_len as u64, self.endpoints),
                    ),
                    forwarded_gateway_sends: counted(
                        old(data_log).forwarded_gateway_sends,
                        self.endpoints as int,
                    ),
                    ..*old(data_log)
                }
            },
    {
        counters.upstream_packets_forwarded_total = count(
            counters.upstream_packets_forwarded_total,
            self.endpoints,
        );
        counters.upstream_bytes_forwarded_total = count(
            counters.upstream_bytes_forwarded_total,
            self.bytes,
        );
        data_log.record_forwarded(packet_len as u64, self.endpoints);
    }
}

/// What a protocol number is called.
pub open spec fn protocol_words(ip_protocol: Option<u8>) -> Seq<char> {
    match ip_protocol {
        Some(17) => "UDP"@,
        Some(2) => "IGMP"@,
        Some(58) => "ICMPv6"@,
        _ => "IP"@,
    }
}

/// The name of an IP protocol.
pub fn protocol_name(ip_protocol: Option<u8>) -> (name: &'static str)
    ensures
        name@ == protocol_words(ip_protocol),
{
    match ip_protocol {
        Some(17) => "UDP",
        Some(2) => "IGMP",
        Some(58) => "ICMPv6",
        _ => "IP",
    }
}

/// What the headers leave of a path: an outer IPv4 header of 20 bytes or an IPv6
/// header of 40, the UDP header of 8 and the AMT header of 2.
pub proof fn law_tunnels_carry_what_the_headers_leave(path_mtu: int)
    requires
        path_mtu >= 50,
    ensures
        mtu_of_tunnel(path_mtu, true) + 20 + 8 + 2 == path_mtu,
        mtu_of_tunnel(path_mtu, false) + 40 + 8 + 2 == path_mtu,
{
}

/// A packet goes to exactly the endpoints that want it, each once.
pub proof fn law_packets_go_to_those_who_want_them(
    relay: RelayModel,
    path_mtu: int,
    source: IpAddr,
    group: IpAddr,
    packet: Seq<u8>,
    endpoint: SocketAddr,
)
    requires
        wanting(relay.table, source, group).finite(),
    ensures
        ({
            let plan = forwarding_plan(relay, path_mtu, source, group, packet);
            &&& plan.endpoints.contains(endpoint) <==> relay.table.contains_key(endpoint)
                && crate::state::hears(relay.table[endpoint], group, source)
            &&& plan.endpoints.no_duplicates()
        }),
{
    let wanted = wanting(relay.table, source, group);
    let plan = forwarding_plan(relay, path_mtu, source, group, packet);
    crate::ordered::lemma_in_order_lists(wanted);
    assert(plan.endpoints.contains(endpoint) <==> plan.endpoints.to_set().contains(endpoint));
    assert(wanted.contains(endpoint) <==> plan.endpoints.to_set().contains(endpoint));
}

/// A packet that fits the path with all headers goes whole, behind the two bytes
/// of a Multicast Data message.  A larger one goes as the fragments that the
/// tunnel carries, each behind these two bytes, or not at all: an IPv6 packet
/// never goes, an IPv4 packet does unless it cannot be cut.
pub proof fn law_packets_that_fit_go_whole(
    relay: RelayModel,
    path_mtu: int,
    source: IpAddr,
    group: IpAddr,
    packet: Seq<u8>,
    endpoint: SocketAddr,
)
    requires
        path_mtu >= 50,
        wanting(relay.table, source, group).finite(),
        wanting(relay.table, source, group).contains(endpoint),
    ensures
        ({
            let sent = sent_to(
                forwarding_plan(relay, path_mtu, source, group, packet),
                endpoint,
                packet,
            );
            let room = path_mtu - if endpoint is V4 {
                30int
            } else {
                50
            };
            &&& packet.len() <= room ==> sent.len() == 1 && sent[0] == seq![6u8, 0] + packet
            &&& packet.len() > room && packet[0] / 16 != 4 ==> sent.len() == 0
            &&& packet.len() > room && packet[0] / 16 == 4 && fragment_error(packet, room) is Some
                ==> sent.len() == 0
            &&& packet.len() > room && packet[0] / 16 == 4 && fragment_error(packet, room) is None
                ==> sent.len() == tunnel_fragments(packet, room).len() && forall|i: int|
                0 <= i < sent.len() ==> #[trigger] sent[i] == seq![6u8, 0] + tunnel_fragments(
                    packet,
                    room,
                )[i]
        }),
{
    let wanted = wanting(relay.table, source, group);
    let plan = forwarding_plan(relay, path_mtu, source, group, packet);
    crate::ordered::lemma_in_order_lists(wanted);
    assert(plan.endpoints.contains(endpoint)) by {
        assert(plan.endpoints.to_set().contains(endpoint));
    }
    let k = choose|k: int| 0 <= k < plan.endpoints.len() && plan.endpoints[k] == endpoint;
    assert((plan.endpoints[k] is V4) == (endpoint is V4));
    assert(any_of_family(plan.endpoints, endpoint is V4));
}

/// Sources are told of an MTU only where some endpoint includes them by name and
/// a packet was dropped that could have been cut at the source: an IPv6 packet or
/// an IPv4 packet that must not be cut on the way.  It is the smallest that any
/// tunnel needs.
pub proof fn law_sources_are_told_the_smallest_mtu(
    relay: RelayModel,
    path_mtu: int,
    source: IpAddr,
    group: IpAddr,
    packet: Seq<u8>,
)
    requires
        path_mtu >= 50,
        packet.len() > 0,
    ensures
        ({
            let plan = forwarding_plan(relay, path_mtu, source, group, packet);
            let named = exists|endpoint: SocketAddr| #[trigger]
                relay.table.contains_key(endpoint) && relay.table[endpoint].contains_key(group)
                    && relay.table[endpoint][group].mode is Include
                    && relay.table[endpoint][group].sources.contains(source);
            let four = exists|i: int|
                0 <= i < plan.endpoints.len() && (#[trigger] plan.endpoints[i]) is V4;
            let six = exists|i: int|
                0 <= i < plan.endpoints.len() && (#[trigger] plan.endpoints[i]) is V6;
            let dropped = |room: int|
                packet.len() > room && (packet[0] / 16 != 4 || fragment_error(packet, room) == Some(
                    Ipv4FragmentError::DontFragment,
                ));
            &&& named && six && dropped(path_mtu - 50) ==> plan.feedback_mtu == Some(path_mtu - 50)
            &&& named && !(six && dropped(path_mtu - 50)) && four && dropped(path_mtu - 30)
                ==> plan.feedback_mtu == Some(path_mtu - 30)
            &&& !named ==> plan.feedback_mtu is None
            &&& !(six && dropped(path_mtu - 50)) && !(four && dropped(path_mtu - 30))
                ==> plan.feedback_mtu is None
        }),
{
    let plan = forwarding_plan(relay, path_mtu, source, group, packet);
    let table = relay.table;
    if included_sources(table, group).contains(source) {
        let endpoint = choose|endpoint: SocketAddr| #[trigger]
            crate::state::includes(table, endpoint, group)
                && table[endpoint][group].sources.contains(source);
        assert(table.contains_key(endpoint));
    }
    if exists|endpoint: SocketAddr| #[trigger]
        table.contains_key(endpoint) && table[endpoint].contains_key(group)
            && table[endpoint][group].mode is Include
            && table[endpoint][group].sources.contains(source) {
        let endpoint = choose|endpoint: SocketAddr| #[trigger]
            table.contains_key(endpoint) && table[endpoint].contains_key(group)
                && table[endpoint][group].mode is Include
                && table[endpoint][group].sources.contains(source);
        assert(crate::state::includes(table, endpoint, group));
        assert(included_sources(table, group).contains(source));
    }
    if exists|i: int| 0 <= i < plan.endpoints.len() && (#[trigger] plan.endpoints[i]) is V6 {
        let i = choose|i: int|
            0 <= i < plan.endpoints.len() && (#[trigger] plan.endpoints[i]) is V6;
        assert((plan.endpoints[i] is V4) == false);
        assert(any_of_family(plan.endpoints, false));
    }
    if exists|i: int| 0 <= i < plan.endpoints.len() && (#[trigger] plan.endpoints[i]) is V4 {
        let i = choose|i: int|
            0 <= i < plan.endpoints.len() && (#[trigger] plan.endpoints[i]) is V4;
        assert((plan.endpoints[i] is V4) == true);
        assert(any_of_family(plan.endpoints, true));
    }
    if any_of_family(plan.endpoints, false) {
        let i = choose|i: int|
            0 <= i < plan.endpoints.len() && ((#[trigger] plan.endpoints[i]) is V4) == false;
        assert(plan.endpoints[i] is V6);
    }
    if any_of_family(plan.endpoints, true) {
        let i = choose|i: int|
            0 <= i < plan.endpoints.len() && ((#[trigger] plan.endpoints[i]) is V4) == true;
        assert(plan.endpoints[i] is V4);
    }
}

/// A datagram carries the ECN field of its packet where both ends propagate ECN,
/// and none otherwise.
pub proof fn law_datagrams_carry_ecn_between_willing_ends(
    relay: RelayModel,
    endpoint: SocketAddr,
    packet: Seq<u8>,
)
    requires
        packet_ecn(packet) is Ok,
    ensures
        ({
            let (ecn, normal) = ecn_of_tunnel(relay, endpoint, packet);
            &&& normal <==> relay.config.ecn && relay.ecn_gateways.contains(endpoint)
            &&& normal ==> ecn == packet_ecn(packet)->Ok_0
            &&& !normal ==> ecn is NotEct
        }),
{
}

/// What became of feedback to a source counts once, where it belongs; none counts
/// while feedback is off.
pub proof fn law_feedback_is_counted(counters: AmtMetricsCounters, outcome: RelayPmtuOutcome)
    ensures
        ({
            let after = feedback_counted(counters, outcome);
            &&& outcome is Sent ==> after.upstream_pmtu_feedback_sent_total == counted(counters.upstream_pmtu_feedback_sent_total, 1)
            &&& !(outcome is Sent) ==> after.upstream_pmtu_feedback_sent_total == counters.upstream_pmtu_feedback_sent_total
            &&& outcome is Sent ==> after.upstream_pmtu_feedback_bytes_sent_total == counted(counters.upstream_pmtu_feedback_bytes_sent_total, outcome->Sent_bytes_sent as int)
            &&& !(outcome is Sent) ==> after.upstream_pmtu_feedback_bytes_sent_total == counters.upstream_pmtu_feedback_bytes_sent_total
            &&& outcome is RateLimited ==> after.upstream_pmtu_feedback_rate_limited_total == counted(counters.upstream_pmtu_feedback_rate_limited_total, 1)
            &&& !(outcome is RateLimited) ==> after.upstream_pmtu_feedback_rate_limited_total == counters.upstream_pmtu_feedback_rate_limited_total
            &&& outcome is Suppressed ==> after.upstream_pmtu_feedback_suppressed_total == counted(counters.upstream_pmtu_feedback_suppressed_total, 1)
            &&& !(outcome is Suppressed) ==> after.upstream_pmtu_feedback_suppressed_total == counters.upstream_pmtu_feedback_suppressed_total
            &&& outcome is AddressFamilyUnavailable ==> after.upstream_pmtu_feedback_unavailable_total == counted(counters.upstream_pmtu_feedback_unavailable_total, 1)
            &&& !(outcome is AddressFamilyUnavailable) ==> after.upstream_pmtu_feedback_unavailable_total == counters.upstream_pmtu_feedback_unavailable_total
            &&& outcome is Failed ==> after.upstream_pmtu_feedback_errors_total == counted(counters.upstream_pmtu_feedback_errors_total, 1)
            &&& !(outcome is Failed) ==> after.upstream_pmtu_feedback_errors_total == counters.upstream_pmtu_feedback_errors_total
            &&& counters == (AmtMetricsCounters {
                upstream_pmtu_feedback_sent_total: counters.upstream_pmtu_feedback_sent_total,
                upstream_pmtu_feedback_bytes_sent_total: counters.upstream_pmtu_feedback_bytes_sent_total,
                upstream_pmtu_feedback_rate_limited_total: counters.upstream_pmtu_feedback_rate_limited_total,
                upstream_pmtu_feedback_suppressed_total: counters.upstream_pmtu_feedback_suppressed_total,
                upstream_pmtu_feedback_unavailable_total: counters.upstream_pmtu_feedback_unavailable_total,
                upstream_pmtu_feedback_errors_total: counters.upstream_pmtu_feedback_errors_total,
                ..after
            })
        }),
{
}

/// A fragment that was sent counts as one, a datagram in normal ECN mode as such.
/// One that could not be sent counts as an error twice over, and as a drop where it
/// was a fragment; a packet that could not be cut counts as a drop.
pub proof fn law_sends_are_counted(counters: AmtMetricsCounters, send: TunnelSend)
    ensures
        ({
            let after = send_counted(counters, send);
            &&& (send is Whole && send->Whole_normal_mode) || (send is Fragment && send->Fragment_normal_mode) ==> after.relay_ecn_normal_mode_datagrams_sent_total == counted(counters.relay_ecn_normal_mode_datagrams_sent_total, 1)
            &&& !((send is Whole && send->Whole_normal_mode) || (send is Fragment && send->Fragment_normal_mode)) ==> after.relay_ecn_normal_mode_datagrams_sent_total == counters.relay_ecn_normal_mode_datagrams_sent_total
            &&& send is Fragment ==> after.upstream_fragments_sent_total == counted(counters.upstream_fragments_sent_total, 1)
            &&& !(send is Fragment) ==> after.upstream_fragments_sent_total == counters.upstream_fragments_sent_total
            &&& send is Failed ==> after.send_errors_total == counted(counters.send_errors_total, 1)
            &&& !(send is Failed) ==> after.send_errors_total == counters.send_errors_total
            &&& send is Failed ==> after.upstream_forward_errors_total == counted(counters.upstream_forward_errors_total, 1)
            &&& !(send is Failed) ==> after.upstream_forward_errors_total == counters.upstream_forward_errors_total
            &&& send is Dropped || (send is Failed && send->Failed_fragment) ==> after.upstream_mtu_drops_total == counted(counters.upstream_mtu_drops_total, 1)
            &&& !(send is Dropped || (send is Failed && send->Failed_fragment)) ==> after.upstream_mtu_drops_total == counters.upstream_mtu_drops_total
            &&& counters == (AmtMetricsCounters {
                relay_ecn_normal_mode_datagrams_sent_total: counters.relay_ecn_normal_mode_datagrams_sent_total,
                upstream_fragments_sent_total: counters.upstream_fragments_sent_total,
                send_errors_total: counters.send_errors_total,
                upstream_forward_errors_total: counters.upstream_forward_errors_total,
                upstream_mtu_drops_total: counters.upstream_mtu_drops_total,
                ..after
            })
        }),
{
}

/// An endpoint is served once, by a whole packet or by the last of its fragments,
/// and every byte that was sent is tallied.
pub proof fn law_sends_are_tallied(tally: ForwardingTally, send: TunnelSend)
    ensures
        ({
            let after = send_tallied(tally, send);
            &&& send is Whole || send is AllFragments ==> after.endpoints == counted(tally.endpoints, 1)
            &&& !(send is Whole || send is AllFragments) ==> after.endpoints == tally.endpoints
            &&& send is Whole ==> after.bytes == counted(tally.bytes, send->Whole_bytes as int)
            &&& send is Fragment ==> after.bytes == counted(tally.bytes, send->Fragment_bytes as int)
            &&& !(send is Whole) && !(send is Fragment) ==> after.bytes == tally.bytes
        }),
{
}

/// A send that failed is logged with its error, and a packet that could not be
/// carried with the reason; nothing else is.
pub proof fn law_failed_sends_are_logged(log: RelayDataLog, send: TunnelSend)
    ensures
        ({
            let after = send_logged(log, send);
            &&& !(send is Failed) && !(send is Dropped) ==> after == log
            &&& send is Failed ==> after.send_errors == counted(log.send_errors, 1)
                && after.last_send_error == Some(send->Failed_error)
            &&& !(send is Failed) ==> after.send_errors == log.send_errors
                && after.last_send_error == log.last_send_error
            &&& send is Dropped ==> after.mtu_drops == counted(log.mtu_drops, 1)
                && after.last_mtu_drop == Some(send->Dropped_reason)
            &&& send is Failed && send->Failed_fragment ==> after.mtu_drops == counted(
                log.mtu_drops,
                1,
            )
            &&& send is Failed && !send->Failed_fragment ==> after.mtu_drops == log.mtu_drops
                && after.last_mtu_drop == log.last_mtu_drop
            &&& log == (RelayDataLog {
                send_errors: log.send_errors,
                last_send_error: log.last_send_error,
                mtu_drops: log.mtu_drops,
                last_mtu_drop: log.last_mtu_drop,
                ..after
            })
        }),
{
}

} // verus!
