//! What a gateway and a relay promise each other.

use crate::ecn::{decapsulated, law_set_ecn_reads_back, packet_ecn, EcnCodepoint, EcnError};
use crate::gateway::{
    ended, reaction, reception_endpoint_spec, request_send, updated, wants_packet, ActionModel,
    GatewayErrorModel, GatewayModel,
};
use crate::ip::{ip_version, multicast_packet};
use crate::membership::{law_built_report_reads_back, ReportModel};
use crate::net::{IpAddr, SocketAddr};
use crate::protocol::{
    law_decode_undoes_encode, message_bytes, GatewayAddress, GatewayEndpoint, MembershipProtocol,
    MessageModel,
};
use crate::query::{law_built_igmpv3_query_validates, law_built_mldv2_query_validates};
use crate::relay::{
    admitted, answer, authentic, mac_of, named_endpoint, parse_limits, refuses_new, request_answer,
    RelayModel,
};
use crate::state::{groups_of, report_applied, wanting};
use crate::time::Instant;
use vstd::prelude::*;

verus! {

/// Whether a relay's own queries come from addresses that gateways accept.
pub open spec fn usable_query_sources(relay: RelayModel) -> bool {
    &&& !relay.config.general_query.igmp_source.multicast_spec()
    &&& !relay.config.general_query.igmp_source.broadcast_spec()
    &&& !relay.config.general_query.mld_source.multicast_spec()
}

/// A gateway's request makes the relay send a query that opens a session at the
/// gateway, with the response MAC of the gateway's endpoint and nonce.
pub proof fn law_request_opens_a_session(
    gateway: GatewayModel,
    relay: RelayModel,
    now: Instant,
    relay_address: SocketAddr,
    gateway_address: SocketAddr,
    outer: EcnCodepoint,
)
    requires
        gateway.phase is AwaitingMembershipQuery,
        gateway.relay_endpoint == Some(relay_address),
        gateway.config.request_nonce != 0,
        usable_query_sources(relay),
    ensures
        ({
            let request = request_send(gateway, relay_address)->Send_datagram;
            let prepared = answer(relay, now, gateway_address, request);
            &&& prepared is Ok
            &&& prepared->Ok_0.0 is Send
            &&& prepared->Ok_0.1 is None
            &&& ({
                let query = prepared->Ok_0.0->Send_0;
                let (after, action) = reaction(gateway, relay_address, query, outer);
                &&& action is Ok
                &&& action->Ok_0 is MembershipQuery
                &&& after.phase is Established
                &&& after.session is Some
                &&& after.session->Some_0.request_nonce == gateway.config.request_nonce
                &&& after.session->Some_0.response_mac == mac_of(
                    relay.config.secret,
                    gateway_address.ip_spec(),
                    gateway_address.port_spec(),
                    gateway.config.request_nonce,
                )
                &&& after.relay_endpoint == Some(relay_address)
                &&& after.reception == gateway.reception
            })
        }),
{
    let nonce = gateway.config.request_nonce;
    let protocol = gateway.config.protocol;
    let request = MessageModel::Request {
        request_nonce: nonce,
        protocol,
        ecn_capable: gateway.config.ecn,
    };
    law_decode_undoes_encode(request);
    let query = request_answer(relay, gateway_address, nonce, protocol);
    law_decode_undoes_encode(query);
    match protocol {
        MembershipProtocol::Igmpv3 => {
            law_built_igmpv3_query_validates(relay.config.general_query);
        },
        MembershipProtocol::Mldv2 => {
            law_built_mldv2_query_validates(relay.config.general_query);
        },
    }
}

/// Whether a report keeps the limits under which a relay reads reports.
pub open spec fn readable_report(relay: RelayModel, report: ReportModel) -> bool {
    &&& report.records.len() <= relay.config.limits.max_records_per_report
    &&& forall|i: int|
        0 <= i < report.records.len() ==> (#[trigger] report.records[i]).sources.len()
            <= relay.config.limits.max_sources_per_group
}

/// Whether a relay accepts the response MAC of a gateway's session for the
/// address from which it sees the gateway.
pub open spec fn recognised(
    gateway: GatewayModel,
    relay: RelayModel,
    now: Instant,
    gateway_address: SocketAddr,
) -> bool {
    &&& gateway.session is Some
    &&& gateway.session->Some_0.request_nonce != 0
    &&& authentic(
        relay,
        now,
        gateway.session->Some_0.response_mac,
        gateway_address.ip_spec(),
        gateway_address.port_spec(),
        gateway.session->Some_0.request_nonce,
    )
}

/// What a gateway reports in a session that the relay recognises is what the
/// relay considers, record by record.
pub proof fn law_reports_reach_the_relay(
    gateway: GatewayModel,
    relay: RelayModel,
    now: Instant,
    gateway_address: SocketAddr,
    report: ReportModel,
)
    requires
        recognised(gateway, relay, now, gateway_address),
        updated(gateway, report).1 is Ok,
        readable_report(relay, report),
        relay.table.contains_key(gateway_address) || !refuses_new(
            relay,
            gateway_address.ip_spec(),
        ),
    ensures
        ({
            let datagram = updated(gateway, report).1->Ok_0->Send_datagram;
            answer(relay, now, gateway_address, datagram) == admitted(
                relay,
                gateway_address,
                crate::membership::report_bytes(report.protocol, report.records).len() as int,
                report,
            )
        }),
{
    let session = gateway.session->Some_0;
    let packet = crate::membership::report_bytes(report.protocol, report.records);
    let message = MessageModel::MembershipUpdate {
        response_mac: session.response_mac,
        request_nonce: session.request_nonce,
        membership_update: packet,
    };
    law_decode_undoes_encode(message);
    law_built_report_reads_back(
        report.protocol,
        report.records,
        parse_limits(relay.config.limits),
    );
}

/// Gateway and relay that agree on the gateway's interests still do after an
/// accepted report.
pub proof fn law_accepted_reports_keep_both_ends_in_step(
    gateway: GatewayModel,
    relay: RelayModel,
    gateway_address: SocketAddr,
    report: ReportModel,
    bytes: int,
)
    requires
        groups_of(relay.table, gateway_address) == groups_of(
            gateway.reception,
            reception_endpoint_spec(),
        ),
        updated(gateway, report).1 is Ok,
        admitted(relay, gateway_address, bytes, report) is Ok,
    ensures
        ({
            let at_gateway = updated(gateway, report).0.reception;
            let at_relay = match admitted(relay, gateway_address, bytes, report)->Ok_0.1 {
                Some(table) => table,
                None => relay.table,
            };
            groups_of(at_relay, gateway_address) == groups_of(
                at_gateway,
                reception_endpoint_spec(),
            )
        }),
{
    let after = report_applied(relay.table, gateway_address, report.records);
    if after == relay.table {
        assert(groups_of(after, gateway_address) == groups_of(relay.table, gateway_address));
    }
}

/// While both ends agree, the relay forwards to the gateway exactly the packets
/// that the gateway lets out of the tunnel.
pub proof fn law_forwarded_packets_are_wanted(
    gateway: GatewayModel,
    relay: RelayModel,
    gateway_address: SocketAddr,
    source: IpAddr,
    group: IpAddr,
)
    requires
        groups_of(relay.table, gateway_address) == groups_of(
            gateway.reception,
            reception_endpoint_spec(),
        ),
    ensures
        wanting(relay.table, source, group).contains(gateway_address) == wants_packet(
            gateway,
            source,
            group,
        ),
{
    let groups = groups_of(relay.table, gateway_address);
    assert(wanting(relay.table, source, group).contains(gateway_address) == (groups.contains_key(
        group,
    ) && groups[group].wants(source)));
}

/// A wanted packet comes out of the tunnel as it went in, where ECN is not
/// propagated.
pub proof fn law_packets_pass_through_the_tunnel(
    gateway: GatewayModel,
    relay_address: SocketAddr,
    packet: Seq<u8>,
    outer: EcnCodepoint,
)
    requires
        gateway.relay_endpoint == Some(relay_address),
        gateway.session is Some,
        !gateway.config.ecn,
        multicast_packet(packet) is Ok,
        wants_packet(
            gateway,
            multicast_packet(packet)->Ok_0.source,
            multicast_packet(packet)->Ok_0.group,
        ),
    ensures
        reaction(
            gateway,
            relay_address,
            message_bytes(MessageModel::MulticastData { packet }),
            outer,
        ) == (
            gateway,
            Ok::<ActionModel, GatewayErrorModel>(
                ActionModel::MulticastData { packet, ecn: None },
            ),
        ),
{
    law_decode_undoes_encode(MessageModel::MulticastData { packet });
}

/// A wanted packet comes out of the tunnel with the congestion mark that it is
/// due and is otherwise as it went in, where ECN is propagated; it is dropped
/// where it cannot carry the mark.
pub proof fn law_congestion_marks_pass_through_the_tunnel(
    gateway: GatewayModel,
    relay_address: SocketAddr,
    packet: Seq<u8>,
    inner: EcnCodepoint,
    outer: EcnCodepoint,
)
    requires
        gateway.relay_endpoint == Some(relay_address),
        gateway.session is Some,
        gateway.config.ecn,
        multicast_packet(packet) is Ok,
        wants_packet(
            gateway,
            multicast_packet(packet)->Ok_0.source,
            multicast_packet(packet)->Ok_0.group,
        ),
        packet_ecn(packet) == Ok::<EcnCodepoint, EcnError>(inner),
    ensures
        ({
            let (after, action) = reaction(
                gateway,
                relay_address,
                message_bytes(MessageModel::MulticastData { packet }),
                outer,
            );
            &&& after == gateway
            &&& action is Ok
            &&& match decapsulated(inner, outer).0 {
                None => action->Ok_0 is DroppedEcn,
                Some(due) => {
                    let out = action->Ok_0->MulticastData_packet;
                    &&& action->Ok_0 is MulticastData
                    &&& packet_ecn(out) == Ok::<EcnCodepoint, EcnError>(due)
                    &&& out.len() == packet.len()
                    &&& forall|i: int|
                        0 <= i < packet.len() && i != 1 && !(ip_version(packet) == 4 && 10 <= i
                            < 12) ==> #[trigger] out[i] == packet[i]
                },
            }
        }),
{
    law_decode_undoes_encode(MessageModel::MulticastData { packet });
    if let Some(due) = decapsulated(inner, outer).0 {
        law_set_ecn_reads_back(packet, due);
    }
}

/// A gateway's teardown makes the relay forget it: its address must be one that
/// the gateway fields can carry, an IPv4 address or an IPv6 address whose first
/// 96 bits are not all zero, without flow or scope.
pub proof fn law_teardown_reaches_the_relay(
    gateway: GatewayModel,
    relay: RelayModel,
    now: Instant,
    peer: SocketAddr,
    gateway_address: SocketAddr,
)
    requires
        recognised(gateway, relay, now, gateway_address),
        gateway.relay_endpoint is Some,
        gateway.session->Some_0.gateway_endpoint == Some(
            GatewayEndpoint {
                port: gateway_address.port_spec(),
                address: GatewayAddress::of_ip(gateway_address.ip_spec()),
            },
        ),
        gateway_address == SocketAddr::of(
            gateway_address.ip_spec(),
            gateway_address.port_spec(),
        ),
        gateway_address.ip_spec() matches IpAddr::V6(a) ==> a.bits > 0xffff_ffff,
    ensures
        ended(gateway) is Ok,
        ({
            let prepared = answer(relay, now, peer, ended(gateway)->Ok_0->Send_datagram);
            &&& prepared is Ok
            &&& prepared->Ok_0.0 is AcceptedTeardown
            &&& match prepared->Ok_0.1 {
                Some(table) => table == relay.table.remove(gateway_address),
                None => !relay.table.contains_key(gateway_address),
            }
        }),
{
    let session = gateway.session->Some_0;
    let endpoint = session.gateway_endpoint->Some_0;
    let message = MessageModel::Teardown {
        response_mac: session.response_mac,
        request_nonce: session.request_nonce,
        gateway: endpoint,
    };
    law_decode_undoes_encode(message);
    assert(named_endpoint(endpoint) == gateway_address);
}

} // verus!
