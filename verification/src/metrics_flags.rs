//! What a daemon tells of its set-up at the head of its reports.

use crate::address_text::{ip_words, socket_words};
use crate::daemon::UpstreamConfig;
use crate::gateway::Gateway;
use crate::metrics::{
    insert_count, insert_flag, insert_text, members_in, MemberModel, MembersModel, MetricsConfig,
};
use crate::net::{IpAddr, SocketAddr};
use crate::relay::{Relay, RelayConfigModel};
use crate::wording::{protocol_label, protocol_name};
use vstd::prelude::*;

verus! {

/// No members.
pub open spec fn no_members() -> MembersModel {
    Map::empty()
}

/// `serde_json::Map::new` gives an object without members.
#[verifier::external_body]
fn empty_object() -> (flags: serde_json::Map<String, serde_json::Value>)
    ensures
        members_in(flags) == no_members(),
{
    serde_json::Map::new()
}

/// What every daemon tells: what it is, and its name.
pub open spec fn base_told(role: Seq<char>, node_id: Seq<char>) -> MembersModel {
    no_members().insert("role"@, MemberModel::Text(role)).insert(
        "node_id"@,
        MemberModel::Text(node_id),
    )
}

/// What every daemon tells: what it is, and its name.
pub fn base_flags(role: &str, node_id: &str) -> (flags: serde_json::Map<String, serde_json::Value>)
    ensures
        members_in(flags) == base_told(role@, node_id@),
{
    let mut flags = empty_object();
    insert_text(&mut flags, "role".to_string(), role.to_owned());
    insert_text(&mut flags, "node_id".to_string(), node_id.to_owned());
    flags
}

/// The sizes of a socket's buffers, in bytes.
#[derive(Debug, Clone, Copy, PartialEq, Eq, Structural)]
pub struct SocketBufferSizes {
    pub receive: usize,
    pub send: usize,
}

/// How a relay receives multicast.
#[derive(Debug, Clone, Copy, PartialEq, Eq, Structural)]
pub struct UpstreamCapture {
    pub config: UpstreamConfig,
    /// Whether one capture serves all subscriptions.
    pub shared: bool,
    pub queue_capacity: usize,
}

/// The interface that multicast is received on, where one is picked, added to
/// other members.
pub open spec fn upstream_told(members: MembersModel, upstream: UpstreamConfig) -> MembersModel {
    let named = match upstream.interface {
        Some(interface) => members.insert(
            "upstream_interface"@,
            MemberModel::Text(ip_words(interface)),
        ),
        None => members,
    };
    match upstream.interface_index {
        Some(index) => named.insert("upstream_ifindex"@, MemberModel::Count(index as u64)),
        None => named,
    }
}

/// What a relay tells of its set-up.
pub open spec fn relay_told(
    node_id: Seq<char>,
    bind: SocketAddr,
    relay: RelayConfigModel,
    upstream: UpstreamCapture,
    path_mtu: usize,
    pmtu_feedback: bool,
    buffers: SocketBufferSizes,
) -> MembersModel {
    let addressed = base_told("relay"@, node_id).insert(
        "bind_addr"@,
        MemberModel::Text(socket_words(bind)),
    ).insert(
        "advertise_ipv4"@,
        MemberModel::Text(ip_words(IpAddr::V4(relay.advertise_ipv4))),
    ).insert("advertise_ipv6"@, MemberModel::Text(ip_words(IpAddr::V6(relay.advertise_ipv6))));
    upstream_told(addressed, upstream.config).insert(
        "path_mtu"@,
        MemberModel::Count(path_mtu as u64),
    ).insert(
        "tunnel_receive_buffer_bytes"@,
        MemberModel::Count(buffers.receive as u64),
    ).insert("tunnel_send_buffer_bytes"@, MemberModel::Count(buffers.send as u64)).insert(
        "pmtu_feedback_enabled"@,
        MemberModel::Flag(pmtu_feedback),
    ).insert("shared_upstream_capture"@, MemberModel::Flag(upstream.shared)).insert(
        "upstream_packet_queue_capacity"@,
        MemberModel::Count(upstream.queue_capacity as u64),
    ).insert("ecn_enabled"@, MemberModel::Flag(relay.ecn))
}

/// What a relay tells of its set-up.
pub fn relay_metrics_flags(
    config: &MetricsConfig,
    bind_addr: SocketAddr,
    relay: &Relay,
    upstream: UpstreamCapture,
    path_mtu: usize,
    pmtu_feedback: bool,
    socket_buffers: SocketBufferSizes,
) -> (flags: serde_json::Map<String, serde_json::Value>)
    ensures
        members_in(flags) == relay_told(
            config.node_id@,
            bind_addr,
            relay@.config,
            upstream,
            path_mtu,
            pmtu_feedback,
            socket_buffers,
        ),
{
    let mut flags = base_flags("relay", config.node_id.as_str());
    insert_text(&mut flags, "bind_addr".to_string(), bind_addr.text());
    insert_text(
        &mut flags,
        "advertise_ipv4".to_string(),
        IpAddr::V4(relay.config.advertise_ipv4).text(),
    );
    insert_text(
        &mut flags,
        "advertise_ipv6".to_string(),
        IpAddr::V6(relay.config.advertise_ipv6).text(),
    );
    if let Some(interface) = upstream.config.interface {
        insert_text(&mut flags, "upstream_interface".to_string(), interface.text());
    }
    if let Some(index) = upstream.config.interface_index {
        insert_count(&mut flags, "upstream_ifindex".to_string(), index as u64);
    }
    insert_count(&mut flags, "path_mtu".to_string(), path_mtu as u64);
    insert_count(
        &mut flags,
        "tunnel_receive_buffer_bytes".to_string(),
        socket_buffers.receive as u64,
    );
    insert_count(
        &mut flags,
        "tunnel_send_buffer_bytes".to_string(),
        socket_buffers.send as u64,
    );
    insert_flag(&mut flags, "pmtu_feedback_enabled".to_string(), pmtu_feedback);
    insert_flag(&mut flags, "shared_upstream_capture".to_string(), upstream.shared);
    insert_count(
        &mut flags,
        "upstream_packet_queue_capacity".to_string(),
        upstream.queue_capacity as u64,
    );
    insert_flag(&mut flags, "ecn_enabled".to_string(), relay.config.ecn);
    flags
}

/// What a gateway tells of its set-up.
pub fn gateway_metrics_flags(
    config: &MetricsConfig,
    bind_addr: SocketAddr,
    gateway: &Gateway,
    downstream_enabled: bool,
    transparent_enabled: bool,
    configured_joins: u64,
) -> (flags: serde_json::Map<String, serde_json::Value>)
    ensures
        members_in(flags) == base_told("gateway"@, config.node_id@).insert(
            "bind_addr"@,
            MemberModel::Text(socket_words(bind_addr)),
        ).insert("relay_addr"@, MemberModel::Text(socket_words(gateway.config.relay))).insert(
            "protocol"@,
            MemberModel::Text(protocol_name(gateway.config.protocol)),
        ).insert("ecn_enabled"@, MemberModel::Flag(gateway.config.ecn)).insert(
            "downstream_enabled"@,
            MemberModel::Flag(downstream_enabled),
        ).insert("transparent_enabled"@, MemberModel::Flag(transparent_enabled)).insert(
            "configured_joins"@,
            MemberModel::Count(configured_joins),
        ),
{
    let mut flags = base_flags("gateway", config.node_id.as_str());
    insert_text(&mut flags, "bind_addr".to_string(), bind_addr.text());
    insert_text(&mut flags, "relay_addr".to_string(), gateway.config.relay.text());
    insert_text(
        &mut flags,
        "protocol".to_string(),
        protocol_label(gateway.config.protocol).to_owned(),
    );
    insert_flag(&mut flags, "ecn_enabled".to_string(), gateway.config.ecn);
    insert_flag(&mut flags, "downstream_enabled".to_string(), downstream_enabled);
    insert_flag(&mut flags, "transparent_enabled".to_string(), transparent_enabled);
    insert_count(&mut flags, "configured_joins".to_string(), configured_joins);
    flags
}

/// What a relay tells of its set-up stands under its own name each, and the
/// interface that multicast is received on only where one is picked.
pub proof fn law_set_ups_are_told_by_name(
    node_id: Seq<char>,
    bind: SocketAddr,
    relay: RelayConfigModel,
    upstream: UpstreamCapture,
    path_mtu: usize,
    pmtu_feedback: bool,
    buffers: SocketBufferSizes,
)
    ensures
        ({
            let told = relay_told(node_id, bind, relay, upstream, path_mtu, pmtu_feedback, buffers);
            let config = upstream.config;
            &&& told.contains_key("role"@) && told["role"@]
                == MemberModel::Text("relay"@)
            &&& told.contains_key("node_id"@) && told["node_id"@]
                == MemberModel::Text(node_id)
            &&& told.contains_key("bind_addr"@) && told["bind_addr"@]
                == MemberModel::Text(socket_words(bind))
            &&& told.contains_key("advertise_ipv4"@) && told["advertise_ipv4"@]
                == MemberModel::Text(ip_words(IpAddr::V4(relay.advertise_ipv4)))
            &&& told.contains_key("advertise_ipv6"@) && told["advertise_ipv6"@]
                == MemberModel::Text(ip_words(IpAddr::V6(relay.advertise_ipv6)))
            &&& told.contains_key("path_mtu"@) && told["path_mtu"@]
                == MemberModel::Count(path_mtu as u64)
            &&& told.contains_key("tunnel_receive_buffer_bytes"@) && told["tunnel_receive_buffer_bytes"@]
                == MemberModel::Count(buffers.receive as u64)
            &&& told.contains_key("tunnel_send_buffer_bytes"@) && told["tunnel_send_buffer_bytes"@]
                == MemberModel::Count(buffers.send as u64)
            &&& told.contains_key("pmtu_feedback_enabled"@) && told["pmtu_feedback_enabled"@]
                == MemberModel::Flag(pmtu_feedback)
            &&& told.contains_key("shared_upstream_capture"@) && told["shared_upstream_capture"@]
                == MemberModel::Flag(upstream.shared)
            &&& told.contains_key("upstream_packet_queue_capacity"@) && told["upstream_packet_queue_capacity"@]
                == MemberModel::Count(upstream.queue_capacity as u64)
            &&& told.contains_key("ecn_enabled"@) && told["ecn_enabled"@]
                == MemberModel::Flag(relay.ecn)
            &&& told.contains_key("upstream_interface"@) <==> config.interface is Some
            &&& config.interface is Some ==> told["upstream_interface"@] == MemberModel::Text(
                ip_words(config.interface->Some_0),
            )
            &&& told.contains_key("upstream_ifindex"@) <==> config.interface_index is Some
            &&& config.interface_index is Some ==> told["upstream_ifindex"@] == MemberModel::Count(
                config.interface_index->Some_0 as u64,
            )
        }),
{
    reveal_strlit("role");
    reveal_strlit("node_id");
    reveal_strlit("bind_addr");
    reveal_strlit("advertise_ipv4");
    reveal_strlit("advertise_ipv6");
    reveal_strlit("upstream_interface");
    reveal_strlit("upstream_ifindex");
    reveal_strlit("path_mtu");
    reveal_strlit("tunnel_receive_buffer_bytes");
    reveal_strlit("tunnel_send_buffer_bytes");
    reveal_strlit("pmtu_feedback_enabled");
    reveal_strlit("shared_upstream_capture");
    reveal_strlit("upstream_packet_queue_capacity");
    reveal_strlit("ecn_enabled");
    assert("role"@.len() == 4);
    assert("node_id"@.len() == 7);
    assert("bind_addr"@.len() == 9);
    assert("advertise_ipv4"@.len() == 14);
    assert("advertise_ipv6"@.len() == 14);
    assert("upstream_interface"@.len() == 18);
    assert("upstream_ifindex"@.len() == 16);
    assert("path_mtu"@.len() == 8);
    assert("tunnel_receive_buffer_bytes"@.len() == 27);
    assert("tunnel_send_buffer_bytes"@.len() == 24);
    assert("pmtu_feedback_enabled"@.len() == 21);
    assert("shared_upstream_capture"@.len() == 23);
    assert("upstream_packet_queue_capacity"@.len() == 30);
    assert("ecn_enabled"@.len() == 11);
    assert("advertise_ipv4"@[13] != "advertise_ipv6"@[13]);
}

} // verus!
