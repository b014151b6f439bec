//! Building blocks for Automatic Multicast Tunneling (AMT) relays and gateways.
//!
//! The library is runtime agnostic: it parses and builds packets, keeps
//! membership state and decides what a relay or a gateway does next.  Sockets,
//! clocks and files belong to the program around it, which hands in datagrams
//! and the current time and carries out the returned actions.

pub mod activity;
pub mod address_text;
pub mod bytes;
pub mod candidates;
pub mod checksum;
pub mod cli;
pub mod config;
pub mod daemon;
pub mod desired;
pub mod dns;
pub mod downstream;
pub mod driad;
pub mod driad_gateway;
pub mod driad_sends;
pub mod driad_tunnel;
pub mod ecn;
pub mod exchange;
pub mod forwarding;
pub mod gateway;
pub mod gateway_daemon;
pub mod gateway_options;
pub mod gateway_setup;
pub mod ip;
pub mod local_membership;
pub mod logs;
pub mod lookup;
pub mod mac;
pub mod membership;
pub mod metrics;
pub mod metrics_flags;
pub mod mtu;
pub mod net;
pub mod ordered;
pub mod pmtu;
pub mod probe_queue;
pub mod protocol;
pub mod query;
pub mod random;
pub mod rate_limit;
pub mod relay;
pub mod relay_daemon;
pub mod relay_feedback;
pub mod relay_options;
pub mod retry;
pub mod state;
pub mod static_gateway;
pub mod text;
pub mod time;
pub mod wording;

pub use candidates::DriadRelaySelection;
pub use daemon::UpstreamConfig;
pub use downstream::{DownstreamConfig, DownstreamForward};
pub use driad::{
    reverse_source_name, AmtRelayRecord, AmtRelayTarget, DriadError, DriadResolver,
    DriadResolverConfig, AMTRELAY_RRTYPE,
};
pub use ecn::{decapsulate_ecn, ip_ecn, EcnCodepoint, EcnDecapsulation, EcnError};
pub use gateway::{Gateway, GatewayAction, GatewayConfig, GatewayError, GatewayPhase, GatewaySend};
pub use ip::{is_amt_forwardable_group, parse_multicast_packet, IpPacketError, MulticastPacket};
pub use local_membership::{
    LocalMembershipConfig, LocalMembershipError, LocalMembershipEvent, LocalMembershipManager,
};
pub use membership::{
    MembershipBuildError, MembershipParseError, MembershipParseLimits, MembershipRecord,
    MembershipRecordKind, MembershipReport,
};
pub use pmtu::{build_pmtu_feedback, PmtuFeedbackError, PmtuFeedbackOutcome, PmtuFeedbackSender};
pub use protocol::{
    DecodeError, GatewayAddress, GatewayEndpoint, MembershipProtocol, Message, MessageType,
    ResponseMac, AMT_PORT,
};
pub use relay::{Relay, RelayAction, RelayConfig, RelayError, RelaySecret};
pub use relay_daemon::UpstreamReconcile;
pub use state::{
    FilterMode, GroupInterest, MembershipEndpoint, MembershipTable, RelayLimits, RelayState,
    StateLimitError, UpstreamSubscription,
};
