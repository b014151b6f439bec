//! Multicast out of the gateway: which datagrams are forwarded and through
//! which interface.

use crate::bytes::{read_u16_at, u16_at};
use crate::ip::{ip_version, ipv4_header_len};
use crate::net::{ipv4_at, ipv6_at, read_ipv4, read_ipv6, IpAddr, Ipv4Addr, Ipv6Addr};
use crate::protocol::MembershipProtocol;
use crate::text::{decimal_text, number_text};
use mctx_core::{OutgoingInterface, RawPublicationConfig};
use vstd::prelude::*;
use vstd::slice::slice_subrange;

verus! {

/// The address family of a publication.
#[derive(Debug, Clone, Copy, PartialEq, Eq, Hash, Structural)]
pub enum PublicationAddressFamily {
    Ipv4,
    Ipv6,
}

/// How forwarded multicast leaves the gateway.
#[derive(Debug, Clone, Copy, PartialEq, Eq, Structural)]
pub struct DownstreamConfig {
    pub interface: Option<IpAddr>,
    pub interface_index: Option<u32>,
    pub loopback: Option<bool>,
}

impl Default for DownstreamConfig {
    fn default() -> (config: Self)
        ensures
            config == (DownstreamConfig {
                interface: None,
                interface_index: None,
                loopback: None,
            }),
    {
        DownstreamConfig { interface: None, interface_index: None, loopback: None }
    }
}

/// Why downstream options cannot be used.
#[derive(Debug, PartialEq, Eq)]
pub enum DownstreamConfigError {
    Ipv6LoopbackUnsupported,
    InterfaceAddressFamilyMismatch(PublicationAddressFamily),
    InvalidInterfaceIndex,
    Ipv4InterfaceIndexUnsupported(u32),
    RouteSelectedEgressUnsupported(PublicationAddressFamily),
    FullHeaderIpv6Unsupported { route_selected: bool },
    /// What the raw sender has against the configuration, in its words.
    InvalidRawConfiguration(String),
}

/// A [`DownstreamConfigError`] without the words of the raw sender.
pub enum DownstreamErrorModel {
    Ipv6LoopbackUnsupported,
    InterfaceAddressFamilyMismatch(PublicationAddressFamily),
    InvalidInterfaceIndex,
    Ipv4InterfaceIndexUnsupported(u32),
    RouteSelectedEgressUnsupported(PublicationAddressFamily),
    FullHeaderIpv6Unsupported { route_selected: bool },
    InvalidRawConfiguration,
}

impl View for DownstreamConfigError {
    type V = DownstreamErrorModel;

    open spec fn view(&self) -> DownstreamErrorModel {
        match *self {
            DownstreamConfigError::Ipv6LoopbackUnsupported => {
                DownstreamErrorModel::Ipv6LoopbackUnsupported
            },
            DownstreamConfigError::InterfaceAddressFamilyMismatch(family) => {
                DownstreamErrorModel::InterfaceAddressFamilyMismatch(family)
            },
            DownstreamConfigError::InvalidInterfaceIndex => {
                DownstreamErrorModel::InvalidInterfaceIndex
            },
            DownstreamConfigError::Ipv4InterfaceIndexUnsupported(index) => {
                DownstreamErrorModel::Ipv4InterfaceIndexUnsupported(index)
            },
            DownstreamConfigError::RouteSelectedEgressUnsupported(family) => {
                DownstreamErrorModel::RouteSelectedEgressUnsupported(family)
            },
            DownstreamConfigError::FullHeaderIpv6Unsupported { route_selected } => {
                DownstreamErrorModel::FullHeaderIpv6Unsupported { route_selected }
            },
            DownstreamConfigError::InvalidRawConfiguration(_) => {
                DownstreamErrorModel::InvalidRawConfiguration
            },
        }
    }
}

/// What the platform can send raw.
#[derive(Debug, Clone, Copy, PartialEq, Eq, Structural)]
pub struct EgressSupport {
    pub route_selected_ipv4: bool,
    pub route_selected_ipv6: bool,
    /// Whether an explicit interface keeps the whole IPv6 header.
    pub explicit_full_header: bool,
    /// Whether a routed interface keeps the whole IPv6 header.
    pub routed_full_header: bool,
}

/// How a publication picks its interface.
#[derive(Debug, Clone, Copy, PartialEq, Eq, Structural)]
pub enum Egress {
    RoutedIpv4,
    RoutedIpv6,
    Ipv4(Ipv4Addr),
    Ipv6(Ipv6Addr),
    Ipv6Index(u32),
    /// An interface index together with a local address on it.
    Ipv6Pinned(Ipv6Addr, u32),
}

/// A publication to open.
#[derive(Debug, Clone, Copy, PartialEq, Eq, Structural)]
pub struct PublicationPlan {
    pub egress: Egress,
    pub loopback: Option<bool>,
}

/// Whether an address can select a local interface.
pub open spec fn selects_interface(address: IpAddr) -> bool {
    !address.multicast_spec() && !address.unspecified_spec()
}

/// Whether a raw sender can work with an egress.
pub open spec fn usable_egress(egress: Egress) -> bool {
    match egress {
        Egress::RoutedIpv4 | Egress::RoutedIpv6 => true,
        Egress::Ipv4(address) => selects_interface(IpAddr::V4(address)),
        Egress::Ipv6(address) => selects_interface(IpAddr::V6(address)),
        Egress::Ipv6Index(index) => index != 0,
        Egress::Ipv6Pinned(address, index) => selects_interface(IpAddr::V6(address)) && index != 0,
    }
}

/// `mctx_core::RawPublicationConfig::validate` on the configuration that an
/// egress stands for.  It accepts a routed egress of a known family, and an
/// explicit one exactly if its local address is neither multicast nor
/// unspecified and its interface index is not zero.  Nothing is claimed of the
/// words of the error.
#[verifier::external_body]
fn check_publication(egress: Egress) -> (result: Result<(), String>)
    ensures
        result is Ok <==> usable_egress(egress),
{
    let v4 = RawPublicationConfig::ipv4();
    let v6 = RawPublicationConfig::ipv6();
    let config = match egress {
        Egress::RoutedIpv4 => v4.with_route_selected_egress(),
        Egress::RoutedIpv6 => v6.with_route_selected_egress(),
        Egress::Ipv4(a) => v4.with_interface(a.octets().into()).with_bind_addr(a.octets()),
        Egress::Ipv6(a) => v6.with_outgoing_interface(OutgoingInterface::Ipv6Addr(a.octets().into())).with_bind_addr(a.octets()),
        Egress::Ipv6Index(index) => v6.with_ipv6_interface_index(index),
        Egress::Ipv6Pinned(a, index) => v6.with_bind_addr(a.octets()).with_ipv6_interface_index(index),
    };
    config.validate().map_err(|error| error.to_string())
}

/// `mctx_core::raw_route_egress_capabilities`: whether the platform can route
/// raw IPv4 and IPv6 multicast.  It depends on the platform alone, so nothing
/// is claimed of it.
#[verifier::external_body]
fn route_egress_support() -> (support: (bool, bool)) {
    let capabilities = mctx_core::raw_route_egress_capabilities();
    (capabilities.ipv4.is_supported(), capabilities.ipv6.is_supported())
}

/// `mctx_core::raw_ipv6_egress_capabilities`: whether the platform keeps the
/// whole header of raw IPv6 multicast through an explicit and through a routed
/// interface.  It depends on the platform alone, so nothing is claimed of it.
#[verifier::external_body]
fn ipv6_header_support() -> (support: (bool, bool)) {
    let capabilities = mctx_core::raw_ipv6_egress_capabilities();
    (
        capabilities.explicit_interface.preserves_full_header(),
        capabilities.route_selected.preserves_full_header(),
    )
}

/// What the current platform can send raw.
pub fn platform_support() -> (support: EgressSupport) {
    let (route_selected_ipv4, route_selected_ipv6) = route_egress_support();
    let (explicit_full_header, routed_full_header) = ipv6_header_support();
    EgressSupport {
        route_selected_ipv4,
        route_selected_ipv6,
        explicit_full_header,
        routed_full_header,
    }
}

/// The family that a protocol reports on.
pub open spec fn family_of(protocol: MembershipProtocol) -> PublicationAddressFamily {
    match protocol {
        MembershipProtocol::Igmpv3 => PublicationAddressFamily::Ipv4,
        MembershipProtocol::Mldv2 => PublicationAddressFamily::Ipv6,
    }
}

/// The family that a protocol reports on.
pub fn protocol_family(protocol: MembershipProtocol) -> (family: PublicationAddressFamily)
    ensures
        family == family_of(protocol),
{
    match protocol {
        MembershipProtocol::Igmpv3 => PublicationAddressFamily::Ipv4,
        MembershipProtocol::Mldv2 => PublicationAddressFamily::Ipv6,
    }
}

/// The name of a family.
pub fn family_name(family: PublicationAddressFamily) -> (name: &'static str)
    ensures
        name@ == match family {
            PublicationAddressFamily::Ipv4 => "IPv4"@,
            PublicationAddressFamily::Ipv6 => "IPv6"@,
        },
{
    match family {
        PublicationAddressFamily::Ipv4 => "IPv4",
        PublicationAddressFamily::Ipv6 => "IPv6",
    }
}

/// Whether routing picks the interface.
pub open spec fn routed(config: DownstreamConfig) -> bool {
    config.interface is None && config.interface_index is None
}

/// What is wrong with the options for a family on any platform, if anything.
pub open spec fn options_error(config: DownstreamConfig, family: PublicationAddressFamily) -> Option<
    DownstreamErrorModel,
> {
    if config.interface is Some && (config.interface->Some_0 is V4) != (family is Ipv4) {
        Some(DownstreamErrorModel::InterfaceAddressFamilyMismatch(family))
    } else if config.interface_index == Some(0u32) {
        Some(DownstreamErrorModel::InvalidInterfaceIndex)
    } else if family is Ipv4 && config.interface_index is Some {
        Some(
            DownstreamErrorModel::Ipv4InterfaceIndexUnsupported(config.interface_index->Some_0),
        )
    } else if family is Ipv6 && config.loopback == Some(true) {
        Some(DownstreamErrorModel::Ipv6LoopbackUnsupported)
    } else {
        None
    }
}

/// The egress that the options ask for.
pub open spec fn egress_for(config: DownstreamConfig, family: PublicationAddressFamily) -> Egress {
    match (config.interface, config.interface_index) {
        (Some(IpAddr::V4(address)), _) => Egress::Ipv4(address),
        (Some(IpAddr::V6(address)), None) => Egress::Ipv6(address),
        (Some(IpAddr::V6(address)), Some(index)) => Egress::Ipv6Pinned(address, index),
        (None, Some(index)) => Egress::Ipv6Index(index),
        (None, None) => match family {
            PublicationAddressFamily::Ipv4 => Egress::RoutedIpv4,
            PublicationAddressFamily::Ipv6 => Egress::RoutedIpv6,
        },
    }
}

/// What is wrong with the options for a family on a platform, if anything.
pub open spec fn config_error(
    config: DownstreamConfig,
    family: PublicationAddressFamily,
    support: EgressSupport,
) -> Option<DownstreamErrorModel> {
    let routable = match family {
        PublicationAddressFamily::Ipv4 => support.route_selected_ipv4,
        PublicationAddressFamily::Ipv6 => support.route_selected_ipv6,
    };
    let keeps_header = if routed(config) {
        support.routed_full_header
    } else {
        support.explicit_full_header
    };
    if let Some(error) = options_error(config, family) {
        Some(error)
    } else if routed(config) && !routable {
        Some(DownstreamErrorModel::RouteSelectedEgressUnsupported(family))
    } else if family is Ipv6 && !keeps_header {
        Some(DownstreamErrorModel::FullHeaderIpv6Unsupported { route_selected: routed(config) })
    } else if !usable_egress(egress_for(config, family)) {
        Some(DownstreamErrorModel::InvalidRawConfiguration)
    } else {
        None
    }
}

/// A result in terms of what it says.
pub open spec fn error_of(result: Result<(), DownstreamConfigError>) -> Option<
    DownstreamErrorModel,
> {
    match result {
        Ok(()) => None,
        Err(error) => Some(error@),
    }
}

/// A family in words.
pub open spec fn family_words(family: PublicationAddressFamily) -> Seq<char> {
    match family {
        PublicationAddressFamily::Ipv4 => "IPv4"@,
        PublicationAddressFamily::Ipv6 => "IPv6"@,
    }
}

/// An error in words.
pub open spec fn error_words(error: DownstreamConfigError) -> Seq<char> {
    match error {
        DownstreamConfigError::Ipv6LoopbackUnsupported => {
            "downstream loopback=true is unsupported for full-header IPv6 forwarding; use loopback=false/--no-downstream-loopback and receive on another interface"@
        },
        DownstreamConfigError::InterfaceAddressFamilyMismatch(family) => {
            "--downstream-interface address family must match the "@ + family_words(family)
                + " inner protocol"@
        },
        DownstreamConfigError::InvalidInterfaceIndex => "--downstream-ifindex must not be 0"@,
        DownstreamConfigError::Ipv4InterfaceIndexUnsupported(index) => {
            "--downstream-ifindex "@ + decimal_text(index as nat)
                + " is IPv6-only; use --downstream-interface for IPv4"@
        },
        DownstreamConfigError::RouteSelectedEgressUnsupported(family) => {
            "route-selected "@ + family_words(family)
                + " downstream egress is unsupported on this platform; configure an explicit downstream interface"@
        },
        DownstreamConfigError::FullHeaderIpv6Unsupported { route_selected } => {
            (if route_selected {
                "route-selected"@
            } else {
                "explicit-interface"@
            }) + " full-header IPv6 downstream egress is unsupported on this platform"@
        },
        DownstreamConfigError::InvalidRawConfiguration(error) => {
            "invalid downstream raw publication configuration: "@ + error@
        },
    }
}

impl DownstreamConfigError {
    /// The error in words.
    pub fn message(&self) -> (text: String)
        ensures
            text@ == error_words(*self),
    {
        match self {
            DownstreamConfigError::Ipv6LoopbackUnsupported => {
                "downstream loopback=true is unsupported for full-header IPv6 forwarding; use loopback=false/--no-downstream-loopback and receive on another interface".to_string()
            },
            DownstreamConfigError::InterfaceAddressFamilyMismatch(family) => {
                "--downstream-interface address family must match the ".to_string().concat(
                    family_name(*family),
                ).concat(" inner protocol")
            },
            DownstreamConfigError::InvalidInterfaceIndex => {
                "--downstream-ifindex must not be 0".to_string()
            },
            DownstreamConfigError::Ipv4InterfaceIndexUnsupported(index) => {
                "--downstream-ifindex ".to_string().concat(
                    number_text(*index as u64).as_str(),
                ).concat(" is IPv6-only; use --downstream-interface for IPv4")
            },
            DownstreamConfigError::RouteSelectedEgressUnsupported(family) => {
                "route-selected ".to_string().concat(family_name(*family)).concat(
                    " downstream egress is unsupported on this platform; configure an explicit downstream interface",
                )
            },
            DownstreamConfigError::FullHeaderIpv6Unsupported { route_selected } => {
                let mode: &str = if *route_selected {
                    "route-selected"
                } else {
                    "explicit-interface"
                };
                mode.to_owned().concat(
                    " full-header IPv6 downstream egress is unsupported on this platform",
                )
            },
            DownstreamConfigError::InvalidRawConfiguration(error) => {
                "invalid downstream raw publication configuration: ".to_string().concat(
                    error.as_str(),
                )
            },
        }
    }
}

impl DownstreamConfig {
    /// Validates portable downstream options against the AMT inner family.
    ///
    /// This does not reject route-selected modes unavailable on the current
    /// platform.  Use [`Self::validate_for_protocol`] before starting a
    /// publisher when platform capability validation is required.
    pub fn validate_options_for_protocol(&self, protocol: MembershipProtocol) -> (result: Result<
        (),
        DownstreamConfigError,
    >)
        ensures
            error_of(result) == options_error(*self, family_of(protocol)),
    {
        self.validate_options_for_family(protocol_family(protocol))
    }

    /// Validates downstream options and current-platform egress capabilities.
    pub fn validate_for_protocol(&self, protocol: MembershipProtocol) -> (result: Result<
        (),
        DownstreamConfigError,
    >)
        ensures
            exists|support: EgressSupport|
                error_of(result) == #[trigger] config_error(
                    *self,
                    family_of(protocol),
                    support,
                ),
            options_error(*self, family_of(protocol)) is Some ==> error_of(result)
                == options_error(*self, family_of(protocol)),
    {
        let support = platform_support();
        let result = self.validate_for_family(protocol_family(protocol), support);
        assert(error_of(result) == config_error(*self, family_of(protocol), support));
        result
    }

    fn validate_options_for_family(&self, family: PublicationAddressFamily) -> (result: Result<
        (),
        DownstreamConfigError,
    >)
        ensures
            error_of(result) == options_error(*self, family),
    {
        if let Some(interface) = self.interface {
            let matches_family: bool = matches!(
                (family, interface),
                (PublicationAddressFamily::Ipv4, IpAddr::V4(_)) | (
                    PublicationAddressFamily::Ipv6,
                    IpAddr::V6(_),
                )
            );
            if !matches_family {
                return Err(DownstreamConfigError::InterfaceAddressFamilyMismatch(family));
            }
        }
        if let Some(index) = self.interface_index {
            if index == 0 {
                return Err(DownstreamConfigError::InvalidInterfaceIndex);
            }
            if family == PublicationAddressFamily::Ipv4 {
                return Err(DownstreamConfigError::Ipv4InterfaceIndexUnsupported(index));
            }
        }
        if let Some(loopback) = self.loopback {
            if family == PublicationAddressFamily::Ipv6 && loopback {
                return Err(DownstreamConfigError::Ipv6LoopbackUnsupported);
            }
        }
        Ok(())
    }

    /// Validates downstream options for a family on a platform.
    pub fn validate_for_family(
        &self,
        family: PublicationAddressFamily,
        support: EgressSupport,
    ) -> (result: Result<(), DownstreamConfigError>)
        ensures
            error_of(result) == config_error(*self, family, support),
    {
        if let Err(error) = self.validate_options_for_family(family) {
            return Err(error);
        }
        let route_selected: bool = self.uses_route_selected_egress();
        let routable: bool = match family {
            PublicationAddressFamily::Ipv4 => support.route_selected_ipv4,
            PublicationAddressFamily::Ipv6 => support.route_selected_ipv6,
        };
        if route_selected && !routable {
            return Err(DownstreamConfigError::RouteSelectedEgressUnsupported(family));
        }
        if family == PublicationAddressFamily::Ipv6 {
            let keeps_header: bool = if route_selected {
                support.routed_full_header
            } else {
                support.explicit_full_header
            };
            if !keeps_header {
                return Err(DownstreamConfigError::FullHeaderIpv6Unsupported { route_selected });
            }
        }
        let plan = self.build_publication_config(family);
        match check_publication(plan.egress) {
            Ok(()) => Ok(()),
            Err(error) => Err(DownstreamConfigError::InvalidRawConfiguration(error)),
        }
    }

    /// Whether routing picks the interface.
    pub fn uses_route_selected_egress(&self) -> (b: bool)
        ensures
            b == routed(*self),
    {
        self.interface.is_none() && self.interface_index.is_none()
    }

    /// The publication that the options ask for.
    pub fn build_publication_config(&self, family: PublicationAddressFamily) -> (plan:
        PublicationPlan)
        ensures
            plan == (PublicationPlan {
                egress: egress_for(*self, family),
                loopback: self.loopback,
            }),
    {
        let egress = match (self.interface, self.interface_index) {
            (Some(IpAddr::V4(address)), _) => Egress::Ipv4(address),
            (Some(IpAddr::V6(address)), None) => Egress::Ipv6(address),
            (Some(IpAddr::V6(address)), Some(index)) => Egress::Ipv6Pinned(address, index),
            (None, Some(index)) => Egress::Ipv6Index(index),
            (None, None) => match family {
                PublicationAddressFamily::Ipv4 => Egress::RoutedIpv4,
                PublicationAddressFamily::Ipv6 => Egress::RoutedIpv6,
            },
        };
        PublicationPlan { egress, loopback: self.loopback }
    }

    /// The publication for a family, if the options can be used for it.
    pub fn publication_config(&self, family: PublicationAddressFamily, support: EgressSupport) -> (
        result: Result<PublicationPlan, DownstreamConfigError>)
        ensures
            match result {
                Ok(plan) => config_error(*self, family, support) is None && plan == (
                PublicationPlan { egress: egress_for(*self, family), loopback: self.loopback }),
                Err(error) => config_error(*self, family, support) == Some(error@),
            },
    {
        match self.validate_for_family(family, support) {
            Ok(()) => Ok(self.build_publication_config(family)),
            Err(error) => Err(error),
        }
    }
}

/// A multicast datagram on its way downstream.
#[derive(Debug, Clone, Copy, PartialEq, Eq, Structural)]
pub struct IpMulticastDatagram {
    pub family: PublicationAddressFamily,
    pub source: IpAddr,
    pub group: IpAddr,
    pub ip_protocol: u8,
    pub udp_dst_port: Option<u16>,
    pub datagram_len: usize,
}

/// What was forwarded.
#[derive(Debug, Clone, Copy, PartialEq, Eq, Structural)]
pub struct DownstreamForward {
    pub source: IpAddr,
    pub group: IpAddr,
    pub ip_protocol: u8,
    pub udp_dst_port: Option<u16>,
    pub datagram_len: usize,
    pub bytes_sent: usize,
}

/// The destination port of a payload that is a whole UDP datagram.
pub open spec fn udp_port(payload: Seq<u8>, protocol: u8) -> Option<u16> {
    if protocol == 17 && payload.len() >= 8 && 8 <= u16_at(payload, 4) <= payload.len() {
        Some(u16_at(payload, 2) as u16)
    } else {
        None
    }
}

/// The multicast IPv4 datagram at the start of `s`, if there is one.
pub open spec fn ipv4_datagram(s: Seq<u8>) -> Option<IpMulticastDatagram> {
    let header_len = ipv4_header_len(s);
    let total_len = u16_at(s, 2);
    if s.len() < 20 || header_len < 20 || total_len < header_len || s.len() < total_len
        || !ipv4_at(s, 16).multicast_spec() {
        None
    } else {
        Some(
            IpMulticastDatagram {
                family: PublicationAddressFamily::Ipv4,
                source: IpAddr::V4(ipv4_at(s, 12)),
                group: IpAddr::V4(ipv4_at(s, 16)),
                ip_protocol: s[9],
                udp_dst_port: udp_port(s.subrange(header_len, total_len), s[9]),
                datagram_len: total_len as usize,
            },
        )
    }
}

/// The multicast IPv6 datagram at the start of `s`, if there is one.
pub open spec fn ipv6_datagram(s: Seq<u8>) -> Option<IpMulticastDatagram> {
    let total_len = 40 + u16_at(s, 4);
    if s.len() < 40 || s.len() < total_len || !ipv6_at(s, 24).multicast_spec() {
        None
    } else {
        Some(
            IpMulticastDatagram {
                family: PublicationAddressFamily::Ipv6,
                source: IpAddr::V6(ipv6_at(s, 8)),
                group: IpAddr::V6(ipv6_at(s, 24)),
                ip_protocol: s[6],
                udp_dst_port: udp_port(s.subrange(40, total_len), s[6]),
                datagram_len: total_len as usize,
            },
        )
    }
}

/// The multicast datagram at the start of `s`, if there is one.
pub open spec fn downstream_datagram(s: Seq<u8>) -> Option<IpMulticastDatagram> {
    if s.len() == 0 {
        None
    } else if ip_version(s) == 4 {
        ipv4_datagram(s)
    } else if ip_version(s) == 6 {
        ipv6_datagram(s)
    } else {
        None
    }
}

/// Reads the multicast datagram that bytes start with; what follows it is
/// ignored.
pub fn parse_ip_multicast_datagram(datagram: &[u8]) -> (parsed: Option<IpMulticastDatagram>)
    ensures
        parsed == downstream_datagram(datagram@),
{
    if datagram.len() == 0 {
        return None;
    }
    match datagram[0] / 16 {
        4 => parse_ipv4_multicast_datagram(datagram),
        6 => parse_ipv6_multicast_datagram(datagram),
        _ => None,
    }
}

fn parse_ipv4_multicast_datagram(datagram: &[u8]) -> (parsed: Option<IpMulticastDatagram>)
    requires
        datagram@.len() > 0,
    ensures
        parsed == ipv4_datagram(datagram@),
{
    if datagram.len() < 20 {
        return None;
    }
    let ihl: usize = (datagram[0] % 16) as usize * 4;
    if ihl < 20 || datagram.len() < ihl {
        return None;
    }
    let total_len: usize = read_u16_at(datagram, 2) as usize;
    if total_len < ihl || datagram.len() < total_len {
        return None;
    }
    let source = read_ipv4(datagram, 12);
    let group = read_ipv4(datagram, 16);
    if !group.is_multicast() {
        return None;
    }
    Some(
        IpMulticastDatagram {
            family: PublicationAddressFamily::Ipv4,
            source: IpAddr::V4(source),
            group: IpAddr::V4(group),
            ip_protocol: datagram[9],
            udp_dst_port: parse_udp_dst_port(
                slice_subrange(datagram, ihl, total_len),
                datagram[9],
            ),
            datagram_len: total_len,
        },
    )
}

fn parse_ipv6_multicast_datagram(datagram: &[u8]) -> (parsed: Option<IpMulticastDatagram>)
    requires
        datagram@.len() > 0,
    ensures
        parsed == ipv6_datagram(datagram@),
{
    if datagram.len() < 40 {
        return None;
    }
    let total_len: usize = 40 + read_u16_at(datagram, 4) as usize;
    if datagram.len() < total_len {
        return None;
    }
    let source = read_ipv6(datagram, 8);
    let group = read_ipv6(datagram, 24);
    if !group.is_multicast() {
        return None;
    }
    Some(
        IpMulticastDatagram {
            family: PublicationAddressFamily::Ipv6,
            source: IpAddr::V6(source),
            group: IpAddr::V6(group),
            ip_protocol: datagram[6],
            udp_dst_port: parse_udp_dst_port(slice_subrange(datagram, 40, total_len), datagram[6]),
            datagram_len: total_len,
        },
    )
}

/// The destination port of a payload that is a whole UDP datagram.
pub fn parse_udp_dst_port(payload: &[u8], protocol: u8) -> (port: Option<u16>)
    ensures
        port == udp_port(payload@, protocol),
{
    if protocol != 17 || payload.len() < 8 {
        return None;
    }
    let udp_len: usize = read_u16_at(payload, 4) as usize;
    if udp_len < 8 || udp_len > payload.len() {
        return None;
    }
    Some(read_u16_at(payload, 2))
}

impl IpMulticastDatagram {
    /// The report of a forwarded datagram of which `bytes_sent` bytes went out.
    pub fn forwarded(self, bytes_sent: usize) -> (report: DownstreamForward)
        ensures
            report == (DownstreamForward {
                source: self.source,
                group: self.group,
                ip_protocol: self.ip_protocol,
                udp_dst_port: self.udp_dst_port,
                datagram_len: self.datagram_len,
                bytes_sent,
            }),
    {
        DownstreamForward {
            source: self.source,
            group: self.group,
            ip_protocol: self.ip_protocol,
            udp_dst_port: self.udp_dst_port,
            datagram_len: self.datagram_len,
            bytes_sent,
        }
    }
}

/// A datagram is forwarded only up to its own length, and that part is forwarded
/// as the same datagram.
pub proof fn law_trailing_bytes_do_not_matter(s: Seq<u8>)
    requires
        downstream_datagram(s) is Some,
    ensures
        downstream_datagram(s)->Some_0.datagram_len <= s.len(),
        downstream_datagram(s.take(downstream_datagram(s)->Some_0.datagram_len as int))
            == downstream_datagram(s),
        downstream_datagram(s)->Some_0.group.multicast_spec(),
{
    let d = downstream_datagram(s)->Some_0;
    let n = d.datagram_len as int;
    let t = s.take(n);
    if ip_version(s) == 4 {
        let header_len = ipv4_header_len(s);
        assert(n == u16_at(s, 2));
        assert(t.subrange(12, 16) =~= s.subrange(12, 16));
        assert(t.subrange(16, 20) =~= s.subrange(16, 20));
        assert(t.subrange(header_len, n) =~= s.subrange(header_len, n));
    } else {
        assert(n == 40 + u16_at(s, 4));
        assert(t.subrange(8, 24) =~= s.subrange(8, 24));
        assert(t.subrange(24, 40) =~= s.subrange(24, 40));
        assert(t.subrange(40, n) =~= s.subrange(40, n));
    }
}

/// What is read from a datagram that goes downstream, byte by byte: the family,
/// the sender, the group, the protocol and its own length, and the destination
/// port where the payload is a whole UDP datagram.
pub proof fn law_downstream_datagrams_are_read_by_offset(s: Seq<u8>)
    ensures
        downstream_datagram(s) matches Some(datagram) ==> {
            let four = s[0] / 16 == 4;
            let start = if four {
                s[0] % 16 * 4
            } else {
                40
            };
            let end = if four {
                s[2] * 256 + s[3]
            } else {
                40 + s[4] * 256 + s[5]
            };
            let length = s[start + 4] * 256 + s[start + 5];
            let udp = datagram.ip_protocol == 17 && start + 8 <= end && 8 <= length && start
                + length <= end;
            &&& s.len() > 0 && (four || s[0] / 16 == 6)
            &&& start <= end <= s.len() && datagram.datagram_len == end
            &&& datagram.family is Ipv4 <==> four
            &&& datagram.ip_protocol == if four {
                s[9]
            } else {
                s[6]
            }
            &&& (datagram.source is V4) == four && (datagram.group is V4) == four
            &&& crate::net::spells(
                s,
                if four {
                    12
                } else {
                    8
                },
                datagram.source,
            )
            &&& crate::net::spells(
                s,
                if four {
                    16
                } else {
                    24
                },
                datagram.group,
            )
            &&& datagram.group.multicast_spec()
            &&& datagram.udp_dst_port is Some <==> udp
            &&& udp ==> datagram.udp_dst_port->Some_0 == s[start + 2] * 256 + s[start + 3]
        },
        s.len() >= 20 && s[0] / 16 == 4 && 5 <= s[0] % 16 && s[0] % 16 * 4 <= s[2] * 256 + s[3]
            && s[2] * 256 + s[3] <= s.len() && s[16] / 16 == 14 ==> downstream_datagram(s) is Some,
        s.len() >= 40 && s[0] / 16 == 6 && 40 + s[4] * 256 + s[5] <= s.len() && s[24] == 0xff
            ==> downstream_datagram(s) is Some,
{
    if s.len() >= 20 {
        crate::net::law_addresses_are_spelled_by_their_octets(s, 12, IpAddr::V4(ipv4_at(s, 12)));
        crate::net::law_addresses_are_spelled_by_their_octets(s, 16, IpAddr::V4(ipv4_at(s, 16)));
    }
    if s.len() >= 40 {
        crate::net::law_addresses_are_spelled_by_their_octets(s, 8, IpAddr::V4(ipv4_at(s, 8)));
        crate::net::law_addresses_are_spelled_by_their_octets(s, 24, IpAddr::V4(ipv4_at(s, 24)));
        crate::net::law_first_octets_are_the_highest(s, 24);
    }
    if downstream_datagram(s) is Some {
        let start = if s[0] / 16 == 4 {
            s[0] % 16 * 4
        } else {
            40
        };
        let end = downstream_datagram(s)->Some_0.datagram_len as int;
        let payload = s.subrange(start, end);
        if payload.len() >= 8 {
            assert(payload[2] == s[start + 2] && payload[3] == s[start + 3] && payload[4]
                == s[start + 4] && payload[5] == s[start + 5]);
        }
    }
}

/// Which downstream options are refused on any platform: an interface of the other
/// family, the index zero, an index for IPv4, and loopback for IPv6.
pub proof fn law_downstream_options_are_checked(
    config: DownstreamConfig,
    family: PublicationAddressFamily,
)
    ensures
        options_error(config, family) is Some <==> {
            ||| config.interface is Some && (config.interface->Some_0 is V4) != (family is Ipv4)
            ||| config.interface_index == Some(0u32)
            ||| config.interface_index is Some && family is Ipv4
            ||| config.loopback == Some(true) && family is Ipv6
        },
{
}

/// A downstream configuration works where its options are sound, the platform has
/// the kind of egress that they ask for, and an interface is named by an address
/// that one can have.
pub proof fn law_downstream_egress_is_checked(
    config: DownstreamConfig,
    family: PublicationAddressFamily,
    support: EgressSupport,
)
    ensures
        ({
            let routed = config.interface is None && config.interface_index is None;
            let supported = match family {
                PublicationAddressFamily::Ipv4 => !routed || support.route_selected_ipv4,
                PublicationAddressFamily::Ipv6 => if routed {
                    support.route_selected_ipv6 && support.routed_full_header
                } else {
                    support.explicit_full_header
                },
            };
            let named = config.interface matches Some(address) ==> !address.multicast_spec()
                && !address.unspecified_spec();
            config_error(config, family, support) is None <==> options_error(config, family)
                is None && supported && named
        }),
{
}

/// What is said of a downstream configuration that is refused is true of it.
pub proof fn law_downstream_refusals_are_true(
    config: DownstreamConfig,
    family: PublicationAddressFamily,
    support: EgressSupport,
)
    ensures
        config_error(config, family, support) matches Some(error) ==> match error {
            DownstreamErrorModel::InterfaceAddressFamilyMismatch(named) => named == family
                && config.interface is Some && (config.interface->Some_0 is V4) != (family is Ipv4),
            DownstreamErrorModel::InvalidInterfaceIndex => config.interface_index == Some(0u32),
            DownstreamErrorModel::Ipv4InterfaceIndexUnsupported(index) => family is Ipv4
                && config.interface_index == Some(index),
            DownstreamErrorModel::Ipv6LoopbackUnsupported => family is Ipv6 && config.loopback
                == Some(true),
            DownstreamErrorModel::RouteSelectedEgressUnsupported(named) => named == family
                && config.interface is None && config.interface_index is None,
            DownstreamErrorModel::FullHeaderIpv6Unsupported { route_selected } => family is Ipv6 && (
            route_selected <==> config.interface is None && config.interface_index is None),
            DownstreamErrorModel::InvalidRawConfiguration => config.interface is Some && (
            config.interface->Some_0.multicast_spec()
                || config.interface->Some_0.unspecified_spec()),
        },
{
}

} // verus!
