//! Multicast IP packets: what they carry and where they may go.

use crate::bytes::{read_u16_at, u16_at};
use crate::checksum::{ones_complement_sum, ones_sum};
use crate::net::{ipv4_at, ipv6_at, read_ipv4, read_ipv6, spells, IpAddr};
use vstd::prelude::*;
use vstd::slice::slice_subrange;

verus! {

/// The fields of a multicast IP packet that decide what happens to it.
#[derive(Debug, Clone, Copy, PartialEq, Eq, Structural)]
pub struct MulticastPacket {
    pub source: IpAddr,
    pub group: IpAddr,
    pub ip_protocol: u8,
    pub datagram_len: usize,
    pub fragmented: bool,
}

/// Why bytes are not a forwardable multicast IP packet.
#[derive(Debug, Clone, Copy, PartialEq, Eq, Structural)]
pub enum IpPacketError {
    Truncated,
    UnsupportedVersion(u8),
    InvalidHeader,
    InvalidLength,
    InvalidChecksum,
    InvalidSource(IpAddr),
    NonMulticastDestination(IpAddr),
}

/// The IP version field.
pub open spec fn ip_version(s: Seq<u8>) -> int {
    s[0] as int / 16
}

/// The length of an IPv4 header in bytes.
pub open spec fn ipv4_header_len(s: Seq<u8>) -> int {
    (s[0] as int % 16) * 4
}

/// Which of the two addresses of a packet is unfit for multicast, if any.
pub open spec fn address_error(source: IpAddr, group: IpAddr) -> Option<IpPacketError> {
    if !source.unicast_spec() {
        Some(IpPacketError::InvalidSource(source))
    } else if !group.multicast_spec() {
        Some(IpPacketError::NonMulticastDestination(group))
    } else {
        None
    }
}

/// What an IPv4 datagram says as a multicast packet.
pub open spec fn ipv4_multicast(s: Seq<u8>) -> Result<MulticastPacket, IpPacketError> {
    let source = IpAddr::V4(ipv4_at(s, 12));
    let group = IpAddr::V4(ipv4_at(s, 16));
    if s.len() < 20 {
        Err(IpPacketError::Truncated)
    } else if ipv4_header_len(s) < 20 || ipv4_header_len(s) > s.len() {
        Err(IpPacketError::InvalidHeader)
    } else if u16_at(s, 2) != s.len() {
        Err(IpPacketError::InvalidLength)
    } else if ones_sum(s.take(ipv4_header_len(s))) != 0xffff {
        Err(IpPacketError::InvalidChecksum)
    } else if let Some(error) = address_error(source, group) {
        Err(error)
    } else {
        Ok(
            MulticastPacket {
                source,
                group,
                ip_protocol: s[9],
                datagram_len: s.len() as usize,
                fragmented: u16_at(s, 6) % 0x4000 != 0,
            },
        )
    }
}

/// What an IPv6 datagram says as a multicast packet.
pub open spec fn ipv6_multicast(s: Seq<u8>) -> Result<MulticastPacket, IpPacketError> {
    let source = IpAddr::V6(ipv6_at(s, 8));
    let group = IpAddr::V6(ipv6_at(s, 24));
    if s.len() < 40 {
        Err(IpPacketError::Truncated)
    } else if 40 + u16_at(s, 4) != s.len() {
        Err(IpPacketError::InvalidLength)
    } else if let Some(error) = address_error(source, group) {
        Err(error)
    } else {
        Ok(
            MulticastPacket {
                source,
                group,
                ip_protocol: s[6],
                datagram_len: s.len() as usize,
                fragmented: s[6] == 44,
            },
        )
    }
}

/// What a datagram says as a multicast packet.
pub open spec fn multicast_packet(s: Seq<u8>) -> Result<MulticastPacket, IpPacketError> {
    if s.len() == 0 {
        Err(IpPacketError::Truncated)
    } else if ip_version(s) == 4 {
        ipv4_multicast(s)
    } else if ip_version(s) == 6 {
        ipv6_multicast(s)
    } else {
        Err(IpPacketError::UnsupportedVersion(ip_version(s) as u8))
    }
}

/// Whether traffic of a group may leave its link: an IPv4 group outside
/// `224.0.0.0/24`, or an IPv6 group of a scope wider than the link and not
/// reserved.
pub open spec fn forwardable_group(group: IpAddr) -> bool {
    match group {
        IpAddr::V4(g) => g.multicast_spec() && g.bits / 256 != 0xe0_0000,
        IpAddr::V6(g) => g.multicast_spec() && 3 <= g.first_segment_spec() % 16 < 15,
    }
}

/// Whether IPv4 options, walked from `offset` on, hold a Router Alert before
/// their end or the first malformed option.
pub open spec fn ipv4_router_alert_from(s: Seq<u8>, offset: int) -> bool
    decreases s.len() - offset,
{
    if offset < 0 || offset >= s.len() || s[offset] == 0 {
        false
    } else if s[offset] == 1 {
        ipv4_router_alert_from(s, offset + 1)
    } else if offset + 1 >= s.len() || s[offset + 1] < 2 || offset + s[offset + 1] > s.len() {
        false
    } else if s[offset] == 0x94 && s[offset + 1] == 4 && s[offset + 2] == 0 && s[offset + 3] == 0 {
        true
    } else {
        ipv4_router_alert_from(s, offset + s[offset + 1])
    }
}

/// Whether IPv6 hop-by-hop options, walked from `offset` on, hold an MLD
/// Router Alert before their end or the first malformed option.
pub open spec fn ipv6_router_alert_from(s: Seq<u8>, offset: int) -> bool
    decreases s.len() - offset,
{
    if offset < 0 || offset >= s.len() {
        false
    } else if s[offset] == 0 {
        ipv6_router_alert_from(s, offset + 1)
    } else if offset + 1 >= s.len() || offset + 2 + s[offset + 1] > s.len() {
        false
    } else if s[offset] == 5 && s[offset + 1] == 2 && s[offset + 2] == 0 && s[offset + 3] == 0 {
        true
    } else {
        ipv6_router_alert_from(s, offset + 2 + s[offset + 1])
    }
}

/// Reads the addresses and the protocol of a whole multicast IP datagram.
pub fn parse_multicast_packet(datagram: &[u8]) -> (result: Result<MulticastPacket, IpPacketError>)
    ensures
        result == multicast_packet(datagram@),
{
    if datagram.len() == 0 {
        return Err(IpPacketError::Truncated);
    }
    let version: u8 = datagram[0] / 16;
    match version {
        4 => parse_ipv4(datagram),
        6 => parse_ipv6(datagram),
        version => Err(IpPacketError::UnsupportedVersion(version)),
    }
}

/// Whether traffic of a group may leave its link.
pub fn is_amt_forwardable_group(group: IpAddr) -> (forwardable: bool)
    ensures
        forwardable == forwardable_group(group),
{
    match group {
        IpAddr::V4(g) => g.is_multicast() && g.bits / 256 != 0xe0_0000,
        IpAddr::V6(g) => {
            let scope: u16 = g.first_segment() % 16;
            g.is_multicast() && 3 <= scope && scope < 15
        },
    }
}

/// Whether IPv4 header options hold a Router Alert.
pub fn has_ipv4_router_alert(options: &[u8]) -> (found: bool)
    ensures
        found == ipv4_router_alert_from(options@, 0),
{
    let length: usize = options.len();
    let mut offset: usize = 0;
    while offset < length
        invariant
            length == options@.len(),
            offset <= length,
            ipv4_router_alert_from(options@, 0) == ipv4_router_alert_from(options@, offset as int),
        decreases length - offset,
    {
        let kind: u8 = options[offset];
        if kind == 0 {
            return false;
        }
        if kind == 1 {
            offset += 1;
            continue ;
        }
        if offset + 1 >= length {
            return false;
        }
        let option_len: usize = options[offset + 1] as usize;
        if option_len < 2 || option_len > length - offset {
            return false;
        }
        if kind == 0x94 && option_len == 4 && options[offset + 2] == 0 && options[offset + 3] == 0 {
            return true;
        }
        offset += option_len;
    }
    false
}

/// Whether IPv6 hop-by-hop options hold an MLD Router Alert.
pub fn has_ipv6_router_alert(options: &[u8]) -> (found: bool)
    ensures
        found == ipv6_router_alert_from(options@, 0),
{
    let length: usize = options.len();
    let mut offset: usize = 0;
    while offset < length
        invariant
            length == options@.len(),
            offset <= length,
            ipv6_router_alert_from(options@, 0) == ipv6_router_alert_from(options@, offset as int),
        decreases length - offset,
    {
        if options[offset] == 0 {
            offset += 1;
            continue ;
        }
        if offset + 1 >= length {
            return false;
        }
        let option_len: usize = options[offset + 1] as usize;
        if option_len + 2 > length - offset {
            return false;
        }
        if options[offset] == 5 && option_len == 2 && options[offset + 2] == 0 && options[offset
            + 3] == 0 {
            return true;
        }
        offset += 2 + option_len;
    }
    false
}

fn parse_ipv4(datagram: &[u8]) -> (result: Result<MulticastPacket, IpPacketError>)
    requires
        datagram@.len() > 0,
    ensures
        result == ipv4_multicast(datagram@),
{
    if datagram.len() < 20 {
        return Err(IpPacketError::Truncated);
    }
    let ihl: usize = (datagram[0] % 16) as usize * 4;
    if ihl < 20 || ihl > datagram.len() {
        return Err(IpPacketError::InvalidHeader);
    }
    let total_len: usize = read_u16_at(datagram, 2) as usize;
    if total_len < ihl || total_len != datagram.len() {
        return Err(IpPacketError::InvalidLength);
    }
    if ones_complement_sum(slice_subrange(datagram, 0, ihl)) != 0xffff {
        return Err(IpPacketError::InvalidChecksum);
    }
    let source = IpAddr::V4(read_ipv4(datagram, 12));
    let group = IpAddr::V4(read_ipv4(datagram, 16));
    if let Err(error) = validate_addresses(source, group) {
        return Err(error);
    }
    let fragment: u16 = read_u16_at(datagram, 6);
    Ok(
        MulticastPacket {
            source,
            group,
            ip_protocol: datagram[9],
            datagram_len: total_len,
            fragmented: fragment % 0x4000 != 0,
        },
    )
}

fn parse_ipv6(datagram: &[u8]) -> (result: Result<MulticastPacket, IpPacketError>)
    requires
        datagram@.len() > 0,
    ensures
        result == ipv6_multicast(datagram@),
{
    if datagram.len() < 40 {
        return Err(IpPacketError::Truncated);
    }
    let payload_len: usize = read_u16_at(datagram, 4) as usize;
    let total_len: usize = 40 + payload_len;
    if total_len != datagram.len() {
        return Err(IpPacketError::InvalidLength);
    }
    let source = IpAddr::V6(read_ipv6(datagram, 8));
    let group = IpAddr::V6(read_ipv6(datagram, 24));
    if let Err(error) = validate_addresses(source, group) {
        return Err(error);
    }
    Ok(
        MulticastPacket {
            source,
            group,
            ip_protocol: datagram[6],
            datagram_len: total_len,
            fragmented: datagram[6] == 44,
        },
    )
}

fn validate_addresses(source: IpAddr, group: IpAddr) -> (result: Result<(), IpPacketError>)
    ensures
        result == (match address_error(source, group) {
            Some(error) => Err::<(), IpPacketError>(error),
            None => Ok(()),
        }),
{
    if !source.is_unicast() {
        return Err(IpPacketError::InvalidSource(source));
    }
    if !group.is_multicast() {
        return Err(IpPacketError::NonMulticastDestination(group));
    }
    Ok(())
}

/// A packet that parses has a unicast source and a multicast group of one
/// family and is exactly as long as the bytes it was read from.
pub proof fn law_parsed_packet_is_multicast(s: Seq<u8>)
    requires
        multicast_packet(s) is Ok,
    ensures
        multicast_packet(s)->Ok_0.source.unicast_spec(),
        multicast_packet(s)->Ok_0.group.multicast_spec(),
        crate::net::same_family_spec(
            multicast_packet(s)->Ok_0.source,
            multicast_packet(s)->Ok_0.group,
        ),
        multicast_packet(s)->Ok_0.datagram_len == s.len(),
        s.len() >= 20,
{
    if ip_version(s) == 4 {
        assert(s.len() == u16_at(s, 2));
    } else {
        assert(s.len() == 40 + u16_at(s, 4));
    }
}

/// A Router Alert is found only where its four bytes stand, and is found behind
/// any number of paddings of one byte.
pub proof fn law_ipv4_router_alerts_are_found(s: Seq<u8>, offset: int, padding: nat)
    requires
        0 <= offset,
    ensures
        ipv4_router_alert_from(s, offset) ==> exists|i: int|
            offset <= i && i + 4 <= s.len() && s[i] == 0x94 && s[i + 1] == 4 && #[trigger] s[i + 2]
                == 0 && s[i + 3] == 0,
        offset + padding + 4 <= s.len() && (forall|i: int|
            offset <= i < offset + padding ==> #[trigger] s[i] == 1) && s[offset + padding] == 0x94
            && s[offset + padding + 1] == 4 && s[offset + padding + 2] == 0 && s[offset + padding
            + 3] == 0 ==> ipv4_router_alert_from(s, offset),
    decreases s.len() - offset,
{
    if offset < s.len() && s[offset] != 0 {
        if s[offset] == 1 {
            law_ipv4_router_alerts_are_found(
                s,
                offset + 1,
                if padding > 0 {
                    (padding - 1) as nat
                } else {
                    0
                },
            );
        } else if !(offset + 1 >= s.len() || s[offset + 1] < 2 || offset + s[offset + 1] > s.len()) {
            if s[offset] == 0x94 && s[offset + 1] == 4 && s[offset + 2] == 0 && s[offset + 3] == 0 {
                assert(s[offset + 2] == 0);
            } else {
                law_ipv4_router_alerts_are_found(s, offset + s[offset + 1], 0);
            }
        }
    }
}

/// A Router Alert for MLD is found only where its four bytes stand, and is found
/// behind any number of paddings of one byte.
pub proof fn law_ipv6_router_alerts_are_found(s: Seq<u8>, offset: int, padding: nat)
    requires
        0 <= offset,
    ensures
        ipv6_router_alert_from(s, offset) ==> exists|i: int|
            offset <= i && i + 4 <= s.len() && s[i] == 5 && s[i + 1] == 2 && #[trigger] s[i + 2]
                == 0 && s[i + 3] == 0,
        offset + padding + 4 <= s.len() && (forall|i: int|
            offset <= i < offset + padding ==> #[trigger] s[i] == 0) && s[offset + padding] == 5
            && s[offset + padding + 1] == 2 && s[offset + padding + 2] == 0 && s[offset + padding
            + 3] == 0 ==> ipv6_router_alert_from(s, offset),
    decreases s.len() - offset,
{
    if offset < s.len() {
        if s[offset] == 0 {
            law_ipv6_router_alerts_are_found(
                s,
                offset + 1,
                if padding > 0 {
                    (padding - 1) as nat
                } else {
                    0
                },
            );
        } else if !(offset + 1 >= s.len() || offset + 2 + s[offset + 1] > s.len()) {
            if s[offset] == 5 && s[offset + 1] == 2 && s[offset + 2] == 0 && s[offset + 3] == 0 {
                assert(s[offset + 2] == 0);
            } else {
                law_ipv6_router_alerts_are_found(s, offset + 2 + s[offset + 1], 0);
            }
        }
    }
}

/// What is read from a multicast packet, byte by byte, and which packets are
/// taken: those with a whole header, their own length in it, a sender of their
/// own, a group to go to and, in IPv4, a header whose checksum holds.
pub proof fn law_multicast_packets_are_read_by_offset(s: Seq<u8>, source: IpAddr, group: IpAddr)
    ensures
        ({
            let read = multicast_packet(s);
            let half = |i: int| s[i] * 256 + s[i + 1];
            let four = s.len() >= 20 && s[0] / 16 == 4;
            let six = s.len() >= 40 && s[0] / 16 == 6;
            &&& read matches Ok(packet) ==> {
                &&& four || six
                &&& packet.datagram_len == s.len()
                &&& four ==> packet.source is V4 && packet.group is V4 && spells(
                    s,
                    12,
                    packet.source,
                ) && spells(s, 16, packet.group) && packet.ip_protocol == s[9]
                    && packet.fragmented == (s[6] % 0x40 != 0 || s[7] != 0) && half(2) == s.len()
                    && 5 <= s[0] % 16 && s[0] % 16 * 4 <= s.len() && ones_sum(
                    s.take(s[0] % 16 * 4),
                ) == 0xffff
                &&& six ==> packet.source is V6 && packet.group is V6 && spells(
                    s,
                    8,
                    packet.source,
                ) && spells(s, 24, packet.group) && packet.ip_protocol == s[6]
                    && packet.fragmented == (s[6] == 44) && 40 + half(4) == s.len()
                &&& packet.group.multicast_spec() && !packet.source.multicast_spec()
                    && !packet.source.unspecified_spec()
            }
            &&& four && half(2) == s.len() && 5 <= s[0] % 16 && s[0] % 16 * 4 <= s.len()
                && ones_sum(s.take(s[0] % 16 * 4)) == 0xffff && source is V4 && group is V4
                && spells(s, 12, source) && spells(s, 16, group) && source.unicast_spec()
                && group.multicast_spec() ==> read is Ok
            &&& six && 40 + half(4) == s.len() && ipv6_at(s, 8).bits != 0 && s[8] != 0xff && s[24]
                == 0xff ==> read is Ok
        }),
{
    if s.len() >= 20 {
        crate::net::law_addresses_are_spelled_by_their_octets(s, 12, source);
        crate::net::law_addresses_are_spelled_by_their_octets(s, 16, source);
        assert(u16_at(s, 6) % 0x4000 == s[6] % 0x40 * 256 + s[7]);
    }
    if s.len() >= 40 {
        crate::net::law_addresses_are_spelled_by_their_octets(s, 8, source);
        crate::net::law_addresses_are_spelled_by_their_octets(s, 24, source);
        crate::net::law_first_octets_are_the_highest(s, 8);
        crate::net::law_first_octets_are_the_highest(s, 24);
    }
}

/// Which groups may leave their link: of IPv4 all outside 224.0.0.0/24, of IPv6
/// those whose scope is from 3 to 14.
pub proof fn law_forwardable_groups_are_known_by_their_bits(group: IpAddr)
    ensures
        match group {
            IpAddr::V4(g) => forwardable_group(group) <==> 0xe000_0100 <= g.bits <= 0xefff_ffff,
            IpAddr::V6(g) => {
                let head = g.bits as int / 0x1_0000_0000_0000_0000_0000_0000_0000;
                forwardable_group(group) <==> head / 256 == 0xff && 3 <= head % 16 <= 14
            },
        },
{
}

/// What is said of a packet that is refused is true of it, by its own bytes; a
/// packet is refused for one of these reasons.
pub proof fn law_packet_refusals_are_true(s: Seq<u8>)
    ensures
        multicast_packet(s) matches Err(error) ==> match error {
            IpPacketError::Truncated => s.len() == 0 || (s[0] / 16 == 4 && s.len() < 20) || (s[0]
                / 16 == 6 && s.len() < 40),
            IpPacketError::UnsupportedVersion(version) => s.len() > 0 && version == s[0] / 16
                && version != 4 && version != 6,
            IpPacketError::InvalidHeader => s[0] / 16 == 4 && (s[0] % 16 < 5 || s[0] % 16 * 4
                > s.len()),
            IpPacketError::InvalidLength => (s[0] / 16 == 4 && s[2] * 256 + s[3] != s.len()) || (
            s[0] / 16 == 6 && 40 + s[4] * 256 + s[5] != s.len()),
            IpPacketError::InvalidChecksum => s[0] / 16 == 4 && ones_sum(s.take(s[0] % 16 * 4))
                != 0xffff,
            IpPacketError::InvalidSource(source) => !source.unicast_spec() && crate::net::spells(
                s,
                if s[0] / 16 == 4 {
                    12
                } else {
                    8
                },
                source,
            ) && (source is V4 <==> s[0] / 16 == 4),
            IpPacketError::NonMulticastDestination(group) => !group.multicast_spec()
                && crate::net::spells(
                s,
                if s[0] / 16 == 4 {
                    16
                } else {
                    24
                },
                group,
            ) && (group is V4 <==> s[0] / 16 == 4),
        },
{
    if s.len() >= 20 {
        crate::net::law_addresses_are_spelled_by_their_octets(s, 12, IpAddr::V4(ipv4_at(s, 12)));
        crate::net::law_addresses_are_spelled_by_their_octets(s, 16, IpAddr::V4(ipv4_at(s, 16)));
    }
    if s.len() >= 40 {
        crate::net::law_addresses_are_spelled_by_their_octets(s, 8, IpAddr::V6(ipv6_at(s, 8)));
        crate::net::law_addresses_are_spelled_by_their_octets(s, 24, IpAddr::V6(ipv6_at(s, 24)));
    }
}

} // verus!
