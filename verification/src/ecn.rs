//! ECN propagation out of AMT tunnels.

use crate::bytes::{read_u16_at, u16_at};
use crate::checksum::{checksum, checksum_of, lemma_stored_checksum_verifies, ones_sum, with_word};
use crate::ip::{ip_version, ipv4_header_len};
use vstd::prelude::*;
use vstd::slice::slice_subrange;

verus! {

/// The two-bit Explicit Congestion Notification field carried by an IP header.
#[derive(Debug, Clone, Copy, PartialEq, Eq, Hash, Structural)]
pub enum EcnCodepoint {
    NotEct,
    Ect1,
    Ect0,
    Ce,
}

impl EcnCodepoint {
    /// The value of the field.
    pub open spec fn bits_spec(self) -> u8 {
        match self {
            EcnCodepoint::NotEct => 0,
            EcnCodepoint::Ect1 => 1,
            EcnCodepoint::Ect0 => 2,
            EcnCodepoint::Ce => 3,
        }
    }

    /// The codepoint in the two low bits of `bits`.
    pub open spec fn of_bits(bits: int) -> Self {
        if bits % 4 == 0 {
            EcnCodepoint::NotEct
        } else if bits % 4 == 1 {
            EcnCodepoint::Ect1
        } else if bits % 4 == 2 {
            EcnCodepoint::Ect0
        } else {
            EcnCodepoint::Ce
        }
    }

    /// The codepoint in the two low bits of `bits`.
    pub fn from_bits(bits: u8) -> (codepoint: Self)
        ensures
            codepoint == Self::of_bits(bits as int),
            codepoint.bits_spec() == bits % 4,
    {
        match bits % 4 {
            1 => EcnCodepoint::Ect1,
            2 => EcnCodepoint::Ect0,
            3 => EcnCodepoint::Ce,
            _ => EcnCodepoint::NotEct,
        }
    }

    /// The value of the field.
    pub fn bits(self) -> (bits: u8)
        ensures
            bits == self.bits_spec(),
            Self::of_bits(bits as int) == self,
    {
        match self {
            EcnCodepoint::NotEct => 0,
            EcnCodepoint::Ect1 => 1,
            EcnCodepoint::Ect0 => 2,
            EcnCodepoint::Ce => 3,
        }
    }
}

/// The result of decapsulating one packet.
#[derive(Debug, Clone, Copy, PartialEq, Eq, Structural)]
pub struct EcnDecapsulation {
    pub inner: EcnCodepoint,
    pub outer: EcnCodepoint,
    /// `None` means the packet must be dropped.
    pub output: Option<EcnCodepoint>,
    /// The input combination is currently unused and is useful to log or meter.
    pub currently_unused: bool,
}

impl EcnDecapsulation {
    pub fn is_drop(self) -> (b: bool)
        ensures
            b == (self.output is None),
    {
        self.output.is_none()
    }

    pub fn changed(self) -> (b: bool)
        ensures
            b == (self.output is Some && self.output != Some(self.inner)),
    {
        match self.output {
            Some(output) => output.bits() != self.inner.bits(),
            None => false,
        }
    }

    pub open spec fn propagated_ce_spec(self) -> bool {
        self.output == Some(EcnCodepoint::Ce) && self.inner != EcnCodepoint::Ce
    }

    pub fn propagated_ce(self) -> (b: bool)
        ensures
            b == self.propagated_ce_spec(),
    {
        matches!(self.output, Some(EcnCodepoint::Ce)) && self.inner.bits()
            != EcnCodepoint::Ce.bits()
    }
}

/// Why the ECN field of a packet cannot be read.
#[derive(Debug, Clone, Copy, PartialEq, Eq, Structural)]
pub enum EcnError {
    Truncated,
    UnsupportedVersion(u8),
    InvalidHeader,
    InvalidLength,
}

/// What is wrong with the IPv4 header of `s`, if anything.
pub open spec fn ipv4_ecn_error(s: Seq<u8>) -> Option<EcnError> {
    if s.len() < 20 {
        Some(EcnError::Truncated)
    } else if ipv4_header_len(s) < 20 || ipv4_header_len(s) > s.len() {
        Some(EcnError::InvalidHeader)
    } else if u16_at(s, 2) != s.len() {
        Some(EcnError::InvalidLength)
    } else {
        None
    }
}

/// What is wrong with the IPv6 header of `s`, if anything.
pub open spec fn ipv6_ecn_error(s: Seq<u8>) -> Option<EcnError> {
    if s.len() < 40 {
        Some(EcnError::Truncated)
    } else if 40 + u16_at(s, 4) != s.len() {
        Some(EcnError::InvalidLength)
    } else {
        None
    }
}

/// The ECN field of an IP packet.
pub open spec fn packet_ecn(s: Seq<u8>) -> Result<EcnCodepoint, EcnError> {
    if s.len() == 0 {
        Err(EcnError::Truncated)
    } else if ip_version(s) == 4 {
        match ipv4_ecn_error(s) {
            Some(error) => Err(error),
            None => Ok(EcnCodepoint::of_bits(s[1] as int)),
        }
    } else if ip_version(s) == 6 {
        match ipv6_ecn_error(s) {
            Some(error) => Err(error),
            None => Ok(EcnCodepoint::of_bits(s[1] as int / 16)),
        }
    } else {
        Err(EcnError::UnsupportedVersion(ip_version(s) as u8))
    }
}

/// The field that leaves the tunnel, `None` for a packet to drop, and whether
/// the combination is currently unused.
pub open spec fn decapsulated(inner: EcnCodepoint, outer: EcnCodepoint) -> (
    Option<EcnCodepoint>,
    bool,
) {
    match (inner, outer) {
        (EcnCodepoint::NotEct, EcnCodepoint::Ce) => (None, true),
        (EcnCodepoint::NotEct, EcnCodepoint::NotEct) => (Some(EcnCodepoint::NotEct), false),
        (EcnCodepoint::NotEct, _) => (Some(EcnCodepoint::NotEct), true),
        (_, EcnCodepoint::Ce) => (Some(EcnCodepoint::Ce), false),
        (EcnCodepoint::Ect0, EcnCodepoint::Ect1) => (Some(EcnCodepoint::Ect1), false),
        (EcnCodepoint::Ect1, EcnCodepoint::Ect0) => (Some(EcnCodepoint::Ect1), true),
        (EcnCodepoint::Ce, EcnCodepoint::Ect1) => (Some(EcnCodepoint::Ce), true),
        (inner, _) => (Some(inner), false),
    }
}

/// An IPv4 packet with its ECN field set and its header checksum redone.
pub open spec fn ipv4_with_ecn(s: Seq<u8>, ecn: EcnCodepoint) -> Seq<u8> {
    let marked = s.update(1, (s[1] / 4 * 4 + ecn.bits_spec()) as u8);
    let zeroed = with_word(marked, 10, 0);
    with_word(zeroed, 10, checksum_of(zeroed.take(ipv4_header_len(s))))
}

/// An IPv6 packet with its ECN field set.
pub open spec fn ipv6_with_ecn(s: Seq<u8>, ecn: EcnCodepoint) -> Seq<u8> {
    s.update(1, (s[1] / 64 * 64 + ecn.bits_spec() * 16 + s[1] % 16) as u8)
}

/// A packet with its ECN field set.
pub open spec fn with_ecn(s: Seq<u8>, ecn: EcnCodepoint) -> Seq<u8> {
    if ip_version(s) == 4 {
        ipv4_with_ecn(s, ecn)
    } else {
        ipv6_with_ecn(s, ecn)
    }
}

/// Returns the ECN field from an IPv4 or IPv6 packet.
pub fn ip_ecn(packet: &[u8]) -> (result: Result<EcnCodepoint, EcnError>)
    ensures
        result == packet_ecn(packet@),
{
    if packet.len() == 0 {
        return Err(EcnError::Truncated);
    }
    let version: u8 = packet[0] / 16;
    match version {
        4 => match validate_ipv4(packet) {
            Ok(_) => Ok(EcnCodepoint::from_bits(packet[1])),
            Err(error) => Err(error),
        },
        6 => match validate_ipv6(packet) {
            Ok(()) => Ok(EcnCodepoint::from_bits(packet[1] / 16)),
            Err(error) => Err(error),
        },
        other => Err(EcnError::UnsupportedVersion(other)),
    }
}

/// Applies decapsulation to an embedded IP packet in place.
///
/// The caller must discard the packet when the returned result has no output.
pub fn decapsulate_ecn(packet: &mut [u8], outer: EcnCodepoint) -> (result: Result<
    EcnDecapsulation,
    EcnError,
>)
    ensures
        match packet_ecn(old(packet)@) {
            Err(error) => result == Err::<EcnDecapsulation, EcnError>(error) && final(packet)@
                == old(packet)@,
            Ok(inner) => {
                &&& result == Ok::<EcnDecapsulation, EcnError>(
                    EcnDecapsulation {
                        inner,
                        outer,
                        output: decapsulated(inner, outer).0,
                        currently_unused: decapsulated(inner, outer).1,
                    },
                )
                &&& final(packet)@ == match decapsulated(inner, outer).0 {
                    Some(output) => if output == inner {
                        old(packet)@
                    } else {
                        with_ecn(old(packet)@, output)
                    },
                    None => old(packet)@,
                }
            },
        },
{
    let inner = match ip_ecn(packet) {
        Ok(inner) => inner,
        Err(error) => return Err(error),
    };
    let (output, currently_unused) = decapsulation_result(inner, outer);
    let result = EcnDecapsulation { inner, outer, output, currently_unused };
    if let Some(output) = output {
        if output != inner {
            set_ip_ecn(packet, output);
        }
    }
    Ok(result)
}

/// The field that leaves the tunnel, and whether the combination is unused.
pub fn decapsulation_result(inner: EcnCodepoint, outer: EcnCodepoint) -> (result: (
    Option<EcnCodepoint>,
    bool,
))
    ensures
        result == decapsulated(inner, outer),
{
    match (inner, outer) {
        (EcnCodepoint::NotEct, EcnCodepoint::Ce) => (None, true),
        (EcnCodepoint::NotEct, EcnCodepoint::NotEct) => (Some(EcnCodepoint::NotEct), false),
        (EcnCodepoint::NotEct, EcnCodepoint::Ect0 | EcnCodepoint::Ect1) => (
            Some(EcnCodepoint::NotEct),
            true,
        ),
        (EcnCodepoint::Ect0, EcnCodepoint::NotEct | EcnCodepoint::Ect0) => (
            Some(EcnCodepoint::Ect0),
            false,
        ),
        (EcnCodepoint::Ect0, EcnCodepoint::Ect1) => (Some(EcnCodepoint::Ect1), false),
        (EcnCodepoint::Ect0, EcnCodepoint::Ce) => (Some(EcnCodepoint::Ce), false),
        (EcnCodepoint::Ect1, EcnCodepoint::NotEct | EcnCodepoint::Ect1) => (
            Some(EcnCodepoint::Ect1),
            false,
        ),
        (EcnCodepoint::Ect1, EcnCodepoint::Ect0) => (Some(EcnCodepoint::Ect1), true),
        (EcnCodepoint::Ect1, EcnCodepoint::Ce) => (Some(EcnCodepoint::Ce), false),
        (EcnCodepoint::Ce, EcnCodepoint::Ect1) => (Some(EcnCodepoint::Ce), true),
        (EcnCodepoint::Ce, EcnCodepoint::NotEct | EcnCodepoint::Ect0 | EcnCodepoint::Ce) => (
            Some(EcnCodepoint::Ce),
            false,
        ),
    }
}

/// Overwrites the big-endian word at `at`.
pub fn set_word(packet: &mut [u8], at: usize, value: u16)
    requires
        at + 2 <= old(packet)@.len(),
    ensures
        final(packet)@ == with_word(old(packet)@, at as int, value),
{
    let length: usize = packet.len();
    assert(at + 2 <= length);
    packet[at] = (value / 256) as u8;
    packet[at + 1] = (value % 256) as u8;
}

fn set_ip_ecn(packet: &mut [u8], ecn: EcnCodepoint)
    requires
        packet_ecn(old(packet)@) is Ok,
    ensures
        final(packet)@ == with_ecn(old(packet)@, ecn),
{
    if packet[0] / 16 == 4 {
        let header_len: usize = (packet[0] % 16) as usize * 4;
        let first: u8 = packet[1];
        packet[1] = first / 4 * 4 + ecn.bits();
        set_word(packet, 10, 0);
        let header_checksum: u16 = checksum(slice_subrange(packet, 0, header_len));
        set_word(packet, 10, header_checksum);
    } else {
        let first: u8 = packet[1];
        packet[1] = first / 64 * 64 + ecn.bits() * 16 + first % 16;
    }
}

fn validate_ipv4(packet: &[u8]) -> (result: Result<usize, EcnError>)
    requires
        packet@.len() > 0,
    ensures
        match result {
            Ok(header_len) => ipv4_ecn_error(packet@) is None && header_len == ipv4_header_len(
                packet@,
            ),
            Err(error) => ipv4_ecn_error(packet@) == Some(error),
        },
{
    if packet.len() < 20 {
        return Err(EcnError::Truncated);
    }
    let header_len: usize = (packet[0] % 16) as usize * 4;
    if header_len < 20 || header_len > packet.len() {
        return Err(EcnError::InvalidHeader);
    }
    let total_len: usize = read_u16_at(packet, 2) as usize;
    if total_len < header_len || total_len != packet.len() {
        return Err(EcnError::InvalidLength);
    }
    Ok(header_len)
}

fn validate_ipv6(packet: &[u8]) -> (result: Result<(), EcnError>)
    requires
        packet@.len() > 0,
    ensures
        match result {
            Ok(()) => ipv6_ecn_error(packet@) is None,
            Err(error) => ipv6_ecn_error(packet@) == Some(error),
        },
{
    if packet.len() < 40 {
        return Err(EcnError::Truncated);
    }
    let payload_len: usize = read_u16_at(packet, 4) as usize;
    if 40 + payload_len != packet.len() {
        return Err(EcnError::InvalidLength);
    }
    Ok(())
}

/// Setting the ECN field changes that field and, in IPv4, the header checksum,
/// which then verifies; the field reads back as it was set.
pub proof fn law_set_ecn_reads_back(s: Seq<u8>, ecn: EcnCodepoint)
    requires
        packet_ecn(s) is Ok,
    ensures
        packet_ecn(with_ecn(s, ecn)) == Ok::<EcnCodepoint, EcnError>(ecn),
        with_ecn(s, ecn).len() == s.len(),
        forall|i: int|
            0 <= i < s.len() && i != 1 && !(ip_version(s) == 4 && 10 <= i < 12) ==> #[trigger]
            with_ecn(s, ecn)[i] == s[i],
        ip_version(s) == 4 ==> with_ecn(s, ecn)[1] / 4 == s[1] / 4,
        ip_version(s) == 6 ==> with_ecn(s, ecn)[1] / 64 == s[1] / 64 && with_ecn(s, ecn)[1] % 16
            == s[1] % 16,
        ip_version(s) == 4 ==> ones_sum(with_ecn(s, ecn).take(ipv4_header_len(s))) == 0xffff,
{
    if ip_version(s) == 4 {
        let marked = s.update(1, (s[1] / 4 * 4 + ecn.bits_spec()) as u8);
        let zeroed = with_word(marked, 10, 0);
        let header_len = ipv4_header_len(s);
        let head = zeroed.take(header_len);
        assert(head[10] == 0 && head[11] == 0);
        lemma_stored_checksum_verifies(head, 10);
        assert(with_word(head, 10, checksum_of(head)) =~= with_ecn(s, ecn).take(header_len));
    }
}

/// A congestion mark on the outer header is never lost: the packet that leaves
/// the tunnel is marked, or is dropped because its sender would not understand
/// the mark.
pub proof fn law_congestion_mark_survives(inner: EcnCodepoint)
    ensures
        decapsulated(inner, EcnCodepoint::Ce).0 == if inner is NotEct {
            None
        } else {
            Some(EcnCodepoint::Ce)
        },
{
}

/// Decapsulation drops a packet only when a congestion mark meets an inner
/// packet that is not ECN-capable, and never clears an inner congestion mark.
pub proof fn law_only_unmarkable_packets_are_dropped(inner: EcnCodepoint, outer: EcnCodepoint)
    ensures
        decapsulated(inner, outer).0 is None <==> inner is NotEct && outer is Ce,
        inner is Ce ==> decapsulated(inner, outer).0 == Some(EcnCodepoint::Ce),
{
}

/// The ECN field of a packet is the two low bits of its second byte in IPv4, and
/// of the upper half of that byte in IPv6; 1 is ECT(1), 2 is ECT(0), 3 is CE.
pub proof fn law_ecn_is_read_by_its_bits(s: Seq<u8>)
    ensures
        packet_ecn(s) matches Ok(ecn) ==> {
            let field = if s[0] / 16 == 4 {
                s[1] as int % 4
            } else {
                s[1] as int / 16 % 4
            };
            match ecn {
                EcnCodepoint::NotEct => field == 0,
                EcnCodepoint::Ect1 => field == 1,
                EcnCodepoint::Ect0 => field == 2,
                EcnCodepoint::Ce => field == 3,
            }
        },
        packet_ecn(s) is Ok <==> {
            ||| s.len() >= 20 && s[0] / 16 == 4 && 5 <= s[0] % 16 && s[0] % 16 * 4 <= s.len()
                && s[2] * 256 + s[3] == s.len()
            ||| s.len() >= 40 && s[0] / 16 == 6 && 40 + s[4] * 256 + s[5] == s.len()
        },
{
}

/// What leaves the tunnel, by what came in: an outer congestion mark marks a
/// capable packet and drops another one, an outer ECT(1) turns ECT(0) into
/// ECT(1), and otherwise the inner field stays.  Odd are a mark of any kind on a
/// packet that is not capable, ECT(0) around ECT(1), and ECT(1) around a
/// congestion mark.
pub proof fn law_decapsulation_follows_the_outer_mark(inner: EcnCodepoint, outer: EcnCodepoint)
    ensures
        ({
            let (left, odd) = decapsulated(inner, outer);
            &&& outer is Ce && inner is NotEct ==> left is None
            &&& outer is Ce && !(inner is NotEct) ==> left == Some(EcnCodepoint::Ce)
            &&& outer is Ect1 ==> left == Some(
                if inner is Ect0 {
                    EcnCodepoint::Ect1
                } else {
                    inner
                },
            )
            &&& outer is Ect0 || outer is NotEct ==> left == Some(inner)
            &&& odd <==> (inner is NotEct && !(outer is NotEct)) || (inner is Ect1 && outer is Ect0)
                || (inner is Ce && outer is Ect1)
        }),
{
}

/// What is said of a packet whose mark cannot be read is true of it, by its own
/// bytes.
pub proof fn law_ecn_refusals_are_true(s: Seq<u8>)
    ensures
        packet_ecn(s) matches Err(error) ==> match error {
            EcnError::Truncated => s.len() == 0 || (s[0] / 16 == 4 && s.len() < 20) || (s[0] / 16
                == 6 && s.len() < 40),
            EcnError::UnsupportedVersion(version) => s.len() > 0 && version == s[0] / 16 && version
                != 4 && version != 6,
            EcnError::InvalidHeader => s[0] / 16 == 4 && (s[0] % 16 < 5 || s[0] % 16 * 4 > s.len()),
            EcnError::InvalidLength => (s[0] / 16 == 4 && s[2] * 256 + s[3] != s.len()) || (s[0]
                / 16 == 6 && 40 + s[4] * 256 + s[5] != s.len()),
        },
{
}

} // verus!
