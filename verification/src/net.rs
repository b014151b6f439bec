//! IP and socket addresses as plain numbers.

use crate::bytes::{
    be_bytes, be_value, byte_span, law_bytes_are_digits, law_values_have_their_bytes_as_digits,
    lemma_be_bytes_len, lemma_be_value_four, lemma_bytes_of_value, lemma_value_of_bytes,
};
use vstd::arithmetic::power::pow;
use vstd::prelude::*;

verus! {

/// An IPv4 address; `bits` is its value as one big-endian number.
#[derive(Debug, Clone, Copy, PartialEq, Eq, Hash, Structural)]
pub struct Ipv4Addr {
    pub bits: u32,
}

/// An IPv6 address; `bits` is its value as one big-endian number.
#[derive(Debug, Clone, Copy, PartialEq, Eq, Hash, Structural)]
pub struct Ipv6Addr {
    pub bits: u128,
}

/// An IP address of either family.
#[derive(Debug, Clone, Copy, PartialEq, Eq, Hash, Structural)]
pub enum IpAddr {
    V4(Ipv4Addr),
    V6(Ipv6Addr),
}

/// An IPv4 socket address.
#[derive(Debug, Clone, Copy, PartialEq, Eq, Hash, Structural)]
pub struct SocketAddrV4 {
    pub ip: Ipv4Addr,
    pub port: u16,
}

/// An IPv6 socket address.
#[derive(Debug, Clone, Copy, PartialEq, Eq, Hash, Structural)]
pub struct SocketAddrV6 {
    pub ip: Ipv6Addr,
    pub port: u16,
    pub flowinfo: u32,
    pub scope_id: u32,
}

/// A socket address of either family.
#[derive(Debug, Clone, Copy, PartialEq, Eq, Hash, Structural)]
pub enum SocketAddr {
    V4(SocketAddrV4),
    V6(SocketAddrV6),
}

/// The four octets of an IPv4 address, in network order.
pub open spec fn ipv4_octets(addr: Ipv4Addr) -> Seq<u8> {
    be_bytes(addr.bits as nat, 4)
}

/// The sixteen octets of an IPv6 address, in network order.
pub open spec fn ipv6_octets(addr: Ipv6Addr) -> Seq<u8> {
    be_bytes(addr.bits as nat, 16)
}

/// The octets of an address of either family, in network order.
pub open spec fn ip_octets(addr: IpAddr) -> Seq<u8> {
    match addr {
        IpAddr::V4(a) => ipv4_octets(a),
        IpAddr::V6(a) => ipv6_octets(a),
    }
}

/// The IPv4 address that four octets stand for.
pub open spec fn ipv4_of(octets: Seq<u8>) -> Ipv4Addr {
    Ipv4Addr { bits: be_value(octets) as u32 }
}

/// The IPv6 address that sixteen octets stand for.
pub open spec fn ipv6_of(octets: Seq<u8>) -> Ipv6Addr {
    Ipv6Addr { bits: be_value(octets) as u128 }
}

/// The IPv4 address in the four bytes at `at`.
pub open spec fn ipv4_at(s: Seq<u8>, at: int) -> Ipv4Addr {
    ipv4_of(s.subrange(at, at + 4))
}

/// The IPv6 address in the sixteen bytes at `at`.
pub open spec fn ipv6_at(s: Seq<u8>, at: int) -> Ipv6Addr {
    ipv6_of(s.subrange(at, at + 16))
}

proof fn lemma_spans()
    ensures
        byte_span(4) == 0x1_0000_0000,
        byte_span(16) == 0x1_0000_0000_0000_0000_0000_0000_0000_0000,
{
    assert(byte_span(4) == 0x1_0000_0000) by {
        reveal_with_fuel(byte_span, 5);
    }
    assert(byte_span(16) == 0x1_0000_0000_0000_0000_0000_0000_0000_0000) by {
        reveal_with_fuel(byte_span, 17);
    }
}

/// An IPv4 address is read back from its octets.
pub proof fn lemma_ipv4_octets_read_back(addr: Ipv4Addr)
    ensures
        ipv4_octets(addr).len() == 4,
        ipv4_of(ipv4_octets(addr)) == addr,
{
    lemma_spans();
    lemma_value_of_bytes(addr.bits as nat, 4);
}

/// An IPv6 address is read back from its octets.
pub proof fn lemma_ipv6_octets_read_back(addr: Ipv6Addr)
    ensures
        ipv6_octets(addr).len() == 16,
        ipv6_of(ipv6_octets(addr)) == addr,
{
    lemma_spans();
    lemma_value_of_bytes(addr.bits as nat, 16);
}

/// The octets of the address that four octets stand for are those octets.
pub proof fn lemma_ipv4_of_octets(octets: Seq<u8>)
    requires
        octets.len() == 4,
    ensures
        ipv4_octets(ipv4_of(octets)) == octets,
        be_value(octets) <= u32::MAX,
{
    lemma_spans();
    lemma_bytes_of_value(octets);
}

/// The octets of the address that sixteen octets stand for are those octets.
pub proof fn lemma_ipv6_of_octets(octets: Seq<u8>)
    requires
        octets.len() == 16,
    ensures
        ipv6_octets(ipv6_of(octets)) == octets,
        be_value(octets) <= u128::MAX,
{
    lemma_spans();
    lemma_bytes_of_value(octets);
}

/// Reads the IPv4 address at `offset`.
pub fn read_ipv4(input: &[u8], offset: usize) -> (addr: Ipv4Addr)
    requires
        offset + 4 <= input@.len(),
    ensures
        addr == ipv4_at(input@, offset as int),
{
    let bits: u32 = crate::bytes::read_u32_at(input, offset);
    proof {
        lemma_be_value_four(input@.subrange(offset as int, offset + 4));
    }
    Ipv4Addr { bits }
}

/// Reads the IPv6 address at `offset`.
pub fn read_ipv6(input: &[u8], offset: usize) -> (addr: Ipv6Addr)
    requires
        offset + 16 <= input@.len(),
    ensures
        addr == ipv6_at(input@, offset as int),
{
    let ghost whole = input@.subrange(offset as int, offset + 16);
    let length: usize = input.len();
    let mut bits: u128 = 0;
    let mut i: usize = 0;
    proof {
        assert(whole.take(0) =~= Seq::empty());
    }
    while i < 16
        invariant
            i <= 16,
            length == input@.len(),
            offset + 16 <= length,
            whole == input@.subrange(offset as int, offset + 16),
            bits == be_value(whole.take(i as int)),
        decreases 16 - i,
    {
        proof {
            lemma_take_value_bound(whole, i + 1);
            assert(whole.take(i + 1).drop_last() =~= whole.take(i as int));
        }
        bits = bits * 256 + input[offset + i] as u128;
        i += 1;
    }
    proof {
        assert(whole.take(16) =~= whole);
    }
    Ipv6Addr { bits }
}

proof fn lemma_span_monotonic(m: nat, n: nat)
    requires
        m <= n,
    ensures
        byte_span(m) <= byte_span(n),
    decreases n,
{
    if m < n {
        lemma_span_monotonic(m, (n - 1) as nat);
    }
}

proof fn lemma_take_value_bound(s: Seq<u8>, n: int)
    requires
        s.len() == 16,
        0 <= n <= 16,
    ensures
        be_value(s.take(n)) <= u128::MAX,
{
    lemma_bytes_of_value(s.take(n));
    lemma_span_monotonic(n as nat, 16);
    lemma_spans();
}

/// Appends the octets of an IPv4 address.
pub fn append_ipv4(out: &mut Vec<u8>, addr: Ipv4Addr)
    ensures
        final(out)@ == old(out)@ + ipv4_octets(addr),
{
    crate::bytes::append_u32(out, addr.bits);
    proof {
        let word = crate::bytes::u32_bytes(addr.bits);
        crate::bytes::lemma_u32_bytes_read_back(addr.bits);
        lemma_be_value_four(word);
        lemma_bytes_of_value(word);
    }
}

/// Appends the octets of an IPv6 address.
pub fn append_ipv6(out: &mut Vec<u8>, addr: Ipv6Addr)
    ensures
        final(out)@ == old(out)@ + ipv6_octets(addr),
{
    let octets = addr.octets();
    crate::bytes::append_bytes(out, octets.as_slice());
}

/// Appends the octets of an address of either family.
pub fn append_ip(out: &mut Vec<u8>, addr: IpAddr)
    ensures
        final(out)@ == old(out)@ + ip_octets(addr),
{
    match addr {
        IpAddr::V4(a) => append_ipv4(out, a),
        IpAddr::V6(a) => append_ipv6(out, a),
    }
}

/// The last `n` of the bytes of `v` are the bytes of `v` in that width.
proof fn lemma_be_bytes_index(v: nat, n: nat, k: nat)
    requires
        k < n,
    ensures
        be_bytes(v, n).len() == n,
        be_bytes(v, n)[n - 1 - k] == (v / byte_span(k)) % 256,
    decreases n,
{
    lemma_be_bytes_len(v, n);
    lemma_be_bytes_len(v / 256, (n - 1) as nat);
    if k == 0 {
        assert(v / 1 == v);
    } else {
        lemma_be_bytes_index(v / 256, (n - 1) as nat, (k - 1) as nat);
        let p = byte_span((k - 1) as nat);
        lemma_span_monotonic(0, (k - 1) as nat);
        vstd::arithmetic::div_mod::lemma_div_denominator(v as int, 256, p as int);
        assert(256 * p == byte_span(k));
    }
}

impl Ipv4Addr {
    /// The address `a.b.c.d`.
    pub fn new(a: u8, b: u8, c: u8, d: u8) -> (addr: Self)
        ensures
            ipv4_octets(addr) == seq![a, b, c, d],
            addr.bits == a * 16777216 + b * 65536 + c * 256 + d,
    {
        proof {
            let s = seq![a, b, c, d];
            lemma_be_value_four(s);
            lemma_ipv4_of_octets(s);
        }
        Ipv4Addr { bits: a as u32 * 16777216 + b as u32 * 65536 + c as u32 * 256 + d as u32 }
    }

    /// The octets in network order.
    pub fn octets(self) -> (octets: [u8; 4])
        ensures
            octets@ == ipv4_octets(self),
    {
        let octets: [u8; 4] = [
            (self.bits / 16777216) as u8,
            ((self.bits / 65536) % 256) as u8,
            ((self.bits / 256) % 256) as u8,
            (self.bits % 256) as u8,
        ];
        proof {
            let word = crate::bytes::u32_bytes(self.bits);
            crate::bytes::lemma_u32_bytes_read_back(self.bits);
            lemma_be_value_four(word);
            lemma_bytes_of_value(word);
            assert(octets@ =~= word);
        }
        octets
    }

    /// The address with every bit zero.
    pub fn unspecified() -> (addr: Self)
        ensures
            addr.bits == 0,
    {
        Ipv4Addr { bits: 0 }
    }

    pub open spec fn unspecified_spec(self) -> bool {
        self.bits == 0
    }

    pub open spec fn broadcast_spec(self) -> bool {
        self.bits == 0xffff_ffff
    }

    /// Multicast is `224.0.0.0/4`.
    pub open spec fn multicast_spec(self) -> bool {
        0xe000_0000 <= self.bits < 0xf000_0000
    }

    /// Loopback is `127.0.0.0/8`.
    pub open spec fn loopback_spec(self) -> bool {
        0x7f00_0000 <= self.bits < 0x8000_0000
    }

    pub fn is_unspecified(self) -> (b: bool)
        ensures
            b == self.unspecified_spec(),
    {
        self.bits == 0
    }

    pub fn is_broadcast(self) -> (b: bool)
        ensures
            b == self.broadcast_spec(),
    {
        self.bits == 0xffff_ffff
    }

    pub fn is_multicast(self) -> (b: bool)
        ensures
            b == self.multicast_spec(),
    {
        0xe000_0000 <= self.bits && self.bits < 0xf000_0000
    }

    pub fn is_loopback(self) -> (b: bool)
        ensures
            b == self.loopback_spec(),
    {
        0x7f00_0000 <= self.bits && self.bits < 0x8000_0000
    }
}

impl Ipv6Addr {
    /// The address with the given eight 16-bit groups.
    pub fn new(a: u16, b: u16, c: u16, d: u16, e: u16, f: u16, g: u16, h: u16) -> (addr: Self)
        ensures
            addr.bits == a * 0x1_0000_0000_0000_0000_0000_0000_0000 + b
                * 0x1_0000_0000_0000_0000_0000_0000 + c * 0x1_0000_0000_0000_0000_0000 + d
                * 0x1_0000_0000_0000_0000 + e * 0x1_0000_0000_0000 + f * 0x1_0000_0000 + g * 0x1_0000
                + h,
    {
        Ipv6Addr {
            bits: a as u128 * 0x1_0000_0000_0000_0000_0000_0000_0000 + b as u128
                * 0x1_0000_0000_0000_0000_0000_0000 + c as u128 * 0x1_0000_0000_0000_0000_0000
                + d as u128 * 0x1_0000_0000_0000_0000 + e as u128 * 0x1_0000_0000_0000 + f as u128
                * 0x1_0000_0000 + g as u128 * 0x1_0000 + h as u128,
        }
    }

    /// The address that sixteen octets in network order stand for.
    pub fn from_octets(octets: [u8; 16]) -> (addr: Self)
        ensures
            addr == ipv6_of(octets@),
            ipv6_octets(addr) == octets@,
    {
        proof {
            lemma_ipv6_of_octets(octets@);
            assert(octets@.subrange(0, 16) =~= octets@);
        }
        read_ipv6(octets.as_slice(), 0)
    }

    /// The octets in network order.
    pub fn octets(self) -> (octets: [u8; 16])
        ensures
            octets@ == ipv6_octets(self),
    {
        let mut octets: [u8; 16] = [0u8; 16];
        let mut rest: u128 = self.bits;
        let mut i: usize = 16;
        proof {
            lemma_be_bytes_len(self.bits as nat, 16);
            assert(byte_span(0) == 1);
            assert(self.bits as nat / 1nat == self.bits);
        }
        while i > 0
            invariant
                i <= 16,
                octets@.len() == 16,
                rest == self.bits as nat / byte_span((16 - i) as nat),
                ipv6_octets(self).len() == 16,
                forall|j: int| i <= j < 16 ==> octets@[j] == ipv6_octets(self)[j],
            decreases i,
        {
            i -= 1;
            proof {
                let k = (15 - i) as nat;
                lemma_be_bytes_index(self.bits as nat, 16, k);
                lemma_span_monotonic(0, k);
                vstd::arithmetic::div_mod::lemma_div_denominator(
                    self.bits as int,
                    byte_span(k) as int,
                    256,
                );
                assert(byte_span((16 - i) as nat) == byte_span(k) * 256);
            }
            octets[i] = (rest % 256) as u8;
            rest = rest / 256;
        }
        proof {
            assert(octets@ =~= ipv6_octets(self));
        }
        octets
    }

    /// The address with every bit zero.
    pub fn unspecified() -> (addr: Self)
        ensures
            addr.bits == 0,
    {
        Ipv6Addr { bits: 0 }
    }

    /// The first 16-bit group.
    pub open spec fn first_segment_spec(self) -> int {
        self.bits as int / 0x1_0000_0000_0000_0000_0000_0000_0000
    }

    pub open spec fn unspecified_spec(self) -> bool {
        self.bits == 0
    }

    /// Multicast is `ff00::/8`.
    pub open spec fn multicast_spec(self) -> bool {
        self.first_segment_spec() >= 0xff00
    }

    /// Link-local unicast is `fe80::/10`.
    pub open spec fn unicast_link_local_spec(self) -> bool {
        0xfe80 <= self.first_segment_spec() < 0xfec0
    }

    pub open spec fn loopback_spec(self) -> bool {
        self.bits == 1
    }

    pub fn first_segment(self) -> (segment: u16)
        ensures
            segment == self.first_segment_spec(),
    {
        (self.bits / 0x1_0000_0000_0000_0000_0000_0000_0000) as u16
    }

    pub fn is_unspecified(self) -> (b: bool)
        ensures
            b == self.unspecified_spec(),
    {
        self.bits == 0
    }

    pub fn is_multicast(self) -> (b: bool)
        ensures
            b == self.multicast_spec(),
    {
        self.first_segment() >= 0xff00
    }

    pub fn is_unicast_link_local(self) -> (b: bool)
        ensures
            b == self.unicast_link_local_spec(),
    {
        let segment: u16 = self.first_segment();
        0xfe80 <= segment && segment < 0xfec0
    }

    pub fn is_loopback(self) -> (b: bool)
        ensures
            b == self.loopback_spec(),
    {
        self.bits == 1
    }
}

impl IpAddr {
    pub open spec fn unspecified_spec(self) -> bool {
        match self {
            IpAddr::V4(a) => a.unspecified_spec(),
            IpAddr::V6(a) => a.unspecified_spec(),
        }
    }

    pub open spec fn multicast_spec(self) -> bool {
        match self {
            IpAddr::V4(a) => a.multicast_spec(),
            IpAddr::V6(a) => a.multicast_spec(),
        }
    }

    pub open spec fn loopback_spec(self) -> bool {
        match self {
            IpAddr::V4(a) => a.loopback_spec(),
            IpAddr::V6(a) => a.loopback_spec(),
        }
    }

    /// Whether the address can name one sender: neither unspecified nor
    /// multicast nor the IPv4 broadcast address.
    pub open spec fn unicast_spec(self) -> bool {
        match self {
            IpAddr::V4(a) => !a.unspecified_spec() && !a.multicast_spec() && !a.broadcast_spec(),
            IpAddr::V6(a) => !a.unspecified_spec() && !a.multicast_spec(),
        }
    }

    pub fn is_unspecified(self) -> (b: bool)
        ensures
            b == self.unspecified_spec(),
    {
        match self {
            IpAddr::V4(a) => a.is_unspecified(),
            IpAddr::V6(a) => a.is_unspecified(),
        }
    }

    pub fn is_multicast(self) -> (b: bool)
        ensures
            b == self.multicast_spec(),
    {
        match self {
            IpAddr::V4(a) => a.is_multicast(),
            IpAddr::V6(a) => a.is_multicast(),
        }
    }

    pub fn is_loopback(self) -> (b: bool)
        ensures
            b == self.loopback_spec(),
    {
        match self {
            IpAddr::V4(a) => a.is_loopback(),
            IpAddr::V6(a) => a.is_loopback(),
        }
    }

    /// Whether the address can name one sender.
    pub fn is_unicast(self) -> (b: bool)
        ensures
            b == self.unicast_spec(),
    {
        match self {
            IpAddr::V4(a) => !a.is_unspecified() && !a.is_multicast() && !a.is_broadcast(),
            IpAddr::V6(a) => !a.is_unspecified() && !a.is_multicast(),
        }
    }

    pub fn is_ipv4(self) -> (b: bool)
        ensures
            b == (self is V4),
    {
        matches!(self, IpAddr::V4(_))
    }

    pub fn is_ipv6(self) -> (b: bool)
        ensures
            b == (self is V6),
    {
        matches!(self, IpAddr::V6(_))
    }
}

/// Whether two addresses are of one family.
pub open spec fn same_family_spec(left: IpAddr, right: IpAddr) -> bool {
    (left is V4) == (right is V4)
}

/// Whether two addresses are of one family.
pub fn same_family(left: IpAddr, right: IpAddr) -> (b: bool)
    ensures
        b == same_family_spec(left, right),
{
    left.is_ipv4() == right.is_ipv4()
}

impl SocketAddr {
    /// The socket address with the given IP address and port.
    pub open spec fn of(ip: IpAddr, port: u16) -> Self {
        match ip {
            IpAddr::V4(a) => SocketAddr::V4(SocketAddrV4 { ip: a, port }),
            IpAddr::V6(a) => SocketAddr::V6(
                SocketAddrV6 { ip: a, port, flowinfo: 0, scope_id: 0 },
            ),
        }
    }

    pub open spec fn ip_spec(self) -> IpAddr {
        match self {
            SocketAddr::V4(a) => IpAddr::V4(a.ip),
            SocketAddr::V6(a) => IpAddr::V6(a.ip),
        }
    }

    pub open spec fn port_spec(self) -> u16 {
        match self {
            SocketAddr::V4(a) => a.port,
            SocketAddr::V6(a) => a.port,
        }
    }

    pub fn new(ip: IpAddr, port: u16) -> (addr: Self)
        ensures
            addr == Self::of(ip, port),
    {
        match ip {
            IpAddr::V4(a) => SocketAddr::V4(SocketAddrV4 { ip: a, port }),
            IpAddr::V6(a) => SocketAddr::V6(
                SocketAddrV6 { ip: a, port, flowinfo: 0, scope_id: 0 },
            ),
        }
    }

    pub fn ip(self) -> (ip: IpAddr)
        ensures
            ip == self.ip_spec(),
    {
        match self {
            SocketAddr::V4(a) => IpAddr::V4(a.ip),
            SocketAddr::V6(a) => IpAddr::V6(a.ip),
        }
    }

    pub fn port(self) -> (port: u16)
        ensures
            port == self.port_spec(),
    {
        match self {
            SocketAddr::V4(a) => a.port,
            SocketAddr::V6(a) => a.port,
        }
    }

    pub fn is_ipv4(self) -> (b: bool)
        ensures
            b == (self is V4),
    {
        matches!(self, SocketAddr::V4(_))
    }

    pub fn is_ipv6(self) -> (b: bool)
        ensures
            b == (self is V6),
    {
        matches!(self, SocketAddr::V6(_))
    }
}

/// A text and the addresses that it stands for.
#[derive(Debug, PartialEq, Eq)]
pub struct AddressText {
    pub text: String,
    /// The address, where the text is an IP address.
    pub ip: Option<IpAddr>,
    /// The address and port, where the text is a socket address.
    pub socket: Option<SocketAddr>,
}

/// The octets of an address are its bits from the highest to the lowest, eight
/// at a time.
pub proof fn law_octets_spell_the_address(addr: IpAddr)
    ensures
        match addr {
            IpAddr::V4(a) => {
                let octets = ip_octets(addr);
                &&& octets.len() == 4
                &&& a.bits == octets[0] * 0x100_0000 + octets[1] * 0x1_0000 + octets[2] * 0x100
                    + octets[3]
            },
            IpAddr::V6(a) => {
                &&& ip_octets(addr).len() == 16
                &&& forall|i: int|
                    0 <= i < 16 ==> #[trigger] ip_octets(addr)[i] as int == (a.bits as int / pow(
                        256,
                        (15 - i) as nat,
                    )) % 256
            },
        },
{
    match addr {
        IpAddr::V4(a) => {
            lemma_ipv4_octets_read_back(a);
            lemma_be_value_four(ipv4_octets(a));
            lemma_ipv4_of_octets(ipv4_octets(a));
        },
        IpAddr::V6(a) => {
            lemma_ipv6_octets_read_back(a);
            assert forall|i: int| 0 <= i < 16 implies #[trigger] ip_octets(addr)[i] as int == (
            a.bits as int / pow(256, (15 - i) as nat)) % 256 by {
                law_bytes_are_digits(a.bits as nat, 16, i);
            }
        },
    }
}

/// An address is read from its octets with the highest bits first.
pub proof fn law_addresses_are_read_in_network_order(s: Seq<u8>, at: int)
    requires
        0 <= at,
    ensures
        at + 4 <= s.len() ==> ipv4_at(s, at).bits == s[at] * 0x100_0000 + s[at + 1] * 0x1_0000
            + s[at + 2] * 0x100 + s[at + 3],
        at + 16 <= s.len() ==> forall|i: int|
            at <= i < at + 16 ==> (ipv6_at(s, at).bits as int / pow(256, (15 - (i - at)) as nat))
                % 256 == #[trigger] s[i],
{
    if at + 4 <= s.len() {
        lemma_be_value_four(s.subrange(at, at + 4));
        lemma_ipv4_of_octets(s.subrange(at, at + 4));
    }
    if at + 16 <= s.len() {
        let octets = s.subrange(at, at + 16);
        lemma_ipv6_of_octets(octets);
        assert forall|i: int| at <= i < at + 16 implies (ipv6_at(s, at).bits as int / pow(
            256,
            (15 - (i - at)) as nat,
        )) % 256 == #[trigger] s[i] by {
            law_values_have_their_bytes_as_digits(octets, i - at);
            assert(octets[i - at] == s[i]);
        }
    }
}

/// Which addresses belong to a group, by their first bits: of IPv4 those that
/// begin with 1110, of IPv6 those that begin with eight ones.
pub proof fn law_groups_are_known_by_their_first_octet(addr: IpAddr)
    ensures
        match addr {
            IpAddr::V4(a) => addr.multicast_spec() <==> a.bits / 0x1000_0000 == 14,
            IpAddr::V6(a) => addr.multicast_spec() <==> a.bits as int
                / 0x100_0000_0000_0000_0000_0000_0000_0000 == 0xff,
        },
        addr.unicast_spec() ==> !addr.multicast_spec(),
        addr.unicast_spec() <==> match addr {
            IpAddr::V4(a) => a.bits != 0 && a.bits / 0x1000_0000 != 14 && a.bits != 0xffff_ffff,
            IpAddr::V6(a) => a.bits != 0 && a.bits as int
                / 0x100_0000_0000_0000_0000_0000_0000_0000 != 0xff,
        },
{
}

/// A socket address is its IP address and its port.
pub proof fn law_socket_addresses_keep_their_parts(ip: IpAddr, port: u16)
    ensures
        SocketAddr::of(ip, port).ip_spec() == ip,
        SocketAddr::of(ip, port).port_spec() == port,
{
}

/// Whether the bytes from `at` on are an address: its bits from the highest to
/// the lowest, eight in each.
pub open spec fn spells(s: Seq<u8>, at: int, addr: IpAddr) -> bool {
    match addr {
        IpAddr::V4(a) => a.bits == s[at] * 0x100_0000 + s[at + 1] * 0x1_0000 + s[at + 2] * 0x100
            + s[at + 3],
        IpAddr::V6(a) => forall|i: int|
            at <= i < at + 16 ==> (a.bits as int / pow(256, (15 - (i - at)) as nat)) % 256
                == #[trigger] s[i],
    }
}

/// Addresses are read where their bytes stand, and their octets are those bytes.
pub proof fn law_addresses_are_spelled_by_their_octets(s: Seq<u8>, at: int, addr: IpAddr)
    requires
        0 <= at,
    ensures
        at + 4 <= s.len() ==> spells(s, at, IpAddr::V4(ipv4_at(s, at))),
        at + 16 <= s.len() ==> spells(s, at, IpAddr::V6(ipv6_at(s, at))),
        spells(ip_octets(addr), 0, addr),
{
    law_addresses_are_read_in_network_order(s, at);
    law_octets_spell_the_address(addr);
}

/// The first octet of an IPv6 address is its highest eight bits.
pub proof fn law_first_octets_are_the_highest(s: Seq<u8>, at: int)
    requires
        0 <= at,
        at + 16 <= s.len(),
    ensures
        ipv6_at(s, at).bits as int / 0x100_0000_0000_0000_0000_0000_0000_0000 == s[at],
{
    law_addresses_are_read_in_network_order(s, at);
    let top = ipv6_at(s, at).bits as int / pow(256, 15);
    assert(pow(256, 15) == 0x100_0000_0000_0000_0000_0000_0000_0000) by {
        reveal_with_fuel(pow, 16);
    }
    assert(0 <= top < 256);
    assert(top % 256 == s[at]) by {
        assert((15 - (at - at)) as nat == 15);
    }
}

/// Bytes spell one IPv6 address.
pub proof fn law_spelling_is_unique(s: Seq<u8>, at: int, left: Ipv6Addr, right: Ipv6Addr)
    requires
        0 <= at,
        at + 16 <= s.len(),
        spells(s, at, IpAddr::V6(left)),
    ensures
        spells(s, at, IpAddr::V6(right)) <==> left == right,
{
    if spells(s, at, IpAddr::V6(right)) {
        let a = ipv6_octets(left);
        let b = ipv6_octets(right);
        lemma_ipv6_octets_read_back(left);
        lemma_ipv6_octets_read_back(right);
        law_octets_spell_the_address(IpAddr::V6(left));
        law_octets_spell_the_address(IpAddr::V6(right));
        assert forall|i: int| 0 <= i < 16 implies #[trigger] a[i] == b[i] by {
            assert(ip_octets(IpAddr::V6(left))[i] == a[i]);
            assert(ip_octets(IpAddr::V6(right))[i] == b[i]);
            assert(s[at + i] == a[i]);
            assert(s[at + i] == b[i]);
        }
        assert(a =~= b);
    }
}

/// Bytes that spell an address are its octets.
pub proof fn law_octets_are_the_bytes_spelled(s: Seq<u8>, at: int, addr: IpAddr)
    requires
        0 <= at,
        at + ip_octets(addr).len() <= s.len(),
        spells(s, at, addr),
    ensures
        s.subrange(at, at + ip_octets(addr).len()) == ip_octets(addr),
{
    law_octets_spell_the_address(addr);
    match addr {
        IpAddr::V4(a) => {
            let part = s.subrange(at, at + 4);
            lemma_be_value_four(part);
            lemma_ipv4_of_octets(part);
            assert(ipv4_of(part) == a);
        },
        IpAddr::V6(a) => {
            let octets = ip_octets(addr);
            let part = s.subrange(at, at + 16);
            assert forall|i: int| 0 <= i < 16 implies #[trigger] part[i] == octets[i] by {
                assert(s[at + i] == part[i]);
                assert((15 - (at + i - at)) as nat == (15 - i) as nat);
            }
            assert(part =~= octets);
        },
    }
}

} // verus!
