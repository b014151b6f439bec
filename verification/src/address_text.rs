//! Addresses and numbers as text.

use crate::driad::lemma_bytes_of_a_word;
use crate::net::{
    ipv4_octets, ipv6_octets, law_octets_spell_the_address, lemma_ipv4_octets_read_back,
    lemma_ipv6_octets_read_back, IpAddr, Ipv4Addr, Ipv6Addr, SocketAddr,
};
use crate::text::{
    append_decimal, decimal, hex_digit, hex_of, lemma_ascii_is_utf8, lemma_decimal_is_ascii, text_of,
};
use vstd::arithmetic::power::pow;
use vstd::prelude::*;
use vstd::utf8::decode_utf8;

verus! {

/// Whether all bytes are ASCII.
pub open spec fn ascii(s: Seq<u8>) -> bool {
    forall|i: int| 0 <= i < s.len() ==> #[trigger] s[i] < 128
}

/// The text of ASCII bytes.
fn ascii_text(bytes: Vec<u8>) -> (text: String)
    requires
        ascii(bytes@),
    ensures
        text@ == decode_utf8(bytes@),
{
    proof {
        lemma_ascii_is_utf8(bytes@);
    }
    let text = text_of(bytes);
    proof {
        vstd::utf8::encode_utf8_decode_utf8(text@);
    }
    text
}

/// A number in hexadecimal, in lower case and without leading zeros.
pub open spec fn hexadecimal(n: nat) -> Seq<u8>
    decreases n,
{
    if n < 16 {
        seq![hex_digit(n as int)]
    } else {
        hexadecimal(n / 16).push(hex_digit((n % 16) as int))
    }
}

fn append_hexadecimal(out: &mut Vec<u8>, n: u32)
    requires
        ascii(old(out)@),
    ensures
        ascii(final(out)@),
        final(out)@ == old(out)@ + hexadecimal(n as nat),
    decreases n,
{
    if n < 16 {
        out.push(hex_of(n as u8));
    } else {
        append_hexadecimal(out, n / 16);
        out.push(hex_of((n % 16) as u8));
    }
    proof {
        assert(out@ =~= old(out)@ + hexadecimal(n as nat));
    }
}

fn append_number(out: &mut Vec<u8>, n: u64)
    requires
        ascii(old(out)@),
    ensures
        ascii(final(out)@),
        final(out)@ == old(out)@ + decimal(n as nat),
{
    append_decimal(out, n);
    proof {
        lemma_decimal_is_ascii(n as nat);
    }
}

fn append_byte(out: &mut Vec<u8>, byte: u8)
    requires
        ascii(old(out)@),
        byte < 128,
    ensures
        ascii(final(out)@),
        final(out)@ == old(out)@ + seq![byte],
{
    out.push(byte);
    proof {
        assert(out@ =~= old(out)@ + seq![byte]);
    }
}

/// The bytes of `.`.
pub open spec fn dot() -> Seq<u8> {
    seq![46u8]
}

/// The bytes of `:`.
pub open spec fn colon() -> Seq<u8> {
    seq![58u8]
}

/// Four octets in decimal, with dots between them.
pub open spec fn ipv4_written(address: Ipv4Addr) -> Seq<u8> {
    let octets = ipv4_octets(address);
    decimal(octets[0] as nat) + dot() + decimal(octets[1] as nat) + dot() + decimal(
        octets[2] as nat,
    ) + dot() + decimal(octets[3] as nat)
}

fn append_ipv4_text(out: &mut Vec<u8>, address: Ipv4Addr)
    requires
        ascii(old(out)@),
    ensures
        ascii(final(out)@),
        final(out)@ == old(out)@ + ipv4_written(address),
{
    proof {
        lemma_ipv4_octets_read_back(address);
    }
    let octets: [u8; 4] = address.octets();
    append_number(out, octets[0] as u64);
    append_byte(out, 46);
    append_number(out, octets[1] as u64);
    append_byte(out, 46);
    append_number(out, octets[2] as u64);
    append_byte(out, 46);
    append_number(out, octets[3] as u64);
    proof {
        assert(out@ =~= old(out)@ + ipv4_written(address));
    }
}

/// The eight parts of an IPv6 address.
pub open spec fn segments_of(address: Ipv6Addr) -> Seq<u16> {
    Seq::new(
        8,
        |i: int|
            (ipv6_octets(address)[2 * i] * 256 + ipv6_octets(address)[2 * i + 1]) as u16,
    )
}

fn segments(address: Ipv6Addr) -> (parts: Vec<u16>)
    ensures
        parts@ == segments_of(address),
{
    proof {
        lemma_ipv6_octets_read_back(address);
    }
    let octets: [u8; 16] = address.octets();
    let mut parts: Vec<u16> = Vec::new();
    let mut i: usize = 0;
    while i < 8
        invariant
            i <= 8,
            octets@ == ipv6_octets(address),
            octets@.len() == 16,
            parts@.len() == i,
            forall|k: int| 0 <= k < i ==> #[trigger] parts@[k] == segments_of(address)[k],
        decreases 8 - i,
    {
        parts.push(octets[2 * i] as u16 * 256 + octets[2 * i + 1] as u16);
        i += 1;
    }
    proof {
        assert(parts@ =~= segments_of(address));
    }
    parts
}

/// How many zeros run from a place on.
pub open spec fn zeros_from(parts: Seq<u16>, place: int) -> nat
    decreases parts.len() - place,
{
    if 0 <= place < parts.len() && parts[place] == 0 {
        1 + zeros_from(parts, place + 1)
    } else {
        0
    }
}

fn count_zeros(parts: &Vec<u16>, place: usize) -> (n: usize)
    requires
        place <= parts@.len(),
    ensures
        n == zeros_from(parts@, place as int),
        place + n <= parts@.len(),
    decreases parts@.len() - place,
{
    if place < parts.len() && parts[place] == 0 {
        1 + count_zeros(parts, place + 1)
    } else {
        0
    }
}

/// The first of the places up to `last` from which most zeros run.
pub open spec fn widest_gap(parts: Seq<u16>, last: nat) -> int
    decreases last,
{
    if last == 0 {
        0
    } else {
        let before = widest_gap(parts, (last - 1) as nat);
        if zeros_from(parts, last as int) > zeros_from(parts, before) {
            last as int
        } else {
            before
        }
    }
}

fn find_gap(parts: &Vec<u16>) -> (place: usize)
    requires
        parts@.len() == 8,
    ensures
        place == widest_gap(parts@, 7),
        place <= 7,
{
    let mut place: usize = 0;
    let mut i: usize = 0;
    while i < 7
        invariant
            i <= 7,
            parts@.len() == 8,
            place <= i,
            place == widest_gap(parts@, i as nat),
        decreases 7 - i,
    {
        i += 1;
        if count_zeros(parts, i) > count_zeros(parts, place) {
            place = i;
        }
    }
    place
}

/// Parts in hexadecimal, with colons between them.
pub open spec fn parts_written(parts: Seq<u16>) -> Seq<u8>
    decreases parts.len(),
{
    if parts.len() == 0 {
        Seq::empty()
    } else if parts.len() == 1 {
        hexadecimal(parts[0] as nat)
    } else {
        parts_written(parts.drop_last()) + colon() + hexadecimal(parts.last() as nat)
    }
}

fn append_parts(out: &mut Vec<u8>, parts: &Vec<u16>, from: usize, to: usize)
    requires
        ascii(old(out)@),
        from <= to <= parts@.len(),
    ensures
        ascii(final(out)@),
        final(out)@ == old(out)@ + parts_written(parts@.subrange(from as int, to as int)),
{
    let mut i: usize = from;
    proof {
        assert(out@ =~= old(out)@ + parts_written(parts@.subrange(from as int, from as int)));
    }
    while i < to
        invariant
            from <= i <= to <= parts@.len(),
            ascii(out@),
            out@ == old(out)@ + parts_written(parts@.subrange(from as int, i as int)),
        decreases to - i,
    {
        let ghost before = parts@.subrange(from as int, i as int);
        let ghost after = parts@.subrange(from as int, i + 1);
        if i > from {
            append_byte(out, 58);
        }
        append_hexadecimal(out, parts[i] as u32);
        proof {
            assert(after.drop_last() =~= before);
            assert(after.last() == parts@[i as int]);
            assert(out@ =~= old(out)@ + parts_written(after));
        }
        i += 1;
    }
}

/// The shortest way to write an IPv6 address: the widest run of zeros, the
/// first one of several, is left out, and an address that stands for an IPv4
/// address ends in that address.
pub open spec fn ipv6_written(address: Ipv6Addr) -> Seq<u8> {
    let parts = segments_of(address);
    let place = widest_gap(parts, 7);
    let zeros = zeros_from(parts, place);
    if address.bits / 0x1_0000_0000 == 0xffff {
        colon() + colon() + seq![102u8, 102u8, 102u8, 102u8] + colon() + ipv4_written(
            Ipv4Addr { bits: (address.bits % 0x1_0000_0000) as u32 },
        )
    } else if zeros > 1 {
        parts_written(parts.subrange(0, place)) + colon() + colon() + parts_written(
            parts.subrange(place + zeros, 8),
        )
    } else {
        parts_written(parts)
    }
}

fn append_ipv6_text(out: &mut Vec<u8>, address: Ipv6Addr)
    requires
        ascii(old(out)@),
    ensures
        ascii(final(out)@),
        final(out)@ == old(out)@ + ipv6_written(address),
{
    if address.bits / 0x1_0000_0000 == 0xffff {
        append_byte(out, 58);
        append_byte(out, 58);
        append_byte(out, 102);
        append_byte(out, 102);
        append_byte(out, 102);
        append_byte(out, 102);
        append_byte(out, 58);
        append_ipv4_text(out, Ipv4Addr { bits: (address.bits % 0x1_0000_0000) as u32 });
    } else {
        let parts = segments(address);
        let place: usize = find_gap(&parts);
        let zeros: usize = count_zeros(&parts, place);
        if zeros > 1 {
            append_parts(out, &parts, 0, place);
            append_byte(out, 58);
            append_byte(out, 58);
            append_parts(out, &parts, place + zeros, 8);
        } else {
            append_parts(out, &parts, 0, 8);
            proof {
                assert(parts@.subrange(0, 8) =~= parts@);
            }
        }
    }
    proof {
        assert(out@ =~= old(out)@ + ipv6_written(address));
    }
}

/// An address as it is written.
pub open spec fn ip_written(address: IpAddr) -> Seq<u8> {
    match address {
        IpAddr::V4(address) => ipv4_written(address),
        IpAddr::V6(address) => ipv6_written(address),
    }
}

/// An address as it is written, as text.
pub open spec fn ip_words(address: IpAddr) -> Seq<char> {
    decode_utf8(ip_written(address))
}

/// A socket address as it is written: an IPv6 address stands in brackets,
/// together with its scope where it has one.
pub open spec fn socket_written(address: SocketAddr) -> Seq<u8> {
    match address {
        SocketAddr::V4(address) => ipv4_written(address.ip) + colon() + decimal(
            address.port as nat,
        ),
        SocketAddr::V6(address) => seq![91u8] + ipv6_written(address.ip) + (if address.scope_id
            == 0 {
            Seq::empty()
        } else {
            seq![37u8] + decimal(address.scope_id as nat)
        }) + seq![93u8] + colon() + decimal(address.port as nat),
    }
}

/// A socket address as it is written, as text.
pub open spec fn socket_words(address: SocketAddr) -> Seq<char> {
    decode_utf8(socket_written(address))
}

impl IpAddr {
    /// The address as it is written.
    pub fn text(self) -> (text: String)
        ensures
            text@ == ip_words(self),
    {
        let mut out: Vec<u8> = Vec::new();
        match self {
            IpAddr::V4(address) => append_ipv4_text(&mut out, address),
            IpAddr::V6(address) => append_ipv6_text(&mut out, address),
        }
        proof {
            assert(out@ =~= ip_written(self));
        }
        ascii_text(out)
    }
}

impl SocketAddr {
    /// The address as it is written.
    pub fn text(self) -> (text: String)
        ensures
            text@ == socket_words(self),
    {
        let mut out: Vec<u8> = Vec::new();
        match self {
            SocketAddr::V4(address) => {
                append_ipv4_text(&mut out, address.ip);
                append_byte(&mut out, 58);
                append_number(&mut out, address.port as u64);
            },
            SocketAddr::V6(address) => {
                append_byte(&mut out, 91);
                append_ipv6_text(&mut out, address.ip);
                if address.scope_id != 0 {
                    append_byte(&mut out, 37);
                    append_number(&mut out, address.scope_id as u64);
                }
                append_byte(&mut out, 93);
                append_byte(&mut out, 58);
                append_number(&mut out, address.port as u64);
            },
        }
        proof {
            assert(out@ =~= socket_written(self));
        }
        ascii_text(out)
    }
}

/// A number in hexadecimal behind `0x`.
pub open spec fn prefixed_hex(n: nat) -> Seq<char> {
    decode_utf8(seq![48u8, 120u8] + hexadecimal(n))
}

/// A number in hexadecimal behind `0x`.
pub fn hex_text(n: u32) -> (text: String)
    ensures
        text@ == prefixed_hex(n as nat),
{
    let mut out: Vec<u8> = Vec::new();
    append_byte(&mut out, 48);
    append_byte(&mut out, 120);
    append_hexadecimal(&mut out, n);
    proof {
        assert(out@ =~= seq![48u8, 120u8] + hexadecimal(n as nat));
    }
    ascii_text(out)
}

/// The eight parts of an IPv6 address are its bits, sixteen at a time, from the
/// highest on.
pub proof fn law_parts_are_sixteen_bits(address: Ipv6Addr, i: int)
    requires
        0 <= i < 8,
    ensures
        segments_of(address).len() == 8,
        segments_of(address)[i] == (address.bits as int / pow(0x1_0000, (7 - i) as nat)) % 0x1_0000,
{
    let v = address.bits as int;
    let k = (7 - i) as nat;
    let p = pow(256, 2 * k);
    crate::bytes::law_bytes_are_digits(address.bits as nat, 16, 2 * i);
    crate::bytes::law_bytes_are_digits(address.bits as nat, 16, 2 * i + 1);
    assert((16 - 1 - (2 * i + 1)) as nat == 2 * k);
    assert((16 - 1 - 2 * i) as nat == 2 * k + 1);
    assert(pow(256, 2) == 0x1_0000) by {
        reveal_with_fuel(pow, 3);
    }
    vstd::arithmetic::power::lemma_pow_multiplies(256, 2, k);
    vstd::arithmetic::power::lemma_pow_positive(256, 2 * k);
    vstd::arithmetic::power::lemma_pow_adds(256, 2 * k, 1);
    vstd::arithmetic::power::lemma_pow1(256);
    lemma_two_digits(v, p);
}

proof fn lemma_two_digits(v: int, p: int)
    requires
        0 <= v,
        0 < p,
    ensures
        (v / (p * 256)) % 256 * 256 + (v / p) % 256 == (v / p) % 0x1_0000,
{
    vstd::arithmetic::div_mod::lemma_div_pos_is_pos(v, p);
    vstd::arithmetic::div_mod::lemma_div_denominator(v, p, 256);
    let w = v / p;
    assert((w / 256) % 256 * 256 + w % 256 == w % 0x1_0000);
}

/// A number in hexadecimal has its last digit last and the digits of its sixteenth
/// before it; below sixteen it is one digit.
pub proof fn law_hexadecimals_are_digits(n: nat)
    ensures
        hexadecimal(n).len() > 0,
        hexadecimal(n).last() == if n % 16 < 10 {
            48 + n % 16
        } else {
            87 + n % 16
        },
        n < 16 ==> hexadecimal(n).len() == 1,
        n >= 16 ==> hexadecimal(n).drop_last() == hexadecimal(n / 16),
{
    if n >= 16 {
        assert(hexadecimal(n).drop_last() =~= hexadecimal(n / 16));
    }
}

/// The run of zeros that is left out is the widest, and the first of those that
/// are as wide.
pub proof fn law_the_first_widest_run_is_left_out(parts: Seq<u16>, last: nat, place: int)
    requires
        0 <= place <= last,
    ensures
        0 <= widest_gap(parts, last) <= last,
        zeros_from(parts, place) <= zeros_from(parts, widest_gap(parts, last)),
        place < widest_gap(parts, last) ==> zeros_from(parts, place) < zeros_from(
            parts,
            widest_gap(parts, last),
        ),
    decreases last,
{
    if last > 0 {
        let before = widest_gap(parts, (last - 1) as nat);
        if place < last {
            law_the_first_widest_run_is_left_out(parts, (last - 1) as nat, place);
        } else {
            law_the_first_widest_run_is_left_out(parts, (last - 1) as nat, 0);
        }
    }
}

/// An IPv4 address is written as its four octets in decimal, the highest first,
/// with dots between them.
pub proof fn law_ipv4_addresses_are_written_in_octets(address: Ipv4Addr)
    ensures
        ip_written(IpAddr::V4(address)) == decimal((address.bits / 0x100_0000) as nat) + seq![46u8]
            + decimal((address.bits / 0x1_0000 % 256) as nat) + seq![46u8] + decimal(
            (address.bits / 0x100 % 256) as nat,
        ) + seq![46u8] + decimal((address.bits % 256) as nat),
{
    law_octets_spell_the_address(IpAddr::V4(address));
    let octets = ipv4_octets(address);
    lemma_bytes_of_a_word(
        address.bits as int,
        octets[0] as int,
        octets[1] as int,
        octets[2] as int,
        octets[3] as int,
    );
    let written = ip_written(IpAddr::V4(address));
    assert(written == decimal(octets[0] as nat) + seq![46u8] + decimal(octets[1] as nat)
        + seq![46u8] + decimal(octets[2] as nat) + seq![46u8] + decimal(octets[3] as nat));
}

/// An IPv6 address is written as its parts in hexadecimal, with colons between
/// them, but for the first of the widest runs of zeros, for which two colons stand
/// if it is wider than one. One that holds an IPv4 address ends in it.
pub proof fn law_ipv6_addresses_are_written_in_parts(address: Ipv6Addr, place: int, zeros: nat)
    requires
        0 <= place,
        place + zeros <= 8,
    ensures
        ({
            let parts = segments_of(address);
            let written = ip_written(IpAddr::V6(address));
            let run = forall|i: int| place <= i < place + zeros ==> (#[trigger] parts[i]) == 0;
            let ended = place + zeros == 8 || parts[place + zeros] != 0;
            let widest = forall|p: int| 0 <= p < 8 ==> #[trigger] zeros_from(parts, p) <= zeros;
            let first = forall|p: int| 0 <= p < place ==> #[trigger] zeros_from(parts, p) < zeros;
            &&& address.bits / 0x1_0000_0000 == 0xffff ==> written == seq![58u8, 58u8, 102u8, 102u8, 102u8, 102u8, 58u8]
                + ip_written(IpAddr::V4(Ipv4Addr { bits: (address.bits % 0x1_0000_0000) as u32 }))
            &&& address.bits / 0x1_0000_0000 != 0xffff && zeros > 1 && run && ended && widest && first
                ==> written == parts_written(parts.subrange(0, place)) + seq![58u8, 58u8]
                + parts_written(parts.subrange(place + zeros, 8))
            &&& address.bits / 0x1_0000_0000 != 0xffff && (forall|p: int|
                0 <= p < 8 ==> #[trigger] zeros_from(parts, p) <= 1) ==> written == parts_written(
                parts,
            )
        }),
{
    let parts = segments_of(address);
    let gap = widest_gap(parts, 7);
    let written = ip_written(IpAddr::V6(address));
    law_the_first_widest_run_is_left_out(parts, 7, 0);
    assert(colon() + colon() + seq![102u8, 102u8, 102u8, 102u8] + colon() =~= seq![58u8, 58u8, 102u8, 102u8, 102u8, 102u8, 58u8]);
    if zeros > 1 && (forall|i: int| place <= i < place + zeros ==> (#[trigger] parts[i]) == 0) && (
    place + zeros == 8 || parts[place + zeros] != 0) && (forall|p: int|
        0 <= p < 8 ==> #[trigger] zeros_from(parts, p) <= zeros) && (forall|p: int|
        0 <= p < place ==> #[trigger] zeros_from(parts, p) < zeros) {
        lemma_zeros_run(parts, place, zeros);
        law_the_first_widest_run_is_left_out(parts, 7, place);
        assert(zeros_from(parts, gap) == zeros);
        if gap < place {
            assert(zeros_from(parts, gap) < zeros);
        }
        assert(gap == place);
        assert(parts_written(parts.subrange(0, place)) + colon() + colon() + parts_written(
            parts.subrange(place + zeros, 8),
        ) =~= parts_written(parts.subrange(0, place)) + seq![58u8, 58u8] + parts_written(
            parts.subrange(place + zeros, 8),
        ));
    }
}

proof fn lemma_zeros_run(parts: Seq<u16>, place: int, zeros: nat)
    requires
        0 <= place,
        place + zeros <= parts.len(),
        forall|i: int| place <= i < place + zeros ==> (#[trigger] parts[i]) == 0,
        place + zeros == parts.len() || parts[place + zeros] != 0,
    ensures
        zeros_from(parts, place) == zeros,
    decreases zeros,
{
    if zeros > 0 {
        assert(parts[place] == 0);
        lemma_zeros_run(parts, place + 1, (zeros - 1) as nat);
    }
}

/// Zeros run from a place as far as there are nothing but zeros.
pub proof fn law_runs_hold_nothing_but_zeros(parts: Seq<u16>, place: int)
    requires
        0 <= place <= parts.len(),
    ensures
        ({
            let end = place + zeros_from(parts, place);
            &&& end <= parts.len()
            &&& forall|i: int| place <= i < end ==> (#[trigger] parts[i]) == 0
            &&& end < parts.len() ==> parts[end] != 0
        }),
    decreases parts.len() - place,
{
    if place < parts.len() && parts[place] == 0 {
        law_runs_hold_nothing_but_zeros(parts, place + 1);
    }
}

/// Each part stands behind those before it, with a colon between.
pub proof fn law_parts_are_written_in_order(parts: Seq<u16>, part: u16)
    ensures
        parts_written(Seq::empty()) == Seq::<u8>::empty(),
        parts_written(seq![part]) == hexadecimal(part as nat),
        parts.len() > 0 ==> parts_written(parts.push(part)) == parts_written(parts) + seq![58u8]
            + hexadecimal(part as nat),
{
    assert(parts.push(part).drop_last() =~= parts);
}

/// A port stands behind its address and a colon. An IPv6 address stands in
/// brackets, with the number of its zone behind `%` if it has one.
pub proof fn law_ports_are_written_behind_addresses(address: SocketAddr)
    ensures
        match address {
            SocketAddr::V4(a) => socket_written(address) == ip_written(IpAddr::V4(a.ip)) + seq![58u8]
                + decimal(a.port as nat),
            SocketAddr::V6(a) => {
                let ip = ip_written(IpAddr::V6(a.ip));
                &&& a.scope_id == 0 ==> socket_written(address) == seq![91u8] + ip + seq![93u8, 58u8]
                    + decimal(a.port as nat)
                &&& a.scope_id != 0 ==> socket_written(address) == seq![91u8] + ip + seq![37u8]
                    + decimal(a.scope_id as nat) + seq![93u8, 58u8] + decimal(a.port as nat)
            },
        },
{
    match address {
        SocketAddr::V4(a) => {},
        SocketAddr::V6(a) => {
            let ip = ip_written(IpAddr::V6(a.ip));
            if a.scope_id == 0 {
                assert(socket_written(address) =~= seq![91u8] + ip + seq![93u8, 58u8] + decimal(
                    a.port as nat,
                ));
            } else {
                assert(socket_written(address) =~= seq![91u8] + ip + seq![37u8] + decimal(
                    a.scope_id as nat,
                ) + seq![93u8, 58u8] + decimal(a.port as nat));
            }
        },
    }
}

} // verus!
