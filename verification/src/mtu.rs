//! Fragmentation of IPv4 packets that do not fit a tunnel.

use crate::bytes::{append_bytes, copy_range, read_u16_at, u16_at, u16_bytes};
use crate::checksum::{checksum, checksum_of, lemma_stored_checksum_verifies, ones_sum, with_word};
use crate::ecn::set_word;
use crate::ip::{ip_version, ipv4_header_len};
use vstd::prelude::*;
use vstd::slice::slice_subrange;

verus! {

/// Why a packet cannot be fragmented.
#[derive(Debug, Clone, Copy, PartialEq, Eq, Structural)]
pub enum Ipv4FragmentError {
    InvalidPacket,
    DontFragment,
    HeaderOptions,
    MtuTooSmall,
    FragmentOffsetOverflow,
}

/// Whether `s` is one whole IPv4 packet.
pub open spec fn whole_ipv4(s: Seq<u8>) -> bool {
    &&& s.len() >= 20
    &&& ip_version(s) == 4
    &&& 20 <= ipv4_header_len(s) <= s.len()
    &&& u16_at(s, 2) == s.len()
}

/// The Don't Fragment flag.
pub open spec fn dont_fragment(s: Seq<u8>) -> bool {
    (u16_at(s, 6) / 0x4000) % 2 == 1
}

/// The More Fragments flag.
pub open spec fn more_fragments(s: Seq<u8>) -> bool {
    (u16_at(s, 6) / 0x2000) % 2 == 1
}

/// The fragment offset, in units of eight bytes.
pub open spec fn fragment_offset(s: Seq<u8>) -> int {
    u16_at(s, 6) % 0x2000
}

/// How many payload bytes a fragment can carry: a multiple of eight.
pub open spec fn fragment_capacity(tunnel_mtu: int) -> int {
    (tunnel_mtu - 20) / 8 * 8
}

/// Why an oversized packet cannot be cut into fragments, if it cannot.
pub open spec fn fragment_error(s: Seq<u8>, tunnel_mtu: int) -> Option<Ipv4FragmentError> {
    if !whole_ipv4(s) {
        Some(Ipv4FragmentError::InvalidPacket)
    } else if s.len() <= tunnel_mtu {
        None
    } else if ipv4_header_len(s) != 20 {
        Some(Ipv4FragmentError::HeaderOptions)
    } else if dont_fragment(s) {
        Some(Ipv4FragmentError::DontFragment)
    } else if tunnel_mtu < 28 {
        Some(Ipv4FragmentError::MtuTooSmall)
    } else if s.len() == 20 || (more_fragments(s) && (s.len() - 20) % 8 != 0) {
        Some(Ipv4FragmentError::InvalidPacket)
    } else if fragment_offset(s) * 8 + (s.len() - 20) > 65535 - 20 {
        Some(Ipv4FragmentError::FragmentOffsetOverflow)
    } else {
        None
    }
}

/// The flags and offset field of the fragment that carries the payload bytes
/// from `start` to `end`.
pub open spec fn fragment_field(s: Seq<u8>, start: int, end: int) -> int {
    u16_at(s, 6) / 0x8000 * 0x8000 + (if more_fragments(s) || end < s.len() - 20 {
        0x2000int
    } else {
        0
    }) + fragment_offset(s) + start / 8
}

/// The header of the fragment that carries the payload bytes from `start` to
/// `end`, with a zero checksum field.
pub open spec fn fragment_header(s: Seq<u8>, start: int, end: int) -> Seq<u8> {
    with_word(
        with_word(
            with_word(s.take(20), 2, (20 + end - start) as u16),
            6,
            fragment_field(s, start, end) as u16,
        ),
        10,
        0,
    )
}

/// The fragment that carries the payload bytes from `start` to `end`.
pub open spec fn fragment(s: Seq<u8>, start: int, end: int) -> Seq<u8> {
    let header = fragment_header(s, start, end);
    with_word(header, 10, checksum_of(header)) + s.subrange(20 + start, 20 + end)
}

/// How many fragments of `capacity` payload bytes a payload needs.
pub open spec fn fragment_count(payload: int, capacity: int) -> int {
    (payload + capacity - 1) / capacity
}

/// Where the payload of fragment `k` ends.
pub open spec fn fragment_end(payload: int, capacity: int, k: int) -> int {
    if (k + 1) * capacity <= payload {
        (k + 1) * capacity
    } else {
        payload
    }
}

/// The packets that go into the tunnel in place of `s`.
pub open spec fn tunnel_fragments(s: Seq<u8>, tunnel_mtu: int) -> Seq<Seq<u8>> {
    if s.len() <= tunnel_mtu {
        seq![s]
    } else {
        let capacity = fragment_capacity(tunnel_mtu);
        let payload = s.len() - 20;
        Seq::new(
            fragment_count(payload, capacity) as nat,
            |k: int| fragment(s, k * capacity, fragment_end(payload, capacity, k)),
        )
    }
}

/// Vectors by their contents.
pub open spec fn contents(v: Seq<Vec<u8>>) -> Seq<Seq<u8>> {
    v.map_values(|f: Vec<u8>| f@)
}

/// Cuts an IPv4 packet into fragments of at most `tunnel_mtu` bytes; a packet
/// that fits is handed back whole.
pub fn fragment_ipv4_for_tunnel(packet: &[u8], tunnel_mtu: usize) -> (result: Result<
    Vec<Vec<u8>>,
    Ipv4FragmentError,
>)
    ensures
        match result {
            Ok(fragments) => fragment_error(packet@, tunnel_mtu as int) is None && contents(
                fragments@,
            ) == tunnel_fragments(packet@, tunnel_mtu as int),
            Err(error) => fragment_error(packet@, tunnel_mtu as int) == Some(error),
        },
{
    if packet.len() < 20 || packet[0] / 16 != 4 {
        return Err(Ipv4FragmentError::InvalidPacket);
    }
    let header_len: usize = (packet[0] % 16) as usize * 4;
    if header_len < 20 || header_len > packet.len() {
        return Err(Ipv4FragmentError::InvalidPacket);
    }
    let total_len: usize = read_u16_at(packet, 2) as usize;
    if total_len != packet.len() || total_len < header_len {
        return Err(Ipv4FragmentError::InvalidPacket);
    }
    if total_len <= tunnel_mtu {
        let mut fragments: Vec<Vec<u8>> = Vec::new();
        fragments.push(copy_range(packet, 0, packet.len()));
        proof {
            assert(packet@.subrange(0, packet@.len() as int) =~= packet@);
            assert(contents(fragments@) =~= seq![packet@]);
        }
        return Ok(fragments);
    }
    if header_len != 20 {
        return Err(Ipv4FragmentError::HeaderOptions);
    }
    let field: u16 = read_u16_at(packet, 6);
    if (field / 0x4000) % 2 == 1 {
        return Err(Ipv4FragmentError::DontFragment);
    }
    if tunnel_mtu < 28 {
        return Err(Ipv4FragmentError::MtuTooSmall);
    }
    let capacity: usize = (tunnel_mtu - 20) / 8 * 8;
    let payload_len: usize = packet.len() - 20;
    let preserve_more: bool = (field / 0x2000) % 2 == 1;
    if payload_len == 0 || (preserve_more && payload_len % 8 != 0) {
        return Err(Ipv4FragmentError::InvalidPacket);
    }
    let base_offset: usize = (field % 0x2000) as usize;
    if base_offset * 8 + payload_len > 65535 - 20 {
        return Err(Ipv4FragmentError::FragmentOffsetOverflow);
    }
    let mut fragments: Vec<Vec<u8>> = Vec::new();
    let mut start: usize = 0;
    let ghost payload = payload_len as int;
    let ghost cap = capacity as int;
    let ghost mut k: int = 0;
    proof {
        assert(0int * cap == 0) by (nonlinear_arith);
        lemma_count_step(payload, cap, 0);
    }
    while start < payload_len
        invariant
            packet@.len() == payload_len + 20,
            packet@.len() <= 65535,
            capacity == cap == fragment_capacity(tunnel_mtu as int),
            8 <= cap < 65535,
            payload == payload_len,
            field == u16_at(packet@, 6),
            base_offset == fragment_offset(packet@),
            preserve_more == more_fragments(packet@),
            base_offset * 8 + payload_len <= 65515,
            0 <= k,
            start == if k * cap <= payload {
                k * cap
            } else {
                payload
            },
            k <= fragment_count(payload, cap),
            start < payload_len <==> k < fragment_count(payload, cap),
            fragments@.len() == k,
            forall|j: int|
                0 <= j < k ==> (#[trigger] fragments@[j])@ == fragment(
                    packet@,
                    j * cap,
                    fragment_end(payload, cap, j),
                ),
        decreases payload_len - start,
    {
        let end: usize = if payload_len - start > capacity {
            start + capacity
        } else {
            payload_len
        };
        proof {
            lemma_count_step(payload, cap, k);
            lemma_count_step(payload, cap, k + 1);
            assert((k + 1) * cap == k * cap + cap) by (nonlinear_arith);
        }
        let piece = build_fragment(packet, start, end, field);
        fragments.push(piece);
        start = end;
        proof {
            k = k + 1;
        }
    }
    proof {
        assert(contents(fragments@) =~= tunnel_fragments(packet@, tunnel_mtu as int));
    }
    Ok(fragments)
}

proof fn lemma_count_step(payload: int, capacity: int, k: int)
    requires
        payload > 0,
        capacity > 0,
        k >= 0,
    ensures
        k * capacity < payload <==> k < fragment_count(payload, capacity),
        k <= fragment_count(payload, capacity) ==> (k - 1) * capacity < payload || k == 0,
        fragment_count(payload, capacity) >= 1,
{
    let n = fragment_count(payload, capacity);
    vstd::arithmetic::div_mod::lemma_fundamental_div_mod(payload + capacity - 1, capacity);
    let r = (payload + capacity - 1) % capacity;
    assert(payload + capacity - 1 == capacity * n + r);
    assert(0 <= r < capacity);
    if k < n {
        assert(k * capacity <= (n - 1) * capacity) by (nonlinear_arith)
            requires
                k <= n - 1,
                capacity > 0,
        ;
        assert((n - 1) * capacity == capacity * n - capacity) by (nonlinear_arith);
    } else {
        assert(k * capacity >= n * capacity) by (nonlinear_arith)
            requires
                k >= n,
                capacity > 0,
        ;
        assert(n * capacity == capacity * n) by (nonlinear_arith);
    }
    if 1 <= k <= n {
        assert((k - 1) * capacity <= (n - 1) * capacity) by (nonlinear_arith)
            requires
                k <= n,
                capacity > 0,
        ;
        assert((n - 1) * capacity == capacity * n - capacity) by (nonlinear_arith);
    }
    assert(n >= 1) by {
        if n <= 0 {
            assert(capacity * n <= 0) by (nonlinear_arith)
                requires
                    n <= 0,
                    capacity > 0,
            ;
        }
    }
}

fn build_fragment(packet: &[u8], start: usize, end: usize, field: u16) -> (out: Vec<u8>)
    requires
        20 < packet@.len() <= 65535,
        start < end <= packet@.len() - 20,
        field == u16_at(packet@, 6),
        fragment_offset(packet@) * 8 + (packet@.len() - 20) <= 65515,
    ensures
        out@ == fragment(packet@, start as int, end as int),
{
    let more: u16 = if (field / 0x2000) % 2 == 1 || end < packet.len() - 20 {
        0x2000
    } else {
        0
    };
    let reserved: u16 = field / 0x8000 * 0x8000;
    let offset: u16 = field % 0x2000 + (start / 8) as u16;
    let mut out: Vec<u8> = copy_range(packet, 0, 20);
    proof {
        assert(packet@.subrange(0, 20) =~= packet@.take(20));
    }
    set_word(out.as_mut_slice(), 2, (20 + (end - start)) as u16);
    set_word(out.as_mut_slice(), 6, reserved + more + offset);
    set_word(out.as_mut_slice(), 10, 0);
    let header_checksum: u16 = checksum(out.as_slice());
    set_word(out.as_mut_slice(), 10, header_checksum);
    append_bytes(&mut out, slice_subrange(packet, 20 + start, 20 + end));
    out
}

/// The payloads of the packets `parts`, each behind a 20-byte header, one
/// after the other.
pub open spec fn joined_payloads(parts: Seq<Seq<u8>>) -> Seq<u8>
    decreases parts.len(),
{
    if parts.len() == 0 {
        Seq::empty()
    } else {
        joined_payloads(parts.drop_last()) + parts.last().skip(20)
    }
}

/// What the flags and offset field of a fragment says.
proof fn lemma_field_parts(field: int, start: int, more: bool, value: int)
    requires
        0 <= field < 65536,
        field / 0x4000 % 2 == 0,
        0 <= start,
        start % 8 == 0,
        field % 0x2000 + start / 8 < 0x2000,
        value == field / 0x8000 * 0x8000 + (if more {
            0x2000int
        } else {
            0
        }) + field % 0x2000 + start / 8,
    ensures
        0 <= value < 65536,
        value % 0x2000 * 8 == field % 0x2000 * 8 + start,
        value / 0x2000 % 2 == if more {
            1int
        } else {
            0
        },
        value / 0x4000 % 2 == 0,
{
}

#[verifier::rlimit(40)]
proof fn lemma_fragment_shape(s: Seq<u8>, start: int, end: int)
    requires
        whole_ipv4(s),
        ipv4_header_len(s) == 20,
        0 <= start < end <= s.len() - 20,
        start % 8 == 0,
        fragment_offset(s) * 8 + (s.len() - 20) <= 65515,
        !dont_fragment(s),
    ensures
        fragment(s, start, end).len() == 20 + end - start,
        fragment(s, start, end).skip(20) == s.subrange(20 + start, 20 + end),
        whole_ipv4(fragment(s, start, end)),
        ipv4_header_len(fragment(s, start, end)) == 20,
        ones_sum(fragment(s, start, end).take(20)) == 0xffff,
        fragment_offset(fragment(s, start, end)) * 8 == fragment_offset(s) * 8 + start,
        more_fragments(fragment(s, start, end)) <==> more_fragments(s) || end < s.len() - 20,
        !dont_fragment(fragment(s, start, end)),
        forall|i: int|
            0 <= i < 20 && !(2 <= i < 4) && !(6 <= i < 8) && !(10 <= i < 12) ==> #[trigger]
            fragment(s, start, end)[i] == s[i],
{
    let f = fragment(s, start, end);
    let header = fragment_header(s, start, end);
    assert(header[10] == 0 && header[11] == 0);
    lemma_stored_checksum_verifies(header, 10);
    assert(f.take(20) =~= with_word(header, 10, checksum_of(header)));
    assert(f.skip(20) =~= s.subrange(20 + start, 20 + end));
    let length = (20 + end - start) as u16;
    assert(f[2] == u16_bytes(length)[0] && f[3] == u16_bytes(length)[1]);
    crate::bytes::lemma_u16_bytes_read_back(length);
    let value = fragment_field(s, start, end);
    let field = u16_at(s, 6);
    assert(0 <= field < 65536);
    assert(fragment_offset(s) + start / 8 < 0x2000);
    lemma_field_parts(field, start, more_fragments(s) || end < s.len() - 20, value);
    assert(f[6] == u16_bytes(value as u16)[0] && f[7] == u16_bytes(value as u16)[1]);
    crate::bytes::lemma_u16_bytes_read_back(value as u16);
    assert(u16_at(f, 6) == value);
}

proof fn lemma_payload_prefix(s: Seq<u8>, tunnel_mtu: int, k: int)
    requires
        fragment_error(s, tunnel_mtu) is None,
        s.len() > tunnel_mtu,
        0 <= k <= fragment_count(s.len() - 20, fragment_capacity(tunnel_mtu)),
    ensures
        joined_payloads(tunnel_fragments(s, tunnel_mtu).take(k)) == s.subrange(
            20,
            20 + (if k == 0 {
                0
            } else {
                fragment_end(s.len() - 20, fragment_capacity(tunnel_mtu), k - 1)
            }),
        ),
    decreases k,
{
    let capacity = fragment_capacity(tunnel_mtu);
    let payload = s.len() - 20;
    let all = tunnel_fragments(s, tunnel_mtu);
    if k == 0 {
        assert(all.take(0) =~= Seq::empty());
        assert(s.subrange(20, 20) =~= Seq::empty());
    } else {
        lemma_payload_prefix(s, tunnel_mtu, k - 1);
        lemma_fragment_bounds(s, tunnel_mtu, k - 1);
        let start = (k - 1) * capacity;
        let end = fragment_end(payload, capacity, k - 1);
        lemma_fragment_shape(s, start, end);
        assert(all.take(k).drop_last() =~= all.take(k - 1));
        assert(all.take(k).last() == fragment(s, start, end));
        if k > 1 {
            assert((k - 2 + 1) * capacity == start);
            lemma_count_step(payload, capacity, k - 1);
            assert(fragment_end(payload, capacity, k - 2) == start);
        } else {
            assert(0int * capacity == 0) by (nonlinear_arith);
        }
        assert(s.subrange(20, 20 + start) + s.subrange(20 + start, 20 + end) =~= s.subrange(
            20,
            20 + end,
        ));
    }
}

proof fn lemma_fragment_bounds(s: Seq<u8>, tunnel_mtu: int, k: int)
    requires
        fragment_error(s, tunnel_mtu) is None,
        s.len() > tunnel_mtu,
        0 <= k < fragment_count(s.len() - 20, fragment_capacity(tunnel_mtu)),
    ensures
        ({
            let capacity = fragment_capacity(tunnel_mtu);
            let end = fragment_end(s.len() - 20, capacity, k);
            &&& 0 <= k * capacity < end <= s.len() - 20
            &&& (k * capacity) % 8 == 0
            &&& end - k * capacity <= capacity
            &&& 8 <= capacity <= tunnel_mtu - 20
            &&& end == s.len() - 20 <==> k == fragment_count(s.len() - 20, capacity) - 1
        }),
{
    let capacity = fragment_capacity(tunnel_mtu);
    let payload = s.len() - 20;
    lemma_count_step(payload, capacity, k);
    lemma_count_step(payload, capacity, k + 1);
    assert((k + 1) * capacity == k * capacity + capacity) by (nonlinear_arith);
    assert(0 <= k * capacity) by (nonlinear_arith)
        requires
            k >= 0,
            capacity > 0,
    ;
    let eighth = capacity / 8;
    assert(capacity == 8 * eighth);
    assert(k * capacity == 8 * (k * eighth)) by (nonlinear_arith)
        requires
            capacity == 8 * eighth,
    ;
}

/// The packets that go into the tunnel fit it, and together they carry the
/// payload of the packet they replace.
pub proof fn law_fragments_fit_and_reassemble(s: Seq<u8>, tunnel_mtu: int)
    requires
        fragment_error(s, tunnel_mtu) is None,
        s.len() > tunnel_mtu,
    ensures
        forall|k: int|
            0 <= k < tunnel_fragments(s, tunnel_mtu).len() ==> (#[trigger] tunnel_fragments(
                s,
                tunnel_mtu,
            )[k]).len() <= tunnel_mtu,
        joined_payloads(tunnel_fragments(s, tunnel_mtu)) == s.skip(20),
{
    let all = tunnel_fragments(s, tunnel_mtu);
    let capacity = fragment_capacity(tunnel_mtu);
    let payload = s.len() - 20;
    let n = fragment_count(payload, capacity);
    lemma_count_step(payload, capacity, 0);
    assert forall|k: int| 0 <= k < all.len() implies (#[trigger] all[k]).len() <= tunnel_mtu by {
        lemma_fragment_bounds(s, tunnel_mtu, k);
        lemma_fragment_shape(s, k * capacity, fragment_end(payload, capacity, k));
    }
    lemma_payload_prefix(s, tunnel_mtu, n);
    assert(all.take(n) =~= all);
    lemma_fragment_bounds(s, tunnel_mtu, n - 1);
    assert(s.subrange(20, s.len() as int) =~= s.skip(20));
}

/// Every fragment is a whole IPv4 packet with a valid header checksum that
/// says where its payload belongs; only the last one may end the packet.
pub proof fn law_fragments_are_valid_packets(s: Seq<u8>, tunnel_mtu: int, k: int)
    requires
        fragment_error(s, tunnel_mtu) is None,
        s.len() > tunnel_mtu,
        0 <= k < tunnel_fragments(s, tunnel_mtu).len(),
    ensures
        whole_ipv4(tunnel_fragments(s, tunnel_mtu)[k]),
        ones_sum(tunnel_fragments(s, tunnel_mtu)[k].take(20)) == 0xffff,
        fragment_offset(tunnel_fragments(s, tunnel_mtu)[k]) * 8 == fragment_offset(s) * 8 + k
            * fragment_capacity(tunnel_mtu),
        more_fragments(tunnel_fragments(s, tunnel_mtu)[k]) <==> more_fragments(s) || k + 1
            < tunnel_fragments(s, tunnel_mtu).len(),
        forall|i: int|
            0 <= i < 20 && !(2 <= i < 4) && !(6 <= i < 8) && !(10 <= i < 12) ==> #[trigger]
            tunnel_fragments(s, tunnel_mtu)[k][i] == s[i],
{
    let capacity = fragment_capacity(tunnel_mtu);
    let payload = s.len() - 20;
    lemma_fragment_bounds(s, tunnel_mtu, k);
    lemma_fragment_shape(s, k * capacity, fragment_end(payload, capacity, k));
}

/// Every whole packet with a bare header and some payload that may be cut is cut,
/// whatever the length of its payload, if the tunnel takes a header and eight
/// bytes.  The payload of a packet that is itself a fragment with others to
/// follow has to be made of eights, and its end has to be within the longest
/// packet; both hold by themselves for a packet that is no fragment.
pub proof fn law_whole_packets_are_cut(s: Seq<u8>, tunnel_mtu: int)
    requires
        s.len() > 20,
        s[0] == 0x45,
        s[2] * 256 + s[3] == s.len(),
        s[6] < 0x40 || 0x80 <= s[6] < 0xc0,
        tunnel_mtu >= 28,
        (s[6] / 0x20) % 2 == 1 ==> s.len() % 8 == 4,
        (s[6] % 0x20 * 256 + s[7]) * 8 + s.len() <= 65535,
    ensures
        fragment_error(s, tunnel_mtu) is None,
{
    assert(u16_at(s, 6) / 0x4000 == s[6] / 0x40);
    assert(u16_at(s, 6) / 0x2000 == s[6] / 0x20);
    assert(u16_at(s, 6) % 0x2000 == s[6] % 0x20 * 256 + s[7]);
}

/// A packet that is not one whole IPv4 packet is refused; one that fits the
/// tunnel is not, and goes as it is.  Of the others, those with options, those
/// that must not be cut, those for too narrow a tunnel, and those that would end
/// beyond the longest packet are refused, each for that reason.
pub proof fn law_packets_are_refused_for_a_reason(s: Seq<u8>, tunnel_mtu: int)
    ensures
        ({
            let whole = s.len() >= 20 && s[0] / 16 == 4 && 5 <= s[0] % 16 && s[0] % 16 * 4 <= s.len()
                && s[2] * 256 + s[3] == s.len();
            let kept = (s[6] / 0x40) % 2 == 1;
            let error = fragment_error(s, tunnel_mtu);
            &&& !whole ==> error == Some(Ipv4FragmentError::InvalidPacket)
            &&& whole && s.len() <= tunnel_mtu ==> error is None && tunnel_fragments(s, tunnel_mtu)
                == seq![s]
            &&& whole && s.len() > tunnel_mtu ==> {
                &&& error == Some(Ipv4FragmentError::HeaderOptions) <==> s[0] != 0x45
                &&& s[0] == 0x45 ==> (error == Some(Ipv4FragmentError::DontFragment) <==> kept)
                &&& s[0] == 0x45 && !kept ==> (error == Some(Ipv4FragmentError::MtuTooSmall)
                    <==> tunnel_mtu < 28)
                &&& error == Some(Ipv4FragmentError::FragmentOffsetOverflow) ==> (s[6] % 0x20 * 256
                    + s[7]) * 8 + s.len() > 65535
                &&& error == Some(Ipv4FragmentError::InvalidPacket) ==> s.len() == 20 || ((s[6]
                    / 0x20) % 2 == 1 && s.len() % 8 != 4)
            }
        }),
{
    assert(u16_at(s, 6) / 0x4000 == s[6] / 0x40);
    assert(u16_at(s, 6) / 0x2000 == s[6] / 0x20);
    assert(u16_at(s, 6) % 0x2000 == s[6] % 0x20 * 256 + s[7]);
}

/// The fragments of a packet, byte by byte: each has the packet's header but for
/// the length, which is its own, the fragment field and the checksum; its place
/// in the whole follows from those before it; all but the last leave less than
/// eight bytes of the tunnel unused and say that others follow; and each payload
/// is the stretch of the packet's payload at its place.
pub proof fn law_fragments_are_laid_out(s: Seq<u8>, tunnel_mtu: int, k: int)
    requires
        fragment_error(s, tunnel_mtu) is None,
        s.len() > tunnel_mtu,
        0 <= k < tunnel_fragments(s, tunnel_mtu).len(),
    ensures
        ({
            let all = tunnel_fragments(s, tunnel_mtu);
            let p = all[k];
            let last = k == all.len() - 1;
            let room = (tunnel_mtu - 20) / 8 * 8;
            let start = k * room;
            &&& 20 < p.len() <= tunnel_mtu
            &&& p[0] == 0x45
            &&& p[2] * 256 + p[3] == p.len()
            &&& !last ==> p.len() == 20 + room
            &&& 20 + start + (p.len() - 20) <= s.len()
            &&& last <==> 20 + start + (p.len() - 20) == s.len()
            &&& p.skip(20) == s.subrange(20 + start, 20 + start + (p.len() - 20))
            &&& (p[6] % 0x20 * 256 + p[7]) * 8 == (s[6] % 0x20 * 256 + s[7]) * 8 + start
            &&& (p[6] / 0x20) % 2 == 1 <==> !last || (s[6] / 0x20) % 2 == 1
            &&& (p[6] / 0x40) % 2 == 0
            &&& p[1] == s[1] && p[4] == s[4] && p[5] == s[5] && p[8] == s[8] && p[9] == s[9]
            &&& p.subrange(12, 20) == s.subrange(12, 20)
        }),
{
    let all = tunnel_fragments(s, tunnel_mtu);
    let p = all[k];
    let capacity = fragment_capacity(tunnel_mtu);
    let payload = s.len() - 20;
    lemma_fragment_bounds(s, tunnel_mtu, k);
    lemma_fragment_shape(s, k * capacity, fragment_end(payload, capacity, k));
    law_packets_are_refused_for_a_reason(s, tunnel_mtu);
    assert(s[0] == 0x45);
    assert((k + 1) * capacity == k * capacity + capacity) by (nonlinear_arith);
    assert(u16_at(s, 6) / 0x2000 == s[6] / 0x20);
    assert(u16_at(s, 6) % 0x2000 == s[6] % 0x20 * 256 + s[7]);
    assert(u16_at(p, 6) / 0x4000 == p[6] / 0x40);
    assert(u16_at(p, 6) / 0x2000 == p[6] / 0x20);
    assert(u16_at(p, 6) % 0x2000 == p[6] % 0x20 * 256 + p[7]);
    assert(p.subrange(12, 20) =~= s.subrange(12, 20)) by {
        assert forall|i: int| 12 <= i < 20 implies #[trigger] p[i] == s[i] by {}
    }
}

} // verus!
