//! Path MTU feedback to the sources of packets that do not fit a tunnel.

use crate::bytes::{append_bytes, append_u16, append_u32, u16_at, u16_bytes, u32_bytes};
use crate::checksum::{
    checksum, checksum_of, lemma_stored_checksum_verifies,
    lemma_stored_upper_layer_checksum_verifies, ones_sum, upper_layer_checksum,
    upper_layer_input, with_word,
};
use crate::ecn::set_word;
use crate::ip::{
    ipv4_header_len, multicast_packet, parse_multicast_packet, IpPacketError, MulticastPacket,
};
use crate::net::{
    append_ipv4, append_ipv6, ipv4_octets, ipv6_octets, same_family, same_family_spec, spells,
    IpAddr, Ipv4Addr, Ipv6Addr,
};
use crate::ordered::{OrdKey, OrdMap};
use crate::time::{Duration, Instant};
use std::collections::VecDeque;
use vstd::prelude::*;
use vstd::slice::slice_subrange;

verus! {

/// What became of one piece of feedback.
#[derive(Debug, Clone, Copy, PartialEq, Eq, Structural)]
pub enum PmtuFeedbackOutcome {
    Sent { bytes_sent: usize },
    RateLimited,
    Suppressed,
    AddressFamilyUnavailable,
}

/// Why there is no feedback.
#[derive(Debug, Clone, Copy, PartialEq, Eq, Structural)]
pub enum PmtuFeedbackError {
    InvalidPacket(IpPacketError),
    InvalidLocalAddress(IpAddr),
    InvalidMtu(usize),
}

/// A flow: packets of one source to one group.
#[derive(Debug, Clone, Copy, PartialEq, Eq, Hash, Structural)]
pub struct Flow {
    pub source: IpAddr,
    pub group: IpAddr,
}

impl OrdKey for Flow {
    /// By source, then by group.
    open spec fn rank(self) -> int {
        self.source.rank() * 0x4_0000_0000_0000_0000_0000_0000_0000_0000 + self.group.rank()
    }

    proof fn rank_is_injective(self, other: Self) {
    }

    fn precedes(self, other: Self) -> (b: bool) {
        if self.source.precedes(other.source) {
            return true;
        }
        if other.source.precedes(self.source) {
            return false;
        }
        self.group.precedes(other.group)
    }
}

/// When feedback for a flow went out.
pub type Given = (Flow, Instant);

/// Whether feedback lies at least `interval` back.
pub open spec fn lapsed(given: Given, now: Instant, interval: Duration) -> bool {
    now.nanos >= given.1.nanos && now.nanos - given.1.nanos >= interval.nanos
}

/// Earlier feedback without the leading part that has lapsed.
pub open spec fn still_counting(given: Seq<Given>, now: Instant, interval: Duration) -> Seq<Given>
    decreases given.len(),
{
    if given.len() > 0 && lapsed(given[0], now, interval) {
        still_counting(given.skip(1), now, interval)
    } else {
        given
    }
}

/// Whether a flow is among earlier feedback.
pub open spec fn mentions(given: Seq<Given>, flow: Flow) -> bool {
    exists|i: int| 0 <= i < given.len() && (#[trigger] given[i]).0 == flow
}

/// Allows feedback once per flow and interval, for a bounded number of flows
/// at a time.
#[derive(Debug)]
pub struct FeedbackRateLimiter {
    last_feedback: OrdMap<Flow, Instant>,
    expirations: VecDeque<Given>,
    minimum_interval: Duration,
    max_tracked_flows: usize,
}

impl FeedbackRateLimiter {
    /// Feedback that went out, oldest first.
    pub closed spec fn given(&self) -> Seq<Given> {
        self.expirations@
    }

    pub closed spec fn interval(&self) -> Duration {
        self.minimum_interval
    }

    pub closed spec fn capacity(&self) -> usize {
        self.max_tracked_flows
    }

    /// Whether the queue holds every tracked flow once and nothing else.
    pub closed spec fn wf(&self) -> bool {
        &&& self.last_feedback.wf()
        &&& self.expirations@.len() == self.last_feedback@.dom().len()
        &&& forall|i: int, j: int|
            0 <= i < j < self.expirations@.len() ==> (#[trigger] self.expirations@[i]).0 != (
            #[trigger] self.expirations@[j]).0
        &&& forall|i: int|
            0 <= i < self.expirations@.len() ==> self.last_feedback@.contains_key(
                (#[trigger] self.expirations@[i]).0,
            ) && self.last_feedback@[self.expirations@[i].0] == self.expirations@[i].1
        &&& forall|flow: Flow| #[trigger]
            self.last_feedback@.contains_key(flow) ==> mentions(self.expirations@, flow)
    }

    pub fn new(minimum_interval: Duration, max_tracked_flows: usize) -> (limiter: Self)
        ensures
            limiter.wf(),
            limiter.given() == Seq::<Given>::empty(),
            limiter.interval() == minimum_interval,
            limiter.capacity() == max_tracked_flows,
    {
        FeedbackRateLimiter {
            last_feedback: OrdMap::new(),
            expirations: VecDeque::new(),
            minimum_interval,
            max_tracked_flows,
        }
    }

    /// Whether feedback for a flow may go out now; if so, it counts as given.
    pub fn allow(&mut self, now: Instant, source: IpAddr, group: IpAddr) -> (allowed: bool)
        requires
            old(self).wf(),
        ensures
            final(self).wf(),
            final(self).interval() == old(self).interval(),
            final(self).capacity() == old(self).capacity(),
            ({
                let flow = Flow { source, group };
                let counting = still_counting(old(self).given(), now, old(self).interval());
                &&& allowed == (!mentions(counting, flow) && counting.len() < old(
                    self,
                ).capacity())
                &&& final(self).given() == if allowed {
                    counting.push((flow, now))
                } else {
                    counting
                }
            }),
    {
        while self.expirations.len() > 0 && self.front_lapsed(now)
            invariant
                self.wf(),
                self.minimum_interval == old(self).minimum_interval,
                self.max_tracked_flows == old(self).max_tracked_flows,
                still_counting(self.expirations@, now, self.minimum_interval) == still_counting(
                    old(self).expirations@,
                    now,
                    self.minimum_interval,
                ),
            decreases self.expirations@.len(),
        {
            self.drop_front();
        }
        let flow = Flow { source, group };
        proof {
            self.last_feedback.lemma_facts();
            if mentions(self.expirations@, flow) {
                let i = choose|i: int|
                    0 <= i < self.expirations@.len() && (#[trigger] self.expirations@[i]).0 == flow;
                assert(self.last_feedback@.contains_key(self.expirations@[i].0));
            }
        }
        if self.last_feedback.contains_key(flow) || self.last_feedback.len()
            >= self.max_tracked_flows {
            return false;
        }
        let ghost before = self.expirations@;
        let ghost map_before = self.last_feedback@;
        self.last_feedback.insert(flow, now);
        self.expirations.push_back((flow, now));
        proof {
            let queue = self.expirations@;
            assert forall|i: int, j: int| 0 <= i < j < queue.len() implies (#[trigger] queue[i]).0
                != (#[trigger] queue[j]).0 by {
                assert(queue[i] == before[i]);
                if j < before.len() {
                    assert(queue[j] == before[j]);
                } else {
                    assert(map_before.contains_key(before[i].0));
                }
            }
            assert forall|i: int| 0 <= i < queue.len() implies self.last_feedback@.contains_key(
                (#[trigger] queue[i]).0,
            ) && self.last_feedback@[queue[i].0] == queue[i].1 by {
                if i < before.len() {
                    assert(queue[i] == before[i]);
                    assert(map_before.contains_key(before[i].0));
                }
            }
            assert forall|f: Flow| #[trigger]
                self.last_feedback@.contains_key(f) implies mentions(queue, f) by {
                if f == flow {
                    assert(queue[before.len() as int].0 == f);
                } else {
                    assert(map_before.contains_key(f));
                    let i = choose|i: int|
                        0 <= i < before.len() && (#[trigger] before[i]).0 == f;
                    assert(queue[i].0 == f);
                }
            }
        }
        true
    }

    fn front_lapsed(&self, now: Instant) -> (b: bool)
        requires
            self.expirations@.len() > 0,
        ensures
            b == lapsed(self.expirations@[0], now, self.minimum_interval),
    {
        let observed = self.expirations[0].1;
        match now.checked_duration_since(observed) {
            Some(elapsed) => elapsed.nanos >= self.minimum_interval.nanos,
            None => false,
        }
    }

    fn drop_front(&mut self)
        requires
            old(self).wf(),
            old(self).expirations@.len() > 0,
        ensures
            final(self).wf(),
            final(self).expirations@ == old(self).expirations@.skip(1),
            final(self).minimum_interval == old(self).minimum_interval,
            final(self).max_tracked_flows == old(self).max_tracked_flows,
    {
        let ghost before = self.expirations@;
        let ghost map_before = self.last_feedback@;
        proof {
            self.last_feedback.lemma_facts();
        }
        if let Some((flow, _)) = self.expirations.pop_front() {
            self.last_feedback.remove(flow);
            proof {
                let queue = self.expirations@;
                assert(queue =~= before.skip(1));
                assert forall|i: int, j: int| 0 <= i < j < queue.len() implies (
                #[trigger] queue[i]).0 != (#[trigger] queue[j]).0 by {
                    assert(queue[i] == before[i + 1] && queue[j] == before[j + 1]);
                }
                assert forall|i: int| 0 <= i < queue.len() implies self.last_feedback@.contains_key(
                    (#[trigger] queue[i]).0,
                ) && self.last_feedback@[queue[i].0] == queue[i].1 by {
                    assert(queue[i] == before[i + 1]);
                    assert(before[0].0 != before[i + 1].0);
                    assert(map_before.contains_key(before[i + 1].0));
                }
                assert forall|f: Flow| #[trigger]
                    self.last_feedback@.contains_key(f) implies mentions(queue, f) by {
                    assert(map_before.contains_key(f));
                    let i = choose|i: int|
                        0 <= i < before.len() && (#[trigger] before[i]).0 == f;
                    assert(i != 0);
                    assert(queue[i - 1].0 == f);
                }
                assert(map_before.contains_key(before[0].0));
            }
        }
    }
}

/// As long as feedback for a flow has not lapsed, none goes out for it again.
pub proof fn law_flows_wait_out_the_interval(
    given: Seq<Given>,
    now: Instant,
    interval: Duration,
    i: int,
)
    requires
        0 <= i < given.len(),
        !lapsed(given[i], now, interval),
    ensures
        mentions(still_counting(given, now, interval), given[i].0),
    decreases given.len(),
{
    if lapsed(given[0], now, interval) {
        assert(given.skip(1)[i - 1] == given[i]);
        law_flows_wait_out_the_interval(given.skip(1), now, interval, i - 1);
    } else {
        assert(given[i].0 == given[i].0);
    }
}

/// Feedback that is still counting is never more than was counting before.
pub proof fn law_tracked_flows_stay_bounded(given: Seq<Given>, now: Instant, interval: Duration)
    ensures
        still_counting(given, now, interval).len() <= given.len(),
    decreases given.len(),
{
    if given.len() > 0 && lapsed(given[0], now, interval) {
        law_tracked_flows_stay_bounded(given.skip(1), now, interval);
    }
}

/// How much of a packet feedback quotes.
pub open spec fn quoted(packet: Seq<u8>, limit: int) -> Seq<u8> {
    if packet.len() <= limit {
        packet
    } else {
        packet.take(limit)
    }
}

/// The IPv4 header of feedback with `length` bytes in all, with a zero checksum
/// field.
pub open spec fn ipv4_feedback_header(local: Ipv4Addr, destination: Ipv4Addr, length: u16) -> Seq<
    u8,
> {
    seq![0x45u8, 0u8] + u16_bytes(length) + seq![0u8, 0u8, 0u8, 0u8, 64u8, 1u8, 0u8, 0u8]
        + ipv4_octets(local) + ipv4_octets(destination)
}

/// A Fragmentation Needed message, with a zero checksum field.
pub open spec fn ipv4_feedback_message(mtu: u16, quote: Seq<u8>) -> Seq<u8> {
    seq![3u8, 4u8, 0u8, 0u8, 0u8, 0u8] + u16_bytes(mtu) + quote
}

/// A Fragmentation Needed message as a whole IPv4 datagram; it fits the
/// smallest datagram that every host can reassemble.
pub open spec fn ipv4_feedback(
    local: Ipv4Addr,
    destination: Ipv4Addr,
    packet: Seq<u8>,
    mtu: u16,
) -> Seq<u8> {
    let message = ipv4_feedback_message(mtu, quoted(packet, 548));
    let header = ipv4_feedback_header(local, destination, (20 + message.len()) as u16);
    with_word(header, 10, checksum_of(header)) + with_word(message, 2, checksum_of(message))
}

/// The IPv6 header of feedback with `length` bytes after it.
pub open spec fn ipv6_feedback_header(local: Ipv6Addr, destination: Ipv6Addr, length: u16) -> Seq<
    u8,
> {
    seq![0x60u8, 0u8, 0u8, 0u8] + u16_bytes(length) + seq![58u8, 64u8] + ipv6_octets(local)
        + ipv6_octets(destination)
}

/// A Packet Too Big message, with a zero checksum field.
pub open spec fn ipv6_feedback_message(mtu: u32, quote: Seq<u8>) -> Seq<u8> {
    seq![2u8, 0u8, 0u8, 0u8] + u32_bytes(mtu) + quote
}

/// A Packet Too Big message as a whole IPv6 datagram; it fits the smallest MTU
/// of IPv6.
pub open spec fn ipv6_feedback(
    local: Ipv6Addr,
    destination: Ipv6Addr,
    packet: Seq<u8>,
    mtu: u32,
) -> Seq<u8> {
    let message = ipv6_feedback_message(mtu, quoted(packet, 1232));
    let sum = checksum_of(
        upper_layer_input(ipv6_octets(local), ipv6_octets(destination), 58, message),
    );
    ipv6_feedback_header(local, destination, message.len() as u16) + with_word(message, 2, sum)
}

/// The feedback for a packet that does not fit a tunnel, or why there is none.
pub open spec fn feedback_for(local: IpAddr, packet: Seq<u8>, mtu: usize) -> Result<
    Seq<u8>,
    PmtuFeedbackError,
> {
    match multicast_packet(packet) {
        Err(error) => Err(PmtuFeedbackError::InvalidPacket(error)),
        Ok(parsed) => match (local, parsed.source) {
            (IpAddr::V4(from), IpAddr::V4(to)) => if mtu <= 0xffff {
                Ok(ipv4_feedback(from, to, packet, mtu as u16))
            } else {
                Err(PmtuFeedbackError::InvalidMtu(mtu))
            },
            (IpAddr::V6(from), IpAddr::V6(to)) => if mtu <= 0xffff_ffff {
                Ok(ipv6_feedback(from, to, packet, mtu as u32))
            } else {
                Err(PmtuFeedbackError::InvalidMtu(mtu))
            },
            _ => Err(PmtuFeedbackError::InvalidLocalAddress(local)),
        },
    }
}

/// A build result in terms of what it says.
pub open spec fn feedback_result(result: Result<Vec<u8>, PmtuFeedbackError>) -> Result<
    Seq<u8>,
    PmtuFeedbackError,
> {
    match result {
        Ok(packet) => Ok(packet@),
        Err(error) => Err(error),
    }
}

/// The upper-layer protocol of an IPv6 packet and where it starts, walked from
/// a header of kind `next` at `offset` over at most `steps` headers.
pub open spec fn upper_layer_from(s: Seq<u8>, next: u8, offset: int, steps: nat) -> Option<
    (u8, int),
>
    decreases steps,
{
    if steps == 0 {
        None
    } else if next == 0 || next == 43 || next == 60 {
        if offset + 2 > s.len() || offset + (s[offset + 1] + 1) * 8 > s.len() {
            None
        } else {
            upper_layer_from(s, s[offset], offset + (s[offset + 1] + 1) * 8, (steps - 1) as nat)
        }
    } else if next == 44 {
        if offset + 4 > s.len() || u16_at(s, offset + 2) / 8 != 0 || offset + 8 > s.len() {
            None
        } else {
            upper_layer_from(s, s[offset], offset + 8, (steps - 1) as nat)
        }
    } else if next == 51 {
        if offset + 2 > s.len() || offset + (s[offset + 1] + 2) * 4 > s.len() {
            None
        } else {
            upper_layer_from(s, s[offset], offset + (s[offset + 1] + 2) * 4, (steps - 1) as nat)
        }
    } else if offset <= s.len() {
        Some((next, offset))
    } else {
        None
    }
}

/// The upper-layer protocol of an IPv6 packet and where it starts.
pub open spec fn upper_layer(s: Seq<u8>) -> Option<(u8, int)> {
    if s.len() <= 6 {
        None
    } else {
        upper_layer_from(s, s[6], 40, 16)
    }
}

/// Whether a packet must not be answered with an error: it is one itself, or
/// cannot be told from one.
pub open spec fn must_not_answer(s: Seq<u8>, parsed: MulticastPacket) -> bool {
    match parsed.source {
        IpAddr::V4(_) => parsed.ip_protocol == 1 && (parsed.fragmented || (ipv4_header_len(s)
            < s.len() && (s[ipv4_header_len(s)] == 3 || s[ipv4_header_len(s)] == 4
            || s[ipv4_header_len(s)] == 5 || s[ipv4_header_len(s)] == 11 || s[ipv4_header_len(s)]
            == 12))),
        IpAddr::V6(_) => match upper_layer(s) {
            None => true,
            Some((protocol, offset)) => protocol == 58 && (offset >= s.len() || s[offset] < 128),
        },
    }
}

/// Builds the feedback for a packet that does not fit a tunnel.
pub fn build_pmtu_feedback(local_address: IpAddr, invoking_packet: &[u8], tunnel_mtu: usize) -> (
    result: Result<Vec<u8>, PmtuFeedbackError>)
    ensures
        feedback_result(result) == feedback_for(local_address, invoking_packet@, tunnel_mtu),
{
    let parsed = match parse_multicast_packet(invoking_packet) {
        Ok(parsed) => parsed,
        Err(error) => return Err(PmtuFeedbackError::InvalidPacket(error)),
    };
    match (local_address, parsed.source) {
        (IpAddr::V4(local), IpAddr::V4(source)) => build_icmpv4_fragmentation_needed(
            local,
            source,
            invoking_packet,
            tunnel_mtu,
        ),
        (IpAddr::V6(local), IpAddr::V6(source)) => build_icmpv6_packet_too_big(
            local,
            source,
            invoking_packet,
            tunnel_mtu,
        ),
        _ => Err(PmtuFeedbackError::InvalidLocalAddress(local_address)),
    }
}

fn quote_of(packet: &[u8], limit: usize) -> (quote: &[u8])
    ensures
        quote@ == quoted(packet@, limit as int),
{
    if packet.len() <= limit {
        packet
    } else {
        let quote = slice_subrange(packet, 0, limit);
        proof {
            assert(quote@ =~= packet@.take(limit as int));
        }
        quote
    }
}

fn build_ipv4_feedback(local: Ipv4Addr, destination: Ipv4Addr, packet: &[u8], mtu: u16) -> (out:
    Vec<u8>)
    ensures
        out@ == ipv4_feedback(local, destination, packet@, mtu),
{
    let quote = quote_of(packet, 548);
    let mut message: Vec<u8> = Vec::new();
    append_bytes(&mut message, [3u8, 4, 0, 0, 0, 0].as_slice());
    append_u16(&mut message, mtu);
    append_bytes(&mut message, quote);
    proof {
        assert(message@ =~= ipv4_feedback_message(mtu, quoted(packet@, 548)));
    }
    let total_len: u16 = 20 + message.len() as u16;
    let message_checksum: u16 = checksum(message.as_slice());
    set_word(message.as_mut_slice(), 2, message_checksum);
    let mut out: Vec<u8> = Vec::new();
    append_bytes(&mut out, [0x45u8, 0].as_slice());
    append_u16(&mut out, total_len);
    append_bytes(&mut out, [0u8, 0, 0, 0, 64, 1, 0, 0].as_slice());
    append_ipv4(&mut out, local);
    append_ipv4(&mut out, destination);
    proof {
        crate::net::lemma_ipv4_octets_read_back(local);
        crate::net::lemma_ipv4_octets_read_back(destination);
        assert(out@ =~= ipv4_feedback_header(local, destination, total_len));
    }
    let header_checksum: u16 = checksum(out.as_slice());
    set_word(out.as_mut_slice(), 10, header_checksum);
    append_bytes(&mut out, message.as_slice());
    out
}

fn build_ipv6_feedback(local: Ipv6Addr, destination: Ipv6Addr, packet: &[u8], mtu: u32) -> (out:
    Vec<u8>)
    ensures
        out@ == ipv6_feedback(local, destination, packet@, mtu),
{
    let quote = quote_of(packet, 1232);
    let mut message: Vec<u8> = Vec::new();
    append_bytes(&mut message, [2u8, 0, 0, 0].as_slice());
    append_u32(&mut message, mtu);
    append_bytes(&mut message, quote);
    proof {
        assert(message@ =~= ipv6_feedback_message(mtu, quoted(packet@, 1232)));
    }
    let message_checksum: u16 = upper_layer_checksum(
        &local.octets(),
        &destination.octets(),
        58,
        message.as_slice(),
    );
    set_word(message.as_mut_slice(), 2, message_checksum);
    let mut out: Vec<u8> = Vec::new();
    append_bytes(&mut out, [0x60u8, 0, 0, 0].as_slice());
    append_u16(&mut out, message.len() as u16);
    append_bytes(&mut out, [58u8, 64].as_slice());
    append_ipv6(&mut out, local);
    append_ipv6(&mut out, destination);
    proof {
        assert(out@ =~= ipv6_feedback_header(local, destination, message@.len() as u16));
    }
    append_bytes(&mut out, message.as_slice());
    out
}

fn mtu_u16(mtu: usize) -> (converted: Option<u16>)
    ensures
        converted == if mtu <= 0xffff {
            Some(mtu as u16)
        } else {
            None
        },
{
    if mtu <= 0xffff {
        Some(mtu as u16)
    } else {
        None
    }
}

fn mtu_u32(mtu: usize) -> (converted: Option<u32>)
    ensures
        converted == if mtu <= 0xffff_ffff {
            Some(mtu as u32)
        } else {
            None
        },
{
    if mtu <= 0xffff_ffff {
        Some(mtu as u32)
    } else {
        None
    }
}

/// The result for an IPv4 source.
pub open spec fn ipv4_outcome(
    local: Ipv4Addr,
    destination: Ipv4Addr,
    packet: Seq<u8>,
    mtu: usize,
) -> Result<Seq<u8>, PmtuFeedbackError> {
    if mtu <= 0xffff {
        Ok(ipv4_feedback(local, destination, packet, mtu as u16))
    } else {
        Err(PmtuFeedbackError::InvalidMtu(mtu))
    }
}

/// The result for an IPv6 source.
pub open spec fn ipv6_outcome(
    local: Ipv6Addr,
    destination: Ipv6Addr,
    packet: Seq<u8>,
    mtu: usize,
) -> Result<Seq<u8>, PmtuFeedbackError> {
    if mtu <= 0xffff_ffff {
        Ok(ipv6_feedback(local, destination, packet, mtu as u32))
    } else {
        Err(PmtuFeedbackError::InvalidMtu(mtu))
    }
}

fn build_icmpv4_fragmentation_needed(
    local: Ipv4Addr,
    destination: Ipv4Addr,
    invoking_packet: &[u8],
    tunnel_mtu: usize,
) -> (result: Result<Vec<u8>, PmtuFeedbackError>)
    ensures
        feedback_result(result) == ipv4_outcome(local, destination, invoking_packet@, tunnel_mtu),
{
    match mtu_u16(tunnel_mtu) {
        Some(mtu) => Ok(build_ipv4_feedback(local, destination, invoking_packet, mtu)),
        None => Err(PmtuFeedbackError::InvalidMtu(tunnel_mtu)),
    }
}

fn build_icmpv6_packet_too_big(
    local: Ipv6Addr,
    destination: Ipv6Addr,
    invoking_packet: &[u8],
    tunnel_mtu: usize,
) -> (result: Result<Vec<u8>, PmtuFeedbackError>)
    ensures
        feedback_result(result) == ipv6_outcome(local, destination, invoking_packet@, tunnel_mtu),
{
    match mtu_u32(tunnel_mtu) {
        Some(mtu) => Ok(build_ipv6_feedback(local, destination, invoking_packet, mtu)),
        None => Err(PmtuFeedbackError::InvalidMtu(tunnel_mtu)),
    }
}

fn is_ipv4_error(packet: &[u8]) -> (b: bool)
    requires
        packet@.len() > 0,
    ensures
        b == (ipv4_header_len(packet@) < packet@.len() && (packet@[ipv4_header_len(packet@)] == 3
            || packet@[ipv4_header_len(packet@)] == 4 || packet@[ipv4_header_len(packet@)] == 5
            || packet@[ipv4_header_len(packet@)] == 11 || packet@[ipv4_header_len(packet@)] == 12)),
{
    let header_len: usize = (packet[0] % 16) as usize * 4;
    if header_len >= packet.len() {
        return false;
    }
    matches!(packet[header_len], 3 | 4 | 5 | 11 | 12)
}

/// Whether a packet must not be answered with an error.
pub fn suppress_icmp_error(packet: &[u8], parsed: MulticastPacket) -> (suppress: bool)
    requires
        parsed.source is V4 && parsed.ip_protocol == 1 && !parsed.fragmented ==> packet@.len() > 0,
    ensures
        suppress == must_not_answer(packet@, parsed),
{
    match parsed.source {
        IpAddr::V4(_) => parsed.ip_protocol == 1 && (parsed.fragmented || is_ipv4_error(packet)),
        IpAddr::V6(_) => match ipv6_upper_layer(packet) {
            None => true,
            Some((protocol, offset)) => protocol == 58 && (offset >= packet.len() || packet[offset]
                < 128),
        },
    }
}

/// The upper-layer protocol of an IPv6 packet and where it starts.
pub fn ipv6_upper_layer(packet: &[u8]) -> (found: Option<(u8, usize)>)
    ensures
        match found {
            Some((protocol, offset)) => upper_layer(packet@) == Some((protocol, offset as int)),
            None => upper_layer(packet@) is None,
        },
{
    let length: usize = packet.len();
    if length <= 6 {
        return None;
    }
    let mut next: u8 = packet[6];
    let mut offset: usize = 40;
    let mut steps: usize = 16;
    while steps > 0
        invariant
            length == packet@.len(),
            length > 6,
            offset == 40 || offset <= length,
            steps <= 16,
            upper_layer(packet@) == upper_layer_from(packet@, next, offset as int, steps as nat),
        decreases steps,
    {
        if next == 0 || next == 43 || next == 60 {
            if offset >= length || length - offset < 2 {
                return None;
            }
            let header_len: usize = (packet[offset + 1] as usize + 1) * 8;
            if header_len > length - offset {
                return None;
            }
            next = packet[offset];
            offset += header_len;
        } else if next == 44 {
            if offset >= length || length - offset < 4 {
                return None;
            }
            if crate::bytes::read_u16_at(packet, offset + 2) / 8 != 0 || length - offset < 8 {
                return None;
            }
            next = packet[offset];
            offset += 8;
        } else if next == 51 {
            if offset >= length || length - offset < 2 {
                return None;
            }
            let header_len: usize = (packet[offset + 1] as usize + 2) * 4;
            if header_len > length - offset {
                return None;
            }
            next = packet[offset];
            offset += header_len;
        } else {
            if offset <= length {
                return Some((next, offset));
            }
            return None;
        }
        steps -= 1;
    }
    None
}

/// What to do about one packet that does not fit.
#[derive(Debug, PartialEq, Eq)]
pub enum PmtuFeedback {
    Send(Vec<u8>),
    RateLimited,
    Suppressed,
    AddressFamilyUnavailable,
}

/// A [`PmtuFeedback`] with its datagram as a sequence.
pub enum FeedbackModel {
    Send(Seq<u8>),
    RateLimited,
    Suppressed,
    AddressFamilyUnavailable,
}

impl View for PmtuFeedback {
    type V = FeedbackModel;

    open spec fn view(&self) -> FeedbackModel {
        match *self {
            PmtuFeedback::Send(datagram) => FeedbackModel::Send(datagram@),
            PmtuFeedback::RateLimited => FeedbackModel::RateLimited,
            PmtuFeedback::Suppressed => FeedbackModel::Suppressed,
            PmtuFeedback::AddressFamilyUnavailable => FeedbackModel::AddressFamilyUnavailable,
        }
    }
}

/// A decision on feedback with its datagram as a sequence.
pub open spec fn decided(result: Result<PmtuFeedback, PmtuFeedbackError>) -> Result<
    FeedbackModel,
    PmtuFeedbackError,
> {
    match result {
        Ok(feedback) => Ok(feedback@),
        Err(error) => Err(error),
    }
}

/// The decision on feedback for a packet that does not fit, and the feedback
/// given so far as it then counts: there is none across address families, none
/// on errors, and none to a flow that was told a moment ago.
pub open spec fn feedback_decision(
    local: IpAddr,
    limiter: FeedbackRateLimiter,
    now: Instant,
    packet: Seq<u8>,
    tunnel_mtu: usize,
) -> (Seq<Given>, Result<FeedbackModel, PmtuFeedbackError>) {
    match multicast_packet(packet) {
        Err(error) => (limiter.given(), Err(PmtuFeedbackError::InvalidPacket(error))),
        Ok(parsed) => {
            let flow = Flow { source: parsed.source, group: parsed.group };
            let counting = still_counting(limiter.given(), now, limiter.interval());
            if !same_family_spec(local, parsed.source) {
                (limiter.given(), Ok(FeedbackModel::AddressFamilyUnavailable))
            } else if must_not_answer(packet, parsed) {
                (limiter.given(), Ok(FeedbackModel::Suppressed))
            } else if mentions(counting, flow) || counting.len() >= limiter.capacity() {
                (counting, Ok(FeedbackModel::RateLimited))
            } else {
                (
                    counting.push((flow, now)),
                    match feedback_for(local, packet, tunnel_mtu) {
                        Ok(datagram) => Ok(FeedbackModel::Send(datagram)),
                        Err(error) => Err(error),
                    },
                )
            }
        },
    }
}

/// Decides on feedback; the caller owns the socket that sends it.
#[derive(Debug)]
pub struct PmtuFeedbackSender {
    pub local_address: IpAddr,
    pub limiter: FeedbackRateLimiter,
}

/// How many flows a sender tracks.
pub const TRACKED_FLOWS: usize = 4_096;

impl PmtuFeedbackSender {
    pub open spec fn wf(&self) -> bool {
        self.limiter.wf()
    }

    /// A sender for feedback from a local address, once a second and flow.
    pub fn new(local_address: IpAddr) -> (result: Result<Self, PmtuFeedbackError>)
        ensures
            match result {
                Ok(sender) => {
                    &&& !local_address.unspecified_spec()
                    &&& !local_address.multicast_spec()
                    &&& sender.wf()
                    &&& sender.local_address == local_address
                    &&& sender.limiter.given() == Seq::<Given>::empty()
                    &&& sender.limiter.interval() == Duration::secs_spec(1)
                    &&& sender.limiter.capacity() == TRACKED_FLOWS
                },
                Err(error) => {
                    &&& local_address.unspecified_spec() || local_address.multicast_spec()
                    &&& error == PmtuFeedbackError::InvalidLocalAddress(local_address)
                },
            },
    {
        if local_address.is_unspecified() || local_address.is_multicast() {
            return Err(PmtuFeedbackError::InvalidLocalAddress(local_address));
        }
        Ok(
            PmtuFeedbackSender {
                local_address,
                limiter: FeedbackRateLimiter::new(Duration::from_secs(1), TRACKED_FLOWS),
            },
        )
    }

    pub fn local_address(&self) -> (address: IpAddr)
        ensures
            address == self.local_address,
    {
        self.local_address
    }

    /// Decides on the feedback for a packet that does not fit.
    pub fn prepare(&mut self, now: Instant, invoking_packet: &[u8], tunnel_mtu: usize) -> (result:
        Result<PmtuFeedback, PmtuFeedbackError>)
        requires
            old(self).wf(),
        ensures
            final(self).wf(),
            final(self).local_address == old(self).local_address,
            final(self).limiter.interval() == old(self).limiter.interval(),
            final(self).limiter.capacity() == old(self).limiter.capacity(),
            (final(self).limiter.given(), decided(result)) == feedback_decision(
                old(self).local_address,
                old(self).limiter,
                now,
                invoking_packet@,
                tunnel_mtu,
            ),
    {
        let parsed = match parse_multicast_packet(invoking_packet) {
            Ok(parsed) => parsed,
            Err(error) => return Err(PmtuFeedbackError::InvalidPacket(error)),
        };
        if !same_family(self.local_address, parsed.source) {
            return Ok(PmtuFeedback::AddressFamilyUnavailable);
        }
        if suppress_icmp_error(invoking_packet, parsed) {
            return Ok(PmtuFeedback::Suppressed);
        }
        if !self.limiter.allow(now, parsed.source, parsed.group) {
            return Ok(PmtuFeedback::RateLimited);
        }
        match build_pmtu_feedback(self.local_address, invoking_packet, tunnel_mtu) {
            Ok(datagram) => Ok(PmtuFeedback::Send(datagram)),
            Err(error) => Err(error),
        }
    }
}

/// Feedback quotes the start of the packet it is about, fits every path of its
/// family and carries valid checksums.
pub proof fn law_ipv4_feedback_is_valid(
    local: Ipv4Addr,
    destination: Ipv4Addr,
    packet: Seq<u8>,
    mtu: u16,
)
    ensures
        ipv4_feedback(local, destination, packet, mtu).len() == 28 + quoted(packet, 548).len(),
        ipv4_feedback(local, destination, packet, mtu).len() <= 576,
        ones_sum(ipv4_feedback(local, destination, packet, mtu).take(20)) == 0xffff,
        ones_sum(ipv4_feedback(local, destination, packet, mtu).skip(20)) == 0xffff,
        ipv4_feedback(local, destination, packet, mtu).skip(28) == quoted(packet, 548),
{
    let message = ipv4_feedback_message(mtu, quoted(packet, 548));
    let header = ipv4_feedback_header(local, destination, (20 + message.len()) as u16);
    let s = ipv4_feedback(local, destination, packet, mtu);
    crate::net::lemma_ipv4_octets_read_back(local);
    crate::net::lemma_ipv4_octets_read_back(destination);
    assert(header.len() == 20);
    assert(header[10] == 0 && header[11] == 0);
    assert(message[2] == 0 && message[3] == 0);
    lemma_stored_checksum_verifies(header, 10);
    lemma_stored_checksum_verifies(message, 2);
    assert(s.take(20) =~= with_word(header, 10, checksum_of(header)));
    assert(s.skip(20) =~= with_word(message, 2, checksum_of(message)));
    assert(s.skip(28) =~= quoted(packet, 548));
}

/// Feedback quotes the start of the packet it is about, fits every path of its
/// family and carries a valid checksum.
pub proof fn law_ipv6_feedback_is_valid(
    local: Ipv6Addr,
    destination: Ipv6Addr,
    packet: Seq<u8>,
    mtu: u32,
)
    ensures
        ipv6_feedback(local, destination, packet, mtu).len() == 48 + quoted(packet, 1232).len(),
        ipv6_feedback(local, destination, packet, mtu).len() <= 1280,
        checksum_of(
            upper_layer_input(
                ipv6_octets(local),
                ipv6_octets(destination),
                58,
                ipv6_feedback(local, destination, packet, mtu).skip(40),
            ),
        ) == 0,
        ipv6_feedback(local, destination, packet, mtu).skip(48) == quoted(packet, 1232),
{
    let message = ipv6_feedback_message(mtu, quoted(packet, 1232));
    let header = ipv6_feedback_header(local, destination, message.len() as u16);
    let s = ipv6_feedback(local, destination, packet, mtu);
    crate::net::lemma_ipv6_octets_read_back(local);
    crate::net::lemma_ipv6_octets_read_back(destination);
    let from = ipv6_octets(local);
    let to = ipv6_octets(destination);
    assert(header.len() == 40);
    assert(message[2] == 0 && message[3] == 0);
    lemma_stored_upper_layer_checksum_verifies(from, to, 58, message, 2);
    let sum = checksum_of(upper_layer_input(from, to, 58, message));
    assert(s.skip(40) =~= with_word(message, 2, sum));
    assert(s.skip(48) =~= quoted(packet, 1232));
}

/// A Fragmentation Needed message, byte by byte: from the given address to the
/// source of the packet that did not fit, of type 3 and code 4, with the MTU in
/// its place and as much of the packet as fits behind it.
#[verifier::rlimit(40)]
pub proof fn law_ipv4_feedback_is_laid_out(local: IpAddr, packet: Seq<u8>, mtu: usize)
    requires
        feedback_for(local, packet, mtu) is Ok,
        local is V4,
    ensures
        ({
            let s = feedback_for(local, packet, mtu)->Ok_0;
            &&& s.len() >= 28
            &&& s[0] == 0x45 && s[2] * 256 + s[3] == s.len()
            &&& s[6] == 0 && s[7] == 0 && s[8] == 64 && s[9] == 1
            &&& spells(s, 12, local)
            &&& s.subrange(16, 20) == packet.subrange(12, 16)
            &&& s[20] == 3 && s[21] == 4 && s[24] == 0 && s[25] == 0
            &&& s[26] * 256 + s[27] == mtu
            &&& s.skip(28) == packet.take(
                if packet.len() < 548 {
                    packet.len() as int
                } else {
                    548
                },
            )
        }),
{
    let parsed = multicast_packet(packet)->Ok_0;
    crate::ip::law_multicast_packets_are_read_by_offset(packet, parsed.source, parsed.group);
    let from = local->V4_0;
    let to = parsed.source->V4_0;
    let quote = quoted(packet, 548);
    assert(packet.take(packet.len() as int) =~= packet);
    let message = ipv4_feedback_message(mtu as u16, quote);
    assert(message.len() == 8 + quote.len());
    let length = (20 + message.len()) as u16;
    let header = ipv4_feedback_header(from, to, length);
    let s = ipv4_feedback(from, to, packet, mtu as u16);
    law_ipv4_feedback_is_valid(from, to, packet, mtu as u16);
    crate::net::lemma_ipv4_octets_read_back(from);
    crate::net::lemma_ipv4_octets_read_back(to);
    crate::net::law_octets_spell_the_address(local);
    crate::net::law_octets_spell_the_address(parsed.source);
    crate::bytes::lemma_u16_bytes_read_back(length);
    crate::bytes::lemma_u16_bytes_read_back(mtu as u16);
    assert(header.len() == 20);
    let front = with_word(header, 10, checksum_of(header));
    let back = with_word(message, 2, checksum_of(message));
    assert(s == front + back);
    assert(header[2] == u16_bytes(length)[0] && header[3] == u16_bytes(length)[1]);
    let a = ipv4_octets(from);
    assert(header[12] == a[0] && header[13] == a[1] && header[14] == a[2] && header[15] == a[3]);
    assert(message[6] == u16_bytes(mtu as u16)[0] && message[7] == u16_bytes(mtu as u16)[1]);
    let b = ipv4_octets(to);
    assert(header.subrange(16, 20) =~= b);
    assert(s.subrange(16, 20) =~= b);
    crate::net::law_octets_are_the_bytes_spelled(packet, 12, parsed.source);
}

/// A Packet Too Big message, byte by byte: from the given address to the source
/// of the packet that did not fit, of type 2 and code 0, with the MTU in its
/// place and as much of the packet as fits behind it.
#[verifier::rlimit(40)]
pub proof fn law_ipv6_feedback_is_laid_out(local: IpAddr, packet: Seq<u8>, mtu: usize)
    requires
        feedback_for(local, packet, mtu) is Ok,
        local is V6,
    ensures
        ({
            let s = feedback_for(local, packet, mtu)->Ok_0;
            &&& s.len() >= 48
            &&& s[0] == 0x60 && 40 + s[4] * 256 + s[5] == s.len()
            &&& s[6] == 58 && s[7] == 64
            &&& spells(s, 8, local)
            &&& s.subrange(24, 40) == packet.subrange(8, 24)
            &&& s[40] == 2 && s[41] == 0
            &&& s[44] * 0x100_0000 + s[45] * 0x1_0000 + s[46] * 0x100 + s[47] == mtu
            &&& s.skip(48) == packet.take(
                if packet.len() < 1232 {
                    packet.len() as int
                } else {
                    1232
                },
            )
        }),
{
    let parsed = multicast_packet(packet)->Ok_0;
    crate::ip::law_multicast_packets_are_read_by_offset(packet, parsed.source, parsed.group);
    let from = local->V6_0;
    let to = parsed.source->V6_0;
    let quote = quoted(packet, 1232);
    assert(packet.take(packet.len() as int) =~= packet);
    let message = ipv6_feedback_message(mtu as u32, quote);
    assert(message.len() == 8 + quote.len());
    let length = message.len() as u16;
    let header = ipv6_feedback_header(from, to, length);
    let s = ipv6_feedback(from, to, packet, mtu as u32);
    law_ipv6_feedback_is_valid(from, to, packet, mtu as u32);
    crate::net::lemma_ipv6_octets_read_back(from);
    crate::net::lemma_ipv6_octets_read_back(to);
    crate::bytes::lemma_u16_bytes_read_back(length);
    crate::bytes::lemma_u32_bytes_read_back(mtu as u32);
    assert(header.len() == 40);
    let sum = checksum_of(upper_layer_input(ipv6_octets(from), ipv6_octets(to), 58, message));
    let back = with_word(message, 2, sum);
    assert(s == header + back);
    assert(header[4] == u16_bytes(length)[0] && header[5] == u16_bytes(length)[1]);
    let word = u32_bytes(mtu as u32);
    assert(message[4] == word[0] && message[5] == word[1] && message[6] == word[2] && message[7]
        == word[3]);
    assert(s.subrange(8, 24) =~= ipv6_octets(from));
    assert(crate::net::ipv6_at(s, 8) == from);
    crate::net::law_addresses_are_spelled_by_their_octets(s, 8, local);
    assert(s.subrange(24, 40) =~= ipv6_octets(to));
    crate::net::law_octets_are_the_bytes_spelled(packet, 8, parsed.source);
}

/// Whom feedback can be built for: every multicast packet whose source is of the
/// family of the address that it comes from, with an MTU that the message can
/// hold.
pub proof fn law_feedback_can_be_built(local: IpAddr, packet: Seq<u8>, mtu: usize)
    ensures
        feedback_for(local, packet, mtu) is Ok <==> multicast_packet(packet) is Ok && (
        local is V4) == (multicast_packet(packet)->Ok_0.source is V4) && (local is V4 ==> mtu
            <= 0xffff) && mtu <= 0xffff_ffff,
{
}

/// Which packets are not answered: of IPv4, ICMP errors and any fragment of an
/// ICMP message; of IPv6 without further headers, ICMPv6 errors.
pub proof fn law_errors_are_not_answered(packet: Seq<u8>)
    requires
        multicast_packet(packet) is Ok,
    ensures
        ({
            let silent = must_not_answer(packet, multicast_packet(packet)->Ok_0);
            let header = packet[0] % 16 * 4;
            &&& packet[0] / 16 == 4 && packet[9] != 1 ==> !silent
            &&& packet[0] / 16 == 4 && packet[9] == 1 && (packet[6] % 0x40 != 0 || packet[7] != 0)
                ==> silent
            &&& packet[0] / 16 == 4 && packet[9] == 1 && packet[6] % 0x40 == 0 && packet[7] == 0
                && header < packet.len() ==> (silent <==> packet[header] == 3 || packet[header] == 4
                || packet[header] == 5 || packet[header] == 11 || packet[header] == 12)
            &&& packet[0] / 16 == 6 && packet[6] == 58 && packet.len() > 40 ==> (silent
                <==> packet[40] < 128)
            &&& packet[0] / 16 == 6 && packet[6] != 58 && packet[6] != 0 && packet[6] != 43
                && packet[6] != 44 && packet[6] != 51 && packet[6] != 60 ==> !silent
        }),
{
    let parsed = multicast_packet(packet)->Ok_0;
    crate::ip::law_multicast_packets_are_read_by_offset(packet, parsed.source, parsed.group);
    reveal_with_fuel(upper_layer_from, 2);
}

/// The upper layer of an IPv6 packet is found behind its extension headers: a
/// hop-by-hop, routing or destination header gives its length in words of eight
/// without the first, an authentication header in words of four without the first
/// two, a fragment header has eight bytes and is passed only in a first fragment.
pub proof fn law_upper_layers_are_behind_extensions(
    s: Seq<u8>,
    next: u8,
    offset: int,
    steps: nat,
)
    requires
        0 <= offset,
        offset + 8 <= s.len(),
        steps > 0,
    ensures
        ({
            let found = upper_layer_from(s, next, offset, steps);
            let behind = |length: int|
                if offset + length > s.len() {
                    None
                } else {
                    upper_layer_from(s, s[offset], offset + length, (steps - 1) as nat)
                };
            &&& next == 0 || next == 43 || next == 60 ==> found == behind(8 + s[offset + 1] * 8)
            &&& next == 51 ==> found == behind(8 + s[offset + 1] * 4)
            &&& next == 44 ==> found == if s[offset + 2] == 0 && s[offset + 3] < 8 {
                behind(8)
            } else {
                None
            }
            &&& next != 0 && next != 43 && next != 44 && next != 51 && next != 60 ==> found == Some(
                (next, offset),
            )
        }),
{
    assert(u16_at(s, offset + 2) / 8 == s[offset + 2] * 32 + s[offset + 3] / 8);
}

/// Feedback goes out for the first packet of a flow that does not fit and may be
/// answered, as long as there is room to remember the flow; it is remembered with
/// the time.
pub proof fn law_first_packets_are_answered(
    local: IpAddr,
    limiter: FeedbackRateLimiter,
    now: Instant,
    packet: Seq<u8>,
    mtu: usize,
)
    requires
        feedback_for(local, packet, mtu) is Ok,
        !must_not_answer(packet, multicast_packet(packet)->Ok_0),
        limiter.given().len() < limiter.capacity(),
        forall|i: int|
            0 <= i < limiter.given().len() ==> (#[trigger] limiter.given()[i]).0 != (Flow {
                source: multicast_packet(packet)->Ok_0.source,
                group: multicast_packet(packet)->Ok_0.group,
            }),
    ensures
        ({
            let (given, decision) = feedback_decision(local, limiter, now, packet, mtu);
            &&& decision == Ok::<FeedbackModel, PmtuFeedbackError>(
                FeedbackModel::Send(feedback_for(local, packet, mtu)->Ok_0),
            )
            &&& given.len() > 0
            &&& given.last() == (
                Flow {
                    source: multicast_packet(packet)->Ok_0.source,
                    group: multicast_packet(packet)->Ok_0.group,
                },
                now,
            )
        }),
{
    lemma_counting_is_given(limiter.given(), now, limiter.interval());
    let counting = still_counting(limiter.given(), now, limiter.interval());
    assert forall|i: int| 0 <= i < counting.len() implies (#[trigger] counting[i]).0 != (Flow {
        source: multicast_packet(packet)->Ok_0.source,
        group: multicast_packet(packet)->Ok_0.group,
    }) by {
        let k = limiter.given().len() - counting.len() + i;
        assert(counting[i] == limiter.given()[k]);
    }
}

proof fn lemma_counting_is_given(given: Seq<Given>, now: Instant, interval: Duration)
    ensures
        ({
            let counting = still_counting(given, now, interval);
            &&& counting.len() <= given.len()
            &&& forall|i: int|
                0 <= i < counting.len() ==> #[trigger] counting[i] == given[given.len()
                    - counting.len() + i]
        }),
    decreases given.len(),
{
    if given.len() > 0 && lapsed(given[0], now, interval) {
        lemma_counting_is_given(given.skip(1), now, interval);
    }
}

/// What is said where there is no feedback on a packet is true of the packet, of
/// the address to send from, or of the MTU.
pub proof fn law_feedback_refusals_are_true(local: IpAddr, packet: Seq<u8>, mtu: usize)
    ensures
        feedback_for(local, packet, mtu) matches Err(error) ==> match error {
            PmtuFeedbackError::InvalidPacket(reason) => multicast_packet(packet) matches Err(told)
                && told == reason,
            PmtuFeedbackError::InvalidLocalAddress(address) => address == local && (
            multicast_packet(packet) matches Ok(parsed) && (parsed.source is V4) != (local is V4)),
            PmtuFeedbackError::InvalidMtu(told) => told == mtu && mtu > if local is V4 {
                0xffffint
            } else {
                0xffff_ffff
            },
        },
{
}

} // verus!
