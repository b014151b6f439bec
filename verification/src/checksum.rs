//! The Internet checksum: the ones' complement of a ones' complement sum of
//! 16-bit big-endian words.

use crate::bytes::{append_bytes, append_u32, u16_at, u16_bytes, u32_bytes};
use vstd::prelude::*;

verus! {

/// What the byte at position `i` counts for: the first byte of a word is its
/// high byte, the second its low byte.
pub open spec fn byte_weight(i: int) -> nat {
    if i % 2 == 0 {
        256
    } else {
        1
    }
}

/// The plain sum of the 16-bit words of `s`, an odd last byte being the high
/// byte of a word whose low byte is zero.
pub open spec fn word_sum(s: Seq<u8>) -> nat
    decreases s.len(),
{
    if s.len() == 0 {
        0
    } else {
        word_sum(s.drop_last()) + byte_weight(s.len() - 1) * s.last() as nat
    }
}

/// The ones' complement value of a plain sum: its residue modulo 65535, where
/// only the empty sum is zero.
pub open spec fn ones_complement(sum: nat) -> nat {
    if sum == 0 {
        0
    } else {
        ((sum - 1) % 65535 + 1) as nat
    }
}

/// The ones' complement sum of the words of `s`.
pub open spec fn ones_sum(s: Seq<u8>) -> u16 {
    ones_complement(word_sum(s)) as u16
}

/// The Internet checksum of `s`.
pub open spec fn checksum_of(s: Seq<u8>) -> u16 {
    (65535 - ones_sum(s)) as u16
}

/// All parts, one after the other.
pub open spec fn joined(parts: Seq<&[u8]>) -> Seq<u8>
    decreases parts.len(),
{
    if parts.len() == 0 {
        Seq::empty()
    } else {
        joined(parts.drop_last()) + parts.last()@
    }
}

/// A length as the low 32 bits that a pseudo-header carries.
pub open spec fn length_word(length: nat) -> Seq<u8> {
    u32_bytes(length as u32)
}

/// The IPv6 pseudo-header and payload that an upper-layer checksum covers.
pub open spec fn upper_layer_input(
    source: Seq<u8>,
    destination: Seq<u8>,
    next_header: u8,
    payload: Seq<u8>,
) -> Seq<u8> {
    source + destination + length_word(payload.len()) + seq![
        0u8,
        0u8,
        0u8,
        next_header,
    ] + payload
}

proof fn lemma_fold(sum: nat, word: nat)
    requires
        word < 65536,
    ensures
        ({
            let t = ones_complement(sum) + word;
            t % 65536 + t / 65536 == ones_complement(sum + word)
        }),
        ones_complement(sum) < 65536,
{
}

proof fn lemma_word_sum_push(s: Seq<u8>, b: u8)
    ensures
        word_sum(s.push(b)) == word_sum(s) + byte_weight(s.len() as int) * b as nat,
{
    assert(s.push(b).drop_last() =~= s);
}

/// The words of an even-length prefix and of what follows it add up.
pub proof fn lemma_word_sum_append(a: Seq<u8>, b: Seq<u8>)
    requires
        a.len() % 2 == 0,
    ensures
        word_sum(a + b) == word_sum(a) + word_sum(b),
    decreases b.len(),
{
    if b.len() == 0 {
        assert(a + b =~= a);
    } else {
        lemma_word_sum_append(a, b.drop_last());
        assert((a + b).drop_last() =~= a + b.drop_last());
        assert(((a.len() + b.len()) - 1) % 2 == (b.len() - 1) % 2);
    }
}

/// Overwriting one byte changes the sum by that byte alone.
pub proof fn lemma_word_sum_update(s: Seq<u8>, i: int, b: u8)
    requires
        0 <= i < s.len(),
    ensures
        word_sum(s.update(i, b)) + byte_weight(i) * s[i] as nat == word_sum(s) + byte_weight(i)
            * b as nat,
    decreases s.len(),
{
    let t = s.update(i, b);
    if i == s.len() - 1 {
        assert(t.drop_last() =~= s.drop_last());
    } else {
        lemma_word_sum_update(s.drop_last(), i, b);
        assert(t.drop_last() =~= s.drop_last().update(i, b));
    }
}

/// `s` with the word at `at` replaced by `value`.
pub open spec fn with_word(s: Seq<u8>, at: int, value: u16) -> Seq<u8> {
    s.update(at, u16_bytes(value)[0]).update(at + 1, u16_bytes(value)[1])
}

/// Storing the checksum of a header in its zeroed checksum field, at an even
/// position, makes the header sum to all ones.
pub proof fn lemma_stored_checksum_verifies(s: Seq<u8>, at: int)
    requires
        0 <= at,
        at + 2 <= s.len(),
        at % 2 == 0,
        u16_at(s, at) == 0,
    ensures
        ones_sum(with_word(s, at, checksum_of(s))) == 0xffff,
{
    let c = checksum_of(s);
    let hi = u16_bytes(c)[0];
    let lo = u16_bytes(c)[1];
    let first = s.update(at, hi);
    lemma_word_sum_update(s, at, hi);
    lemma_word_sum_update(first, at + 1, lo);
    assert(hi * 256 + lo == c);
    assert(byte_weight(at) == 256);
    assert(byte_weight(at + 1) == 1);
    assert(s[at] == 0 && s[at + 1] == 0);
    let before = word_sum(s);
    let after = word_sum(with_word(s, at, c));
    assert(after == before + c);
    lemma_fold(before, 0);
    if before == 0 {
        assert(after == 65535);
    } else {
        assert(after == before + 65535 - ((before - 1) % 65535 + 1));
        assert((after - 1) % 65535 == 65534) by {
            assert(before - 1 == ((before - 1) / 65535) * 65535 + (before - 1) % 65535);
        }
    }
}

/// A sequence sums to all ones exactly when its checksum is zero.
pub proof fn lemma_zero_checksum_is_all_ones(s: Seq<u8>)
    ensures
        ones_sum(s) == 0xffff <==> checksum_of(s) == 0,
{
    lemma_fold(word_sum(s), 0);
}

proof fn lemma_joined_push(parts: Seq<&[u8]>, i: int)
    requires
        0 <= i < parts.len(),
    ensures
        joined(parts.take(i + 1)) == joined(parts.take(i)) + parts[i]@,
{
    assert(parts.take(i + 1).drop_last() =~= parts.take(i));
}

/// The Internet checksum of `bytes`.
pub fn checksum(bytes: &[u8]) -> (sum: u16)
    ensures
        sum == checksum_of(bytes@),
{
    let sum: u16 = ones_complement_sum(bytes);
    0xffff - sum
}

/// The Internet checksum of all parts, one after the other; a part may end in
/// the middle of a word.
pub fn checksum_parts(parts: &[&[u8]]) -> (sum: u16)
    ensures
        sum == checksum_of(joined(parts@)),
{
    let sum: u16 = ones_complement_sum_parts(parts);
    0xffff - sum
}

/// The ones' complement sum of `bytes`.
pub fn ones_complement_sum(bytes: &[u8]) -> (sum: u16)
    ensures
        sum == ones_sum(bytes@),
{
    let mut state: PartialSum = PartialSum { sum: 0, high: None };
    accumulate(&mut state, bytes, Ghost(Seq::empty()));
    proof {
        assert(Seq::<u8>::empty() + bytes@ =~= bytes@);
    }
    finish(state, Ghost(bytes@))
}

fn append_length(out: &mut Vec<u8>, length: usize)
    ensures
        final(out)@ == old(out)@ + length_word(length as nat),
{
    append_u32(
        out,
        #[verifier::truncate]
        (length as u32),
    );
}

/// The checksum of an upper-layer message under its IPv6 pseudo-header.
pub fn upper_layer_checksum(
    source: &[u8; 16],
    destination: &[u8; 16],
    next_header: u8,
    payload: &[u8],
) -> (sum: u16)
    ensures
        sum == checksum_of(upper_layer_input(source@, destination@, next_header, payload@)),
{
    let mut header: Vec<u8> = Vec::with_capacity(40);
    append_bytes(&mut header, source.as_slice());
    append_bytes(&mut header, destination.as_slice());
    append_length(&mut header, payload.len());
    header.push(0);
    header.push(0);
    header.push(0);
    header.push(next_header);
    let mut state: PartialSum = PartialSum { sum: 0, high: None };
    let ghost front = header@;
    accumulate(&mut state, header.as_slice(), Ghost(Seq::empty()));
    proof {
        assert(Seq::<u8>::empty() + front =~= front);
        assert(front =~= source@ + destination@ + length_word(payload@.len())
            + seq![0u8, 0u8, 0u8, next_header]);
    }
    accumulate(&mut state, payload, Ghost(front));
    let sum: u16 = finish(state, Ghost(front + payload@));
    0xffff - sum
}

/// The checksum of an ICMPv6 message under its pseudo-header.
pub fn icmpv6_checksum(
    source: &[u8; 16],
    destination: &[u8; 16],
    next_header: u8,
    payload: &[u8],
) -> (sum: u16)
    ensures
        sum == checksum_of(upper_layer_input(source@, destination@, next_header, payload@)),
{
    upper_layer_checksum(source, destination, next_header, payload)
}

/// The ones' complement sum of all parts, one after the other.
pub fn ones_complement_sum_parts(parts: &[&[u8]]) -> (sum: u16)
    ensures
        sum == ones_sum(joined(parts@)),
{
    let mut state: PartialSum = PartialSum { sum: 0, high: None };
    let mut i: usize = 0;
    proof {
        assert(parts@.take(0) =~= Seq::empty());
    }
    while i < parts.len()
        invariant
            i <= parts@.len(),
            state.covers(joined(parts@.take(i as int))),
        decreases parts@.len() - i,
    {
        let part: &[u8] = parts[i];
        proof {
            lemma_joined_push(parts@, i as int);
        }
        accumulate(&mut state, part, Ghost(joined(parts@.take(i as int))));
        i += 1;
    }
    proof {
        assert(parts@.take(parts@.len() as int) =~= parts@);
    }
    finish(state, Ghost(joined(parts@)))
}

/// A ones' complement sum under way, with the high byte of a word whose low
/// byte has not been seen yet.
struct PartialSum {
    sum: u32,
    high: Option<u8>,
}

impl PartialSum {
    spec fn covers(self, seen: Seq<u8>) -> bool {
        if seen.len() % 2 == 0 {
            self.high is None && self.sum == ones_complement(word_sum(seen))
        } else {
            self.high == Some(seen.last()) && self.sum == ones_complement(
                word_sum(seen.drop_last()),
            )
        }
    }
}

fn add_word(sum: u32, word: u32, Ghost(before): Ghost<nat>) -> (folded: u32)
    requires
        sum == ones_complement(before),
        word < 65536,
    ensures
        folded == ones_complement(before + word as nat),
{
    proof {
        lemma_fold(before, word as nat);
    }
    let total: u32 = sum + word;
    (total % 65536) + (total / 65536)
}

fn accumulate(state: &mut PartialSum, bytes: &[u8], Ghost(seen): Ghost<Seq<u8>>)
    requires
        old(state).covers(seen),
    ensures
        final(state).covers(seen + bytes@),
{
    let mut i: usize = 0;
    proof {
        assert(seen + bytes@.take(0) =~= seen);
    }
    while i < bytes.len()
        invariant
            i <= bytes@.len(),
            state.covers(seen + bytes@.take(i as int)),
        decreases bytes@.len() - i,
    {
        let ghost now = seen + bytes@.take(i as int);
        let byte: u8 = bytes[i];
        proof {
            assert(seen + bytes@.take(i + 1) =~= now.push(byte));
            assert(now.push(byte).drop_last() =~= now);
            if now.len() % 2 != 0 {
                lemma_word_sum_push(now.drop_last(), now.last());
                assert(now.drop_last().push(now.last()) =~= now);
                lemma_word_sum_push(now, byte);
            }
        }
        match state.high {
            Some(high) => {
                let word: u32 = high as u32 * 256 + byte as u32;
                state.sum = add_word(state.sum, word, Ghost(word_sum(now.drop_last())));
                state.high = None;
            },
            None => {
                state.high = Some(byte);
            },
        }
        i += 1;
    }
    proof {
        assert(bytes@.take(bytes@.len() as int) =~= bytes@);
    }
}

fn finish(state: PartialSum, Ghost(seen): Ghost<Seq<u8>>) -> (sum: u16)
    requires
        state.covers(seen),
    ensures
        sum == ones_sum(seen),
{
    proof {
        lemma_fold(word_sum(seen), 0);
    }
    match state.high {
        Some(high) => {
            proof {
                lemma_word_sum_push(seen.drop_last(), seen.last());
                assert(seen.drop_last().push(seen.last()) =~= seen);
            }
            let sum: u32 = add_word(
                state.sum,
                high as u32 * 256,
                Ghost(word_sum(seen.drop_last())),
            );
            sum as u16
        },
        None => state.sum as u16,
    }
}

/// Storing the checksum of a message in its zeroed checksum field makes the
/// checksum under the same pseudo-header zero.
pub proof fn lemma_stored_upper_layer_checksum_verifies(
    source: Seq<u8>,
    destination: Seq<u8>,
    next_header: u8,
    payload: Seq<u8>,
    at: int,
)
    requires
        source.len() == 16,
        destination.len() == 16,
        0 <= at,
        at + 2 <= payload.len(),
        at % 2 == 0,
        u16_at(payload, at) == 0,
    ensures
        ({
            let sum = checksum_of(upper_layer_input(source, destination, next_header, payload));
            checksum_of(
                upper_layer_input(source, destination, next_header, with_word(payload, at, sum)),
            ) == 0
        }),
{
    let whole = upper_layer_input(source, destination, next_header, payload);
    let sum = checksum_of(whole);
    let after = upper_layer_input(source, destination, next_header, with_word(payload, at, sum));
    assert(u16_at(whole, 40 + at) == 0);
    lemma_stored_checksum_verifies(whole, 40 + at);
    assert(with_word(whole, 40 + at, sum) =~= after);
    lemma_zero_checksum_is_all_ones(after);
}

/// The sum that a checksum complements is over the 16-bit words of the data, the
/// first byte of each the higher one; an odd last byte is a word with zero behind
/// it.
pub proof fn law_words_add_up(s: Seq<u8>)
    ensures
        s.len() == 0 ==> word_sum(s) == 0,
        s.len() == 1 ==> word_sum(s) == s[0] * 256,
        s.len() >= 2 ==> word_sum(s) == s[0] * 256 + s[1] + word_sum(s.skip(2)),
    decreases s.len(),
{
    reveal_with_fuel(word_sum, 3);
    if s.len() == 1 {
        assert(s.drop_last() =~= Seq::empty());
    } else if s.len() == 2 {
        assert(s.drop_last().drop_last() =~= Seq::empty());
        assert(s.skip(2) =~= Seq::empty());
    } else if s.len() > 2 {
        law_words_add_up(s.drop_last());
        assert(s.skip(2).drop_last() =~= s.drop_last().skip(2));
        assert(byte_weight(s.len() - 1) == byte_weight(s.len() - 3));
    }
}

/// A checksum makes up what the words lack of a multiple of 65535; data without a
/// bit set has the largest one.
pub proof fn law_checksums_complement_the_sum(s: Seq<u8>)
    ensures
        (word_sum(s) + checksum_of(s)) % 65535 == 0,
        checksum_of(s) == 0xffff <==> word_sum(s) == 0,
        ones_sum(s) == 0xffff <==> word_sum(s) > 0 && word_sum(s) % 65535 == 0,
        checksum_of(s) == 0 <==> word_sum(s) > 0 && word_sum(s) % 65535 == 0,
{
    let sum = word_sum(s) as int;
    if sum > 0 {
        let rest = (sum - 1) % 65535;
        let times = (sum - 1) / 65535;
        assert(sum == times * 65535 + rest + 1);
        assert((times + 1) * 65535 == times * 65535 + 65535);
        assert(sum + (65535 - rest - 1) == (times + 1) * 65535);
        vstd::arithmetic::div_mod::lemma_mod_multiples_basic(times + 1, 65535);
        if rest == 65534 {
            vstd::arithmetic::div_mod::lemma_mod_multiples_basic(times + 1, 65535);
        } else {
            vstd::arithmetic::div_mod::lemma_fundamental_div_mod_converse(
                sum,
                65535,
                times,
                rest + 1,
            );
        }
    }
}

/// What an upper-layer checksum covers: the addresses, the length in 32 bits, the
/// next header in the last of four bytes, and the payload, in this order.
pub proof fn law_pseudo_headers_are_laid_out(
    source: Seq<u8>,
    destination: Seq<u8>,
    next_header: u8,
    payload: Seq<u8>,
)
    requires
        source.len() == 16,
        destination.len() == 16,
        payload.len() <= u32::MAX,
    ensures
        ({
            let s = upper_layer_input(source, destination, next_header, payload);
            &&& s.len() == 40 + payload.len()
            &&& s.take(16) == source
            &&& s.subrange(16, 32) == destination
            &&& s[32] * 0x100_0000 + s[33] * 0x1_0000 + s[34] * 0x100 + s[35] == payload.len()
            &&& s[36] == 0 && s[37] == 0 && s[38] == 0 && s[39] == next_header
            &&& s.skip(40) == payload
        }),
{
    let s = upper_layer_input(source, destination, next_header, payload);
    let word = u32_bytes(payload.len() as u32);
    crate::bytes::lemma_u32_bytes_read_back(payload.len() as u32);
    assert(s.take(16) =~= source);
    assert(s.subrange(16, 32) =~= destination);
    assert(s[32] == word[0] && s[33] == word[1] && s[34] == word[2] && s[35] == word[3]);
    assert(s.skip(40) =~= payload);
}

} // verus!
