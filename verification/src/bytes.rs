//! Big-endian integers in byte sequences.

use vstd::arithmetic::power::pow;
use vstd::prelude::*;

verus! {

/// The 16-bit big-endian word that starts at `i`.
pub open spec fn u16_at(s: Seq<u8>, i: int) -> int {
    s[i] * 256 + s[i + 1]
}

/// The 32-bit big-endian word that starts at `i`.
pub open spec fn u32_at(s: Seq<u8>, i: int) -> int {
    s[i] * 16777216 + s[i + 1] * 65536 + s[i + 2] * 256 + s[i + 3]
}

/// The value of a whole byte sequence read as one big-endian number.
pub open spec fn be_value(s: Seq<u8>) -> nat
    decreases s.len(),
{
    if s.len() == 0 {
        0
    } else {
        be_value(s.drop_last()) * 256 + s.last() as nat
    }
}

/// The `n` lowest-order bytes of `v`, most significant first.
pub open spec fn be_bytes(v: nat, n: nat) -> Seq<u8>
    decreases n,
{
    if n == 0 {
        Seq::empty()
    } else {
        be_bytes(v / 256, (n - 1) as nat).push((v % 256) as u8)
    }
}

/// `256` to the power of `n`: the number of values that `n` bytes can hold.
pub open spec fn byte_span(n: nat) -> nat
    decreases n,
{
    if n == 0 {
        1
    } else {
        byte_span((n - 1) as nat) * 256
    }
}

pub proof fn lemma_be_bytes_len(v: nat, n: nat)
    ensures
        be_bytes(v, n).len() == n,
    decreases n,
{
    if n > 0 {
        lemma_be_bytes_len(v / 256, (n - 1) as nat);
    }
}

/// Reading back the bytes of a number gives the number.
pub proof fn lemma_value_of_bytes(v: nat, n: nat)
    requires
        v < byte_span(n),
    ensures
        be_bytes(v, n).len() == n,
        be_value(be_bytes(v, n)) == v,
    decreases n,
{
    lemma_be_bytes_len(v, n);
    if n > 0 {
        let m = (n - 1) as nat;
        assert(v / 256 < byte_span(m));
        lemma_value_of_bytes(v / 256, m);
        assert(be_bytes(v, n).drop_last() =~= be_bytes(v / 256, m));
        assert(v == (v / 256) * 256 + v % 256);
    }
}

/// Writing out the number that some bytes stand for gives the bytes.
pub proof fn lemma_bytes_of_value(s: Seq<u8>)
    ensures
        be_value(s) < byte_span(s.len()),
        be_bytes(be_value(s), s.len()) == s,
    decreases s.len(),
{
    if s.len() > 0 {
        let front = s.drop_last();
        lemma_bytes_of_value(front);
        let v = be_value(front);
        assert((v * 256 + s.last() as nat) / 256 == v);
        assert((v * 256 + s.last() as nat) % 256 == s.last() as nat);
        assert(front.push(s.last()) =~= s);
        assert(be_bytes(be_value(s), s.len()) =~= s);
    } else {
        assert(be_bytes(0, 0) =~= s);
    }
}

/// The value of a four-byte sequence, byte by byte.
pub proof fn lemma_be_value_four(s: Seq<u8>)
    requires
        s.len() == 4,
    ensures
        be_value(s) == u32_at(s, 0),
{
    let s3 = s.drop_last();
    let s2 = s3.drop_last();
    let s1 = s2.drop_last();
    let s0 = s1.drop_last();
    assert(be_value(s0) == 0);
    assert(be_value(s1) == s[0] as nat);
    assert(be_value(s2) == s[0] * 256 + s[1]);
    assert(be_value(s3) == s[0] * 65536 + s[1] * 256 + s[2]);
}

/// The two bytes of a 16-bit word.
pub open spec fn u16_bytes(v: u16) -> Seq<u8> {
    seq![(v / 256) as u8, (v % 256) as u8]
}

/// The four bytes of a 32-bit word.
pub open spec fn u32_bytes(v: u32) -> Seq<u8> {
    seq![
        (v / 16777216) as u8,
        ((v / 65536) % 256) as u8,
        ((v / 256) % 256) as u8,
        (v % 256) as u8,
    ]
}

/// A word is read back from where its bytes were written.
pub proof fn lemma_u16_bytes_read_back(v: u16)
    ensures
        u16_bytes(v).len() == 2,
        u16_at(u16_bytes(v), 0) == v,
{
}

/// A word is read back from where its bytes were written.
pub proof fn lemma_u32_bytes_read_back(v: u32)
    ensures
        u32_bytes(v).len() == 4,
        u32_at(u32_bytes(v), 0) == v,
{
    let v = v as int;
    let a = v / 256;
    let b = a / 256;
    let c = b / 256;
    assert(v / 65536 == b);
    assert(v / 16777216 == c);
    assert(v == a * 256 + v % 256);
    assert(a == b * 256 + a % 256);
    assert(b == c * 256 + b % 256);
}

/// The bytes of the word at `i` are the bytes there.
pub proof fn lemma_u16_of_bytes(s: Seq<u8>, i: int)
    requires
        0 <= i,
        i + 2 <= s.len(),
    ensures
        0 <= u16_at(s, i) <= 0xffff,
        u16_bytes(u16_at(s, i) as u16) == s.subrange(i, i + 2),
{
    let v = u16_at(s, i);
    assert(v / 256 == s[i] && v % 256 == s[i + 1]);
    assert(u16_bytes(v as u16) =~= s.subrange(i, i + 2));
}

/// The bytes of the word at `i` are the bytes there.
pub proof fn lemma_u32_of_bytes(s: Seq<u8>, i: int)
    requires
        0 <= i,
        i + 4 <= s.len(),
    ensures
        0 <= u32_at(s, i) <= 0xffff_ffff,
        u32_bytes(u32_at(s, i) as u32) == s.subrange(i, i + 4),
{
    let a = s[i] as int;
    let b = s[i + 1] as int;
    let c = s[i + 2] as int;
    let d = s[i + 3] as int;
    let v = u32_at(s, i);
    assert(v == a * 16777216 + b * 65536 + c * 256 + d);
    assert(v / 16777216 == a);
    assert(v / 65536 == a * 256 + b);
    assert((a * 256 + b) % 256 == b);
    assert(v / 256 == (a * 256 + b) * 256 + c);
    assert(((a * 256 + b) * 256 + c) % 256 == c);
    assert(v % 256 == d);
    assert(u32_bytes(v as u32) =~= s.subrange(i, i + 4));
}

/// Appends a copy of `bytes`.
pub fn append_bytes(out: &mut Vec<u8>, bytes: &[u8])
    ensures
        final(out)@ == old(out)@ + bytes@,
{
    out.extend_from_slice(bytes);
    proof {
        assert(out@ =~= old(out)@ + bytes@);
    }
}

/// Appends a 16-bit word, most significant byte first.
pub fn append_u16(out: &mut Vec<u8>, value: u16)
    ensures
        final(out)@ == old(out)@ + u16_bytes(value),
{
    out.push((value / 256) as u8);
    out.push((value % 256) as u8);
    proof {
        assert(out@ =~= old(out)@ + u16_bytes(value));
    }
}

/// Appends a 32-bit word, most significant byte first.
pub fn append_u32(out: &mut Vec<u8>, value: u32)
    ensures
        final(out)@ == old(out)@ + u32_bytes(value),
{
    out.push((value / 16777216) as u8);
    out.push(((value / 65536) % 256) as u8);
    out.push(((value / 256) % 256) as u8);
    out.push((value % 256) as u8);
    proof {
        assert(out@ =~= old(out)@ + u32_bytes(value));
    }
}

/// Reads the 16-bit big-endian word at `offset`.
pub fn read_u16_at(input: &[u8], offset: usize) -> (value: u16)
    requires
        offset + 2 <= input@.len(),
    ensures
        value == u16_at(input@, offset as int),
{
    input[offset] as u16 * 256 + input[offset + 1] as u16
}

/// Reads the 32-bit big-endian word at `offset`.
pub fn read_u32_at(input: &[u8], offset: usize) -> (value: u32)
    requires
        offset + 4 <= input@.len(),
    ensures
        value == u32_at(input@, offset as int),
{
    input[offset] as u32 * 16777216 + input[offset + 1] as u32 * 65536 + input[offset + 2] as u32
        * 256 + input[offset + 3] as u32
}

/// Copies `input[from..to]` into a fresh vector.
pub fn copy_range(input: &[u8], from: usize, to: usize) -> (out: Vec<u8>)
    requires
        from <= to <= input@.len(),
    ensures
        out@ == input@.subrange(from as int, to as int),
{
    let mut out: Vec<u8> = Vec::with_capacity(to - from);
    append_bytes(&mut out, vstd::slice::slice_subrange(input, from, to));
    proof {
        assert(out@ =~= input@.subrange(from as int, to as int));
    }
    out
}

proof fn lemma_byte_span_is_a_power(n: nat)
    ensures
        byte_span(n) == pow(256, n),
    decreases n,
{
    vstd::arithmetic::power::lemma_pow0(256);
    if n > 0 {
        lemma_byte_span_is_a_power((n - 1) as nat);
        assert(pow(256, n) == 256 * pow(256, (n - 1) as nat)) by {
            reveal(pow);
        }
    }
}

/// The bytes of a number are its digits to the base 256, the most significant
/// one first.
pub proof fn law_bytes_are_digits(v: nat, n: nat, i: int)
    requires
        0 <= i < n,
    ensures
        be_bytes(v, n).len() == n,
        be_bytes(v, n)[i] as int == (v as int / pow(256, (n - 1 - i) as nat)) % 256,
    decreases n,
{
    lemma_be_bytes_len(v, n);
    lemma_be_bytes_len(v / 256, (n - 1) as nat);
    if i == n - 1 {
        vstd::arithmetic::power::lemma_pow0(256);
        assert(v as int / 1 == v);
    } else {
        let k = (n - 2 - i) as nat;
        law_bytes_are_digits(v / 256, (n - 1) as nat, i);
        vstd::arithmetic::power::lemma_pow_positive(256, k);
        vstd::arithmetic::div_mod::lemma_div_denominator(v as int, 256, pow(256, k));
        assert(pow(256, k + 1) == 256 * pow(256, k)) by {
            reveal(pow);
        }
    }
}

/// The number that bytes stand for has them as its digits to the base 256, the
/// most significant one first, and no others.
pub proof fn law_values_have_their_bytes_as_digits(s: Seq<u8>, i: int)
    requires
        0 <= i < s.len(),
    ensures
        be_value(s) < pow(256, s.len()),
        (be_value(s) as int / pow(256, (s.len() - 1 - i) as nat)) % 256 == s[i],
{
    lemma_bytes_of_value(s);
    lemma_byte_span_is_a_power(s.len());
    law_bytes_are_digits(be_value(s), s.len(), i);
}

} // verus!
