//! Text as UTF-8 bytes.

use crate::bytes::append_bytes;
use vstd::prelude::*;
use vstd::utf8::{encode_utf8, valid_utf8};

verus! {

/// `String::from_utf8` takes bytes that are UTF-8 and gives the text that they
/// encode; of other bytes it makes no text.
#[verifier::external_body]
fn string_from_utf8(bytes: Vec<u8>) -> (text: Option<String>)
    ensures
        match text {
            Some(text) => valid_utf8(bytes@) && encode_utf8(text@) == bytes@,
            None => !valid_utf8(bytes@),
        },
{
    String::from_utf8(bytes).ok()
}

/// The text that UTF-8 bytes encode.
pub fn text_of(bytes: Vec<u8>) -> (text: String)
    requires
        valid_utf8(bytes@),
    ensures
        encode_utf8(text@) == bytes@,
{
    match string_from_utf8(bytes) {
        Some(text) => text,
        None => String::new(),
    }
}

/// Whether bytes are UTF-8.
pub fn is_utf8(bytes: &[u8]) -> (b: bool)
    ensures
        b == valid_utf8(bytes@),
{
    let mut copy: Vec<u8> = Vec::new();
    append_bytes(&mut copy, bytes);
    proof {
        assert(copy@ =~= bytes@);
    }
    string_from_utf8(copy).is_some()
}

/// Text is told apart by its bytes.
pub proof fn lemma_same_bytes_same_text(a: Seq<char>, b: Seq<char>)
    requires
        encode_utf8(a) == encode_utf8(b),
    ensures
        a == b,
{
    vstd::utf8::encode_utf8_decode_utf8(a);
    vstd::utf8::encode_utf8_decode_utf8(b);
}

/// The bytes of any text are UTF-8.
pub proof fn lemma_text_is_utf8(chars: Seq<char>)
    ensures
        valid_utf8(encode_utf8(chars)),
{
    vstd::utf8::encode_utf8_valid_utf8(chars);
}

/// Bytes below 128 are UTF-8.
pub proof fn lemma_ascii_is_utf8(s: Seq<u8>)
    requires
        forall|i: int| 0 <= i < s.len() ==> #[trigger] s[i] < 128,
    ensures
        valid_utf8(s),
    decreases s.len(),
{
    if s.len() > 0 {
        let first: u8 = s[0];
        assert(first < 128);
        vstd::utf8::utf8_byte_ranges_bitwise(first);
        assert(valid_utf8(seq![first])) by {
            lemma_one_ascii(first);
        }
        let rest = s.skip(1);
        assert forall|i: int| 0 <= i < rest.len() implies #[trigger] rest[i] < 128 by {
            assert(rest[i] == s[i + 1]);
        }
        lemma_ascii_is_utf8(rest);
        vstd::utf8::valid_utf8_concat(seq![first], rest);
        assert(seq![first] + rest =~= s);
    }
}

proof fn lemma_one_ascii(b: u8)
    requires
        b < 128,
    ensures
        valid_utf8(seq![b]),
{
    let c: char = b as char;
    let chars = seq![c];
    assert(vstd::utf8::is_ascii_chars(chars));
    vstd::utf8::is_ascii_chars_encode_utf8(chars);
    vstd::utf8::encode_utf8_valid_utf8(chars);
    assert(encode_utf8(chars) =~= seq![b]);
}

/// UTF-8 split right before a byte below 128 gives UTF-8.
pub proof fn lemma_split_before_ascii(s: Seq<u8>, at: int)
    requires
        valid_utf8(s),
        0 <= at <= s.len(),
        at < s.len() ==> s[at] < 128,
    ensures
        valid_utf8(s.take(at)),
        valid_utf8(s.skip(at)),
{
    if at < s.len() {
        vstd::utf8::utf8_byte_ranges_bitwise(s[at]);
        vstd::utf8::is_char_boundary_iff_not_is_continuation_byte(s, at);
        vstd::utf8::valid_utf8_split(s, at);
    } else {
        vstd::utf8::is_char_boundary_start_end_of_seq(s);
        vstd::utf8::valid_utf8_split(s, at);
    }
    assert(s.take(at) =~= s.subrange(0, at));
    assert(s.skip(at) =~= s.subrange(at, s.len() as int));
}

/// An ASCII letter in lower case; any other byte as it is.
pub open spec fn lower(b: u8) -> u8 {
    if 65 <= b <= 90 {
        (b + 32) as u8
    } else {
        b
    }
}

/// Text with its ASCII letters in lower case.
pub open spec fn lowered(s: Seq<u8>) -> Seq<u8> {
    s.map_values(|b: u8| lower(b))
}

/// An ASCII letter in lower case; any other byte as it is.
pub fn lower_byte(b: u8) -> (l: u8)
    ensures
        l == lower(b),
{
    if 65 <= b && b <= 90 {
        b + 32
    } else {
        b
    }
}

/// Text with its ASCII letters in lower case.
pub fn to_lower(s: &[u8]) -> (out: Vec<u8>)
    ensures
        out@ == lowered(s@),
{
    let mut out: Vec<u8> = Vec::new();
    let mut i: usize = 0;
    while i < s.len()
        invariant
            i <= s@.len(),
            out@ == lowered(s@.take(i as int)),
        decreases s@.len() - i,
    {
        out.push(lower_byte(s[i]));
        proof {
            assert(lowered(s@.take(i + 1)) =~= lowered(s@.take(i as int)).push(lower(s@[i as int])));
        }
        i += 1;
    }
    proof {
        assert(s@.take(i as int) =~= s@);
    }
    out
}

/// Whether two byte sequences are the same.
pub fn same_bytes(a: &[u8], b: &[u8]) -> (same: bool)
    ensures
        same == (a@ == b@),
{
    if a.len() != b.len() {
        return false;
    }
    let mut i: usize = 0;
    while i < a.len()
        invariant
            i <= a@.len(),
            a@.len() == b@.len(),
            forall|j: int| 0 <= j < i ==> a@[j] == b@[j],
        decreases a@.len() - i,
    {
        if a[i] != b[i] {
            return false;
        }
        i += 1;
    }
    proof {
        assert(a@ =~= b@);
    }
    true
}

/// The decimal digits of a number, without leading zeros.
pub open spec fn decimal(n: nat) -> Seq<u8>
    decreases n,
{
    if n < 10 {
        seq![(48 + n) as u8]
    } else {
        decimal(n / 10).push((48 + n % 10) as u8)
    }
}

/// Writes a number in decimal.
pub fn append_decimal(out: &mut Vec<u8>, n: u64)
    ensures
        final(out)@ == old(out)@ + decimal(n as nat),
    decreases n,
{
    if n < 10 {
        out.push(48 + n as u8);
    } else {
        append_decimal(out, n / 10);
        out.push(48 + (n % 10) as u8);
    }
    proof {
        assert(out@ =~= old(out)@ + decimal(n as nat));
    }
}

/// Decimal digits are ASCII.
pub proof fn lemma_decimal_is_ascii(n: nat)
    ensures
        forall|i: int| 0 <= i < decimal(n).len() ==> 48 <= #[trigger] decimal(n)[i] <= 57,
        decimal(n).len() > 0,
    decreases n,
{
    if n >= 10 {
        lemma_decimal_is_ascii(n / 10);
    }
}

/// A digit below 16 in hexadecimal, in lower case.
pub open spec fn hex_digit(n: int) -> u8 {
    if n < 10 {
        (48 + n) as u8
    } else {
        (87 + n) as u8
    }
}

/// A digit below 16 in hexadecimal, in lower case.
pub fn hex_of(n: u8) -> (digit: u8)
    requires
        n < 16,
    ensures
        digit == hex_digit(n as int),
{
    if n < 10 {
        48 + n
    } else {
        87 + n
    }
}

/// White space, as Unicode has it.
pub open spec fn white_space(c: char) -> bool {
    let code = c as u32;
    9 <= code <= 13 || code == 0x20 || code == 0x85 || code == 0xa0 || code == 0x1680 || 0x2000
        <= code <= 0x200a || code == 0x2028 || code == 0x2029 || code == 0x202f || code == 0x205f
        || code == 0x3000
}

/// White space, as Unicode has it.
pub fn is_white_space(c: char) -> (b: bool)
    ensures
        b == white_space(c),
{
    let code: u32 = c as u32;
    (9 <= code && code <= 13) || code == 0x20 || code == 0x85 || code == 0xa0 || code == 0x1680 || (
    0x2000 <= code && code <= 0x200a) || code == 0x2028 || code == 0x2029 || code == 0x202f || code
        == 0x205f || code == 0x3000
}

/// The characters of a text.
pub fn chars_of(text: &str) -> (chars: Vec<char>)
    ensures
        chars@ == text@,
{
    let mut chars: Vec<char> = Vec::new();
    let length: usize = text.unicode_len();
    let mut i: usize = 0;
    while i < length
        invariant
            length == text@.len(),
            i <= length,
            chars@ == text@.take(i as int),
        decreases length - i,
    {
        chars.push(text.get_char(i));
        proof {
            assert(text@.take(i + 1) =~= text@.take(i as int).push(text@[i as int]));
        }
        i += 1;
    }
    proof {
        assert(text@.take(i as int) =~= text@);
    }
    chars
}

/// Whether two texts are the same.
pub fn same_text(a: &str, b: &str) -> (same: bool)
    ensures
        same == (a@ == b@),
{
    let same = same_bytes(a.as_bytes(), b.as_bytes());
    proof {
        if same {
            lemma_same_bytes_same_text(a@, b@);
        }
    }
    same
}

/// The number that decimal digits stand for, if there is nothing else.
pub open spec fn digits_value(s: Seq<u8>) -> Option<nat>
    decreases s.len(),
{
    if s.len() == 0 {
        Some(0)
    } else {
        match digits_value(s.drop_last()) {
            Some(value) => if 48 <= s.last() <= 57 {
                Some((value * 10 + (s.last() - 48)) as nat)
            } else {
                None
            },
            None => None,
        }
    }
}

/// The number that a text stands for: decimal digits, behind a plus sign or
/// not.
pub open spec fn number(s: Seq<u8>) -> Option<nat> {
    let digits = if s.len() > 0 && s[0] == 43 {
        s.skip(1)
    } else {
        s
    };
    if digits.len() == 0 {
        None
    } else {
        digits_value(digits)
    }
}

/// The number that a text stands for, if it is not larger than `max`.
pub open spec fn number_up_to(s: Seq<u8>, max: nat) -> Option<nat> {
    match number(s) {
        Some(value) => if value <= max {
            Some(value)
        } else {
            None
        },
        None => None,
    }
}

proof fn lemma_digits_grow(s: Seq<u8>, n: int)
    requires
        0 <= n <= s.len(),
    ensures
        digits_value(s) is Some ==> digits_value(s.take(n)) is Some && digits_value(
            s.take(n),
        )->Some_0 <= digits_value(s)->Some_0,
    decreases s.len() - n,
{
    if n == s.len() {
        assert(s.take(n) =~= s);
    } else {
        assert(s.take(n + 1).drop_last() =~= s.take(n));
        lemma_digits_grow(s, n + 1);
    }
}

/// The number that a text stands for, if it is not larger than `max`.
pub fn parse_number(text: &str, max: u64) -> (value: Option<u64>)
    ensures
        match value {
            Some(value) => number_up_to(encode_utf8(text@), max as nat) == Some(value as nat),
            None => number_up_to(encode_utf8(text@), max as nat) is None,
        },
{
    let bytes: &[u8] = text.as_bytes();
    let length: usize = bytes.len();
    let start: usize = if length > 0 && bytes[0] == 43 {
        1
    } else {
        0
    };
    if start == length {
        return None;
    }
    let ghost digits = bytes@.skip(start as int);
    let mut value: u64 = 0;
    let mut i: usize = start;
    proof {
        assert(bytes@.skip(0) =~= bytes@);
        assert(digits.take(0) =~= Seq::empty());
    }
    while i < length
        invariant
            length == bytes@.len(),
            start <= i <= length,
            digits == bytes@.skip(start as int),
            digits.len() > 0,
            number(bytes@) == digits_value(digits),
            bytes@ == encode_utf8(text@),
            digits_value(digits.take(i - start)) == Some(value as nat),
            value <= max,
        decreases length - i,
    {
        let b: u8 = bytes[i];
        proof {
            assert(digits.take(i - start + 1).drop_last() =~= digits.take(i - start));
            assert(digits.take(i - start + 1).last() == b);
            lemma_digits_grow(digits, i - start + 1);
        }
        if b < 48 || b > 57 {
            return None;
        }
        let digit: u64 = (b - 48) as u64;
        if digit > max || value > max / 10 || value * 10 > max - digit {
            return None;
        }
        value = value * 10 + digit;
        i += 1;
    }
    proof {
        assert(digits.take(i - start) =~= digits);
    }
    Some(value)
}

/// A number in decimal, as text.
pub open spec fn decimal_text(n: nat) -> Seq<char> {
    vstd::utf8::decode_utf8(decimal(n))
}

/// A number in decimal, as text.
pub fn number_text(n: u64) -> (text: String)
    ensures
        text@ == decimal_text(n as nat),
{
    let mut digits: Vec<u8> = Vec::new();
    append_decimal(&mut digits, n);
    proof {
        assert(digits@ =~= decimal(n as nat));
        lemma_decimal_is_ascii(n as nat);
        lemma_ascii_is_utf8(digits@);
    }
    let text = text_of(digits);
    proof {
        vstd::utf8::encode_utf8_decode_utf8(text@);
    }
    text
}

/// A number in decimal has its last digit last and the digits of its tenth before
/// it; below ten it is one digit.
pub proof fn law_decimals_are_digits(n: nat)
    ensures
        decimal(n).len() > 0,
        decimal(n).last() == 48 + n % 10,
        n < 10 ==> decimal(n).len() == 1,
        n >= 10 ==> decimal(n).drop_last() == decimal(n / 10),
{
    if n >= 10 {
        assert(decimal(n).drop_last() =~= decimal(n / 10));
    }
}

/// A number is read back from its decimal digits, also behind a plus sign.
pub proof fn law_decimals_read_back(n: nat)
    ensures
        number(decimal(n)) == Some(n),
        number(seq![43u8] + decimal(n)) == Some(n),
        forall|i: int| 0 <= i < decimal(n).len() ==> 48 <= #[trigger] decimal(n)[i] <= 57,
    decreases n,
{
    lemma_digits_read_back(n);
    assert((seq![43u8] + decimal(n)).skip(1) =~= decimal(n));
}

proof fn lemma_digits_read_back(n: nat)
    ensures
        digits_value(decimal(n)) == Some(n),
        decimal(n).len() > 0,
        forall|i: int| 0 <= i < decimal(n).len() ==> 48 <= #[trigger] decimal(n)[i] <= 57,
    decreases n,
{
    if n >= 10 {
        lemma_digits_read_back(n / 10);
        assert(decimal(n).drop_last() =~= decimal(n / 10));
    } else {
        assert(decimal(n).drop_last() =~= Seq::empty());
        assert(digits_value(Seq::empty()) == Some(0nat));
    }
}

/// Only digits make a number, and each multiplies those before it by ten.
pub proof fn law_numbers_are_made_of_digits(s: Seq<u8>, digit: u8)
    requires
        s.len() > 0,
        s[0] != 43,
    ensures
        number(s.push(digit)) == (if 48 <= digit <= 57 && number(s) is Some {
            Some((number(s)->Some_0 * 10 + (digit - 48)) as nat)
        } else {
            None
        }),
{
    assert(s.push(digit).drop_last() =~= s);
}

} // verus!
