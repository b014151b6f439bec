//! DNS messages, as far as relay discovery needs them: names, queries, and the
//! answers to queries for relays and for addresses.

use crate::bytes::{append_bytes, append_u16, read_u16_at, read_u32_at, u16_at, u16_bytes, u32_at};
use crate::driad::{DriadError, DriadErrorModel};
use crate::net::{
    ipv4_at, ipv6_at, law_addresses_are_spelled_by_their_octets, read_ipv4, read_ipv6, spells,
    IpAddr, Ipv4Addr, Ipv6Addr,
};
use crate::text::{
    is_utf8, lemma_split_before_ascii, lemma_text_is_utf8, lower, lower_byte, lowered, text_of,
};
use crate::time::Duration;
use vstd::prelude::*;
use vstd::slice::slice_subrange;
use vstd::utf8::{encode_utf8, valid_utf8};

verus! {

/// The resource record type AMTRELAY.
pub const AMTRELAY_RRTYPE: u16 = 260;

pub const DNS_CLASS_IN: u16 = 1;

pub const DNS_TYPE_A: u16 = 1;

pub const DNS_TYPE_CNAME: u16 = 5;

pub const DNS_TYPE_AAAA: u16 = 28;

pub const DNS_TYPE_DNAME: u16 = 39;

pub const DNS_HEADER_LEN: usize = 12;

/// The byte between two labels of a name in text.
pub const DOT: u8 = 46;

/// How many labels and pointers are read before a name is given up.
pub const MAX_NAME_STEPS: usize = 128;

/// A value and how long it may be kept.
#[derive(Debug, PartialEq, Eq)]
pub struct Timed<T> {
    pub value: T,
    pub ttl: Duration,
}

/// A name in text without the dots at its end.
pub open spec fn trimmed(name: Seq<u8>) -> Seq<u8>
    decreases name.len(),
{
    if name.len() > 0 && name.last() == DOT {
        trimmed(name.drop_last())
    } else {
        name
    }
}

/// How much of a name is left without the dots at its end.
fn trimmed_len(name: &[u8]) -> (n: usize)
    ensures
        n <= name@.len(),
        name@.take(n as int) == trimmed(name@),
        n > 0 ==> name@[n - 1] != DOT,
{
    let mut n: usize = name.len();
    proof {
        assert(name@.take(n as int) =~= name@);
    }
    while n > 0 && name[n - 1] == DOT
        invariant
            n <= name@.len(),
            trimmed(name@.take(n as int)) == trimmed(name@),
        decreases n,
    {
        proof {
            assert(name@.take(n as int).drop_last() =~= name@.take(n - 1));
        }
        n -= 1;
    }
    n
}

/// A name in text without the dots at its end.
pub fn trim_dots<'a>(name: &'a [u8]) -> (rest: &'a [u8])
    ensures
        rest@ == trimmed(name@),
{
    let n: usize = trimmed_len(name);
    proof {
        assert(name@.take(n as int) =~= name@.subrange(0, n as int));
    }
    slice_subrange(name, 0, n)
}

proof fn lemma_trimmed_is_utf8(name: Seq<u8>)
    requires
        valid_utf8(name),
    ensures
        valid_utf8(trimmed(name)),
    decreases name.len(),
{
    if name.len() > 0 && name.last() == DOT {
        lemma_split_before_ascii(name, name.len() - 1);
        assert(name.take(name.len() - 1) =~= name.drop_last());
        lemma_trimmed_is_utf8(name.drop_last());
    }
}

/// A trimmed name has nothing left to trim.
pub proof fn lemma_trimmed_stays(name: Seq<u8>)
    ensures
        trimmed(trimmed(name)) == trimmed(name),
        trimmed(name).len() > 0 ==> trimmed(name).last() != DOT,
        trimmed(name).len() <= name.len(),
    decreases name.len(),
{
    if name.len() > 0 && name.last() == DOT {
        lemma_trimmed_stays(name.drop_last());
    }
}

/// Whether two names are the same to DNS: neither case nor dots at the end
/// count.
pub open spec fn same_name(left: Seq<u8>, right: Seq<u8>) -> bool {
    lowered(trimmed(left)) == lowered(trimmed(right))
}

/// Whether two texts are the same but for the case of ASCII letters.
fn same_but_for_case(left: &[u8], right: &[u8]) -> (same: bool)
    ensures
        same == (lowered(left@) == lowered(right@)),
{
    proof {
        assert(lowered(left@).len() == left@.len());
        assert(lowered(right@).len() == right@.len());
    }
    if left.len() != right.len() {
        return false;
    }
    let mut i: usize = 0;
    while i < left.len()
        invariant
            i <= left@.len(),
            left@.len() == right@.len(),
            forall|j: int| 0 <= j < i ==> lowered(left@)[j] == lowered(right@)[j],
        decreases left@.len() - i,
    {
        proof {
            assert(lowered(left@)[i as int] == lower(left@[i as int]));
            assert(lowered(right@)[i as int] == lower(right@[i as int]));
        }
        if lower_byte(left[i]) != lower_byte(right[i]) {
            return false;
        }
        i += 1;
    }
    proof {
        assert(lowered(left@) =~= lowered(right@));
    }
    true
}

/// Whether two names are the same to DNS.
pub fn dns_name_eq(left: &[u8], right: &[u8]) -> (same: bool)
    ensures
        same == same_name(left@, right@),
{
    same_but_for_case(trim_dots(left), trim_dots(right))
}

/// Labels with a dot between each two.
pub open spec fn joined(labels: Seq<Seq<u8>>) -> Seq<u8>
    decreases labels.len(),
{
    if labels.len() == 0 {
        Seq::empty()
    } else if labels.len() == 1 {
        labels[0]
    } else {
        joined(labels.drop_last()).push(DOT) + labels.last()
    }
}

/// The labels between the dots of a text.
pub open spec fn split(name: Seq<u8>) -> Seq<Seq<u8>>
    decreases name.len(),
{
    if name.contains(DOT) {
        let at = last_dot(name);
        if 0 <= at < name.len() {
            split(name.take(at)).push(name.skip(at + 1))
        } else {
            seq![name]
        }
    } else {
        seq![name]
    }
}

/// Where the last dot of a text stands.
pub open spec fn last_dot(name: Seq<u8>) -> int
    decreases name.len(),
{
    if name.len() == 0 {
        -1
    } else if name.last() == DOT {
        name.len() - 1
    } else {
        last_dot(name.drop_last())
    }
}

proof fn lemma_last_dot(name: Seq<u8>)
    ensures
        -1 <= last_dot(name) < name.len(),
        last_dot(name) >= 0 ==> name[last_dot(name)] == DOT,
        forall|i: int| last_dot(name) < i < name.len() ==> name[i] != DOT,
        name.contains(DOT) <==> last_dot(name) >= 0,
    decreases name.len(),
{
    if name.len() > 0 && name.last() != DOT {
        let front = name.drop_last();
        lemma_last_dot(front);
        assert forall|i: int| last_dot(name) < i < name.len() implies name[i] != DOT by {
            if i < front.len() {
                assert(front[i] == name[i]);
            }
        }
        if last_dot(name) >= 0 {
            assert(front[last_dot(name)] == name[last_dot(name)]);
        }
    }
}

/// Joining the labels of a text gives the text.
pub proof fn lemma_join_undoes_split(name: Seq<u8>)
    ensures
        joined(split(name)) == name,
        split(name).len() >= 1,
        split(name).len() <= name.len() + 1,
    decreases name.len(),
{
    lemma_last_dot(name);
    if name.contains(DOT) {
        let at = last_dot(name);
        lemma_join_undoes_split(name.take(at));
        assert(split(name).drop_last() =~= split(name.take(at)));
        assert(name.take(at).push(DOT) + name.skip(at + 1) =~= name);
    }
}

/// Whether a label can be written.
pub open spec fn label_fits(label: Seq<u8>) -> bool {
    0 < label.len() <= 63
}

/// Labels as a message holds them: each behind its length.
pub open spec fn labels_wire(labels: Seq<Seq<u8>>) -> Seq<u8>
    decreases labels.len(),
{
    if labels.len() == 0 {
        Seq::empty()
    } else {
        labels_wire(labels.drop_last()).push(labels.last().len() as u8) + labels.last()
    }
}

/// How many labels stand before the first that cannot be written.
pub open spec fn fitting(labels: Seq<Seq<u8>>) -> nat
    decreases labels.len(),
{
    if labels.len() == 0 {
        0
    } else if fitting(labels.drop_last()) == labels.len() - 1 && label_fits(labels.last()) {
        labels.len()
    } else {
        fitting(labels.drop_last())
    }
}

proof fn lemma_fitting(labels: Seq<Seq<u8>>)
    ensures
        fitting(labels) <= labels.len(),
        forall|i: int| 0 <= i < fitting(labels) ==> label_fits(#[trigger] labels[i]),
        fitting(labels) < labels.len() ==> !label_fits(labels[fitting(labels) as int]),
    decreases labels.len(),
{
    if labels.len() > 0 {
        let front = labels.drop_last();
        lemma_fitting(front);
        assert forall|i: int| 0 <= i < fitting(labels) implies label_fits(
            #[trigger] labels[i],
        ) by {
            if i < front.len() {
                assert(front[i] == labels[i]);
            }
        }
        if fitting(front) < front.len() {
            assert(front[fitting(front) as int] == labels[fitting(front) as int]);
        }
    }
}

/// Whether a name can be written.
pub open spec fn name_fits(name: Seq<u8>) -> bool {
    let text = trimmed(name);
    text.len() == 0 || (text.len() <= 253 && fitting(split(text)) == split(text).len())
}

/// A name as a message holds it.
pub open spec fn name_wire(name: Seq<u8>) -> Seq<u8> {
    let text = trimmed(name);
    if text.len() == 0 {
        seq![0u8]
    } else {
        labels_wire(split(text)).push(0u8)
    }
}

/// What is written of a name that cannot be written whole: the labels before
/// the first bad one.
pub open spec fn name_prefix_wire(name: Seq<u8>) -> Seq<u8> {
    let text = trimmed(name);
    if text.len() > 253 {
        Seq::empty()
    } else {
        labels_wire(split(text).take(fitting(split(text)) as int))
    }
}

/// Splitting at a dot: the labels before it, and those of the rest.
proof fn lemma_split_at(name: Seq<u8>, at: int)
    requires
        0 <= at < name.len(),
        name[at] == DOT,
    ensures
        split(name) == split(name.take(at)) + split(name.skip(at + 1)),
    decreases name.len(),
{
    lemma_last_dot(name);
    let last = last_dot(name);
    assert(name.contains(DOT)) by {
        assert(name[at] == DOT);
    }
    let rest = name.skip(at + 1);
    lemma_last_dot(rest);
    if last == at {
        assert(!rest.contains(DOT)) by {
            if rest.contains(DOT) {
                let m = choose|m: int| 0 <= m < rest.len() && rest[m] == DOT;
                assert(name[at + 1 + m] == DOT);
            }
        }
        assert(split(rest) =~= seq![rest]);
        assert(split(name) =~= split(name.take(at)) + split(rest));
    } else {
        assert(rest[last - at - 1] == DOT);
        assert(last_dot(rest) == last - at - 1) by {
            if last_dot(rest) > last - at - 1 {
                assert(name[at + 1 + last_dot(rest)] == rest[last_dot(rest)]);
            }
        }
        lemma_split_at(name.take(last), at);
        assert(name.take(last).take(at) =~= name.take(at));
        assert(name.take(last).skip(at + 1) =~= rest.take(last - at - 1));
        assert(name.skip(last + 1) =~= rest.skip(last - at - 1 + 1));
        assert(split(name) =~= split(name.take(at)) + split(rest));
    }
}

proof fn lemma_labels_wire_join(a: Seq<Seq<u8>>, b: Seq<Seq<u8>>)
    ensures
        labels_wire(a + b) == labels_wire(a) + labels_wire(b),
    decreases b.len(),
{
    if b.len() == 0 {
        assert(a + b =~= a);
        assert(labels_wire(a) + labels_wire(b) =~= labels_wire(a));
    } else {
        assert((a + b).drop_last() =~= a + b.drop_last());
        lemma_labels_wire_join(a, b.drop_last());
        assert(labels_wire(a + b) =~= labels_wire(a) + labels_wire(b));
    }
}

proof fn lemma_fitting_is(labels: Seq<Seq<u8>>, n: nat)
    requires
        n <= labels.len(),
        forall|i: int| 0 <= i < n ==> label_fits(#[trigger] labels[i]),
        n < labels.len() ==> !label_fits(labels[n as int]),
    ensures
        fitting(labels) == n,
{
    lemma_fitting(labels);
    if fitting(labels) < n {
        assert(label_fits(labels[fitting(labels) as int]));
    }
    if n < fitting(labels) {
        assert(label_fits(labels[n as int]));
    }
}

/// Writes a name behind what `out` holds.
pub fn put_dns_name(out: &mut Vec<u8>, name: &str) -> (result: Result<(), DriadError>)
    ensures
        result is Ok <==> name_fits(encode_utf8(name@)),
        result is Ok ==> final(out)@ == old(out)@ + name_wire(encode_utf8(name@)),
        result matches Err(error) ==> error@ == DriadErrorModel::InvalidDnsName(
            trimmed(encode_utf8(name@)),
        ) && final(out)@ == old(out)@ + name_prefix_wire(encode_utf8(name@)),
{
    let bytes: &[u8] = name.as_bytes();
    let text: &[u8] = trim_dots(bytes);
    let length: usize = text.len();
    proof {
        lemma_text_is_utf8(name@);
        lemma_trimmed_is_utf8(bytes@);
    }
    if length == 0 {
        out.push(0);
        proof {
            assert(out@ =~= old(out)@ + name_wire(encode_utf8(name@)));
        }
        return Ok(());
    }
    if length > 253 {
        proof {
            assert(out@ =~= old(out)@ + Seq::<u8>::empty());
        }
        return Err(DriadError::InvalidDnsName(copied_text(text)));
    }
    let ghost all = split(text@);
    let ghost mut done: Seq<Seq<u8>> = Seq::empty();
    let mut start: usize = 0;
    let mut more: bool = true;
    proof {
        assert(text@.skip(0) =~= text@);
        assert(done + split(text@) =~= split(text@));
        assert(out@ =~= old(out)@ + labels_wire(done));
    }
    while more
        invariant
            length == text@.len(),
            0 < length <= 253,
            start <= length + 1,
            more ==> start <= length,
            text@ == trimmed(encode_utf8(name@)),
            valid_utf8(text@),
            all == split(text@),
            forall|i: int| 0 <= i < done.len() ==> label_fits(#[trigger] done[i]),
            out@ == old(out)@ + labels_wire(done),
            more ==> all == done + split(text@.skip(start as int)),
            !more ==> all == done,
        decreases length + 1 - start,
    {
        let end: usize = label_end(text, start);
        let ghost rest = text@.skip(start as int);
        let ghost label = text@.subrange(start as int, end as int);
        proof {
            if end < length {
                assert(rest[end - start] == DOT);
                lemma_split_at(rest, end - start);
                assert(rest.take(end - start) =~= label);
                assert(rest.skip(end - start + 1) =~= text@.skip(end + 1));
                assert(split(label) =~= seq![label]);
                assert(all =~= done.push(label) + split(text@.skip(end + 1)));
            } else {
                assert(rest =~= label);
                assert(split(rest) =~= seq![label]);
                assert(all =~= done.push(label));
            }
            assert(all[done.len() as int] == label);
        }
        if end == start || end - start > 63 {
            proof {
                assert forall|i: int| 0 <= i < done.len() implies label_fits(
                    #[trigger] all[i],
                ) by {
                    assert(all[i] == done[i]);
                }
                lemma_fitting_is(all, done.len());
                assert(all.take(done.len() as int) =~= done);
            }
            return Err(DriadError::InvalidDnsName(copied_text(text)));
        }
        let size: u8 = (end - start) as u8;
        let ghost before = out@;
        out.push(size);
        append_bytes(out, slice_subrange(text, start, end));
        proof {
            assert(done.push(label).drop_last() =~= done);
            assert(out@ =~= before.push(size) + label);
            assert(out@ =~= old(out)@ + labels_wire(done.push(label)));
            done = done.push(label);
        }
        if end < length {
            start = end + 1;
        } else {
            start = length + 1;
            more = false;
        }
    }
    out.push(0);
    proof {
        lemma_fitting_is(all, all.len());
        assert(out@ =~= old(out)@ + name_wire(encode_utf8(name@)));
    }
    Ok(())
}

/// Where the label that starts at `start` ends.
fn label_end(text: &[u8], start: usize) -> (end: usize)
    requires
        start <= text@.len(),
    ensures
        start <= end <= text@.len(),
        end < text@.len() ==> text@[end as int] == DOT,
        !text@.subrange(start as int, end as int).contains(DOT),
{
    let mut end: usize = start;
    while end < text.len() && text[end] != DOT
        invariant
            start <= end <= text@.len(),
            forall|i: int| start <= i < end ==> text@[i] != DOT,
        decreases text@.len() - end,
    {
        end += 1;
    }
    end
}

/// A text of its own with the same bytes.
fn copied_text(bytes: &[u8]) -> (text: String)
    requires
        valid_utf8(bytes@),
    ensures
        encode_utf8(text@) == bytes@,
{
    let mut copy: Vec<u8> = Vec::new();
    append_bytes(&mut copy, bytes);
    proof {
        assert(copy@ =~= bytes@);
    }
    text_of(copy)
}

/// The labels of the name that stands at `cursor`, and where what follows the
/// name starts.  A name is given up after `steps` labels and pointers.
pub open spec fn name_at(message: Seq<u8>, cursor: int, steps: nat) -> Result<
    (Seq<Seq<u8>>, int),
    DriadErrorModel,
>
    decreases steps,
{
    if steps == 0 {
        Err(DriadErrorModel::InvalidDnsPointer)
    } else if cursor >= message.len() {
        Err(DriadErrorModel::Truncated("DNS name"@))
    } else {
        let head = message[cursor] as int;
        if head == 0 {
            Ok((Seq::empty(), cursor + 1))
        } else if head < 64 {
            let end = cursor + 1 + head;
            if end > message.len() {
                Err(DriadErrorModel::Truncated("DNS label"@))
            } else if !valid_utf8(message.subrange(cursor + 1, end)) {
                Err(DriadErrorModel::InvalidRelayName)
            } else {
                behind(
                    seq![message.subrange(cursor + 1, end)],
                    None,
                    name_at(message, end, (steps - 1) as nat),
                )
            }
        } else if head >= 192 {
            if cursor + 1 >= message.len() {
                Err(DriadErrorModel::Truncated("DNS pointer"@))
            } else {
                let target = (head - 192) * 256 + message[cursor + 1];
                if target >= message.len() {
                    Err(DriadErrorModel::InvalidDnsPointer)
                } else {
                    behind(
                        Seq::empty(),
                        Some(cursor + 2),
                        name_at(message, target, (steps - 1) as nat),
                    )
                }
            }
        } else {
            Err(DriadErrorModel::InvalidDnsPointer)
        }
    }
}

/// A name that starts with some labels and goes on with the rest; `next`, where
/// it is known, is where what follows the name starts.
pub open spec fn behind(
    labels: Seq<Seq<u8>>,
    next: Option<int>,
    rest: Result<(Seq<Seq<u8>>, int), DriadErrorModel>,
) -> Result<(Seq<Seq<u8>>, int), DriadErrorModel> {
    match rest {
        Err(error) => Err(error),
        Ok((more, end)) => Ok(
            (
                labels + more,
                match next {
                    Some(next) => next,
                    None => end,
                },
            ),
        ),
    }
}

/// The text of the name that stands at `offset`, and where what follows the
/// name starts.
pub open spec fn dns_name(message: Seq<u8>, offset: int) -> Result<
    (Seq<u8>, int),
    DriadErrorModel,
> {
    match name_at(message, offset, MAX_NAME_STEPS as nat) {
        Err(error) => Err(error),
        Ok((labels, next)) => Ok((joined(labels), next)),
    }
}

/// What a function that reads a name returns.
pub open spec fn name_result(result: Result<(String, usize), DriadError>) -> Result<
    (Seq<u8>, int),
    DriadErrorModel,
> {
    match result {
        Ok((name, next)) => Ok((encode_utf8(name@), next as int)),
        Err(error) => Err(error@),
    }
}

/// Appends a label, with a dot before it unless it is the first.
pub(crate) fn append_label(text: &mut Vec<u8>, first: bool, label: &[u8], Ghost(labels): Ghost<Seq<Seq<u8>>>)
    requires
        first == (labels.len() == 0),
        old(text)@ == joined(labels),
        valid_utf8(old(text)@),
        valid_utf8(label@),
    ensures
        final(text)@ == joined(labels.push(label@)),
        valid_utf8(final(text)@),
{
    proof {
        assert(labels.push(label@).drop_last() =~= labels);
        crate::text::lemma_ascii_is_utf8(seq![DOT]);
        vstd::utf8::valid_utf8_concat(joined(labels), seq![DOT]);
        vstd::utf8::valid_utf8_concat(joined(labels) + seq![DOT], label@);
        assert(joined(labels) + seq![DOT] =~= joined(labels).push(DOT));
    }
    if !first {
        text.push(DOT);
    }
    append_bytes(text, label);
    proof {
        if first {
            assert(text@ =~= label@);
        }
    }
}

/// Reads the name that stands at `offset`, following pointers.
pub fn parse_dns_name(message: &[u8], offset: usize) -> (result: Result<
    (String, usize),
    DriadError,
>)
    ensures
        name_result(result) == dns_name(message@, offset as int),
        result matches Ok((_, next)) ==> next <= message@.len(),
{
    let length: usize = message.len();
    let mut text: Vec<u8> = Vec::new();
    let ghost mut labels: Seq<Seq<u8>> = Seq::empty();
    let mut first: bool = true;
    let mut cursor: usize = offset;
    let mut next_offset: Option<usize> = None;
    let mut steps: usize = 0;
    let ghost whole = name_at(message@, offset as int, MAX_NAME_STEPS as nat);
    proof {
        if whole is Ok {
            assert(labels + whole->Ok_0.0 =~= whole->Ok_0.0);
        }
    }
    while steps < MAX_NAME_STEPS
        invariant
            length == message@.len(),
            steps <= MAX_NAME_STEPS,
            first == (labels.len() == 0),
            text@ == joined(labels),
            valid_utf8(text@),
            whole == name_at(message@, offset as int, MAX_NAME_STEPS as nat),
            next_offset matches Some(next) ==> next <= length,
            whole == behind(
                labels,
                match next_offset {
                    Some(next) => Some(next as int),
                    None => None,
                },
                name_at(message@, cursor as int, (MAX_NAME_STEPS - steps) as nat),
            ),
        decreases MAX_NAME_STEPS - steps,
    {
        if cursor >= length {
            return Err(DriadError::Truncated("DNS name"));
        }
        let head: u8 = message[cursor];
        if head < 64 {
            let start: usize = cursor + 1;
            if head == 0 {
                let next: usize = match next_offset {
                    Some(next) => next,
                    None => start,
                };
                proof {
                    assert(labels + Seq::<Seq<u8>>::empty() =~= labels);
                }
                return Ok((text_of(text), next));
            }
            let size: usize = head as usize;
            if length - start < size {
                return Err(DriadError::Truncated("DNS label"));
            }
            let end: usize = start + size;
            let label: &[u8] = slice_subrange(message, start, end);
            if !is_utf8(label) {
                return Err(DriadError::InvalidRelayName);
            }
            append_label(&mut text, first, label, Ghost(labels));
            first = false;
            proof {
                let rest = name_at(message@, end as int, (MAX_NAME_STEPS - steps - 1) as nat);
                if rest is Ok {
                    assert(labels + (seq![label@] + rest->Ok_0.0) =~= labels.push(label@)
                        + rest->Ok_0.0);
                }
                labels = labels.push(label@);
            }
            cursor = end;
        } else if head >= 192 {
            if length - cursor < 2 {
                return Err(DriadError::Truncated("DNS pointer"));
            }
            let target: usize = (head - 192) as usize * 256 + message[cursor + 1] as usize;
            if target >= length {
                return Err(DriadError::InvalidDnsPointer);
            }
            proof {
                let rest = name_at(message@, target as int, (MAX_NAME_STEPS - steps - 1) as nat);
                if rest is Ok {
                    assert(labels + (Seq::<Seq<u8>>::empty() + rest->Ok_0.0) =~= labels
                        + rest->Ok_0.0);
                }
            }
            if next_offset.is_none() {
                next_offset = Some(cursor + 2);
            }
            cursor = target;
        } else {
            return Err(DriadError::InvalidDnsPointer);
        }
        steps += 1;
    }
    Err(DriadError::InvalidDnsPointer)
}

/// Where an AMTRELAY record says that a relay is.
#[derive(Debug, PartialEq, Eq)]
pub enum AmtRelayTarget {
    NoRelay,
    Ipv4(Ipv4Addr),
    Ipv6(Ipv6Addr),
    Name(String),
}

/// What an AMTRELAY record says.
#[derive(Debug, PartialEq, Eq)]
pub struct AmtRelayRecord {
    pub precedence: u8,
    pub discovery_optional: bool,
    pub target: AmtRelayTarget,
}

/// An [`AmtRelayTarget`] with its name as UTF-8 bytes.
#[allow(inconsistent_fields)]
pub enum TargetModel {
    NoRelay,
    Ipv4(Ipv4Addr),
    Ipv6(Ipv6Addr),
    Name(Seq<u8>),
}

/// An [`AmtRelayRecord`] with its name as UTF-8 bytes.
pub struct RelayRecordModel {
    pub precedence: u8,
    pub discovery_optional: bool,
    pub target: TargetModel,
}

impl View for AmtRelayTarget {
    type V = TargetModel;

    open spec fn view(&self) -> TargetModel {
        match *self {
            AmtRelayTarget::NoRelay => TargetModel::NoRelay,
            AmtRelayTarget::Ipv4(address) => TargetModel::Ipv4(address),
            AmtRelayTarget::Ipv6(address) => TargetModel::Ipv6(address),
            AmtRelayTarget::Name(name) => TargetModel::Name(encode_utf8(name@)),
        }
    }
}

impl View for AmtRelayRecord {
    type V = RelayRecordModel;

    open spec fn view(&self) -> RelayRecordModel {
        RelayRecordModel {
            precedence: self.precedence,
            discovery_optional: self.discovery_optional,
            target: self.target@,
        }
    }
}

impl Clone for AmtRelayTarget {
    fn clone(&self) -> (copy: Self)
        ensures
            copy@ == self@,
    {
        match self {
            AmtRelayTarget::NoRelay => AmtRelayTarget::NoRelay,
            AmtRelayTarget::Ipv4(address) => AmtRelayTarget::Ipv4(*address),
            AmtRelayTarget::Ipv6(address) => AmtRelayTarget::Ipv6(*address),
            AmtRelayTarget::Name(name) => AmtRelayTarget::Name(name.clone()),
        }
    }
}

impl Clone for AmtRelayRecord {
    fn clone(&self) -> (copy: Self)
        ensures
            copy@ == self@,
    {
        AmtRelayRecord {
            precedence: self.precedence,
            discovery_optional: self.discovery_optional,
            target: self.target.clone(),
        }
    }
}

/// The labels of a name without pointers, and where what follows it starts.
pub open spec fn plain_name_at(input: Seq<u8>, cursor: int, steps: nat) -> Result<
    (Seq<Seq<u8>>, int),
    DriadErrorModel,
>
    decreases steps,
{
    if steps == 0 {
        Err(DriadErrorModel::InvalidRelayName)
    } else if cursor >= input.len() {
        Err(DriadErrorModel::Truncated("AMTRELAY domain name"@))
    } else {
        let head = input[cursor] as int;
        let end = cursor + 1 + head;
        if head >= 64 {
            Err(DriadErrorModel::InvalidRelayName)
        } else if head == 0 {
            if end > 255 {
                Err(DriadErrorModel::InvalidRelayName)
            } else {
                Ok((Seq::empty(), end))
            }
        } else if end > input.len() {
            Err(DriadErrorModel::Truncated("AMTRELAY domain label"@))
        } else if !valid_utf8(input.subrange(cursor + 1, end)) || end >= 255 {
            Err(DriadErrorModel::InvalidRelayName)
        } else {
            behind(
                seq![input.subrange(cursor + 1, end)],
                None,
                plain_name_at(input, end, (steps - 1) as nat),
            )
        }
    }
}

/// The text of the name without pointers that starts the input, and where what
/// follows it starts.
pub open spec fn plain_name(input: Seq<u8>) -> Result<(Seq<u8>, int), DriadErrorModel> {
    match plain_name_at(input, 0, MAX_NAME_STEPS as nat) {
        Err(error) => Err(error),
        Ok((labels, next)) => Ok((joined(labels), next)),
    }
}

/// Reads the name without pointers that starts the input.
pub fn parse_uncompressed_dns_name(input: &[u8]) -> (result: Result<(String, usize), DriadError>)
    ensures
        name_result(result) == plain_name(input@),
{
    let length: usize = input.len();
    let mut text: Vec<u8> = Vec::new();
    let ghost mut labels: Seq<Seq<u8>> = Seq::empty();
    let mut first: bool = true;
    let mut cursor: usize = 0;
    let mut steps: usize = 0;
    let ghost whole = plain_name_at(input@, 0, MAX_NAME_STEPS as nat);
    proof {
        if whole is Ok {
            assert(labels + whole->Ok_0.0 =~= whole->Ok_0.0);
        }
    }
    while steps < MAX_NAME_STEPS
        invariant
            length == input@.len(),
            steps <= MAX_NAME_STEPS,
            first == (labels.len() == 0),
            text@ == joined(labels),
            valid_utf8(text@),
            whole == plain_name_at(input@, 0, MAX_NAME_STEPS as nat),
            whole == behind(
                labels,
                None,
                plain_name_at(input@, cursor as int, (MAX_NAME_STEPS - steps) as nat),
            ),
        decreases MAX_NAME_STEPS - steps,
    {
        if cursor >= length {
            return Err(DriadError::Truncated("AMTRELAY domain name"));
        }
        let head: u8 = input[cursor];
        if head >= 64 {
            return Err(DriadError::InvalidRelayName);
        }
        let start: usize = cursor + 1;
        if head == 0 {
            if start > 255 {
                return Err(DriadError::InvalidRelayName);
            }
            proof {
                assert(labels + Seq::<Seq<u8>>::empty() =~= labels);
            }
            return Ok((text_of(text), start));
        }
        let size: usize = head as usize;
        if length - start < size {
            return Err(DriadError::Truncated("AMTRELAY domain label"));
        }
        let end: usize = start + size;
        let label: &[u8] = slice_subrange(input, start, end);
        if !is_utf8(label) || end >= 255 {
            return Err(DriadError::InvalidRelayName);
        }
        append_label(&mut text, first, label, Ghost(labels));
        first = false;
        proof {
            let rest = plain_name_at(input@, end as int, (MAX_NAME_STEPS - steps - 1) as nat);
            if rest is Ok {
                assert(labels + (seq![label@] + rest->Ok_0.0) =~= labels.push(label@)
                    + rest->Ok_0.0);
            }
            labels = labels.push(label@);
        }
        cursor = end;
        steps += 1;
    }
    Err(DriadError::InvalidRelayName)
}

/// The target of a relay type, read from what follows the type.
pub open spec fn relay_target(relay_type: int, relay: Seq<u8>) -> Result<
    TargetModel,
    DriadErrorModel,
> {
    if relay_type == 0 || relay_type == 1 || relay_type == 2 {
        let expected = if relay_type == 0 {
            0int
        } else if relay_type == 1 {
            4
        } else {
            16
        };
        if relay.len() != expected {
            Err(
                DriadErrorModel::InvalidRelayLength {
                    relay_type: relay_type as u8,
                    expected,
                    actual: relay.len() as int,
                },
            )
        } else if relay_type == 0 {
            Ok(TargetModel::NoRelay)
        } else if relay_type == 1 {
            Ok(TargetModel::Ipv4(ipv4_at(relay, 0)))
        } else {
            Ok(TargetModel::Ipv6(ipv6_at(relay, 0)))
        }
    } else if relay_type == 3 {
        match plain_name(relay) {
            Err(error) => Err(error),
            Ok((name, consumed)) => if consumed != relay.len() || name.len() == 0 {
                Err(DriadErrorModel::InvalidRelayName)
            } else {
                Ok(TargetModel::Name(name))
            },
        }
    } else {
        Err(DriadErrorModel::InvalidRelayType(relay_type as u8))
    }
}

/// The record that the data of an AMTRELAY record holds.
pub open spec fn relay_record(rdata: Seq<u8>) -> Result<RelayRecordModel, DriadErrorModel> {
    if rdata.len() < 2 {
        Err(DriadErrorModel::Truncated("AMTRELAY RDATA"@))
    } else {
        match relay_target(rdata[1] as int % 128, rdata.skip(2)) {
            Err(error) => Err(error),
            Ok(target) => Ok(
                RelayRecordModel {
                    precedence: rdata[0],
                    discovery_optional: rdata[1] >= 128,
                    target,
                },
            ),
        }
    }
}

/// What a function that reads a record returns.
pub open spec fn record_result(result: Result<AmtRelayRecord, DriadError>) -> Result<
    RelayRecordModel,
    DriadErrorModel,
> {
    match result {
        Ok(record) => Ok(record@),
        Err(error) => Err(error@),
    }
}

fn require_relay_len(relay_type: u8, relay: &[u8], expected: usize) -> (result: Result<
    (),
    DriadError,
>)
    ensures
        result is Ok <==> relay@.len() == expected,
        result matches Err(error) ==> error@ == (DriadErrorModel::InvalidRelayLength {
            relay_type,
            expected: expected as int,
            actual: relay@.len() as int,
        }),
{
    if relay.len() == expected {
        Ok(())
    } else {
        Err(DriadError::InvalidRelayLength { relay_type, expected, actual: relay.len() })
    }
}

/// Reads the data of an AMTRELAY record.
pub fn parse_amtrelay_rdata(rdata: &[u8]) -> (result: Result<AmtRelayRecord, DriadError>)
    ensures
        record_result(result) == relay_record(rdata@),
{
    let length: usize = rdata.len();
    if length < 2 {
        return Err(DriadError::Truncated("AMTRELAY RDATA"));
    }
    let precedence: u8 = rdata[0];
    let discovery_optional: bool = rdata[1] >= 128;
    let relay_type: u8 = rdata[1] % 128;
    let relay: &[u8] = slice_subrange(rdata, 2, length);
    proof {
        assert(relay@ =~= rdata@.skip(2));
    }
    let target = match relay_type {
        0 => {
            match require_relay_len(relay_type, relay, 0) {
                Ok(()) => AmtRelayTarget::NoRelay,
                Err(error) => return Err(error),
            }
        },
        1 => {
            match require_relay_len(relay_type, relay, 4) {
                Ok(()) => AmtRelayTarget::Ipv4(read_ipv4(relay, 0)),
                Err(error) => return Err(error),
            }
        },
        2 => {
            match require_relay_len(relay_type, relay, 16) {
                Ok(()) => AmtRelayTarget::Ipv6(read_ipv6(relay, 0)),
                Err(error) => return Err(error),
            }
        },
        3 => {
            match parse_uncompressed_dns_name(relay) {
                Err(error) => return Err(error),
                Ok((name, consumed)) => {
                    if consumed != relay.len() || name.as_str().as_bytes().len() == 0 {
                        return Err(DriadError::InvalidRelayName);
                    }
                    AmtRelayTarget::Name(name)
                },
            }
        },
        other => return Err(DriadError::InvalidRelayType(other)),
    };
    Ok(AmtRelayRecord { precedence, discovery_optional, target })
}

/// A query for a name.
pub open spec fn query_wire(id: u16, name: Seq<u8>, qtype: u16) -> Seq<u8> {
    u16_bytes(id) + seq![1u8, 0, 0, 1, 0, 0, 0, 0, 0, 0] + name_wire(name) + u16_bytes(qtype)
        + u16_bytes(DNS_CLASS_IN)
}

/// Builds a query for a name.
pub fn build_dns_query(id: u16, name: &str, qtype: u16) -> (result: Result<Vec<u8>, DriadError>)
    ensures
        result is Ok <==> name_fits(encode_utf8(name@)),
        result matches Ok(query) ==> query@ == query_wire(id, encode_utf8(name@), qtype),
        result matches Err(error) ==> error@ == DriadErrorModel::InvalidDnsName(
            trimmed(encode_utf8(name@)),
        ),
{
    let mut out: Vec<u8> = Vec::new();
    append_u16(&mut out, id);
    append_u16(&mut out, 0x0100);
    append_u16(&mut out, 1);
    append_u16(&mut out, 0);
    append_u16(&mut out, 0);
    append_u16(&mut out, 0);
    proof {
        assert(out@ =~= u16_bytes(id) + seq![1u8, 0, 0, 1, 0, 0, 0, 0, 0, 0]);
    }
    match put_dns_name(&mut out, name) {
        Ok(()) => {},
        Err(error) => return Err(error),
    }
    append_u16(&mut out, qtype);
    append_u16(&mut out, DNS_CLASS_IN);
    Ok(out)
}

/// Whether the flags are those of a whole answer to a standard query: a
/// response, with opcode 0, not cut short, and with the reserved bit unset.
pub open spec fn flags_fit(flags: int) -> bool {
    flags / 0x8000 == 1 && flags / 0x800 % 16 == 0 && flags / 0x200 % 2 == 0 && flags / 0x40 % 2
        == 0
}

/// How many answers a response to a query holds, and where they start.
pub open spec fn response_start(
    expected_id: u16,
    query_name: Seq<u8>,
    query_type: u16,
    response: Seq<u8>,
) -> Result<(int, int), DriadErrorModel> {
    if response.len() < DNS_HEADER_LEN {
        Err(DriadErrorModel::Truncated("DNS header"@))
    } else if u16_at(response, 0) != expected_id {
        Err(
            DriadErrorModel::InvalidResponseId {
                expected: expected_id,
                actual: u16_at(response, 0) as u16,
            },
        )
    } else if !flags_fit(u16_at(response, 2)) {
        Err(DriadErrorModel::InvalidDnsFlags(u16_at(response, 2) as u16))
    } else if u16_at(response, 2) % 16 != 0 {
        Err(DriadErrorModel::DnsResponseCode((u16_at(response, 2) % 16) as u8))
    } else if u16_at(response, 4) != 1 {
        Err(DriadErrorModel::InvalidQuestion)
    } else {
        match dns_name(response, DNS_HEADER_LEN as int) {
            Err(error) => Err(error),
            Ok((name, next)) => if next + 4 > response.len() || !same_name(name, query_name)
                || u16_at(response, next) != query_type || u16_at(response, next + 2)
                != DNS_CLASS_IN {
                Err(DriadErrorModel::InvalidQuestion)
            } else {
                Ok((u16_at(response, 6), next + 4))
            },
        }
    }
}

/// Checks that a response answers a query; says how many answers it holds and
/// where they start.
pub fn validate_dns_response(
    expected_id: u16,
    query_name: &str,
    query_type: u16,
    response: &[u8],
) -> (result: Result<(usize, usize), DriadError>)
    ensures
        match result {
            Ok((count, start)) => response_start(
                expected_id,
                encode_utf8(query_name@),
                query_type,
                response@,
            ) == Ok::<(int, int), DriadErrorModel>((count as int, start as int)) && start
                <= response@.len() && count < 0x1_0000,
            Err(error) => response_start(
                expected_id,
                encode_utf8(query_name@),
                query_type,
                response@,
            ) == Err::<(int, int), DriadErrorModel>(error@),
        },
{
    let length: usize = response.len();
    if length < DNS_HEADER_LEN {
        return Err(DriadError::Truncated("DNS header"));
    }
    let actual_id: u16 = read_u16_at(response, 0);
    if actual_id != expected_id {
        return Err(DriadError::InvalidResponseId { expected: expected_id, actual: actual_id });
    }
    let flags: u16 = read_u16_at(response, 2);
    if flags / 0x8000 != 1 || flags / 0x800 % 16 != 0 || flags / 0x200 % 2 != 0 || flags / 0x40 % 2
        != 0 {
        return Err(DriadError::InvalidDnsFlags(flags));
    }
    let rcode: u8 = (flags % 16) as u8;
    if rcode != 0 {
        return Err(DriadError::DnsResponseCode(rcode));
    }
    if read_u16_at(response, 4) != 1 {
        return Err(DriadError::InvalidQuestion);
    }
    let (actual_name, next) = match parse_dns_name(response, DNS_HEADER_LEN) {
        Ok(found) => found,
        Err(error) => return Err(error),
    };
    if length - next < 4 || !dns_name_eq(actual_name.as_str().as_bytes(), query_name.as_bytes())
        || read_u16_at(response, next) != query_type || read_u16_at(response, next + 2)
        != DNS_CLASS_IN {
        return Err(DriadError::InvalidQuestion);
    }
    Ok((read_u16_at(response, 6) as usize, next + 4))
}

/// One answer of a response: who it is about, what it is, and where its data
/// stands.
pub struct AnswerModel {
    pub owner: Seq<u8>,
    pub rrtype: int,
    pub class: int,
    pub ttl: Duration,
    pub start: int,
    pub end: int,
}

/// The answer at an offset.
pub open spec fn answer_at(
    response: Seq<u8>,
    offset: int,
    what: Seq<char>,
    data: Seq<char>,
) -> Result<AnswerModel, DriadErrorModel> {
    match dns_name(response, offset) {
        Err(error) => Err(error),
        Ok((owner, next)) => if next + 10 > response.len() {
            Err(DriadErrorModel::Truncated(what))
        } else if next + 10 + u16_at(response, next + 8) > response.len() {
            Err(DriadErrorModel::Truncated(data))
        } else {
            Ok(
                AnswerModel {
                    owner,
                    rrtype: u16_at(response, next),
                    class: u16_at(response, next + 2),
                    ttl: Duration::secs_spec(u32_at(response, next + 4) as u64),
                    start: next + 10,
                    end: next + 10 + u16_at(response, next + 8),
                },
            )
        },
    }
}

/// One answer of a response.
struct Answer {
    owner: String,
    rrtype: u16,
    class: u16,
    ttl: Duration,
    start: usize,
    end: usize,
}

impl View for Answer {
    type V = AnswerModel;

    closed spec fn view(&self) -> AnswerModel {
        AnswerModel {
            owner: encode_utf8(self.owner@),
            rrtype: self.rrtype as int,
            class: self.class as int,
            ttl: self.ttl,
            start: self.start as int,
            end: self.end as int,
        }
    }
}

fn read_answer(
    response: &[u8],
    offset: usize,
    what: &'static str,
    data: &'static str,
) -> (result: Result<Answer, DriadError>)
    ensures
        match result {
            Ok(answer) => answer_at(response@, offset as int, what@, data@) == Ok::<
                AnswerModel,
                DriadErrorModel,
            >(answer@) && answer.start <= answer.end <= response@.len(),
            Err(error) => answer_at(response@, offset as int, what@, data@) == Err::<
                AnswerModel,
                DriadErrorModel,
            >(error@),
        },
{
    let length: usize = response.len();
    let (owner, next) = match parse_dns_name(response, offset) {
        Ok(found) => found,
        Err(error) => return Err(error),
    };
    if length - next < 10 {
        return Err(DriadError::Truncated(what));
    }
    let rrtype: u16 = read_u16_at(response, next);
    let class: u16 = read_u16_at(response, next + 2);
    let ttl = Duration::from_secs(read_u32_at(response, next + 4) as u64);
    let rdlen: usize = read_u16_at(response, next + 8) as usize;
    let start: usize = next + 10;
    if length - start < rdlen {
        return Err(DriadError::Truncated(data));
    }
    Ok(Answer { owner, rrtype, class, ttl, start, end: start + rdlen })
}

/// The name that a DNAME record gives a queried name: the owner's part of it
/// replaced by the target.
pub open spec fn dname_applied(query_name: Seq<u8>, owner: Seq<u8>, target: Seq<u8>) -> Option<
    Seq<u8>,
> {
    let q = trimmed(query_name);
    let o = trimmed(owner);
    let t = trimmed(target);
    let cut = q.len() - o.len();
    if lowered(q) == lowered(o) {
        Some(t)
    } else if cut > 0 && q[cut - 1] == DOT && lowered(q.skip(cut)) == lowered(o) {
        Some(q.take(cut - 1).push(DOT) + t)
    } else {
        None
    }
}

/// An optional text as UTF-8 bytes.
pub open spec fn optional_text(text: Option<String>) -> Option<Seq<u8>> {
    match text {
        Some(text) => Some(encode_utf8(text@)),
        None => None,
    }
}

/// The name that a DNAME record gives a queried name, if it is about that name.
pub fn apply_dname(query_name: &str, owner: &str, target: &str) -> (alias: Option<String>)
    ensures
        optional_text(alias) == dname_applied(
            encode_utf8(query_name@),
            encode_utf8(owner@),
            encode_utf8(target@),
        ),
{
    let query: &[u8] = trim_dots(query_name.as_bytes());
    let owner_text: &[u8] = trim_dots(owner.as_bytes());
    let target_text: &[u8] = trim_dots(target.as_bytes());
    proof {
        lemma_text_is_utf8(query_name@);
        lemma_trimmed_is_utf8(encode_utf8(query_name@));
        lemma_text_is_utf8(target@);
        lemma_trimmed_is_utf8(encode_utf8(target@));
    }
    if same_but_for_case(query, owner_text) {
        return Some(copied_text(target_text));
    }
    if query.len() <= owner_text.len() {
        return None;
    }
    let cut: usize = query.len() - owner_text.len();
    let tail: &[u8] = slice_subrange(query, cut, query.len());
    proof {
        assert(tail@ =~= query@.skip(cut as int));
    }
    if query[cut - 1] != DOT || !same_but_for_case(tail, owner_text) {
        return None;
    }
    let mut out: Vec<u8> = Vec::new();
    append_bytes(&mut out, slice_subrange(query, 0, cut - 1));
    out.push(DOT);
    append_bytes(&mut out, target_text);
    proof {
        let head = query@.take(cut - 1);
        assert(out@ =~= head.push(DOT) + target_text@);
        lemma_split_before_ascii(query@, cut - 1);
        crate::text::lemma_ascii_is_utf8(seq![DOT]);
        vstd::utf8::valid_utf8_concat(head, seq![DOT]);
        assert(head + seq![DOT] =~= head.push(DOT));
        vstd::utf8::valid_utf8_concat(head.push(DOT), target_text@);
    }
    Some(text_of(out))
}

/// What a response to a query for relays holds.
#[derive(Debug, PartialEq, Eq)]
pub struct DnsAmtRelayResponse {
    pub records: Vec<Timed<AmtRelayRecord>>,
    pub aliases: Vec<Timed<String>>,
}

/// A record and how long it may be kept.
pub open spec fn timed_record(record: Timed<AmtRelayRecord>) -> Timed<RelayRecordModel> {
    Timed { value: record.value@, ttl: record.ttl }
}

impl View for Timed<AmtRelayRecord> {
    type V = Timed<RelayRecordModel>;

    open spec fn view(&self) -> Timed<RelayRecordModel> {
        timed_record(*self)
    }
}

/// A name and how long it may be kept.
pub open spec fn timed_name(name: Timed<String>) -> Timed<Seq<u8>> {
    Timed { value: encode_utf8(name.value@), ttl: name.ttl }
}

/// A [`DnsAmtRelayResponse`] with its names as UTF-8 bytes.
#[verifier::ext_equal]
pub struct RelayResponseModel {
    pub records: Seq<Timed<RelayRecordModel>>,
    pub aliases: Seq<Timed<Seq<u8>>>,
}

impl View for DnsAmtRelayResponse {
    type V = RelayResponseModel;

    open spec fn view(&self) -> RelayResponseModel {
        RelayResponseModel {
            records: self.records@.map_values(|record: Timed<AmtRelayRecord>| timed_record(record)),
            aliases: self.aliases@.map_values(|name: Timed<String>| timed_name(name)),
        }
    }
}

/// An alias, if the name that stands at the start of an answer's data is all of
/// the data.
pub open spec fn alias_in(response: Seq<u8>, answer: AnswerModel) -> Result<
    Option<Seq<u8>>,
    DriadErrorModel,
> {
    match dns_name(response, answer.start) {
        Err(error) => Err(error),
        Ok((name, next)) => Ok(
            if next == answer.end {
                Some(name)
            } else {
                None
            },
        ),
    }
}

fn read_alias(response: &[u8], answer: &Answer) -> (result: Result<Option<String>, DriadError>)
    ensures
        match result {
            Ok(alias) => alias_in(response@, answer@) == Ok::<Option<Seq<u8>>, DriadErrorModel>(
                optional_text(alias),
            ),
            Err(error) => alias_in(response@, answer@) == Err::<Option<Seq<u8>>, DriadErrorModel>(
                error@,
            ),
        },
{
    match parse_dns_name(response, answer.start) {
        Err(error) => Err(error),
        Ok((name, next)) => Ok(
            if next == answer.end {
                Some(name)
            } else {
                None
            },
        ),
    }
}

/// What one answer adds to a response about relays.
pub open spec fn relay_answer(query_name: Seq<u8>, response: Seq<u8>, answer: AnswerModel) -> Result<
    RelayResponseModel,
    DriadErrorModel,
> {
    let nothing = RelayResponseModel { records: Seq::empty(), aliases: Seq::empty() };
    if answer.class != DNS_CLASS_IN {
        Ok(nothing)
    } else if answer.rrtype == AMTRELAY_RRTYPE && same_name(answer.owner, query_name) {
        Ok(
            match relay_record(response.subrange(answer.start, answer.end)) {
                Ok(record) => RelayResponseModel {
                    records: seq![Timed { value: record, ttl: answer.ttl }],
                    ..nothing
                },
                Err(_) => nothing,
            },
        )
    } else if (answer.rrtype == DNS_TYPE_CNAME && same_name(answer.owner, query_name))
        || answer.rrtype == DNS_TYPE_DNAME {
        match alias_in(response, answer) {
            Err(error) => Err(error),
            Ok(found) => {
                let alias = match found {
                    Some(name) => if answer.rrtype == DNS_TYPE_CNAME {
                        Some(name)
                    } else {
                        dname_applied(query_name, answer.owner, name)
                    },
                    None => None,
                };
                Ok(
                    match alias {
                        Some(name) => RelayResponseModel {
                            aliases: seq![Timed { value: name, ttl: answer.ttl }],
                            ..nothing
                        },
                        None => nothing,
                    },
                )
            },
        }
    } else {
        Ok(nothing)
    }
}

/// A response that starts with some contents and goes on with the rest.
pub open spec fn relays_before(
    first: RelayResponseModel,
    rest: Result<RelayResponseModel, DriadErrorModel>,
) -> Result<RelayResponseModel, DriadErrorModel> {
    match rest {
        Err(error) => Err(error),
        Ok(rest) => Ok(
            RelayResponseModel {
                records: first.records + rest.records,
                aliases: first.aliases + rest.aliases,
            },
        ),
    }
}

/// What some answers in a row say about relays.
pub open spec fn relay_answers(
    query_name: Seq<u8>,
    response: Seq<u8>,
    offset: int,
    count: nat,
) -> Result<RelayResponseModel, DriadErrorModel>
    decreases count,
{
    if count == 0 {
        Ok(RelayResponseModel { records: Seq::empty(), aliases: Seq::empty() })
    } else {
        match answer_at(response, offset, "answer"@, "answer RDATA"@) {
            Err(error) => Err(error),
            Ok(answer) => match relay_answer(query_name, response, answer) {
                Err(error) => Err(error),
                Ok(first) => relays_before(
                    first,
                    relay_answers(query_name, response, answer.end, (count - 1) as nat),
                ),
            },
        }
    }
}

/// What a response to a query for relays says.
pub open spec fn relay_response(expected_id: u16, query_name: Seq<u8>, response: Seq<u8>) -> Result<
    RelayResponseModel,
    DriadErrorModel,
> {
    match response_start(expected_id, query_name, AMTRELAY_RRTYPE, response) {
        Err(error) => Err(error),
        Ok((count, start)) => relay_answers(query_name, response, start, count as nat),
    }
}

fn read_relay_answer(query_name: &str, response: &[u8], answer: &Answer) -> (result: Result<
    (Option<Timed<AmtRelayRecord>>, Option<Timed<String>>),
    DriadError,
>)
    requires
        answer.start <= answer.end <= response@.len(),
    ensures
        match result {
            Ok((record, alias)) => relay_answer(encode_utf8(query_name@), response@, answer@)
                == Ok::<RelayResponseModel, DriadErrorModel>(
                RelayResponseModel {
                    records: match record {
                        Some(record) => seq![timed_record(record)],
                        None => Seq::empty(),
                    },
                    aliases: match alias {
                        Some(alias) => seq![timed_name(alias)],
                        None => Seq::empty(),
                    },
                },
            ),
            Err(error) => relay_answer(encode_utf8(query_name@), response@, answer@) == Err::<
                RelayResponseModel,
                DriadErrorModel,
            >(error@),
        },
{
    let ttl = answer.ttl;
    if answer.class != DNS_CLASS_IN {
        return Ok((None, None));
    }
    let about_query: bool = dns_name_eq(answer.owner.as_str().as_bytes(), query_name.as_bytes());
    if answer.rrtype == AMTRELAY_RRTYPE && about_query {
        return match parse_amtrelay_rdata(slice_subrange(response, answer.start, answer.end)) {
            Ok(record) => Ok((Some(Timed { value: record, ttl }), None)),
            Err(_) => Ok((None, None)),
        };
    }
    if (answer.rrtype == DNS_TYPE_CNAME && about_query) || answer.rrtype == DNS_TYPE_DNAME {
        let found = match read_alias(response, answer) {
            Ok(found) => found,
            Err(error) => return Err(error),
        };
        let alias = match found {
            Some(name) => if answer.rrtype == DNS_TYPE_CNAME {
                Some(name)
            } else {
                apply_dname(query_name, answer.owner.as_str(), name.as_str())
            },
            None => None,
        };
        return match alias {
            Some(name) => Ok((None, Some(Timed { value: name, ttl }))),
            None => Ok((None, None)),
        };
    }
    Ok((None, None))
}

/// Reads a response to a query for relays.
pub fn parse_dns_response(expected_id: u16, query_name: &str, response: &[u8]) -> (result: Result<
    DnsAmtRelayResponse,
    DriadError,
>)
    ensures
        match result {
            Ok(found) => relay_response(expected_id, encode_utf8(query_name@), response@) == Ok::<
                RelayResponseModel,
                DriadErrorModel,
            >(found@),
            Err(error) => relay_response(expected_id, encode_utf8(query_name@), response@)
                == Err::<RelayResponseModel, DriadErrorModel>(error@),
        },
{
    let (count, start) = match validate_dns_response(
        expected_id,
        query_name,
        AMTRELAY_RRTYPE,
        response,
    ) {
        Ok(found) => found,
        Err(error) => return Err(error),
    };
    let ghost name = encode_utf8(query_name@);
    let ghost whole = relay_answers(name, response@, start as int, count as nat);
    let mut found = DnsAmtRelayResponse { records: Vec::new(), aliases: Vec::new() };
    let mut offset: usize = start;
    let mut left: usize = count;
    proof {
        assert(found@ =~= RelayResponseModel { records: Seq::empty(), aliases: Seq::empty() });
        if whole is Ok {
            assert(relays_before(found@, whole)->Ok_0 =~= whole->Ok_0);
        }
    }
    while left > 0
        invariant
            name == encode_utf8(query_name@),
            whole == relays_before(
                found@,
                relay_answers(name, response@, offset as int, left as nat),
            ),
            relay_response(expected_id, name, response@) == whole,
        decreases left,
    {
        let answer = match read_answer(response, offset, "answer", "answer RDATA") {
            Ok(answer) => answer,
            Err(error) => return Err(error),
        };
        let (record, alias) = match read_relay_answer(query_name, response, &answer) {
            Ok(parts) => parts,
            Err(error) => return Err(error),
        };
        let ghost before = found@;
        let ghost first = relay_answer(name, response@, answer@)->Ok_0;
        let ghost rest = relay_answers(name, response@, answer.end as int, (left - 1) as nat);
        if let Some(record) = record {
            found.records.push(record);
        }
        if let Some(alias) = alias {
            found.aliases.push(alias);
        }
        proof {
            assert(found@.records =~= before.records + first.records);
            assert(found@.aliases =~= before.aliases + first.aliases);
            if rest is Ok {
                let after = rest->Ok_0;
                assert(before.records + (first.records + after.records) =~= (before.records
                    + first.records) + after.records);
                assert(before.aliases + (first.aliases + after.aliases) =~= (before.aliases
                    + first.aliases) + after.aliases);
            }
        }
        offset = answer.end;
        left -= 1;
    }
    proof {
        assert(relays_before(found@, relay_answers(name, response@, offset as int, 0))->Ok_0
            =~= found@);
    }
    Ok(found)
}

/// What a response to a query for addresses holds.
#[derive(Debug, PartialEq, Eq)]
pub struct DnsAddressResponse {
    pub addresses: Vec<Timed<IpAddr>>,
    pub alias: Option<Timed<String>>,
}

/// A [`DnsAddressResponse`] with its alias as UTF-8 bytes.
#[verifier::ext_equal]
pub struct AddressResponseModel {
    pub addresses: Seq<Timed<IpAddr>>,
    pub alias: Option<Timed<Seq<u8>>>,
}

/// An optional name and how long it may be kept.
pub open spec fn optional_timed_name(name: Option<Timed<String>>) -> Option<Timed<Seq<u8>>> {
    match name {
        Some(name) => Some(timed_name(name)),
        None => None,
    }
}

impl View for DnsAddressResponse {
    type V = AddressResponseModel;

    open spec fn view(&self) -> AddressResponseModel {
        AddressResponseModel {
            addresses: self.addresses@,
            alias: optional_timed_name(self.alias),
        }
    }
}

/// The address that an answer's data holds, if it is one of the queried type.
pub open spec fn address_in(query_type: u16, response: Seq<u8>, answer: AnswerModel) -> Option<
    IpAddr,
> {
    if answer.rrtype != query_type {
        None
    } else if query_type == DNS_TYPE_A && answer.end - answer.start == 4 {
        Some(IpAddr::V4(ipv4_at(response, answer.start)))
    } else if query_type == DNS_TYPE_AAAA && answer.end - answer.start == 16 {
        Some(IpAddr::V6(ipv6_at(response, answer.start)))
    } else {
        None
    }
}

/// What one answer adds to a response about addresses.
pub open spec fn address_answer(
    query_name: Seq<u8>,
    query_type: u16,
    response: Seq<u8>,
    answer: AnswerModel,
) -> Result<AddressResponseModel, DriadErrorModel> {
    let nothing = AddressResponseModel { addresses: Seq::empty(), alias: None };
    if answer.class != DNS_CLASS_IN || !same_name(answer.owner, query_name) {
        Ok(nothing)
    } else {
        match address_in(query_type, response, answer) {
            Some(address) => Ok(
                AddressResponseModel {
                    addresses: seq![Timed { value: address, ttl: answer.ttl }],
                    ..nothing
                },
            ),
            None => if answer.rrtype == DNS_TYPE_CNAME {
                match alias_in(response, answer) {
                    Err(error) => Err(error),
                    Ok(Some(name)) => Ok(
                        AddressResponseModel {
                            alias: Some(Timed { value: name, ttl: answer.ttl }),
                            ..nothing
                        },
                    ),
                    Ok(None) => Ok(nothing),
                }
            } else {
                Ok(nothing)
            },
        }
    }
}

/// A response that starts with some contents and goes on with the rest; the
/// last alias counts.
pub open spec fn addresses_before(
    first: AddressResponseModel,
    rest: Result<AddressResponseModel, DriadErrorModel>,
) -> Result<AddressResponseModel, DriadErrorModel> {
    match rest {
        Err(error) => Err(error),
        Ok(rest) => Ok(
            AddressResponseModel {
                addresses: first.addresses + rest.addresses,
                alias: match rest.alias {
                    Some(alias) => Some(alias),
                    None => first.alias,
                },
            },
        ),
    }
}

/// What some answers in a row say about addresses.
pub open spec fn address_answers(
    query_name: Seq<u8>,
    query_type: u16,
    response: Seq<u8>,
    offset: int,
    count: nat,
) -> Result<AddressResponseModel, DriadErrorModel>
    decreases count,
{
    if count == 0 {
        Ok(AddressResponseModel { addresses: Seq::empty(), alias: None })
    } else {
        match answer_at(response, offset, "address answer"@, "address answer RDATA"@) {
            Err(error) => Err(error),
            Ok(answer) => match address_answer(query_name, query_type, response, answer) {
                Err(error) => Err(error),
                Ok(first) => addresses_before(
                    first,
                    address_answers(
                        query_name,
                        query_type,
                        response,
                        answer.end,
                        (count - 1) as nat,
                    ),
                ),
            },
        }
    }
}

/// What a response to a query for addresses says.
pub open spec fn address_response(
    expected_id: u16,
    query_name: Seq<u8>,
    query_type: u16,
    response: Seq<u8>,
) -> Result<AddressResponseModel, DriadErrorModel> {
    match response_start(expected_id, query_name, query_type, response) {
        Err(error) => Err(error),
        Ok((count, start)) => address_answers(
            query_name,
            query_type,
            response,
            start,
            count as nat,
        ),
    }
}

fn read_address_answer(
    query_name: &str,
    query_type: u16,
    response: &[u8],
    answer: &Answer,
) -> (result: Result<(Option<Timed<IpAddr>>, Option<Timed<String>>), DriadError>)
    requires
        answer.start <= answer.end <= response@.len(),
    ensures
        match result {
            Ok((address, alias)) => address_answer(
                encode_utf8(query_name@),
                query_type,
                response@,
                answer@,
            ) == Ok::<AddressResponseModel, DriadErrorModel>(
                AddressResponseModel {
                    addresses: match address {
                        Some(address) => seq![address],
                        None => Seq::empty(),
                    },
                    alias: optional_timed_name(alias),
                },
            ),
            Err(error) => address_answer(
                encode_utf8(query_name@),
                query_type,
                response@,
                answer@,
            ) == Err::<AddressResponseModel, DriadErrorModel>(error@),
        },
{
    let ttl = answer.ttl;
    if answer.class != DNS_CLASS_IN || !dns_name_eq(
        answer.owner.as_str().as_bytes(),
        query_name.as_bytes(),
    ) {
        return Ok((None, None));
    }
    let rdlen: usize = answer.end - answer.start;
    if answer.rrtype == DNS_TYPE_A && query_type == DNS_TYPE_A && rdlen == 4 {
        return Ok(
            (Some(Timed { value: IpAddr::V4(read_ipv4(response, answer.start)), ttl }), None),
        );
    }
    if answer.rrtype == DNS_TYPE_AAAA && query_type == DNS_TYPE_AAAA && rdlen == 16 {
        return Ok(
            (Some(Timed { value: IpAddr::V6(read_ipv6(response, answer.start)), ttl }), None),
        );
    }
    if answer.rrtype == DNS_TYPE_CNAME {
        return match read_alias(response, answer) {
            Err(error) => Err(error),
            Ok(Some(name)) => Ok((None, Some(Timed { value: name, ttl }))),
            Ok(None) => Ok((None, None)),
        };
    }
    Ok((None, None))
}

/// Reads a response to a query for addresses.
pub fn parse_address_response(
    expected_id: u16,
    query_name: &str,
    query_type: u16,
    response: &[u8],
) -> (result: Result<DnsAddressResponse, DriadError>)
    ensures
        match result {
            Ok(found) => address_response(
                expected_id,
                encode_utf8(query_name@),
                query_type,
                response@,
            ) == Ok::<AddressResponseModel, DriadErrorModel>(found@),
            Err(error) => address_response(
                expected_id,
                encode_utf8(query_name@),
                query_type,
                response@,
            ) == Err::<AddressResponseModel, DriadErrorModel>(error@),
        },
{
    let (count, start) = match validate_dns_response(
        expected_id,
        query_name,
        query_type,
        response,
    ) {
        Ok(found) => found,
        Err(error) => return Err(error),
    };
    let ghost name = encode_utf8(query_name@);
    let ghost whole = address_answers(name, query_type, response@, start as int, count as nat);
    let mut found = DnsAddressResponse { addresses: Vec::new(), alias: None };
    let mut offset: usize = start;
    let mut left: usize = count;
    proof {
        if whole is Ok {
            assert(addresses_before(found@, whole)->Ok_0 =~= whole->Ok_0);
        }
    }
    while left > 0
        invariant
            name == encode_utf8(query_name@),
            whole == addresses_before(
                found@,
                address_answers(name, query_type, response@, offset as int, left as nat),
            ),
            address_response(expected_id, name, query_type, response@) == whole,
        decreases left,
    {
        let answer = match read_answer(
            response,
            offset,
            "address answer",
            "address answer RDATA",
        ) {
            Ok(answer) => answer,
            Err(error) => return Err(error),
        };
        let (address, alias) = match read_address_answer(
            query_name,
            query_type,
            response,
            &answer,
        ) {
            Ok(parts) => parts,
            Err(error) => return Err(error),
        };
        let ghost before = found@;
        let ghost first = address_answer(name, query_type, response@, answer@)->Ok_0;
        let ghost rest = address_answers(
            name,
            query_type,
            response@,
            answer.end as int,
            (left - 1) as nat,
        );
        if let Some(address) = address {
            found.addresses.push(address);
        }
        if let Some(alias) = alias {
            found.alias = Some(alias);
        }
        proof {
            assert(found@.addresses =~= before.addresses + first.addresses);
            if rest is Ok {
                let after = rest->Ok_0;
                assert(before.addresses + (first.addresses + after.addresses) =~= (
                before.addresses + first.addresses) + after.addresses);
            }
        }
        offset = answer.end;
        left -= 1;
    }
    proof {
        assert(addresses_before(
            found@,
            address_answers(name, query_type, response@, offset as int, 0),
        )->Ok_0 =~= found@);
    }
    Ok(found)
}

/// Whether a response says that it was cut short.
pub open spec fn cut_short(response: Seq<u8>) -> bool {
    response.len() >= 4 && u16_at(response, 2) / 0x200 % 2 == 1
}

/// Whether a response says that it was cut short, so that the query is to be
/// asked again over a stream.
pub fn is_truncated_response(response: &[u8]) -> (b: bool)
    ensures
        b == cut_short(response@),
{
    response.len() >= 4 && read_u16_at(response, 2) / 0x200 % 2 == 1
}

/// A query as a stream carries it: behind its length.
pub fn stream_query(query: &[u8]) -> (result: Result<Vec<u8>, DriadError>)
    ensures
        result is Ok <==> query@.len() < 0x1_0000,
        result matches Ok(framed) ==> framed@ == u16_bytes(query@.len() as u16) + query@,
        result matches Err(error) ==> error@ == DriadErrorModel::Io(
            encode_utf8("DNS query is too large for TCP framing"@),
        ),
{
    if query.len() >= 0x1_0000 {
        return Err(DriadError::Io("DNS query is too large for TCP framing".to_string()));
    }
    let mut out: Vec<u8> = Vec::new();
    append_u16(&mut out, query.len() as u16);
    append_bytes(&mut out, query);
    proof {
        assert(out@ =~= u16_bytes(query@.len() as u16) + query@);
    }
    Ok(out)
}

/// The length of the response that a stream announces.
pub fn stream_response_len(prefix: [u8; 2]) -> (result: Result<usize, DriadError>)
    ensures
        result is Ok <==> u16_at(prefix@, 0) >= DNS_HEADER_LEN,
        result matches Ok(length) ==> length == u16_at(prefix@, 0),
        result matches Err(error) ==> error@ == DriadErrorModel::Truncated("DNS TCP response"@),
{
    let length: usize = read_u16_at(prefix.as_slice(), 0) as usize;
    if length < DNS_HEADER_LEN {
        Err(DriadError::Truncated("DNS TCP response"))
    } else {
        Ok(length)
    }
}

/// Some steps more do not change a name that is read whole.
proof fn lemma_more_steps(message: Seq<u8>, cursor: int, steps: nat, more: nat)
    requires
        name_at(message, cursor, steps) is Ok,
        steps <= more,
    ensures
        name_at(message, cursor, more) == name_at(message, cursor, steps),
    decreases steps,
{
    let head = message[cursor] as int;
    if head == 0 {
    } else if head < 64 {
        lemma_more_steps(message, cursor + 1 + head, (steps - 1) as nat, (more - 1) as nat);
    } else {
        let target = (head - 192) * 256 + message[cursor + 1];
        lemma_more_steps(message, target, (steps - 1) as nat, (more - 1) as nat);
    }
}

/// Reading written labels gives them back.
proof fn lemma_written_labels(
    before: Seq<u8>,
    labels: Seq<Seq<u8>>,
    done: nat,
    after: Seq<u8>,
)
    requires
        done <= labels.len(),
        forall|i: int| 0 <= i < labels.len() ==> label_fits(#[trigger] labels[i]) && valid_utf8(
            labels[i],
        ),
    ensures
        ({
            let message = before + labels_wire(labels).push(0u8) + after;
            let at = before.len() + labels_wire(labels.take(done as int)).len();
            name_at(message, at as int, (labels.len() - done + 1) as nat) == Ok::<
                (Seq<Seq<u8>>, int),
                DriadErrorModel,
            >((labels.skip(done as int), (before.len() + labels_wire(labels).len() + 1) as int))
        }),
    decreases labels.len() - done,
{
    let wire = labels_wire(labels);
    let message = before + wire.push(0u8) + after;
    let front = labels.take(done as int);
    let at = before.len() + labels_wire(front).len();
    if done == labels.len() {
        assert(front =~= labels);
        assert(message[at as int] == 0);
        assert(labels.skip(done as int) =~= Seq::empty());
    } else {
        let label = labels[done as int];
        assert(label_fits(label));
        let longer = labels.take(done as int + 1);
        let rest = labels.skip(done as int + 1);
        assert(longer.drop_last() =~= front);
        assert(labels =~= longer + rest);
        lemma_labels_wire_join(longer, rest);
        assert(labels_wire(longer) =~= labels_wire(front).push(label.len() as u8) + label);
        assert(message[at as int] == label.len() as u8);
        assert(message.subrange(at as int + 1, at as int + 1 + label.len()) =~= label);
        lemma_written_labels(before, labels, done + 1, after);
        assert(labels.skip(done as int) =~= seq![label] + labels.skip(done as int + 1));
    }
}

proof fn lemma_labels_are_utf8(name: Seq<u8>)
    requires
        valid_utf8(name),
    ensures
        forall|i: int| 0 <= i < split(name).len() ==> valid_utf8(#[trigger] split(name)[i]),
    decreases name.len(),
{
    lemma_last_dot(name);
    if name.contains(DOT) {
        let at = last_dot(name);
        lemma_split_before_ascii(name, at);
        lemma_labels_are_utf8(name.take(at));
        let tail = name.skip(at);
        assert(valid_utf8(name.skip(at + 1))) by {
            vstd::utf8::utf8_byte_ranges_bitwise(tail[0]);
            assert(tail[0] == DOT);
            assert(vstd::utf8::pop_first_scalar(tail) =~= name.skip(at + 1));
        }
        let front = split(name.take(at));
        assert forall|i: int| 0 <= i < split(name).len() implies valid_utf8(
            #[trigger] split(name)[i],
        ) by {
            if i < front.len() {
                assert(split(name)[i] == front[i]);
            } else {
                assert(split(name)[i] == name.skip(at + 1));
            }
        }
    }
}

/// A name that can be written is read back as it was, without the dots at its
/// end, wherever in a message it stands.
pub proof fn law_written_name_reads_back(before: Seq<u8>, name: Seq<u8>, after: Seq<u8>)
    requires
        valid_utf8(name),
        name_fits(name),
    ensures
        dns_name(before + name_wire(name) + after, before.len() as int) == Ok::<
            (Seq<u8>, int),
            DriadErrorModel,
        >((trimmed(name), (before.len() + name_wire(name).len()) as int)),
{
    let text = trimmed(name);
    let message = before + name_wire(name) + after;
    if text.len() == 0 {
        assert(message[before.len() as int] == 0);
        assert(joined(Seq::empty()) =~= text);
    } else {
        let labels = split(text);
        lemma_trimmed_is_utf8(name);
        lemma_labels_are_utf8(text);
        lemma_fitting(labels);
        lemma_join_undoes_split(text);
        lemma_label_count(text);
        lemma_written_labels(before, labels, 0, after);
        assert(labels.take(0) =~= Seq::empty());
        assert(labels.skip(0) =~= labels);
        lemma_more_steps(
            message,
            before.len() as int,
            (labels.len() + 1) as nat,
            MAX_NAME_STEPS as nat,
        );
    }
}

/// A text whose labels all fit has at most one label for every two bytes.
proof fn lemma_label_count(text: Seq<u8>)
    requires
        fitting(split(text)) == split(text).len(),
    ensures
        2 * split(text).len() <= text.len() + 1,
    decreases text.len(),
{
    lemma_last_dot(text);
    lemma_fitting(split(text));
    if text.contains(DOT) {
        let at = last_dot(text);
        let front = split(text.take(at));
        assert(split(text).drop_last() =~= front);
        assert(label_fits(split(text)[split(text).len() - 1]));
        lemma_fitting(front);
        lemma_fitting_is(
            front,
            front.len(),
        );
        lemma_label_count(text.take(at));
    } else {
        assert(label_fits(split(text)[0]));
    }
}

/// The header of a response to a query with one question.
pub open spec fn response_header(id: u16, flags: u16, answers: u16, others: Seq<u8>) -> Seq<u8> {
    u16_bytes(id) + u16_bytes(flags) + u16_bytes(1) + u16_bytes(answers) + others
}

/// A response that repeats the question of a query, under the query's number
/// and the flags of a whole answer, is taken for an answer to the query, and its
/// answers are found right behind the question.
pub proof fn law_answers_to_a_query_are_read(
    id: u16,
    name: Seq<u8>,
    qtype: u16,
    flags: u16,
    answers: u16,
    others: Seq<u8>,
    rest: Seq<u8>,
)
    requires
        valid_utf8(name),
        name_fits(name),
        flags_fit(flags as int),
        flags % 16 == 0,
        others.len() == 4,
    ensures
        ({
            let question = query_wire(id, name, qtype).skip(DNS_HEADER_LEN as int);
            response_start(
                id,
                name,
                qtype,
                response_header(id, flags, answers, others) + question + rest,
            ) == Ok::<(int, int), DriadErrorModel>(
                (answers as int, DNS_HEADER_LEN + question.len()),
            )
        }),
{
    let question = query_wire(id, name, qtype).skip(DNS_HEADER_LEN as int);
    let header = response_header(id, flags, answers, others);
    let behind = u16_bytes(qtype) + u16_bytes(DNS_CLASS_IN) + rest;
    let response = header + question + rest;
    assert(header.len() == DNS_HEADER_LEN);
    assert(question =~= name_wire(name) + u16_bytes(qtype) + u16_bytes(DNS_CLASS_IN));
    assert(response =~= header + name_wire(name) + behind);
    law_written_name_reads_back(header, name, behind);
    lemma_trimmed_stays(name);
    let next = (header.len() + name_wire(name).len()) as int;
    assert(u16_at(response, 0) == id) by {
        assert(response[0] == u16_bytes(id)[0] && response[1] == u16_bytes(id)[1]);
    }
    assert(u16_at(response, 2) == flags) by {
        assert(response[2] == u16_bytes(flags)[0] && response[3] == u16_bytes(flags)[1]);
    }
    assert(u16_at(response, 4) == 1) by {
        assert(response[4] == 0 && response[5] == 1);
    }
    assert(u16_at(response, 6) == answers) by {
        assert(response[6] == u16_bytes(answers)[0] && response[7] == u16_bytes(answers)[1]);
    }
    assert(u16_at(response, next) == qtype) by {
        assert(response[next] == u16_bytes(qtype)[0]);
        assert(response[next + 1] == u16_bytes(qtype)[1]);
    }
    assert(u16_at(response, next + 2) == DNS_CLASS_IN) by {
        assert(response[next + 2] == 0 && response[next + 3] == 1);
    }
}

/// A query, byte by byte: its number, the flag that asks for recursion, one
/// question and nothing else, then the name, the type and the class of the
/// question.
pub proof fn law_queries_are_laid_out(id: u16, name: Seq<u8>, qtype: u16)
    ensures
        ({
            let s = query_wire(id, name, qtype);
            let end = 12 + name_wire(name).len() as int;
            &&& s.len() == end + 4
            &&& s[0] * 256 + s[1] == id
            &&& s.subrange(2, 12) == seq![1u8, 0, 0, 1, 0, 0, 0, 0, 0, 0]
            &&& s.subrange(12, end) == name_wire(name)
            &&& s[end] * 256 + s[end + 1] == qtype
            &&& s[end + 2] == 0 && s[end + 3] == 1
        }),
{
    let s = query_wire(id, name, qtype);
    let end = 12 + name_wire(name).len() as int;
    assert(s[0] == u16_bytes(id)[0] && s[1] == u16_bytes(id)[1]);
    assert(s.subrange(2, 12) =~= seq![1u8, 0, 0, 1, 0, 0, 0, 0, 0, 0]);
    assert(s.subrange(12, end) =~= name_wire(name));
    assert(s[end] == u16_bytes(qtype)[0] && s[end + 1] == u16_bytes(qtype)[1]);
    assert(s[end + 2] == u16_bytes(DNS_CLASS_IN)[0] && s[end + 3] == u16_bytes(DNS_CLASS_IN)[1]);
}

proof fn lemma_labels_in_place(text: Seq<u8>)
    ensures
        ({
            let wire = labels_wire(split(text));
            &&& wire.len() == text.len() + 1
            &&& forall|i: int| 0 <= i < text.len() && text[i] != 46 ==> #[trigger] wire[i + 1]
                == text[i]
            &&& forall|from: int, to: int|
                #![trigger wire[from], text[to]]
                0 <= from <= to < text.len() && (from == 0 || text[from - 1] == 46) && text[to]
                    == 46 && (forall|i: int| from <= i < to ==> text[i] != 46) ==> wire[from]
                    == (to - from) as u8
            &&& forall|from: int|
                #![trigger wire[from]]
                0 <= from <= text.len() && (from == 0 || text[from - 1] == 46) && (forall|i: int|
                    from <= i < text.len() ==> text[i] != 46) ==> wire[from] == (text.len()
                    - from) as u8
        }),
    decreases text.len(),
{
    lemma_last_dot(text);
    let wire = labels_wire(split(text));
    if text.contains(DOT) {
        let at = last_dot(text);
        let front = text.take(at);
        let label = text.skip(at + 1);
        lemma_labels_in_place(front);
        let before = labels_wire(split(front));
        assert(split(text).drop_last() =~= split(front));
        assert(wire == before.push(label.len() as u8) + label);
        assert forall|i: int| 0 <= i < text.len() && text[i] != 46 implies #[trigger] wire[i + 1]
            == text[i] by {
            if i < at {
                assert(front[i] == text[i]);
                assert(before[i + 1] == front[i]);
            } else {
                assert(label[i - at - 1] == text[i]);
            }
        }
        assert forall|from: int, to: int|
            #![trigger wire[from], text[to]]
            0 <= from <= to < text.len() && (from == 0 || text[from - 1] == 46) && text[to] == 46
                && (forall|i: int| from <= i < to ==> text[i] != 46) implies wire[from] == (to
            - from) as u8 by {
            assert(to <= at);
            if to < at {
                assert(front[to] == 46);
                assert(from == 0 || front[from - 1] == 46);
                assert forall|i: int| from <= i < to implies front[i] != 46 by {
                    assert(text[i] != 46);
                }
                assert(before[from] == (to - from) as u8);
                assert(wire[from] == before[from]);
            } else {
                assert(from == 0 || front[from - 1] == 46);
                assert forall|i: int| from <= i < front.len() implies front[i] != 46 by {
                    assert(text[i] != 46);
                }
                assert(before[from] == (front.len() - from) as u8);
                assert(wire[from] == before[from]);
            }
        }
        assert forall|from: int|
            #![trigger wire[from]]
            0 <= from <= text.len() && (from == 0 || text[from - 1] == 46) && (forall|i: int|
                from <= i < text.len() ==> text[i] != 46) implies wire[from] == (text.len()
            - from) as u8 by {
            if from <= at {
                assert(text[at] == 46);
            }
            if from > at + 1 {
                assert(text[from - 1] != 46);
            }
            assert(from == at + 1);
        }
    } else {
        assert(split(text) == seq![text]);
        let one = seq![text];
        assert(one.drop_last() =~= Seq::empty());
        assert(labels_wire(one.drop_last()) == Seq::<u8>::empty());
        assert(labels_wire(one) == Seq::<u8>::empty().push(text.len() as u8) + text);
        assert(wire =~= seq![text.len() as u8] + text);
        assert forall|from: int|
            #![trigger wire[from]]
            0 <= from <= text.len() && (from == 0 || text[from - 1] == 46) && (forall|i: int|
                from <= i < text.len() ==> text[i] != 46) implies wire[from] == (text.len()
            - from) as u8 by {
            if from > 0 {
                assert(text.contains(text[from - 1]));
            }
        }
        assert forall|from: int, to: int|
            #![trigger wire[from], text[to]]
            0 <= from <= to < text.len() && (from == 0 || text[from - 1] == 46) && text[to] == 46
                && (forall|i: int| from <= i < to ==> text[i] != 46) implies wire[from] == (to
            - from) as u8 by {
            assert(text.contains(text[to]));
        }
    }
}

/// A name in a message is its text moved by one byte: each label stands behind
/// its length, which stands in the place of the dot before it, and a zero ends
/// the name.
pub proof fn law_names_are_laid_out(name: Seq<u8>)
    requires
        name.len() > 0,
        name.last() != 46,
        name_fits(name),
    ensures
        ({
            let wire = name_wire(name);
            &&& wire.len() == name.len() + 2
            &&& wire.last() == 0
            &&& forall|i: int| 0 <= i < name.len() && name[i] != 46 ==> #[trigger] wire[i + 1]
                == name[i]
            &&& forall|from: int, to: int|
                #![trigger wire[from], name[to]]
                0 <= from <= to < name.len() && (from == 0 || name[from - 1] == 46) && name[to]
                    == 46 && (forall|i: int| from <= i < to ==> name[i] != 46) ==> wire[from] == to
                    - from
            &&& forall|from: int|
                #![trigger wire[from]]
                0 <= from < name.len() && (from == 0 || name[from - 1] == 46) && (forall|i: int|
                    from <= i < name.len() ==> name[i] != 46) ==> wire[from] == name.len() - from
        }),
{
    lemma_labels_in_place(name);
    let front = labels_wire(split(name));
    let wire = name_wire(name);
    assert(wire == front.push(0u8));
    assert forall|i: int| 0 <= i < name.len() && name[i] != 46 implies #[trigger] wire[i + 1]
        == name[i] by {
        assert(front[i + 1] == name[i]);
    }
    assert forall|from: int, to: int|
        #![trigger wire[from], name[to]]
        0 <= from <= to < name.len() && (from == 0 || name[from - 1] == 46) && name[to] == 46 && (
        forall|i: int| from <= i < to ==> name[i] != 46) implies wire[from] == to - from by {
        assert(front[from] == (to - from) as u8);
    }
    assert forall|from: int|
        #![trigger wire[from]]
        0 <= from < name.len() && (from == 0 || name[from - 1] == 46) && (forall|i: int|
            from <= i < name.len() ==> name[i] != 46) implies wire[from] == name.len() - from by {
        assert(front[from] == (name.len() - from) as u8);
    }
}

/// How a name is read: a length below 64 is followed by a label of that length,
/// and the name goes on behind it; two bytes from 192 on point to where it goes
/// on, and what follows the name follows them; a zero ends it.
pub proof fn law_names_are_read_label_by_label(message: Seq<u8>, cursor: int, steps: nat)
    requires
        0 <= cursor,
        cursor + 2 <= message.len(),
        steps > 0,
    ensures
        ({
            let read = name_at(message, cursor, steps);
            let head = message[cursor] as int;
            let label = message.subrange(cursor + 1, cursor + 1 + head);
            let on = name_at(message, cursor + 1 + head, (steps - 1) as nat);
            let target = (head - 192) * 256 + message[cursor + 1];
            let there = name_at(message, target, (steps - 1) as nat);
            &&& head == 0 ==> (read matches Ok((labels, next)) && labels.len() == 0 && next
                == cursor + 1)
            &&& 0 < head < 64 && cursor + 1 + head <= message.len() && valid_utf8(label)
                && on is Ok ==> (read matches Ok((labels, next)) && labels == seq![label]
                + on->Ok_0.0 && next == on->Ok_0.1)
            &&& head >= 192 && target < message.len() && there is Ok ==> (read matches Ok(
                (labels, next),
            ) && labels == there->Ok_0.0 && next == cursor + 2)
            &&& 64 <= head < 192 ==> read is Err
            &&& 0 < head < 64 && cursor + 1 + head > message.len() ==> read is Err
            &&& head >= 192 && target >= message.len() ==> read is Err
        }),
{
    let head = message[cursor] as int;
    let target = (head - 192) * 256 + message[cursor + 1];
    let there = name_at(message, target, (steps - 1) as nat);
    if there is Ok {
        assert(Seq::<Seq<u8>>::empty() + there->Ok_0.0 =~= there->Ok_0.0);
    }
}

/// An AMTRELAY record, byte by byte: the precedence, then the discovery-optional
/// bit and the type, then nothing, an IPv4 address, an IPv6 address or a name, as
/// the types 0 to 3 say.
pub proof fn law_relay_records_are_read_by_offset(rdata: Seq<u8>)
    ensures
        ({
            let read = relay_record(rdata);
            let kind = rdata[1] % 128;
            &&& rdata.len() < 2 ==> read is Err
            &&& rdata.len() >= 2 && kind < 3 ==> (read is Ok <==> rdata.len() == 2 + if kind == 0 {
                0int
            } else if kind == 1 {
                4
            } else {
                16
            })
            &&& rdata.len() >= 2 && kind > 3 ==> read == Err::<RelayRecordModel, DriadErrorModel>(
                DriadErrorModel::InvalidRelayType(kind),
            )
            &&& read matches Ok(record) ==> {
                &&& record.precedence == rdata[0]
                &&& record.discovery_optional <==> rdata[1] / 128 == 1
                &&& match record.target {
                    TargetModel::NoRelay => kind == 0,
                    TargetModel::Ipv4(address) => kind == 1 && spells(
                        rdata,
                        2,
                        IpAddr::V4(address),
                    ),
                    TargetModel::Ipv6(address) => kind == 2 && spells(
                        rdata,
                        2,
                        IpAddr::V6(address),
                    ),
                    TargetModel::Name(_) => kind == 3,
                }
            }
        }),
{
    if rdata.len() >= 2 {
        let relay = rdata.skip(2);
        law_addresses_are_spelled_by_their_octets(rdata, 2, IpAddr::V4(ipv4_at(relay, 0)));
        if relay.len() == 4 {
            assert(relay.subrange(0, 4) =~= rdata.subrange(2, 6));
        }
        if relay.len() == 16 {
            assert(relay.subrange(0, 16) =~= rdata.subrange(2, 18));
        }
    }
}

proof fn lemma_written_plain_labels(labels: Seq<Seq<u8>>, done: nat, after: Seq<u8>)
    requires
        done <= labels.len(),
        labels_wire(labels).len() < 255,
        forall|i: int| 0 <= i < labels.len() ==> label_fits(#[trigger] labels[i]) && valid_utf8(
            labels[i],
        ),
    ensures
        ({
            let input = labels_wire(labels).push(0u8) + after;
            let at = labels_wire(labels.take(done as int)).len();
            at <= labels_wire(labels).len() && plain_name_at(
                input,
                at as int,
                (labels.len() - done + 1) as nat,
            ) == Ok::<(Seq<Seq<u8>>, int), DriadErrorModel>(
                (labels.skip(done as int), (labels_wire(labels).len() + 1) as int),
            )
        }),
    decreases labels.len() - done,
{
    let wire = labels_wire(labels);
    let input = wire.push(0u8) + after;
    let front = labels.take(done as int);
    let at = labels_wire(front).len();
    if done == labels.len() {
        assert(front =~= labels);
        assert(input[at as int] == 0);
        assert(labels.skip(done as int) =~= Seq::empty());
    } else {
        let label = labels[done as int];
        assert(label_fits(label));
        let longer = labels.take(done as int + 1);
        let rest = labels.skip(done as int + 1);
        assert(longer.drop_last() =~= front);
        assert(labels =~= longer + rest);
        lemma_labels_wire_join(longer, rest);
        assert(labels_wire(longer) =~= labels_wire(front).push(label.len() as u8) + label);
        assert(input[at as int] == label.len() as u8);
        assert(input.subrange(at as int + 1, at as int + 1 + label.len()) =~= label);
        lemma_written_plain_labels(labels, done + 1, after);
        assert(labels.skip(done as int) =~= seq![label] + labels.skip(done as int + 1));
    }
}

proof fn lemma_more_plain_steps(input: Seq<u8>, cursor: int, steps: nat, more: nat)
    requires
        plain_name_at(input, cursor, steps) is Ok,
        steps <= more,
    ensures
        plain_name_at(input, cursor, more) == plain_name_at(input, cursor, steps),
    decreases steps,
{
    let head = input[cursor] as int;
    if 0 < head < 64 {
        lemma_more_plain_steps(input, cursor + 1 + head, (steps - 1) as nat, (more - 1) as nat);
    }
}

/// An AMTRELAY record of type 3 gives the name that is written in it.
pub proof fn law_relay_names_are_read(precedence: u8, optional: bool, name: Seq<u8>)
    requires
        valid_utf8(name),
        name_fits(name),
        name.len() > 0,
        name.last() != 46,
    ensures
        relay_record(
            seq![
                precedence,
                if optional {
                    131u8
                } else {
                    3u8
                },
            ] + name_wire(name),
        ) == Ok::<RelayRecordModel, DriadErrorModel>(
            RelayRecordModel {
                precedence,
                discovery_optional: optional,
                target: TargetModel::Name(name),
            },
        ),
{
    let kind = if optional {
        131u8
    } else {
        3u8
    };
    let rdata = seq![precedence, kind] + name_wire(name);
    let relay = rdata.skip(2);
    let labels = split(name);
    assert(relay =~= labels_wire(labels).push(0u8));
    assert(plain_name(relay) == Ok::<(Seq<u8>, int), DriadErrorModel>(
        (name, relay.len() as int),
    )) by {
        lemma_plain_name_reads_back(name);
    }
    assert(rdata[0] == precedence && rdata[1] == kind);
}

proof fn lemma_plain_name_reads_back(name: Seq<u8>)
    requires
        valid_utf8(name),
        name_fits(name),
        name.len() > 0,
        name.last() != 46,
    ensures
        plain_name(labels_wire(split(name)).push(0u8)) == Ok::<(Seq<u8>, int), DriadErrorModel>(
            (name, (labels_wire(split(name)).len() + 1) as int),
        ),
{
    let labels = split(name);
    let input = labels_wire(labels).push(0u8);
    assert(labels_wire(labels).len() == name.len() + 1) by {
        lemma_labels_in_place(name);
    }
    lemma_labels_are_utf8(name);
    lemma_fitting(labels);
    lemma_join_undoes_split(name);
    lemma_label_count(name);
    lemma_written_plain_labels(labels, 0, Seq::empty());
    assert(input + Seq::<u8>::empty() =~= input);
    assert(labels.take(0) =~= Seq::empty());
    assert(labels.skip(0) =~= labels);
    lemma_more_plain_steps(input, 0, (labels.len() + 1) as nat, MAX_NAME_STEPS as nat);
}

/// Which responses are taken for answers, byte by byte: those with the number of
/// the query, the response bit, the standard opcode, neither cut short nor with
/// the reserved bit nor with an error, and one question, which is the query's.
pub proof fn law_answers_are_checked(
    id: u16,
    name: Seq<u8>,
    qtype: u16,
    response: Seq<u8>,
)
    ensures
        response_start(id, name, qtype, response) matches Ok((count, start)) ==> {
            &&& 12 <= response.len()
            &&& response[0] * 256 + response[1] == id
            &&& response[2] >= 128 && (response[2] / 8) % 16 == 0 && (response[2] / 2) % 2 == 0
            &&& (response[3] / 64) % 2 == 0 && response[3] % 16 == 0
            &&& response[4] == 0 && response[5] == 1
            &&& count == response[6] * 256 + response[7]
            &&& start <= response.len()
            &&& response[start - 4] * 256 + response[start - 3] == qtype
            &&& response[start - 2] == 0 && response[start - 1] == 1
            &&& dns_name(response, 12) matches Ok((asked, next)) && next == start - 4 && same_name(
                asked,
                name,
            )
        },
        response.len() >= 12 && response[0] * 256 + response[1] == id && response[2] >= 128 && (
        response[2] / 8) % 16 == 0 && (response[2] / 2) % 2 == 0 && (response[3] / 64) % 2 == 0
            && response[3] % 16 != 0 ==> response_start(id, name, qtype, response) == Err::<
            (int, int),
            DriadErrorModel,
        >(DriadErrorModel::DnsResponseCode((response[3] % 16) as u8)),
        cut_short(response) <==> response.len() >= 4 && (response[2] / 2) % 2 == 1,
{
    if response.len() >= 4 {
        let flags = u16_at(response, 2);
        assert(flags / 0x8000 == response[2] / 128);
        assert(flags / 0x800 == response[2] / 8);
        assert(flags / 0x200 == response[2] / 2);
        assert(flags / 0x40 % 2 == (response[3] / 64) % 2) by {
            assert(flags / 0x40 == response[2] * 4 + response[3] / 64);
        }
        assert(flags % 16 == response[3] % 16);
    }
}

/// An answer, byte by byte: behind its name stand the type, the class, the
/// seconds that it may be kept, the length of its data, and the data.
pub proof fn law_answers_are_read_by_offset(
    response: Seq<u8>,
    offset: int,
    what: Seq<char>,
    data: Seq<char>,
)
    ensures
        answer_at(response, offset, what, data) matches Ok(answer) ==> {
            let at = answer.start - 10;
            &&& dns_name(response, offset) == Ok::<(Seq<u8>, int), DriadErrorModel>(
                (answer.owner, at),
            )
            &&& answer.rrtype == response[at] * 256 + response[at + 1]
            &&& answer.class == response[at + 2] * 256 + response[at + 3]
            &&& 0 <= at ==> answer.ttl.nanos == (response[at + 4] * 0x100_0000 + response[at + 5]
                * 0x1_0000 + response[at + 6] * 0x100 + response[at + 7]) * 1_000_000_000
            &&& answer.end == answer.start + response[at + 8] * 256 + response[at + 9]
            &&& answer.end <= response.len()
        },
{
    if let Ok((_, next)) = dns_name(response, offset) {
        if 0 <= next && next + 10 <= response.len() {
            crate::bytes::lemma_u32_of_bytes(response, next + 4);
        }
    }
}

/// Names are the same to DNS if they differ in the case of letters only; dots at
/// the end do not count.
pub proof fn law_names_are_compared_without_case(left: Seq<u8>, right: Seq<u8>)
    requires
        left.len() > 0 ==> left.last() != 46,
        right.len() > 0 ==> right.last() != 46,
    ensures
        same_name(left, right) <==> left.len() == right.len() && forall|i: int|
            0 <= i < left.len() ==> {
                ||| #[trigger] left[i] == right[i]
                ||| 65 <= left[i] <= 90 && right[i] == left[i] + 32
                ||| 65 <= right[i] <= 90 && left[i] == right[i] + 32
            },
        same_name(left.push(46), right) == same_name(left, right),
        same_name(left, right.push(46)) == same_name(left, right),
{
    let a = lowered(left);
    let b = lowered(right);
    assert(a.len() == left.len() && b.len() == right.len());
    assert(left.push(46).drop_last() =~= left);
    assert(right.push(46).drop_last() =~= right);
    if same_name(left, right) {
        assert forall|i: int| 0 <= i < left.len() implies {
            ||| #[trigger] left[i] == right[i]
            ||| 65 <= left[i] <= 90 && right[i] == left[i] + 32
            ||| 65 <= right[i] <= 90 && left[i] == right[i] + 32
        } by {
            assert(a[i] == b[i]);
        }
    }
    if left.len() == right.len() && forall|i: int|
        0 <= i < left.len() ==> {
            ||| #[trigger] left[i] == right[i]
            ||| 65 <= left[i] <= 90 && right[i] == left[i] + 32
            ||| 65 <= right[i] <= 90 && left[i] == right[i] + 32
        } {
        assert forall|i: int| 0 <= i < left.len() implies #[trigger] a[i] == b[i] by {
            assert(left[i] == right[i] || 65 <= left[i] <= 90 || 65 <= right[i] <= 90);
        }
        assert(a =~= b);
    }
}

/// A DNAME record moves the names below its owner: what stands before the owner
/// stays, and the target takes the owner's place.  It says nothing of other names.
pub proof fn law_dnames_move_what_is_below(before: Seq<u8>, owner: Seq<u8>, target: Seq<u8>)
    requires
        owner.len() > 0,
        owner.last() != 46,
        target.len() > 0,
        target.last() != 46,
        before.len() > 0,
    ensures
        dname_applied(before + seq![46u8] + owner, owner, target) == Some(
            before + seq![46u8] + target,
        ),
        dname_applied(owner, owner, target) == Some(target),
        before.last() != 46 ==> dname_applied(before + owner, owner, target) is None,
{
    let below = before + seq![46u8] + owner;
    let cut = below.len() - owner.len();
    assert(below.last() == owner.last());
    assert(below.skip(cut) =~= owner);
    assert(below[cut - 1] == 46);
    assert(lowered(below).len() == below.len() && lowered(owner).len() == owner.len());
    assert(below.take(cut - 1).push(46u8) + target =~= before + seq![46u8] + target);
    let other = before + owner;
    assert(other.last() == owner.last());
    assert(lowered(other).len() == other.len());
    assert(other[other.len() - owner.len() - 1] == before.last());
}

/// What an answer to a query for relays adds: a record of type 260 of the queried
/// name adds its relay, if it can be read; one of type 5 of that name adds the
/// name in it as an alias, and one of type 39 the name that it moves the queried
/// one to.  Answers of another class or type add nothing.
pub proof fn law_answers_about_relays_are_sorted(
    query_name: Seq<u8>,
    response: Seq<u8>,
    answer: AnswerModel,
)
    ensures
        ({
            let said = relay_answer(query_name, response, answer);
            let own = same_name(answer.owner, query_name);
            let data = response.subrange(answer.start, answer.end);
            let named = dns_name(response, answer.start);
            let whole = named is Ok && named->Ok_0.1 == answer.end;
            &&& answer.class != 1 || (answer.rrtype != 260 && answer.rrtype != 5 && answer.rrtype
                != 39) || (answer.rrtype != 39 && !own) ==> (said matches Ok(added)
                && added.records.len() == 0 && added.aliases.len() == 0)
            &&& answer.class == 1 && answer.rrtype == 260 && own ==> (said matches Ok(added)
                && added.aliases.len() == 0 && match relay_record(data) {
                Ok(record) => added.records == seq![Timed { value: record, ttl: answer.ttl }],
                Err(_) => added.records.len() == 0,
            })
            &&& answer.class == 1 && answer.rrtype == 5 && own && whole ==> (said matches Ok(added)
                && added.records.len() == 0 && added.aliases == seq![
                Timed { value: named->Ok_0.0, ttl: answer.ttl },
            ])
            &&& answer.class == 1 && answer.rrtype == 39 && whole ==> (said matches Ok(added)
                && added.records.len() == 0 && match dname_applied(
                query_name,
                answer.owner,
                named->Ok_0.0,
            ) {
                Some(name) => added.aliases == seq![Timed { value: name, ttl: answer.ttl }],
                None => added.aliases.len() == 0,
            })
        }),
{
}

/// What an answer to a query for addresses adds: one of type 1 with four bytes or
/// of type 28 with sixteen, if that was asked for, adds the address in them, and
/// one of type 5 the name in it as an alias; all of them only for the queried
/// name and the class 1.
pub proof fn law_answers_about_addresses_are_sorted(
    query_name: Seq<u8>,
    query_type: u16,
    response: Seq<u8>,
    answer: AnswerModel,
)
    requires
        0 <= answer.start <= answer.end <= response.len(),
    ensures
        ({
            let said = address_answer(query_name, query_type, response, answer);
            let own = same_name(answer.owner, query_name) && answer.class == 1;
            let length = answer.end - answer.start;
            &&& !own ==> (said matches Ok(added) && added.addresses.len() == 0 && added.alias
                is None)
            &&& own && query_type == 1 && answer.rrtype == 1 && length == 4 ==> (said matches Ok(
                added,
            ) && added.addresses.len() == 1 && added.addresses[0].value is V4 && spells(
                response,
                answer.start,
                added.addresses[0].value,
            ) && added.addresses[0].ttl == answer.ttl)
            &&& own && query_type == 28 && answer.rrtype == 28 && length == 16 ==> (said matches Ok(
                added,
            ) && added.addresses.len() == 1 && added.addresses[0].value is V6 && spells(
                response,
                answer.start,
                added.addresses[0].value,
            ) && added.addresses[0].ttl == answer.ttl)
            &&& answer.rrtype != query_type && answer.rrtype != 5 ==> (said matches Ok(added)
                && added.addresses.len() == 0 && added.alias is None)
            &&& own && answer.rrtype == 5 && query_type != 5 && dns_name(
                response,
                answer.start,
            ) is Ok && dns_name(response, answer.start)->Ok_0.1 == answer.end ==> (
            said matches Ok(added) && added.addresses.len() == 0 && added.alias == Some(
                Timed { value: dns_name(response, answer.start)->Ok_0.0, ttl: answer.ttl },
            ))
        }),
{
    law_addresses_are_spelled_by_their_octets(
        response,
        answer.start,
        IpAddr::V4(ipv4_at(response, answer.start)),
    );
}

/// The answers of a response count one after the other: what the first one adds
/// comes first, then what the others do, read from where it ends.
pub proof fn law_answers_follow_one_another(
    query_name: Seq<u8>,
    response: Seq<u8>,
    offset: int,
    count: nat,
)
    requires
        count > 0,
        relay_answers(query_name, response, offset, count) is Ok,
    ensures
        ({
            let all = relay_answers(query_name, response, offset, count)->Ok_0;
            let first = answer_at(response, offset, "answer"@, "answer RDATA"@);
            &&& first is Ok
            &&& relay_answer(query_name, response, first->Ok_0) is Ok
            &&& relay_answers(query_name, response, first->Ok_0.end, (count - 1) as nat) is Ok
            &&& all.records == relay_answer(query_name, response, first->Ok_0)->Ok_0.records
                + relay_answers(
                query_name,
                response,
                first->Ok_0.end,
                (count - 1) as nat,
            )->Ok_0.records
            &&& all.aliases == relay_answer(query_name, response, first->Ok_0)->Ok_0.aliases
                + relay_answers(
                query_name,
                response,
                first->Ok_0.end,
                (count - 1) as nat,
            )->Ok_0.aliases
        }),
{
}

/// What is said of a response that is refused is true of it, by its own bytes.
pub proof fn law_response_refusals_are_true(
    id: u16,
    name: Seq<u8>,
    qtype: u16,
    response: Seq<u8>,
)
    ensures
        response_start(id, name, qtype, response) matches Err(error) ==> {
            &&& response.len() < 12 ==> error == DriadErrorModel::Truncated("DNS header"@)
            &&& response.len() >= 12 ==> (error is InvalidResponseId <==> response[0] * 256
                + response[1] != id)
            &&& error matches DriadErrorModel::InvalidResponseId { expected, actual } ==> expected
                == id && actual == response[0] * 256 + response[1]
            &&& error matches DriadErrorModel::InvalidDnsFlags(flags) ==> flags == response[2] * 256
                + response[3] && !flags_fit(flags as int)
            &&& error matches DriadErrorModel::DnsResponseCode(code) ==> code == response[3] % 16
                && code != 0
            &&& error is InvalidQuestion ==> response[4] * 256 + response[5] != 1 || (dns_name(
                response,
                12,
            ) matches Ok((asked, next)) && !(next + 4 <= response.len() && same_name(asked, name)
                && response[next] * 256 + response[next + 1] == qtype && response[next + 2] == 0
                && response[next + 3] == 1))
        },
{
    if response.len() >= 12 {
        lemma_name_errors(response, 12, MAX_NAME_STEPS as nat);
        assert(u16_at(response, 2) % 16 == response[3] % 16);
    }
}

proof fn lemma_name_errors(message: Seq<u8>, cursor: int, steps: nat)
    ensures
        name_at(message, cursor, steps) matches Err(error) ==> error is InvalidDnsPointer
            || error is InvalidRelayName || error is Truncated,
    decreases steps,
{
    if steps > 0 && cursor < message.len() {
        let head = message[cursor] as int;
        if 0 < head < 64 {
            lemma_name_errors(message, cursor + 1 + head, (steps - 1) as nat);
        } else if head >= 192 && cursor + 1 < message.len() {
            lemma_name_errors(
                message,
                (head - 192) * 256 + message[cursor + 1],
                (steps - 1) as nat,
            );
        }
    }
}

proof fn lemma_plain_name_errors(input: Seq<u8>, cursor: int, steps: nat)
    ensures
        plain_name_at(input, cursor, steps) matches Err(error) ==> error is InvalidRelayName
            || error is Truncated,
    decreases steps,
{
    if steps > 0 && cursor < input.len() {
        lemma_plain_name_errors(input, cursor + 1 + input[cursor], (steps - 1) as nat);
    }
}

/// What is said of an AMTRELAY record that is refused is true of it, by its own
/// bytes.
pub proof fn law_relay_record_refusals_are_true(rdata: Seq<u8>)
    ensures
        relay_record(rdata) matches Err(error) ==> {
            let kind = rdata[1] % 128;
            &&& rdata.len() < 2 ==> error is Truncated
            &&& rdata.len() >= 2 ==> (error is InvalidRelayType <==> kind > 3)
            &&& rdata.len() >= 2 && kind < 3 ==> error is InvalidRelayLength
            &&& error matches DriadErrorModel::InvalidRelayType(told) ==> told == kind
            &&& error matches DriadErrorModel::InvalidRelayLength { relay_type, expected, actual }
                ==> relay_type == kind && actual == rdata.len() - 2 && actual != expected && expected
                == if kind == 0 {
                0int
            } else if kind == 1 {
                4
            } else {
                16
            }
        },
{
    lemma_plain_name_errors(rdata.skip(2), 0, MAX_NAME_STEPS as nat);
}

} // verus!
