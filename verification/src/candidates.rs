//! The order in which discovered relays are tried.

use crate::dns::{AmtRelayRecord, RelayRecordModel, Timed};
use crate::net::{IpAddr, SocketAddr};
use crate::random::{drawn_or, random_u64};
use crate::time::Duration;
use vstd::arithmetic::power2::lemma2_to64;
use vstd::bits::{lemma_u64_shl_is_mul, lemma_u64_shr_is_div};
use vstd::prelude::*;
use vstd::utf8::encode_utf8;

verus! {

/// A relay that may serve a source.
#[derive(Debug, PartialEq, Eq)]
pub struct DriadRelaySelection {
    pub source: IpAddr,
    pub query_name: String,
    pub record: AmtRelayRecord,
    pub relay: SocketAddr,
    /// How long all that led to the relay may be kept.
    pub ttl: Duration,
}

/// A [`DriadRelaySelection`] with its names as UTF-8 bytes.
pub struct SelectionModel {
    pub source: IpAddr,
    pub query_name: Seq<u8>,
    pub record: RelayRecordModel,
    pub relay: SocketAddr,
    pub ttl: Duration,
}

impl View for DriadRelaySelection {
    type V = SelectionModel;

    open spec fn view(&self) -> SelectionModel {
        SelectionModel {
            source: self.source,
            query_name: encode_utf8(self.query_name@),
            record: self.record@,
            relay: self.relay,
            ttl: self.ttl,
        }
    }
}

impl Clone for DriadRelaySelection {
    fn clone(&self) -> (copy: Self)
        ensures
            copy@ == self@,
    {
        DriadRelaySelection {
            source: self.source,
            query_name: self.query_name.clone(),
            record: self.record.clone(),
            relay: self.relay,
            ttl: self.ttl,
        }
    }
}

/// What some selections say.
pub open spec fn selection_models(selections: Seq<DriadRelaySelection>) -> Seq<SelectionModel> {
    selections.map_values(|selection: DriadRelaySelection| selection@)
}

/// What some records say.
pub open spec fn record_models(records: Seq<Timed<AmtRelayRecord>>) -> Seq<
    Timed<RelayRecordModel>,
> {
    records.map_values(|record: Timed<AmtRelayRecord>| record@)
}

/// The records of one precedence, in their order.
pub open spec fn records_of(records: Seq<Timed<RelayRecordModel>>, precedence: int) -> Seq<
    Timed<RelayRecordModel>,
>
    decreases records.len(),
{
    if records.len() == 0 {
        Seq::empty()
    } else if records.last().value.precedence == precedence {
        records_of(records.drop_last(), precedence).push(records.last())
    } else {
        records_of(records.drop_last(), precedence)
    }
}

/// The records of the lowest precedences, sorted by precedence; those of the
/// same precedence keep their order.
pub open spec fn records_below(records: Seq<Timed<RelayRecordModel>>, bound: nat) -> Seq<
    Timed<RelayRecordModel>,
>
    decreases bound,
{
    if bound == 0 {
        Seq::empty()
    } else {
        records_below(records, (bound - 1) as nat) + records_of(records, bound - 1)
    }
}

/// Copies the records of one precedence behind others.
fn append_records_of(
    sorted: &mut Vec<Timed<AmtRelayRecord>>,
    records: &Vec<Timed<AmtRelayRecord>>,
    precedence: u8,
)
    ensures
        record_models(final(sorted)@) == record_models(old(sorted)@) + records_of(
            record_models(records@),
            precedence as int,
        ),
{
    let ghost models = record_models(records@);
    let mut i: usize = 0;
    proof {
        assert(models.take(0) =~= Seq::empty());
        assert(record_models(sorted@) =~= record_models(old(sorted)@) + Seq::empty());
    }
    while i < records.len()
        invariant
            i <= records@.len(),
            models == record_models(records@),
            record_models(sorted@) == record_models(old(sorted)@) + records_of(
                models.take(i as int),
                precedence as int,
            ),
        decreases records@.len() - i,
    {
        let ghost before = sorted@;
        proof {
            assert(models.take(i + 1).drop_last() =~= models.take(i as int));
            assert(models.take(i + 1).last() == records@[i as int]@);
        }
        if records[i].value.precedence == precedence {
            sorted.push(Timed { value: records[i].value.clone(), ttl: records[i].ttl });
            proof {
                assert(record_models(sorted@) =~= record_models(before).push(sorted@.last()@));
                assert(sorted@.last()@ == records@[i as int]@);
                assert(record_models(sorted@) =~= record_models(old(sorted)@) + records_of(
                    models.take(i + 1),
                    precedence as int,
                ));
            }
        }
        i += 1;
    }
    proof {
        assert(models.take(i as int) =~= models);
    }
}

/// Records sorted by precedence; those of the same precedence keep their order.
pub fn sort_records(records: &Vec<Timed<AmtRelayRecord>>) -> (sorted: Vec<Timed<AmtRelayRecord>>)
    ensures
        record_models(sorted@) == records_below(record_models(records@), 256),
{
    let mut sorted: Vec<Timed<AmtRelayRecord>> = Vec::new();
    let mut precedence: u16 = 0;
    proof {
        assert(record_models(sorted@) =~= Seq::empty());
    }
    while precedence < 256
        invariant
            precedence <= 256,
            record_models(sorted@) == records_below(record_models(records@), precedence as nat),
        decreases 256 - precedence,
    {
        append_records_of(&mut sorted, records, precedence as u8);
        precedence += 1;
    }
    sorted
}

/// One step of a xorshift generator; zero is replaced by a constant first.
pub open spec fn xorshift(value: u64) -> u64 {
    let a = if value == 0 {
        0x2545_f491_4f6c_dd1d_u64
    } else {
        value
    };
    let b = a ^ (a << 13);
    let c = b ^ (b >> 7);
    c ^ (c << 17)
}

/// One step of a xorshift generator.
pub fn xorshift64(value: u64) -> (next: u64)
    ensures
        next == xorshift(value),
{
    let a: u64 = if value == 0 {
        0x2545_f491_4f6c_dd1d
    } else {
        value
    };
    let b: u64 = a ^ (a << 13);
    let c: u64 = b ^ (b >> 7);
    c ^ (c << 17)
}

/// A sequence with two elements exchanged.
pub open spec fn swapped<T>(s: Seq<T>, i: int, j: int) -> Seq<T> {
    s.update(i, s[j]).update(j, s[i])
}

/// Which of the first `count` places a random number picks.
pub open spec fn picked(random: u64, count: int) -> int {
    (random as usize) as int % count
}

/// A shuffle of the first `index + 1` elements: from the last down, each is
/// exchanged with one that the generator picks among those up to it.
pub open spec fn shuffled<T>(s: Seq<T>, index: nat, random: u64) -> Seq<T>
    decreases index,
{
    if index == 0 {
        s
    } else {
        let next = xorshift(random);
        shuffled(
            swapped(s, index as int, picked(next, index as int + 1)),
            (index - 1) as nat,
            next,
        )
    }
}

/// Elements taken from two queues in turn, the first queue first; when it is a
/// queue's turn and it is empty, all that the other holds follows.
pub open spec fn interleaved<T>(first: Seq<T>, second: Seq<T>) -> Seq<T>
    decreases first.len() + second.len(),
{
    if first.len() == 0 {
        second
    } else {
        seq![first[0]] + interleaved(second, first.skip(1))
    }
}

/// The selections whose relay is, or is not, an IPv6 address.
pub open spec fn of_family(s: Seq<SelectionModel>, ipv6: bool) -> Seq<SelectionModel>
    decreases s.len(),
{
    if s.len() == 0 {
        Seq::empty()
    } else if (s.last().relay is V6) == ipv6 {
        of_family(s.drop_last(), ipv6).push(s.last())
    } else {
        of_family(s.drop_last(), ipv6)
    }
}

/// Selections of the same precedence in the order in which they are tried.
pub open spec fn arranged(s: Seq<SelectionModel>, random: u64) -> Seq<SelectionModel> {
    if s.len() < 2 {
        s
    } else {
        let mixed = shuffled(s, (s.len() - 1) as nat, random);
        let ipv6 = mixed[0].relay is V6;
        interleaved(of_family(mixed, ipv6), of_family(mixed, !ipv6))
    }
}

/// The selections of one precedence, in their order.
pub open spec fn selections_of(s: Seq<SelectionModel>, precedence: int) -> Seq<SelectionModel>
    decreases s.len(),
{
    if s.len() == 0 {
        Seq::empty()
    } else if s.last().record.precedence == precedence {
        selections_of(s.drop_last(), precedence).push(s.last())
    } else {
        selections_of(s.drop_last(), precedence)
    }
}

/// The selections of the lowest precedences in the order in which they are
/// tried, given a random number for each precedence.
pub open spec fn ordered_below(s: Seq<SelectionModel>, seeds: Seq<u64>, bound: nat) -> Seq<
    SelectionModel,
>
    decreases bound,
{
    if bound == 0 {
        Seq::empty()
    } else {
        ordered_below(s, seeds, (bound - 1) as nat) + arranged(
            selections_of(s, bound - 1),
            seeds[bound - 1],
        )
    }
}

#[verifier::truncate]
fn pick(random: u64, count: usize) -> (at: usize)
    requires
        count > 0,
    ensures
        at == picked(random, count as int),
        at < count,
{
    random as usize % count
}

fn swap(selections: &mut Vec<DriadRelaySelection>, i: usize, j: usize)
    requires
        j <= i < old(selections)@.len(),
    ensures
        final(selections)@ == swapped(old(selections)@, i as int, j as int),
{
    if i != j {
        let upper = selections.remove(i);
        let lower = selections.remove(j);
        selections.insert(j, upper);
        selections.insert(i, lower);
    }
    proof {
        assert(selections@ =~= swapped(old(selections)@, i as int, j as int));
    }
}

proof fn lemma_shuffled_models(s: Seq<DriadRelaySelection>, index: nat, random: u64)
    requires
        index < s.len(),
    ensures
        selection_models(shuffled(s, index, random)) == shuffled(
            selection_models(s),
            index,
            random,
        ),
        shuffled(s, index, random).len() == s.len(),
    decreases index,
{
    if index > 0 {
        let next = xorshift(random);
        let j = picked(next, index as int + 1);
        assert(0 <= j <= index);
        let t = swapped(s, index as int, j);
        assert(selection_models(t) =~= swapped(selection_models(s), index as int, j));
        lemma_shuffled_models(t, (index - 1) as nat, next);
    }
}

fn shuffle(selections: &mut Vec<DriadRelaySelection>, random: u64)
    requires
        old(selections)@.len() > 0,
    ensures
        final(selections)@ == shuffled(
            old(selections)@,
            (old(selections)@.len() - 1) as nat,
            random,
        ),
        final(selections)@.len() == old(selections)@.len(),
{
    let ghost whole = shuffled(selections@, (selections@.len() - 1) as nat, random);
    let mut state: u64 = random;
    let length: usize = selections.len();
    let mut index: usize = length - 1;
    while index > 0
        invariant
            length == selections@.len(),
            index < length,
            selections@.len() == old(selections)@.len(),
            shuffled(selections@, index as nat, state) == whole,
        decreases index,
    {
        state = xorshift64(state);
        let j: usize = pick(state, index + 1);
        swap(selections, index, j);
        index -= 1;
    }
}

fn take_family(selections: &Vec<DriadRelaySelection>, ipv6: bool) -> (family: Vec<
    DriadRelaySelection,
>)
    ensures
        selection_models(family@) == of_family(selection_models(selections@), ipv6),
{
    let ghost models = selection_models(selections@);
    let mut family: Vec<DriadRelaySelection> = Vec::new();
    let mut i: usize = 0;
    proof {
        assert(models.take(0) =~= Seq::empty());
        assert(selection_models(family@) =~= Seq::empty());
    }
    while i < selections.len()
        invariant
            i <= selections@.len(),
            models == selection_models(selections@),
            selection_models(family@) == of_family(models.take(i as int), ipv6),
        decreases selections@.len() - i,
    {
        let ghost before = family@;
        proof {
            assert(models.take(i + 1).drop_last() =~= models.take(i as int));
            assert(models.take(i + 1).last() == selections@[i as int]@);
        }
        if selections[i].relay.is_ipv6() == ipv6 {
            family.push(selections[i].clone());
            proof {
                assert(selection_models(family@) =~= selection_models(before).push(
                    family@.last()@,
                ));
            }
        }
        i += 1;
    }
    proof {
        assert(models.take(i as int) =~= models);
    }
    family
}

/// Appends selections taken from two queues in turn.
fn append_interleaved(
    out: &mut Vec<DriadRelaySelection>,
    first: Vec<DriadRelaySelection>,
    second: Vec<DriadRelaySelection>,
)
    ensures
        selection_models(final(out)@) == selection_models(old(out)@) + interleaved(
            selection_models(first@),
            selection_models(second@),
        ),
{
    let ghost whole = interleaved(selection_models(first@), selection_models(second@));
    let mut a: Vec<DriadRelaySelection> = first;
    let mut b: Vec<DriadRelaySelection> = second;
    let mut turn: bool = true;
    proof {
        assert(selection_models(out@) =~= selection_models(old(out)@) + Seq::empty());
        assert(selection_models(old(out)@) + whole =~= selection_models(out@) + whole);
    }
    while a.len() > 0 || b.len() > 0
        invariant
            selection_models(old(out)@) + whole == selection_models(out@) + (if turn {
                interleaved(selection_models(a@), selection_models(b@))
            } else {
                interleaved(selection_models(b@), selection_models(a@))
            }),
        decreases a@.len() + b@.len(),
    {
        let from_first: bool = if turn {
            a.len() > 0
        } else {
            b.len() == 0
        };
        let ghost before = out@;
        let ghost a0 = selection_models(a@);
        let ghost b0 = selection_models(b@);
        let next = if from_first {
            a.remove(0)
        } else {
            b.remove(0)
        };
        out.push(next);
        proof {
            assert(selection_models(out@) =~= selection_models(before).push(next@));
            if from_first {
                assert(selection_models(a@) =~= a0.skip(1));
                assert(next@ == a0[0]);
            } else {
                assert(selection_models(b@) =~= b0.skip(1));
                assert(next@ == b0[0]);
            }
            let (x0, y0) = if turn {
                (a0, b0)
            } else {
                (b0, a0)
            };
            let (x1, y1) = if turn {
                (selection_models(a@), selection_models(b@))
            } else {
                (selection_models(b@), selection_models(a@))
            };
            if x0.len() > 0 {
                assert(interleaved(x0, y0) =~= seq![next@] + interleaved(y1, x1));
            } else {
                assert(x1 =~= Seq::empty());
                lemma_interleaved_with_none(y1);
                assert(interleaved(y1, x1) =~= y1);
                assert(interleaved(x0, y0) =~= y0);
                assert(y0 =~= seq![next@] + y1);
            }
            assert(selection_models(before) + interleaved(x0, y0) =~= selection_models(out@)
                + interleaved(y1, x1));
        }
        turn = !turn;
    }
    proof {
        assert(selection_models(a@) =~= Seq::empty());
        assert(selection_models(b@) =~= Seq::empty());
        assert(selection_models(out@) =~= selection_models(old(out)@) + whole);
    }
}

proof fn lemma_interleaved_with_none(s: Seq<SelectionModel>)
    ensures
        interleaved(s, Seq::empty()) == s,
{
    if s.len() > 0 {
        assert(interleaved(Seq::empty(), s.skip(1)) == s.skip(1));
        assert(seq![s[0]] + s.skip(1) =~= s);
    } else {
        assert(s =~= Seq::empty());
    }
}

/// Appends selections of the same precedence in the order in which they are
/// tried.
fn append_arranged(
    out: &mut Vec<DriadRelaySelection>,
    selections: Vec<DriadRelaySelection>,
    random: u64,
)
    ensures
        selection_models(final(out)@) == selection_models(old(out)@) + arranged(
            selection_models(selections@),
            random,
        ),
{
    let ghost models = selection_models(selections@);
    let mut mixed: Vec<DriadRelaySelection> = selections;
    if mixed.len() == 0 {
        proof {
            assert(selection_models(out@) =~= selection_models(old(out)@) + models);
        }
        return;
    }
    if mixed.len() >= 2 {
        shuffle(&mut mixed, random);
        proof {
            lemma_shuffled_models(selections@, (selections@.len() - 1) as nat, random);
        }
    }
    let ipv6: bool = mixed[0].relay.is_ipv6();
    let first = take_family(&mixed, ipv6);
    let second = take_family(&mixed, !ipv6);
    proof {
        if models.len() == 1 {
            reveal_with_fuel(of_family, 2);
            assert(models.drop_last() =~= Seq::empty());
            assert(models.last() == mixed@[0]@);
            assert(of_family(models, ipv6) =~= models);
            assert(of_family(models, !ipv6) =~= Seq::empty());
            lemma_interleaved_with_none(models);
        }
    }
    append_interleaved(out, first, second);
}

fn take_precedence(selections: &Vec<DriadRelaySelection>, precedence: u8) -> (found: Vec<
    DriadRelaySelection,
>)
    ensures
        selection_models(found@) == selections_of(
            selection_models(selections@),
            precedence as int,
        ),
{
    let ghost models = selection_models(selections@);
    let mut found: Vec<DriadRelaySelection> = Vec::new();
    let mut i: usize = 0;
    proof {
        assert(models.take(0) =~= Seq::empty());
        assert(selection_models(found@) =~= Seq::empty());
    }
    while i < selections.len()
        invariant
            i <= selections@.len(),
            models == selection_models(selections@),
            selection_models(found@) == selections_of(models.take(i as int), precedence as int),
        decreases selections@.len() - i,
    {
        let ghost before = found@;
        proof {
            assert(models.take(i + 1).drop_last() =~= models.take(i as int));
            assert(models.take(i + 1).last() == selections@[i as int]@);
        }
        if selections[i].record.precedence == precedence {
            found.push(selections[i].clone());
            proof {
                assert(selection_models(found@) =~= selection_models(before).push(
                    found@.last()@,
                ));
            }
        }
        i += 1;
    }
    proof {
        assert(models.take(i as int) =~= models);
    }
    found
}

/// Selections in the order in which they are tried, given a random number for
/// each precedence: by precedence, shuffled within one, and there with IPv4 and
/// IPv6 relays in turn.
pub fn order_relay_candidates_with(
    selections: &Vec<DriadRelaySelection>,
    seeds: &Vec<u64>,
) -> (ordered: Vec<DriadRelaySelection>)
    requires
        seeds@.len() == 256,
    ensures
        selection_models(ordered@) == ordered_below(
            selection_models(selections@),
            seeds@,
            256,
        ),
{
    let mut ordered: Vec<DriadRelaySelection> = Vec::new();
    let mut precedence: usize = 0;
    proof {
        assert(selection_models(ordered@) =~= Seq::empty());
    }
    while precedence < 256
        invariant
            precedence <= 256,
            seeds@.len() == 256,
            selection_models(ordered@) == ordered_below(
                selection_models(selections@),
                seeds@,
                precedence as nat,
            ),
        decreases 256 - precedence,
    {
        let found = take_precedence(selections, precedence as u8);
        append_arranged(&mut ordered, found, seeds[precedence]);
        precedence += 1;
    }
    ordered
}

/// A random number, or a constant where randomness fails.
pub fn random_u64_best_effort() -> (random: u64) {
    drawn_or(random_u64(), 0x9e37_79b9_7f4a_7c15)
}

/// Whether more than one selection has a precedence.
fn is_shared(selections: &Vec<DriadRelaySelection>, precedence: u8) -> (shared: bool)
    ensures
        shared == (selections_of(selection_models(selections@), precedence as int).len() > 1),
{
    let found = take_precedence(selections, precedence);
    proof {
        assert(selection_models(found@).len() == found@.len());
    }
    found.len() > 1
}

/// Selections in the order in which they are tried, by chance within a
/// precedence.
pub fn order_relay_candidates(selections: &Vec<DriadRelaySelection>) -> (ordered: Vec<
    DriadRelaySelection,
>)
    ensures
        exists|seeds: Seq<u64>|
            seeds.len() == 256 && selection_models(ordered@) == #[trigger] ordered_below(
                selection_models(selections@),
                seeds,
                256,
            ),
{
    let mut seeds: Vec<u64> = Vec::new();
    let mut precedence: usize = 0;
    while precedence < 256
        invariant
            precedence <= 256,
            seeds@.len() == precedence,
        decreases 256 - precedence,
    {
        let seed: u64 = if is_shared(selections, precedence as u8) {
            random_u64_best_effort()
        } else {
            0
        };
        seeds.push(seed);
        precedence += 1;
    }
    order_relay_candidates_with(selections, &seeds)
}

proof fn lemma_update_count<T>(s: Seq<T>, i: int, x: T)
    requires
        0 <= i < s.len(),
    ensures
        s.update(i, x).to_multiset() == s.to_multiset().remove(s[i]).insert(x),
{
    broadcast use vstd::seq_lib::group_to_multiset_ensures;

    assert(s.update(i, x) =~= s.remove(i).insert(i, x));
    vstd::seq_lib::to_multiset_remove(s, i);
    vstd::seq_lib::to_multiset_insert(s.remove(i), i, x);
}

proof fn lemma_swap_keeps<T>(s: Seq<T>, i: int, j: int)
    requires
        0 <= i < s.len(),
        0 <= j < s.len(),
    ensures
        swapped(s, i, j).to_multiset() == s.to_multiset(),
        swapped(s, i, j).len() == s.len(),
{
    broadcast use vstd::seq_lib::group_to_multiset_ensures;

    if i == j {
        assert(swapped(s, i, j) =~= s);
    } else {
        let t = s.update(i, s[j]);
        lemma_update_count(s, i, s[j]);
        lemma_update_count(t, j, s[i]);
        assert(s.contains(s[i]) && s.contains(s[j]));
        assert(swapped(s, i, j).to_multiset() =~= s.to_multiset());
    }
}

proof fn lemma_shuffle_keeps<T>(s: Seq<T>, index: nat, random: u64)
    requires
        index < s.len(),
    ensures
        shuffled(s, index, random).to_multiset() == s.to_multiset(),
        shuffled(s, index, random).len() == s.len(),
    decreases index,
{
    if index > 0 {
        let next = xorshift(random);
        let j = picked(next, index as int + 1);
        assert(0 <= j <= index);
        lemma_swap_keeps(s, index as int, j);
        lemma_shuffle_keeps(swapped(s, index as int, j), (index - 1) as nat, next);
    }
}

proof fn lemma_interleave_keeps<T>(a: Seq<T>, b: Seq<T>)
    ensures
        interleaved(a, b).to_multiset() == a.to_multiset().add(b.to_multiset()),
    decreases a.len() + b.len(),
{
    broadcast use vstd::seq_lib::group_to_multiset_ensures;

    if a.len() == 0 {
        assert(a.to_multiset() =~= vstd::multiset::Multiset::empty());
        assert(interleaved(a, b).to_multiset() =~= a.to_multiset().add(b.to_multiset()));
    } else {
        let rest = interleaved(b, a.skip(1));
        lemma_interleave_keeps(b, a.skip(1));
        assert(seq![a[0]] + rest =~= rest.insert(0, a[0]));
        vstd::seq_lib::to_multiset_insert(rest, 0, a[0]);
        assert(a =~= a.skip(1).insert(0, a[0]));
        vstd::seq_lib::to_multiset_insert(a.skip(1), 0, a[0]);
        assert(interleaved(a, b).to_multiset() =~= a.to_multiset().add(b.to_multiset()));
    }
}

proof fn lemma_families_keep(s: Seq<SelectionModel>, ipv6: bool)
    ensures
        of_family(s, ipv6).to_multiset().add(of_family(s, !ipv6).to_multiset())
            == s.to_multiset(),
    decreases s.len(),
{
    broadcast use vstd::seq_lib::group_to_multiset_ensures;

    if s.len() == 0 {
        assert(of_family(s, ipv6).to_multiset().add(of_family(s, !ipv6).to_multiset())
            =~= s.to_multiset());
    } else {
        lemma_families_keep(s.drop_last(), ipv6);
        assert(s =~= s.drop_last().push(s.last()));
        assert(of_family(s, ipv6).to_multiset().add(of_family(s, !ipv6).to_multiset())
            =~= s.to_multiset());
    }
}

proof fn lemma_arranging_keeps(s: Seq<SelectionModel>, random: u64)
    ensures
        arranged(s, random).to_multiset() == s.to_multiset(),
{
    if s.len() >= 2 {
        let mixed = shuffled(s, (s.len() - 1) as nat, random);
        let ipv6 = mixed[0].relay is V6;
        lemma_shuffle_keeps(s, (s.len() - 1) as nat, random);
        lemma_families_keep(mixed, ipv6);
        lemma_interleave_keeps(of_family(mixed, ipv6), of_family(mixed, !ipv6));
    }
}

proof fn lemma_precedence_count(s: Seq<SelectionModel>, precedence: int, x: SelectionModel)
    ensures
        selections_of(s, precedence).to_multiset().count(x) == if x.record.precedence
            == precedence {
            s.to_multiset().count(x)
        } else {
            0
        },
    decreases s.len(),
{
    broadcast use vstd::seq_lib::group_to_multiset_ensures;

    if s.len() > 0 {
        lemma_precedence_count(s.drop_last(), precedence, x);
        assert(s =~= s.drop_last().push(s.last()));
    }
}

proof fn lemma_ordered_count(s: Seq<SelectionModel>, seeds: Seq<u64>, bound: nat, x: SelectionModel)
    ensures
        ordered_below(s, seeds, bound).to_multiset().count(x) == if x.record.precedence < bound {
            s.to_multiset().count(x)
        } else {
            0
        },
    decreases bound,
{
    broadcast use vstd::seq_lib::group_to_multiset_ensures;

    if bound > 0 {
        let front = ordered_below(s, seeds, (bound - 1) as nat);
        let run = selections_of(s, bound - 1);
        lemma_ordered_count(s, seeds, (bound - 1) as nat, x);
        lemma_precedence_count(s, bound - 1, x);
        lemma_arranging_keeps(run, seeds[bound - 1]);
        vstd::seq_lib::lemma_multiset_commutative(front, arranged(run, seeds[bound - 1]));
    }
}

/// Ordering candidates neither loses nor repeats one.
pub proof fn law_ordering_keeps_candidates(s: Seq<SelectionModel>, seeds: Seq<u64>)
    ensures
        ordered_below(s, seeds, 256).to_multiset() == s.to_multiset(),
{
    assert forall|x: SelectionModel| #[trigger]
        ordered_below(s, seeds, 256).to_multiset().count(x) == s.to_multiset().count(x) by {
        lemma_ordered_count(s, seeds, 256, x);
    }
    assert(ordered_below(s, seeds, 256).to_multiset() =~= s.to_multiset());
}

/// Candidates of a lower precedence are tried first.
pub proof fn law_lower_precedence_comes_first(
    s: Seq<SelectionModel>,
    seeds: Seq<u64>,
    bound: nat,
    i: int,
    j: int,
)
    requires
        0 <= i <= j < ordered_below(s, seeds, bound).len(),
    ensures
        ordered_below(s, seeds, bound)[i].record.precedence <= ordered_below(
            s,
            seeds,
            bound,
        )[j].record.precedence < bound,
    decreases bound,
{
    broadcast use vstd::seq_lib::group_to_multiset_ensures;

    let all = ordered_below(s, seeds, bound);
    let front = ordered_below(s, seeds, (bound - 1) as nat);
    let run = arranged(selections_of(s, bound - 1), seeds[bound - 1]);
    if j < front.len() {
        law_lower_precedence_comes_first(s, seeds, (bound - 1) as nat, i, j);
    } else {
        assert(all[j] == run[j - front.len()]);
        lemma_run_precedence(s, bound - 1, seeds[bound - 1], j - front.len());
        if i < front.len() {
            law_lower_precedence_comes_first(s, seeds, (bound - 1) as nat, i, i);
        } else {
            assert(all[i] == run[i - front.len()]);
            lemma_run_precedence(s, bound - 1, seeds[bound - 1], i - front.len());
        }
    }
}

proof fn lemma_run_precedence(s: Seq<SelectionModel>, precedence: int, random: u64, i: int)
    requires
        0 <= i < arranged(selections_of(s, precedence), random).len(),
    ensures
        arranged(selections_of(s, precedence), random)[i].record.precedence == precedence,
{
    broadcast use vstd::seq_lib::group_to_multiset_ensures;

    let run = selections_of(s, precedence);
    let x = arranged(run, random)[i];
    lemma_arranging_keeps(run, random);
    assert(arranged(run, random).contains(x));
    assert(arranged(run, random).to_multiset().count(x) > 0);
    lemma_precedence_count(s, precedence, x);
}

proof fn lemma_of_family(s: Seq<SelectionModel>, ipv6: bool)
    ensures
        forall|i: int|
            0 <= i < of_family(s, ipv6).len() ==> ((#[trigger] of_family(s, ipv6)[i]).relay is V6)
                == ipv6,
    decreases s.len(),
{
    if s.len() > 0 {
        lemma_of_family(s.drop_last(), ipv6);
    }
}

proof fn lemma_interleaved_alternates(
    a: Seq<SelectionModel>,
    b: Seq<SelectionModel>,
    ipv6: bool,
    i: int,
)
    requires
        forall|k: int| 0 <= k < a.len() ==> ((#[trigger] a[k]).relay is V6) == ipv6,
        forall|k: int| 0 <= k < b.len() ==> ((#[trigger] b[k]).relay is V6) == !ipv6,
        0 <= i < 2 * a.len(),
        i <= 2 * b.len(),
    ensures
        i < interleaved(a, b).len(),
        (interleaved(a, b)[i].relay is V6) == (ipv6 == (i % 2 == 0)),
    decreases i,
{
    if i > 0 {
        let rest = a.skip(1);
        assert forall|k: int| 0 <= k < rest.len() implies ((#[trigger] rest[k]).relay is V6)
            == ipv6 by {
            assert(rest[k] == a[k + 1]);
        }
        if i == 1 {
            assert(interleaved(b, rest)[0] == b[0]);
        } else {
            lemma_interleaved_alternates(b, rest, !ipv6, i - 1);
        }
        assert(interleaved(a, b)[i] == interleaved(b, rest)[i - 1]);
    }
}

/// Among candidates of the same precedence, relays of the two families are
/// tried in turn for as long as both have relays left.
pub proof fn law_families_take_turns(s: Seq<SelectionModel>, random: u64, i: int)
    requires
        0 <= i,
        i + 1 < 2 * of_family(s, true).len(),
        i + 1 < 2 * of_family(s, false).len(),
    ensures
        i + 1 < arranged(s, random).len(),
        (arranged(s, random)[i].relay is V6) != (arranged(s, random)[i + 1].relay is V6),
{
    lemma_family_sizes(s);
    let mixed = shuffled(s, (s.len() - 1) as nat, random);
    let ipv6 = mixed[0].relay is V6;
    lemma_shuffle_keeps(s, (s.len() - 1) as nat, random);
    lemma_same_family_sizes(s, mixed, true);
    lemma_same_family_sizes(s, mixed, false);
    lemma_of_family(mixed, true);
    lemma_of_family(mixed, false);
    let a = of_family(mixed, ipv6);
    let b = of_family(mixed, !ipv6);
    lemma_interleaved_alternates(a, b, ipv6, i);
    lemma_interleaved_alternates(a, b, ipv6, i + 1);
}

proof fn lemma_family_sizes(s: Seq<SelectionModel>)
    ensures
        of_family(s, true).len() + of_family(s, false).len() == s.len(),
    decreases s.len(),
{
    if s.len() > 0 {
        lemma_family_sizes(s.drop_last());
    }
}

proof fn lemma_family_count(s: Seq<SelectionModel>, ipv6: bool, x: SelectionModel)
    ensures
        of_family(s, ipv6).to_multiset().count(x) == if (x.relay is V6) == ipv6 {
            s.to_multiset().count(x)
        } else {
            0
        },
    decreases s.len(),
{
    broadcast use vstd::seq_lib::group_to_multiset_ensures;

    if s.len() > 0 {
        lemma_family_count(s.drop_last(), ipv6, x);
        assert(s =~= s.drop_last().push(s.last()));
    }
}

proof fn lemma_same_family_sizes(s: Seq<SelectionModel>, t: Seq<SelectionModel>, ipv6: bool)
    requires
        s.to_multiset() == t.to_multiset(),
    ensures
        of_family(s, ipv6).len() == of_family(t, ipv6).len(),
{
    broadcast use vstd::seq_lib::group_to_multiset_ensures;

    assert forall|x: SelectionModel| #[trigger]
        of_family(s, ipv6).to_multiset().count(x) == of_family(t, ipv6).to_multiset().count(x) by {
        lemma_family_count(s, ipv6, x);
        lemma_family_count(t, ipv6, x);
    }
    assert(of_family(s, ipv6).to_multiset() =~= of_family(t, ipv6).to_multiset());
    of_family(s, ipv6).to_multiset_ensures();
    of_family(t, ipv6).to_multiset_ensures();
}

/// Sorting records loses none and repeats none, puts lower precedences first, and
/// leaves those of the same precedence in their order.
pub proof fn law_records_are_sorted_by_precedence(
    records: Seq<Timed<RelayRecordModel>>,
    bound: nat,
    i: int,
    j: int,
)
    requires
        0 <= i <= j < records_below(records, bound).len(),
    ensures
        records_below(records, bound)[i].value.precedence <= records_below(
            records,
            bound,
        )[j].value.precedence < bound,
        records.contains(records_below(records, bound)[j]),
    decreases bound,
{
    let all = records_below(records, bound);
    let front = records_below(records, (bound - 1) as nat);
    let run = records_of(records, bound - 1);
    lemma_records_of(records, bound - 1);
    if j < front.len() {
        law_records_are_sorted_by_precedence(records, (bound - 1) as nat, i, j);
    } else {
        assert(all[j] == run[j - front.len()]);
        if i < front.len() {
            law_records_are_sorted_by_precedence(records, (bound - 1) as nat, i, i);
        } else {
            assert(all[i] == run[i - front.len()]);
        }
    }
}

proof fn lemma_records_of(records: Seq<Timed<RelayRecordModel>>, precedence: int)
    ensures
        forall|i: int|
            0 <= i < records_of(records, precedence).len() ==> (#[trigger] records_of(
                records,
                precedence,
            )[i]).value.precedence == precedence && records.contains(
                records_of(records, precedence)[i],
            ),
    decreases records.len(),
{
    if records.len() > 0 {
        let front = records.drop_last();
        lemma_records_of(front, precedence);
        let run = records_of(records, precedence);
        assert forall|i: int| 0 <= i < run.len() implies (#[trigger] run[i]).value.precedence
            == precedence && records.contains(run[i]) by {
            if i < records_of(front, precedence).len() {
                let x = records_of(front, precedence)[i];
                assert(run[i] == x);
                let k = choose|k: int| 0 <= k < front.len() && front[k] == x;
                assert(records[k] == x);
            } else {
                assert(records[records.len() - 1] == run[i]);
            }
        }
    }
}

/// Every record is among the sorted ones, as often as it was there.
pub proof fn law_sorting_keeps_records(
    records: Seq<Timed<RelayRecordModel>>,
    x: Timed<RelayRecordModel>,
)
    ensures
        records_below(records, 256).to_multiset().count(x) == records.to_multiset().count(x),
{
    lemma_sorted_count(records, 256, x);
}

proof fn lemma_sorted_count(
    records: Seq<Timed<RelayRecordModel>>,
    bound: nat,
    x: Timed<RelayRecordModel>,
)
    ensures
        records_below(records, bound).to_multiset().count(x) == if x.value.precedence < bound {
            records.to_multiset().count(x)
        } else {
            0
        },
    decreases bound,
{
    broadcast use vstd::seq_lib::group_to_multiset_ensures;

    if bound > 0 {
        let front = records_below(records, (bound - 1) as nat);
        let run = records_of(records, bound - 1);
        lemma_sorted_count(records, (bound - 1) as nat, x);
        lemma_run_count(records, bound - 1, x);
        vstd::seq_lib::lemma_multiset_commutative(front, run);
    }
}

proof fn lemma_run_count(
    records: Seq<Timed<RelayRecordModel>>,
    precedence: int,
    x: Timed<RelayRecordModel>,
)
    ensures
        records_of(records, precedence).to_multiset().count(x) == if x.value.precedence
            == precedence {
            records.to_multiset().count(x)
        } else {
            0
        },
    decreases records.len(),
{
    broadcast use vstd::seq_lib::group_to_multiset_ensures;

    if records.len() > 0 {
        let front = records.drop_last();
        lemma_run_count(front, precedence, x);
        assert(front.push(records.last()) =~= records);
    }
}

/// Records of one precedence keep their order: one that comes behind others comes
/// behind those of them that are kept.
pub proof fn law_equal_precedences_keep_their_order(
    records: Seq<Timed<RelayRecordModel>>,
    next: Timed<RelayRecordModel>,
    precedence: int,
)
    ensures
        records_of(records.push(next), precedence) == if next.value.precedence == precedence {
            records_of(records, precedence).push(next)
        } else {
            records_of(records, precedence)
        },
{
    assert(records.push(next).drop_last() =~= records);
}

/// A random number leads to the next by three steps: it is mixed with its own bits
/// moved up by thirteen, then down by seven, then up by seventeen places.
/// No number but zero leads to zero, which is replaced first.
pub proof fn law_random_numbers_lead_on(value: u64)
    requires
        value != 0,
    ensures
        ({
            let first = value ^ ((value % 0x8_0000_0000_0000) * 0x2000) as u64;
            let second = first ^ (first / 0x80);
            xorshift(value) == second ^ ((second % 0x8000_0000_0000) * 0x2_0000) as u64
        }),
        xorshift(value) != 0,
        xorshift(0) == xorshift(0x2545_f491_4f6c_dd1d),
{
    lemma2_to64();
    let a = value;
    let b = a ^ (a << 13);
    let c = b ^ (b >> 7);
    let low = a % 0x8_0000_0000_0000;
    assert(a << 13 == low << 13) by (bit_vector)
        requires
            low == a % 0x8_0000_0000_0000,
    ;
    assert(low * 0x2000 <= u64::MAX);
    lemma_u64_shl_is_mul(low, 13);
    lemma_u64_shr_is_div(b, 7);
    let tail = c % 0x8000_0000_0000;
    assert(c << 17 == tail << 17) by (bit_vector)
        requires
            tail == c % 0x8000_0000_0000,
    ;
    assert(tail * 0x2_0000 <= u64::MAX);
    lemma_u64_shl_is_mul(tail, 17);
    assert(a ^ (a << 13) == 0 ==> a == 0) by (bit_vector);
    assert(b ^ (b >> 7) == 0 ==> b == 0) by (bit_vector);
    assert(c ^ (c << 17) == 0 ==> c == 0) by (bit_vector);
}

/// A shuffle fills its places from the last down: a random number picks who gets
/// the last one of those left, and what was there takes the place of the one picked.
pub proof fn law_random_numbers_pick_places<T>(s: Seq<T>, index: nat, random: u64)
    requires
        0 < index < s.len(),
    ensures
        ({
            let k = (xorshift(random) as usize) as int % (index as int + 1);
            let exchanged = s.update(index as int, s[k]).update(k, s[index as int]);
            &&& shuffled(s, index, random)[index as int] == s[k]
            &&& forall|j: int|
                index < j < s.len() ==> (#[trigger] shuffled(s, index, random)[j]) == s[j]
            &&& shuffled(s, index, random) == shuffled(
                exchanged,
                (index - 1) as nat,
                xorshift(random),
            )
        }),
        shuffled(s, 0, random) == s,
{
    let next = xorshift(random);
    let k = picked(next, index as int + 1);
    lemma_places_above_stay(swapped(s, index as int, k), (index - 1) as nat, next);
}

proof fn lemma_places_above_stay<T>(s: Seq<T>, index: nat, random: u64)
    requires
        index < s.len(),
    ensures
        shuffled(s, index, random).len() == s.len(),
        forall|j: int| index < j < s.len() ==> (#[trigger] shuffled(s, index, random)[j]) == s[j],
    decreases index,
{
    if index > 0 {
        let next = xorshift(random);
        let k = picked(next, index as int + 1);
        lemma_places_above_stay(swapped(s, index as int, k), (index - 1) as nat, next);
    }
}

/// Those that are tried at one precedence are shuffled, and the family of the one
/// that came out first begins.
pub proof fn law_the_first_drawn_is_tried_first(s: Seq<SelectionModel>, random: u64)
    requires
        s.len() > 0,
    ensures
        arranged(s, random)[0] == shuffled(s, (s.len() - 1) as nat, random)[0],
{
    if s.len() >= 2 {
        let mixed = shuffled(s, (s.len() - 1) as nat, random);
        lemma_places_above_stay(s, (s.len() - 1) as nat, random);
        lemma_first_of_its_family(mixed);
    }
}

proof fn lemma_first_of_its_family(s: Seq<SelectionModel>)
    requires
        s.len() > 0,
    ensures
        ({
            let own = of_family(s, s[0].relay is V6);
            own.len() > 0 && own[0] == s[0]
        }),
    decreases s.len(),
{
    if s.len() == 1 {
        assert(of_family(s.drop_last(), s[0].relay is V6).len() == 0);
    } else {
        lemma_first_of_its_family(s.drop_last());
    }
}

} // verus!
