//! Sets and maps that keep their keys in ascending order.

use crate::net::{IpAddr, SocketAddr};
use crate::time::Instant;
use vstd::prelude::*;

verus! {

/// A key with a total order, given by a number that no two keys share.
pub trait OrdKey: Copy {
    /// The place of the key in the order.
    spec fn rank(self) -> int;

    proof fn rank_is_injective(self, other: Self)
        requires
            self.rank() == other.rank(),
        ensures
            self == other,
    ;

    fn precedes(self, other: Self) -> (b: bool)
        ensures
            b == (self.rank() < other.rank()),
    ;
}

/// A value that a map can hold, copy and compare by what it stands for.
pub trait Stored: View + Sized {
    /// Whether the value is well formed.
    spec fn stored_wf(&self) -> bool;

    fn duplicate(&self) -> (copy: Self)
        requires
            self.stored_wf(),
        ensures
            copy@ == self@,
            copy.stored_wf(),
    ;

    fn same(&self, other: &Self) -> (same: bool)
        requires
            self.stored_wf(),
            other.stored_wf(),
        ensures
            same == (self@ == other@),
    ;
}

impl OrdKey for IpAddr {
    /// IPv4 addresses come first, each family by value.
    open spec fn rank(self) -> int {
        match self {
            IpAddr::V4(a) => a.bits as int,
            IpAddr::V6(a) => 0x1_0000_0000 + a.bits,
        }
    }

    proof fn rank_is_injective(self, other: Self) {
    }

    fn precedes(self, other: Self) -> (b: bool) {
        match (self, other) {
            (IpAddr::V4(a), IpAddr::V4(b)) => a.bits < b.bits,
            (IpAddr::V4(_), IpAddr::V6(_)) => true,
            (IpAddr::V6(_), IpAddr::V4(_)) => false,
            (IpAddr::V6(a), IpAddr::V6(b)) => a.bits < b.bits,
        }
    }
}

impl OrdKey for SocketAddr {
    /// IPv4 addresses come first; in a family the address decides, then the
    /// port, then the flow information and the scope.
    open spec fn rank(self) -> int {
        match self {
            SocketAddr::V4(a) => a.ip.bits * 0x1_0000 + a.port,
            SocketAddr::V6(a) => 0x1_0000_0000_0000 + ((a.ip.bits * 0x1_0000 + a.port)
                * 0x1_0000_0000 + a.flowinfo) * 0x1_0000_0000 + a.scope_id,
        }
    }

    proof fn rank_is_injective(self, other: Self) {
    }

    fn precedes(self, other: Self) -> (b: bool) {
        match (self, other) {
            (SocketAddr::V4(a), SocketAddr::V4(b)) => if a.ip.bits != b.ip.bits {
                a.ip.bits < b.ip.bits
            } else {
                a.port < b.port
            },
            (SocketAddr::V4(_), SocketAddr::V6(_)) => true,
            (SocketAddr::V6(_), SocketAddr::V4(_)) => false,
            (SocketAddr::V6(a), SocketAddr::V6(b)) => if a.ip.bits != b.ip.bits {
                a.ip.bits < b.ip.bits
            } else if a.port != b.port {
                a.port < b.port
            } else if a.flowinfo != b.flowinfo {
                a.flowinfo < b.flowinfo
            } else {
                a.scope_id < b.scope_id
            },
        }
    }
}

impl View for Instant {
    type V = Instant;

    open spec fn view(&self) -> Instant {
        *self
    }
}

impl Stored for Instant {
    open spec fn stored_wf(&self) -> bool {
        true
    }

    fn duplicate(&self) -> (copy: Self) {
        *self
    }

    fn same(&self, other: &Self) -> (same: bool) {
        *self == *other
    }
}

/// Whether keys stand in strictly ascending order.
pub open spec fn ascending<K: OrdKey>(s: Seq<K>) -> bool {
    forall|i: int, j: int| 0 <= i < j < s.len() ==> (#[trigger] s[i]).rank() < (#[trigger] s[j]).rank()
}

/// Ascending keys are all different, so there are as many as in their set.
pub proof fn lemma_ascending_is_unique<K: OrdKey>(s: Seq<K>)
    requires
        ascending(s),
    ensures
        s.no_duplicates(),
        s.to_set().finite(),
        s.to_set().len() == s.len(),
{
    assert forall|i: int, j: int| 0 <= i < s.len() && 0 <= j < s.len() && i != j implies s[i]
        != s[j] by {
        if i < j {
            assert(s[i].rank() < s[j].rank());
        } else {
            assert(s[j].rank() < s[i].rank());
        }
    }
    s.unique_seq_to_set();
}

/// A set has only one ascending sequence of its members.
pub proof fn lemma_ascending_is_canonical<K: OrdKey>(a: Seq<K>, b: Seq<K>)
    requires
        ascending(a),
        ascending(b),
        a.to_set() == b.to_set(),
    ensures
        a == b,
    decreases a.len(),
{
    lemma_ascending_is_unique(a);
    lemma_ascending_is_unique(b);
    assert(a.len() == b.len());
    if a.len() == 0 {
        assert(a =~= b);
    } else {
        let x = a.last();
        let y = b.last();
        assert(a.to_set().contains(x));
        assert(b.to_set().contains(x));
        let i = choose|i: int| 0 <= i < b.len() && b[i] == x;
        assert(b.to_set().contains(y));
        assert(a.to_set().contains(y));
        let j = choose|j: int| 0 <= j < a.len() && a[j] == y;
        assert(x.rank() <= y.rank()) by {
            if i < b.len() - 1 {
                assert(b[i].rank() < b[b.len() - 1].rank());
            }
        }
        assert(y.rank() <= x.rank()) by {
            if j < a.len() - 1 {
                assert(a[j].rank() < a[a.len() - 1].rank());
            }
        }
        x.rank_is_injective(y);
        let af = a.drop_last();
        let bf = b.drop_last();
        assert(ascending(af)) by {
            assert forall|i: int, j: int| 0 <= i < j < af.len() implies (#[trigger] af[i]).rank()
                < (#[trigger] af[j]).rank() by {
                assert(a[i].rank() < a[j].rank());
            }
        }
        assert(ascending(bf)) by {
            assert forall|i: int, j: int| 0 <= i < j < bf.len() implies (#[trigger] bf[i]).rank()
                < (#[trigger] bf[j]).rank() by {
                assert(b[i].rank() < b[j].rank());
            }
        }
        assert(af.to_set() =~= bf.to_set()) by {
            assert forall|k: K| af.to_set().contains(k) implies bf.to_set().contains(k) by {
                let m = choose|m: int| 0 <= m < af.len() && af[m] == k;
                assert(a[m] == k);
                assert(a[m].rank() < a[a.len() - 1].rank());
                assert(a.to_set().contains(k));
                assert(b.to_set().contains(k));
                let n = choose|n: int| 0 <= n < b.len() && b[n] == k;
                assert(n < b.len() - 1);
                assert(bf[n] == k);
            }
            assert forall|k: K| bf.to_set().contains(k) implies af.to_set().contains(k) by {
                let m = choose|m: int| 0 <= m < bf.len() && bf[m] == k;
                assert(b[m] == k);
                assert(b[m].rank() < b[b.len() - 1].rank());
                assert(b.to_set().contains(k));
                assert(a.to_set().contains(k));
                let n = choose|n: int| 0 <= n < a.len() && a[n] == k;
                assert(n < a.len() - 1);
                assert(af[n] == k);
            }
        }
        lemma_ascending_is_canonical(af, bf);
        assert(a =~= af.push(x));
        assert(b =~= bf.push(y));
    }
}

/// The members of a finite set in ascending order.
pub open spec fn in_order<K: OrdKey>(set: Set<K>) -> Seq<K> {
    choose|s: Seq<K>| ascending(s) && s.to_set() == set
}

/// An ascending sequence is its own set in order.
pub proof fn lemma_in_order<K: OrdKey>(s: Seq<K>)
    requires
        ascending(s),
    ensures
        in_order(s.to_set()) == s,
{
    let t = in_order(s.to_set());
    assert(ascending(t) && t.to_set() == s.to_set());
    lemma_ascending_is_canonical(s, t);
}

/// A finite set can be listed in ascending order, and `in_order` does so.
pub proof fn lemma_in_order_lists<K: OrdKey>(set: Set<K>)
    requires
        set.finite(),
    ensures
        ascending(in_order(set)),
        in_order(set).to_set() == set,
    decreases set.len(),
{
    if set.len() == 0 {
        let none = Seq::<K>::empty();
        assert(none.to_set() =~= set);
        assert(ascending(none));
    } else {
        let x = set.choose();
        let rest = in_order(set.remove(x));
        lemma_in_order_lists(set.remove(x));
        let p = lemma_place(rest, x);
        let whole = rest.insert(p, x);
        assert(ascending(whole)) by {
            assert forall|i: int, j: int| 0 <= i < j < whole.len() implies (
            #[trigger] whole[i]).rank() < (#[trigger] whole[j]).rank() by {
                let a = if i < p { i } else { i - 1 };
                let b = if j < p { j } else { j - 1 };
                if i != p && j != p {
                    assert(whole[i] == rest[a] && whole[j] == rest[b]);
                } else if i == p {
                    assert(whole[j] == rest[b]);
                    if rest[b].rank() == x.rank() {
                        rest[b].rank_is_injective(x);
                        assert(rest.to_set().contains(rest[b]));
                    }
                } else {
                    assert(whole[i] == rest[a]);
                }
            }
        }
        assert(whole.to_set() =~= set) by {
            assert forall|k: K| whole.to_set().contains(k) <==> #[trigger] set.contains(k) by {
                if whole.to_set().contains(k) {
                    let m = choose|m: int| 0 <= m < whole.len() && whole[m] == k;
                    if m != p {
                        let b = if m < p { m } else { m - 1 };
                        assert(rest[b] == k);
                        assert(rest.to_set().contains(k));
                    }
                }
                if set.contains(k) {
                    if k == x {
                        assert(whole[p] == k);
                    } else {
                        assert(rest.to_set().contains(k));
                        let m = choose|m: int| 0 <= m < rest.len() && rest[m] == k;
                        let b = if m < p { m } else { m + 1 };
                        assert(whole[b] == k);
                    }
                }
            }
        }
    }
}

/// Where `key` would have to stand among ascending keys.
proof fn lemma_place<K: OrdKey>(keys: Seq<K>, key: K) -> (p: int)
    requires
        ascending(keys),
    ensures
        0 <= p <= keys.len(),
        forall|i: int| 0 <= i < p ==> (#[trigger] keys[i]).rank() < key.rank(),
        forall|i: int| p <= i < keys.len() ==> (#[trigger] keys[i]).rank() >= key.rank(),
    decreases keys.len(),
{
    if keys.len() == 0 {
        0
    } else if keys.last().rank() < key.rank() {
        assert forall|i: int| 0 <= i < keys.len() implies (#[trigger] keys[i]).rank()
            < key.rank() by {
            if i < keys.len() - 1 {
                assert(keys[i].rank() < keys[keys.len() - 1].rank());
            }
        }
        keys.len() as int
    } else {
        let front = keys.drop_last();
        assert forall|i: int, j: int| 0 <= i < j < front.len() implies (#[trigger] front[i]).rank()
            < (#[trigger] front[j]).rank() by {
            assert(keys[i].rank() < keys[j].rank());
        }
        let p = lemma_place(front, key);
        assert forall|i: int| 0 <= i < p implies (#[trigger] keys[i]).rank() < key.rank() by {
            assert(front[i].rank() < key.rank());
        }
        assert forall|i: int| p <= i < keys.len() implies (#[trigger] keys[i]).rank()
            >= key.rank() by {
            if i < front.len() {
                assert(front[i].rank() >= key.rank());
            }
        }
        p
    }
}

/// Where `key` stands among ascending keys, or would have to stand.
fn position<K: OrdKey>(keys: &Vec<K>, key: K) -> (at: usize)
    requires
        ascending(keys@),
    ensures
        at <= keys@.len(),
        forall|i: int| 0 <= i < at ==> (#[trigger] keys@[i]).rank() < key.rank(),
        forall|i: int| at <= i < keys@.len() ==> (#[trigger] keys@[i]).rank() >= key.rank(),
{
    let mut low: usize = 0;
    let mut high: usize = keys.len();
    while low < high
        invariant
            low <= high <= keys@.len(),
            ascending(keys@),
            forall|i: int| 0 <= i < low ==> (#[trigger] keys@[i]).rank() < key.rank(),
            forall|i: int| high <= i < keys@.len() ==> (#[trigger] keys@[i]).rank() >= key.rank(),
        decreases high - low,
    {
        let middle: usize = low + (high - low) / 2;
        if keys[middle].precedes(key) {
            proof {
                assert forall|i: int| 0 <= i < middle + 1 implies (#[trigger] keys@[i]).rank()
                    < key.rank() by {
                    if i < middle {
                        assert(keys@[i].rank() < keys@[middle as int].rank());
                    }
                }
            }
            low = middle + 1;
        } else {
            proof {
                assert forall|i: int| middle <= i < keys@.len() implies (#[trigger] keys@[i]).rank()
                    >= key.rank() by {
                    if i > middle {
                        assert(keys@[middle as int].rank() < keys@[i].rank());
                    }
                }
            }
            high = middle;
        }
    }
    low
}

/// Whether the key at `at`, a result of [`position`], is `key`.
fn is_at<K: OrdKey>(keys: &Vec<K>, at: usize, key: K) -> (found: bool)
    requires
        ascending(keys@),
        at <= keys@.len(),
        forall|i: int| 0 <= i < at ==> (#[trigger] keys@[i]).rank() < key.rank(),
        forall|i: int| at <= i < keys@.len() ==> (#[trigger] keys@[i]).rank() >= key.rank(),
    ensures
        found ==> at < keys@.len() && keys@[at as int] == key,
        found == keys@.contains(key),
{
    if at == keys.len() {
        return false;
    }
    let found: bool = !key.precedes(keys[at]);
    proof {
        if found {
            keys@[at as int].rank_is_injective(key);
            assert(keys@.contains(key));
        } else {
            assert forall|i: int| 0 <= i < keys@.len() implies keys@[i] != key by {
                if i > at {
                    assert(keys@[at as int].rank() < keys@[i].rank());
                }
            }
        }
    }
    found
}

proof fn lemma_insert_keeps_order<K: OrdKey>(s: Seq<K>, at: int, key: K)
    requires
        ascending(s),
        0 <= at <= s.len(),
        !s.contains(key),
        forall|i: int| 0 <= i < at ==> (#[trigger] s[i]).rank() < key.rank(),
        forall|i: int| at <= i < s.len() ==> (#[trigger] s[i]).rank() >= key.rank(),
    ensures
        ascending(s.insert(at, key)),
        s.insert(at, key).to_set() == s.to_set().insert(key),
{
    let t = s.insert(at, key);
    assert forall|i: int| at <= i < s.len() implies (#[trigger] s[i]).rank() > key.rank() by {
        if s[i].rank() == key.rank() {
            s[i].rank_is_injective(key);
        }
    }
    assert forall|i: int, j: int| 0 <= i < j < t.len() implies (#[trigger] t[i]).rank()
        < (#[trigger] t[j]).rank() by {
        let a = if i < at {
            i
        } else {
            i - 1
        };
        let b = if j < at {
            j
        } else {
            j - 1
        };
        if i == at {
            assert(t[j] == s[b]);
        } else if j == at {
            assert(t[i] == s[a]);
        } else {
            assert(t[i] == s[a] && t[j] == s[b]);
            assert(s[a].rank() < s[b].rank());
        }
    }
    assert(t.to_set() =~= s.to_set().insert(key)) by {
        assert forall|k: K| t.to_set().contains(k) <==> #[trigger] s.to_set().insert(key).contains(
            k,
        ) by {
            if s.contains(k) {
                let i = choose|i: int| 0 <= i < s.len() && s[i] == k;
                if i < at {
                    assert(t[i] == k);
                } else {
                    assert(t[i + 1] == k);
                }
            }
            if k == key {
                assert(t[at] == k);
            }
            if t.contains(k) {
                let i = choose|i: int| 0 <= i < t.len() && t[i] == k;
                if i < at {
                    assert(s[i] == k);
                } else if i > at {
                    assert(s[i - 1] == k);
                }
            }
        }
    }
}

proof fn lemma_remove_keeps_order<K: OrdKey>(s: Seq<K>, at: int)
    requires
        ascending(s),
        0 <= at < s.len(),
    ensures
        ascending(s.remove(at)),
        s.remove(at).to_set() == s.to_set().remove(s[at]),
{
    let t = s.remove(at);
    lemma_ascending_is_unique(s);
    assert forall|i: int, j: int| 0 <= i < j < t.len() implies (#[trigger] t[i]).rank() < (
    #[trigger] t[j]).rank() by {
        let a = if i < at {
            i
        } else {
            i + 1
        };
        let b = if j < at {
            j
        } else {
            j + 1
        };
        assert(t[i] == s[a] && t[j] == s[b]);
        assert(s[a].rank() < s[b].rank());
    }
    assert(t.to_set() =~= s.to_set().remove(s[at])) by {
        assert forall|k: K| t.to_set().contains(k) <==> #[trigger] s.to_set().remove(
            s[at],
        ).contains(k) by {
            if s.contains(k) && k != s[at] {
                let i = choose|i: int| 0 <= i < s.len() && s[i] == k;
                if i < at {
                    assert(t[i] == k);
                } else {
                    assert(t[i - 1] == k);
                }
            }
            if t.contains(k) {
                let i = choose|i: int| 0 <= i < t.len() && t[i] == k;
                if i < at {
                    assert(s[i] == k);
                } else {
                    assert(s[i + 1] == k);
                }
            }
        }
    }
}

/// A set that hands its members out in ascending order.
#[derive(Debug, PartialEq, Eq)]
pub struct OrdSet<K> {
    items: Vec<K>,
}

impl<K: OrdKey> View for OrdSet<K> {
    type V = Set<K>;

    closed spec fn view(&self) -> Set<K> {
        self.items@.to_set()
    }
}

impl<K: OrdKey> OrdSet<K> {
    /// Whether the members stand in ascending order.
    pub closed spec fn wf(&self) -> bool {
        ascending(self.items@)
    }

    /// The members in the order in which they are handed out.
    pub closed spec fn seq(&self) -> Seq<K> {
        self.items@
    }

    /// What a well-formed set knows of its members.
    pub proof fn lemma_facts(&self)
        requires
            self.wf(),
        ensures
            ascending(self.seq()),
            self@ == self.seq().to_set(),
            self@.finite(),
            self@.len() == self.seq().len(),
            self.seq().no_duplicates(),
            forall|i: int| 0 <= i < self.seq().len() ==> self@.contains(#[trigger] self.seq()[i]),
            self.seq() == in_order(self@),
    {
        lemma_ascending_is_unique(self.items@);
        lemma_in_order(self.items@);
    }

    pub fn new() -> (set: Self)
        ensures
            set.wf(),
            set@ == Set::<K>::empty(),
            set.seq().len() == 0,
    {
        let set = OrdSet { items: Vec::new() };
        proof {
            assert(set@ =~= Set::<K>::empty());
        }
        set
    }

    /// The set of all keys in a list.
    pub fn from_list(list: &Vec<K>) -> (set: Self)
        ensures
            set.wf(),
            set@ == list@.to_set(),
    {
        let mut set = OrdSet::new();
        set.insert_list(list);
        proof {
            assert(Set::<K>::empty().union(list@.to_set()) =~= list@.to_set());
        }
        set
    }

    pub fn len(&self) -> (n: usize)
        requires
            self.wf(),
        ensures
            n == self.seq().len(),
            n == self@.len(),
    {
        proof {
            self.lemma_facts();
        }
        self.items.len()
    }

    pub fn is_empty(&self) -> (b: bool)
        requires
            self.wf(),
        ensures
            b == (self@ == Set::<K>::empty()),
            b == (self.seq().len() == 0),
    {
        proof {
            self.lemma_facts();
            if self.items@.len() == 0 {
                assert(self@ =~= Set::<K>::empty());
            } else {
                assert(self@.contains(self.items@[0]));
            }
        }
        self.items.len() == 0
    }

    /// The member at `i` in ascending order.
    pub fn at(&self, i: usize) -> (key: K)
        requires
            i < self.seq().len(),
        ensures
            key == self.seq()[i as int],
            self@.contains(key),
    {
        self.items[i]
    }

    pub fn contains(&self, key: K) -> (b: bool)
        requires
            self.wf(),
        ensures
            b == self@.contains(key),
    {
        let at: usize = position(&self.items, key);
        is_at(&self.items, at, key)
    }

    /// Adds a key; tells whether it is new.
    pub fn insert(&mut self, key: K) -> (fresh: bool)
        requires
            old(self).wf(),
        ensures
            final(self).wf(),
            final(self)@ == old(self)@.insert(key),
            fresh == !old(self)@.contains(key),
    {
        let at: usize = position(&self.items, key);
        if is_at(&self.items, at, key) {
            proof {
                assert(self@ =~= old(self)@.insert(key));
            }
            false
        } else {
            proof {
                lemma_insert_keeps_order(self.items@, at as int, key);
            }
            self.items.insert(at, key);
            true
        }
    }

    /// Takes a key out; tells whether it was there.
    pub fn remove(&mut self, key: K) -> (found: bool)
        requires
            old(self).wf(),
        ensures
            final(self).wf(),
            final(self)@ == old(self)@.remove(key),
            found == old(self)@.contains(key),
    {
        let at: usize = position(&self.items, key);
        if is_at(&self.items, at, key) {
            proof {
                lemma_remove_keeps_order(self.items@, at as int);
            }
            self.items.remove(at);
            true
        } else {
            proof {
                assert(self@ =~= old(self)@.remove(key));
            }
            false
        }
    }

    /// Adds every key of a list.
    pub fn insert_list(&mut self, list: &Vec<K>)
        requires
            old(self).wf(),
        ensures
            final(self).wf(),
            final(self)@ == old(self)@.union(list@.to_set()),
    {
        let mut i: usize = 0;
        proof {
            assert(list@.take(0).to_set() =~= Set::<K>::empty());
            assert(old(self)@.union(Set::empty()) =~= old(self)@);
        }
        while i < list.len()
            invariant
                i <= list@.len(),
                self.wf(),
                self@ == old(self)@.union(list@.take(i as int).to_set()),
            decreases list@.len() - i,
        {
            self.insert(list[i]);
            proof {
                lemma_take_to_set(list@, i as int);
                assert(self@ =~= old(self)@.union(list@.take(i + 1).to_set()));
            }
            i += 1;
        }
        proof {
            assert(list@.take(list@.len() as int) =~= list@);
        }
    }

    /// Takes every key of a list out.
    pub fn remove_list(&mut self, list: &Vec<K>)
        requires
            old(self).wf(),
        ensures
            final(self).wf(),
            final(self)@ == old(self)@.difference(list@.to_set()),
    {
        let mut i: usize = 0;
        proof {
            assert(list@.take(0).to_set() =~= Set::<K>::empty());
            assert(old(self)@.difference(Set::empty()) =~= old(self)@);
        }
        while i < list.len()
            invariant
                i <= list@.len(),
                self.wf(),
                self@ == old(self)@.difference(list@.take(i as int).to_set()),
            decreases list@.len() - i,
        {
            self.remove(list[i]);
            proof {
                lemma_take_to_set(list@, i as int);
                assert(self@ =~= old(self)@.difference(list@.take(i + 1).to_set()));
            }
            i += 1;
        }
        proof {
            assert(list@.take(list@.len() as int) =~= list@);
        }
    }

    /// Adds every member of another set.
    pub fn insert_all(&mut self, other: &OrdSet<K>)
        requires
            old(self).wf(),
            other.wf(),
        ensures
            final(self).wf(),
            final(self)@ == old(self)@.union(other@),
    {
        self.insert_list(&other.items);
    }

    /// Takes every member of another set out.
    pub fn remove_all(&mut self, other: &OrdSet<K>)
        requires
            old(self).wf(),
            other.wf(),
        ensures
            final(self).wf(),
            final(self)@ == old(self)@.difference(other@),
    {
        self.remove_list(&other.items);
    }

    /// Keeps only the members that another set has too.
    pub fn retain_all(&mut self, other: &OrdSet<K>)
        requires
            old(self).wf(),
            other.wf(),
        ensures
            final(self).wf(),
            final(self)@ == old(self)@.intersect(other@),
    {
        let mut kept: OrdSet<K> = OrdSet::new();
        let mut i: usize = 0;
        while i < self.items.len()
            invariant
                i <= self.items@.len(),
                *self == *old(self),
                self.wf(),
                other.wf(),
                kept.wf(),
                forall|k: K|
                    #[trigger] kept@.contains(k) <==> self.items@.take(i as int).contains(k)
                        && other@.contains(k),
            decreases self.items@.len() - i,
        {
            let key = self.items[i];
            let ghost before = kept@;
            if other.contains(key) {
                kept.insert(key);
            }
            proof {
                lemma_take_to_set(self.items@, i as int);
                assert forall|k: K| #[trigger] kept@.contains(k) <==> self.items@.take(
                    i + 1,
                ).contains(k) && other@.contains(k) by {
                    assert(before.contains(k) <==> self.items@.take(i as int).contains(k)
                        && other@.contains(k));
                    assert(self.items@.take(i + 1).to_set().contains(k) <==> self.items@.take(
                        i as int,
                    ).to_set().insert(key).contains(k));
                }
            }
            i += 1;
        }
        proof {
            assert(self.items@.take(self.items@.len() as int) =~= self.items@);
            assert(kept@ =~= old(self)@.intersect(other@));
        }
        self.items = kept.items;
    }

    /// Whether two sets have the same members.
    pub fn same_members(&self, other: &OrdSet<K>) -> (same: bool)
        requires
            self.wf(),
            other.wf(),
        ensures
            same == (self@ == other@),
    {
        if self.items.len() != other.items.len() {
            proof {
                self.lemma_facts();
                other.lemma_facts();
            }
            return false;
        }
        let mut i: usize = 0;
        while i < self.items.len()
            invariant
                i <= self.items@.len(),
                self.items@.len() == other.items@.len(),
                self.wf(),
                other.wf(),
                forall|j: int| 0 <= j < i ==> self.items@[j] == other.items@[j],
            decreases self.items@.len() - i,
        {
            let a = self.items[i];
            let b = other.items[i];
            if a.precedes(b) || b.precedes(a) {
                proof {
                    if self@ == other@ {
                        lemma_ascending_is_canonical(self.items@, other.items@);
                    }
                }
                return false;
            }
            proof {
                a.rank_is_injective(b);
            }
            i += 1;
        }
        proof {
            assert(self.items@ =~= other.items@);
        }
        true
    }

    /// The members in ascending order.
    pub fn to_list(&self) -> (list: Vec<K>)
        ensures
            list@ == self.seq(),
    {
        let mut list: Vec<K> = Vec::with_capacity(self.items.len());
        let mut i: usize = 0;
        while i < self.items.len()
            invariant
                i <= self.items@.len(),
                list@ == self.items@.take(i as int),
            decreases self.items@.len() - i,
        {
            list.push(self.items[i]);
            i += 1;
            proof {
                assert(list@ =~= self.items@.take(i as int));
            }
        }
        proof {
            assert(self.items@.take(self.items@.len() as int) =~= self.items@);
        }
        list
    }
}

impl<K: OrdKey> Clone for OrdSet<K> {
    fn clone(&self) -> (copy: Self)
        ensures
            copy@ == self@,
            copy.seq() == self.seq(),
            copy.wf() == self.wf(),
    {
        OrdSet { items: self.to_list() }
    }
}

impl<K: OrdKey> Stored for OrdSet<K> {
    open spec fn stored_wf(&self) -> bool {
        self.wf()
    }

    fn duplicate(&self) -> (copy: Self) {
        assert(self.stored_wf() == self.wf());
        let copy = self.clone();
        assert(copy.stored_wf() == copy.wf());
        copy
    }

    fn same(&self, other: &Self) -> (same: bool) {
        assert(self.stored_wf() == self.wf());
        assert(other.stored_wf() == other.wf());
        self.same_members(other)
    }
}

proof fn lemma_take_to_set<K>(s: Seq<K>, i: int)
    requires
        0 <= i < s.len(),
    ensures
        s.take(i + 1).to_set() == s.take(i).to_set().insert(s[i]),
{
    let a = s.take(i + 1);
    let b = s.take(i);
    assert(a.to_set() =~= b.to_set().insert(s[i])) by {
        assert forall|k: K| a.to_set().contains(k) <==> #[trigger] b.to_set().insert(s[i]).contains(
            k,
        ) by {
            if b.contains(k) {
                let j = choose|j: int| 0 <= j < b.len() && b[j] == k;
                assert(a[j] == k);
            }
            if k == s[i] {
                assert(a[i] == k);
            }
            if a.contains(k) {
                let j = choose|j: int| 0 <= j < a.len() && a[j] == k;
                if j < i {
                    assert(b[j] == k);
                }
            }
        }
    }
}

/// A map that hands its entries out in ascending order of their keys.
#[derive(Debug, PartialEq, Eq)]
pub struct OrdMap<K, T> {
    keys: Vec<K>,
    values: Vec<T>,
}

impl<K: OrdKey, T: Stored> View for OrdMap<K, T> {
    type V = Map<K, T::V>;

    closed spec fn view(&self) -> Map<K, T::V> {
        Map::new(
            |k: K| self.keys@.contains(k),
            |k: K| self.values@[self.keys@.index_of(k)]@,
        )
    }
}

impl<K: OrdKey, T: Stored> OrdMap<K, T> {
    /// Whether the keys stand in ascending order, each with one value.
    pub closed spec fn wf(&self) -> bool {
        &&& ascending(self.keys@)
        &&& self.keys@.len() == self.values@.len()
        &&& forall|i: int| 0 <= i < self.values@.len() ==> (#[trigger] self.values@[i]).stored_wf()
    }

    /// The keys in the order in which the entries are handed out.
    pub closed spec fn keys_seq(&self) -> Seq<K> {
        self.keys@
    }

    /// The values in the order in which the entries are handed out.
    pub closed spec fn values_seq(&self) -> Seq<T> {
        self.values@
    }

    /// What a well-formed map knows of its entries.
    pub proof fn lemma_facts(&self)
        requires
            self.wf(),
        ensures
            ascending(self.keys_seq()),
            self.keys_seq().len() == self.values_seq().len(),
            self@.dom() == self.keys_seq().to_set(),
            self@.dom().finite(),
            self@.dom().len() == self.keys_seq().len(),
            self.keys_seq().no_duplicates(),
            self.keys_seq() == in_order(self@.dom()),
            forall|i: int|
                0 <= i < self.keys_seq().len() ==> self@.contains_key(#[trigger] self.keys_seq()[i])
                    && self@[self.keys_seq()[i]] == self.values_seq()[i]@,
            forall|i: int|
                0 <= i < self.values_seq().len() ==> (#[trigger] self.values_seq()[i]).stored_wf(),
            forall|k: K|
                #[trigger] self@.contains_key(k) ==> exists|i: int|
                    0 <= i < self.keys_seq().len() && self.keys_seq()[i] == k,
    {
        lemma_ascending_is_unique(self.keys@);
        assert(self@.dom() =~= self.keys@.to_set());
        lemma_in_order(self.keys@);
        assert forall|i: int| 0 <= i < self.keys@.len() implies self@.contains_key(
            #[trigger] self.keys@[i],
        ) && self@[self.keys@[i]] == self.values@[i]@ by {
            let k = self.keys@[i];
            assert(self.keys@.contains(k));
            let j = self.keys@.index_of(k);
            assert(0 <= j < self.keys@.len() && self.keys@[j] == k);
            assert(i == j);
        }
    }

    pub fn new() -> (map: Self)
        ensures
            map.wf(),
            map@ == Map::<K, T::V>::empty(),
            map.keys_seq().len() == 0,
    {
        let map = OrdMap { keys: Vec::new(), values: Vec::new() };
        proof {
            assert(map@ =~= Map::<K, T::V>::empty());
        }
        map
    }

    pub fn len(&self) -> (n: usize)
        requires
            self.wf(),
        ensures
            n == self.keys_seq().len(),
            n == self@.dom().len(),
    {
        proof {
            self.lemma_facts();
        }
        self.keys.len()
    }

    pub fn is_empty(&self) -> (b: bool)
        requires
            self.wf(),
        ensures
            b == (self@ == Map::<K, T::V>::empty()),
            b == (self.keys_seq().len() == 0),
    {
        proof {
            self.lemma_facts();
            if self.keys@.len() == 0 {
                assert(self@ =~= Map::<K, T::V>::empty());
            } else {
                assert(self@.contains_key(self.keys@[0]));
            }
        }
        self.keys.len() == 0
    }

    /// The key at `i` in ascending order.
    pub fn key_at(&self, i: usize) -> (key: K)
        requires
            self.wf(),
            i < self.keys_seq().len(),
        ensures
            key == self.keys_seq()[i as int],
            self@.contains_key(key),
    {
        proof {
            self.lemma_facts();
        }
        self.keys[i]
    }

    /// The value at `i` in ascending order of the keys.
    pub fn value_at(&self, i: usize) -> (value: &T)
        requires
            self.wf(),
            i < self.keys_seq().len(),
        ensures
            *value == self.values_seq()[i as int],
            value@ == self@[self.keys_seq()[i as int]],
            value.stored_wf(),
    {
        proof {
            self.lemma_facts();
        }
        &self.values[i]
    }

    pub fn contains_key(&self, key: K) -> (b: bool)
        requires
            self.wf(),
        ensures
            b == self@.contains_key(key),
    {
        proof {
            self.lemma_facts();
        }
        let at: usize = position(&self.keys, key);
        is_at(&self.keys, at, key)
    }

    /// The value of a key.
    pub fn get(&self, key: K) -> (value: Option<&T>)
        requires
            self.wf(),
        ensures
            match value {
                Some(value) => {
                    &&& self@.contains_key(key)
                    &&& value@ == self@[key]
                    &&& value.stored_wf()
                },
                None => !self@.contains_key(key),
            },
    {
        proof {
            self.lemma_facts();
        }
        let at: usize = position(&self.keys, key);
        if is_at(&self.keys, at, key) {
            Some(&self.values[at])
        } else {
            None
        }
    }

    /// Gives a key a value, in place of an earlier one.
    pub fn insert(&mut self, key: K, value: T)
        requires
            old(self).wf(),
            value.stored_wf(),
        ensures
            final(self).wf(),
            final(self)@ == old(self)@.insert(key, value@),
    {
        proof {
            self.lemma_facts();
        }
        let at: usize = position(&self.keys, key);
        if is_at(&self.keys, at, key) {
            let ghost before = self.values@;
            self.values.set(at, value);
            proof {
                assert forall|i: int| 0 <= i < self.values@.len() implies (
                #[trigger] self.values@[i]).stored_wf() by {
                    if i != at {
                        assert(self.values@[i] == before[i]);
                    }
                }
                self.lemma_facts();
                lemma_same_keys_one_value(*old(self), *self, at as int);
            }
        } else {
            let ghost before = self.values@;
            proof {
                lemma_insert_keeps_order(self.keys@, at as int, key);
            }
            self.keys.insert(at, key);
            self.values.insert(at, value);
            proof {
                assert forall|i: int| 0 <= i < self.values@.len() implies (
                #[trigger] self.values@[i]).stored_wf() by {
                    if i < at {
                        assert(self.values@[i] == before[i]);
                    } else if i > at {
                        assert(self.values@[i] == before[i - 1]);
                    }
                }
                self.lemma_facts();
                lemma_new_key(*old(self), *self, at as int, key);
            }
        }
    }

    /// The value of a key, to be changed in place.
    pub fn get_mut(&mut self, key: K) -> (value: Option<&mut T>)
        requires
            old(self).wf(),
        ensures
            match value {
                Some(value) => {
                    &&& old(self)@.contains_key(key)
                    &&& value@ == old(self)@[key]
                    &&& value.stored_wf()
                    &&& final(value).stored_wf() ==> final(self).wf() && final(self)@ == old(
                        self,
                    )@.insert(key, final(value)@)
                },
                None => !old(self)@.contains_key(key) && *final(self) == *old(self),
            },
    {
        proof {
            self.lemma_facts();
        }
        let at: usize = position(&self.keys, key);
        if is_at(&self.keys, at, key) {
            Some(&mut self.values[at])
        } else {
            None
        }
    }

    /// Takes a key and its value out.
    pub fn remove(&mut self, key: K) -> (value: Option<T>)
        requires
            old(self).wf(),
        ensures
            final(self).wf(),
            final(self)@ == old(self)@.remove(key),
            match value {
                Some(value) => {
                    &&& old(self)@.contains_key(key)
                    &&& value@ == old(self)@[key]
                    &&& value.stored_wf()
                },
                None => !old(self)@.contains_key(key),
            },
    {
        proof {
            self.lemma_facts();
        }
        let at: usize = position(&self.keys, key);
        if is_at(&self.keys, at, key) {
            let ghost before = self.values@;
            proof {
                lemma_remove_keeps_order(self.keys@, at as int);
            }
            self.keys.remove(at);
            let value = self.values.remove(at);
            proof {
                assert(before[at as int] == value);
                assert forall|i: int| 0 <= i < self.values@.len() implies (
                #[trigger] self.values@[i]).stored_wf() by {
                    if i < at {
                        assert(self.values@[i] == before[i]);
                    } else {
                        assert(self.values@[i] == before[i + 1]);
                    }
                }
                self.lemma_facts();
                lemma_lost_key(*old(self), *self, at as int, key);
            }
            Some(value)
        } else {
            proof {
                assert(self@ =~= old(self)@.remove(key));
            }
            None
        }
    }
}

impl<K: OrdKey, T: Stored> Stored for OrdMap<K, T> {
    open spec fn stored_wf(&self) -> bool {
        self.wf()
    }

    fn duplicate(&self) -> (copy: Self) {
        assert(self.stored_wf() == self.wf());
        let mut keys: Vec<K> = Vec::with_capacity(self.keys.len());
        let mut values: Vec<T> = Vec::with_capacity(self.keys.len());
        let mut i: usize = 0;
        while i < self.keys.len()
            invariant
                self.wf(),
                i <= self.keys@.len(),
                keys@ == self.keys@.take(i as int),
                values@.len() == i,
                forall|j: int|
                    0 <= j < i ==> (#[trigger] values@[j])@ == self.values@[j]@
                        && values@[j].stored_wf(),
            decreases self.keys@.len() - i,
        {
            keys.push(self.keys[i]);
            values.push(self.values[i].duplicate());
            i += 1;
            proof {
                assert(keys@ =~= self.keys@.take(i as int));
            }
        }
        let copy = OrdMap { keys, values };
        proof {
            assert(copy.keys@ =~= self.keys@);
            self.lemma_facts();
            copy.lemma_facts();
            assert(copy@ =~= self@) by {
                assert forall|k: K| copy@.contains_key(k) implies #[trigger] copy@[k]
                    == self@[k] by {
                    let j = choose|j: int| 0 <= j < copy.keys@.len() && copy.keys@[j] == k;
                    assert(copy@[copy.keys_seq()[j]] == copy.values_seq()[j]@);
                    assert(self@[self.keys_seq()[j]] == self.values_seq()[j]@);
                }
            }
            assert(copy.stored_wf() == copy.wf());
        }
        copy
    }

    fn same(&self, other: &Self) -> (same: bool) {
        assert(self.stored_wf() == self.wf());
        assert(other.stored_wf() == other.wf());
        proof {
            self.lemma_facts();
            other.lemma_facts();
        }
        if self.keys.len() != other.keys.len() {
            return false;
        }
        let mut i: usize = 0;
        while i < self.keys.len()
            invariant
                self.wf(),
                other.wf(),
                i <= self.keys@.len(),
                self.keys@.len() == other.keys@.len(),
                forall|j: int|
                    0 <= j < i ==> self.keys@[j] == other.keys@[j] && (#[trigger] self.values@[j])@
                        == other.values@[j]@,
            decreases self.keys@.len() - i,
        {
            let a = self.keys[i];
            let b = other.keys[i];
            proof {
                self.lemma_facts();
                other.lemma_facts();
                assert(self@[self.keys_seq()[i as int]] == self.values_seq()[i as int]@);
                assert(other@[other.keys_seq()[i as int]] == other.values_seq()[i as int]@);
                if self@ == other@ {
                    lemma_ascending_is_canonical(self.keys@, other.keys@);
                }
            }
            if a.precedes(b) || b.precedes(a) {
                return false;
            }
            proof {
                a.rank_is_injective(b);
            }
            if !self.values[i].same(&other.values[i]) {
                return false;
            }
            i += 1;
        }
        proof {
            assert(self.keys@ =~= other.keys@);
            self.lemma_facts();
            other.lemma_facts();
            assert(self@ =~= other@) by {
                assert forall|k: K| self@.contains_key(k) implies #[trigger] self@[k]
                    == other@[k] by {
                    let j = choose|j: int| 0 <= j < self.keys@.len() && self.keys@[j] == k;
                    assert(self@[self.keys_seq()[j]] == self.values_seq()[j]@);
                    assert(other@[other.keys_seq()[j]] == other.values_seq()[j]@);
                    assert(self.values@[j]@ == other.values@[j]@);
                }
            }
        }
        true
    }
}

proof fn lemma_same_keys_one_value<K: OrdKey, T: Stored>(
    before: OrdMap<K, T>,
    after: OrdMap<K, T>,
    at: int,
)
    requires
        before.wf(),
        after.wf(),
        0 <= at < before.keys@.len(),
        after.keys@ == before.keys@,
        after.values@ == before.values@.update(at, after.values@[at]),
    ensures
        after@ == before@.insert(before.keys@[at], after.values@[at]@),
{
    before.lemma_facts();
    after.lemma_facts();
    let key = before.keys@[at];
    let target = before@.insert(key, after.values@[at]@);
    assert(after@.dom() =~= target.dom());
    assert forall|k: K| after@.contains_key(k) implies #[trigger] after@[k] == target[k] by {
        let i = choose|i: int| 0 <= i < after.keys@.len() && after.keys@[i] == k;
        assert(after@[after.keys_seq()[i]] == after.values_seq()[i]@);
        assert(before@[before.keys_seq()[i]] == before.values_seq()[i]@);
        if i != at {
            assert(k != key);
        }
    }
    assert(after@ =~= target);
}

proof fn lemma_new_key<K: OrdKey, T: Stored>(
    before: OrdMap<K, T>,
    after: OrdMap<K, T>,
    at: int,
    key: K,
)
    requires
        before.wf(),
        after.wf(),
        0 <= at <= before.keys@.len(),
        !before.keys@.contains(key),
        after.keys@ == before.keys@.insert(at, key),
        after.keys@.to_set() == before.keys@.to_set().insert(key),
        after.values@ == before.values@.insert(at, after.values@[at]),
    ensures
        after@ == before@.insert(key, after.values@[at]@),
{
    before.lemma_facts();
    after.lemma_facts();
    let target = before@.insert(key, after.values@[at]@);
    assert(after@.dom() =~= target.dom());
    assert forall|k: K| after@.contains_key(k) implies #[trigger] after@[k] == target[k] by {
        let i = choose|i: int| 0 <= i < after.keys@.len() && after.keys@[i] == k;
        assert(after@[after.keys_seq()[i]] == after.values_seq()[i]@);
        if i < at {
            assert(before@[before.keys_seq()[i]] == before.values_seq()[i]@);
            assert(before.keys@.contains(k));
        } else if i > at {
            assert(before@[before.keys_seq()[i - 1]] == before.values_seq()[i - 1]@);
            assert(before.keys@[i - 1] == k);
        }
    }
    assert(after@ =~= target);
}

proof fn lemma_lost_key<K: OrdKey, T: Stored>(
    before: OrdMap<K, T>,
    after: OrdMap<K, T>,
    at: int,
    key: K,
)
    requires
        before.wf(),
        after.wf(),
        0 <= at < before.keys@.len(),
        before.keys@[at] == key,
        after.keys@ == before.keys@.remove(at),
        after.keys@.to_set() == before.keys@.to_set().remove(key),
        after.values@ == before.values@.remove(at),
    ensures
        after@ == before@.remove(key),
{
    before.lemma_facts();
    after.lemma_facts();
    let target = before@.remove(key);
    assert(after@.dom() =~= target.dom());
    assert forall|k: K| after@.contains_key(k) implies #[trigger] after@[k] == target[k] by {
        let i = choose|i: int| 0 <= i < after.keys@.len() && after.keys@[i] == k;
        assert(after@[after.keys_seq()[i]] == after.values_seq()[i]@);
        if i < at {
            assert(before@[before.keys_seq()[i]] == before.values_seq()[i]@);
        } else {
            assert(before@[before.keys_seq()[i + 1]] == before.values_seq()[i + 1]@);
        }
    }
    assert(after@ =~= target);
}

/// Addresses are ordered by family, IPv4 first, and then by value; socket
/// addresses by address and then by port.
pub proof fn law_addresses_are_ordered_by_value(left: SocketAddr, right: SocketAddr)
    ensures
        match (left, right) {
            (SocketAddr::V4(a), SocketAddr::V4(b)) => {
                &&& IpAddr::V4(a.ip).rank() < IpAddr::V4(b.ip).rank() <==> a.ip.bits < b.ip.bits
                &&& left.rank() < right.rank() <==> a.ip.bits < b.ip.bits || (a.ip.bits
                    == b.ip.bits && a.port < b.port)
            },
            (SocketAddr::V6(a), SocketAddr::V6(b)) => {
                &&& IpAddr::V6(a.ip).rank() < IpAddr::V6(b.ip).rank() <==> a.ip.bits < b.ip.bits
                &&& a.ip.bits < b.ip.bits ==> left.rank() < right.rank()
                &&& a.ip.bits == b.ip.bits && a.port < b.port ==> left.rank() < right.rank()
            },
            (SocketAddr::V4(a), SocketAddr::V6(b)) => IpAddr::V4(a.ip).rank() < IpAddr::V6(
                b.ip,
            ).rank() && left.rank() < right.rank(),
            (SocketAddr::V6(a), SocketAddr::V4(b)) => IpAddr::V4(b.ip).rank() < IpAddr::V6(
                a.ip,
            ).rank() && right.rank() < left.rank(),
        },
{
}

} // verus!
