//! Who was heard of when.

use crate::net::SocketAddr;
use crate::ordered::{ascending, in_order, lemma_in_order, OrdMap};
use crate::relay::{Relay, RelayModel};
use crate::time::{Duration, Instant};
use vstd::prelude::*;

verus! {

/// What one more element adds to a prefix.
pub proof fn lemma_take_grows<T>(s: Seq<T>, i: int, x: T)
    requires
        0 <= i < s.len(),
    ensures
        s.take(i + 1).contains(x) <==> s.take(i).contains(x) || x == s[i],
{
    let shorter = s.take(i);
    let longer = s.take(i + 1);
    if shorter.contains(x) {
        let m = choose|m: int| 0 <= m < shorter.len() && shorter[m] == x;
        assert(longer[m] == x);
    }
    if longer.contains(x) {
        let m = choose|m: int| 0 <= m < longer.len() && longer[m] == x;
        if m < i {
            assert(shorter[m] == x);
        }
    }
    if x == s[i] {
        assert(longer[i] == x);
    }
}

/// Whether an entry of `last_seen` lies at least `timeout` back.
pub open spec fn entry_stale(
    last_seen: Map<SocketAddr, Instant>,
    endpoint: SocketAddr,
    timeout: Duration,
    now: Instant,
) -> bool {
    &&& last_seen.contains_key(endpoint)
    &&& now.nanos >= last_seen[endpoint].nanos
    &&& now.nanos - last_seen[endpoint].nanos >= timeout.nanos
}

/// The endpoints last seen at least `timeout` ago, in ascending order.
pub fn stale_entries(last_seen: &OrdMap<SocketAddr, Instant>, timeout: Duration, now: Instant) -> (
    stale: Vec<SocketAddr>)
    requires
        last_seen.wf(),
    ensures
        stale@ == in_order(
            Set::new(
                |endpoint: SocketAddr| entry_stale(last_seen@, endpoint, timeout, now),
            ),
        ),
        ascending(stale@),
        stale@.to_set() == Set::new(
            |endpoint: SocketAddr| entry_stale(last_seen@, endpoint, timeout, now),
        ),
{
    let ghost keys = last_seen.keys_seq();
    let ghost target = Set::new(
        |endpoint: SocketAddr| entry_stale(last_seen@, endpoint, timeout, now),
    );
    let mut stale: Vec<SocketAddr> = Vec::new();
    let mut i: usize = 0;
    proof {
        last_seen.lemma_facts();
    }
    while i < last_seen.len()
        invariant
            last_seen.wf(),
            keys == last_seen.keys_seq(),
            ascending(keys),
            i <= keys.len(),
            ascending(stale@),
            forall|j: int|
                0 <= j < stale@.len() && i < keys.len() ==> crate::ordered::OrdKey::rank(
                    #[trigger] stale@[j],
                ) < crate::ordered::OrdKey::rank(keys[i as int]),
            forall|e: SocketAddr| #[trigger]
                stale@.contains(e) <==> (keys.take(i as int).contains(e) && entry_stale(
                    last_seen@,
                    e,
                    timeout,
                    now,
                )),
        decreases keys.len() - i,
    {
        let endpoint = last_seen.key_at(i);
        let seen: Instant = *last_seen.value_at(i);
        let ghost before = stale@;
        let lapsed: bool = match now.checked_duration_since(seen) {
            Some(elapsed) => elapsed.nanos >= timeout.nanos,
            None => false,
        };
        if lapsed {
            stale.push(endpoint);
        }
        proof {
            last_seen.lemma_facts();
            assert(lapsed == entry_stale(last_seen@, endpoint, timeout, now));
            assert forall|a: int, b: int| 0 <= a < b < stale@.len() implies crate::ordered::OrdKey::rank(
                #[trigger] stale@[a],
            ) < crate::ordered::OrdKey::rank(#[trigger] stale@[b]) by {
                assert(before[a] == stale@[a]);
                if b < before.len() {
                    assert(before[b] == stale@[b]);
                }
            }
            assert forall|j: int| 0 <= j < stale@.len() && i + 1 < keys.len() implies crate::ordered::OrdKey::rank(
                #[trigger] stale@[j],
            ) < crate::ordered::OrdKey::rank(keys[i + 1]) by {
                assert(crate::ordered::OrdKey::rank(keys[i as int])
                    < crate::ordered::OrdKey::rank(keys[i + 1]));
                if j < before.len() {
                    assert(before[j] == stale@[j]);
                }
            }
            assert forall|e: SocketAddr| #[trigger] stale@.contains(e) <==> (keys.take(
                i + 1,
            ).contains(e) && entry_stale(last_seen@, e, timeout, now)) by {
                lemma_take_grows(keys, i as int, e);
                assert(before.contains(e) <==> (keys.take(i as int).contains(e) && entry_stale(
                    last_seen@,
                    e,
                    timeout,
                    now,
                )));
                if lapsed {
                    assert(stale@ =~= before.push(endpoint));
                    if before.contains(e) {
                        let m = choose|m: int| 0 <= m < before.len() && before[m] == e;
                        assert(stale@[m] == e);
                    }
                    if e == endpoint {
                        assert(stale@[before.len() as int] == e);
                    }
                    if stale@.contains(e) {
                        let m = choose|m: int| 0 <= m < stale@.len() && stale@[m] == e;
                        if m < before.len() {
                            assert(before[m] == e);
                        }
                    }
                }
            }
        }
        i += 1;
    }
    proof {
        last_seen.lemma_facts();
        assert(keys.take(keys.len() as int) =~= keys);
        assert(stale@.to_set() =~= target) by {
            assert forall|e: SocketAddr| stale@.to_set().contains(e) <==> #[trigger] target.contains(
                e,
            ) by {
                assert(keys.contains(e) <==> keys.to_set().contains(e));
                assert(stale@.contains(e) <==> (keys.contains(e) && entry_stale(
                    last_seen@,
                    e,
                    timeout,
                    now,
                )));
            }
        }
        lemma_in_order(stale@);
    }
    stale
}

/// When each gateway was last heard of.
#[derive(Debug, PartialEq, Eq)]
pub struct GatewayActivity {
    pub last_seen: OrdMap<SocketAddr, Instant>,
}

impl View for GatewayActivity {
    type V = Map<SocketAddr, Instant>;

    open spec fn view(&self) -> Map<SocketAddr, Instant> {
        self.last_seen@
    }
}

/// The endpoints last heard of at least `timeout` ago.
pub open spec fn stale_set(
    last_seen: Map<SocketAddr, Instant>,
    timeout: Duration,
    now: Instant,
) -> Set<SocketAddr> {
    Set::new(|endpoint: SocketAddr| entry_stale(last_seen, endpoint, timeout, now))
}

impl GatewayActivity {
    pub open spec fn wf(&self) -> bool {
        self.last_seen.wf()
    }

    pub fn new() -> (activity: Self)
        ensures
            activity.wf(),
            activity@ == Map::<SocketAddr, Instant>::empty(),
    {
        GatewayActivity { last_seen: OrdMap::new() }
    }

    pub fn mark_seen_at(&mut self, endpoint: SocketAddr, now: Instant)
        requires
            old(self).wf(),
        ensures
            final(self).wf(),
            final(self)@ == old(self)@.insert(endpoint, now),
    {
        self.last_seen.insert(endpoint, now);
    }

    pub fn remove(&mut self, endpoint: SocketAddr)
        requires
            old(self).wf(),
        ensures
            final(self).wf(),
            final(self)@ == old(self)@.remove(endpoint),
    {
        self.last_seen.remove(endpoint);
    }

    /// How many gateways are known.
    pub fn len(&self) -> (n: usize)
        requires
            self.wf(),
        ensures
            n == self@.dom().len(),
    {
        proof {
            self.last_seen.lemma_facts();
        }
        self.last_seen.len()
    }

    /// The gateways last heard of at least `timeout` ago, in ascending order.
    pub fn stale_endpoints_at(&self, timeout: Duration, now: Instant) -> (stale: Vec<SocketAddr>)
        requires
            self.wf(),
        ensures
            stale@ == in_order(stale_set(self@, timeout, now)),
            stale@.to_set() == stale_set(self@, timeout, now),
    {
        let stale = stale_entries(&self.last_seen, timeout, now);
        proof {
            assert(stale_set(self@, timeout, now) =~= stale@.to_set());
        }
        stale
    }
}

/// A relay without some gateways.
pub open spec fn relay_without(relay: RelayModel, gone: Set<SocketAddr>) -> RelayModel {
    RelayModel {
        table: relay.table.remove_keys(gone),
        ecn_gateways: relay.ecn_gateways.difference(gone),
        ..relay
    }
}

/// Those of some endpoints that have memberships.
pub open spec fn with_memberships(relay: RelayModel, endpoints: Seq<SocketAddr>) -> Seq<SocketAddr>
    decreases endpoints.len(),
{
    if endpoints.len() == 0 {
        Seq::empty()
    } else {
        let front = with_memberships(relay, endpoints.drop_last());
        if relay.table.contains_key(endpoints.last()) {
            front.push(endpoints.last())
        } else {
            front
        }
    }
}

/// Forgets gateways that were last heard of at least `timeout` ago; gives those
/// that had memberships.
pub fn prune_stale_gateways(
    relay: &mut Relay,
    activity: &mut GatewayActivity,
    timeout: Duration,
    now: Instant,
) -> (expired: Vec<SocketAddr>)
    requires
        old(relay).wf(),
        old(activity).wf(),
    ensures
        final(relay).wf(),
        final(activity).wf(),
        final(relay)@ == relay_without(old(relay)@, stale_set(old(activity)@, timeout, now)),
        final(activity)@ == old(activity)@.remove_keys(stale_set(old(activity)@, timeout, now)),
        expired@ == with_memberships(
            old(relay)@,
            in_order(stale_set(old(activity)@, timeout, now)),
        ),
{
    let stale = activity.stale_endpoints_at(timeout, now);
    proof {
        stale_is_unique(activity, timeout, now, stale@);
    }
    let mut expired: Vec<SocketAddr> = Vec::new();
    let mut i: usize = 0;
    proof {
        assert(stale@.take(0) =~= Seq::empty());
        assert(stale@.take(0).to_set() =~= Set::empty());
        assert(relay_without(old(relay)@, Set::empty()) =~= old(relay)@) by {
            assert(old(relay)@.table.remove_keys(Set::empty()) =~= old(relay)@.table);
            assert(old(relay)@.ecn_gateways.difference(Set::empty()) =~= old(
                relay,
            )@.ecn_gateways);
        }
        assert(old(activity)@.remove_keys(Set::empty()) =~= old(activity)@);
    }
    while i < stale.len()
        invariant
            i <= stale@.len(),
            stale@.no_duplicates(),
            relay.wf(),
            activity.wf(),
            relay@ == relay_without(old(relay)@, stale@.take(i as int).to_set()),
            activity@ == old(activity)@.remove_keys(stale@.take(i as int).to_set()),
            expired@ == with_memberships(old(relay)@, stale@.take(i as int)),
        decreases stale@.len() - i,
    {
        let endpoint = stale[i];
        proof {
            assert(!stale@.take(i as int).contains(endpoint)) by {
                if stale@.take(i as int).contains(endpoint) {
                    let m = choose|m: int|
                        0 <= m < stale@.take(i as int).len() && stale@.take(i as int)[m]
                            == endpoint;
                    assert(stale@[m] == stale@[i as int]);
                }
            }
            assert(stale@.take(i + 1).drop_last() =~= stale@.take(i as int));
        }
        activity.remove(endpoint);
        if relay.remove_gateway(endpoint) {
            expired.push(endpoint);
        }
        proof {
            let shorter = stale@.take(i as int).to_set();
            let longer = stale@.take(i + 1).to_set();
            assert forall|e: SocketAddr| #[trigger] longer.contains(e) <==> shorter.contains(e)
                || e == endpoint by {
                lemma_take_grows(stale@, i as int, e);
            }
            assert(old(relay)@.table.remove_keys(longer) =~= old(relay)@.table.remove_keys(
                shorter,
            ).remove(endpoint));
            assert(old(relay)@.ecn_gateways.difference(longer) =~= old(
                relay,
            )@.ecn_gateways.difference(shorter).remove(endpoint));
            assert(relay@ =~= relay_without(old(relay)@, longer));
            assert(old(activity)@.remove_keys(longer) =~= old(activity)@.remove_keys(
                shorter,
            ).remove(endpoint));
        }
        i += 1;
    }
    proof {
        assert(stale@.take(i as int) =~= stale@);
    }
    expired
}

proof fn stale_is_unique(
    activity: &GatewayActivity,
    timeout: Duration,
    now: Instant,
    stale: Seq<SocketAddr>,
)
    requires
        activity.wf(),
        stale == in_order(stale_set(activity@, timeout, now)),
        stale.to_set() == stale_set(activity@, timeout, now),
    ensures
        stale.no_duplicates(),
{
    activity.last_seen.lemma_facts();
    let set = stale_set(activity@, timeout, now);
    assert(set.subset_of(activity@.dom()));
    vstd::set_lib::lemma_len_subset(set, activity@.dom());
    crate::ordered::lemma_in_order_lists(set);
    crate::ordered::lemma_ascending_is_unique(stale);
}

/// A gateway is stale once the timeout has passed since it was last heard of.
pub proof fn law_silence_is_measured_from_the_last_word(
    last_seen: Map<SocketAddr, Instant>,
    endpoint: SocketAddr,
    timeout: Duration,
    now: Instant,
)
    ensures
        stale_set(last_seen, timeout, now).contains(endpoint) <==> last_seen.contains_key(endpoint)
            && last_seen[endpoint].nanos + timeout.nanos <= now.nanos,
{
}

/// A relay without some gateways serves the others as before.
pub proof fn law_others_are_served_on(
    relay: RelayModel,
    gone: Set<SocketAddr>,
    endpoint: SocketAddr,
)
    ensures
        ({
            let after = relay_without(relay, gone);
            &&& gone.contains(endpoint) ==> !after.table.contains_key(endpoint)
                && !after.ecn_gateways.contains(endpoint)
            &&& !gone.contains(endpoint) ==> after.table.contains_key(endpoint)
                == relay.table.contains_key(endpoint) && (relay.table.contains_key(endpoint)
                ==> after.table[endpoint] == relay.table[endpoint])
                && after.ecn_gateways.contains(endpoint) == relay.ecn_gateways.contains(endpoint)
            &&& after.config == relay.config && after.previous == relay.previous
                && after.rotated_at == relay.rotated_at
        }),
{
}

} // verus!
