//! Which sources of control datagrams are kept track of.

use crate::activity::lemma_take_grows;
use crate::net::IpAddr;
use crate::ordered::OrdMap;
use crate::time::{Duration, Instant};
use vstd::prelude::*;

verus! {

/// The largest number of sources that are kept track of.
pub const MAX_RATE_LIMIT_SOURCES: usize = 65_536;

/// How many seconds a silent source is kept track of.
pub const RATE_LIMIT_SOURCE_SECS: u64 = 60;

/// How many sources a relay keeps track of: as many as it serves endpoints,
/// within bounds.
pub fn rate_source_capacity(max_endpoints: usize) -> (capacity: usize)
    ensures
        capacity == if max_endpoints < 1024 {
            1024
        } else if max_endpoints > 65536 {
            65536
        } else {
            max_endpoints as int
        },
{
    if max_endpoints < 1024 {
        1024
    } else if max_endpoints > MAX_RATE_LIMIT_SOURCES {
        MAX_RATE_LIMIT_SOURCES
    } else {
        max_endpoints
    }
}

/// The sources of control datagrams, and when each was last heard of.
#[derive(Debug, PartialEq, Eq)]
pub struct RateLimitSources {
    pub last_seen: OrdMap<IpAddr, Instant>,
    pub capacity: usize,
    pub last_cleanup: Instant,
}

/// [`RateLimitSources`] as a mathematical value.
#[verifier::ext_equal]
pub struct SourcesModel {
    pub last_seen: Map<IpAddr, Instant>,
    pub capacity: int,
    pub last_cleanup: Instant,
}

impl View for RateLimitSources {
    type V = SourcesModel;

    open spec fn view(&self) -> SourcesModel {
        SourcesModel {
            last_seen: self.last_seen@,
            capacity: self.capacity as int,
            last_cleanup: self.last_cleanup,
        }
    }
}

/// Whether a minute has passed.
pub open spec fn minute_passed(from: Instant, now: Instant) -> bool {
    now.since_spec(from).nanos >= 60_000_000_000
}

fn has_minute_passed(from: Instant, now: Instant) -> (b: bool)
    ensures
        b == minute_passed(from, now),
{
    now.duration_since(from).nanos >= Duration::from_secs(RATE_LIMIT_SOURCE_SECS).nanos
}

/// The sources that were silent for a minute.
pub open spec fn silent(sources: SourcesModel, now: Instant) -> Set<IpAddr> {
    Set::new(
        |source: IpAddr|
            sources.last_seen.contains_key(source) && minute_passed(
                sources.last_seen[source],
                now,
            ),
    )
}

/// Sources once a minute without those that were silent for a minute.
pub open spec fn cleaned(sources: SourcesModel, now: Instant) -> SourcesModel {
    if minute_passed(sources.last_cleanup, now) {
        SourcesModel {
            last_seen: sources.last_seen.remove_keys(silent(sources, now)),
            last_cleanup: now,
            ..sources
        }
    } else {
        sources
    }
}

/// Whether a source can be kept track of.
pub open spec fn has_room(sources: SourcesModel, source: IpAddr) -> bool {
    sources.last_seen.contains_key(source) || sources.last_seen.dom().len() < sources.capacity
}

/// What became of a source.
#[derive(Debug, PartialEq, Eq)]
pub struct SourceAdmission {
    /// Whether the source is kept track of.
    pub admitted: bool,
    /// Whether it was not before.
    pub fresh: bool,
    /// Sources that are no longer kept track of.
    pub forgotten: Vec<IpAddr>,
}

impl RateLimitSources {
    pub open spec fn wf(&self) -> bool {
        self.last_seen.wf()
    }

    pub fn new(capacity: usize, now: Instant) -> (sources: Self)
        ensures
            sources.wf(),
            sources@ == (SourcesModel {
                last_seen: Map::empty(),
                capacity: capacity as int,
                last_cleanup: now,
            }),
    {
        RateLimitSources { last_seen: OrdMap::new(), capacity, last_cleanup: now }
    }

    fn silent_sources(&self, now: Instant) -> (found: Vec<IpAddr>)
        requires
            self.wf(),
        ensures
            found@.to_set() == silent(self@, now),
    {
        let ghost keys = self.last_seen.keys_seq();
        let mut found: Vec<IpAddr> = Vec::new();
        let mut i: usize = 0;
        proof {
            self.last_seen.lemma_facts();
        }
        while i < self.last_seen.len()
            invariant
                self.wf(),
                keys == self.last_seen.keys_seq(),
                i <= keys.len(),
                forall|s: IpAddr| #[trigger]
                    found@.contains(s) <==> (keys.take(i as int).contains(s) && minute_passed(
                        self.last_seen@[s],
                        now,
                    )),
            decreases keys.len() - i,
        {
            let ghost before = found@;
            let source = self.last_seen.key_at(i);
            let seen: Instant = *self.last_seen.value_at(i);
            let lapsed: bool = has_minute_passed(seen, now);
            if lapsed {
                found.push(source);
            }
            proof {
                self.last_seen.lemma_facts();
                assert forall|s: IpAddr| #[trigger] found@.contains(s) <==> (keys.take(
                    i + 1,
                ).contains(s) && minute_passed(self.last_seen@[s], now)) by {
                    lemma_take_grows(keys, i as int, s);
                    assert(before.contains(s) <==> (keys.take(i as int).contains(s)
                        && minute_passed(self.last_seen@[s], now)));
                    if lapsed {
                        assert(found@.drop_last() =~= before);
                        assert(found@.take(found@.len() as int) =~= found@);
                        assert(found@.take(found@.len() - 1) =~= before);
                        lemma_take_grows(found@, found@.len() - 1, s);
                    }
                }
            }
            i += 1;
        }
        proof {
            self.last_seen.lemma_facts();
            assert(keys.take(keys.len() as int) =~= keys);
            assert(found@.to_set() =~= silent(self@, now)) by {
                assert forall|s: IpAddr| found@.to_set().contains(s) <==> #[trigger] silent(
                    self@,
                    now,
                ).contains(s) by {
                    assert(keys.contains(s) <==> keys.to_set().contains(s));
                    assert(found@.contains(s) <==> (keys.contains(s) && minute_passed(
                        self.last_seen@[s],
                        now,
                    )));
                }
            }
        }
        found
    }

    /// Keeps track of a source, unless there is no room for another.  Once a
    /// minute, sources that were silent for a minute are forgotten.
    pub fn track(&mut self, now: Instant, source: IpAddr) -> (admission: SourceAdmission)
        requires
            old(self).wf(),
        ensures
            final(self).wf(),
            ({
                let ready = cleaned(old(self)@, now);
                &&& admission.admitted == has_room(ready, source)
                &&& admission.fresh == (admission.admitted && !ready.last_seen.contains_key(source))
                &&& admission.forgotten@.to_set() == old(self)@.last_seen.dom().difference(
                    ready.last_seen.dom(),
                )
                &&& final(self)@ == if has_room(ready, source) {
                    SourcesModel { last_seen: ready.last_seen.insert(source, now), ..ready }
                } else {
                    ready
                }
            }),
    {
        let mut forgotten: Vec<IpAddr> = Vec::new();
        proof {
            assert(forgotten@.to_set() =~= Set::empty());
            assert(old(self)@.last_seen.dom().difference(old(self)@.last_seen.dom())
                =~= Set::empty());
        }
        if has_minute_passed(self.last_cleanup, now) {
            forgotten = self.silent_sources(now);
            self.forget(&forgotten);
            self.last_cleanup = now;
            proof {
                assert(old(self)@.last_seen.dom().difference(
                    old(self)@.last_seen.remove_keys(silent(old(self)@, now)).dom(),
                ) =~= silent(old(self)@, now));
            }
        }
        proof {
            self.last_seen.lemma_facts();
        }
        let known: bool = self.last_seen.contains_key(source);
        if !known && self.last_seen.len() >= self.capacity {
            return SourceAdmission { admitted: false, fresh: false, forgotten };
        }
        self.last_seen.insert(source, now);
        SourceAdmission { admitted: true, fresh: !known, forgotten }
    }

    fn forget(&mut self, sources: &Vec<IpAddr>)
        requires
            old(self).wf(),
        ensures
            final(self).wf(),
            final(self)@ == (SourcesModel {
                last_seen: old(self)@.last_seen.remove_keys(sources@.to_set()),
                ..old(self)@
            }),
    {
        let mut i: usize = 0;
        proof {
            assert(sources@.take(0).to_set() =~= Set::empty());
            assert(old(self)@.last_seen.remove_keys(Set::empty()) =~= old(self)@.last_seen);
        }
        while i < sources.len()
            invariant
                i <= sources@.len(),
                self.wf(),
                self@ == (SourcesModel {
                    last_seen: old(self)@.last_seen.remove_keys(sources@.take(i as int).to_set()),
                    ..old(self)@
                }),
            decreases sources@.len() - i,
        {
            let source = sources[i];
            self.last_seen.remove(source);
            proof {
                let shorter = sources@.take(i as int).to_set();
                let longer = sources@.take(i + 1).to_set();
                assert forall|s: IpAddr| #[trigger] longer.contains(s) <==> shorter.contains(s) || s
                    == source by {
                    lemma_take_grows(sources@, i as int, s);
                }
                assert(old(self)@.last_seen.remove_keys(longer) =~= old(
                    self,
                )@.last_seen.remove_keys(shorter).remove(source));
            }
            i += 1;
        }
        proof {
            assert(sources@.take(i as int) =~= sources@);
        }
    }
}

/// No more sources are kept track of than there is room for.
pub proof fn law_sources_stay_within_capacity(sources: SourcesModel, now: Instant, source: IpAddr)
    requires
        sources.last_seen.dom().finite(),
        sources.last_seen.dom().len() <= sources.capacity,
        has_room(cleaned(sources, now), source),
    ensures
        cleaned(sources, now).last_seen.insert(source, now).dom().len() <= sources.capacity,
{
    let ready = cleaned(sources, now);
    let rest = ready.last_seen.dom();
    assert(rest.subset_of(sources.last_seen.dom()));
    vstd::set_lib::lemma_len_subset(rest, sources.last_seen.dom());
    let after = ready.last_seen.insert(source, now).dom();
    assert(after =~= rest.insert(source));
}

/// Sources are forgotten once a minute, and then exactly those that were silent
/// for a minute.
pub proof fn law_silent_sources_are_forgotten(
    sources: SourcesModel,
    now: Instant,
    source: IpAddr,
)
    ensures
        ({
            let after = cleaned(sources, now);
            let due = sources.last_cleanup.nanos + 60_000_000_000 <= now.nanos;
            &&& after.capacity == sources.capacity
            &&& after.last_cleanup == if due {
                now
            } else {
                sources.last_cleanup
            }
            &&& after.last_seen.contains_key(source) <==> sources.last_seen.contains_key(source)
                && !(due && sources.last_seen[source].nanos + 60_000_000_000 <= now.nanos)
            &&& after.last_seen.contains_key(source) ==> after.last_seen[source]
                == sources.last_seen[source]
        }),
{
}

/// A known source can always be kept track of, a new one as long as there is
/// room.
pub proof fn law_known_sources_keep_their_place(sources: SourcesModel, source: IpAddr)
    ensures
        sources.last_seen.contains_key(source) ==> has_room(sources, source),
        !sources.last_seen.contains_key(source) ==> (has_room(sources, source)
            <==> sources.last_seen.dom().len() < sources.capacity),
{
}

} // verus!
