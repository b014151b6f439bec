//! The decisions of a gateway that has a tunnel for every source.

use crate::desired::SourceReport;
use crate::metrics::{count, counted, GatewayMetricsGauges};
use crate::net::IpAddr;
use vstd::prelude::*;

verus! {

/// What becomes of a wanted source.
#[derive(Debug, Clone, Copy, PartialEq, Eq, Structural)]
pub enum TunnelVerdict {
    /// It has a tunnel, which is told what is wanted.
    Keep,
    /// It gets a tunnel.
    Add,
    /// There are too many tunnels for it to get one.
    OverLimit,
}

/// What becomes of tunnels and sources when what is wanted has changed.
#[derive(Debug, PartialEq, Eq)]
pub struct ReconcilePlan {
    /// Sources whose tunnels are closed, in the order of the tunnels.
    pub removed: Vec<IpAddr>,
    /// What becomes of each wanted source.
    pub verdicts: Vec<TunnelVerdict>,
    /// How many sources get no tunnel.
    pub over_limit: usize,
}

/// Whether a source is among some.
pub open spec fn is_wanted(wanted: Seq<IpAddr>, source: IpAddr) -> bool {
    wanted.contains(source)
}

/// The sources whose tunnels are closed.
pub open spec fn unwanted(existing: Seq<IpAddr>, wanted: Seq<IpAddr>) -> Seq<IpAddr>
    decreases existing.len(),
{
    if existing.len() == 0 {
        Seq::empty()
    } else if is_wanted(wanted, existing.last()) {
        unwanted(existing.drop_last(), wanted)
    } else {
        unwanted(existing.drop_last(), wanted).push(existing.last())
    }
}

/// How many of some verdicts add a tunnel.
pub open spec fn added(verdicts: Seq<TunnelVerdict>) -> nat
    decreases verdicts.len(),
{
    if verdicts.len() == 0 {
        0
    } else {
        added(verdicts.drop_last()) + (if verdicts.last() is Add {
            1nat
        } else {
            0
        })
    }
}

/// How many of some verdicts leave a source without a tunnel.
pub open spec fn over(verdicts: Seq<TunnelVerdict>) -> nat
    decreases verdicts.len(),
{
    if verdicts.len() == 0 {
        0
    } else {
        over(verdicts.drop_last()) + (if verdicts.last() is OverLimit {
            1nat
        } else {
            0
        })
    }
}

/// What becomes of wanted sources, given how many tunnels stay: those that have
/// one keep it, the others get one as long as there is room.
pub open spec fn verdicts_for(
    existing: Seq<IpAddr>,
    wanted: Seq<IpAddr>,
    staying: int,
    maximum: int,
) -> Seq<TunnelVerdict>
    decreases wanted.len(),
{
    if wanted.len() == 0 {
        Seq::empty()
    } else {
        let front = verdicts_for(existing, wanted.drop_last(), staying, maximum);
        front.push(
            if existing.contains(wanted.last()) {
                TunnelVerdict::Keep
            } else if staying + added(front) >= maximum {
                TunnelVerdict::OverLimit
            } else {
                TunnelVerdict::Add
            },
        )
    }
}

/// The sources that some reports are about.
pub open spec fn sources_of(reports: Seq<SourceReport>) -> Seq<IpAddr> {
    reports.map_values(|report: SourceReport| report.source)
}

fn contains_source(sources: &Vec<IpAddr>, source: IpAddr) -> (b: bool)
    ensures
        b == sources@.contains(source),
{
    let mut i: usize = 0;
    while i < sources.len()
        invariant
            i <= sources@.len(),
            forall|k: int| 0 <= k < i ==> sources@[k] != source,
        decreases sources@.len() - i,
    {
        if sources[i] == source {
            return true;
        }
        i += 1;
    }
    false
}

fn has_report(reports: &Vec<SourceReport>, source: IpAddr) -> (b: bool)
    ensures
        b == is_wanted(sources_of(reports@), source),
{
    let ghost wanted = sources_of(reports@);
    let mut i: usize = 0;
    while i < reports.len()
        invariant
            i <= reports@.len(),
            wanted == sources_of(reports@),
            forall|k: int| 0 <= k < i ==> wanted[k] != source,
        decreases reports@.len() - i,
    {
        if reports[i].source == source {
            proof {
                assert(wanted[i as int] == source);
            }
            return true;
        }
        i += 1;
    }
    false
}

/// What becomes of the tunnels of some sources when what is wanted has changed.
pub fn reconcile_driad_tunnels(
    existing: &Vec<IpAddr>,
    reports: &Vec<SourceReport>,
    maximum: usize,
) -> (plan: ReconcilePlan)
    ensures
        plan.removed@ == unwanted(existing@, sources_of(reports@)),
        plan.verdicts@ == verdicts_for(
            existing@,
            sources_of(reports@),
            existing@.len() - plan.removed@.len(),
            maximum as int,
        ),
        plan.over_limit == over(plan.verdicts@),
{
    let ghost wanted = sources_of(reports@);
    let mut removed: Vec<IpAddr> = Vec::new();
    let mut i: usize = 0;
    proof {
        assert(existing@.take(0) =~= Seq::empty());
    }
    while i < existing.len()
        invariant
            i <= existing@.len(),
            wanted == sources_of(reports@),
            removed@ == unwanted(existing@.take(i as int), wanted),
            removed@.len() <= i,
        decreases existing@.len() - i,
    {
        proof {
            assert(existing@.take(i + 1).drop_last() =~= existing@.take(i as int));
        }
        if !has_report(reports, existing[i]) {
            removed.push(existing[i]);
        }
        i += 1;
    }
    proof {
        assert(existing@.take(i as int) =~= existing@);
        assert(wanted.take(0) =~= Seq::empty());
    }
    let staying: usize = existing.len() - removed.len();
    let mut verdicts: Vec<TunnelVerdict> = Vec::new();
    let mut over_limit: usize = 0;
    let mut extra: usize = 0;
    let mut k: usize = 0;
    while k < reports.len()
        invariant
            k <= reports@.len(),
            wanted == sources_of(reports@),
            wanted.len() == reports@.len(),
            verdicts@ == verdicts_for(
                existing@,
                wanted.take(k as int),
                staying as int,
                maximum as int,
            ),
            extra == added(verdicts@),
            over_limit == over(verdicts@),
            extra <= k,
            over_limit <= k,
        decreases reports@.len() - k,
    {
        let ghost before = verdicts@;
        proof {
            assert(wanted.take(k + 1).drop_last() =~= wanted.take(k as int));
            assert(wanted.take(k + 1).last() == reports@[k as int].source);
        }
        let verdict = if contains_source(existing, reports[k].source) {
            TunnelVerdict::Keep
        } else if staying >= maximum || extra >= maximum - staying {
            TunnelVerdict::OverLimit
        } else {
            TunnelVerdict::Add
        };
        verdicts.push(verdict);
        match verdict {
            TunnelVerdict::Add => {
                extra += 1;
            },
            TunnelVerdict::OverLimit => {
                over_limit += 1;
            },
            TunnelVerdict::Keep => {},
        }
        proof {
            assert(verdicts@.drop_last() =~= before);
        }
        k += 1;
    }
    proof {
        assert(wanted.take(k as int) =~= wanted);
    }
    ReconcilePlan { removed, verdicts, over_limit }
}

/// However much is wanted, no more tunnels are added than there is room for.
pub proof fn law_tunnels_stay_within_the_limit(
    existing: Seq<IpAddr>,
    wanted: Seq<IpAddr>,
    staying: int,
    maximum: int,
)
    requires
        0 <= staying <= maximum,
    ensures
        staying + added(verdicts_for(existing, wanted, staying, maximum)) <= maximum,
    decreases wanted.len(),
{
    if wanted.len() > 0 {
        law_tunnels_stay_within_the_limit(existing, wanted.drop_last(), staying, maximum);
        let front = verdicts_for(existing, wanted.drop_last(), staying, maximum);
        assert(verdicts_for(existing, wanted, staying, maximum).drop_last() =~= front);
    }
}

/// Every tunnel of a wanted source stays, and every other tunnel is closed.
pub proof fn law_wanted_tunnels_stay(existing: Seq<IpAddr>, wanted: Seq<IpAddr>, source: IpAddr)
    requires
        existing.contains(source),
    ensures
        unwanted(existing, wanted).contains(source) <==> !wanted.contains(source),
    decreases existing.len(),
{
    let front = existing.drop_last();
    let last = existing.last();
    if front.contains(source) {
        law_wanted_tunnels_stay(front, wanted, source);
        if unwanted(front, wanted).contains(source) {
            let k = choose|k: int|
                0 <= k < unwanted(front, wanted).len() && unwanted(front, wanted)[k] == source;
            assert(unwanted(existing, wanted)[k] == source);
        } else if unwanted(existing, wanted).contains(source) {
            let k = choose|k: int|
                0 <= k < unwanted(existing, wanted).len() && unwanted(existing, wanted)[k]
                    == source;
            if k < unwanted(front, wanted).len() {
                assert(unwanted(front, wanted)[k] == source);
            }
        }
    } else {
        let at = choose|at: int| 0 <= at < existing.len() && existing[at] == source;
        assert(at == existing.len() - 1) by {
            if at < front.len() {
                assert(front[at] == source);
            }
        }
        if !wanted.contains(source) {
            let all = unwanted(existing, wanted);
            assert(all[all.len() - 1] == source);
        } else {
            lemma_unwanted_is_existing(front, wanted, source);
        }
    }
}

proof fn lemma_unwanted_is_existing(existing: Seq<IpAddr>, wanted: Seq<IpAddr>, source: IpAddr)
    ensures
        unwanted(existing, wanted).contains(source) ==> existing.contains(source),
    decreases existing.len(),
{
    if existing.len() > 0 {
        let front = existing.drop_last();
        lemma_unwanted_is_existing(front, wanted, source);
        if unwanted(existing, wanted).contains(source) {
            let k = choose|k: int|
                0 <= k < unwanted(existing, wanted).len() && unwanted(existing, wanted)[k]
                    == source;
            if k < unwanted(front, wanted).len() {
                assert(unwanted(front, wanted)[k] == source);
                let j = choose|j: int| 0 <= j < front.len() && front[j] == source;
                assert(existing[j] == source);
            } else {
                assert(existing[existing.len() - 1] == source);
            }
        }
    }
}

/// What is known of one tunnel.
#[derive(Debug, Clone, Copy, PartialEq, Eq, Structural)]
pub struct TunnelGauge {
    pub active: bool,
    pub probes: usize,
    pub held_down: usize,
}

/// How many tunnels have a relay.
pub open spec fn active_tunnels(tunnels: Seq<TunnelGauge>) -> u64
    decreases tunnels.len(),
{
    if tunnels.len() == 0 {
        0
    } else if tunnels.last().active {
        counted(active_tunnels(tunnels.drop_last()), 1)
    } else {
        active_tunnels(tunnels.drop_last())
    }
}

/// How many relays are being probed.
pub open spec fn probes_running(tunnels: Seq<TunnelGauge>) -> u64
    decreases tunnels.len(),
{
    if tunnels.len() == 0 {
        0
    } else {
        counted(probes_running(tunnels.drop_last()), tunnels.last().probes as int)
    }
}

/// How many relays are held down.
pub open spec fn relays_held_down(tunnels: Seq<TunnelGauge>) -> u64
    decreases tunnels.len(),
{
    if tunnels.len() == 0 {
        0
    } else {
        counted(relays_held_down(tunnels.drop_last()), tunnels.last().held_down as int)
    }
}

/// What is known of a gateway that has a tunnel for every source.
pub fn driad_gauges(
    tunnels: &Vec<TunnelGauge>,
    downstream_enabled: bool,
    transparent_enabled: bool,
    configured_joins: u64,
) -> (gauges: GatewayMetricsGauges)
    ensures
        gauges == (GatewayMetricsGauges {
            relay_connected: active_tunnels(tunnels@) != 0,
            downstream_enabled,
            transparent_enabled,
            configured_joins,
            driad_source_tunnels: tunnels@.len() as u64,
            driad_active_tunnels: active_tunnels(tunnels@),
            driad_candidate_probes: probes_running(tunnels@),
            driad_held_down_relays: relays_held_down(tunnels@),
        }),
{
    let mut active: u64 = 0;
    let mut probes: u64 = 0;
    let mut held: u64 = 0;
    let mut i: usize = 0;
    proof {
        assert(tunnels@.take(0) =~= Seq::empty());
    }
    while i < tunnels.len()
        invariant
            i <= tunnels@.len(),
            active == active_tunnels(tunnels@.take(i as int)),
            probes == probes_running(tunnels@.take(i as int)),
            held == relays_held_down(tunnels@.take(i as int)),
        decreases tunnels@.len() - i,
    {
        proof {
            assert(tunnels@.take(i + 1).drop_last() =~= tunnels@.take(i as int));
        }
        if tunnels[i].active {
            active = count(active, 1);
        }
        probes = count(probes, tunnels[i].probes as u64);
        held = count(held, tunnels[i].held_down as u64);
        i += 1;
    }
    proof {
        assert(tunnels@.take(i as int) =~= tunnels@);
    }
    GatewayMetricsGauges {
        relay_connected: active != 0,
        downstream_enabled,
        transparent_enabled,
        configured_joins,
        driad_source_tunnels: tunnels.len() as u64,
        driad_active_tunnels: active,
        driad_candidate_probes: probes,
        driad_held_down_relays: held,
    }
}

/// What becomes of each wanted source: one that has a tunnel keeps it, and of the
/// others the first get one for as long as there is room.
pub proof fn law_tunnels_are_given_in_order(
    existing: Seq<IpAddr>,
    wanted: Seq<IpAddr>,
    staying: int,
    maximum: int,
    i: int,
)
    requires
        0 <= i < wanted.len(),
    ensures
        ({
            let verdicts = verdicts_for(existing, wanted, staying, maximum);
            &&& verdicts.len() == wanted.len()
            &&& verdicts[i] is Keep <==> existing.contains(wanted[i])
            &&& verdicts[i] is Add <==> !existing.contains(wanted[i]) && staying + added(
                verdicts.take(i),
            ) < maximum
        }),
    decreases wanted.len(),
{
    let front = wanted.drop_last();
    let before = verdicts_for(existing, front, staying, maximum);
    let verdicts = verdicts_for(existing, wanted, staying, maximum);
    lemma_verdict_count(existing, front, staying, maximum);
    if i < front.len() {
        law_tunnels_are_given_in_order(existing, front, staying, maximum, i);
        assert(front[i] == wanted[i]);
        assert(verdicts[i] == before[i]);
        assert(verdicts.take(i) =~= before.take(i));
    } else {
        assert(verdicts.take(i) =~= before);
    }
}

proof fn lemma_verdict_count(
    existing: Seq<IpAddr>,
    wanted: Seq<IpAddr>,
    staying: int,
    maximum: int,
)
    ensures
        verdicts_for(existing, wanted, staying, maximum).len() == wanted.len(),
    decreases wanted.len(),
{
    if wanted.len() > 0 {
        lemma_verdict_count(existing, wanted.drop_last(), staying, maximum);
    }
}

/// Only tunnels that exist are closed.
pub proof fn law_only_tunnels_are_closed(
    existing: Seq<IpAddr>,
    wanted: Seq<IpAddr>,
    source: IpAddr,
)
    requires
        unwanted(existing, wanted).contains(source),
    ensures
        existing.contains(source),
        !wanted.contains(source),
    decreases existing.len(),
{
    let front = existing.drop_last();
    let closed = unwanted(existing, wanted);
    let k = choose|k: int| 0 <= k < closed.len() && closed[k] == source;
    if existing.len() > 0 {
        assert(existing[existing.len() - 1] == existing.last());
        if k < unwanted(front, wanted).len() {
            assert(unwanted(front, wanted)[k] == source);
            law_only_tunnels_are_closed(front, wanted, source);
            let j = choose|j: int| 0 <= j < front.len() && front[j] == source;
            assert(existing[j] == source);
        }
    }
}

} // verus!
