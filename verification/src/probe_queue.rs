//! Which relays a gateway probes for a source, and in which order.

use crate::candidates::{DriadRelaySelection, SelectionModel};
use crate::dns::{AmtRelayRecord, AmtRelayTarget, RelayRecordModel, TargetModel};
use crate::driad::{AMT_ANYCAST_IPV4_BITS, AMT_ANYCAST_IPV6_BITS};
use crate::net::{same_family, same_family_spec, IpAddr, Ipv4Addr, Ipv6Addr, SocketAddr};
use crate::ordered::OrdMap;
use crate::protocol::AMT_PORT;
use crate::text::{lemma_same_bytes_same_text, same_text};
use crate::time::{Duration, Instant};
use vstd::prelude::*;
use vstd::utf8::encode_utf8;

verus! {

/// How a candidate came to be one.
#[derive(Debug, Clone, Copy, PartialEq, Eq, Structural)]
pub enum DriadCandidateOrigin {
    Anycast,
    SourceDns,
}

/// A relay to probe.
#[derive(Debug, PartialEq, Eq)]
pub struct DriadCandidate {
    pub selection: DriadRelaySelection,
    pub origin: DriadCandidateOrigin,
}

/// A [`DriadCandidate`] with its names as UTF-8 bytes.
pub struct CandidateModel {
    pub selection: SelectionModel,
    pub origin: DriadCandidateOrigin,
}

impl View for DriadCandidate {
    type V = CandidateModel;

    open spec fn view(&self) -> CandidateModel {
        CandidateModel { selection: self.selection@, origin: self.origin }
    }
}

impl Clone for DriadCandidate {
    fn clone(&self) -> (copy: Self)
        ensures
            copy@ == self@,
    {
        DriadCandidate { selection: self.selection.clone(), origin: self.origin }
    }
}

/// The rank of a candidate: the anycast address first, then by precedence.
pub open spec fn rank_of(candidate: CandidateModel) -> int {
    (if candidate.origin is Anycast {
        0int
    } else {
        256
    }) + candidate.selection.record.precedence
}

/// One more than the highest rank.
pub const RANK_COUNT: u32 = 512;

impl DriadCandidate {
    /// The rank of the candidate.
    pub fn rank(&self) -> (rank: u32)
        ensures
            rank == rank_of(self@),
            rank < RANK_COUNT,
    {
        let base: u32 = match self.origin {
            DriadCandidateOrigin::Anycast => 0,
            DriadCandidateOrigin::SourceDns => 256,
        };
        base + self.selection.record.precedence as u32
    }
}

/// What some candidates say.
pub open spec fn candidate_models(candidates: Seq<DriadCandidate>) -> Seq<CandidateModel> {
    candidates.map_values(|candidate: DriadCandidate| candidate@)
}

/// Whether an address can be reached from where the gateway binds.
pub open spec fn family_allowed(bind: Option<IpAddr>, address: IpAddr) -> bool {
    bind is None || same_family_spec(bind->Some_0, address)
}

/// Whether an address can be reached from where the gateway binds.
pub fn address_family_allowed(bind: Option<IpAddr>, address: IpAddr) -> (b: bool)
    ensures
        b == family_allowed(bind, address),
{
    match bind {
        Some(bind) => same_family(bind, address),
        None => true,
    }
}

/// The anycast candidate of an address.
pub open spec fn anycast_candidate(source: IpAddr, address: IpAddr) -> CandidateModel {
    CandidateModel {
        selection: SelectionModel {
            source,
            query_name: encode_utf8("RFC 7450 well-known anycast"@),
            record: RelayRecordModel {
                precedence: 0,
                discovery_optional: false,
                target: match address {
                    IpAddr::V4(a) => TargetModel::Ipv4(a),
                    IpAddr::V6(a) => TargetModel::Ipv6(a),
                },
            },
            relay: SocketAddr::of(address, AMT_PORT),
            ttl: Duration::max_span(),
        },
        origin: DriadCandidateOrigin::Anycast,
    }
}

/// The anycast candidates that can be reached, the IPv6 one first.
pub open spec fn anycast_of(source: IpAddr, bind: Option<IpAddr>) -> Seq<CandidateModel> {
    let v6 = IpAddr::V6(Ipv6Addr { bits: AMT_ANYCAST_IPV6_BITS });
    let v4 = IpAddr::V4(Ipv4Addr { bits: AMT_ANYCAST_IPV4_BITS });
    let first = if family_allowed(bind, v6) {
        seq![anycast_candidate(source, v6)]
    } else {
        Seq::empty()
    };
    if family_allowed(bind, v4) {
        first.push(anycast_candidate(source, v4))
    } else {
        first
    }
}

fn new_anycast(source: IpAddr, address: IpAddr) -> (candidate: DriadCandidate)
    ensures
        candidate@ == anycast_candidate(source, address),
{
    let target = match address {
        IpAddr::V4(a) => AmtRelayTarget::Ipv4(a),
        IpAddr::V6(a) => AmtRelayTarget::Ipv6(a),
    };
    DriadCandidate {
        selection: DriadRelaySelection {
            source,
            query_name: "RFC 7450 well-known anycast".to_string(),
            record: AmtRelayRecord { precedence: 0, discovery_optional: false, target },
            relay: SocketAddr::new(address, AMT_PORT),
            ttl: Duration::max_value(),
        },
        origin: DriadCandidateOrigin::Anycast,
    }
}

/// The anycast candidates that can be reached, the IPv6 one first.
pub fn anycast_candidates(source: IpAddr, bind: Option<IpAddr>) -> (candidates: Vec<
    DriadCandidate,
>)
    ensures
        candidate_models(candidates@) == anycast_of(source, bind),
{
    let v6 = IpAddr::V6(Ipv6Addr { bits: AMT_ANYCAST_IPV6_BITS });
    let v4 = IpAddr::V4(Ipv4Addr { bits: AMT_ANYCAST_IPV4_BITS });
    let mut candidates: Vec<DriadCandidate> = Vec::new();
    if address_family_allowed(bind, v6) {
        candidates.push(new_anycast(source, v6));
    }
    let ghost first = candidates@;
    proof {
        assert(candidate_models(first) =~= if family_allowed(bind, v6) {
            seq![anycast_candidate(source, v6)]
        } else {
            Seq::empty()
        });
    }
    if address_family_allowed(bind, v4) {
        candidates.push(new_anycast(source, v4));
        proof {
            assert(candidate_models(candidates@) =~= candidate_models(first).push(
                anycast_candidate(source, v4),
            ));
        }
    }
    candidates
}

/// A candidate that DNS names for the source.
pub open spec fn from_dns(selection: SelectionModel) -> CandidateModel {
    CandidateModel { selection, origin: DriadCandidateOrigin::SourceDns }
}

/// The candidates that DNS names for the source.
pub open spec fn all_from_dns(selections: Seq<SelectionModel>) -> Seq<CandidateModel> {
    selections.map_values(|selection: SelectionModel| from_dns(selection))
}

/// Whether a relay is among some candidates.
pub open spec fn names_relay(candidates: Seq<CandidateModel>, relay: SocketAddr) -> bool {
    exists|i: int|
        0 <= i < candidates.len() && (#[trigger] candidates[i]).selection.relay == relay
}

/// The candidates to probe: those that can be reached, are not held down and
/// are not being probed, each relay once.
pub open spec fn kept(
    candidates: Seq<CandidateModel>,
    bind: Option<IpAddr>,
    held: Set<SocketAddr>,
    in_flight: Set<SocketAddr>,
) -> Seq<CandidateModel>
    decreases candidates.len(),
{
    if candidates.len() == 0 {
        Seq::empty()
    } else {
        let front = kept(candidates.drop_last(), bind, held, in_flight);
        let relay = candidates.last().selection.relay;
        if family_allowed(bind, relay.ip_spec()) && !held.contains(relay) && !in_flight.contains(
            relay,
        ) && !names_relay(front, relay) {
            front.push(candidates.last())
        } else {
            front
        }
    }
}

/// The candidates of one rank, in their order.
pub open spec fn of_rank(candidates: Seq<CandidateModel>, rank: int) -> Seq<CandidateModel>
    decreases candidates.len(),
{
    if candidates.len() == 0 {
        Seq::empty()
    } else if rank_of(candidates.last()) == rank {
        of_rank(candidates.drop_last(), rank).push(candidates.last())
    } else {
        of_rank(candidates.drop_last(), rank)
    }
}

/// The candidates of the lowest ranks, sorted by rank; those of the same rank
/// keep their order.
pub open spec fn ranked_below(candidates: Seq<CandidateModel>, bound: nat) -> Seq<CandidateModel>
    decreases bound,
{
    if bound == 0 {
        Seq::empty()
    } else {
        ranked_below(candidates, (bound - 1) as nat) + of_rank(candidates, bound - 1)
    }
}

fn lists_relay(candidates: &Vec<DriadCandidate>, relay: SocketAddr) -> (b: bool)
    ensures
        b == names_relay(candidate_models(candidates@), relay),
{
    let ghost models = candidate_models(candidates@);
    let mut i: usize = 0;
    while i < candidates.len()
        invariant
            i <= candidates@.len(),
            models == candidate_models(candidates@),
            forall|k: int| 0 <= k < i ==> (#[trigger] models[k]).selection.relay != relay,
        decreases candidates@.len() - i,
    {
        proof {
            assert(models[i as int] == candidates@[i as int]@);
        }
        if candidates[i].selection.relay == relay {
            return true;
        }
        i += 1;
    }
    false
}

/// Whether a list of relays holds one.
pub fn holds_relay(relays: &Vec<SocketAddr>, relay: SocketAddr) -> (b: bool)
    ensures
        b == relays@.to_set().contains(relay),
{
    let mut i: usize = 0;
    while i < relays.len()
        invariant
            i <= relays@.len(),
            forall|k: int| 0 <= k < i ==> relays@[k] != relay,
        decreases relays@.len() - i,
    {
        if relays[i] == relay {
            return true;
        }
        i += 1;
    }
    false
}

fn keep(
    candidates: &Vec<DriadCandidate>,
    bind: Option<IpAddr>,
    held: &OrdMap<SocketAddr, Instant>,
    in_flight: &Vec<SocketAddr>,
) -> (rest: Vec<DriadCandidate>)
    requires
        held.wf(),
    ensures
        candidate_models(rest@) == kept(
            candidate_models(candidates@),
            bind,
            held@.dom(),
            in_flight@.to_set(),
        ),
{
    let ghost models = candidate_models(candidates@);
    let mut rest: Vec<DriadCandidate> = Vec::new();
    let mut i: usize = 0;
    proof {
        assert(models.take(0) =~= Seq::empty());
        assert(candidate_models(rest@) =~= Seq::empty());
    }
    while i < candidates.len()
        invariant
            i <= candidates@.len(),
            held.wf(),
            models == candidate_models(candidates@),
            candidate_models(rest@) == kept(
                models.take(i as int),
                bind,
                held@.dom(),
                in_flight@.to_set(),
            ),
        decreases candidates@.len() - i,
    {
        let ghost before = rest@;
        proof {
            assert(models.take(i + 1).drop_last() =~= models.take(i as int));
            assert(models.take(i + 1).last() == candidates@[i as int]@);
        }
        let relay: SocketAddr = candidates[i].selection.relay;
        if address_family_allowed(bind, relay.ip()) && !held.contains_key(relay) && !holds_relay(
            in_flight,
            relay,
        ) && !lists_relay(&rest, relay) {
            rest.push(candidates[i].clone());
            proof {
                assert(candidate_models(rest@) =~= candidate_models(before).push(
                    rest@.last()@,
                ));
            }
        }
        i += 1;
    }
    proof {
        assert(models.take(i as int) =~= models);
    }
    rest
}

fn append_rank(sorted: &mut Vec<DriadCandidate>, candidates: &Vec<DriadCandidate>, rank: u32)
    ensures
        candidate_models(final(sorted)@) == candidate_models(old(sorted)@) + of_rank(
            candidate_models(candidates@),
            rank as int,
        ),
{
    let ghost models = candidate_models(candidates@);
    let mut i: usize = 0;
    proof {
        assert(models.take(0) =~= Seq::empty());
        assert(candidate_models(sorted@) =~= candidate_models(old(sorted)@) + Seq::empty());
    }
    while i < candidates.len()
        invariant
            i <= candidates@.len(),
            models == candidate_models(candidates@),
            candidate_models(sorted@) == candidate_models(old(sorted)@) + of_rank(
                models.take(i as int),
                rank as int,
            ),
        decreases candidates@.len() - i,
    {
        let ghost before = sorted@;
        proof {
            assert(models.take(i + 1).drop_last() =~= models.take(i as int));
            assert(models.take(i + 1).last() == candidates@[i as int]@);
        }
        if candidates[i].rank() == rank {
            sorted.push(candidates[i].clone());
            proof {
                assert(candidate_models(sorted@) =~= candidate_models(before).push(
                    sorted@.last()@,
                ));
                assert(candidate_models(sorted@) =~= candidate_models(old(sorted)@) + of_rank(
                    models.take(i + 1),
                    rank as int,
                ));
            }
        }
        i += 1;
    }
    proof {
        assert(models.take(i as int) =~= models);
    }
}

fn sort_by_rank(candidates: &Vec<DriadCandidate>) -> (sorted: Vec<DriadCandidate>)
    ensures
        candidate_models(sorted@) == ranked_below(
            candidate_models(candidates@),
            RANK_COUNT as nat,
        ),
{
    let mut sorted: Vec<DriadCandidate> = Vec::new();
    let mut rank: u32 = 0;
    proof {
        assert(candidate_models(sorted@) =~= Seq::empty());
    }
    while rank < RANK_COUNT
        invariant
            rank <= RANK_COUNT,
            candidate_models(sorted@) == ranked_below(
                candidate_models(candidates@),
                rank as nat,
            ),
        decreases RANK_COUNT - rank,
    {
        append_rank(&mut sorted, candidates, rank);
        rank += 1;
    }
    sorted
}

/// The relays to probe for a source, by rank: the anycast ones, where they are
/// used, then those that DNS names.
pub open spec fn probe_queue(
    source: IpAddr,
    bind: Option<IpAddr>,
    use_anycast: bool,
    selections: Seq<SelectionModel>,
    held: Set<SocketAddr>,
    in_flight: Set<SocketAddr>,
) -> Seq<CandidateModel> {
    let all = (if use_anycast {
        anycast_of(source, bind)
    } else {
        Seq::empty()
    }) + all_from_dns(selections);
    ranked_below(kept(all, bind, held, in_flight), RANK_COUNT as nat)
}

/// The relays to probe for a source, by rank.
pub fn build_probe_queue(
    source: IpAddr,
    bind: Option<IpAddr>,
    use_anycast: bool,
    selections: &Vec<DriadRelaySelection>,
    held: &OrdMap<SocketAddr, Instant>,
    in_flight: &Vec<SocketAddr>,
) -> (queue: Vec<DriadCandidate>)
    requires
        held.wf(),
    ensures
        candidate_models(queue@) == probe_queue(
            source,
            bind,
            use_anycast,
            crate::candidates::selection_models(selections@),
            held@.dom(),
            in_flight@.to_set(),
        ),
{
    let mut all: Vec<DriadCandidate> = if use_anycast {
        anycast_candidates(source, bind)
    } else {
        Vec::new()
    };
    let ghost first = candidate_models(all@);
    let ghost models = crate::candidates::selection_models(selections@);
    let ghost rest = all_from_dns(models);
    proof {
        if !use_anycast {
            assert(first =~= Seq::empty());
        }
        assert(first + rest.take(0) =~= first);
    }
    let mut i: usize = 0;
    while i < selections.len()
        invariant
            i <= selections@.len(),
            models == crate::candidates::selection_models(selections@),
            rest == all_from_dns(models),
            candidate_models(all@) == first + rest.take(i as int),
        decreases selections@.len() - i,
    {
        let ghost before = all@;
        all.push(
            DriadCandidate {
                selection: selections[i].clone(),
                origin: DriadCandidateOrigin::SourceDns,
            },
        );
        proof {
            assert(models[i as int] == selections@[i as int]@);
            assert(rest[i as int] == all@.last()@);
            assert(rest.take(i + 1) =~= rest.take(i as int).push(rest[i as int]));
            assert(candidate_models(all@) =~= candidate_models(before).push(all@.last()@));
            assert(candidate_models(all@) =~= first + rest.take(i + 1));
        }
        i += 1;
    }
    proof {
        assert(rest.take(i as int) =~= rest);
    }
    let usable = keep(&all, bind, held, in_flight);
    sort_by_rank(&usable)
}

/// Whether two texts are the same to UTF-8.
fn same_bytes_of(a: &String, b: &String) -> (same: bool)
    ensures
        same == (encode_utf8(a@) == encode_utf8(b@)),
{
    let same = same_text(a.as_str(), b.as_str());
    proof {
        if encode_utf8(a@) == encode_utf8(b@) {
            lemma_same_bytes_same_text(a@, b@);
        }
    }
    same
}

fn same_target(a: &AmtRelayTarget, b: &AmtRelayTarget) -> (same: bool)
    ensures
        same == (a@ == b@),
{
    match (a, b) {
        (AmtRelayTarget::NoRelay, AmtRelayTarget::NoRelay) => true,
        (AmtRelayTarget::Ipv4(x), AmtRelayTarget::Ipv4(y)) => *x == *y,
        (AmtRelayTarget::Ipv6(x), AmtRelayTarget::Ipv6(y)) => *x == *y,
        (AmtRelayTarget::Name(x), AmtRelayTarget::Name(y)) => same_bytes_of(x, y),
        _ => false,
    }
}

fn same_selection(a: &DriadRelaySelection, b: &DriadRelaySelection) -> (same: bool)
    ensures
        same == (a@ == b@),
{
    a.source == b.source && same_bytes_of(&a.query_name, &b.query_name) && a.record.precedence
        == b.record.precedence && a.record.discovery_optional == b.record.discovery_optional
        && same_target(&a.record.target, &b.record.target) && a.relay == b.relay && a.ttl == b.ttl
}

/// Whether two lists of selections say the same.
pub fn same_selections(a: &Vec<DriadRelaySelection>, b: &Vec<DriadRelaySelection>) -> (same: bool)
    ensures
        same == (crate::candidates::selection_models(a@) == crate::candidates::selection_models(
            b@,
        )),
{
    let ghost x = crate::candidates::selection_models(a@);
    let ghost y = crate::candidates::selection_models(b@);
    proof {
        assert(x.len() == a@.len() && y.len() == b@.len());
    }
    if a.len() != b.len() {
        return false;
    }
    let mut i: usize = 0;
    while i < a.len()
        invariant
            i <= a@.len(),
            a@.len() == b@.len(),
            x == crate::candidates::selection_models(a@),
            y == crate::candidates::selection_models(b@),
            forall|k: int| 0 <= k < i ==> #[trigger] x[k] == y[k],
        decreases a@.len() - i,
    {
        proof {
            assert(x[i as int] == a@[i as int]@);
            assert(y[i as int] == b@[i as int]@);
        }
        if !same_selection(&a[i], &b[i]) {
            return false;
        }
        i += 1;
    }
    proof {
        assert(x =~= y);
    }
    true
}

/// Candidates of a lower rank are probed first: the anycast address before
/// what DNS names, and there a lower precedence before a higher one.
pub proof fn law_lower_ranks_are_probed_first(
    candidates: Seq<CandidateModel>,
    bound: nat,
    i: int,
    j: int,
)
    requires
        0 <= i <= j < ranked_below(candidates, bound).len(),
    ensures
        rank_of(ranked_below(candidates, bound)[i]) <= rank_of(
            ranked_below(candidates, bound)[j],
        ) < bound,
    decreases bound,
{
    let front = ranked_below(candidates, (bound - 1) as nat);
    let run = of_rank(candidates, bound - 1);
    lemma_of_rank(candidates, bound - 1);
    if j < front.len() {
        law_lower_ranks_are_probed_first(candidates, (bound - 1) as nat, i, j);
    } else {
        assert(rank_of(run[j - front.len()]) == bound - 1);
        if i < front.len() {
            law_lower_ranks_are_probed_first(candidates, (bound - 1) as nat, i, i);
        } else {
            assert(rank_of(run[i - front.len()]) == bound - 1);
        }
    }
}

proof fn lemma_of_rank(candidates: Seq<CandidateModel>, rank: int)
    ensures
        forall|i: int|
            0 <= i < of_rank(candidates, rank).len() ==> rank_of(
                #[trigger] of_rank(candidates, rank)[i],
            ) == rank,
    decreases candidates.len(),
{
    if candidates.len() > 0 {
        let front = of_rank(candidates.drop_last(), rank);
        lemma_of_rank(candidates.drop_last(), rank);
        assert forall|i: int| 0 <= i < of_rank(candidates, rank).len() implies rank_of(
            #[trigger] of_rank(candidates, rank)[i],
        ) == rank by {
            if i < front.len() {
                assert(of_rank(candidates, rank)[i] == front[i]);
            }
        }
    }
}

/// No relay is queued that is held down, cannot be reached or is being probed
/// already, and none is queued twice.
pub proof fn law_queued_relays_may_be_probed(
    candidates: Seq<CandidateModel>,
    bind: Option<IpAddr>,
    held: Set<SocketAddr>,
    in_flight: Set<SocketAddr>,
)
    ensures
        forall|i: int|
            0 <= i < kept(candidates, bind, held, in_flight).len() ==> {
                let relay = (#[trigger] kept(candidates, bind, held, in_flight)[i]).selection.relay;
                !held.contains(relay) && !in_flight.contains(relay) && family_allowed(
                    bind,
                    relay.ip_spec(),
                )
            },
        forall|i: int, j: int|
            0 <= i < j < kept(candidates, bind, held, in_flight).len() ==> (#[trigger] kept(
                candidates,
                bind,
                held,
                in_flight,
            )[i]).selection.relay != (#[trigger] kept(
                candidates,
                bind,
                held,
                in_flight,
            )[j]).selection.relay,
    decreases candidates.len(),
{
    if candidates.len() > 0 {
        law_queued_relays_may_be_probed(candidates.drop_last(), bind, held, in_flight);
    }
}

/// Sorting by rank makes up no candidates.
pub proof fn lemma_ranked_is_kept(candidates: Seq<CandidateModel>, bound: nat, i: int)
    requires
        0 <= i < ranked_below(candidates, bound).len(),
    ensures
        candidates.contains(ranked_below(candidates, bound)[i]),
    decreases bound,
{
    let front = ranked_below(candidates, (bound - 1) as nat);
    if i < front.len() {
        lemma_ranked_is_kept(candidates, (bound - 1) as nat, i);
    } else {
        lemma_of_rank_is_kept(candidates, bound - 1, i - front.len());
    }
}

proof fn lemma_of_rank_is_kept(candidates: Seq<CandidateModel>, rank: int, i: int)
    requires
        0 <= i < of_rank(candidates, rank).len(),
    ensures
        candidates.contains(of_rank(candidates, rank)[i]),
    decreases candidates.len(),
{
    let front = candidates.drop_last();
    if i < of_rank(front, rank).len() {
        lemma_of_rank_is_kept(front, rank, i);
        let k = choose|k: int| 0 <= k < front.len() && front[k] == of_rank(front, rank)[i];
        assert(candidates[k] == front[k]);
        assert(of_rank(candidates, rank)[i] == of_rank(front, rank)[i]);
    } else {
        assert(of_rank(candidates, rank)[i] == candidates.last());
        assert(candidates[candidates.len() - 1] == candidates.last());
    }
}

/// The anycast address ranks before every relay that DNS names.
pub proof fn law_anycast_ranks_first(anycast: CandidateModel, named: CandidateModel)
    requires
        anycast.origin is Anycast,
        named.origin is SourceDns,
    ensures
        rank_of(anycast) < rank_of(named),
{
}

/// The anycast relays are 2001:3::1 and 192.52.193.1 at port 2268, in this order,
/// each where its family can be reached.
pub proof fn law_anycast_relays_are_well_known(source: IpAddr, bind: Option<IpAddr>, i: int)
    ensures
        ({
            let all = anycast_of(source, bind);
            let six = bind is None || bind->Some_0 is V6;
            let four = bind is None || bind->Some_0 is V4;
            &&& all.len() == (if six {
                1int
            } else {
                0
            }) + (if four {
                1int
            } else {
                0
            })
            &&& six ==> all[0].selection.relay.ip_spec() == IpAddr::V6(
                Ipv6Addr { bits: 0x2001_0003_0000_0000_0000_0000_0000_0001 },
            )
            &&& four ==> all.last().selection.relay.ip_spec() == IpAddr::V4(
                Ipv4Addr { bits: 0xc034_c101 },
            )
            &&& 0 <= i < all.len() ==> all[i].selection.relay.port_spec() == 2268
                && all[i].origin is Anycast && all[i].selection.source == source
        }),
{
}

proof fn lemma_kept_names(
    candidates: Seq<CandidateModel>,
    bind: Option<IpAddr>,
    held: Set<SocketAddr>,
    in_flight: Set<SocketAddr>,
    relay: SocketAddr,
)
    requires
        names_relay(candidates, relay),
        bind is None || (bind->Some_0 is V4) == (relay is V4),
        !held.contains(relay),
        !in_flight.contains(relay),
    ensures
        names_relay(kept(candidates, bind, held, in_flight), relay),
    decreases candidates.len(),
{
    let front = candidates.drop_last();
    let before = kept(front, bind, held, in_flight);
    let after = kept(candidates, bind, held, in_flight);
    if names_relay(front, relay) {
        lemma_kept_names(front, bind, held, in_flight, relay);
    } else {
        let k = choose|k: int|
            0 <= k < candidates.len() && (#[trigger] candidates[k]).selection.relay == relay;
        if k < front.len() {
            assert(front[k].selection.relay == relay);
        }
        assert(candidates.last().selection.relay == relay);
        if !names_relay(before, relay) {
            assert(after[before.len() as int].selection.relay == relay);
        }
    }
    if names_relay(before, relay) {
        let k = choose|k: int|
            0 <= k < before.len() && (#[trigger] before[k]).selection.relay == relay;
        assert(after[k].selection.relay == relay);
    }
}

proof fn lemma_ranked_has(candidates: Seq<CandidateModel>, bound: nat, k: int)
    requires
        0 <= k < candidates.len(),
        rank_of(candidates[k]) < bound,
    ensures
        ranked_below(candidates, bound).contains(candidates[k]),
    decreases bound,
{
    let x = candidates[k];
    let front = ranked_below(candidates, (bound - 1) as nat);
    let run = of_rank(candidates, bound - 1);
    let all = ranked_below(candidates, bound);
    if rank_of(x) == bound - 1 {
        lemma_of_rank_has(candidates, bound - 1, k);
        let i = choose|i: int| 0 <= i < run.len() && run[i] == x;
        assert(all[front.len() + i] == x);
    } else {
        lemma_ranked_has(candidates, (bound - 1) as nat, k);
        let i = choose|i: int| 0 <= i < front.len() && front[i] == x;
        assert(all[i] == x);
    }
}

proof fn lemma_of_rank_has(candidates: Seq<CandidateModel>, rank: int, k: int)
    requires
        0 <= k < candidates.len(),
        rank_of(candidates[k]) == rank,
    ensures
        of_rank(candidates, rank).contains(candidates[k]),
    decreases candidates.len(),
{
    let front = candidates.drop_last();
    let run = of_rank(candidates, rank);
    if k < front.len() {
        lemma_of_rank_has(front, rank, k);
        assert(front[k] == candidates[k]);
        let i = choose|i: int|
            0 <= i < of_rank(front, rank).len() && of_rank(front, rank)[i] == candidates[k];
        assert(run[i] == candidates[k]);
    } else {
        assert(run[run.len() - 1] == candidates[k]);
    }
}

/// No relay is passed over: every one that DNS names for a source is queued, as
/// long as it can be reached, is not held down and is not being probed.
pub proof fn law_named_relays_are_queued(
    source: IpAddr,
    bind: Option<IpAddr>,
    use_anycast: bool,
    selections: Seq<SelectionModel>,
    held: Set<SocketAddr>,
    in_flight: Set<SocketAddr>,
    i: int,
)
    requires
        0 <= i < selections.len(),
        bind is None || (bind->Some_0 is V4) == (selections[i].relay is V4),
        !held.contains(selections[i].relay),
        !in_flight.contains(selections[i].relay),
    ensures
        names_relay(
            probe_queue(source, bind, use_anycast, selections, held, in_flight),
            selections[i].relay,
        ),
{
    let relay = selections[i].relay;
    let first = if use_anycast {
        anycast_of(source, bind)
    } else {
        Seq::empty()
    };
    let all = first + all_from_dns(selections);
    assert(all[first.len() + i].selection.relay == relay);
    lemma_kept_names(all, bind, held, in_flight, relay);
    let rest = kept(all, bind, held, in_flight);
    let k = choose|k: int| 0 <= k < rest.len() && (#[trigger] rest[k]).selection.relay == relay;
    lemma_ranked_has(rest, RANK_COUNT as nat, k);
    let queue = ranked_below(rest, RANK_COUNT as nat);
    let j = choose|j: int| 0 <= j < queue.len() && queue[j] == rest[k];
    assert(queue[j].selection.relay == relay);
}

/// The anycast relay ranks before all that DNS names, and those by precedence.
pub proof fn law_ranks_follow_the_precedence(left: CandidateModel, right: CandidateModel)
    ensures
        left.origin == right.origin ==> (rank_of(left) < rank_of(right)
            <==> left.selection.record.precedence < right.selection.record.precedence),
        left.origin is Anycast && !(right.origin is Anycast) ==> rank_of(left) < rank_of(right),
        0 <= rank_of(left) < 512,
{
}

} // verus!
