//! Multicast reception state: which endpoint wants which sources of which
//! group, and what that means upstream.

use crate::membership::{
    clamp_len, law_igmp_is_found_in_its_packet, law_igmp_types_say_what_is_reported,
    law_mld_is_found_in_its_packet, law_mld_types_say_what_is_reported, packet_report,
    record_models, MembershipParseLimits, MembershipRecord, MembershipRecordKind, MembershipReport,
    RecordModel,
};
use crate::net::{spells, IpAddr, SocketAddr};
use crate::ordered::{ascending, in_order, OrdKey, OrdMap, OrdSet, Stored};
use vstd::arithmetic::power::pow;
use vstd::prelude::*;

verus! {

/// Stable identity used to bind multicast reception state to one tunnel.
///
/// Classic AMT uses the gateway's UDP endpoint.  Transports with their own
/// connection identity can use a connection-local type and give no source
/// address.
pub trait MembershipEndpoint: OrdKey {
    /// The address that per-address limits count the endpoint under.
    spec fn source_ip_spec(self) -> Option<IpAddr>;

    fn source_ip(self) -> (address: Option<IpAddr>)
        ensures
            address == self.source_ip_spec(),
    ;
}

impl MembershipEndpoint for SocketAddr {
    open spec fn source_ip_spec(self) -> Option<IpAddr> {
        Some(self.ip_spec())
    }

    fn source_ip(self) -> (address: Option<IpAddr>) {
        Some(self.ip())
    }
}

#[derive(Debug, Clone, Copy, PartialEq, Eq, Hash, Structural)]
pub enum FilterMode {
    Include,
    Exclude,
}

/// Which sources of a group are wanted: the listed ones, or all but them.
#[derive(Debug, PartialEq, Eq)]
pub struct GroupInterest {
    pub mode: FilterMode,
    pub sources: OrdSet<IpAddr>,
}

/// A [`GroupInterest`] with its sources as a set.
#[verifier::ext_equal]
pub struct InterestModel {
    pub mode: FilterMode,
    pub sources: Set<IpAddr>,
}

/// The interests of one endpoint.
pub type GroupsModel = Map<IpAddr, InterestModel>;

/// The interests of all endpoints.
pub type TableModel<K> = Map<K, GroupsModel>;

impl View for GroupInterest {
    type V = InterestModel;

    open spec fn view(&self) -> InterestModel {
        InterestModel { mode: self.mode, sources: self.sources@ }
    }
}

impl InterestModel {
    pub open spec fn including(sources: Set<IpAddr>) -> Self {
        InterestModel { mode: FilterMode::Include, sources }
    }

    pub open spec fn excluding(sources: Set<IpAddr>) -> Self {
        InterestModel { mode: FilterMode::Exclude, sources }
    }

    /// Whether packets from `source` are wanted.
    pub open spec fn wants(self, source: IpAddr) -> bool {
        match self.mode {
            FilterMode::Include => self.sources.contains(source),
            FilterMode::Exclude => !self.sources.contains(source),
        }
    }
}

impl GroupInterest {
    /// Interest in the listed sources only.
    pub fn including(sources: &Vec<IpAddr>) -> (interest: Self)
        ensures
            interest.stored_wf(),
            interest@ == InterestModel::including(sources@.to_set()),
    {
        GroupInterest { mode: FilterMode::Include, sources: OrdSet::from_list(sources) }
    }

    /// Interest in all but the listed sources.
    pub fn exclude(sources: &Vec<IpAddr>) -> (interest: Self)
        ensures
            interest.stored_wf(),
            interest@ == InterestModel::excluding(sources@.to_set()),
    {
        GroupInterest { mode: FilterMode::Exclude, sources: OrdSet::from_list(sources) }
    }

    /// Whether packets from `source` are wanted.
    pub fn wants_source(&self, source: IpAddr) -> (wanted: bool)
        requires
            self.stored_wf(),
        ensures
            wanted == self@.wants(source),
    {
        match self.mode {
            FilterMode::Include => self.sources.contains(source),
            FilterMode::Exclude => !self.sources.contains(source),
        }
    }
}

impl Stored for GroupInterest {
    open spec fn stored_wf(&self) -> bool {
        self.sources.wf()
    }

    fn duplicate(&self) -> (copy: Self) {
        GroupInterest { mode: self.mode, sources: self.sources.duplicate() }
    }

    fn same(&self, other: &Self) -> (same: bool) {
        self.mode == other.mode && self.sources.same(&other.sources)
    }
}

/// One subscription that the relay holds upstream: a whole group, or one
/// source of it.
#[derive(Debug, Clone, Copy, PartialEq, Eq, Hash, Structural)]
pub struct UpstreamSubscription {
    pub group: IpAddr,
    pub source: Option<IpAddr>,
}

impl UpstreamSubscription {
    pub fn any_source(group: IpAddr) -> (subscription: Self)
        ensures
            subscription == (UpstreamSubscription { group, source: None }),
    {
        UpstreamSubscription { group, source: None }
    }

    pub fn ssm(group: IpAddr, source: IpAddr) -> (subscription: Self)
        ensures
            subscription == (UpstreamSubscription { group, source: Some(source) }),
    {
        UpstreamSubscription { group, source: Some(source) }
    }
}

impl OrdKey for UpstreamSubscription {
    /// By group, then the whole group before its sources.
    open spec fn rank(self) -> int {
        self.group.rank() * 0x4_0000_0000_0000_0000_0000_0000_0000_0000 + match self.source {
            None => 0,
            Some(source) => 1 + source.rank(),
        }
    }

    proof fn rank_is_injective(self, other: Self) {
    }

    fn precedes(self, other: Self) -> (b: bool) {
        if self.group.precedes(other.group) {
            return true;
        }
        if other.group.precedes(self.group) {
            return false;
        }
        match (self.source, other.source) {
            (None, None) => false,
            (None, Some(_)) => true,
            (Some(_), None) => false,
            (Some(a), Some(b)) => a.precedes(b),
        }
    }
}

/// How much state a relay accepts.
#[derive(Debug, Clone, Copy, PartialEq, Eq, Structural)]
pub struct RelayLimits {
    pub max_endpoints: usize,
    pub max_endpoints_per_ip: usize,
    pub max_groups_per_endpoint: usize,
    pub max_sources_per_group: usize,
    pub max_total_endpoint_groups: usize,
    pub max_total_sources: usize,
    pub max_upstream_subscriptions: usize,
    pub max_records_per_report: usize,
}

impl RelayLimits {
    pub open spec fn default_spec() -> Self {
        RelayLimits {
            max_endpoints: 4_096,
            max_endpoints_per_ip: 256,
            max_groups_per_endpoint: 128,
            max_sources_per_group: 128,
            max_total_endpoint_groups: 16_384,
            max_total_sources: 65_536,
            max_upstream_subscriptions: 256,
            max_records_per_report: 512,
        }
    }
}

impl Default for RelayLimits {
    fn default() -> (limits: Self)
        ensures
            limits == Self::default_spec(),
    {
        RelayLimits {
            max_endpoints: 4_096,
            max_endpoints_per_ip: 256,
            max_groups_per_endpoint: 128,
            max_sources_per_group: 128,
            max_total_endpoint_groups: 16_384,
            max_total_sources: 65_536,
            max_upstream_subscriptions: 256,
            max_records_per_report: 512,
        }
    }
}

/// A limit that a report would have exceeded.
#[derive(Debug, Clone, Copy, PartialEq, Eq)]
pub struct StateLimitError {
    pub resource: &'static str,
    pub requested: usize,
    pub limit: usize,
}

/// A [`StateLimitError`] with its text as a sequence.
pub struct LimitErrorModel {
    pub resource: Seq<char>,
    pub requested: int,
    pub limit: int,
}

impl View for StateLimitError {
    type V = LimitErrorModel;

    open spec fn view(&self) -> LimitErrorModel {
        LimitErrorModel {
            resource: self.resource@,
            requested: self.requested as int,
            limit: self.limit as int,
        }
    }
}

/// The interests of an endpoint after one record.
pub open spec fn record_applied(groups: GroupsModel, record: RecordModel) -> GroupsModel {
    let group = record.group;
    let listed = record.sources.to_set();
    match record.kind {
        MembershipRecordKind::LegacyReport => groups.insert(
            group,
            InterestModel::excluding(Set::empty()),
        ),
        MembershipRecordKind::LegacyLeave => groups.remove(group),
        MembershipRecordKind::ModeIsInclude | MembershipRecordKind::ChangeToInclude => {
            if record.sources.len() == 0 {
                groups.remove(group)
            } else {
                groups.insert(group, InterestModel::including(listed))
            }
        },
        MembershipRecordKind::ModeIsExclude | MembershipRecordKind::ChangeToExclude => {
            groups.insert(group, InterestModel::excluding(listed))
        },
        MembershipRecordKind::AllowNewSources => if record.sources.len() == 0 {
            groups
        } else if !groups.contains_key(group) {
            groups.insert(group, InterestModel::including(listed))
        } else {
            let known = groups[group];
            match known.mode {
                FilterMode::Include => groups.insert(
                    group,
                    InterestModel::including(known.sources.union(listed)),
                ),
                FilterMode::Exclude => groups.insert(
                    group,
                    InterestModel::excluding(known.sources.difference(listed)),
                ),
            }
        },
        MembershipRecordKind::BlockOldSources => if record.sources.len() == 0
            || !groups.contains_key(group) {
            groups
        } else {
            let known = groups[group];
            match known.mode {
                FilterMode::Include => if known.sources.difference(listed) == Set::<
                    IpAddr,
                >::empty() {
                    groups.remove(group)
                } else {
                    groups.insert(group, InterestModel::including(known.sources.difference(listed)))
                },
                FilterMode::Exclude => groups.insert(
                    group,
                    InterestModel::excluding(known.sources.union(listed)),
                ),
            }
        },
    }
}

/// The interests of an endpoint after some records, in order.
pub open spec fn records_applied(groups: GroupsModel, records: Seq<RecordModel>) -> GroupsModel
    decreases records.len(),
{
    if records.len() == 0 {
        groups
    } else {
        record_applied(records_applied(groups, records.drop_last()), records.last())
    }
}

/// How many of the records change the interests, applied in order.
pub open spec fn effective_records(groups: GroupsModel, records: Seq<RecordModel>) -> nat
    decreases records.len(),
{
    if records.len() == 0 {
        0
    } else {
        let before = records_applied(groups, records.drop_last());
        effective_records(groups, records.drop_last()) + (if record_applied(before, records.last())
            != before {
            1nat
        } else {
            0nat
        })
    }
}

/// The interests of one endpoint, none where the table does not know it.
pub open spec fn groups_of<K>(table: TableModel<K>, endpoint: K) -> GroupsModel {
    if table.contains_key(endpoint) {
        table[endpoint]
    } else {
        Map::empty()
    }
}

/// The table with the interests of one endpoint replaced; an endpoint without
/// interests is not kept.
pub open spec fn with_groups<K>(table: TableModel<K>, endpoint: K, groups: GroupsModel) -> TableModel<
    K,
> {
    if groups == Map::<IpAddr, InterestModel>::empty() {
        table.remove(endpoint)
    } else {
        table.insert(endpoint, groups)
    }
}

/// The table after a report from an endpoint.
pub open spec fn report_applied<K>(
    table: TableModel<K>,
    endpoint: K,
    records: Seq<RecordModel>,
) -> TableModel<K> {
    with_groups(table, endpoint, records_applied(groups_of(table, endpoint), records))
}

/// Whether an endpoint has an interest in a group.
pub open spec fn interested<K>(table: TableModel<K>, endpoint: K, group: IpAddr) -> bool {
    table.contains_key(endpoint) && table[endpoint].contains_key(group)
}

/// Whether an endpoint wants some listed sources of a group only.
pub open spec fn includes<K>(table: TableModel<K>, endpoint: K, group: IpAddr) -> bool {
    interested(table, endpoint, group) && table[endpoint][group].mode is Include
}

/// Whether an endpoint wants all but some listed sources of a group.
pub open spec fn excludes<K>(table: TableModel<K>, endpoint: K, group: IpAddr) -> bool {
    interested(table, endpoint, group) && table[endpoint][group].mode is Exclude
}

/// The endpoints with an interest in each group.
pub open spec fn forwarding_of<K>(table: TableModel<K>) -> Map<IpAddr, Set<K>> {
    Map::new(
        |group: IpAddr| exists|endpoint: K| interested(table, endpoint, group),
        |group: IpAddr| Set::new(|endpoint: K| interested(table, endpoint, group)),
    )
}

/// The sources of a group that some endpoint lists to include.
pub open spec fn included_sources<K>(table: TableModel<K>, group: IpAddr) -> Set<IpAddr> {
    Set::new(
        |source: IpAddr|
            exists|endpoint: K|
                #[trigger] includes(table, endpoint, group)
                    && table[endpoint][group].sources.contains(source),
    )
}

/// Whether some endpoint wants a group with exclusions only.
pub open spec fn any_excludes<K>(table: TableModel<K>, group: IpAddr) -> bool {
    exists|endpoint: K| excludes(table, endpoint, group)
}

/// The sources of a group that every excluding endpoint excludes.
pub open spec fn commonly_excluded<K>(table: TableModel<K>, group: IpAddr) -> Set<IpAddr> {
    Set::new(
        |source: IpAddr|
            forall|endpoint: K| #[trigger]
                excludes(table, endpoint, group) ==> table[endpoint][group].sources.contains(
                    source,
                ),
    )
}

/// What all endpoints together want of a group: if any of them excludes
/// sources, all but those that everybody is content without; else every source
/// that somebody includes.
pub open spec fn aggregate_at<K>(table: TableModel<K>, group: IpAddr) -> Option<InterestModel> {
    if any_excludes(table, group) {
        Some(
            InterestModel::excluding(
                commonly_excluded(table, group).difference(included_sources(table, group)),
            ),
        )
    } else if included_sources(table, group) != Set::<IpAddr>::empty() {
        Some(InterestModel::including(included_sources(table, group)))
    } else {
        None
    }
}

/// What all endpoints together want of every group.
pub open spec fn aggregate_of<K>(table: TableModel<K>) -> GroupsModel {
    Map::new(
        |group: IpAddr| aggregate_at(table, group) is Some,
        |group: IpAddr| aggregate_at(table, group)->Some_0,
    )
}

/// The subscriptions that together serve every endpoint.
pub open spec fn subscriptions_of<K>(table: TableModel<K>) -> Set<UpstreamSubscription> {
    Set::new(
        |subscription: UpstreamSubscription|
            match aggregate_at(table, subscription.group) {
                None => false,
                Some(interest) => match subscription.source {
                    None => interest.mode is Exclude,
                    Some(source) => interest.mode is Include && interest.sources.contains(source),
                },
            },
    )
}

/// Every pair of an endpoint and a group that it has an interest in.
pub open spec fn endpoint_groups<K>(table: TableModel<K>) -> Set<(K, IpAddr)> {
    Set::new(|pair: (K, IpAddr)| interested(table, pair.0, pair.1))
}

/// Every source that an endpoint lists for a group.
pub open spec fn listed_sources<K>(table: TableModel<K>) -> Set<(K, IpAddr, IpAddr)> {
    Set::new(
        |entry: (K, IpAddr, IpAddr)|
            interested(table, entry.0, entry.1) && table[entry.0][entry.1].sources.contains(entry.2),
    )
}

/// The known endpoints under one address.
pub open spec fn endpoints_under<K: MembershipEndpoint>(
    table: TableModel<K>,
    address: IpAddr,
) -> Set<K> {
    Set::new(
        |endpoint: K|
            table.contains_key(endpoint) && endpoint.source_ip_spec() == Some(address),
    )
}

/// Whether `widest` is the largest number of sources that one group lists.
pub open spec fn is_widest_group(groups: GroupsModel, widest: nat) -> bool {
    &&& forall|group: IpAddr| #[trigger]
        groups.contains_key(group) ==> groups[group].sources.len() <= widest
    &&& widest == 0 || exists|group: IpAddr| #[trigger]
        groups.contains_key(group) && groups[group].sources.len() == widest
}

/// The largest number of sources that one group lists.
pub open spec fn widest_group(groups: GroupsModel) -> nat {
    choose|widest: nat| is_widest_group(groups, widest)
}

proof fn lemma_widest_is_unique(groups: GroupsModel, widest: nat)
    requires
        is_widest_group(groups, widest),
    ensures
        widest_group(groups) == widest,
{
    let other = widest_group(groups);
    assert(is_widest_group(groups, other));
    if widest > 0 {
        let group = choose|group: IpAddr| #[trigger]
            groups.contains_key(group) && groups[group].sources.len() == widest;
        assert(groups[group].sources.len() <= other);
    }
    if other > 0 {
        let group = choose|group: IpAddr| #[trigger]
            groups.contains_key(group) && groups[group].sources.len() == other;
        assert(groups[group].sources.len() <= widest);
    }
}

proof fn lemma_widest_is_found(groups: GroupsModel)
    requires
        groups.dom().finite(),
    ensures
        is_widest_group(groups, widest_group(groups)),
    decreases groups.dom().len(),
{
    if forall|group: IpAddr| !groups.contains_key(group) {
        assert(is_widest_group(groups, 0));
    } else {
        let group = choose|group: IpAddr| groups.contains_key(group);
        let rest = groups.remove(group);
        assert(rest.dom() =~= groups.dom().remove(group));
        lemma_widest_is_found(rest);
        let widest = widest_group(rest);
        let count = groups[group].sources.len();
        assert(groups.contains_key(group));
        assert forall|other: IpAddr| #[trigger] groups.contains_key(other) implies other == group
            || groups[other].sources.len() <= widest by {
            if other != group {
                assert(rest.contains_key(other));
            }
        }
        if count >= widest {
            assert(is_widest_group(groups, count));
        } else {
            let other = choose|other: IpAddr| #[trigger]
                rest.contains_key(other) && rest[other].sources.len() == widest;
            assert(groups.contains_key(other) && groups[other].sources.len() == widest);
            assert(is_widest_group(groups, widest));
        }
    }
}

/// Whether the interests of an endpoint are finite, and none of them is in no
/// source at all.
pub open spec fn groups_are_sound(groups: GroupsModel) -> bool {
    &&& groups.dom().finite()
    &&& forall|group: IpAddr| #[trigger]
        groups.contains_key(group) ==> groups[group].sources.finite() && !(
        groups[group].mode is Include && groups[group].sources == Set::<IpAddr>::empty())
}

/// Records leave the interests of an endpoint finite, and none of them in no
/// source at all.
pub proof fn law_records_keep_groups_sound(groups: GroupsModel, records: Seq<RecordModel>)
    requires
        groups_are_sound(groups),
    ensures
        groups_are_sound(records_applied(groups, records)),
    decreases records.len(),
{
    if records.len() > 0 {
        let before = records_applied(groups, records.drop_last());
        let record = records.last();
        law_records_keep_groups_sound(groups, records.drop_last());
        lemma_listed_is_empty(record.sources);
        if before.contains_key(record.group) && record.sources.len() > 0 {
            assert(before[record.group].sources.union(record.sources.to_set()).contains(
                record.sources[0],
            ));
        }
    }
}

/// The error of a value above a limit.
pub open spec fn over_limit(resource: Seq<char>, requested: int, limit: usize) -> Option<
    LimitErrorModel,
> {
    if requested <= limit {
        None
    } else {
        Some(LimitErrorModel { resource, requested, limit: limit as int })
    }
}

/// The first of two errors.
pub open spec fn or_error(
    first: Option<LimitErrorModel>,
    second: Option<LimitErrorModel>,
) -> Option<LimitErrorModel> {
    match first {
        Some(error) => Some(error),
        None => second,
    }
}

/// The first limit that the report itself exceeds.
pub open spec fn report_limit_error(records: Seq<RecordModel>, limits: RelayLimits) -> Option<
    LimitErrorModel,
> {
    or_error(
        over_limit("records per report"@, records.len() as int, limits.max_records_per_report),
        sources_limit_error(records, limits),
    )
}

/// The first record that lists too many sources.
pub open spec fn sources_limit_error(records: Seq<RecordModel>, limits: RelayLimits) -> Option<
    LimitErrorModel,
>
    decreases records.len(),
{
    if records.len() == 0 {
        None
    } else {
        or_error(
            sources_limit_error(records.drop_last(), limits),
            over_limit(
                "sources per group"@,
                records.last().sources.len() as int,
                limits.max_sources_per_group,
            ),
        )
    }
}

/// How many endpoints share the address of one.
pub open spec fn neighbours<K: MembershipEndpoint>(table: TableModel<K>, endpoint: K) -> int {
    match endpoint.source_ip_spec() {
        Some(address) => endpoints_under(table, address).len() as int,
        None => 0,
    }
}

/// The first limit that a table exceeds after a report from an endpoint.
pub open spec fn table_limit_error<K: MembershipEndpoint>(
    table: TableModel<K>,
    endpoint: K,
    limits: RelayLimits,
) -> Option<LimitErrorModel> {
    let groups = groups_of(table, endpoint);
    or_error(
        over_limit("endpoints"@, table.dom().len() as int, limits.max_endpoints),
        or_error(
            over_limit(
                "endpoints per source IP"@,
                neighbours(table, endpoint),
                limits.max_endpoints_per_ip,
            ),
            or_error(
                over_limit(
                    "groups per endpoint"@,
                    groups.dom().len() as int,
                    limits.max_groups_per_endpoint,
                ),
                or_error(
                    over_limit(
                        "sources per endpoint group"@,
                        widest_group(groups) as int,
                        limits.max_sources_per_group,
                    ),
                    or_error(
                        over_limit(
                            "total endpoint groups"@,
                            clamp_len(endpoint_groups(table).len() as int) as int,
                            limits.max_total_endpoint_groups,
                        ),
                        or_error(
                            over_limit(
                                "total sources"@,
                                clamp_len(listed_sources(table).len() as int) as int,
                                limits.max_total_sources,
                            ),
                            over_limit(
                                "upstream subscriptions"@,
                                subscriptions_of(table).len() as int,
                                limits.max_upstream_subscriptions,
                            ),
                        ),
                    ),
                ),
            ),
        ),
    )
}

/// Whether a value has come within a tenth of its limit.
pub open spec fn nears(value: int, limit: usize) -> bool {
    limit != 0 && value >= limit - limit / 10
}

/// Whether a value has come within a tenth of its limit.
pub fn near_limit(value: usize, limit: usize) -> (near: bool)
    ensures
        near == nears(value as int, limit),
{
    limit != 0 && value >= limit - (limit / 10)
}

fn check_limit(resource: &'static str, requested: usize, limit: usize) -> (result: Result<
    (),
    StateLimitError,
>)
    ensures
        match result {
            Ok(()) => over_limit(resource@, requested as int, limit) is None,
            Err(error) => over_limit(resource@, requested as int, limit) == Some(error@),
        },
{
    if requested <= limit {
        Ok(())
    } else {
        Err(StateLimitError { resource, requested, limit })
    }
}

/// The interests of one endpoint.
#[derive(Debug, PartialEq, Eq)]
struct EndpointState {
    groups: OrdMap<IpAddr, GroupInterest>,
}

impl View for EndpointState {
    type V = GroupsModel;

    closed spec fn view(&self) -> GroupsModel {
        self.groups@
    }
}

impl Stored for EndpointState {
    closed spec fn stored_wf(&self) -> bool {
        self.groups.wf()
    }

    fn duplicate(&self) -> (copy: Self) {
        EndpointState { groups: self.groups.duplicate() }
    }

    fn same(&self, other: &Self) -> (same: bool) {
        self.groups.same(&other.groups)
    }
}

proof fn lemma_listed_is_empty(sources: Seq<IpAddr>)
    ensures
        sources.len() == 0 <==> sources.to_set() == Set::<IpAddr>::empty(),
{
    if sources.len() > 0 {
        assert(sources.to_set().contains(sources[0]));
    } else {
        assert(sources.to_set() =~= Set::<IpAddr>::empty());
    }
}

impl EndpointState {
    fn new() -> (state: Self)
        ensures
            state.stored_wf(),
            state@ == Map::<IpAddr, InterestModel>::empty(),
    {
        EndpointState { groups: OrdMap::new() }
    }

    /// Applies one record; tells whether it changed anything.
    fn apply_record(&mut self, record: &MembershipRecord) -> (changed: bool)
        requires
            old(self).stored_wf(),
        ensures
            final(self).stored_wf(),
            final(self)@ == record_applied(old(self)@, record@),
            changed == (final(self)@ != old(self)@),
    {
        let group = record.group;
        proof {
            lemma_listed_is_empty(record.sources@);
        }
        match record.kind {
            MembershipRecordKind::LegacyReport => {
                let none: Vec<IpAddr> = Vec::new();
                proof {
                    lemma_listed_is_empty(none@);
                }
                self.set_group(group, GroupInterest::exclude(&none))
            },
            MembershipRecordKind::LegacyLeave => self.drop_group(group),
            MembershipRecordKind::ModeIsInclude | MembershipRecordKind::ChangeToInclude => {
                if record.sources.len() == 0 {
                    self.drop_group(group)
                } else {
                    self.set_group(group, GroupInterest::including(&record.sources))
                }
            },
            MembershipRecordKind::ModeIsExclude | MembershipRecordKind::ChangeToExclude => {
                self.set_group(group, GroupInterest::exclude(&record.sources))
            },
            MembershipRecordKind::AllowNewSources => {
                if record.sources.len() == 0 {
                    return false;
                }
                let known = match self.groups.get(group) {
                    None => None,
                    Some(interest) => Some(interest.duplicate()),
                };
                match known {
                    None => self.set_group(group, GroupInterest::including(&record.sources)),
                    Some(mut interest) => {
                        match interest.mode {
                            FilterMode::Include => interest.sources.insert_list(&record.sources),
                            FilterMode::Exclude => interest.sources.remove_list(&record.sources),
                        }
                        self.set_group(group, interest)
                    },
                }
            },
            MembershipRecordKind::BlockOldSources => {
                if record.sources.len() == 0 {
                    return false;
                }
                let known = match self.groups.get(group) {
                    None => None,
                    Some(interest) => Some(interest.duplicate()),
                };
                match known {
                    None => false,
                    Some(mut interest) => match interest.mode {
                        FilterMode::Include => {
                            interest.sources.remove_list(&record.sources);
                            if interest.sources.is_empty() {
                                self.drop_group(group)
                            } else {
                                self.set_group(group, interest)
                            }
                        },
                        FilterMode::Exclude => {
                            interest.sources.insert_list(&record.sources);
                            self.set_group(group, interest)
                        },
                    },
                }
            },
        }
    }

    fn set_group(&mut self, group: IpAddr, interest: GroupInterest) -> (changed: bool)
        requires
            old(self).stored_wf(),
            interest.stored_wf(),
        ensures
            final(self).stored_wf(),
            final(self)@ == old(self)@.insert(group, interest@),
            changed == (final(self)@ != old(self)@),
    {
        let changed = match self.groups.get(group) {
            Some(known) => !known.same(&interest),
            None => true,
        };
        self.groups.insert(group, interest);
        proof {
            if !changed {
                assert(self@ =~= old(self)@);
            } else {
                assert(self@.contains_key(group) && self@[group] == interest@);
            }
        }
        changed
    }

    fn drop_group(&mut self, group: IpAddr) -> (changed: bool)
        requires
            old(self).stored_wf(),
        ensures
            final(self).stored_wf(),
            final(self)@ == old(self)@.remove(group),
            changed == (final(self)@ != old(self)@),
    {
        let found = self.groups.remove(group);
        let changed: bool = found.is_some();
        proof {
            if !changed {
                assert(self@ =~= old(self)@);
            } else {
                assert(old(self)@.contains_key(group) && !self@.contains_key(group));
            }
        }
        changed
    }

    /// Applies records in order; counts those that changed anything.
    fn apply_records(&mut self, records: &Vec<MembershipRecord>) -> (applied: usize)
        requires
            old(self).stored_wf(),
        ensures
            final(self).stored_wf(),
            final(self)@ == records_applied(old(self)@, record_models(records@)),
            applied == effective_records(old(self)@, record_models(records@)),
            applied <= records@.len(),
    {
        let ghost models = record_models(records@);
        let mut applied: usize = 0;
        let mut i: usize = 0;
        proof {
            assert(models.take(0) =~= Seq::empty());
        }
        while i < records.len()
            invariant
                i <= records@.len(),
                applied <= i,
                models == record_models(records@),
                self.stored_wf(),
                self@ == records_applied(old(self)@, models.take(i as int)),
                applied == effective_records(old(self)@, models.take(i as int)),
            decreases records@.len() - i,
        {
            proof {
                assert(models.take(i + 1).drop_last() =~= models.take(i as int));
                assert(models.take(i + 1).last() == records@[i as int]@);
            }
            if self.apply_record(&records[i]) {
                applied += 1;
            }
            i += 1;
        }
        proof {
            assert(models.take(models.len() as int) =~= models);
        }
        applied
    }

    /// The largest number of sources that one group lists.
    fn widest(&self) -> (widest: usize)
        requires
            self.stored_wf(),
        ensures
            widest == widest_group(self@),
    {
        let mut widest: usize = 0;
        let mut i: usize = 0;
        proof {
            self.groups.lemma_facts();
        }
        while i < self.groups.len()
            invariant
                self.stored_wf(),
                ascending(self.groups.keys_seq()),
                i <= self.groups.keys_seq().len(),
                forall|j: int|
                    0 <= j < i ==> self@[#[trigger] self.groups.keys_seq()[j]].sources.len()
                        <= widest,
                widest == 0 || exists|group: IpAddr| #[trigger]
                    self@.contains_key(group) && self@[group].sources.len() == widest,
            decreases self.groups.keys_seq().len() - i,
        {
            let ghost group = self.groups.keys_seq()[i as int];
            proof {
                self.groups.lemma_facts();
                assert(self@.contains_key(group));
            }
            let count: usize = self.groups.value_at(i).sources.len();
            if count > widest {
                widest = count;
            }
            i += 1;
        }
        proof {
            self.groups.lemma_facts();
            assert(is_widest_group(self@, widest as nat)) by {
                assert forall|group: IpAddr| #[trigger]
                    self@.contains_key(group) implies self@[group].sources.len() <= widest by {
                    let j = choose|j: int|
                        0 <= j < self.groups.keys_seq().len() && self.groups.keys_seq()[j]
                            == group;
                    assert(self@[self.groups.keys_seq()[j]].sources.len() <= widest);
                }
            }
            lemma_widest_is_unique(self@, widest as nat);
        }
        widest
    }
}

/// What endpoints together say of one group, as far as they have been read.
#[derive(Debug, PartialEq, Eq)]
struct GroupSummary {
    include_sources: OrdSet<IpAddr>,
    exclude_sources: Option<OrdSet<IpAddr>>,
}

/// A [`GroupSummary`] with its sources as sets.
#[verifier::ext_equal]
struct SummaryModel {
    included: Set<IpAddr>,
    excluded: Option<Set<IpAddr>>,
}

impl View for GroupSummary {
    type V = SummaryModel;

    closed spec fn view(&self) -> SummaryModel {
        SummaryModel {
            included: self.include_sources@,
            excluded: match self.exclude_sources {
                Some(sources) => Some(sources@),
                None => None,
            },
        }
    }
}

impl Stored for GroupSummary {
    closed spec fn stored_wf(&self) -> bool {
        self.include_sources.wf() && match self.exclude_sources {
            Some(sources) => sources.wf(),
            None => true,
        }
    }

    fn duplicate(&self) -> (copy: Self) {
        GroupSummary {
            include_sources: self.include_sources.duplicate(),
            exclude_sources: match &self.exclude_sources {
                Some(sources) => Some(sources.duplicate()),
                None => None,
            },
        }
    }

    fn same(&self, other: &Self) -> (same: bool) {
        self.include_sources.same(&other.include_sources) && match (
            &self.exclude_sources,
            &other.exclude_sources,
        ) {
            (Some(a), Some(b)) => a.same(b),
            (None, None) => true,
            _ => false,
        }
    }
}

/// A summary that no interest has gone into.
spec fn empty_summary() -> SummaryModel {
    SummaryModel { included: Set::empty(), excluded: None }
}

/// A summary with one more interest.
spec fn summary_applied(summary: SummaryModel, interest: InterestModel) -> SummaryModel {
    match interest.mode {
        FilterMode::Include => SummaryModel {
            included: summary.included.union(interest.sources),
            excluded: summary.excluded,
        },
        FilterMode::Exclude => SummaryModel {
            included: summary.included,
            excluded: Some(
                match summary.excluded {
                    Some(sources) => sources.intersect(interest.sources),
                    None => interest.sources,
                },
            ),
        },
    }
}

/// What the endpoints of a table together say of a group.
spec fn summary_at<K>(table: TableModel<K>, group: IpAddr) -> SummaryModel {
    SummaryModel {
        included: included_sources(table, group),
        excluded: if any_excludes(table, group) {
            Some(commonly_excluded(table, group))
        } else {
            None
        },
    }
}

spec fn summaries_of<K>(table: TableModel<K>) -> Map<IpAddr, SummaryModel> {
    Map::new(
        |group: IpAddr| exists|endpoint: K| interested(table, endpoint, group),
        |group: IpAddr| summary_at(table, group),
    )
}

impl GroupSummary {
    fn new() -> (summary: Self)
        ensures
            summary.stored_wf(),
            summary@ == empty_summary(),
    {
        GroupSummary { include_sources: OrdSet::new(), exclude_sources: None }
    }

    fn apply(&mut self, interest: &GroupInterest)
        requires
            old(self).stored_wf(),
            interest.stored_wf(),
        ensures
            final(self).stored_wf(),
            final(self)@ == summary_applied(old(self)@, interest@),
    {
        match interest.mode {
            FilterMode::Include => self.include_sources.insert_all(&interest.sources),
            FilterMode::Exclude => {
                let narrowed = match &self.exclude_sources {
                    Some(sources) => {
                        let mut narrowed = sources.duplicate();
                        narrowed.retain_all(&interest.sources);
                        narrowed
                    },
                    None => interest.sources.duplicate(),
                };
                self.exclude_sources = Some(narrowed);
            },
        }
    }

    fn to_interest(&self) -> (interest: Option<GroupInterest>)
        requires
            self.stored_wf(),
        ensures
            match interest {
                Some(interest) => interest.stored_wf() && match self@.excluded {
                    Some(excluded) => interest@ == InterestModel::excluding(
                        excluded.difference(self@.included),
                    ),
                    None => self@.included != Set::<IpAddr>::empty() && interest@
                        == InterestModel::including(self@.included),
                },
                None => self@.excluded is None && self@.included == Set::<IpAddr>::empty(),
            },
    {
        match &self.exclude_sources {
            Some(sources) => {
                let mut remaining = sources.duplicate();
                remaining.remove_all(&self.include_sources);
                Some(GroupInterest { mode: FilterMode::Exclude, sources: remaining })
            },
            None => if self.include_sources.is_empty() {
                None
            } else {
                Some(
                    GroupInterest {
                        mode: FilterMode::Include,
                        sources: self.include_sources.duplicate(),
                    },
                )
            },
        }
    }
}

/// The table with one more interest.
spec fn grown<K>(
    table: TableModel<K>,
    endpoint: K,
    group: IpAddr,
    interest: InterestModel,
) -> TableModel<K> {
    table.insert(endpoint, groups_of(table, endpoint).insert(group, interest))
}

proof fn lemma_grown<K>(table: TableModel<K>, endpoint: K, group: IpAddr, interest: InterestModel)
    requires
        !interested(table, endpoint, group),
    ensures
        ({
            let t = grown(table, endpoint, group, interest);
            &&& forall|e: K, g: IpAddr| #[trigger]
                interested(t, e, g) <==> interested(table, e, g) || (e == endpoint && g == group)
            &&& forall|e: K, g: IpAddr| #[trigger]
                interested(table, e, g) ==> t[e][g] == table[e][g] && !(e == endpoint && g == group)
            &&& t[endpoint][group] == interest
        }),
{
}

proof fn lemma_forwarding_grown<K>(
    table: TableModel<K>,
    endpoint: K,
    group: IpAddr,
    interest: InterestModel,
)
    requires
        !interested(table, endpoint, group),
    ensures
        forwarding_of(grown(table, endpoint, group, interest)) == forwarding_of(table).insert(
            group,
            (if forwarding_of(table).contains_key(group) {
                forwarding_of(table)[group]
            } else {
                Set::<K>::empty()
            }).insert(endpoint),
        ),
{
    let t = grown(table, endpoint, group, interest);
    lemma_grown(table, endpoint, group, interest);
    let before = forwarding_of(table);
    let after = forwarding_of(t);
    let base = if before.contains_key(group) {
        before[group]
    } else {
        Set::<K>::empty()
    };
    let target = before.insert(group, base.insert(endpoint));
    assert(interested(t, endpoint, group));
    assert forall|g: IpAddr| #[trigger] after.contains_key(g) <==> target.contains_key(g) by {
        if after.contains_key(g) && g != group {
            let e = choose|e: K| interested(t, e, g);
            assert(interested(table, e, g));
        }
        if before.contains_key(g) {
            let e = choose|e: K| interested(table, e, g);
            assert(interested(t, e, g));
        }
    }
    assert forall|g: IpAddr| #[trigger] after.contains_key(g) implies after[g] == target[g] by {
        if g == group {
            assert forall|e: K| after[g].contains(e) <==> base.insert(endpoint).contains(e) by {
                assert(interested(t, e, g) <==> interested(table, e, g) || e == endpoint);
                if interested(table, e, g) {
                    assert(before.contains_key(g));
                }
            }
            assert(after[g] =~= base.insert(endpoint));
        } else {
            assert(before.contains_key(g));
            assert forall|e: K| after[g].contains(e) <==> before[g].contains(e) by {
                assert(interested(t, e, g) <==> interested(table, e, g));
            }
            assert(after[g] =~= before[g]);
        }
    }
    assert(after =~= target);
}

proof fn lemma_summary_grown<K>(
    table: TableModel<K>,
    endpoint: K,
    group: IpAddr,
    interest: InterestModel,
    g: IpAddr,
)
    requires
        !interested(table, endpoint, group),
    ensures
        summary_at(grown(table, endpoint, group, interest), g) == if g == group {
            summary_applied(summary_at(table, group), interest)
        } else {
            summary_at(table, g)
        },
{
    let t = grown(table, endpoint, group, interest);
    lemma_grown(table, endpoint, group, interest);
    let before = summary_at(table, g);
    let after = summary_at(t, g);
    let target = if g == group {
        summary_applied(before, interest)
    } else {
        before
    };
    assert(interested(t, endpoint, group));
    assert forall|e: K| #[trigger] includes(t, e, g) <==> includes(table, e, g) || (e == endpoint
        && g == group && interest.mode is Include) by {
        assert(interested(t, e, g) <==> interested(table, e, g) || (e == endpoint && g == group));
    }
    assert forall|e: K| #[trigger] excludes(t, e, g) <==> excludes(table, e, g) || (e == endpoint
        && g == group && interest.mode is Exclude) by {
        assert(interested(t, e, g) <==> interested(table, e, g) || (e == endpoint && g == group));
    }
    assert forall|source: IpAddr| after.included.contains(source) <==> target.included.contains(
        source,
    ) by {
        if after.included.contains(source) {
            let e = choose|e: K| #[trigger]
                includes(t, e, g) && t[e][g].sources.contains(source);
            if includes(table, e, g) {
                assert(interested(table, e, g));
                assert(table[e][g].sources.contains(source));
                assert(before.included.contains(source));
            }
        }
        if before.included.contains(source) {
            let e = choose|e: K| #[trigger]
                includes(table, e, g) && table[e][g].sources.contains(source);
            assert(interested(table, e, g));
            assert(includes(t, e, g) && t[e][g].sources.contains(source));
        }
        if g == group && interest.mode is Include && interest.sources.contains(source) {
            assert(includes(t, endpoint, g) && t[endpoint][g].sources.contains(source));
        }
    }
    assert(after.included =~= target.included);
    if any_excludes(table, g) {
        let e = choose|e: K| excludes(table, e, g);
        assert(excludes(t, e, g));
    }
    if any_excludes(t, g) {
        let e = choose|e: K| excludes(t, e, g);
        assert(excludes(table, e, g) || (e == endpoint && g == group && interest.mode is Exclude));
    }
    if g == group && interest.mode is Exclude {
        assert(excludes(t, endpoint, g));
    }
    if any_excludes(t, g) {
        let wide = commonly_excluded(table, g);
        let narrow = commonly_excluded(t, g);
        let limit = target.excluded->Some_0;
        assert forall|source: IpAddr| narrow.contains(source) <==> limit.contains(source) by {
            if narrow.contains(source) {
                assert forall|e: K| #[trigger] excludes(table, e, g) implies table[e][g].sources.contains(
                    source,
                ) by {
                    assert(interested(table, e, g));
                    assert(excludes(t, e, g));
                }
                assert(wide.contains(source));
                if g == group && interest.mode is Exclude {
                    assert(excludes(t, endpoint, g));
                    assert(interest.sources.contains(source));
                }
            }
            if limit.contains(source) {
                assert forall|e: K| #[trigger] excludes(t, e, g) implies t[e][g].sources.contains(
                    source,
                ) by {
                    if excludes(table, e, g) {
                        assert(interested(table, e, g));
                        assert(any_excludes(table, g));
                        assert(wide.contains(source));
                    }
                }
            }
        }
        assert(narrow =~= limit);
    }
    assert(after.excluded == target.excluded);
}

proof fn lemma_summaries_grown<K>(
    table: TableModel<K>,
    endpoint: K,
    group: IpAddr,
    interest: InterestModel,
)
    requires
        !interested(table, endpoint, group),
    ensures
        summaries_of(grown(table, endpoint, group, interest)) == summaries_of(table).insert(
            group,
            summary_applied(
                if summaries_of(table).contains_key(group) {
                    summaries_of(table)[group]
                } else {
                    empty_summary()
                },
                interest,
            ),
        ),
{
    let t = grown(table, endpoint, group, interest);
    lemma_grown(table, endpoint, group, interest);
    let before = summaries_of(table);
    let after = summaries_of(t);
    let base = if before.contains_key(group) {
        before[group]
    } else {
        empty_summary()
    };
    if !before.contains_key(group) {
        lemma_no_interest_no_summary(table, group);
    }
    let target = before.insert(group, summary_applied(base, interest));
    assert(interested(t, endpoint, group));
    assert forall|g: IpAddr| #[trigger] after.contains_key(g) <==> target.contains_key(g) by {
        if after.contains_key(g) && g != group {
            let e = choose|e: K| interested(t, e, g);
            assert(interested(table, e, g));
        }
        if before.contains_key(g) {
            let e = choose|e: K| interested(table, e, g);
            assert(interested(t, e, g));
        }
    }
    assert forall|g: IpAddr| #[trigger] after.contains_key(g) implies after[g] == target[g] by {
        lemma_summary_grown(table, endpoint, group, interest, g);
    }
    assert(after =~= target);
}

proof fn lemma_no_interest_no_summary<K>(table: TableModel<K>, group: IpAddr)
    requires
        !exists|endpoint: K| interested(table, endpoint, group),
    ensures
        summary_at(table, group) == empty_summary(),
        aggregate_at(table, group) is None,
{
    assert(included_sources(table, group) =~= Set::<IpAddr>::empty());
    assert(!any_excludes(table, group));
}

proof fn lemma_counts_grown<K>(
    table: TableModel<K>,
    endpoint: K,
    group: IpAddr,
    interest: InterestModel,
)
    requires
        !interested(table, endpoint, group),
        endpoint_groups(table).finite(),
        listed_sources(table).finite(),
        interest.sources.finite(),
    ensures
        endpoint_groups(grown(table, endpoint, group, interest)).finite(),
        endpoint_groups(grown(table, endpoint, group, interest)).len() == endpoint_groups(
            table,
        ).len() + 1,
        listed_sources(grown(table, endpoint, group, interest)).finite(),
        listed_sources(grown(table, endpoint, group, interest)).len() == listed_sources(
            table,
        ).len() + interest.sources.len(),
{
    let t = grown(table, endpoint, group, interest);
    lemma_grown(table, endpoint, group, interest);
    assert(endpoint_groups(t) =~= endpoint_groups(table).insert((endpoint, group))) by {
        assert forall|pair: (K, IpAddr)| endpoint_groups(t).contains(pair) <==> #[trigger]
            endpoint_groups(table).insert((endpoint, group)).contains(pair) by {
            assert(interested(t, pair.0, pair.1) <==> interested(table, pair.0, pair.1) || (pair.0 == endpoint
                && pair.1 == group));
        }
    }
    assert(!endpoint_groups(table).contains((endpoint, group)));
    let tag = |source: IpAddr| (endpoint, group, source);
    let fresh = interest.sources.map(tag);
    assert forall|entry: (K, IpAddr, IpAddr)| fresh.contains(entry) <==> (entry.0 == endpoint
        && entry.1 == group && interest.sources.contains(entry.2)) by {
        if entry.0 == endpoint && entry.1 == group && interest.sources.contains(entry.2) {
            assert(tag(entry.2) == entry);
        }
    }
    assert(listed_sources(t) =~= listed_sources(table).union(fresh)) by {
        assert forall|entry: (K, IpAddr, IpAddr)|
            listed_sources(t).contains(entry) <==> #[trigger] listed_sources(table).union(
                fresh,
            ).contains(entry) by {
            assert(interested(t, entry.0, entry.1) <==> interested(table, entry.0, entry.1) || (entry.0
                == endpoint && entry.1 == group));
        }
    }
    assert(listed_sources(table).disjoint(fresh)) by {
        assert forall|entry: (K, IpAddr, IpAddr)|
            listed_sources(table).contains(entry) implies !fresh.contains(entry) by {
            assert(interested(table, entry.0, entry.1));
        }
    }
    interest.sources.lemma_map_finite(tag);
    assert forall|a: IpAddr, b: IpAddr|
        interest.sources.contains(a) && interest.sources.contains(b) && a != b implies #[trigger] tag(
        a,
    ) != #[trigger] tag(b) by {}
    vstd::set_lib::lemma_map_size(interest.sources, fresh, tag);
    vstd::set_lib::lemma_set_disjoint_lens(listed_sources(table), fresh);
}

/// The subscriptions that one interest in a group needs.
spec fn interest_subscriptions(group: IpAddr, interest: InterestModel) -> Set<
    UpstreamSubscription,
> {
    Set::new(
        |subscription: UpstreamSubscription|
            subscription.group == group && match subscription.source {
                None => interest.mode is Exclude,
                Some(source) => interest.mode is Include && interest.sources.contains(source),
            },
    )
}

fn add_subscriptions(
    subscriptions: &mut OrdSet<UpstreamSubscription>,
    group: IpAddr,
    interest: &GroupInterest,
)
    requires
        old(subscriptions).wf(),
        interest.stored_wf(),
    ensures
        final(subscriptions).wf(),
        final(subscriptions)@ == old(subscriptions)@.union(
            interest_subscriptions(group, interest@),
        ),
{
    match interest.mode {
        FilterMode::Exclude => {
            subscriptions.insert(UpstreamSubscription::any_source(group));
            proof {
                assert(subscriptions@ =~= old(subscriptions)@.union(
                    interest_subscriptions(group, interest@),
                ));
            }
        },
        FilterMode::Include => {
            let mut i: usize = 0;
            proof {
                interest.sources.lemma_facts();
            }
            while i < interest.sources.len()
                invariant
                    i <= interest.sources.seq().len(),
                    interest.stored_wf(),
                    subscriptions.wf(),
                    forall|u: UpstreamSubscription| #[trigger]
                        subscriptions@.contains(u) <==> old(subscriptions)@.contains(u) || (
                        u.group == group && u.source is Some && interest.sources.seq().take(
                            i as int,
                        ).contains(u.source->Some_0)),
                decreases interest.sources.seq().len() - i,
            {
                let source = interest.sources.at(i);
                let ghost before = subscriptions@;
                subscriptions.insert(UpstreamSubscription::ssm(group, source));
                proof {
                    let seq = interest.sources.seq();
                    let longer = seq.take(i + 1);
                    let shorter = seq.take(i as int);
                    assert(longer =~= shorter.push(source));
                    assert forall|u: UpstreamSubscription| #[trigger]
                        subscriptions@.contains(u) <==> old(subscriptions)@.contains(u) || (
                        u.group == group && u.source is Some && longer.contains(
                            u.source->Some_0,
                        )) by {
                        assert(before.contains(u) <==> old(subscriptions)@.contains(u) || (u.group
                            == group && u.source is Some && shorter.contains(
                            u.source->Some_0,
                        )));
                        if u.source is Some {
                            let x = u.source->Some_0;
                            if longer.contains(x) {
                                let j = choose|j: int|
                                    0 <= j < longer.len() && longer[j] == x;
                                if j < i {
                                    assert(shorter[j] == x);
                                }
                            }
                            if shorter.contains(x) {
                                let j = choose|j: int|
                                    0 <= j < shorter.len() && shorter[j] == x;
                                assert(longer[j] == x);
                            }
                            if x == source {
                                assert(longer[i as int] == x);
                            }
                        }
                    }
                }
                i += 1;
            }
            proof {
                interest.sources.lemma_facts();
                let seq = interest.sources.seq();
                assert(seq.take(seq.len() as int) =~= seq);
                assert(subscriptions@ =~= old(subscriptions)@.union(
                    interest_subscriptions(group, interest@),
                ));
            }
        },
    }
}

fn add_count(total: usize, more: usize, Ghost(before): Ghost<int>) -> (sum: usize)
    requires
        before >= 0,
        total == clamp_len(before),
    ensures
        sum == clamp_len(before + more),
{
    if more > usize::MAX - total {
        usize::MAX
    } else {
        total + more
    }
}

/// Reception state of all endpoints, with what follows from it kept at hand.
#[derive(Debug, PartialEq, Eq)]
pub struct MembershipTable<K> {
    endpoints: OrdMap<K, EndpointState>,
    forwarding: OrdMap<IpAddr, OrdSet<K>>,
    aggregate: OrdMap<IpAddr, GroupInterest>,
    subscriptions: OrdSet<UpstreamSubscription>,
    total_endpoint_groups: usize,
    total_sources: usize,
}

/// Relay state keyed by a gateway's UDP endpoint.
pub type RelayState = MembershipTable<SocketAddr>;

/// Whether every endpoint of the table has an interest.
pub open spec fn no_idle_endpoints<K>(table: TableModel<K>) -> bool {
    forall|endpoint: K| #[trigger]
        table.contains_key(endpoint) ==> table[endpoint] != Map::<IpAddr, InterestModel>::empty()
}

/// Whether the interests of every endpoint are finite, and none of them is in no
/// source at all.
pub open spec fn interests_are_sound<K>(table: TableModel<K>) -> bool {
    forall|endpoint: K| groups_are_sound(#[trigger] groups_of(table, endpoint))
}

impl<K: MembershipEndpoint> View for MembershipTable<K> {
    type V = TableModel<K>;

    closed spec fn view(&self) -> TableModel<K> {
        self.endpoints@
    }
}

impl<K: MembershipEndpoint> MembershipTable<K> {
    /// Whether everything kept at hand says what the interests say.
    pub closed spec fn wf(&self) -> bool {
        &&& self.endpoints.wf()
        &&& no_idle_endpoints(self@)
        &&& interests_are_sound(self@)
        &&& self.forwarding.wf()
        &&& self.forwarding@ == forwarding_of(self@)
        &&& self.aggregate.wf()
        &&& self.aggregate@ == aggregate_of(self@)
        &&& self.subscriptions.wf()
        &&& self.subscriptions@ == subscriptions_of(self@)
        &&& self.total_endpoint_groups == clamp_len(endpoint_groups(self@).len() as int)
        &&& self.total_sources == clamp_len(listed_sources(self@).len() as int)
    }

    /// A well-formed table is finite and keeps neither an endpoint without
    /// interests nor an interest in no source at all.
    pub proof fn lemma_facts(&self)
        requires
            self.wf(),
        ensures
            self@.dom().finite(),
            no_idle_endpoints(self@),
            interests_are_sound(self@),
            forall|endpoint: K|
                is_widest_group(
                    #[trigger] groups_of(self@, endpoint),
                    widest_group(groups_of(self@, endpoint)),
                ),
            subscriptions_of(self@).finite(),
            aggregate_of(self@).dom().finite(),
            forall|group: IpAddr| #[trigger]
                aggregate_of(self@).contains_key(group) ==> aggregate_of(
                    self@,
                )[group].sources.finite(),
    {
        self.endpoints.lemma_facts();
        self.subscriptions.lemma_facts();
        self.aggregate.lemma_facts();
        assert forall|group: IpAddr| #[trigger]
            aggregate_of(self@).contains_key(group) implies aggregate_of(
            self@,
        )[group].sources.finite() by {
            let i = choose|i: int|
                0 <= i < self.aggregate.keys_seq().len() && self.aggregate.keys_seq()[i] == group;
            let interest = self.aggregate.values_seq()[i];
            assert(interest.stored_wf());
            interest.sources.lemma_facts();
        }
        assert forall|endpoint: K|
            is_widest_group(
                #[trigger] groups_of(self@, endpoint),
                widest_group(groups_of(self@, endpoint)),
            ) by {
            lemma_widest_is_found(groups_of(self@, endpoint));
        }
    }

    /// A table without endpoints.
    pub fn new() -> (table: Self)
        ensures
            table.wf(),
            table@ == Map::<K, GroupsModel>::empty(),
    {
        let mut table = MembershipTable {
            endpoints: OrdMap::new(),
            forwarding: OrdMap::new(),
            aggregate: OrdMap::new(),
            subscriptions: OrdSet::new(),
            total_endpoint_groups: 0,
            total_sources: 0,
        };
        table.rebuild_indexes();
        table
    }

    /// What a report would do: how many of its records change anything, and
    /// whether they change the table in the end.
    pub fn preview_report(&self, endpoint: K, report: &MembershipReport) -> (preview: (usize, bool))
        requires
            self.wf(),
        ensures
            preview.0 == effective_records(groups_of(self@, endpoint), report@.records),
            preview.1 == (report_applied(self@, endpoint, report@.records) != self@),
    {
        proof {
            lemma_report_changes(self@, endpoint, report@.records);
        }
        let mut candidate = self.copy_groups(endpoint);
        let applied: usize = candidate.apply_records(&report.records);
        let changed: bool = match self.endpoints.get(endpoint) {
            Some(current) => !current.same(&candidate),
            None => !candidate.groups.is_empty(),
        };
        (applied, changed)
    }

    fn copy_groups(&self, endpoint: K) -> (state: EndpointState)
        requires
            self.endpoints.wf(),
        ensures
            state.stored_wf(),
            state@ == groups_of(self@, endpoint),
    {
        match self.endpoints.get(endpoint) {
            Some(current) => current.duplicate(),
            None => EndpointState::new(),
        }
    }

    /// Puts the interests of one endpoint in place and brings everything kept
    /// at hand up to date.
    fn put_groups(&mut self, endpoint: K, state: EndpointState)
        requires
            old(self).endpoints.wf(),
            no_idle_endpoints(old(self)@),
            interests_are_sound(old(self)@),
            state.stored_wf(),
            groups_are_sound(state@),
        ensures
            final(self).wf(),
            final(self)@ == with_groups(old(self)@, endpoint, state@),
    {
        let ghost groups = state@;
        if state.groups.is_empty() {
            self.endpoints.remove(endpoint);
        } else {
            self.endpoints.insert(endpoint, state);
        }
        proof {
            assert forall|other: K| groups_are_sound(#[trigger] groups_of(self@, other)) by {
                if other == endpoint {
                    assert(groups_of(self@, other) =~= groups);
                } else {
                    assert(groups_of(self@, other) == groups_of(old(self)@, other));
                }
            }
        }
        self.rebuild_indexes();
    }

    /// Applies a report; counts the records that changed anything.
    pub fn apply_report(&mut self, endpoint: K, report: &MembershipReport) -> (applied: usize)
        requires
            old(self).wf(),
        ensures
            final(self).wf(),
            final(self)@ == report_applied(old(self)@, endpoint, report@.records),
            applied == effective_records(groups_of(old(self)@, endpoint), report@.records),
    {
        if report.records.len() == 0 {
            proof {
                assert(report@.records.len() == 0);
                lemma_report_changes(self@, endpoint, report@.records);
            }
            return 0;
        }
        let mut state = self.copy_groups(endpoint);
        let applied: usize = state.apply_records(&report.records);
        proof {
            law_records_keep_groups_sound(groups_of(self@, endpoint), report@.records);
        }
        self.put_groups(endpoint, state);
        applied
    }

    /// Applies a report unless that would exceed a limit; a refused report
    /// leaves the table as it was.
    pub fn apply_report_limited(
        &mut self,
        endpoint: K,
        report: &MembershipReport,
        limits: &RelayLimits,
    ) -> (result: Result<usize, StateLimitError>)
        requires
            old(self).wf(),
        ensures
            final(self).wf(),
            ({
                let after = report_applied(old(self)@, endpoint, report@.records);
                let refusal = or_error(
                    report_limit_error(report@.records, *limits),
                    table_limit_error(after, endpoint, *limits),
                );
                match result {
                    Ok(applied) => {
                        &&& refusal is None
                        &&& final(self)@ == after
                        &&& applied == effective_records(
                            groups_of(old(self)@, endpoint),
                            report@.records,
                        )
                    },
                    Err(error) => {
                        &&& refusal == Some(error@)
                        &&& final(self)@ == old(self)@
                    },
                }
            }),
    {
        if let Err(error) = check_report(report, limits) {
            return Err(error);
        }
        let previous = self.copy_groups(endpoint);
        let applied: usize = self.apply_report(endpoint, report);
        if let Err(error) = self.check_limits(endpoint, limits) {
            let ghost after = self@;
            self.put_groups(endpoint, previous);
            proof {
                old(self).lemma_facts();
                assert(self@ =~= old(self)@);
            }
            return Err(error);
        }
        Ok(applied)
    }

    fn check_limits(&self, endpoint: K, limits: &RelayLimits) -> (result: Result<
        (),
        StateLimitError,
    >)
        requires
            self.wf(),
        ensures
            match result {
                Ok(()) => table_limit_error(self@, endpoint, *limits) is None,
                Err(error) => table_limit_error(self@, endpoint, *limits) == Some(error@),
            },
    {
        let neighbour_count: usize = match endpoint.source_ip() {
            Some(address) => self.endpoint_count_for_ip(address),
            None => 0,
        };
        let (group_count, widest): (usize, usize) = match self.endpoints.get(endpoint) {
            Some(state) => (state.groups.len(), state.widest()),
            None => {
                proof {
                    assert(is_widest_group(groups_of(self@, endpoint), 0));
                    lemma_widest_is_unique(groups_of(self@, endpoint), 0);
                }
                (0, 0)
            },
        };
        if let Err(error) = check_limit("endpoints", self.endpoints.len(), limits.max_endpoints) {
            return Err(error);
        }
        if let Err(error) = check_limit(
            "endpoints per source IP",
            neighbour_count,
            limits.max_endpoints_per_ip,
        ) {
            return Err(error);
        }
        if let Err(error) = check_limit(
            "groups per endpoint",
            group_count,
            limits.max_groups_per_endpoint,
        ) {
            return Err(error);
        }
        if let Err(error) = check_limit(
            "sources per endpoint group",
            widest,
            limits.max_sources_per_group,
        ) {
            return Err(error);
        }
        if let Err(error) = check_limit(
            "total endpoint groups",
            self.total_endpoint_groups,
            limits.max_total_endpoint_groups,
        ) {
            return Err(error);
        }
        if let Err(error) = check_limit(
            "total sources",
            self.total_sources,
            limits.max_total_sources,
        ) {
            return Err(error);
        }
        check_limit(
            "upstream subscriptions",
            self.subscriptions.len(),
            limits.max_upstream_subscriptions,
        )
    }

    /// Forgets an endpoint; tells whether it was known.
    pub fn remove_endpoint(&mut self, endpoint: K) -> (removed: bool)
        requires
            old(self).wf(),
        ensures
            final(self).wf(),
            final(self)@ == old(self)@.remove(endpoint),
            removed == old(self)@.contains_key(endpoint),
    {
        let removed: bool = self.endpoints.remove(endpoint).is_some();
        if removed {
            proof {
                assert forall|other: K| groups_are_sound(#[trigger] groups_of(self@, other)) by {
                    assert(groups_are_sound(groups_of(old(self)@, other)));
                }
            }
            self.rebuild_indexes();
        } else {
            proof {
                assert(self@ =~= old(self)@);
            }
        }
        removed
    }

    pub fn contains_endpoint(&self, endpoint: K) -> (known: bool)
        requires
            self.wf(),
        ensures
            known == self@.contains_key(endpoint),
    {
        self.endpoints.contains_key(endpoint)
    }

    pub fn endpoint_count(&self) -> (count: usize)
        requires
            self.wf(),
        ensures
            count == self@.dom().len(),
    {
        self.endpoints.len()
    }

    /// How many endpoints are known under one address.
    pub fn endpoint_count_for_ip(&self, address: IpAddr) -> (count: usize)
        requires
            self.wf(),
        ensures
            count == endpoints_under(self@, address).len(),
            count <= self@.dom().len(),
    {
        let mut count: usize = 0;
        let mut i: usize = 0;
        let ghost mut seen: Set<K> = Set::empty();
        let ghost keys = self.endpoints.keys_seq();
        proof {
            self.endpoints.lemma_facts();
        }
        while i < self.endpoints.len()
            invariant
                self.wf(),
                keys == self.endpoints.keys_seq(),
                ascending(keys),
                i <= keys.len(),
                count <= i,
                seen.finite(),
                count == seen.len(),
                forall|e: K| #[trigger]
                    seen.contains(e) <==> (keys.take(i as int).contains(e)
                        && e.source_ip_spec() == Some(address)),
            decreases keys.len() - i,
        {
            let endpoint = self.endpoints.key_at(i);
            let ghost before = seen;
            let matches: bool = match endpoint.source_ip() {
                Some(ip) => ip == address,
                None => false,
            };
            proof {
                self.endpoints.lemma_facts();
                let longer = keys.take(i + 1);
                let shorter = keys.take(i as int);
                assert(!before.contains(endpoint)) by {
                    if before.contains(endpoint) {
                        let j = choose|j: int| 0 <= j < shorter.len() && shorter[j] == endpoint;
                        assert(keys[j] == keys[i as int]);
                        assert(keys[j].rank() < keys[i as int].rank());
                    }
                }
                if matches {
                    seen = before.insert(endpoint);
                }
                assert forall|e: K| #[trigger] seen.contains(e) <==> (longer.contains(e)
                    && e.source_ip_spec() == Some(address)) by {
                    assert(before.contains(e) <==> (shorter.contains(e) && e.source_ip_spec()
                        == Some(address)));
                    if shorter.contains(e) {
                        let j = choose|j: int| 0 <= j < shorter.len() && shorter[j] == e;
                        assert(longer[j] == e);
                    }
                    if longer.contains(e) {
                        let j = choose|j: int| 0 <= j < longer.len() && longer[j] == e;
                        if j < i {
                            assert(shorter[j] == e);
                        }
                    }
                    if e == endpoint {
                        assert(longer[i as int] == e);
                    }
                }
            }
            if matches {
                count += 1;
            }
            i += 1;
        }
        proof {
            self.endpoints.lemma_facts();
            assert(keys.take(keys.len() as int) =~= keys);
            assert(seen =~= endpoints_under(self@, address)) by {
                assert forall|e: K| seen.contains(e) <==> #[trigger] endpoints_under(
                    self@,
                    address,
                ).contains(e) by {
                    assert(keys.contains(e) <==> self@.dom().contains(e));
                }
            }
        }
        count
    }

    pub fn is_ip_near_endpoint_limit(&self, address: IpAddr, limit: usize) -> (near: bool)
        requires
            self.wf(),
        ensures
            near == nears(endpoints_under(self@, address).len() as int, limit),
    {
        near_limit(self.endpoint_count_for_ip(address), limit)
    }

    /// What an endpoint wants of a group.
    pub fn endpoint_interest(&self, endpoint: K, group: IpAddr) -> (interest: Option<
        &GroupInterest,
    >)
        requires
            self.wf(),
        ensures
            match interest {
                Some(interest) => interested(self@, endpoint, group) && interest@
                    == self@[endpoint][group] && interest.stored_wf(),
                None => !interested(self@, endpoint, group),
            },
    {
        match self.endpoints.get(endpoint) {
            Some(state) => state.groups.get(group),
            None => None,
        }
    }

    pub fn endpoint_has_interests(&self, endpoint: K) -> (has_interests: bool)
        requires
            self.wf(),
        ensures
            has_interests == self@.contains_key(endpoint),
            has_interests == exists|group: IpAddr| interested(self@, endpoint, group),
    {
        proof {
            if self@.contains_key(endpoint) {
                assert(self@[endpoint] != Map::<IpAddr, InterestModel>::empty());
                assert(exists|group: IpAddr| self@[endpoint].contains_key(group)) by {
                    if forall|group: IpAddr| !self@[endpoint].contains_key(group) {
                        assert(self@[endpoint] =~= Map::<IpAddr, InterestModel>::empty());
                    }
                }
                let group = choose|group: IpAddr| self@[endpoint].contains_key(group);
                assert(interested(self@, endpoint, group));
            }
        }
        match self.endpoints.get(endpoint) {
            Some(state) => !state.groups.is_empty(),
            None => false,
        }
    }

    /// The endpoints that want a packet, in ascending order.
    pub fn endpoints_for_packet(&self, source: IpAddr, group: IpAddr) -> (endpoints: Vec<K>)
        requires
            self.wf(),
        ensures
            endpoints@ == in_order(wanting(self@, source, group)),
            ascending(endpoints@),
            endpoints@.to_set() == wanting(self@, source, group),
    {
        self.matching_endpoints(source, group)
    }

    /// The endpoints that want a packet, in ascending order.
    pub fn matching_endpoints(&self, source: IpAddr, group: IpAddr) -> (endpoints: Vec<K>)
        requires
            self.wf(),
        ensures
            endpoints@ == in_order(wanting(self@, source, group)),
            ascending(endpoints@),
            endpoints@.to_set() == wanting(self@, source, group),
    {
        let mut found: Vec<K> = Vec::new();
        let joined = match self.forwarding.get(group) {
            Some(joined) => joined,
            None => {
                proof {
                    assert forall|e: K| !wanting(self@, source, group).contains(e) by {
                        if interested(self@, e, group) {
                            assert(forwarding_of(self@).contains_key(group));
                        }
                    }
                    assert(found@.to_set() =~= wanting(self@, source, group));
                    crate::ordered::lemma_in_order(found@);
                }
                return found;
            },
        };
        let mut i: usize = 0;
        let ghost seq = joined.seq();
        proof {
            joined.lemma_facts();
        }
        while i < joined.len()
            invariant
                self.wf(),
                joined.wf(),
                joined@ == forwarding_of(self@)[group],
                seq == joined.seq(),
                ascending(seq),
                i <= seq.len(),
                ascending(found@),
                forall|j: int| 0 <= j < found@.len() && i < seq.len() ==> (
                #[trigger] found@[j]).rank() < seq[i as int].rank(),
                forall|e: K| #[trigger]
                    found@.contains(e) <==> (seq.take(i as int).contains(e) && interested(
                        self@,
                        e,
                        group,
                    ) && self@[e][group].wants(source)),
            decreases seq.len() - i,
        {
            let endpoint = joined.at(i);
            let ghost before = found@;
            let wanted: bool = match self.endpoint_interest(endpoint, group) {
                Some(interest) => interest.wants_source(source),
                None => false,
            };
            if wanted {
                found.push(endpoint);
            }
            proof {
                joined.lemma_facts();
                let longer = seq.take(i + 1);
                let shorter = seq.take(i as int);
                assert forall|j: int| 0 <= j < found@.len() && i + 1 < seq.len() implies (
                #[trigger] found@[j]).rank() < seq[i + 1].rank() by {
                    assert(seq[i as int].rank() < seq[i + 1].rank());
                    if j < before.len() {
                        assert(before[j].rank() < seq[i as int].rank());
                    }
                }
                assert forall|e: K| #[trigger] found@.contains(e) <==> (longer.contains(e)
                    && interested(self@, e, group) && self@[e][group].wants(source)) by {
                    assert(before.contains(e) <==> (shorter.contains(e) && interested(
                        self@,
                        e,
                        group,
                    ) && self@[e][group].wants(source)));
                    if shorter.contains(e) {
                        let j = choose|j: int| 0 <= j < shorter.len() && shorter[j] == e;
                        assert(longer[j] == e);
                    }
                    if longer.contains(e) {
                        let j = choose|j: int| 0 <= j < longer.len() && longer[j] == e;
                        if j < i {
                            assert(shorter[j] == e);
                        }
                    }
                    if e == endpoint {
                        assert(longer[i as int] == e);
                    }
                    if wanted {
                        if before.contains(e) {
                            let j = choose|j: int| 0 <= j < before.len() && before[j] == e;
                            assert(found@[j] == e);
                        }
                        if e == endpoint {
                            assert(found@[before.len() as int] == e);
                        }
                        if found@.contains(e) {
                            let j = choose|j: int| 0 <= j < found@.len() && found@[j] == e;
                            if j < before.len() {
                                assert(before[j] == e);
                            }
                        }
                    }
                }
            }
            i += 1;
        }
        proof {
            joined.lemma_facts();
            assert(seq.take(seq.len() as int) =~= seq);
            assert(found@.to_set() =~= wanting(self@, source, group)) by {
                assert forall|e: K| found@.to_set().contains(e) <==> #[trigger] wanting(
                    self@,
                    source,
                    group,
                ).contains(e) by {
                    assert(seq.contains(e) <==> joined@.contains(e));
                }
            }
            crate::ordered::lemma_in_order(found@);
        }
        found
    }

    /// The subscriptions that serve every endpoint, in ascending order.
    pub fn upstream_subscriptions(&self) -> (subscriptions: Vec<UpstreamSubscription>)
        requires
            self.wf(),
        ensures
            subscriptions@ == in_order(subscriptions_of(self@)),
            ascending(subscriptions@),
            subscriptions@.to_set() == subscriptions_of(self@),
    {
        proof {
            self.subscriptions.lemma_facts();
        }
        self.subscriptions.to_list()
    }

    /// Whether some endpoint lists a source of a group to receive it.
    pub fn has_ssm_interest(&self, source: IpAddr, group: IpAddr) -> (found: bool)
        requires
            self.wf(),
        ensures
            found == included_sources(self@, group).contains(source),
    {
        let joined = match self.forwarding.get(group) {
            Some(joined) => joined,
            None => {
                proof {
                    assert forall|e: K| !includes(self@, e, group) by {
                        if interested(self@, e, group) {
                            assert(forwarding_of(self@).contains_key(group));
                        }
                    }
                }
                return false;
            },
        };
        let mut i: usize = 0;
        let ghost seq = joined.seq();
        proof {
            joined.lemma_facts();
        }
        while i < joined.len()
            invariant
                self.wf(),
                joined.wf(),
                joined@ == forwarding_of(self@)[group],
                seq == joined.seq(),
                i <= seq.len(),
                forall|j: int|
                    0 <= j < i ==> !(includes(self@, #[trigger] seq[j], group)
                        && self@[seq[j]][group].sources.contains(source)),
            decreases seq.len() - i,
        {
            let endpoint = joined.at(i);
            match self.endpoint_interest(endpoint, group) {
                Some(interest) => if interest.mode == FilterMode::Include
                    && interest.sources.contains(source) {
                    assert(includes(self@, endpoint, group)
                        && self@[endpoint][group].sources.contains(source));
                    return true;
                },
                None => {},
            }
            i += 1;
        }
        proof {
            joined.lemma_facts();
            assert forall|e: K| #[trigger] includes(
                self@,
                e,
                group,
            ) implies !self@[e][group].sources.contains(source) by {
                assert(forwarding_of(self@).contains_key(group)) by {
                    assert(interested(self@, e, group));
                }
                assert(joined@.contains(e));
                assert(seq.to_set().contains(e));
                let j = choose|j: int| 0 <= j < seq.len() && seq[j] == e;
                assert(!(includes(self@, seq[j], group) && self@[seq[j]][group].sources.contains(
                    source,
                )));
            }
        }
        false
    }

    /// What all endpoints together want of every group.
    pub fn aggregate_interests(&self) -> (interests: OrdMap<IpAddr, GroupInterest>)
        requires
            self.wf(),
        ensures
            interests.wf(),
            interests@ == aggregate_of(self@),
    {
        self.aggregate.duplicate()
    }

    /// What all endpoints together want of every group, without a copy.
    pub fn aggregate_interests_ref(&self) -> (interests: &OrdMap<IpAddr, GroupInterest>)
        requires
            self.wf(),
        ensures
            interests.wf(),
            interests@ == aggregate_of(self@),
    {
        &self.aggregate
    }

    /// Whether any limit on the whole table is nearly reached.
    pub fn is_near_limits(&self, limits: &RelayLimits) -> (near: bool)
        requires
            self.wf(),
        ensures
            near == table_nears_limits(self@, *limits),
    {
        near_limit(self.endpoints.len(), limits.max_endpoints) || near_limit(
            self.total_endpoint_groups,
            limits.max_total_endpoint_groups,
        ) || near_limit(self.total_sources, limits.max_total_sources) || near_limit(
            self.subscriptions.len(),
            limits.max_upstream_subscriptions,
        )
    }

    /// Works out everything kept at hand from the interests.
    fn rebuild_indexes(&mut self)
        requires
            old(self).endpoints.wf(),
            no_idle_endpoints(old(self)@),
            interests_are_sound(old(self)@),
        ensures
            final(self).wf(),
            final(self)@ == old(self)@,
    {
        let ghost table = self@;
        let ghost keys = self.endpoints.keys_seq();
        let mut forwarding: OrdMap<IpAddr, OrdSet<K>> = OrdMap::new();
        let mut summaries: OrdMap<IpAddr, GroupSummary> = OrdMap::new();
        let mut total_endpoint_groups: usize = 0;
        let mut total_sources: usize = 0;
        let ghost mut done: TableModel<K> = Map::empty();
        proof {
            self.endpoints.lemma_facts();
            assert(forwarding@ =~= forwarding_of(done));
            assert(summaries@ =~= summaries_of(done));
            assert(endpoint_groups(done) =~= Set::empty());
            assert(listed_sources(done) =~= Set::empty());
        }
        let mut i: usize = 0;
        while i < self.endpoints.len()
            invariant
                self.endpoints.wf(),
                table == self@,
                *self == *old(self),
                no_idle_endpoints(table),
                interests_are_sound(table),
                keys == self.endpoints.keys_seq(),
                ascending(keys),
                i <= keys.len(),
                forall|e: K| #[trigger]
                    done.contains_key(e) <==> keys.take(i as int).contains(e),
                forall|e: K| #[trigger] done.contains_key(e) ==> done[e] == table[e],
                forwarding.wf(),
                forwarding@ == forwarding_of(done),
                summaries.wf(),
                summaries@ == summaries_of(done),
                endpoint_groups(done).finite(),
                listed_sources(done).finite(),
                total_endpoint_groups == clamp_len(endpoint_groups(done).len() as int),
                total_sources == clamp_len(listed_sources(done).len() as int),
            decreases keys.len() - i,
        {
            let endpoint = self.endpoints.key_at(i);
            let state = self.endpoints.value_at(i);
            let ghost groups = state@;
            let ghost gkeys = state.groups.keys_seq();
            let ghost base = done;
            let ghost mut part: GroupsModel = Map::empty();
            proof {
                self.endpoints.lemma_facts();
                state.groups.lemma_facts();
                assert(!base.contains_key(endpoint)) by {
                    let shorter = keys.take(i as int);
                    if shorter.contains(endpoint) {
                        let j = choose|j: int| 0 <= j < shorter.len() && shorter[j] == endpoint;
                        assert(keys[j].rank() < keys[i as int].rank());
                    }
                }
                assert(table[endpoint] == groups);
            }
            let mut j: usize = 0;
            while j < state.groups.len()
                invariant
                    state.stored_wf(),
                    state@ == groups,
                    state.groups.wf(),
                    state.groups@ == groups,
                    gkeys == state.groups.keys_seq(),
                    ascending(gkeys),
                    j <= gkeys.len(),
                    !base.contains_key(endpoint),
                    done == (if j == 0 {
                        base
                    } else {
                        base.insert(endpoint, part)
                    }),
                    j == 0 ==> part == Map::<IpAddr, InterestModel>::empty(),
                    forall|g: IpAddr| #[trigger]
                        part.contains_key(g) <==> gkeys.take(j as int).contains(g),
                    forall|g: IpAddr| #[trigger] part.contains_key(g) ==> part[g] == groups[g],
                    forwarding.wf(),
                    forwarding@ == forwarding_of(done),
                    summaries.wf(),
                    summaries@ == summaries_of(done),
                    endpoint_groups(done).finite(),
                    listed_sources(done).finite(),
                    total_endpoint_groups == clamp_len(endpoint_groups(done).len() as int),
                    total_sources == clamp_len(listed_sources(done).len() as int),
                decreases gkeys.len() - j,
            {
                let group = state.groups.key_at(j);
                let interest = state.groups.value_at(j);
                let ghost before = done;
                proof {
                    state.groups.lemma_facts();
                    interest.sources.lemma_facts();
                    assert(!part.contains_key(group)) by {
                        let shorter = gkeys.take(j as int);
                        if shorter.contains(group) {
                            let m = choose|m: int|
                                0 <= m < shorter.len() && shorter[m] == group;
                            assert(gkeys[m].rank() < gkeys[j as int].rank());
                        }
                    }
                    assert(!interested(before, endpoint, group));
                    lemma_forwarding_grown(before, endpoint, group, interest@);
                    lemma_summaries_grown(before, endpoint, group, interest@);
                    lemma_counts_grown(before, endpoint, group, interest@);
                    done = grown(before, endpoint, group, interest@);
                    assert(groups_of(before, endpoint) =~= part);
                    let next = part.insert(group, interest@);
                    assert(done =~= base.insert(endpoint, next));
                    let longer = gkeys.take(j + 1);
                    let shorter = gkeys.take(j as int);
                    assert forall|g: IpAddr| #[trigger] next.contains_key(g) <==> longer.contains(
                        g,
                    ) by {
                        assert(part.contains_key(g) <==> shorter.contains(g));
                        if shorter.contains(g) {
                            let m = choose|m: int| 0 <= m < shorter.len() && shorter[m] == g;
                            assert(longer[m] == g);
                        }
                        if longer.contains(g) {
                            let m = choose|m: int| 0 <= m < longer.len() && longer[m] == g;
                            if m < j {
                                assert(shorter[m] == g);
                            }
                        }
                        if g == group {
                            assert(longer[j as int] == g);
                        }
                    }
                    part = next;
                }
                total_endpoint_groups = add_count(
                    total_endpoint_groups,
                    1,
                    Ghost(endpoint_groups(before).len() as int),
                );
                total_sources = add_count(
                    total_sources,
                    interest.sources.len(),
                    Ghost(listed_sources(before).len() as int),
                );
                let fresh_group: bool = !forwarding.contains_key(group);
                if fresh_group {
                    forwarding.insert(group, OrdSet::new());
                }
                if let Some(joined) = forwarding.get_mut(group) {
                    joined.insert(endpoint);
                }
                proof {
                    assert(forwarding@ =~= forwarding_of(done));
                }
                let fresh_summary: bool = !summaries.contains_key(group);
                if fresh_summary {
                    summaries.insert(group, GroupSummary::new());
                }
                if let Some(summary) = summaries.get_mut(group) {
                    summary.apply(interest);
                }
                proof {
                    assert(summaries@ =~= summaries_of(done));
                }
                j += 1;
            }
            proof {
                self.endpoints.lemma_facts();
                state.groups.lemma_facts();
                assert(gkeys.take(gkeys.len() as int) =~= gkeys);
                assert(part =~= groups) by {
                    assert forall|g: IpAddr| part.contains_key(g) <==> #[trigger] groups.contains_key(
                        g,
                    ) by {
                        assert(gkeys.contains(g) <==> gkeys.to_set().contains(g));
                    }
                }
                assert(gkeys.len() > 0) by {
                    assert(table.contains_key(endpoint));
                    if gkeys.len() == 0 {
                        assert(groups =~= Map::<IpAddr, InterestModel>::empty());
                    }
                }
                let longer = keys.take(i + 1);
                let shorter = keys.take(i as int);
                assert forall|e: K| #[trigger] done.contains_key(e) <==> longer.contains(e) by {
                    assert(base.contains_key(e) <==> shorter.contains(e));
                    if shorter.contains(e) {
                        let m = choose|m: int| 0 <= m < shorter.len() && shorter[m] == e;
                        assert(longer[m] == e);
                    }
                    if longer.contains(e) {
                        let m = choose|m: int| 0 <= m < longer.len() && longer[m] == e;
                        if m < i {
                            assert(shorter[m] == e);
                        }
                    }
                    if e == endpoint {
                        assert(longer[i as int] == e);
                    }
                }
            }
            i += 1;
        }
        proof {
            self.endpoints.lemma_facts();
            assert(keys.take(keys.len() as int) =~= keys);
            assert(done =~= table) by {
                assert forall|e: K| done.contains_key(e) <==> #[trigger] table.contains_key(e) by {
                    assert(keys.contains(e) <==> keys.to_set().contains(e));
                }
            }
        }
        let (aggregate, subscriptions) = conclude::<K>(&summaries, Ghost(table));
        self.forwarding = forwarding;
        self.aggregate = aggregate;
        self.subscriptions = subscriptions;
        self.total_endpoint_groups = total_endpoint_groups;
        self.total_sources = total_sources;
    }
}

impl<K: MembershipEndpoint> Default for MembershipTable<K> {
    fn default() -> (table: Self)
        ensures
            table.wf(),
            table@ == Map::<K, GroupsModel>::empty(),
    {
        MembershipTable::new()
    }
}

/// The endpoints that want packets from a source to a group.
pub open spec fn wanting<K>(table: TableModel<K>, source: IpAddr, group: IpAddr) -> Set<K> {
    Set::new(
        |endpoint: K|
            interested(table, endpoint, group) && table[endpoint][group].wants(source),
    )
}

/// Whether any limit on the whole table is nearly reached.
pub open spec fn table_nears_limits<K>(table: TableModel<K>, limits: RelayLimits) -> bool {
    ||| nears(table.dom().len() as int, limits.max_endpoints)
    ||| nears(
        clamp_len(endpoint_groups(table).len() as int) as int,
        limits.max_total_endpoint_groups,
    )
    ||| nears(clamp_len(listed_sources(table).len() as int) as int, limits.max_total_sources)
    ||| nears(subscriptions_of(table).len() as int, limits.max_upstream_subscriptions)
}

proof fn lemma_summary_decides<K>(table: TableModel<K>, group: IpAddr)
    ensures
        aggregate_at(table, group) == (match summary_at(table, group).excluded {
            Some(excluded) => Some(
                InterestModel::excluding(
                    excluded.difference(summary_at(table, group).included),
                ),
            ),
            None => if summary_at(table, group).included == Set::<IpAddr>::empty() {
                None
            } else {
                Some(InterestModel::including(summary_at(table, group).included))
            },
        }),
{
}

/// Turns summaries into the joint interests and subscriptions of a table.
fn conclude<K: MembershipEndpoint>(
    summaries: &OrdMap<IpAddr, GroupSummary>,
    Ghost(table): Ghost<TableModel<K>>,
) -> (indexes: (OrdMap<IpAddr, GroupInterest>, OrdSet<UpstreamSubscription>))
    requires
        summaries.wf(),
        summaries@ == summaries_of(table),
    ensures
        indexes.0.wf(),
        indexes.0@ == aggregate_of(table),
        indexes.1.wf(),
        indexes.1@ == subscriptions_of(table),
{
    let mut aggregate: OrdMap<IpAddr, GroupInterest> = OrdMap::new();
    let mut subscriptions: OrdSet<UpstreamSubscription> = OrdSet::new();
    let ghost keys = summaries.keys_seq();
    let mut i: usize = 0;
    proof {
        summaries.lemma_facts();
    }
    while i < summaries.len()
        invariant
            summaries.wf(),
            summaries@ == summaries_of(table),
            keys == summaries.keys_seq(),
            ascending(keys),
            i <= keys.len(),
            aggregate.wf(),
            subscriptions.wf(),
            forall|g: IpAddr| #[trigger]
                aggregate@.contains_key(g) <==> (keys.take(i as int).contains(g) && aggregate_at(
                    table,
                    g,
                ) is Some),
            forall|g: IpAddr| #[trigger]
                aggregate@.contains_key(g) ==> aggregate@[g] == aggregate_at(table, g)->Some_0,
            forall|u: UpstreamSubscription| #[trigger]
                subscriptions@.contains(u) <==> (keys.take(i as int).contains(u.group)
                    && subscriptions_of(table).contains(u)),
        decreases keys.len() - i,
    {
        let group = summaries.key_at(i);
        let summary = summaries.value_at(i);
        let ghost aggregate_before = aggregate@;
        let ghost subscriptions_before = subscriptions@;
        proof {
            summaries.lemma_facts();
            lemma_summary_decides(table, group);
        }
        let ghost shorter = keys.take(i as int);
        let ghost longer = keys.take(i + 1);
        proof {
            assert forall|g: IpAddr| #[trigger] longer.contains(g) <==> shorter.contains(g) || g
                == group by {
                if shorter.contains(g) {
                    let m = choose|m: int| 0 <= m < shorter.len() && shorter[m] == g;
                    assert(longer[m] == g);
                }
                if longer.contains(g) {
                    let m = choose|m: int| 0 <= m < longer.len() && longer[m] == g;
                    if m < i {
                        assert(shorter[m] == g);
                    }
                }
                if g == group {
                    assert(longer[i as int] == g);
                }
            }
        }
        match summary.to_interest() {
            Some(interest) => {
                assert(aggregate_at(table, group) == Some(interest@));
                add_subscriptions(&mut subscriptions, group, &interest);
                aggregate.insert(group, interest);
                proof {
                    assert forall|u: UpstreamSubscription| #[trigger]
                        subscriptions@.contains(u) <==> (longer.contains(u.group)
                            && subscriptions_of(table).contains(u)) by {
                        assert(subscriptions_before.contains(u) <==> (shorter.contains(u.group)
                            && subscriptions_of(table).contains(u)));
                        assert(longer.contains(u.group) <==> shorter.contains(u.group) || u.group
                            == group);
                    }
                }
            },
            None => {
                assert(aggregate_at(table, group) is None);
                proof {
                    assert forall|u: UpstreamSubscription| #[trigger]
                        subscriptions@.contains(u) <==> (longer.contains(u.group)
                            && subscriptions_of(table).contains(u)) by {
                        assert(longer.contains(u.group) <==> shorter.contains(u.group) || u.group
                            == group);
                    }
                }
            },
        }
        i += 1;
    }
    proof {
        summaries.lemma_facts();
        assert(keys.take(keys.len() as int) =~= keys);
        assert forall|g: IpAddr| aggregate_at(table, g) is Some implies #[trigger] keys.contains(
            g,
        ) by {
            if !(exists|e: K| interested(table, e, g)) {
                lemma_no_interest_no_summary(table, g);
            }
            assert(summaries@.contains_key(g));
            assert(keys.to_set().contains(g));
        }
        assert(aggregate@ =~= aggregate_of(table)) by {
            assert forall|g: IpAddr| aggregate@.contains_key(g) <==> #[trigger] aggregate_of(
                table,
            ).contains_key(g) by {
                if aggregate_at(table, g) is Some {
                    assert(keys.contains(g));
                }
            }
        }
        assert(subscriptions@ =~= subscriptions_of(table)) by {
            assert forall|u: UpstreamSubscription| subscriptions@.contains(u) <==> #[trigger]
                subscriptions_of(table).contains(u) by {
                if subscriptions_of(table).contains(u) {
                    assert(aggregate_at(table, u.group) is Some);
                    assert(keys.contains(u.group));
                }
            }
        }
    }
    (aggregate, subscriptions)
}

fn check_report(report: &MembershipReport, limits: &RelayLimits) -> (result: Result<
    (),
    StateLimitError,
>)
    ensures
        match result {
            Ok(()) => report_limit_error(report@.records, *limits) is None,
            Err(error) => report_limit_error(report@.records, *limits) == Some(error@),
        },
{
    if let Err(error) = check_limit(
        "records per report",
        report.records.len(),
        limits.max_records_per_report,
    ) {
        return Err(error);
    }
    let ghost models = report@.records;
    let mut i: usize = 0;
    proof {
        assert(models.take(0) =~= Seq::empty());
    }
    while i < report.records.len()
        invariant
            i <= report.records@.len(),
            models == report@.records,
            models.len() == report.records@.len(),
            models.len() <= limits.max_records_per_report,
            sources_limit_error(models.take(i as int), *limits) is None,
        decreases report.records@.len() - i,
    {
        proof {
            assert(models.take(i + 1).drop_last() =~= models.take(i as int));
            assert(models.take(i + 1).last() == report.records@[i as int]@);
        }
        if let Err(error) = check_limit(
            "sources per group",
            report.records[i].sources.len(),
            limits.max_sources_per_group,
        ) {
            proof {
                lemma_first_sources_error_stays(models, *limits, i + 1);
            }
            return Err(error);
        }
        i += 1;
    }
    proof {
        assert(models.take(models.len() as int) =~= models);
    }
    Ok(())
}

proof fn lemma_first_sources_error_stays(
    records: Seq<RecordModel>,
    limits: RelayLimits,
    early: int,
)
    requires
        0 <= early <= records.len(),
        sources_limit_error(records.take(early), limits) is Some,
    ensures
        sources_limit_error(records, limits) == sources_limit_error(records.take(early), limits),
    decreases records.len() - early,
{
    if early == records.len() {
        assert(records.take(early) =~= records);
    } else {
        assert(records.take(early + 1).drop_last() =~= records.take(early));
        lemma_first_sources_error_stays(records, limits, early + 1);
    }
}

/// When a report changes a table without idle endpoints.
proof fn lemma_report_changes<K>(table: TableModel<K>, endpoint: K, records: Seq<RecordModel>)
    requires
        no_idle_endpoints(table),
    ensures
        ({
            let before = groups_of(table, endpoint);
            let after = records_applied(before, records);
            &&& (report_applied(table, endpoint, records) != table) == (after != before)
            &&& records.len() == 0 ==> report_applied(table, endpoint, records) == table
        }),
{
    let before = groups_of(table, endpoint);
    let after = records_applied(before, records);
    let result = report_applied(table, endpoint, records);
    if after == before {
        assert(result =~= table);
    } else {
        assert(groups_of(result, endpoint) == after);
    }
}

impl<K: MembershipEndpoint> Stored for MembershipTable<K> {
    open spec fn stored_wf(&self) -> bool {
        self.wf()
    }

    fn duplicate(&self) -> (copy: Self) {
        MembershipTable {
            endpoints: self.endpoints.duplicate(),
            forwarding: self.forwarding.duplicate(),
            aggregate: self.aggregate.duplicate(),
            subscriptions: self.subscriptions.duplicate(),
            total_endpoint_groups: self.total_endpoint_groups,
            total_sources: self.total_sources,
        }
    }

    fn same(&self, other: &Self) -> (same: bool) {
        self.endpoints.same(&other.endpoints)
    }
}

/// The relay receives upstream what somebody wants: a packet from a source
/// that some endpoint wants is covered by a subscription to the whole group or
/// to that source.
pub proof fn law_wanted_packets_are_subscribed<K>(
    table: TableModel<K>,
    endpoint: K,
    source: IpAddr,
    group: IpAddr,
)
    requires
        wanting(table, source, group).contains(endpoint),
    ensures
        subscriptions_of(table).contains(UpstreamSubscription { group, source: None })
            || subscriptions_of(table).contains(
            UpstreamSubscription { group, source: Some(source) },
        ),
{
    if includes(table, endpoint, group) {
        assert(included_sources(table, group).contains(source));
    } else {
        assert(excludes(table, endpoint, group));
        assert(any_excludes(table, group));
    }
}

/// Nothing is subscribed that nobody wants: a subscription to one source is
/// there because an endpoint lists it, and a subscription to a whole group
/// because an endpoint wants all but some sources.
pub proof fn law_subscriptions_are_wanted<K>(
    table: TableModel<K>,
    subscription: UpstreamSubscription,
)
    requires
        subscriptions_of(table).contains(subscription),
    ensures
        match subscription.source {
            Some(source) => exists|endpoint: K| #[trigger]
                includes(table, endpoint, subscription.group)
                    && table[endpoint][subscription.group].sources.contains(source),
            None => any_excludes(table, subscription.group),
        },
{
}

/// A group is never subscribed both as a whole and by source.
pub proof fn law_whole_group_replaces_its_sources<K>(
    table: TableModel<K>,
    group: IpAddr,
    source: IpAddr,
)
    ensures
        !(subscriptions_of(table).contains(UpstreamSubscription { group, source: None })
            && subscriptions_of(table).contains(
            UpstreamSubscription { group, source: Some(source) },
        )),
{
}

/// The joint interest of all endpoints wants a packet exactly if some endpoint
/// does.
pub proof fn law_joint_interest_covers_every_endpoint<K>(
    table: TableModel<K>,
    source: IpAddr,
    group: IpAddr,
)
    ensures
        ({
            let wanted = exists|endpoint: K| #[trigger]
                interested(table, endpoint, group) && table[endpoint][group].wants(source);
            wanted == (aggregate_at(table, group) is Some && aggregate_at(
                table,
                group,
            )->Some_0.wants(source))
        }),
{
    let joint = aggregate_at(table, group);
    if joint is Some && joint->Some_0.wants(source) {
        if any_excludes(table, group) {
            if included_sources(table, group).contains(source) {
                let e = choose|e: K| #[trigger]
                    includes(table, e, group) && table[e][group].sources.contains(source);
                assert(interested(table, e, group) && table[e][group].wants(source));
            } else {
                assert(!commonly_excluded(table, group).contains(source));
                let e = choose|e: K| #[trigger]
                    excludes(table, e, group) && !table[e][group].sources.contains(source);
                assert(interested(table, e, group) && table[e][group].wants(source));
            }
        } else {
            let e = choose|e: K| #[trigger]
                includes(table, e, group) && table[e][group].sources.contains(source);
            assert(interested(table, e, group) && table[e][group].wants(source));
        }
    }
    if exists|endpoint: K| #[trigger]
        interested(table, endpoint, group) && table[endpoint][group].wants(source) {
        let e = choose|e: K| #[trigger]
            interested(table, e, group) && table[e][group].wants(source);
        if includes(table, e, group) {
            assert(included_sources(table, group).contains(source));
        } else {
            assert(excludes(table, e, group));
            assert(any_excludes(table, group));
            assert(!commonly_excluded(table, group).contains(source));
        }
    }
}

/// The joint interests of a table speak for every endpoint: a packet is wanted
/// exactly if some endpoint is served with it, a group is there exactly if some
/// endpoint has an interest in it, and sources are excluded exactly if some
/// endpoint excludes sources.
pub proof fn law_joint_interests_speak_for_all<K: MembershipEndpoint>(
    table: &MembershipTable<K>,
    source: IpAddr,
    group: IpAddr,
)
    requires
        table.wf(),
    ensures
        ({
            let joint = aggregate_of(table@);
            &&& (joint.contains_key(group) && joint[group].wants(source)) <==> wanting(
                table@,
                source,
                group,
            ) != Set::<K>::empty()
            &&& joint.contains_key(group) <==> exists|endpoint: K|
                interested(table@, endpoint, group)
            &&& (joint.contains_key(group) && joint[group].mode is Exclude) <==> any_excludes(
                table@,
                group,
            )
        }),
{
    table.lemma_facts();
    law_joint_interest_covers_every_endpoint(table@, source, group);
    let wanted = wanting(table@, source, group);
    if wanted != Set::<K>::empty() {
        let endpoint = choose|endpoint: K| wanted.contains(endpoint);
        assert(wanted.contains(endpoint)) by {
            if forall|endpoint: K| !wanted.contains(endpoint) {
                assert(wanted =~= Set::<K>::empty());
            }
        }
        assert(interested(table@, endpoint, group));
    }
    if exists|endpoint: K| #[trigger]
        interested(table@, endpoint, group) && table@[endpoint][group].wants(source) {
        let endpoint = choose|endpoint: K| #[trigger]
            interested(table@, endpoint, group) && table@[endpoint][group].wants(source);
        assert(wanted.contains(endpoint));
    }
    if exists|endpoint: K| interested(table@, endpoint, group) {
        let endpoint = choose|endpoint: K| interested(table@, endpoint, group);
        assert(groups_are_sound(groups_of(table@, endpoint)));
        if includes(table@, endpoint, group) {
            let sources = table@[endpoint][group].sources;
            let listed = choose|listed: IpAddr| sources.contains(listed);
            if forall|listed: IpAddr| !sources.contains(listed) {
                assert(sources =~= Set::<IpAddr>::empty());
            }
            assert(included_sources(table@, group).contains(listed));
        } else {
            assert(excludes(table@, endpoint, group));
        }
    }
    if aggregate_of(table@).contains_key(group) && !any_excludes(table@, group) {
        let included = included_sources(table@, group);
        if forall|listed: IpAddr| !included.contains(listed) {
            assert(included =~= Set::<IpAddr>::empty());
        }
        let listed = choose|listed: IpAddr| included.contains(listed);
        let endpoint = choose|endpoint: K| #[trigger]
            includes(table@, endpoint, group) && table@[endpoint][group].sources.contains(listed);
        assert(interested(table@, endpoint, group));
    }
    if any_excludes(table@, group) {
        let endpoint = choose|endpoint: K| excludes(table@, endpoint, group);
        assert(interested(table@, endpoint, group));
    }
}

/// A table that exceeds no limit after a report from an endpoint keeps to every
/// single one.
pub proof fn law_accepted_tables_keep_to_the_limits<K: MembershipEndpoint>(
    table: &MembershipTable<K>,
    endpoint: K,
    limits: RelayLimits,
)
    requires
        table.wf(),
        table_limit_error(table@, endpoint, limits) is None,
    ensures
        table@.dom().len() <= limits.max_endpoints,
        neighbours(table@, endpoint) <= limits.max_endpoints_per_ip,
        groups_of(table@, endpoint).dom().len() <= limits.max_groups_per_endpoint,
        forall|group: IpAddr| #[trigger]
            groups_of(table@, endpoint).contains_key(group) ==> groups_of(
                table@,
                endpoint,
            )[group].sources.len() <= limits.max_sources_per_group,
        clamp_len(endpoint_groups(table@).len() as int) <= limits.max_total_endpoint_groups,
        clamp_len(listed_sources(table@).len() as int) <= limits.max_total_sources,
        subscriptions_of(table@).len() <= limits.max_upstream_subscriptions,
{
    table.lemma_facts();
    assert(is_widest_group(
        groups_of(table@, endpoint),
        widest_group(groups_of(table@, endpoint)),
    ));
}

/// A report speaks for its endpoint alone.
pub proof fn law_reports_touch_one_endpoint<K>(
    table: TableModel<K>,
    endpoint: K,
    records: Seq<RecordModel>,
    other: K,
)
    requires
        other != endpoint,
    ensures
        groups_of(report_applied(table, endpoint, records), other) == groups_of(table, other),
        report_applied(table, endpoint, records).contains_key(other) == table.contains_key(other),
{
}

/// Applying a report that states the current filters a second time changes
/// nothing: current-state records are idempotent.
pub proof fn law_state_records_are_idempotent(groups: GroupsModel, record: RecordModel)
    requires
        record.kind is ModeIsInclude || record.kind is ModeIsExclude || record.kind
            is ChangeToInclude || record.kind is ChangeToExclude || record.kind is LegacyReport
            || record.kind is LegacyLeave,
    ensures
        record_applied(record_applied(groups, record), record) == record_applied(groups, record),
{
    assert(record_applied(record_applied(groups, record), record) =~= record_applied(
        groups,
        record,
    ));
}

/// Blocking the sources that were just allowed undoes the allowing for a group
/// that was not known before.
pub proof fn law_block_undoes_allow(groups: GroupsModel, group: IpAddr, sources: Seq<IpAddr>)
    requires
        !groups.contains_key(group),
    ensures
        ({
            let allow = RecordModel {
                kind: MembershipRecordKind::AllowNewSources,
                group,
                sources,
            };
            let block = RecordModel {
                kind: MembershipRecordKind::BlockOldSources,
                group,
                sources,
            };
            record_applied(record_applied(groups, allow), block) == groups
        }),
{
    let allow = RecordModel { kind: MembershipRecordKind::AllowNewSources, group, sources };
    let block = RecordModel { kind: MembershipRecordKind::BlockOldSources, group, sources };
    assert(sources.to_set().difference(sources.to_set()) =~= Set::<IpAddr>::empty());
    assert(record_applied(record_applied(groups, allow), block) =~= groups);
}

/// Forgetting an endpoint right after its first report gives the table back.
pub proof fn law_removal_undoes_the_first_report<K>(
    table: TableModel<K>,
    endpoint: K,
    records: Seq<RecordModel>,
)
    requires
        !table.contains_key(endpoint),
    ensures
        report_applied(table, endpoint, records).remove(endpoint) == table,
{
    assert(report_applied(table, endpoint, records).remove(endpoint) =~= table);
}

/// Whether an endpoint with these interests wants packets from a source to a
/// group: it has an interest in the group that lists the source as one to
/// include, or does not list it as one to exclude.
pub open spec fn hears(groups: GroupsModel, group: IpAddr, source: IpAddr) -> bool {
    groups.contains_key(group) && (groups[group].mode is Include <==> groups[group].sources.contains(
        source,
    ))
}

/// An endpoint is served with a packet exactly if it has an interest in the
/// group that includes the source or does not exclude it.
pub proof fn law_packets_go_to_who_wants_them<K>(
    table: TableModel<K>,
    endpoint: K,
    source: IpAddr,
    group: IpAddr,
)
    ensures
        wanting(table, source, group).contains(endpoint) <==> table.contains_key(endpoint) && hears(
            table[endpoint],
            group,
            source,
        ),
{
}

/// What each kind of record does to what an endpoint wants of the record's
/// group.  Allowed sources are wanted, blocked ones are not, and every other
/// source is wanted exactly if it was before, whatever the filter.  A filter
/// that is stated or changed to wants exactly the listed sources, or exactly the
/// others.  A report of an earlier protocol version wants all sources, a leave
/// none.
pub proof fn law_records_decide_who_is_heard(
    groups: GroupsModel,
    record: RecordModel,
    source: IpAddr,
)
    ensures
        ({
            let before = hears(groups, record.group, source);
            let after = hears(record_applied(groups, record), record.group, source);
            let listed = record.sources.contains(source);
            match record.kind {
                MembershipRecordKind::AllowNewSources => after <==> before || listed,
                MembershipRecordKind::BlockOldSources => after <==> before && !listed,
                MembershipRecordKind::ModeIsInclude => after <==> listed,
                MembershipRecordKind::ChangeToInclude => after <==> listed,
                MembershipRecordKind::ModeIsExclude => after <==> !listed,
                MembershipRecordKind::ChangeToExclude => after <==> !listed,
                MembershipRecordKind::LegacyReport => after,
                MembershipRecordKind::LegacyLeave => !after,
            }
        }),
{
    lemma_listed_is_empty(record.sources);
    if record.sources.contains(source) {
        assert(record.sources.to_set().contains(source));
    }
    if groups.contains_key(record.group) {
        let known = groups[record.group].sources;
        let left = known.difference(record.sources.to_set());
        if left == Set::<IpAddr>::empty() {
            assert(!left.contains(source));
        }
    }
}

/// What each kind of record does to the filter of its group: allowing and
/// blocking keep the filter of a group that stays; a group without an interest
/// gets one by allowing some sources, which then are the included ones; an
/// interest in no source at all is none.
pub proof fn law_records_decide_the_filter(groups: GroupsModel, record: RecordModel)
    ensures
        ({
            let after = record_applied(groups, record);
            let kept = after.contains_key(record.group);
            let excludes = kept && after[record.group].mode is Exclude;
            let excluded = groups.contains_key(record.group) && groups[record.group].mode is Exclude;
            match record.kind {
                MembershipRecordKind::AllowNewSources => {
                    &&& excludes <==> excluded
                    &&& kept <==> groups.contains_key(record.group) || record.sources.len() > 0
                },
                MembershipRecordKind::BlockOldSources => {
                    &&& excludes <==> excluded
                    &&& kept ==> groups.contains_key(record.group)
                },
                MembershipRecordKind::ModeIsInclude => !excludes && (kept <==> record.sources.len()
                    > 0),
                MembershipRecordKind::ChangeToInclude => !excludes && (kept
                    <==> record.sources.len() > 0),
                MembershipRecordKind::ModeIsExclude => excludes,
                MembershipRecordKind::ChangeToExclude => excludes,
                MembershipRecordKind::LegacyReport => excludes,
                MembershipRecordKind::LegacyLeave => !kept,
            }
        }),
{
}

/// A record speaks of its group alone.
pub proof fn law_records_touch_one_group(
    groups: GroupsModel,
    record: RecordModel,
    other: IpAddr,
)
    requires
        other != record.group,
    ensures
        record_applied(groups, record).contains_key(other) == groups.contains_key(other),
        groups.contains_key(other) ==> record_applied(groups, record)[other] == groups[other],
{
}

/// The records of a report take effect one after the other, and each counts
/// exactly if it changes something.
pub proof fn law_records_apply_in_order(
    groups: GroupsModel,
    records: Seq<RecordModel>,
    next: RecordModel,
)
    ensures
        records_applied(groups, Seq::empty()) == groups,
        effective_records(groups, Seq::empty()) == 0,
        records_applied(groups, records.push(next)) == record_applied(
            records_applied(groups, records),
            next,
        ),
        effective_records(groups, records.push(next)) == effective_records(groups, records) + (
        if records_applied(groups, records.push(next)) == records_applied(groups, records) {
            0int
        } else {
            1
        }),
{
    assert(records.push(next).drop_last() =~= records);
}

/// A report makes an endpoint want what its records say, record by record; an
/// endpoint is known exactly as long as it has an interest.
pub proof fn law_reports_decide_who_is_served<K>(
    table: TableModel<K>,
    endpoint: K,
    records: Seq<RecordModel>,
    group: IpAddr,
    source: IpAddr,
)
    ensures
        ({
            let after = report_applied(table, endpoint, records);
            let groups = records_applied(groups_of(table, endpoint), records);
            &&& wanting(after, source, group).contains(endpoint) <==> hears(groups, group, source)
            &&& after.contains_key(endpoint) <==> exists|known: IpAddr| #[trigger]
                groups.contains_key(known)
            &&& groups_of(table, endpoint) == (if table.contains_key(endpoint) {
                table[endpoint]
            } else {
                Map::empty()
            })
        }),
{
    let groups = records_applied(groups_of(table, endpoint), records);
    if forall|known: IpAddr| !(#[trigger] groups.contains_key(known)) {
        assert(groups =~= Map::empty());
    }
}

/// Only a report speaks for an endpoint, and a removed endpoint is served no more.
pub proof fn law_removed_endpoints_are_not_served<K>(
    table: TableModel<K>,
    endpoint: K,
    group: IpAddr,
    source: IpAddr,
)
    ensures
        !wanting(table.remove(endpoint), source, group).contains(endpoint),
{
}

/// A limit is exceeded by what is above it and by nothing else, and the error
/// tells both numbers.
pub proof fn law_limits_are_exceeded_from_above(
    resource: Seq<char>,
    requested: int,
    limit: usize,
)
    ensures
        over_limit(resource, requested, limit) is Some <==> requested > limit,
        over_limit(resource, requested, limit) matches Some(error) ==> error.resource == resource
            && error.requested == requested && error.limit == limit,
{
}

/// A table that exceeds a limit is refused: it is accepted only if it keeps to
/// every single one.
pub proof fn law_no_limit_is_passed_over<K: MembershipEndpoint>(
    table: &MembershipTable<K>,
    endpoint: K,
    limits: RelayLimits,
    group: IpAddr,
)
    requires
        table.wf(),
        ({
            ||| table@.dom().len() > limits.max_endpoints
            ||| neighbours(table@, endpoint) > limits.max_endpoints_per_ip
            ||| groups_of(table@, endpoint).dom().len() > limits.max_groups_per_endpoint
            ||| groups_of(table@, endpoint).contains_key(group) && groups_of(
                table@,
                endpoint,
            )[group].sources.len() > limits.max_sources_per_group
            ||| subscriptions_of(table@).len() > limits.max_upstream_subscriptions
        }),
    ensures
        table_limit_error(table@, endpoint, limits) is Some,
{
    table.lemma_facts();
    let groups = groups_of(table@, endpoint);
    assert(is_widest_group(groups, widest_group(groups)));
}

/// The limits leave room: a table within all of them is accepted.
pub proof fn law_tables_within_the_limits_are_accepted<K: MembershipEndpoint>(
    table: &MembershipTable<K>,
    endpoint: K,
    limits: RelayLimits,
)
    requires
        table.wf(),
        table@.dom().len() <= limits.max_endpoints,
        neighbours(table@, endpoint) <= limits.max_endpoints_per_ip,
        groups_of(table@, endpoint).dom().len() <= limits.max_groups_per_endpoint,
        forall|group: IpAddr| #[trigger]
            groups_of(table@, endpoint).contains_key(group) ==> groups_of(
                table@,
                endpoint,
            )[group].sources.len() <= limits.max_sources_per_group,
        endpoint_groups(table@).len() <= limits.max_total_endpoint_groups,
        listed_sources(table@).len() <= limits.max_total_sources,
        subscriptions_of(table@).len() <= limits.max_upstream_subscriptions,
    ensures
        table_limit_error(table@, endpoint, limits) is None,
{
    table.lemma_facts();
    let groups = groups_of(table@, endpoint);
    let widest = widest_group(groups);
    assert(is_widest_group(groups, widest));
    if widest > 0 {
        let group = choose|group: IpAddr| #[trigger]
            groups.contains_key(group) && groups[group].sources.len() == widest;
        assert(groups.contains_key(group));
    }
}

/// A whole group is subscribed to exactly if some endpoint excludes sources of
/// it, and a single source exactly if no endpoint does and some endpoint includes
/// it.
pub proof fn law_subscriptions_follow_the_filters<K>(
    table: TableModel<K>,
    group: IpAddr,
    source: IpAddr,
)
    ensures
        ({
            let anybody_excludes = exists|endpoint: K|
                #![trigger table.contains_key(endpoint)]
                table.contains_key(endpoint) && table[endpoint].contains_key(group)
                    && table[endpoint][group].mode is Exclude;
            let anybody_includes = exists|endpoint: K|
                #![trigger table.contains_key(endpoint)]
                table.contains_key(endpoint) && table[endpoint].contains_key(group)
                    && table[endpoint][group].mode is Include
                    && table[endpoint][group].sources.contains(source);
            &&& subscriptions_of(table).contains(UpstreamSubscription { group, source: None })
                <==> anybody_excludes
            &&& subscriptions_of(table).contains(
                UpstreamSubscription { group, source: Some(source) },
            ) <==> anybody_includes && !anybody_excludes
        }),
{
    let anybody_excludes = exists|endpoint: K|
        #![trigger table.contains_key(endpoint)]
        table.contains_key(endpoint) && table[endpoint].contains_key(group)
            && table[endpoint][group].mode is Exclude;
    let anybody_includes = exists|endpoint: K|
        #![trigger table.contains_key(endpoint)]
        table.contains_key(endpoint) && table[endpoint].contains_key(group)
            && table[endpoint][group].mode is Include && table[endpoint][group].sources.contains(
            source,
        );
    if anybody_excludes {
        let endpoint = choose|endpoint: K|
            #![trigger table.contains_key(endpoint)]
            table.contains_key(endpoint) && table[endpoint].contains_key(group)
                && table[endpoint][group].mode is Exclude;
        assert(excludes(table, endpoint, group));
    }
    if any_excludes(table, group) {
        let endpoint = choose|endpoint: K| excludes(table, endpoint, group);
        assert(table.contains_key(endpoint));
    }
    if anybody_includes {
        let endpoint = choose|endpoint: K|
            #![trigger table.contains_key(endpoint)]
            table.contains_key(endpoint) && table[endpoint].contains_key(group)
                && table[endpoint][group].mode is Include
                && table[endpoint][group].sources.contains(source);
        assert(includes(table, endpoint, group));
        assert(included_sources(table, group).contains(source));
    }
    if included_sources(table, group).contains(source) {
        let endpoint = choose|endpoint: K| #[trigger]
            includes(table, endpoint, group) && table[endpoint][group].sources.contains(source);
        assert(table.contains_key(endpoint));
    }
}

/// The state nears a limit in its last tenth; a limit of zero is never near.
pub proof fn law_the_last_tenth_is_near(value: int, limit: usize)
    ensures
        limit > 0 && value >= limit ==> nears(value, limit),
        limit > 0 && nears(value, limit) ==> 10 * value >= 9 * limit,
        limit > 0 && 10 * (value - 1) >= 9 * limit ==> nears(value, limit),
        limit == 0 ==> !nears(value, limit),
{
}

/// A host joins and leaves by the packets of earlier protocol versions: after an
/// MLDv1 Done (type 132) or an IGMPv2 Leave (type 0x17) it has no interest in the
/// group that the message names, and after a report (type 131, 0x12 or 0x16) it
/// wants all of the group.
pub proof fn law_hosts_join_and_leave_by_packets(
    groups: GroupsModel,
    s: Seq<u8>,
    limits: MembershipParseLimits,
    source: IpAddr,
)
    requires
        packet_report(s, limits) is Ok,
    ensures
        ({
            let records = packet_report(s, limits)->Ok_0.records;
            let after = records_applied(groups, records);
            let four = s[0] / 16 == 4;
            let at = if four {
                s[0] % 16 * 4
            } else {
                48 + s[41] * 8
            };
            let joins = if four {
                s[at] == 0x12 || s[at] == 0x16
            } else {
                s[at] == 131
            };
            let leaves = if four {
                s[at] == 0x17
            } else {
                s[at] == 132
            };
            &&& joins || leaves ==> {
                &&& records.len() == 1
                &&& (records[0].group is V4) == four
                &&& spells(
                    s,
                    at + if four {
                        4int
                    } else {
                        8
                    },
                    records[0].group,
                )
            }
            &&& leaves ==> !after.contains_key(records[0].group)
            &&& joins ==> hears(after, records[0].group, source)
        }),
{
    let report = packet_report(s, limits)->Ok_0;
    let records = report.records;
    if records.len() == 1 {
        law_records_apply_in_order(groups, Seq::empty(), records[0]);
        assert(Seq::empty().push(records[0]) =~= records);
        law_records_decide_the_filter(groups, records[0]);
        law_records_decide_who_is_heard(groups, records[0], source);
    }
    if s[0] / 16 == 4 {
        law_igmp_is_found_in_its_packet(s, limits);
        let header = s[0] % 16 * 4;
        let message = s.subrange(header, s[2] * 256 + s[3]);
        law_igmp_types_say_what_is_reported(message, limits);
        assert(message[0] == s[header]);
        assert(message[4] == s[header + 4] && message[5] == s[header + 5] && message[6]
            == s[header + 6] && message[7] == s[header + 7]);
    } else {
        law_mld_is_found_in_its_packet(s, limits);
        let start = 48 + s[41] * 8;
        let message = s.subrange(start, 40 + s[4] * 256 + s[5]);
        assert(message[0] == s[start]);
        if message.len() >= 24 {
            law_mld_types_say_what_is_reported(
                s.subrange(8, 24),
                s.subrange(24, 40),
                message,
                limits,
            );
            assert forall|i: int| 8 <= i < 24 implies #[trigger] message[i] == s[start + i] by {}
            if message[0] == 131 || message[0] == 132 {
                let group = records[0].group;
                assert(spells(s, start + 8, group)) by {
                    if let IpAddr::V6(a) = group {
                        assert forall|i: int| start + 8 <= i < start + 24 implies (a.bits as int
                            / pow(256, (15 - (i - (start + 8))) as nat)) % 256 == #[trigger] s[i] by {
                            assert(message[i - start] == s[i]);
                        }
                    }
                }
            }
        }
    }
}

/// A report itself is within the limits exactly if it has no more records than
/// allowed and none of them lists more sources than allowed.
pub proof fn law_reports_are_held_to_the_limits(records: Seq<RecordModel>, limits: RelayLimits)
    ensures
        report_limit_error(records, limits) is None <==> records.len()
            <= limits.max_records_per_report && forall|i: int|
            0 <= i < records.len() ==> (#[trigger] records[i]).sources.len()
                <= limits.max_sources_per_group,
{
    lemma_sources_limit(records, limits);
}

proof fn lemma_sources_limit(records: Seq<RecordModel>, limits: RelayLimits)
    ensures
        sources_limit_error(records, limits) is None <==> forall|i: int|
            0 <= i < records.len() ==> (#[trigger] records[i]).sources.len()
                <= limits.max_sources_per_group,
    decreases records.len(),
{
    if records.len() > 0 {
        let front = records.drop_last();
        lemma_sources_limit(front, limits);
        if forall|i: int|
            0 <= i < records.len() ==> (#[trigger] records[i]).sources.len()
                <= limits.max_sources_per_group {
            assert forall|i: int| 0 <= i < front.len() implies (
            #[trigger] front[i]).sources.len() <= limits.max_sources_per_group by {
                assert(front[i] == records[i]);
            }
            assert(records[records.len() - 1] == records.last());
        }
        if sources_limit_error(records, limits) is None {
            assert forall|i: int| 0 <= i < records.len() implies (
            #[trigger] records[i]).sources.len() <= limits.max_sources_per_group by {
                if i < front.len() {
                    assert(front[i] == records[i]);
                }
            }
        }
    }
}

/// The endpoints that share an address are those whose socket address has it.
pub proof fn law_neighbours_share_the_address(
    table: TableModel<SocketAddr>,
    address: IpAddr,
    endpoint: SocketAddr,
)
    ensures
        endpoints_under(table, address).contains(endpoint) <==> table.contains_key(endpoint)
            && address == match endpoint {
            SocketAddr::V4(a) => IpAddr::V4(a.ip),
            SocketAddr::V6(a) => IpAddr::V6(a.ip),
        },
        neighbours(table, endpoint) == endpoints_under(
            table,
            match endpoint {
                SocketAddr::V4(a) => IpAddr::V4(a.ip),
                SocketAddr::V6(a) => IpAddr::V6(a.ip),
            },
        ).len(),
{
}

} // verus!
