//! What a gateway wants: from its configuration, and from local hosts.

use crate::daemon::GatewayJoin;
use crate::gateway_setup::{is_ssm_group, ssm_group};
use crate::local_membership::{
    current_report_of, lemma_stated_is_known, record_for_interest, statable, state_records,
    wanted_now, LocalMembershipManager, LocalModel, ReportRecordMode,
};
use crate::membership::{
    record_models, MembershipRecord, MembershipRecordKind, MembershipReport, RecordModel,
    ReportModel,
};
use crate::net::{IpAddr, Ipv4Addr, SocketAddr, SocketAddrV4};
use crate::ordered::{in_order, OrdKey, OrdMap, OrdSet, Stored};
use crate::protocol::MembershipProtocol;
use crate::state::{
    aggregate_of, interested, law_joint_interest_covers_every_endpoint, report_applied, FilterMode,
    GroupInterest, GroupsModel, InterestModel, RelayState, TableModel,
};
use vstd::prelude::*;

verus! {

/// Interests with one more join: a join without a source wants the whole group,
/// which outweighs its sources.
pub open spec fn join_added(groups: GroupsModel, join: GatewayJoin) -> GroupsModel {
    match join.source {
        None => groups.insert(join.group, InterestModel::excluding(Set::empty())),
        Some(source) => if !groups.contains_key(join.group) {
            groups.insert(join.group, InterestModel::including(Set::empty().insert(source)))
        } else if groups[join.group].mode is Include {
            groups.insert(
                join.group,
                InterestModel::including(groups[join.group].sources.insert(source)),
            )
        } else {
            groups
        },
    }
}

/// The interests that joins make.
pub open spec fn joins_made(joins: Seq<GatewayJoin>) -> GroupsModel
    decreases joins.len(),
{
    if joins.len() == 0 {
        Map::empty()
    } else {
        join_added(joins_made(joins.drop_last()), joins.last())
    }
}

/// The report that states some interests, if there are any.
pub open spec fn stated(protocol: MembershipProtocol, groups: GroupsModel) -> Option<ReportModel> {
    let records = state_records(in_order(groups.dom()), groups);
    if records.len() == 0 {
        None
    } else {
        Some(ReportModel { protocol, records })
    }
}

fn collect_joins(joins: &Vec<GatewayJoin>) -> (groups: OrdMap<IpAddr, GroupInterest>)
    ensures
        groups.wf(),
        groups@ == joins_made(joins@),
{
    let mut groups: OrdMap<IpAddr, GroupInterest> = OrdMap::new();
    let mut i: usize = 0;
    proof {
        assert(joins@.take(0) =~= Seq::empty());
    }
    while i < joins.len()
        invariant
            i <= joins@.len(),
            groups.wf(),
            groups@ == joins_made(joins@.take(i as int)),
        decreases joins@.len() - i,
    {
        proof {
            assert(joins@.take(i + 1).drop_last() =~= joins@.take(i as int));
        }
        add_join(&mut groups, joins[i]);
        i += 1;
    }
    proof {
        assert(joins@.take(i as int) =~= joins@);
    }
    groups
}

fn add_join(groups: &mut OrdMap<IpAddr, GroupInterest>, join: GatewayJoin)
    requires
        old(groups).wf(),
    ensures
        final(groups).wf(),
        final(groups)@ == join_added(old(groups)@, join),
{
    let source = match join.source {
        None => {
            let none: Vec<IpAddr> = Vec::new();
            let interest = GroupInterest::exclude(&none);
            proof {
                assert(none@.to_set() =~= Set::empty());
            }
            groups.insert(join.group, interest);
            return;
        },
        Some(source) => source,
    };
    let known = match groups.get(join.group) {
        None => None,
        Some(interest) => Some(interest.duplicate()),
    };
    match known {
        None => {
            let mut sources: Vec<IpAddr> = Vec::new();
            sources.push(source);
            let interest = GroupInterest::including(&sources);
            proof {
                lemma_single(source, sources@);
            }
            groups.insert(join.group, interest);
        },
        Some(interest) => {
            if matches!(interest.mode, FilterMode::Include) {
                let mut wider = interest;
                wider.sources.insert(source);
                groups.insert(join.group, wider);
            }
        },
    }
}

proof fn lemma_single(source: IpAddr, sources: Seq<IpAddr>)
    requires
        sources == Seq::<IpAddr>::empty().push(source),
    ensures
        sources.to_set() == Set::<IpAddr>::empty().insert(source),
{
    assert forall|s: IpAddr| sources.to_set().contains(s) <==> #[trigger] Set::<
        IpAddr,
    >::empty().insert(source).contains(s) by {
        if s == source {
            assert(sources[0] == s);
        }
    }
    assert(sources.to_set() =~= Set::<IpAddr>::empty().insert(source));
}

/// The records that state some interests.
pub fn records_of_interests(groups: &OrdMap<IpAddr, GroupInterest>) -> (records: Vec<
    MembershipRecord,
>)
    requires
        groups.wf(),
    ensures
        record_models(records@) == state_records(in_order(groups@.dom()), groups@),
{
    let ghost keys = groups.keys_seq();
    let mut records: Vec<MembershipRecord> = Vec::new();
    let mut i: usize = 0;
    proof {
        groups.lemma_facts();
        assert(keys.take(0) =~= Seq::empty());
        assert(record_models(records@) =~= Seq::empty());
    }
    while i < groups.len()
        invariant
            groups.wf(),
            keys == groups.keys_seq(),
            i <= keys.len(),
            record_models(records@) == state_records(keys.take(i as int), groups@),
        decreases keys.len() - i,
    {
        let ghost before = records@;
        let group = groups.key_at(i);
        records.push(record_for_interest(group, groups.value_at(i), ReportRecordMode::State));
        proof {
            assert(keys.take(i + 1).drop_last() =~= keys.take(i as int));
            assert(record_models(records@) =~= record_models(before).push(records@.last()@));
        }
        i += 1;
    }
    proof {
        groups.lemma_facts();
        assert(keys.take(keys.len() as int) =~= keys);
    }
    records
}

/// The report on the configured joins, if there are any.
pub fn configured_joins_report(protocol: MembershipProtocol, joins: &Vec<GatewayJoin>) -> (report:
    Option<MembershipReport>)
    ensures
        match report {
            Some(report) => stated(protocol, joins_made(joins@)) == Some(report@),
            None => stated(protocol, joins_made(joins@)) is None,
        },
{
    let groups = collect_joins(joins);
    let records = records_of_interests(&groups);
    proof {
        assert(record_models(records@).len() == records@.len());
    }
    if records.len() == 0 {
        None
    } else {
        Some(MembershipReport { protocol, records })
    }
}

/// The endpoint under which configured joins are merged.
pub open spec fn configured_endpoint() -> SocketAddr {
    SocketAddr::V4(SocketAddrV4 { ip: Ipv4Addr { bits: 0 }, port: 1 })
}

/// The endpoint under which the interests of local hosts are merged.
pub open spec fn local_endpoint() -> SocketAddr {
    SocketAddr::V4(SocketAddrV4 { ip: Ipv4Addr { bits: 0 }, port: 2 })
}

/// A table after an optional report.
pub open spec fn perhaps_applied(
    table: TableModel<SocketAddr>,
    endpoint: SocketAddr,
    report: Option<ReportModel>,
) -> TableModel<SocketAddr> {
    match report {
        Some(report) => report_applied(table, endpoint, report.records),
        None => table,
    }
}

/// What a gateway wants altogether: what is configured and what local hosts
/// want, merged.
pub open spec fn wanted_altogether(
    protocol: MembershipProtocol,
    joins: Seq<GatewayJoin>,
    local: Option<LocalModel>,
) -> GroupsModel {
    let configured = perhaps_applied(
        Map::empty(),
        configured_endpoint(),
        stated(protocol, joins_made(joins)),
    );
    let merged = perhaps_applied(
        configured,
        local_endpoint(),
        match local {
            Some(local) => current_report_of(local),
            None => None,
        },
    );
    aggregate_of(merged)
}

/// The report on what a gateway wants altogether.
pub open spec fn desired_report(
    protocol: MembershipProtocol,
    joins: Seq<GatewayJoin>,
    local: Option<LocalModel>,
) -> ReportModel {
    let groups = wanted_altogether(protocol, joins, local);
    ReportModel { protocol, records: state_records(in_order(groups.dom()), groups) }
}

/// Local memberships in terms of what they say.
pub open spec fn local_model(local: Option<&LocalMembershipManager>) -> Option<LocalModel> {
    match local {
        Some(local) => Some(local@),
        None => None,
    }
}

/// The report on what a gateway wants altogether.
pub fn desired_membership_report(
    protocol: MembershipProtocol,
    joins: &Vec<GatewayJoin>,
    local: Option<&LocalMembershipManager>,
) -> (report: MembershipReport)
    requires
        local matches Some(local) ==> local.wf(),
    ensures
        report@ == desired_report(protocol, joins@, local_model(local)),
{
    let mut state = RelayState::new();
    if let Some(report) = configured_joins_report(protocol, joins) {
        state.apply_report(
            SocketAddr::V4(SocketAddrV4 { ip: Ipv4Addr { bits: 0 }, port: 1 }),
            &report,
        );
    }
    if let Some(local) = local {
        if let Some(report) = local.current_report() {
            state.apply_report(
                SocketAddr::V4(SocketAddrV4 { ip: Ipv4Addr { bits: 0 }, port: 2 }),
                &report,
            );
        }
    }
    let records = records_of_interests(state.aggregate_interests_ref());
    MembershipReport { protocol, records }
}

/// A gateway wants packets of a source to a group by its configured joins
/// exactly if some join names the group without a source, or with that source.
pub proof fn law_joins_want_what_they_name(joins: Seq<GatewayJoin>, group: IpAddr, source: IpAddr)
    ensures
        ({
            let named = exists|i: int|
                0 <= i < joins.len() && (#[trigger] joins[i]).group == group && (joins[i].source
                    is None || joins[i].source == Some(source));
            let wanted = joins_made(joins).contains_key(group) && joins_made(joins)[group].wants(
                source,
            );
            named == wanted
        }),
    decreases joins.len(),
{
    lemma_made_modes(joins, group);
    if joins.len() > 0 {
        let front = joins.drop_last();
        let last = joins.last();
        law_joins_want_what_they_name(front, group, source);
        lemma_made_modes(front, group);
        let named_before = exists|i: int|
            0 <= i < front.len() && (#[trigger] front[i]).group == group && (front[i].source is None
                || front[i].source == Some(source));
        let named = exists|i: int|
            0 <= i < joins.len() && (#[trigger] joins[i]).group == group && (joins[i].source is None
                || joins[i].source == Some(source));
        assert(named == (named_before || (last.group == group && (last.source is None
            || last.source == Some(source))))) by {
            if named_before {
                let i = choose|i: int|
                    0 <= i < front.len() && (#[trigger] front[i]).group == group && (
                    front[i].source is None || front[i].source == Some(source));
                assert(joins[i] == front[i]);
            }
            if last.group == group && (last.source is None || last.source == Some(source)) {
                assert(joins[joins.len() - 1].group == group);
            }
            if named {
                let i = choose|i: int|
                    0 <= i < joins.len() && (#[trigger] joins[i]).group == group && (
                    joins[i].source is None || joins[i].source == Some(source));
                if i < front.len() {
                    assert(front[i] == joins[i]);
                }
            }
        }
    }
}

proof fn lemma_joins_are_statable(joins: Seq<GatewayJoin>)
    ensures
        statable(joins_made(joins)),
    decreases joins.len(),
{
    if joins.len() > 0 {
        lemma_joins_are_statable(joins.drop_last());
        let before = joins_made(joins.drop_last());
        let after = joins_made(joins);
        let last = joins.last();
        assert forall|group: IpAddr| #[trigger] after.contains_key(group) implies {
            &&& after[group].sources.finite()
            &&& after[group].mode is Include ==> after[group].sources != Set::<IpAddr>::empty()
        } by {
            if group == last.group {
                if let Some(source) = last.source {
                    if after[group].mode is Include {
                        assert(after[group].sources.contains(source));
                    }
                    if before.contains_key(group) {
                        assert(before[group].sources.finite());
                    }
                }
            } else {
                assert(before.contains_key(group));
            }
        }
    }
}

/// What one endpoint states is all that a table then knows of it.
proof fn lemma_stated_in_table(
    table: TableModel<SocketAddr>,
    endpoint: SocketAddr,
    protocol: MembershipProtocol,
    groups: GroupsModel,
)
    requires
        statable(groups),
        !table.contains_key(endpoint),
    ensures
        perhaps_applied(table, endpoint, stated(protocol, groups)) == if groups == Map::<
            IpAddr,
            InterestModel,
        >::empty() {
            table
        } else {
            table.insert(endpoint, groups)
        },
{
    lemma_stated_is_known(groups);
    let records = state_records(in_order(groups.dom()), groups);
    if records.len() > 0 {
        assert(crate::state::groups_of(table, endpoint) == Map::<IpAddr, InterestModel>::empty());
    }
}

/// What a gateway wants altogether is what its configuration names and what its
/// local hosts want, nothing else.
pub proof fn law_configured_and_local_are_wanted(
    protocol: MembershipProtocol,
    joins: Seq<GatewayJoin>,
    local: Option<LocalMembershipManager>,
    group: IpAddr,
    source: IpAddr,
)
    requires
        local matches Some(local) ==> local.wf(),
    ensures
        ({
            let model = match local {
                Some(local) => Some(local@),
                None => None,
            };
            let altogether = wanted_altogether(protocol, joins, model);
            let configured = joins_made(joins);
            let hosts = match model {
                Some(local) => wanted_now(local),
                None => Map::empty(),
            };
            (altogether.contains_key(group) && altogether[group].wants(source)) == ((
            configured.contains_key(group) && configured[group].wants(source)) || (
            hosts.contains_key(group) && hosts[group].wants(source)))
        }),
{
    let model = match local {
        Some(local) => Some(local@),
        None => None,
    };
    let configured = joins_made(joins);
    let hosts: GroupsModel = match model {
        Some(local) => wanted_now(local),
        None => Map::empty(),
    };
    let none: TableModel<SocketAddr> = Map::empty();
    let a = configured_endpoint();
    let b = local_endpoint();
    lemma_joins_are_statable(joins);
    lemma_stated_in_table(none, a, protocol, configured);
    let first = perhaps_applied(none, a, stated(protocol, configured));
    let second = match model {
        Some(local) => perhaps_applied(first, b, current_report_of(local)),
        None => first,
    };
    assert(second == if hosts == Map::<IpAddr, InterestModel>::empty() {
        first
    } else {
        first.insert(b, hosts)
    }) by {
        if let Some(manager) = local {
            manager.lemma_wanted_is_reportable();
            lemma_stated_in_table(first, b, manager.config.protocol, hosts);
            assert(current_report_of(manager@) == stated(manager.config.protocol, hosts));
        }
    }
    law_joint_interest_covers_every_endpoint(second, source, group);
    let wanted = exists|endpoint: SocketAddr| #[trigger]
        interested(second, endpoint, group) && second[endpoint][group].wants(source);
    if configured.contains_key(group) && configured[group].wants(source) {
        assert(interested(second, a, group) && second[a][group].wants(source));
    }
    if hosts.contains_key(group) && hosts[group].wants(source) {
        assert(interested(second, b, group) && second[b][group].wants(source));
    }
    if wanted {
        let e = choose|endpoint: SocketAddr| #[trigger]
            interested(second, endpoint, group) && second[endpoint][group].wants(source);
        assert(e == a || e == b);
    }
}

/// A group that is wanted with exclusions excludes nothing.
proof fn lemma_made_modes(joins: Seq<GatewayJoin>, group: IpAddr)
    ensures
        joins_made(joins).contains_key(group) && joins_made(joins)[group].mode is Exclude
            ==> joins_made(joins)[group].sources == Set::<IpAddr>::empty(),
    decreases joins.len(),
{
    if joins.len() > 0 {
        lemma_made_modes(joins.drop_last(), group);
    }
}

/// Whether a record can be served by relays discovered for its sources.
pub open spec fn served_by_source(record: RecordModel) -> bool {
    record.kind is ModeIsInclude && ssm_group(record.group)
}

/// The sources that such records name.
pub open spec fn sources_named(records: Seq<RecordModel>) -> Set<IpAddr>
    decreases records.len(),
{
    if records.len() == 0 {
        Set::empty()
    } else if served_by_source(records.last()) {
        sources_named(records.drop_last()).union(records.last().sources.to_set())
    } else {
        sources_named(records.drop_last())
    }
}

/// The record that includes one source of a group.
pub open spec fn single_record(group: IpAddr, source: IpAddr) -> RecordModel {
    RecordModel {
        kind: MembershipRecordKind::ModeIsInclude,
        group,
        sources: seq![source],
    }
}

/// What such records say of one source.
pub open spec fn records_for(records: Seq<RecordModel>, source: IpAddr) -> Seq<RecordModel>
    decreases records.len(),
{
    if records.len() == 0 {
        Seq::empty()
    } else {
        let front = records_for(records.drop_last(), source);
        if served_by_source(records.last()) && records.last().sources.contains(source) {
            front.push(single_record(records.last().group, source))
        } else {
            front
        }
    }
}

/// How many records cannot be served by relays discovered for their sources.
pub open spec fn unserved(records: Seq<RecordModel>) -> nat
    decreases records.len(),
{
    if records.len() == 0 {
        0
    } else {
        unserved(records.drop_last()) + (if served_by_source(records.last()) {
            0nat
        } else {
            1
        })
    }
}

/// What a gateway wants of one source.
#[derive(Debug, PartialEq, Eq)]
pub struct SourceReport {
    pub source: IpAddr,
    pub report: MembershipReport,
}

/// A [`SourceReport`] with its records as mathematical values.
pub struct SourceReportModel {
    pub source: IpAddr,
    pub report: ReportModel,
}

impl View for SourceReport {
    type V = SourceReportModel;

    open spec fn view(&self) -> SourceReportModel {
        SourceReportModel { source: self.source, report: self.report@ }
    }
}

/// What some reports say.
pub open spec fn source_reports(reports: Seq<SourceReport>) -> Seq<SourceReportModel> {
    reports.map_values(|report: SourceReport| report@)
}

/// What a gateway wants, source by source.
pub open spec fn by_source(protocol: MembershipProtocol, records: Seq<RecordModel>) -> Seq<
    SourceReportModel,
> {
    in_order(sources_named(records)).map_values(
        |source: IpAddr|
            SourceReportModel {
                source,
                report: ReportModel { protocol, records: records_for(records, source) },
            },
    )
}

fn is_served(record: &MembershipRecord) -> (b: bool)
    ensures
        b == served_by_source(record@),
{
    matches!(record.kind, MembershipRecordKind::ModeIsInclude) && is_ssm_group(record.group)
}

fn lists(sources: &Vec<IpAddr>, source: IpAddr) -> (b: bool)
    ensures
        b == sources@.contains(source),
{
    let mut i: usize = 0;
    while i < sources.len()
        invariant
            i <= sources@.len(),
            forall|k: int| 0 <= k < i ==> sources@[k] != source,
        decreases sources@.len() - i,
    {
        if sources[i] == source {
            return true;
        }
        i += 1;
    }
    false
}

fn collect_for(records: &Vec<MembershipRecord>, source: IpAddr) -> (found: Vec<MembershipRecord>)
    ensures
        record_models(found@) == records_for(record_models(records@), source),
{
    let ghost models = record_models(records@);
    let mut found: Vec<MembershipRecord> = Vec::new();
    let mut i: usize = 0;
    proof {
        assert(models.take(0) =~= Seq::empty());
        assert(record_models(found@) =~= Seq::empty());
    }
    while i < records.len()
        invariant
            i <= records@.len(),
            models == record_models(records@),
            record_models(found@) == records_for(models.take(i as int), source),
        decreases records@.len() - i,
    {
        let ghost before = found@;
        proof {
            assert(models.take(i + 1).drop_last() =~= models.take(i as int));
            assert(models.take(i + 1).last() == records@[i as int]@);
        }
        if is_served(&records[i]) && lists(&records[i].sources, source) {
            let mut sources: Vec<IpAddr> = Vec::new();
            sources.push(source);
            found.push(
                MembershipRecord {
                    kind: MembershipRecordKind::ModeIsInclude,
                    group: records[i].group,
                    sources,
                },
            );
            proof {
                assert(sources@ =~= seq![source]);
                assert(record_models(found@) =~= record_models(before).push(found@.last()@));
            }
        }
        i += 1;
    }
    proof {
        assert(models.take(i as int) =~= models);
    }
    found
}

/// What a gateway wants, source by source, and how much of what it wants cannot
/// be served that way.
pub fn reports_by_source(protocol: MembershipProtocol, records: &Vec<MembershipRecord>) -> (result:
    (Vec<SourceReport>, usize))
    ensures
        source_reports(result.0@) == by_source(protocol, record_models(records@)),
        result.1 == unserved(record_models(records@)),
{
    let ghost models = record_models(records@);
    let mut sources: OrdSet<IpAddr> = OrdSet::new();
    let mut unsupported: usize = 0;
    let mut i: usize = 0;
    proof {
        assert(models.take(0) =~= Seq::empty());
    }
    while i < records.len()
        invariant
            i <= records@.len(),
            models == record_models(records@),
            sources.wf(),
            sources@ == sources_named(models.take(i as int)),
            unsupported == unserved(models.take(i as int)),
            unsupported <= i,
        decreases records@.len() - i,
    {
        proof {
            assert(models.take(i + 1).drop_last() =~= models.take(i as int));
            assert(models.take(i + 1).last() == records@[i as int]@);
        }
        if is_served(&records[i]) {
            sources.insert_list(&records[i].sources);
        } else {
            unsupported += 1;
        }
        i += 1;
    }
    let ghost list = sources.seq();
    let ghost all = by_source(protocol, models);
    let mut reports: Vec<SourceReport> = Vec::new();
    let mut k: usize = 0;
    proof {
        assert(models.take(i as int) =~= models);
        sources.lemma_facts();
        assert(source_reports(reports@) =~= all.take(0));
    }
    while k < sources.len()
        invariant
            models == record_models(records@),
            sources.wf(),
            list == sources.seq(),
            list == in_order(sources_named(models)),
            all == by_source(protocol, models),
            k <= list.len(),
            source_reports(reports@) == all.take(k as int),
        decreases list.len() - k,
    {
        let ghost before = reports@;
        let source = sources.at(k);
        let report = MembershipReport { protocol, records: collect_for(records, source) };
        reports.push(SourceReport { source, report });
        proof {
            assert(all[k as int] == reports@.last()@);
            assert(all.take(k + 1) =~= all.take(k as int).push(all[k as int]));
            assert(source_reports(reports@) =~= source_reports(before).push(reports@.last()@));
        }
        k += 1;
    }
    proof {
        sources.lemma_facts();
        assert(all.take(k as int) =~= all);
    }
    (reports, unsupported)
}

/// What a gateway wants, source by source, and how much of what it wants cannot
/// be served by relays discovered for sources.
pub fn desired_driad_reports(
    protocol: MembershipProtocol,
    joins: &Vec<GatewayJoin>,
    local: Option<&LocalMembershipManager>,
) -> (result: (Vec<SourceReport>, usize))
    requires
        local matches Some(local) ==> local.wf(),
    ensures
        ({
            let records = desired_report(protocol, joins@, local_model(local)).records;
            source_reports(result.0@) == by_source(protocol, records) && result.1 == unserved(
                records,
            )
        }),
{
    let desired = desired_membership_report(protocol, joins, local);
    reports_by_source(protocol, &desired.records)
}

/// Splitting by source loses nothing that can be served: where a record
/// includes a source of a source-specific group, the report for that source
/// includes it.
pub proof fn law_every_source_is_served(records: Seq<RecordModel>, i: int, source: IpAddr)
    requires
        0 <= i < records.len(),
        served_by_source(records[i]),
        records[i].sources.contains(source),
    ensures
        sources_named(records).contains(source),
        records_for(records, source).contains(single_record(records[i].group, source)),
    decreases records.len(),
{
    let front = records.drop_last();
    if i < front.len() {
        assert(front[i] == records[i]);
        law_every_source_is_served(front, i, source);
        let wanted = single_record(records[i].group, source);
        let k = choose|k: int|
            0 <= k < records_for(front, source).len() && records_for(front, source)[k] == wanted;
        assert(records_for(records, source)[k] == wanted);
    } else {
        let all = records_for(records, source);
        assert(all[all.len() - 1] == single_record(records[i].group, source));
        assert(records.last().sources.to_set().contains(source));
    }
}

fn same_sources(a: &Vec<IpAddr>, b: &Vec<IpAddr>) -> (same: bool)
    ensures
        same == (a@ == b@),
{
    if a.len() != b.len() {
        return false;
    }
    let mut i: usize = 0;
    while i < a.len()
        invariant
            i <= a@.len(),
            a@.len() == b@.len(),
            forall|k: int| 0 <= k < i ==> a@[k] == b@[k],
        decreases a@.len() - i,
    {
        if a[i] != b[i] {
            return false;
        }
        i += 1;
    }
    proof {
        assert(a@ =~= b@);
    }
    true
}

fn same_record(a: &MembershipRecord, b: &MembershipRecord) -> (same: bool)
    ensures
        same == (a@ == b@),
{
    a.kind == b.kind && a.group == b.group && same_sources(&a.sources, &b.sources)
}

/// Whether two reports say the same.
pub fn same_reports(a: &MembershipReport, b: &MembershipReport) -> (same: bool)
    ensures
        same == (a@ == b@),
{
    let ghost x = record_models(a.records@);
    let ghost y = record_models(b.records@);
    proof {
        assert(x.len() == a.records@.len() && y.len() == b.records@.len());
    }
    if a.protocol != b.protocol || a.records.len() != b.records.len() {
        return false;
    }
    let mut i: usize = 0;
    while i < a.records.len()
        invariant
            i <= a.records@.len(),
            a.records@.len() == b.records@.len(),
            x == record_models(a.records@),
            y == record_models(b.records@),
            a@.records == x,
            b@.records == y,
            forall|k: int| 0 <= k < i ==> #[trigger] x[k] == y[k],
        decreases a.records@.len() - i,
    {
        proof {
            assert(x[i as int] == a.records@[i as int]@);
            assert(y[i as int] == b.records@[i as int]@);
        }
        if !same_record(&a.records[i], &b.records[i]) {
            return false;
        }
        i += 1;
    }
    proof {
        assert(x =~= y);
    }
    true
}

/// The report for a source speaks of that source alone.
pub proof fn law_reports_hold_their_source_alone(records: Seq<RecordModel>, source: IpAddr, i: int)
    requires
        0 <= i < records_for(records, source).len(),
    ensures
        records_for(records, source)[i].sources == seq![source],
        records_for(records, source)[i].kind is ModeIsInclude,
    decreases records.len(),
{
    if records.len() > 0 {
        let front = records.drop_last();
        if i < records_for(front, source).len() {
            law_reports_hold_their_source_alone(front, source, i);
            assert(records_for(records, source)[i] == records_for(front, source)[i]);
        }
    }
}

/// Each group is reported once: the sources of one group share one record.
pub proof fn law_each_group_is_reported_once(joins: Seq<GatewayJoin>, i: int, j: int)
    requires
        0 <= i < j < state_records(in_order(joins_made(joins).dom()), joins_made(joins)).len(),
    ensures
        ({
            let records = state_records(in_order(joins_made(joins).dom()), joins_made(joins));
            records[i].group != records[j].group
        }),
{
    let made = joins_made(joins);
    let groups = in_order(made.dom());
    lemma_made_is_finite(joins);
    crate::ordered::lemma_in_order_lists(made.dom());
    lemma_records_follow_groups(groups, made, i);
    lemma_records_follow_groups(groups, made, j);
    assert(groups[i].rank() < groups[j].rank());
}

proof fn lemma_made_is_finite(joins: Seq<GatewayJoin>)
    ensures
        joins_made(joins).dom().finite(),
    decreases joins.len(),
{
    if joins.len() > 0 {
        lemma_made_is_finite(joins.drop_last());
    }
}

proof fn lemma_records_follow_groups(groups: Seq<IpAddr>, current: GroupsModel, i: int)
    requires
        0 <= i < state_records(groups, current).len(),
    ensures
        i < groups.len(),
        state_records(groups, current)[i].group == groups[i],
        state_records(groups, current).len() == groups.len(),
    decreases groups.len(),
{
    if groups.len() > 0 {
        let front = groups.drop_last();
        let before = state_records(front, current);
        if before.len() > 0 {
            lemma_records_follow_groups(front, current, 0);
        } else if front.len() > 0 {
            assert(before == state_records(front.drop_last(), current).push(
                crate::local_membership::interest_record(
                    front.last(),
                    current[front.last()],
                    crate::local_membership::ReportRecordMode::State,
                ),
            ));
        }
        if i < before.len() {
            lemma_records_follow_groups(front, current, i);
        }
    }
}

/// Splitting by source adds nothing: a source is named only where a record for it
/// can be served, and its report speaks only of groups of such records.
pub proof fn law_only_served_sources_are_named(records: Seq<RecordModel>, source: IpAddr, i: int)
    ensures
        sources_named(records).contains(source) ==> exists|k: int|
            0 <= k < records.len() && served_by_source(#[trigger] records[k])
                && records[k].sources.contains(source),
        0 <= i < records_for(records, source).len() ==> exists|k: int|
            0 <= k < records.len() && served_by_source(#[trigger] records[k])
                && records[k].sources.contains(source) && records[k].group == records_for(
                records,
                source,
            )[i].group,
    decreases records.len(),
{
    if records.len() > 0 {
        let front = records.drop_last();
        let last = records.last();
        law_only_served_sources_are_named(front, source, i);
        assert(records[records.len() - 1] == last);
        if sources_named(front).contains(source) {
            let k = choose|k: int|
                0 <= k < front.len() && served_by_source(#[trigger] front[k])
                    && front[k].sources.contains(source);
            assert(records[k] == front[k]);
        }
        if 0 <= i < records_for(front, source).len() {
            let k = choose|k: int|
                0 <= k < front.len() && served_by_source(#[trigger] front[k])
                    && front[k].sources.contains(source) && front[k].group == records_for(
                    front,
                    source,
                )[i].group;
            assert(records[k] == front[k]);
        }
    }
}

/// Which records can be served by discovered relays: those that state included
/// sources of a group in 232.0.0.0/8 or ff30::/12.
pub proof fn law_served_groups_are_source_specific(record: RecordModel)
    ensures
        served_by_source(record) <==> record.kind is ModeIsInclude && match record.group {
            IpAddr::V4(g) => g.bits / 0x100_0000 == 232,
            IpAddr::V6(g) => g.bits as int / 0x10_0000_0000_0000_0000_0000_0000_0000 == 0xff3,
        },
{
}

/// Every record that cannot be served counts, and no other.
pub proof fn law_unserved_records_are_counted(records: Seq<RecordModel>, next: RecordModel)
    ensures
        unserved(Seq::empty()) == 0,
        unserved(records.push(next)) == unserved(records) + if served_by_source(next) {
            0int
        } else {
            1
        },
{
    assert(records.push(next).drop_last() =~= records);
}

} // verus!
