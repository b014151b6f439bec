//! Transparent membership: what hosts on the gateway's own link want, and what
//! of it the gateway asks its relay for.

use crate::activity::{lemma_take_grows, stale_entries};
use crate::ip::ip_version;
use crate::membership::{
    no_limits, packet_report, parse_membership_report, record_models, MembershipParseError,
    MembershipRecord, MembershipRecordKind, MembershipReport, RecordModel, ReportModel,
    IGMPV3_REPORT_DESTINATION_BITS, MLDV2_REPORT_DESTINATION_BITS,
};
use crate::net::{ipv4_at, ipv6_at, read_ipv4, read_ipv6, IpAddr, Ipv4Addr, Ipv6Addr, SocketAddr};
use crate::ordered::{in_order, lemma_in_order_lists, OrdMap, OrdSet, Stored};
use crate::protocol::MembershipProtocol;
use crate::query::{build_general_query, query_bytes, GeneralQueryConfig};
use crate::state::{
    aggregate_of, record_applied, records_applied, report_applied, subscriptions_of, FilterMode, GroupInterest,
    GroupsModel, InterestModel, RelayState, TableModel, UpstreamSubscription,
};
use crate::time::{Duration, Instant};
use vstd::prelude::*;

verus! {

/// What the gateway does about memberships on its own link.
#[derive(Debug, Clone, Copy, PartialEq, Eq, Structural)]
pub struct LocalMembershipConfig {
    pub protocol: MembershipProtocol,
    pub interface: Option<IpAddr>,
    pub interface_index: Option<u32>,
    pub query_interval: Option<Duration>,
    /// How long a host counts after its last report.
    pub reporter_timeout: Duration,
}

impl LocalMembershipConfig {
    /// Queries every 30 seconds; hosts count for 260 seconds.
    pub fn new(protocol: MembershipProtocol) -> (config: Self)
        ensures
            config == (LocalMembershipConfig {
                protocol,
                interface: None,
                interface_index: None,
                query_interval: Some(Duration::secs_spec(30)),
                reporter_timeout: Duration::secs_spec(260),
            }),
    {
        LocalMembershipConfig {
            protocol,
            interface: None,
            interface_index: None,
            query_interval: Some(Duration::from_secs(30)),
            reporter_timeout: Duration::from_secs(260),
        }
    }

    /// The subscription under which reports reach the gateway.
    pub fn raw_config(&self) -> (plan: RawSubscriptionPlan)
        ensures
            plan == report_subscription(*self),
    {
        let group = match self.protocol {
            MembershipProtocol::Igmpv3 => IpAddr::V4(
                Ipv4Addr { bits: IGMPV3_REPORT_DESTINATION_BITS },
            ),
            MembershipProtocol::Mldv2 => IpAddr::V6(
                Ipv6Addr { bits: MLDV2_REPORT_DESTINATION_BITS },
            ),
        };
        let interface = match (self.protocol, self.interface) {
            (MembershipProtocol::Igmpv3, Some(IpAddr::V4(a))) => Some(IpAddr::V4(a)),
            (MembershipProtocol::Mldv2, Some(IpAddr::V6(a))) => Some(IpAddr::V6(a)),
            _ => None,
        };
        let interface_index = match self.protocol {
            MembershipProtocol::Igmpv3 => None,
            MembershipProtocol::Mldv2 => self.interface_index,
        };
        RawSubscriptionPlan { group, interface, interface_index }
    }

    fn query_config(&self) -> (config: GeneralQueryConfig)
        ensures
            config == query_config_of(*self),
    {
        let mut config = GeneralQueryConfig::default();
        match (self.protocol, self.interface) {
            (MembershipProtocol::Igmpv3, Some(IpAddr::V4(interface))) => {
                config.igmp_source = interface;
            },
            (MembershipProtocol::Mldv2, Some(IpAddr::V6(interface))) => {
                config.mld_source = interface;
            },
            _ => {},
        }
        config
    }
}

/// A subscription to any source of a group.
#[derive(Debug, Clone, Copy, PartialEq, Eq, Structural)]
pub struct RawSubscriptionPlan {
    pub group: IpAddr,
    pub interface: Option<IpAddr>,
    pub interface_index: Option<u32>,
}

/// Whether an address is of the family that a protocol reports on.
pub open spec fn fits_protocol(protocol: MembershipProtocol, address: IpAddr) -> bool {
    (protocol is Igmpv3) == (address is V4)
}

/// The subscription under which reports reach the gateway.
pub open spec fn report_subscription(config: LocalMembershipConfig) -> RawSubscriptionPlan {
    RawSubscriptionPlan {
        group: match config.protocol {
            MembershipProtocol::Igmpv3 => IpAddr::V4(
                Ipv4Addr { bits: IGMPV3_REPORT_DESTINATION_BITS },
            ),
            MembershipProtocol::Mldv2 => IpAddr::V6(
                Ipv6Addr { bits: MLDV2_REPORT_DESTINATION_BITS },
            ),
        },
        interface: match config.interface {
            Some(address) => if fits_protocol(config.protocol, address) {
                Some(address)
            } else {
                None
            },
            None => None,
        },
        interface_index: if config.protocol is Mldv2 {
            config.interface_index
        } else {
            None
        },
    }
}

/// The General Query that the gateway sends on its own link: the default one,
/// from its own address where that is known.
pub open spec fn query_config_of(config: LocalMembershipConfig) -> GeneralQueryConfig {
    let base = GeneralQueryConfig::default_spec();
    match (config.protocol, config.interface) {
        (MembershipProtocol::Igmpv3, Some(IpAddr::V4(address))) => GeneralQueryConfig {
            igmp_source: address,
            ..base
        },
        (MembershipProtocol::Mldv2, Some(IpAddr::V6(address))) => GeneralQueryConfig {
            mld_source: address,
            ..base
        },
        _ => base,
    }
}

/// What a host's report led to.
#[derive(Debug, PartialEq, Eq)]
pub struct LocalMembershipEvent {
    pub reporter: IpAddr,
    pub records_received: usize,
    pub active_subscriptions: Vec<UpstreamSubscription>,
}

/// Why a received packet is of no use.
#[derive(Debug, PartialEq, Eq)]
pub enum LocalMembershipError {
    /// The receiver failed, in its words.
    Receive(String),
    Parse(MembershipParseError),
}

impl LocalMembershipError {
    pub fn is_parse_error(&self) -> (b: bool)
        ensures
            b == (self is Parse),
    {
        matches!(self, LocalMembershipError::Parse(_))
    }
}

/// Whether interest in a group is passed on to a relay: not for groups of the
/// link, nor for the IPv4 groups of two service discovery protocols.
pub open spec fn exportable(group: IpAddr) -> bool {
    match group {
        IpAddr::V4(g) => g.multicast_spec() && g.bits / 256 != 0xe0_0000 && g.bits != 0xefff_fffa
            && g.bits != 0xefff_fffd,
        IpAddr::V6(g) => g.multicast_spec() && g.first_segment_spec() % 16 != 2,
    }
}

/// The interests that are passed on to a relay.
pub open spec fn exported(protocol: MembershipProtocol, interests: GroupsModel) -> GroupsModel {
    Map::new(
        |group: IpAddr|
            interests.contains_key(group) && fits_protocol(protocol, group) && exportable(group),
        |group: IpAddr| interests[group],
    )
}

/// Whether interest in a group is passed on to a relay.
pub fn is_amt_exportable_group(group: IpAddr) -> (b: bool)
    ensures
        b == exportable(group),
{
    match group {
        IpAddr::V4(g) => g.is_multicast() && g.bits / 256 != 0xe0_0000 && g.bits != 0xefff_fffa
            && g.bits != 0xefff_fffd,
        IpAddr::V6(g) => g.is_multicast() && g.first_segment() % 16 != 2,
    }
}

/// Whether an address is of the family that a protocol reports on.
pub fn group_matches_protocol(protocol: MembershipProtocol, group: IpAddr) -> (b: bool)
    ensures
        b == fits_protocol(protocol, group),
{
    matches!(
        (protocol, group),
        (MembershipProtocol::Igmpv3, IpAddr::V4(_)) | (MembershipProtocol::Mldv2, IpAddr::V6(_))
    )
}

/// The interests that are passed on to a relay.
pub fn filter_exportable_interests(
    protocol: MembershipProtocol,
    interests: &OrdMap<IpAddr, GroupInterest>,
) -> (kept: OrdMap<IpAddr, GroupInterest>)
    requires
        interests.wf(),
    ensures
        kept.wf(),
        kept@ == exported(protocol, interests@),
{
    let mut kept: OrdMap<IpAddr, GroupInterest> = OrdMap::new();
    let ghost keys = interests.keys_seq();
    let mut i: usize = 0;
    proof {
        interests.lemma_facts();
    }
    while i < interests.len()
        invariant
            interests.wf(),
            keys == interests.keys_seq(),
            i <= keys.len(),
            kept.wf(),
            forall|g: IpAddr| #[trigger]
                kept@.contains_key(g) <==> (keys.take(i as int).contains(g) && fits_protocol(
                    protocol,
                    g,
                ) && exportable(g)),
            forall|g: IpAddr| #[trigger] kept@.contains_key(g) ==> kept@[g] == interests@[g],
        decreases keys.len() - i,
    {
        let group = interests.key_at(i);
        let ghost before = kept@;
        if group_matches_protocol(protocol, group) && is_amt_exportable_group(group) {
            kept.insert(group, interests.value_at(i).duplicate());
        }
        proof {
            interests.lemma_facts();
            let shorter = keys.take(i as int);
            let longer = keys.take(i + 1);
            assert forall|g: IpAddr| #[trigger] kept@.contains_key(g) <==> (longer.contains(g)
                && fits_protocol(protocol, g) && exportable(g)) by {
                assert(before.contains_key(g) <==> (shorter.contains(g) && fits_protocol(
                    protocol,
                    g,
                ) && exportable(g)));
                lemma_take_grows(keys, i as int, g);
            }
        }
        i += 1;
    }
    proof {
        interests.lemma_facts();
        assert(keys.take(keys.len() as int) =~= keys);
        assert(kept@ =~= exported(protocol, interests@)) by {
            assert forall|g: IpAddr| kept@.contains_key(g) <==> #[trigger] exported(
                protocol,
                interests@,
            ).contains_key(g) by {
                assert(keys.contains(g) <==> keys.to_set().contains(g));
            }
        }
    }
    kept
}

/// Whether a record states a filter or a change of it.
#[derive(Debug, Clone, Copy, PartialEq, Eq, Structural)]
pub enum ReportRecordMode {
    State,
    Change,
}

/// The record for an interest, its sources in ascending order.
pub open spec fn interest_record(
    group: IpAddr,
    interest: InterestModel,
    mode: ReportRecordMode,
) -> RecordModel {
    RecordModel {
        kind: match (interest.mode, mode) {
            (FilterMode::Include, ReportRecordMode::State) => MembershipRecordKind::ModeIsInclude,
            (FilterMode::Include, ReportRecordMode::Change) => {
                MembershipRecordKind::ChangeToInclude
            },
            (FilterMode::Exclude, ReportRecordMode::State) => MembershipRecordKind::ModeIsExclude,
            (FilterMode::Exclude, ReportRecordMode::Change) => {
                MembershipRecordKind::ChangeToExclude
            },
        },
        group,
        sources: in_order(interest.sources),
    }
}

/// The record for an interest, its sources in ascending order.
pub fn record_for_interest(group: IpAddr, interest: &GroupInterest, mode: ReportRecordMode) -> (
    record: MembershipRecord)
    requires
        interest.stored_wf(),
    ensures
        record@ == interest_record(group, interest@, mode),
{
    proof {
        interest.sources.lemma_facts();
    }
    let kind = match (interest.mode, mode) {
        (FilterMode::Include, ReportRecordMode::State) => MembershipRecordKind::ModeIsInclude,
        (FilterMode::Include, ReportRecordMode::Change) => MembershipRecordKind::ChangeToInclude,
        (FilterMode::Exclude, ReportRecordMode::State) => MembershipRecordKind::ModeIsExclude,
        (FilterMode::Exclude, ReportRecordMode::Change) => MembershipRecordKind::ChangeToExclude,
    };
    MembershipRecord { kind, group, sources: interest.sources.to_list() }
}

/// The record that turns one interest in a group into another, if they differ.
pub open spec fn change_record(group: IpAddr, previous: GroupsModel, current: GroupsModel) -> Option<
    RecordModel,
> {
    if current.contains_key(group) {
        if previous.contains_key(group) && previous[group] == current[group] {
            None
        } else {
            Some(interest_record(group, current[group], ReportRecordMode::Change))
        }
    } else if previous.contains_key(group) {
        Some(crate::gateway::leave_record(group))
    } else {
        None
    }
}

/// The records that turn one set of interests into another, for the given
/// groups in their order.
pub open spec fn change_records(
    protocol: MembershipProtocol,
    groups: Seq<IpAddr>,
    previous: GroupsModel,
    current: GroupsModel,
) -> Seq<RecordModel>
    decreases groups.len(),
{
    if groups.len() == 0 {
        Seq::empty()
    } else {
        let front = change_records(protocol, groups.drop_last(), previous, current);
        let group = groups.last();
        match change_record(group, previous, current) {
            Some(record) => if fits_protocol(protocol, group) {
                front.push(record)
            } else {
                front
            },
            None => front,
        }
    }
}

/// The records that turn one set of interests into another, by group in
/// ascending order.
pub open spec fn delta(
    protocol: MembershipProtocol,
    previous: GroupsModel,
    current: GroupsModel,
) -> Seq<RecordModel> {
    change_records(protocol, in_order(previous.dom().union(current.dom())), previous, current)
}

/// The records that state a set of interests, for the given groups in their
/// order.
pub open spec fn state_records(groups: Seq<IpAddr>, current: GroupsModel) -> Seq<RecordModel>
    decreases groups.len(),
{
    if groups.len() == 0 {
        Seq::empty()
    } else {
        state_records(groups.drop_last(), current).push(
            interest_record(groups.last(), current[groups.last()], ReportRecordMode::State),
        )
    }
}

fn all_groups(
    previous: &OrdMap<IpAddr, GroupInterest>,
    current: &OrdMap<IpAddr, GroupInterest>,
) -> (groups: OrdSet<IpAddr>)
    requires
        previous.wf(),
        current.wf(),
    ensures
        groups.wf(),
        groups@ == previous@.dom().union(current@.dom()),
{
    let mut groups: OrdSet<IpAddr> = OrdSet::new();
    add_keys(&mut groups, previous);
    add_keys(&mut groups, current);
    proof {
        assert(groups@ =~= previous@.dom().union(current@.dom()));
    }
    groups
}

fn add_keys(groups: &mut OrdSet<IpAddr>, interests: &OrdMap<IpAddr, GroupInterest>)
    requires
        old(groups).wf(),
        interests.wf(),
    ensures
        final(groups).wf(),
        final(groups)@ == old(groups)@.union(interests@.dom()),
{
    let ghost keys = interests.keys_seq();
    let mut i: usize = 0;
    proof {
        interests.lemma_facts();
    }
    while i < interests.len()
        invariant
            interests.wf(),
            keys == interests.keys_seq(),
            i <= keys.len(),
            groups.wf(),
            forall|g: IpAddr| #[trigger]
                groups@.contains(g) <==> old(groups)@.contains(g) || keys.take(i as int).contains(
                    g,
                ),
        decreases keys.len() - i,
    {
        let ghost before = groups@;
        let group = interests.key_at(i);
        groups.insert(group);
        proof {
            assert forall|g: IpAddr| #[trigger] groups@.contains(g) <==> old(groups)@.contains(g)
                || keys.take(i + 1).contains(g) by {
                lemma_take_grows(keys, i as int, g);
                assert(before.contains(g) <==> old(groups)@.contains(g) || keys.take(
                    i as int,
                ).contains(g));
            }
        }
        i += 1;
    }
    proof {
        interests.lemma_facts();
        assert(keys.take(keys.len() as int) =~= keys);
        assert(groups@ =~= old(groups)@.union(interests@.dom())) by {
            assert forall|g: IpAddr| groups@.contains(g) <==> #[trigger] old(groups)@.union(
                interests@.dom(),
            ).contains(g) by {
                assert(keys.contains(g) <==> keys.to_set().contains(g));
            }
        }
    }
}

/// The records that turn one set of interests into another.
pub fn delta_records(
    protocol: MembershipProtocol,
    previous: &OrdMap<IpAddr, GroupInterest>,
    current: &OrdMap<IpAddr, GroupInterest>,
) -> (records: Vec<MembershipRecord>)
    requires
        previous.wf(),
        current.wf(),
    ensures
        record_models(records@) == delta(protocol, previous@, current@),
{
    let groups = all_groups(previous, current);
    let ghost seq = groups.seq();
    let mut records: Vec<MembershipRecord> = Vec::new();
    let mut i: usize = 0;
    proof {
        groups.lemma_facts();
        assert(seq.take(0) =~= Seq::empty());
        assert(record_models(records@) =~= Seq::empty());
    }
    while i < groups.len()
        invariant
            previous.wf(),
            current.wf(),
            groups.wf(),
            seq == groups.seq(),
            i <= seq.len(),
            record_models(records@) == change_records(
                protocol,
                seq.take(i as int),
                previous@,
                current@,
            ),
        decreases seq.len() - i,
    {
        let group = groups.at(i);
        let ghost before = records@;
        proof {
            assert(seq.take(i + 1).drop_last() =~= seq.take(i as int));
            assert(seq.take(i + 1).last() == group);
        }
        if group_matches_protocol(protocol, group) {
            match (previous.get(group), current.get(group)) {
                (Some(old_interest), Some(interest)) => {
                    if !old_interest.same(interest) {
                        records.push(
                            record_for_interest(group, interest, ReportRecordMode::Change),
                        );
                    }
                },
                (None, Some(interest)) => {
                    records.push(record_for_interest(group, interest, ReportRecordMode::Change));
                },
                (Some(_), None) => {
                    records.push(
                        MembershipRecord {
                            kind: MembershipRecordKind::ChangeToInclude,
                            group,
                            sources: Vec::new(),
                        },
                    );
                },
                (None, None) => {},
            }
        }
        proof {
            if records@.len() > before.len() {
                assert(record_models(records@) =~= record_models(before).push(records@.last()@));
                if !current@.contains_key(group) {
                    assert(records@.last()@ =~= crate::gateway::leave_record(group));
                }
            } else {
                assert(record_models(records@) =~= record_models(before));
            }
        }
        i += 1;
    }
    proof {
        groups.lemma_facts();
        assert(seq.take(seq.len() as int) =~= seq);
    }
    records
}

/// The address that a datagram says it comes from.
pub open spec fn datagram_source(s: Seq<u8>) -> Option<IpAddr> {
    if s.len() >= 20 && ip_version(s) == 4 {
        Some(IpAddr::V4(ipv4_at(s, 12)))
    } else if s.len() >= 40 && ip_version(s) == 6 {
        Some(IpAddr::V6(ipv6_at(s, 8)))
    } else {
        None
    }
}

/// The address that a datagram says it comes from.
pub fn parse_datagram_source(datagram: &[u8]) -> (source: Option<IpAddr>)
    ensures
        source == datagram_source(datagram@),
{
    if datagram.len() == 0 {
        return None;
    }
    let version: u8 = datagram[0] / 16;
    if version == 4 && datagram.len() >= 20 {
        Some(IpAddr::V4(read_ipv4(datagram, 12)))
    } else if version == 6 && datagram.len() >= 40 {
        Some(IpAddr::V6(read_ipv6(datagram, 8)))
    } else {
        None
    }
}

/// Who reported: the sender that the receiver saw, else the one that the
/// datagram names.
pub open spec fn reporter_of(source_ip: Option<IpAddr>, datagram: Seq<u8>) -> Option<IpAddr> {
    match source_ip {
        Some(address) => Some(address),
        None => datagram_source(datagram),
    }
}

/// Tracks what local hosts report; the caller owns the socket that receives
/// their reports.
#[derive(Debug, PartialEq, Eq)]
pub struct LocalMembershipManager {
    pub config: LocalMembershipConfig,
    pub state: RelayState,
    pub advertised: OrdMap<IpAddr, GroupInterest>,
    pub last_seen: OrdMap<SocketAddr, Instant>,
}

/// A [`LocalMembershipManager`] with its parts as mathematical values.
#[verifier::ext_equal]
pub struct LocalModel {
    pub config: LocalMembershipConfig,
    pub table: TableModel<SocketAddr>,
    pub advertised: GroupsModel,
    pub last_seen: Map<SocketAddr, Instant>,
}

impl View for LocalMembershipManager {
    type V = LocalModel;

    open spec fn view(&self) -> LocalModel {
        LocalModel {
            config: self.config,
            table: self.state@,
            advertised: self.advertised@,
            last_seen: self.last_seen@,
        }
    }
}

/// The endpoint under which a host's reports are kept.
pub open spec fn reporter_endpoint(reporter: IpAddr) -> SocketAddr {
    SocketAddr::of(reporter, 0)
}

/// What the gateway may ask its relay for now.
pub open spec fn wanted_now(local: LocalModel) -> GroupsModel {
    exported(local.config.protocol, aggregate_of(local.table))
}

/// The report that states what the gateway wants, if it wants anything.
pub open spec fn current_report_of(local: LocalModel) -> Option<ReportModel> {
    let records = state_records(in_order(wanted_now(local).dom()), wanted_now(local));
    if records.len() == 0 {
        None
    } else {
        Some(ReportModel { protocol: local.config.protocol, records })
    }
}

/// The report that tells a relay what has changed since it was last told, if
/// anything has.
pub open spec fn pending_report_of(local: LocalModel) -> Option<ReportModel> {
    let records = delta(local.config.protocol, local.advertised, wanted_now(local));
    if records.len() == 0 {
        None
    } else {
        Some(ReportModel { protocol: local.config.protocol, records })
    }
}

/// An optional report in terms of what it says.
pub open spec fn optional_report(report: Option<MembershipReport>) -> Option<ReportModel> {
    match report {
        Some(report) => Some(report@),
        None => None,
    }
}

/// Whether a host's last report lies at least the timeout back.
pub open spec fn reporter_stale(local: LocalModel, endpoint: SocketAddr, now: Instant) -> bool {
    &&& local.last_seen.contains_key(endpoint)
    &&& now.nanos >= local.last_seen[endpoint].nanos
    &&& now.nanos - local.last_seen[endpoint].nanos >= local.config.reporter_timeout.nanos
}

/// Memberships without those of stale hosts.
pub open spec fn without_stale(local: LocalModel, now: Instant) -> LocalModel {
    LocalModel {
        table: local.table.remove_keys(
            Set::new(|endpoint: SocketAddr| reporter_stale(local, endpoint, now)),
        ),
        last_seen: local.last_seen.remove_keys(
            Set::new(|endpoint: SocketAddr| reporter_stale(local, endpoint, now)),
        ),
        ..local
    }
}

/// Whether every interest is one that a record can state: with a source to
/// include, or with exclusions.
pub open spec fn statable(interests: GroupsModel) -> bool {
    &&& interests.dom().finite()
    &&& forall|group: IpAddr| #[trigger]
        interests.contains_key(group) ==> {
            &&& interests[group].sources.finite()
            &&& interests[group].mode is Include ==> interests[group].sources != Set::<
                IpAddr,
            >::empty()
        }
}

/// Whether every interest is one that a report of the protocol can state.
pub open spec fn reportable(protocol: MembershipProtocol, interests: GroupsModel) -> bool {
    &&& statable(interests)
    &&& forall|group: IpAddr| #[trigger]
        interests.contains_key(group) ==> fits_protocol(protocol, group)
}

impl LocalMembershipManager {
    pub open spec fn wf(&self) -> bool {
        &&& self.state.wf()
        &&& self.advertised.wf()
        &&& self.last_seen.wf()
        &&& reportable(self.config.protocol, self.advertised@)
    }

    /// What the gateway wants can be reported.
    pub proof fn lemma_wanted_is_reportable(&self)
        requires
            self.wf(),
        ensures
            reportable(self.config.protocol, wanted_now(self@)),
    {
        self.state.lemma_facts();
        let all = aggregate_of(self.state@);
        assert(wanted_now(self@).dom().subset_of(all.dom()));
        vstd::set_lib::lemma_len_subset(wanted_now(self@).dom(), all.dom());
        assert forall|group: IpAddr| #[trigger] wanted_now(self@).contains_key(
            group,
        ) implies wanted_now(self@)[group].sources.finite() by {
            assert(all.contains_key(group));
        }
    }

    pub fn new(config: LocalMembershipConfig) -> (manager: Self)
        ensures
            manager.wf(),
            manager@ == (LocalModel {
                config,
                table: Map::empty(),
                advertised: Map::empty(),
                last_seen: Map::empty(),
            }),
    {
        LocalMembershipManager {
            config,
            state: RelayState::new(),
            advertised: OrdMap::new(),
            last_seen: OrdMap::new(),
        }
    }

    pub fn config(&self) -> (config: &LocalMembershipConfig)
        ensures
            *config == self.config,
    {
        &self.config
    }

    /// The General Query for the gateway's own link.
    pub fn local_query(&self) -> (query: Vec<u8>)
        ensures
            query@ == query_bytes(self.config.protocol, query_config_of(self.config)),
    {
        build_general_query(self.config.protocol, &self.config.query_config())
    }

    /// Takes in one received packet.  A report of another protocol, or one whose
    /// sender is unknown, leads to no event.
    pub fn handle_packet(&mut self, now: Instant, source_ip: Option<IpAddr>, datagram: &[u8]) -> (
        result: Result<Option<LocalMembershipEvent>, LocalMembershipError>)
        requires
            old(self).wf(),
        ensures
            final(self).wf(),
            match packet_report(datagram@, no_limits()) {
                Err(error) => final(self)@ == old(self)@ && result is Err && (result->Err_0
                    matches LocalMembershipError::Parse(actual) && actual@ == error),
                Ok(report) => match reporter_of(source_ip, datagram@) {
                    None => final(self)@ == old(self)@ && result == Ok::<
                        Option<LocalMembershipEvent>,
                        LocalMembershipError,
                    >(None),
                    Some(reporter) => if report.protocol != old(self).config.protocol {
                        final(self)@ == old(self)@ && result == Ok::<
                            Option<LocalMembershipEvent>,
                            LocalMembershipError,
                        >(None)
                    } else {
                        &&& final(self)@ == (LocalModel {
                            table: report_applied(
                                old(self)@.table,
                                reporter_endpoint(reporter),
                                report.records,
                            ),
                            last_seen: old(self)@.last_seen.insert(
                                reporter_endpoint(reporter),
                                now,
                            ),
                            ..old(self)@
                        })
                        &&& result is Ok
                        &&& result->Ok_0 is Some
                        &&& result->Ok_0->Some_0.reporter == reporter
                        &&& result->Ok_0->Some_0.records_received == report.records.len()
                        &&& result->Ok_0->Some_0.active_subscriptions@ == in_order(
                            subscriptions_of(final(self)@.table),
                        )
                    },
                },
            },
    {
        let report = match parse_membership_report(datagram) {
            Ok(report) => report,
            Err(error) => return Err(LocalMembershipError::Parse(error)),
        };
        if report.protocol != self.config.protocol {
            return Ok(None);
        }
        let source = match source_ip {
            Some(address) => Some(address),
            None => parse_datagram_source(datagram),
        };
        let reporter = match source {
            Some(reporter) => reporter,
            None => return Ok(None),
        };
        let records_received: usize = report.records.len();
        let endpoint = SocketAddr::new(reporter, 0);
        self.state.apply_report(endpoint, &report);
        self.last_seen.insert(endpoint, now);
        let active_subscriptions = self.state.upstream_subscriptions();
        Ok(Some(LocalMembershipEvent { reporter, records_received, active_subscriptions }))
    }

    fn current_exportable_interests(&self) -> (interests: OrdMap<IpAddr, GroupInterest>)
        requires
            self.wf(),
        ensures
            interests.wf(),
            interests@ == wanted_now(self@),
    {
        filter_exportable_interests(
            self.config.protocol,
            self.state.aggregate_interests_ref(),
        )
    }

    /// What has changed since the relay was last told, if anything has.
    pub fn pending_report(&self) -> (report: Option<MembershipReport>)
        requires
            self.wf(),
        ensures
            optional_report(report) == pending_report_of(self@),
    {
        let current = self.current_exportable_interests();
        let records = delta_records(self.config.protocol, &self.advertised, &current);
        if records.len() == 0 {
            None
        } else {
            Some(MembershipReport { protocol: self.config.protocol, records })
        }
    }

    /// What the gateway wants now, if anything.
    pub fn current_report(&self) -> (report: Option<MembershipReport>)
        requires
            self.wf(),
        ensures
            optional_report(report) == current_report_of(self@),
    {
        let current = self.current_exportable_interests();
        let ghost keys = current.keys_seq();
        let mut records: Vec<MembershipRecord> = Vec::new();
        let mut i: usize = 0;
        proof {
            current.lemma_facts();
            assert(keys.take(0) =~= Seq::empty());
            assert(record_models(records@) =~= Seq::empty());
        }
        while i < current.len()
            invariant
                current.wf(),
                keys == current.keys_seq(),
                i <= keys.len(),
                record_models(records@) == state_records(keys.take(i as int), current@),
            decreases keys.len() - i,
        {
            let ghost before = records@;
            let group = current.key_at(i);
            records.push(
                record_for_interest(group, current.value_at(i), ReportRecordMode::State),
            );
            proof {
                assert(keys.take(i + 1).drop_last() =~= keys.take(i as int));
                assert(record_models(records@) =~= record_models(before).push(records@.last()@));
            }
            i += 1;
        }
        proof {
            current.lemma_facts();
            assert(keys.take(keys.len() as int) =~= keys);
        }
        if records.len() == 0 {
            None
        } else {
            Some(MembershipReport { protocol: self.config.protocol, records })
        }
    }

    /// Notes that the relay has been told what the gateway wants.
    pub fn mark_advertised(&mut self)
        requires
            old(self).wf(),
        ensures
            final(self).wf(),
            final(self)@ == (LocalModel { advertised: wanted_now(old(self)@), ..old(self)@ }),
    {
        proof {
            self.lemma_wanted_is_reportable();
        }
        let current = self.current_exportable_interests();
        self.advertised = current;
    }

    /// Forgets hosts whose last report lies at least the timeout back; counts
    /// them.
    pub fn prune_stale_reporters(&mut self, now: Instant) -> (expired: usize)
        requires
            old(self).wf(),
        ensures
            final(self).wf(),
            final(self)@ == without_stale(old(self)@, now),
            expired == Set::new(
                |endpoint: SocketAddr| reporter_stale(old(self)@, endpoint, now),
            ).len(),
    {
        let stale = stale_entries(&self.last_seen, self.config.reporter_timeout, now);
        let ghost gone = stale@.to_set();
        let ghost target = Set::new(
            |endpoint: SocketAddr| reporter_stale(old(self)@, endpoint, now),
        );
        proof {
            assert(gone =~= target);
            crate::ordered::lemma_ascending_is_unique(stale@);
        }
        let mut i: usize = 0;
        proof {
            assert(stale@.take(0).to_set() =~= Set::empty());
            assert(old(self)@.table.remove_keys(Set::empty()) =~= old(self)@.table);
            assert(old(self)@.last_seen.remove_keys(Set::empty()) =~= old(self)@.last_seen);
        }
        while i < stale.len()
            invariant
                i <= stale@.len(),
                self.wf(),
                self@ == (LocalModel {
                    table: old(self)@.table.remove_keys(stale@.take(i as int).to_set()),
                    last_seen: old(self)@.last_seen.remove_keys(stale@.take(i as int).to_set()),
                    ..old(self)@
                }),
            decreases stale@.len() - i,
        {
            let endpoint = stale[i];
            self.last_seen.remove(endpoint);
            self.state.remove_endpoint(endpoint);
            proof {
                let shorter = stale@.take(i as int).to_set();
                let longer = stale@.take(i + 1).to_set();
                assert forall|e: SocketAddr| #[trigger] longer.contains(e) <==> shorter.contains(e)
                    || e == endpoint by {
                    lemma_take_grows(stale@, i as int, e);
                }
                assert(old(self)@.table.remove_keys(longer) =~= old(self)@.table.remove_keys(
                    shorter,
                ).remove(endpoint));
                assert(old(self)@.last_seen.remove_keys(longer) =~= old(
                    self,
                )@.last_seen.remove_keys(shorter).remove(endpoint));
            }
            i += 1;
        }
        proof {
            assert(stale@.take(stale@.len() as int) =~= stale@);
        }
        stale.len()
    }
}

/// Interests with those of some groups replaced by other interests.
pub open spec fn replaced(
    groups: Seq<IpAddr>,
    previous: GroupsModel,
    current: GroupsModel,
) -> GroupsModel {
    Map::new(
        |group: IpAddr|
            if groups.contains(group) {
                current.contains_key(group)
            } else {
                previous.contains_key(group)
            },
        |group: IpAddr|
            if groups.contains(group) {
                current[group]
            } else {
                previous[group]
            },
    )
}

/// Applying the record for an interest gives that interest.
proof fn lemma_interest_record(
    groups: GroupsModel,
    group: IpAddr,
    interest: InterestModel,
    mode: ReportRecordMode,
)
    requires
        interest.sources.finite(),
        interest.mode is Include ==> interest.sources != Set::<IpAddr>::empty(),
    ensures
        record_applied(groups, interest_record(group, interest, mode)) == groups.insert(
            group,
            interest,
        ),
{
    lemma_in_order_lists(interest.sources);
    let record = interest_record(group, interest, mode);
    assert(record.sources.to_set() == interest.sources);
    if interest.mode is Include {
        assert(record.sources.len() != 0) by {
            if record.sources.len() == 0 {
                assert(record.sources.to_set() =~= Set::<IpAddr>::empty());
            }
        }
    }
}

proof fn lemma_change_records(
    protocol: MembershipProtocol,
    groups: Seq<IpAddr>,
    previous: GroupsModel,
    current: GroupsModel,
)
    requires
        groups.no_duplicates(),
        reportable(protocol, previous),
        reportable(protocol, current),
    ensures
        records_applied(previous, change_records(protocol, groups, previous, current))
            == replaced(groups, previous, current),
    decreases groups.len(),
{
    if groups.len() == 0 {
        assert(replaced(groups, previous, current) =~= previous);
    } else {
        let shorter = groups.drop_last();
        let group = groups.last();
        lemma_change_records(protocol, shorter, previous, current);
        let before = replaced(shorter, previous, current);
        let after = replaced(groups, previous, current);
        let front = change_records(protocol, shorter, previous, current);
        assert forall|g: IpAddr| groups.contains(g) <==> #[trigger] shorter.contains(g) || g
            == group by {
            assert(groups.take(groups.len() as int) =~= groups);
            assert(groups.take(groups.len() - 1) =~= shorter);
            lemma_take_grows(groups, groups.len() - 1, g);
        }
        assert(!shorter.contains(group));
        match change_record(group, previous, current) {
            Some(record) => {
                assert(front.push(record).drop_last() =~= front);
                assert(current.contains_key(group) || previous.contains_key(group));
                assert(fits_protocol(protocol, group));
                if current.contains_key(group) {
                    lemma_interest_record(
                        before,
                        group,
                        current[group],
                        ReportRecordMode::Change,
                    );
                    assert(after =~= before.insert(group, current[group]));
                } else {
                    assert(after =~= before.remove(group));
                }
            },
            None => {
                assert(after =~= before);
            },
        }
    }
}

/// A relay that knows what was last advertised, and takes in the pending
/// report, knows what the gateway wants now.
pub proof fn law_pending_report_brings_the_relay_up_to_date(manager: LocalMembershipManager)
    requires
        manager.wf(),
    ensures
        match pending_report_of(manager@) {
            Some(report) => records_applied(manager.advertised@, report.records) == wanted_now(
                manager@,
            ),
            None => manager.advertised@ == wanted_now(manager@),
        },
{
    let protocol = manager.config.protocol;
    let previous = manager.advertised@;
    let current = wanted_now(manager@);
    manager.lemma_wanted_is_reportable();
    let union = previous.dom().union(current.dom());
    lemma_in_order_lists(union);
    let groups = in_order(union);
    crate::ordered::lemma_ascending_is_unique(groups);
    lemma_change_records(protocol, groups, previous, current);
    assert(replaced(groups, previous, current) =~= current) by {
        assert forall|g: IpAddr| groups.contains(g) <==> #[trigger] union.contains(g) by {
            assert(groups.to_set().contains(g) <==> groups.contains(g));
        }
        assert forall|g: IpAddr|
            #[trigger] replaced(groups, previous, current).contains_key(g)
                <==> current.contains_key(g) by {
            assert(groups.contains(g) <==> union.contains(g));
        }
        assert forall|g: IpAddr| #[trigger] current.contains_key(g) implies replaced(
            groups,
            previous,
            current,
        )[g] == current[g] by {
            assert(union.contains(g));
        }
    }
}

/// A relay that knows nothing of a gateway, and takes in its current report,
/// knows what the gateway wants now.
pub proof fn law_current_report_states_everything(manager: LocalMembershipManager)
    requires
        manager.wf(),
    ensures
        match current_report_of(manager@) {
            Some(report) => records_applied(Map::empty(), report.records) == wanted_now(manager@),
            None => wanted_now(manager@) == Map::<IpAddr, InterestModel>::empty(),
        },
{
    manager.lemma_wanted_is_reportable();
    lemma_stated_is_known(wanted_now(manager@));
}

/// Whoever takes in the records that state some interests knows them.
pub proof fn lemma_stated_is_known(current: GroupsModel)
    requires
        statable(current),
    ensures
        ({
            let records = state_records(in_order(current.dom()), current);
            &&& records_applied(Map::empty(), records) == current
            &&& records.len() == 0 <==> current == Map::<IpAddr, InterestModel>::empty()
        }),
{
    lemma_in_order_lists(current.dom());
    let groups = in_order(current.dom());
    assert forall|g: IpAddr| groups.contains(g) <==> #[trigger] current.contains_key(g) by {
        assert(groups.to_set().contains(g) <==> groups.contains(g));
    }
    lemma_state_records(groups, current);
    assert(replaced(groups, Map::empty(), current) =~= current);
    if state_records(groups, current).len() == 0 {
        assert(current =~= Map::<IpAddr, InterestModel>::empty());
    }
    if current == Map::<IpAddr, InterestModel>::empty() && groups.len() > 0 {
        assert(groups.contains(groups[0]));
    }
}

proof fn lemma_state_records(groups: Seq<IpAddr>, current: GroupsModel)
    requires
        statable(current),
        forall|g: IpAddr| #[trigger] groups.contains(g) ==> current.contains_key(g),
    ensures
        records_applied(Map::empty(), state_records(groups, current)) == replaced(
            groups,
            Map::empty(),
            current,
        ),
    decreases groups.len(),
{
    let none: GroupsModel = Map::empty();
    if groups.len() == 0 {
        assert(replaced(groups, none, current) =~= none);
    } else {
        let shorter = groups.drop_last();
        let group = groups.last();
        assert(groups.contains(group));
        assert forall|g: IpAddr| groups.contains(g) <==> #[trigger] shorter.contains(g) || g
            == group by {
            assert(groups.take(groups.len() as int) =~= groups);
            assert(groups.take(groups.len() - 1) =~= shorter);
            lemma_take_grows(groups, groups.len() - 1, g);
        }
        assert forall|g: IpAddr| #[trigger] shorter.contains(g) implies current.contains_key(
            g,
        ) by {
            assert(groups.contains(g));
        }
        lemma_state_records(shorter, current);
        let front = state_records(shorter, current);
        let record = interest_record(group, current[group], ReportRecordMode::State);
        assert(front.push(record).drop_last() =~= front);
        let before = replaced(shorter, none, current);
        lemma_interest_record(before, group, current[group], ReportRecordMode::State);
        assert(replaced(groups, none, current) =~= before.insert(group, current[group]));
    }
}

/// Right after an advertisement nothing is pending.
pub proof fn law_nothing_is_pending_once_advertised(local: LocalModel)
    ensures
        pending_report_of(LocalModel { advertised: wanted_now(local), ..local }) is None,
{
    let current = wanted_now(local);
    lemma_no_changes(local.config.protocol, in_order(current.dom().union(current.dom())), current);
    assert(wanted_now(LocalModel { advertised: current, ..local }) == current);
}

proof fn lemma_no_changes(protocol: MembershipProtocol, groups: Seq<IpAddr>, current: GroupsModel)
    ensures
        change_records(protocol, groups, current, current).len() == 0,
    decreases groups.len(),
{
    if groups.len() > 0 {
        lemma_no_changes(protocol, groups.drop_last(), current);
    }
}

/// Which groups are passed on to a relay: of IPv4 those from 224.0.1.0 on, but for
/// 239.255.255.250 and 239.255.255.253, of IPv6 those of any scope but the link.
pub proof fn law_exported_groups_are_known_by_their_bits(group: IpAddr)
    ensures
        match group {
            IpAddr::V4(g) => exportable(group) <==> 0xe000_0100 <= g.bits <= 0xefff_ffff && g.bits
                != 0xefff_fffa && g.bits != 0xefff_fffd,
            IpAddr::V6(g) => {
                let head = g.bits as int / 0x1_0000_0000_0000_0000_0000_0000_0000;
                exportable(group) <==> head / 256 == 0xff && head % 16 != 2
            },
        },
{
}

/// What is passed on is what is wanted of the groups that may be passed on and are
/// of the protocol's family, as it is wanted.
pub proof fn law_interests_are_passed_on_as_they_are(
    protocol: MembershipProtocol,
    interests: GroupsModel,
    group: IpAddr,
)
    ensures
        exported(protocol, interests).contains_key(group) <==> interests.contains_key(group)
            && exportable(group) && (group is V4 <==> protocol is Igmpv3),
        exported(protocol, interests).contains_key(group) ==> exported(protocol, interests)[group]
            == interests[group],
{
}

/// The record of an interest names its group, lists its sources, and says
/// include or exclude as the interest does, as a state or as a change to it.
pub proof fn law_records_say_what_the_interest_is(
    group: IpAddr,
    interest: InterestModel,
    source: IpAddr,
)
    requires
        interest.sources.finite(),
    ensures
        ({
            let state = interest_record(group, interest, ReportRecordMode::State);
            let change = interest_record(group, interest, ReportRecordMode::Change);
            &&& state.group == group && change.group == group
            &&& state.sources.contains(source) <==> interest.sources.contains(source)
            &&& change.sources.contains(source) <==> interest.sources.contains(source)
            &&& interest.mode is Include ==> state.kind is ModeIsInclude
                && change.kind is ChangeToInclude
            &&& interest.mode is Exclude ==> state.kind is ModeIsExclude
                && change.kind is ChangeToExclude
        }),
{
    lemma_in_order_lists(interest.sources);
    let listed = in_order(interest.sources);
    assert(listed.contains(source) <==> listed.to_set().contains(source));
}

/// A host is forgotten once the timeout has passed since its last report, and no
/// earlier; the other hosts' interests stay.
pub proof fn law_silent_hosts_are_forgotten(local: LocalModel, now: Instant, endpoint: SocketAddr)
    ensures
        ({
            let after = without_stale(local, now);
            let silent = local.last_seen.contains_key(endpoint) && local.last_seen[endpoint].nanos
                + local.config.reporter_timeout.nanos <= now.nanos;
            &&& after.config == local.config && after.advertised == local.advertised
            &&& silent ==> !after.table.contains_key(endpoint) && !after.last_seen.contains_key(
                endpoint,
            )
            &&& !silent ==> after.table.contains_key(endpoint) == local.table.contains_key(endpoint)
                && (local.table.contains_key(endpoint) ==> after.table[endpoint]
                == local.table[endpoint]) && after.last_seen.contains_key(endpoint)
                == local.last_seen.contains_key(endpoint) && (local.last_seen.contains_key(endpoint)
                ==> after.last_seen[endpoint] == local.last_seen[endpoint])
        }),
{
}

/// Who reported: the sender that was seen, or else the one in the packet's header;
/// its interests are kept under its address and port zero.
pub proof fn law_reporters_are_known_by_their_address(source_ip: Option<IpAddr>, s: Seq<u8>)
    ensures
        source_ip is Some ==> reporter_of(source_ip, s) == source_ip,
        source_ip is None && s.len() >= 20 && s[0] / 16 == 4 ==> (reporter_of(
            source_ip,
            s,
        ) matches Some(address) && address is V4 && crate::net::spells(s, 12, address)),
        source_ip is None && s.len() >= 40 && s[0] / 16 == 6 ==> (reporter_of(
            source_ip,
            s,
        ) matches Some(address) && address is V6 && crate::net::spells(s, 8, address)),
        source_ip matches Some(address) ==> reporter_endpoint(address).ip_spec() == address
            && reporter_endpoint(address).port_spec() == 0,
{
    if s.len() >= 20 {
        crate::net::law_addresses_are_spelled_by_their_octets(s, 12, IpAddr::V4(ipv4_at(s, 12)));
    }
    if s.len() >= 40 {
        crate::net::law_addresses_are_spelled_by_their_octets(s, 8, IpAddr::V4(ipv4_at(s, 8)));
    }
}

/// Reports are listened for at 224.0.0.22 or ff02::16, and queries go out from the
/// address of the interface, where that is of the protocol's family.
pub proof fn law_local_hosts_are_met_where_they_report(config: LocalMembershipConfig)
    ensures
        config.protocol is Igmpv3 ==> report_subscription(config).group == IpAddr::V4(
            Ipv4Addr { bits: 0xe000_0016 },
        ),
        config.protocol is Mldv2 ==> report_subscription(config).group == IpAddr::V6(
            Ipv6Addr { bits: 0xff02_0000_0000_0000_0000_0000_0000_0016 },
        ),
        config.interface matches Some(address) ==> {
            let fits = (address is V4) == (config.protocol is Igmpv3);
            let query = query_config_of(config);
            &&& report_subscription(config).interface == if fits {
                Some(address)
            } else {
                None
            }
            &&& fits ==> match address {
                IpAddr::V4(a) => query.igmp_source == a,
                IpAddr::V6(a) => query.mld_source == a,
            }
        },
        config.interface is None ==> query_config_of(config) == GeneralQueryConfig::default_spec()
            && report_subscription(config).interface is None,
{
}

} // verus!
