use amt::membership::{MembershipRecord, MembershipRecordKind, MembershipReport};
use amt::net::{IpAddr, Ipv4Addr, Ipv6Addr, SocketAddr};
use amt::ordered::{OrdMap, OrdSet};
use amt::protocol::MembershipProtocol;
use amt::state::{
    near_limit, FilterMode, GroupInterest, RelayLimits, RelayState, StateLimitError,
    UpstreamSubscription,
};

fn socket(octets: [u8; 4], port: u16) -> SocketAddr {
    let [a, b, c, d] = octets;
    SocketAddr::new(IpAddr::V4(Ipv4Addr::new(a, b, c, d)), port)
}

fn interests(entries: Vec<(IpAddr, GroupInterest)>) -> OrdMap<IpAddr, GroupInterest> {
    let mut map = OrdMap::new();
    for (group, interest) in entries {
        map.insert(group, interest);
    }
    map
}

fn report(records: Vec<MembershipRecord>) -> MembershipReport {
    MembershipReport {
        protocol: MembershipProtocol::Igmpv3,
        records,
    }
}

fn record(kind: MembershipRecordKind, group: IpAddr, sources: Vec<IpAddr>) -> MembershipRecord {
    MembershipRecord {
        kind,
        group,
        sources,
    }
}

#[test]
fn include_records_create_ssm_subscriptions() {
    let endpoint = socket([198, 51, 100, 8], 40_000);
    let group = IpAddr::V4(Ipv4Addr::new(232, 1, 2, 3));
    let source = IpAddr::V4(Ipv4Addr::new(192, 0, 2, 1));
    let mut state = RelayState::new();

    state.apply_report(
        endpoint,
        &report(vec![record(
            MembershipRecordKind::ModeIsInclude,
            group,
            vec![source],
        )]),
    );

    assert_eq!(
        state.upstream_subscriptions(),
        vec![UpstreamSubscription::ssm(group, source)]
    );
    assert!(state.has_ssm_interest(source, group));
    assert_eq!(state.endpoints_for_packet(source, group), vec![endpoint]);
}

#[test]
fn exclude_records_create_asm_subscription_and_filter_blocked_sources() {
    let endpoint = socket([198, 51, 100, 8], 40_000);
    let group = IpAddr::V6(Ipv6Addr::new(0xff3e, 0, 0, 0, 0, 0, 0x8000, 0x1234));
    let blocked = IpAddr::V6(Ipv6Addr::new(0x2001, 0xdb8, 0, 0, 0, 0, 0, 1));
    let allowed = IpAddr::V6(Ipv6Addr::new(0x2001, 0xdb8, 0, 0, 0, 0, 0, 2));
    let mut state = RelayState::new();

    state.apply_report(
        endpoint,
        &report(vec![record(
            MembershipRecordKind::ChangeToExclude,
            group,
            vec![blocked],
        )]),
    );

    assert_eq!(
        state.upstream_subscriptions(),
        vec![UpstreamSubscription::any_source(group)]
    );
    assert!(!state.has_ssm_interest(allowed, group));
    assert_eq!(
        state.endpoints_for_packet(blocked, group),
        Vec::<SocketAddr>::new()
    );
    assert_eq!(state.endpoints_for_packet(allowed, group), vec![endpoint]);
}

#[test]
fn ssm_interest_survives_asm_upstream_aggregation() {
    let asm_endpoint = socket([198, 51, 100, 8], 40_000);
    let ssm_endpoint = socket([198, 51, 100, 9], 40_001);
    let group = IpAddr::V4(Ipv4Addr::new(232, 1, 2, 3));
    let source = IpAddr::V4(Ipv4Addr::new(192, 0, 2, 1));
    let mut state = RelayState::new();

    state.apply_report(
        asm_endpoint,
        &report(vec![record(
            MembershipRecordKind::ModeIsExclude,
            group,
            vec![],
        )]),
    );
    state.apply_report(
        ssm_endpoint,
        &report(vec![record(
            MembershipRecordKind::ModeIsInclude,
            group,
            vec![source],
        )]),
    );

    assert_eq!(
        state.upstream_subscriptions(),
        vec![UpstreamSubscription::any_source(group)]
    );
    assert!(state.has_ssm_interest(source, group));
}

#[test]
fn aggregate_interests_preserve_shared_exclude_filters() {
    let first_endpoint = socket([198, 51, 100, 8], 40_000);
    let second_endpoint = socket([198, 51, 100, 9], 40_001);
    let group = IpAddr::V4(Ipv4Addr::new(239, 1, 2, 3));
    let first_blocked = IpAddr::V4(Ipv4Addr::new(192, 0, 2, 1));
    let second_blocked = IpAddr::V4(Ipv4Addr::new(192, 0, 2, 2));
    let shared_blocked = IpAddr::V4(Ipv4Addr::new(192, 0, 2, 3));
    let mut state = RelayState::new();

    state.apply_report(
        first_endpoint,
        &report(vec![record(
            MembershipRecordKind::ChangeToExclude,
            group,
            vec![first_blocked, shared_blocked],
        )]),
    );
    state.apply_report(
        second_endpoint,
        &report(vec![record(
            MembershipRecordKind::ChangeToExclude,
            group,
            vec![second_blocked, shared_blocked],
        )]),
    );

    assert_eq!(
        state.aggregate_interests(),
        interests(vec![(group, GroupInterest::exclude(&vec![shared_blocked]))])
    );
}

#[test]
fn block_removes_include_sources() {
    let endpoint = socket([198, 51, 100, 8], 40_000);
    let group = IpAddr::V4(Ipv4Addr::new(232, 1, 2, 3));
    let source = IpAddr::V4(Ipv4Addr::new(192, 0, 2, 1));
    let mut state = RelayState::new();

    state.apply_report(
        endpoint,
        &report(vec![
            record(MembershipRecordKind::AllowNewSources, group, vec![source]),
            record(MembershipRecordKind::BlockOldSources, group, vec![source]),
        ]),
    );

    assert!(state.upstream_subscriptions().is_empty());
    assert!(state.endpoints_for_packet(source, group).is_empty());
}

#[test]
fn empty_include_leave_removes_only_reporting_endpoint() {
    let first_endpoint = socket([198, 51, 100, 8], 40_000);
    let second_endpoint = socket([198, 51, 100, 9], 40_001);
    let group = IpAddr::V4(Ipv4Addr::new(239, 1, 2, 3));
    let source = IpAddr::V4(Ipv4Addr::new(192, 0, 2, 10));
    let mut state = RelayState::new();

    for endpoint in [first_endpoint, second_endpoint] {
        state.apply_report(
            endpoint,
            &report(vec![record(
                MembershipRecordKind::ChangeToExclude,
                group,
                Vec::new(),
            )]),
        );
    }
    state.apply_report(
        first_endpoint,
        &report(vec![record(
            MembershipRecordKind::ChangeToInclude,
            group,
            Vec::new(),
        )]),
    );

    assert!(!state.contains_endpoint(first_endpoint));
    assert!(state.contains_endpoint(second_endpoint));
    assert_eq!(state.endpoint_count(), 1);
    assert_eq!(
        state.upstream_subscriptions(),
        vec![UpstreamSubscription::any_source(group)]
    );
    assert_eq!(
        state.endpoints_for_packet(source, group),
        vec![second_endpoint]
    );
}

#[test]
fn blocking_shared_ssm_source_preserves_other_gateway_interest() {
    let first_endpoint = socket([198, 51, 100, 8], 40_000);
    let second_endpoint = socket([198, 51, 100, 9], 40_001);
    let group = IpAddr::V4(Ipv4Addr::new(232, 1, 2, 3));
    let source = IpAddr::V4(Ipv4Addr::new(192, 0, 2, 10));
    let mut state = RelayState::new();

    for endpoint in [first_endpoint, second_endpoint] {
        state.apply_report(
            endpoint,
            &report(vec![record(
                MembershipRecordKind::AllowNewSources,
                group,
                vec![source],
            )]),
        );
    }
    state.apply_report(
        first_endpoint,
        &report(vec![record(
            MembershipRecordKind::BlockOldSources,
            group,
            vec![source],
        )]),
    );

    assert!(!state.contains_endpoint(first_endpoint));
    assert!(state.contains_endpoint(second_endpoint));
    assert_eq!(
        state.upstream_subscriptions(),
        vec![UpstreamSubscription::ssm(group, source)]
    );
    assert_eq!(
        state.endpoints_for_packet(source, group),
        vec![second_endpoint]
    );
}

#[test]
fn empty_allow_new_sources_does_not_create_phantom_state() {
    let endpoint = socket([198, 51, 100, 8], 40_000);
    let group = IpAddr::V4(Ipv4Addr::new(232, 1, 2, 3));
    let mut state = RelayState::new();

    let applied = state.apply_report(
        endpoint,
        &report(vec![record(
            MembershipRecordKind::AllowNewSources,
            group,
            Vec::new(),
        )]),
    );

    assert_eq!(applied, 0);
    assert_eq!(state.endpoint_count(), 0);
    assert!(state.upstream_subscriptions().is_empty());
}

#[test]
fn report_preview_detects_identical_and_net_no_change_updates() {
    let endpoint = socket([198, 51, 100, 8], 40_000);
    let group = IpAddr::V4(Ipv4Addr::new(239, 1, 2, 3));
    let mut state = RelayState::new();
    let join = report(vec![record(
        MembershipRecordKind::ModeIsExclude,
        group,
        Vec::new(),
    )]);
    state.apply_report(endpoint, &join);

    assert_eq!(state.preview_report(endpoint, &join), (0, false));
    assert_eq!(
        state.preview_report(
            endpoint,
            &report(vec![
                record(MembershipRecordKind::ChangeToInclude, group, Vec::new()),
                record(MembershipRecordKind::ChangeToExclude, group, Vec::new()),
            ])
        ),
        (2, false)
    );
}

#[test]
fn resource_limit_rejection_rolls_back_state_and_indexes() {
    let endpoint = socket([198, 51, 100, 8], 40_000);
    let first_group = IpAddr::V4(Ipv4Addr::new(232, 1, 2, 3));
    let second_group = IpAddr::V4(Ipv4Addr::new(232, 1, 2, 4));
    let source = IpAddr::V4(Ipv4Addr::new(192, 0, 2, 1));
    let mut state = RelayState::new();
    let limits = RelayLimits {
        max_groups_per_endpoint: 1,
        ..RelayLimits::default()
    };

    state
        .apply_report_limited(
            endpoint,
            &report(vec![record(
                MembershipRecordKind::ModeIsInclude,
                first_group,
                vec![source],
            )]),
            &limits,
        )
        .unwrap();
    assert!(
        state
            .apply_report_limited(
                endpoint,
                &report(vec![record(
                    MembershipRecordKind::ModeIsInclude,
                    second_group,
                    vec![source],
                )]),
                &limits,
            )
            .is_err()
    );

    assert_eq!(
        state.upstream_subscriptions(),
        vec![UpstreamSubscription::ssm(first_group, source)]
    );
    assert_eq!(
        state.endpoints_for_packet(source, first_group),
        vec![endpoint]
    );
    assert!(state.endpoints_for_packet(source, second_group).is_empty());
}

#[test]
fn accumulated_sources_cannot_bypass_per_group_limit() {
    let endpoint = socket([198, 51, 100, 8], 40_000);
    let group = IpAddr::V4(Ipv4Addr::new(232, 1, 2, 3));
    let first = IpAddr::V4(Ipv4Addr::new(192, 0, 2, 1));
    let second = IpAddr::V4(Ipv4Addr::new(192, 0, 2, 2));
    let limits = RelayLimits {
        max_sources_per_group: 1,
        ..RelayLimits::default()
    };
    let mut state = RelayState::new();

    state
        .apply_report_limited(
            endpoint,
            &report(vec![record(
                MembershipRecordKind::AllowNewSources,
                group,
                vec![first],
            )]),
            &limits,
        )
        .unwrap();
    assert!(
        state
            .apply_report_limited(
                endpoint,
                &report(vec![record(
                    MembershipRecordKind::AllowNewSources,
                    group,
                    vec![second],
                )]),
                &limits,
            )
            .is_err()
    );

    assert_eq!(
        state.endpoint_interest(endpoint, group).unwrap().sources,
        OrdSet::from_list(&vec![first])
    );
}

#[test]
fn endpoint_limit_is_enforced_per_source_ip() {
    let first = socket([198, 51, 100, 8], 40_000);
    let second = socket([198, 51, 100, 8], 40_001);
    let limits = RelayLimits {
        max_endpoints_per_ip: 1,
        ..RelayLimits::default()
    };
    let mut state = RelayState::new();

    state
        .apply_report_limited(
            first,
            &report(vec![record(
                MembershipRecordKind::ModeIsExclude,
                IpAddr::V4(Ipv4Addr::new(239, 1, 2, 3)),
                Vec::new(),
            )]),
            &limits,
        )
        .unwrap();
    assert!(
        state
            .apply_report_limited(
                second,
                &report(vec![record(
                    MembershipRecordKind::ModeIsExclude,
                    IpAddr::V4(Ipv4Addr::new(239, 1, 2, 4)),
                    Vec::new(),
                )]),
                &limits,
            )
            .is_err()
    );
    assert_eq!(state.endpoint_count_for_ip(first.ip()), 1);
}

#[test]
fn near_limit_does_not_overflow_for_large_limits() {
    assert!(!near_limit(usize::MAX / 2, usize::MAX));
    assert!(near_limit(usize::MAX - (usize::MAX / 10), usize::MAX));
}

fn v4(a: u8, b: u8, c: u8, d: u8) -> IpAddr {
    IpAddr::V4(Ipv4Addr::new(a, b, c, d))
}

#[test]
fn each_limit_names_its_resource() {
    let endpoint = socket([198, 51, 100, 8], 40_000);
    let other = socket([198, 51, 100, 9], 40_000);
    let (first, second) = (v4(232, 1, 2, 3), v4(232, 1, 2, 4));
    let (s1, s2) = (v4(192, 0, 2, 1), v4(192, 0, 2, 2));
    let join = |groups: Vec<(IpAddr, Vec<IpAddr>)>| {
        report(
            groups
                .into_iter()
                .map(|(group, sources)| record(MembershipRecordKind::ModeIsInclude, group, sources))
                .collect(),
        )
    };
    let rejection = |limits: RelayLimits, from: SocketAddr, asked: MembershipReport| {
        let mut state = RelayState::new();
        state.apply_report(endpoint, &join(vec![(first, vec![s1])]));
        let error = state.apply_report_limited(from, &asked, &limits).unwrap_err();
        assert_eq!(
            state.upstream_subscriptions(),
            vec![UpstreamSubscription::ssm(first, s1)]
        );
        error
    };
    let two = || join(vec![(first, vec![s1]), (second, vec![s1])]);

    let records = rejection(
        RelayLimits { max_records_per_report: 1, ..RelayLimits::default() },
        endpoint,
        two(),
    );
    assert_eq!((records.requested, records.limit), (2, 1));
    let per_report_sources = rejection(
        RelayLimits { max_sources_per_group: 1, ..RelayLimits::default() },
        endpoint,
        join(vec![(first, vec![s1, s2])]),
    );
    assert_eq!((per_report_sources.requested, per_report_sources.limit), (2, 1));
    let endpoints = rejection(
        RelayLimits { max_endpoints: 1, ..RelayLimits::default() },
        other,
        join(vec![(first, vec![s1])]),
    );
    assert_eq!((endpoints.requested, endpoints.limit), (2, 1));
    let groups = rejection(
        RelayLimits { max_groups_per_endpoint: 1, ..RelayLimits::default() },
        endpoint,
        two(),
    );
    assert_eq!((groups.requested, groups.limit), (2, 1));
    let all_groups = rejection(
        RelayLimits { max_total_endpoint_groups: 1, ..RelayLimits::default() },
        other,
        join(vec![(second, vec![s1])]),
    );
    assert_eq!((all_groups.requested, all_groups.limit), (2, 1));
    let all_sources = rejection(
        RelayLimits { max_total_sources: 1, ..RelayLimits::default() },
        other,
        join(vec![(first, vec![s1])]),
    );
    assert_eq!((all_sources.requested, all_sources.limit), (2, 1));
    let upstream = rejection(
        RelayLimits { max_upstream_subscriptions: 1, ..RelayLimits::default() },
        other,
        join(vec![(second, vec![s1])]),
    );
    assert_eq!((upstream.requested, upstream.limit), (2, 1));

    let names = [
        records, per_report_sources, endpoints, groups, all_groups, all_sources, upstream,
    ];
    for (i, left) in names.iter().enumerate() {
        for right in &names[i + 1..] {
            assert_ne!(left.resource, right.resource);
        }
    }
    assert_eq!(
        groups,
        StateLimitError { resource: groups.resource, requested: 2, limit: 1 }
    );
}

#[test]
fn previewing_a_report_tells_what_applying_it_does() {
    let endpoint = socket([198, 51, 100, 8], 40_000);
    let group = v4(239, 1, 2, 3);
    let join = report(vec![record(MembershipRecordKind::ModeIsExclude, group, vec![])]);
    let mut state = RelayState::new();

    let (applied, changed) = state.preview_report(endpoint, &join);
    assert!(changed);
    assert_eq!(state.endpoint_count(), 0);
    assert_eq!(state.apply_report(endpoint, &join), applied);
    assert!(state.endpoint_has_interests(endpoint));
}

#[test]
fn removing_an_endpoint_forgets_its_interests() {
    let first = socket([198, 51, 100, 8], 40_000);
    let second = socket([198, 51, 100, 8], 40_001);
    let group = v4(232, 1, 2, 3);
    let (s1, s2) = (v4(192, 0, 2, 1), v4(192, 0, 2, 2));
    let mut state = RelayState::new();
    for (endpoint, source) in [(first, s1), (second, s2)] {
        state.apply_report(
            endpoint,
            &report(vec![record(MembershipRecordKind::AllowNewSources, group, vec![source])]),
        );
    }
    assert_eq!(state.endpoint_count_for_ip(first.ip()), 2);

    assert!(state.remove_endpoint(first));
    assert!(!state.remove_endpoint(first));
    assert_eq!(state.endpoint_count_for_ip(first.ip()), 1);
    assert_eq!(
        state.upstream_subscriptions(),
        vec![UpstreamSubscription::ssm(group, s2)]
    );
    assert!(state.endpoints_for_packet(s1, group).is_empty());
}

#[test]
fn exclude_and_include_requests_merge_into_one_filter() {
    let (first, second) = (
        socket([198, 51, 100, 8], 40_000),
        socket([198, 51, 100, 9], 40_000),
    );
    let group = v4(239, 1, 2, 3);
    let (s1, s2) = (v4(192, 0, 2, 1), v4(192, 0, 2, 2));
    let mut state = RelayState::new();
    state.apply_report(
        first,
        &report(vec![record(MembershipRecordKind::ModeIsExclude, group, vec![s1, s2])]),
    );
    state.apply_report(
        second,
        &report(vec![record(MembershipRecordKind::ModeIsInclude, group, vec![s1])]),
    );

    let merged = state.aggregate_interests();
    let interest = merged.get(group).unwrap();
    assert_eq!(interest.mode, FilterMode::Exclude);
    assert_eq!(interest.sources, OrdSet::from_list(&vec![s2]));
    assert!(interest.wants_source(s1));
    assert!(!interest.wants_source(s2));
    assert_eq!(state.endpoints_for_packet(s1, group), vec![second]);
}

#[test]
fn joint_interests_have_every_group_of_every_endpoint() {
    let (first, second) = (socket([198, 51, 100, 8], 1), socket([198, 51, 100, 9], 2));
    let (listed, whole, left) = (v4(232, 1, 2, 3), v4(239, 1, 2, 3), v4(232, 1, 2, 4));
    let (source, other) = (v4(192, 0, 2, 1), v4(192, 0, 2, 2));
    let mut state = RelayState::new();
    state.apply_report(
        first,
        &report(vec![
            record(MembershipRecordKind::AllowNewSources, listed, vec![source]),
            record(MembershipRecordKind::AllowNewSources, left, vec![source]),
            record(MembershipRecordKind::AllowNewSources, whole, vec![source]),
        ]),
    );
    state.apply_report(
        second,
        &report(vec![record(MembershipRecordKind::ChangeToExclude, whole, vec![source, other])]),
    );
    state.apply_report(
        first,
        &report(vec![record(MembershipRecordKind::BlockOldSources, left, vec![source])]),
    );
    assert_eq!(
        state.aggregate_interests(),
        interests(vec![
            (listed, GroupInterest::including(&vec![source])),
            (whole, GroupInterest::exclude(&vec![other])),
        ])
    );
    for (group, sender) in [(listed, source), (listed, other), (whole, source), (whole, other)] {
        let joint = state.aggregate_interests();
        let wanted = joint.get(group).unwrap().wants_source(sender);
        assert_eq!(wanted, !state.endpoints_for_packet(sender, group).is_empty());
    }
    assert!(state.endpoints_for_packet(source, left).is_empty());
}
