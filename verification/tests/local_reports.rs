use amt::local_membership::{
    delta_records, filter_exportable_interests, is_amt_exportable_group, parse_datagram_source,
    LocalMembershipConfig, LocalMembershipError, LocalMembershipManager,
};
use amt::membership::{
    build_membership_report, MembershipParseError, MembershipRecord, MembershipRecordKind,
    MembershipReport,
};
use amt::net::{IpAddr, Ipv4Addr, Ipv6Addr, SocketAddr};
use amt::ordered::OrdMap;
use amt::protocol::MembershipProtocol;
use amt::query::validate_general_query;
use amt::state::{GroupInterest, RelayState, UpstreamSubscription};
use amt::time::{Duration, Instant};

fn socket(octets: [u8; 4], port: u16) -> SocketAddr {
    let [a, b, c, d] = octets;
    SocketAddr::new(IpAddr::V4(Ipv4Addr::new(a, b, c, d)), port)
}

fn report(records: Vec<MembershipRecord>) -> MembershipReport {
    MembershipReport {
        protocol: MembershipProtocol::Igmpv3,
        records,
    }
}

fn record(
    kind: MembershipRecordKind,
    group: IpAddr,
    sources: Vec<IpAddr>,
) -> MembershipRecord {
    MembershipRecord {
        kind,
        group,
        sources,
    }
}

fn manager() -> LocalMembershipManager {
    LocalMembershipManager::new(LocalMembershipConfig::new(MembershipProtocol::Igmpv3))
}

fn interests(entries: Vec<(IpAddr, GroupInterest)>) -> OrdMap<IpAddr, GroupInterest> {
    let mut map = OrdMap::new();
    for (group, interest) in entries {
        map.insert(group, interest);
    }
    map
}

#[test]
fn delta_advertises_asm_join_and_leave() {
    let group = IpAddr::V4(Ipv4Addr::new(239, 1, 2, 3));
    let previous = OrdMap::new();
    let current = interests(vec![(group, GroupInterest::exclude(&vec![]))]);

    assert_eq!(
        delta_records(MembershipProtocol::Igmpv3, &previous, &current),
        vec![record(
            MembershipRecordKind::ChangeToExclude,
            group,
            Vec::new()
        )]
    );

    assert_eq!(
        delta_records(MembershipProtocol::Igmpv3, &current, &previous),
        vec![record(
            MembershipRecordKind::ChangeToInclude,
            group,
            Vec::new()
        )]
    );
}

#[test]
fn delta_advertises_exact_remaining_ssm_sources() {
    let group = IpAddr::V4(Ipv4Addr::new(232, 1, 2, 3));
    let first_source = IpAddr::V4(Ipv4Addr::new(192, 0, 2, 10));
    let second_source = IpAddr::V4(Ipv4Addr::new(192, 0, 2, 20));
    let previous =
        interests(vec![(group, GroupInterest::including(&vec![first_source, second_source]))]);
    let current = interests(vec![(group, GroupInterest::including(&vec![second_source]))]);

    assert_eq!(
        delta_records(MembershipProtocol::Igmpv3, &previous, &current),
        vec![record(
            MembershipRecordKind::ChangeToInclude,
            group,
            vec![second_source]
        )]
    );
}

#[test]
fn delta_preserves_exclude_source_filters() {
    let group = IpAddr::V4(Ipv4Addr::new(239, 1, 2, 3));
    let blocked = IpAddr::V4(Ipv4Addr::new(192, 0, 2, 10));
    let previous = OrdMap::new();
    let current = interests(vec![(group, GroupInterest::exclude(&vec![blocked]))]);

    assert_eq!(
        delta_records(MembershipProtocol::Igmpv3, &previous, &current),
        vec![record(
            MembershipRecordKind::ChangeToExclude,
            group,
            vec![blocked]
        )]
    );
}

#[test]
fn current_report_uses_state_records_for_refreshes() {
    let group = IpAddr::V4(Ipv4Addr::new(232, 1, 2, 3));
    let source = IpAddr::V4(Ipv4Addr::new(192, 0, 2, 10));
    let mut manager = manager();

    manager.state.apply_report(
        socket([192, 168, 1, 10], 0),
        &report(vec![record(
            MembershipRecordKind::ModeIsInclude,
            group,
            vec![source],
        )]),
    );

    assert_eq!(
        manager.current_report(),
        Some(report(vec![record(
            MembershipRecordKind::ModeIsInclude,
            group,
            vec![source]
        )]))
    );
}

#[test]
fn transparent_export_filters_ipv4_link_local_and_service_discovery_groups() {
    let link_local = IpAddr::V4(Ipv4Addr::new(224, 0, 0, 251));
    let ssdp = IpAddr::V4(Ipv4Addr::new(239, 255, 255, 250));
    let exportable = IpAddr::V4(Ipv4Addr::new(239, 1, 2, 3));
    let current = interests(vec![
        (link_local, GroupInterest::exclude(&vec![])),
        (ssdp, GroupInterest::exclude(&vec![])),
        (exportable, GroupInterest::exclude(&vec![])),
    ]);

    assert_eq!(
        filter_exportable_interests(MembershipProtocol::Igmpv3, &current),
        interests(vec![(exportable, GroupInterest::exclude(&vec![]))])
    );
}

#[test]
fn transparent_export_filters_ipv6_link_local_groups() {
    let link_local = IpAddr::V6(Ipv6Addr::new(0xff02, 0, 0, 0, 0, 0, 0, 0xfb));
    let site_local = IpAddr::V6(Ipv6Addr::new(0xff05, 0, 0, 0, 0, 0, 0, 0x1234));
    let current = interests(vec![
        (link_local, GroupInterest::exclude(&vec![])),
        (site_local, GroupInterest::exclude(&vec![])),
    ]);

    assert_eq!(
        filter_exportable_interests(MembershipProtocol::Mldv2, &current),
        interests(vec![(site_local, GroupInterest::exclude(&vec![]))])
    );
}

#[test]
fn current_report_omits_non_exportable_transparent_groups() {
    let exportable = IpAddr::V4(Ipv4Addr::new(239, 1, 2, 3));
    let mut manager = manager();

    manager.state.apply_report(
        socket([192, 168, 1, 10], 0),
        &report(vec![
            record(
                MembershipRecordKind::ModeIsExclude,
                IpAddr::V4(Ipv4Addr::new(224, 0, 0, 251)),
                Vec::new(),
            ),
            record(MembershipRecordKind::ModeIsExclude, exportable, Vec::new()),
        ]),
    );

    assert_eq!(
        manager.current_report(),
        Some(report(vec![record(
            MembershipRecordKind::ModeIsExclude,
            exportable,
            Vec::new()
        )]))
    );
}

#[test]
fn pending_report_leaves_previously_advertised_exportable_group() {
    let group = IpAddr::V4(Ipv4Addr::new(239, 1, 2, 3));
    let mut manager = manager();
    manager.advertised = interests(vec![(group, GroupInterest::exclude(&vec![]))]);

    manager.state.apply_report(
        socket([192, 168, 1, 10], 0),
        &report(vec![record(
            MembershipRecordKind::ModeIsExclude,
            IpAddr::V4(Ipv4Addr::new(224, 0, 0, 251)),
            Vec::new(),
        )]),
    );

    assert_eq!(
        manager.pending_report(),
        Some(report(vec![record(
            MembershipRecordKind::ChangeToInclude,
            group,
            Vec::new()
        )]))
    );
}

#[test]
fn tracker_keeps_group_advertised_until_all_local_reporters_leave() {
    let group = IpAddr::V4(Ipv4Addr::new(239, 1, 2, 3));
    let first = socket([192, 168, 1, 10], 0);
    let second = socket([192, 168, 1, 11], 0);
    let mut state = RelayState::new();
    state.apply_report(
        first,
        &report(vec![record(
            MembershipRecordKind::ModeIsExclude,
            group,
            Vec::new(),
        )]),
    );
    state.apply_report(
        second,
        &report(vec![record(
            MembershipRecordKind::ModeIsExclude,
            group,
            Vec::new(),
        )]),
    );

    let advertised = state.aggregate_interests();
    state.apply_report(
        first,
        &report(vec![record(
            MembershipRecordKind::ChangeToInclude,
            group,
            Vec::new(),
        )]),
    );
    let current = state.aggregate_interests();

    assert!(delta_records(MembershipProtocol::Igmpv3, &advertised, &current).is_empty());
    assert_eq!(
        current,
        interests(vec![(group, GroupInterest::exclude(&vec![]))])
    );
}

fn at(seconds: u64) -> Instant {
    Instant::at(Duration::from_secs(seconds))
}

#[test]
fn heard_reports_become_pending_until_advertised() {
    let group = IpAddr::V4(Ipv4Addr::new(239, 1, 2, 3));
    let packet = build_membership_report(&report(vec![record(
        MembershipRecordKind::ModeIsExclude,
        group,
        Vec::new(),
    )]))
    .unwrap();
    let reporter = IpAddr::V4(Ipv4Addr::new(192, 168, 1, 10));
    let mut manager = manager();

    let event = manager
        .handle_packet(at(1), Some(reporter), &packet)
        .unwrap()
        .unwrap();
    assert_eq!(event.reporter, reporter);
    assert_eq!(event.records_received, 1);
    assert_eq!(
        event.active_subscriptions,
        vec![UpstreamSubscription::any_source(group)]
    );
    assert_eq!(
        manager.pending_report(),
        Some(report(vec![record(
            MembershipRecordKind::ChangeToExclude,
            group,
            Vec::new()
        )]))
    );

    manager.mark_advertised();
    assert_eq!(manager.pending_report(), None);
    assert_eq!(
        manager.current_report(),
        Some(report(vec![record(
            MembershipRecordKind::ModeIsExclude,
            group,
            Vec::new()
        )]))
    );
}

#[test]
fn the_pending_report_brings_a_table_up_to_date() {
    let relay_side = socket([198, 51, 100, 8], 40_000);
    let kept = IpAddr::V4(Ipv4Addr::new(239, 1, 2, 3));
    let left = IpAddr::V4(Ipv4Addr::new(239, 1, 2, 4));
    let reporter = socket([192, 168, 1, 10], 0);
    let mut manager = manager();
    let mut relay = RelayState::new();
    for groups in [vec![kept, left], vec![kept]] {
        manager.state.remove_endpoint(reporter);
        for group in groups {
            manager.state.apply_report(
                reporter,
                &report(vec![record(
                    MembershipRecordKind::ChangeToExclude,
                    group,
                    Vec::new(),
                )]),
            );
        }
        relay.apply_report(relay_side, &manager.pending_report().unwrap());
        manager.mark_advertised();
        assert_eq!(relay.aggregate_interests(), manager.state.aggregate_interests());
    }
}

#[test]
fn silent_reporters_are_dropped() {
    let group = IpAddr::V4(Ipv4Addr::new(239, 1, 2, 3));
    let packet = build_membership_report(&report(vec![record(
        MembershipRecordKind::ModeIsExclude,
        group,
        Vec::new(),
    )]))
    .unwrap();
    let mut manager = manager();
    manager.config.reporter_timeout = Duration::from_secs(10);
    for (second, last) in [(1, 10), (5, 11)] {
        manager
            .handle_packet(
                at(second),
                Some(IpAddr::V4(Ipv4Addr::new(192, 168, 1, last))),
                &packet,
            )
            .unwrap();
    }

    assert_eq!(manager.prune_stale_reporters(at(10)), 0);
    assert_eq!(manager.prune_stale_reporters(at(12)), 1);
    assert!(manager.current_report().is_some());
    assert_eq!(manager.prune_stale_reporters(at(16)), 1);
    assert_eq!(manager.current_report(), None);
}

#[test]
fn unreadable_reports_are_parse_errors() {
    let mut manager = manager();
    let error = manager.handle_packet(at(1), None, &[0x50]).unwrap_err();
    assert!(error.is_parse_error());
    assert_eq!(
        error,
        LocalMembershipError::Parse(MembershipParseError::InvalidIpVersion(5))
    );
    assert!(!LocalMembershipError::Receive("closed".to_string()).is_parse_error());
}

#[test]
fn exportable_groups_and_packet_sources() {
    assert!(!is_amt_exportable_group(IpAddr::V4(Ipv4Addr::new(239, 255, 255, 253))));
    assert!(is_amt_exportable_group(IpAddr::V4(Ipv4Addr::new(224, 0, 1, 1))));
    assert!(!is_amt_exportable_group(IpAddr::V6(Ipv6Addr::new(0xff02, 0, 0, 0, 0, 0, 0, 1))));
    let query = manager().local_query();
    assert!(validate_general_query(MembershipProtocol::Igmpv3, &query).is_ok());
    assert_eq!(
        parse_datagram_source(&query),
        Some(IpAddr::V4(Ipv4Addr::new(0, 0, 0, 0)))
    );
    assert_eq!(parse_datagram_source(&[0x60; 10]), None);
    assert_eq!(
        manager().config().raw_config().group,
        IpAddr::V4(Ipv4Addr::new(224, 0, 0, 22))
    );
}
