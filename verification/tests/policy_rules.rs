use netmon::evaluate::{evaluate, SkipReason, SkippedMetric};
use netmon::input::{
    AddressFamily, DataCompleteness, DetectionSnapshot, MetricKind, MetricRates, SamplingStatus, ScopeId, ScopeKey,
    ScopeType, TrafficDirection,
};
use netmon::net::IpAddress;
use netmon::policy::{
    prefix_contains, DetectionPolicy, ExecutionMode, PolicyDraft, PolicyError, PolicySelector, Severity,
    TenantPrefixes, Thresholds, DEFAULT_CLEAR_PERCENT, MAX_LABELS, MAX_LABEL_VALUE_LEN, MAX_POLICY_ID_LEN,
    MAX_TIMER, MAX_WINDOW,
};

const SEC: u128 = 1_000_000_000;

fn v4(a: u8, b: u8, c: u8, d: u8) -> IpAddress {
    IpAddress::V4(u32::from_be_bytes([a, b, c, d]))
}

fn eval_policy_with(thresholds: Thresholds) -> DetectionPolicy {
    PolicyDraft {
        id: "p1".to_string(),
        name: "P1".to_string(),
        description: None,
        enabled: true,
        tenant: "t".to_string(),
        scope_type: ScopeType::Host,
        selector: PolicySelector::Any,
        address_family: None,
        direction: TrafficDirection::Incoming,
        window: 15 * SEC,
        thresholds,
        clear_percent: DEFAULT_CLEAR_PERCENT,
        trigger_for: 15 * SEC,
        clear_for: 30 * SEC,
        cooldown: 60 * SEC,
        hold_down: 30 * SEC,
        event_update_interval: 60 * SEC,
        severity: Severity::Major,
        execution_mode: ExecutionMode::AlertOnly,
        priority: 0,
        labels: Vec::new(),
        version: 1,
    }
    .validate(&TenantPrefixes::new())
    .unwrap()
}

fn eval_snapshot(rates: MetricRates, completeness: DataCompleteness) -> DetectionSnapshot {
    DetectionSnapshot {
        key: ScopeKey {
            tenant: "t".to_string(),
            scope_type: ScopeType::Host,
            scope_id: ScopeId::Host { addr: v4(192, 0, 2, 1) },
            direction: TrafficDirection::Incoming,
            address_family: AddressFamily::Ipv4,
        },
        window: 15 * SEC,
        observed_at: 1_000 * SEC,
        observed_wall: 0,
        rates,
        completeness,
        sampling: SamplingStatus::default(),
        flows_observed: 10,
        exporters_observed: 1,
    }
}

fn rates(f: impl FnOnce(&mut MetricRates)) -> MetricRates {
    let mut r = MetricRates::default();
    f(&mut r);
    r
}

#[test]
fn below_threshold_does_not_match() {
    let p = eval_policy_with(Thresholds::new().with(MetricKind::Bps, 1000));
    let e = evaluate(&p, &eval_snapshot(rates(|r| r.bps = 999), DataCompleteness::default()));
    assert!(!e.is_over_threshold());
    assert_eq!(e.evaluated, 1);
}

#[test]
fn exactly_at_the_threshold_matches() {
    // The comparison is inclusive, and this is the boundary an operator
    // will actually ask about.
    let p = eval_policy_with(Thresholds::new().with(MetricKind::Bps, 1000));
    let e = evaluate(&p, &eval_snapshot(rates(|r| r.bps = 1000), DataCompleteness::default()));
    assert!(e.is_over_threshold());
    assert_eq!(e.matched[0].excess, 0);
    assert_eq!(e.matched[0].ratio_percent, 100);
}

#[test]
fn above_the_threshold_records_excess_and_ratio() {
    let p = eval_policy_with(Thresholds::new().with(MetricKind::Bps, 1000));
    let e = evaluate(&p, &eval_snapshot(rates(|r| r.bps = 2500), DataCompleteness::default()));
    assert_eq!(e.matched[0].observed, 2500);
    assert_eq!(e.matched[0].excess, 1500);
    assert_eq!(e.matched[0].ratio_percent, 250);
}

#[test]
fn every_matching_threshold_is_reported_not_only_the_first() {
    let p = eval_policy_with(
        Thresholds::new().with(MetricKind::Bps, 1000).with(MetricKind::Pps, 100).with(MetricKind::Fps, 10),
    );
    let e = evaluate(
        &p,
        &eval_snapshot(
            rates(|r| {
                r.bps = 5000;
                r.pps = 500;
                r.fps = 50;
            }),
            DataCompleteness::default(),
        ),
    );
    assert_eq!(e.matched.len(), 3);
    let metrics: Vec<MetricKind> = e.matched.iter().map(|m| m.metric).collect();
    assert!(metrics.contains(&MetricKind::Bps));
    assert!(metrics.contains(&MetricKind::Pps));
    assert!(metrics.contains(&MetricKind::Fps));
}

#[test]
fn matched_reason_order_is_stable_across_evaluations() {
    let p = eval_policy_with(
        Thresholds::new().with(MetricKind::Fps, 10).with(MetricKind::Bps, 1000).with(MetricKind::Pps, 100),
    );
    let snap = eval_snapshot(
        rates(|r| {
            r.bps = 5000;
            r.pps = 500;
            r.fps = 50;
        }),
        DataCompleteness::default(),
    );
    let first: Vec<MetricKind> = evaluate(&p, &snap).matched.iter().map(|m| m.metric).collect();
    for _ in 0..20 {
        let again: Vec<MetricKind> = evaluate(&p, &snap).matched.iter().map(|m| m.metric).collect();
        assert_eq!(first, again);
    }
}

#[test]
fn only_one_of_several_thresholds_matching_still_triggers() {
    let p = eval_policy_with(Thresholds::new().with(MetricKind::Bps, 1_000_000).with(MetricKind::Pps, 100));
    let e = evaluate(
        &p,
        &eval_snapshot(
            rates(|r| {
                r.bps = 10;
                r.pps = 5000;
            }),
            DataCompleteness::default(),
        ),
    );
    assert_eq!(e.matched.len(), 1);
    assert_eq!(e.matched[0].metric, MetricKind::Pps);
}

#[test]
fn a_metric_whose_source_field_was_never_present_is_skipped_not_zeroed() {
    let p = eval_policy_with(Thresholds::new().with(MetricKind::DroppedPps, 1));
    let e = evaluate(&p, &eval_snapshot(MetricRates::default(), DataCompleteness::default()));
    assert!(e.matched.is_empty());
    assert_eq!(e.evaluated, 0);
    assert_eq!(e.skipped, vec![SkippedMetric { metric: MetricKind::DroppedPps, reason: SkipReason::SourceFieldAbsent }]);
    // Nothing was measurable, so nothing may clear on this evidence.
    assert!(!e.all_below_clear);
}

#[test]
fn a_metric_becomes_evaluable_once_its_source_field_appears() {
    let p = eval_policy_with(Thresholds::new().with(MetricKind::DroppedPps, 100));
    let e = evaluate(
        &p,
        &eval_snapshot(
            rates(|r| r.dropped_pps = 500),
            DataCompleteness { forwarding_status_seen: true, ..Default::default() },
        ),
    );
    assert_eq!(e.evaluated, 1);
    assert_eq!(e.matched.len(), 1);
}

#[test]
fn protocol_thresholds_need_the_protocol_field() {
    let p = eval_policy_with(Thresholds::new().with(MetricKind::UdpPps, 100));
    let without = evaluate(&p, &eval_snapshot(rates(|r| r.udp_pps = 9999), DataCompleteness::default()));
    assert!(without.matched.is_empty());

    let with = evaluate(
        &p,
        &eval_snapshot(rates(|r| r.udp_pps = 9999), DataCompleteness { protocol_seen: true, ..Default::default() }),
    );
    assert_eq!(with.matched.len(), 1);
}

#[test]
fn hysteresis_band_is_neither_matching_nor_clear() {
    // Trigger 1000, clear at 80% = 800: 900 sits in the band.
    let p = eval_policy_with(Thresholds::new().with(MetricKind::Bps, 1000));
    let e = evaluate(&p, &eval_snapshot(rates(|r| r.bps = 900), DataCompleteness::default()));
    assert!(!e.is_over_threshold());
    assert!(!e.all_below_clear);
}

#[test]
fn exactly_at_the_clear_threshold_counts_as_clear() {
    let p = eval_policy_with(Thresholds::new().with(MetricKind::Bps, 1000));
    let e = evaluate(&p, &eval_snapshot(rates(|r| r.bps = 800), DataCompleteness::default()));
    assert!(e.all_below_clear);
}

#[test]
fn one_metric_still_above_clear_blocks_clearing_of_the_whole_policy() {
    let p = eval_policy_with(Thresholds::new().with(MetricKind::Bps, 1000).with(MetricKind::Pps, 100));
    let e = evaluate(
        &p,
        &eval_snapshot(
            rates(|r| {
                r.bps = 10;
                r.pps = 95;
            }),
            DataCompleteness::default(),
        ),
    );
    assert!(!e.is_over_threshold());
    assert!(!e.all_below_clear, "pps 95 is above its clear level of 80");
}

#[test]
fn zero_observed_traffic_is_below_clear() {
    let p = eval_policy_with(Thresholds::new().with(MetricKind::Bps, 1000));
    let e = evaluate(&p, &eval_snapshot(MetricRates::default(), DataCompleteness::default()));
    assert!(e.all_below_clear);
}

#[test]
fn integer_maximum_observed_does_not_overflow() {
    let p = eval_policy_with(Thresholds::new().with(MetricKind::Bps, 1));
    let e = evaluate(&p, &eval_snapshot(rates(|r| r.bps = u64::MAX), DataCompleteness::default()));
    assert_eq!(e.matched[0].excess, u64::MAX - 1);
    assert_eq!(e.matched[0].ratio_percent, u64::MAX);
}

fn draft() -> PolicyDraft {
    PolicyDraft {
        id: "inbound-host".to_string(),
        name: "Inbound host protection".to_string(),
        description: None,
        enabled: true,
        tenant: "tenant-a".to_string(),
        scope_type: ScopeType::Host,
        selector: PolicySelector::Host { addr: v4(192, 0, 2, 10) },
        address_family: None,
        direction: TrafficDirection::Incoming,
        window: 15 * SEC,
        thresholds: Thresholds::new().with(MetricKind::Bps, 1_500_000_000),
        clear_percent: DEFAULT_CLEAR_PERCENT,
        trigger_for: 15 * SEC,
        clear_for: 30 * SEC,
        cooldown: 300 * SEC,
        hold_down: 60 * SEC,
        event_update_interval: 60 * SEC,
        severity: Severity::Critical,
        execution_mode: ExecutionMode::AlertOnly,
        priority: 0,
        labels: Vec::new(),
        version: 1,
    }
}

#[test]
fn a_well_formed_policy_validates() {
    let policy = draft().validate(&TenantPrefixes::new()).unwrap();
    assert_eq!(policy.id, "inbound-host");
    assert_eq!(policy.clear_percent.get(), 80);
}

#[test]
fn empty_id_is_rejected() {
    let mut d = draft();
    d.id = String::new();
    assert_eq!(d.validate(&TenantPrefixes::new()), Err(PolicyError::EmptyId));
}

#[test]
fn id_with_a_space_is_rejected() {
    let mut d = draft();
    d.id = "bad id".to_string();
    assert!(matches!(d.validate(&TenantPrefixes::new()), Err(PolicyError::IdCharacter { ch: ' ', .. })));
}

#[test]
fn overlong_id_is_rejected() {
    let mut d = draft();
    d.id = "a".repeat(MAX_POLICY_ID_LEN + 1);
    assert!(matches!(d.validate(&TenantPrefixes::new()), Err(PolicyError::IdTooLong { .. })));
}

#[test]
fn empty_name_and_tenant_are_rejected() {
    let mut d = draft();
    d.name = "   ".to_string();
    assert!(matches!(d.validate(&TenantPrefixes::new()), Err(PolicyError::EmptyName { .. })));

    let mut d = draft();
    d.tenant = String::new();
    assert!(matches!(d.validate(&TenantPrefixes::new()), Err(PolicyError::EmptyTenant { .. })));
}

#[test]
fn zero_window_is_rejected() {
    let mut d = draft();
    d.window = 0;
    assert!(matches!(d.validate(&TenantPrefixes::new()), Err(PolicyError::ZeroWindow { .. })));
}

#[test]
fn window_longer_than_the_longest_source_window_is_rejected() {
    let mut d = draft();
    d.window = MAX_WINDOW + SEC;
    d.trigger_for = d.window;
    d.clear_for = d.window;
    assert!(matches!(d.validate(&TenantPrefixes::new()), Err(PolicyError::WindowTooLong { .. })));
}

#[test]
fn a_policy_with_no_thresholds_is_rejected() {
    let mut d = draft();
    d.thresholds = Thresholds::new();
    assert!(matches!(d.validate(&TenantPrefixes::new()), Err(PolicyError::NoThresholds { .. })));
}

#[test]
fn a_zero_threshold_is_rejected_because_the_comparison_is_inclusive() {
    let mut d = draft();
    d.thresholds = Thresholds::new().with(MetricKind::Pps, 0);
    assert!(matches!(d.validate(&TenantPrefixes::new()), Err(PolicyError::ZeroThreshold { metric: "pps", .. })));
}

#[test]
fn clear_percent_outside_one_to_hundred_is_rejected() {
    for percent in [0u8, 101, 255] {
        let mut d = draft();
        d.clear_percent = percent;
        assert!(
            matches!(d.validate(&TenantPrefixes::new()), Err(PolicyError::InvalidClearPercent { .. })),
            "percent {percent} should be rejected"
        );
    }
}

#[test]
fn trigger_shorter_than_the_window_is_rejected() {
    let mut d = draft();
    d.trigger_for = 5 * SEC;
    assert!(matches!(d.validate(&TenantPrefixes::new()), Err(PolicyError::TriggerShorterThanWindow { .. })));
}

#[test]
fn clear_shorter_than_the_window_is_rejected() {
    let mut d = draft();
    d.clear_for = SEC;
    assert!(matches!(d.validate(&TenantPrefixes::new()), Err(PolicyError::ClearShorterThanWindow { .. })));
}

#[test]
fn an_absurdly_long_timer_is_rejected() {
    let mut d = draft();
    d.cooldown = MAX_TIMER + SEC;
    assert!(matches!(d.validate(&TenantPrefixes::new()), Err(PolicyError::TimerTooLong { field: "cooldown", .. })));
}

#[test]
fn zero_event_update_interval_is_rejected() {
    let mut d = draft();
    d.event_update_interval = 0;
    assert!(matches!(d.validate(&TenantPrefixes::new()), Err(PolicyError::ZeroEventUpdateInterval { .. })));
}

#[test]
fn too_many_labels_are_rejected() {
    let mut d = draft();
    for i in 0..(MAX_LABELS + 1) {
        d.labels.push((format!("k{i:02}"), "v".to_string()));
    }
    assert!(matches!(d.validate(&TenantPrefixes::new()), Err(PolicyError::TooManyLabels { .. })));
}

#[test]
fn an_oversized_label_value_is_rejected() {
    let mut d = draft();
    d.labels.push(("k".to_string(), "v".repeat(MAX_LABEL_VALUE_LEN + 1)));
    assert!(matches!(d.validate(&TenantPrefixes::new()), Err(PolicyError::LabelTooLong { .. })));
}

#[test]
fn a_selector_that_cannot_match_its_scope_is_rejected() {
    let mut d = draft();
    d.scope_type = ScopeType::HostgroupTotal;
    assert!(matches!(d.validate(&TenantPrefixes::new()), Err(PolicyError::SelectorScopeMismatch { .. })));
}

#[test]
fn a_slash24_scope_rejects_a_non_24_selector() {
    let mut d = draft();
    d.scope_type = ScopeType::Slash24;
    d.selector = PolicySelector::Network { addr: v4(198, 51, 100, 0), prefix_len: 16 };
    assert!(matches!(d.validate(&TenantPrefixes::new()), Err(PolicyError::SelectorScopeMismatch { .. })));
}

#[test]
fn an_impossible_prefix_length_is_rejected() {
    let mut d = draft();
    d.scope_type = ScopeType::Prefix;
    d.selector = PolicySelector::Network { addr: v4(198, 51, 100, 0), prefix_len: 33 };
    assert!(matches!(d.validate(&TenantPrefixes::new()), Err(PolicyError::InvalidPrefixLength { .. })));
}

#[test]
fn direction_unknown_is_rejected() {
    let mut d = draft();
    d.direction = TrafficDirection::Unknown;
    assert!(matches!(d.validate(&TenantPrefixes::new()), Err(PolicyError::UnsupportedDirection { .. })));
}

#[test]
fn a_prefix_outside_the_tenants_ownership_is_rejected() {
    let mut owned = TenantPrefixes::new();
    owned.insert("tenant-a".to_string(), v4(198, 51, 100, 0), 24);
    let mut d = draft();
    d.scope_type = ScopeType::Prefix;
    d.selector = PolicySelector::Network { addr: v4(203, 0, 113, 0), prefix_len: 24 };
    assert!(matches!(d.validate(&owned), Err(PolicyError::PrefixNotOwnedByTenant { .. })));
}

#[test]
fn a_prefix_inside_the_tenants_ownership_is_accepted() {
    let mut owned = TenantPrefixes::new();
    owned.insert("tenant-a".to_string(), v4(198, 51, 100, 0), 16);
    let mut d = draft();
    d.scope_type = ScopeType::Prefix;
    d.selector = PolicySelector::Network { addr: v4(198, 51, 100, 0), prefix_len: 24 };
    assert!(d.validate(&owned).is_ok());
}

#[test]
fn ownership_is_skipped_entirely_when_no_prefixes_are_configured() {
    let mut d = draft();
    d.scope_type = ScopeType::Prefix;
    d.selector = PolicySelector::Network { addr: v4(203, 0, 113, 0), prefix_len: 24 };
    assert!(d.validate(&TenantPrefixes::new()).is_ok());
}

fn host_key(last: u8) -> ScopeKey {
    ScopeKey {
        tenant: "tenant-a".to_string(),
        scope_type: ScopeType::Host,
        scope_id: ScopeId::Host { addr: v4(192, 0, 2, last) },
        direction: TrafficDirection::Incoming,
        address_family: AddressFamily::Ipv4,
    }
}

#[test]
fn matches_scope_respects_tenant_direction_and_family() {
    let policy = draft().validate(&TenantPrefixes::new()).unwrap();
    let key = host_key(10);
    assert!(policy.matches_scope(&key));

    let mut other_tenant = key.clone();
    other_tenant.tenant = "tenant-b".to_string();
    assert!(!policy.matches_scope(&other_tenant));

    let mut other_direction = key.clone();
    other_direction.direction = TrafficDirection::Outgoing;
    assert!(!policy.matches_scope(&other_direction));
}

#[test]
fn a_disabled_policy_matches_nothing() {
    let mut d = draft();
    d.enabled = false;
    let policy = d.validate(&TenantPrefixes::new()).unwrap();
    assert!(!policy.matches_scope(&host_key(10)));
}

#[test]
fn an_any_selector_matches_every_scope_of_its_type() {
    let mut d = draft();
    d.selector = PolicySelector::Any;
    let policy = d.validate(&TenantPrefixes::new()).unwrap();
    for last in [1u8, 2, 250] {
        assert!(policy.matches_scope(&host_key(last)));
    }
}

#[test]
fn specificity_ranks_host_above_prefix_above_any() {
    let host = draft().validate(&TenantPrefixes::new()).unwrap();

    let mut d = draft();
    d.scope_type = ScopeType::Prefix;
    d.selector = PolicySelector::Network { addr: v4(198, 51, 100, 0), prefix_len: 24 };
    let prefix = d.validate(&TenantPrefixes::new()).unwrap();

    let mut d = draft();
    d.scope_type = ScopeType::HostgroupTotal;
    d.selector = PolicySelector::Any;
    let any = d.validate(&TenantPrefixes::new()).unwrap();

    assert!(host.specificity() > prefix.specificity());
    assert!(prefix.specificity() > any.specificity());
}

#[test]
fn a_longer_prefix_is_more_specific_than_a_shorter_one() {
    let make = |len: u8| {
        let mut d = draft();
        d.scope_type = ScopeType::Prefix;
        d.selector = PolicySelector::Network { addr: v4(198, 51, 100, 0), prefix_len: len };
        d.validate(&TenantPrefixes::new()).unwrap()
    };
    assert!(make(24).specificity() > make(16).specificity());
}

#[test]
fn prefix_contains_handles_boundaries_and_family_mismatch() {
    let net = v4(198, 51, 100, 0);
    assert!(prefix_contains(net, 24, v4(198, 51, 100, 255)));
    assert!(!prefix_contains(net, 24, v4(198, 51, 101, 0)));
    assert!(prefix_contains(net, 0, v4(10, 0, 0, 1)));
    assert!(!prefix_contains(net, 24, IpAddress::V6(1)));
    assert!(!prefix_contains(net, 33, v4(198, 51, 100, 1)));
}
