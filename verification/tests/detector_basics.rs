use netmon::clock::{Clock, SystemClock, TestClock};
use netmon::config::{parse_duration, parse_magnitude, render_duration, Magnitude};
use netmon::direction::Direction;
use netmon::evaluate::ratio_percent;
use netmon::input::{
    CompletenessFlag, DataCompleteness, MetricKind, MetricRates, SamplingStatus, ScopeType, TrafficDirection,
    ALL_METRIC_KINDS,
};
use netmon::policy::ClearPercent;
use netmon::state::DetectionState;
use netmon::state::DetectionState::{Active, Cooldown, Idle, PendingClear, PendingTrigger};
use netmon::window::{bits_per_second, per_second, skewed};

const MS: u128 = 1_000_000;
const SEC: u128 = 1_000_000_000;

#[test]
fn test_clock_does_not_move_on_its_own() {
    let clock = TestClock::new();
    let first = clock.monotonic();
    let second = clock.monotonic();
    assert_eq!(first, second);
}

#[test]
fn advance_moves_both_readings_by_the_same_amount() {
    let mut clock = TestClock::new();
    let mono_before = clock.monotonic();
    let wall_before = clock.wall();
    clock.advance(30 * SEC);
    assert_eq!(clock.monotonic() - mono_before, 30 * SEC);
    assert_eq!(clock.wall() - wall_before, 30 * SEC as i128);
}

#[test]
fn wall_only_advance_leaves_monotonic_untouched() {
    let mut clock = TestClock::new();
    let mono_before = clock.monotonic();
    clock.advance_wall_only(3600 * SEC);
    assert_eq!(clock.monotonic(), mono_before);
    assert_eq!(clock.wall(), 3600 * SEC as i128);
}

#[test]
fn system_clock_monotonic_never_goes_backwards() {
    let clock = SystemClock::new();
    let first = clock.monotonic();
    let second = clock.monotonic();
    assert!(second >= first);
    assert!(clock.wall() > 0);
}

#[test]
fn durations_parse_every_supported_unit() {
    assert_eq!(parse_duration("250ms"), Ok(250 * MS));
    assert_eq!(parse_duration("30s"), Ok(30 * SEC));
    assert_eq!(parse_duration("5m"), Ok(300 * SEC));
    assert_eq!(parse_duration("2h"), Ok(7200 * SEC));
    assert_eq!(parse_duration("1d"), Ok(86_400 * SEC));
    assert_eq!(parse_duration("  10s  "), Ok(10 * SEC));
}

#[test]
fn a_bad_duration_explains_itself() {
    assert!(parse_duration("").is_err());
    assert!(parse_duration("s").is_err());
    assert!(parse_duration("10 s").is_err());
    assert!(parse_duration("10weeks").is_err());
    assert!(parse_duration("18446744073709551615d").is_err());
}

#[test]
fn duration_errors_carry_their_exact_message() {
    assert_eq!(parse_duration("   "), Err("is empty".to_string()));
    assert_eq!(parse_duration("300"), Err("\"300\" has no unit; write \"300s\" or \"300ms\"".to_string()));
    assert_eq!(parse_duration("s"), Err("\"s\" does not start with a number".to_string()));
    assert_eq!(parse_duration("10weeks"), Err("unit \"weeks\" is not one of ms, s, m, h, d".to_string()));
    assert_eq!(parse_duration("18446744073709551615d"), Err("\"18446744073709551615d\" overflows".to_string()));
}

#[test]
fn magnitudes_parse_decimal_suffixes() {
    assert_eq!(parse_magnitude("250"), Ok(250));
    assert_eq!(parse_magnitude("1k"), Ok(1_000));
    assert_eq!(parse_magnitude("1K"), Ok(1_000));
    assert_eq!(parse_magnitude("500M"), Ok(500_000_000));
    assert_eq!(parse_magnitude("10G"), Ok(10_000_000_000));
    assert_eq!(parse_magnitude("1T"), Ok(1_000_000_000_000));
}

#[test]
fn a_bad_magnitude_explains_itself() {
    assert!(parse_magnitude("").is_err());
    assert!(parse_magnitude("Gb").is_err());
    assert!(parse_magnitude("10Gi").is_err());
    assert!(parse_magnitude("18446744073709551615T").is_err());
}

#[test]
fn a_threshold_may_be_a_number_or_a_string() {
    assert_eq!(Magnitude::Number(1000).resolve(), Ok(1000));
    assert_eq!(Magnitude::Text("1k".to_string()).resolve(), Ok(1000));
}

#[test]
fn durations_render_in_their_shortest_exact_form() {
    assert_eq!(render_duration(300 * SEC), "5m");
    assert_eq!(render_duration(5 * SEC), "5s");
    assert_eq!(render_duration(250 * MS), "250ms");
    assert_eq!(render_duration(86_400 * SEC), "1d");
    assert_eq!(render_duration(7_200 * SEC), "2h");
    assert_eq!(render_duration(0), "0ms");
}

#[test]
fn a_rendered_duration_parses_back_to_itself() {
    for nanos in [0, 250 * MS, 5 * SEC, 300 * SEC, 7_200 * SEC, 86_400 * SEC, 90 * SEC] {
        assert_eq!(parse_duration(&render_duration(nanos)), Ok(nanos));
    }
}

#[test]
fn ratio_percent_never_divides_by_zero() {
    assert_eq!(ratio_percent(100, 0), u64::MAX);
    assert_eq!(ratio_percent(0, 100), 0);
    assert_eq!(ratio_percent(5_000_000, 1_000_000), 500);
}

#[test]
fn every_classifier_direction_maps_to_a_detector_direction() {
    assert_eq!(TrafficDirection::from(Direction::Incoming), TrafficDirection::Incoming);
    assert_eq!(TrafficDirection::from(Direction::Outgoing), TrafficDirection::Outgoing);
    assert_eq!(TrafficDirection::from(Direction::Internal), TrafficDirection::Internal);
    assert_eq!(TrafficDirection::from(Direction::Other), TrafficDirection::Other);
    assert_eq!(TrafficDirection::from(Direction::Unknown), TrafficDirection::Unknown);
}

#[test]
fn scope_specificity_orders_host_above_prefix_above_slash24_above_hostgroup() {
    assert!(ScopeType::Host.specificity() > ScopeType::Prefix.specificity());
    assert!(ScopeType::Prefix.specificity() > ScopeType::Slash24.specificity());
    assert!(ScopeType::Slash24.specificity() > ScopeType::HostgroupTotal.specificity());
}

#[test]
fn every_metric_kind_has_a_distinct_name() {
    let mut names: Vec<&str> = ALL_METRIC_KINDS.iter().map(|m| m.as_str()).collect();
    names.sort_unstable();
    let count = names.len();
    names.dedup();
    assert_eq!(names.len(), count, "metric names must be unique");
}

#[test]
fn metric_rates_get_covers_every_kind() {
    let rates = MetricRates {
        bps: 1,
        pps: 2,
        fps: 3,
        tcp_bps: 4,
        tcp_pps: 5,
        udp_bps: 6,
        udp_pps: 7,
        icmp_bps: 8,
        icmp_pps: 9,
        tcp_syn_bps: 10,
        tcp_syn_pps: 11,
        fragmented_bps: 12,
        fragmented_pps: 13,
        dropped_bps: 14,
        dropped_pps: 15,
    };
    let values: Vec<u64> = ALL_METRIC_KINDS.iter().map(|k| rates.get(*k)).collect();
    assert_eq!(values, (1..=15).collect::<Vec<u64>>());
}

#[test]
fn protocol_derived_metrics_require_the_matching_completeness_flag() {
    assert_eq!(MetricKind::TcpSynPps.required_completeness(), Some(CompletenessFlag::TcpFlags));
    assert_eq!(MetricKind::DroppedPps.required_completeness(), Some(CompletenessFlag::ForwardingStatus));
    assert_eq!(MetricKind::Bps.required_completeness(), None);
}

#[test]
fn completeness_merge_is_a_logical_or() {
    let mut a = DataCompleteness { protocol_seen: true, ..Default::default() };
    a.merge(DataCompleteness { tcp_flags_seen: true, ..Default::default() });
    assert!(a.protocol_seen && a.tcp_flags_seen);
    assert!(!a.fragmentation_seen);
}

#[test]
fn sampling_status_merge_keeps_the_worst_case() {
    let mut a = SamplingStatus { corrected: true, used_global_default: false, max_rate: 100 };
    a.merge(SamplingStatus { corrected: false, used_global_default: true, max_rate: 10_000 });
    assert!(a.corrected);
    assert!(a.used_global_default);
    assert_eq!(a.max_rate, 10_000);
}

#[test]
fn clear_threshold_is_a_percentage_of_the_trigger() {
    let p = ClearPercent::new(80).unwrap();
    assert_eq!(p.clear_threshold(1000), 800);
    assert_eq!(ClearPercent::new(100).unwrap().clear_threshold(1000), 1000);
    assert_eq!(ClearPercent::new(1).unwrap().clear_threshold(1000), 10);
}

#[test]
fn clear_threshold_does_not_overflow_at_the_top_of_u64() {
    let p = ClearPercent::new(100).unwrap();
    assert_eq!(p.clear_threshold(u64::MAX), u64::MAX);
    let p = ClearPercent::new(50).unwrap();
    assert_eq!(p.clear_threshold(u64::MAX), u64::MAX / 2);
}

#[test]
fn legal_edges_are_accepted() {
    for (from, to) in [
        (Idle, PendingTrigger),
        (Idle, Active),
        (PendingTrigger, Active),
        (PendingTrigger, Idle),
        (Active, PendingClear),
        (Active, Cooldown),
        (Active, Idle),
        (PendingClear, Active),
        (PendingClear, Cooldown),
        (PendingClear, Idle),
        (Cooldown, Idle),
    ] {
        assert!(from.can_transition_to(to), "{:?} -> {:?} should be legal", from, to);
    }
}

#[test]
fn impossible_edges_are_rejected() {
    for (from, to) in [
        (Idle, PendingClear),
        (Idle, Cooldown),
        (Idle, Idle),
        (PendingTrigger, PendingClear),
        (PendingTrigger, Cooldown),
        (Active, PendingTrigger),
        (PendingClear, PendingTrigger),
        (Cooldown, PendingTrigger),
        (Cooldown, PendingClear),
        (Cooldown, Active),
    ] {
        assert!(!from.can_transition_to(to), "{:?} -> {:?} should be impossible", from, to);
    }
}

#[test]
fn rate_arithmetic_saturates_instead_of_overflowing() {
    assert_eq!(bits_per_second(u64::MAX, 1), u64::MAX);
    assert_eq!(per_second(1000, 0), 0);
    assert_eq!(per_second(0, SEC), 0);
    assert_eq!(bits_per_second(1_250_000, SEC), 10_000_000);
    assert_eq!(per_second(125, 100 * MS), 1250);
}

#[test]
fn skew_is_measured_against_a_ten_percent_tolerance() {
    let window = 10 * SEC;
    assert!(!skewed(10 * SEC, window));
    assert!(!skewed(10_999 * MS, window));
    assert!(!skewed(9_001 * MS, window));
    assert!(skewed(11_001 * MS, window));
    assert!(skewed(8_999 * MS, window));
}
