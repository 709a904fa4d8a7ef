use netmon::clock::{Clock, SystemClock, TestClock};
use netmon::engine::{cycle, DetectionEngine, EngineConfig, EngineReport, ThresholdDetectionEngine};
use netmon::event::EventKind;
use netmon::input::{
    AddressFamily, DataCompleteness, DetectionSnapshot, MetricKind, MetricRates, SamplingStatus, ScopeId, ScopeKey,
    ScopeType, TrafficDirection,
};
use netmon::metrics::CountingMetrics;
use netmon::net::IpAddress;
use netmon::policy::{ExecutionMode, PolicyDraft, PolicySelector, Severity, TenantPrefixes, Thresholds};
use netmon::precedence::PolicySet;
use netmon::sink::InMemorySink;
use netmon::state::TransitionReason;
use netmon::table::StateTableConfig;

const SEC: u128 = 1_000_000_000;
const START: u128 = 10_000 * SEC;

fn key() -> ScopeKey {
    ScopeKey {
        tenant: "acme".to_string(),
        scope_type: ScopeType::Host,
        scope_id: ScopeId::Host { addr: IpAddress::V4(u32::from_be_bytes([203, 0, 113, 7])) },
        direction: TrafficDirection::Incoming,
        address_family: AddressFamily::Ipv4,
    }
}

fn draft(id: &str) -> PolicyDraft {
    PolicyDraft {
        id: id.to_string(),
        name: "host bps".to_string(),
        description: None,
        enabled: true,
        tenant: "acme".to_string(),
        scope_type: ScopeType::Host,
        selector: PolicySelector::Any,
        address_family: None,
        direction: TrafficDirection::Incoming,
        window: SEC,
        thresholds: Thresholds::new().with(MetricKind::Bps, 1_000_000),
        clear_percent: 80,
        trigger_for: 2 * SEC,
        clear_for: 2 * SEC,
        cooldown: 10 * SEC,
        hold_down: 0,
        event_update_interval: 30 * SEC,
        severity: Severity::Major,
        execution_mode: ExecutionMode::AlertOnly,
        priority: 0,
        labels: Vec::new(),
        version: 1,
    }
}

fn policy_set(drafts: Vec<PolicyDraft>) -> PolicySet {
    let policies: Vec<_> = drafts.into_iter().map(|d| d.validate(&TenantPrefixes::new()).expect("valid")).collect();
    PolicySet::from_policies(policies).expect("no duplicate ids")
}

fn snapshot(at: u128, bps: u64) -> DetectionSnapshot {
    let mut rates = MetricRates::default();
    rates.bps = bps;
    DetectionSnapshot {
        key: key(),
        window: SEC,
        observed_at: at,
        observed_wall: 0,
        rates,
        completeness: DataCompleteness {
            protocol_seen: true,
            tcp_flags_seen: true,
            fragmentation_seen: true,
            forwarding_status_seen: true,
        },
        sampling: SamplingStatus::default(),
        flows_observed: 5,
        exporters_observed: 1,
    }
}

type Engine = ThresholdDetectionEngine<InMemorySink, CountingMetrics, SystemClock>;

struct Harness {
    engine: Engine,
    start: u128,
}

fn harness(drafts: Vec<PolicyDraft>) -> Harness {
    let engine = ThresholdDetectionEngine::new(EngineConfig::default())
        .with_policies(policy_set(drafts))
        .with_sink(InMemorySink::new(64))
        .with_metrics(CountingMetrics::new());
    Harness { engine, start: START }
}

impl Harness {
    fn feed(&mut self, offset_secs: u128, bps: u64) -> EngineReport {
        let snapshot = snapshot(self.start + offset_secs * SEC, bps);
        self.engine.evaluate(&[snapshot])
    }

    fn sweep(&mut self, offset_secs: u128) -> EngineReport {
        self.engine.sweep(self.start + offset_secs * SEC, 0)
    }

    fn sink(&self) -> &InMemorySink {
        self.engine.sink()
    }

    fn metrics(&self) -> &CountingMetrics {
        self.engine.metrics()
    }
}

#[test]
fn a_snapshot_with_no_policy_is_counted_not_dropped_silently() {
    let mut h = harness(Vec::new());
    let report = h.feed(0, 900_000_000);
    assert_eq!(report.snapshots_seen, 1);
    assert_eq!(report.unmatched, 1);
    assert_eq!(report.events_built, 0);
    assert!(h.sink().is_empty());
    assert_eq!(CountingMetrics::get(&h.metrics().snapshots_unmatched), 1);
}

#[test]
fn a_sustained_crossing_publishes_a_start_event() {
    let mut h = harness(vec![draft("p1")]);
    assert_eq!(h.feed(0, 5_000_000).events_built, 0);
    let report = h.feed(2, 5_000_000);
    assert_eq!(report.events_built, 1);
    assert_eq!(report.events_published, 1);
    assert_eq!(report.detections_opened, 1);
    assert_eq!(h.engine.open_detections(), 1);

    let events = h.sink().events();
    assert_eq!(events.len(), 1);
    assert_eq!(events[0].kind, EventKind::Started);
    assert_eq!(events[0].policy_id, "p1");
    assert_eq!(CountingMetrics::get(&h.metrics().events_published), 1);
}

#[test]
fn a_full_detection_publishes_exactly_one_start_and_one_end() {
    let mut h = harness(vec![draft("p1")]);
    h.feed(0, 5_000_000);
    h.feed(2, 5_000_000);
    h.feed(3, 100);
    h.feed(5, 100);

    let events = h.sink().events();
    assert_eq!(events.len(), 2);
    assert_eq!(events[0].kind, EventKind::Started);
    assert_eq!(events[1].kind, EventKind::Ended);
    assert_eq!(events[0].detection_id, events[1].detection_id);
    assert_eq!(h.engine.open_detections(), 0);
}

#[test]
fn an_observe_policy_builds_an_event_but_publishes_nothing() {
    let mut observe = draft("p1");
    observe.execution_mode = ExecutionMode::Observe;
    let mut h = harness(vec![observe]);
    h.feed(0, 5_000_000);
    let report = h.feed(2, 5_000_000);
    assert_eq!(report.events_built, 1);
    assert_eq!(report.events_published, 0);
    assert!(h.sink().is_empty());
    assert_eq!(CountingMetrics::get(&h.metrics().events_built), 1);
    assert_eq!(CountingMetrics::get(&h.metrics().events_published), 0);
}

#[test]
fn a_disabled_policy_never_wins_selection() {
    let mut disabled = draft("p1");
    disabled.enabled = false;
    let mut h = harness(vec![disabled]);
    let report = h.feed(0, 900_000_000);
    assert_eq!(report.unmatched, 1);
    assert!(h.sink().is_empty());
}

#[test]
fn the_more_specific_policy_wins_and_its_id_is_on_the_event() {
    let mut specific = draft("p-host");
    specific.selector = PolicySelector::Host { addr: IpAddress::V4(u32::from_be_bytes([203, 0, 113, 7])) };
    specific.thresholds = Thresholds::new().with(MetricKind::Bps, 100_000_000);
    let mut h = harness(vec![draft("p-any"), specific]);

    // Above the tenant default but below the host-specific threshold, so
    // the specific policy winning means silence.
    h.feed(0, 5_000_000);
    let report = h.feed(2, 5_000_000);
    assert_eq!(report.events_built, 0);

    h.feed(4, 200_000_000);
    let report = h.feed(6, 200_000_000);
    assert_eq!(report.events_built, 1);
    assert_eq!(h.sink().events()[0].policy_id, "p-host");
}

#[test]
fn a_stale_detection_is_closed_by_the_sweep() {
    let mut h = harness(vec![draft("p1")]);
    h.feed(0, 5_000_000);
    h.feed(2, 5_000_000);
    assert_eq!(h.engine.open_detections(), 1);

    let report = h.sweep(200);
    assert_eq!(report.detections_closed, 1);
    assert_eq!(h.engine.open_detections(), 0);

    let events = h.sink().events();
    assert_eq!(events.len(), 2);
    assert_eq!(events[1].kind, EventKind::Ended);
    assert_eq!(events[1].reason, TransitionReason::Stale);
    assert_eq!(events[1].rates.bps, 0, "a stale close must not report the last rate as if it were current");
    assert_eq!(events[1].peak[0].observed, 5_000_000);
    assert_eq!(CountingMetrics::get(&h.metrics().detections_stale), 1);
}

#[test]
fn a_sweep_with_nothing_stale_does_nothing() {
    let mut h = harness(vec![draft("p1")]);
    h.feed(0, 5_000_000);
    h.feed(2, 5_000_000);
    let report = h.sweep(3);
    assert_eq!(report, EngineReport::default());
    assert_eq!(h.engine.open_detections(), 1);
}

#[test]
fn withdrawing_a_policy_closes_the_detections_it_opened() {
    let mut h = harness(vec![draft("p1")]);
    h.feed(0, 5_000_000);
    h.feed(2, 5_000_000);
    assert_eq!(h.engine.open_detections(), 1);

    let report = h.engine.replace_policies(PolicySet::new());
    assert_eq!(report.detections_closed, 1);
    assert_eq!(h.engine.open_detections(), 0);

    let events = h.sink().events();
    assert_eq!(events[1].kind, EventKind::Ended);
    assert_eq!(events[1].reason, TransitionReason::PolicyWithdrawn);
    assert_eq!(
        events[1].severity,
        Severity::Major,
        "the end event must read severity from the policy that opened the detection"
    );
}

#[test]
fn replacing_a_policy_with_one_that_still_matches_leaves_the_detection_open() {
    let mut h = harness(vec![draft("p1")]);
    h.feed(0, 5_000_000);
    h.feed(2, 5_000_000);
    let mut next = draft("p1");
    next.severity = Severity::Critical;
    let report = h.engine.replace_policies(policy_set(vec![next]));
    assert_eq!(report.detections_closed, 0);
    assert_eq!(h.engine.open_detections(), 1);
}

#[test]
fn a_version_bump_closes_the_open_detection_at_swap_time() {
    let mut h = harness(vec![draft("p1")]);
    h.feed(0, 5_000_000);
    h.feed(2, 5_000_000);

    let mut next = draft("p1");
    next.version = 2;
    next.severity = Severity::Critical;
    let report = h.engine.replace_policies(policy_set(vec![next]));
    assert_eq!(report.detections_closed, 1);
    assert_eq!(h.engine.open_detections(), 0);

    let events = h.sink().events();
    assert_eq!(events[1].kind, EventKind::Ended);
    assert_eq!(events[1].reason, TransitionReason::PolicyChanged);
    assert_eq!(events[1].policy_version, 1, "the end event belongs to the version that opened the detection");
    assert_eq!(events[1].severity, Severity::Major, "and to that version's severity, not the replacement's");
}

#[test]
fn a_reopened_detection_after_a_version_bump_carries_the_new_version() {
    let mut h = harness(vec![draft("p1")]);
    h.feed(0, 5_000_000);
    h.feed(2, 5_000_000);
    let mut next = draft("p1");
    next.version = 2;
    h.engine.replace_policies(policy_set(vec![next]));

    h.feed(3, 5_000_000);
    let report = h.feed(5, 5_000_000);
    assert_eq!(report.detections_opened, 1);
    let events = h.sink().events();
    assert_eq!(events[2].kind, EventKind::Started);
    assert_eq!(events[2].policy_version, 2);
}

#[test]
fn a_publish_failure_is_counted_and_never_swallowed() {
    let mut engine = ThresholdDetectionEngine::new(EngineConfig::default())
        .with_policies(policy_set(vec![draft("p1")]))
        .with_sink(InMemorySink::new(0))
        .with_metrics(CountingMetrics::new());
    engine.evaluate(&[snapshot(START, 5_000_000)]);
    let report = engine.evaluate(&[snapshot(START + 2 * SEC, 5_000_000)]);
    assert_eq!(report.events_built, 1);
    assert_eq!(report.events_published, 0);
    assert_eq!(report.events_failed, 1);
    assert_eq!(CountingMetrics::get(&engine.metrics().events_failed), 1);
}

#[test]
fn gauges_are_refreshed_on_every_pass() {
    let mut h = harness(vec![draft("p1")]);
    h.feed(0, 5_000_000);
    assert_eq!(h.metrics().active_scopes(), 0);
    h.feed(2, 5_000_000);
    assert_eq!(h.metrics().active_scopes(), 1);
    h.feed(3, 100);
    h.feed(5, 100);
    assert_eq!(h.metrics().active_scopes(), 0);
}

#[test]
fn suppression_during_cooldown_is_reported() {
    let mut h = harness(vec![draft("p1")]);
    h.feed(0, 5_000_000);
    h.feed(2, 5_000_000);
    h.feed(3, 100);
    h.feed(5, 100);
    let report = h.feed(6, 9_000_000);
    assert_eq!(report.suppressed, 1);
    assert_eq!(report.events_built, 0);
    assert_eq!(CountingMetrics::get(&h.metrics().suppressions), 1);
}

#[test]
fn an_out_of_order_snapshot_is_reported_as_ignored() {
    let mut h = harness(vec![draft("p1")]);
    h.feed(5, 5_000_000);
    let report = h.feed(1, 5_000_000);
    assert_eq!(report.ignored, 1);
    assert_eq!(CountingMetrics::get(&h.metrics().snapshots_ignored), 1);
}

#[test]
fn a_full_state_table_reports_a_dropped_detection() {
    let mut engine = ThresholdDetectionEngine::new(EngineConfig {
        state: StateTableConfig { max_entries: 1, ..StateTableConfig::default() },
    })
    .with_policies(policy_set(vec![draft("p1")]))
    .with_sink(InMemorySink::new(8))
    .with_metrics(CountingMetrics::new());

    engine.evaluate(&[snapshot(START, 5_000_000)]);
    let mut other = snapshot(START, 5_000_000);
    other.key.scope_id = ScopeId::Host { addr: IpAddress::V4(u32::from_be_bytes([203, 0, 113, 8])) };
    let report = engine.evaluate(&[other]);
    assert_eq!(report.ignored, 1);
    assert_eq!(CountingMetrics::get(&engine.metrics().state_table_full), 1);
}

#[test]
fn a_skipped_metric_is_counted() {
    let mut with_syn = draft("p1");
    with_syn.thresholds = Thresholds::new().with(MetricKind::Bps, 1_000_000).with(MetricKind::TcpSynPps, 1000);
    let mut h = harness(vec![with_syn]);
    let mut snapshot = snapshot(h.start, 5_000_000);
    snapshot.completeness.tcp_flags_seen = false;
    h.engine.evaluate(&[snapshot]);
    assert_eq!(CountingMetrics::get(&h.metrics().metrics_skipped), 1);
}

#[test]
fn a_cycle_evaluates_before_it_sweeps() {
    let mut h = harness(vec![draft("p1")]);
    h.feed(0, 5_000_000);
    h.feed(2, 5_000_000);

    // Far past the stale timeout, but the snapshot in the same cycle
    // proves the scope is alive, so nothing is closed.
    let at = h.start + 400 * SEC;
    let report = cycle(&mut h.engine, &[snapshot(at, 5_000_000)], at, 0);
    assert_eq!(report.detections_closed, 0);
    assert_eq!(h.engine.open_detections(), 1);
}

#[test]
fn a_cycle_with_no_snapshots_still_sweeps() {
    let mut h = harness(vec![draft("p1")]);
    h.feed(0, 5_000_000);
    h.feed(2, 5_000_000);
    let at = h.start + 400 * SEC;
    let report = cycle(&mut h.engine, &[], at, 0);
    assert_eq!(report.detections_closed, 1);
}

#[test]
fn an_engine_with_a_test_clock_sweeps_at_the_time_it_is_told() {
    let clock = TestClock::new();
    let start = clock.monotonic();
    let mut engine = ThresholdDetectionEngine::new(EngineConfig::default())
        .with_policies(policy_set(vec![draft("p1")]))
        .with_sink(InMemorySink::new(8))
        .with_clock(clock);

    engine.evaluate(&[snapshot(start, 5_000_000)]);
    engine.evaluate(&[snapshot(start + 2 * SEC, 5_000_000)]);
    assert_eq!(engine.open_detections(), 1);

    assert_eq!(engine.sweep_now().detections_closed, 0);
    engine.clock_mut().advance(400 * SEC);
    assert_eq!(engine.sweep_now().detections_closed, 1);
}

#[test]
fn every_event_from_one_engine_shares_the_instance_prefix() {
    let mut h = harness(vec![draft("p1")]);
    h.feed(0, 5_000_000);
    h.feed(2, 5_000_000);
    h.feed(3, 100);
    h.feed(5, 100);
    let events = h.sink().events();
    let prefix = |id: &str| id[..16].to_string();
    assert_eq!(prefix(&events[0].event_id), prefix(&events[1].event_id));
    assert_ne!(events[0].event_id, events[1].event_id);
}

#[test]
fn a_system_clock_engine_sweeps_now_without_closing_fresh_detections() {
    let mut engine = ThresholdDetectionEngine::new(EngineConfig::default()).with_policies(policy_set(vec![draft("p1")]));
    let report = engine.sweep_now();
    assert_eq!(report, EngineReport::default());
}
