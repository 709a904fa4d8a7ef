use netmon::evaluate::{evaluate, MatchedReason};
use netmon::event::{dedup_key, unix_millis, ActionTaken, DetectionContext, EventFactory, EventKind, SignalRecord};
use netmon::input::{
    AddressFamily, DataCompleteness, DetectionSnapshot, MetricKind, MetricRates, SamplingStatus, ScopeId, ScopeKey,
    ScopeType, TrafficDirection,
};
use netmon::metrics::{CountingMetrics, DetectionMetrics, NoopMetrics};
use netmon::net::IpAddress;
use netmon::policy::{DetectionPolicy, ExecutionMode, PolicyDraft, PolicySelector, Severity, TenantPrefixes, Thresholds};
use netmon::sink::{first_failure, DetectionEventSink, FanOutSink, InMemorySink, NullSink, SinkError};
use netmon::state::{DetectionState, Signal, StateTransition, StepIgnored, Suppression, TransitionReason};
use netmon::table::{StateTable, StateTableConfig};

const SEC: u128 = 1_000_000_000;

fn key() -> ScopeKey {
    ScopeKey {
        tenant: "acme".to_string(),
        scope_type: ScopeType::Host,
        scope_id: ScopeId::Host { addr: IpAddress::V4(u32::from_be_bytes([203, 0, 113, 7])) },
        direction: TrafficDirection::Incoming,
        address_family: AddressFamily::Ipv4,
    }
}

fn draft(mode: ExecutionMode) -> PolicyDraft {
    PolicyDraft {
        id: "p-host-bps".to_string(),
        name: "host bps".to_string(),
        description: None,
        enabled: true,
        tenant: "acme".to_string(),
        scope_type: ScopeType::Host,
        selector: PolicySelector::Any,
        address_family: None,
        direction: TrafficDirection::Incoming,
        window: SEC,
        thresholds: Thresholds::new().with(MetricKind::Bps, 1_000_000),
        clear_percent: 80,
        trigger_for: 2 * SEC,
        clear_for: 2 * SEC,
        cooldown: 10 * SEC,
        hold_down: 0,
        event_update_interval: 30 * SEC,
        severity: Severity::Major,
        execution_mode: mode,
        priority: 0,
        labels: Vec::new(),
        version: 1,
    }
}

fn policy(mode: ExecutionMode) -> DetectionPolicy {
    draft(mode).validate(&TenantPrefixes::new()).expect("valid")
}

fn snapshot(at: u128, bps: u64) -> DetectionSnapshot {
    let mut rates = MetricRates::default();
    rates.bps = bps;
    DetectionSnapshot {
        key: key(),
        window: SEC,
        observed_at: at,
        observed_wall: 1_700_000_000 * SEC as i128,
        rates,
        completeness: DataCompleteness {
            protocol_seen: true,
            tcp_flags_seen: true,
            fragmentation_seen: true,
            forwarding_status_seen: true,
        },
        sampling: SamplingStatus::default(),
        flows_observed: 42,
        exporters_observed: 2,
    }
}

fn record(signal: Signal, from: DetectionState, to: DetectionState, reason: TransitionReason, at: u128, peak: Vec<MatchedReason>, sequence: u64) -> SignalRecord {
    SignalRecord {
        signal,
        transition: StateTransition {
            key: key(),
            policy_id: "p-host-bps".to_string(),
            policy_version: 1,
            from,
            to,
            reason,
            at,
            at_wall: 0,
            matched: Vec::new(),
            time_in_previous: 0,
        },
        detection: DetectionContext {
            started_at: 2 * SEC,
            started_wall: 1_700_000_002 * SEC as i128,
            sequence,
            peak,
            snapshots_in_detection: 3,
        },
    }
}

#[test]
fn event_ids_do_not_repeat() {
    let mut factory = EventFactory::with_instance_id(1);
    let mut ids = std::collections::BTreeSet::new();
    for _ in 0..1000 {
        ids.insert(factory.next_event_id());
    }
    assert_eq!(ids.len(), 1000);
}

#[test]
fn event_ids_are_the_instance_and_a_serial_in_hexadecimal() {
    let mut factory = EventFactory::with_instance_id(0xfeed);
    assert_eq!(factory.next_event_id(), "000000000000feed-0000000000000000");
    assert_eq!(factory.next_event_id(), "000000000000feed-0000000000000001");
}

#[test]
fn a_dedup_key_is_identical_for_a_redelivered_event() {
    assert_eq!(dedup_key("abc", EventKind::Updated, 3), dedup_key("abc", EventKind::Updated, 3));
    assert_ne!(dedup_key("abc", EventKind::Updated, 3), dedup_key("abc", EventKind::Updated, 4));
    assert_ne!(dedup_key("abc", EventKind::Started, 0), dedup_key("abc", EventKind::Ended, 0));
    assert_eq!(dedup_key("abc", EventKind::Ended, 12), "abc:ended:12");
}

#[test]
fn a_disabled_mode_yields_no_action_and_therefore_no_event() {
    assert_eq!(ActionTaken::for_mode(ExecutionMode::Disabled), None);
    assert_eq!(ActionTaken::for_mode(ExecutionMode::DryRun), Some(ActionTaken::DryRun));
}

#[test]
fn no_action_this_phase_can_produce_reports_itself_as_executed() {
    for action in [ActionTaken::Observed, ActionTaken::Alerted, ActionTaken::DryRun] {
        assert!(!action.executed(), "{} must not report itself as executed", action.as_str());
    }
}

#[test]
fn two_factories_in_one_process_do_not_share_an_instance_id() {
    assert_ne!(EventFactory::new().instance_id(), EventFactory::new().instance_id());
}

#[test]
fn a_pre_epoch_wall_clock_does_not_panic() {
    assert_eq!(unix_millis(-10 * SEC as i128), 0);
    assert_eq!(unix_millis(0), 0);
    assert_eq!(unix_millis(2 * SEC as i128), 2000);
}

#[test]
fn a_detection_id_is_reproducible_and_names_its_instance() {
    let factory = EventFactory::with_instance_id(7);
    let target = netmon::event::EventTarget {
        tenant: "acme".to_string(),
        scope_type: ScopeType::Host,
        scope_id: key().scope_id,
        display: "203.0.113.7".to_string(),
        direction: TrafficDirection::Incoming,
        address_family: AddressFamily::Ipv4,
    };
    let a = factory.detection_id(&target, 5);
    assert_eq!(a, factory.detection_id(&target, 5));
    assert!(a.starts_with("0000000000000007"));
    assert_eq!(a.len(), 32);
    assert_ne!(a, EventFactory::with_instance_id(8).detection_id(&target, 5));
}

#[test]
fn a_start_event_carries_everything_needed_to_explain_it() {
    let policy = policy(ExecutionMode::AlertOnly);
    let snap = snapshot(2 * SEC, 7_000_000);
    let evaluation = evaluate(&policy, &snap);
    let mut factory = EventFactory::with_instance_id(0xfeed_face_dead_beef);
    let rec = record(Signal::Started, DetectionState::PendingTrigger, DetectionState::Active, TransitionReason::TriggerSustained, 2 * SEC, evaluation.matched.clone(), 0);
    let e = factory.build(&rec, &policy, &snap, &evaluation.matched, &evaluation.skipped).expect("an alerting policy produces an event");
    assert_eq!(e.schema_version, 1);
    assert_eq!(e.policy_id, "p-host-bps");
    assert_eq!(e.policy_version, 1);
    assert_eq!(e.severity, Severity::Major);
    assert_eq!(e.action, ActionTaken::Alerted);
    assert_eq!(e.kind, EventKind::Started);
    assert_eq!(e.target.tenant, "acme");
    assert_eq!(e.target.display, "203.0.113.7");
    assert_eq!(e.previous_state, DetectionState::PendingTrigger);
    assert_eq!(e.state, DetectionState::Active);
    assert_eq!(e.reason, TransitionReason::TriggerSustained);
    assert_eq!(e.matched.len(), 1);
    assert_eq!(e.matched[0].observed, 7_000_000);
    assert_eq!(e.rates.bps, 7_000_000);
    assert_eq!(e.flows_observed, 42);
    assert_eq!(e.duration_ms, 0);
    assert_eq!(e.window_ms, 1000);
    assert_eq!(e.detected_at_ms, 1_700_000_002_000);
    assert_eq!(e.event_id, "feedfacedeadbeef-0000000000000000");
    assert_eq!(e.dedup_key, format!("{}:started:0", e.detection_id));
    assert!(!e.executed);
    assert!(e.is_publishable());
    assert_eq!(
        e.summary,
        "major started: incoming host 203.0.113.7 at 7000000 bps (700% of the bps threshold) under policy p-host-bps"
    );
}

#[test]
fn an_end_event_reports_the_peak_and_how_long_it_lasted() {
    let policy = policy(ExecutionMode::DryRun);
    let snap = snapshot(6 * SEC, 100);
    let peak = vec![MatchedReason::new(MetricKind::Bps, 40_000_000, 1_000_000)];
    let mut factory = EventFactory::with_instance_id(1);
    let rec = record(Signal::Ended, DetectionState::PendingClear, DetectionState::Cooldown, TransitionReason::ClearSustained, 6 * SEC, peak, 1);
    let e = factory.build(&rec, &policy, &snap, &Vec::new(), &Vec::new()).expect("event");
    assert_eq!(e.kind, EventKind::Ended);
    assert!(e.matched.is_empty());
    assert_eq!(e.peak[0].observed, 40_000_000);
    assert_eq!(e.duration_ms, 4000);
    assert_eq!(e.action, ActionTaken::DryRun);
    assert!(!e.executed);
    assert!(e.summary.contains("peaking at 40000000"));
    assert_eq!(
        e.summary,
        "ended: incoming host 203.0.113.7 after 4s, peaking at 40000000 bps (4000% of the bps threshold) under policy p-host-bps"
    );
}

#[test]
fn an_observe_mode_event_exists_but_is_not_publishable() {
    let policy = policy(ExecutionMode::Observe);
    let snap = snapshot(2 * SEC, 5_000_000);
    let mut factory = EventFactory::with_instance_id(1);
    let rec = record(Signal::Started, DetectionState::PendingTrigger, DetectionState::Active, TransitionReason::TriggerSustained, 2 * SEC, Vec::new(), 0);
    let e = factory.build(&rec, &policy, &snap, &Vec::new(), &Vec::new()).expect("event");
    assert_eq!(e.action, ActionTaken::Observed);
    assert!(!e.is_publishable());
}

#[test]
fn a_closing_event_zeroes_its_observations() {
    let policy = policy(ExecutionMode::AlertOnly);
    let mut factory = EventFactory::with_instance_id(1);
    let rec = record(Signal::Ended, DetectionState::Active, DetectionState::Idle, TransitionReason::Stale, 200 * SEC, Vec::new(), 2);
    let e = factory.build_closing(&rec, &policy, 0).expect("event");
    assert_eq!(e.kind, EventKind::Ended);
    assert_eq!(e.rates.bps, 0);
    assert_eq!(e.flows_observed, 0);
    assert!(!e.executed);
    assert_eq!(e.summary, "ended (stale): incoming host 203.0.113.7 after 198s under policy p-host-bps");
}

#[test]
fn a_disabled_policy_builds_no_event_and_mints_no_id() {
    let policy = draft(ExecutionMode::Disabled);
    let policy = policy.validate(&TenantPrefixes::new()).expect("valid");
    let mut factory = EventFactory::with_instance_id(1);
    let rec = record(Signal::Started, DetectionState::PendingTrigger, DetectionState::Active, TransitionReason::TriggerSustained, 2 * SEC, Vec::new(), 0);
    assert!(factory.build(&rec, &policy, &snapshot(2 * SEC, 5_000_000), &Vec::new(), &Vec::new()).is_none());
    assert_eq!(factory.next_event_id(), "0000000000000001-0000000000000000");
}

#[test]
fn a_sustained_crossing_opens_a_detection_in_the_table() {
    let policy = policy(ExecutionMode::AlertOnly);
    let mut table = StateTable::new(StateTableConfig::default());
    let first = snapshot(0, 5_000_000);
    let e1 = evaluate(&policy, &first);
    let o1 = table.step(&policy, &first, &e1);
    assert_eq!(o1.state, Some(DetectionState::PendingTrigger));
    let second = snapshot(2 * SEC, 5_000_000);
    let e2 = evaluate(&policy, &second);
    let o2 = table.step(&policy, &second, &e2);
    assert_eq!(o2.state, Some(DetectionState::Active));
    assert_eq!(o2.signals, vec![Signal::Started]);
    let replay = table.step(&policy, &second, &e2);
    assert_eq!(replay.ignored, Some(StepIgnored::Duplicate));
    assert_eq!(table.open_detections().len(), 1);
}

#[test]
fn the_noop_implementation_accepts_every_call() {
    let mut metrics = NoopMetrics;
    metrics.snapshot_evaluated(ScopeType::Host);
    metrics.snapshot_unmatched(ScopeType::Host);
    metrics.snapshot_ignored(StepIgnored::Duplicate);
    metrics.transition(DetectionState::Idle, DetectionState::Active, TransitionReason::ThresholdCrossed);
    metrics.suppressed(Suppression::Cooldown);
    metrics.event_built(EventKind::Started);
    metrics.event_published(EventKind::Started);
    metrics.event_failed(EventKind::Started, "memory");
    metrics.metric_skipped();
    metrics.scopes_in_state(DetectionState::Active, 3);
    metrics.tracked_scopes(9);
    metrics.state_table_full();
    metrics.detection_stale();
}

#[test]
fn the_counting_implementation_tallies_each_call() {
    let mut metrics = CountingMetrics::new();
    metrics.snapshot_evaluated(ScopeType::Host);
    metrics.snapshot_evaluated(ScopeType::Prefix);
    metrics.snapshot_unmatched(ScopeType::Slash24);
    metrics.snapshot_ignored(StepIgnored::OutOfOrder);
    metrics.transition(DetectionState::Idle, DetectionState::PendingTrigger, TransitionReason::ThresholdCrossed);
    metrics.event_built(EventKind::Started);
    metrics.event_published(EventKind::Started);
    metrics.event_failed(EventKind::Ended, "memory");
    metrics.metric_skipped();
    metrics.state_table_full();
    metrics.detection_stale();

    assert_eq!(CountingMetrics::get(&metrics.snapshots_evaluated), 2);
    assert_eq!(CountingMetrics::get(&metrics.snapshots_unmatched), 1);
    assert_eq!(CountingMetrics::get(&metrics.snapshots_ignored), 1);
    assert_eq!(CountingMetrics::get(&metrics.transitions), 1);
    assert_eq!(CountingMetrics::get(&metrics.events_built), 1);
    assert_eq!(CountingMetrics::get(&metrics.events_published), 1);
    assert_eq!(CountingMetrics::get(&metrics.events_failed), 1);
    assert_eq!(CountingMetrics::get(&metrics.metrics_skipped), 1);
    assert_eq!(CountingMetrics::get(&metrics.state_table_full), 1);
    assert_eq!(CountingMetrics::get(&metrics.detections_stale), 1);
}

#[test]
fn a_gauge_reports_the_latest_value_not_a_running_total() {
    let mut metrics = CountingMetrics::new();
    metrics.scopes_in_state(DetectionState::Active, 5);
    metrics.scopes_in_state(DetectionState::Active, 2);
    metrics.tracked_scopes(100);
    metrics.tracked_scopes(40);
    assert_eq!(metrics.active_scopes(), 2);
    assert_eq!(metrics.scopes_accumulating(), 40);
}

#[test]
fn a_gauge_for_another_state_does_not_disturb_the_active_one() {
    let mut metrics = CountingMetrics::new();
    metrics.scopes_in_state(DetectionState::Active, 7);
    metrics.scopes_in_state(DetectionState::Cooldown, 900);
    assert_eq!(metrics.active_scopes(), 7);
}

fn sample_event() -> netmon::event::DetectionEvent {
    let policy = policy(ExecutionMode::AlertOnly);
    let snap = snapshot(2 * SEC, 7_000_000);
    let mut factory = EventFactory::with_instance_id(1);
    let rec = record(Signal::Started, DetectionState::PendingTrigger, DetectionState::Active, TransitionReason::TriggerSustained, 2 * SEC, Vec::new(), 0);
    factory.build(&rec, &policy, &snap, &Vec::new(), &Vec::new()).unwrap()
}

#[test]
fn a_memory_sink_drops_the_oldest_event_first() {
    let mut sink = InMemorySink::new(2);
    let e = sample_event();
    for _ in 0..3 {
        assert!(sink.publish(&e).is_ok());
    }
    assert_eq!(sink.len(), 2);
    assert_eq!(sink.dropped(), 1);
    assert_eq!(sink.events()[1], e);
    sink.clear();
    assert!(sink.is_empty());
    assert_eq!(sink.dropped(), 0);
}

#[test]
fn a_memory_sink_without_capacity_refuses_as_full() {
    let mut sink = InMemorySink::new(0);
    let result = sink.publish(&sample_event());
    assert_eq!(result, Err(SinkError::Full { sink: "memory" }));
    assert_eq!(result.unwrap_err().to_string(), "sink memory is full; the event was dropped");
    assert_eq!(NullSink.name(), "null");
    assert!(NullSink.publish(&sample_event()).is_ok());
}

fn event_with_id(id: &str) -> netmon::event::DetectionEvent {
    let mut e = sample_event();
    e.event_id = id.to_string();
    e
}

/// Fails every publish, to prove fan-out keeps going.
struct AlwaysFails;

impl DetectionEventSink for AlwaysFails {
    fn publish(&mut self, _event: &netmon::event::DetectionEvent) -> Result<(), SinkError> {
        Err(SinkError::Closed { sink: "broken" })
    }

    fn name(&self) -> &'static str {
        "broken"
    }
}

/// Lets a test hold a handle to a sink that fan-out owns.
struct SharedMemorySink(std::sync::Arc<std::sync::Mutex<InMemorySink>>);

impl DetectionEventSink for SharedMemorySink {
    fn publish(&mut self, event: &netmon::event::DetectionEvent) -> Result<(), SinkError> {
        self.0.lock().unwrap().publish(event)
    }

    fn name(&self) -> &'static str {
        "memory"
    }
}

/// Accepts everything, as a log line would.
struct AcceptingSink;

impl DetectionEventSink for AcceptingSink {
    fn publish(&mut self, _event: &netmon::event::DetectionEvent) -> Result<(), SinkError> {
        Ok(())
    }

    fn name(&self) -> &'static str {
        "tracing"
    }
}

#[test]
fn the_null_sink_accepts_everything() {
    assert!(NullSink.publish(&event_with_id("e1")).is_ok());
    assert_eq!(NullSink.name(), "null");
}

#[test]
fn the_memory_sink_keeps_what_it_is_given() {
    let mut sink = InMemorySink::new(4);
    assert!(sink.is_empty());
    sink.publish(&event_with_id("e1")).expect("accepted");
    sink.publish(&event_with_id("e2")).expect("accepted");
    assert_eq!(sink.len(), 2);
    let held = sink.events();
    assert_eq!(held[0].event_id, "e1");
    assert_eq!(held[1].event_id, "e2");
    assert_eq!(sink.dropped(), 0);
}

#[test]
fn the_memory_sink_drops_the_oldest_when_full() {
    let mut sink = InMemorySink::new(2);
    for id in ["e1", "e2", "e3"] {
        sink.publish(&event_with_id(id)).expect("accepted");
    }
    let held = sink.events();
    assert_eq!(held.len(), 2);
    assert_eq!(held[0].event_id, "e2");
    assert_eq!(held[1].event_id, "e3");
    assert_eq!(sink.dropped(), 1);
}

#[test]
fn a_zero_capacity_memory_sink_reports_full_rather_than_silently_dropping() {
    let mut sink = InMemorySink::new(0);
    assert_eq!(sink.publish(&event_with_id("e1")), Err(SinkError::Full { sink: "memory" }));
    assert!(sink.is_empty());
}

#[test]
fn clearing_resets_both_the_events_and_the_drop_count() {
    let mut sink = InMemorySink::new(1);
    sink.publish(&event_with_id("e1")).expect("accepted");
    sink.publish(&event_with_id("e2")).expect("accepted");
    assert_eq!(sink.dropped(), 1);
    sink.clear();
    assert!(sink.is_empty());
    assert_eq!(sink.dropped(), 0);
}

#[test]
fn fan_out_reaches_every_sink_even_when_one_fails() {
    let events = std::sync::Arc::new(std::sync::Mutex::new(InMemorySink::new(4)));
    let mut fan = FanOutSink::new(vec![Box::new(AlwaysFails), Box::new(SharedMemorySink(events.clone()))]);
    let result = fan.publish(&event_with_id("e1"));
    assert_eq!(result, Err(SinkError::Closed { sink: "broken" }));
    assert_eq!(events.lock().unwrap().len(), 1, "the healthy sink still received it");
}

#[test]
fn fan_out_over_healthy_sinks_succeeds() {
    let mut fan = FanOutSink::new(vec![Box::new(NullSink), Box::new(AcceptingSink)]);
    assert_eq!(fan.len(), 2);
    assert!(fan.publish(&event_with_id("e1")).is_ok());
}

#[test]
fn an_empty_fan_out_succeeds_without_doing_anything() {
    let mut fan = FanOutSink::new(Vec::new());
    assert!(fan.is_empty());
    assert!(fan.publish(&event_with_id("e1")).is_ok());
}

#[test]
fn the_first_refusal_decides_a_round_of_offers() {
    assert_eq!(first_failure(Vec::new()), Ok(()));
    assert_eq!(first_failure(vec![Ok(()), Ok(())]), Ok(()));
    let answers = vec![
        Ok(()),
        Err(SinkError::Full { sink: "a" }),
        Err(SinkError::Closed { sink: "b" }),
    ];
    assert_eq!(first_failure(answers), Err(SinkError::Full { sink: "a" }));
}

#[test]
fn fan_out_reports_the_earliest_of_several_refusals() {
    let mut fan = FanOutSink::new(vec![Box::new(NullSink), Box::new(InMemorySink::new(0)), Box::new(AlwaysFails)]);
    assert_eq!(fan.publish(&event_with_id("e1")), Err(SinkError::Full { sink: "memory" }));
}
