use netmon::evaluate::evaluate;
use netmon::event::{ActionTaken, DetectionContext, DetectionEvent, EventFactory, EventKind, EventTarget, SignalRecord};
use netmon::input::{
    AddressFamily, DataCompleteness, DetectionSnapshot, MetricKind, MetricRates, SamplingStatus, ScopeId, ScopeKey,
    ScopeType, TrafficDirection,
};
use netmon::net::IpAddress;
use netmon::policy::{DetectionPolicy, ExecutionMode, PolicyDraft, PolicySelector, Severity, TenantPrefixes, Thresholds};
use netmon::state::{DetectionState, ScopeState, Signal, StateTransition};
use netmon::table::{StateTable, StateTableConfig};

const SEC: u128 = 1_000_000_000;
const START: u128 = 5_000 * SEC;
const WALL: i128 = 1_700_000_000 * SEC as i128;

fn key() -> ScopeKey {
    ScopeKey {
        tenant: "acme".to_string(),
        scope_type: ScopeType::Host,
        scope_id: ScopeId::Host { addr: IpAddress::V4(u32::from_be_bytes([203, 0, 113, 7])) },
        direction: TrafficDirection::Incoming,
        address_family: AddressFamily::Ipv4,
    }
}

fn target() -> EventTarget {
    let key = key();
    EventTarget {
        tenant: key.tenant.clone(),
        scope_type: key.scope_type,
        scope_id: key.scope_id.clone(),
        display: key.scope_id.to_string(),
        direction: key.direction,
        address_family: key.address_family,
    }
}

fn draft() -> PolicyDraft {
    PolicyDraft {
        id: "p-host-bps".to_string(),
        name: "host bps".to_string(),
        description: None,
        enabled: true,
        tenant: "acme".to_string(),
        scope_type: ScopeType::Host,
        selector: PolicySelector::Any,
        address_family: None,
        direction: TrafficDirection::Incoming,
        window: SEC,
        thresholds: Thresholds::new().with(MetricKind::Bps, 1_000_000),
        clear_percent: 80,
        trigger_for: 2 * SEC,
        clear_for: 2 * SEC,
        cooldown: 10 * SEC,
        hold_down: 0,
        event_update_interval: 30 * SEC,
        severity: Severity::Major,
        execution_mode: ExecutionMode::AlertOnly,
        priority: 0,
        labels: Vec::new(),
        version: 1,
    }
}

fn policy() -> DetectionPolicy {
    draft().validate(&TenantPrefixes::new()).expect("valid")
}

fn snapshot(at: u128, bps: u64) -> DetectionSnapshot {
    let mut rates = MetricRates::default();
    rates.bps = bps;
    DetectionSnapshot {
        key: key(),
        window: SEC,
        observed_at: at,
        observed_wall: WALL + (at - START) as i128,
        rates,
        completeness: DataCompleteness {
            protocol_seen: true,
            tcp_flags_seen: true,
            fragmentation_seen: true,
            forwarding_status_seen: true,
        },
        sampling: SamplingStatus::default(),
        flows_observed: 42,
        exporters_observed: 2,
    }
}

/// What a caller remembers of the detection currently open.
struct Open {
    started_at: u128,
    started_wall: i128,
    next_sequence: u64,
}

fn context(open: &Open, entry: &ScopeState, sequence: u64) -> DetectionContext {
    DetectionContext {
        started_at: open.started_at,
        started_wall: open.started_wall,
        sequence,
        peak: entry.peak_matched.clone(),
        snapshots_in_detection: entry.snapshots_in_detection,
    }
}

/// Drives a scope through the table, pairing each signal with the move
/// that raised it, and returns every event built.
fn run(policy: &DetectionPolicy, rates: &[(u128, u64)]) -> Vec<DetectionEvent> {
    let mut factory = EventFactory::with_instance_id(0xfeed_face_dead_beef);
    let mut table = StateTable::new(StateTableConfig::default());
    let mut events = Vec::new();
    let mut open: Option<Open> = None;
    for (offset, bps) in rates {
        let snap = snapshot(START + offset * SEC, *bps);
        let evaluation = evaluate(policy, &snap);
        let outcome = table.step(policy, &snap, &evaluation);
        let entry = table.get(&key()).expect("tracked").clone();
        for signal in &outcome.signals {
            let (transition, sequence): (StateTransition, u64) = match signal {
                Signal::Started => {
                    let t = outcome.transitions.iter().find(|t| t.to == DetectionState::Active).expect("opened").clone();
                    open = Some(Open { started_at: t.at, started_wall: t.at_wall, next_sequence: 0 });
                    (t, 0)
                },
                Signal::Ended => {
                    let t = outcome
                        .transitions
                        .iter()
                        .find(|t| t.to == DetectionState::Idle || t.to == DetectionState::Cooldown)
                        .expect("closed")
                        .clone();
                    (t, open.as_ref().expect("open").next_sequence)
                },
                Signal::Updated => continue,
            };
            let o = open.as_mut().expect("open");
            let record = SignalRecord { signal: *signal, transition, detection: context(o, &entry, sequence) };
            o.next_sequence = sequence + 1;
            let event = factory
                .build(&record, policy, &snap, &evaluation.matched, &evaluation.skipped)
                .expect("an alerting policy produces an event");
            events.push(event);
            if *signal == Signal::Ended {
                open = None;
            }
        }
    }
    events
}

#[test]
fn a_detection_produces_a_start_and_an_end_sharing_one_detection_id() {
    let policy = policy();
    let events = run(&policy, &[(0, 5_000_000), (2, 5_000_000), (3, 100), (5, 100)]);
    assert_eq!(events.len(), 2);
    assert_eq!(events[0].kind, EventKind::Started);
    assert_eq!(events[1].kind, EventKind::Ended);
    assert_eq!(events[0].detection_id, events[1].detection_id);
    assert_ne!(events[0].event_id, events[1].event_id);
    assert_eq!(events[0].sequence, 0);
    assert_eq!(events[1].sequence, 1);
}

#[test]
fn two_detections_on_one_scope_get_different_detection_ids() {
    let mut draft = draft();
    draft.cooldown = 0;
    let policy = draft.validate(&TenantPrefixes::new()).expect("valid");
    let events = run(&policy, &[(0, 5_000_000), (2, 5_000_000), (3, 100), (5, 100), (6, 5_000_000), (8, 5_000_000)]);
    assert_eq!(events.len(), 3);
    assert_eq!(events[2].kind, EventKind::Started);
    assert_ne!(events[0].detection_id, events[2].detection_id);
    assert_eq!(events[2].sequence, 0, "a new detection restarts the sequence");
}

#[test]
fn a_detection_id_is_reproducible_from_the_same_inputs() {
    let factory = EventFactory::with_instance_id(7);
    let opened = START;
    assert_eq!(factory.detection_id(&target(), opened), factory.detection_id(&target(), opened));
}

#[test]
fn a_different_scope_gets_a_different_detection_id() {
    let factory = EventFactory::with_instance_id(7);
    let opened = START;
    let mut other = target();
    other.scope_id = ScopeId::Host { addr: IpAddress::V4(u32::from_be_bytes([203, 0, 113, 8])) };
    other.display = other.scope_id.to_string();
    assert_ne!(factory.detection_id(&target(), opened), factory.detection_id(&other, opened));
}

#[test]
fn a_different_instance_gets_a_different_detection_id() {
    let opened = START;
    assert_ne!(
        EventFactory::with_instance_id(7).detection_id(&target(), opened),
        EventFactory::with_instance_id(8).detection_id(&target(), opened)
    );
}

#[test]
fn an_end_event_reports_the_peak_not_the_final_quiet_rate() {
    let policy = policy();
    let events = run(&policy, &[(0, 5_000_000), (2, 5_000_000), (3, 40_000_000), (4, 100), (6, 100)]);
    let end = events.last().expect("an end event");
    assert_eq!(end.kind, EventKind::Ended);
    assert!(end.matched.is_empty(), "nothing is crossed at the end");
    assert_eq!(end.peak.len(), 1);
    assert_eq!(end.peak[0].observed, 40_000_000);
    assert_eq!(end.rates.bps, 100);
    assert_eq!(end.duration_ms, 4000);
    assert!(end.summary.contains("peaking at 40000000"));
}

#[test]
fn a_dry_run_event_is_publishable_and_says_it_did_nothing() {
    let mut draft = draft();
    draft.execution_mode = ExecutionMode::DryRun;
    let policy = draft.validate(&TenantPrefixes::new()).expect("valid");
    let events = run(&policy, &[(0, 5_000_000), (2, 5_000_000)]);
    assert_eq!(events[0].action, ActionTaken::DryRun);
    assert!(events[0].is_publishable());
}

#[test]
fn every_execution_mode_produces_an_unexecuted_event() {
    for mode in [ExecutionMode::Observe, ExecutionMode::AlertOnly, ExecutionMode::DryRun] {
        let mut draft = draft();
        draft.execution_mode = mode;
        let policy = draft.validate(&TenantPrefixes::new()).expect("valid");
        let events = run(&policy, &[(0, 5_000_000), (2, 5_000_000), (3, 100), (5, 100)]);
        assert!(!events.is_empty(), "{} produced no events", mode.as_str());
        for event in &events {
            assert!(!event.executed, "{} produced an event claiming it acted on traffic", mode.as_str());
        }
    }
}

#[test]
fn a_closing_event_is_also_unexecuted() {
    // The stale/withdrawn close path builds events without a snapshot and
    // must carry the same guarantee.
    let mut draft = draft();
    draft.execution_mode = ExecutionMode::DryRun;
    let policy = draft.validate(&TenantPrefixes::new()).expect("valid");
    let mut factory = EventFactory::with_instance_id(1);
    let mut table = StateTable::new(StateTableConfig::default());
    for (offset, bps) in [(0u128, 5_000_000u64), (2, 5_000_000)] {
        let snap = snapshot(START + offset * SEC, bps);
        let evaluation = evaluate(&policy, &snap);
        table.step(&policy, &snap, &evaluation);
    }
    let entry = table.get(&key()).expect("tracked").clone();
    let expiries = table.sweep(START + 400 * SEC, 0);
    let expiry = expiries.first().expect("a stale close");
    let record = SignalRecord {
        signal: Signal::Ended,
        transition: expiry.transition.clone().expect("a transition"),
        detection: DetectionContext {
            started_at: entry.active_since.expect("open"),
            started_wall: WALL + 2 * SEC as i128,
            sequence: 1,
            peak: entry.peak_matched.clone(),
            snapshots_in_detection: entry.snapshots_in_detection,
        },
    };
    let event = factory.build_closing(&record, &policy, 0).expect("an event");
    assert_eq!(event.kind, EventKind::Ended);
    assert!(!event.executed);
}

#[test]
fn a_summary_names_the_target_the_metric_and_the_policy() {
    let policy = policy();
    let events = run(&policy, &[(0, 5_000_000), (2, 5_000_000)]);
    let summary = &events[0].summary;
    assert!(summary.contains("203.0.113.7"), "{summary}");
    assert!(summary.contains("incoming"), "{summary}");
    assert!(summary.contains("bps"), "{summary}");
    assert!(summary.contains("p-host-bps"), "{summary}");
    assert!(summary.contains("500%"), "{summary}");
    assert!(!summary.contains('\n'), "a summary must stay one line");
}
