use netmon::evaluate::evaluate;
use netmon::input::{
    AddressFamily, DataCompleteness, DetectionSnapshot, MetricKind, MetricRates, SamplingStatus, ScopeId, ScopeKey,
    ScopeType, TrafficDirection,
};
use netmon::net::IpAddress;
use netmon::text::KeyOrder;
use netmon::policy::{DetectionPolicy, ExecutionMode, PolicyDraft, PolicySelector, Severity, TenantPrefixes, Thresholds};
use netmon::state::{DetectionState, ScopeState, Signal, StepIgnored, StepOutcome, Suppression, TransitionReason};
use netmon::table::{StateTable, StateTableConfig};

const MS: u128 = 1_000_000;
const SEC: u128 = 1_000_000_000;
const START: u128 = 1_000 * SEC;
const EPOCH: i128 = 0;

fn key() -> ScopeKey {
    ScopeKey {
        tenant: "acme".to_string(),
        scope_type: ScopeType::Host,
        scope_id: ScopeId::Host { addr: IpAddress::V4(u32::from_be_bytes([203, 0, 113, 7])) },
        direction: TrafficDirection::Incoming,
        address_family: AddressFamily::Ipv4,
    }
}

fn other_key() -> ScopeKey {
    ScopeKey { scope_id: ScopeId::Host { addr: IpAddress::V4(u32::from_be_bytes([203, 0, 113, 8])) }, ..key() }
}

/// 1 Mbps trigger, 1s window, 2s trigger, 2s clear, 10s cooldown.
fn draft() -> PolicyDraft {
    PolicyDraft {
        id: "p-host-bps".to_string(),
        name: "host bps".to_string(),
        description: None,
        enabled: true,
        tenant: "acme".to_string(),
        scope_type: ScopeType::Host,
        selector: PolicySelector::Any,
        address_family: None,
        direction: TrafficDirection::Incoming,
        window: SEC,
        thresholds: Thresholds::new().with(MetricKind::Bps, 1_000_000),
        clear_percent: 80,
        trigger_for: 2 * SEC,
        clear_for: 2 * SEC,
        cooldown: 10 * SEC,
        hold_down: 0,
        event_update_interval: 30 * SEC,
        severity: Severity::Major,
        execution_mode: ExecutionMode::AlertOnly,
        priority: 0,
        labels: Vec::new(),
        version: 1,
    }
}

fn policy() -> DetectionPolicy {
    draft().validate(&TenantPrefixes::new()).expect("valid")
}

fn snapshot(at: u128, bps: u64) -> DetectionSnapshot {
    let mut rates = MetricRates::default();
    rates.bps = bps;
    DetectionSnapshot {
        key: key(),
        window: SEC,
        observed_at: at,
        observed_wall: EPOCH,
        rates,
        completeness: DataCompleteness {
            protocol_seen: true,
            tcp_flags_seen: true,
            fragmentation_seen: true,
            forwarding_status_seen: true,
        },
        sampling: SamplingStatus::default(),
        flows_observed: 10,
        exporters_observed: 1,
    }
}

/// Feeds one snapshot through evaluation into the table.
fn feed(table: &mut StateTable, policy: &DetectionPolicy, at: u128, bps: u64) -> StepOutcome {
    let snap = snapshot(at, bps);
    let evaluation = evaluate(policy, &snap);
    table.step(policy, &snap, &evaluation)
}

fn table() -> StateTable {
    StateTable::new(StateTableConfig::default())
}

#[test]
fn a_rejected_edge_leaves_the_entry_untouched() {
    let policy = policy();
    let mut entry = ScopeState::new(key(), &policy, START);
    let before = entry.clone();
    let refused = entry.transition(DetectionState::PendingClear, TransitionReason::FellBelowClear, START + SEC, EPOCH, Vec::new());
    assert!(refused.is_none());
    assert_eq!(entry, before);
}

#[test]
fn quiet_traffic_never_leaves_idle() {
    let policy = policy();
    let mut table = table();
    for tick in 0..10u128 {
        let outcome = feed(&mut table, &policy, START + tick * SEC, 10);
        assert_eq!(outcome.state, Some(DetectionState::Idle));
        assert!(outcome.transitions.is_empty());
        assert!(outcome.signals.is_empty());
    }
}

#[test]
fn a_crossing_shorter_than_trigger_for_never_opens() {
    let policy = policy();
    let mut table = table();
    let first = feed(&mut table, &policy, START, 5_000_000);
    assert_eq!(first.state, Some(DetectionState::PendingTrigger));
    assert_eq!(first.transitions[0].reason, TransitionReason::ThresholdCrossed);
    assert!(first.signals.is_empty());

    let back = feed(&mut table, &policy, START + SEC, 10);
    assert_eq!(back.state, Some(DetectionState::Idle));
    assert_eq!(back.transitions[0].reason, TransitionReason::TriggerAborted);
    assert!(back.signals.is_empty());
}

#[test]
fn a_sustained_crossing_opens_a_detection() {
    let policy = policy();
    let mut table = table();
    feed(&mut table, &policy, START, 5_000_000);
    let still = feed(&mut table, &policy, START + SEC, 5_000_000);
    assert_eq!(still.state, Some(DetectionState::PendingTrigger));

    let opened = feed(&mut table, &policy, START + 2 * SEC, 6_000_000);
    assert_eq!(opened.state, Some(DetectionState::Active));
    assert_eq!(opened.transitions[0].reason, TransitionReason::TriggerSustained);
    assert_eq!(opened.signals, vec![Signal::Started]);
    assert_eq!(opened.transitions[0].matched.len(), 1);
    assert_eq!(opened.transitions[0].matched[0].metric, MetricKind::Bps);
    assert_eq!(opened.transitions[0].time_in_previous, 2 * SEC);
}

#[test]
fn the_hysteresis_band_neither_opens_nor_closes() {
    let policy = policy();
    let mut table = table();
    feed(&mut table, &policy, START, 5_000_000);
    feed(&mut table, &policy, START + 2 * SEC, 5_000_000);
    assert_eq!(table.get(&key()).map(|entry| entry.state), Some(DetectionState::Active));

    // 900 kbps: below the 1 Mbps trigger, above the 800 kbps clear.
    let band = feed(&mut table, &policy, START + 3 * SEC, 900_000);
    assert_eq!(band.state, Some(DetectionState::Active));
    assert!(band.transitions.is_empty());
    assert!(band.signals.is_empty());
}

#[test]
fn a_sustained_recovery_closes_into_cooldown() {
    let policy = policy();
    let mut table = table();
    feed(&mut table, &policy, START, 5_000_000);
    feed(&mut table, &policy, START + 2 * SEC, 5_000_000);

    let falling = feed(&mut table, &policy, START + 3 * SEC, 100);
    assert_eq!(falling.state, Some(DetectionState::PendingClear));
    assert_eq!(falling.transitions[0].reason, TransitionReason::FellBelowClear);
    assert!(falling.signals.is_empty());

    let still = feed(&mut table, &policy, START + 4 * SEC, 100);
    assert_eq!(still.state, Some(DetectionState::PendingClear));

    let closed = feed(&mut table, &policy, START + 5 * SEC, 100);
    assert_eq!(closed.state, Some(DetectionState::Cooldown));
    assert_eq!(closed.transitions[0].reason, TransitionReason::ClearSustained);
    assert_eq!(closed.signals, vec![Signal::Ended]);
}

#[test]
fn traffic_returning_during_clear_reopens_without_a_second_start() {
    let policy = policy();
    let mut table = table();
    feed(&mut table, &policy, START, 5_000_000);
    feed(&mut table, &policy, START + 2 * SEC, 5_000_000);
    let opened_at = table.get(&key()).and_then(|entry| entry.active_since);

    feed(&mut table, &policy, START + 3 * SEC, 100);
    let back = feed(&mut table, &policy, START + 4 * SEC, 9_000_000);
    assert_eq!(back.state, Some(DetectionState::Active));
    assert_eq!(back.transitions[0].reason, TransitionReason::ClearAborted);
    assert!(back.signals.is_empty(), "a detection that never ended must not start again");
    assert_eq!(
        table.get(&key()).and_then(|entry| entry.active_since),
        opened_at,
        "holdDown must keep measuring from the original start"
    );
}

#[test]
fn cooldown_suppresses_a_new_detection_then_expires() {
    let policy = policy();
    let mut table = table();
    feed(&mut table, &policy, START, 5_000_000);
    feed(&mut table, &policy, START + 2 * SEC, 5_000_000);
    feed(&mut table, &policy, START + 3 * SEC, 100);
    feed(&mut table, &policy, START + 5 * SEC, 100);
    assert_eq!(table.get(&key()).map(|entry| entry.state), Some(DetectionState::Cooldown));

    let suppressed = feed(&mut table, &policy, START + 6 * SEC, 9_000_000);
    assert_eq!(suppressed.state, Some(DetectionState::Cooldown));
    assert_eq!(suppressed.suppressed, Some(Suppression::Cooldown));
    assert!(suppressed.signals.is_empty());

    // Cooldown was entered at t+5 and lasts 10s.
    let expired = feed(&mut table, &policy, START + 15 * SEC, 9_000_000);
    assert_eq!(expired.transitions[0].reason, TransitionReason::CooldownExpired);
    assert_eq!(expired.transitions[1].reason, TransitionReason::ThresholdCrossed);
    assert_eq!(expired.state, Some(DetectionState::PendingTrigger));
}

#[test]
fn hold_down_keeps_a_detection_open_through_an_early_recovery() {
    let mut draft = draft();
    draft.hold_down = 60 * SEC;
    let policy = draft.validate(&TenantPrefixes::new()).expect("valid");
    let mut table = table();
    feed(&mut table, &policy, START, 5_000_000);
    feed(&mut table, &policy, START + 2 * SEC, 5_000_000);

    let held = feed(&mut table, &policy, START + 3 * SEC, 100);
    assert_eq!(held.state, Some(DetectionState::Active));
    assert_eq!(held.suppressed, Some(Suppression::HoldDown));
    assert!(held.transitions.is_empty());

    // Hold-down measured from the open at t+2, so it lapses at t+62.
    let allowed = feed(&mut table, &policy, START + 63 * SEC, 100);
    assert_eq!(allowed.state, Some(DetectionState::PendingClear));
}

#[test]
fn zero_cooldown_returns_straight_to_idle() {
    let mut draft = draft();
    draft.cooldown = 0;
    let policy = draft.validate(&TenantPrefixes::new()).expect("valid");
    let mut table = table();
    feed(&mut table, &policy, START, 5_000_000);
    feed(&mut table, &policy, START + 2 * SEC, 5_000_000);
    feed(&mut table, &policy, START + 3 * SEC, 100);
    let closed = feed(&mut table, &policy, START + 5 * SEC, 100);
    assert_eq!(closed.state, Some(DetectionState::Idle));
    assert_eq!(closed.signals, vec![Signal::Ended]);
}

#[test]
fn a_replayed_snapshot_changes_nothing() {
    let policy = policy();
    let mut table = table();
    feed(&mut table, &policy, START, 5_000_000);
    let at = START + 2 * SEC;
    let first = feed(&mut table, &policy, at, 5_000_000);
    assert_eq!(first.signals, vec![Signal::Started]);
    let before = table.get(&key()).cloned();

    let replay = feed(&mut table, &policy, at, 5_000_000);
    assert_eq!(replay.ignored, Some(StepIgnored::Duplicate));
    assert!(replay.signals.is_empty());
    assert_eq!(table.get(&key()).cloned(), before);
    assert_eq!(table.stats().ignored_duplicate, 1);
}

#[test]
fn a_late_snapshot_cannot_rewind_a_timer() {
    let policy = policy();
    let mut table = table();
    feed(&mut table, &policy, START, 5_000_000);
    feed(&mut table, &policy, START + 5 * SEC, 5_000_000);
    let before = table.get(&key()).cloned();

    let late = feed(&mut table, &policy, START + SEC, 5_000_000);
    assert_eq!(late.ignored, Some(StepIgnored::OutOfOrder));
    assert_eq!(table.get(&key()).cloned(), before);
    assert_eq!(table.stats().ignored_out_of_order, 1);
}

#[test]
fn a_mismatched_window_is_refused() {
    let policy = policy();
    let mut table = table();
    let mut snap = snapshot(START, 9_000_000);
    snap.window = 5 * SEC;
    let evaluation = evaluate(&policy, &snap);
    let outcome = table.step(&policy, &snap, &evaluation);
    assert_eq!(outcome.ignored, Some(StepIgnored::WindowMismatch));
    assert!(table.is_empty());
}

#[test]
fn a_disabled_mode_is_not_evaluated() {
    let mut draft = draft();
    draft.execution_mode = ExecutionMode::Disabled;
    let policy = draft.validate(&TenantPrefixes::new()).expect("valid");
    let mut table = table();
    let outcome = feed(&mut table, &policy, START, 9_000_000);
    assert_eq!(outcome.ignored, Some(StepIgnored::ModeDisabled));
    assert!(table.is_empty());
}

#[test]
fn observe_mode_advances_state_and_still_signals() {
    // Observe evaluates; whether the event is published is the engine's
    // decision, not the state machine's.
    let mut draft = draft();
    draft.execution_mode = ExecutionMode::Observe;
    let policy = draft.validate(&TenantPrefixes::new()).expect("valid");
    let mut table = table();
    feed(&mut table, &policy, START, 5_000_000);
    let opened = feed(&mut table, &policy, START + 2 * SEC, 5_000_000);
    assert_eq!(opened.state, Some(DetectionState::Active));
    assert_eq!(opened.signals, vec![Signal::Started]);
}

#[test]
fn the_table_rejects_new_scopes_when_full_but_keeps_serving_tracked_ones() {
    let policy = policy();
    let mut table = StateTable::new(StateTableConfig { max_entries: 1, ..StateTableConfig::default() });
    feed(&mut table, &policy, START, 5_000_000);
    assert_eq!(table.len(), 1);

    let mut other = snapshot(START, 9_000_000);
    other.key = other_key();
    let evaluation = evaluate(&policy, &other);
    let rejected = table.step(&policy, &other, &evaluation);
    assert_eq!(rejected.ignored, Some(StepIgnored::TableFull));
    assert_eq!(rejected.state, None);
    assert_eq!(table.stats().rejected_table_full, 1);

    // The tracked scope is unaffected.
    let opened = feed(&mut table, &policy, START + 2 * SEC, 5_000_000);
    assert_eq!(opened.signals, vec![Signal::Started]);
    assert_eq!(table.len(), 1);
}

#[test]
fn a_full_table_never_evicts_an_open_detection() {
    let policy = policy();
    let mut table = StateTable::new(StateTableConfig { max_entries: 1, ..StateTableConfig::default() });
    feed(&mut table, &policy, START, 5_000_000);
    feed(&mut table, &policy, START + 2 * SEC, 5_000_000);

    for tick in 3..20u128 {
        let mut other = snapshot(START + tick * SEC, 9_000_000);
        other.key = other_key();
        let evaluation = evaluate(&policy, &other);
        table.step(&policy, &other, &evaluation);
    }
    assert_eq!(table.get(&key()).map(|entry| entry.state), Some(DetectionState::Active));
    assert_eq!(table.stats().rejected_table_full, 17);
}

#[test]
fn an_idle_scope_is_reclaimed_without_an_event() {
    let policy = policy();
    let mut table = table();
    feed(&mut table, &policy, START, 10);
    let expiries = table.sweep(START + 301 * SEC, EPOCH);
    assert_eq!(expiries.len(), 1);
    assert!(expiries[0].transition.is_none());
    assert!(expiries[0].signal.is_none());
    assert!(table.is_empty());
    assert_eq!(table.stats().expired_idle, 1);
}

#[test]
fn an_open_detection_whose_exporter_went_quiet_is_force_closed() {
    let policy = policy();
    let mut table = table();
    feed(&mut table, &policy, START, 5_000_000);
    feed(&mut table, &policy, START + 2 * SEC, 5_000_000);

    // Under the idle TTL, so this only fires because the entry is open.
    let expiries = table.sweep(START + 200 * SEC, EPOCH);
    assert_eq!(expiries.len(), 1);
    let transition = expiries[0].transition.as_ref().expect("closed");
    assert_eq!(transition.reason, TransitionReason::Stale);
    assert_eq!(transition.from, DetectionState::Active);
    assert_eq!(transition.to, DetectionState::Idle);
    assert_eq!(expiries[0].signal, Some(Signal::Ended));
    assert!(table.is_empty());
    assert_eq!(table.stats().expired_stale, 1);
}

#[test]
fn a_sweep_leaves_a_scope_that_is_still_reporting() {
    let policy = policy();
    let mut table = table();
    feed(&mut table, &policy, START, 5_000_000);
    feed(&mut table, &policy, START + 2 * SEC, 5_000_000);
    let expiries = table.sweep(START + 3 * SEC, EPOCH);
    assert!(expiries.is_empty());
    assert_eq!(table.len(), 1);
}

#[test]
fn a_policy_version_bump_resets_and_closes() {
    let policy = policy();
    let mut table = table();
    feed(&mut table, &policy, START, 5_000_000);
    feed(&mut table, &policy, START + 2 * SEC, 5_000_000);

    let mut next = draft();
    next.version = 2;
    let next = next.validate(&TenantPrefixes::new()).expect("valid");
    let outcome = feed(&mut table, &next, START + 3 * SEC, 9_000_000);
    assert_eq!(outcome.transitions[0].reason, TransitionReason::PolicyChanged);
    assert_eq!(outcome.transitions[0].policy_version, 1);
    assert_eq!(outcome.signals[0], Signal::Ended);
    assert_eq!(outcome.state, Some(DetectionState::PendingTrigger));
    assert_eq!(table.stats().policy_changes, 1);
}

#[test]
fn withdrawing_a_policy_closes_its_open_detections() {
    let policy = policy();
    let mut table = table();
    feed(&mut table, &policy, START, 5_000_000);
    feed(&mut table, &policy, START + 2 * SEC, 5_000_000);

    let expiries = table.withdraw_unselected(START + 3 * SEC, EPOCH, |_| false);
    assert_eq!(expiries.len(), 1);
    assert_eq!(expiries[0].transition.as_ref().map(|t| t.reason), Some(TransitionReason::PolicyWithdrawn));
    assert_eq!(expiries[0].signal, Some(Signal::Ended));
    assert!(table.is_empty());
}

#[test]
fn a_manual_reset_closes_an_open_detection() {
    let policy = policy();
    let mut table = table();
    feed(&mut table, &policy, START, 5_000_000);
    feed(&mut table, &policy, START + 2 * SEC, 5_000_000);

    let transition = table.manual_reset(&key(), START + 3 * SEC, EPOCH).expect("reset");
    assert_eq!(transition.reason, TransitionReason::ManualReset);
    assert_eq!(transition.to, DetectionState::Idle);
    assert!(table.manual_reset(&key(), START, EPOCH).is_none());
    assert!(table.manual_reset(&other_key(), START, EPOCH).is_none());
}

#[test]
fn updates_are_paced_by_the_event_update_interval() {
    let mut draft = draft();
    draft.event_update_interval = 10 * SEC;
    let policy = draft.validate(&TenantPrefixes::new()).expect("valid");
    let mut table = table();
    feed(&mut table, &policy, START, 5_000_000);
    let opened = feed(&mut table, &policy, START + 2 * SEC, 5_000_000);
    assert_eq!(opened.signals, vec![Signal::Started]);

    for tick in 3..12u128 {
        let outcome = feed(&mut table, &policy, START + tick * SEC, 5_000_000);
        assert!(outcome.signals.is_empty(), "no update expected at t+{tick}s");
    }
    let update = feed(&mut table, &policy, START + 12 * SEC, 5_000_000);
    assert_eq!(update.signals, vec![Signal::Updated]);
}

#[test]
fn peaks_track_the_worst_value_of_the_detection() {
    let policy = policy();
    let mut table = table();
    feed(&mut table, &policy, START, 5_000_000);
    feed(&mut table, &policy, START + 2 * SEC, 5_000_000);
    feed(&mut table, &policy, START + 3 * SEC, 40_000_000);
    feed(&mut table, &policy, START + 4 * SEC, 2_000_000);

    let peaks = &table.get(&key()).expect("tracked").peak_matched;
    assert_eq!(peaks.len(), 1);
    assert_eq!(peaks[0].metric, MetricKind::Bps);
    assert_eq!(peaks[0].observed, 40_000_000);
}

#[test]
fn a_closed_detection_starts_its_peaks_over() {
    let mut draft = draft();
    draft.cooldown = 0;
    let policy = draft.validate(&TenantPrefixes::new()).expect("valid");
    let mut table = table();
    feed(&mut table, &policy, START, 40_000_000);
    feed(&mut table, &policy, START + 2 * SEC, 40_000_000);
    feed(&mut table, &policy, START + 3 * SEC, 100);
    feed(&mut table, &policy, START + 5 * SEC, 100);

    feed(&mut table, &policy, START + 6 * SEC, 3_000_000);
    feed(&mut table, &policy, START + 8 * SEC, 3_000_000);
    let peaks = &table.get(&key()).expect("tracked").peak_matched;
    assert_eq!(peaks[0].observed, 3_000_000);
}

#[test]
fn state_entry_time_survives_a_step_that_changes_nothing() {
    let policy = policy();
    let mut table = table();
    feed(&mut table, &policy, START, 5_000_000);
    let entered = table.get(&key()).expect("tracked").entered_at;
    feed(&mut table, &policy, START + 500 * MS, 5_000_000);
    assert_eq!(table.get(&key()).expect("tracked").entered_at, entered);
}

#[test]
fn counts_and_open_detections_are_reported_in_key_order() {
    let policy = policy();
    let mut table = table();
    for (index, scope) in [key(), other_key()].into_iter().enumerate() {
        let offset = index as u128 * MS;
        for tick in [0u128, 2] {
            let mut snap = snapshot(START + tick * SEC + offset, 5_000_000);
            snap.key = scope.clone();
            let evaluation = evaluate(&policy, &snap);
            table.step(&policy, &snap, &evaluation);
        }
    }
    assert_eq!(table.count_in(DetectionState::Active), 2);
    let open = table.open_detections();
    assert_eq!(open.len(), 2);
    assert_eq!(open[0].key.compare(&open[1].key), KeyOrder::Before);
}

#[test]
fn every_step_records_a_chain_from_the_old_state_to_the_new() {
    let policy = policy();
    let mut table = table();
    let rates = [5_000_000u64, 5_000_000, 6_000_000, 10, 10, 10, 10, 5_000_000, 10, 10];
    let mut before = DetectionState::Idle;
    let mut moves = 0;
    for (tick, bps) in rates.iter().enumerate() {
        let outcome = feed(&mut table, &policy, START + (tick as u128) * SEC, *bps);
        let after = outcome.state.expect("accepted");
        assert!(outcome.transitions.len() <= 2);
        if outcome.transitions.is_empty() {
            assert_eq!(before, after);
        } else {
            assert_eq!(outcome.transitions[0].from, before);
            for pair in outcome.transitions.windows(2) {
                assert_eq!(pair[0].to, pair[1].from);
            }
            assert_eq!(outcome.transitions[outcome.transitions.len() - 1].to, after);
            moves += outcome.transitions.len();
        }
        before = after;
    }
    assert!(moves >= 3);
}
