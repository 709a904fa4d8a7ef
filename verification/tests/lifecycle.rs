use netmon::config::Magnitude;
use netmon::direction::classify;
use netmon::document::{PolicyDefaults, PolicyDocument, PolicyEntry, TenantEntry};
use netmon::engine::{DetectionEngine, EngineConfig, ThresholdDetectionEngine};
use netmon::event::{DetectionEvent, EventKind};
use netmon::flow::{NormalizedFlow, NormalizedFlowBuilder, Protocol};
use netmon::input::{MetricKind, ScopeType, TrafficDirection};
use netmon::metrics::NoopMetrics;
use netmon::net::IpAddress;
use netmon::policy::{PolicySelector, Severity, TenantPrefixes};
use netmon::precedence::PolicySet;
use netmon::registry::PrefixRegistry;
use netmon::sampling::{SamplingRate, SamplingSource};
use netmon::sink::InMemorySink;
use netmon::state::DetectionState;
use netmon::table::StateTableConfig;
use netmon::window::{DetectionWindows, WindowConfig};
use netmon::clock::SystemClock;

const SEC: u128 = 1_000_000_000;

fn v4(a: u8, b: u8, c: u8, d: u8) -> IpAddress {
    IpAddress::V4(u32::from_be_bytes([a, b, c, d]))
}

/// A 1 Mbps host policy on a one-second window: two seconds to trigger,
/// two to clear, ten of cooldown.
fn policies() -> PolicySet {
    let entry = PolicyEntry {
        id: "p-host-inbound".to_string(),
        name: "host inbound bps".to_string(),
        description: None,
        enabled: true,
        tenant: "acme".to_string(),
        scope_type: ScopeType::Host,
        selector: PolicySelector::Any,
        address_family: None,
        direction: TrafficDirection::Incoming,
        window: "1s".to_string(),
        thresholds: vec![(MetricKind::Bps, Magnitude::Text("1M".to_string()))],
        clear_percent: None,
        trigger_for: "2s".to_string(),
        clear_for: "2s".to_string(),
        cooldown: Some("10s".to_string()),
        hold_down: None,
        event_update_interval: None,
        severity: Some(Severity::Critical),
        execution_mode: None,
        priority: 0,
        labels: Vec::new(),
        version: 1,
    };
    let document = PolicyDocument {
        schema_version: 1,
        defaults: PolicyDefaults::default(),
        tenants: vec![TenantEntry { tenant: "acme".to_string(), prefixes: vec!["203.0.113.0/24".to_string()] }],
        policies: vec![entry],
    };
    let mut owned = TenantPrefixes::new();
    owned.insert("acme".to_string(), v4(203, 0, 113, 0), 24);
    document.accept().expect("accepted").compile_with(owned).expect("the bundled policy document is valid").policies
}

fn registry() -> PrefixRegistry {
    let mut registry = PrefixRegistry::new();
    registry.insert(v4(203, 0, 113, 0), 24, "acme".to_string(), Some("edge".to_string())).expect("valid prefix");
    registry
}

fn inbound_flow(victim: u8, bytes: u64) -> NormalizedFlow {
    NormalizedFlowBuilder {
        source_addr: v4(198, 51, 100, 9),
        destination_addr: v4(203, 0, 113, victim),
        source_port: Some(51000),
        destination_port: Some(443),
        protocol: Some(Protocol::Udp),
        tcp_flags: None,
        raw_bytes: bytes,
        raw_packets: (bytes / 1000).max(1),
        input_interface: Some(1),
        output_interface: Some(2),
        source_asn: None,
        destination_asn: None,
        exporter: v4(198, 51, 100, 1),
        observation_domain_id: 0,
        start_time: None,
        end_time: None,
        fragmented: false,
        dropped: false,
        forwarding_status_known: true,
    }
    .build(SamplingRate::unsampled(), SamplingSource::Unsampled)
    .expect("a flow with bytes is valid")
}

/// Everything the collector wires together, in one place.
struct Harness {
    registry: PrefixRegistry,
    windows: DetectionWindows,
    engine: ThresholdDetectionEngine<InMemorySink, NoopMetrics, SystemClock>,
    start: u128,
}

impl Harness {
    fn new(policies: PolicySet, max_scopes: usize) -> Self {
        Harness::with_caps(policies, max_scopes, max_scopes)
    }

    fn with_caps(policies: PolicySet, max_windows: usize, max_states: usize) -> Self {
        let start = 50_000 * SEC;
        Harness {
            registry: registry(),
            windows: DetectionWindows::new(
                WindowConfig {
                    window: SEC,
                    max_hosts: max_windows,
                    max_networks: max_windows,
                    max_slash24: max_windows,
                    max_hostgroups: 1_000,
                },
                start,
            ),
            engine: ThresholdDetectionEngine::new(EngineConfig {
                state: StateTableConfig { max_entries: max_states, idle_ttl: 300 * SEC, stale_after: 180 * SEC },
            })
            .with_policies(policies)
            .with_sink(InMemorySink::new(256)),
            start,
        }
    }

    fn default_policies(max_scopes: usize) -> Self {
        Harness::new(policies(), max_scopes)
    }

    fn second(&mut self, second: u128, victim: u8, bytes: u64) {
        let at = self.start + second * SEC;
        let flow = inbound_flow(victim, bytes);
        let classification = classify(&self.registry, &flow);
        self.windows.ingest(&self.registry, &flow, &classification, at);
        let snapshots = self.windows.tick(self.start + (second + 1) * SEC, 0);
        self.engine.evaluate(&snapshots);
    }

    fn quiet_second(&mut self, second: u128) {
        let snapshots = self.windows.tick(self.start + (second + 1) * SEC, 0);
        self.engine.evaluate(&snapshots);
    }

    fn sweep(&mut self, second: u128) {
        self.engine.sweep(self.start + second * SEC, 0);
    }

    fn host_events(&self) -> Vec<DetectionEvent> {
        self.engine.sink().events().into_iter().filter(|event| event.target.scope_type == ScopeType::Host).collect()
    }
}

/// 10 Mbps in one second: ten times the 1 Mbps threshold.
const HEAVY: u64 = 1_250_000;
/// 80 kbps: well under the 800 kbps clear level.
const LIGHT: u64 = 10_000;

#[test]
fn a_synthetic_attack_produces_one_start_and_one_end() {
    let mut h = Harness::default_policies(10_000);
    for second in 0..6 {
        h.second(second, 7, HEAVY);
    }
    for second in 6..10 {
        h.second(second, 7, LIGHT);
    }

    let events = h.host_events();
    let kinds: Vec<EventKind> = events.iter().map(|event| event.kind).collect();
    assert_eq!(kinds, vec![EventKind::Started, EventKind::Ended], "one attack must produce one start and one end, got {kinds:?}");

    let start = &events[0];
    assert_eq!(start.policy_id, "p-host-inbound");
    assert_eq!(start.target.tenant, "acme");
    assert_eq!(start.target.display, "203.0.113.7");
    assert_eq!(start.target.direction, TrafficDirection::Incoming);
    assert_eq!(start.state, DetectionState::Active);
    assert!(start.rates.bps >= 10_000_000, "{}", start.rates.bps);
    assert_eq!(start.matched.len(), 1);
    assert!(start.matched[0].ratio_percent >= 1000);

    let end = &events[1];
    assert_eq!(end.detection_id, start.detection_id);
    assert_eq!(end.sequence, 1);
    assert!(end.matched.is_empty());
    assert!(end.peak[0].observed >= 10_000_000);
    assert!(end.duration_ms > 0);
}

#[test]
fn quiet_traffic_produces_no_events_at_all() {
    let mut h = Harness::default_policies(10_000);
    for second in 0..20 {
        h.second(second, 7, LIGHT);
    }
    assert!(h.engine.sink().is_empty());
}

#[test]
fn a_burst_shorter_than_trigger_for_produces_nothing() {
    let mut h = Harness::default_policies(10_000);
    h.second(0, 7, LIGHT);
    h.second(1, 7, HEAVY);
    for second in 2..8 {
        h.second(second, 7, LIGHT);
    }
    assert!(h.engine.sink().is_empty(), "a one-second crossing is not a two-second trigger");
}

#[test]
fn an_outbound_flood_is_not_matched_by_an_inbound_policy() {
    let mut h = Harness::default_policies(10_000);
    let registry = registry();
    for second in 0..8u128 {
        let at = h.start + second * SEC;
        let flow = NormalizedFlowBuilder {
            source_addr: v4(203, 0, 113, 7),
            destination_addr: v4(198, 51, 100, 9),
            source_port: Some(443),
            destination_port: Some(51000),
            protocol: Some(Protocol::Udp),
            tcp_flags: None,
            raw_bytes: HEAVY,
            raw_packets: 1000,
            input_interface: Some(1),
            output_interface: Some(2),
            source_asn: None,
            destination_asn: None,
            exporter: v4(198, 51, 100, 1),
            observation_domain_id: 0,
            start_time: None,
            end_time: None,
            fragmented: false,
            dropped: false,
            forwarding_status_known: true,
        }
        .build(SamplingRate::unsampled(), SamplingSource::Unsampled)
        .expect("valid flow");
        let classification = classify(&registry, &flow);
        h.windows.ingest(&registry, &flow, &classification, at);
        let snapshots = h.windows.tick(h.start + (second + 1) * SEC, 0);
        h.engine.evaluate(&snapshots);
    }
    assert!(h.engine.sink().is_empty(), "an incoming policy must not fire on outgoing traffic");
}

#[test]
fn cooldown_collapses_a_flapping_attack_into_one_event_pair() {
    let mut h = Harness::default_policies(10_000);
    for second in 0..6 {
        h.second(second, 7, HEAVY);
    }
    for second in 6..10 {
        h.second(second, 7, LIGHT);
    }
    for second in 10..16 {
        h.second(second, 7, HEAVY);
    }
    let starts = h.host_events().iter().filter(|event| event.kind == EventKind::Started).count();
    assert_eq!(starts, 1, "cooldown must suppress the second crossing, got {starts} starts");
}

#[test]
fn an_attack_whose_exporter_goes_silent_is_still_closed() {
    let mut h = Harness::default_policies(10_000);
    for second in 0..6 {
        h.second(second, 7, HEAVY);
    }
    assert_eq!(h.engine.open_detections(), 1);

    h.sweep(400);
    assert_eq!(h.engine.open_detections(), 0);

    let events = h.host_events();
    assert_eq!(events.last().expect("an end event").kind, EventKind::Ended);
    assert_eq!(events.last().expect("an end event").rates.bps, 0, "a stale close reports no rate, because none was observed");
}

#[test]
fn a_scope_that_goes_quiet_still_closes_through_normal_windows() {
    let mut h = Harness::default_policies(10_000);
    for second in 0..6 {
        h.second(second, 7, HEAVY);
    }
    for second in 6..10 {
        h.quiet_second(second);
    }
    assert_eq!(h.engine.open_detections(), 1, "an absent scope is not a cleared scope");
    h.sweep(400);
    assert_eq!(h.engine.open_detections(), 0);
}

#[test]
fn many_attacked_hosts_each_get_their_own_detection() {
    let mut h = Harness::default_policies(10_000);
    for second in 0..6u128 {
        for victim in 1..=20u8 {
            let at = h.start + second * SEC;
            let flow = inbound_flow(victim, HEAVY);
            let classification = classify(&h.registry, &flow);
            h.windows.ingest(&h.registry, &flow, &classification, at);
        }
        let snapshots = h.windows.tick(h.start + (second + 1) * SEC, 0);
        h.engine.evaluate(&snapshots);
    }
    let starts: Vec<DetectionEvent> = h.host_events().into_iter().filter(|event| event.kind == EventKind::Started).collect();
    assert_eq!(starts.len(), 20);
    let distinct: std::collections::BTreeSet<&str> = starts.iter().map(|event| event.detection_id.as_str()).collect();
    assert_eq!(distinct.len(), 20, "each host needs its own detection id");
}

#[test]
fn the_state_table_stays_within_its_cap_under_many_scopes() {
    let mut h = Harness::default_policies(64);
    for second in 0..3u128 {
        let at = h.start + second * SEC;
        for victim in 1..=250u8 {
            let flow = inbound_flow(victim, HEAVY);
            let classification = classify(&h.registry, &flow);
            h.windows.ingest(&h.registry, &flow, &classification, at);
        }
        let snapshots = h.windows.tick(h.start + (second + 1) * SEC, 0);
        h.engine.evaluate(&snapshots);
    }
    let windows_stats = h.windows.stats();
    assert!(windows_stats.evicted > 0 || windows_stats.rejected > 0, "a cap smaller than the workload must be visibly enforced");
    assert!(h.engine.state().len() <= 64, "the state table must never exceed max_entries, got {}", h.engine.state().len());
    assert!(h.engine.state().stats().rejected_table_full > 0, "refused admissions must be counted, not silent");
}

#[test]
fn a_full_state_table_never_drops_an_already_open_detection() {
    let mut h = Harness::with_caps(policies(), 10_000, 1);
    for second in 0..6 {
        h.second(second, 7, HEAVY);
    }
    assert_eq!(h.engine.open_detections(), 1);

    for second in 6..12u128 {
        let at = h.start + second * SEC;
        for victim in 100..=200u8 {
            let flow = inbound_flow(victim, HEAVY);
            let classification = classify(&h.registry, &flow);
            h.windows.ingest(&h.registry, &flow, &classification, at);
        }
        let snapshots = h.windows.tick(h.start + (second + 1) * SEC, 0);
        h.engine.evaluate(&snapshots);
    }
    assert_eq!(h.engine.open_detections(), 1, "the open detection must survive pressure from new scopes");
}

#[test]
fn an_empty_policy_set_detects_nothing_and_costs_nothing() {
    let mut h = Harness::new(PolicySet::new(), 10_000);
    for second in 0..10 {
        h.second(second, 7, HEAVY);
    }
    assert!(h.engine.sink().is_empty());
    assert_eq!(h.engine.open_detections(), 0);
    assert_eq!(h.engine.state().len(), 0);
}

/// Rate sequences standing in for generated ones: a fixed seed run
/// through a linear congruential generator, `count` sequences of up to
/// forty rates each, every rate in `low..high`.
fn sequences(seed: u64, count: usize, low: u64, high: u64) -> Vec<Vec<u64>> {
    let mut state = seed;
    let mut next = || {
        state = state.wrapping_mul(6364136223846793005).wrapping_add(1442695040888963407);
        state >> 11
    };
    let mut out = Vec::new();
    for _ in 0..count {
        let len = 1 + (next() % 39) as usize;
        out.push((0..len).map(|_| low + next() % (high - low)).collect());
    }
    out
}

fn run_rate_sequence(rates: &[u64]) -> Vec<DetectionEvent> {
    let mut h = Harness::default_policies(1_000);
    for (second, bytes) in rates.iter().enumerate() {
        h.second(second as u128, 7, *bytes);
    }
    h.engine.sink().events()
}

#[test]
fn events_always_form_well_nested_detections() {
    for rates in sequences(1, 64, 1, 2_000_000) {
        let events = run_rate_sequence(&rates);
        let mut open: std::collections::BTreeMap<String, bool> = std::collections::BTreeMap::new();
        for event in &events {
            match event.kind {
                EventKind::Started => {
                    assert!(open.insert(event.detection_id.clone(), true).is_none(), "detection {} started twice", event.detection_id)
                },
                EventKind::Updated => {
                    assert!(open.get(&event.detection_id) == Some(&true), "detection {} updated while not open", event.detection_id)
                },
                EventKind::Ended => assert!(
                    open.insert(event.detection_id.clone(), false) == Some(true),
                    "detection {} ended without being open",
                    event.detection_id
                ),
            }
        }
    }
}

#[test]
fn sequence_numbers_are_gapless_within_a_detection() {
    for rates in sequences(2, 64, 1, 2_000_000) {
        let events = run_rate_sequence(&rates);
        let mut expected: std::collections::BTreeMap<String, u64> = std::collections::BTreeMap::new();
        for event in &events {
            let next = expected.entry(event.detection_id.clone()).or_insert(0);
            assert_eq!(event.sequence, *next, "detection {} jumped to sequence {}", event.detection_id, event.sequence);
            *next += 1;
        }
    }
}

#[test]
fn dedup_keys_are_unique_across_a_run() {
    for rates in sequences(3, 64, 1, 2_000_000) {
        let events = run_rate_sequence(&rates);
        let keys: std::collections::BTreeSet<&str> = events.iter().map(|event| event.dedup_key.as_str()).collect();
        assert_eq!(keys.len(), events.len());
    }
}

#[test]
fn a_matched_reason_is_always_consistent_with_its_rate() {
    for rates in sequences(4, 64, 1, 2_000_000) {
        let events = run_rate_sequence(&rates);
        for event in &events {
            for reason in &event.matched {
                assert!(
                    reason.observed >= reason.threshold,
                    "reported {} as crossed at {} against a threshold of {}",
                    reason.metric.as_str(),
                    reason.observed,
                    reason.threshold
                );
                assert_eq!(reason.excess, reason.observed - reason.threshold);
                assert_eq!(reason.observed, event.rates.get(reason.metric));
            }
        }
    }
}

#[test]
fn absurd_volumes_do_not_panic() {
    let mut samples = vec![vec![u64::MAX; 9], vec![u64::MAX / 8; 9], vec![u64::MAX, 1, u64::MAX / 8, 7]];
    samples.extend(sequences(5, 16, 1, u64::MAX));
    for rates in samples {
        let events = run_rate_sequence(&rates[..rates.len().min(9)]);
        for event in &events {
            assert!(!event.detection_id.is_empty());
            assert!(!event.summary.is_empty());
        }
    }
}
