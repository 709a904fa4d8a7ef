use netmon::clock::SystemClock;
use netmon::config::Magnitude;
use netmon::direction::classify;
use netmon::document::{CompiledPolicies, PolicyDefaults, PolicyDocument, PolicyEntry, TenantEntry};
use netmon::engine::EngineConfig;
use netmon::event::EventKind;
use netmon::flow::{NormalizedFlow, NormalizedFlowBuilder, Protocol};
use netmon::input::{MetricKind, ScopeType, TrafficDirection};
use netmon::metrics::CountingMetrics;
use netmon::net::IpAddress;
use netmon::pipeline::{DetectionStage, DetectionStageConfig};
use netmon::policy::{PolicySelector, TenantPrefixes};
use netmon::registry::PrefixRegistry;
use netmon::sampling::{SamplingRate, SamplingSource};
use netmon::sink::{DetectionEventSink, InMemorySink, NullSink};
use netmon::table::StateTableConfig;
use netmon::window::WindowConfig;

const SEC: u128 = 1_000_000_000;
const START: u128 = 7_000 * SEC;

fn v4(a: u8, b: u8, c: u8, d: u8) -> IpAddress {
    IpAddress::V4(u32::from_be_bytes([a, b, c, d]))
}

/// A 1 Mbps inbound host policy for tenant acme on a one-second window.
fn policies() -> CompiledPolicies {
    let entry = PolicyEntry {
        id: "p-host-bps".to_string(),
        name: "host inbound bps".to_string(),
        description: None,
        enabled: true,
        tenant: "acme".to_string(),
        scope_type: ScopeType::Host,
        selector: PolicySelector::Any,
        address_family: None,
        direction: TrafficDirection::Incoming,
        window: "1s".to_string(),
        thresholds: vec![(MetricKind::Bps, Magnitude::Text("1M".to_string()))],
        clear_percent: None,
        trigger_for: "2s".to_string(),
        clear_for: "2s".to_string(),
        cooldown: Some("10s".to_string()),
        hold_down: None,
        event_update_interval: None,
        severity: None,
        execution_mode: None,
        priority: 0,
        labels: Vec::new(),
        version: 1,
    };
    let document = PolicyDocument {
        schema_version: 1,
        defaults: PolicyDefaults::default(),
        tenants: vec![TenantEntry { tenant: "acme".to_string(), prefixes: vec!["203.0.113.0/24".to_string()] }],
        policies: vec![entry],
    };
    let mut owned = TenantPrefixes::new();
    owned.insert("acme".to_string(), v4(203, 0, 113, 0), 24);
    document.accept().expect("accepted").compile_with(owned).expect("valid policies")
}

fn registry() -> PrefixRegistry {
    let mut registry = PrefixRegistry::new();
    registry.insert(v4(203, 0, 113, 0), 24, "acme".to_string(), Some("edge".to_string())).expect("valid prefix");
    registry
}

fn flow(bytes: u64) -> NormalizedFlow {
    NormalizedFlowBuilder {
        source_addr: v4(198, 51, 100, 9),
        destination_addr: v4(203, 0, 113, 7),
        source_port: Some(51000),
        destination_port: Some(443),
        protocol: Some(Protocol::Udp),
        tcp_flags: None,
        raw_bytes: bytes,
        raw_packets: 1000,
        input_interface: Some(1),
        output_interface: Some(2),
        source_asn: None,
        destination_asn: None,
        exporter: v4(198, 51, 100, 1),
        observation_domain_id: 0,
        start_time: None,
        end_time: None,
        fragmented: false,
        dropped: false,
        forwarding_status_known: true,
    }
    .build(SamplingRate::unsampled(), SamplingSource::Unsampled)
    .expect("valid flow")
}

fn stage<S: DetectionEventSink>(sink: S) -> DetectionStage<S, CountingMetrics, SystemClock> {
    DetectionStage::new(
        DetectionStageConfig {
            window: WindowConfig { window: SEC, ..WindowConfig::default() },
            engine: EngineConfig { state: StateTableConfig::default() },
            event_buffer: 64,
        },
        policies(),
        sink,
        CountingMetrics::new(),
        SystemClock::new(),
        START,
    )
}

#[test]
fn a_sustained_flood_produces_a_start_row() {
    let mut stage = stage(InMemorySink::new(64));
    let registry = registry();
    let heavy = flow(1_250_000);
    let classification = classify(&registry, &heavy);

    // Window one opens the trigger timer; window three completes the
    // two seconds it asks for.
    let mut opened = 0;
    for second in 0..4u128 {
        stage.ingest(&registry, &heavy, &classification, START + second * SEC);
        let report = stage.tick(START + (second + 1) * SEC, 0);
        opened += report.detections_opened;
    }
    assert_eq!(opened, 1, "one detection should have opened");
    assert_eq!(stage.open_detections(), 1);

    let events = stage.engine().sink().events();
    assert_eq!(events.len(), 1);
    assert_eq!(events[0].kind, EventKind::Started);
    assert_eq!(events[0].policy_id, "p-host-bps");
    assert_eq!(events[0].target.display, "203.0.113.7");
    assert_eq!(events[0].target.direction, TrafficDirection::Incoming);
    assert!(events[0].rates.bps >= 10_000_000);
}

#[test]
fn quiet_traffic_produces_no_rows() {
    let mut stage = stage(InMemorySink::new(64));
    let registry = registry();
    let light = flow(1000);
    let classification = classify(&registry, &light);
    for second in 0..6u128 {
        stage.ingest(&registry, &light, &classification, START + second * SEC);
        stage.tick(START + (second + 1) * SEC, 0);
    }
    assert_eq!(stage.open_detections(), 0);
    assert!(stage.engine().sink().is_empty());
}

#[test]
fn a_stage_without_clickhouse_still_detects() {
    let mut stage = stage(NullSink);
    let registry = registry();
    let heavy = flow(1_250_000);
    let classification = classify(&registry, &heavy);
    for second in 0..4u128 {
        stage.ingest(&registry, &heavy, &classification, START + second * SEC);
        stage.tick(START + (second + 1) * SEC, 0);
    }
    assert_eq!(stage.open_detections(), 1);
}

#[test]
fn a_tick_before_the_window_is_due_evaluates_nothing() {
    let mut stage = stage(NullSink);
    let report = stage.tick(START + 100_000_000, 0);
    assert_eq!(report.snapshots_seen, 0);
}

#[test]
fn the_stage_reports_how_many_scopes_it_accumulates() {
    let mut stage = stage(NullSink);
    let registry = registry();
    let heavy = flow(1_250_000);
    let classification = classify(&registry, &heavy);
    stage.ingest(&registry, &heavy, &classification, START);
    let before = stage.windows().scope_count();
    assert!(before > 0);
    stage.tick(START + SEC, 0);
    assert_eq!(stage.windows().scope_count(), 0);
    assert_eq!(stage.engine().metrics().scopes_accumulating(), before as u64);
}
