use netmon::config::Magnitude;
use netmon::document::{
    check_prefix_len, check_size, parse_prefix_len, split_cidr, to_document, ConfigError, PolicyDefaults,
    PolicyDocument, PolicyEntry, TenantEntry,
};
use netmon::input::{MetricKind, ScopeType, TrafficDirection};
use netmon::net::IpAddress;
use netmon::policy::{ExecutionMode, PolicyError, PolicySelector, Severity, TenantPrefixes};

const SEC: u128 = 1_000_000_000;

fn entry(id: &str) -> PolicyEntry {
    PolicyEntry {
        id: id.to_string(),
        name: "host bps".to_string(),
        description: None,
        enabled: true,
        tenant: "acme".to_string(),
        scope_type: ScopeType::Host,
        selector: PolicySelector::Any,
        address_family: None,
        direction: TrafficDirection::Incoming,
        window: "1s".to_string(),
        thresholds: vec![(MetricKind::Bps, Magnitude::Text("1M".to_string()))],
        clear_percent: None,
        trigger_for: "2s".to_string(),
        clear_for: "2s".to_string(),
        cooldown: None,
        hold_down: None,
        event_update_interval: None,
        severity: None,
        execution_mode: None,
        priority: 0,
        labels: Vec::new(),
        version: 1,
    }
}

fn document(policies: Vec<PolicyEntry>) -> PolicyDocument {
    PolicyDocument { schema_version: 1, defaults: PolicyDefaults::default(), tenants: Vec::new(), policies }
}

#[test]
fn a_draft_fills_in_the_defaults() {
    let mut defaults = PolicyDefaults::default();
    defaults.cooldown = Some("10s".to_string());
    let draft = entry("p1").to_draft(&defaults).expect("readable");
    assert_eq!(draft.window, SEC);
    assert_eq!(draft.trigger_for, 2 * SEC);
    assert_eq!(draft.cooldown, 10 * SEC);
    assert_eq!(draft.hold_down, 0);
    assert_eq!(draft.event_update_interval, 60 * SEC);
    assert_eq!(draft.clear_percent, 80);
    assert_eq!(draft.severity, Severity::Major);
    assert_eq!(draft.execution_mode, ExecutionMode::AlertOnly);
    assert_eq!(draft.thresholds.get(MetricKind::Bps), Some(1_000_000));
}

#[test]
fn an_unreadable_field_is_named_with_its_policy() {
    let mut bad = entry("p1");
    bad.trigger_for = "300".to_string();
    let err = bad.to_draft(&PolicyDefaults::default()).err().unwrap();
    assert_eq!(
        err,
        ConfigError::Field {
            id: "p1".to_string(),
            field: "triggerFor",
            detail: "\"300\" has no unit; write \"300s\" or \"300ms\"".to_string()
        }
    );
    let mut bad = entry("p2");
    bad.thresholds = vec![(MetricKind::Pps, Magnitude::Text("10Gi".to_string()))];
    let err = bad.to_draft(&PolicyDefaults::default()).err().unwrap();
    match err {
        ConfigError::Field { field, detail, .. } => {
            assert_eq!(field, "thresholds");
            assert!(detail.starts_with("pps: "));
        }
        other => panic!("unexpected {:?}", other),
    }
}

#[test]
fn a_document_compiles_every_policy() {
    let compiled = document(vec![entry("p1"), entry("p2")]).compile_with(TenantPrefixes::new()).expect("compiles");
    assert_eq!(compiled.policies.len(), 2);
    assert!(compiled.policies.get("p2").is_some());
}

#[test]
fn a_repeated_policy_id_stops_compilation() {
    let result = document(vec![entry("p1"), entry("p2"), entry("p1")]).compile_with(TenantPrefixes::new());
    assert_eq!(result.err().unwrap(), ConfigError::DuplicateId { id: "p1".to_string() });
}

#[test]
fn an_invalid_policy_stops_compilation() {
    let mut bad = entry("p2");
    bad.clear_for = "500ms".to_string();
    let result = document(vec![entry("p1"), bad]).compile_with(TenantPrefixes::new());
    assert_eq!(
        result.err().unwrap(),
        ConfigError::Invalid {
            id: "p2".to_string(),
            source: PolicyError::ClearShorterThanWindow { id: "p2".to_string(), clear_for: 500_000_000, window: SEC }
        }
    );
}

#[test]
fn an_empty_policy_list_compiles_to_an_empty_set() {
    let compiled = document(Vec::new()).compile_with(TenantPrefixes::new()).expect("compiles");
    assert!(compiled.policies.is_empty());
}

#[test]
fn a_document_round_trips_through_its_written_form() {
    let compiled = document(vec![entry("p-host-bps")]).compile_with(TenantPrefixes::new()).expect("compiles");
    let policies: Vec<_> = compiled.policies.iter().clone();
    let written = to_document(&policies);
    assert_eq!(written.policies[0].window, "1s");
    assert_eq!(written.policies[0].cooldown, Some("0ms".to_string()));
    assert_eq!(written.policies[0].event_update_interval, Some("1m".to_string()));
    assert_eq!(written.policies[0].thresholds, vec![(MetricKind::Bps, Magnitude::Number(1_000_000))]);
    let back = written.compile_with(TenantPrefixes::new()).expect("recompiles");
    assert_eq!(back.policies.get("p-host-bps"), compiled.policies.get("p-host-bps"));
}

#[test]
fn the_schema_and_size_limits_are_enforced() {
    assert!(check_size(10).is_ok());
    assert_eq!(check_size(4 * 1024 * 1024 + 1), Err(ConfigError::TooLarge { size: 4 * 1024 * 1024 + 1 }));
    let mut doc = document(Vec::new());
    doc.schema_version = 2;
    assert_eq!(doc.accept().err().unwrap(), ConfigError::UnsupportedSchema { found: 2 });
    assert!(document(vec![entry("p1")]).accept().is_ok());
    let mut doc = document(Vec::new());
    doc.tenants = vec![TenantEntry { tenant: "acme".to_string(), prefixes: vec!["10.0.0.0/8".to_string(); 100_001] }];
    assert_eq!(doc.check_prefix_count(), Err(ConfigError::TooManyPrefixes { count: 100_001 }));
}

#[test]
fn cidr_text_is_split_and_checked() {
    assert_eq!(split_cidr("203.0.113.0/24"), Ok(("203.0.113.0".to_string(), "24".to_string())));
    assert_eq!(split_cidr("203.0.113.0"), Err("is not in address/length form".to_string()));
    assert_eq!(parse_prefix_len(" 24 "), Ok(24));
    assert_eq!(parse_prefix_len("+8"), Ok(8));
    assert_eq!(parse_prefix_len("256"), Err("\"256\" is not a prefix length".to_string()));
    assert_eq!(parse_prefix_len("x"), Err("\"x\" is not a prefix length".to_string()));
    assert_eq!(check_prefix_len(IpAddress::V4(0), 32), Ok((IpAddress::V4(0), 32)));
    assert_eq!(check_prefix_len(IpAddress::V4(0), 33), Err("prefix length 33 exceeds 32 for this family".to_string()));
    assert_eq!(check_prefix_len(IpAddress::V6(0), 129), Err("prefix length 129 exceeds 128 for this family".to_string()));
}

fn minimal() -> PolicyEntry {
    let mut e = entry("p-host-bps");
    e.name = "host inbound bps".to_string();
    e.window = "5s".to_string();
    e.thresholds = vec![(MetricKind::Bps, Magnitude::Text("1G".to_string()))];
    e.trigger_for = "15s".to_string();
    e.clear_for = "30s".to_string();
    e
}

fn load(doc: PolicyDocument) -> Result<netmon::document::CompiledPolicies, ConfigError> {
    doc.accept()?.compile_with(TenantPrefixes::new())
}

#[test]
fn a_minimal_document_compiles() {
    let compiled = load(document(vec![minimal()])).expect("compiles");
    assert_eq!(compiled.policies.len(), 1);
    let policy = compiled.policies.get("p-host-bps").expect("present");
    assert_eq!(policy.window, 5 * SEC);
    assert_eq!(policy.trigger_for, 15 * SEC);
    assert_eq!(policy.clear_for, 30 * SEC);
    assert_eq!(policy.thresholds.get(MetricKind::Bps), Some(1_000_000_000));
    assert_eq!(policy.clear_percent.get(), 80);
    assert_eq!(policy.severity, Severity::Major);
    assert_eq!(policy.execution_mode, ExecutionMode::AlertOnly);
    assert!(policy.enabled);
    assert_eq!(policy.version, 1);
    assert_eq!(policy.selector, PolicySelector::Any);
}

#[test]
fn a_future_schema_version_is_refused_not_guessed_at() {
    let mut doc = document(vec![minimal()]);
    doc.schema_version = 2;
    assert_eq!(load(doc).err(), Some(ConfigError::UnsupportedSchema { found: 2 }));
}

#[test]
fn an_oversized_document_is_refused_before_parsing() {
    let size = netmon::document::MAX_DOCUMENT_BYTES + 1;
    assert_eq!(check_size(size), Err(ConfigError::TooLarge { size }));
}

#[test]
fn defaults_are_inherited_and_overridable() {
    let mut doc = document(Vec::new());
    doc.defaults = PolicyDefaults {
        clear_percent: 50,
        cooldown: Some("10m".to_string()),
        hold_down: None,
        event_update_interval: None,
        severity: Some(Severity::Critical),
        execution_mode: Some(ExecutionMode::Observe),
    };
    let mut inherits = minimal();
    inherits.id = "inherits".to_string();
    inherits.thresholds = vec![(MetricKind::Bps, Magnitude::Number(1000))];
    let mut overrides = inherits.clone();
    overrides.id = "overrides".to_string();
    overrides.clear_percent = Some(90);
    overrides.cooldown = Some("1m".to_string());
    overrides.severity = Some(Severity::Info);
    overrides.execution_mode = Some(ExecutionMode::AlertOnly);
    doc.policies = vec![inherits, overrides];
    let compiled = load(doc).expect("compiles");

    let inherits = compiled.policies.get("inherits").expect("present");
    assert_eq!(inherits.clear_percent.get(), 50);
    assert_eq!(inherits.cooldown, 600 * SEC);
    assert_eq!(inherits.severity, Severity::Critical);
    assert_eq!(inherits.execution_mode, ExecutionMode::Observe);

    let overrides = compiled.policies.get("overrides").expect("present");
    assert_eq!(overrides.clear_percent.get(), 90);
    assert_eq!(overrides.cooldown, 60 * SEC);
    assert_eq!(overrides.severity, Severity::Info);
    assert_eq!(overrides.execution_mode, ExecutionMode::AlertOnly);
}

fn acme_prefixes() -> TenantPrefixes {
    let mut owned = TenantPrefixes::new();
    owned.insert("acme".to_string(), IpAddress::V4(u32::from_be_bytes([203, 0, 113, 0])), 24);
    owned.insert("acme".to_string(), IpAddress::V6(0x2001_0db8u128 << 96), 32);
    owned
}

#[test]
fn a_selector_and_tenant_prefixes_are_read() {
    let mut p = minimal();
    p.id = "p-net".to_string();
    p.scope_type = ScopeType::Prefix;
    p.selector = PolicySelector::Network { addr: IpAddress::V4(u32::from_be_bytes([203, 0, 113, 0])), prefix_len: 24 };
    p.thresholds = vec![(MetricKind::Pps, Magnitude::Text("500k".to_string()))];
    let compiled = document(vec![p]).accept().unwrap().compile_with(acme_prefixes()).expect("compiles");
    let policy = compiled.policies.get("p-net").expect("present");
    assert_eq!(
        policy.selector,
        PolicySelector::Network { addr: IpAddress::V4(u32::from_be_bytes([203, 0, 113, 0])), prefix_len: 24 }
    );
    assert_eq!(policy.thresholds.get(MetricKind::Pps), Some(500_000));
    assert!(compiled.tenant_prefixes.covers("acme", IpAddress::V4(u32::from_be_bytes([203, 0, 113, 0])), 24));
}

#[test]
fn a_policy_aimed_outside_its_tenant_is_refused() {
    let mut p = minimal();
    p.id = "p-wrong".to_string();
    p.scope_type = ScopeType::Prefix;
    p.selector = PolicySelector::Network { addr: IpAddress::V4(u32::from_be_bytes([198, 51, 100, 0])), prefix_len: 24 };
    let error = document(vec![p]).compile_with(acme_prefixes()).err().expect("must not load");
    assert!(matches!(error, ConfigError::Invalid { .. }), "{:?}", error);
}

#[test]
fn a_duplicate_policy_id_is_refused() {
    let mut dup = minimal();
    dup.name = "dup".to_string();
    dup.thresholds = vec![(MetricKind::Bps, Magnitude::Number(1000))];
    assert_eq!(
        load(document(vec![dup, minimal()])).err(),
        Some(ConfigError::DuplicateId { id: "p-host-bps".to_string() })
    );
}

#[test]
fn an_invalid_policy_stops_the_whole_load() {
    // triggerFor shorter than the window: a policy that can never fire.
    let mut p = minimal();
    p.trigger_for = "1s".to_string();
    let error = load(document(vec![p])).err().expect("must not load");
    assert!(matches!(error, ConfigError::Invalid { .. }), "{:?}", error);
}

#[test]
fn a_duration_without_a_unit_is_refused() {
    let mut p = minimal();
    p.trigger_for = "15".to_string();
    let error = load(document(vec![p])).err().expect("must not load");
    let message = error.to_string();
    assert!(message.contains("no unit"), "{message}");
    assert!(message.contains("triggerFor"), "{message}");
}

#[test]
fn a_disabled_policy_loads_and_stays_disabled() {
    let mut p = minimal();
    p.name = "x".to_string();
    p.enabled = false;
    let compiled = load(document(vec![p])).expect("compiles");
    assert!(!compiled.policies.get("p-host-bps").expect("present").enabled);
}
