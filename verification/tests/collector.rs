use netmon::common::Error;
use netmon::document::ConfigError;
use netmon::engine::EngineReport;
use netmon::exporter::{ExporterRegistry, ExporterState};
use netmon::net::IpAddress;
use netmon::normalize::ExternalSamplingConfig;
use netmon::pipeline::{ExportReport, SamplingConfig};
use netmon::policy::{PolicyError, Severity};
use netmon::prefix_list::{split_local_prefixes, PrefixListEntry};
use netmon::scrape::is_metrics_request;
use netmon::sink::{log_level, LogLevel};

fn localhost() -> IpAddress {
    IpAddress::V4(0x7f00_0001)
}

#[test]
fn first_sequence_number_is_never_a_restart() {
    let mut state = ExporterState::new();
    assert!(!state.observe_sequence(0));
    assert_eq!(state.packets_received, 1);
}

#[test]
fn increasing_sequence_numbers_are_not_a_restart() {
    let mut state = ExporterState::new();
    state.observe_sequence(10);
    assert!(!state.observe_sequence(20));
    assert!(!state.observe_sequence(21));
}

#[test]
fn a_regression_is_detected_as_a_restart() {
    let mut state = ExporterState::new();
    state.observe_sequence(1000);
    assert!(state.observe_sequence(5));
    assert_eq!(state.last_sequence_number, Some(5));
    assert!(!state.observe_sequence(5));
    assert_eq!(state.packets_received, 3);
}

#[test]
fn registry_creates_state_lazily_per_address() {
    let mut registry = ExporterRegistry::new();
    assert_eq!(registry.exporter_count(), 0);

    registry.get_or_create(localhost(), 1).observe_sequence(1);
    registry.get_or_create(localhost(), 2).observe_sequence(1);
    registry.get_or_create(localhost(), 1).observe_sequence(2);

    assert_eq!(registry.exporter_count(), 2);
}

#[test]
fn the_registry_hands_back_the_same_exporter_state() {
    let mut registry = ExporterRegistry::new();
    registry.get_or_create(localhost(), 9).observe_sequence(40);
    registry.get_or_create(IpAddress::V4(0x0a00_0001), 9).observe_sequence(7);
    let again = registry.get_or_create(localhost(), 9);
    assert_eq!(again.last_sequence_number, Some(40));
    assert_eq!(again.packets_received, 1);
    assert!(again.observe_sequence(39));
}

#[test]
fn the_first_configured_rate_for_an_exporter_applies() {
    let sampling = SamplingConfig {
        global_default: Some(1000),
        per_exporter: vec![(localhost(), 50), (IpAddress::V4(0x0a00_0001), 20), (localhost(), 99)],
    };
    assert_eq!(
        sampling.for_exporter(localhost()),
        ExternalSamplingConfig { exporter_configured: Some(50), global_default: Some(1000) }
    );
    assert_eq!(
        sampling.for_exporter(IpAddress::V6(1)),
        ExternalSamplingConfig { exporter_configured: None, global_default: Some(1000) }
    );
}

#[test]
fn export_reports_add_up() {
    let mut report = ExportReport::default();
    report.merge(10, 1, 0, 2);
    report.merge(5, 0, 3, 0);
    assert_eq!(
        report,
        ExportReport { rows_written: 15, write_failures: 1, retry_queue_dropped: 3, permanently_dropped_batches: 2 }
    );
}

#[test]
fn engine_reports_add_up_and_stop_at_the_maximum() {
    let mut report = EngineReport::default();
    report.snapshots_seen = usize::MAX - 1;
    report.transitions = 2;
    let mut other = EngineReport::default();
    other.snapshots_seen = 5;
    other.transitions = 3;
    report.merge(other);
    assert_eq!(report.snapshots_seen, usize::MAX);
    assert_eq!(report.transitions, 5);
    assert_eq!(report.unmatched, 0);
}

#[test]
fn log_levels_follow_severity() {
    assert_eq!(log_level(Severity::Info), LogLevel::Info);
    assert_eq!(log_level(Severity::Minor), LogLevel::Info);
    assert_eq!(log_level(Severity::Major), LogLevel::Warn);
    assert_eq!(log_level(Severity::Critical), LogLevel::Error);
}

#[test]
fn a_configuration_error_reads_as_one() {
    let e = Error::Configuration("no listen address".to_string());
    assert_eq!(e.to_string(), "configuration error: no listen address");
}

#[test]
fn an_io_error_carries_its_cause() {
    let e: Error = std::io::Error::new(std::io::ErrorKind::NotFound, "missing").into();
    assert!(matches!(e, Error::Io(_)));
    assert_eq!(e.to_string(), "io error: missing");
}

#[test]
fn policy_errors_read_exactly() {
    assert_eq!(PolicyError::EmptyId.to_string(), "policy id must not be empty");
    assert_eq!(
        PolicyError::IdCharacter { id: "a b".to_string(), ch: ' ' }.to_string(),
        "policy id \"a b\" contains ' '; ids may use only ASCII letters, digits, '-', '_' and '.'"
    );
    assert_eq!(
        PolicyError::InvalidClearPercent { id: "p".to_string(), percent: 0 }.to_string(),
        "policy \"p\" has a clear percentage of 0; it must be between 1 and 100"
    );
}

#[test]
fn configuration_document_errors_read_exactly() {
    assert_eq!(
        ConfigError::TooLarge { size: 5_000_000 }.to_string(),
        "policy document is 5000000 bytes, above the 4194304-byte limit"
    );
    assert_eq!(ConfigError::DuplicateId { id: "p1".to_string() }.to_string(), "duplicate policy id \"p1\"");
}

#[test]
fn a_prefix_list_reads_tenant_and_hostgroup() {
    let entries = split_local_prefixes("10.0.0.0/8@wetechi@core,2001:db8::/32");
    assert_eq!(entries.len(), 2);
    assert_eq!(
        entries[0],
        Some(PrefixListEntry {
            network: "10.0.0.0".to_string(),
            prefix_len: Some(8),
            tenant: "wetechi".to_string(),
            hostgroup: Some("core".to_string()),
        })
    );
    assert_eq!(
        entries[1],
        Some(PrefixListEntry {
            network: "2001:db8::".to_string(),
            prefix_len: Some(32),
            tenant: "default".to_string(),
            hostgroup: None,
        })
    );
}

#[test]
fn a_prefix_entry_without_a_length_is_unreadable() {
    assert_eq!(split_local_prefixes("not-a-prefix"), vec![None]);
    let entries = split_local_prefixes("10.0.0.0/x");
    assert_eq!(entries[0].as_ref().unwrap().prefix_len, None);
}

#[test]
fn blank_prefix_entries_are_skipped() {
    assert!(split_local_prefixes("   ").is_empty());
    assert!(split_local_prefixes("").is_empty());
    let entries = split_local_prefixes(" , 192.0.2.0/24@lab ,,");
    assert_eq!(entries.len(), 1);
    assert_eq!(entries[0].as_ref().unwrap().tenant, "lab");
}

#[test]
fn only_the_metrics_path_is_served() {
    assert!(is_metrics_request("GET /metrics HTTP/1.1\r\nHost: x\r\n\r\n"));
    assert!(!is_metrics_request("GET /health HTTP/1.1\r\nHost: x\r\n\r\n"));
    assert!(!is_metrics_request("GET /metrics/x HTTP/1.1"));
    assert!(is_metrics_request("  GET \t /metrics"));
    assert!(!is_metrics_request("GET"));
    assert!(!is_metrics_request(""));
}
