use netmon::flow::{FlowError, Protocol};
use netmon::net::IpAddress;
use netmon::normalize::{
    normalize_record, ExternalSamplingConfig, NormalizeError, RecordField, IE_DESTINATION_IPV4_ADDRESS,
    IE_DESTINATION_IPV6_ADDRESS, IE_DESTINATION_TRANSPORT_PORT, IE_FORWARDING_STATUS, IE_OCTET_DELTA_COUNT,
    IE_PACKET_DELTA_COUNT, IE_PROTOCOL_IDENTIFIER, IE_SAMPLING_INTERVAL, IE_SOURCE_IPV4_ADDRESS,
    IE_SOURCE_IPV6_ADDRESS, IE_SOURCE_TRANSPORT_PORT,
};
use netmon::sampling::SamplingSource;

fn number(ie: u16, v: u64) -> RecordField {
    RecordField { information_element_id: ie, as_u64_be: Some(v), as_ipv4: None, as_ipv6: None }
}

fn v4(ie: u16, a: [u8; 4]) -> RecordField {
    RecordField {
        information_element_id: ie,
        as_u64_be: Some(u32::from_be_bytes(a) as u64),
        as_ipv4: Some(u32::from_be_bytes(a)),
        as_ipv6: None,
    }
}

fn sample_record() -> Vec<RecordField> {
    vec![
        v4(IE_SOURCE_IPV4_ADDRESS, [10, 0, 0, 1]),
        v4(IE_DESTINATION_IPV4_ADDRESS, [10, 0, 0, 2]),
        number(IE_SOURCE_TRANSPORT_PORT, 51000),
        number(IE_DESTINATION_TRANSPORT_PORT, 443),
        number(IE_PROTOCOL_IDENTIFIER, 6),
        number(IE_OCTET_DELTA_COUNT, 1000),
        number(IE_PACKET_DELTA_COUNT, 10),
    ]
}

fn exporter() -> IpAddress {
    IpAddress::V4(u32::from_be_bytes([172, 30, 172, 50]))
}

#[test]
fn maps_well_known_fields_and_applies_unsampled_default() {
    let outcome = normalize_record(&sample_record(), exporter(), 7, None, ExternalSamplingConfig::default()).unwrap();
    assert_eq!(outcome.flow.source_addr, IpAddress::V4(u32::from_be_bytes([10, 0, 0, 1])));
    assert_eq!(outcome.flow.source_port, Some(51000));
    assert_eq!(outcome.flow.destination_port, Some(443));
    assert_eq!(outcome.flow.protocol, Some(Protocol::Tcp));
    assert_eq!(outcome.flow.bytes, 1000);
    assert_eq!(outcome.flow.packets, 10);
    assert_eq!(outcome.flow.sampling_source, SamplingSource::Unsampled);
    assert_eq!(outcome.flow.observation_domain_id, 7);
    assert!(!outcome.zero_rate_skipped);
}

#[test]
fn rejects_a_record_missing_addresses() {
    let result = normalize_record(&vec![number(IE_OCTET_DELTA_COUNT, 100)], exporter(), 7, None, ExternalSamplingConfig::default());
    assert!(matches!(result, Err(NormalizeError::MissingAddresses)));
}

#[test]
fn options_template_sampling_is_applied_when_present() {
    let outcome = normalize_record(&sample_record(), exporter(), 7, Some(100), ExternalSamplingConfig::default()).unwrap();
    assert_eq!(outcome.flow.bytes, 100_000);
    assert_eq!(outcome.flow.sampling_rate.get(), 100);
}

#[test]
fn exporter_configured_sampling_used_when_no_ipfix_sampling_present() {
    let external = ExternalSamplingConfig { exporter_configured: Some(50), global_default: Some(10) };
    let outcome = normalize_record(&sample_record(), exporter(), 7, None, external).unwrap();
    assert_eq!(outcome.flow.sampling_rate.get(), 50);
}

#[test]
fn a_record_level_zero_is_skipped_and_reported() {
    let mut record = sample_record();
    record.push(number(IE_SAMPLING_INTERVAL, 0));
    let external = ExternalSamplingConfig { exporter_configured: None, global_default: Some(10) };
    let outcome = normalize_record(&record, exporter(), 7, None, external).unwrap();
    assert_eq!(outcome.flow.sampling_rate.get(), 10);
    assert!(outcome.zero_rate_skipped);
}

#[test]
fn ipv6_addresses_are_mapped() {
    let a: u128 = 0x2001_0db8_0000_0000_0000_0000_0000_0001;
    let record = vec![
        RecordField { information_element_id: IE_SOURCE_IPV6_ADDRESS, as_u64_be: None, as_ipv4: None, as_ipv6: Some(a) },
        RecordField { information_element_id: IE_DESTINATION_IPV6_ADDRESS, as_u64_be: None, as_ipv4: None, as_ipv6: Some(a + 1) },
        number(IE_OCTET_DELTA_COUNT, 500),
        number(IE_PACKET_DELTA_COUNT, 5),
    ];
    let outcome = normalize_record(&record, exporter(), 7, None, ExternalSamplingConfig::default()).unwrap();
    assert_eq!(outcome.flow.source_addr, IpAddress::V6(a));
}

#[test]
fn forwarding_status_dropped_is_mapped() {
    let mut record = sample_record();
    record.push(number(IE_FORWARDING_STATUS, 0x80));
    let outcome = normalize_record(&record, exporter(), 7, None, ExternalSamplingConfig::default()).unwrap();
    assert!(outcome.flow.forwarding_status_known);
    assert!(outcome.flow.dropped);
}

#[test]
fn an_empty_or_overflowing_record_is_refused_as_the_flow_builder_refuses_it() {
    let mut record = sample_record();
    record.push(number(IE_OCTET_DELTA_COUNT, 0));
    record.push(number(IE_PACKET_DELTA_COUNT, 0));
    assert_eq!(
        normalize_record(&record, exporter(), 7, None, ExternalSamplingConfig::default()).err(),
        Some(NormalizeError::Flow(FlowError::Empty))
    );
    let mut record = sample_record();
    record.push(number(IE_OCTET_DELTA_COUNT, u64::MAX));
    assert_eq!(
        normalize_record(&record, exporter(), 7, Some(2), ExternalSamplingConfig::default()).err(),
        Some(NormalizeError::Flow(FlowError::SamplingOverflow { field: "bytes" }))
    );
}
