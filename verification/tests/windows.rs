use netmon::direction::{classify, Direction};
use netmon::flow::{NormalizedFlow, NormalizedFlowBuilder, Protocol};
use netmon::input::{AddressFamily, DetectionSnapshot, ScopeId, ScopeType, TrafficDirection};
use netmon::net::IpAddress;
use netmon::registry::PrefixRegistry;
use netmon::sampling::{SamplingRate, SamplingSource};
use netmon::window::{mask, DetectionWindows, WindowConfig};

const MS: u128 = 1_000_000;
const SEC: u128 = 1_000_000_000;

fn v4(o: [u8; 4]) -> IpAddress {
    IpAddress::V4(u32::from_be_bytes(o))
}

fn registry() -> PrefixRegistry {
    let mut registry = PrefixRegistry::new();
    registry.insert(v4([203, 0, 113, 0]), 24, "acme".to_string(), Some("edge".to_string())).expect("valid prefix");
    registry
}

fn flow(source: [u8; 4], destination: [u8; 4], bytes: u64, packets: u64) -> NormalizedFlow {
    NormalizedFlowBuilder {
        source_addr: v4(source),
        destination_addr: v4(destination),
        source_port: Some(51000),
        destination_port: Some(443),
        protocol: Some(Protocol::Udp),
        tcp_flags: None,
        raw_bytes: bytes,
        raw_packets: packets,
        input_interface: Some(1),
        output_interface: Some(2),
        source_asn: None,
        destination_asn: None,
        exporter: v4([198, 51, 100, 1]),
        observation_domain_id: 0,
        start_time: None,
        end_time: None,
        fragmented: false,
        dropped: false,
        forwarding_status_known: true,
    }
    .build(SamplingRate::unsampled(), SamplingSource::Unsampled)
    .expect("valid flow")
}

fn windows(now: u128) -> DetectionWindows {
    DetectionWindows::new(WindowConfig { window: SEC, ..WindowConfig::default() }, now)
}

fn feed(windows: &mut DetectionWindows, flow: &NormalizedFlow, now: u128) {
    let registry = registry();
    let classification = classify(&registry, flow);
    windows.ingest(&registry, flow, &classification, now);
}

fn find(snapshots: &[DetectionSnapshot], scope_type: ScopeType, direction: TrafficDirection) -> Option<&DetectionSnapshot> {
    snapshots.iter().find(|s| s.key.scope_type == scope_type && s.key.direction == direction)
}

const START: u128 = 1_000 * SEC;

#[test]
fn an_inbound_flow_is_scoped_on_its_destination() {
    let mut w = windows(START);
    feed(&mut w, &flow([198, 51, 100, 9], [203, 0, 113, 7], 1_250_000, 1000), START);
    let snapshots = w.tick(START + SEC, 0);
    let host = find(&snapshots, ScopeType::Host, TrafficDirection::Incoming).expect("an incoming host scope");
    assert_eq!(host.key.scope_id, ScopeId::Host { addr: v4([203, 0, 113, 7]) });
    assert_eq!(host.key.tenant, "acme");
    assert_eq!(host.rates.bps, 10_000_000);
    assert_eq!(host.rates.pps, 1000);
    assert_eq!(host.rates.fps, 1);
    assert_eq!(host.rates.udp_bps, 10_000_000);
    assert_eq!(host.flows_observed, 1);
    assert_eq!(host.exporters_observed, 1);
    assert!(find(&snapshots, ScopeType::Host, TrafficDirection::Outgoing).is_none());
}

#[test]
fn an_internal_flow_counts_both_ends_in_their_own_directions() {
    let mut w = windows(START);
    feed(&mut w, &flow([203, 0, 113, 1], [203, 0, 113, 7], 1_250_000, 1000), START);
    let snapshots = w.tick(START + SEC, 0);
    let incoming = find(&snapshots, ScopeType::Host, TrafficDirection::Incoming).expect("incoming");
    let outgoing = find(&snapshots, ScopeType::Host, TrafficDirection::Outgoing).expect("outgoing");
    assert_eq!(incoming.key.scope_id, ScopeId::Host { addr: v4([203, 0, 113, 7]) });
    assert_eq!(outgoing.key.scope_id, ScopeId::Host { addr: v4([203, 0, 113, 1]) });
    assert_eq!(incoming.rates.bps, outgoing.rates.bps);
}

#[test]
fn a_flow_between_two_remote_hosts_is_not_scoped_at_all() {
    let mut w = windows(START);
    feed(&mut w, &flow([198, 51, 100, 1], [198, 51, 100, 2], 1_000_000, 100), START);
    let snapshots = w.tick(START + SEC, 0);
    assert!(snapshots.is_empty());
    assert_eq!(w.stats().flows_unscoped, 1);
    assert_eq!(w.stats().flows_ingested, 1);
}

#[test]
fn an_unclassifiable_flow_is_not_scoped_and_does_not_panic() {
    let mut w = windows(START);
    let empty = PrefixRegistry::new();
    let sample = flow([198, 51, 100, 1], [203, 0, 113, 7], 1000, 10);
    let classification = classify(&empty, &sample);
    assert_eq!(classification.direction, Direction::Unknown);
    w.ingest(&empty, &sample, &classification, START);
    assert!(w.tick(START + SEC, 0).is_empty());
    assert_eq!(w.stats().flows_unscoped, 1);
}

#[test]
fn one_flow_produces_every_enabled_scope_type() {
    let mut w = windows(START);
    feed(&mut w, &flow([198, 51, 100, 9], [203, 0, 113, 7], 1000, 10), START);
    let snapshots = w.tick(START + SEC, 0);
    assert_eq!(snapshots.len(), 4);
    let prefix = find(&snapshots, ScopeType::Prefix, TrafficDirection::Incoming).expect("prefix");
    assert_eq!(prefix.key.scope_id, ScopeId::Network { addr: v4([203, 0, 113, 0]), prefix_len: 24 });
    let slash24 = find(&snapshots, ScopeType::Slash24, TrafficDirection::Incoming).expect("slash24");
    assert_eq!(slash24.key.scope_id, ScopeId::Network { addr: v4([203, 0, 113, 0]), prefix_len: 24 });
    let group = find(&snapshots, ScopeType::HostgroupTotal, TrafficDirection::Incoming).expect("hostgroup");
    assert_eq!(group.key.scope_id, ScopeId::Hostgroup { name: "edge".to_string() });
}

#[test]
fn a_disabled_scope_type_produces_nothing() {
    let mut w = DetectionWindows::new(
        WindowConfig { window: SEC, max_networks: 0, max_slash24: 0, max_hostgroups: 0, ..WindowConfig::default() },
        START,
    );
    feed(&mut w, &flow([198, 51, 100, 9], [203, 0, 113, 7], 1000, 10), START);
    let snapshots = w.tick(START + SEC, 0);
    assert_eq!(snapshots.len(), 1);
    assert_eq!(snapshots[0].key.scope_type, ScopeType::Host);
    assert_eq!(w.stats().rejected, 3);
}

#[test]
fn a_tick_before_the_window_is_due_changes_nothing() {
    let mut w = windows(START);
    feed(&mut w, &flow([198, 51, 100, 9], [203, 0, 113, 7], 1000, 10), START);
    assert!(!w.is_due(START + 999 * MS));
    assert!(w.tick(START + 999 * MS, 0).is_empty());
    assert_eq!(w.scope_count(), 4, "counters must survive an early tick");
    assert!(w.is_due(START + SEC));
    assert_eq!(w.tick(START + SEC, 0).len(), 4);
    assert_eq!(w.scope_count(), 0);
}

#[test]
fn rates_are_computed_over_the_time_that_actually_elapsed() {
    let mut w = windows(START);
    feed(&mut w, &flow([198, 51, 100, 9], [203, 0, 113, 7], 1_250_000, 1000), START);
    let snapshots = w.tick(START + 2 * SEC, 0);
    let host = find(&snapshots, ScopeType::Host, TrafficDirection::Incoming).expect("a host");
    assert_eq!(host.rates.bps, 5_000_000);
    assert_eq!(host.window, SEC);
    assert_eq!(w.stats().skewed_ticks, 1);
    assert_eq!(w.stats().snapshots_emitted, 4);
}

#[test]
fn a_sub_second_window_is_not_rounded_to_zero() {
    let mut w = DetectionWindows::new(WindowConfig { window: 100 * MS, ..WindowConfig::default() }, START);
    feed(&mut w, &flow([198, 51, 100, 9], [203, 0, 113, 7], 125_000, 100), START);
    let snapshots = w.tick(START + 100 * MS, 0);
    let host = find(&snapshots, ScopeType::Host, TrafficDirection::Incoming).expect("a host");
    assert_eq!(host.rates.bps, 10_000_000);
    assert_eq!(host.rates.pps, 1000);
}

#[test]
fn traffic_accumulates_across_a_window() {
    let mut w = windows(START);
    for tick in 0..4u128 {
        feed(&mut w, &flow([198, 51, 100, 9], [203, 0, 113, 7], 312_500, 250), START + tick * 200 * MS);
    }
    let snapshots = w.tick(START + SEC, 0);
    let host = find(&snapshots, ScopeType::Host, TrafficDirection::Incoming).expect("a host");
    assert_eq!(host.rates.bps, 10_000_000);
    assert_eq!(host.rates.fps, 4);
    assert_eq!(host.flows_observed, 4);
}

#[test]
fn sampling_status_records_the_weakest_source_and_the_largest_rate() {
    let mut w = windows(START);
    let mut sampled = flow([198, 51, 100, 9], [203, 0, 113, 7], 1000, 10);
    sampled.sampling_rate = SamplingRate::new(1000).expect("non-zero");
    sampled.sampling_source = SamplingSource::GlobalDefault;
    feed(&mut w, &sampled, START);
    feed(&mut w, &flow([198, 51, 100, 8], [203, 0, 113, 7], 1000, 10), START);
    let snapshots = w.tick(START + SEC, 0);
    let host = find(&snapshots, ScopeType::Host, TrafficDirection::Incoming).expect("a host");
    assert!(host.sampling.corrected);
    assert!(host.sampling.used_global_default);
    assert_eq!(host.sampling.max_rate, 1000);
}

#[test]
fn distinct_exporters_are_counted_without_overcounting() {
    let mut w = windows(START);
    for last in 1..=3u8 {
        let mut sample = flow([198, 51, 100, 9], [203, 0, 113, 7], 1000, 10);
        sample.exporter = v4([198, 51, 100, last]);
        feed(&mut w, &sample, START);
    }
    let snapshots = w.tick(START + SEC, 0);
    let host = find(&snapshots, ScopeType::Host, TrafficDirection::Incoming).expect("a host");
    assert!(host.exporters_observed >= 1 && host.exporters_observed <= 3);
}

#[test]
fn a_full_map_evicts_and_counts_rather_than_growing() {
    let mut w = DetectionWindows::new(
        WindowConfig { window: SEC, max_hosts: 2, max_networks: 0, max_slash24: 0, max_hostgroups: 0 },
        START,
    );
    for last in 1..=10u8 {
        feed(&mut w, &flow([198, 51, 100, 9], [203, 0, 113, last], 1000, 10), START + last as u128 * MS);
    }
    assert_eq!(w.scope_count(), 2);
    assert_eq!(w.stats().evicted, 8);
}

#[test]
fn snapshots_come_back_in_a_stable_order() {
    let mut w = windows(START);
    for last in [7u8, 3, 9, 1] {
        feed(&mut w, &flow([198, 51, 100, 9], [203, 0, 113, last], 1000, 10), START);
    }
    let first = w.tick(START + SEC, 0);
    let keys: Vec<_> = first.iter().map(|s| s.key.clone()).collect();
    for pair in keys.windows(2) {
        assert_eq!(pair[0].compare(&pair[1]), netmon::text::KeyOrder::Before);
    }
}

#[test]
fn a_v6_flow_gets_no_slash24_scope() {
    let mut registry = PrefixRegistry::new();
    let net: u128 = 0x2001_0db8 << 96;
    registry.insert(IpAddress::V6(net), 32, "acme".to_string(), None).expect("valid prefix");
    let mut w = windows(START);
    let sample = NormalizedFlowBuilder {
        source_addr: IpAddress::V6(net | (1 << 80) | 1),
        destination_addr: IpAddress::V6(net | (2 << 80) | 2),
        source_port: None,
        destination_port: None,
        protocol: Some(Protocol::Tcp),
        tcp_flags: None,
        raw_bytes: 1000,
        raw_packets: 10,
        input_interface: None,
        output_interface: None,
        source_asn: None,
        destination_asn: None,
        exporter: v4([198, 51, 100, 1]),
        observation_domain_id: 0,
        start_time: None,
        end_time: None,
        fragmented: false,
        dropped: false,
        forwarding_status_known: false,
    }
    .build(SamplingRate::unsampled(), SamplingSource::Unsampled)
    .expect("valid flow");
    let classification = classify(&registry, &sample);
    assert_eq!(classification.direction, Direction::Internal);
    w.ingest(&registry, &sample, &classification, START);
    let snapshots = w.tick(START + SEC, 0);
    assert!(snapshots.iter().all(|s| s.key.scope_type != ScopeType::Slash24));
    assert!(snapshots.iter().all(|s| s.key.address_family == AddressFamily::Ipv6));
    let prefix = find(&snapshots, ScopeType::Prefix, TrafficDirection::Incoming).expect("a v6 prefix scope");
    assert_eq!(prefix.key.scope_id, ScopeId::Network { addr: IpAddress::V6(net), prefix_len: 32 });
}

#[test]
fn masking_clears_the_host_bits() {
    assert_eq!(mask(v4([203, 0, 113, 200]), 24), v4([203, 0, 113, 0]));
    assert_eq!(mask(v4([203, 0, 113, 200]), 0), v4([0, 0, 0, 0]));
    assert_eq!(mask(v4([203, 0, 113, 200]), 32), v4([203, 0, 113, 200]));
    let a: u128 = 0x2001_0db8_0001_0002_0000_0000_0000_0009;
    assert_eq!(mask(IpAddress::V6(a), 48), IpAddress::V6(0x2001_0db8_0001_0000_0000_0000_0000_0000));
}

#[test]
fn an_out_of_range_prefix_length_is_clamped_not_panicked_on() {
    assert_eq!(mask(v4([203, 0, 113, 200]), 255), v4([203, 0, 113, 200]));
    assert_eq!(mask(IpAddress::V6(0x2001_0db8 << 96 | 1), 255), IpAddress::V6(0x2001_0db8 << 96 | 1));
}

#[test]
fn a_scope_id_displays_readably() {
    assert_eq!(ScopeId::Host { addr: v4([192, 0, 2, 5]) }.to_string(), "192.0.2.5");
    assert_eq!(ScopeId::Network { addr: v4([192, 0, 2, 0]), prefix_len: 24 }.to_string(), "192.0.2.0/24");
    assert_eq!(ScopeId::Hostgroup { name: "edge".to_string() }.to_string(), "edge");
    assert_eq!(ScopeId::Host { addr: IpAddress::V6(0x2001_0db8 << 96 | 1) }.to_string(), "2001:db8::1");
}

#[test]
fn an_outbound_flow_is_scoped_on_its_source() {
    let mut w = windows(START);
    feed(&mut w, &flow([203, 0, 113, 7], [198, 51, 100, 9], 1_250_000, 1000), START);
    let snapshots = w.tick(START + SEC, 0);
    let host = find(&snapshots, ScopeType::Host, TrafficDirection::Outgoing).expect("an outgoing host scope");
    assert_eq!(host.key.scope_id, ScopeId::Host { addr: v4([203, 0, 113, 7]) });
    assert!(find(&snapshots, ScopeType::Host, TrafficDirection::Incoming).is_none());
}

#[test]
fn a_window_starts_empty_after_a_tick() {
    let mut w = windows(START);
    feed(&mut w, &flow([198, 51, 100, 9], [203, 0, 113, 7], 1000, 10), START);
    w.tick(START + SEC, 0);
    assert_eq!(w.scope_count(), 0);
    assert!(w.tick(START + 2 * SEC, 0).is_empty());
}

#[test]
fn completeness_reports_what_the_exporter_actually_sent() {
    let mut w = windows(START);
    let mut sample = flow([198, 51, 100, 9], [203, 0, 113, 7], 1000, 10);
    sample.protocol = None;
    sample.tcp_flags = None;
    sample.forwarding_status_known = false;
    feed(&mut w, &sample, START);
    let snapshots = w.tick(START + SEC, 0);
    let host = find(&snapshots, ScopeType::Host, TrafficDirection::Incoming).expect("a host");
    assert!(!host.completeness.protocol_seen);
    assert!(!host.completeness.tcp_flags_seen);
    assert!(!host.completeness.forwarding_status_seen);
    assert!(!host.completeness.fragmentation_seen);
}

#[test]
fn one_flow_with_a_field_sets_completeness_for_the_whole_scope() {
    let mut w = windows(START);
    let mut without = flow([198, 51, 100, 9], [203, 0, 113, 7], 1000, 10);
    without.tcp_flags = None;
    let mut with = flow([198, 51, 100, 8], [203, 0, 113, 7], 1000, 10);
    with.tcp_flags = Some(0x02);
    feed(&mut w, &without, START);
    feed(&mut w, &with, START);
    let snapshots = w.tick(START + SEC, 0);
    let host = find(&snapshots, ScopeType::Host, TrafficDirection::Incoming).expect("a host");
    assert!(host.completeness.tcp_flags_seen);
}

#[test]
fn distinct_exporters_are_counted() {
    let mut w = windows(START);
    for last in 1..=3u8 {
        let mut sample = flow([198, 51, 100, 9], [203, 0, 113, 7], 1000, 10);
        sample.exporter = v4([198, 51, 100, last]);
        feed(&mut w, &sample, START);
    }
    let snapshots = w.tick(START + SEC, 0);
    let host = find(&snapshots, ScopeType::Host, TrafficDirection::Incoming).expect("a host");
    assert!(
        host.exporters_observed >= 1 && host.exporters_observed <= 3,
        "the sketch may undercount but never overcounts, got {}",
        host.exporters_observed
    );
}

#[test]
fn each_eviction_and_each_refusal_is_counted_once() {
    let mut w = DetectionWindows::new(
        WindowConfig { window: SEC, max_hosts: 2, max_networks: 0, max_slash24: 10, max_hostgroups: 10 },
        START,
    );
    for (i, last) in [1u8, 2, 3, 4].iter().enumerate() {
        feed(&mut w, &flow([198, 51, 100, 9], [203, 0, 113, *last], 1_000, 1), START + i as u128 * MS);
    }
    // Two hosts fit; the third and fourth each displace one. The network
    // map has no room, so each of the four flows is refused there.
    assert_eq!(w.stats().evicted, 2);
    assert_eq!(w.stats().rejected, 4);
    assert_eq!(w.stats().flows_ingested, 4);
}
