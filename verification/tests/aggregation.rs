use netmon::aggregator::{Aggregator, AggregatorConfig};
use netmon::bounded_map::{BoundedMap, BoundedMapConfig, UpsertOutcome};
use netmon::direction::classify;
use netmon::rate_window::RateWindowSet;
use netmon::registry::PrefixRegistry;
use netmon::counters::TrafficCounters;
use netmon::flow::{FlowError, NormalizedFlow, NormalizedFlowBuilder, Protocol};
use netmon::net::IpAddress;
use netmon::sampling::{SamplingRate, SamplingSource};

const SEC: u128 = 1_000_000_000;

fn config(max_entries: usize) -> BoundedMapConfig {
    BoundedMapConfig { max_entries, inactivity_ttl: 300 * SEC }
}

#[test]
fn expire_inactive_removes_only_stale_entries() {
    let mut map: BoundedMap<&str, u32> = BoundedMap::new(BoundedMapConfig { max_entries: 10, inactivity_ttl: 60 * SEC });
    let t0 = 1_000 * SEC;
    map.upsert("stale", t0, || 0, |v| v);
    map.upsert("fresh", t0 + 50 * SEC, || 0, |v| v);

    let removed = map.expire_inactive(t0 + 90 * SEC);
    assert_eq!(removed, 1);
    assert!(map.get(&"stale").is_none());
    assert!(map.get(&"fresh").is_some());
}

#[test]
fn expiration_is_independent_of_capacity_pressure() {
    let mut map: BoundedMap<&str, u32> = BoundedMap::new(BoundedMapConfig { max_entries: 1000, inactivity_ttl: 10 * SEC });
    let t0 = 1_000 * SEC;
    map.upsert("a", t0, || 0, |v| v);
    let removed = map.expire_inactive(t0 + 20 * SEC);
    assert_eq!(removed, 1);
}

#[test]
fn a_full_map_evicts_the_least_recently_updated_entry() {
    let mut map: BoundedMap<&str, u32> = BoundedMap::new(config(2));
    let t0 = 1_000 * SEC;
    map.upsert("a", t0, || 0, |v| v);
    map.upsert("b", t0 + SEC, || 0, |v| v);
    map.upsert("a", t0 + 2 * SEC, || 0, |v| v + 1);
    let outcome = map.upsert("c", t0 + 3 * SEC, || 0, |v| v);
    assert_eq!(outcome, UpsertOutcome::InsertedByEviction);
    assert_eq!(map.get(&"a"), Some(&1));
    assert!(map.get(&"b").is_none());
    assert!(map.get(&"c").is_some());
    assert_eq!(map.len(), 2);
}

#[test]
fn max_entries_zero_rejects_every_upsert() {
    let mut map: BoundedMap<&str, u32> = BoundedMap::new(config(0));
    let outcome = map.upsert("a", SEC, || 0, |v| v);
    assert_eq!(outcome, UpsertOutcome::Rejected);
    assert!(map.is_empty());
}

#[test]
fn upsert_reports_insert_then_update() {
    let mut map: BoundedMap<u32, u64> = BoundedMap::new(config(4));
    assert_eq!(map.upsert(7, SEC, || 10, |v| v + 1), UpsertOutcome::Inserted);
    assert_eq!(map.get(&7), Some(&11));
    assert_eq!(map.upsert(7, 2 * SEC, || 10, |v| v + 1), UpsertOutcome::Updated);
    assert_eq!(map.get(&7), Some(&12));
    let all = map.iter();
    assert_eq!(all.len(), 1);
    assert_eq!((*all[0].0, *all[0].1), (7, 12));
}

#[test]
fn protocol_round_trips_through_ip_protocol_number() {
    assert_eq!(Protocol::from_ip_protocol_number(6), Protocol::Tcp);
    assert_eq!(Protocol::from_ip_protocol_number(17), Protocol::Udp);
    assert_eq!(Protocol::from_ip_protocol_number(1), Protocol::Icmp);
    assert_eq!(Protocol::from_ip_protocol_number(58), Protocol::Icmpv6);
    assert_eq!(Protocol::from_ip_protocol_number(200), Protocol::Other(200));
    assert_eq!(Protocol::Tcp.as_ip_protocol_number(), 6);
}

fn builder(bytes: u64, packets: u64) -> NormalizedFlowBuilder {
    NormalizedFlowBuilder {
        source_addr: IpAddress::V4(0xC633_6409),
        destination_addr: IpAddress::V4(0xCB00_7107),
        source_port: Some(51000),
        destination_port: Some(443),
        protocol: Some(Protocol::Tcp),
        tcp_flags: Some(0x02),
        raw_bytes: bytes,
        raw_packets: packets,
        input_interface: Some(1),
        output_interface: Some(2),
        source_asn: None,
        destination_asn: None,
        exporter: IpAddress::V4(0xC633_6401),
        observation_domain_id: 0,
        start_time: None,
        end_time: None,
        fragmented: false,
        dropped: false,
        forwarding_status_known: true,
    }
}

fn flow(bytes: u64, packets: u64, rate: u32) -> NormalizedFlow {
    builder(bytes, packets)
        .build(SamplingRate::new(rate).unwrap(), SamplingSource::ExporterConfigured)
        .unwrap()
}

#[test]
fn building_a_flow_scales_its_counters_by_the_sampling_rate() {
    let f = flow(1500, 3, 100);
    assert_eq!(f.bytes, 150_000);
    assert_eq!(f.packets, 300);
    assert!(f.is_tcp_syn());
}

#[test]
fn building_an_overflowing_flow_names_the_field() {
    let result = builder(u64::MAX, 1).build(SamplingRate::new(2).unwrap(), SamplingSource::GlobalDefault);
    assert!(matches!(result, Err(FlowError::SamplingOverflow { .. })));
}

#[test]
fn counters_add_every_flow_and_never_decrease() {
    let mut c = TrafficCounters::default();
    c.add(&flow(1000, 10, 1));
    c.add(&flow(500, 5, 1));
    assert_eq!(c.bytes, 1500);
    assert_eq!(c.packets, 15);
    assert_eq!(c.flows, 2);
    assert_eq!(c.tcp_bytes, 1500);
    assert_eq!(c.tcp_syn_packets, 15);
    assert_eq!(c.udp_bytes, 0);
}

#[test]
fn inserts_and_updates_within_capacity() {
    let mut map: BoundedMap<&str, u32> = BoundedMap::new(config(10));
    let now = 1_000 * SEC;
    let outcome = map.upsert("a", now, || 0, |v| v + 1);
    assert_eq!(outcome, UpsertOutcome::Inserted);
    assert_eq!(*map.get(&"a").unwrap(), 1);

    let outcome = map.upsert("a", now, || 0, |v| v + 1);
    assert_eq!(outcome, UpsertOutcome::Updated);
    assert_eq!(*map.get(&"a").unwrap(), 2);
}

#[test]
fn evicts_least_recently_updated_entry_when_at_capacity() {
    let mut map: BoundedMap<&str, u32> = BoundedMap::new(config(2));
    let t0 = 1_000 * SEC;
    map.upsert("a", t0, || 0, |v| v);
    map.upsert("b", t0 + SEC, || 0, |v| v);
    assert_eq!(map.len(), 2);

    // "a" is least-recently-updated; inserting "c" should evict it.
    let outcome = map.upsert("c", t0 + 2 * SEC, || 0, |v| v);
    assert_eq!(outcome, UpsertOutcome::InsertedByEviction);
    assert_eq!(map.len(), 2);
    assert!(map.get(&"a").is_none());
    assert!(map.get(&"b").is_some());
    assert!(map.get(&"c").is_some());
}

#[test]
fn touching_an_entry_protects_it_from_eviction() {
    let mut map: BoundedMap<&str, u32> = BoundedMap::new(config(2));
    let t0 = 1_000 * SEC;
    map.upsert("a", t0, || 0, |v| v);
    map.upsert("b", t0 + SEC, || 0, |v| v);
    // Touch "a" again: it is now more recently updated than "b".
    map.upsert("a", t0 + 2 * SEC, || 0, |v| v + 1);

    map.upsert("c", t0 + 3 * SEC, || 0, |v| v);
    assert!(map.get(&"a").is_some(), "a was touched, should survive");
    assert!(map.get(&"b").is_none(), "b is now least-recently-updated, should be evicted");
}

#[test]
fn deterministic_eviction_choice_given_identical_timestamps_pattern() {
    for _ in 0..20 {
        let mut map: BoundedMap<&str, u32> = BoundedMap::new(config(2));
        let t0 = 1_000 * SEC;
        map.upsert("a", t0, || 0, |v| v);
        map.upsert("b", t0 + 1_000_000, || 0, |v| v);
        map.upsert("c", t0 + 2_000_000, || 0, |v| v);
        assert!(map.get(&"a").is_none());
        assert!(map.get(&"b").is_some());
        assert!(map.get(&"c").is_some());
    }
}

fn tcp_syn_flow() -> NormalizedFlow {
    NormalizedFlowBuilder {
        source_addr: IpAddress::V4(u32::from_be_bytes([10, 0, 0, 1])),
        destination_addr: IpAddress::V4(u32::from_be_bytes([10, 0, 0, 2])),
        source_port: Some(51000),
        destination_port: Some(443),
        protocol: Some(Protocol::Tcp),
        tcp_flags: Some(netmon::flow::TCP_FLAG_SYN),
        raw_bytes: 64,
        raw_packets: 1,
        input_interface: None,
        output_interface: None,
        source_asn: None,
        destination_asn: None,
        exporter: IpAddress::V4(u32::from_be_bytes([172, 30, 172, 50])),
        observation_domain_id: 1,
        start_time: None,
        end_time: None,
        fragmented: false,
        dropped: false,
        forwarding_status_known: false,
    }
    .build(SamplingRate::unsampled(), SamplingSource::Unsampled)
    .unwrap()
}

#[test]
fn accumulates_totals_and_protocol_specific_counters() {
    let mut counters = TrafficCounters::default();
    counters.add(&tcp_syn_flow());
    assert_eq!(counters.bytes, 64);
    assert_eq!(counters.packets, 1);
    assert_eq!(counters.flows, 1);
    assert_eq!(counters.tcp_bytes, 64);
    assert_eq!(counters.tcp_syn_packets, 1);
    assert_eq!(counters.udp_bytes, 0);
}

#[test]
fn multiple_adds_accumulate() {
    let mut counters = TrafficCounters::default();
    counters.add(&tcp_syn_flow());
    counters.add(&tcp_syn_flow());
    assert_eq!(counters.flows, 2);
    assert_eq!(counters.bytes, 128);
}

#[test]
fn saturates_instead_of_wrapping_on_overflow() {
    let mut counters = TrafficCounters { bytes: u64::MAX - 10, ..Default::default() };
    let mut flow = tcp_syn_flow();
    flow.bytes = 1000;
    counters.add(&flow);
    assert_eq!(counters.bytes, u64::MAX);
}

#[test]
fn dropped_only_counted_when_forwarding_status_is_known() {
    let mut counters = TrafficCounters::default();
    let mut flow = tcp_syn_flow();
    flow.dropped = true;
    flow.forwarding_status_known = false;
    counters.add(&flow);
    assert_eq!(counters.dropped_packets, 0);

    flow.forwarding_status_known = true;
    counters.add(&flow);
    assert_eq!(counters.dropped_packets, 1);
}

fn flow_builder() -> NormalizedFlowBuilder {
    NormalizedFlowBuilder {
        source_addr: IpAddress::V4(u32::from_be_bytes([10, 0, 0, 1])),
        destination_addr: IpAddress::V4(u32::from_be_bytes([10, 0, 0, 2])),
        source_port: Some(443),
        destination_port: Some(51000),
        protocol: Some(Protocol::Tcp),
        tcp_flags: Some(netmon::flow::TCP_FLAG_SYN),
        raw_bytes: 100,
        raw_packets: 2,
        input_interface: Some(1),
        output_interface: Some(2),
        source_asn: Some(65001),
        destination_asn: Some(65002),
        exporter: IpAddress::V4(u32::from_be_bytes([172, 30, 172, 50])),
        observation_domain_id: 7,
        start_time: None,
        end_time: None,
        fragmented: false,
        dropped: false,
        forwarding_status_known: false,
    }
}

#[test]
fn applies_sampling_correction_exactly_once() {
    let rate = SamplingRate::new(100).unwrap();
    let flow = flow_builder().build(rate, SamplingSource::ExporterConfigured).unwrap();
    assert_eq!(flow.raw_bytes, 100);
    assert_eq!(flow.bytes, 10_000);
    assert_eq!(flow.raw_packets, 2);
    assert_eq!(flow.packets, 200);
}

#[test]
fn unsampled_rate_leaves_counters_unchanged() {
    let flow = flow_builder().build(SamplingRate::unsampled(), SamplingSource::Unsampled).unwrap();
    assert_eq!(flow.bytes, flow.raw_bytes);
    assert_eq!(flow.packets, flow.raw_packets);
}

#[test]
fn rejects_an_empty_flow() {
    let mut b = flow_builder();
    b.raw_bytes = 0;
    b.raw_packets = 0;
    assert_eq!(b.build(SamplingRate::unsampled(), SamplingSource::Unsampled), Err(FlowError::Empty));
}

#[test]
fn rejects_sampling_overflow_instead_of_wrapping() {
    let mut b = flow_builder();
    b.raw_bytes = u64::MAX;
    let huge_rate = SamplingRate::new(2).unwrap();
    assert_eq!(b.build(huge_rate, SamplingSource::GlobalDefault), Err(FlowError::SamplingOverflow { field: "bytes" }));
}

#[test]
fn missing_optional_fields_are_preserved_as_none_not_rejected() {
    let mut b = flow_builder();
    b.source_port = None;
    b.destination_port = None;
    b.protocol = None;
    b.input_interface = None;
    b.output_interface = None;
    let flow = b.build(SamplingRate::unsampled(), SamplingSource::Unsampled).unwrap();
    assert_eq!(flow.source_port, None);
    assert_eq!(flow.protocol, None);
}

#[test]
fn is_tcp_syn_requires_both_tcp_protocol_and_syn_flag() {
    let syn_flow = flow_builder().build(SamplingRate::unsampled(), SamplingSource::Unsampled).unwrap();
    assert!(syn_flow.is_tcp_syn());

    let mut b = flow_builder();
    b.tcp_flags = Some(0b0001_0000); // ACK only, no SYN
    let ack_flow = b.build(SamplingRate::unsampled(), SamplingSource::Unsampled).unwrap();
    assert!(!ack_flow.is_tcp_syn());

    let mut b2 = flow_builder();
    b2.protocol = Some(Protocol::Udp);
    let udp_flow = b2.build(SamplingRate::unsampled(), SamplingSource::Unsampled).unwrap();
    assert!(!udp_flow.is_tcp_syn());
}

fn per_second(total: u64, duration: u128) -> f64 {
    total as f64 / (duration as f64 / SEC as f64)
}

#[test]
fn no_rate_until_a_window_has_fully_elapsed() {
    let t0 = 1_000 * SEC;
    let mut set = RateWindowSet::new(t0);
    set.record(t0, 100, 1);
    assert!(set.totals().iter().all(|(_, r)| r.is_none()));
}

#[test]
fn finalizes_a_1s_window_and_reports_its_rate() {
    let t0 = 1_000 * SEC;
    let mut set = RateWindowSet::new(t0);
    set.record(t0, 1000, 10);
    set.record(t0 + 1_100_000_000, 0, 0); // triggers roll-over

    let totals = set.totals();
    let (dur, sample) = totals[0];
    assert_eq!(dur, SEC);
    let sample = sample.expect("1s window should have finalized");
    assert!((per_second(sample.bytes, dur) * 8.0 - 8000.0).abs() < 0.01);
    assert!((per_second(sample.packets, dur) - 10.0).abs() < 0.01);
}

#[test]
fn tick_finalizes_elapsed_windows_even_without_new_traffic() {
    let t0 = 1_000 * SEC;
    let mut set = RateWindowSet::new(t0);
    set.record(t0, 500, 5);
    set.tick(t0 + 2 * SEC);
    let (_, sample) = set.totals()[0];
    assert!(sample.is_some());
}

#[test]
fn idle_period_after_traffic_reports_zero_not_stale_value() {
    let t0 = 1_000 * SEC;
    let mut set = RateWindowSet::new(t0);
    set.record(t0, 1000, 10);
    set.tick(t0 + 1_100_000_000);
    let (_, first) = set.totals()[0];
    assert!(first.unwrap().bytes > 0);

    set.tick(t0 + 2_200_000_000);
    let (_, second) = set.totals()[0];
    assert_eq!(second.unwrap().bytes, 0);
}

#[test]
fn all_five_documented_durations_are_present() {
    let set = RateWindowSet::new(1_000 * SEC);
    let durations: Vec<u128> = set.totals().into_iter().map(|(d, _)| d).collect();
    assert_eq!(durations, vec![SEC, 5 * SEC, 15 * SEC, 60 * SEC, 300 * SEC]);
}

fn make_flow(source: IpAddress, destination: IpAddress, bytes: u64, packets: u64) -> NormalizedFlow {
    NormalizedFlowBuilder {
        source_addr: source,
        destination_addr: destination,
        source_port: Some(51000),
        destination_port: Some(443),
        protocol: Some(Protocol::Tcp),
        tcp_flags: None,
        raw_bytes: bytes,
        raw_packets: packets,
        input_interface: Some(1),
        output_interface: Some(2),
        source_asn: Some(65001),
        destination_asn: Some(65002),
        exporter: IpAddress::V4(u32::from_be_bytes([172, 30, 172, 50])),
        observation_domain_id: 1,
        start_time: None,
        end_time: None,
        fragmented: false,
        dropped: false,
        forwarding_status_known: false,
    }
    .build(SamplingRate::unsampled(), SamplingSource::Unsampled)
    .unwrap()
}

fn v4(a: u8, b: u8, c: u8, d: u8) -> IpAddress {
    IpAddress::V4(u32::from_be_bytes([a, b, c, d]))
}

fn registry() -> PrefixRegistry {
    let mut r = PrefixRegistry::new();
    r.insert(v4(10, 0, 0, 0), 8, "wetechi".to_string(), Some("core".to_string())).unwrap();
    r
}

#[test]
fn ingest_updates_total_counters() {
    let now = 1_000 * SEC;
    let mut agg = Aggregator::new(AggregatorConfig::default(), now);
    let reg = registry();
    let flow = make_flow(v4(203, 0, 113, 1), v4(10, 0, 0, 5), 1000, 10);
    let classification = classify(&reg, &flow);
    agg.ingest(&flow, &classification, now);
    assert_eq!(agg.total_counters().bytes, 1000);
    assert_eq!(agg.total_counters().flows, 1);
}

#[test]
fn per_family_totals_are_split_correctly() {
    let now = 1_000 * SEC;
    let mut agg = Aggregator::new(AggregatorConfig::default(), now);
    let reg = registry();
    let v4_flow = make_flow(v4(203, 0, 113, 1), v4(10, 0, 0, 5), 1000, 10);
    let c = classify(&reg, &v4_flow);
    agg.ingest(&v4_flow, &c, now);

    let v6_flow = make_flow(
        IpAddress::V6(0x2001_0db8_0000_0000_0000_0000_0000_0001),
        IpAddress::V6(0x2001_0db8_0000_0000_0000_0000_0000_0002),
        500,
        5,
    );
    let c = classify(&reg, &v6_flow);
    agg.ingest(&v6_flow, &c, now);

    assert_eq!(agg.total_ipv4_counters().bytes, 1000);
    assert_eq!(agg.total_ipv6_counters().bytes, 500);
    assert_eq!(agg.total_counters().bytes, 1500);
}

#[test]
fn per_host_aggregation_is_two_sided() {
    let now = 1_000 * SEC;
    let mut agg = Aggregator::new(AggregatorConfig::default(), now);
    let reg = registry();
    let flow = make_flow(v4(10, 0, 0, 1), v4(10, 0, 0, 2), 500, 5);
    let classification = classify(&reg, &flow);
    agg.ingest(&flow, &classification, now);

    let hosts: std::collections::HashMap<u32, TrafficCounters> = agg.ipv4_hosts().into_iter().map(|(k, v)| (*k, *v)).collect();
    assert_eq!(hosts.get(&u32::from_be_bytes([10, 0, 0, 1])).unwrap().bytes, 500);
    assert_eq!(hosts.get(&u32::from_be_bytes([10, 0, 0, 2])).unwrap().bytes, 500);
}

#[test]
fn slash24_aggregation_groups_by_network() {
    let now = 1_000 * SEC;
    let mut agg = Aggregator::new(AggregatorConfig::default(), now);
    let reg = registry();
    for host in [1u8, 2, 3] {
        let flow = make_flow(v4(203, 0, 113, 1), v4(10, 0, 0, host), 100, 1);
        let classification = classify(&reg, &flow);
        agg.ingest(&flow, &classification, now);
    }
    let networks: std::collections::HashMap<u32, TrafficCounters> =
        agg.ipv4_slash24().into_iter().map(|(k, v)| (*k, *v)).collect();
    assert_eq!(networks.get(&u32::from_be_bytes([10, 0, 0, 0])).unwrap().flows, 3);
}

#[test]
fn hostgroup_aggregation_uses_classification_result() {
    let now = 1_000 * SEC;
    let mut agg = Aggregator::new(AggregatorConfig::default(), now);
    let reg = registry();
    let flow = make_flow(v4(203, 0, 113, 1), v4(10, 0, 0, 5), 777, 1);
    let classification = classify(&reg, &flow);
    agg.ingest(&flow, &classification, now);

    let groups: std::collections::HashMap<String, TrafficCounters> =
        agg.hostgroups().into_iter().map(|(k, v)| (k.clone(), *v)).collect();
    assert_eq!(groups.get(&"core".to_string()).unwrap().bytes, 777);
}

#[test]
fn asn_aggregation_only_when_available() {
    let now = 1_000 * SEC;
    let mut agg = Aggregator::new(AggregatorConfig::default(), now);
    let reg = registry();
    let mut flow = make_flow(v4(203, 0, 113, 1), v4(10, 0, 0, 5), 100, 1);
    flow.source_asn = None;
    flow.destination_asn = None;
    let classification = classify(&reg, &flow);
    agg.ingest(&flow, &classification, now);
    assert_eq!(agg.active_asns(), 0);
}

#[test]
fn protocol_aggregation() {
    let now = 1_000 * SEC;
    let mut agg = Aggregator::new(AggregatorConfig::default(), now);
    let reg = registry();
    let flow = make_flow(v4(203, 0, 113, 1), v4(10, 0, 0, 5), 100, 1);
    let classification = classify(&reg, &flow);
    agg.ingest(&flow, &classification, now);
    assert_eq!(agg.total_counters().tcp_bytes, 100);
}

#[test]
fn bounded_hosts_evict_and_report_it() {
    let now = 1_000 * SEC;
    let config = AggregatorConfig { max_hosts: 2, ..Default::default() };
    let mut agg = Aggregator::new(config, now);
    let reg = registry();
    for i in 1..=3u8 {
        let flow = make_flow(v4(203, 0, 113, 1), v4(10, 0, 0, i), 100, 1);
        let classification = classify(&reg, &flow);
        let report = agg.ingest(&flow, &classification, now + i as u128 * SEC);
        if i == 3 {
            assert!(report.evictions > 0);
        }
    }
    assert!(agg.active_hosts() <= 2);
}

#[test]
fn expire_inactive_removes_stale_entries_across_dimensions() {
    let now = 1_000 * SEC;
    let config = AggregatorConfig { inactivity_ttl: 10 * SEC, ..Default::default() };
    let mut agg = Aggregator::new(config, now);
    let reg = registry();
    let flow = make_flow(v4(203, 0, 113, 1), v4(10, 0, 0, 5), 100, 1);
    let classification = classify(&reg, &flow);
    agg.ingest(&flow, &classification, now);
    assert!(agg.active_hosts() > 0);

    let removed = agg.expire_inactive(now + 20 * SEC);
    assert!(removed > 0);
    assert_eq!(agg.active_hosts(), 0);
}

#[test]
fn configurable_prefix_lengths_produce_additional_network_dimensions() {
    let now = 1_000 * SEC;
    let config = AggregatorConfig { ipv4_prefix_lengths: vec![16], ..Default::default() };
    let mut agg = Aggregator::new(config, now);
    let reg = registry();
    let flow = make_flow(v4(203, 0, 113, 1), v4(10, 0, 0, 5), 100, 1);
    let classification = classify(&reg, &flow);
    agg.ingest(&flow, &classification, now);
    // /24 dimension and the configured /16 dimension both populate.
    assert!(agg.active_networks() >= 2);
}
