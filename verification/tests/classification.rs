use netmon::direction::{classify, Direction};
use netmon::flow::{NormalizedFlowBuilder, Protocol};
use netmon::net::IpAddress;
use netmon::registry::{build_registry, PrefixConfigEntry, PrefixRegistry, RegistryError};
use netmon::sampling::{SamplingRate, SamplingSource};
use netmon::trie::{PrefixTrie, TrieError};

#[test]
fn empty_trie_matches_nothing() {
    let trie: PrefixTrie<&str> = PrefixTrie::new(32);
    assert!(trie.is_empty());
    assert_eq!(trie.lookup(0x0A00_0001), None);
}

#[test]
fn exact_match_and_longest_prefix_match() {
    let mut trie = PrefixTrie::new(32);
    trie.insert(0x0A00_0000, 8, "site-wide").unwrap();
    trie.insert(0x0A00_0000, 24, "specific-subnet").unwrap();

    let (entry, len) = trie.lookup(0x0A00_0005).unwrap();
    assert_eq!(*entry, "specific-subnet");
    assert_eq!(len, 24);

    let (entry, len) = trie.lookup(0x0A05_0005).unwrap();
    assert_eq!(*entry, "site-wide");
    assert_eq!(len, 8);

    assert_eq!(trie.lookup(0xAC10_0001), None);
}

#[test]
fn detects_exact_duplicate_as_an_error() {
    let mut trie = PrefixTrie::new(32);
    trie.insert(0x0A00_0000, 24, "first").unwrap();
    let result = trie.insert(0x0A00_0000, 24, "second");
    assert_eq!(result, Err(TrieError::DuplicatePrefix));
}

#[test]
fn detects_broader_ancestor_overlap() {
    let mut trie = PrefixTrie::new(32);
    trie.insert(0x0A00_0000, 8, "broad").unwrap();
    let outcome = trie.insert(0x0A00_0000, 24, "narrow").unwrap();
    assert_eq!(outcome.overlaps.len(), 1);
    assert!(outcome.overlaps[0].broader);
    assert_eq!(outcome.overlaps[0].existing_prefix_len, 8);
}

#[test]
fn detects_narrower_descendant_overlap() {
    let mut trie = PrefixTrie::new(32);
    trie.insert(0x0A00_0000, 24, "narrow").unwrap();
    let outcome = trie.insert(0x0A00_0000, 8, "broad").unwrap();
    assert_eq!(outcome.overlaps.len(), 1);
    assert!(!outcome.overlaps[0].broader);
    assert_eq!(outcome.overlaps[0].existing_prefix_len, 24);
}

#[test]
fn non_overlapping_prefixes_report_no_overlap() {
    let mut trie = PrefixTrie::new(32);
    trie.insert(0x0A00_0000, 24, "net-a").unwrap();
    let outcome = trie.insert(0x0A01_0000, 24, "net-b").unwrap();
    assert!(outcome.overlaps.is_empty());
}

#[test]
fn rejects_prefix_length_exceeding_max_bits() {
    let mut trie: PrefixTrie<&str> = PrefixTrie::new(32);
    let result = trie.insert(0, 40, "invalid");
    assert_eq!(result, Err(TrieError::PrefixTooLong(40, 32)));
}

#[test]
fn zero_length_prefix_matches_everything_as_a_fallback() {
    let mut trie = PrefixTrie::new(32);
    trie.insert(0, 0, "default").unwrap();
    assert_eq!(trie.lookup(0x0A00_0001), Some((&"default", 0)));
    assert_eq!(trie.lookup(0xFFFF_FFFF), Some((&"default", 0)));
}

#[test]
fn ipv6_scale_lookup_128_bits() {
    let mut trie: PrefixTrie<&str> = PrefixTrie::new(128);
    let addr: u128 = 0x2001_0db8_0000_0000_0000_0000_0000_0000;
    trie.insert(addr, 32, "v6-net").unwrap();
    let lookup_addr: u128 = 0x2001_0db8_1234_0000_0000_0000_0000_0001;
    assert_eq!(trie.lookup(lookup_addr), Some((&"v6-net", 32)));
}

#[test]
fn deterministic_repeated_lookups_are_identical() {
    let mut trie = PrefixTrie::new(32);
    trie.insert(0x0A00_0000, 8, "a").unwrap();
    trie.insert(0x0A00_0000, 16, "b").unwrap();
    let first = trie.lookup(0x0A00_1234);
    for _ in 0..1000 {
        assert_eq!(trie.lookup(0x0A00_1234), first);
    }
}

#[test]
fn insertion_order_does_not_change_lookups() {
    let mut a = PrefixTrie::new(32);
    a.insert(0x0A00_0000, 8, "wide").unwrap();
    a.insert(0x0A00_0000, 24, "narrow").unwrap();
    let mut b = PrefixTrie::new(32);
    b.insert(0x0A00_0000, 24, "narrow").unwrap();
    b.insert(0x0A00_0000, 8, "wide").unwrap();
    for addr in [0x0A00_0001u128, 0x0A01_0001, 0x0B00_0000] {
        assert_eq!(a.lookup(addr), b.lookup(addr));
    }
}

fn v4(a: u8, b: u8, c: u8, d: u8) -> IpAddress {
    IpAddress::V4(u32::from_be_bytes([a, b, c, d]))
}

fn registry() -> PrefixRegistry {
    let mut r = PrefixRegistry::new();
    r.insert(v4(203, 0, 113, 0), 24, "acme".to_string(), Some("edge".to_string())).unwrap();
    r
}

fn flow(src: IpAddress, dst: IpAddress) -> netmon::flow::NormalizedFlow {
    NormalizedFlowBuilder {
        source_addr: src,
        destination_addr: dst,
        source_port: None,
        destination_port: None,
        protocol: Some(Protocol::Udp),
        tcp_flags: None,
        raw_bytes: 100,
        raw_packets: 1,
        input_interface: None,
        output_interface: None,
        source_asn: None,
        destination_asn: None,
        exporter: v4(198, 51, 100, 1),
        observation_domain_id: 0,
        start_time: None,
        end_time: None,
        fragmented: false,
        dropped: false,
        forwarding_status_known: true,
    }
    .build(SamplingRate::unsampled(), SamplingSource::Unsampled)
    .unwrap()
}

#[test]
fn a_registry_refuses_an_exact_duplicate_and_reports_overlaps() {
    let mut r = registry();
    assert_eq!(
        r.insert(v4(203, 0, 113, 0), 24, "other".to_string(), None),
        Err(RegistryError::DuplicatePrefix)
    );
    let overlaps = r.insert(v4(203, 0, 0, 0), 16, "wide".to_string(), None).unwrap();
    assert_eq!(overlaps.len(), 1);
    assert_eq!(r.len(), 2);
    let m = r.lookup(v4(203, 0, 113, 9)).unwrap();
    assert_eq!(m.matched_prefix_len, 24);
    assert_eq!(m.entry.tenant, "acme");
}

#[test]
fn classification_follows_which_ends_are_local() {
    let r = registry();
    let inside = v4(203, 0, 113, 7);
    let outside = v4(198, 51, 100, 9);
    let c = classify(&r, &flow(outside, inside));
    assert_eq!(c.direction, Direction::Incoming);
    assert_eq!(c.destination_matched_tenant.as_deref(), Some("acme"));
    assert_eq!(
        c.reason,
        "source 198.51.100.9 matched no local prefix; destination 203.0.113.7 matched a local prefix (/24) \u{2014} classified Incoming"
    );
    assert_eq!(classify(&r, &flow(inside, outside)).direction, Direction::Outgoing);
    assert_eq!(classify(&r, &flow(inside, inside)).direction, Direction::Internal);
    assert_eq!(classify(&r, &flow(outside, outside)).direction, Direction::Other);
    assert_eq!(classify(&PrefixRegistry::new(), &flow(outside, inside)).direction, Direction::Unknown);
}

#[test]
fn building_a_registry_collects_every_bad_entry() {
    let entries = vec![
        PrefixConfigEntry { network: v4(10, 0, 0, 0), prefix_len: 8, tenant: "a".to_string(), hostgroup: None },
        PrefixConfigEntry { network: v4(10, 0, 0, 0), prefix_len: 8, tenant: "b".to_string(), hostgroup: None },
        PrefixConfigEntry { network: v4(10, 0, 0, 0), prefix_len: 40, tenant: "c".to_string(), hostgroup: None },
    ];
    let errors = build_registry(&entries).err().unwrap();
    assert_eq!(errors.len(), 2);
    let ok = build_registry(&entries[..1].to_vec()).unwrap();
    assert_eq!(ok.registry.len(), 1);
    assert!(ok.warnings.is_empty());
}

#[test]
fn overlap_diagnostics_name_each_overlapping_prefix() {
    let mut r = PrefixRegistry::new();
    assert!(r.insert(v4(10, 0, 0, 0), 8, "a".to_string(), None).unwrap().is_empty());
    let inside = r.insert(v4(10, 0, 0, 0), 24, "a".to_string(), None).unwrap();
    assert_eq!(inside.len(), 1);
    assert_eq!(inside[0].message(), "10.0.0.0/24 is contained within an already-registered /8");
    let around = r.insert(v4(10, 0, 0, 0), 16, "a".to_string(), None).unwrap();
    assert_eq!(around.len(), 2);
    assert_eq!(around[0].message(), "10.0.0.0/16 is contained within an already-registered /8");
    assert_eq!(around[1].message(), "10.0.0.0/16 already contains a more specific, already-registered /24");
    assert!(r.insert(IpAddress::V6(0x2001_0db8 << 96), 32, "a".to_string(), None).unwrap().is_empty());
}
