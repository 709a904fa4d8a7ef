use netmon::input::{AddressFamily, MetricKind, ScopeId, ScopeKey, ScopeType, TrafficDirection};
use netmon::net::IpAddress;
use netmon::policy::{
    DetectionPolicy, ExecutionMode, PolicyDraft, PolicyError, PolicySelector, Severity, TenantPrefixes, Thresholds,
    DEFAULT_CLEAR_PERCENT, WILDCARD_TENANT,
};
use netmon::precedence::{Candidate, PolicySet, PrecedenceReason};

const SEC: u128 = 1_000_000_000;

fn v4(a: [u8; 4]) -> IpAddress {
    IpAddress::V4(u32::from_be_bytes(a))
}

fn policy(id: &str, tenant: &str, scope_type: ScopeType, selector: PolicySelector, priority: i32) -> DetectionPolicy {
    PolicyDraft {
        id: id.to_string(),
        name: id.to_string(),
        description: None,
        enabled: true,
        tenant: tenant.to_string(),
        scope_type,
        selector,
        address_family: None,
        direction: TrafficDirection::Incoming,
        window: 15 * SEC,
        thresholds: Thresholds::new().with(MetricKind::Bps, 1000),
        clear_percent: DEFAULT_CLEAR_PERCENT,
        trigger_for: 15 * SEC,
        clear_for: 30 * SEC,
        cooldown: 60 * SEC,
        hold_down: 30 * SEC,
        event_update_interval: 60 * SEC,
        severity: Severity::Major,
        execution_mode: ExecutionMode::AlertOnly,
        priority,
        labels: Vec::new(),
        version: 1,
    }
    .validate(&TenantPrefixes::new())
    .unwrap()
}

fn host_key() -> ScopeKey {
    ScopeKey {
        tenant: "t1".to_string(),
        scope_type: ScopeType::Host,
        scope_id: ScopeId::Host { addr: v4([192, 0, 2, 10]) },
        direction: TrafficDirection::Incoming,
        address_family: AddressFamily::Ipv4,
    }
}

fn network_key(addr: [u8; 4], len: u8) -> ScopeKey {
    ScopeKey {
        tenant: "t1".to_string(),
        scope_type: ScopeType::Prefix,
        scope_id: ScopeId::Network { addr: v4(addr), prefix_len: len },
        direction: TrafficDirection::Incoming,
        address_family: AddressFamily::Ipv4,
    }
}

#[test]
fn duplicate_policy_ids_are_rejected() {
    let err = PolicySet::from_policies(vec![
        policy("dup", "t1", ScopeType::Host, PolicySelector::Any, 0),
        policy("dup", "t1", ScopeType::Host, PolicySelector::Any, 0),
    ])
    .unwrap_err();
    assert!(matches!(err, PolicyError::DuplicateId { .. }));
}

#[test]
fn no_matching_policy_selects_nothing() {
    let set = PolicySet::from_policies(vec![policy("other-tenant", "t2", ScopeType::Host, PolicySelector::Any, 0)]).unwrap();
    let selection = set.select(&host_key());
    assert_eq!(selection.winner, None);
    assert!(selection.candidates.is_empty());
}

#[test]
fn an_explicit_host_policy_beats_the_tenant_default() {
    let set = PolicySet::from_policies(vec![
        policy("tenant-default", "t1", ScopeType::Host, PolicySelector::Any, 0),
        policy("explicit-host", "t1", ScopeType::Host, PolicySelector::Host { addr: v4([192, 0, 2, 10]) }, 0),
    ])
    .unwrap();
    let selection = set.select(&host_key());
    assert_eq!(selection.winner.as_deref(), Some("explicit-host"));
    assert_eq!(selection.reason, Some(PrecedenceReason::MoreSpecific));
    assert_eq!(selection.candidates.len(), 2);
}

#[test]
fn the_tenant_default_beats_the_global_default() {
    let set = PolicySet::from_policies(vec![
        policy("global-default", WILDCARD_TENANT, ScopeType::Host, PolicySelector::Any, 0),
        policy("tenant-default", "t1", ScopeType::Host, PolicySelector::Any, 0),
    ])
    .unwrap();
    let selection = set.select(&host_key());
    assert_eq!(selection.winner.as_deref(), Some("tenant-default"));
    assert_eq!(selection.reason, Some(PrecedenceReason::MoreSpecific));
}

#[test]
fn the_global_default_applies_when_the_tenant_has_none() {
    let set =
        PolicySet::from_policies(vec![policy("global-default", WILDCARD_TENANT, ScopeType::Host, PolicySelector::Any, 0)])
            .unwrap();
    let selection = set.select(&host_key());
    assert_eq!(selection.winner.as_deref(), Some("global-default"));
    assert_eq!(selection.reason, Some(PrecedenceReason::OnlyCandidate));
}

#[test]
fn the_longest_matching_prefix_wins() {
    let set = PolicySet::from_policies(vec![
        policy("short", "t1", ScopeType::Prefix, PolicySelector::Network { addr: v4([198, 51, 0, 0]), prefix_len: 16 }, 0),
        policy("long", "t1", ScopeType::Prefix, PolicySelector::Network { addr: v4([198, 51, 100, 0]), prefix_len: 24 }, 0),
    ])
    .unwrap();
    // Only the /24 policy matches the /24 scope exactly: a prefix policy
    // targets a prefix scope by identity, not by containment.
    let selection = set.select(&network_key([198, 51, 100, 0], 24));
    assert_eq!(selection.winner.as_deref(), Some("long"));
}

#[test]
fn explicit_priority_breaks_a_specificity_tie() {
    let set = PolicySet::from_policies(vec![
        policy("aaa-low", "t1", ScopeType::Host, PolicySelector::Any, 1),
        policy("zzz-high", "t1", ScopeType::Host, PolicySelector::Any, 99),
    ])
    .unwrap();
    let selection = set.select(&host_key());
    assert_eq!(selection.winner.as_deref(), Some("zzz-high"));
    assert_eq!(selection.reason, Some(PrecedenceReason::HigherPriority));
}

#[test]
fn a_full_tie_falls_back_to_the_lowest_id_and_says_so() {
    let set = PolicySet::from_policies(vec![
        policy("bbb", "t1", ScopeType::Host, PolicySelector::Any, 0),
        policy("aaa", "t1", ScopeType::Host, PolicySelector::Any, 0),
    ])
    .unwrap();
    let selection = set.select(&host_key());
    assert_eq!(selection.winner.as_deref(), Some("aaa"));
    assert_eq!(selection.reason, Some(PrecedenceReason::LowestId));
}

#[test]
fn selection_is_identical_across_many_runs() {
    let expected = {
        let set = PolicySet::from_policies(vec![
            policy("p-b", "t1", ScopeType::Host, PolicySelector::Any, 5),
            policy("p-a", "t1", ScopeType::Host, PolicySelector::Any, 5),
            policy("p-c", "t1", ScopeType::Host, PolicySelector::Any, 5),
        ])
        .unwrap();
        set.select(&host_key())
    };
    for _ in 0..50 {
        let set = PolicySet::from_policies(vec![
            policy("p-c", "t1", ScopeType::Host, PolicySelector::Any, 5),
            policy("p-a", "t1", ScopeType::Host, PolicySelector::Any, 5),
            policy("p-b", "t1", ScopeType::Host, PolicySelector::Any, 5),
        ])
        .unwrap();
        assert_eq!(set.select(&host_key()), expected);
    }
}

#[test]
fn candidates_record_which_one_was_selected() {
    let set = PolicySet::from_policies(vec![
        policy("tenant-default", "t1", ScopeType::Host, PolicySelector::Any, 0),
        policy("explicit-host", "t1", ScopeType::Host, PolicySelector::Host { addr: v4([192, 0, 2, 10]) }, 0),
    ])
    .unwrap();
    let selection = set.select(&host_key());
    let selected: Vec<&Candidate> = selection.candidates.iter().filter(|c| c.selected).collect();
    assert_eq!(selected.len(), 1);
    assert_eq!(selected[0].policy_id, "explicit-host");
}

#[test]
fn a_disabled_policy_is_not_even_a_candidate() {
    let mut disabled = policy("disabled", "t1", ScopeType::Host, PolicySelector::Any, 0);
    disabled.enabled = false;
    let set = PolicySet::from_policies(vec![disabled]).unwrap();
    assert!(set.select(&host_key()).candidates.is_empty());
}

#[test]
fn policies_for_a_different_direction_do_not_compete() {
    let mut outgoing = policy("outgoing", "t1", ScopeType::Host, PolicySelector::Any, 100);
    outgoing.direction = TrafficDirection::Outgoing;
    let set =
        PolicySet::from_policies(vec![outgoing, policy("incoming", "t1", ScopeType::Host, PolicySelector::Any, 0)]).unwrap();
    assert_eq!(
        set.select(&host_key()).winner.as_deref(),
        Some("incoming"),
        "an outgoing policy must not govern incoming traffic however high its priority"
    );
}

#[test]
fn a_family_specific_policy_beats_a_family_agnostic_one() {
    let mut v4_only = policy("v4-only", "t1", ScopeType::Host, PolicySelector::Any, 0);
    v4_only.address_family = Some(AddressFamily::Ipv4);
    let set =
        PolicySet::from_policies(vec![v4_only, policy("any-family", "t1", ScopeType::Host, PolicySelector::Any, 0)]).unwrap();
    assert_eq!(set.select(&host_key()).winner.as_deref(), Some("v4-only"));
}

#[test]
fn scope_types_never_compete_with_each_other() {
    let set = PolicySet::from_policies(vec![
        policy("hostgroup", "t1", ScopeType::HostgroupTotal, PolicySelector::Any, 1000),
        policy("host", "t1", ScopeType::Host, PolicySelector::Any, 0),
    ])
    .unwrap();
    assert_eq!(set.select(&host_key()).winner.as_deref(), Some("host"));
}
