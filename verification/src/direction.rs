//! Traffic direction classification against the local-prefix registry.
//!
//! With no local prefix configured at all, "local" is undefined and the
//! direction is `Unknown` rather than a guess.

use vstd::prelude::*;

verus! {

use crate::flow::NormalizedFlow;
use crate::net::IpAddress;
use crate::registry::{addr_bits, family_prefixes, family_width, PrefixEntry, PrefixRegistry, RegistryView};
use crate::render::{decimal, ip_text, push_decimal, push_ip, push_text, string_from_chars};
use crate::trie::addr_path;

#[derive(Debug, Clone, Copy, PartialEq, Eq, Structural)]
pub enum Direction {
    /// Source is outside configured local prefixes, destination is local.
    Incoming,
    /// Source is local, destination is outside configured local prefixes.
    Outgoing,
    /// Both source and destination are local.
    Internal,
    /// Neither source nor destination is local.
    Other,
    /// Direction could not be determined.
    Unknown,
}

/// The outcome of classifying one flow, including why.
#[derive(Debug, Clone, PartialEq, Eq)]
pub struct ClassificationResult {
    pub direction: Direction,
    pub source_local: Option<bool>,
    pub destination_local: Option<bool>,
    pub source_matched_tenant: Option<String>,
    pub destination_matched_tenant: Option<String>,
    pub source_matched_hostgroup: Option<String>,
    pub destination_matched_hostgroup: Option<String>,
    pub reason: String,
}

/// The longest registered prefix length of `addr` in `m`, searching
/// lengths `k` down to `0`.
pub open spec fn longest_from(m: Map<Seq<bool>, PrefixEntry>, addr: IpAddress, k: int) -> Option<int>
    decreases k + 1,
{
    if k < 0 {
        None
    } else if m.dom().contains(addr_path(addr_bits(addr), family_width(addr), k)) {
        Some(k)
    } else {
        longest_from(m, addr, k - 1)
    }
}

/// The longest local prefix covering `addr`, with its entry.
pub open spec fn local_match(r: RegistryView, addr: IpAddress) -> Option<(PrefixEntry, u8)> {
    let m = family_prefixes(r, addr);
    match longest_from(m, addr, family_width(addr) as int) {
        Some(l) => Some((m[addr_path(addr_bits(addr), family_width(addr), l)], l as u8)),
        None => None,
    }
}

/// The direction of a flow whose ends are local or not.
pub open spec fn direction_for(source_local: bool, destination_local: bool) -> Direction {
    match (source_local, destination_local) {
        (false, true) => Direction::Incoming,
        (true, false) => Direction::Outgoing,
        (true, true) => Direction::Internal,
        (false, false) => Direction::Other,
    }
}

/// Why a flow with the given matches got its direction.
pub open spec fn reason_text(src: IpAddress, dst: IpAddress, s: Option<(PrefixEntry, u8)>, d: Option<(PrefixEntry, u8)>) -> Seq<char> {
    match (s, d) {
        (None, Some((_, dl))) => "source "@ + ip_text(src) + " matched no local prefix; destination "@ + ip_text(dst)
            + " matched a local prefix (/"@ + decimal(dl as nat) + ") \u{2014} classified Incoming"@,
        (Some((_, sl)), None) => "source "@ + ip_text(src) + " matched a local prefix (/"@ + decimal(sl as nat)
            + "); destination "@ + ip_text(dst) + " matched no local prefix \u{2014} classified Outgoing"@,
        (Some((_, sl)), Some((_, dl))) => "source "@ + ip_text(src) + " (/"@ + decimal(sl as nat) + ") and destination "@
            + ip_text(dst) + " (/"@ + decimal(dl as nat) + ") both matched local prefixes \u{2014} classified Internal"@,
        (None, None) => "neither source "@ + ip_text(src) + " nor destination "@ + ip_text(dst)
            + " matched a local prefix \u{2014} classified Other"@,
    }
}

/// The tenant of a match.
pub open spec fn tenant_of(m: Option<(PrefixEntry, u8)>) -> Option<String> {
    match m {
        Some((e, _)) => Some(e.tenant),
        None => None,
    }
}

/// The hostgroup of a match, if it has one.
pub open spec fn hostgroup_of(m: Option<(PrefixEntry, u8)>) -> Option<String> {
    match m {
        Some((e, _)) => e.hostgroup,
        None => None,
    }
}

proof fn lemma_longest_from(m: Map<Seq<bool>, PrefixEntry>, addr: IpAddress, l: int, k: int)
    requires
        0 <= l <= k,
        m.dom().contains(addr_path(addr_bits(addr), family_width(addr), l)),
        forall|j: int| l < j <= k ==> !m.dom().contains(#[trigger] addr_path(addr_bits(addr), family_width(addr), j)),
    ensures
        longest_from(m, addr, k) == Some(l),
    decreases k,
{
    if k > l {
        lemma_longest_from(m, addr, l, k - 1);
    }
}

proof fn lemma_longest_none(m: Map<Seq<bool>, PrefixEntry>, addr: IpAddress, k: int)
    requires
        forall|j: int| 0 <= j <= k ==> !m.dom().contains(#[trigger] addr_path(addr_bits(addr), family_width(addr), j)),
    ensures
        longest_from(m, addr, k) is None,
    decreases k + 1,
{
    if k >= 0 {
        lemma_longest_none(m, addr, k - 1);
    }
}

/// The longest local prefix covering `addr`.
pub(crate) fn local_lookup(registry: &PrefixRegistry, addr: IpAddress) -> (r: Option<(PrefixEntry, u8)>)
    ensures
        r == local_match(registry@, addr),
{
    match registry.lookup(addr) {
        Some(pm) => {
            proof {
                lemma_longest_from(family_prefixes(registry@, addr), addr, pm.matched_prefix_len as int, family_width(addr) as int);
            }
            let e = PrefixEntry {
                tenant: pm.entry.tenant.clone(),
                hostgroup: match &pm.entry.hostgroup {
                    Some(h) => Some(h.clone()),
                    None => None,
                },
                prefix_len: pm.entry.prefix_len,
            };
            Some((e, pm.matched_prefix_len))
        },
        None => {
            proof {
                lemma_longest_none(family_prefixes(registry@, addr), addr, family_width(addr) as int);
            }
            None
        },
    }
}

/// Classifies one flow's direction against `registry`.
pub fn classify(registry: &PrefixRegistry, flow: &NormalizedFlow) -> (r: ClassificationResult)
    ensures
        registry@.len == 0 ==> r.direction == Direction::Unknown && r.source_local is None && r.destination_local is None
            && r.source_matched_tenant is None && r.destination_matched_tenant is None
            && r.source_matched_hostgroup is None && r.destination_matched_hostgroup is None
            && r.reason@ == "no local prefixes are configured; direction cannot be determined"@,
        registry@.len != 0 ==> ({
            let s = local_match(registry@, flow.source_addr);
            let d = local_match(registry@, flow.destination_addr);
            &&& r.direction == direction_for(s is Some, d is Some)
            &&& r.source_local == Some(s is Some)
            &&& r.destination_local == Some(d is Some)
            &&& r.source_matched_tenant == tenant_of(s)
            &&& r.destination_matched_tenant == tenant_of(d)
            &&& r.source_matched_hostgroup == hostgroup_of(s)
            &&& r.destination_matched_hostgroup == hostgroup_of(d)
            &&& r.reason@ == reason_text(flow.source_addr, flow.destination_addr, s, d)
        }),
{
    if registry.is_empty() {
        return ClassificationResult {
            direction: Direction::Unknown,
            source_local: None,
            destination_local: None,
            source_matched_tenant: None,
            destination_matched_tenant: None,
            source_matched_hostgroup: None,
            destination_matched_hostgroup: None,
            reason: String::from_str("no local prefixes are configured; direction cannot be determined"),
        };
    }
    let s = local_lookup(registry, flow.source_addr);
    let d = local_lookup(registry, flow.destination_addr);
    let mut text: Vec<char> = Vec::new();
    let direction = match (&s, &d) {
        (None, Some((_, dl))) => {
            push_text(&mut text, "source ");
            push_ip(&mut text, flow.source_addr);
            push_text(&mut text, " matched no local prefix; destination ");
            push_ip(&mut text, flow.destination_addr);
            push_text(&mut text, " matched a local prefix (/");
            push_decimal(&mut text, *dl as u128);
            push_text(&mut text, ") \u{2014} classified Incoming");
            Direction::Incoming
        },
        (Some((_, sl)), None) => {
            push_text(&mut text, "source ");
            push_ip(&mut text, flow.source_addr);
            push_text(&mut text, " matched a local prefix (/");
            push_decimal(&mut text, *sl as u128);
            push_text(&mut text, "); destination ");
            push_ip(&mut text, flow.destination_addr);
            push_text(&mut text, " matched no local prefix \u{2014} classified Outgoing");
            Direction::Outgoing
        },
        (Some((_, sl)), Some((_, dl))) => {
            push_text(&mut text, "source ");
            push_ip(&mut text, flow.source_addr);
            push_text(&mut text, " (/");
            push_decimal(&mut text, *sl as u128);
            push_text(&mut text, ") and destination ");
            push_ip(&mut text, flow.destination_addr);
            push_text(&mut text, " (/");
            push_decimal(&mut text, *dl as u128);
            push_text(&mut text, ") both matched local prefixes \u{2014} classified Internal");
            Direction::Internal
        },
        (None, None) => {
            push_text(&mut text, "neither source ");
            push_ip(&mut text, flow.source_addr);
            push_text(&mut text, " nor destination ");
            push_ip(&mut text, flow.destination_addr);
            push_text(&mut text, " matched a local prefix \u{2014} classified Other");
            Direction::Other
        },
    };
    proof {
        assert(text@ =~= reason_text(flow.source_addr, flow.destination_addr, s, d));
    }
    let source_local = s.is_some();
    let destination_local = d.is_some();
    let (source_matched_tenant, source_matched_hostgroup) = match s {
        Some((e, _)) => (Some(e.tenant), e.hostgroup),
        None => (None, None),
    };
    let (destination_matched_tenant, destination_matched_hostgroup) = match d {
        Some((e, _)) => (Some(e.tenant), e.hostgroup),
        None => (None, None),
    };
    ClassificationResult {
        direction,
        source_local: Some(source_local),
        destination_local: Some(destination_local),
        source_matched_tenant,
        destination_matched_tenant,
        source_matched_hostgroup,
        destination_matched_hostgroup,
        reason: string_from_chars(text),
    }
}

} // verus!
