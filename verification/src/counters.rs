//! Traffic counters for one aggregation key. Every counter saturates at
//! `u64::MAX` rather than wrapping.

use vstd::prelude::*;

verus! {

use crate::flow::{is_tcp_syn_spec, NormalizedFlow, Protocol};

#[derive(Debug, Clone, Copy, PartialEq, Eq, Structural)]
pub struct TrafficCounters {
    pub bytes: u64,
    pub packets: u64,
    pub flows: u64,
    pub tcp_bytes: u64,
    pub tcp_packets: u64,
    pub udp_bytes: u64,
    pub udp_packets: u64,
    pub icmp_bytes: u64,
    pub icmp_packets: u64,
    pub tcp_syn_packets: u64,
    pub fragmented_packets: u64,
    pub dropped_packets: u64,
}

/// All counters at zero.
pub open spec fn zero_counters() -> TrafficCounters {
    TrafficCounters {
        bytes: 0,
        packets: 0,
        flows: 0,
        tcp_bytes: 0,
        tcp_packets: 0,
        udp_bytes: 0,
        udp_packets: 0,
        icmp_bytes: 0,
        icmp_packets: 0,
        tcp_syn_packets: 0,
        fragmented_packets: 0,
        dropped_packets: 0,
    }
}

impl Default for TrafficCounters {
    fn default() -> (r: Self)
        ensures
            r == zero_counters(),
    {
        TrafficCounters {
            bytes: 0,
            packets: 0,
            flows: 0,
            tcp_bytes: 0,
            tcp_packets: 0,
            udp_bytes: 0,
            udp_packets: 0,
            icmp_bytes: 0,
            icmp_packets: 0,
            tcp_syn_packets: 0,
            fragmented_packets: 0,
            dropped_packets: 0,
        }
    }
}

/// `a + b`, stopping at `u64::MAX`.
pub open spec fn sat_add(a: u64, b: u64) -> u64 {
    if a + b > u64::MAX { u64::MAX } else { (a + b) as u64 }
}

/// `a + b` when `yes`, else `a`.
pub open spec fn add_if(a: u64, b: u64, yes: bool) -> u64 {
    if yes { sat_add(a, b) } else { a }
}

/// The counters after one more flow: totals always; per-protocol bytes
/// and packets for TCP, UDP and ICMP (v4 or v6); SYN packets for a TCP
/// SYN flow; fragmented packets for a fragmented flow; dropped packets
/// only when the forwarding status is known.
pub open spec fn counters_after(c: TrafficCounters, f: NormalizedFlow) -> TrafficCounters {
    let tcp = f.protocol == Some(Protocol::Tcp);
    let udp = f.protocol == Some(Protocol::Udp);
    let icmp = f.protocol == Some(Protocol::Icmp) || f.protocol == Some(Protocol::Icmpv6);
    TrafficCounters {
        bytes: sat_add(c.bytes, f.bytes),
        packets: sat_add(c.packets, f.packets),
        flows: sat_add(c.flows, 1),
        tcp_bytes: add_if(c.tcp_bytes, f.bytes, tcp),
        tcp_packets: add_if(c.tcp_packets, f.packets, tcp),
        udp_bytes: add_if(c.udp_bytes, f.bytes, udp),
        udp_packets: add_if(c.udp_packets, f.packets, udp),
        icmp_bytes: add_if(c.icmp_bytes, f.bytes, icmp),
        icmp_packets: add_if(c.icmp_packets, f.packets, icmp),
        tcp_syn_packets: add_if(c.tcp_syn_packets, f.packets, tcp && is_tcp_syn_spec(f)),
        fragmented_packets: add_if(c.fragmented_packets, f.packets, f.fragmented),
        dropped_packets: add_if(c.dropped_packets, f.packets, f.forwarding_status_known && f.dropped),
    }
}

impl TrafficCounters {
    /// Counts one flow.
    pub fn add(&mut self, flow: &NormalizedFlow)
        ensures
            *final(self) == counters_after(*old(self), *flow),
    {
        self.bytes = self.bytes.saturating_add(flow.bytes);
        self.packets = self.packets.saturating_add(flow.packets);
        self.flows = self.flows.saturating_add(1);
        match flow.protocol {
            Some(Protocol::Tcp) => {
                self.tcp_bytes = self.tcp_bytes.saturating_add(flow.bytes);
                self.tcp_packets = self.tcp_packets.saturating_add(flow.packets);
                if flow.is_tcp_syn() {
                    self.tcp_syn_packets = self.tcp_syn_packets.saturating_add(flow.packets);
                }
            },
            Some(Protocol::Udp) => {
                self.udp_bytes = self.udp_bytes.saturating_add(flow.bytes);
                self.udp_packets = self.udp_packets.saturating_add(flow.packets);
            },
            Some(Protocol::Icmp) | Some(Protocol::Icmpv6) => {
                self.icmp_bytes = self.icmp_bytes.saturating_add(flow.bytes);
                self.icmp_packets = self.icmp_packets.saturating_add(flow.packets);
            },
            _ => {},
        }
        if flow.fragmented {
            self.fragmented_packets = self.fragmented_packets.saturating_add(flow.packets);
        }
        if flow.forwarding_status_known && flow.dropped {
            self.dropped_packets = self.dropped_packets.saturating_add(flow.packets);
        }
    }
}

/// Counting never loses traffic: every counter after a flow is at least
/// what it was, and the flow count grows by one unless already at its
/// maximum.
pub proof fn law_counters_never_decrease(c: TrafficCounters, f: NormalizedFlow)
    ensures
        counters_after(c, f).bytes >= c.bytes,
        counters_after(c, f).packets >= c.packets,
        counters_after(c, f).flows == sat_add(c.flows, 1),
        c.flows < u64::MAX ==> counters_after(c, f).flows == c.flows + 1,
        counters_after(c, f).tcp_bytes >= c.tcp_bytes,
        counters_after(c, f).udp_bytes >= c.udp_bytes,
        counters_after(c, f).icmp_bytes >= c.icmp_bytes,
        counters_after(c, f).dropped_packets >= c.dropped_packets,
{
}

/// `before + by`, capped at the largest `u64`, as an integer.
pub open spec fn capped_sum(before: u64, by: u64) -> int {
    if before + by > u64::MAX { u64::MAX as int } else { before + by }
}

/// `before` grown by `by` (capped) when `yes`, else `before`, as an
/// integer.
pub open spec fn grown_if(before: u64, by: u64, yes: bool) -> int {
    if yes { capped_sum(before, by) } else { before + 0 }
}

/// Each counter grows by the quantity it counts and nothing else: byte
/// counters by the flow's bytes, packet counters by its packets (capped
/// at the largest `u64`), the per-protocol ones only for a flow of their
/// protocol (ICMP for v4 or v6), SYN packets only for a TCP SYN flow,
/// fragmented packets only for a fragmented flow, dropped packets only
/// for a flow known to be dropped. So while nothing saturates, a flow of
/// one protocol raises that protocol's bytes and packets by exactly as
/// much as it raises the totals.
pub proof fn law_each_counter_counts_its_own_quantity(c: TrafficCounters, f: NormalizedFlow)
    ensures
        ({
            let d = counters_after(c, f);
            let tcp = f.protocol == Some(Protocol::Tcp);
            let udp = f.protocol == Some(Protocol::Udp);
            let icmp = f.protocol == Some(Protocol::Icmp) || f.protocol == Some(Protocol::Icmpv6);
            &&& d.bytes == capped_sum(c.bytes, f.bytes)
            &&& d.packets == capped_sum(c.packets, f.packets)
            &&& d.flows == capped_sum(c.flows, 1)
            &&& d.tcp_bytes == grown_if(c.tcp_bytes, f.bytes, tcp)
            &&& d.tcp_packets == grown_if(c.tcp_packets, f.packets, tcp)
            &&& d.udp_bytes == grown_if(c.udp_bytes, f.bytes, udp)
            &&& d.udp_packets == grown_if(c.udp_packets, f.packets, udp)
            &&& d.icmp_bytes == grown_if(c.icmp_bytes, f.bytes, icmp)
            &&& d.icmp_packets == grown_if(c.icmp_packets, f.packets, icmp)
            &&& d.tcp_syn_packets == grown_if(c.tcp_syn_packets, f.packets, tcp && is_tcp_syn_spec(f))
            &&& d.fragmented_packets == grown_if(c.fragmented_packets, f.packets, f.fragmented)
            &&& d.dropped_packets == grown_if(c.dropped_packets, f.packets, f.forwarding_status_known && f.dropped)
        }),
        ({
            let d = counters_after(c, f);
            &&& f.protocol == Some(Protocol::Icmp) && c.packets + f.packets <= u64::MAX && c.icmp_packets + f.packets <= u64::MAX
                ==> d.icmp_packets - c.icmp_packets == d.packets - c.packets
            &&& f.protocol == Some(Protocol::Tcp) && c.packets + f.packets <= u64::MAX && c.tcp_packets + f.packets <= u64::MAX
                ==> d.tcp_packets - c.tcp_packets == d.packets - c.packets
            &&& f.protocol == Some(Protocol::Udp) && c.packets + f.packets <= u64::MAX && c.udp_packets + f.packets <= u64::MAX
                ==> d.udp_packets - c.udp_packets == d.packets - c.packets
        }),
{
}

} // verus!
