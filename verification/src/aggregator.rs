//! The traffic aggregator: bounded, multi-dimensional aggregation over
//! normalized flows.
//!
//! Accounting is two-sided: for hosts, networks, ASNs and hostgroups
//! both ends of a flow contribute, so a flow from A to B counts toward
//! both A's and B's totals. Instants are nanoseconds.

use vstd::prelude::*;

verus! {

use crate::bounded_map::{BoundedMap, BoundedMapConfig, BoundedView, MapKey, UpsertOutcome};
use crate::counters::{counters_after, zero_counters, TrafficCounters};
use crate::direction::ClassificationResult;
use crate::flow::{NormalizedFlow, Protocol};
use crate::net::IpAddress;
use crate::rate_window::{fresh_windows, recorded, rolled, RateWindowSet, Window, WindowTotals};
use crate::window::{mask, mask_spec};

/// How the aggregator is bounded, and which extra prefix lengths it
/// aggregates at (IPv4 always gets /24 too).
#[derive(Debug, Clone, PartialEq, Eq)]
pub struct AggregatorConfig {
    pub max_hosts: usize,
    pub max_networks: usize,
    pub max_hostgroups: usize,
    pub max_asns: usize,
    pub max_exporters: usize,
    pub max_interfaces: usize,
    pub max_protocols: usize,
    pub inactivity_ttl: u128,
    pub ipv4_prefix_lengths: Vec<u8>,
    pub ipv6_prefix_lengths: Vec<u8>,
}

/// The lengths fit their families (masking by a longer length would
/// overflow the mask's shift), and one flow's keys, two per configured
/// length and at most twelve others, can each be counted in the report's
/// `u32` eviction and rejection counts, which a longer list would
/// overflow.
pub open spec fn config_ok(c: AggregatorConfig) -> bool {
    &&& forall|i: int| 0 <= i < c.ipv4_prefix_lengths@.len() ==> #[trigger] c.ipv4_prefix_lengths@[i] <= 32
    &&& forall|i: int| 0 <= i < c.ipv6_prefix_lengths@.len() ==> #[trigger] c.ipv6_prefix_lengths@[i] <= 128
    &&& 2 * (c.ipv4_prefix_lengths@.len() + c.ipv6_prefix_lengths@.len()) + 12 <= u32::MAX
}

impl Default for AggregatorConfig {
    fn default() -> (r: AggregatorConfig)
        ensures
            r.max_hosts == 100_000 && r.max_networks == 50_000 && r.max_hostgroups == 1_000 && r.max_asns == 10_000,
            r.max_exporters == 1_000 && r.max_interfaces == 10_000 && r.max_protocols == 64,
            r.inactivity_ttl == 300_000_000_000,
            r.ipv4_prefix_lengths@.len() == 0 && r.ipv6_prefix_lengths@.len() == 0,
    {
        AggregatorConfig {
            max_hosts: 100_000,
            max_networks: 50_000,
            max_hostgroups: 1_000,
            max_asns: 10_000,
            max_exporters: 1_000,
            max_interfaces: 10_000,
            max_protocols: 64,
            inactivity_ttl: 300_000_000_000,
            ipv4_prefix_lengths: Vec::new(),
            ipv6_prefix_lengths: Vec::new(),
        }
    }
}

/// What one ingest did, for metrics.
#[derive(Debug, Clone, Copy, Default, PartialEq, Eq, Structural)]
pub struct IngestReport {
    pub evictions: u32,
    pub rejections: u32,
}

/// What an upsert of `k` into `m` does.
pub open spec fn step_outcome<KV>(m: BoundedView<KV, TrafficCounters>, k: KV) -> UpsertOutcome {
    if m.config.max_entries == 0 {
        UpsertOutcome::Rejected
    } else if m.entries.dom().contains(k) {
        UpsertOutcome::Updated
    } else if m.entries.len() < m.config.max_entries {
        UpsertOutcome::Inserted
    } else {
        UpsertOutcome::InsertedByEviction
    }
}

/// `m1` is `m0` after one flow was tallied against key `k` at `now`:
/// with no capacity nothing changes; otherwise `k` holds the flow added
/// to its previous counters (or zero ones), stamped `now`, every other
/// key that remains kept its counters, and a new key in a full map
/// displaced at most one key, one with the oldest stamp.
pub open spec fn tallied_into<KV>(m0: BoundedView<KV, TrafficCounters>, m1: BoundedView<KV, TrafficCounters>, k: KV, now: u128, f: NormalizedFlow) -> bool {
    &&& m1.config == m0.config
    &&& m0.config.max_entries == 0 ==> m1 == m0
    &&& m0.config.max_entries > 0 ==> {
        &&& m1.entries.dom().contains(k)
        &&& m1.entries[k] == (counters_after(if m0.entries.dom().contains(k) { m0.entries[k].0 } else { zero_counters() }, f), now)
        &&& forall|k2: KV| k2 != k && #[trigger] m1.entries.dom().contains(k2) ==> m0.entries.dom().contains(k2) && m1.entries[k2] == m0.entries[k2]
        &&& forall|k2: KV| k2 != k && #[trigger] m0.entries.dom().contains(k2) && !m1.entries.dom().contains(k2) ==>
            !m0.entries.dom().contains(k) && forall|k3: KV| #[trigger] m0.entries.dom().contains(k3) ==> m0.entries[k2].1 <= m0.entries[k3].1
    }
}

/// Each step of `states` tallies the next key.
pub open spec fn tally_chain<KV>(states: Seq<BoundedView<KV, TrafficCounters>>, ks: Seq<KV>, now: u128, f: NormalizedFlow) -> bool {
    &&& states.len() == ks.len() + 1
    &&& forall|i: int| 0 <= i < ks.len() ==> #[trigger] tallied_into(states[i], states[i + 1], ks[i], now, f)
}

/// How many steps of a chain evicted an entry.
pub open spec fn evictions_along<KV>(states: Seq<BoundedView<KV, TrafficCounters>>, ks: Seq<KV>) -> nat
    decreases ks.len(),
{
    if ks.len() == 0 {
        0
    } else {
        evictions_along(states, ks.drop_last())
            + if step_outcome(states[ks.len() - 1], ks.last()) == UpsertOutcome::InsertedByEviction { 1nat } else { 0nat }
    }
}

/// `m1` is `m0` after tallying the flow against each of `ks` in turn,
/// `ev` of the steps evicting an entry.
pub open spec fn tallied_all<KV>(m0: BoundedView<KV, TrafficCounters>, m1: BoundedView<KV, TrafficCounters>, ks: Seq<KV>, now: u128, f: NormalizedFlow, ev: nat) -> bool {
    exists|states: Seq<BoundedView<KV, TrafficCounters>>| {
        &&& tally_chain(states, ks, now, f)
        &&& states[0] == m0
        &&& states[ks.len() as int] == m1
        &&& evictions_along(states, ks) == ev
    }
}

proof fn lemma_evictions_prefix<KV>(s1: Seq<BoundedView<KV, TrafficCounters>>, s2: Seq<BoundedView<KV, TrafficCounters>>, ks1: Seq<KV>, ks2: Seq<KV>)
    requires
        ks1.len() <= ks2.len(),
        ks1 == ks2.subrange(0, ks1.len() as int),
        ks1.len() < s1.len(),
        ks1.len() < s2.len(),
        forall|i: int| 0 <= i <= ks1.len() ==> s1[i] == s2[i],
    ensures
        evictions_along(s1, ks1) == evictions_along(s2, ks1),
    decreases ks1.len(),
{
    if ks1.len() > 0 {
        assert(ks1.drop_last() =~= ks2.subrange(0, ks1.len() - 1));
        lemma_evictions_prefix(s1, s2, ks1.drop_last(), ks2);
    }
}

proof fn lemma_evictions_shift<KV>(s: Seq<BoundedView<KV, TrafficCounters>>, a: Seq<BoundedView<KV, TrafficCounters>>, ks: Seq<KV>, off: int, all: Seq<KV>)
    requires
        0 <= off,
        off + ks.len() <= all.len(),
        ks == all.subrange(off, off + ks.len()),
        a.len() >= ks.len() + 1,
        off + ks.len() < s.len(),
        forall|i: int| 0 <= i <= ks.len() ==> s[off + i] == a[i],
    ensures
        evictions_along(s, all.subrange(0, off + ks.len())) == evictions_along(s, all.subrange(0, off)) + evictions_along(a, ks),
    decreases ks.len(),
{
    if ks.len() > 0 {
        let n = ks.len();
        assert(all.subrange(0, off + n).drop_last() =~= all.subrange(0, off + n - 1));
        assert(ks.drop_last() =~= all.subrange(off, off + n - 1));
        lemma_evictions_shift(s, a, ks.drop_last(), off, all);
        assert(all.subrange(0, off + n).last() == ks.last());
        assert(s[off + n - 1] == a[n - 1]);
    } else {
        assert(all.subrange(0, off + 0) =~= all.subrange(0, off));
    }
}

proof fn lemma_tally_concat<KV>(m0: BoundedView<KV, TrafficCounters>, m1: BoundedView<KV, TrafficCounters>, m2: BoundedView<KV, TrafficCounters>, ks1: Seq<KV>, ks2: Seq<KV>, now: u128, f: NormalizedFlow, e1: nat, e2: nat)
    requires
        tallied_all(m0, m1, ks1, now, f, e1),
        tallied_all(m1, m2, ks2, now, f, e2),
    ensures
        tallied_all(m0, m2, ks1 + ks2, now, f, e1 + e2),
{
    let s1 = choose|states: Seq<BoundedView<KV, TrafficCounters>>| {
        &&& tally_chain(states, ks1, now, f)
        &&& states[0] == m0
        &&& states[ks1.len() as int] == m1
        &&& evictions_along(states, ks1) == e1
    };
    let s2 = choose|states: Seq<BoundedView<KV, TrafficCounters>>| {
        &&& tally_chain(states, ks2, now, f)
        &&& states[0] == m1
        &&& states[ks2.len() as int] == m2
        &&& evictions_along(states, ks2) == e2
    };
    let st = s1 + s2.drop_first();
    let ks = ks1 + ks2;
    let n1 = ks1.len() as int;
    assert forall|i: int| 0 <= i < ks.len() implies #[trigger] tallied_into(st[i], st[i + 1], ks[i], now, f) by {
        if i < n1 {
            assert(st[i] == s1[i] && st[i + 1] == s1[i + 1] && ks[i] == ks1[i]);
            assert(tallied_into(s1[i], s1[i + 1], ks1[i], now, f));
        } else {
            assert(st[i] == s2[i - n1] && st[i + 1] == s2[i - n1 + 1] && ks[i] == ks2[i - n1]);
            assert(tallied_into(s2[i - n1], s2[i - n1 + 1], ks2[i - n1], now, f));
        }
    }
    assert(ks.subrange(0, n1) =~= ks1);
    lemma_evictions_prefix(s1, st, ks1, ks);
    assert(ks.subrange(n1, n1 + ks2.len()) =~= ks2);
    lemma_evictions_shift(st, s2, ks2, n1, ks);
    assert(ks.subrange(0, n1 + ks2.len()) =~= ks);
    assert(tally_chain(st, ks, now, f) && st[0] == m0 && st[ks.len() as int] == m2 && evictions_along(st, ks) == e1 + e2);
}

proof fn lemma_tally_one<KV>(m0: BoundedView<KV, TrafficCounters>, m1: BoundedView<KV, TrafficCounters>, k: KV, now: u128, f: NormalizedFlow)
    requires
        tallied_into(m0, m1, k, now, f),
    ensures
        tallied_all(m0, m1, seq![k], now, f, if step_outcome(m0, k) == UpsertOutcome::InsertedByEviction { 1nat } else { 0nat }),
{
    let st = seq![m0, m1];
    let ks = seq![k];
    assert forall|i: int| 0 <= i < ks.len() implies #[trigger] tallied_into(st[i], st[i + 1], ks[i], now, f) by {
        assert(i == 0);
    }
    assert(ks.drop_last() =~= Seq::<KV>::empty());
    assert(evictions_along(st, ks.drop_last()) == 0);
    assert(tally_chain(st, ks, now, f) && st[0] == m0 && st[ks.len() as int] == m1);
}

proof fn lemma_tally_none<KV>(m0: BoundedView<KV, TrafficCounters>, now: u128, f: NormalizedFlow)
    ensures
        tallied_all(m0, m0, Seq::<KV>::empty(), now, f, 0),
{
    let st = seq![m0];
    let ks = Seq::<KV>::empty();
    assert(tally_chain(st, ks, now, f) && st[0] == m0 && st[ks.len() as int] == m0 && evictions_along(st, ks) == 0);
}

/// How many steps of tallying `ks` into a map configured as `m` are
/// refused: all of them when it has no capacity.
pub open spec fn refusals<KV>(m: BoundedView<KV, TrafficCounters>, ks: Seq<KV>) -> nat {
    if m.config.max_entries == 0 { ks.len() } else { 0 }
}

/// Tallies one flow against `key`, counting an eviction or a refusal.
fn track<K: MapKey>(map: &mut BoundedMap<K, TrafficCounters>, key: K, flow: &NormalizedFlow, now: u128, report: &mut IngestReport)
    requires
        old(report).evictions < u32::MAX,
        old(report).rejections < u32::MAX,
    ensures
        tallied_into(old(map)@, final(map)@, key@, now, *flow),
        final(report).evictions == old(report).evictions
            + if step_outcome(old(map)@, key@) == UpsertOutcome::InsertedByEviction { 1u32 } else { 0u32 },
        final(report).rejections == old(report).rejections + if old(map)@.config.max_entries == 0 { 1u32 } else { 0u32 },
{
    let ghost kv = key@;
    let fresh = || -> (r: TrafficCounters) ensures r == zero_counters() { TrafficCounters::default() };
    let add = |c: TrafficCounters| -> (r: TrafficCounters) ensures r == counters_after(c, *flow) { add_flow(c, flow) };
    let outcome = map.upsert(key, now, fresh, add);
    match outcome {
        UpsertOutcome::InsertedByEviction => {
            report.evictions = report.evictions + 1;
        },
        UpsertOutcome::Rejected => {
            report.rejections = report.rejections + 1;
        },
        _ => {},
    }
    proof {
        let m0 = old(map)@;
        let m1 = map@;
        if m0.config.max_entries > 0 {
            if m0.entries.dom().contains(kv) {
                assert(m1.entries == m0.entries.insert(kv, m1.entries[kv]));
            } else {
                let d = choose|d: TrafficCounters| zero_counters() == d && #[trigger] counters_after(d, *flow) == m1.entries[kv].0;
            }
            assert forall|k2: K::V| k2 != kv && #[trigger] m1.entries.dom().contains(k2) implies m0.entries.dom().contains(k2) && m1.entries[k2] == m0.entries[k2] by {
                if !m0.entries.dom().contains(kv) && m0.entries.len() >= m0.config.max_entries {
                    let victim = choose|victim: K::V| #[trigger] m0.entries.dom().contains(victim)
                        && (forall|k: K::V| #[trigger] m0.entries.dom().contains(k) ==> m0.entries[victim].1 <= m0.entries[k].1)
                        && m1.entries == m0.entries.remove(victim).insert(kv, m1.entries[kv]);
                }
            }
            assert forall|k2: K::V| k2 != kv && #[trigger] m0.entries.dom().contains(k2) && !m1.entries.dom().contains(k2) implies
                !m0.entries.dom().contains(kv) && forall|k3: K::V| #[trigger] m0.entries.dom().contains(k3) ==> m0.entries[k2].1 <= m0.entries[k3].1 by {
                if !m0.entries.dom().contains(kv) && m0.entries.len() >= m0.config.max_entries {
                    let victim = choose|victim: K::V| #[trigger] m0.entries.dom().contains(victim)
                        && (forall|k: K::V| #[trigger] m0.entries.dom().contains(k) ==> m0.entries[victim].1 <= m0.entries[k].1)
                        && m1.entries == m0.entries.remove(victim).insert(kv, m1.entries[kv]);
                    assert(k2 == victim);
                }
            }
        }
    }
}

fn add_flow(c: TrafficCounters, flow: &NormalizedFlow) -> (r: TrafficCounters)
    ensures
        r == counters_after(c, *flow),
{
    let mut c = c;
    c.add(flow);
    c
}

/// The views of a sequence of keys.
pub open spec fn keys_view<K: View>(ks: Seq<K>) -> Seq<K::V> {
    ks.map_values(|k: K| k@)
}

/// Tallies one flow against each of `keys` in turn.
fn track_all<K: MapKey>(map: &mut BoundedMap<K, TrafficCounters>, keys: Vec<K>, flow: &NormalizedFlow, now: u128, report: &mut IngestReport)
    requires
        old(report).evictions + keys@.len() <= u32::MAX,
        old(report).rejections + keys@.len() <= u32::MAX,
    ensures
        exists|e: nat| tallied_all(old(map)@, final(map)@, keys_view(keys@), now, *flow, e)
            && final(report).evictions == old(report).evictions + e,
        final(report).rejections == old(report).rejections + refusals(old(map)@, keys_view(keys@)),
        final(report).evictions <= old(report).evictions + keys@.len(),
        final(report).rejections <= old(report).rejections + keys@.len(),
        final(map)@.config == old(map)@.config,
{
    let ghost m0 = map@;
    let ghost kv = keys_view(keys@);
    let ghost e0 = report.evictions;
    let ghost r0 = report.rejections;
    let ghost mut ev: nat = 0;
    let n = keys.len();
    let mut rest = keys;
    let ghost all = rest@;
    let mut i: usize = 0;
    proof {
        lemma_tally_none(m0, now, *flow);
        assert(kv.subrange(0, 0) =~= Seq::<K::V>::empty());
    }
    while rest.len() > 0
        invariant
            i <= n,
            n == all.len(),
            kv == keys_view(all),
            rest@ == all.subrange(i as int, n as int),
            tallied_all(m0, map@, kv.subrange(0, i as int), now, *flow, ev),
            ev <= i,
            report.evictions == e0 + ev,
            report.rejections == r0 + if m0.config.max_entries == 0 { i as nat } else { 0nat },
            map@.config == m0.config,
            e0 + n <= u32::MAX,
            r0 + n <= u32::MAX,
        decreases rest@.len(),
    {
        let k = rest.remove(0);
        let ghost before = map@;
        proof {
            assert(k@ == kv[i as int]);
        }
        track(map, k, flow, now, report);
        proof {
            lemma_tally_one(before, map@, kv[i as int], now, *flow);
            let step: nat = if step_outcome(before, kv[i as int]) == UpsertOutcome::InsertedByEviction { 1nat } else { 0nat };
            lemma_tally_concat(m0, before, map@, kv.subrange(0, i as int), seq![kv[i as int]], now, *flow, ev, step);
            assert(kv.subrange(0, i as int) + seq![kv[i as int]] =~= kv.subrange(0, i + 1));
            ev = ev + step;
            assert(rest@ =~= all.subrange(i + 1, n as int));
        }
        i = i + 1;
    }
    proof {
        assert(kv.subrange(0, n as int) =~= kv);
    }
}

/// The key of an optional reading.
pub open spec fn opt_key<T>(o: Option<T>) -> Seq<T> {
    match o {
        Some(x) => seq![x],
        None => Seq::empty(),
    }
}

/// The IPv4 address of an end, if it is one.
pub open spec fn v4_part(a: IpAddress) -> Seq<u32> {
    match a {
        IpAddress::V4(x) => seq![x],
        IpAddress::V6(_) => Seq::empty(),
    }
}

/// The IPv6 address of an end, if it is one.
pub open spec fn v6_part(a: IpAddress) -> Seq<u128> {
    match a {
        IpAddress::V6(x) => seq![x],
        IpAddress::V4(_) => Seq::empty(),
    }
}

/// An IPv4 address with the bits below `len` cleared.
pub open spec fn mask_v4_spec(a: u32, len: u8) -> u32 {
    match mask_spec(IpAddress::V4(a), len) {
        IpAddress::V4(m) => m,
        IpAddress::V6(_) => 0,
    }
}

/// An IPv6 address with the bits below `len` cleared.
pub open spec fn mask_v6_spec(a: u128, len: u8) -> u128 {
    match mask_spec(IpAddress::V6(a), len) {
        IpAddress::V6(m) => m,
        IpAddress::V4(_) => 0,
    }
}

/// The /24 of an IPv4 end.
pub open spec fn slash24_part(a: IpAddress) -> Seq<u32> {
    match a {
        IpAddress::V4(x) => seq![mask_v4_spec(x, 24)],
        IpAddress::V6(_) => Seq::empty(),
    }
}

/// The networks of an IPv4 end at each configured length, in order.
pub open spec fn v4_nets(a: IpAddress, lens: Seq<u8>) -> Seq<(u32, u8)> {
    match a {
        IpAddress::V4(x) => lens.map_values(|l: u8| (mask_v4_spec(x, l), l)),
        IpAddress::V6(_) => Seq::empty(),
    }
}

/// The networks of an IPv6 end at each configured length, in order.
pub open spec fn v6_nets(a: IpAddress, lens: Seq<u8>) -> Seq<(u128, u8)> {
    match a {
        IpAddress::V6(x) => lens.map_values(|l: u8| (mask_v6_spec(x, l), l)),
        IpAddress::V4(_) => Seq::empty(),
    }
}

/// The text of an optional hostgroup.
pub open spec fn group_key(o: Option<String>) -> Seq<Seq<char>> {
    match o {
        Some(g) => seq![g@],
        None => Seq::empty(),
    }
}

fn mask_v4(a: u32, len: u8) -> (r: u32)
    ensures
        r == mask_v4_spec(a, len),
{
    match mask(IpAddress::V4(a), len) {
        IpAddress::V4(m) => m,
        IpAddress::V6(_) => 0,
    }
}

fn mask_v6(a: u128, len: u8) -> (r: u128)
    ensures
        r == mask_v6_spec(a, len),
{
    match mask(IpAddress::V6(a), len) {
        IpAddress::V6(m) => m,
        IpAddress::V4(_) => 0,
    }
}

fn push_opt<T: View<V = T> + Copy>(v: &mut Vec<T>, o: Option<T>)
    ensures
        final(v)@ == old(v)@ + opt_key(o),
{
    match o {
        Some(x) => {
            v.push(x);
            proof {
                assert(final(v)@ =~= old(v)@ + seq![x]);
            }
        },
        None => {
            proof {
                assert(final(v)@ =~= old(v)@ + Seq::<T>::empty());
            }
        },
    }
}

fn push_v4_nets(v: &mut Vec<(u32, u8)>, a: IpAddress, lens: &Vec<u8>)
    ensures
        final(v)@ == old(v)@ + v4_nets(a, lens@),
{
    match a {
        IpAddress::V4(x) => {
            let mut i: usize = 0;
            while i < lens.len()
                invariant
                    i <= lens@.len(),
                    a == IpAddress::V4(x),
                    v@ == old(v)@ + lens@.subrange(0, i as int).map_values(|l: u8| (mask_v4_spec(x, l), l)),
                decreases lens@.len() - i,
            {
                let l = lens[i];
                v.push((mask_v4(x, l), l));
                proof {
                    assert(lens@.subrange(0, i + 1).map_values(|l: u8| (mask_v4_spec(x, l), l))
                        =~= lens@.subrange(0, i as int).map_values(|l: u8| (mask_v4_spec(x, l), l)).push((mask_v4_spec(x, l), l)));
                }
                i = i + 1;
            }
            proof {
                assert(lens@.subrange(0, lens@.len() as int) =~= lens@);
            }
        },
        IpAddress::V6(_) => {
            proof {
                assert(final(v)@ =~= old(v)@ + Seq::<(u32, u8)>::empty());
            }
        },
    }
}

fn push_v6_nets(v: &mut Vec<(u128, u8)>, a: IpAddress, lens: &Vec<u8>)
    ensures
        final(v)@ == old(v)@ + v6_nets(a, lens@),
{
    match a {
        IpAddress::V6(x) => {
            let mut i: usize = 0;
            while i < lens.len()
                invariant
                    i <= lens@.len(),
                    a == IpAddress::V6(x),
                    v@ == old(v)@ + lens@.subrange(0, i as int).map_values(|l: u8| (mask_v6_spec(x, l), l)),
                decreases lens@.len() - i,
            {
                let l = lens[i];
                v.push((mask_v6(x, l), l));
                proof {
                    assert(lens@.subrange(0, i + 1).map_values(|l: u8| (mask_v6_spec(x, l), l))
                        =~= lens@.subrange(0, i as int).map_values(|l: u8| (mask_v6_spec(x, l), l)).push((mask_v6_spec(x, l), l)));
                }
                i = i + 1;
            }
            proof {
                assert(lens@.subrange(0, lens@.len() as int) =~= lens@);
            }
        },
        IpAddress::V4(_) => {
            proof {
                assert(final(v)@ =~= old(v)@ + Seq::<(u128, u8)>::empty());
            }
        },
    }
}

fn push_group(v: &mut Vec<String>, o: &Option<String>)
    ensures
        keys_view(final(v)@) == keys_view(old(v)@) + group_key(*o),
{
    match o {
        Some(g) => {
            v.push(g.clone());
            proof {
                assert(keys_view(final(v)@) =~= keys_view(old(v)@) + seq![g@]);
            }
        },
        None => {
            proof {
                assert(keys_view(final(v)@) =~= keys_view(old(v)@) + Seq::<Seq<char>>::empty());
            }
        },
    }
}

/// The keys one flow is tallied against, dimension by dimension.
struct DimensionKeys {
    exporters: Vec<IpAddress>,
    inputs: Vec<u32>,
    outputs: Vec<u32>,
    protocols: Vec<Protocol>,
    hosts4: Vec<u32>,
    hosts6: Vec<u128>,
    slash24: Vec<u32>,
    nets4: Vec<(u32, u8)>,
    nets6: Vec<(u128, u8)>,
    asns: Vec<u32>,
    groups: Vec<String>,
}

fn dimension_keys(flow: &NormalizedFlow, c: &ClassificationResult, config: &AggregatorConfig) -> (r: DimensionKeys)
    requires
        config_ok(*config),
    ensures
        keys_view(r.exporters@) == seq![flow.exporter],
        keys_view(r.inputs@) == opt_key(flow.input_interface),
        keys_view(r.outputs@) == opt_key(flow.output_interface),
        keys_view(r.protocols@) == opt_key(flow.protocol),
        keys_view(r.hosts4@) == v4_part(flow.source_addr) + v4_part(flow.destination_addr),
        keys_view(r.hosts6@) == v6_part(flow.source_addr) + v6_part(flow.destination_addr),
        keys_view(r.slash24@) == slash24_part(flow.source_addr) + slash24_part(flow.destination_addr),
        keys_view(r.nets4@) == v4_nets(flow.source_addr, config.ipv4_prefix_lengths@) + v4_nets(flow.destination_addr, config.ipv4_prefix_lengths@),
        keys_view(r.nets6@) == v6_nets(flow.source_addr, config.ipv6_prefix_lengths@) + v6_nets(flow.destination_addr, config.ipv6_prefix_lengths@),
        keys_view(r.asns@) == opt_key(flow.source_asn) + opt_key(flow.destination_asn),
        keys_view(r.groups@) == group_key(c.source_matched_hostgroup) + group_key(c.destination_matched_hostgroup),
        r.exporters@.len() + r.inputs@.len() + r.outputs@.len() + r.protocols@.len() + r.hosts4@.len() + r.hosts6@.len()
            + r.slash24@.len() + r.nets4@.len() + r.nets6@.len() + r.asns@.len() + r.groups@.len() <= u32::MAX,
{
    let src = flow.source_addr;
    let dst = flow.destination_addr;
    let mut exporters: Vec<IpAddress> = Vec::new();
    exporters.push(flow.exporter);
    let mut inputs: Vec<u32> = Vec::new();
    push_opt(&mut inputs, flow.input_interface);
    let mut outputs: Vec<u32> = Vec::new();
    push_opt(&mut outputs, flow.output_interface);
    let mut protocols: Vec<Protocol> = Vec::new();
    push_opt(&mut protocols, flow.protocol);
    let mut hosts4: Vec<u32> = Vec::new();
    let mut hosts6: Vec<u128> = Vec::new();
    let mut slash24: Vec<u32> = Vec::new();
    match src {
        IpAddress::V4(a) => {
            hosts4.push(a);
            slash24.push(mask_v4(a, 24));
        },
        IpAddress::V6(a) => {
            hosts6.push(a);
        },
    }
    match dst {
        IpAddress::V4(a) => {
            hosts4.push(a);
            slash24.push(mask_v4(a, 24));
        },
        IpAddress::V6(a) => {
            hosts6.push(a);
        },
    }
    let mut nets4: Vec<(u32, u8)> = Vec::new();
    push_v4_nets(&mut nets4, src, &config.ipv4_prefix_lengths);
    push_v4_nets(&mut nets4, dst, &config.ipv4_prefix_lengths);
    let mut nets6: Vec<(u128, u8)> = Vec::new();
    push_v6_nets(&mut nets6, src, &config.ipv6_prefix_lengths);
    push_v6_nets(&mut nets6, dst, &config.ipv6_prefix_lengths);
    let mut asns: Vec<u32> = Vec::new();
    push_opt(&mut asns, flow.source_asn);
    push_opt(&mut asns, flow.destination_asn);
    let mut groups: Vec<String> = Vec::new();
    push_group(&mut groups, &c.source_matched_hostgroup);
    push_group(&mut groups, &c.destination_matched_hostgroup);
    proof {
        assert(keys_view(exporters@) =~= seq![flow.exporter]);
        assert(keys_view(inputs@) =~= opt_key(flow.input_interface));
        assert(keys_view(outputs@) =~= opt_key(flow.output_interface));
        assert(keys_view(protocols@) =~= opt_key(flow.protocol));
        assert(keys_view(hosts4@) =~= v4_part(src) + v4_part(dst));
        assert(keys_view(hosts6@) =~= v6_part(src) + v6_part(dst));
        assert(keys_view(slash24@) =~= slash24_part(src) + slash24_part(dst));
        assert(keys_view(nets4@) =~= nets4@);
        assert(keys_view(nets6@) =~= nets6@);
        assert(keys_view(asns@) =~= opt_key(flow.source_asn) + opt_key(flow.destination_asn));
        let l4 = config.ipv4_prefix_lengths@.len();
        let l6 = config.ipv6_prefix_lengths@.len();
        assert(v4_nets(src, config.ipv4_prefix_lengths@).len() <= l4);
        assert(v4_nets(dst, config.ipv4_prefix_lengths@).len() <= l4);
        assert(v6_nets(src, config.ipv6_prefix_lengths@).len() <= l6);
        assert(v6_nets(dst, config.ipv6_prefix_lengths@).len() <= l6);
        assert(groups@.len() == keys_view(groups@).len());
        assert(group_key(c.source_matched_hostgroup).len() <= 1);
        assert(group_key(c.destination_matched_hostgroup).len() <= 1);
    }
    DimensionKeys { exporters, inputs, outputs, protocols, hosts4, hosts6, slash24, nets4, nets6, asns, groups }
}

/// `m1` is `m0` with every entry untouched for longer than the ttl by
/// `now` removed, and the rest kept as they were.
pub open spec fn expired<KV>(m0: BoundedView<KV, TrafficCounters>, m1: BoundedView<KV, TrafficCounters>, now: u128) -> bool {
    &&& m1.config == m0.config
    &&& forall|k: KV| #[trigger] m1.entries.dom().contains(k) <==> (m0.entries.dom().contains(k)
        && crate::bounded_map::elapsed_since(now, m0.entries[k].1) <= m0.config.inactivity_ttl)
    &&& forall|k: KV| #[trigger] m1.entries.dom().contains(k) ==> m1.entries[k] == m0.entries[k]
}

/// `n`, stopping at `usize::MAX`.
pub open spec fn capped(n: int) -> usize {
    if n > usize::MAX { usize::MAX } else { n as usize }
}

/// How many entries an expiry removed across every dimension.
pub open spec fn removed_count(a0: AggregatorView, a1: AggregatorView) -> int {
    (a0.ipv4_hosts.entries.len() - a1.ipv4_hosts.entries.len())
        + (a0.ipv6_hosts.entries.len() - a1.ipv6_hosts.entries.len())
        + (a0.ipv4_slash24.entries.len() - a1.ipv4_slash24.entries.len())
        + (a0.ipv4_networks.entries.len() - a1.ipv4_networks.entries.len())
        + (a0.ipv6_networks.entries.len() - a1.ipv6_networks.entries.len())
        + (a0.hostgroups.entries.len() - a1.hostgroups.entries.len())
        + (a0.asns.entries.len() - a1.asns.entries.len())
        + (a0.exporters.entries.len() - a1.exporters.entries.len())
        + (a0.input_interfaces.entries.len() - a1.input_interfaces.entries.len())
        + (a0.output_interfaces.entries.len() - a1.output_interfaces.entries.len())
        + (a0.protocols.entries.len() - a1.protocols.entries.len())
}

/// The bounded, multi-dimensional aggregation of every flow seen.
pub struct Aggregator {
    config: AggregatorConfig,
    total_counters: TrafficCounters,
    total_ipv4_counters: TrafficCounters,
    total_ipv6_counters: TrafficCounters,
    total_rates: RateWindowSet,
    ipv4_hosts: BoundedMap<u32, TrafficCounters>,
    ipv6_hosts: BoundedMap<u128, TrafficCounters>,
    ipv4_slash24: BoundedMap<u32, TrafficCounters>,
    ipv4_networks: BoundedMap<(u32, u8), TrafficCounters>,
    ipv6_networks: BoundedMap<(u128, u8), TrafficCounters>,
    hostgroups: BoundedMap<String, TrafficCounters>,
    asns: BoundedMap<u32, TrafficCounters>,
    exporters: BoundedMap<IpAddress, TrafficCounters>,
    input_interfaces: BoundedMap<u32, TrafficCounters>,
    output_interfaces: BoundedMap<u32, TrafficCounters>,
    protocols: BoundedMap<Protocol, TrafficCounters>,
}

/// An [`Aggregator`] as values.
pub struct AggregatorView {
    pub config: AggregatorConfig,
    pub total: TrafficCounters,
    pub total_ipv4: TrafficCounters,
    pub total_ipv6: TrafficCounters,
    pub rates: Seq<Window>,
    pub ipv4_hosts: BoundedView<u32, TrafficCounters>,
    pub ipv6_hosts: BoundedView<u128, TrafficCounters>,
    pub ipv4_slash24: BoundedView<u32, TrafficCounters>,
    pub ipv4_networks: BoundedView<(u32, u8), TrafficCounters>,
    pub ipv6_networks: BoundedView<(u128, u8), TrafficCounters>,
    pub hostgroups: BoundedView<Seq<char>, TrafficCounters>,
    pub asns: BoundedView<u32, TrafficCounters>,
    pub exporters: BoundedView<IpAddress, TrafficCounters>,
    pub input_interfaces: BoundedView<u32, TrafficCounters>,
    pub output_interfaces: BoundedView<u32, TrafficCounters>,
    pub protocols: BoundedView<Protocol, TrafficCounters>,
}

impl View for Aggregator {
    type V = AggregatorView;

    closed spec fn view(&self) -> AggregatorView {
        AggregatorView {
            config: self.config,
            total: self.total_counters,
            total_ipv4: self.total_ipv4_counters,
            total_ipv6: self.total_ipv6_counters,
            rates: self.total_rates@,
            ipv4_hosts: self.ipv4_hosts@,
            ipv6_hosts: self.ipv6_hosts@,
            ipv4_slash24: self.ipv4_slash24@,
            ipv4_networks: self.ipv4_networks@,
            ipv6_networks: self.ipv6_networks@,
            hostgroups: self.hostgroups@,
            asns: self.asns@,
            exporters: self.exporters@,
            input_interfaces: self.input_interfaces@,
            output_interfaces: self.output_interfaces@,
            protocols: self.protocols@,
        }
    }
}

/// The configuration of a map capped at `max` under `c`.
pub open spec fn map_config_of(max: usize, c: AggregatorConfig) -> BoundedMapConfig {
    BoundedMapConfig { max_entries: max, inactivity_ttl: c.inactivity_ttl }
}

/// What one ingest does: the totals count the flow (the family ones by
/// the source's family), every rate window records it, and each
/// dimension tallies it against its keys: hosts, /24s and networks of
/// both ends, both ASNs and both hostgroups, the exporter, both
/// interfaces and the protocol, evictions and refusals reported.
pub open spec fn ingested(a0: AggregatorView, a1: AggregatorView, f: NormalizedFlow, c: ClassificationResult, now: u128, r: IngestReport) -> bool {
    let lens4 = a0.config.ipv4_prefix_lengths@;
    let lens6 = a0.config.ipv6_prefix_lengths@;
    let src = f.source_addr;
    let dst = f.destination_addr;
    &&& a1.config == a0.config
    &&& a1.total == counters_after(a0.total, f)
    &&& a1.total_ipv4 == if src is V4 { counters_after(a0.total_ipv4, f) } else { a0.total_ipv4 }
    &&& a1.total_ipv6 == if src is V6 { counters_after(a0.total_ipv6, f) } else { a0.total_ipv6 }
    &&& a1.rates.len() == a0.rates.len()
    &&& forall|i: int| 0 <= i < a0.rates.len() ==> #[trigger] a1.rates[i] == recorded(a0.rates[i], now, f.bytes, f.packets)
    &&& exists|e: Seq<nat>| {
        &&& e.len() == 11
        &&& tallied_all(a0.exporters, a1.exporters, seq![f.exporter], now, f, e[0])
        &&& tallied_all(a0.input_interfaces, a1.input_interfaces, opt_key(f.input_interface), now, f, e[1])
        &&& tallied_all(a0.output_interfaces, a1.output_interfaces, opt_key(f.output_interface), now, f, e[2])
        &&& tallied_all(a0.protocols, a1.protocols, opt_key(f.protocol), now, f, e[3])
        &&& tallied_all(a0.ipv4_hosts, a1.ipv4_hosts, v4_part(src) + v4_part(dst), now, f, e[4])
        &&& tallied_all(a0.ipv6_hosts, a1.ipv6_hosts, v6_part(src) + v6_part(dst), now, f, e[5])
        &&& tallied_all(a0.ipv4_slash24, a1.ipv4_slash24, slash24_part(src) + slash24_part(dst), now, f, e[6])
        &&& tallied_all(a0.ipv4_networks, a1.ipv4_networks, v4_nets(src, lens4) + v4_nets(dst, lens4), now, f, e[7])
        &&& tallied_all(a0.ipv6_networks, a1.ipv6_networks, v6_nets(src, lens6) + v6_nets(dst, lens6), now, f, e[8])
        &&& tallied_all(a0.asns, a1.asns, opt_key(f.source_asn) + opt_key(f.destination_asn), now, f, e[9])
        &&& tallied_all(a0.hostgroups, a1.hostgroups, group_key(c.source_matched_hostgroup) + group_key(c.destination_matched_hostgroup), now, f, e[10])
        &&& r.evictions == e[0] + e[1] + e[2] + e[3] + e[4] + e[5] + e[6] + e[7] + e[8] + e[9] + e[10]
    }
    &&& r.rejections == refusals(a0.exporters, seq![f.exporter]) + refusals(a0.input_interfaces, opt_key(f.input_interface))
        + refusals(a0.output_interfaces, opt_key(f.output_interface)) + refusals(a0.protocols, opt_key(f.protocol))
        + refusals(a0.ipv4_hosts, v4_part(src) + v4_part(dst)) + refusals(a0.ipv6_hosts, v6_part(src) + v6_part(dst))
        + refusals(a0.ipv4_slash24, slash24_part(src) + slash24_part(dst))
        + refusals(a0.ipv4_networks, v4_nets(src, lens4) + v4_nets(dst, lens4))
        + refusals(a0.ipv6_networks, v6_nets(src, lens6) + v6_nets(dst, lens6))
        + refusals(a0.asns, opt_key(f.source_asn) + opt_key(f.destination_asn))
        + refusals(a0.hostgroups, group_key(c.source_matched_hostgroup) + group_key(c.destination_matched_hostgroup))
}

/// The counters `m` held for `k` before a tally: its own, or zero ones
/// for a key it does not hold.
pub open spec fn held_before<KV>(m: BoundedView<KV, TrafficCounters>, k: KV) -> TrafficCounters {
    if m.entries.dom().contains(k) { m.entries[k].0 } else { zero_counters() }
}

proof fn lemma_tally_single<KV>(m0: BoundedView<KV, TrafficCounters>, m1: BoundedView<KV, TrafficCounters>, ks: Seq<KV>, now: u128, f: NormalizedFlow, e: nat)
    requires
        tallied_all(m0, m1, ks, now, f, e),
        ks.len() <= 1,
    ensures
        ks.len() == 0 ==> m1 == m0,
        ks.len() == 1 ==> tallied_into(m0, m1, ks[0], now, f),
{
    let st = choose|states: Seq<BoundedView<KV, TrafficCounters>>| {
        &&& tally_chain(states, ks, now, f)
        &&& states[0] == m0
        &&& states[ks.len() as int] == m1
        &&& evictions_along(states, ks) == e
    };
    if ks.len() == 1 {
        assert(tallied_into(st[0], st[0int + 1], ks[0], now, f));
    }
}

/// One ingest files the flow under the flow's own keys: where the
/// dimension has room, the exporter's entry is the flow's exporter, the
/// ingress interface's is the flow's input interface, the egress
/// interface's its output interface and the protocol's its protocol,
/// each now holding its earlier counters (zero for a new key) with the
/// flow added, stamped `now`; a flow without such a field leaves that
/// dimension as it was; and the totals count the flow.
pub proof fn law_ingest_files_the_flow_under_its_own_keys(a0: AggregatorView, a1: AggregatorView, f: NormalizedFlow, c: ClassificationResult, now: u128, r: IngestReport)
    requires
        ingested(a0, a1, f, c, now, r),
    ensures
        a1.total == counters_after(a0.total, f),
        a0.exporters.config.max_entries > 0 ==> a1.exporters.entries.dom().contains(f.exporter)
            && a1.exporters.entries[f.exporter] == (counters_after(held_before(a0.exporters, f.exporter), f), now),
        f.input_interface matches Some(i) ==> (a0.input_interfaces.config.max_entries > 0 ==> a1.input_interfaces.entries.dom().contains(i)
            && a1.input_interfaces.entries[i] == (counters_after(held_before(a0.input_interfaces, i), f), now)),
        f.input_interface is None ==> a1.input_interfaces == a0.input_interfaces,
        f.output_interface matches Some(o) ==> (a0.output_interfaces.config.max_entries > 0 ==> a1.output_interfaces.entries.dom().contains(o)
            && a1.output_interfaces.entries[o] == (counters_after(held_before(a0.output_interfaces, o), f), now)),
        f.output_interface is None ==> a1.output_interfaces == a0.output_interfaces,
        f.protocol matches Some(p) ==> (a0.protocols.config.max_entries > 0 ==> a1.protocols.entries.dom().contains(p)
            && a1.protocols.entries[p] == (counters_after(held_before(a0.protocols, p), f), now)),
        f.protocol is None ==> a1.protocols == a0.protocols,
{
    let e = choose|e: Seq<nat>| {
        &&& e.len() == 11
        &&& tallied_all(a0.exporters, a1.exporters, seq![f.exporter], now, f, e[0])
        &&& tallied_all(a0.input_interfaces, a1.input_interfaces, opt_key(f.input_interface), now, f, e[1])
        &&& tallied_all(a0.output_interfaces, a1.output_interfaces, opt_key(f.output_interface), now, f, e[2])
        &&& tallied_all(a0.protocols, a1.protocols, opt_key(f.protocol), now, f, e[3])
        &&& tallied_all(a0.ipv4_hosts, a1.ipv4_hosts, v4_part(f.source_addr) + v4_part(f.destination_addr), now, f, e[4])
        &&& tallied_all(a0.ipv6_hosts, a1.ipv6_hosts, v6_part(f.source_addr) + v6_part(f.destination_addr), now, f, e[5])
        &&& tallied_all(a0.ipv4_slash24, a1.ipv4_slash24, slash24_part(f.source_addr) + slash24_part(f.destination_addr), now, f, e[6])
        &&& tallied_all(a0.ipv4_networks, a1.ipv4_networks, v4_nets(f.source_addr, a0.config.ipv4_prefix_lengths@) + v4_nets(f.destination_addr, a0.config.ipv4_prefix_lengths@), now, f, e[7])
        &&& tallied_all(a0.ipv6_networks, a1.ipv6_networks, v6_nets(f.source_addr, a0.config.ipv6_prefix_lengths@) + v6_nets(f.destination_addr, a0.config.ipv6_prefix_lengths@), now, f, e[8])
        &&& tallied_all(a0.asns, a1.asns, opt_key(f.source_asn) + opt_key(f.destination_asn), now, f, e[9])
        &&& tallied_all(a0.hostgroups, a1.hostgroups, group_key(c.source_matched_hostgroup) + group_key(c.destination_matched_hostgroup), now, f, e[10])
        &&& r.evictions == e[0] + e[1] + e[2] + e[3] + e[4] + e[5] + e[6] + e[7] + e[8] + e[9] + e[10]
    };
    lemma_tally_single(a0.exporters, a1.exporters, seq![f.exporter], now, f, e[0]);
    lemma_tally_single(a0.input_interfaces, a1.input_interfaces, opt_key(f.input_interface), now, f, e[1]);
    lemma_tally_single(a0.output_interfaces, a1.output_interfaces, opt_key(f.output_interface), now, f, e[2]);
    lemma_tally_single(a0.protocols, a1.protocols, opt_key(f.protocol), now, f, e[3]);
}

/// `a` is an aggregator just made with `config` at `now`: no traffic
/// counted, every dimension empty, the rate windows starting at `now`.
pub open spec fn fresh_aggregator(a: AggregatorView, config: AggregatorConfig, now: u128) -> bool {
    &&& a.config == config
    &&& a.total == zero_counters() && a.total_ipv4 == zero_counters() && a.total_ipv6 == zero_counters()
    &&& a.rates == fresh_windows(now)
    &&& a.ipv4_hosts.entries.len() == 0 && a.ipv6_hosts.entries.len() == 0
    &&& a.ipv4_slash24.entries.len() == 0 && a.ipv4_networks.entries.len() == 0 && a.ipv6_networks.entries.len() == 0
    &&& a.hostgroups.entries.len() == 0 && a.asns.entries.len() == 0 && a.exporters.entries.len() == 0
    &&& a.input_interfaces.entries.len() == 0 && a.output_interfaces.entries.len() == 0 && a.protocols.entries.len() == 0
}

impl Aggregator {
    /// The maps are configured from the configuration, whose lengths fit
    /// their families.
    pub closed spec fn wf(&self) -> bool {
        &&& config_ok(self.config)
        &&& self.ipv4_hosts@.config == map_config_of(self.config.max_hosts, self.config)
        &&& self.ipv6_hosts@.config == map_config_of(self.config.max_hosts, self.config)
        &&& self.ipv4_slash24@.config == map_config_of(self.config.max_networks, self.config)
        &&& self.ipv4_networks@.config == map_config_of(self.config.max_networks, self.config)
        &&& self.ipv6_networks@.config == map_config_of(self.config.max_networks, self.config)
        &&& self.hostgroups@.config == map_config_of(self.config.max_hostgroups, self.config)
        &&& self.asns@.config == map_config_of(self.config.max_asns, self.config)
        &&& self.exporters@.config == map_config_of(self.config.max_exporters, self.config)
        &&& self.input_interfaces@.config == map_config_of(self.config.max_interfaces, self.config)
        &&& self.output_interfaces@.config == map_config_of(self.config.max_interfaces, self.config)
        &&& self.protocols@.config == map_config_of(self.config.max_protocols, self.config)
    }

    /// Empty dimensions and zero totals, the rate windows starting at
    /// `now`.
    pub fn new(config: AggregatorConfig, now: u128) -> (r: Aggregator)
        requires
            config_ok(config),
        ensures
            r.wf(),
            r@.config == config,
            r@.total == zero_counters() && r@.total_ipv4 == zero_counters() && r@.total_ipv6 == zero_counters(),
            r@.rates == fresh_windows(now),
            r@.ipv4_hosts.entries.len() == 0 && r@.ipv6_hosts.entries.len() == 0,
            r@.ipv4_slash24.entries.len() == 0 && r@.ipv4_networks.entries.len() == 0 && r@.ipv6_networks.entries.len() == 0,
            r@.hostgroups.entries.len() == 0 && r@.asns.entries.len() == 0 && r@.exporters.entries.len() == 0,
            r@.input_interfaces.entries.len() == 0 && r@.output_interfaces.entries.len() == 0 && r@.protocols.entries.len() == 0,
            fresh_aggregator(r@, config, now),
    {
        let ttl = config.inactivity_ttl;
        let hosts_cfg = BoundedMapConfig { max_entries: config.max_hosts, inactivity_ttl: ttl };
        let networks_cfg = BoundedMapConfig { max_entries: config.max_networks, inactivity_ttl: ttl };
        Aggregator {
            total_counters: TrafficCounters::default(),
            total_ipv4_counters: TrafficCounters::default(),
            total_ipv6_counters: TrafficCounters::default(),
            total_rates: RateWindowSet::new(now),
            ipv4_hosts: BoundedMap::new(hosts_cfg),
            ipv6_hosts: BoundedMap::new(hosts_cfg),
            ipv4_slash24: BoundedMap::new(networks_cfg),
            ipv4_networks: BoundedMap::new(networks_cfg),
            ipv6_networks: BoundedMap::new(networks_cfg),
            hostgroups: BoundedMap::new(BoundedMapConfig { max_entries: config.max_hostgroups, inactivity_ttl: ttl }),
            asns: BoundedMap::new(BoundedMapConfig { max_entries: config.max_asns, inactivity_ttl: ttl }),
            exporters: BoundedMap::new(BoundedMapConfig { max_entries: config.max_exporters, inactivity_ttl: ttl }),
            input_interfaces: BoundedMap::new(BoundedMapConfig { max_entries: config.max_interfaces, inactivity_ttl: ttl }),
            output_interfaces: BoundedMap::new(BoundedMapConfig { max_entries: config.max_interfaces, inactivity_ttl: ttl }),
            protocols: BoundedMap::new(BoundedMapConfig { max_entries: config.max_protocols, inactivity_ttl: ttl }),
            config,
        }
    }

    /// Ingests one classified flow into every dimension it belongs to
    /// (see [`ingested`]).
    #[verifier::rlimit(60)]
    pub fn ingest(&mut self, flow: &NormalizedFlow, classification: &ClassificationResult, now: u128) -> (r: IngestReport)
        requires
            old(self).wf(),
        ensures
            final(self).wf(),
            ingested(old(self)@, final(self)@, *flow, *classification, now, r),
    {
        let ghost a0 = self@;
        let mut report = IngestReport { evictions: 0, rejections: 0 };
        self.total_counters.add(flow);
        match flow.source_addr {
            IpAddress::V4(_) => self.total_ipv4_counters.add(flow),
            IpAddress::V6(_) => self.total_ipv6_counters.add(flow),
        }
        self.total_rates.record(now, flow.bytes, flow.packets);

        let keys = dimension_keys(flow, classification, &self.config);
        let ghost k0 = seq![flow.exporter];
        let ghost k4 = v4_part(flow.source_addr) + v4_part(flow.destination_addr);
        let ghost k5 = v6_part(flow.source_addr) + v6_part(flow.destination_addr);
        let ghost k6 = slash24_part(flow.source_addr) + slash24_part(flow.destination_addr);
        let ghost k7 = v4_nets(flow.source_addr, a0.config.ipv4_prefix_lengths@) + v4_nets(flow.destination_addr, a0.config.ipv4_prefix_lengths@);
        let ghost k8 = v6_nets(flow.source_addr, a0.config.ipv6_prefix_lengths@) + v6_nets(flow.destination_addr, a0.config.ipv6_prefix_lengths@);
        let ghost k9 = opt_key(flow.source_asn) + opt_key(flow.destination_asn);
        let ghost k10 = group_key(classification.source_matched_hostgroup) + group_key(classification.destination_matched_hostgroup);
        let DimensionKeys { exporters, inputs, outputs, protocols, hosts4, hosts6, slash24, nets4, nets6, asns, groups } = keys;
        let ghost before0 = report.evictions;
        track_all(&mut self.exporters, exporters, flow, now, &mut report);
        let ghost e0: nat = choose|e: nat| tallied_all(a0.exporters, self.exporters@, k0, now, *flow, e) && report.evictions == before0 + e;
        let ghost before1 = report.evictions;
        track_all(&mut self.input_interfaces, inputs, flow, now, &mut report);
        let ghost e1: nat = choose|e: nat| tallied_all(a0.input_interfaces, self.input_interfaces@, opt_key(flow.input_interface), now, *flow, e) && report.evictions == before1 + e;
        let ghost before2 = report.evictions;
        track_all(&mut self.output_interfaces, outputs, flow, now, &mut report);
        let ghost e2: nat = choose|e: nat| tallied_all(a0.output_interfaces, self.output_interfaces@, opt_key(flow.output_interface), now, *flow, e) && report.evictions == before2 + e;
        let ghost before3 = report.evictions;
        track_all(&mut self.protocols, protocols, flow, now, &mut report);
        let ghost e3: nat = choose|e: nat| tallied_all(a0.protocols, self.protocols@, opt_key(flow.protocol), now, *flow, e) && report.evictions == before3 + e;
        let ghost before4 = report.evictions;
        track_all(&mut self.ipv4_hosts, hosts4, flow, now, &mut report);
        let ghost e4: nat = choose|e: nat| tallied_all(a0.ipv4_hosts, self.ipv4_hosts@, k4, now, *flow, e) && report.evictions == before4 + e;
        let ghost before5 = report.evictions;
        track_all(&mut self.ipv6_hosts, hosts6, flow, now, &mut report);
        let ghost e5: nat = choose|e: nat| tallied_all(a0.ipv6_hosts, self.ipv6_hosts@, k5, now, *flow, e) && report.evictions == before5 + e;
        let ghost before6 = report.evictions;
        track_all(&mut self.ipv4_slash24, slash24, flow, now, &mut report);
        let ghost e6: nat = choose|e: nat| tallied_all(a0.ipv4_slash24, self.ipv4_slash24@, k6, now, *flow, e) && report.evictions == before6 + e;
        let ghost before7 = report.evictions;
        track_all(&mut self.ipv4_networks, nets4, flow, now, &mut report);
        let ghost e7: nat = choose|e: nat| tallied_all(a0.ipv4_networks, self.ipv4_networks@, k7, now, *flow, e) && report.evictions == before7 + e;
        let ghost before8 = report.evictions;
        track_all(&mut self.ipv6_networks, nets6, flow, now, &mut report);
        let ghost e8: nat = choose|e: nat| tallied_all(a0.ipv6_networks, self.ipv6_networks@, k8, now, *flow, e) && report.evictions == before8 + e;
        let ghost before9 = report.evictions;
        track_all(&mut self.asns, asns, flow, now, &mut report);
        let ghost e9: nat = choose|e: nat| tallied_all(a0.asns, self.asns@, k9, now, *flow, e) && report.evictions == before9 + e;
        let ghost before10 = report.evictions;
        track_all(&mut self.hostgroups, groups, flow, now, &mut report);
        let ghost e10: nat = choose|e: nat| tallied_all(a0.hostgroups, self.hostgroups@, k10, now, *flow, e) && report.evictions == before10 + e;
        proof {
            let e = seq![e0, e1, e2, e3, e4, e5, e6, e7, e8, e9, e10];
            assert(e[0] == e0 && e[1] == e1 && e[2] == e2 && e[3] == e3 && e[4] == e4 && e[5] == e5);
            assert(e[6] == e6 && e[7] == e7 && e[8] == e8 && e[9] == e9 && e[10] == e10);
            assert(e.len() == 11);
        }
        report
    }

    /// Expires every dimension's entries untouched for longer than the
    /// inactivity ttl, and finishes the rate windows due by `now`.
    /// Returns how many entries were removed in all (stopping at
    /// `usize::MAX`).
    pub fn expire_inactive(&mut self, now: u128) -> (r: usize)
        requires
            old(self).wf(),
        ensures
            final(self).wf(),
            ({
                let a0 = old(self)@;
                let a1 = final(self)@;
                &&& a1.config == a0.config && a1.total == a0.total && a1.total_ipv4 == a0.total_ipv4 && a1.total_ipv6 == a0.total_ipv6
                &&& a1.rates.len() == a0.rates.len()
                &&& forall|i: int| 0 <= i < a0.rates.len() ==> #[trigger] a1.rates[i] == rolled(a0.rates[i], now)
                &&& expired(a0.ipv4_hosts, a1.ipv4_hosts, now) && expired(a0.ipv6_hosts, a1.ipv6_hosts, now)
                &&& expired(a0.ipv4_slash24, a1.ipv4_slash24, now) && expired(a0.ipv4_networks, a1.ipv4_networks, now)
                &&& expired(a0.ipv6_networks, a1.ipv6_networks, now) && expired(a0.hostgroups, a1.hostgroups, now)
                &&& expired(a0.asns, a1.asns, now) && expired(a0.exporters, a1.exporters, now)
                &&& expired(a0.input_interfaces, a1.input_interfaces, now) && expired(a0.output_interfaces, a1.output_interfaces, now)
                &&& expired(a0.protocols, a1.protocols, now)
                &&& r == capped(removed_count(a0, a1))
            }),
    {
        self.total_rates.tick(now);
        let a = self.ipv4_hosts.expire_inactive(now) as u128;
        let b = self.ipv6_hosts.expire_inactive(now) as u128;
        let c = self.ipv4_slash24.expire_inactive(now) as u128;
        let d = self.ipv4_networks.expire_inactive(now) as u128;
        let e = self.ipv6_networks.expire_inactive(now) as u128;
        let f = self.hostgroups.expire_inactive(now) as u128;
        let g = self.asns.expire_inactive(now) as u128;
        let h = self.exporters.expire_inactive(now) as u128;
        let i = self.input_interfaces.expire_inactive(now) as u128;
        let j = self.output_interfaces.expire_inactive(now) as u128;
        let k = self.protocols.expire_inactive(now) as u128;
        let total: u128 = a + b + c + d + e + f + g + h + i + j + k;
        if total > usize::MAX as u128 { usize::MAX } else { total as usize }
    }

    pub fn total_counters(&self) -> (r: TrafficCounters)
        ensures
            r == self@.total,
    {
        self.total_counters
    }

    pub fn total_ipv4_counters(&self) -> (r: TrafficCounters)
        ensures
            r == self@.total_ipv4,
    {
        self.total_ipv4_counters
    }

    pub fn total_ipv6_counters(&self) -> (r: TrafficCounters)
        ensures
            r == self@.total_ipv6,
    {
        self.total_ipv6_counters
    }

    /// Each rate window's duration with the totals of its last finished
    /// period.
    pub fn total_rates(&self) -> (r: Vec<(u128, Option<WindowTotals>)>)
        ensures
            r@.len() == self@.rates.len(),
            forall|i: int| 0 <= i < r@.len() ==> #[trigger] r@[i] == (self@.rates[i].duration, self@.rates[i].last_finalized),
    {
        self.total_rates.totals()
    }

    /// Hosts held, both families (stopping at `usize::MAX`).
    pub fn active_hosts(&self) -> (r: usize)
        ensures
            r == capped((self@.ipv4_hosts.entries.len() + self@.ipv6_hosts.entries.len()) as int),
    {
        let n = self.ipv4_hosts.len() as u128 + self.ipv6_hosts.len() as u128;
        if n > usize::MAX as u128 { usize::MAX } else { n as usize }
    }

    /// Networks held: /24s and configured lengths, both families
    /// (stopping at `usize::MAX`).
    pub fn active_networks(&self) -> (r: usize)
        ensures
            r == capped((self@.ipv4_slash24.entries.len() + self@.ipv4_networks.entries.len() + self@.ipv6_networks.entries.len()) as int),
    {
        let n = self.ipv4_slash24.len() as u128 + self.ipv4_networks.len() as u128 + self.ipv6_networks.len() as u128;
        if n > usize::MAX as u128 { usize::MAX } else { n as usize }
    }

    pub fn active_hostgroups(&self) -> (r: usize)
        ensures
            r == self@.hostgroups.entries.len(),
    {
        self.hostgroups.len()
    }

    pub fn active_asns(&self) -> (r: usize)
        ensures
            r == self@.asns.entries.len(),
    {
        self.asns.len()
    }

    pub fn ipv4_hosts(&self) -> (r: Vec<(&u32, &TrafficCounters)>)
        ensures
            r@.len() == self@.ipv4_hosts.entries.len(),
            forall|i: int| 0 <= i < r@.len() ==> self@.ipv4_hosts.entries.dom().contains(*(#[trigger] r@[i]).0)
                && *r@[i].1 == self@.ipv4_hosts.entries[*r@[i].0].0,
    {
        self.ipv4_hosts.iter()
    }

    pub fn ipv6_hosts(&self) -> (r: Vec<(&u128, &TrafficCounters)>)
        ensures
            r@.len() == self@.ipv6_hosts.entries.len(),
            forall|i: int| 0 <= i < r@.len() ==> self@.ipv6_hosts.entries.dom().contains(*(#[trigger] r@[i]).0)
                && *r@[i].1 == self@.ipv6_hosts.entries[*r@[i].0].0,
    {
        self.ipv6_hosts.iter()
    }

    pub fn ipv4_slash24(&self) -> (r: Vec<(&u32, &TrafficCounters)>)
        ensures
            r@.len() == self@.ipv4_slash24.entries.len(),
            forall|i: int| 0 <= i < r@.len() ==> self@.ipv4_slash24.entries.dom().contains(*(#[trigger] r@[i]).0)
                && *r@[i].1 == self@.ipv4_slash24.entries[*r@[i].0].0,
    {
        self.ipv4_slash24.iter()
    }

    pub fn hostgroups(&self) -> (r: Vec<(&String, &TrafficCounters)>)
        ensures
            r@.len() == self@.hostgroups.entries.len(),
            forall|i: int| 0 <= i < r@.len() ==> self@.hostgroups.entries.dom().contains((#[trigger] r@[i]).0@)
                && *r@[i].1 == self@.hostgroups.entries[r@[i].0@].0,
    {
        self.hostgroups.iter()
    }

    pub fn asns(&self) -> (r: Vec<(&u32, &TrafficCounters)>)
        ensures
            r@.len() == self@.asns.entries.len(),
            forall|i: int| 0 <= i < r@.len() ==> self@.asns.entries.dom().contains(*(#[trigger] r@[i]).0)
                && *r@[i].1 == self@.asns.entries[*r@[i].0].0,
    {
        self.asns.iter()
    }

    pub fn exporters(&self) -> (r: Vec<(&IpAddress, &TrafficCounters)>)
        ensures
            r@.len() == self@.exporters.entries.len(),
            forall|i: int| 0 <= i < r@.len() ==> self@.exporters.entries.dom().contains(*(#[trigger] r@[i]).0)
                && *r@[i].1 == self@.exporters.entries[*r@[i].0].0,
    {
        self.exporters.iter()
    }

    pub fn ipv4_networks(&self) -> (r: Vec<(&(u32, u8), &TrafficCounters)>)
        ensures
            r@.len() == self@.ipv4_networks.entries.len(),
            forall|i: int| 0 <= i < r@.len() ==> self@.ipv4_networks.entries.dom().contains(*(#[trigger] r@[i]).0)
                && *r@[i].1 == self@.ipv4_networks.entries[*r@[i].0].0,
    {
        self.ipv4_networks.iter()
    }

    pub fn ipv6_networks(&self) -> (r: Vec<(&(u128, u8), &TrafficCounters)>)
        ensures
            r@.len() == self@.ipv6_networks.entries.len(),
            forall|i: int| 0 <= i < r@.len() ==> self@.ipv6_networks.entries.dom().contains(*(#[trigger] r@[i]).0)
                && *r@[i].1 == self@.ipv6_networks.entries[*r@[i].0].0,
    {
        self.ipv6_networks.iter()
    }

    pub fn input_interfaces(&self) -> (r: Vec<(&u32, &TrafficCounters)>)
        ensures
            r@.len() == self@.input_interfaces.entries.len(),
            forall|i: int| 0 <= i < r@.len() ==> self@.input_interfaces.entries.dom().contains(*(#[trigger] r@[i]).0)
                && *r@[i].1 == self@.input_interfaces.entries[*r@[i].0].0,
    {
        self.input_interfaces.iter()
    }

    pub fn output_interfaces(&self) -> (r: Vec<(&u32, &TrafficCounters)>)
        ensures
            r@.len() == self@.output_interfaces.entries.len(),
            forall|i: int| 0 <= i < r@.len() ==> self@.output_interfaces.entries.dom().contains(*(#[trigger] r@[i]).0)
                && *r@[i].1 == self@.output_interfaces.entries[*r@[i].0].0,
    {
        self.output_interfaces.iter()
    }
}

} // verus!
